//! The application core pulled by the consumer loop: which block holds
//! focus, the transcript, the notifications, the waiting spinner and the
//! cancellation gate — and the one-event-at-a-time handlers that are the
//! only writers of this state.

use vstd::prelude::*;

verus! {

use vstd::string::StringExecFns;
use crate::cancel::CancellationFlag;
use crate::chat::Chat;
use crate::config::KeyBindings;
use crate::events::{Key, KeyInput, Notification};
use crate::prompt::Mode;
use crate::llm::{LLM, LLMAnswer, LLMRole, spec_turn};
use crate::spinner::{Spinner, SPINNER_STEPS};
use crate::text::{to_chars, trim_chars, from_chars, spec_trim};

/// Which block of the interface holds the focus.
#[derive(Debug, Clone, PartialEq, Eq, Structural)]
pub enum FocusedBlock {
    Prompt,
    Chat,
    History,
    Preview,
    Help,
    FileExplorer,
    FileExplorerPreview,
}

/// One tick applied to the notification list: drop the expired, age the
/// rest.
pub open spec fn tick_notifs(ns: Seq<Notification>) -> Seq<Notification>
    decreases ns.len(),
{
    if ns.len() == 0 {
        Seq::<Notification>::empty()
    } else if ns[0].ttl > 0 {
        seq![
            Notification {
                message: ns[0].message,
                level: ns[0].level,
                ttl: (ns[0].ttl - 1) as u16,
            },
        ] + tick_notifs(ns.skip(1))
    } else {
        tick_notifs(ns.skip(1))
    }
}

proof fn lemma_tick_notifs_step(ns: Seq<Notification>, i: int)
    requires
        0 <= i < ns.len(),
    ensures
        ns[i].ttl > 0 ==> tick_notifs(ns.skip(i)) == seq![
            Notification {
                message: ns[i].message,
                level: ns[i].level,
                ttl: (ns[i].ttl - 1) as u16,
            },
        ] + tick_notifs(ns.skip(i + 1)),
        ns[i].ttl == 0 ==> tick_notifs(ns.skip(i)) == tick_notifs(ns.skip(i + 1)),
{
    let t = ns.skip(i);
    assert(t[0] == ns[i]);
    assert(t.skip(1) =~= ns.skip(i + 1));
}

/// What the consumer loop should do with one key, before the key falls
/// through to the prompt editor.
#[derive(Debug, Clone, Copy, PartialEq, Eq, Structural)]
pub enum UiCommand {
    /// Leave the application.
    Quit,
    /// Set the cancellation gate of the streaming call in flight.
    StopStream,
    /// Scroll the focused block down, or up.
    ScrollDown,
    ScrollUp,
    /// Jump the focused block to its bottom, or its top.
    MoveToBottom,
    MoveToTop,
    /// Archive the chat and start a fresh one.
    NewChat,
    /// Export the transcript to the archive file.
    SaveChat,
    /// Turn the selected directory into a prompt on the clipboard.
    CodeToPrompt,
    /// Move the focus to the next block.
    SwitchFocus,
    ShowHelp,
    ShowHistory,
    ShowFileExplorer,
    /// Hand the key to the file browser.
    ExplorerInput,
    /// Close the open popup.
    DismissPopup,
    /// Nothing at this level; the prompt editor may consume the key.
    Pass,
}

/// The command a key means, given the focus, the prompt mode, the previous
/// key, and the configured shortcuts — the dispatch order of the consumer
/// loop, first match wins, a failed guard falling through.
pub open spec fn spec_command_of(
    k: KeyInput,
    focused: FocusedBlock,
    mode: Mode,
    previous: Key,
    kb: KeyBindings,
) -> UiCommand {
    if k.code == Key::Char('q') && mode != Mode::Insert && !k.ctrl {
        UiCommand::Quit
    } else if k.code == Key::Char('c') && k.ctrl {
        UiCommand::Quit
    } else if k.code == Key::Char('t') && k.ctrl {
        UiCommand::StopStream
    } else if k.code == Key::Char('j') || k.code == Key::Down {
        if focused == FocusedBlock::FileExplorer {
            UiCommand::ExplorerInput
        } else {
            UiCommand::ScrollDown
        }
    } else if k.code == Key::Char('k') || k.code == Key::Up {
        if focused == FocusedBlock::FileExplorer {
            UiCommand::ExplorerInput
        } else {
            UiCommand::ScrollUp
        }
    } else if k.code == Key::Char('G') {
        UiCommand::MoveToBottom
    } else if k.code == Key::Char('g') && previous == Key::Char('g') {
        UiCommand::MoveToTop
    } else if k.code == Key::Char(kb.new_chat) && k.ctrl {
        UiCommand::NewChat
    } else if k.code == Key::Char(kb.save_chat) && k.ctrl {
        UiCommand::SaveChat
    } else if k.code == Key::Char(kb.code_to_prompt) && k.ctrl {
        UiCommand::CodeToPrompt
    } else if k.code == Key::Tab {
        UiCommand::SwitchFocus
    } else if k.code == Key::Char(kb.show_help) && mode != Mode::Insert && !k.ctrl {
        UiCommand::ShowHelp
    } else if k.code == Key::Char(kb.show_history) && mode != Mode::Insert && k.ctrl {
        UiCommand::ShowHistory
    } else if k.code == Key::Char(kb.show_file_explorer) && mode != Mode::Insert && k.ctrl {
        UiCommand::ShowFileExplorer
    } else if (k.code == Key::Char('h') || k.code == Key::Left || k.code == Key::Right)
        && focused == FocusedBlock::FileExplorer {
        UiCommand::ExplorerInput
    } else if k.code == Key::Esc && (focused == FocusedBlock::History || focused
        == FocusedBlock::Preview || focused == FocusedBlock::Help || focused
        == FocusedBlock::FileExplorer || focused == FocusedBlock::FileExplorerPreview) {
        UiCommand::DismissPopup
    } else {
        UiCommand::Pass
    }
}

/// Decide the command of one key, exactly as the dispatch order specifies.
pub fn command_of_key(
    k: KeyInput,
    focused: &FocusedBlock,
    mode: &Mode,
    previous: Key,
    kb: &KeyBindings,
) -> (r: UiCommand)
    ensures
        r == spec_command_of(k, *focused, *mode, previous, *kb),
{
    if k.code == Key::Char('q') && *mode != Mode::Insert && !k.ctrl {
        UiCommand::Quit
    } else if k.code == Key::Char('c') && k.ctrl {
        UiCommand::Quit
    } else if k.code == Key::Char('t') && k.ctrl {
        UiCommand::StopStream
    } else if k.code == Key::Char('j') || k.code == Key::Down {
        if *focused == FocusedBlock::FileExplorer {
            UiCommand::ExplorerInput
        } else {
            UiCommand::ScrollDown
        }
    } else if k.code == Key::Char('k') || k.code == Key::Up {
        if *focused == FocusedBlock::FileExplorer {
            UiCommand::ExplorerInput
        } else {
            UiCommand::ScrollUp
        }
    } else if k.code == Key::Char('G') {
        UiCommand::MoveToBottom
    } else if k.code == Key::Char('g') && previous == Key::Char('g') {
        UiCommand::MoveToTop
    } else if k.code == Key::Char(kb.new_chat) && k.ctrl {
        UiCommand::NewChat
    } else if k.code == Key::Char(kb.save_chat) && k.ctrl {
        UiCommand::SaveChat
    } else if k.code == Key::Char(kb.code_to_prompt) && k.ctrl {
        UiCommand::CodeToPrompt
    } else if k.code == Key::Tab {
        UiCommand::SwitchFocus
    } else if k.code == Key::Char(kb.show_help) && *mode != Mode::Insert && !k.ctrl {
        UiCommand::ShowHelp
    } else if k.code == Key::Char(kb.show_history) && *mode != Mode::Insert && k.ctrl {
        UiCommand::ShowHistory
    } else if k.code == Key::Char(kb.show_file_explorer) && *mode != Mode::Insert && k.ctrl {
        UiCommand::ShowFileExplorer
    } else if (k.code == Key::Char('h') || k.code == Key::Left || k.code == Key::Right)
        && *focused == FocusedBlock::FileExplorer {
        UiCommand::ExplorerInput
    } else if k.code == Key::Esc && (*focused == FocusedBlock::History || *focused
        == FocusedBlock::Preview || *focused == FocusedBlock::Help || *focused
        == FocusedBlock::FileExplorer || *focused == FocusedBlock::FileExplorerPreview) {
        UiCommand::DismissPopup
    } else {
        UiCommand::Pass
    }
}

/// The application state that the event handlers mutate.
#[derive(Debug)]
pub struct App {
    pub running: bool,
    pub chat: Chat,
    pub focused_block: FocusedBlock,
    pub notifications: Vec<Notification>,
    pub spinner: Spinner,
    pub terminate_response_signal: CancellationFlag,
    pub history: Vec<Vec<String>>,
}

impl App {
    /// Structural soundness: the transcript keeps its log parity and the
    /// spinner stays inside its glyph cycle.
    pub open spec fn wf(&self) -> bool {
        &&& self.chat.wf()
        &&& self.spinner.index < SPINNER_STEPS
    }

    /// A fresh application: running, prompt focused, everything empty.
    pub fn new() -> (r: App)
        ensures
            r.wf(),
            r.running,
            r.focused_block == FocusedBlock::Prompt,
            r.notifications@.len() == 0,
            !r.terminate_response_signal.requested,
            !r.chat.streaming,
            r.chat.plain_log().len() == 0,
    {
        App {
            running: true,
            chat: Chat::new(),
            focused_block: FocusedBlock::Prompt,
            notifications: Vec::new(),
            spinner: Spinner::new(),
            terminate_response_signal: CancellationFlag::new(),
            history: Vec::new(),
        }
    }

    /// One timer tick: expired notifications leave, the remaining ones age
    /// by one, and the spinner advances while it is active.
    pub fn tick(&mut self)
        requires
            old(self).wf(),
        ensures
            final(self).wf(),
            final(self).notifications@ == tick_notifs(old(self).notifications@),
            old(self).spinner.active ==> final(self).spinner.index == (old(self).spinner.index
                + 1) % (SPINNER_STEPS as int),
            !old(self).spinner.active ==> final(self).spinner == old(self).spinner,
            final(self).spinner.active == old(self).spinner.active,
            final(self).chat == old(self).chat,
            final(self).running == old(self).running,
            final(self).terminate_response_signal == old(self).terminate_response_signal,
    {
        let ghost ns = self.notifications@;
        let mut kept: Vec<Notification> = Vec::new();
        proof {
            assert(kept@ + tick_notifs(ns) =~= tick_notifs(ns));
        }
        while self.notifications.len() > 0
            invariant
                tick_notifs(ns) == kept@ + tick_notifs(self.notifications@),
                self.spinner == old(self).spinner,
                self.chat == old(self).chat,
                self.running == old(self).running,
                self.terminate_response_signal == old(self).terminate_response_signal,
                self.history == old(self).history,
                self.focused_block == old(self).focused_block,
                old(self).wf(),
            decreases self.notifications@.len(),
        {
            let ghost cur = self.notifications@;
            let ghost kept0 = kept@;
            let mut n = self.notifications.remove(0);
            proof {
                assert(n == cur[0]);
                assert(self.notifications@ =~= cur.skip(1));
            }
            if n.ttl > 0 {
                n.ttl = n.ttl - 1;
                proof {
                    assert(n == Notification {
                        message: cur[0].message,
                        level: cur[0].level,
                        ttl: (cur[0].ttl - 1) as u16,
                    });
                }
                kept.push(n);
                proof {
                    let piece = seq![
                        Notification {
                            message: cur[0].message,
                            level: cur[0].level,
                            ttl: (cur[0].ttl - 1) as u16,
                        },
                    ];
                    let rest = tick_notifs(cur.skip(1));
                    assert(tick_notifs(cur) == piece + rest);
                    assert(kept@ =~= kept0 + piece);
                    assert((kept0 + piece) + rest =~= kept0 + (piece + rest));
                }
            } else {
                proof {
                    assert(tick_notifs(cur) == tick_notifs(cur.skip(1)));
                }
            }
        }
        proof {
            assert(tick_notifs(self.notifications@) == Seq::<Notification>::empty());
            assert(kept@ + Seq::<Notification>::empty() =~= kept@);
        }
        self.notifications = kept;
        if self.spinner.active {
            self.spinner.update();
        }
    }

    /// Archive the current chat into the history, reset the transcript, and
    /// empty the provider's conversation: the "new chat" action.
    pub fn new_chat<T: LLM>(&mut self, llm: &mut T)
        requires
            old(self).wf(),
        ensures
            final(self).wf(),
            final(llm).conversation() == Seq::<crate::llm::MessageView>::empty(),
            !final(self).chat.streaming,
            final(self).chat.plain_log().len() == 0,
            final(self).chat.rendered_log().len() == 0,
            final(self).history@.len() == old(self).history@.len() + 1,
            final(self).history@.last()@.map_values(|s: String| s@) == old(self).chat.plain_log(),
    {
        let mut archived = Chat::new();
        core::mem::swap(&mut archived, &mut self.chat);
        self.history.push(archived.plain_chat);
        llm.clear();
    }

    /// Dispatch one streaming answer event: the transcript consumes it, and
    /// around it the consumer's duties are done — the spinner stops at the
    /// opening event, and at the terminal event the completed answer is
    /// appended to the provider's conversation as the assistant turn and
    /// the cancellation gate is reset.
    pub fn handle_llm_event<T: LLM>(&mut self, llm: &mut T, event: LLMAnswer)
        requires
            old(self).wf(),
        ensures
            final(self).wf(),
            match event {
                LLMAnswer::StartAnswer => {
                    &&& !final(self).spinner.active
                    &&& final(llm).conversation() == old(llm).conversation()
                    &&& (!old(self).chat.streaming ==> final(self).chat.streaming && !final(self).chat.waiting)
                    &&& final(self).chat.plain_log() == old(self).chat.plain_log()
                },
                LLMAnswer::Answer(t) => {
                    &&& final(llm).conversation() == old(llm).conversation()
                    &&& (old(self).chat.streaming ==> final(self).chat.answer.plain_answer@ == old(self).chat.answer.plain_answer@ + t@)
                    &&& final(self).chat.plain_log() == old(self).chat.plain_log()
                    &&& final(self).spinner == old(self).spinner
                },
                LLMAnswer::EndAnswer => {
                    &&& final(llm).conversation() == old(llm).conversation().push(
                        spec_turn(LLMRole::ASSISTANT, old(self).chat.answer.plain_answer@),
                    )
                    &&& !final(self).terminate_response_signal.requested
                    &&& (old(self).chat.streaming ==> !final(self).chat.streaming && final(self).chat.plain_log() == old(self).chat.plain_log().push(
                        crate::chat::spec_render(old(self).chat.answer.plain_answer@),
                    ))
                },
            },
    {
        match event {
            LLMAnswer::Answer(t) => {
                self.chat.handle_answer(LLMAnswer::Answer(t));
            },
            LLMAnswer::EndAnswer => {
                let pending = String::from_str(self.chat.answer.plain_answer.as_str());
                llm.append_chat_msg(pending, LLMRole::ASSISTANT);
                self.chat.handle_answer(LLMAnswer::EndAnswer);
                self.terminate_response_signal.reset();
            },
            LLMAnswer::StartAnswer => {
                self.spinner.active = false;
                self.chat.handle_answer(LLMAnswer::StartAnswer);
            },
        }
    }

    /// Submit the prompt text: a blank submission is refused; otherwise the
    /// trimmed turn goes to both transcript logs and to the provider's
    /// conversation, the waiting indicator starts, and the caller is told
    /// to launch the streaming call.
    pub fn submit_user<T: LLM>(&mut self, llm: &mut T, input: &str) -> (launched: bool)
        requires
            old(self).wf(),
        ensures
            final(self).wf(),
            launched <==> spec_trim(input@).len() > 0,
            !launched ==> *final(self) == *old(self) && final(llm).conversation() == old(llm).conversation(),
            launched ==> {
                &&& final(llm).conversation() == old(llm).conversation().push(
                    spec_turn(LLMRole::USER, spec_trim(input@)),
                )
                &&& final(self).chat.plain_log() == old(self).chat.plain_log().push(
                    "\u{1f464} : "@ + spec_trim(input@) + "\n"@,
                )
                &&& final(self).chat.rendered_log() == old(self).chat.rendered_log().push(
                    "\u{1f464}: "@ + spec_trim(input@) + "\n"@,
                )
                &&& final(self).spinner.active
                &&& final(self).chat.waiting
            },
    {
        let trimmed = trim_chars(&to_chars(input));
        if trimmed.len() == 0 {
            return false;
        }
        let text = from_chars(&trimmed);
        self.chat.push_user_turn(text.as_str());
        llm.append_chat_msg(text, LLMRole::USER);
        self.spinner.active = true;
        self.chat.waiting = true;
        true
    }

    /// Surface a transport failure: the caller turns the error text into a
    /// single synthetic assistant turn, and the waiting indicator stops.
    pub fn handle_transport_error(&mut self, err: &str)
        requires
            old(self).wf(),
        ensures
            final(self).wf(),
            final(self).chat.plain_log() == old(self).chat.plain_log().push(
                crate::chat::spec_render(err@),
            ),
            final(self).chat.rendered_log() == old(self).chat.rendered_log().push(
                crate::chat::spec_render(err@),
            ),
            final(self).chat.streaming == old(self).chat.streaming,
            !final(self).spinner.active,
    {
        self.chat.surface_error(err);
        self.spinner.active = false;
    }
}

} // verus!
