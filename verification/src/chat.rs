//! The chat transcript state machine: the authoritative conversation
//! display state. Two append-only logs of committed turns — a plain log for
//! export and a rendered log for display — are kept in lock-step, beside a
//! single pending answer that exists only while an answer is streaming in.

use vstd::prelude::*;

verus! {

use vstd::string::StringExecFns;
use crate::llm::LLMAnswer;

/// The rendering applied to a committed or in-progress assistant turn: the
/// full accumulated plain text behind the assistant marker. Rendering is
/// recomputed from the whole text, never incrementally.
pub open spec fn spec_render(s: Seq<char>) -> Seq<char> {
    "\u{1f916}: "@ + s
}

/// Render an assistant turn from its full plain text.
pub fn render_turn(plain: &str) -> (r: String)
    ensures
        r@ == spec_render(plain@),
{
    let mut r = String::from_str("\u{1f916}: ");
    r.append(plain);
    r
}

/// The single in-progress assistant answer: its accumulated plain text and
/// the rendering of that text.
#[derive(Debug, Clone)]
pub struct Answer {
    pub plain_answer: String,
    pub formatted_answer: String,
}

impl Answer {
    /// An empty accumulator.
    pub fn new() -> (r: Answer)
        ensures
            r.plain_answer@ == Seq::<char>::empty(),
            r.formatted_answer@ == Seq::<char>::empty(),
    {
        Answer { plain_answer: String::new(), formatted_answer: String::new() }
    }
}

impl Default for Answer {
    /// Same as `Answer::new`: both texts empty.
    fn default() -> (r: Answer)
        ensures
            r.plain_answer@ == Seq::<char>::empty(),
            r.formatted_answer@ == Seq::<char>::empty(),
    {
        Answer::new()
    }
}

/// The transcript: two lock-step logs of committed turns, the pending
/// answer, and whether an answer is currently streaming in.
#[derive(Debug, Clone)]
pub struct Chat {
    pub plain_chat: Vec<String>,
    pub formatted_chat: Vec<String>,
    pub answer: Answer,
    pub streaming: bool,
    pub waiting: bool,
}

impl Chat {
    /// The plain log, abstractly.
    pub open spec fn plain_log(&self) -> Seq<Seq<char>> {
        self.plain_chat@.map_values(|s: String| s@)
    }

    /// The rendered log, abstractly.
    pub open spec fn rendered_log(&self) -> Seq<Seq<char>> {
        self.formatted_chat@.map_values(|s: String| s@)
    }

    /// Log parity invariant: the two logs always hold the same number of
    /// committed turns, in the same positions.
    pub open spec fn wf(&self) -> bool {
        self.plain_log().len() == self.rendered_log().len()
    }

    /// An empty transcript, idle.
    pub fn new() -> (r: Chat)
        ensures
            r.wf(),
            r.plain_log().len() == 0,
            r.rendered_log().len() == 0,
            !r.streaming,
            !r.waiting,
            r.answer.plain_answer@ == Seq::<char>::empty(),
    {
        let r = Chat {
            plain_chat: Vec::new(),
            formatted_chat: Vec::new(),
            answer: Answer::new(),
            streaming: false,
            waiting: false,
        };
        proof {
            assert(r.plain_log() =~= Seq::<Seq<char>>::empty());
            assert(r.rendered_log() =~= Seq::<Seq<char>>::empty());
        }
        r
    }

    /// Feed one streaming event into the transcript.
    ///
    /// While idle, the opening event starts a pending answer and removes the
    /// provisional waiting placeholder. While streaming, a fragment extends
    /// the pending plain text and re-renders the whole of it, and the
    /// terminal event commits the rendered turn to both logs at the same
    /// position and returns to idle. Any event out of its expected state is
    /// ignored rather than treated as fatal.
    pub fn handle_answer(&mut self, event: LLMAnswer)
        requires
            old(self).wf(),
        ensures
            final(self).wf(),
            match event {
                LLMAnswer::StartAnswer => {
                    if !old(self).streaming {
                        &&& final(self).streaming
                        &&& !final(self).waiting
                        &&& final(self).answer.plain_answer@ == Seq::<char>::empty()
                        &&& final(self).plain_log() == old(self).plain_log()
                        &&& final(self).rendered_log() == old(self).rendered_log()
                    } else {
                        *final(self) == *old(self)
                    }
                },
                LLMAnswer::Answer(t) => {
                    if old(self).streaming {
                        &&& final(self).streaming
                        &&& final(self).answer.plain_answer@ == old(
                            self,
                        ).answer.plain_answer@ + t@
                        &&& final(self).answer.formatted_answer@ == spec_render(
                            old(self).answer.plain_answer@ + t@,
                        )
                        &&& final(self).plain_log() == old(self).plain_log()
                        &&& final(self).rendered_log() == old(self).rendered_log()
                        &&& final(self).waiting == old(self).waiting
                    } else {
                        *final(self) == *old(self)
                    }
                },
                LLMAnswer::EndAnswer => {
                    if old(self).streaming {
                        &&& !final(self).streaming
                        &&& final(self).plain_log() == old(self).plain_log().push(
                            spec_render(old(self).answer.plain_answer@),
                        )
                        &&& final(self).rendered_log() == old(self).rendered_log().push(
                            spec_render(old(self).answer.plain_answer@),
                        )
                        &&& final(self).answer.plain_answer@ == Seq::<char>::empty()
                        &&& final(self).waiting == old(self).waiting
                    } else {
                        *final(self) == *old(self)
                    }
                },
            },
    {
        match event {
            LLMAnswer::StartAnswer => {
                if !self.streaming {
                    self.streaming = true;
                    self.answer = Answer::new();
                    self.waiting = false;
                }
            },
            LLMAnswer::Answer(t) => {
                if self.streaming {
                    self.answer.plain_answer.append(t.as_str());
                    self.answer.formatted_answer = render_turn(self.answer.plain_answer.as_str());
                }
            },
            LLMAnswer::EndAnswer => {
                if self.streaming {
                    let turn = render_turn(self.answer.plain_answer.as_str());
                    let ghost committed = spec_render(old(self).answer.plain_answer@);
                    let turn2 = turn.clone();
                    proof {
                        assert(turn2@ == turn@);
                    }
                    self.plain_chat.push(turn);
                    self.formatted_chat.push(turn2);
                    self.answer = Answer::new();
                    self.streaming = false;
                    proof {
                        assert(self.plain_log() =~= old(self).plain_log().push(committed));
                        assert(self.rendered_log() =~= old(self).rendered_log().push(committed));
                    }
                }
            },
        }
    }

    /// Surface a transport failure as a single synthetic assistant turn:
    /// one entry appended to both logs, no opening event, the transcript
    /// left in its recoverable idle state.
    pub fn surface_error(&mut self, err: &str)
        requires
            old(self).wf(),
        ensures
            final(self).wf(),
            final(self).plain_log() == old(self).plain_log().push(spec_render(err@)),
            final(self).rendered_log() == old(self).rendered_log().push(spec_render(err@)),
            final(self).streaming == old(self).streaming,
            final(self).answer == old(self).answer,
    {
        let turn = render_turn(err);
        let turn2 = turn.clone();
        proof {
            assert(turn2@ == turn@);
        }
        self.plain_chat.push(turn);
        self.formatted_chat.push(turn2);
        proof {
            assert(self.plain_log() =~= old(self).plain_log().push(spec_render(err@)));
            assert(self.rendered_log() =~= old(self).rendered_log().push(spec_render(err@)));
        }
    }

    /// Append a submitted user turn to both logs, in lock-step.
    pub fn push_user_turn(&mut self, text: &str)
        requires
            old(self).wf(),
        ensures
            final(self).wf(),
            final(self).plain_log() == old(self).plain_log().push("\u{1f464} : "@ + text@ + "\n"@),
            final(self).rendered_log() == old(self).rendered_log().push(
                "\u{1f464}: "@ + text@ + "\n"@,
            ),
            final(self).streaming == old(self).streaming,
            final(self).answer == old(self).answer,
            final(self).waiting == old(self).waiting,
    {
        let mut plain = String::from_str("\u{1f464} : ");
        plain.append(text);
        plain.append("\n");
        let mut rendered = String::from_str("\u{1f464}: ");
        rendered.append(text);
        rendered.append("\n");
        self.plain_chat.push(plain);
        self.formatted_chat.push(rendered);
        proof {
            assert(self.plain_log() =~= old(self).plain_log().push(
                "\u{1f464} : "@ + text@ + "\n"@,
            ));
            assert(self.rendered_log() =~= old(self).rendered_log().push(
                "\u{1f464}: "@ + text@ + "\n"@,
            ));
        }
    }

    /// The plain log joined for archival export, turns in order.
    pub fn export_plain(&self) -> (r: String)
        ensures
            r@ == spec_join(self.plain_log()),
    {
        let mut r = String::new();
        let mut i: usize = 0;
        proof {
            assert(self.plain_log().subrange(0, 0) =~= Seq::<Seq<char>>::empty());
        }
        while i < self.plain_chat.len()
            invariant
                i <= self.plain_chat@.len(),
                r@ == spec_join(self.plain_log().subrange(0, i as int)),
            decreases self.plain_chat@.len() - i,
        {
            let ghost pre = self.plain_log().subrange(0, i as int);
            r.append(self.plain_chat[i].as_str());
            i = i + 1;
            proof {
                let cur = self.plain_log().subrange(0, i as int);
                assert(cur =~= pre.push(self.plain_log()[i - 1]));
                lemma_join_push(pre, self.plain_log()[i - 1]);
            }
        }
        proof {
            assert(self.plain_log().subrange(0, self.plain_log().len() as int) =~= self.plain_log());
        }
        r
    }
}

impl Default for Chat {
    /// Same as `Chat::new`: empty logs, idle.
    fn default() -> (r: Chat)
        ensures
            r.wf(),
            r.plain_log().len() == 0,
            r.rendered_log().len() == 0,
            !r.streaming,
    {
        Chat::new()
    }
}

/// The concatenation of all turns of a log.
pub open spec fn spec_join(log: Seq<Seq<char>>) -> Seq<char>
    decreases log.len(),
{
    if log.len() == 0 {
        Seq::<char>::empty()
    } else {
        spec_join(log.drop_last()) + log.last()
    }
}

proof fn lemma_join_push(log: Seq<Seq<char>>, turn: Seq<char>)
    ensures
        spec_join(log.push(turn)) == spec_join(log) + turn,
{
    assert(log.push(turn).drop_last() =~= log);
    assert(log.push(turn).last() == turn);
}

/// Log parity law: every commit appends one entry to each log at the same
/// position, so the two logs always hold the same number of turns.
pub proof fn lemma_log_parity(c: &Chat)
    requires
        c.wf(),
    ensures
        c.plain_log().len() == c.rendered_log().len(),
{
}

} // verus!
