//! The backend-facing conversation model: answer events, roles, messages,
//! and the uniform capability contract every backend provider implements.

use vstd::prelude::*;

verus! {

use vstd::string::StringExecFns;
use crate::config::{
    ChatGPTConfig,
    ChatGLMConfig,
    InfiniLMConfig,
    ConfigError,
    spec_resolve_credential,
    resolve_credential,
    view_opt,
};

/// One semantic event of a streaming answer.
#[derive(Debug, Clone)]
pub enum LLMAnswer {
    StartAnswer,
    Answer(String),
    EndAnswer,
}

/// The author of a conversation message.
#[derive(Debug, Clone, Copy, PartialEq, Eq, Structural)]
pub enum LLMRole {
    ASSISTANT,
    SYSTEM,
    USER,
}

/// The wire name of a role.
pub open spec fn spec_role_name(r: LLMRole) -> Seq<char> {
    match r {
        LLMRole::ASSISTANT => "assistant"@,
        LLMRole::SYSTEM => "system"@,
        LLMRole::USER => "user"@,
    }
}

impl LLMRole {
    /// The lower-case wire name of the role.
    pub fn as_str(&self) -> (r: &'static str)
        ensures
            r@ == spec_role_name(*self),
    {
        match self {
            LLMRole::ASSISTANT => "assistant",
            LLMRole::SYSTEM => "system",
            LLMRole::USER => "user",
        }
    }
}

/// Which backend a configuration selects.
#[derive(Debug, Clone, Copy, PartialEq, Eq, Structural)]
pub enum LLMBackend {
    ChatGPT,
    Ollama,
    ChatGLM,
    InfiniLM,
}

/// One conversation message as carried on the wire.
#[derive(Debug, Clone)]
pub struct Message {
    pub role: String,
    pub content: String,
}

/// The mathematical content of a `Message`.
#[verifier::ext_equal]
pub struct MessageView {
    pub role: Seq<char>,
    pub content: Seq<char>,
}

impl View for Message {
    type V = MessageView;

    open spec fn view(&self) -> MessageView {
        MessageView { role: self.role@, content: self.content@ }
    }
}

impl Message {
    /// A message with the given role name and content.
    pub fn new(role: &str, content: &str) -> (r: Message)
        ensures
            r@.role == role@,
            r@.content == content@,
    {
        Message { role: String::from_str(role), content: String::from_str(content) }
    }
}

/// The conversations of all providers, abstractly: a sequence of messages.
pub open spec fn msg_views(ms: Seq<Message>) -> Seq<MessageView> {
    ms.map_values(|m: Message| m@)
}

/// The message appended when a turn with role `r` and text `t` is submitted.
pub open spec fn spec_turn(r: LLMRole, t: Seq<char>) -> MessageView {
    MessageView { role: spec_role_name(r), content: t }
}

/// The uniform capability contract of a backend provider: it owns a
/// conversation that grows by appended turns and can be cleared; issuing the
/// request and reading the response stream are the runtime host's part.
pub trait LLM: Sized {
    /// The conversation owned by this provider.
    spec fn conversation(&self) -> Seq<MessageView>;

    /// Append one turn to the conversation; never fails.
    fn append_chat_msg(&mut self, msg: String, role: LLMRole)
        ensures
            final(self).conversation() == old(self).conversation().push(
                spec_turn(role, msg@),
            ),
    ;

    /// Empty the conversation; never fails.
    fn clear(&mut self)
        ensures
            final(self).conversation() == Seq::<MessageView>::empty(),
    ;
}

/// Append a turn to a message vector, as every provider does.
pub(crate) fn push_turn(messages: &mut Vec<Message>, msg: String, role: LLMRole)
    ensures
        msg_views(final(messages)@) == msg_views(old(messages)@).push(spec_turn(role, msg@)),
{
    let role_name = role.as_str();
    let ghost mcontent = msg@;
    let m = Message { role: String::from_str(role_name), content: msg };
    proof {
        assert(m@ =~= spec_turn(role, mcontent));
    }
    messages.push(m);
    proof {
        assert(msg_views(messages@) =~= msg_views(old(messages)@).push(spec_turn(role, mcontent)));
    }
}

/// A fresh message with the same role and content.
pub fn copy_message(m: &Message) -> (r: Message)
    ensures
        r@ == m@,
{
    Message {
        role: String::from_str(m.role.as_str()),
        content: String::from_str(m.content.as_str()),
    }
}

/// The messages of `a` followed by those of `b`, freshly built.
pub fn concat_messages(a: &Vec<Message>, b: &Vec<Message>) -> (r: Vec<Message>)
    ensures
        msg_views(r@) == msg_views(a@) + msg_views(b@),
{
    let mut r: Vec<Message> = Vec::new();
    let mut i: usize = 0;
    proof {
        assert(msg_views(r@) =~= msg_views(a@).subrange(0, 0));
    }
    while i < a.len()
        invariant
            i <= a@.len(),
            msg_views(r@) == msg_views(a@).subrange(0, i as int),
        decreases a@.len() - i,
    {
        let m = copy_message(&a[i]);
        proof {
            assert(m@ == a@[i as int]@);
        }
        let ghost r0 = r@;
        r.push(m);
        i = i + 1;
        proof {
            assert(r@ == r0.push(m));
            assert(r0.len() == msg_views(r0).len());
            assert(msg_views(r0).len() == i as int - 1);
            assert(r@.len() == i as int);
            assert(msg_views(r@).len() == r@.len());
            assert(msg_views(r@).len() == i as int);
            assert forall|k: int| 0 <= k < i as int implies msg_views(r@)[k] == msg_views(
                a@,
            ).subrange(0, i as int)[k] by {
                assert(msg_views(a@).subrange(0, i as int)[k] == msg_views(a@)[k]);
                assert(msg_views(a@)[k] == a@[k]@);
                assert(msg_views(r@)[k] == r@[k]@);
                if k < i as int - 1 {
                    assert(r@[k] == r0[k]);
                    assert(msg_views(r0)[k] == r0[k]@);
                    assert(msg_views(r0)[k] == msg_views(a@).subrange(0, i as int - 1)[k]);
                } else {
                    assert(r@[k] == m);
                }
            }
            assert(msg_views(r@) =~= msg_views(a@).subrange(0, i as int));
        }
    }
    let mut j: usize = 0;
    proof {
        assert(msg_views(a@).subrange(0, a@.len() as int) =~= msg_views(a@));
        assert(msg_views(r@) =~= msg_views(a@) + msg_views(b@).subrange(0, 0));
    }
    while j < b.len()
        invariant
            j <= b@.len(),
            msg_views(r@) == msg_views(a@) + msg_views(b@).subrange(0, j as int),
        decreases b@.len() - j,
    {
        let m = copy_message(&b[j]);
        proof {
            assert(m@ == b@[j as int]@);
        }
        let ghost r0 = r@;
        r.push(m);
        j = j + 1;
        proof {
            let ghost goal = msg_views(a@) + msg_views(b@).subrange(0, j as int);
            assert(r@ == r0.push(m));
            assert(r0.len() == msg_views(r0).len());
            assert(msg_views(r0).len() == msg_views(a@).len() + j - 1);
            assert(r@.len() == msg_views(a@).len() + j);
            assert(msg_views(r@).len() == r@.len());
            assert(goal.len() == msg_views(a@).len() + j);
            assert forall|k: int| 0 <= k < msg_views(r@).len() implies msg_views(r@)[k]
                == goal[k] by {
                assert(msg_views(r@)[k] == r@[k]@);
                if k < r0.len() {
                    assert(r@[k] == r0[k]);
                    assert(msg_views(r0)[k] == r0[k]@);
                    assert(msg_views(r0)[k] == (msg_views(a@) + msg_views(b@).subrange(
                        0,
                        j as int - 1,
                    ))[k]);
                    if k < msg_views(a@).len() {
                        assert(goal[k] == msg_views(a@)[k]);
                    } else {
                        assert(goal[k] == msg_views(b@)[k - msg_views(a@).len()]);
                    }
                } else {
                    assert(r@[k] == m);
                    assert(goal[k] == msg_views(b@)[j as int - 1]);
                    assert(msg_views(b@)[j as int - 1] == b@[j as int - 1]@);
                }
            }
            assert(msg_views(r@) =~= msg_views(a@) + msg_views(b@).subrange(0, j as int));
        }
    }
    proof {
        assert(msg_views(b@).subrange(0, b@.len() as int) =~= msg_views(b@));
    }
    r
}

/// The built-in conversation priming used when no prompt file applies: a
/// system instruction and an assistant style hint.
pub open spec fn spec_default_prompts() -> Seq<MessageView> {
    seq![
        MessageView { role: "system"@, content: "\u{4f60}\u{662f}\u{4e00}\u{4e2a} ai \u{52a9}\u{624b}\u{ff0c}\u{4e3a}\u{7528}\u{6237}\u{89e3}\u{51b3}\u{95ee}\u{9898}"@ },
        MessageView { role: "assistant"@, content: "\u{8bf7}\u{4e00}\u{6b65}\u{4e00}\u{6b65}\u{601d}\u{8003}"@ },
    ]
}

/// The built-in priming messages.
pub fn default_prompt_messages() -> (r: Vec<Message>)
    ensures
        msg_views(r@) == spec_default_prompts(),
{
    let mut r: Vec<Message> = Vec::new();
    r.push(
        Message::new(
            "system",
            "\u{4f60}\u{662f}\u{4e00}\u{4e2a} ai \u{52a9}\u{624b}\u{ff0c}\u{4e3a}\u{7528}\u{6237}\u{89e3}\u{51b3}\u{95ee}\u{9898}",
        ),
    );
    r.push(Message::new("assistant", "\u{8bf7}\u{4e00}\u{6b65}\u{4e00}\u{6b65}\u{601d}\u{8003}"));
    proof {
        assert(msg_views(r@) =~= spec_default_prompts());
    }
    r
}

/// The priming messages of a parsed prompt file.
#[derive(Debug)]
pub struct PromptsConfig {
    pub messages: Vec<Message>,
}

/// The priming messages that apply: those of the prompt file when it parsed,
/// else the built-in pair.
pub fn prompts_or_default(parsed: Option<PromptsConfig>) -> (r: Vec<Message>)
    ensures
        match parsed {
            Some(p) => msg_views(r@) == msg_views(p.messages@),
            None => msg_views(r@) == spec_default_prompts(),
        },
{
    match parsed {
        Some(p) => p.messages,
        None => default_prompt_messages(),
    }
}

/// Selects and constructs a backend provider; construction that needs the
/// runtime host (credentials from the environment, an HTTP client) is the
/// host's part.
#[derive(Debug)]
pub struct LLMModel;

/// The hosted ChatGPT-style backend: bearer-key auth, verbatim fragments.
#[derive(Debug)]
pub struct ChatGPT {
    pub openai_api_key: String,
    pub model: String,
    pub url: String,
    pub messages: Vec<Message>,
}

impl ChatGPT {
    /// A provider from its configuration and the environment override of
    /// the credential; fails exactly when neither holds a key.
    pub fn new(config: ChatGPTConfig, env_key: Option<String>) -> (r: Result<ChatGPT, ConfigError>)
        ensures
            match r {
                Ok(p) => {
                    &&& spec_resolve_credential(view_opt(env_key), view_opt(config.openai_api_key))
                        == Some(p.openai_api_key@)
                    &&& p.model@ == config.model@
                    &&& p.url@ == config.url@
                    &&& p.conversation() == Seq::<MessageView>::empty()
                },
                Err(e) => {
                    &&& spec_resolve_credential(view_opt(env_key), view_opt(config.openai_api_key))
                        is None
                    &&& e == ConfigError::MissingCredential
                },
            },
    {
        let ChatGPTConfig { openai_api_key, model, url } = config;
        match resolve_credential(env_key, openai_api_key) {
            Ok(key) => {
                let p = ChatGPT { openai_api_key: key, model, url, messages: Vec::new() };
                proof {
                    assert(p.conversation() =~= Seq::<MessageView>::empty());
                }
                Ok(p)
            },
            Err(e) => Err(e),
        }
    }

    /// The authorization header of every request: the bearer key.
    pub fn auth_header(&self) -> (r: String)
        ensures
            r@ == "Bearer "@ + self.openai_api_key@,
    {
        crate::request::bearer_header(self.openai_api_key.as_str())
    }

    /// The streaming request body: the priming messages, then the owned
    /// conversation.
    pub fn request_body(&self, prompts: &Vec<Message>) -> (r: String)
        ensures
            r@ == crate::request::spec_chat_body(
                self.model@,
                msg_views(prompts@) + self.conversation(),
            ),
    {
        let all = concat_messages(prompts, &self.messages);
        crate::request::chat_request_body(self.model.as_str(), &all)
    }

    /// A fresh reassembly session for one streaming call.
    pub fn open_session(&self) -> (r: crate::frame::StreamSession)
        ensures
            r.wf(),
            r.st() is Created,
            r.is_framed(),
            r.trans() == crate::frame::Translation::Verbatim,
            r.history() == Seq::<crate::frame::Ev>::empty(),
    {
        crate::frame::StreamSession::framed(crate::frame::Translation::Verbatim)
    }
}

impl LLM for ChatGPT {
    open spec fn conversation(&self) -> Seq<MessageView> {
        msg_views(self.messages@)
    }

    fn append_chat_msg(&mut self, msg: String, role: LLMRole) {
        push_turn(&mut self.messages, msg, role);
    }

    fn clear(&mut self) {
        self.messages = Vec::new();
        proof {
            assert(msg_views(self.messages@) =~= Seq::<MessageView>::empty());
        }
    }
}

/// The hosted ChatGLM backend: token auth signed by the host, fragments
/// passed through the escape-decoding normalization.
#[derive(Debug)]
pub struct ChatGLM {
    pub chatglm_api_key: String,
    pub model: String,
    pub url: String,
    pub messages: Vec<Message>,
}

impl ChatGLM {
    /// A provider from its configuration and the environment override of
    /// the credential; fails exactly when neither holds a key.
    pub fn new(config: ChatGLMConfig, env_key: Option<String>) -> (r: Result<ChatGLM, ConfigError>)
        ensures
            match r {
                Ok(p) => {
                    &&& spec_resolve_credential(view_opt(env_key), view_opt(config.chatglm_api_key))
                        == Some(p.chatglm_api_key@)
                    &&& p.model@ == config.model@
                    &&& p.url@ == config.url@
                    &&& p.conversation() == Seq::<MessageView>::empty()
                },
                Err(e) => {
                    &&& spec_resolve_credential(view_opt(env_key), view_opt(config.chatglm_api_key))
                        is None
                    &&& e == ConfigError::MissingCredential
                },
            },
    {
        let ChatGLMConfig { chatglm_api_key, model, url } = config;
        match resolve_credential(env_key, chatglm_api_key) {
            Ok(key) => {
                let p = ChatGLM { chatglm_api_key: key, model, url, messages: Vec::new() };
                proof {
                    assert(p.conversation() =~= Seq::<MessageView>::empty());
                }
                Ok(p)
            },
            Err(e) => Err(e),
        }
    }

    /// The authorization header for one request, from the token the host
    /// signed out of the api key.
    pub fn auth_header(&self, signed_token: &str) -> (r: String)
        ensures
            r@ == "Bearer "@ + signed_token@,
    {
        crate::request::bearer_header(signed_token)
    }

    /// The streaming request body: the priming messages, then the owned
    /// conversation.
    pub fn request_body(&self, prompts: &Vec<Message>) -> (r: String)
        ensures
            r@ == crate::request::spec_glm_body(
                self.model@,
                msg_views(prompts@) + self.conversation(),
            ),
    {
        let all = concat_messages(prompts, &self.messages);
        crate::request::glm_request_body(self.model.as_str(), &all)
    }

    /// A fresh reassembly session for one streaming call.
    pub fn open_session(&self) -> (r: crate::frame::StreamSession)
        ensures
            r.wf(),
            r.st() is Created,
            r.is_framed(),
            r.trans() == crate::frame::Translation::Decoded,
            r.history() == Seq::<crate::frame::Ev>::empty(),
    {
        crate::frame::StreamSession::framed(crate::frame::Translation::Decoded)
    }
}

impl LLM for ChatGLM {
    open spec fn conversation(&self) -> Seq<MessageView> {
        msg_views(self.messages@)
    }

    fn append_chat_msg(&mut self, msg: String, role: LLMRole) {
        push_turn(&mut self.messages, msg, role);
    }

    fn clear(&mut self) {
        self.messages = Vec::new();
        proof {
            assert(msg_views(self.messages@) =~= Seq::<MessageView>::empty());
        }
    }
}

/// The self-hosted InfiniLM backend: no credential, chunks forwarded as
/// they arrive.
#[derive(Debug)]
pub struct InfiniLM {
    pub url: String,
    pub messages: Vec<Message>,
}

impl InfiniLM {
    /// A provider from its configuration; never fails.
    pub fn new(config: InfiniLMConfig) -> (r: InfiniLM)
        ensures
            r.url@ == config.url@,
            r.conversation() == Seq::<MessageView>::empty(),
    {
        let r = InfiniLM { url: config.url, messages: Vec::new() };
        proof {
            assert(r.conversation() =~= Seq::<MessageView>::empty());
        }
        r
    }

    /// The streaming request body: the priming messages, then the owned
    /// conversation.
    pub fn request_body(&self, prompts: &Vec<Message>) -> (r: String)
        ensures
            r@ == crate::request::spec_infinilm_body(msg_views(prompts@) + self.conversation()),
    {
        let all = concat_messages(prompts, &self.messages);
        crate::request::infinilm_request_body(&all)
    }

    /// A fresh forwarding session for one streaming call.
    pub fn open_session(&self) -> (r: crate::frame::StreamSession)
        ensures
            r.wf(),
            r.st() is Created,
            !r.is_framed(),
            r.history() == Seq::<crate::frame::Ev>::empty(),
    {
        crate::frame::StreamSession::passthrough()
    }
}

impl LLM for InfiniLM {
    open spec fn conversation(&self) -> Seq<MessageView> {
        msg_views(self.messages@)
    }

    fn append_chat_msg(&mut self, msg: String, role: LLMRole) {
        push_turn(&mut self.messages, msg, role);
    }

    fn clear(&mut self) {
        self.messages = Vec::new();
        proof {
            assert(msg_views(self.messages@) =~= Seq::<MessageView>::empty());
        }
    }
}

/// One choice message of a non-streaming completion response.
#[derive(Debug)]
pub struct APIMessage {
    pub content: String,
}

/// One choice of a non-streaming completion response.
#[derive(Debug)]
pub struct APIChoice {
    pub message: APIMessage,
}

/// A non-streaming completion response.
#[derive(Debug)]
pub struct APIResponse {
    pub choices: Vec<APIChoice>,
}

/// The content of the first choice of a response, when one exists.
pub fn first_choice_content(r: &APIResponse) -> (c: Option<String>)
    ensures
        match c {
            Some(s) => r.choices@.len() > 0 && s@ == r.choices@[0].message.content@,
            None => r.choices@.len() == 0,
        },
{
    if r.choices.len() > 0 {
        Some(r.choices[0].message.content.clone())
    } else {
        None
    }
}

/// The conversation after a reset followed by one submitted turn: by the
/// contracts of `clear` and `append_chat_msg`, exactly that turn.
pub open spec fn after_reset_and_submit(
    prior: Seq<MessageView>,
    role: LLMRole,
    text: Seq<char>,
) -> Seq<MessageView> {
    Seq::<MessageView>::empty().push(spec_turn(role, text))
}

/// Reset independence law: a reset leaves the conversation empty whatever
/// it held, so submitting the same text after a reset yields the same
/// single-turn conversation regardless of what came before — conversations
/// never accumulate across resets.
pub proof fn lemma_reset_independence(
    prior1: Seq<MessageView>,
    prior2: Seq<MessageView>,
    role: LLMRole,
    text: Seq<char>,
)
    ensures
        after_reset_and_submit(prior1, role, text) == after_reset_and_submit(prior2, role, text),
        after_reset_and_submit(prior1, role, text).len() == 1,
        after_reset_and_submit(prior1, role, text)[0] == spec_turn(role, text),
{
}

} // verus!
