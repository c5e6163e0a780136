//! Configuration records for the client and its backends, their default
//! values, credential resolution, and startup validation. Reading and
//! parsing the configuration file is the runtime host's part; the records
//! and every decision about them live here.

use vstd::prelude::*;

verus! {

use vstd::string::StringExecFns;
use crate::llm::LLMBackend;

/// A fatal startup condition: the configuration cannot support the
/// selected backend.
#[derive(Debug, Clone, Copy, PartialEq, Eq, Structural)]
pub enum ConfigError {
    /// A required credential is neither in the environment nor in the file.
    MissingCredential,
    /// The selected backend has no configuration section.
    MissingBackendConfig,
}

impl ConfigError {
    /// A short description of the error.
    pub fn message(&self) -> (r: &'static str)
        ensures
            *self is MissingCredential ==> r@ == "api key not found in configuration or environment"@,
            *self is MissingBackendConfig ==> r@ == "config for the selected backend is not provided"@,
    {
        match self {
            ConfigError::MissingCredential => "api key not found in configuration or environment",
            ConfigError::MissingBackendConfig => "config for the selected backend is not provided",
        }
    }
}

/// The display language used when the configuration names none.
pub fn default_language() -> (r: String)
    ensures
        r@ == "zh-CN"@,
{
    String::from_str("zh-CN")
}

/// The archive file used when the configuration names none.
pub fn default_archive_file_name() -> (r: String)
    ensures
        r@ == "infini.archive.md"@,
{
    String::from_str("infini.archive.md")
}

/// The backend used when the configuration names none.
pub fn default_llm_backend() -> (r: LLMBackend)
    ensures
        r == LLMBackend::ChatGLM,
{
    LLMBackend::ChatGLM
}

/// The file-browser root used when the configuration names none.
pub fn default_file_root() -> (r: String)
    ensures
        r@ == "./files/"@,
{
    String::from_str("./files/")
}

/// Settings of the hosted ChatGLM backend.
#[derive(Debug, Clone)]
pub struct ChatGLMConfig {
    pub chatglm_api_key: Option<String>,
    pub model: String,
    pub url: String,
}

impl ChatGLMConfig {
    /// The model requested when the configuration names none.
    pub fn default_model() -> (r: String)
        ensures
            r@ == "glm-4"@,
    {
        String::from_str("glm-4")
    }

    /// The endpoint used when the configuration names none.
    pub fn default_url() -> (r: String)
        ensures
            r@ == "https://open.bigmodel.cn/api/paas/v4/chat/completions"@,
    {
        String::from_str("https://open.bigmodel.cn/api/paas/v4/chat/completions")
    }
}

impl Default for ChatGLMConfig {
    /// No credential, the default model and endpoint.
    fn default() -> (r: ChatGLMConfig)
        ensures
            r.chatglm_api_key is None,
            r.model@ == "glm-4"@,
            r.url@ == "https://open.bigmodel.cn/api/paas/v4/chat/completions"@,
    {
        ChatGLMConfig {
            chatglm_api_key: None,
            model: Self::default_model(),
            url: Self::default_url(),
        }
    }
}

/// Settings of the hosted ChatGPT backend.
#[derive(Debug, Clone)]
pub struct ChatGPTConfig {
    pub openai_api_key: Option<String>,
    pub model: String,
    pub url: String,
}

impl ChatGPTConfig {
    /// The model requested when the configuration names none.
    pub fn default_model() -> (r: String)
        ensures
            r@ == "gpt-3.5-turbo"@,
    {
        String::from_str("gpt-3.5-turbo")
    }

    /// The endpoint used when the configuration names none.
    pub fn default_url() -> (r: String)
        ensures
            r@ == "https://api.openai.com/v1/chat/completions"@,
    {
        String::from_str("https://api.openai.com/v1/chat/completions")
    }
}

impl Default for ChatGPTConfig {
    /// No credential, the default model and endpoint.
    fn default() -> (r: ChatGPTConfig)
        ensures
            r.openai_api_key is None,
            r.model@ == "gpt-3.5-turbo"@,
            r.url@ == "https://api.openai.com/v1/chat/completions"@,
    {
        ChatGPTConfig {
            openai_api_key: None,
            model: Self::default_model(),
            url: Self::default_url(),
        }
    }
}

/// Settings of a self-hosted Ollama server.
#[derive(Debug, Clone)]
pub struct OllamaConfig {
    pub url: String,
    pub model: String,
}

/// Settings of a self-hosted InfiniLM server.
#[derive(Debug, Clone)]
pub struct InfiniLMConfig {
    pub url: String,
}

/// The keyboard shortcuts of the client.
#[derive(Debug, Clone)]
pub struct KeyBindings {
    pub show_help: char,
    pub show_history: char,
    pub new_chat: char,
    pub save_chat: char,
    pub stop_stream: char,
    pub show_file_explorer: char,
    pub code_to_prompt: char,
}

impl KeyBindings {
    fn default_show_help() -> (r: char)
        ensures
            r == '?',
    {
        '?'
    }

    fn default_show_history() -> (r: char)
        ensures
            r == 'h',
    {
        'h'
    }

    fn default_new_chat() -> (r: char)
        ensures
            r == 'n',
    {
        'n'
    }

    fn default_save_chat() -> (r: char)
        ensures
            r == 's',
    {
        's'
    }

    fn default_stop_stream() -> (r: char)
        ensures
            r == 't',
    {
        't'
    }

    fn default_show_file_explorer() -> (r: char)
        ensures
            r == 'f',
    {
        'f'
    }

    fn default_code_to_prompt() -> (r: char)
        ensures
            r == 'p',
    {
        'p'
    }
}

impl Default for KeyBindings {
    /// The built-in shortcut set.
    fn default() -> (r: KeyBindings)
        ensures
            r.show_help == '?',
            r.show_history == 'h',
            r.new_chat == 'n',
            r.save_chat == 's',
            r.stop_stream == 't',
            r.show_file_explorer == 'f',
            r.code_to_prompt == 'p',
    {
        KeyBindings {
            show_help: Self::default_show_help(),
            show_history: Self::default_show_history(),
            new_chat: Self::default_new_chat(),
            save_chat: Self::default_save_chat(),
            stop_stream: Self::default_stop_stream(),
            show_file_explorer: Self::default_show_file_explorer(),
            code_to_prompt: Self::default_code_to_prompt(),
        }
    }
}

/// The whole client configuration.
#[derive(Debug)]
pub struct Config {
    pub archive_file_name: String,
    pub key_bindings: KeyBindings,
    pub llm: LLMBackend,
    pub chatgpt: ChatGPTConfig,
    pub chatglm: ChatGLMConfig,
    pub ollama: Option<OllamaConfig>,
    pub infinilm: Option<InfiniLMConfig>,
    pub file_explorer_path: String,
    pub language: String,
}

impl Config {
    /// Whether the configuration can drive the selected backend: a backend
    /// with its own section must have one.
    pub fn validate(&self) -> (r: Result<(), ConfigError>)
        ensures
            r is Ok <==> !(self.llm == LLMBackend::Ollama && self.ollama is None),
            r is Err ==> r->Err_0 == ConfigError::MissingBackendConfig,
    {
        if self.llm == LLMBackend::Ollama && self.ollama.is_none() {
            Err(ConfigError::MissingBackendConfig)
        } else {
            Ok(())
        }
    }
}

/// The credential that applies: an environment override wins over the
/// configuration file value.
pub open spec fn spec_resolve_credential(env: Option<Seq<char>>, file: Option<Seq<char>>) -> Option<
    Seq<char>,
> {
    match env {
        Some(k) => Some(k),
        None => file,
    }
}

/// Resolve a credential from the environment override and the file value;
/// `Err` exactly when neither holds one.
pub fn resolve_credential(env: Option<String>, file: Option<String>) -> (r: Result<
    String,
    ConfigError,
>)
    ensures
        match r {
            Ok(k) => spec_resolve_credential(view_opt(env), view_opt(file)) == Some(k@),
            Err(e) => spec_resolve_credential(view_opt(env), view_opt(file)) is None && e
                == ConfigError::MissingCredential,
        },
{
    match env {
        Some(k) => Ok(k),
        None => match file {
            Some(k) => Ok(k),
            None => Err(ConfigError::MissingCredential),
        },
    }
}

/// The text carried by an optional string.
pub open spec fn view_opt(o: Option<String>) -> Option<Seq<char>> {
    match o {
        Some(s) => Some(s@),
        None => None,
    }
}

} // verus!
