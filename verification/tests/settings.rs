use infini::config::{
    Config,
    ChatGLMConfig,
    ChatGPTConfig,
    OllamaConfig,
    InfiniLMConfig,
    KeyBindings,
    ConfigError,
    default_language,
    default_archive_file_name,
    default_llm_backend,
    default_file_root,
    resolve_credential,
};
use infini::llm::LLMBackend;

fn base_config() -> Config {
    Config {
        archive_file_name: default_archive_file_name(),
        key_bindings: KeyBindings::default(),
        llm: default_llm_backend(),
        chatgpt: ChatGPTConfig::default(),
        chatglm: ChatGLMConfig::default(),
        ollama: None,
        infinilm: None,
        file_explorer_path: default_file_root(),
        language: default_language(),
    }
}

#[test]
fn defaults_match_the_documented_values() {
    assert_eq!(default_language(), "zh-CN");
    assert_eq!(default_archive_file_name(), "infini.archive.md");
    assert_eq!(default_llm_backend(), LLMBackend::ChatGLM);
    assert_eq!(default_file_root(), "./files/");
    assert_eq!(ChatGLMConfig::default_model(), "glm-4");
    assert_eq!(
        ChatGLMConfig::default_url(),
        "https://open.bigmodel.cn/api/paas/v4/chat/completions"
    );
    assert_eq!(ChatGPTConfig::default_model(), "gpt-3.5-turbo");
    assert_eq!(
        ChatGPTConfig::default_url(),
        "https://api.openai.com/v1/chat/completions"
    );
}

#[test]
fn default_key_bindings() {
    let kb = KeyBindings::default();
    assert_eq!(kb.show_help, '?');
    assert_eq!(kb.show_history, 'h');
    assert_eq!(kb.new_chat, 'n');
    assert_eq!(kb.save_chat, 's');
    assert_eq!(kb.stop_stream, 't');
    assert_eq!(kb.show_file_explorer, 'f');
    assert_eq!(kb.code_to_prompt, 'p');
}

#[test]
fn ollama_needs_its_section() {
    let mut c = base_config();
    c.llm = LLMBackend::Ollama;
    assert!(matches!(c.validate(), Err(ConfigError::MissingBackendConfig)));

    c.ollama = Some(OllamaConfig { url: "u".to_string(), model: "m".to_string() });
    assert!(c.validate().is_ok());

    let mut d = base_config();
    d.llm = LLMBackend::InfiniLM;
    d.infinilm = Some(InfiniLMConfig { url: "u".to_string() });
    assert!(d.validate().is_ok());
}

#[test]
fn credential_resolution_order() {
    assert_eq!(
        resolve_credential(Some("env".to_string()), Some("file".to_string())).unwrap(),
        "env"
    );
    assert_eq!(resolve_credential(None, Some("file".to_string())).unwrap(), "file");
    assert!(matches!(
        resolve_credential(None, None),
        Err(ConfigError::MissingCredential)
    ));
}

#[test]
fn error_messages_name_the_problem() {
    assert_eq!(
        ConfigError::MissingCredential.message(),
        "api key not found in configuration or environment"
    );
    assert_eq!(
        ConfigError::MissingBackendConfig.message(),
        "config for the selected backend is not provided"
    );
}
