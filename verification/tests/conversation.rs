use infini::config::{ChatGPTConfig, ChatGLMConfig, InfiniLMConfig, ConfigError};
use infini::llm::{
    ChatGPT,
    ChatGLM,
    InfiniLM,
    LLM,
    LLMRole,
    Message,
    APIChoice,
    APIMessage,
    APIResponse,
    default_prompt_messages,
    prompts_or_default,
    PromptsConfig,
    first_choice_content,
};
use infini::request::bearer_header;

fn gpt_config() -> ChatGPTConfig {
    ChatGPTConfig {
        openai_api_key: Some("k-file".to_string()),
        model: "gpt-3.5-turbo".to_string(),
        url: "https://api.openai.com/v1/chat/completions".to_string(),
    }
}

#[test]
fn environment_credential_wins() {
    let p = ChatGPT::new(gpt_config(), Some("k-env".to_string())).unwrap();
    assert_eq!(p.openai_api_key, "k-env");
    let q = ChatGPT::new(gpt_config(), None).unwrap();
    assert_eq!(q.openai_api_key, "k-file");
}

#[test]
fn missing_credential_is_fatal() {
    let mut c = gpt_config();
    c.openai_api_key = None;
    let r = ChatGPT::new(c, None);
    assert!(matches!(r, Err(ConfigError::MissingCredential)));

    let glm = ChatGLMConfig {
        chatglm_api_key: None,
        model: "glm-4".to_string(),
        url: "u".to_string(),
    };
    assert!(matches!(ChatGLM::new(glm, None), Err(ConfigError::MissingCredential)));
}

#[test]
fn conversation_appends_in_order() {
    let mut p = ChatGPT::new(gpt_config(), None).unwrap();
    p.append_chat_msg("hi".to_string(), LLMRole::USER);
    p.append_chat_msg("hello".to_string(), LLMRole::ASSISTANT);
    assert_eq!(p.messages.len(), 2);
    assert_eq!(p.messages[0].role, "user");
    assert_eq!(p.messages[0].content, "hi");
    assert_eq!(p.messages[1].role, "assistant");
    assert_eq!(p.messages[1].content, "hello");
}

#[test]
fn reset_leaves_no_trace() {
    // The same text submitted twice with a reset between yields the same
    // single-turn conversation both times: nothing accumulates.
    let mut p = ChatGPT::new(gpt_config(), None).unwrap();
    p.append_chat_msg("first session text".to_string(), LLMRole::USER);
    p.append_chat_msg("an answer".to_string(), LLMRole::ASSISTANT);
    p.clear();
    assert!(p.messages.is_empty());
    p.append_chat_msg("same".to_string(), LLMRole::USER);
    let first: Vec<(String, String)> =
        p.messages.iter().map(|m| (m.role.clone(), m.content.clone())).collect();

    p.clear();
    p.append_chat_msg("same".to_string(), LLMRole::USER);
    let second: Vec<(String, String)> =
        p.messages.iter().map(|m| (m.role.clone(), m.content.clone())).collect();

    assert_eq!(first, second);
    assert_eq!(first.len(), 1);
}

#[test]
fn default_prompts_are_the_built_in_pair() {
    let ps = default_prompt_messages();
    assert_eq!(ps.len(), 2);
    assert_eq!(ps[0].role, "system");
    assert_eq!(
        ps[0].content,
        "\u{4f60}\u{662f}\u{4e00}\u{4e2a} ai \u{52a9}\u{624b}\u{ff0c}\u{4e3a}\u{7528}\u{6237}\u{89e3}\u{51b3}\u{95ee}\u{9898}"
    );
    assert_eq!(ps[1].role, "assistant");
    assert_eq!(ps[1].content, "\u{8bf7}\u{4e00}\u{6b65}\u{4e00}\u{6b65}\u{601d}\u{8003}");

    let fallback = prompts_or_default(None);
    assert_eq!(fallback.len(), 2);
    assert_eq!(fallback[0].role, "system");

    let own = prompts_or_default(Some(PromptsConfig {
        messages: vec![Message::new("system", "be terse")],
    }));
    assert_eq!(own.len(), 1);
    assert_eq!(own[0].content, "be terse");
}

#[test]
fn chat_request_body_is_exact() {
    let mut p = ChatGPT::new(gpt_config(), None).unwrap();
    p.append_chat_msg("say \"hi\"\n".to_string(), LLMRole::USER);
    let prompts = vec![Message::new("system", "be kind")];
    let body = p.request_body(&prompts);
    assert_eq!(
        body,
        "{\"model\":\"gpt-3.5-turbo\",\"messages\":[{\"role\":\"system\",\"content\":\"be kind\"},{\"role\":\"user\",\"content\":\"say \\\"hi\\\"\\n\"}],\"stream\":true,\"temperature\":0.1}"
    );
}

#[test]
fn glm_request_body_is_exact() {
    let glm = ChatGLM::new(
        ChatGLMConfig {
            chatglm_api_key: Some("key".to_string()),
            model: "glm-4".to_string(),
            url: "u".to_string(),
        },
        None,
    )
    .unwrap();
    let prompts: Vec<Message> = Vec::new();
    let body = glm.request_body(&prompts);
    assert_eq!(body, "{\"model\":\"glm-4\",\"messages\":[],\"stream\":true}");
}

#[test]
fn infinilm_request_body_is_exact() {
    let p = InfiniLM::new(InfiniLMConfig { url: "http://localhost:2333".to_string() });
    assert_eq!(p.url, "http://localhost:2333");
    let prompts = vec![Message::new("user", "topk")];
    let body = p.request_body(&prompts);
    assert_eq!(
        body,
        "{\"inputs\":[{\"role\":\"user\",\"content\":\"topk\"}],\"encoding\":\"text\",\"temperature\":0.9,\"top-k\":100,\"top-p\":0.9,\"stream\":true}"
    );
}

#[test]
fn completion_body_and_first_choice() {
    let ms = vec![Message::new("user", "Hi there")];
    let body = infini::request::completion_request_body("gpt-3.5-turbo", &ms);
    assert_eq!(
        body,
        "{\"model\":\"gpt-3.5-turbo\",\"messages\":[{\"role\":\"user\",\"content\":\"Hi there\"}],\"temperature\":0.1}"
    );

    let resp = APIResponse {
        choices: vec![APIChoice { message: APIMessage { content: "short response".to_string() } }],
    };
    assert_eq!(first_choice_content(&resp), Some("short response".to_string()));
    let empty = APIResponse { choices: Vec::new() };
    assert_eq!(first_choice_content(&empty), None);
}

#[test]
fn bearer_header_prefixes_the_token() {
    assert_eq!(bearer_header("abc"), "Bearer abc");
    let p = ChatGPT::new(gpt_config(), None).unwrap();
    assert_eq!(p.auth_header(), "Bearer k-file");
    let glm = ChatGLM::new(
        ChatGLMConfig {
            chatglm_api_key: Some("key".to_string()),
            model: "glm-4".to_string(),
            url: "u".to_string(),
        },
        None,
    )
    .unwrap();
    assert_eq!(glm.auth_header("signed.jwt"), "Bearer signed.jwt");
}

#[test]
fn control_characters_are_escaped_on_the_wire() {
    let ms = vec![Message::new("user", "tab\there\u{1}")];
    let body = infini::request::completion_request_body("m", &ms);
    assert_eq!(
        body,
        "{\"model\":\"m\",\"messages\":[{\"role\":\"user\",\"content\":\"tab\\there\\u0001\"}],\"temperature\":0.1}"
    );
}
