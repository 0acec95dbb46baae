use opensourcellmrouter::canonical::ChatRequest;
use opensourcellmrouter::config::{ProviderConfig, ProviderFormat};
use opensourcellmrouter::formats::{anthropic, ollama, openai};
use opensourcellmrouter::provider::{anthropic_beta_header, trim_trailing_slashes, Provider};

fn json(text: &str) -> serde_json::Value {
    serde_json::from_str(text).unwrap()
}

fn request(task_budget: Option<serde_json::Value>) -> ChatRequest {
    ChatRequest {
        model: "opus-4-8".to_string(),
        system: None,
        messages: Vec::new(),
        max_tokens: Some(1024),
        temperature: None,
        thinking: None,
        effort: None,
        task_budget,
        output_schema: None,
        tools: Vec::new(),
        stream: false,
        plugins: Vec::new(),
        forced_provider: None,
        tags: Vec::new(),
    }
}

fn provider_config(name: &str, format: ProviderFormat, base_url: &str) -> ProviderConfig {
    ProviderConfig {
        name: name.to_string(),
        format,
        base_url: base_url.to_string(),
        api_key_env: None,
        strict: false,
        cost_per_1m_tokens: 0,
        latency_ms: None,
        throughput_tokens_per_sec: None,
    }
}

#[test]
fn no_beta_header_without_task_budget() {
    assert_eq!(anthropic_beta_header(&request(None)), None);
}

#[test]
fn task_budget_requires_beta_header() {
    let req = request(Some(json(r#"{"type": "tokens", "total": 64000}"#)));
    assert_eq!(anthropic_beta_header(&req), Some("task-budgets-2026-03-13"));
}

#[test]
fn stream_flag_flows_into_every_outbound_format() {
    let mut req = request(None);
    req.stream = true;
    assert!(openai::OpenAiChatRequest::from_chat(&req).stream);
    assert!(anthropic::AnthropicMessagesRequest::from_chat(&req).stream);
    assert!(ollama::OllamaChatRequest::from_chat(&req).stream);
}

#[test]
fn stream_false_flows_into_every_outbound_format() {
    let req = request(None);
    assert!(!openai::OpenAiChatRequest::from_chat(&req).stream);
    assert!(!anthropic::AnthropicMessagesRequest::from_chat(&req).stream);
    assert!(!ollama::OllamaChatRequest::from_chat(&req).stream);
}

#[test]
fn base_url_loses_trailing_slashes_and_endpoints_follow_format() {
    assert_eq!(trim_trailing_slashes("http://x/v1//"), "http://x/v1");
    let p = Provider::from_config(&provider_config("o", ProviderFormat::OpenAi, "http://localhost:8080/v1/"));
    assert_eq!(p.base_url, "http://localhost:8080/v1");
    assert_eq!(p.chat_url(), "http://localhost:8080/v1/chat/completions");
    let a = Provider::from_config(&provider_config("a", ProviderFormat::Anthropic, "https://api.anthropic.com/v1"));
    assert_eq!(a.chat_url(), "https://api.anthropic.com/v1/messages");
    assert!(!a.supports_streaming());
    let l = Provider::from_config(&provider_config("l", ProviderFormat::Ollama, "http://localhost:11434/"));
    assert_eq!(l.chat_url(), "http://localhost:11434/api/chat");
    assert_eq!(l.tags_url(), "http://localhost:11434/api/tags");
    assert_eq!(l.show_url(), "http://localhost:11434/api/show");
    assert!(l.lists_models());
    assert!(l.supports_streaming());
    assert!(!p.lists_models());
}
