use opensourcellmrouter::canonical::{ChatRequest, ChatResponse, Message, Role, StopReason, Usage};
use opensourcellmrouter::classifiers::keyword::KeywordClassifier;
use opensourcellmrouter::classifiers::refusal::RefusalClassifier;
use opensourcellmrouter::classifiers::{
    merge_tags, Classifier, ClassifierContext, ClassifierRegistry, ResponseClassifier, ResponseClassifierRegistry,
};
use opensourcellmrouter::config::{Config, EntryConfig, LoggingConfig, ServerConfig};
use opensourcellmrouter::json::JsonValue;

fn to_json(v: serde_json::Value) -> JsonValue {
    match v {
        serde_json::Value::Null => JsonValue::Null,
        serde_json::Value::Bool(b) => JsonValue::Bool(b),
        serde_json::Value::Number(n) => JsonValue::Number(n.to_string()),
        serde_json::Value::String(s) => JsonValue::Str(s),
        serde_json::Value::Array(items) => JsonValue::Array(items.into_iter().map(to_json).collect()),
        serde_json::Value::Object(map) => JsonValue::Object(map.into_iter().map(|(k, v)| (k, to_json(v))).collect()),
    }
}

fn settings(text: &str) -> Vec<(String, JsonValue)> {
    match to_json(serde_json::from_str(text).unwrap()) {
        JsonValue::Object(entries) => entries,
        _ => panic!("settings must be an object"),
    }
}

fn request(system: Option<&str>, content: &str) -> ChatRequest {
    ChatRequest {
        model: "test-model".to_string(),
        system: system.map(str::to_string),
        messages: vec![Message::text(Role::User, content)],
        max_tokens: None,
        temperature: None,
        thinking: None,
        effort: None,
        task_budget: None,
        output_schema: None,
        tools: Vec::new(),
        stream: false,
        plugins: Vec::new(),
        forced_provider: None,
        tags: Vec::new(),
    }
}

fn response(content: &str) -> ChatResponse {
    ChatResponse {
        id: "test".to_string(),
        model: "test-model".to_string(),
        content: content.to_string(),
        stop_reason: StopReason::EndTurn,
        tool_calls: Vec::new(),
        usage: Usage::default(),
        tags: Vec::new(),
    }
}

#[test]
fn tags_on_keyword_match() {
    let s = settings(r#"{"tags": {"vision": ["image", "photo"], "nsfw": ["banned"]}}"#);
    let ctx = ClassifierContext { settings: Some(&s) };
    let req = request(None, "Can you describe this Image for me?");
    assert_eq!(KeywordClassifier.classify(&ctx, &req), vec!["vision".to_string()]);
}

#[test]
fn tags_video_requests() {
    let s = settings(
        r#"{"tags": {"vision": ["image", "photo", "picture", "screenshot"], "video": ["video", "clip", "footage"]}}"#,
    );
    let ctx = ClassifierContext { settings: Some(&s) };
    let req = request(None, "Can you summarize this video clip for me?");
    assert_eq!(KeywordClassifier.classify(&ctx, &req), vec!["video".to_string()]);
}

#[test]
fn keyword_no_match_returns_empty() {
    let s = settings(r#"{"tags": {"vision": ["image", "photo"]}}"#);
    let ctx = ClassifierContext { settings: Some(&s) };
    let req = request(None, "What's the weather like today?");
    assert!(KeywordClassifier.classify(&ctx, &req).is_empty());
}

#[test]
fn no_config_returns_empty() {
    let ctx = ClassifierContext { settings: None };
    let req = request(None, "anything");
    assert!(KeywordClassifier.classify(&ctx, &req).is_empty());
}

#[test]
fn keywords_also_match_in_the_system_prompt_and_skip_non_strings() {
    let s = settings(r#"{"tags": {"code": [3, "RUST"], "other": "not a list"}}"#);
    let ctx = ClassifierContext { settings: Some(&s) };
    let req = request(Some("You write rust."), "hello");
    assert_eq!(KeywordClassifier.classify(&ctx, &req), vec!["code".to_string()]);
}

#[test]
fn tags_default_refusal_phrase() {
    let ctx = ClassifierContext { settings: None };
    let resp = response("I'm sorry, but I cannot help with that request.");
    assert_eq!(RefusalClassifier.classify(&ctx, &request(None, "hi"), &resp), vec!["refusal".to_string()]);
}

#[test]
fn refusal_no_match_returns_empty() {
    let ctx = ClassifierContext { settings: None };
    let resp = response("Sure, here's a haiku about autumn.");
    assert!(RefusalClassifier.classify(&ctx, &request(None, "hi"), &resp).is_empty());
}

#[test]
fn uses_configured_phrases() {
    let s = settings(r#"{"phrases": ["not going to do that"]}"#);
    let ctx = ClassifierContext { settings: Some(&s) };
    let resp = response("Not Going To Do That, sorry.");
    assert_eq!(RefusalClassifier.classify(&ctx, &request(None, "hi"), &resp), vec!["refusal".to_string()]);

    let resp = response("i cannot help with that");
    assert!(RefusalClassifier.classify(&ctx, &request(None, "hi"), &resp).is_empty(), "default phrases shouldn't apply once phrases are configured");
}

#[test]
fn merging_tags_keeps_first_occurrences_only() {
    let mut tags = vec!["a".to_string(), "b".to_string()];
    merge_tags(&mut tags, vec!["b".to_string(), "c".to_string(), "a".to_string(), "c".to_string()]);
    assert_eq!(tags, vec!["a".to_string(), "b".to_string(), "c".to_string()]);
}

fn config(classifiers: Vec<(String, EntryConfig)>, response_classifiers: Vec<(String, EntryConfig)>) -> Config {
    Config {
        server: ServerConfig::default(),
        logging: LoggingConfig::default(),
        providers: Vec::new(),
        routers: Vec::new(),
        plugins: Vec::new(),
        classifiers,
        response_classifiers,
    }
}

#[test]
fn registries_run_only_enabled_classifiers() {
    let keyword = EntryConfig { enabled: true, settings: settings(r#"{"tags": {"vision": ["image"]}}"#) };
    let refusal = EntryConfig { enabled: false, settings: Vec::new() };
    let cfg = config(vec![("keyword".to_string(), keyword)], vec![("refusal".to_string(), refusal)]);
    let reqs = ClassifierRegistry::from_config(&cfg);
    assert_eq!(reqs.classify(&request(None, "an image")), vec!["vision".to_string()]);
    let resps = ResponseClassifierRegistry::from_config(&cfg);
    assert!(resps.classify(&request(None, "hi"), &response("I cannot help with that")).is_empty());

    let cfg = config(Vec::new(), vec![("refusal".to_string(), EntryConfig { enabled: true, settings: Vec::new() })]);
    assert!(ClassifierRegistry::from_config(&cfg).classify(&request(None, "an image")).is_empty());
    assert_eq!(
        ResponseClassifierRegistry::from_config(&cfg).classify(&request(None, "hi"), &response("As an AI language model, no.")),
        vec!["refusal".to_string()]
    );
}
