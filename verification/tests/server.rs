use opensourcellmrouter::canonical::{ChatRequest, ChatResponse, Message, Role, StopReason, Usage};
use opensourcellmrouter::classifiers::{ClassifierRegistry, ResponseClassifierRegistry};
use opensourcellmrouter::config::{Config, EntryConfig, LoggingConfig, ProviderConfig, ProviderFormat, RouterRule, ServerConfig};
use opensourcellmrouter::json::JsonValue;
use opensourcellmrouter::plugins::PluginRegistry;
use opensourcellmrouter::router::ModelRouter;
use opensourcellmrouter::server::{
    dispatch_outcome, finish_request, route_request, route_stream, router_headers, ApiError, X_ROUTER_INPUT_TOKENS,
    X_ROUTER_MODEL, X_ROUTER_OUTPUT_TOKENS, X_ROUTER_PROVIDER, X_ROUTER_REQUEST_TAGS, X_ROUTER_RESPONSE_TAGS,
};

fn header_value<'a>(headers: &'a [(&'static str, String)], name: &str) -> Option<&'a str> {
    headers.iter().find(|(n, _)| *n == name).map(|(_, v)| v.as_str())
}

#[test]
fn provider_model_and_token_headers_always_set() {
    let usage = Usage { input_tokens: 12, output_tokens: 34 };
    let headers = router_headers(&vec![], &vec![], "ollama", "llama3.1:8b", &usage);
    assert_eq!(header_value(&headers, X_ROUTER_PROVIDER), Some("ollama"));
    assert_eq!(header_value(&headers, X_ROUTER_MODEL), Some("llama3.1:8b"));
    assert_eq!(header_value(&headers, X_ROUTER_INPUT_TOKENS), Some("12"));
    assert_eq!(header_value(&headers, X_ROUTER_OUTPUT_TOKENS), Some("34"));
}

#[test]
fn tag_headers_omitted_when_empty() {
    let headers = router_headers(&vec![], &vec![], "openai", "gpt-4o", &Usage::default());
    assert_eq!(header_value(&headers, X_ROUTER_REQUEST_TAGS), None);
    assert_eq!(header_value(&headers, X_ROUTER_RESPONSE_TAGS), None);
}

#[test]
fn tag_headers_comma_joined_when_present() {
    let request_tags = vec!["vision".to_string(), "code".to_string()];
    let response_tags = vec!["refusal".to_string()];
    let headers = router_headers(&request_tags, &response_tags, "openai", "gpt-4o", &Usage::default());
    assert_eq!(header_value(&headers, X_ROUTER_REQUEST_TAGS), Some("vision,code"));
    assert_eq!(header_value(&headers, X_ROUTER_RESPONSE_TAGS), Some("refusal"));
}

#[test]
fn header_with_control_character_is_left_out() {
    let headers = router_headers(&vec![], &vec![], "bad\nname", "m", &Usage::default());
    assert_eq!(header_value(&headers, X_ROUTER_PROVIDER), None);
    assert_eq!(header_value(&headers, X_ROUTER_MODEL), Some("m"));
}

#[test]
fn errors_have_statuses_and_messages() {
    let e = ApiError::NoProvider("gpt-9".to_string());
    assert_eq!(e.status(), 400);
    assert_eq!(e.message(), "no provider configured for model 'gpt-9'");
    let e = ApiError::Upstream("connection refused".to_string());
    assert_eq!(e.status(), 502);
    assert_eq!(e.message(), "connection refused");
    let e = ApiError::Plugin("web".to_string(), "boom".to_string());
    assert_eq!(e.status(), 500);
    assert_eq!(e.message(), "plugin 'web' failed: boom");
    assert_eq!(ApiError::NoResponse.status(), 500);
    assert_eq!(ApiError::NoResponse.message(), "pipeline stopped without producing a response");
}

fn provider(name: &str) -> ProviderConfig {
    ProviderConfig {
        name: name.to_string(),
        format: ProviderFormat::OpenAi,
        base_url: format!("http://{name}"),
        api_key_env: None,
        strict: false,
        cost_per_1m_tokens: 1,
        latency_ms: None,
        throughput_tokens_per_sec: None,
    }
}

fn obj(entries: Vec<(&str, JsonValue)>) -> Vec<(String, JsonValue)> {
    entries.into_iter().map(|(k, v)| (k.to_string(), v)).collect()
}

fn config() -> Config {
    let tiers = JsonValue::Object(obj(vec![("high", JsonValue::Array(vec![JsonValue::Str("big".to_string())]))]));
    Config {
        server: ServerConfig::default(),
        logging: LoggingConfig::default(),
        providers: vec![provider("small"), provider("big")],
        routers: vec![RouterRule::Tag { tag: "vision".to_string(), provider: "big".to_string(), rewrite_model: None }],
        plugins: vec![(
            "pareto-router".to_string(),
            EntryConfig { enabled: false, settings: obj(vec![("tiers", tiers), ("default_tier", JsonValue::Str("high".to_string()))]) },
        )],
        classifiers: vec![(
            "keyword".to_string(),
            EntryConfig {
                enabled: true,
                settings: obj(vec![(
                    "tags",
                    JsonValue::Object(obj(vec![("vision", JsonValue::Array(vec![JsonValue::Str("photo".to_string())]))])),
                )]),
            },
        )],
        response_classifiers: vec![("refusal".to_string(), EntryConfig { enabled: true, settings: Vec::new() })],
    }
}

fn request(text: &str) -> ChatRequest {
    ChatRequest {
        model: "any".to_string(),
        system: None,
        messages: vec![Message::text(Role::User, text)],
        max_tokens: None,
        temperature: None,
        thinking: None,
        effort: None,
        task_budget: None,
        output_schema: None,
        tools: Vec::new(),
        stream: false,
        plugins: Vec::new(),
        forced_provider: None,
        tags: Vec::new(),
    }
}

#[test]
fn pipeline_classifies_then_routes_by_tag() {
    let cfg = config();
    let router = ModelRouter::from_config(&cfg.providers, &vec![false, false], cfg.routers.clone()).unwrap();
    let registry = PluginRegistry::from_config(&cfg);
    let classifiers = ClassifierRegistry::from_config(&cfg);
    let mut req = request("look at this photo");
    let requested = std::mem::take(&mut req.plugins);
    let plugins = registry.resolve(&requested);
    let mut resp = None;
    let mut active = Vec::new();
    let routing = route_request(&router, &classifiers, &plugins, &mut req, &mut resp, &mut active).unwrap();
    assert_eq!(routing.classified, Some(vec!["vision".to_string()]));
    let (p, model) = routing.target.unwrap();
    assert_eq!(p.name, "big");
    assert_eq!(model, "any");
    assert_eq!(req.tags, vec!["vision".to_string()]);
    assert!(active.is_empty());
}

#[test]
fn pipeline_with_no_matching_rule_fails_with_no_provider() {
    let cfg = config();
    let router = ModelRouter::from_config(&cfg.providers, &vec![false, false], cfg.routers.clone()).unwrap();
    let classifiers = ClassifierRegistry::from_config(&cfg);
    let mut req = request("hello");
    let mut resp = None;
    let mut active = Vec::new();
    let err = route_request(&router, &classifiers, &Vec::new(), &mut req, &mut resp, &mut active).err().unwrap();
    assert_eq!(err, ApiError::NoProvider("any".to_string()));
    let err = route_stream(&router, &classifiers, &mut request("hello")).err().unwrap();
    assert_eq!(err, ApiError::NoProvider("any".to_string()));
}

#[test]
fn pareto_plugin_requested_by_the_client_forces_its_tier_provider() {
    let cfg = config();
    let router = ModelRouter::from_config(&cfg.providers, &vec![false, false], cfg.routers.clone()).unwrap();
    let registry = PluginRegistry::from_config(&cfg);
    let classifiers = ClassifierRegistry::from_config(&cfg);
    let mut req = request("hello");
    req.plugins = vec![opensourcellmrouter::canonical::PluginRequest { id: "pareto-router".to_string(), settings: Vec::new() }];
    let requested = std::mem::take(&mut req.plugins);
    let plugins = registry.resolve(&requested);
    let mut resp = None;
    let mut active = Vec::new();
    let routing = route_request(&router, &classifiers, &plugins, &mut req, &mut resp, &mut active).unwrap();
    let (p, _) = routing.target.unwrap();
    assert_eq!(p.name, "big");
    assert_eq!(req.forced_provider, Some("big".to_string()));
}

#[test]
fn web_plugin_fails_the_request_before_routing() {
    let cfg = config();
    let router = ModelRouter::from_config(&cfg.providers, &vec![false, false], cfg.routers.clone()).unwrap();
    let registry = PluginRegistry::from_config(&cfg);
    let classifiers = ClassifierRegistry::from_config(&cfg);
    let requested = vec![opensourcellmrouter::canonical::PluginRequest { id: "web".to_string(), settings: Vec::new() }];
    let plugins = registry.resolve(&requested);
    let mut req = request("hello");
    let mut resp = None;
    let mut active = Vec::new();
    match route_request(&router, &classifiers, &plugins, &mut req, &mut resp, &mut active) {
        Err(ApiError::Plugin(id, message)) => {
            assert_eq!(id, "web");
            assert!(message.starts_with("plugin 'web' (Web Search) is enabled but not yet implemented"));
        }
        _ => panic!("expected a plugin failure"),
    }
}

#[test]
fn finishing_tags_refusals_and_outcome_needs_a_response() {
    let cfg = config();
    let response_classifiers = ResponseClassifierRegistry::from_config(&cfg);
    let mut req = request("hello");
    let mut resp = Some(ChatResponse {
        id: "1".to_string(),
        model: "m".to_string(),
        content: "I can't help with that.".to_string(),
        stop_reason: StopReason::EndTurn,
        tool_calls: Vec::new(),
        usage: Usage::default(),
        tags: Vec::new(),
    });
    let mut active = Vec::new();
    finish_request(&response_classifiers, &Vec::new(), &mut req, &mut resp, &mut active);
    assert_eq!(resp.as_ref().unwrap().tags, vec!["refusal".to_string()]);
    let outcome = dispatch_outcome(resp, vec![], "small".to_string(), "m".to_string()).unwrap();
    assert_eq!(outcome.provider, "small");
    assert_eq!(dispatch_outcome(None, vec![], "plugin".to_string(), "m".to_string()).err(), Some(ApiError::NoResponse));
}
