use opensourcellmrouter::config::{ProviderConfig, ProviderFormat, RouterRule};
use opensourcellmrouter::router::ModelRouter;

fn provider(name: &str, format: ProviderFormat, base_url: &str, cost: i64) -> ProviderConfig {
    ProviderConfig {
        name: name.to_string(),
        format,
        base_url: base_url.to_string(),
        api_key_env: None,
        strict: false,
        cost_per_1m_tokens: cost,
        latency_ms: None,
        throughput_tokens_per_sec: None,
    }
}

/// Order keys of `0.5 * quality - 0.5 * cost`, scaled by 1000.
fn score(quality: i64, cost: i64) -> i64 {
    500 * quality - 500 * cost
}

#[test]
fn tag_rule_routes_image_and_video_requests_to_vision_provider() {
    let providers = vec![
        provider("local", ProviderFormat::OpenAi, "http://localhost:8080/v1", 0),
        provider("vision-provider", ProviderFormat::OpenAi, "http://localhost:9090/v1", 5),
    ];
    let rules = vec![
        RouterRule::Tag {
            tag: "vision".to_string(),
            provider: "vision-provider".to_string(),
            rewrite_model: Some("vision-model".to_string()),
        },
        RouterRule::Tag {
            tag: "video".to_string(),
            provider: "vision-provider".to_string(),
            rewrite_model: Some("video-model".to_string()),
        },
        RouterRule::Fallback {
            providers: Vec::new(),
            scores: vec![("local".to_string(), score(40, 0)), ("vision-provider".to_string(), score(80, 5))],
            rewrite_model: None,
        },
    ];
    let router = ModelRouter::from_config(&providers, &vec![false, false], rules).unwrap();

    let (provider, model) = router.resolve("gpt-4", &vec!["vision".to_string()]).unwrap();
    assert_eq!(provider.name, "vision-provider");
    assert_eq!(model, "vision-model");

    let (provider, model) = router.resolve("gpt-4", &vec!["video".to_string()]).unwrap();
    assert_eq!(provider.name, "vision-provider");
    assert_eq!(model, "video-model");

    let (provider, model) = router.resolve("gpt-4", &vec![]).unwrap();
    assert_eq!(provider.name, "vision-provider");
    assert_eq!(model, "gpt-4");
}

#[test]
fn discover_rule_routes_to_provider_with_matching_model() {
    let providers = vec![
        provider("ollama", ProviderFormat::Ollama, "http://localhost:11434", 0),
        provider("openai", ProviderFormat::OpenAi, "https://api.openai.com/v1", 5),
    ];
    let rules = vec![
        RouterRule::Discover { provider: "ollama".to_string() },
        RouterRule::Fallback {
            providers: Vec::new(),
            scores: vec![("ollama".to_string(), score(0, 0)), ("openai".to_string(), score(80, 5))],
            rewrite_model: None,
        },
    ];
    let mut router = ModelRouter::from_config(&providers, &vec![false, false], rules).unwrap();

    let (provider, _) = router.resolve("llama3:8b", &vec![]).unwrap();
    assert_eq!(provider.name, "openai");

    router.record_models("ollama", vec!["llama3:8b".to_string()]);

    let (provider, model) = router.resolve("llama3:8b", &vec![]).unwrap();
    assert_eq!(provider.name, "ollama");
    assert_eq!(model, "llama3:8b");

    let (provider, _) = router.resolve("gpt-4", &vec![]).unwrap();
    assert_eq!(provider.name, "openai");
}

#[test]
fn prefix_rule_rewrites_model_and_price_rule_picks_cheapest() {
    let providers = vec![
        provider("cheap", ProviderFormat::OpenAi, "http://a", 1),
        provider("dear", ProviderFormat::OpenAi, "http://b", 9),
    ];
    let rules = vec![
        RouterRule::Prefix { model_prefix: "opus".to_string(), provider: "dear".to_string(), rewrite_model: None },
        RouterRule::Price { providers: Vec::new(), max_cost_per_1m_tokens: None },
    ];
    let router = ModelRouter::from_config(&providers, &vec![false, false], rules).unwrap();
    let (p, m) = router.resolve("opus-3", &vec![]).unwrap();
    assert_eq!((p.name.as_str(), m.as_str()), ("dear", "opus-3"));
    let (p, _) = router.resolve("gpt-4", &vec![]).unwrap();
    assert_eq!(p.name, "cheap");
}

#[test]
fn price_ceiling_excludes_every_provider_and_nothing_resolves() {
    let providers = vec![provider("dear", ProviderFormat::OpenAi, "http://b", 9)];
    let rules = vec![RouterRule::Price { providers: Vec::new(), max_cost_per_1m_tokens: Some(5) }];
    let router = ModelRouter::from_config(&providers, &vec![false], rules).unwrap();
    assert!(router.resolve("gpt-4", &vec![]).is_none());
}

#[test]
fn strict_provider_without_key_is_skipped_and_none_left_is_an_error() {
    let mut p = provider("only", ProviderFormat::OpenAi, "http://a", 1);
    p.strict = true;
    p.api_key_env = Some("ONLY_KEY".to_string());
    assert!(ModelRouter::from_config(&vec![p.clone()], &vec![true], Vec::new()).is_err());
    assert!(ModelRouter::from_config(&vec![p.clone()], &vec![false], Vec::new()).is_ok());
    p.strict = false;
    assert!(ModelRouter::from_config(&vec![p], &vec![true], Vec::new()).is_ok());
}

#[test]
fn latency_and_throughput_rules_skip_undeclared_providers() {
    let mut fast = provider("fast", ProviderFormat::OpenAi, "http://a", 3);
    fast.latency_ms = Some(100);
    fast.throughput_tokens_per_sec = Some(50);
    let mut wide = provider("wide", ProviderFormat::OpenAi, "http://b", 3);
    wide.throughput_tokens_per_sec = Some(200);
    let providers = vec![fast, wide];
    let by_latency = ModelRouter::from_config(
        &providers,
        &vec![false, false],
        vec![RouterRule::Latency { providers: Vec::new(), max_latency_ms: None }],
    )
    .unwrap();
    assert_eq!(by_latency.resolve("m", &vec![]).unwrap().0.name, "fast");
    let by_throughput = ModelRouter::from_config(
        &providers,
        &vec![false, false],
        vec![RouterRule::Throughput { providers: Vec::new(), min_tokens_per_sec: None }],
    )
    .unwrap();
    assert_eq!(by_throughput.resolve("m", &vec![]).unwrap().0.name, "wide");
}

#[test]
fn random_rule_picks_a_listed_candidate() {
    let providers = vec![provider("a", ProviderFormat::OpenAi, "http://a", 1), provider("b", ProviderFormat::OpenAi, "http://b", 1)];
    let router = ModelRouter::from_config(
        &providers,
        &vec![false, false],
        vec![RouterRule::Random { providers: vec!["b".to_string()], rewrite_model: Some("x".to_string()), candidates: Vec::new() }],
    )
    .unwrap();
    let (p, m) = router.resolve("m", &vec![]).unwrap();
    assert_eq!(p.name, "b");
    assert_eq!(m, "x");
}
