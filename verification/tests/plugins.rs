use opensourcellmrouter::canonical::{ChatRequest, ChatResponse, PluginRequest, StopReason, Usage};
use opensourcellmrouter::config::{Config, EntryConfig, LoggingConfig, ServerConfig};
use opensourcellmrouter::json::JsonValue;
use opensourcellmrouter::plugins::pareto_router::ParetoRouterPlugin;
use opensourcellmrouter::plugins::response_healing::{
    balance_brackets, heal_json, remove_trailing_commas, strip_code_fence, ResponseHealingPlugin,
};
use opensourcellmrouter::plugins::pdf_input::{PdfInputPlugin, PDF_UNIMPLEMENTED};
use opensourcellmrouter::plugins::web_search::{WebSearchPlugin, WEB_UNIMPLEMENTED};
use opensourcellmrouter::plugins::{run_stage, Flow, Plugin, PluginContext, PluginKind, PluginRegistry, Stage};

#[test]
fn passes_through_plain_text() {
    assert_eq!(heal_json("Hello, I'm here."), None);
}

#[test]
fn strips_markdown_fence() {
    let input = "```json\n{\"a\": 1}\n```";
    assert_eq!(heal_json(input), Some("{\"a\": 1}".to_string()));
}

#[test]
fn strips_surrounding_prose() {
    let input = "Sure, here's the JSON:\n{\"a\": 1}\nLet me know if you need anything else.";
    assert_eq!(heal_json(input), Some("{\"a\": 1}".to_string()));
}

#[test]
fn removes_trailing_commas() {
    let input = "{\"a\": 1, \"b\": [1, 2,],}";
    let healed = heal_json(input).expect("should heal");
    assert!(serde_json::from_str::<serde_json::Value>(&healed).is_ok());
}

#[test]
fn balances_truncated_output() {
    let input = "{\"a\": 1, \"b\": [1, 2";
    let healed = heal_json(input).expect("should heal");
    assert!(serde_json::from_str::<serde_json::Value>(&healed).is_ok());
}

#[test]
fn already_valid_json_is_unchanged_upstream() {
    let input = "{\"a\": 1}";
    assert_eq!(heal_json(input), Some(input.to_string()));
}

#[test]
fn balancing_closes_strings_then_brackets_innermost_first() {
    assert_eq!(balance_brackets("{\"a\": [1, {\"b\": \"x"), "{\"a\": [1, {\"b\": \"x\"}]}");
    assert_eq!(balance_brackets("[1]]"), "[1]]");
    assert_eq!(balance_brackets("{\"k\": \"}\"}"), "{\"k\": \"}\"}");
}

#[test]
fn trailing_commas_only_before_closers() {
    assert_eq!(remove_trailing_commas("[1, 2 ,\n ]"), "[1, 2 \n ]");
    assert_eq!(remove_trailing_commas("{\"a\": \"x,\"}"), "{\"a\": \"x,\"}");
    assert_eq!(remove_trailing_commas("[\"a,]\"]"), "[\"a]\"]");
    assert_eq!(remove_trailing_commas("[1,2]"), "[1,2]");
}

#[test]
fn code_fence_without_closing_fence_is_trimmed() {
    assert_eq!(strip_code_fence("```\n\r\n[1]  "), "[1]");
    assert_eq!(strip_code_fence("no fence"), "no fence");
}

fn response(content: &str) -> Option<ChatResponse> {
    Some(ChatResponse {
        id: "1".to_string(),
        model: "m".to_string(),
        content: content.to_string(),
        stop_reason: StopReason::EndTurn,
        tool_calls: Vec::new(),
        usage: Usage::default(),
        tags: Vec::new(),
    })
}

#[test]
fn healing_hook_repairs_only_invalid_json() {
    let ctx = PluginContext { defaults: None, overrides: None };
    let req = request();
    let mut resp = response("```json\n{\"a\": 1,}\n```");
    assert_eq!(ResponseHealingPlugin.post_response(&ctx, &req, &mut resp), Ok(Flow::Modified));
    assert_eq!(resp.unwrap().content, "{\"a\": 1}");

    let mut resp = response("[1, 2]");
    assert_eq!(ResponseHealingPlugin.post_response(&ctx, &req, &mut resp), Ok(Flow::Continue));
    assert_eq!(resp.unwrap().content, "[1, 2]");

    let mut resp = response("just words");
    assert_eq!(ResponseHealingPlugin.post_response(&ctx, &req, &mut resp), Ok(Flow::Continue));

    let mut none: Option<ChatResponse> = None;
    assert_eq!(ResponseHealingPlugin.post_response(&ctx, &req, &mut none), Ok(Flow::Continue));
}

#[test]
fn unimplemented_plugins_fail_before_routing() {
    let ctx = PluginContext { defaults: None, overrides: None };
    let mut req = request();
    let mut resp: Option<ChatResponse> = None;
    assert_eq!(WebSearchPlugin.pre_request(&ctx, &mut req, &mut resp), Err(WEB_UNIMPLEMENTED.to_string()));
    assert_eq!(PdfInputPlugin.pre_request(&ctx, &mut req, &mut resp), Err(PDF_UNIMPLEMENTED.to_string()));
    assert_eq!(req.forced_provider, None);
    assert_eq!(WebSearchPlugin.id(), "web");
    assert_eq!(PdfInputPlugin.id(), "pdf");
}

#[test]
fn hooks_a_plugin_does_not_define_go_on_unchanged() {
    let ctx = PluginContext { defaults: None, overrides: None };
    let mut req = request();
    let mut resp = response("not json");
    assert_eq!(WebSearchPlugin.on_start(&ctx, &mut req, &mut resp), Ok(Flow::Continue));
    assert_eq!(ResponseHealingPlugin.pre_request(&ctx, &mut req, &mut resp), Ok(Flow::Continue));
    assert_eq!(ParetoRouterPlugin.post_response(&ctx, &req, &mut resp), Ok(Flow::Continue));
    assert_eq!(PdfInputPlugin.on_end(&ctx, &req, &mut resp), Ok(Flow::Continue));
    assert_eq!(resp.unwrap().content, "not json");
    assert_eq!(req.forced_provider, None);
}

fn obj(entries: Vec<(&str, JsonValue)>) -> Vec<(String, JsonValue)> {
    entries.into_iter().map(|(k, v)| (k.to_string(), v)).collect()
}

fn request() -> ChatRequest {
    ChatRequest {
        model: "m".to_string(),
        system: None,
        messages: Vec::new(),
        max_tokens: None,
        temperature: None,
        thinking: None,
        effort: None,
        task_budget: None,
        output_schema: None,
        tools: Vec::new(),
        stream: false,
        plugins: Vec::new(),
        forced_provider: None,
        tags: Vec::new(),
    }
}

fn tiers() -> JsonValue {
    JsonValue::Object(obj(vec![
        ("low", JsonValue::Array(vec![JsonValue::Str("local-llama".to_string())])),
        ("medium", JsonValue::Array(vec![JsonValue::Str("openai".to_string())])),
        ("empty", JsonValue::Array(vec![])),
    ]))
}

#[test]
fn pareto_picks_requested_then_default_then_medium_tier() {
    let defaults = obj(vec![("tiers", tiers()), ("default_tier", JsonValue::Str("low".to_string()))]);
    let overrides = obj(vec![("tier", JsonValue::Str("medium".to_string()))]);

    let mut req = request();
    let ctx = PluginContext { defaults: Some(&defaults), overrides: Some(&overrides) };
    assert!(ParetoRouterPlugin.pre_request(&ctx, &mut req, &mut None).is_ok());
    assert_eq!(req.forced_provider, Some("openai".to_string()));

    let mut req = request();
    let ctx = PluginContext { defaults: Some(&defaults), overrides: None };
    assert!(ParetoRouterPlugin.pre_request(&ctx, &mut req, &mut None).is_ok());
    assert_eq!(req.forced_provider, Some("local-llama".to_string()));

    let only_tiers = obj(vec![("tiers", tiers())]);
    let mut req = request();
    let ctx = PluginContext { defaults: Some(&only_tiers), overrides: None };
    assert!(ParetoRouterPlugin.pre_request(&ctx, &mut req, &mut None).is_ok());
    assert_eq!(req.forced_provider, Some("openai".to_string()));
}

#[test]
fn pareto_errors_name_the_problem() {
    let mut req = request();
    let ctx = PluginContext { defaults: None, overrides: None };
    assert_eq!(
        ParetoRouterPlugin.pre_request(&ctx, &mut req, &mut None).err().unwrap(),
        "pareto-router: no `tiers` configured (e.g. [plugins.pareto-router.tiers])"
    );

    let settings = obj(vec![("tiers", tiers()), ("tier", JsonValue::Str("ultra".to_string()))]);
    let ctx = PluginContext { defaults: Some(&settings), overrides: None };
    assert_eq!(
        ParetoRouterPlugin.pre_request(&ctx, &mut req, &mut None).err().unwrap(),
        "pareto-router: unknown tier 'ultra' (configured tiers: [\"low\", \"medium\", \"empty\"])"
    );

    let settings = obj(vec![("tiers", tiers()), ("tier", JsonValue::Str("empty".to_string()))]);
    let ctx = PluginContext { defaults: Some(&settings), overrides: None };
    assert_eq!(
        ParetoRouterPlugin.pre_request(&ctx, &mut req, &mut None).err().unwrap(),
        "pareto-router: tier 'empty' has no providers configured"
    );
    assert_eq!(req.forced_provider, None);
}

fn config(plugins: Vec<(String, EntryConfig)>) -> Config {
    Config {
        server: ServerConfig::default(),
        logging: LoggingConfig::default(),
        providers: Vec::new(),
        routers: Vec::new(),
        plugins,
        classifiers: Vec::new(),
        response_classifiers: Vec::new(),
    }
}

#[test]
fn resolve_lists_enabled_plugins_then_requested_ones_once() {
    let cfg = config(vec![
        ("pdf".to_string(), EntryConfig { enabled: true, settings: Vec::new() }),
        (
            "pareto-router".to_string(),
            EntryConfig { enabled: false, settings: obj(vec![("default_tier", JsonValue::Str("low".to_string()))]) },
        ),
    ]);
    let registry = PluginRegistry::from_config(&cfg);
    let requested = vec![
        PluginRequest { id: "pareto-router".to_string(), settings: obj(vec![("tier", JsonValue::Str("medium".to_string()))]) },
        PluginRequest { id: "unknown".to_string(), settings: Vec::new() },
        PluginRequest { id: "pdf".to_string(), settings: Vec::new() },
        PluginRequest { id: "pareto-router".to_string(), settings: Vec::new() },
        PluginRequest { id: "response-healing".to_string(), settings: Vec::new() },
    ];
    let resolved = registry.resolve(&requested);
    let kinds: Vec<PluginKind> = resolved.iter().map(|p| p.kind).collect();
    assert_eq!(kinds, vec![PluginKind::PdfInput, PluginKind::ParetoRouter, PluginKind::ResponseHealing]);
    assert_eq!(resolved[1].ctx.get_str("default_tier").map(String::as_str), Some("low"));
    assert_eq!(resolved[1].ctx.get_str("tier").map(String::as_str), Some("medium"));
}

#[test]
fn stage_stops_at_a_failing_plugin_before_routing_but_not_after() {
    let cfg = config(Vec::new());
    let registry = PluginRegistry::from_config(&cfg);
    let requested = vec![
        PluginRequest { id: "response-healing".to_string(), settings: Vec::new() },
        PluginRequest { id: "web".to_string(), settings: Vec::new() },
    ];
    let resolved = registry.resolve(&requested);
    let mut req = request();
    let mut resp = response("{\"a\": [1, 2");
    let mut active = Vec::new();
    let failure = run_stage(&resolved, Stage::PreRouting, &mut req, &mut resp, &mut active).err().unwrap();
    assert_eq!(failure.plugin, "web");
    assert!(active.is_empty());

    let flow = run_stage(&resolved, Stage::PostResponse, &mut req, &mut resp, &mut active).unwrap();
    assert_eq!(flow, Flow::Continue);
    assert_eq!(active, vec!["response-healing".to_string()]);
    assert_eq!(resp.unwrap().content, "{\"a\": [1, 2]}");
}
