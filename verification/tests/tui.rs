use opensourcellmrouter::canonical::{ChatResponse, ContentPart, Message, Role, StopReason, Usage};
use opensourcellmrouter::json::JsonValue;
use opensourcellmrouter::logging::LogEntry;
use opensourcellmrouter::tui::{
    ago_str, chat_reply_text, clock_text, feed_item, rank_by_count, trunc, Detail, Focus, KeyAction, KeyCode, KeyPress,
    Stats, TuiState, MAX_EVENTS,
};

fn entry(provider: &str, duration_ms: u64, error: Option<&str>, tags: &[&str]) -> LogEntry {
    LogEntry {
        ts_ms: 3_723_000,
        provider: provider.to_string(),
        requested_model: "gpt-4".to_string(),
        sent_model: "gpt-4".to_string(),
        duration_ms,
        tags: tags.iter().map(|t| t.to_string()).collect(),
        trace_id: None,
        plugins: Vec::new(),
        system: None,
        messages: vec![Message::text(Role::User, "hi")],
        response: None,
        error: error.map(str::to_string),
    }
}

#[test]
fn stats_count_requests_errors_providers_and_tags() {
    let mut stats = Stats::new();
    assert_eq!(stats.avg_latency_ms(), 0);
    stats.ingest(&entry("a", 100, None, &["vision"]));
    stats.ingest(&entry("b", 301, Some("boom"), &["vision", "code"]));
    stats.ingest(&entry("a", 200, None, &[]));
    assert_eq!(stats.total, 3);
    assert_eq!(stats.errors, 1);
    assert_eq!(stats.avg_latency_ms(), 200);
    assert_eq!(stats.by_provider, vec![("a".to_string(), 2), ("b".to_string(), 1)]);
    assert_eq!(stats.by_tag, vec![("vision".to_string(), 2), ("code".to_string(), 1)]);
    assert_eq!(stats.last_ok, vec![("a".to_string(), 3_723_000u128)]);
}

#[test]
fn provider_rows_sorted_by_count_with_share_and_last_success() {
    let mut stats = Stats::new();
    stats.ingest(&entry("b", 10, Some("x"), &[]));
    stats.ingest(&entry("a", 10, None, &[]));
    stats.ingest(&entry("a", 10, None, &[]));
    stats.ingest(&entry("c", 10, None, &[]));
    let rows = stats.provider_rows(3_723_000 + 125_000);
    let names: Vec<&str> = rows.iter().map(|r| r.name.as_str()).collect();
    assert_eq!(names, vec!["a", "b", "c"]);
    assert_eq!(rows[0].count, 2);
    assert_eq!(rows[0].percent, 50);
    assert_eq!(rows[0].last_ok, "2m ago");
    assert_eq!(rows[1].last_ok, "never");
    assert_eq!(rows[2].percent, 25);
    assert_eq!(stats.tag_rows(), Vec::<(String, u32)>::new());
}

#[test]
fn ranking_is_a_stable_descending_sort() {
    let counts = vec![("x".to_string(), 1), ("y".to_string(), 3), ("z".to_string(), 1), ("w".to_string(), 3)];
    assert_eq!(rank_by_count(&counts), vec![1, 3, 0, 2]);
}

#[test]
fn ago_uses_seconds_minutes_then_hours() {
    assert_eq!(ago_str(1_000, 60_999), "59s ago");
    assert_eq!(ago_str(0, 60_000), "1m ago");
    assert_eq!(ago_str(0, 3_599_999), "59m ago");
    assert_eq!(ago_str(0, 7_200_000), "2h ago");
    assert_eq!(ago_str(5_000, 1_000), "0s ago");
}

#[test]
fn trunc_adds_ellipsis_only_when_cut() {
    assert_eq!(trunc("hello", 5), "hello");
    assert_eq!(trunc("hello!", 5), "hello…");
    assert_eq!(trunc("héllo wörld", 4), "héll…");
    assert_eq!(clock_text(3_723_000), "01:02:03");
    assert_eq!(clock_text(90_061_000), "01:01:01");
}

fn key(code: KeyCode) -> KeyPress {
    KeyPress { code, ctrl: false }
}

#[test]
fn keys_move_focus_scroll_edit_and_send() {
    let mut s = TuiState::new("http://localhost:8090");
    assert_eq!(s.handle_key(key(KeyCode::Up)), KeyAction::Stay);
    assert_eq!(s.scroll, 0);
    for i in 0..3 {
        s.push_event(entry("a", i, None, &[]));
    }
    s.handle_key(key(KeyCode::Char('k')));
    s.handle_key(key(KeyCode::Up));
    s.handle_key(key(KeyCode::Up));
    assert_eq!(s.scroll, 2);
    s.handle_key(key(KeyCode::Char('j')));
    assert_eq!(s.scroll, 1);
    s.push_event(entry("b", 4, None, &[]));
    assert_eq!(s.scroll, 2);

    assert_eq!(s.handle_key(key(KeyCode::Char('i'))), KeyAction::Stay);
    assert_eq!(s.focus, Focus::Chat);
    for c in ":model  qwen ".chars() {
        s.handle_key(key(KeyCode::Char(c)));
    }
    assert_eq!(s.handle_key(key(KeyCode::Enter)), KeyAction::Stay);
    assert_eq!(s.model, "qwen");
    assert_eq!(s.input, "");
    for c in "hey!".chars() {
        s.handle_key(key(KeyCode::Char(c)));
    }
    s.handle_key(key(KeyCode::Backspace));
    assert_eq!(
        s.handle_key(key(KeyCode::Enter)),
        KeyAction::Send { message: "hey".to_string(), model: "qwen".to_string(), base_url: "http://localhost:8090".to_string() }
    );
    assert!(s.sending);
    s.handle_key(key(KeyCode::Char('x')));
    assert_eq!(s.handle_key(key(KeyCode::Enter)), KeyAction::Stay);
    s.finish_send(Err("timeout".to_string()));
    assert_eq!(s.last_response, Some("error: timeout".to_string()));
    assert!(!s.sending);
    assert_eq!(s.handle_key(key(KeyCode::Esc)), KeyAction::Stay);
    assert_eq!(s.focus, Focus::Feed);
    assert_eq!(s.input, "");
    assert_eq!(s.handle_key(key(KeyCode::Char('q'))), KeyAction::Quit);
    assert_eq!(s.handle_key(KeyPress { code: KeyCode::Char('c'), ctrl: true }), KeyAction::Quit);
}

#[test]
fn feed_keeps_the_newest_entries_only() {
    let mut s = TuiState::new("u");
    for i in 0..(MAX_EVENTS as u64 + 5) {
        s.push_event(entry("a", i, None, &[]));
    }
    assert_eq!(s.events.len(), MAX_EVENTS);
    assert_eq!(s.events[0].duration_ms, MAX_EVENTS as u64 + 4);
    assert_eq!(s.stats.total, MAX_EVENTS as u32 + 5);
    assert_eq!(s.feed_title(), " Pipeline  connecting…  200 events ");
    assert_eq!(s.chat_title(), " Chat  model: llama3.1:8b ");
    assert_eq!(s.route_title(), " a / gpt-4 ");
    assert_eq!(s.reply_text(), "(no messages yet — type below and press Enter)");
}

#[test]
fn feed_item_shows_rewrites_prompt_and_reply() {
    let mut e = entry("ollama", 42, None, &["vision"]);
    e.sent_model = "llama3".to_string();
    e.plugins = vec!["pdf".to_string()];
    e.messages = vec![
        Message::text(Role::User, "first"),
        Message {
            role: Role::User,
            content: vec![
                ContentPart::Text { text: "line one\nline two".to_string() },
                ContentPart::Image { media_type: "image/png".to_string(), data: "zz".to_string() },
            ],
        },
        Message::text(Role::Assistant, "answer"),
    ];
    e.response = Some(ChatResponse {
        id: "1".to_string(),
        model: "llama3".to_string(),
        content: "ok\nfine".to_string(),
        stop_reason: StopReason::EndTurn,
        tool_calls: Vec::new(),
        usage: Usage::default(),
        tags: Vec::new(),
    });
    let item = feed_item(&e);
    assert_eq!(item.time, "01:02:03");
    assert_eq!(item.requested_model, Some("gpt-4".to_string()));
    assert_eq!(item.tags, vec!["[vision]".to_string()]);
    assert_eq!(item.plugins, vec!["(pdf)".to_string()]);
    assert_eq!(item.duration, "  42ms");
    assert_eq!(item.prompt, "line one line two");
    assert_eq!(item.detail, Detail::Reply("ok fine".to_string()));
    assert!(!item.failed);
}

fn obj(entries: Vec<(&str, JsonValue)>) -> JsonValue {
    JsonValue::Object(entries.into_iter().map(|(k, v)| (k.to_string(), v)).collect())
}

#[test]
fn chat_reply_prefers_content_then_error_message() {
    let ok = obj(vec![(
        "choices",
        JsonValue::Array(vec![obj(vec![("message", obj(vec![("content", JsonValue::Str("hello".to_string()))]))])]),
    )]);
    assert_eq!(chat_reply_text(&ok), "hello");
    let err = obj(vec![("error", obj(vec![("message", JsonValue::Str("bad".to_string()))]))]);
    assert_eq!(chat_reply_text(&err), "error: bad");
    assert_eq!(chat_reply_text(&JsonValue::Null), "(empty response)");
}
