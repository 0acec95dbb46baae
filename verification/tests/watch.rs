use opensourcellmrouter::canonical::{ChatResponse, Message, Role, StopReason, Usage};
use opensourcellmrouter::logging::{LogEntry, RouterEvent};
use opensourcellmrouter::watch::{classified_line, entry_lines, routed_line, start_line, truncate};

#[test]
fn truncate_flattens_lines_then_cuts() {
    assert_eq!(truncate("a\nb", 10), "a b");
    assert_eq!(truncate("abcdef", 3), "abc…");
    assert_eq!(truncate("", 3), "");
}

#[test]
fn progress_lines() {
    assert_eq!(
        start_line(3_723_000, "llama3.1:8b", 2),
        "\x1b[2m01:02:03  ⋯  \x1b[0m\x1b[94mllama3.1:8b\x1b[0m\x1b[2m  (2 in flight)\x1b[0m"
    );
    assert_eq!(classified_line(&vec![]), None);
    assert_eq!(
        classified_line(&vec!["vision".to_string(), "code".to_string()]),
        Some("\x1b[2m  → classified: [vision, code]\x1b[0m".to_string())
    );
    assert_eq!(
        routed_line("ollama", "llama3"),
        "\x1b[2m  → routed: \x1b[0m\x1b[94mollama\x1b[0m\x1b[2m/\x1b[0m\x1b[94mllama3\x1b[0m"
    );
}

#[test]
fn finished_request_lines() {
    let entry = LogEntry {
        ts_ms: 0,
        provider: "ollama".to_string(),
        requested_model: "llama3.1:8b".to_string(),
        sent_model: "llama3.1:8b".to_string(),
        duration_ms: 5978,
        tags: vec!["vision".to_string()],
        trace_id: None,
        plugins: Vec::new(),
        system: None,
        messages: vec![Message::text(Role::User, "hi")],
        response: Some(ChatResponse {
            id: "1".to_string(),
            model: "llama3.1:8b".to_string(),
            content: "hello".to_string(),
            stop_reason: StopReason::EndTurn,
            tool_calls: Vec::new(),
            usage: Usage { input_tokens: 3, output_tokens: 4 },
            tags: vec!["refusal".to_string()],
        }),
        error: None,
    };
    let lines = entry_lines(&entry);
    assert_eq!(
        lines[0],
        "\x1b[2m00:00:00\x1b[0m  \x1b[1m\x1b[36mollama\x1b[0m  \x1b[94mllama3.1:8b\x1b[0m  \x1b[33m[vision]\x1b[0m  \x1b[31m<refusal>\x1b[0m  \x1b[2m5978ms\x1b[0m"
    );
    assert_eq!(lines[1], "  \x1b[2mprompt:\x1b[0m  hi");
    assert_eq!(lines[2], "  \x1b[2mreply:\x1b[0m   hello");
    assert_eq!(lines[3], "  \x1b[2m3 in / 4 out · EndTurn\x1b[0m");
    assert_eq!(lines[4], "");
    assert_eq!(lines.len(), 5);

    let event = RouterEvent::Complete { id: 0, entry };
    assert!(event.is_logged());
    let start = RouterEvent::Start { id: 1, ts_ms: 0, model: "m".to_string(), in_flight: 2 };
    assert!(!start.is_logged());
}
