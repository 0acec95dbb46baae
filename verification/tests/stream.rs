use opensourcellmrouter::stream::{feed_data, openai_stream_line, LineBuffer, StreamLine};

#[test]
fn line_buffer_hands_out_complete_lines_only() {
    let mut buf = LineBuffer::new();
    buf.push_str("data: {\"a\"");
    assert_eq!(buf.next_line(), None);
    buf.push_str(":1}\n\ndata: [DO");
    assert_eq!(buf.next_line(), Some("data: {\"a\":1}".to_string()));
    assert_eq!(buf.next_line(), Some(String::new()));
    assert_eq!(buf.next_line(), None);
    buf.push_str("NE]\n");
    assert_eq!(buf.next_line(), Some("data: [DONE]".to_string()));
    assert!(buf.buf.is_empty());
}

#[test]
fn openai_lines_are_data_done_or_skipped() {
    assert_eq!(openai_stream_line("  data: {\"x\":1}\r"), StreamLine::Data("{\"x\":1}".to_string()));
    assert_eq!(openai_stream_line("data: [DONE]"), StreamLine::End);
    assert_eq!(openai_stream_line(": keep-alive"), StreamLine::Skip);
    assert_eq!(openai_stream_line(""), StreamLine::Skip);
    assert_eq!(openai_stream_line("event: ping"), StreamLine::Skip);
}

#[test]
fn feed_lines_drop_carriage_returns_and_need_data_prefix() {
    assert_eq!(feed_data("data: {\"type\":\"start\"}\r"), Some("{\"type\":\"start\"}".to_string()));
    assert_eq!(feed_data("event: x"), None);
    assert_eq!(feed_data(" data: x"), None);
}
