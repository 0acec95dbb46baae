use opensourcellmrouter::canonical::{ChatRequest, ChatResponse, ContentPart, Role, StopReason, StreamEvent, ToolCall, Usage};
use opensourcellmrouter::formats::responses::{
    InputContentPart, InputItem, OutputContentPart, OutputItem, ResponsesRequest, ResponsesResponse, ResponsesStreamEvent,
    ResponsesStreamRenderer, ResponsesTool,
};

fn json(text: &str) -> serde_json::Value {
    serde_json::from_str(text).unwrap()
}

fn request(input: Vec<InputItem>, instructions: Option<&str>, tools: Vec<ResponsesTool>) -> ResponsesRequest {
    ResponsesRequest {
        model: "gpt-5-codex".to_string(),
        input,
        instructions: instructions.map(str::to_string),
        tools,
        stream: false,
        max_output_tokens: None,
        plugins: Vec::new(),
    }
}

#[test]
fn inbound_message_items_map_to_canonical_messages() {
    let req = request(
        vec![InputItem::Message {
            role: "user".to_string(),
            content: vec![InputContentPart::InputText { text: "hi".to_string() }],
        }],
        Some("be terse"),
        Vec::new(),
    );
    let chat = ChatRequest::from_responses(req);
    assert_eq!(chat.system, Some("be terse".to_string()));
    assert_eq!(chat.messages[0].role, Role::User);
    assert_eq!(chat.messages[0].content, vec![ContentPart::Text { text: "hi".to_string() }]);
}

#[test]
fn inbound_function_call_and_output_items_round_trip() {
    let req = request(
        vec![
            InputItem::FunctionCall {
                call_id: "call_1".to_string(),
                name: "get_weather".to_string(),
                arguments: r#"{"city":"nyc"}"#.to_string(),
            },
            InputItem::FunctionCallOutput { call_id: "call_1".to_string(), output: "sunny".to_string() },
        ],
        None,
        Vec::new(),
    );
    let chat = ChatRequest::from_responses(req);
    assert_eq!(
        chat.messages[0].content,
        vec![ContentPart::ToolUse { id: "call_1".to_string(), name: "get_weather".to_string(), input: json(r#"{"city": "nyc"}"#) }]
    );
    assert_eq!(
        chat.messages[1].content,
        vec![ContentPart::ToolResult { tool_use_id: "call_1".to_string(), content: "sunny".to_string() }]
    );
}

#[test]
fn inbound_tools_map_to_canonical_tool() {
    let req = request(
        Vec::new(),
        None,
        vec![ResponsesTool {
            tool_type: "function".to_string(),
            name: "get_weather".to_string(),
            description: Some("Looks up weather".to_string()),
            parameters: json(r#"{"type": "object"}"#),
        }],
    );
    let chat = ChatRequest::from_responses(req);
    assert_eq!(chat.tools.len(), 1);
    assert_eq!(chat.tools[0].name, "get_weather");
}

#[test]
fn inbound_assistant_output_text_keeps_role() {
    let req = request(
        vec![InputItem::Message {
            role: "assistant".to_string(),
            content: vec![InputContentPart::OutputText { text: "earlier".to_string() }],
        }],
        None,
        Vec::new(),
    );
    let chat = ChatRequest::from_responses(req);
    assert_eq!(chat.messages[0].role, Role::Assistant);
    assert_eq!(chat.messages[0].content, vec![ContentPart::Text { text: "earlier".to_string() }]);
}

fn chat_response(content: &str, tool_calls: Vec<ToolCall>) -> ChatResponse {
    ChatResponse {
        id: "resp_1".to_string(),
        model: "gpt-5-codex".to_string(),
        content: content.to_string(),
        stop_reason: StopReason::EndTurn,
        tool_calls,
        usage: Usage { input_tokens: 3, output_tokens: 5 },
        tags: Vec::new(),
    }
}

#[test]
fn outbound_text_response_becomes_message_output_item() {
    let resp = ResponsesResponse::from_chat(chat_response("hi there", Vec::new()));
    assert_eq!(resp.output.len(), 1);
    match &resp.output[0] {
        OutputItem::Message { role, content, id, .. } => {
            assert_eq!(role, "assistant");
            assert_eq!(content, &vec![OutputContentPart::OutputText { text: "hi there".to_string() }]);
            assert_eq!(id, "msg_resp_1");
        }
        other => panic!("expected message output item, got {other:?}"),
    }
    assert_eq!(resp.usage.total_tokens, 8);
    assert_eq!(resp.status, "completed");
}

#[test]
fn outbound_tool_call_becomes_function_call_output_item() {
    let resp = ResponsesResponse::from_chat(chat_response(
        "",
        vec![ToolCall { id: "call_1".to_string(), name: "get_weather".to_string(), input: json(r#"{"city": "nyc"}"#) }],
    ));
    assert_eq!(resp.output.len(), 1);
    match &resp.output[0] {
        OutputItem::FunctionCall { call_id, name, arguments, id } => {
            assert_eq!(call_id, "call_1");
            assert_eq!(name, "get_weather");
            assert_eq!(arguments, r#"{"city":"nyc"}"#);
            assert_eq!(id, "fc_call_1");
        }
        other => panic!("expected function_call output item, got {other:?}"),
    }
}

fn render_all(events: Vec<StreamEvent>, model: &str) -> Vec<ResponsesStreamEvent> {
    let (mut renderer, first) = ResponsesStreamRenderer::start("resp_x".to_string(), model.to_string());
    let mut out = vec![first];
    for event in events {
        let (rendered, done) = renderer.render(event);
        out.extend(rendered);
        if done {
            break;
        }
    }
    out
}

fn event_name(e: &ResponsesStreamEvent) -> &'static str {
    match e {
        ResponsesStreamEvent::Created { .. } => "response.created",
        ResponsesStreamEvent::MessageAdded { .. } | ResponsesStreamEvent::FunctionCallAdded { .. } => {
            "response.output_item.added"
        }
        ResponsesStreamEvent::TextDelta { .. } => "response.output_text.delta",
        ResponsesStreamEvent::ArgumentsDelta { .. } => "response.function_call_arguments.delta",
        ResponsesStreamEvent::ItemDone { .. } => "response.output_item.done",
        ResponsesStreamEvent::Completed { .. } => "response.completed",
    }
}

#[test]
fn render_stream_text_then_done_opens_message_item_and_completes() {
    let events = render_all(
        vec![
            StreamEvent::TextDelta { text: "hi".to_string() },
            StreamEvent::Done { stop_reason: StopReason::EndTurn, usage: Usage { input_tokens: 1, output_tokens: 2 } },
        ],
        "gpt-5-codex",
    );
    let names: Vec<&str> = events.iter().map(event_name).collect();
    assert_eq!(
        names,
        vec![
            "response.created",
            "response.output_item.added",
            "response.output_text.delta",
            "response.output_item.done",
            "response.completed",
        ]
    );
    assert_eq!(
        events[2],
        ResponsesStreamEvent::TextDelta { item_id: "msg_0".to_string(), output_index: 0, delta: "hi".to_string() }
    );
    assert_eq!(
        events[4],
        ResponsesStreamEvent::Completed {
            response_id: "resp_x".to_string(),
            model: "gpt-5-codex".to_string(),
            input_tokens: 1,
            output_tokens: 2,
            total_tokens: 3,
        }
    );
}

#[test]
fn render_stream_function_call_emits_arguments_delta() {
    let events = render_all(
        vec![
            StreamEvent::ToolCallStart { id: "call_1".to_string(), name: "get_weather".to_string() },
            StreamEvent::ToolCallDelta { id: "call_1".to_string(), partial_input: r#"{"city":"nyc"}"#.to_string() },
            StreamEvent::Done { stop_reason: StopReason::ToolUse, usage: Usage::default() },
        ],
        "gpt-5-codex",
    );
    let names: Vec<&str> = events.iter().map(event_name).collect();
    assert_eq!(
        names,
        vec![
            "response.created",
            "response.output_item.added",
            "response.function_call_arguments.delta",
            "response.output_item.done",
            "response.completed",
        ]
    );
    assert_eq!(
        events[1],
        ResponsesStreamEvent::FunctionCallAdded {
            output_index: 0,
            item_id: "fc_0".to_string(),
            call_id: "call_1".to_string(),
            name: "get_weather".to_string(),
        }
    );
    match &events[2] {
        ResponsesStreamEvent::ArgumentsDelta { delta, .. } => assert_eq!(delta, r#"{"city":"nyc"}"#),
        other => panic!("expected arguments delta, got {other:?}"),
    }
}

#[test]
fn render_stream_arguments_without_open_call_use_current_index() {
    let events = render_all(
        vec![StreamEvent::ToolCallDelta { id: "c".to_string(), partial_input: "{".to_string() }],
        "m",
    );
    assert_eq!(
        events[1],
        ResponsesStreamEvent::ArgumentsDelta {
            item_id: "fc_-1".to_string(),
            output_index: -1,
            call_id: "c".to_string(),
            delta: "{".to_string(),
        }
    );
}
