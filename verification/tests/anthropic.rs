use opensourcellmrouter::canonical::{ChatRequest, ChatResponse, ContentPart, Message, Role, StopReason, StreamEvent, Tool, Usage};
use opensourcellmrouter::formats::anthropic::{
    stop_reason_to_anthropic, AnthropicContent, AnthropicMessage, AnthropicMessagesRequest, AnthropicMessagesResponse,
    AnthropicStreamEvent, AnthropicStreamRenderer, AnthropicUsage, ContentBlock, ImageSource, OutputConfig, OutputFormat,
};

fn json(text: &str) -> serde_json::Value {
    serde_json::from_str(text).unwrap()
}

fn anthropic_request(
    thinking: Option<serde_json::Value>,
    effort: Option<&str>,
    task_budget: Option<serde_json::Value>,
    output_schema: Option<serde_json::Value>,
) -> AnthropicMessagesRequest {
    let output_config = if effort.is_some() || task_budget.is_some() || output_schema.is_some() {
        Some(OutputConfig {
            effort: effort.map(str::to_string),
            task_budget,
            format: output_schema.map(|schema| OutputFormat { format_type: "json_schema".to_string(), schema }),
        })
    } else {
        None
    };
    AnthropicMessagesRequest {
        model: "opus-4-8".to_string(),
        max_tokens: 1024,
        system: None,
        messages: vec![AnthropicMessage { role: "user".to_string(), content: AnthropicContent::Text("hi".to_string()) }],
        temperature: None,
        thinking,
        output_config,
        tools: Vec::new(),
        stream: false,
        plugins: Vec::new(),
    }
}

fn chat_request(
    thinking: Option<serde_json::Value>,
    effort: Option<&str>,
    task_budget: Option<serde_json::Value>,
    output_schema: Option<serde_json::Value>,
) -> ChatRequest {
    ChatRequest {
        model: "opus-4-8".to_string(),
        system: None,
        messages: vec![Message::text(Role::User, "hi")],
        max_tokens: Some(1024),
        temperature: None,
        thinking,
        effort: effort.map(str::to_string),
        task_budget,
        output_schema,
        tools: Vec::new(),
        stream: false,
        plugins: Vec::new(),
        forced_provider: None,
        tags: Vec::new(),
    }
}

#[test]
fn inbound_stream_flag_survives_into_chat_request() {
    let mut req = anthropic_request(None, None, None, None);
    req.stream = true;
    let chat = ChatRequest::from_anthropic(req);
    assert!(chat.stream);
}

#[test]
fn inbound_thinking_and_effort_map_to_chat_request() {
    let req = anthropic_request(Some(json(r#"{"type": "adaptive"}"#)), Some("xhigh"), None, None);
    let chat = ChatRequest::from_anthropic(req);
    assert_eq!(chat.thinking, Some(json(r#"{"type": "adaptive"}"#)));
    assert_eq!(chat.effort, Some("xhigh".to_string()));
    assert_eq!(chat.task_budget, None);
}

#[test]
fn inbound_without_thinking_or_effort_leaves_both_none() {
    let req = anthropic_request(None, None, None, None);
    let chat = ChatRequest::from_anthropic(req);
    assert_eq!(chat.thinking, None);
    assert_eq!(chat.effort, None);
    assert_eq!(chat.task_budget, None);
    assert_eq!(chat.output_schema, None);
}

#[test]
fn inbound_task_budget_maps_to_chat_request_without_effort() {
    let budget = json(r#"{"type": "tokens", "total": 64000}"#);
    let req = anthropic_request(None, None, Some(budget.clone()), None);
    let chat = ChatRequest::from_anthropic(req);
    assert_eq!(chat.task_budget, Some(budget));
    assert_eq!(chat.effort, None);
}

#[test]
fn inbound_output_schema_extracted_from_json_schema_format() {
    let schema = json(
        r#"{"type": "object", "properties": {"name": {"type": "string"}}, "required": ["name"], "additionalProperties": false}"#,
    );
    let req = anthropic_request(None, None, None, Some(schema.clone()));
    let chat = ChatRequest::from_anthropic(req);
    assert_eq!(chat.output_schema, Some(schema));
}

#[test]
fn outbound_thinking_and_effort_forwarded_under_output_config() {
    let chat = chat_request(Some(json(r#"{"type": "adaptive"}"#)), Some("high"), None, None);
    let req = AnthropicMessagesRequest::from_chat(&chat);
    assert_eq!(req.thinking, Some(json(r#"{"type": "adaptive"}"#)));
    assert_eq!(req.output_config.unwrap().effort, Some("high".to_string()));
}

#[test]
fn outbound_output_schema_wrapped_as_json_schema_format() {
    let schema = json(
        r#"{"type": "object", "properties": {"name": {"type": "string"}}, "required": ["name"], "additionalProperties": false}"#,
    );
    let chat = chat_request(None, None, None, Some(schema.clone()));
    let req = AnthropicMessagesRequest::from_chat(&chat);
    let format = req.output_config.unwrap().format.unwrap();
    assert_eq!(format.format_type, "json_schema");
    assert_eq!(format.schema, schema);
}

#[test]
fn outbound_without_effort_or_task_budget_omits_output_config() {
    let chat = chat_request(None, None, None, None);
    let req = AnthropicMessagesRequest::from_chat(&chat);
    assert_eq!(req.thinking, None);
    assert!(req.output_config.is_none());
}

#[test]
fn outbound_task_budget_alone_still_creates_output_config() {
    let budget = json(r#"{"type": "tokens", "total": 64000}"#);
    let chat = chat_request(None, None, Some(budget.clone()), None);
    let req = AnthropicMessagesRequest::from_chat(&chat);
    let output_config = req.output_config.unwrap();
    assert_eq!(output_config.task_budget, Some(budget));
    assert_eq!(output_config.effort, None);
}

#[test]
fn inbound_tool_use_and_tool_result_blocks_round_trip() {
    let req = AnthropicMessagesRequest {
        model: "opus-4-8".to_string(),
        max_tokens: 1024,
        system: None,
        messages: vec![
            AnthropicMessage {
                role: "assistant".to_string(),
                content: AnthropicContent::Blocks(vec![ContentBlock::ToolUse {
                    id: "toolu_1".to_string(),
                    name: "get_weather".to_string(),
                    input: json(r#"{"city": "nyc"}"#),
                }]),
            },
            AnthropicMessage {
                role: "user".to_string(),
                content: AnthropicContent::Blocks(vec![ContentBlock::ToolResult {
                    tool_use_id: "toolu_1".to_string(),
                    content: "sunny".to_string(),
                }]),
            },
        ],
        temperature: None,
        thinking: None,
        output_config: None,
        tools: Vec::new(),
        stream: false,
        plugins: Vec::new(),
    };
    let chat = ChatRequest::from_anthropic(req);
    assert_eq!(
        chat.messages[0].content,
        vec![ContentPart::ToolUse {
            id: "toolu_1".to_string(),
            name: "get_weather".to_string(),
            input: json(r#"{"city": "nyc"}"#),
        }]
    );
    assert_eq!(
        chat.messages[1].content,
        vec![ContentPart::ToolResult { tool_use_id: "toolu_1".to_string(), content: "sunny".to_string() }]
    );
}

#[test]
fn inbound_image_block_maps_to_image_content_part() {
    let req = AnthropicMessagesRequest {
        model: "opus-4-8".to_string(),
        max_tokens: 1024,
        system: None,
        messages: vec![AnthropicMessage {
            role: "user".to_string(),
            content: AnthropicContent::Blocks(vec![ContentBlock::Image {
                source: ImageSource {
                    source_type: "base64".to_string(),
                    media_type: "image/png".to_string(),
                    data: "abc123".to_string(),
                },
            }]),
        }],
        temperature: None,
        thinking: None,
        output_config: None,
        tools: Vec::new(),
        stream: false,
        plugins: Vec::new(),
    };
    let chat = ChatRequest::from_anthropic(req);
    assert_eq!(
        chat.messages[0].content,
        vec![ContentPart::Image { media_type: "image/png".to_string(), data: "abc123".to_string() }]
    );
}

#[test]
fn outbound_single_text_part_collapses_to_bare_string() {
    let chat = chat_request(None, None, None, None);
    let req = AnthropicMessagesRequest::from_chat(&chat);
    match &req.messages[0].content {
        AnthropicContent::Text(text) => assert_eq!(text, "hi"),
        AnthropicContent::Blocks(_) => panic!("expected bare string content"),
    }
}

#[test]
fn outbound_tools_list_maps_to_input_schema() {
    let mut chat = chat_request(None, None, None, None);
    chat.tools = vec![Tool {
        name: "get_weather".to_string(),
        description: Some("Looks up weather".to_string()),
        input_schema: json(r#"{"type": "object"}"#),
    }];
    let req = AnthropicMessagesRequest::from_chat(&chat);
    assert_eq!(req.tools.len(), 1);
    assert_eq!(req.tools[0].name, "get_weather");
    assert_eq!(req.tools[0].input_schema, json(r#"{"type": "object"}"#));
}

#[test]
fn response_tool_use_block_parsed_into_tool_calls() {
    let resp = AnthropicMessagesResponse {
        id: "1".to_string(),
        response_type: "message".to_string(),
        role: "assistant".to_string(),
        model: "opus-4-8".to_string(),
        content: vec![ContentBlock::ToolUse {
            id: "toolu_1".to_string(),
            name: "get_weather".to_string(),
            input: json(r#"{"city": "nyc"}"#),
        }],
        stop_reason: Some("tool_use".to_string()),
        usage: AnthropicUsage::default(),
    };
    let chat = ChatResponse::from_anthropic(resp);
    assert_eq!(chat.stop_reason, StopReason::ToolUse);
    assert_eq!(chat.tool_calls.len(), 1);
    assert_eq!(chat.tool_calls[0].name, "get_weather");
}

fn render_all(events: Vec<StreamEvent>, model: &str) -> Vec<AnthropicStreamEvent> {
    let (mut renderer, first) = AnthropicStreamRenderer::start("msg_1".to_string(), model.to_string());
    let mut out = vec![first];
    for event in events {
        let (rendered, done) = renderer.render(event);
        out.extend(rendered);
        if done {
            break;
        }
    }
    out
}

fn event_name(e: &AnthropicStreamEvent) -> &'static str {
    match e {
        AnthropicStreamEvent::MessageStart { .. } => "message_start",
        AnthropicStreamEvent::TextBlockStart { .. } | AnthropicStreamEvent::ToolUseBlockStart { .. } => "content_block_start",
        AnthropicStreamEvent::TextDelta { .. } | AnthropicStreamEvent::InputJsonDelta { .. } => "content_block_delta",
        AnthropicStreamEvent::BlockStop { .. } => "content_block_stop",
        AnthropicStreamEvent::MessageDelta { .. } => "message_delta",
        AnthropicStreamEvent::MessageStop => "message_stop",
    }
}

#[test]
fn render_stream_text_only_opens_and_closes_one_text_block() {
    let events = render_all(
        vec![
            StreamEvent::TextDelta { text: "hi".to_string() },
            StreamEvent::TextDelta { text: " there".to_string() },
            StreamEvent::Done { stop_reason: StopReason::EndTurn, usage: Usage { input_tokens: 1, output_tokens: 2 } },
        ],
        "opus-4-8",
    );
    let names: Vec<&str> = events.iter().map(event_name).collect();
    assert_eq!(
        names,
        vec![
            "message_start",
            "content_block_start",
            "content_block_delta",
            "content_block_delta",
            "content_block_stop",
            "message_delta",
            "message_stop",
        ]
    );
    assert_eq!(events[1], AnthropicStreamEvent::TextBlockStart { index: 0 });
    assert_eq!(events[2], AnthropicStreamEvent::TextDelta { index: 0, text: "hi".to_string() });
    assert_eq!(events[3], AnthropicStreamEvent::TextDelta { index: 0, text: " there".to_string() });
    match &events[5] {
        AnthropicStreamEvent::MessageDelta { stop_reason, usage } => {
            assert_eq!(stop_reason, "end_turn");
            assert_eq!(usage.output_tokens, 2);
        }
        other => panic!("expected message_delta, got {other:?}"),
    }
}

#[test]
fn render_stream_tool_use_opens_tool_block_with_id_and_name() {
    let events = render_all(
        vec![
            StreamEvent::ToolCallStart { id: "toolu_1".to_string(), name: "get_weather".to_string() },
            StreamEvent::ToolCallDelta { id: "toolu_1".to_string(), partial_input: r#"{"city":"nyc"}"#.to_string() },
            StreamEvent::Done { stop_reason: StopReason::ToolUse, usage: Usage::default() },
        ],
        "opus-4-8",
    );
    let names: Vec<&str> = events.iter().map(event_name).collect();
    assert_eq!(
        names,
        vec!["message_start", "content_block_start", "content_block_delta", "content_block_stop", "message_delta", "message_stop"]
    );
    assert_eq!(
        events[1],
        AnthropicStreamEvent::ToolUseBlockStart { index: 0, id: "toolu_1".to_string(), name: "get_weather".to_string() }
    );
    assert_eq!(events[2], AnthropicStreamEvent::InputJsonDelta { index: 0, partial_json: r#"{"city":"nyc"}"#.to_string() });
    match &events[4] {
        AnthropicStreamEvent::MessageDelta { stop_reason, .. } => assert_eq!(stop_reason, "tool_use"),
        other => panic!("expected message_delta, got {other:?}"),
    }
}

#[test]
fn render_stream_switches_blocks_between_text_and_tool_use() {
    let events = render_all(
        vec![
            StreamEvent::TextDelta { text: "let me check".to_string() },
            StreamEvent::ToolCallStart { id: "toolu_2".to_string(), name: "search".to_string() },
            StreamEvent::TextDelta { text: "done".to_string() },
            StreamEvent::Done { stop_reason: StopReason::MaxTokens, usage: Usage { input_tokens: 5, output_tokens: 9 } },
        ],
        "m",
    );
    assert_eq!(events[3], AnthropicStreamEvent::BlockStop { index: 0 });
    assert_eq!(
        events[4],
        AnthropicStreamEvent::ToolUseBlockStart { index: 1, id: "toolu_2".to_string(), name: "search".to_string() }
    );
    assert_eq!(events[5], AnthropicStreamEvent::BlockStop { index: 1 });
    assert_eq!(events[6], AnthropicStreamEvent::TextBlockStart { index: 2 });
    assert_eq!(events[8], AnthropicStreamEvent::BlockStop { index: 2 });
    assert_eq!(
        events[9],
        AnthropicStreamEvent::MessageDelta {
            stop_reason: "max_tokens".to_string(),
            usage: Usage { input_tokens: 5, output_tokens: 9 }
        }
    );
    assert_eq!(events[10], AnthropicStreamEvent::MessageStop);
}

#[test]
fn stop_reasons_map_to_anthropic_names() {
    assert_eq!(stop_reason_to_anthropic(StopReason::EndTurn), "end_turn");
    assert_eq!(stop_reason_to_anthropic(StopReason::MaxTokens), "max_tokens");
    assert_eq!(stop_reason_to_anthropic(StopReason::ToolUse), "tool_use");
    assert_eq!(stop_reason_to_anthropic(StopReason::Other), "end_turn");
}

#[test]
fn reply_renders_text_block_then_tool_use_blocks() {
    let resp = ChatResponse {
        id: "msg_9".to_string(),
        model: "m".to_string(),
        content: "hello".to_string(),
        stop_reason: StopReason::ToolUse,
        tool_calls: vec![opensourcellmrouter::canonical::ToolCall {
            id: "t1".to_string(),
            name: "f".to_string(),
            input: json("{}"),
        }],
        usage: Usage { input_tokens: 3, output_tokens: 4 },
        tags: Vec::new(),
    };
    let out = AnthropicMessagesResponse::from_chat(resp);
    assert_eq!(out.response_type, "message");
    assert_eq!(out.role, "assistant");
    assert_eq!(
        out.content,
        vec![
            ContentBlock::Text { text: "hello".to_string() },
            ContentBlock::ToolUse { id: "t1".to_string(), name: "f".to_string(), input: json("{}") },
        ]
    );
    assert_eq!(out.stop_reason, Some("tool_use".to_string()));
    assert_eq!(out.usage, AnthropicUsage { input_tokens: 3, output_tokens: 4 });
}

#[test]
fn render_stream_numbers_blocks_and_stops_each_once() {
    let events = render_all(
        vec![
            StreamEvent::TextDelta { text: "a".to_string() },
            StreamEvent::ToolCallStart { id: "t1".to_string(), name: "f".to_string() },
            StreamEvent::ToolCallDelta { id: "t1".to_string(), partial_input: "{}".to_string() },
            StreamEvent::TextDelta { text: "b".to_string() },
            StreamEvent::Done { stop_reason: StopReason::EndTurn, usage: Usage::default() },
        ],
        "m",
    );
    assert_eq!(
        events[1..9].to_vec(),
        vec![
            AnthropicStreamEvent::TextBlockStart { index: 0 },
            AnthropicStreamEvent::TextDelta { index: 0, text: "a".to_string() },
            AnthropicStreamEvent::BlockStop { index: 0 },
            AnthropicStreamEvent::ToolUseBlockStart { index: 1, id: "t1".to_string(), name: "f".to_string() },
            AnthropicStreamEvent::InputJsonDelta { index: 1, partial_json: "{}".to_string() },
            AnthropicStreamEvent::BlockStop { index: 1 },
            AnthropicStreamEvent::TextBlockStart { index: 2 },
            AnthropicStreamEvent::TextDelta { index: 2, text: "b".to_string() },
        ]
    );
    assert_eq!(events[9], AnthropicStreamEvent::BlockStop { index: 2 });
    assert_eq!(events.len(), 12);
    assert_eq!(events[11], AnthropicStreamEvent::MessageStop);
}
