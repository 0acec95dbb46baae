use opensourcellmrouter::canonical::{ChatRequest, ChatResponse, ContentPart, Message, Role, StopReason, StreamEvent, Tool, ToolCall, Usage};
use opensourcellmrouter::formats::openai::{
    data_url, default_schema_name, openai_content_to_text, parse_data_url, stop_reason_from_finish_reason, ChunkDelta,
    JsonSchemaFormat, OpenAiChatRequest, OpenAiChatResponse, OpenAiChoice, OpenAiContent, OpenAiContentBlock,
    OpenAiFunctionCall, OpenAiImageUrl, OpenAiMessage, OpenAiStreamChoice, OpenAiStreamChunk, OpenAiStreamDecoder,
    OpenAiStreamDelta, OpenAiStreamFunctionDelta, OpenAiStreamRenderer, OpenAiStreamToolCall, OpenAiToolCall,
    OpenAiUsage, ResponseFormat,
};

fn json(text: &str) -> serde_json::Value {
    serde_json::from_str(text).unwrap()
}

fn chat_request(output_schema: Option<serde_json::Value>) -> ChatRequest {
    ChatRequest {
        model: "gpt-4o".to_string(),
        system: None,
        messages: vec![Message::text(Role::User, "hi")],
        max_tokens: None,
        temperature: None,
        thinking: None,
        effort: None,
        task_budget: None,
        output_schema,
        tools: Vec::new(),
        stream: false,
        plugins: Vec::new(),
        forced_provider: None,
        tags: Vec::new(),
    }
}

fn openai_request(messages: Vec<OpenAiMessage>, response_format: Option<ResponseFormat>) -> OpenAiChatRequest {
    OpenAiChatRequest {
        model: "gpt-4o".to_string(),
        messages,
        max_tokens: None,
        temperature: None,
        response_format,
        tools: Vec::new(),
        stream: false,
        plugins: Vec::new(),
    }
}

#[test]
fn inbound_response_format_extracts_schema() {
    let schema = json(
        r#"{"type": "object", "properties": {"name": {"type": "string"}}, "required": ["name"], "additionalProperties": false}"#,
    );
    let req = openai_request(
        vec![OpenAiMessage::text("user", "hi".to_string())],
        Some(ResponseFormat {
            format_type: "json_schema".to_string(),
            json_schema: JsonSchemaFormat { name: "contact".to_string(), schema: schema.clone(), strict: true },
        }),
    );
    let chat = ChatRequest::from_openai(req);
    assert_eq!(chat.output_schema, Some(schema));
}

#[test]
fn inbound_without_response_format_leaves_output_schema_none() {
    let req = openai_request(vec![OpenAiMessage::text("user", "hi".to_string())], None);
    let chat = ChatRequest::from_openai(req);
    assert_eq!(chat.output_schema, None);
}

#[test]
fn outbound_output_schema_wrapped_as_strict_json_schema_response_format() {
    let schema = json(
        r#"{"type": "object", "properties": {"name": {"type": "string"}}, "required": ["name"], "additionalProperties": false}"#,
    );
    let chat = chat_request(Some(schema.clone()));
    let req = OpenAiChatRequest::from_chat(&chat);
    let format = req.response_format.unwrap();
    assert_eq!(format.format_type, "json_schema");
    assert_eq!(format.json_schema.schema, schema);
    assert!(format.json_schema.strict);
    assert_eq!(format.json_schema.name, "response");
}

#[test]
fn outbound_without_output_schema_omits_response_format() {
    let chat = chat_request(None);
    let req = OpenAiChatRequest::from_chat(&chat);
    assert!(req.response_format.is_none());
}

#[test]
fn inbound_tool_role_message_maps_to_tool_result_content_part() {
    let req = openai_request(
        vec![OpenAiMessage {
            role: "tool".to_string(),
            content: Some(OpenAiContent::Text("42".to_string())),
            tool_calls: None,
            tool_call_id: Some("call_1".to_string()),
        }],
        None,
    );
    let chat = ChatRequest::from_openai(req);
    assert_eq!(chat.messages.len(), 1);
    assert_eq!(chat.messages[0].role, Role::User);
    assert_eq!(
        chat.messages[0].content,
        vec![ContentPart::ToolResult { tool_use_id: "call_1".to_string(), content: "42".to_string() }]
    );
}

#[test]
fn inbound_assistant_tool_calls_become_tool_use_parts() {
    let req = openai_request(
        vec![OpenAiMessage {
            role: "assistant".to_string(),
            content: None,
            tool_calls: Some(vec![OpenAiToolCall {
                id: "call_1".to_string(),
                call_type: "function".to_string(),
                function: OpenAiFunctionCall { name: "get_weather".to_string(), arguments: r#"{"city":"nyc"}"#.to_string() },
            }]),
            tool_call_id: None,
        }],
        None,
    );
    let chat = ChatRequest::from_openai(req);
    assert_eq!(
        chat.messages[0].content,
        vec![ContentPart::ToolUse { id: "call_1".to_string(), name: "get_weather".to_string(), input: json(r#"{"city": "nyc"}"#) }]
    );
}

#[test]
fn inbound_image_url_block_maps_to_image_content_part() {
    let req = openai_request(
        vec![OpenAiMessage {
            role: "user".to_string(),
            content: Some(OpenAiContent::Blocks(vec![OpenAiContentBlock::ImageUrl {
                image_url: OpenAiImageUrl { url: "data:image/png;base64,abc123".to_string() },
            }])),
            tool_calls: None,
            tool_call_id: None,
        }],
        None,
    );
    let chat = ChatRequest::from_openai(req);
    assert_eq!(
        chat.messages[0].content,
        vec![ContentPart::Image { media_type: "image/png".to_string(), data: "abc123".to_string() }]
    );
}

#[test]
fn outbound_tool_result_part_becomes_separate_tool_role_message() {
    let mut chat = chat_request(None);
    chat.messages = vec![Message {
        role: Role::User,
        content: vec![ContentPart::ToolResult { tool_use_id: "call_1".to_string(), content: "42".to_string() }],
    }];
    let req = OpenAiChatRequest::from_chat(&chat);
    assert_eq!(req.messages.len(), 1);
    assert_eq!(req.messages[0].role, "tool");
    assert_eq!(req.messages[0].tool_call_id, Some("call_1".to_string()));
}

#[test]
fn outbound_tools_list_maps_to_function_type_wrapper() {
    let mut chat = chat_request(None);
    chat.tools = vec![Tool {
        name: "get_weather".to_string(),
        description: Some("Looks up weather".to_string()),
        input_schema: json(r#"{"type": "object"}"#),
    }];
    let req = OpenAiChatRequest::from_chat(&chat);
    assert_eq!(req.tools.len(), 1);
    assert_eq!(req.tools[0].tool_type, "function");
    assert_eq!(req.tools[0].function.name, "get_weather");
}

#[test]
fn outbound_without_tools_omits_tools_field() {
    let chat = chat_request(None);
    let req = OpenAiChatRequest::from_chat(&chat);
    assert!(req.tools.is_empty());
}

#[test]
fn response_tool_calls_parsed_into_chat_response() {
    let resp = OpenAiChatResponse {
        id: "1".to_string(),
        object: "chat.completion".to_string(),
        model: "gpt-4o".to_string(),
        choices: vec![OpenAiChoice {
            index: 0,
            message: OpenAiMessage {
                role: "assistant".to_string(),
                content: None,
                tool_calls: Some(vec![OpenAiToolCall {
                    id: "call_1".to_string(),
                    call_type: "function".to_string(),
                    function: OpenAiFunctionCall { name: "get_weather".to_string(), arguments: r#"{"city":"nyc"}"#.to_string() },
                }]),
                tool_call_id: None,
            },
            finish_reason: Some("tool_calls".to_string()),
        }],
        usage: OpenAiUsage::default(),
    };
    let chat = ChatResponse::from_openai(resp);
    assert_eq!(chat.stop_reason, StopReason::ToolUse);
    assert_eq!(chat.tool_calls.len(), 1);
    assert_eq!(chat.tool_calls[0].name, "get_weather");
}

#[test]
fn inbound_malformed_tool_call_arguments_falls_back_to_null() {
    let req = openai_request(
        vec![OpenAiMessage {
            role: "assistant".to_string(),
            content: None,
            tool_calls: Some(vec![OpenAiToolCall {
                id: "call_1".to_string(),
                call_type: "function".to_string(),
                function: OpenAiFunctionCall { name: "get_weather".to_string(), arguments: "not valid json".to_string() },
            }]),
            tool_call_id: None,
        }],
        None,
    );
    let chat = ChatRequest::from_openai(req);
    assert_eq!(
        chat.messages[0].content,
        vec![ContentPart::ToolUse { id: "call_1".to_string(), name: "get_weather".to_string(), input: serde_json::Value::Null }]
    );
}

#[test]
fn inbound_non_data_url_image_is_dropped() {
    let req = openai_request(
        vec![OpenAiMessage {
            role: "user".to_string(),
            content: Some(OpenAiContent::Blocks(vec![OpenAiContentBlock::ImageUrl {
                image_url: OpenAiImageUrl { url: "https://example.com/cat.png".to_string() },
            }])),
            tool_calls: None,
            tool_call_id: None,
        }],
        None,
    );
    let chat = ChatRequest::from_openai(req);
    assert_eq!(chat.messages[0].content, Vec::new());
}

#[test]
fn outbound_mixed_text_image_and_tool_use_message() {
    let mut chat = chat_request(None);
    chat.messages = vec![Message {
        role: Role::Assistant,
        content: vec![
            ContentPart::Text { text: "checking weather".to_string() },
            ContentPart::Image { media_type: "image/png".to_string(), data: "abc123".to_string() },
            ContentPart::ToolUse { id: "call_1".to_string(), name: "get_weather".to_string(), input: json(r#"{"city": "nyc"}"#) },
        ],
    }];
    let req = OpenAiChatRequest::from_chat(&chat);
    assert_eq!(req.messages.len(), 1);
    match &req.messages[0].content {
        Some(OpenAiContent::Blocks(blocks)) => assert_eq!(blocks.len(), 2),
        other => panic!("expected blocks content, got {other:?}"),
    }
    let tool_calls = req.messages[0].tool_calls.as_ref().expect("tool_calls set");
    assert_eq!(tool_calls[0].function.name, "get_weather");
}

#[test]
fn decoder_emits_text_delta_then_done_with_usage() {
    let mut decoder = OpenAiStreamDecoder::default();
    let events = decoder.decode(OpenAiStreamChunk {
        choices: vec![OpenAiStreamChoice {
            delta: OpenAiStreamDelta { content: Some("hi".to_string()), tool_calls: None },
            finish_reason: None,
        }],
        usage: None,
    });
    assert_eq!(events, vec![StreamEvent::TextDelta { text: "hi".to_string() }]);

    let events = decoder.decode(OpenAiStreamChunk {
        choices: vec![OpenAiStreamChoice { delta: OpenAiStreamDelta::default(), finish_reason: Some("stop".to_string()) }],
        usage: Some(OpenAiUsage { prompt_tokens: 3, completion_tokens: 1, total_tokens: 4 }),
    });
    assert_eq!(
        events,
        vec![StreamEvent::Done { stop_reason: StopReason::EndTurn, usage: Usage { input_tokens: 3, output_tokens: 1 } }]
    );
}

#[test]
fn decoder_reassembles_tool_call_id_across_chunks_by_index() {
    let mut decoder = OpenAiStreamDecoder::default();
    let events = decoder.decode(OpenAiStreamChunk {
        choices: vec![OpenAiStreamChoice {
            delta: OpenAiStreamDelta {
                content: None,
                tool_calls: Some(vec![OpenAiStreamToolCall {
                    index: 0,
                    id: Some("call_1".to_string()),
                    function: OpenAiStreamFunctionDelta { name: Some("get_weather".to_string()), arguments: Some(String::new()) },
                }]),
            },
            finish_reason: None,
        }],
        usage: None,
    });
    assert_eq!(events, vec![StreamEvent::ToolCallStart { id: "call_1".to_string(), name: "get_weather".to_string() }]);

    let events = decoder.decode(OpenAiStreamChunk {
        choices: vec![OpenAiStreamChoice {
            delta: OpenAiStreamDelta {
                content: None,
                tool_calls: Some(vec![OpenAiStreamToolCall {
                    index: 0,
                    id: None,
                    function: OpenAiStreamFunctionDelta { name: None, arguments: Some(r#"{"city":"nyc"}"#.to_string()) },
                }]),
            },
            finish_reason: None,
        }],
        usage: None,
    });
    assert_eq!(
        events,
        vec![StreamEvent::ToolCallDelta { id: "call_1".to_string(), partial_input: r#"{"city":"nyc"}"#.to_string() }]
    );
}

fn render_all(events: Vec<StreamEvent>, model: &str) -> Vec<opensourcellmrouter::formats::openai::RenderedChunk> {
    let mut renderer = OpenAiStreamRenderer::new(model.to_string());
    events.into_iter().map(|e| renderer.render(e)).collect()
}

#[test]
fn render_stream_emits_text_delta_then_stop_and_done_marker() {
    let mut renderer = OpenAiStreamRenderer::new("gpt-4o".to_string());
    let chunks = vec![
        renderer.render(StreamEvent::TextDelta { text: "hi".to_string() }),
        renderer.render(StreamEvent::Done { stop_reason: StopReason::EndTurn, usage: Usage::default() }),
    ];
    assert_eq!(renderer.done_line(), "data: [DONE]");
    assert_eq!(chunks[0].delta, ChunkDelta::Content { text: "hi".to_string() });
    assert_eq!(chunks[0].finish_reason, None);
    assert_eq!(chunks[0].id, "chatcmpl-1");
    assert_eq!(chunks[1].delta, ChunkDelta::Empty);
    assert_eq!(chunks[1].finish_reason, Some("stop".to_string()));
    assert_eq!(chunks[1].id, "chatcmpl-2");
    assert_eq!(chunks[1].model, "gpt-4o");
}

#[test]
fn render_stream_tool_call_start_then_delta_share_index() {
    let chunks = render_all(
        vec![
            StreamEvent::ToolCallStart { id: "call_1".to_string(), name: "get_weather".to_string() },
            StreamEvent::ToolCallDelta { id: "call_1".to_string(), partial_input: r#"{"city":"nyc"}"#.to_string() },
            StreamEvent::Done { stop_reason: StopReason::ToolUse, usage: Usage::default() },
        ],
        "gpt-4o",
    );
    let index = match &chunks[0].delta {
        ChunkDelta::ToolCallStart { index, id, name } => {
            assert_eq!(id, "call_1");
            assert_eq!(name, "get_weather");
            *index
        }
        other => panic!("expected a tool call start, got {other:?}"),
    };
    assert_eq!(chunks[1].delta, ChunkDelta::ToolCallArguments { index, arguments: r#"{"city":"nyc"}"#.to_string() });
    assert_eq!(chunks[2].finish_reason, Some("tool_calls".to_string()));
}

#[test]
fn render_stream_gives_each_tool_call_its_own_index() {
    let chunks = render_all(
        vec![
            StreamEvent::ToolCallStart { id: "a".to_string(), name: "f".to_string() },
            StreamEvent::ToolCallStart { id: "b".to_string(), name: "g".to_string() },
            StreamEvent::ToolCallDelta { id: "a".to_string(), partial_input: "{}".to_string() },
        ],
        "m",
    );
    assert_eq!(chunks[0].delta, ChunkDelta::ToolCallStart { index: 0, id: "a".to_string(), name: "f".to_string() });
    assert_eq!(chunks[1].delta, ChunkDelta::ToolCallStart { index: 1, id: "b".to_string(), name: "g".to_string() });
    assert_eq!(chunks[2].delta, ChunkDelta::ToolCallArguments { index: 0, arguments: "{}".to_string() });
}

#[test]
fn data_urls_split_and_join() {
    assert_eq!(parse_data_url("data:image/png;base64,abc123"), Some(("image/png".to_string(), "abc123".to_string())));
    assert_eq!(parse_data_url("https://example.com/cat.png"), None);
    assert_eq!(data_url("image/jpeg", "xyz"), "data:image/jpeg;base64,xyz");
}

#[test]
fn finish_reasons_map_to_stop_reasons() {
    assert_eq!(stop_reason_from_finish_reason(Some("stop")), StopReason::EndTurn);
    assert_eq!(stop_reason_from_finish_reason(Some("length")), StopReason::MaxTokens);
    assert_eq!(stop_reason_from_finish_reason(Some("tool_calls")), StopReason::ToolUse);
    assert_eq!(stop_reason_from_finish_reason(Some("content_filter")), StopReason::Other);
    assert_eq!(stop_reason_from_finish_reason(None), StopReason::Other);
}

#[test]
fn content_to_text_joins_text_blocks() {
    let content = Some(OpenAiContent::Blocks(vec![
        OpenAiContentBlock::Text { text: "a".to_string() },
        OpenAiContentBlock::ImageUrl { image_url: OpenAiImageUrl { url: "data:image/png;base64,zz".to_string() } },
        OpenAiContentBlock::Text { text: "b".to_string() },
    ]));
    assert_eq!(openai_content_to_text(content), "ab");
    assert_eq!(openai_content_to_text(None), "");
    assert_eq!(default_schema_name(), "response");
}

#[test]
fn reply_renders_message_with_tool_calls_and_usage() {
    let resp = ChatResponse {
        id: "r1".to_string(),
        model: "gpt-4o".to_string(),
        content: String::new(),
        stop_reason: StopReason::ToolUse,
        tool_calls: vec![ToolCall { id: "call_1".to_string(), name: "f".to_string(), input: json(r#"{"x":1}"#) }],
        usage: Usage { input_tokens: 2, output_tokens: 3 },
        tags: Vec::new(),
    };
    let out = OpenAiChatResponse::from_chat(resp);
    assert_eq!(out.choices.len(), 1);
    assert_eq!(out.choices[0].finish_reason, Some("tool_calls".to_string()));
    let calls = out.choices[0].message.tool_calls.as_ref().unwrap();
    assert_eq!(calls[0].function.arguments, r#"{"x":1}"#);
    assert_eq!(out.usage.total_tokens, 5);
}

#[test]
fn text_request_survives_the_openai_round_trip() {
    let mut req = chat_request(Some(json(r#"{"type":"object"}"#)));
    req.system = Some("be brief".to_string());
    req.messages = vec![Message::text(Role::User, "hi"), Message::text(Role::Assistant, "hello"), Message::text(Role::User, "bye")];
    req.max_tokens = Some(64);
    req.temperature = Some(0.5f32.to_bits());
    req.stream = true;
    req.tools = vec![Tool {
        name: "get_weather".to_string(),
        description: Some("weather".to_string()),
        input_schema: json(r#"{"type":"object"}"#),
    }];
    let back = ChatRequest::from_openai(OpenAiChatRequest::from_chat(&req));
    assert_eq!(back.model, req.model);
    assert_eq!(back.system, req.system);
    assert_eq!(back.messages, req.messages);
    assert_eq!(back.max_tokens, req.max_tokens);
    assert_eq!(back.temperature, req.temperature);
    assert_eq!(back.output_schema, req.output_schema);
    assert_eq!(back.tools, req.tools);
    assert!(back.stream);
    assert!(back.plugins.is_empty());
}
