use opensourcellmrouter::canonical::{ChatRequest, ChatResponse, ContentPart, Message, Role, StopReason, StreamEvent, Tool, Usage};
use opensourcellmrouter::formats::ollama::{
    implicit_capabilities, model_capabilities, model_names, OllamaChatRequest, OllamaChatResponse, OllamaFunctionCall,
    OllamaModelInfo, OllamaResponseMessage, OllamaShowDetails, OllamaShowResponse, OllamaTagsResponse, OllamaToolCall,
};
use opensourcellmrouter::stream::{ollama_chunk_events, ollama_stream_line};

fn json(text: &str) -> serde_json::Value {
    serde_json::from_str(text).unwrap()
}

fn base_request(messages: Vec<Message>) -> ChatRequest {
    ChatRequest {
        model: "llama3".to_string(),
        system: None,
        messages,
        max_tokens: None,
        temperature: None,
        thinking: None,
        effort: None,
        task_budget: None,
        output_schema: None,
        tools: Vec::new(),
        stream: false,
        plugins: Vec::new(),
        forced_provider: None,
        tags: Vec::new(),
    }
}

#[test]
fn request_includes_system_and_options() {
    let mut req = base_request(vec![Message::text(Role::User, "hi")]);
    req.system = Some("be terse".to_string());
    req.max_tokens = Some(128);
    req.temperature = Some(0.5f32.to_bits());

    let ollama_req = OllamaChatRequest::from_chat(&req);
    assert_eq!(ollama_req.model, "llama3");
    assert_eq!(ollama_req.messages[0].role, "system");
    assert_eq!(ollama_req.messages[0].content, "be terse");
    assert_eq!(ollama_req.messages[1].role, "user");
    let options = ollama_req.options.expect("options should be set");
    assert_eq!(options.temperature.map(f32::from_bits), Some(0.5));
    assert_eq!(options.num_predict, Some(128));
    assert_eq!(ollama_req.format, None);
}

#[test]
fn request_forwards_output_schema_as_format() {
    let schema = json(r#"{"type": "object", "properties": {"name": {"type": "string"}}, "required": ["name"]}"#);
    let mut req = base_request(vec![Message::text(Role::User, "hi")]);
    req.output_schema = Some(schema.clone());
    let ollama_req = OllamaChatRequest::from_chat(&req);
    assert_eq!(ollama_req.format, Some(schema));
}

#[test]
fn request_includes_images_array_from_image_content_part() {
    let msg = Message {
        role: Role::User,
        content: vec![
            ContentPart::Text { text: "what's this?".to_string() },
            ContentPart::Image { media_type: "image/png".to_string(), data: "abc123".to_string() },
        ],
    };
    let ollama_req = OllamaChatRequest::from_chat(&base_request(vec![msg]));
    assert_eq!(ollama_req.messages[0].content, "what's this?");
    assert_eq!(ollama_req.messages[0].images, vec!["abc123".to_string()]);
}

#[test]
fn request_includes_tool_calls_and_tools_field() {
    let msg = Message {
        role: Role::Assistant,
        content: vec![ContentPart::ToolUse { id: "call_1".to_string(), name: "get_weather".to_string(), input: json(r#"{"city": "nyc"}"#) }],
    };
    let mut req = base_request(vec![msg]);
    req.tools = vec![Tool {
        name: "get_weather".to_string(),
        description: Some("Looks up weather".to_string()),
        input_schema: json(r#"{"type": "object"}"#),
    }];
    let ollama_req = OllamaChatRequest::from_chat(&req);
    assert_eq!(ollama_req.tools.len(), 1);
    let tool_calls = ollama_req.messages[0].tool_calls.as_ref().expect("tool_calls set");
    assert_eq!(tool_calls[0].function.name, "get_weather");
}

#[test]
fn request_splits_tool_result_into_separate_tool_message() {
    let msg = Message {
        role: Role::User,
        content: vec![ContentPart::ToolResult { tool_use_id: "call_1".to_string(), content: "sunny".to_string() }],
    };
    let ollama_req = OllamaChatRequest::from_chat(&base_request(vec![msg]));
    assert_eq!(ollama_req.messages.len(), 1);
    assert_eq!(ollama_req.messages[0].role, "tool");
    assert_eq!(ollama_req.messages[0].content, "sunny");
}

#[test]
fn request_includes_mixed_text_image_and_tool_use_on_one_message() {
    let msg = Message {
        role: Role::Assistant,
        content: vec![
            ContentPart::Text { text: "checking weather".to_string() },
            ContentPart::Image { media_type: "image/png".to_string(), data: "abc123".to_string() },
            ContentPart::ToolUse { id: "call_1".to_string(), name: "get_weather".to_string(), input: json(r#"{"city": "nyc"}"#) },
        ],
    };
    let ollama_req = OllamaChatRequest::from_chat(&base_request(vec![msg]));
    assert_eq!(ollama_req.messages.len(), 1);
    assert_eq!(ollama_req.messages[0].content, "checking weather");
    assert_eq!(ollama_req.messages[0].images, vec!["abc123".to_string()]);
    let tool_calls = ollama_req.messages[0].tool_calls.as_ref().expect("tool_calls set");
    assert_eq!(tool_calls[0].function.name, "get_weather");
}

fn ollama_response(tool_calls: Vec<OllamaToolCall>, done_reason: Option<&str>) -> OllamaChatResponse {
    OllamaChatResponse {
        model: "llama3".to_string(),
        message: OllamaResponseMessage { content: if tool_calls.is_empty() { "hello".to_string() } else { String::new() }, tool_calls },
        done: true,
        done_reason: done_reason.map(str::to_string),
        prompt_eval_count: 10,
        eval_count: 5,
    }
}

#[test]
fn response_maps_usage_and_stop_reason() {
    let chat_resp = ChatResponse::from_ollama(ollama_response(Vec::new(), Some("stop")));
    assert_eq!(chat_resp.content, "hello");
    assert_eq!(chat_resp.stop_reason, StopReason::EndTurn);
    assert_eq!(chat_resp.usage.input_tokens, 10);
    assert_eq!(chat_resp.usage.output_tokens, 5);
    assert_eq!(chat_resp.id, "ollama-llama3");
}

#[test]
fn response_maps_tool_calls_into_chat_response() {
    let calls = vec![OllamaToolCall {
        function: OllamaFunctionCall { name: "get_weather".to_string(), arguments: json(r#"{"city": "nyc"}"#) },
    }];
    let chat_resp = ChatResponse::from_ollama(ollama_response(calls, Some("stop")));
    assert_eq!(chat_resp.stop_reason, StopReason::ToolUse);
    assert_eq!(chat_resp.tool_calls.len(), 1);
    assert_eq!(chat_resp.tool_calls[0].name, "get_weather");
    assert_eq!(chat_resp.tool_calls[0].id, "ollama-call-0");
}

#[test]
fn response_done_reasons_map_to_stop_reasons() {
    assert_eq!(ChatResponse::from_ollama(ollama_response(Vec::new(), Some("length"))).stop_reason, StopReason::MaxTokens);
    assert_eq!(ChatResponse::from_ollama(ollama_response(Vec::new(), Some("unload"))).stop_reason, StopReason::Other);
    assert_eq!(ChatResponse::from_ollama(ollama_response(Vec::new(), None)).stop_reason, StopReason::Other);
}

#[test]
fn implicit_capabilities_detects_code_in_model_or_family() {
    assert_eq!(implicit_capabilities("deepseek-coder:6.7b", ""), vec!["coding".to_string()]);
    assert_eq!(implicit_capabilities("qwen2.5-coder:latest", ""), vec!["coding".to_string()]);
    assert_eq!(implicit_capabilities("custom-model:latest", "codellama"), vec!["coding".to_string()]);
    assert_eq!(implicit_capabilities("gemma3:latest", "gemma3"), Vec::<String>::new());
}

#[test]
fn tags_and_show_responses_give_names_and_capabilities() {
    let tags = OllamaTagsResponse {
        models: vec![OllamaModelInfo { name: "llama3:8b".to_string() }, OllamaModelInfo { name: "mistral:latest".to_string() }],
    };
    assert_eq!(model_names(tags), vec!["llama3:8b".to_string(), "mistral:latest".to_string()]);
    let show = OllamaShowResponse {
        capabilities: vec!["completion".to_string(), "vision".to_string()],
        details: OllamaShowDetails { family: "CodeGemma".to_string() },
    };
    assert_eq!(
        model_capabilities("g:latest", show),
        vec!["completion".to_string(), "vision".to_string(), "coding".to_string()]
    );
}

#[test]
fn stream_chunks_become_text_and_done_events() {
    let mut chunk = ollama_response(Vec::new(), None);
    chunk.done = false;
    let (events, done) = ollama_chunk_events(chunk);
    assert_eq!(events, vec![StreamEvent::TextDelta { text: "hello".to_string() }]);
    assert!(!done);

    let mut last = ollama_response(Vec::new(), Some("stop"));
    last.message.content = String::new();
    let (events, done) = ollama_chunk_events(last);
    assert_eq!(
        events,
        vec![StreamEvent::Done { stop_reason: StopReason::EndTurn, usage: Usage { input_tokens: 10, output_tokens: 5 } }]
    );
    assert!(done);

    assert_eq!(ollama_stream_line("  {\"a\":1}\r"), Some("{\"a\":1}".to_string()));
    assert_eq!(ollama_stream_line(" \t "), None);
}
