use opensourcellmrouter::canonical::{ChatRequest, ContentPart, Message, Role, Tool};

fn json(text: &str) -> serde_json::Value {
    serde_json::from_str(text).unwrap()
}

fn base_request(messages: Vec<Message>) -> ChatRequest {
    ChatRequest {
        model: "test-model".to_string(),
        system: None,
        messages,
        max_tokens: None,
        temperature: None,
        thinking: None,
        effort: None,
        task_budget: None,
        output_schema: None,
        tools: Vec::new(),
        stream: false,
        plugins: Vec::new(),
        forced_provider: None,
        tags: Vec::new(),
    }
}

#[test]
fn text_constructor_produces_single_text_part() {
    let msg = Message::text(Role::User, "hi");
    assert_eq!(msg.role, Role::User);
    assert_eq!(msg.content, vec![ContentPart::Text { text: "hi".to_string() }]);
}

#[test]
fn text_content_joins_multiple_text_parts() {
    let msg = Message {
        role: Role::User,
        content: vec![
            ContentPart::Text { text: "hello ".to_string() },
            ContentPart::Text { text: "world".to_string() },
        ],
    };
    assert_eq!(msg.text_content(), "hello world");
}

#[test]
fn text_content_skips_non_text_parts() {
    let msg = Message {
        role: Role::User,
        content: vec![
            ContentPart::Text { text: "describe this".to_string() },
            ContentPart::Image { media_type: "image/png".to_string(), data: "abc".to_string() },
            ContentPart::ToolUse { id: "1".to_string(), name: "f".to_string(), input: json("{}") },
            ContentPart::ToolResult { tool_use_id: "1".to_string(), content: "r".to_string() },
        ],
    };
    assert_eq!(msg.text_content(), "describe this");
}

#[test]
fn needed_capabilities_empty_for_plain_text_request() {
    let req = base_request(vec![Message::text(Role::User, "hi")]);
    assert_eq!(req.needed_capabilities(), Vec::<String>::new());
}

#[test]
fn needed_capabilities_includes_vision_for_image_content() {
    let req = base_request(vec![Message {
        role: Role::User,
        content: vec![ContentPart::Image { media_type: "image/png".to_string(), data: "abc".to_string() }],
    }]);
    assert_eq!(req.needed_capabilities(), vec!["vision".to_string()]);
}

#[test]
fn needed_capabilities_includes_tools_for_non_empty_tools() {
    let mut req = base_request(vec![Message::text(Role::User, "hi")]);
    req.tools = vec![Tool { name: "get_weather".to_string(), description: None, input_schema: json(r#"{"type": "object"}"#) }];
    assert_eq!(req.needed_capabilities(), vec!["tools".to_string()]);
}

#[test]
fn needed_capabilities_includes_both_when_applicable() {
    let mut req = base_request(vec![Message {
        role: Role::User,
        content: vec![ContentPart::Image { media_type: "image/png".to_string(), data: "abc".to_string() }],
    }]);
    req.tools = vec![Tool { name: "get_weather".to_string(), description: None, input_schema: json(r#"{"type": "object"}"#) }];
    assert_eq!(req.needed_capabilities(), vec!["vision".to_string(), "tools".to_string()]);
}

#[test]
fn text_content_of_message_without_text_is_empty() {
    let msg = Message {
        role: Role::Assistant,
        content: vec![ContentPart::ToolUse { id: "1".to_string(), name: "f".to_string(), input: json("{}") }],
    };
    assert_eq!(msg.text_content(), "");
}

#[test]
fn needed_capabilities_finds_image_in_later_message() {
    let req = base_request(vec![
        Message::text(Role::User, "first"),
        Message {
            role: Role::Assistant,
            content: vec![
                ContentPart::Text { text: "look".to_string() },
                ContentPart::Image { media_type: "image/jpeg".to_string(), data: "zz".to_string() },
            ],
        },
    ]);
    assert_eq!(req.needed_capabilities(), vec!["vision".to_string()]);
}
