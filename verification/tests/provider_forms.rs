use hyprcollab::export::MessageRole;
use hyprcollab::provider_forms::{
    AnthropicMessage, AnthropicRequest, AnthropicResponse, AnthropicTool, AnthropicUsage,
    ChatMessage, ChatRequest, ContentBlock, MessageContent, OpenAiChoice, OpenAiMessage,
    OpenAiRequest, OpenAiResponse, OpenAiUsage, ToolDefinition,
};
use hyprcollab::streaming::{FinishReason, ToolCallText};

fn message(role: MessageRole, content: &str) -> ChatMessage {
    ChatMessage { role, content: content.to_string(), tool_calls: vec![], tool_call_id: None }
}

fn call(id: &str, name: &str, arguments: &str) -> ToolCallText {
    ToolCallText { id: id.to_string(), name: name.to_string(), arguments: arguments.to_string() }
}

fn calculator() -> ToolDefinition {
    ToolDefinition {
        name: "calculator".to_string(),
        description: "Do math".to_string(),
        parameters: r#"{"type":"object"}"#.to_string(),
    }
}

#[test]
fn test_anthropic_request_system_extraction() {
    let core_req = ChatRequest {
        model: "sonnet-4-20250514".to_string(),
        messages: vec![
            message(MessageRole::System, "You are helpful."),
            message(MessageRole::User, "Hello"),
        ],
        tools: vec![],
        max_tokens: Some(1024),
        stream: false,
    };
    let anthropic_req = AnthropicRequest::from_core(&core_req);
    assert_eq!(anthropic_req.system, Some("You are helpful.".to_string()));
    assert_eq!(anthropic_req.messages.len(), 1);
    assert_eq!(anthropic_req.messages[0].role, "user");
    assert_eq!(anthropic_req.max_tokens, 1024);
}

#[test]
fn test_conversion_chat_request_to_anthropic_request() {
    let core_req = ChatRequest {
        model: "sonnet-4-20250514".to_string(),
        messages: vec![
            message(MessageRole::System, "Be concise."),
            message(MessageRole::User, "What is 2+2?"),
        ],
        tools: vec![calculator()],
        max_tokens: Some(200),
        stream: false,
    };
    let anthropic_req = AnthropicRequest::from_core(&core_req);
    assert_eq!(anthropic_req.model, "sonnet-4-20250514");
    assert_eq!(anthropic_req.system, Some("Be concise.".to_string()));
    assert_eq!(anthropic_req.messages.len(), 1);
    assert_eq!(anthropic_req.messages[0].role, "user");
    assert_eq!(anthropic_req.tools.len(), 1);
    assert_eq!(anthropic_req.tools[0].name, "calculator");
    assert_eq!(anthropic_req.max_tokens, 200);
    assert_eq!(anthropic_req.stream, None);
}

#[test]
fn test_conversion_anthropic_response_to_chat_response() {
    let anthropic_resp = AnthropicResponse {
        id: "msg_abc".to_string(),
        content: vec![ContentBlock::Text("World".to_string())],
        model: "sonnet-4-20250514".to_string(),
        stop_reason: Some("end_turn".to_string()),
        usage: AnthropicUsage { input_tokens: 5, output_tokens: 3 },
    };
    let core_resp = anthropic_resp.into_core(7);
    assert_eq!(core_resp.id, "msg_abc");
    assert_eq!(core_resp.chat_id, 7);
    assert_eq!(core_resp.content, "World");
    assert_eq!(core_resp.usage.prompt_tokens, 5);
    assert_eq!(core_resp.usage.completion_tokens, 3);
    assert_eq!(core_resp.usage.total_tokens, 8);
    assert_eq!(core_resp.finish_reason, FinishReason::Stop);
}

#[test]
fn test_tool_definition_conversion() {
    let td = ToolDefinition {
        name: "get_weather".to_string(),
        description: "Get current weather".to_string(),
        parameters: r#"{"type":"object","properties":{"location":{"type":"string"}}}"#.to_string(),
    };
    let anthropic_tool = AnthropicTool::from_core(&td);
    assert_eq!(anthropic_tool.name, "get_weather");
    assert_eq!(anthropic_tool.description, Some("Get current weather".to_string()));
    let schema: serde_json::Value = serde_json::from_str(&anthropic_tool.input_schema).unwrap();
    assert!(schema["properties"]["location"].is_object());
}

#[test]
fn test_anthropic_response_with_tool_use() {
    let resp = AnthropicResponse {
        id: "msg_tool".to_string(),
        content: vec![
            ContentBlock::Text("Let me check that.".to_string()),
            ContentBlock::ToolUse(call("toolu_123", "search", r#"{"query":"rust"}"#)),
        ],
        model: "sonnet-4-20250514".to_string(),
        stop_reason: Some("tool_use".to_string()),
        usage: AnthropicUsage { input_tokens: 20, output_tokens: 10 },
    };
    assert_eq!(resp.content.len(), 2);
    let core_resp = resp.into_core(1);
    assert_eq!(core_resp.content, "Let me check that.");
    assert_eq!(core_resp.tool_calls.len(), 1);
    assert_eq!(core_resp.tool_calls[0].id, "toolu_123");
    assert_eq!(core_resp.tool_calls[0].name, "search");
    assert_eq!(core_resp.finish_reason, FinishReason::ToolCalls);
}

#[test]
fn test_conversion_from_chat_request_to_openai_request() {
    let core_req = ChatRequest {
        model: "gpt-4".to_string(),
        messages: vec![message(MessageRole::User, "Hello")],
        tools: vec![calculator()],
        max_tokens: Some(200),
        stream: false,
    };
    let openai_req = OpenAiRequest::from_core(&core_req);
    assert_eq!(openai_req.model, "gpt-4");
    assert_eq!(openai_req.messages.len(), 1);
    assert_eq!(openai_req.messages[0].role, "user");
    assert_eq!(openai_req.tools.len(), 1);
    assert_eq!(openai_req.tools[0].name, "calculator");
    assert_eq!(openai_req.max_tokens, Some(200));
}

#[test]
fn test_conversion_from_openai_response_to_chat_response() {
    let openai_resp = OpenAiResponse {
        id: "chatcmpl-abc".to_string(),
        model: "gpt-4".to_string(),
        choices: vec![OpenAiChoice {
            index: 0,
            message: OpenAiMessage {
                role: "assistant".to_string(),
                content: Some("World".to_string()),
                tool_calls: vec![],
                tool_call_id: None,
            },
            finish_reason: Some("stop".to_string()),
        }],
        usage: OpenAiUsage { prompt_tokens: 5, completion_tokens: 3, total_tokens: 8 },
    };
    let core_resp = openai_resp.into_core(3);
    assert_eq!(core_resp.id, "chatcmpl-abc");
    assert_eq!(core_resp.content, "World");
    assert_eq!(core_resp.usage.total_tokens, 8);
    assert_eq!(core_resp.finish_reason, FinishReason::Stop);
}

#[test]
fn block_messages_for_tool_calls_and_results() {
    let mut asking = message(MessageRole::Assistant, "Checking.");
    asking.tool_calls = vec![call("c1", "search", "{}"), call("c2", "read", "{\"n\":1}")];
    let m = AnthropicMessage::from_core(&asking).unwrap();
    assert_eq!(m.role, "assistant");
    match m.content {
        MessageContent::Blocks(b) => {
            assert_eq!(b.len(), 3);
            assert!(matches!(&b[0], ContentBlock::Text(t) if t == "Checking."));
            assert!(matches!(&b[2], ContentBlock::ToolUse(c) if c.id == "c2" && c.arguments == "{\"n\":1}"));
        }
        MessageContent::Text(_) => panic!("expected blocks"),
    }
    let mut silent = message(MessageRole::Assistant, "");
    silent.tool_calls = vec![call("c1", "search", "{}")];
    match AnthropicMessage::from_core(&silent).unwrap().content {
        MessageContent::Blocks(b) => assert_eq!(b.len(), 1),
        MessageContent::Text(_) => panic!("expected blocks"),
    }
    let mut answer = message(MessageRole::Tool, "42");
    answer.tool_call_id = Some("c1".to_string());
    let m = AnthropicMessage::from_core(&answer).unwrap();
    assert_eq!(m.role, "user");
    match m.content {
        MessageContent::Blocks(b) => {
            assert!(matches!(&b[0], ContentBlock::ToolResult(id, t) if id == "c1" && t == "42"));
        }
        MessageContent::Text(_) => panic!("expected blocks"),
    }
    let nameless = message(MessageRole::Tool, "x");
    match AnthropicMessage::from_core(&nameless).unwrap().content {
        MessageContent::Blocks(b) => assert!(matches!(&b[0], ContentBlock::ToolResult(id, _) if id.is_empty())),
        MessageContent::Text(_) => panic!("expected blocks"),
    }
    assert!(AnthropicMessage::from_core(&message(MessageRole::System, "s")).is_none());
    match AnthropicMessage::from_core(&message(MessageRole::User, "hi")).unwrap().content {
        MessageContent::Text(t) => assert_eq!(t, "hi"),
        MessageContent::Blocks(_) => panic!("expected text"),
    }
}

#[test]
fn block_request_joins_system_texts_and_defaults() {
    let core_req = ChatRequest {
        model: "m".to_string(),
        messages: vec![
            message(MessageRole::System, "One."),
            message(MessageRole::User, "Hi"),
            message(MessageRole::System, "Two."),
        ],
        tools: vec![],
        max_tokens: None,
        stream: true,
    };
    let r = AnthropicRequest::from_core(&core_req);
    assert_eq!(r.system, Some("One.\nTwo.".to_string()));
    assert_eq!(r.messages.len(), 1);
    assert_eq!(r.max_tokens, 4096);
    assert_eq!(r.stream, Some(true));
    let none = ChatRequest { messages: vec![message(MessageRole::User, "Hi")], ..core_req };
    assert_eq!(AnthropicRequest::from_core(&none).system, None);
}

#[test]
fn block_answer_skips_tool_results_and_runs_text_together() {
    let resp = AnthropicResponse {
        id: "a".to_string(),
        content: vec![
            ContentBlock::Text("Hel".to_string()),
            ContentBlock::ToolResult("c".to_string(), "ignored".to_string()),
            ContentBlock::Text("lo".to_string()),
        ],
        model: "m".to_string(),
        stop_reason: Some("max_tokens".to_string()),
        usage: AnthropicUsage { input_tokens: 1, output_tokens: 2 },
    };
    let r = resp.into_core(0);
    assert_eq!(r.content, "Hello");
    assert!(r.tool_calls.is_empty());
    assert_eq!(r.finish_reason, FinishReason::Length);
}

#[test]
fn completions_messages_and_answers() {
    let mut answer = message(MessageRole::Tool, "42");
    answer.tool_call_id = Some("c1".to_string());
    let m = OpenAiMessage::from_core(&answer);
    assert_eq!(m.role, "tool");
    assert_eq!(m.content.as_deref(), Some("42"));
    assert_eq!(m.tool_call_id.as_deref(), Some("c1"));
    let mut user = message(MessageRole::User, "hi");
    user.tool_call_id = Some("c1".to_string());
    assert_eq!(OpenAiMessage::from_core(&user).tool_call_id, None);
    assert_eq!(OpenAiMessage::from_core(&message(MessageRole::System, "s")).role, "system");
    let resp = OpenAiResponse {
        id: "x".to_string(),
        model: "gpt-4".to_string(),
        choices: vec![OpenAiChoice {
            index: 0,
            message: OpenAiMessage {
                role: "assistant".to_string(),
                content: None,
                tool_calls: vec![call("t", "f", "{}")],
                tool_call_id: None,
            },
            finish_reason: Some("tool_calls".to_string()),
        }],
        usage: OpenAiUsage { prompt_tokens: 1, completion_tokens: 1, total_tokens: 2 },
    };
    let r = resp.into_core(9);
    assert_eq!(r.content, "");
    assert_eq!(r.tool_calls.len(), 1);
    assert_eq!(r.finish_reason, FinishReason::ToolCalls);
}
