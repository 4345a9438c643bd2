use xuanji::llm::{create_provider, Provider};
use xuanji::json::Json;
use xuanji::llm::{
    strip_trailing_v1, AnthropicProvider, LlmError, LlmResponse, Message, OpenAIProvider, ProviderConfig, ToolCall,
    ToolSchema,
};
use xuanji::protocol::Protocol;

fn s(t: &str) -> Json {
    Json::Str(t.to_string())
}

fn num(t: &str) -> Json {
    Json::Number(t.to_string())
}

fn obj(fields: Vec<(&str, Json)>) -> Json {
    Json::Object(fields.into_iter().map(|(k, v)| (k.to_string(), v)).collect())
}

fn at<'a>(j: &'a Json, k: &str) -> &'a Json {
    j.get(k).unwrap_or_else(|| panic!("missing field {k}"))
}

fn items(j: &Json) -> &Vec<Json> {
    j.as_array().expect("an array")
}

fn weather_schema() -> ToolSchema {
    ToolSchema {
        name: "get_weather".into(),
        description: "Get current weather".into(),
        input_schema: obj(vec![
            ("type", s("object")),
            ("properties", obj(vec![("location", obj(vec![("type", s("string"))]))])),
            ("required", Json::Array(vec![s("location")])),
        ]),
    }
}

fn anthropic_config() -> ProviderConfig {
    ProviderConfig {
        protocol: Protocol::Anthropic,
        model: "sonnet-4-20250514".to_string(),
        api_key: "sk-ant-test".to_string(),
        base_url: None,
        max_tokens: Some(2048),
        temperature: None,
    }
}

fn openai_config() -> ProviderConfig {
    ProviderConfig {
        protocol: Protocol::OpenAI,
        model: "gpt-4".to_string(),
        api_key: "sk-test".to_string(),
        base_url: Some("https://api.openai.com".to_string()),
        max_tokens: Some(1024),
        temperature: Some("0.5".to_string()),
    }
}

#[test]
fn test_strip_trailing_v1() {
    assert_eq!(strip_trailing_v1("https://api.anthropic.com/v1"), "https://api.anthropic.com");
    assert_eq!(strip_trailing_v1("https://api.anthropic.com/v1/"), "https://api.anthropic.com");
    assert_eq!(strip_trailing_v1("https://api.anthropic.com"), "https://api.anthropic.com");
    assert_eq!(strip_trailing_v1("https://example.com/custom/v1"), "https://example.com/custom");
    assert_eq!(strip_trailing_v1("https://example.com"), "https://example.com");
}

#[test]
fn test_build_request_body_system_prompt_separated() {
    let provider = AnthropicProvider::new(anthropic_config());
    let messages = vec![
        Message::System { content: "You are helpful.".into() },
        Message::User { content: "Hello!".into() },
    ];
    let (system_prompt, body) = provider.build_request_body(&messages, &[]);
    assert_eq!(system_prompt, Some("You are helpful.".into()));
    assert_eq!(at(&body, "system"), &s("You are helpful."));
    let msgs = items(at(&body, "messages"));
    assert_eq!(msgs.len(), 1);
    assert_eq!(at(&msgs[0], "role"), &s("user"));
    assert_eq!(at(&msgs[0], "content"), &s("Hello!"));
}

#[test]
fn test_build_request_body_no_system_prompt() {
    let provider = AnthropicProvider::new(anthropic_config());
    let messages = vec![Message::User { content: "Hello!".into() }];
    let (system_prompt, body) = provider.build_request_body(&messages, &[]);
    assert_eq!(system_prompt, None);
    assert!(body.get("system").is_none());
    let msgs = items(at(&body, "messages"));
    assert_eq!(msgs.len(), 1);
}

#[test]
fn test_build_request_body_assistant_tool_calls() {
    let provider = AnthropicProvider::new(anthropic_config());
    let messages = vec![
        Message::User { content: "Check weather".into() },
        Message::AssistantToolCalls {
            tool_calls: vec![ToolCall {
                id: "toolu_123".into(),
                name: "get_weather".into(),
                arguments: obj(vec![("location", s("Tokyo"))]),
            }],
            content: Some("Let me check.".into()),
        },
    ];
    let (_system, body) = provider.build_request_body(&messages, &[]);
    let msgs = items(at(&body, "messages"));
    assert_eq!(msgs.len(), 2);
    let assistant_msg = &msgs[1];
    assert_eq!(at(assistant_msg, "role"), &s("assistant"));
    let blocks = items(at(assistant_msg, "content"));
    assert_eq!(at(&blocks[0], "type"), &s("text"));
    assert_eq!(at(&blocks[0], "text"), &s("Let me check."));
    assert_eq!(at(&blocks[1], "type"), &s("tool_use"));
    assert_eq!(at(&blocks[1], "id"), &s("toolu_123"));
    assert_eq!(at(&blocks[1], "name"), &s("get_weather"));
    assert_eq!(at(at(&blocks[1], "input"), "location"), &s("Tokyo"));
}

#[test]
fn test_build_request_body_tool_result() {
    let provider = AnthropicProvider::new(anthropic_config());
    let messages = vec![Message::ToolResult {
        tool_call_id: "toolu_456".into(),
        tool_name: "get_weather".into(),
        result: "Sunny, 22C".into(),
        success: true,
    }];
    let (_system, body) = provider.build_request_body(&messages, &[]);
    let msgs = items(at(&body, "messages"));
    assert_eq!(msgs.len(), 1);
    let msg = &msgs[0];
    assert_eq!(at(msg, "role"), &s("user"));
    let blocks = items(at(msg, "content"));
    assert_eq!(at(&blocks[0], "type"), &s("tool_result"));
    assert_eq!(at(&blocks[0], "tool_use_id"), &s("toolu_456"));
    assert_eq!(at(&blocks[0], "content"), &s("Sunny, 22C"));
}

#[test]
fn test_build_request_body_tool_result_error() {
    let provider = AnthropicProvider::new(anthropic_config());
    let messages = vec![Message::ToolResult {
        tool_call_id: "toolu_789".into(),
        tool_name: "get_weather".into(),
        result: "Connection refused".into(),
        success: false,
    }];
    let (_system, body) = provider.build_request_body(&messages, &[]);
    let msgs = items(at(&body, "messages"));
    let blocks = items(at(&msgs[0], "content"));
    assert_eq!(at(&blocks[0], "content"), &s("Error: Connection refused"));
}

#[test]
fn anthropic_test_test_build_request_body_with_tools() {
    let provider = AnthropicProvider::new(anthropic_config());
    let messages = vec![Message::User { content: "Use the tool".into() }];
    let tools = vec![weather_schema()];
    let (_system, body) = provider.build_request_body(&messages, &tools);
    let tools_array = items(at(&body, "tools"));
    assert_eq!(tools_array.len(), 1);
    assert_eq!(at(&tools_array[0], "name"), &s("get_weather"));
    assert_eq!(at(&tools_array[0], "description"), &s("Get current weather"));
    assert!(tools_array[0].get("input_schema").is_some());
    assert!(tools_array[0].get("type").is_none());
}

#[test]
fn test_no_system_role_in_messages() {
    let provider = AnthropicProvider::new(anthropic_config());
    let messages = vec![
        Message::System { content: "System message".into() },
        Message::User { content: "User message".into() },
        Message::System { content: "Another system".into() },
    ];
    let (_system, body) = provider.build_request_body(&messages, &[]);
    for msg in items(at(&body, "messages")) {
        assert_ne!(
            at(msg, "role").as_str().unwrap(),
            "system",
            "No message with 'system' role should appear in the messages array"
        );
    }
}

#[test]
fn test_default_max_tokens() {
    let config = ProviderConfig {
        protocol: Protocol::Anthropic,
        model: "sonnet-4-20250514".to_string(),
        api_key: "sk-ant-test".to_string(),
        base_url: None,
        max_tokens: None,
        temperature: None,
    };
    let provider = AnthropicProvider::new(config);
    let messages = vec![Message::User { content: "Hi".into() }];
    let (_system, body) = provider.build_request_body(&messages, &[]);
    assert_eq!(at(&body, "max_tokens"), &num("4096"));
}

#[test]
fn test_build_request_body_basic_messages() {
    let provider = OpenAIProvider::new(openai_config());
    let messages = vec![
        Message::System { content: "You are helpful.".into() },
        Message::User { content: "Hello!".into() },
    ];
    let body = provider.build_request_body(&messages, &[]);
    assert_eq!(at(&body, "model"), &s("gpt-4"));
    assert_eq!(at(&body, "max_tokens"), &num("1024"));
    assert_eq!(at(&body, "temperature"), &num("0.5"));
    let msgs = items(at(&body, "messages"));
    assert_eq!(msgs.len(), 2);
    assert_eq!(at(&msgs[0], "role"), &s("system"));
    assert_eq!(at(&msgs[0], "content"), &s("You are helpful."));
    assert_eq!(at(&msgs[1], "role"), &s("user"));
    assert_eq!(at(&msgs[1], "content"), &s("Hello!"));
}

#[test]
fn openai_test_test_build_request_body_with_tools() {
    let provider = OpenAIProvider::new(openai_config());
    let messages = vec![Message::User { content: "Use the tool".into() }];
    let tools = vec![weather_schema()];
    let body = provider.build_request_body(&messages, &tools);
    let tools_array = items(at(&body, "tools"));
    assert_eq!(tools_array.len(), 1);
    assert_eq!(at(&tools_array[0], "type"), &s("function"));
    assert_eq!(at(at(&tools_array[0], "function"), "name"), &s("get_weather"));
    assert_eq!(at(at(&tools_array[0], "function"), "description"), &s("Get current weather"));
}

#[test]
fn test_build_request_body_with_tool_calls_message() {
    let provider = OpenAIProvider::new(openai_config());
    let messages = vec![
        Message::User { content: "Check weather".into() },
        Message::AssistantToolCalls {
            tool_calls: vec![ToolCall {
                id: "call_123".into(),
                name: "get_weather".into(),
                arguments: obj(vec![("location", s("Tokyo"))]),
            }],
            content: Some("Let me check.".into()),
        },
    ];
    let body = provider.build_request_body(&messages, &[]);
    let msgs = items(at(&body, "messages"));
    assert_eq!(msgs.len(), 2);
    let assistant_msg = &msgs[1];
    assert_eq!(at(assistant_msg, "role"), &s("assistant"));
    assert_eq!(at(assistant_msg, "content"), &s("Let me check."));
    let tool_calls = items(at(assistant_msg, "tool_calls"));
    assert_eq!(tool_calls.len(), 1);
    assert_eq!(at(&tool_calls[0], "id"), &s("call_123"));
    assert_eq!(at(&tool_calls[0], "type"), &s("function"));
    assert_eq!(at(at(&tool_calls[0], "function"), "name"), &s("get_weather"));
}

#[test]
fn test_build_request_body_with_tool_result() {
    let provider = OpenAIProvider::new(openai_config());
    let messages = vec![Message::ToolResult {
        tool_call_id: "call_456".into(),
        tool_name: "get_weather".into(),
        result: "Sunny, 22C".into(),
        success: true,
    }];
    let body = provider.build_request_body(&messages, &[]);
    let msgs = items(at(&body, "messages"));
    assert_eq!(at(&msgs[0], "role"), &s("tool"));
    assert_eq!(at(&msgs[0], "tool_call_id"), &s("call_456"));
    assert_eq!(at(&msgs[0], "content"), &s("Sunny, 22C"));
}

#[test]
fn test_build_request_body_no_tools_field_when_empty() {
    let provider = OpenAIProvider::new(openai_config());
    let messages = vec![Message::User { content: "Hi".into() }];
    let body = provider.build_request_body(&messages, &[]);
    assert!(body.get("tools").is_none());
}

#[test]
fn openai_tool_call_arguments_are_json_text() {
    let provider = OpenAIProvider::new(openai_config());
    let messages = vec![Message::AssistantToolCalls {
        tool_calls: vec![ToolCall {
            id: "c".into(),
            name: "f".into(),
            arguments: obj(vec![("a", num("1"))]),
        }],
        content: None,
    }];
    let body = provider.build_request_body(&messages, &[]);
    let msgs = items(at(&body, "messages"));
    let calls = items(at(&msgs[0], "tool_calls"));
    assert_eq!(at(at(&calls[0], "function"), "arguments"), &s("{\"a\":1}"));
}

#[test]
fn openai_parse_text_response() {
    let provider = OpenAIProvider::new(openai_config());
    let value = obj(vec![
        ("choices", Json::Array(vec![obj(vec![("message", obj(vec![("content", s("hello"))]))])])),
        (
            "usage",
            obj(vec![("prompt_tokens", num("3")), ("completion_tokens", num("4")), ("total_tokens", num("7"))]),
        ),
    ]);
    match provider.parse_response(&value).unwrap() {
        LlmResponse::Text { content, usage } => {
            assert_eq!(content, "hello");
            assert_eq!(usage.total_tokens, 7);
        },
        other => panic!("unexpected {other:?}"),
    }
}

#[test]
fn openai_parse_tool_calls_response() {
    let provider = OpenAIProvider::new(openai_config());
    let call = obj(vec![
        ("id", s("call_1")),
        ("function", obj(vec![("name", s("shell.run")), ("arguments", s("{\"command\":\"ls\"}"))])),
    ]);
    let value = obj(vec![(
        "choices",
        Json::Array(vec![obj(vec![("message", obj(vec![("tool_calls", Json::Array(vec![call]))]))])]),
    )]);
    match provider.parse_response(&value).unwrap() {
        LlmResponse::ToolCalls { calls, text, .. } => {
            assert_eq!(calls.len(), 1);
            assert_eq!(calls[0].id, "call_1");
            assert_eq!(calls[0].name, "shell.run");
            assert_eq!(calls[0].arguments, obj(vec![("command", s("ls"))]));
            assert!(text.is_none());
        },
        other => panic!("unexpected {other:?}"),
    }
}

#[test]
fn openai_parse_errors() {
    let provider = OpenAIProvider::new(openai_config());
    match provider.parse_response(&obj(vec![])) {
        Err(LlmError::ParseError(m)) => assert_eq!(m, "missing choices field"),
        other => panic!("unexpected {other:?}"),
    }
    match provider.parse_response(&obj(vec![("choices", Json::Array(vec![]))])) {
        Err(LlmError::ParseError(m)) => assert_eq!(m, "empty choices array"),
        other => panic!("unexpected {other:?}"),
    }
}

#[test]
fn anthropic_parse_text_and_tool_use() {
    let provider = AnthropicProvider::new(anthropic_config());
    let value = obj(vec![
        (
            "content",
            Json::Array(vec![
                obj(vec![("type", s("text")), ("text", s("Let me check."))]),
                obj(vec![
                    ("type", s("tool_use")),
                    ("id", s("toolu_1")),
                    ("name", s("get_weather")),
                    ("input", obj(vec![("location", s("Tokyo"))])),
                ]),
            ]),
        ),
        ("usage", obj(vec![("input_tokens", num("10")), ("output_tokens", num("5"))])),
    ]);
    assert!(AnthropicProvider::usage_total_fits(&value));
    match provider.parse_response(&value).unwrap() {
        LlmResponse::ToolCalls { calls, text, usage } => {
            assert_eq!(calls.len(), 1);
            assert_eq!(calls[0].name, "get_weather");
            assert_eq!(text, Some("Let me check.".to_string()));
            assert_eq!(usage.total_tokens, 15);
        },
        other => panic!("unexpected {other:?}"),
    }
}

#[test]
fn anthropic_parse_missing_content() {
    let provider = AnthropicProvider::new(anthropic_config());
    match provider.parse_response(&obj(vec![])) {
        Err(LlmError::ParseError(m)) => assert_eq!(m, "missing content field"),
        other => panic!("unexpected {other:?}"),
    }
}

#[test]
fn llm_error_texts() {
    assert_eq!(LlmError::HttpError("x".into()).to_string(), "HTTP request failed: x");
    assert_eq!(LlmError::ParseError("y".into()).to_string(), "failed to parse response: y");
    assert_eq!(LlmError::ConfigError("z".into()).to_string(), "configuration error: z");
    assert_eq!(LlmError::UnsupportedProtocol("w".into()).to_string(), "unsupported protocol: w");
}

#[test]
fn endpoints_and_providers() {
    let openai = OpenAIProvider::new(openai_config());
    assert_eq!(openai.endpoint(), "https://api.openai.com/chat/completions");
    let mut plain = openai_config();
    plain.base_url = None;
    assert_eq!(OpenAIProvider::new(plain).endpoint(), "https://api.openai.com/chat/completions");
    let mut a = anthropic_config();
    assert_eq!(AnthropicProvider::new(a.clone()).endpoint(), "https://api.anthropic.com/v1/messages");
    a.base_url = Some("https://proxy.example.com/v1/".to_string());
    assert_eq!(AnthropicProvider::new(a).endpoint(), "https://proxy.example.com/v1/messages");
    assert!(matches!(create_provider(openai_config()), Ok(Provider::OpenAI(_))));
    assert!(matches!(create_provider(anthropic_config()), Ok(Provider::Anthropic(_))));
    let mut g = openai_config();
    g.protocol = Protocol::Gemini;
    assert_eq!(create_provider(g).unwrap_err(), "Gemini protocol not yet implemented");
}
