use xuanji::agent::{
    build_system_prompt, default_max_loops, default_step_timeout, default_true, estimate_tokens, parse_action_format,
    parse_code_block, parse_text_tool_calls, strip_think_blocks, tool_result, AgentConfig, AgentError, AgentRun,
    AgentStep, RiskChecker, RiskyPattern, ToolResult,
};
use xuanji::json::Json;
use xuanji::llm::{LlmError, LlmResponse, Message, ToolCall, ToolSchema, Usage};
use xuanji::plugin::{McpToolResult, PluginError};

fn s(t: &str) -> Json {
    Json::Str(t.to_string())
}

fn arg<'a>(j: &'a Json, k: &str) -> &'a Json {
    j.get(k).expect("argument present")
}

#[test]
fn test_parse_text_tool_calls_basic() {
    let text = "我来创建一个 hello world 程序。\n\nACTION: shell.run\nPARAMS: {\"command\": \"echo hello\"}\n";
    let parsed = parse_text_tool_calls(text).unwrap();
    assert_eq!(parsed.tool_name, "shell.run");
    assert_eq!(arg(&parsed.arguments, "command"), &s("echo hello"));
}

#[test]
fn test_parse_text_tool_calls_no_action() {
    let text = "任务已完成！Hello world 程序已创建并运行成功。";
    assert!(parse_text_tool_calls(text).is_none());
}

#[test]
fn test_parse_text_tool_calls_with_reasoning() {
    let text = "首先我需要创建文件。\n\nACTION: shell.run\nPARAMS: {\"command\": \"mkdir -p /tmp/test\"}";
    let parsed = parse_text_tool_calls(text).unwrap();
    assert!(parsed.reasoning.contains("首先"));
    assert_eq!(parsed.tool_name, "shell.run");
}

#[test]
fn test_strip_think_blocks() {
    let text = "<think\n我来想想...\n</think\n\n好的，开始执行。";
    let cleaned = strip_think_blocks(text);
    assert!(cleaned.contains("好的"));
    assert!(!cleaned.contains("想想"));
}

#[test]
fn test_parse_after_think_block() {
    let text = "<think\n分析中...\n</think\n\nACTION: shell.run\nPARAMS: {\"command\": \"ls\"}";
    let parsed = parse_text_tool_calls(text).unwrap();
    assert_eq!(parsed.tool_name, "shell.run");
    assert_eq!(arg(&parsed.arguments, "command"), &s("ls"));
}

#[test]
fn test_strip_unclosed_think() {
    let text = "前面文字<think\n思考内容";
    let cleaned = strip_think_blocks(text);
    assert_eq!(cleaned, "前面文字");
}

#[test]
fn test_parse_code_block_shell() {
    let text = "创建目录：\n```shell\nmkdir -p /tmp/hello\n```\n然后继续。";
    let parsed = parse_text_tool_calls(text).unwrap();
    assert_eq!(parsed.tool_name, "shell.run");
    assert_eq!(arg(&parsed.arguments, "command"), &s("mkdir -p /tmp/hello"));
}

#[test]
fn test_parse_code_block_bash() {
    let text = "运行以下命令：\n```bash\necho hello world\n```";
    let parsed = parse_text_tool_calls(text).unwrap();
    assert_eq!(parsed.tool_name, "shell.run");
    assert_eq!(arg(&parsed.arguments, "command"), &s("echo hello world"));
}

#[test]
fn test_action_format_preferred_over_code_block() {
    let text = "```shell\nls\n```\n\nACTION: shell.run\nPARAMS: {\"command\": \"pwd\"}";
    let parsed = parse_text_tool_calls(text).unwrap();
    assert_eq!(arg(&parsed.arguments, "command"), &s("pwd"));
}

#[test]
fn strip_think_removes_every_closed_block() {
    let cleaned = strip_think_blocks("a<think>x</think>b<think>y</think>c");
    assert_eq!(cleaned, "abc");
}

#[test]
fn strip_think_keeps_plain_text() {
    assert_eq!(strip_think_blocks("  plain  "), "plain");
}

#[test]
fn action_without_params_is_no_call() {
    assert!(parse_action_format("ACTION: shell.run").is_none());
}

#[test]
fn action_with_empty_params_gives_empty_object() {
    let parsed = parse_action_format("ACTION: shell.run\nPARAMS:").unwrap();
    assert_eq!(parsed.arguments, Json::Object(vec![]));
}

#[test]
fn action_with_bad_params_gives_empty_object() {
    let parsed = parse_action_format("ACTION: t\nPARAMS: not json").unwrap();
    assert_eq!(parsed.tool_name, "t");
    assert_eq!(parsed.arguments, Json::Object(vec![]));
}

#[test]
fn code_block_of_other_language_is_no_call() {
    assert!(parse_code_block("```python\nprint(1)\n```").is_none());
}

#[test]
fn agent_config_defaults() {
    let c = AgentConfig::default();
    assert_eq!(c.max_loops, 20);
    assert_eq!(c.step_timeout, "60s");
    assert!(c.confirm_risky);
    assert!(c.risky_patterns.is_empty());
    assert!(!c.text_tool_mode);
    assert_eq!(default_max_loops(), 20);
    assert_eq!(default_step_timeout(), "60s");
    assert!(default_true());
}

#[test]
fn agent_error_texts() {
    assert_eq!(AgentError::MaxLoopsExceeded(20).to_string(), "Max loops (20) exceeded");
    assert_eq!(AgentError::StepTimeout.to_string(), "Step timeout");
    assert_eq!(AgentError::UserCancelled.to_string(), "User cancelled");
    assert_eq!(AgentError::Other("x".to_string()).to_string(), "x");
    assert_eq!(
        AgentError::Plugin(PluginError::ToolNotFound("t".to_string())).to_string(),
        "Plugin error: tool not found: t"
    );
    assert_eq!(
        AgentError::Llm(LlmError::ApiError { status: 500, message: "bad".to_string() }).to_string(),
        "LLM error: API error: status 500 - bad"
    );
}

#[test]
fn risky_pattern_matches_arguments() {
    let config = AgentConfig {
        risky_patterns: vec![RiskyPattern { tool: "shell.run".to_string(), pattern: "rm -rf".to_string() }],
        ..AgentConfig::default()
    };
    let checker = RiskChecker::new(&config);
    let args = Json::Object(vec![("command".to_string(), s("rm -rf /"))]);
    assert!(checker.is_risky("shell.run", &args));
    assert!(!checker.is_risky("other.tool", &args));
    let safe = Json::Object(vec![("command".to_string(), s("ls"))]);
    assert!(!checker.is_risky("shell.run", &safe));
}

#[test]
fn invalid_risky_pattern_is_dropped() {
    let config = AgentConfig {
        risky_patterns: vec![RiskyPattern { tool: "shell.run".to_string(), pattern: "(".to_string() }],
        ..AgentConfig::default()
    };
    let checker = RiskChecker::new(&config);
    let args = Json::Object(vec![("command".to_string(), s("("))]);
    assert!(!checker.is_risky("shell.run", &args));
}

#[test]
fn estimate_tokens_counts_bytes() {
    let messages = vec![
        Message::System { content: "abcd".to_string() },
        Message::User { content: "abcdefgh".to_string() },
    ];
    assert_eq!(estimate_tokens(&messages), 3);
    assert_eq!(estimate_tokens(&[]), 0);
}

#[test]
fn system_prompt_lists_tools_and_memory() {
    let tools = vec![ToolSchema {
        name: "shell.run".to_string(),
        description: "Run".to_string(),
        input_schema: Json::Null,
    }];
    let prompt = build_system_prompt(&tools, None, Some("CTX"), false, None);
    assert!(prompt.contains("shell.run"));
    assert!(prompt.contains("CTX"));
    let text_prompt = build_system_prompt(&tools, None, None, true, None);
    assert!(text_prompt.contains("ACTION: shell.run"));
}

#[test]
fn tool_result_of_success_and_error() {
    let call = ToolCall { id: "c1".to_string(), name: "t".to_string(), arguments: Json::Null };
    let ok = McpToolResult {
        content: Json::Array(vec![Json::Object(vec![
            ("type".to_string(), s("text")),
            ("text".to_string(), s("hello")),
        ])]),
        is_error: false,
    };
    let r: ToolResult = tool_result(&call, Ok(ok));
    assert_eq!(r.tool_call_id, "c1");
    assert_eq!(r.result, "hello");
    assert!(r.success);
    let e = tool_result(&call, Err(PluginError::ExecutionFailed("boom".to_string())));
    assert_eq!(e.result, "Error: tool execution failed: boom");
    assert!(!e.success);
}

#[test]
fn agent_run_finishes_on_text_answer() {
    let mut run = AgentRun::start(AgentConfig::default(), vec![], "hi".to_string());
    let request = run.next_request().unwrap();
    assert!(matches!(request.last(), Some(Message::User { content }) if content == "hi"));
    let response = LlmResponse::Text { content: "done".to_string(), usage: Usage::default() };
    match run.on_response(&response) {
        AgentStep::Finish(text) => assert_eq!(text, "done"),
        other => panic!("unexpected step {other:?}"),
    }
}

#[test]
fn agent_run_stops_after_max_loops() {
    let config = AgentConfig { max_loops: 0, ..AgentConfig::default() };
    let mut run = AgentRun::start(config, vec![], "hi".to_string());
    match run.next_request() {
        Err(AgentError::MaxLoopsExceeded(n)) => assert_eq!(n, 0),
        other => panic!("unexpected {other:?}"),
    }
}

#[test]
fn stripping_think_blocks_twice_is_stripping_once() {
    for text in ["  <think>a</think> b <think>c", "x<think>y</think", "<think", "plain  ", "<think>1</think>  <think>2</think>z"] {
        let once = strip_think_blocks(text);
        assert_eq!(strip_think_blocks(&once), once);
    }
}
