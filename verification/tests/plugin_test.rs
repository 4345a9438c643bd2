use xuanji::json::Json;
use xuanji::plugin::{
    call_tool_params, call_tool_result, initialize_request_params, notification_line, read_response,
    read_tools_list, request_line, McpToolInfo, PluginError, ToolRegistry, ToolSource,
};

fn s(t: &str) -> Json {
    Json::Str(t.to_string())
}

fn obj(fields: Vec<(&str, Json)>) -> Json {
    Json::Object(fields.into_iter().map(|(k, v)| (k.to_string(), v)).collect())
}

fn info(name: &str, description: Option<&str>) -> McpToolInfo {
    McpToolInfo {
        name: name.to_string(),
        description: description.map(String::from),
        input_schema: obj(vec![("type", s("object"))]),
    }
}

#[test]
fn request_and_notification_lines() {
    assert_eq!(request_line(1, "tools/list", None), "{\"jsonrpc\":\"2.0\",\"id\":1,\"method\":\"tools/list\"}\n");
    let params = obj(vec![("name", s("t"))]);
    assert_eq!(
        request_line(7, "tools/call", Some(&params)),
        "{\"jsonrpc\":\"2.0\",\"id\":7,\"method\":\"tools/call\",\"params\":{\"name\":\"t\"}}\n"
    );
    assert_eq!(
        notification_line("notifications/initialized", None),
        "{\"jsonrpc\":\"2.0\",\"method\":\"notifications/initialized\"}\n"
    );
}

#[test]
fn responses_are_read() {
    let ok = read_response("{\"jsonrpc\":\"2.0\",\"id\":1,\"result\":{\"tools\":[]}}").unwrap();
    assert_eq!(ok, obj(vec![("tools", Json::Array(vec![]))]));
    match read_response("   ") {
        Err(PluginError::Protocol(m)) => assert_eq!(m, "received empty response from MCP server"),
        other => panic!("unexpected {other:?}"),
    }
    match read_response("{\"jsonrpc\":\"2.0\",\"id\":1,\"error\":{\"code\":-32601,\"message\":\"no such method\"}}") {
        Err(PluginError::Protocol(m)) => assert_eq!(m, "JSON-RPC error: no such method"),
        other => panic!("unexpected {other:?}"),
    }
    match read_response("{\"jsonrpc\":\"2.0\",\"id\":1}") {
        Err(PluginError::Protocol(m)) => assert_eq!(m, "JSON-RPC response missing result field"),
        other => panic!("unexpected {other:?}"),
    }
    match read_response("not json") {
        Err(PluginError::Protocol(m)) => assert!(m.starts_with("failed to parse JSON-RPC response: ")),
        other => panic!("unexpected {other:?}"),
    }
}

#[test]
fn initialize_and_call_parameters() {
    let p = initialize_request_params("0.1.0");
    assert_eq!(p.get("protocolVersion"), Some(&s("2024-11-05")));
    assert_eq!(p.get("clientInfo").unwrap().get("name"), Some(&s("xuanji")));
    assert_eq!(p.get("clientInfo").unwrap().get("version"), Some(&s("0.1.0")));
    let c = call_tool_params("echo", obj(vec![("x", s("y"))]));
    assert_eq!(c, obj(vec![("name", s("echo")), ("arguments", obj(vec![("x", s("y"))]))]));
}

#[test]
fn call_results_are_read() {
    let r = call_tool_result(&obj(vec![("content", Json::Array(vec![])), ("isError", Json::Bool(true))]));
    assert!(r.is_error);
    assert_eq!(r.content, Json::Array(vec![]));
    let whole = obj(vec![("other", s("v"))]);
    let r2 = call_tool_result(&whole);
    assert!(!r2.is_error);
    assert_eq!(r2.content, whole);
}

#[test]
fn tool_lists_are_read() {
    let list = obj(vec![(
        "tools",
        Json::Array(vec![obj(vec![
            ("name", s("echo")),
            ("description", s("Echo")),
            ("input_schema", obj(vec![])),
        ])]),
    )]);
    let tools = read_tools_list(&list).unwrap();
    assert_eq!(tools.len(), 1);
    assert_eq!(tools[0].name, "echo");
    assert_eq!(tools[0].description.as_deref(), Some("Echo"));
    assert!(read_tools_list(&obj(vec![])).unwrap().is_empty());
    let bad = obj(vec![("tools", Json::Array(vec![obj(vec![("name", s("x"))])]))]);
    assert!(read_tools_list(&bad).is_err());
}

#[test]
fn registry_registers_and_replaces() {
    let mut registry = ToolRegistry::new();
    registry.register_server_tools("fs", vec![info("read", Some("Read a file")), info("write", None)]);
    registry.register_system_tool("shell.run", "Run", Json::Null);
    let listed = registry.list_tools();
    assert_eq!(
        listed,
        vec![
            ("read".to_string(), "Read a file".to_string()),
            ("write".to_string(), String::new()),
            ("shell.run".to_string(), "Run".to_string()),
        ]
    );
    registry.register_system_tool("read", "Replaced", Json::Null);
    assert_eq!(registry.list_tools().len(), 3);
    assert_eq!(registry.get_tool("read").unwrap().description, "Replaced");
    assert_eq!(registry.tool_source("read").unwrap(), ToolSource::System);
    assert_eq!(registry.tool_source("write").unwrap(), ToolSource::Mcp { server_name: "fs".to_string() });
    match registry.tool_source("missing") {
        Err(PluginError::ToolNotFound(n)) => assert_eq!(n, "missing"),
        other => panic!("unexpected {other:?}"),
    }
    let schemas = registry.all_tool_schemas();
    assert_eq!(schemas.len(), 3);
    assert_eq!(schemas[2].name, "shell.run");
}

#[test]
fn plugin_error_texts() {
    assert_eq!(PluginError::Process("x".to_string()).to_string(), "process error: x");
    assert_eq!(PluginError::Protocol("x".to_string()).to_string(), "protocol error: x");
    assert_eq!(PluginError::ServerNotFound("x".to_string()).to_string(), "server not found: x");
    assert_eq!(PluginError::Json("x".to_string()).to_string(), "JSON error: x");
}
