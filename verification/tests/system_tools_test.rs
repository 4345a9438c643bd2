use xuanji::agent::AgentError;
use xuanji::json::Json;
use xuanji::llm::{LlmError, LlmResponse, Message, Usage};
use xuanji::plugin::{McpToolResult, PluginError, ToolRegistry};
use xuanji::system_tools::{
    delegate_plan, delegate_result, llm_ask_messages, llm_ask_result, register_agent_delegate, register_system_tools,
    register_workflow_create, schema_value, shell_run_command, shell_run_result, shell_run_spawn_error,
    workflow_create_target, workflow_create_yaml, workflow_created_result, DelegatePlan, SHELL_RUN_SCHEMA,
};
use xuanji::workflow::{TaskDef, WorkflowDef};

fn s(t: &str) -> Json {
    Json::Str(t.to_string())
}

fn obj(fields: Vec<(&str, Json)>) -> Json {
    Json::Object(fields.into_iter().map(|(k, v)| (k.to_string(), v)).collect())
}

fn texts(r: &McpToolResult) -> Vec<String> {
    r.content
        .as_array()
        .unwrap()
        .iter()
        .map(|b| {
            assert_eq!(b.get("type"), Some(&s("text")));
            b.get("text").unwrap().as_str().unwrap().clone()
        })
        .collect()
}

fn workflow(name: &str) -> WorkflowDef {
    WorkflowDef {
        name: name.to_string(),
        description: String::new(),
        inputs: vec![],
        tasks: vec![(
            "greet".to_string(),
            TaskDef {
                tool: "llm.ask".to_string(),
                arguments: obj(vec![("prompt", s("Hello"))]),
                depends_on: vec![],
                timeout: None,
                retry: None,
                confirm: false,
                when: None,
            },
        )],
    }
}

#[test]
fn system_tools_are_registered() {
    let mut registry = ToolRegistry::new();
    register_system_tools(&mut registry);
    register_agent_delegate(&mut registry);
    register_workflow_create(&mut registry);
    let names: Vec<String> = registry.list_tools().into_iter().map(|(n, _)| n).collect();
    assert_eq!(names, vec!["llm.ask", "shell.run", "agent.delegate", "workflow.create"]);
    let schema = &registry.get_tool("shell.run").unwrap().parameters;
    assert_eq!(schema.get("required"), Some(&Json::Array(vec![s("command")])));
    assert_eq!(schema_value(SHELL_RUN_SCHEMA), *schema);
    assert_eq!(schema_value("not json"), Json::Null);
}

#[test]
fn llm_ask_reads_its_prompt() {
    let ms = llm_ask_messages(&obj(vec![("prompt", s("hi"))])).unwrap();
    assert!(matches!(&ms[..], [Message::User { content }] if content == "hi"));
    match llm_ask_messages(&obj(vec![])) {
        Err(PluginError::Protocol(m)) => assert_eq!(m, "llm.ask: missing 'prompt' field"),
        other => panic!("unexpected {other:?}"),
    }
    let answer = LlmResponse::Text { content: "42".to_string(), usage: Usage::default() };
    let r = llm_ask_result(Ok(answer)).unwrap();
    assert!(!r.is_error);
    assert_eq!(texts(&r), vec!["42"]);
    let silent = LlmResponse::ToolCalls { calls: vec![], text: None, usage: Usage::default() };
    assert_eq!(texts(&llm_ask_result(Ok(silent)).unwrap()), vec![""]);
    match llm_ask_result(Err(LlmError::HttpError("down".to_string()))) {
        Err(PluginError::Protocol(m)) => assert_eq!(m, "LLM error: HTTP request failed: down"),
        other => panic!("unexpected {other:?}"),
    }
}

#[test]
fn shell_run_reads_and_reports() {
    assert_eq!(shell_run_command(&obj(vec![("command", s("ls"))])).unwrap(), "ls");
    assert!(shell_run_command(&obj(vec![("command", Json::Bool(true))])).is_err());
    match shell_run_spawn_error("no such file") {
        PluginError::Protocol(m) => assert_eq!(m, "shell.run: failed to execute: no such file"),
        other => panic!("unexpected {other:?}"),
    }
    let ok = shell_run_result("out\n", "", true);
    assert!(!ok.is_error);
    assert_eq!(texts(&ok), vec!["out\n"]);
    let failed = shell_run_result("", "bad\n", false);
    assert!(failed.is_error);
    assert_eq!(texts(&failed), vec!["bad\n", "stderr: bad\n"]);
    let warned = shell_run_result("", "warn", true);
    assert_eq!(texts(&warned), vec!["warn"]);
}

#[test]
fn delegation_is_planned() {
    match delegate_plan(&obj(vec![("task", s("build it"))]), 0, 3, "coordinator").unwrap() {
        DelegatePlan::Spawn { full_name, depth, task } => {
            assert_eq!(full_name, "coordinator-worker");
            assert_eq!(depth, 1);
            assert_eq!(task, "build it");
        },
        other => panic!("unexpected {other:?}"),
    }
    match delegate_plan(&obj(vec![("task", s("t")), ("agent_name", s("tester"))]), 1, 3, "c").unwrap() {
        DelegatePlan::Spawn { full_name, .. } => assert_eq!(full_name, "c-tester"),
        other => panic!("unexpected {other:?}"),
    }
    match delegate_plan(&obj(vec![("task", s("t"))]), 3, 3, "c").unwrap() {
        DelegatePlan::Refused(r) => {
            assert!(r.is_error);
            assert_eq!(texts(&r), vec!["无法委派：递归深度 4 超过最大限制 3"]);
        },
        other => panic!("unexpected {other:?}"),
    }
    match delegate_plan(&obj(vec![]), 0, 3, "c") {
        Err(PluginError::Protocol(m)) => assert_eq!(m, "agent.delegate: missing 'task' field"),
        other => panic!("unexpected {other:?}"),
    }
}

#[test]
fn delegation_outcomes() {
    let ok = delegate_result("c-worker", Ok("done".to_string()));
    assert!(!ok.is_error);
    assert_eq!(texts(&ok), vec!["done"]);
    let failed = delegate_result("c-worker", Err(AgentError::StepTimeout));
    assert!(failed.is_error);
    assert_eq!(texts(&failed), vec!["子 Agent 'c-worker' 执行失败: Step timeout"]);
}

#[test]
fn test_workflow_create_valid_yaml() {
    let args = obj(vec![("yaml", s("name: test-workflow\n"))]);
    assert_eq!(workflow_create_yaml(&args).unwrap(), "name: test-workflow\n");
    let (name, path) = workflow_create_target(&args, Ok(workflow("test-workflow")), "/tmp/wf").unwrap();
    assert_eq!(name, "test-workflow");
    assert_eq!(path, "/tmp/wf/test-workflow.yaml");
    let r = workflow_created_result(&name, &path);
    assert!(!r.is_error);
    assert_eq!(
        texts(&r),
        vec!["✅ 工作流 'test-workflow' 已创建: /tmp/wf/test-workflow.yaml\n如需自动执行，请运行 `xuanji daemon start`（或重启 daemon）。"]
    );
}

#[test]
fn test_workflow_create_invalid_yaml() {
    let args = obj(vec![("yaml", s("name: bad-workflow\ndescription: no tasks"))]);
    let mut wf = workflow("bad-workflow");
    wf.tasks.clear();
    match workflow_create_target(&args, Ok(wf), "/tmp/wf") {
        Err(PluginError::Protocol(m)) => assert_eq!(
            m,
            "workflow.create: invalid workflow YAML: DAG validation error: workflow has no tasks"
        ),
        other => panic!("Expected error for invalid workflow YAML, got {other:?}"),
    }
    match workflow_create_target(&args, Err("bad indentation".to_string()), "/tmp/wf") {
        Err(PluginError::Protocol(m)) => {
            assert_eq!(m, "workflow.create: invalid workflow YAML: YAML parse error: bad indentation")
        },
        other => panic!("unexpected {other:?}"),
    }
    assert!(workflow_create_yaml(&obj(vec![])).is_err());
}

#[test]
fn test_workflow_create_custom_name() {
    let args = obj(vec![("yaml", s("...")), ("name", s("custom-name"))]);
    let (name, path) = workflow_create_target(&args, Ok(workflow("original-name")), "/tmp/wf/").unwrap();
    assert_eq!(name, "custom-name");
    assert_eq!(path, "/tmp/wf/custom-name.yaml");
}
