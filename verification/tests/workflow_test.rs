use petgraph::graph::NodeIndex;
use xuanji::dag::{build_dag, edge_count, find_ready_tasks, node_count, propagate_failure, topological_sort};
use xuanji::json::Json;
use xuanji::plugin::PluginError;
use xuanji::scheduler::{
    attempt_start, attempt_step, attempts_failed, task_done, task_output_text, task_timing, AttemptAction, AttemptEvent,
    TaskTiming, WorkflowRun,
};
use xuanji::template::{evaluate_when, resolve_templates, TemplateContext};
use xuanji::workflow::{
    default_input_type, default_retry_delay, parse_duration, parse_workflow, validate_workflow, CoreError, InputDef,
    RetryPolicy, TaskDef, TaskResult, TaskStatus, WorkflowDef, WorkflowResult,
};

fn s(t: &str) -> Json {
    Json::Str(t.to_string())
}

fn task(tool: &str, deps: &[&str]) -> TaskDef {
    TaskDef {
        tool: tool.to_string(),
        arguments: Json::Object(vec![]),
        depends_on: deps.iter().map(|d| d.to_string()).collect(),
        timeout: None,
        retry: None,
        confirm: false,
        when: None,
    }
}

fn make_workflow(tasks: Vec<(&str, Vec<&str>)>) -> WorkflowDef {
    WorkflowDef {
        name: "test".to_string(),
        description: String::new(),
        inputs: vec![],
        tasks: tasks.into_iter().map(|(name, deps)| (name.to_string(), task("shell.run", &deps))).collect(),
    }
}

fn make_ctx() -> TemplateContext {
    let mut ctx = TemplateContext::new();
    ctx.inputs.push(("name".to_string(), s("world")));
    ctx.inputs.push(("count".to_string(), Json::Number("42".to_string())));
    ctx.inputs.push(("flag".to_string(), Json::Bool(true)));
    ctx.env.push(("HOME".to_string(), "/home/user".to_string()));
    ctx.tasks.push(("build".to_string(), TaskResult { status: TaskStatus::Done, output: s("build succeeded") }));
    ctx
}

fn status_of(statuses: &[(String, TaskStatus)], name: &str) -> TaskStatus {
    statuses.iter().find(|(n, _)| n == name).map(|(_, st)| *st).unwrap()
}

#[test]
fn test_build_dag_linear() {
    let wf = make_workflow(vec![("a", vec![]), ("b", vec!["a"]), ("c", vec!["b"])]);
    let (graph, _map) = build_dag(&wf).unwrap();
    assert_eq!(node_count(&graph), 3);
    assert_eq!(edge_count(&graph), 2);
}

#[test]
fn test_build_dag_diamond() {
    let wf = make_workflow(vec![("a", vec![]), ("b", vec!["a"]), ("c", vec!["a"]), ("d", vec!["b", "c"])]);
    let (graph, _) = build_dag(&wf).unwrap();
    assert_eq!(graph.node_count(), 4);
    assert_eq!(graph.edge_count(), 4);
}

#[test]
fn test_detect_cycle() {
    let wf = make_workflow(vec![("a", vec!["b"]), ("b", vec!["c"]), ("c", vec!["a"])]);
    let result = build_dag(&wf);
    assert!(matches!(result.unwrap_err(), CoreError::DagCycle));
}

#[test]
fn test_topological_sort_order() {
    let wf = make_workflow(vec![("a", vec![]), ("b", vec!["a"]), ("c", vec!["b"])]);
    let (graph, _) = build_dag(&wf).unwrap();
    let order = topological_sort(&graph).unwrap();
    let names: Vec<&str> = order.iter().map(|idx| graph[NodeIndex::new(*idx)].as_str()).collect();
    let pos_a = names.iter().position(|&n| n == "a").unwrap();
    let pos_b = names.iter().position(|&n| n == "b").unwrap();
    let pos_c = names.iter().position(|&n| n == "c").unwrap();
    assert!(pos_a < pos_b);
    assert!(pos_b < pos_c);
}

#[test]
fn test_find_ready_tasks() {
    let wf = make_workflow(vec![("a", vec![]), ("b", vec!["a"]), ("c", vec!["a"])]);
    let (graph, map) = build_dag(&wf).unwrap();
    let statuses: Vec<(String, TaskStatus)> = Vec::new();
    let ready = find_ready_tasks(&graph, &map, &statuses, &wf);
    assert_eq!(ready, vec!["a"]);
}

#[test]
fn ready_after_dependency_done() {
    let wf = make_workflow(vec![("a", vec![]), ("b", vec!["a"]), ("c", vec!["a"])]);
    let (graph, map) = build_dag(&wf).unwrap();
    let statuses = vec![
        ("a".to_string(), TaskStatus::Done),
        ("b".to_string(), TaskStatus::Pending),
        ("c".to_string(), TaskStatus::Running),
    ];
    assert_eq!(find_ready_tasks(&graph, &map, &statuses, &wf), vec!["b"]);
}

#[test]
fn test_propagate_failure() {
    let wf = make_workflow(vec![("a", vec![]), ("b", vec!["a"]), ("c", vec!["b"])]);
    let (graph, map) = build_dag(&wf).unwrap();
    let mut statuses = vec![
        ("a".to_string(), TaskStatus::Failed),
        ("b".to_string(), TaskStatus::Pending),
        ("c".to_string(), TaskStatus::Pending),
    ];
    propagate_failure("a", &graph, &map, &mut statuses);
    assert_eq!(status_of(&statuses, "b"), TaskStatus::Blocked);
    assert_eq!(status_of(&statuses, "c"), TaskStatus::Blocked);
}

#[test]
fn failure_spares_unrelated_and_finished_tasks() {
    let wf = make_workflow(vec![("a", vec![]), ("b", vec!["a"]), ("c", vec![]), ("d", vec!["a"])]);
    let (graph, map) = build_dag(&wf).unwrap();
    let mut statuses = vec![
        ("a".to_string(), TaskStatus::Failed),
        ("b".to_string(), TaskStatus::Pending),
        ("c".to_string(), TaskStatus::Pending),
        ("d".to_string(), TaskStatus::Done),
    ];
    propagate_failure("a", &graph, &map, &mut statuses);
    assert_eq!(status_of(&statuses, "b"), TaskStatus::Blocked);
    assert_eq!(status_of(&statuses, "c"), TaskStatus::Pending);
    assert_eq!(status_of(&statuses, "d"), TaskStatus::Done);
}

#[test]
fn test_parse_minimal_workflow() {
    let wf = WorkflowDef {
        name: "test".to_string(),
        description: String::new(),
        inputs: vec![],
        tasks: vec![(
            "hello".to_string(),
            TaskDef {
                arguments: Json::Object(vec![("command".to_string(), s("echo hello"))]),
                ..task("shell.run", &[])
            },
        )],
    };
    let wf = parse_workflow(Ok(wf)).unwrap();
    assert_eq!(wf.name, "test");
    assert_eq!(wf.tasks.len(), 1);
    assert_eq!(wf.tasks[0].0, "hello");
    assert_eq!(wf.tasks[0].1.tool, "shell.run");
}

#[test]
fn test_parse_workflow_with_dependencies() {
    let wf = WorkflowDef {
        name: "build".to_string(),
        description: String::new(),
        inputs: vec![],
        tasks: vec![("test".to_string(), task("shell.run", &[])), ("build".to_string(), task("shell.run", &["test"]))],
    };
    let wf = parse_workflow(Ok(wf)).unwrap();
    assert_eq!(wf.tasks[1].1.depends_on, vec!["test"]);
}

#[test]
fn test_parse_workflow_with_inputs() {
    let wf = WorkflowDef {
        name: "deploy".to_string(),
        description: String::new(),
        inputs: vec![(
            "environment".to_string(),
            InputDef { input_type: "string".to_string(), default: Some(s("staging")) },
        )],
        tasks: vec![("deploy".to_string(), task("shell.run", &[]))],
    };
    let wf = parse_workflow(Ok(wf)).unwrap();
    assert!(wf.inputs.iter().any(|(k, _)| k == "environment"));
    assert_eq!(wf.inputs[0].1.default.as_ref().unwrap(), &s("staging"));
}

#[test]
fn test_parse_empty_tasks_rejected() {
    let wf = WorkflowDef { name: "empty".to_string(), description: String::new(), inputs: vec![], tasks: vec![] };
    let err = parse_workflow(Ok(wf)).unwrap_err();
    assert!(matches!(err, CoreError::DagValidation(_)));
}

#[test]
fn test_parse_missing_dependency_rejected() {
    let wf = make_workflow(vec![("deploy", vec!["nonexistent"])]);
    let err = parse_workflow(Ok(wf)).unwrap_err();
    assert!(matches!(err, CoreError::DagValidation(_)));
}

#[test]
fn test_parse_self_dependency_rejected() {
    let wf = make_workflow(vec![("loop", vec!["loop"])]);
    let err = parse_workflow(Ok(wf)).unwrap_err();
    assert!(matches!(err, CoreError::DagValidation(_)));
}

#[test]
fn test_parse_invalid_yaml_rejected() {
    let err = parse_workflow(Err("did not find expected node content".to_string())).unwrap_err();
    assert!(matches!(err, CoreError::YamlParse(_)));
}

#[test]
fn validation_messages() {
    let empty = WorkflowDef { name: "e".to_string(), description: String::new(), inputs: vec![], tasks: vec![] };
    assert_eq!(validate_workflow(&empty).unwrap_err().to_string(), "DAG validation error: workflow has no tasks");
    let missing = make_workflow(vec![("deploy", vec!["nonexistent"])]);
    assert_eq!(
        validate_workflow(&missing).unwrap_err().to_string(),
        "DAG validation error: task 'deploy' depends on 'nonexistent', which does not exist"
    );
    let own = make_workflow(vec![("loop", vec!["loop"])]);
    assert_eq!(
        validate_workflow(&own).unwrap_err().to_string(),
        "DAG validation error: task 'loop' depends on itself"
    );
}

#[test]
fn core_error_texts() {
    assert_eq!(CoreError::DagCycle.to_string(), "Cycle detected in workflow DAG");
    assert_eq!(
        CoreError::TaskFailed { task: "t".to_string(), reason: "r".to_string() }.to_string(),
        "Task 't' failed: r"
    );
    assert_eq!(CoreError::Timeout("t".to_string()).to_string(), "Timeout: task 't' exceeded its time limit");
    assert_eq!(CoreError::UserCancelled.to_string(), "User cancelled (confirm required)");
}

#[test]
fn test_simple_string_substitution() {
    let ctx = make_ctx();
    let resolved = resolve_templates(&s("hello ${{ inputs.name }}"), &ctx).unwrap();
    assert_eq!(resolved, s("hello world"));
}

#[test]
fn test_whole_value_preserves_type() {
    let ctx = make_ctx();
    let resolved = resolve_templates(&s("${{ inputs.count }}"), &ctx).unwrap();
    assert_eq!(resolved, Json::Number("42".to_string()));
}

#[test]
fn test_whole_value_bool() {
    let ctx = make_ctx();
    let resolved = resolve_templates(&s("${{ inputs.flag }}"), &ctx).unwrap();
    assert_eq!(resolved, Json::Bool(true));
}

#[test]
fn test_nested_json() {
    let ctx = make_ctx();
    let val = Json::Object(vec![
        ("url".to_string(), s("https://${{ inputs.name }}/api")),
        ("count".to_string(), s("${{ inputs.count }}")),
    ]);
    let resolved = resolve_templates(&val, &ctx).unwrap();
    assert_eq!(resolved.get("url").unwrap(), &s("https://world/api"));
    assert_eq!(resolved.get("count").unwrap(), &Json::Number("42".to_string()));
}

#[test]
fn test_task_output_reference() {
    let ctx = make_ctx();
    let resolved = resolve_templates(&s("${{ tasks.build.output }}"), &ctx).unwrap();
    assert_eq!(resolved, s("build succeeded"));
}

#[test]
fn test_task_status_reference() {
    let ctx = make_ctx();
    let resolved = resolve_templates(&s("${{ tasks.build.status }}"), &ctx).unwrap();
    assert_eq!(resolved, s("done"));
}

#[test]
fn test_env_variable() {
    let ctx = make_ctx();
    let resolved = resolve_templates(&s("${{ env.HOME }}"), &ctx).unwrap();
    assert_eq!(resolved, s("/home/user"));
}

#[test]
fn test_missing_input_returns_error() {
    let ctx = TemplateContext::new();
    let result = resolve_templates(&s("${{ inputs.missing }}"), &ctx);
    assert!(result.is_err());
}

#[test]
fn test_no_templates_passthrough() {
    let ctx = make_ctx();
    let resolved = resolve_templates(&s("plain text"), &ctx).unwrap();
    assert_eq!(resolved, s("plain text"));
}

#[test]
fn test_evaluate_when_true() {
    let ctx = make_ctx();
    assert!(evaluate_when("true", &ctx).unwrap());
    assert!(evaluate_when("${{ inputs.flag }}", &ctx).unwrap());
}

#[test]
fn test_evaluate_when_false() {
    let ctx = make_ctx();
    assert!(!evaluate_when("false", &ctx).unwrap());
}

#[test]
fn when_conditions_case_and_errors() {
    let ctx = make_ctx();
    assert!(evaluate_when("YES", &ctx).unwrap());
    assert!(!evaluate_when("", &ctx).unwrap());
    match evaluate_when("maybe", &ctx) {
        Err(e) => assert_eq!(e.to_string(), "Template resolution error: cannot evaluate 'maybe' as boolean"),
        Ok(b) => panic!("unexpected {b}"),
    }
}

#[test]
fn unknown_template_root_is_an_error() {
    let ctx = make_ctx();
    assert!(resolve_templates(&s("${{ trigger.x }}"), &ctx).is_err());
}

#[test]
fn durations() {
    assert_eq!(parse_duration("30s").unwrap(), 30);
    assert_eq!(parse_duration("5m").unwrap(), 300);
    assert_eq!(parse_duration(" 2h ").unwrap(), 7200);
    assert_eq!(parse_duration("7").unwrap(), 7);
    match parse_duration("abc") {
        Err(e) => assert_eq!(e.to_string(), "Template resolution error: invalid duration: abc"),
        Ok(n) => panic!("unexpected {n}"),
    }
}

#[test]
fn input_and_retry_defaults() {
    assert_eq!(default_input_type(), "string");
    assert_eq!(default_retry_delay(), "5s");
}

#[test]
fn timing_of_a_task() {
    let t = TaskDef {
        timeout: Some("10s".to_string()),
        retry: Some(RetryPolicy { max_attempts: 3, delay: "1m".to_string() }),
        ..task("shell.run", &[])
    };
    let timing = task_timing(&t).unwrap();
    assert_eq!(timing.timeout_secs, 10);
    assert_eq!(timing.max_attempts, 3);
    assert_eq!(timing.retry_delay_secs, 60);
    let plain = task_timing(&task("x", &[])).unwrap();
    assert_eq!(plain.timeout_secs, 300);
    assert_eq!(plain.max_attempts, 1);
}

#[test]
fn task_output_from_blocks() {
    let content = Json::Array(vec![
        Json::Object(vec![("type".to_string(), s("text")), ("text".to_string(), s("one"))]),
        Json::Object(vec![("type".to_string(), s("text")), ("text".to_string(), s("two"))]),
    ]);
    assert_eq!(task_output_text(&content), "one\ntwo");
    let r = task_done(&content);
    assert_eq!(r.status, TaskStatus::Done);
    assert_eq!(r.output, s("one\ntwo"));
    assert_eq!(task_output_text(&Json::Bool(true)), "true");
    assert!(matches!(attempts_failed("t", None), CoreError::TaskFailed { .. }));
}

#[test]
fn a_run_hands_out_tasks_in_dependency_order() {
    let wf = make_workflow(vec![("a", vec![]), ("b", vec!["a"])]);
    let mut run = WorkflowRun::start(&wf, vec![], vec![]).unwrap();
    assert_eq!(run.next_batch(&wf).unwrap(), vec!["a"]);
    run.complete("a", Ok(TaskResult { status: TaskStatus::Done, output: s("ok") }));
    assert_eq!(run.next_batch(&wf).unwrap(), vec!["b"]);
    run.complete("b", Err(CoreError::Other("boom".to_string())));
    assert!(run.next_batch(&wf).is_none());
    let result = run.finish();
    assert!(!result.overall_success());
    assert_eq!(status_of(&result.task_statuses, "a"), TaskStatus::Done);
    assert_eq!(status_of(&result.task_statuses, "b"), TaskStatus::Failed);
}

#[test]
fn a_failed_task_blocks_its_dependents() {
    let wf = make_workflow(vec![("a", vec![]), ("b", vec!["a"])]);
    let mut run = WorkflowRun::start(&wf, vec![], vec![]).unwrap();
    assert_eq!(run.next_batch(&wf).unwrap(), vec!["a"]);
    run.complete("a", Err(CoreError::Other("boom".to_string())));
    assert!(run.next_batch(&wf).is_none());
    let result = run.finish();
    assert_eq!(status_of(&result.task_statuses, "b"), TaskStatus::Blocked);
}

#[test]
fn a_false_condition_skips_the_task() {
    let mut wf = make_workflow(vec![("a", vec![])]);
    wf.tasks[0].1.when = Some("false".to_string());
    let mut run = WorkflowRun::start(&wf, vec![], vec![]).unwrap();
    assert_eq!(run.next_batch(&wf).unwrap(), Vec::<String>::new());
    assert!(run.next_batch(&wf).is_none());
    let result = run.finish();
    assert!(result.overall_success());
    assert_eq!(status_of(&result.task_statuses, "a"), TaskStatus::Skipped);
}

#[test]
fn summary_lists_tasks_by_name() {
    let result = WorkflowResult {
        task_statuses: vec![
            ("b".to_string(), TaskStatus::Failed),
            ("a".to_string(), TaskStatus::Done),
            ("c".to_string(), TaskStatus::Blocked),
        ],
        task_results: vec![],
    };
    assert_eq!(result.display_summary(), "❌ FAILED\n\n  ✅ a — done\n  ❌ b — failed\n  🚫 c — blocked");
    let ok = WorkflowResult { task_statuses: vec![("x".to_string(), TaskStatus::Skipped)], task_results: vec![] };
    assert_eq!(ok.display_summary(), "✅ SUCCESS\n\n  ⏭️ x — skipped");
    assert_eq!(TaskStatus::Running.to_string(), "running");
}

fn timing(attempts: u32) -> TaskTiming {
    TaskTiming { timeout_secs: 30, max_attempts: attempts, retry_delay_secs: 2 }
}

#[test]
fn attempts_call_at_once_then_after_the_delay() {
    let t = timing(2);
    let (state, action) = attempt_start("fetch", &t);
    assert!(matches!(action, AttemptAction::Call { wait_secs: 0, timeout_secs: 30 }));
    let (state, action) = attempt_step("fetch", &t, state, AttemptEvent::Failed(PluginError::Other("boom".to_string())));
    assert_eq!(state.made, 1);
    assert!(matches!(action, AttemptAction::Call { wait_secs: 2, timeout_secs: 30 }));
    let (_, action) = attempt_step("fetch", &t, state, AttemptEvent::TimedOut);
    match action {
        AttemptAction::Finish(Err(CoreError::Timeout(name))) => assert_eq!(name, "fetch"),
        other => panic!("unexpected {:?}", other),
    }
}

#[test]
fn attempts_finish_when_the_tool_returns() {
    let t = timing(3);
    let (state, _) = attempt_start("fetch", &t);
    let content = Json::Array(vec![Json::Object(vec![("text".to_string(), s("ok"))])]);
    let (_, action) = attempt_step("fetch", &t, state, AttemptEvent::Returned(content));
    match action {
        AttemptAction::Finish(Ok(r)) => {
            assert_eq!(r.status, TaskStatus::Done);
            assert!(matches!(r.output, Json::Str(ref o) if o == "ok"));
        },
        other => panic!("unexpected {:?}", other),
    }
}

#[test]
fn attempts_give_the_last_plugin_error() {
    let t = timing(1);
    let (state, _) = attempt_start("fetch", &t);
    let (_, action) = attempt_step("fetch", &t, state, AttemptEvent::Failed(PluginError::Other("boom".to_string())));
    assert!(matches!(action, AttemptAction::Finish(Err(CoreError::Plugin(PluginError::Other(ref m)))) if m == "boom"));
}

#[test]
fn no_attempts_fail_at_once() {
    let (_, action) = attempt_start("fetch", &timing(0));
    match action {
        AttemptAction::Finish(Err(CoreError::TaskFailed { task, reason })) => {
            assert_eq!(task, "fetch");
            assert_eq!(reason, "unknown error");
        },
        other => panic!("unexpected {:?}", other),
    }
}
