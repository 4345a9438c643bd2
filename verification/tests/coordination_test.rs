use xuanji::budget::{budget_report_lines, consumption_report_lines};
use xuanji::budget::{default_max_depth, BudgetConfig, BudgetController, BudgetError};
use xuanji::bus::{KnowledgeBus, KnowledgeMessage};
use xuanji::json::Json;
use xuanji::state::{files_overlap, IntentScope, IntentTicket, SharedState, StateError};

fn text_payload(t: &str) -> Json {
    Json::Object(vec![("text".to_string(), Json::Str(t.to_string()))])
}

fn scope(files: &[&str]) -> IntentScope {
    IntentScope { files: files.iter().map(|f| f.to_string()).collect(), resources: vec![] }
}

fn ticket(agent: &str) -> IntentTicket {
    IntentTicket { agent: agent.to_string(), scope: scope(&[]) }
}

#[test]
fn test_bus_publish_subscribe() {
    let bus = KnowledgeBus::new(16);
    let mut rx = bus.subscribe();
    bus.publish(KnowledgeMessage::new("agent-1", "discovery", Json::Str("found something".to_string())));
    let msg = rx.try_recv().unwrap();
    assert_eq!(msg.source_agent, "agent-1");
    assert_eq!(msg.channel, "discovery");
}

#[test]
fn test_bus_multiple_subscribers() {
    let bus = KnowledgeBus::new(16);
    let mut rx1 = bus.subscribe();
    let mut rx2 = bus.subscribe();
    bus.publish(KnowledgeMessage::new("agent-1", "insight", Json::Str("test".to_string())));
    assert!(rx1.try_recv().is_ok());
    assert!(rx2.try_recv().is_ok());
}

#[test]
fn test_bus_convenience_methods() {
    let bus = KnowledgeBus::new(16);
    let mut rx = bus.subscribe();
    bus.publish_discovery("a", text_payload("found X"));
    bus.publish_warning("b", text_payload("port busy"));
    bus.publish_state("c", text_payload("file changed"));
    bus.publish_insight("d", text_payload("pattern found"));
    let mut channels = Vec::new();
    for _ in 0..4 {
        channels.push(rx.try_recv().unwrap().channel);
    }
    assert!(channels.contains(&"discovery".to_string()));
    assert!(channels.contains(&"warning".to_string()));
    assert!(channels.contains(&"state".to_string()));
    assert!(channels.contains(&"insight".to_string()));
}

#[test]
fn test_format_messages() {
    let messages = vec![
        KnowledgeMessage::new("researcher", "discovery", text_payload("项目使用 pnpm")),
        KnowledgeMessage::new("builder", "warning", text_payload("端口 8080 被占用")),
    ];
    let formatted = KnowledgeBus::format_messages(&messages);
    assert!(formatted.contains("协作消息"));
    assert!(formatted.contains("researcher"));
    assert!(formatted.contains("builder"));
    assert!(formatted.contains("pnpm"));
}

#[test]
fn test_format_messages_empty() {
    let formatted = KnowledgeBus::format_messages(&[]);
    assert!(formatted.is_empty());
}

#[test]
fn format_messages_exact_lines() {
    let messages = vec![
        KnowledgeMessage::new("a", "discovery", Json::Str("plain".to_string())),
        KnowledgeMessage::new("b", "warning", Json::Object(vec![])),
        KnowledgeMessage::new("c", "state", Json::Bool(true)),
    ];
    assert_eq!(
        KnowledgeBus::format_messages(&messages),
        "## 协作消息\n来自其他 Agent 的信息：\n- [discovery] Agent \"a\": plain\n- [warning] Agent \"b\": （无详情）\n- [state] Agent \"c\": true\n"
    );
}

#[test]
fn format_messages_cuts_long_summaries() {
    let long = "x".repeat(250);
    let messages = vec![KnowledgeMessage::new("a", "insight", Json::Str(long))];
    let out = KnowledgeBus::format_messages(&messages);
    assert!(out.ends_with(&format!(": {}\n", "x".repeat(200))));
}

#[test]
fn format_messages_cuts_at_characters() {
    let messages = vec![KnowledgeMessage::new("a", "insight", Json::Str("中".repeat(201)))];
    assert_eq!(
        KnowledgeBus::format_messages(&messages),
        "## 协作消息\n来自其他 Agent 的信息：\n- [insight] Agent \"a\": ".to_string() + &"中".repeat(200) + "\n"
    );
}

#[test]
fn test_shared_state_declare_intent() {
    let mut state = SharedState::new(KnowledgeBus::new(16));
    let result = state.declare_intent("agent-1", scope(&["src/main.rs"]));
    assert!(result.is_ok());
}

#[test]
fn test_shared_state_conflict_detection() {
    let mut state = SharedState::new(KnowledgeBus::new(16));
    state.declare_intent("agent-1", scope(&["src/main.rs"])).unwrap();
    let result = state.declare_intent("agent-2", scope(&["src/main.rs"]));
    assert!(result.is_err());
    if let Err(StateError::Conflict { conflicting_agent, .. }) = result {
        assert_eq!(conflicting_agent, "agent-1");
    }
}

#[test]
fn test_shared_state_cas_write() {
    let mut state = SharedState::new(KnowledgeBus::new(16));
    let t = ticket("agent-1");
    state.write(&t, "key1", Json::Str("value1".to_string())).unwrap();
    let entry = state.read("key1").unwrap();
    assert_eq!(entry.version, 1);
    assert_eq!(entry.value, Json::Str("value1".to_string()));
    state.write_cas(&t, "key1", Json::Str("value2".to_string()), 1).unwrap();
    let entry = state.read("key1").unwrap();
    assert_eq!(entry.version, 2);
}

#[test]
fn test_shared_state_cas_version_mismatch() {
    let mut state = SharedState::new(KnowledgeBus::new(16));
    let t = ticket("agent-1");
    state.write(&t, "key1", Json::Str("v1".to_string())).unwrap();
    let result = state.write_cas(&t, "key1", Json::Str("v2".to_string()), 0);
    assert!(result.is_err());
}

#[test]
fn test_shared_state_release_intent() {
    let mut state = SharedState::new(KnowledgeBus::new(16));
    state.declare_intent("agent-1", scope(&["src/main.rs"])).unwrap();
    state.release_intent("agent-1");
    let result = state.declare_intent("agent-2", scope(&["src/main.rs"]));
    assert!(result.is_ok());
}

#[test]
fn test_files_overlap_prefix() {
    assert!(files_overlap("src/", "src/main.rs"));
    assert!(files_overlap("src/main.rs", "src/"));
    assert!(!files_overlap("src/", "lib/"));
}

#[test]
fn own_intent_does_not_conflict() {
    let mut state = SharedState::new(KnowledgeBus::new(16));
    state.declare_intent("agent-1", scope(&["src/"])).unwrap();
    assert!(state.declare_intent("agent-1", scope(&["src/lib.rs"])).is_ok());
}

#[test]
fn shared_resource_conflicts() {
    let mut state = SharedState::new(KnowledgeBus::new(16));
    let s1 = IntentScope { files: vec![], resources: vec!["port:8080".to_string()] };
    let s2 = IntentScope { files: vec![], resources: vec!["port:8080".to_string()] };
    state.declare_intent("a", s1).unwrap();
    assert!(state.declare_intent("b", s2).is_err());
}

#[test]
fn read_of_unknown_key_is_none() {
    let state = SharedState::new(KnowledgeBus::new(16));
    assert!(state.read("nothing").is_none());
}

#[test]
fn state_error_texts() {
    let conflict = StateError::Conflict {
        agent: "b".to_string(),
        conflicting_agent: "a".to_string(),
        conflicting_files: vec!["src/main.rs".to_string(), "say \"hi\"".to_string()],
    };
    assert_eq!(conflict.to_string(), "Agent 'b': conflicts with 'a' on files [\"src/main.rs\", \"say \\\"hi\\\"\"]");
    let mismatch = StateError::VersionMismatch { key: "k".to_string(), expected: 1, actual: 2 };
    assert_eq!(mismatch.to_string(), "Version mismatch for 'k': expected 1, actual 2");
}

#[test]
fn test_budget_acquire_within_limit() {
    let config = BudgetConfig { total_budget: 1000, ..Default::default() };
    let mut controller = BudgetController::new(config);
    assert!(controller.acquire("agent-1", 500).is_ok());
}

#[test]
fn test_budget_acquire_over_limit() {
    let config = BudgetConfig { total_budget: 1000, ..Default::default() };
    let mut controller = BudgetController::new(config);
    assert!(controller.acquire("agent-1", 600).is_ok());
    let result = controller.acquire("agent-1", 500);
    assert!(result.is_err());
}

#[test]
fn test_budget_report_tracks_consumption() {
    let mut controller = BudgetController::new(BudgetConfig::default());
    controller.report("agent-1", 100);
    controller.report("agent-1", 50);
    controller.report("agent-2", 200);
    let status = controller.status();
    assert_eq!(status.total_consumed, 350);
    let get = |a: &str| status.per_agent.iter().find(|(k, _)| k == a).map(|(_, v)| *v).unwrap();
    assert_eq!(get("agent-1"), 150);
    assert_eq!(get("agent-2"), 200);
}

#[test]
fn test_budget_per_agent_limit() {
    let config = BudgetConfig { per_agent_budget: 500, ..Default::default() };
    let mut controller = BudgetController::new(config);
    controller.report("agent-1", 400);
    let result = controller.acquire("agent-1", 200);
    assert!(result.is_err());
    if let Err(BudgetError::PerAgentOverBudget { consumed, limit, .. }) = result {
        assert_eq!(consumed, 400);
        assert_eq!(limit, 500);
    }
}

#[test]
fn test_budget_status() {
    let config = BudgetConfig { total_budget: 10000, ..Default::default() };
    let mut controller = BudgetController::new(config);
    controller.report("agent-1", 1000);
    controller.report("agent-2", 2000);
    let status = controller.status();
    assert_eq!(status.total_budget, 10000);
    assert_eq!(status.total_consumed, 3000);
    assert_eq!(status.remaining, 7000);
}

#[test]
fn test_budget_unlimited() {
    let mut controller = BudgetController::new(BudgetConfig::default());
    assert!(controller.acquire("agent-1", 999999).is_ok());
    assert!(controller.acquire("agent-1", 999999).is_ok());
}

#[test]
fn budget_defaults_and_error_texts() {
    let c = BudgetConfig::default();
    assert_eq!(c.total_budget, 0);
    assert_eq!(c.per_agent_budget, 0);
    assert_eq!(c.max_depth, 3);
    assert_eq!(default_max_depth(), 3);
    let e = BudgetError::OverBudget { agent: "a".to_string(), requested: 5, remaining: 2 };
    assert_eq!(e.to_string(), "Agent 'a': over total budget (requested 5, remaining 2)");
    let d = BudgetError::DepthExceeded { agent: "a".to_string(), current_depth: 4, max_depth: 3 };
    assert_eq!(d.to_string(), "Agent 'a': delegation depth 4 exceeds max 3");
}

#[test]
fn granted_request_is_charged_to_the_total() {
    let config = BudgetConfig { total_budget: 1000, ..Default::default() };
    let mut controller = BudgetController::new(config);
    controller.acquire("a", 300).unwrap();
    let status = controller.status();
    assert_eq!(status.total_consumed, 300);
    assert_eq!(status.remaining, 700);
}

#[test]
fn budget_reports() {
    let config = BudgetConfig { total_budget: 1000, per_agent_budget: 0, max_depth: 3 };
    let mut controller = BudgetController::new(config);
    controller.report("a", 100);
    let status = controller.status();
    assert_eq!(
        budget_report_lines(&config, &status),
        vec!["预算: 100/1000 tokens (剩余 900)", "每 Agent 上限: 无限制", "最大递归深度: 3"]
    );
    assert_eq!(consumption_report_lines(&status), vec!["📊 Token 消耗: 100/1000", "   - a: 100 tokens"]);
    let unlimited = BudgetController::new(BudgetConfig { per_agent_budget: 50, ..Default::default() }).status();
    assert_eq!(
        budget_report_lines(&BudgetConfig { per_agent_budget: 50, ..Default::default() }, &unlimited),
        vec!["预算: 无限制", "每 Agent 上限: 50 tokens", "最大递归深度: 3"]
    );
    assert!(consumption_report_lines(&unlimited).is_empty());
}

#[test]
fn two_requests_over_the_total_grant_one() {
    let mut b = BudgetController::new(BudgetConfig { total_budget: 100, per_agent_budget: 0, max_depth: 3 });
    assert!(b.acquire("a", 60).is_ok());
    assert!(b.acquire("b", 60).is_err());
}
