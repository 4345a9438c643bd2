use xuanji::llm::Message;
use xuanji::memory::{
    default_max_context_turns, default_max_history, path_to_hash, project_note_added, project_paths, HistoryEntry,
    LongTermMemory, MemoryConfig, MemoryContent, ProjectContext, ShortTermMemory, SubTask, SubTaskStatus,
    WorkingMemory,
};

fn entry(timestamp: &str, goal: &str, success: bool) -> HistoryEntry {
    HistoryEntry { timestamp: timestamp.to_string(), goal: goal.to_string(), summary: String::new(), success }
}

#[test]
fn test_push_and_messages() {
    let config = MemoryConfig { max_history: 100, max_context_turns: 20 };
    let mut mem = ShortTermMemory::new(config);
    mem.push(Message::System { content: "you are helpful".to_string() });
    mem.push(Message::User { content: "hello".to_string() });
    assert_eq!(mem.messages().len(), 2);
}

#[test]
fn test_no_compression_under_limit() {
    let config = MemoryConfig { max_history: 10, max_context_turns: 3 };
    let mut mem = ShortTermMemory::new(config);
    mem.push(Message::System { content: "system".to_string() });
    mem.push(Message::User { content: "hello".to_string() });
    mem.push(Message::Assistant { content: "hi".to_string() });
    assert_eq!(mem.messages().len(), 3);
    assert!(matches!(mem.messages()[0], Message::System { .. }));
    assert!(matches!(mem.messages()[1], Message::User { .. }));
    assert!(matches!(mem.messages()[2], Message::Assistant { .. }));
}

#[test]
fn test_compression_preserves_system_and_first_user() {
    let config = MemoryConfig { max_history: 10, max_context_turns: 3 };
    let mut mem = ShortTermMemory::new(config);
    mem.push(Message::System { content: "system prompt".to_string() });
    mem.push(Message::User { content: "first user message".to_string() });
    for i in 0..10 {
        if i % 2 == 0 {
            mem.push(Message::User { content: format!("user msg {i}") });
        } else {
            mem.push(Message::Assistant { content: format!("assistant msg {i}") });
        }
    }
    let msgs = mem.messages();
    assert!(msgs.len() <= 5 + 2);
    match &msgs[0] {
        Message::System { content } => assert_eq!(content, "system prompt"),
        _ => panic!("expected system message"),
    }
    match &msgs[1] {
        Message::User { content } => assert_eq!(content, "first user message"),
        _ => panic!("expected user message"),
    }
}

#[test]
fn test_into_messages() {
    let config = MemoryConfig { max_history: 100, max_context_turns: 20 };
    let mut mem = ShortTermMemory::new(config);
    mem.push(Message::System { content: "sys".to_string() });
    mem.push(Message::User { content: "usr".to_string() });
    let msgs = mem.into_messages();
    assert_eq!(msgs.len(), 2);
}

#[test]
fn compression_preserves_system_and_first_user() {
    let config = MemoryConfig { max_history: 8, max_context_turns: 3 };
    let mut mem = ShortTermMemory::new(config);
    mem.push(Message::System { content: "system prompt".to_string() });
    mem.push(Message::User { content: "first user message".to_string() });
    for i in 0..20 {
        if i % 2 == 0 {
            mem.push(Message::User { content: format!("user msg {i}") });
        } else {
            mem.push(Message::Assistant { content: format!("assistant msg {i}") });
        }
    }
    let msgs = mem.messages();
    match &msgs[0] {
        Message::System { content } => assert_eq!(content, "system prompt"),
        other => panic!("expected System message, got {other:?}"),
    }
    match &msgs[1] {
        Message::User { content } => assert_eq!(content, "first user message"),
        other => panic!("expected User message, got {other:?}"),
    }
    assert!(msgs.len() <= 8, "messages should not exceed max_history, got {}", msgs.len());
}

#[test]
fn no_compression_under_limit() {
    let config = MemoryConfig { max_history: 100, max_context_turns: 20 };
    let mut mem = ShortTermMemory::new(config);
    mem.push(Message::System { content: "system".to_string() });
    mem.push(Message::User { content: "hello".to_string() });
    mem.push(Message::Assistant { content: "hi".to_string() });
    mem.push(Message::User { content: "how are you?".to_string() });
    mem.push(Message::Assistant { content: "doing well, thanks!".to_string() });
    let msgs = mem.messages();
    assert_eq!(msgs.len(), 5, "all 5 messages should be retained");
    match &msgs[0] {
        Message::System { content } => assert_eq!(content, "system"),
        _ => panic!("expected System"),
    }
    match &msgs[1] {
        Message::User { content } => assert_eq!(content, "hello"),
        _ => panic!("expected User"),
    }
    match &msgs[2] {
        Message::Assistant { content } => assert_eq!(content, "hi"),
        _ => panic!("expected Assistant"),
    }
    match &msgs[3] {
        Message::User { content } => assert_eq!(content, "how are you?"),
        _ => panic!("expected User"),
    }
    match &msgs[4] {
        Message::Assistant { content } => assert_eq!(content, "doing well, thanks!"),
        _ => panic!("expected Assistant"),
    }
}

#[test]
fn compression_keeps_exact_tail() {
    let config = MemoryConfig { max_history: 4, max_context_turns: 2 };
    let mut mem = ShortTermMemory::new(config);
    for i in 0..5 {
        mem.push(Message::User { content: format!("m{i}") });
    }
    let texts: Vec<String> = mem
        .messages()
        .iter()
        .map(|m| match m {
            Message::User { content } => content.clone(),
            _ => String::new(),
        })
        .collect();
    assert_eq!(texts, vec!["m0", "m1", "m3", "m4"]);
}

#[test]
fn memory_config_defaults() {
    let c = MemoryConfig::default();
    assert_eq!(c.max_history, 100);
    assert_eq!(c.max_context_turns, 20);
    assert_eq!(default_max_history(), 100);
    assert_eq!(default_max_context_turns(), 20);
}

#[test]
fn test_to_prompt_context_empty() {
    let mem = WorkingMemory::new();
    let ctx = mem.to_prompt_context();
    assert!(ctx.is_empty());
}

#[test]
fn test_to_prompt_context_full() {
    let mut mem = WorkingMemory::new();
    mem.goal = Some("Fix the build error".to_string());
    mem.subtasks.push(SubTask {
        description: "Identify the error".to_string(),
        status: SubTaskStatus::Done,
        result_summary: Some("Missing import in main.rs".to_string()),
    });
    mem.subtasks.push(SubTask {
        description: "Apply fix".to_string(),
        status: SubTaskStatus::InProgress,
        result_summary: None,
    });
    mem.key_results.push("Error was a missing `use` statement".to_string());
    mem.errors.push("Initial build failed".to_string());
    let ctx = mem.to_prompt_context();
    assert!(ctx.contains("## Goal"));
    assert!(ctx.contains("Fix the build error"));
    assert!(ctx.contains("## Sub-Tasks"));
    assert!(ctx.contains("[Done]"));
    assert!(ctx.contains("[InProgress]"));
    assert!(ctx.contains("## Key Results"));
    assert!(ctx.contains("## Errors"));
}

#[test]
fn working_memory_goal_only() {
    let mem = WorkingMemory::new().with_goal("ship it");
    assert_eq!(mem.to_prompt_context(), "## Goal\nship it");
    let t = SubTask::new("step");
    assert_eq!(t.status, SubTaskStatus::Pending);
    assert!(t.result_summary.is_none());
    assert_eq!(SubTaskStatus::Failed.to_string(), "Failed");
}

#[test]
fn test_save_and_load_preferences() {
    let mut prefs: Vec<(String, String)> = Vec::new();
    LongTermMemory::save_preference(&mut prefs, "language", "中文");
    LongTermMemory::save_preference(&mut prefs, "editor", "vim");
    let get = |k: &str| prefs.iter().find(|(key, _)| key == k).map(|(_, v)| v.clone());
    assert_eq!(get("language").unwrap(), "中文");
    assert_eq!(get("editor").unwrap(), "vim");
}

#[test]
fn saving_a_preference_again_replaces_it() {
    let mut prefs: Vec<(String, String)> = Vec::new();
    LongTermMemory::save_preference(&mut prefs, "editor", "vim");
    LongTermMemory::save_preference(&mut prefs, "editor", "emacs");
    assert_eq!(prefs, vec![("editor".to_string(), "emacs".to_string())]);
}

#[test]
fn test_add_and_load_rules() {
    let mut rules: Vec<String> = Vec::new();
    LongTermMemory::add_rule(&mut rules, "使用 pnpm");
    LongTermMemory::add_rule(&mut rules, "提交信息用英文");
    assert_eq!(rules.len(), 2);
    assert_eq!(rules[0], "使用 pnpm");
}

#[test]
fn test_remove_rule() {
    let mut rules: Vec<String> = Vec::new();
    LongTermMemory::add_rule(&mut rules, "rule1");
    LongTermMemory::add_rule(&mut rules, "rule2");
    assert!(LongTermMemory::remove_rule(&mut rules, 0));
    assert_eq!(rules.len(), 1);
    assert_eq!(rules[0], "rule2");
    assert!(!LongTermMemory::remove_rule(&mut rules, 5));
    assert_eq!(rules.len(), 1);
}

#[test]
fn test_append_and_load_history() {
    let entries = vec![entry("2026-06-10", "部署到测试环境", true), entry("2026-06-09", "添加触发器", true)];
    let recent = LongTermMemory::recent_history(entries);
    assert_eq!(recent.len(), 2);
    assert_eq!(recent[0].goal, "部署到测试环境");
    assert_eq!(recent[1].goal, "添加触发器");
}

#[test]
fn recent_history_keeps_last_five() {
    let entries: Vec<HistoryEntry> = (0..8).map(|i| entry("d", &format!("g{i}"), true)).collect();
    let recent = LongTermMemory::recent_history(entries);
    let goals: Vec<String> = recent.into_iter().map(|e| e.goal).collect();
    assert_eq!(goals, vec!["g3", "g4", "g5", "g6", "g7"]);
}

#[test]
fn trim_history_drops_empty_and_old_lines() {
    let lines: Vec<String> = vec!["a", "", "b", "c"].into_iter().map(String::from).collect();
    assert_eq!(LongTermMemory::trim_history(lines.clone(), 2), vec!["b", "c"]);
    assert_eq!(LongTermMemory::trim_history(lines, 5), vec!["a", "b", "c"]);
}

#[test]
fn test_project_context() {
    let ctx = project_note_added(None, Some("test-project".to_string()), "使用 anthropic 协议", "2026-01-01");
    assert!(ctx.notes.contains(&"使用 anthropic 协议".to_string()));
    assert_eq!(ctx.name, "test-project");
    assert_eq!(ctx.updated_at, "2026-01-01");
    let again = project_note_added(Some(ctx), None, "second", "2026-01-02");
    assert_eq!(again.notes, vec!["使用 anthropic 协议", "second"]);
    assert_eq!(again.name, "test-project");
    let unnamed = project_note_added(None, None, "n", "t");
    assert_eq!(unnamed.name, "unknown");
}

#[test]
fn test_to_prompt_context() {
    let mut content = MemoryContent::empty();
    content.preferences.push(("language".to_string(), "中文".to_string()));
    content.rules.push("使用 pnpm".to_string());
    let prompt = LongTermMemory::to_prompt_context(&content);
    assert!(prompt.contains("用户偏好"));
    assert!(prompt.contains("自定义规则"));
    assert!(prompt.contains("使用 pnpm"));
}

#[test]
fn long_term_prompt_context_exact() {
    let mut content = MemoryContent::empty();
    content.rules.push("r".to_string());
    content.project_context = Some(ProjectContext {
        name: "p".to_string(),
        tech_stack: vec!["rust".to_string(), "verus".to_string()],
        notes: vec!["n".to_string()],
        updated_at: "t".to_string(),
    });
    content.recent_history.push(entry("2026-06-10", "deploy", false));
    let prompt = LongTermMemory::to_prompt_context(&content);
    assert_eq!(
        prompt,
        "## 自定义规则\n- r\n\n## 项目知识\n- 技术栈: rust, verus\n- n\n\n## 最近执行记录\n- [2026-06-10] deploy → 失败"
    );
    assert_eq!(LongTermMemory::to_prompt_context(&MemoryContent::empty()), "");
}

#[test]
fn test_path_to_hash_deterministic() {
    let h1 = path_to_hash("/tmp/test-project");
    let h2 = path_to_hash("/tmp/test-project");
    assert_eq!(h1, h2);
    assert_eq!(h1.len(), 16);
    assert!(h1.chars().all(|c| c.is_ascii_hexdigit() && !c.is_ascii_uppercase()));
    assert_ne!(path_to_hash("/tmp/other"), h1);
}

#[test]
fn project_paths_under_base() {
    let (dir, context, history) = project_paths("/home/u/.xuanji/memory", "00ff");
    assert_eq!(dir, "/home/u/.xuanji/memory/projects/00ff");
    assert_eq!(context, "/home/u/.xuanji/memory/projects/00ff/context.json");
    assert_eq!(history, "/home/u/.xuanji/memory/projects/00ff/history.jsonl");
}

#[test]
fn long_term_memory_keeps_its_directory() {
    let m = LongTermMemory::new("/tmp/mem".to_string());
    assert_eq!(m.base_dir, "/tmp/mem");
}
