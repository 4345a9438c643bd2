use xuanji::cli::{parse_pid, parse_signed_pid};
use xuanji::cli::{init_config, provider_presets};
use xuanji::cli::{launchd_plist_path_in, systemd_service_path_in};
use xuanji::cli::{
    detect_package_type, env_var_reference, get_default_provider, install_command, install_daemon,
    launchd_plist, log_file_path_in, parse_env_vars, parse_inputs, parse_key_value, path_join,
    pid_file_path_in, prompt_api_key, prompt_default, prompt_usize, prompt_yes_no, server_name_for,
    systemd_unit, uninstall_daemon, xuanji_home_from, PackageType, ServiceKind, XuanjiConfig,
};
use xuanji::json::Json;
use xuanji::llm::ProviderConfig;
use xuanji::plugin::McpServerConfig;
use xuanji::protocol::Protocol;
use xuanji::workflow::InputDef;

fn provider(model: &str) -> ProviderConfig {
    ProviderConfig {
        protocol: Protocol::OpenAI,
        model: model.to_string(),
        api_key: "k".to_string(),
        base_url: None,
        max_tokens: None,
        temperature: None,
    }
}

fn server(name: &str, command: &str) -> McpServerConfig {
    McpServerConfig { name: name.to_string(), command: command.to_string(), args: vec![], env: vec![] }
}

#[test]
fn key_value_arguments() {
    assert_eq!(parse_key_value("A=1").unwrap(), "A=1");
    assert_eq!(parse_key_value("A").unwrap_err(), "Expected KEY=VALUE format, got: A");
    let pairs: Vec<String> = vec!["A=1", "B", "C=x=y", "A=2"].into_iter().map(String::from).collect();
    assert_eq!(
        parse_env_vars(&pairs),
        vec![("A".to_string(), "2".to_string()), ("C".to_string(), "x=y".to_string())]
    );
}

#[test]
fn workflow_inputs_from_defaults_and_arguments() {
    let defaults = vec![
        ("env".to_string(), InputDef { input_type: "string".to_string(), default: Some(Json::Str("staging".into())) }),
        ("n".to_string(), InputDef { input_type: "string".to_string(), default: None }),
    ];
    let args: Vec<String> = vec!["env=prod".to_string(), "x=1".to_string()];
    assert_eq!(
        parse_inputs(&args, &defaults),
        vec![("env".to_string(), Json::Str("prod".into())), ("x".to_string(), Json::Str("1".into()))]
    );
}

#[test]
fn prompts() {
    assert_eq!(prompt_default("", "gpt-4"), "gpt-4");
    assert_eq!(prompt_default("deepseek-chat", "gpt-4"), "deepseek-chat");
    assert!(prompt_yes_no("", true));
    assert!(prompt_yes_no("YES", false));
    assert!(!prompt_yes_no("n", true));
    assert_eq!(prompt_usize("", 1, 3), Some(1));
    assert_eq!(prompt_usize("2", 1, 3), Some(2));
    assert_eq!(prompt_usize("9", 1, 3), None);
    assert_eq!(prompt_usize("x", 1, 3), None);
    assert_eq!(prompt_api_key("", "OPENAI_API_KEY"), "${OPENAI_API_KEY}");
    assert_eq!(prompt_api_key("MY_KEY", "OPENAI_API_KEY"), "${MY_KEY}");
    assert_eq!(prompt_api_key("sk-123", "OPENAI_API_KEY"), "sk-123");
    assert_eq!(env_var_reference("${HOME}"), Some("HOME".to_string()));
    assert_eq!(env_var_reference("plain"), None);
}

#[test]
fn packages() {
    assert_eq!(detect_package_type("@scope/server", None), PackageType::Npm);
    assert_eq!(detect_package_type("mcp-server-git", None), PackageType::Python);
    assert_eq!(detect_package_type("x", Some("PIP")), PackageType::Python);
    assert_eq!(detect_package_type("x", Some("node")), PackageType::Npm);
    assert_eq!(server_name_for("@scope/server-fs", None), "server-fs");
    assert_eq!(server_name_for("pkg", Some("mine")), "mine");
    assert_eq!(
        install_command("@scope/s", PackageType::Npm),
        ("npx".to_string(), vec!["-y".to_string(), "@scope/s".to_string()])
    );
    assert_eq!(install_command("p", PackageType::Python), ("uvx".to_string(), vec!["p".to_string()]));
}

#[test]
fn daemon_files_and_services() {
    assert_eq!(path_join("/a", "b"), "/a/b");
    assert_eq!(path_join("/a/", "b"), "/a/b");
    assert_eq!(xuanji_home_from(Some("/home/u".to_string())), "/home/u/.xuanji");
    assert_eq!(xuanji_home_from(None), "./.xuanji");
    assert_eq!(pid_file_path_in(Some("/home/u".to_string())), "/home/u/.xuanji/daemon.pid");
    assert_eq!(log_file_path_in(Some("/home/u".to_string())), "/home/u/.xuanji/daemon.log");
    assert_eq!(install_daemon("linux").unwrap(), ServiceKind::Systemd);
    assert_eq!(install_daemon("macos").unwrap(), ServiceKind::Launchd);
    assert_eq!(install_daemon("windows").unwrap_err(), "daemon install is only supported on Linux and macOS");
    assert_eq!(uninstall_daemon("linux").unwrap(), ServiceKind::Systemd);
    assert!(uninstall_daemon("freebsd").is_err());
    let unit = systemd_unit("/bin/x", "/p", "/l");
    assert!(unit.contains("ExecStart=/bin/x _daemon_run --pid-file /p --log-file /l"));
    let plist = launchd_plist("/bin/x", "/p", "/l");
    assert!(plist.contains("<string>/bin/x</string>"));
}

#[test]
fn config_servers_and_providers() {
    let mut config = XuanjiConfig::default();
    config.add_mcp_server(server("fs", "a"));
    config.add_mcp_server(server("git", "b"));
    config.add_mcp_server(server("fs", "c"));
    assert_eq!(config.mcp_servers.len(), 2);
    assert_eq!(config.mcp_servers[0].command, "c");
    assert!(config.remove_mcp_server("git"));
    assert!(!config.remove_mcp_server("git"));
    assert_eq!(
        get_default_provider(&config).unwrap_err(),
        "No default_provider set. Run 'xuanji config-init' to create a config."
    );
    config.llm.default_provider = Some("main".to_string());
    assert_eq!(get_default_provider(&config).unwrap_err(), "Provider 'main' not found in config.");
    config.llm.providers.push(("main".to_string(), provider("gpt-4")));
    let (name, p) = get_default_provider(&config).unwrap();
    assert_eq!(name, "main");
    assert_eq!(p.model, "gpt-4");
}

#[test]
fn config_merge_prefers_the_later() {
    let mut global = XuanjiConfig::default();
    global.llm.default_provider = Some("a".to_string());
    global.llm.providers.push(("a".to_string(), provider("m1")));
    global.add_mcp_server(server("fs", "x"));
    let mut local = XuanjiConfig::default();
    local.llm.providers.push(("a".to_string(), provider("m2")));
    local.llm.providers.push(("b".to_string(), provider("m3")));
    let merged = global.merge(local);
    assert_eq!(merged.llm.default_provider, Some("a".to_string()));
    assert_eq!(merged.llm.providers.len(), 2);
    assert_eq!(merged.llm.providers[0].1.model, "m2");
    assert_eq!(merged.mcp_servers.len(), 1);
}

#[test]
fn pid_files_are_read() {
    assert_eq!(parse_pid(" 1234\n"), Some(1234));
    assert_eq!(parse_pid("+7"), Some(7));
    assert_eq!(parse_pid("4294967296"), None);
    assert_eq!(parse_pid("abc"), None);
    assert_eq!(parse_signed_pid("-5"), Some(-5));
    assert_eq!(parse_signed_pid("2147483648"), None);
    assert_eq!(parse_signed_pid("-2147483648"), Some(i32::MIN));
    assert_eq!(parse_signed_pid(""), None);
}

#[test]
fn setup_wizard_configuration() {
    let presets = provider_presets();
    assert_eq!(presets.len(), 3);
    assert_eq!(presets[0].name, "OpenAI");
    assert_eq!(presets[2].default_model, "deepseek-chat");
    let c = init_config("deepseek", Protocol::OpenAI, "deepseek-chat", "https://api.deepseek.com/v1", "${K}", true);
    assert_eq!(c.llm.default_provider, Some("deepseek".to_string()));
    assert_eq!(c.llm.providers.len(), 1);
    assert_eq!(c.llm.providers[0].1.base_url.as_deref(), Some("https://api.deepseek.com/v1"));
    assert_eq!(c.mcp_servers.len(), 1);
    assert_eq!(c.mcp_servers[0].command, "xuanji-mcp-shell");
    let bare = init_config("x", Protocol::Anthropic, "m", "u", "k", false);
    assert!(bare.mcp_servers.is_empty());
}

#[test]
fn service_files() {
    assert_eq!(systemd_service_path_in(Some("/home/u".to_string())), "/home/u/.config/systemd/user/xuanji.service");
    assert_eq!(launchd_plist_path_in(None), "./Library/LaunchAgents/com.trueai.xuanji.plist");
}

#[test]
fn init_config_keeps_default_agent_settings() {
    let c = init_config("x", Protocol::OpenAI, "m", "u", "k", false);
    assert_eq!(c.agent.max_loops, 20);
    assert_eq!(c.agent.step_timeout, "60s");
    assert!(c.agent.confirm_risky);
    assert!(c.agent.risky_patterns.is_empty());
    assert!(!c.agent.text_tool_mode);
}
