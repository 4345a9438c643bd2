//! The built-in tools: `llm.ask`, `shell.run`, `agent.delegate` and
//! `workflow.create`. Their schemas and descriptions, what each reads from its
//! arguments, and the result each hands back. Running a command, asking a
//! model, running a sub-agent and writing a file are left to the caller, who
//! hands the outcome back here.
use vstd::prelude::*;
use crate::agent::{AgentError, agent_error_text};
use crate::cli::{join_path, path_join};
use crate::json::{Json, JsonV, jv_get, jv_str, json_parse, parse_json, json_seq_view, jstr, jpush, decimal_text, u64_text};
use crate::llm::{LlmError, LlmResponse, Message, MessageV, llm_error_text, make_obj2, obj2};
use crate::plugin::{McpToolResult, PluginError, ToolRegistry};
use crate::assoc::assoc_insert;
use crate::text::{concat, ToOwnedString};
use crate::workflow::{CoreError, WorkflowDef, core_error_text, parse_workflow, validation_error};

verus! {

/// The arguments of `llm.ask`.
pub const LLM_ASK_SCHEMA: &'static str = "{\n    \"type\": \"object\",\n    \"properties\": {\n        \"prompt\": { \"type\": \"string\", \"description\": \"The prompt to send to the LLM\" },\n        \"provider\": { \"type\": \"string\", \"description\": \"Provider name override (optional)\" },\n        \"model\": { \"type\": \"string\", \"description\": \"Model name override (optional)\" },\n        \"temperature\": { \"type\": \"number\", \"description\": \"Temperature override (optional)\" },\n        \"max_tokens\": { \"type\": \"integer\", \"description\": \"Max tokens override (optional)\" }\n    },\n    \"required\": [\"prompt\"]\n}";

/// The arguments of `shell.run`.
pub const SHELL_RUN_SCHEMA: &'static str = "{\n    \"type\": \"object\",\n    \"properties\": {\n        \"command\": { \"type\": \"string\", \"description\": \"The shell command to execute\" }\n    },\n    \"required\": [\"command\"]\n}";

/// The arguments of `agent.delegate`.
pub const AGENT_DELEGATE_SCHEMA: &'static str = "{\n    \"type\": \"object\",\n    \"properties\": {\n        \"task\": { \"type\": \"string\", \"description\": \"Description of the sub-task to delegate to a sub-agent\" },\n        \"agent_name\": { \"type\": \"string\", \"description\": \"Name for the sub-agent (default: auto-generated)\" }\n    },\n    \"required\": [\"task\"]\n}";

/// The arguments of `workflow.create`.
pub const WORKFLOW_CREATE_SCHEMA: &'static str = "{\n    \"type\": \"object\",\n    \"properties\": {\n        \"yaml\": { \"type\": \"string\", \"description\": \"Complete workflow YAML content. Must follow the xuanji workflow schema.\" },\n        \"name\": { \"type\": \"string\", \"description\": \"Workflow filename without extension. Defaults to the 'name' field in YAML.\" }\n    },\n    \"required\": [\"yaml\"]\n}";

pub const LLM_ASK_DESCRIPTION: &'static str = "Ask an LLM a question and get a response. Useful for analysis, summarization, and decision-making within workflows.";

pub const SHELL_RUN_DESCRIPTION: &'static str = "Execute a shell command and return its output. Use this for running CLI commands, scripts, and any system operations.";

pub const AGENT_DELEGATE_DESCRIPTION: &'static str = "Delegate a sub-task to a sub-agent. The sub-agent will execute the task autonomously and return the result.";

/// What `workflow.create` does, with the workflow format, for the model.
pub const WORKFLOW_CREATE_DESCRIPTION: &'static str = "Create a new workflow YAML file that can be executed by the xuanji daemon.\n\nUse this tool when the user wants to set up:\n- Scheduled/cron tasks (e.g. '每天早上9点执行报告')\n- File watchers (e.g. '代码变更时自动测试')\n- Webhook triggers (e.g. '接收GitHub webhook自动部署')\n\nThe 'yaml' parameter must be valid xuanji workflow YAML with this structure:\n\n```yaml\nname: my-workflow           # Required: workflow name (used as filename)\ndescription: \"...\"          # Optional: description\ninputs:                     # Optional: input parameters\n  param1:\n    type: string\n    default: \"value\"\ntriggers:                   # Optional: automation triggers\n  - type: cron              # Scheduled execution\n    schedule: \"0 9 * * *\"   # 5-field cron expression (min hour day month weekday)\n  - type: file-watcher      # File change detection\n    paths: [\"src/\"]\n    events: [\"modified\"]\n  - type: webhook           # HTTP trigger\n    path: \"/deploy\"\n    method: \"POST\"\ntasks:                      # Required: at least one task\n  task-name:\n    tool: llm.ask           # Tool to call (llm.ask, shell.run, agent.delegate, etc.)\n    arguments:\n      prompt: \"Task description\"\n    depends_on: []          # Optional: list of task names this depends on\n    timeout: \"60s\"          # Optional\n    retry:                  # Optional\n      max_attempts: 3\n      delay: \"5s\"\n```\n\nTemplate variables available in arguments: ${{ inputs.X }}, ${{ tasks.X.output }}, ${{ env.X }}, ${{ trigger.X }}\nAfter creation, the daemon must be restarted to pick up new workflows.\n";

// ---------------------------------------------------------------------------
// Registration
// ---------------------------------------------------------------------------

/// The schema a schema text gives: the JSON it holds, or `null` when it is not JSON.
pub open spec fn schema_model(text: Seq<char>) -> JsonV {
    match json_parse(text) {
        Ok(v) => v,
        Err(_) => JsonV::Null,
    }
}

/// The schema of a schema text.
pub fn schema_value(text: &str) -> (r: Json)
    ensures
        r@ == schema_model(text@),
{
    match parse_json(text) {
        Ok(v) => v,
        Err(_) => Json::Null,
    }
}

/// The tools of `registry` with a built-in tool registered (or replaced).
pub open spec fn with_system_tool(
    tools: Seq<(Seq<char>, (Seq<char>, JsonV, Option<Seq<char>>))>,
    name: Seq<char>,
    description: Seq<char>,
    schema: Seq<char>,
) -> Seq<(Seq<char>, (Seq<char>, JsonV, Option<Seq<char>>))> {
    assoc_insert(tools, name, (description, schema_model(schema), None))
}

/// Registers `shell.run`.
pub fn register_shell_run(registry: &mut ToolRegistry)
    requires
        old(registry).wf(),
    ensures
        final(registry).wf(),
        final(registry).tools() == with_system_tool(
            old(registry).tools(),
            "shell.run"@,
            SHELL_RUN_DESCRIPTION@,
            SHELL_RUN_SCHEMA@,
        ),
{
    registry.register_system_tool("shell.run", SHELL_RUN_DESCRIPTION, schema_value(SHELL_RUN_SCHEMA));
}

/// Registers `llm.ask`, then `shell.run`.
pub fn register_system_tools(registry: &mut ToolRegistry)
    requires
        old(registry).wf(),
    ensures
        final(registry).wf(),
        final(registry).tools() == with_system_tool(
            with_system_tool(old(registry).tools(), "llm.ask"@, LLM_ASK_DESCRIPTION@, LLM_ASK_SCHEMA@),
            "shell.run"@,
            SHELL_RUN_DESCRIPTION@,
            SHELL_RUN_SCHEMA@,
        ),
{
    registry.register_system_tool("llm.ask", LLM_ASK_DESCRIPTION, schema_value(LLM_ASK_SCHEMA));
    register_shell_run(registry);
}

/// Registers `agent.delegate`.
pub fn register_agent_delegate(registry: &mut ToolRegistry)
    requires
        old(registry).wf(),
    ensures
        final(registry).wf(),
        final(registry).tools() == with_system_tool(
            old(registry).tools(),
            "agent.delegate"@,
            AGENT_DELEGATE_DESCRIPTION@,
            AGENT_DELEGATE_SCHEMA@,
        ),
{
    registry.register_system_tool("agent.delegate", AGENT_DELEGATE_DESCRIPTION, schema_value(AGENT_DELEGATE_SCHEMA));
}

/// Registers `workflow.create`.
pub fn register_workflow_create(registry: &mut ToolRegistry)
    requires
        old(registry).wf(),
    ensures
        final(registry).wf(),
        final(registry).tools() == with_system_tool(
            old(registry).tools(),
            "workflow.create"@,
            WORKFLOW_CREATE_DESCRIPTION@,
            WORKFLOW_CREATE_SCHEMA@,
        ),
{
    registry.register_system_tool("workflow.create", WORKFLOW_CREATE_DESCRIPTION, schema_value(WORKFLOW_CREATE_SCHEMA));
}

// ---------------------------------------------------------------------------
// Arguments and results
// ---------------------------------------------------------------------------

/// The string argument `key`, when it is there and a string.
pub open spec fn string_arg(arguments: JsonV, key: Seq<char>) -> Option<Seq<char>> {
    jv_str(jv_get(arguments, key))
}

/// The string argument `key` (`arguments.get(key).and_then(as_str)`).
pub fn string_argument(arguments: &Json, key: &str) -> (r: Option<String>)
    ensures
        r matches Some(s) ==> string_arg(arguments@, key@) == Some(s@),
        r is None ==> string_arg(arguments@, key@) is None,
{
    match arguments.get(key) {
        Some(v) => match v.as_str() {
            Some(s) => Some(s.clone()),
            None => None,
        },
        None => None,
    }
}

/// A required string argument, refused with the protocol error `message` when missing.
fn required_argument(arguments: &Json, key: &str, message: &str) -> (r: Result<String, PluginError>)
    ensures
        match r {
            Ok(s) => string_arg(arguments@, key@) == Some(s@),
            Err(PluginError::Protocol(m)) => m@ == message@ && string_arg(arguments@, key@) is None,
            Err(_) => false,
        },
{
    match string_argument(arguments, key) {
        Some(s) => Ok(s),
        None => Err(PluginError::Protocol(message.to_owned_string())),
    }
}

/// The model of a text content block.
pub open spec fn text_block(text: Seq<char>) -> JsonV {
    obj2("type"@, JsonV::Str("text"@), "text"@, JsonV::Str(text))
}

/// A text content block.
pub fn text_block_json(text: &str) -> (r: Json)
    ensures
        r@ == text_block(text@),
{
    make_obj2("type", jstr("text"), "text", jstr(text))
}

/// A tool result of one text block.
pub fn text_result(text: &str, is_error: bool) -> (r: McpToolResult)
    ensures
        r.content@ == JsonV::Array(seq![text_block(text@)]),
        r.is_error == is_error,
{
    let mut blocks: Vec<Json> = Vec::new();
    jpush(&mut blocks, text_block_json(text));
    assert(json_seq_view(blocks@) =~= seq![text_block(text@)]);
    McpToolResult { content: Json::Array(blocks), is_error }
}

/// The messages `llm.ask` sends: its `prompt`, as one user message. Refused
/// when the prompt is missing.
pub fn llm_ask_messages(arguments: &Json) -> (r: Result<Vec<Message>, PluginError>)
    ensures
        match r {
            Ok(ms) => string_arg(arguments@, "prompt"@) matches Some(p) && ms@.len() == 1 && ms@[0]@
                == (MessageV::User { content: p }),
            Err(PluginError::Protocol(m)) => m@ == "llm.ask: missing 'prompt' field"@ && string_arg(
                arguments@,
                "prompt"@,
            ) is None,
            Err(_) => false,
        },
{
    let prompt = required_argument(arguments, "prompt", "llm.ask: missing 'prompt' field")?;
    Ok(vec![Message::User { content: prompt }])
}

/// What `llm.ask` hands back for the model's answer: the text of the answer
/// (empty when there is none), or the model's error as a protocol error.
pub fn llm_ask_result(response: Result<LlmResponse, LlmError>) -> (r: Result<McpToolResult, PluginError>)
    ensures
        match (response, r) {
            (Ok(resp), Ok(t)) => !t.is_error && t.content@ == JsonV::Array(
                seq![
                    text_block(
                        match resp {
                            LlmResponse::Text { content, .. } => content@,
                            LlmResponse::ToolCalls { text, .. } => match text {
                                Some(x) => x@,
                                None => Seq::empty(),
                            },
                        },
                    ),
                ],
            ),
            (Err(e), Err(PluginError::Protocol(m))) => m@ == "LLM error: "@ + llm_error_text(e),
            _ => false,
        },
{
    match response {
        Ok(resp) => {
            let text = match resp.text_content() {
                Some(t) => t.clone(),
                None => String::new(),
            };
            Ok(text_result(text.as_str(), false))
        },
        Err(e) => Err(PluginError::Protocol(concat("LLM error: ", e.to_string().as_str()))),
    }
}

/// The command `shell.run` runs. Refused when it is missing.
pub fn shell_run_command(arguments: &Json) -> (r: Result<String, PluginError>)
    ensures
        match r {
            Ok(c) => string_arg(arguments@, "command"@) == Some(c@),
            Err(PluginError::Protocol(m)) => m@ == "shell.run: missing 'command' field"@ && string_arg(
                arguments@,
                "command"@,
            ) is None,
            Err(_) => false,
        },
{
    required_argument(arguments, "command", "shell.run: missing 'command' field")
}

/// The error of a command that could not be started.
pub fn shell_run_spawn_error(reason: &str) -> (e: PluginError)
    ensures
        e is Protocol && e->Protocol_0@ == "shell.run: failed to execute: "@ + reason@,
{
    PluginError::Protocol(concat("shell.run: failed to execute: ", reason))
}

/// The content blocks of a command's outcome: its output (its error output
/// when it wrote nothing else), then, when it failed and wrote error output,
/// that output marked as such.
pub open spec fn shell_blocks(stdout: Seq<char>, stderr: Seq<char>, success: bool) -> Seq<JsonV> {
    let first = text_block(if stdout.len() == 0 { stderr } else { stdout });
    if stderr.len() > 0 && !success {
        seq![first, text_block("stderr: "@ + stderr)]
    } else {
        seq![first]
    }
}

/// What `shell.run` hands back for a command that ran: its output, flagged
/// as an error when the command failed.
pub fn shell_run_result(stdout: &str, stderr: &str, success: bool) -> (r: McpToolResult)
    ensures
        r.content@ == JsonV::Array(shell_blocks(stdout@, stderr@, success)),
        r.is_error == !success,
{
    let mut blocks: Vec<Json> = Vec::new();
    let first = if stdout.is_empty() {
        text_block_json(stderr)
    } else {
        text_block_json(stdout)
    };
    jpush(&mut blocks, first);
    let is_error = !success;
    if !stderr.is_empty() && is_error {
        let marked = concat("stderr: ", stderr);
        jpush(&mut blocks, text_block_json(marked.as_str()));
    }
    assert(json_seq_view(blocks@) =~= shell_blocks(stdout@, stderr@, success));
    McpToolResult { content: Json::Array(blocks), is_error }
}

/// What a delegation comes to: refused with a result for the model, or a
/// sub-agent to run.
#[derive(Debug)]
pub enum DelegatePlan {
    /// The delegation would go deeper than allowed.
    Refused(McpToolResult),
    /// Run a child agent under `full_name`, at `depth`, on `task`.
    Spawn { full_name: String, depth: u32, task: String },
}

/// The refusal text of a delegation that would go too deep.
pub open spec fn depth_refusal(depth: u32, max_depth: u32) -> Seq<char> {
    "无法委派：递归深度 "@ + decimal_text(depth as nat) + " 超过最大限制 "@ + decimal_text(max_depth as nat)
}

/// The name of the sub-agent: the parent's name and the requested name
/// (`worker` when none is given), joined by a hyphen.
pub open spec fn child_name(parent: Seq<char>, arguments: JsonV) -> Seq<char> {
    parent + "-"@ + match string_arg(arguments, "agent_name"@) {
        Some(n) => n,
        None => "worker"@,
    }
}

/// Plans an `agent.delegate` call of an agent at `parent_depth`: refused when
/// the task is missing, refused for the model when the sub-agent would be
/// deeper than `max_depth`, else a sub-agent one level deeper.
pub fn delegate_plan(arguments: &Json, parent_depth: u32, max_depth: u32, parent_name: &str) -> (r: Result<
    DelegatePlan,
    PluginError,
>)
    requires
        parent_depth < u32::MAX,
    ensures
        match r {
            Err(PluginError::Protocol(m)) => m@ == "agent.delegate: missing 'task' field"@ && string_arg(
                arguments@,
                "task"@,
            ) is None,
            Err(_) => false,
            Ok(DelegatePlan::Refused(t)) => string_arg(arguments@, "task"@) is Some && parent_depth + 1
                > max_depth && t.is_error && t.content@ == JsonV::Array(
                seq![text_block(depth_refusal((parent_depth + 1) as u32, max_depth))],
            ),
            Ok(DelegatePlan::Spawn { full_name, depth, task }) => string_arg(arguments@, "task"@) == Some(
                task@,
            ) && depth == parent_depth + 1 && depth <= max_depth && full_name@ == child_name(
                parent_name@,
                arguments@,
            ),
        },
{
    let task = required_argument(arguments, "task", "agent.delegate: missing 'task' field")?;
    let child = match string_argument(arguments, "agent_name") {
        Some(n) => n,
        None => "worker".to_owned_string(),
    };
    let depth = parent_depth + 1;
    if depth > max_depth {
        let mut text = concat("无法委派：递归深度 ", u64_text(depth as u64).as_str());
        text.append(" 超过最大限制 ");
        text.append(u64_text(max_depth as u64).as_str());
        return Ok(DelegatePlan::Refused(text_result(text.as_str(), true)));
    }
    let mut full_name = concat(parent_name, "-");
    full_name.append(child.as_str());
    Ok(DelegatePlan::Spawn { full_name, depth, task })
}

/// What `agent.delegate` hands back for the sub-agent's outcome: its answer,
/// or its failure flagged as an error.
pub fn delegate_result(full_name: &str, outcome: Result<String, AgentError>) -> (r: McpToolResult)
    ensures
        match outcome {
            Ok(text) => !r.is_error && r.content@ == JsonV::Array(seq![text_block(text@)]),
            Err(e) => r.is_error && r.content@ == JsonV::Array(
                seq![text_block("子 Agent '"@ + full_name@ + "' 执行失败: "@ + agent_error_text(e))],
            ),
        },
{
    match outcome {
        Ok(text) => text_result(text.as_str(), false),
        Err(e) => {
            let mut text = concat("子 Agent '", full_name);
            text.append("' 执行失败: ");
            text.append(e.to_string().as_str());
            text_result(text.as_str(), true)
        },
    }
}

/// The YAML text `workflow.create` is to write. Refused when it is missing.
pub fn workflow_create_yaml(arguments: &Json) -> (r: Result<String, PluginError>)
    ensures
        match r {
            Ok(y) => string_arg(arguments@, "yaml"@) == Some(y@),
            Err(PluginError::Protocol(m)) => m@ == "workflow.create: missing 'yaml' field"@ && string_arg(
                arguments@,
                "yaml"@,
            ) is None,
            Err(_) => false,
        },
{
    required_argument(arguments, "yaml", "workflow.create: missing 'yaml' field")
}

/// Where `workflow.create` writes a workflow: the workflow's name (the `name`
/// argument when there is one) and the file `<name>.yaml` in the directory.
pub open spec fn workflow_target(arguments: JsonV, workflow_name: Seq<char>, dir: Seq<char>) -> (Seq<char>, Seq<char>) {
    let name = match string_arg(arguments, "name"@) {
        Some(n) => n,
        None => workflow_name,
    };
    (name, join_path(dir, name + ".yaml"@))
}

/// Checks the parsed YAML of `workflow.create` and decides where to write it:
/// refused when the YAML does not parse or the workflow is invalid, else the
/// name and the path of the file.
pub fn workflow_create_target(arguments: &Json, parsed: Result<WorkflowDef, String>, workflows_dir: &str) -> (r:
    Result<(String, String), PluginError>)
    ensures
        match (parsed, r) {
            (Ok(w), Ok((name, path))) => validation_error(w.tasks@) is None && (name@, path@) == workflow_target(
                arguments@,
                w.name@,
                workflows_dir@,
            ),
            (Ok(w), Err(PluginError::Protocol(m))) => validation_error(w.tasks@) matches Some(v) && m@
                == "workflow.create: invalid workflow YAML: "@ + "DAG validation error: "@ + v,
            (Err(e), Err(PluginError::Protocol(m))) => m@ == "workflow.create: invalid workflow YAML: "@
                + "YAML parse error: "@ + e@,
            _ => false,
        },
{
    let workflow = match parse_workflow(parsed) {
        Ok(w) => w,
        Err(e) => {
            return Err(PluginError::Protocol(concat("workflow.create: invalid workflow YAML: ", e.to_string().as_str())));
        },
    };
    let name = match string_argument(arguments, "name") {
        Some(n) => n,
        None => workflow.name,
    };
    let file = concat(name.as_str(), ".yaml");
    let path = path_join(workflows_dir, file.as_str());
    Ok((name, path))
}

/// The error of a workflows directory that could not be created.
pub fn workflow_dir_error(dir: &str, reason: &str) -> (e: PluginError)
    ensures
        e is Protocol && e->Protocol_0@ == "workflow.create: cannot create dir '"@ + dir@ + "': "@ + reason@,
{
    let mut m = concat("workflow.create: cannot create dir '", dir);
    m.append("': ");
    m.append(reason);
    PluginError::Protocol(m)
}

/// The error of a workflow file that could not be written.
pub fn workflow_write_error(path: &str, reason: &str) -> (e: PluginError)
    ensures
        e is Protocol && e->Protocol_0@ == "workflow.create: cannot write '"@ + path@ + "': "@ + reason@,
{
    let mut m = concat("workflow.create: cannot write '", path);
    m.append("': ");
    m.append(reason);
    PluginError::Protocol(m)
}

/// What `workflow.create` hands back once the file is written.
pub fn workflow_created_result(name: &str, path: &str) -> (r: McpToolResult)
    ensures
        !r.is_error,
        r.content@ == JsonV::Array(
            seq![
                text_block(
                    "✅ 工作流 '"@ + name@ + "' 已创建: "@ + path@
                        + "\n如需自动执行，请运行 `xuanji daemon start`（或重启 daemon）。"@,
                ),
            ],
        ),
{
    let mut text = concat("✅ 工作流 '", name);
    text.append("' 已创建: ");
    text.append(path);
    text.append("\n如需自动执行，请运行 `xuanji daemon start`（或重启 daemon）。");
    text_result(text.as_str(), false)
}

} // verus!
