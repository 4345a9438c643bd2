//! The agent: its configuration, the reading of tool calls that a model writes
//! as text, the estimate of a conversation's size, and the decisions of its
//! reasoning loop.
use vstd::prelude::*;
use crate::json::{Json, JsonV, json_parse, json_fields_view, parse_json, jfield, json_text, to_json_text, decimal_text, u64_text};
use crate::llm::{
    LlmError, llm_error_text, Message, MessageV, ToolCall, ToolCallV, ToolSchema, LlmResponse, LlmResponseV, msg_views,
    calls_view, copy_calls,
};
use crate::scheduler::{content_text, blocks_text};
use crate::plugin::{PluginError, plugin_error_text, McpToolResult};
use crate::memory::{WorkingMemory, working_lines, ShortTermMemory, MemoryConfig, compressed};
use crate::bus::{KnowledgeBus, KnowledgeMessage, formatted_messages};
use crate::text::{
    chars_of, find, find_from, occurs_at, rfind, trim, trim_start, first_line, find_exec, find_from_exec,
    rfind_exec, sub_chars, skip_ws, first_line_end, trim_range, lemma_find_from_some,
    lemma_rfind_below_some, ToOwnedString, concat, str_eq, utf8_len, byte_len, join, lemma_find_from_first,
    lemma_occurs_in_part, lemma_trim_twice, lemma_trim_part,
};

verus! {

// ---------------------------------------------------------------------------
// Think blocks
// ---------------------------------------------------------------------------

/// `s` with its think blocks cut out, before trimming.
///
/// A block runs from `<think` to the first `>` after the next `</think` (or to
/// the end of that closing word when no `>` follows); an opening with no
/// closing cuts the text off where it starts.
pub open spec fn strip_think_raw(s: Seq<char>) -> Seq<char>
    decreases s.len(),
{
    match find(s, "<think"@) {
        None => s,
        Some(i) => match find_from(s, "</think"@, i) {
            None => s.subrange(0, i),
            Some(e) => {
                let close_start = e + "</think"@.len();
                let end = match find_from(s, seq!['>'], close_start) {
                    Some(g) => g + 1,
                    None => close_start,
                };
                if 0 <= i < end <= s.len() {
                    strip_think_raw(s.subrange(0, i) + s.subrange(end, s.len() as int))
                } else {
                    s
                }
            },
        },
    }
}

/// Cutting out think blocks leaves no `<think` behind.
proof fn lemma_raw_has_no_open(s: Seq<char>, j: int)
    ensures
        !occurs_at(strip_think_raw(s), "<think"@, j),
    decreases s.len(),
{
    reveal_strlit("<think");
    reveal_strlit("</think");
    let open = "<think"@;
    lemma_find_from_some(s, open, 0);
    match find(s, open) {
        None => {
            if occurs_at(s, open, j) {
                lemma_find_from_first(s, open, 0, j);
            }
        },
        Some(i) => {
            lemma_find_from_some(s, "</think"@, i);
            match find_from(s, "</think"@, i) {
                None => {
                    if occurs_at(s.subrange(0, i), open, j) {
                        lemma_occurs_in_part(s, open, 0, i, j);
                        lemma_find_from_first(s, open, 0, j);
                    }
                },
                Some(e) => {
                    let close_start = e + "</think"@.len();
                    lemma_find_from_some(s, seq!['>'], close_start);
                    let end = match find_from(s, seq!['>'], close_start) {
                        Some(g) => g + 1,
                        None => close_start,
                    };
                    assert(0 <= i < end <= s.len());
                    lemma_raw_has_no_open(s.subrange(0, i) + s.subrange(end, s.len() as int), j);
                },
            }
        },
    }
}

/// A text with no `<think` has no block to cut.
proof fn lemma_raw_of_plain(t: Seq<char>)
    requires
        forall|j: int| !occurs_at(t, "<think"@, j),
    ensures
        strip_think_raw(t) == t,
{
    lemma_find_from_some(t, "<think"@, 0);
}

/// Stripping think blocks twice is stripping them once.
pub proof fn law_strip_think_idempotent(s: Seq<char>)
    ensures
        trim(strip_think_raw(trim(strip_think_raw(s)))) == trim(strip_think_raw(s)),
{
    let r = strip_think_raw(s);
    let t = trim(r);
    lemma_trim_part(r);
    let (a, b) = choose|a: int, b: int| 0 <= a <= b <= r.len() && t == #[trigger] r.subrange(a, b);
    assert forall|j: int| !occurs_at(t, "<think"@, j) by {
        if occurs_at(t, "<think"@, j) {
            lemma_occurs_in_part(r, "<think"@, a, b, j);
            lemma_raw_has_no_open(s, a + j);
        }
    }
    lemma_raw_of_plain(t);
    lemma_trim_twice(r);
}

/// Removes the think blocks that reasoning models write, then trims the rest.
pub fn strip_think_blocks(text: &str) -> (r: String)
    ensures
        r@ == trim(strip_think_raw(text@)),
{
    let open = chars_of("<think");
    let close = chars_of("</think");
    let mut gt: Vec<char> = Vec::new();
    gt.push('>');
    proof {
        reveal_strlit("</think");
        assert(gt@ =~= seq!['>']);
    }
    let mut cur = chars_of(text);
    loop
        invariant
            strip_think_raw(cur@) == strip_think_raw(text@),
            open@ == "<think"@,
            close@ == "</think"@,
            close@.len() == 7,
            gt@ == seq!['>'],
        decreases cur.len(),
    {
        proof {
            lemma_find_from_some(cur@, open@, 0);
        }
        let i = match find_exec(&cur, &open) {
            Some(i) => i,
            None => {
                assert(cur@.subrange(0, cur@.len() as int) =~= cur@);
                return trim_range(&cur, 0, cur.len());
            },
        };
        proof {
            lemma_find_from_some(cur@, close@, i as int);
        }
        let e = match find_from_exec(&cur, &close, i) {
            Some(e) => e,
            None => {
                return trim_range(&cur, 0, i);
            },
        };
        let close_start = e + close.len();
        proof {
            lemma_find_from_some(cur@, gt@, close_start as int);
        }
        let end = match find_from_exec(&cur, &gt, close_start) {
            Some(g) => g + 1,
            None => close_start,
        };
        let mut next = sub_chars(&cur, 0, i);
        let mut tail = sub_chars(&cur, end, cur.len());
        next.append(&mut tail);
        cur = next;
    }
}

// ---------------------------------------------------------------------------
// Tool calls written as text
// ---------------------------------------------------------------------------

/// A tool call that a model wrote in its text.
#[derive(Debug)]
pub struct TextToolCall {
    pub tool_name: String,
    pub arguments: Json,
    /// The text before the call.
    pub reasoning: String,
}

/// The model of a text tool call.
pub struct TextToolCallV {
    pub tool_name: Seq<char>,
    pub arguments: JsonV,
    pub reasoning: Seq<char>,
}

impl View for TextToolCall {
    type V = TextToolCallV;

    open spec fn view(&self) -> TextToolCallV {
        TextToolCallV { tool_name: self.tool_name@, arguments: self.arguments@, reasoning: self.reasoning@ }
    }
}

/// The model of an optional text tool call.
pub open spec fn opt_call_view(r: Option<TextToolCall>) -> Option<TextToolCallV> {
    match r {
        Some(t) => Some(t@),
        None => None,
    }
}

/// The arguments read from a `PARAMS:` line: the JSON it holds, or an empty
/// object when it is not JSON.
pub open spec fn params_value(line: Seq<char>) -> JsonV {
    match json_parse(line) {
        Ok(v) => v,
        Err(_) => JsonV::Object(Seq::empty()),
    }
}

/// The call of an `ACTION:` / `PARAMS:` block: the tool named on the line of
/// the last `ACTION:`, the first line after the next `PARAMS:` (`{}` when
/// nothing follows it) as arguments, and the trimmed text before `ACTION:`.
pub open spec fn action_call(c: Seq<char>) -> Option<TextToolCallV> {
    match rfind(c, "ACTION:"@) {
        None => None,
        Some(a) => {
            let after = c.subrange(a + "ACTION:"@.len(), c.len() as int);
            let name = trim(first_line(after));
            if name.len() == 0 {
                None
            } else {
                let at = trim_start(after);
                match find(at, "PARAMS:"@) {
                    None => None,
                    Some(p) => {
                        let ap = at.subrange(p + "PARAMS:"@.len(), at.len() as int);
                        let line = if ap.len() == 0 {
                            "{}"@
                        } else {
                            trim(first_line(ap))
                        };
                        Some(
                            TextToolCallV {
                                tool_name: name,
                                arguments: params_value(line),
                                reasoning: trim(c.subrange(0, a)),
                            },
                        )
                    },
                }
            }
        },
    }
}

/// Reads an `ACTION:` / `PARAMS:` block.
pub fn parse_action_format(cleaned: &str) -> (r: Option<TextToolCall>)
    ensures
        opt_call_view(r) == action_call(cleaned@),
{
    let c = chars_of(cleaned);
    let pa = chars_of("ACTION:");
    proof {
        lemma_rfind_below_some(c@, pa@, c@.len() as int + 1);
    }
    let a = match rfind_exec(&c, &pa) {
        Some(a) => a,
        None => {
            return None;
        },
    };
    let after = sub_chars(&c, a + pa.len(), c.len());
    let le = first_line_end(&after);
    let name = trim_range(&after, 0, le);
    if name.as_str().is_empty() {
        return None;
    }
    let at_start = skip_ws(&after, 0);
    assert(after@.subrange(0, after@.len() as int) =~= after@);
    let at = sub_chars(&after, at_start, after.len());
    let pp = chars_of("PARAMS:");
    proof {
        lemma_find_from_some(at@, pp@, 0);
    }
    let p = match find_exec(&at, &pp) {
        Some(p) => p,
        None => {
            return None;
        },
    };
    let ap = sub_chars(&at, p + pp.len(), at.len());
    let line: String = if ap.len() == 0 {
        "{}".to_owned_string()
    } else {
        let e = first_line_end(&ap);
        trim_range(&ap, 0, e)
    };
    let arguments = match parse_json(line.as_str()) {
        Ok(v) => v,
        Err(_) => {
            let r = Json::Object(Vec::new());
            assert(json_fields_view(Seq::<(String, Json)>::empty()) =~= Seq::<(Seq<char>, JsonV)>::empty());
            r
        },
    };
    let reasoning = trim_range(&c, 0, a);
    Some(TextToolCall { tool_name: name, arguments, reasoning })
}

/// The call of the first code block opened by `tag`: a `shell.run` of the
/// block's first line, when the trimmed block is not empty. (The block is
/// trimmed, so its first line is its first line that is not blank.)
pub open spec fn code_call_with(c: Seq<char>, tag: Seq<char>) -> Option<TextToolCallV> {
    match find(c, tag) {
        None => None,
        Some(st) => {
            let rest = c.subrange(st + tag.len(), c.len() as int);
            match find(rest, "```"@) {
                None => None,
                Some(e) => {
                    let code = trim(rest.subrange(0, e));
                    let cmd = trim(first_line(code));
                    if code.len() == 0 || cmd.len() == 0 {
                        None
                    } else {
                        Some(
                            TextToolCallV {
                                tool_name: "shell.run"@,
                                arguments: JsonV::Object(seq![("command"@, JsonV::Str(cmd))]),
                                reasoning: trim(c.subrange(0, st)),
                            },
                        )
                    }
                },
            }
        },
    }
}

/// The call of the first `shell`, `bash` or `sh` code block, tried in that order.
pub open spec fn code_call(c: Seq<char>) -> Option<TextToolCallV> {
    match code_call_with(c, "```shell"@) {
        Some(t) => Some(t),
        None => match code_call_with(c, "```bash"@) {
            Some(t) => Some(t),
            None => code_call_with(c, "```sh"@),
        },
    }
}

/// The call of the first code block opened by `tag`.
fn code_block_with(c: &Vec<char>, tag: &str) -> (r: Option<TextToolCall>)
    ensures
        opt_call_view(r) == code_call_with(c@, tag@),
{
    let t = chars_of(tag);
    proof {
        lemma_find_from_some(c@, t@, 0);
    }
    let st = match find_exec(c, &t) {
        Some(st) => st,
        None => {
            return None;
        },
    };
    assert(occurs_at(c@, t@, st as int));
    assert(st + t@.len() <= c@.len());
    assert(st + t.len() <= c.len());
    let rest = sub_chars(c, st + t.len(), c.len());
    let fence = chars_of("```");
    proof {
        lemma_find_from_some(rest@, fence@, 0);
    }
    let e = match find_exec(&rest, &fence) {
        Some(e) => e,
        None => {
            return None;
        },
    };
    let code = trim_range(&rest, 0, e);
    if code.as_str().is_empty() {
        return None;
    }
    let cv = chars_of(code.as_str());
    let le = first_line_end(&cv);
    let cmd = trim_range(&cv, 0, le);
    if cmd.as_str().is_empty() {
        return None;
    }
    let mut fields: Vec<(String, Json)> = Vec::new();
    jfield(&mut fields, "command", Json::Str(cmd));
    assert(json_fields_view(fields@) =~= seq![("command"@, JsonV::Str(cmd@))]);
    let reasoning = trim_range(c, 0, st);
    Some(TextToolCall { tool_name: "shell.run".to_owned_string(), arguments: Json::Object(fields), reasoning })
}

/// The first line of a text holds no line break.
proof fn lemma_first_line_no_newline(s: Seq<char>)
    ensures
        !first_line(s).contains('\n'),
{
    let nl = seq!['\n'];
    lemma_find_from_some(s, nl, 0);
    let f = first_line(s);
    if f.contains('\n') {
        let j = choose|j: int| 0 <= j < f.len() && f[j] == '\n';
        assert(f[j] == s[j]);
        assert(s.subrange(j, j + 1) =~= nl);
        assert(occurs_at(s, nl, j));
        lemma_find_from_first(s, nl, 0, j);
    }
}

/// Trimming a text with no line break leaves none.
proof fn lemma_trim_part_no_newline(s: Seq<char>)
    requires
        !s.contains('\n'),
    ensures
        !trim(s).contains('\n'),
{
    lemma_trim_part(s);
    let (a, b) = choose|a: int, b: int| 0 <= a <= b <= s.len() && trim(s) == #[trigger] s.subrange(a, b);
    if trim(s).contains('\n') {
        let j = choose|j: int| 0 <= j < trim(s).len() && trim(s)[j] == '\n';
        assert(s[a + j] == '\n');
    }
}

/// Code blocks are tried as `shell`, then `bash`, then `sh`: the call read
/// from a text is the first of those three that gives one, and there is none
/// only when none of them gives one. In particular, when no `shell` or `bash`
/// block gives a call, an `sh` block's call is the call read.
pub proof fn law_code_blocks_in_order(c: Seq<char>)
    ensures
        code_call_with(c, "```shell"@) is Some ==> code_call(c) == code_call_with(c, "```shell"@),
        code_call_with(c, "```shell"@) is None && code_call_with(c, "```bash"@) is Some ==> code_call(c)
            == code_call_with(c, "```bash"@),
        code_call_with(c, "```shell"@) is None && code_call_with(c, "```bash"@) is None ==> code_call(c)
            == code_call_with(c, "```sh"@),
        code_call(c) is None <==> (code_call_with(c, "```shell"@) is None && code_call_with(c, "```bash"@) is None
            && code_call_with(c, "```sh"@) is None),
{
}

/// A call read from a code block runs its first line with `shell.run`: the
/// command is that line, trimmed, and is not blank.
pub proof fn law_code_call_runs_a_line(c: Seq<char>, tag: Seq<char>)
    ensures
        code_call_with(c, tag) matches Some(t) ==> t.tool_name == "shell.run"@ && (t.arguments matches JsonV::Object(
            fs,
        ) && fs.len() == 1 && fs[0].0 == "command"@ && (fs[0].1 matches JsonV::Str(cmd) && cmd.len() > 0 && cmd
            == trim(cmd) && !cmd.contains('\n'))),
{
    if code_call_with(c, tag) is Some {
        let st = find(c, tag)->Some_0;
        let rest = c.subrange(st + tag.len(), c.len() as int);
        let e = find(rest, "```"@)->Some_0;
        let code = trim(rest.subrange(0, e));
        let cmd = trim(first_line(code));
        crate::text::lemma_trim_twice(first_line(code));
        lemma_first_line_no_newline(code);
        lemma_trim_part_no_newline(first_line(code));
    }
}

/// Reads the first `shell`, `bash` or `sh` code block as a `shell.run` call.
pub fn parse_code_block(cleaned: &str) -> (r: Option<TextToolCall>)
    ensures
        opt_call_view(r) == code_call(cleaned@),
{
    let c = chars_of(cleaned);
    let r = code_block_with(&c, "```shell");
    if r.is_some() {
        return r;
    }
    let r = code_block_with(&c, "```bash");
    if r.is_some() {
        return r;
    }
    code_block_with(&c, "```sh")
}

/// The tool call written in a model's text: think blocks removed, an
/// `ACTION:` block if there is one, else a shell code block.
pub open spec fn text_tool_call(text: Seq<char>) -> Option<TextToolCallV> {
    let cleaned = trim(strip_think_raw(text));
    match action_call(cleaned) {
        Some(t) => Some(t),
        None => code_call(cleaned),
    }
}

/// Reads the tool call written in a model's text, if there is one.
pub fn parse_text_tool_calls(text: &str) -> (r: Option<TextToolCall>)
    ensures
        opt_call_view(r) == text_tool_call(text@),
{
    let cleaned = strip_think_blocks(text);
    let r = parse_action_format(cleaned.as_str());
    if r.is_some() {
        return r;
    }
    parse_code_block(cleaned.as_str())
}

// ---------------------------------------------------------------------------
// Configuration and results
// ---------------------------------------------------------------------------

/// A tool call pattern considered risky: a regular expression over the JSON
/// text of the arguments of calls to `tool`.
#[derive(Debug)]
pub struct RiskyPattern {
    pub tool: String,
    pub pattern: String,
}

/// How the agent's loop runs.
#[derive(Debug)]
pub struct AgentConfig {
    /// The most model calls of one task.
    pub max_loops: u32,
    pub step_timeout: String,
    /// Whether risky calls are flagged.
    pub confirm_risky: bool,
    pub risky_patterns: Vec<RiskyPattern>,
    /// Tools are described in the prompt and called in text, for models
    /// without native tool calling.
    pub text_tool_mode: bool,
}

/// The default number of model calls.
pub fn default_max_loops() -> (n: u32)
    ensures
        n == 20,
{
    20
}

/// The default step timeout.
pub fn default_step_timeout() -> (s: String)
    ensures
        s@ == "60s"@,
{
    "60s".to_owned_string()
}

/// `true`, the default of flags that are on unless said otherwise.
pub fn default_true() -> (b: bool)
    ensures
        b,
{
    true
}

/// The default agent settings: 20 loops, steps of 60s, risky calls
/// confirmed, no extra risky patterns, and native tool calls.
pub open spec fn is_default_agent(c: AgentConfig) -> bool {
    &&& c.max_loops == 20
    &&& c.step_timeout@ == "60s"@
    &&& c.confirm_risky
    &&& c.risky_patterns@.len() == 0
    &&& !c.text_tool_mode
}

impl Default for AgentConfig {
    fn default() -> (c: AgentConfig)
        ensures
            c.max_loops == 20,
            c.step_timeout@ == "60s"@,
            c.confirm_risky,
            c.risky_patterns@.len() == 0,
            !c.text_tool_mode,
    {
        AgentConfig {
            max_loops: default_max_loops(),
            step_timeout: default_step_timeout(),
            confirm_risky: true,
            risky_patterns: Vec::new(),
            text_tool_mode: false,
        }
    }
}

/// The outcome of one tool call.
#[derive(Debug)]
pub struct ToolResult {
    pub tool_call_id: String,
    pub tool_name: String,
    pub result: String,
    pub success: bool,
}

/// Why a task could not be completed.
#[derive(Debug)]
pub enum AgentError {
    Llm(LlmError),
    Plugin(PluginError),
    MaxLoopsExceeded(u32),
    StepTimeout,
    UserCancelled,
    Other(String),
}

/// The text of an agent error.
pub open spec fn agent_error_text(e: AgentError) -> Seq<char> {
    match e {
        AgentError::Llm(l) => "LLM error: "@ + llm_error_text(l),
        AgentError::Plugin(p) => "Plugin error: "@ + plugin_error_text(p),
        AgentError::MaxLoopsExceeded(n) => "Max loops ("@ + decimal_text(n as nat) + ") exceeded"@,
        AgentError::StepTimeout => "Step timeout"@,
        AgentError::UserCancelled => "User cancelled"@,
        AgentError::Other(m) => m@,
    }
}

impl AgentError {
    /// The error as displayed.
    pub fn to_string(&self) -> (s: String)
        ensures
            s@ == agent_error_text(*self),
    {
        match self {
            AgentError::Llm(l) => concat("LLM error: ", l.to_string().as_str()),
            AgentError::Plugin(p) => concat("Plugin error: ", p.to_string().as_str()),
            AgentError::MaxLoopsExceeded(n) => {
                let mut s = concat("Max loops (", u64_text(*n as u64).as_str());
                s.append(") exceeded");
                s
            },
            AgentError::StepTimeout => "Step timeout".to_owned_string(),
            AgentError::UserCancelled => "User cancelled".to_owned_string(),
            AgentError::Other(m) => m.clone(),
        }
    }
}

// ---------------------------------------------------------------------------
// Risk
// ---------------------------------------------------------------------------

/// Whether `pattern` is a regular expression that the `regex` crate accepts.
pub uninterp spec fn regex_valid(pattern: Seq<char>) -> bool;

/// Whether the regular expression `pattern` matches somewhere in `text`.
pub uninterp spec fn regex_match(pattern: Seq<char>, text: Seq<char>) -> bool;

/// Calls `regex::Regex::new`: whether the pattern compiles. Claims the answer
/// is a function of the pattern alone.
#[verifier::external_body]
fn regex_compiles(pattern: &str) -> (b: bool)
    ensures
        b == regex_valid(pattern@),
{
    regex::Regex::new(pattern).is_ok()
}

/// Calls `Regex::is_match` on the compiled pattern. Claims the answer is a
/// function of the pattern and the text alone.
#[verifier::external_body]
fn regex_is_match(pattern: &str, text: &str) -> (b: bool)
    requires
        regex_valid(pattern@),
    ensures
        b == regex_match(pattern@, text@),
{
    regex::Regex::new(pattern).map(|re| re.is_match(text)).unwrap_or(false)
}

/// A pattern for the call's tool matches the JSON text of its arguments.
pub open spec fn risky_under(ps: Seq<(Seq<char>, Seq<char>)>, tool_name: Seq<char>, arguments: JsonV) -> bool {
    exists|i: int| 0 <= i < ps.len() && #[trigger] ps[i].0 == tool_name && regex_match(ps[i].1, json_text(arguments))
}

/// Checks tool calls against the configured risky patterns.
pub struct RiskChecker {
    patterns: Vec<(String, String)>,
}

/// The patterns, tool and expression, that compile, in order.
pub open spec fn valid_patterns(ps: Seq<RiskyPattern>) -> Seq<(Seq<char>, Seq<char>)>
    decreases ps.len(),
{
    if ps.len() == 0 {
        Seq::empty()
    } else {
        valid_patterns(ps.drop_last()) + if regex_valid(ps.last().pattern@) {
            seq![(ps.last().tool@, ps.last().pattern@)]
        } else {
            Seq::empty()
        }
    }
}

impl RiskChecker {
    /// The patterns kept, tool and expression.
    pub closed spec fn patterns(&self) -> Seq<(Seq<char>, Seq<char>)> {
        self.patterns@.map_values(|p: (String, String)| (p.0@, p.1@))
    }

    /// A checker of the configured patterns; those that do not compile are left out.
    pub fn new(config: &AgentConfig) -> (c: Self)
        ensures
            c.patterns() == valid_patterns(config.risky_patterns@),
    {
        let ps = &config.risky_patterns;
        let mut patterns: Vec<(String, String)> = Vec::new();
        let mut i: usize = 0;
        while i < ps.len()
            invariant
                i <= ps.len(),
                patterns@.map_values(|p: (String, String)| (p.0@, p.1@)) == valid_patterns(ps@.subrange(0, i as int)),
            decreases ps.len() - i,
        {
            let ghost cur = ps@.subrange(0, i + 1);
            assert(cur.drop_last() =~= ps@.subrange(0, i as int));
            let ghost before = patterns@.map_values(|p: (String, String)| (p.0@, p.1@));
            if regex_compiles(ps[i].pattern.as_str()) {
                patterns.push((ps[i].tool.clone(), ps[i].pattern.clone()));
                assert(patterns@.map_values(|p: (String, String)| (p.0@, p.1@)) =~= before.push(
                    (ps@[i as int].tool@, ps@[i as int].pattern@),
                ));
            } else {
                assert(before + Seq::<(Seq<char>, Seq<char>)>::empty() =~= before);
            }
            i = i + 1;
        }
        assert(ps@.subrange(0, i as int) =~= ps@);
        RiskChecker { patterns }
    }

    /// A call is risky when a pattern for its tool matches the JSON text of its arguments.
    pub open spec fn risky(&self, tool_name: Seq<char>, arguments: JsonV) -> bool {
        risky_under(self.patterns(), tool_name, arguments)
    }

    /// Whether a call is risky.
    pub fn is_risky(&self, tool_name: &str, arguments: &Json) -> (b: bool)
        requires
            forall|i: int| 0 <= i < self.patterns().len() ==> regex_valid(#[trigger] self.patterns()[i].1),
        ensures
            b == self.risky(tool_name@, arguments@),
    {
        let args_str = to_json_text(arguments);
        let mut i: usize = 0;
        while i < self.patterns.len()
            invariant
                i <= self.patterns.len(),
                args_str@ == json_text(arguments@),
                forall|k: int| 0 <= k < self.patterns().len() ==> regex_valid(#[trigger] self.patterns()[k].1),
                forall|k: int|
                    0 <= k < i ==> !(#[trigger] self.patterns()[k].0 == tool_name@ && regex_match(
                        self.patterns()[k].1,
                        json_text(arguments@),
                    )),
            decreases self.patterns.len() - i,
        {
            assert(self.patterns()[i as int] == (self.patterns@[i as int].0@, self.patterns@[i as int].1@));
            assert(regex_valid(self.patterns()[i as int].1));
            if str_eq(self.patterns[i].0.as_str(), tool_name) {
                if regex_is_match(self.patterns[i].1.as_str(), args_str.as_str()) {
                    assert(self.patterns()[i as int].0 == tool_name@ && regex_match(
                        self.patterns()[i as int].1,
                        json_text(arguments@),
                    ));
                    return true;
                }
            }
            i = i + 1;
        }
        false
    }
}

/// Every pattern a checker keeps compiles.
pub proof fn law_risk_patterns_compile(ps: Seq<RiskyPattern>, i: int)
    requires
        0 <= i < valid_patterns(ps).len(),
    ensures
        regex_valid(valid_patterns(ps)[i].1),
    decreases ps.len(),
{
    if ps.len() > 0 {
        let prev = valid_patterns(ps.drop_last());
        if i < prev.len() {
            assert(valid_patterns(ps)[i] == prev[i]);
            law_risk_patterns_compile(ps.drop_last(), i);
        }
    }
}

/// The patterns a checker keeps are the configured ones that compile, in
/// order: none is dropped, and none is added.
pub proof fn law_risk_patterns_kept(ps: Seq<RiskyPattern>)
    ensures
        valid_patterns(ps) == ps.filter(|p: RiskyPattern| regex_valid(p.pattern@)).map_values(
            |p: RiskyPattern| (p.tool@, p.pattern@),
        ),
        forall|i: int|
            0 <= i < ps.len() && regex_valid(ps[i].pattern@) ==> valid_patterns(ps).contains(
                (#[trigger] ps[i].tool@, ps[i].pattern@),
            ),
        forall|j: int|
            0 <= j < valid_patterns(ps).len() ==> exists|i: int|
                0 <= i < ps.len() && regex_valid(ps[i].pattern@) && #[trigger] valid_patterns(ps)[j] == (
                    ps[i].tool@,
                    ps[i].pattern@,
                ),
    decreases ps.len(),
{
    reveal(Seq::filter);
    let pred = |p: RiskyPattern| regex_valid(p.pattern@);
    let f = |p: RiskyPattern| (p.tool@, p.pattern@);
    if ps.len() > 0 {
        let prev = ps.drop_last();
        law_risk_patterns_kept(prev);
        let vp = valid_patterns(ps);
        let vq = valid_patterns(prev);
        let fq = prev.filter(pred);
        if pred(ps.last()) {
            assert(ps.filter(pred) == fq.push(ps.last()));
            assert(fq.push(ps.last()).map_values(f) =~= fq.map_values(f).push(f(ps.last())));
            assert(vp =~= vq.push(f(ps.last())));
        } else {
            assert(ps.filter(pred) == fq);
            assert(vp =~= vq);
        }
        assert forall|i: int| 0 <= i < ps.len() && regex_valid(ps[i].pattern@) implies vp.contains(
            (#[trigger] ps[i].tool@, ps[i].pattern@),
        ) by {
            if i == ps.len() - 1 {
                assert(vp[vp.len() - 1] == (ps[i].tool@, ps[i].pattern@));
            } else {
                assert(prev[i] == ps[i]);
                assert(vq.contains((prev[i].tool@, prev[i].pattern@)));
                let j = choose|j: int| 0 <= j < vq.len() && vq[j] == (prev[i].tool@, prev[i].pattern@);
                assert(vp[j] == vq[j]);
            }
        }
        assert forall|j: int| 0 <= j < vp.len() implies exists|i: int|
            0 <= i < ps.len() && regex_valid(ps[i].pattern@) && #[trigger] vp[j] == (ps[i].tool@, ps[i].pattern@) by {
            if j < vq.len() {
                assert(vp[j] == vq[j]);
                let i = choose|i: int|
                    0 <= i < prev.len() && regex_valid(prev[i].pattern@) && #[trigger] vq[j] == (
                        prev[i].tool@,
                        prev[i].pattern@,
                    );
                assert(prev[i] == ps[i]);
            } else {
                assert(ps[ps.len() - 1] == ps.last());
            }
        }
    } else {
        assert(valid_patterns(ps) =~= ps.filter(pred).map_values(f));
    }
}

/// A call is flagged by a checker made from configured patterns exactly when
/// some configured pattern that compiles names the call's tool and matches the
/// JSON text of its arguments.
pub proof fn law_risky_means_some_pattern_matches(ps: Seq<RiskyPattern>, tool_name: Seq<char>, arguments: JsonV)
    ensures
        risky_under(valid_patterns(ps), tool_name, arguments) <==> exists|i: int|
            0 <= i < ps.len() && #[trigger] ps[i].tool@ == tool_name && regex_valid(ps[i].pattern@) && regex_match(
                ps[i].pattern@,
                json_text(arguments),
            ),
{
    law_risk_patterns_kept(ps);
    let vp = valid_patterns(ps);
    if risky_under(vp, tool_name, arguments) {
        let j = choose|j: int| 0 <= j < vp.len() && #[trigger] vp[j].0 == tool_name && regex_match(vp[j].1, json_text(arguments));
        let i = choose|i: int|
            0 <= i < ps.len() && regex_valid(ps[i].pattern@) && #[trigger] vp[j] == (ps[i].tool@, ps[i].pattern@);
        assert(ps[i].tool@ == tool_name);
    }
    if exists|i: int|
        0 <= i < ps.len() && #[trigger] ps[i].tool@ == tool_name && regex_valid(ps[i].pattern@) && regex_match(
            ps[i].pattern@,
            json_text(arguments),
        ) {
        let i = choose|i: int|
            0 <= i < ps.len() && #[trigger] ps[i].tool@ == tool_name && regex_valid(ps[i].pattern@) && regex_match(
                ps[i].pattern@,
                json_text(arguments),
            );
        assert(vp.contains((ps[i].tool@, ps[i].pattern@)));
        let j = choose|j: int| 0 <= j < vp.len() && vp[j] == (ps[i].tool@, ps[i].pattern@);
        assert(vp[j].0 == tool_name);
    }
}

// ---------------------------------------------------------------------------
// Token estimates
// ---------------------------------------------------------------------------

/// The estimate for tool calls: a quarter of each name's bytes, plus 50 each.
pub open spec fn calls_tokens(cs: Seq<ToolCall>) -> int
    decreases cs.len(),
{
    if cs.len() == 0 {
        0
    } else {
        calls_tokens(cs.drop_last()) + (utf8_len(cs.last().name@) / 4) as int + 50
    }
}

/// The estimate for one message: a quarter of its text's bytes (one token is
/// about four bytes).
pub open spec fn message_tokens(m: Message) -> int {
    match m {
        Message::System { content } => (utf8_len(content@) / 4) as int,
        Message::User { content } => (utf8_len(content@) / 4) as int,
        Message::Assistant { content } => (utf8_len(content@) / 4) as int,
        Message::AssistantToolCalls { tool_calls, content } => calls_tokens(tool_calls@) + match content {
            Some(t) => (utf8_len(t@) / 4) as int,
            None => 0int,
        },
        Message::ToolResult { result, .. } => (utf8_len(result@) / 4) as int,
    }
}

/// The estimate for a conversation.
pub open spec fn total_tokens(ms: Seq<Message>) -> int
    decreases ms.len(),
{
    if ms.len() == 0 {
        0
    } else {
        total_tokens(ms.drop_last()) + message_tokens(ms.last())
    }
}

/// Estimates only grow as messages are added.
proof fn lemma_total_tokens_prefix(ms: Seq<Message>, i: int)
    requires
        0 <= i <= ms.len(),
    ensures
        0 <= total_tokens(ms.subrange(0, i)) <= total_tokens(ms),
    decreases ms.len() - i,
{
    if i < ms.len() {
        lemma_total_tokens_prefix(ms, i + 1);
        let s = ms.subrange(0, i + 1);
        assert(s.drop_last() =~= ms.subrange(0, i));
        lemma_calls_tokens_nonneg(s.last());
        lemma_total_tokens_nonneg(ms.subrange(0, i));
        assert(total_tokens(s) == total_tokens(s.drop_last()) + message_tokens(s.last()));
    } else {
        assert(ms.subrange(0, i) =~= ms);
        lemma_total_tokens_nonneg(ms);
    }
}

/// Estimates are not negative.
proof fn lemma_total_tokens_nonneg(ms: Seq<Message>)
    ensures
        total_tokens(ms) >= 0,
    decreases ms.len(),
{
    if ms.len() > 0 {
        lemma_total_tokens_nonneg(ms.drop_last());
        lemma_calls_tokens_nonneg(ms.last());
    }
}

/// A message's estimate is not negative.
proof fn lemma_calls_tokens_nonneg(m: Message)
    ensures
        message_tokens(m) >= 0,
{
    if let Message::AssistantToolCalls { tool_calls, .. } = m {
        lemma_calls_nonneg(tool_calls@);
    }
}

/// The estimate for tool calls is not negative, and grows with them.
proof fn lemma_calls_nonneg(cs: Seq<ToolCall>)
    ensures
        calls_tokens(cs) >= 0,
        forall|i: int| 0 <= i <= cs.len() ==> #[trigger] calls_tokens(cs.subrange(0, i)) <= calls_tokens(cs),
    decreases cs.len(),
{
    if cs.len() > 0 {
        lemma_calls_nonneg(cs.drop_last());
        assert forall|i: int| 0 <= i <= cs.len() implies #[trigger] calls_tokens(cs.subrange(0, i)) <= calls_tokens(
            cs,
        ) by {
            if i == cs.len() {
                assert(cs.subrange(0, i) =~= cs);
            } else {
                assert(cs.subrange(0, i) =~= cs.drop_last().subrange(0, i));
            }
        }
    } else {
        assert forall|i: int| 0 <= i <= cs.len() implies #[trigger] calls_tokens(cs.subrange(0, i)) <= calls_tokens(
            cs,
        ) by {
            assert(cs.subrange(0, i) =~= cs);
        }
    }
}

/// The estimate for one message.
fn message_tokens_exec(m: &Message) -> (n: usize)
    requires
        message_tokens(*m) <= usize::MAX,
    ensures
        n == message_tokens(*m),
{
    match m {
        Message::System { content } => byte_len(content.as_str()) / 4,
        Message::User { content } => byte_len(content.as_str()) / 4,
        Message::Assistant { content } => byte_len(content.as_str()) / 4,
        Message::AssistantToolCalls { tool_calls, content } => {
            proof {
                lemma_calls_nonneg(tool_calls@);
            }
            let mut calls: usize = 0;
            let mut i: usize = 0;
            while i < tool_calls.len()
                invariant
                    i <= tool_calls.len(),
                    calls == calls_tokens(tool_calls@.subrange(0, i as int)),
                    calls_tokens(tool_calls@) <= usize::MAX,
                    forall|k: int| 0 <= k <= tool_calls@.len() ==> #[trigger] calls_tokens(tool_calls@.subrange(0, k)) <= calls_tokens(tool_calls@),
                decreases tool_calls.len() - i,
            {
                let ghost s = tool_calls@.subrange(0, i + 1);
                assert(s.drop_last() =~= tool_calls@.subrange(0, i as int));
                assert(calls_tokens(s) <= calls_tokens(tool_calls@));
                calls = calls + byte_len(tool_calls[i].name.as_str()) / 4 + 50;
                i = i + 1;
            }
            assert(tool_calls@.subrange(0, i as int) =~= tool_calls@);
            let text = match content {
                Some(t) => byte_len(t.as_str()) / 4,
                None => 0,
            };
            calls + text
        },
        Message::ToolResult { result, .. } => byte_len(result.as_str()) / 4,
    }
}

/// Estimates the tokens of a conversation (one token is about four bytes of
/// text; each tool call counts a quarter of its name plus 50).
pub fn estimate_tokens(messages: &[Message]) -> (n: usize)
    requires
        total_tokens(messages@) <= usize::MAX,
    ensures
        n == total_tokens(messages@),
{
    let mut total: usize = 0;
    let mut i: usize = 0;
    while i < messages.len()
        invariant
            i <= messages.len(),
            total == total_tokens(messages@.subrange(0, i as int)),
            total_tokens(messages@) <= usize::MAX,
        decreases messages.len() - i,
    {
        let ghost s = messages@.subrange(0, i + 1);
        assert(s.drop_last() =~= messages@.subrange(0, i as int));
        proof {
            lemma_total_tokens_prefix(messages@, i + 1);
            lemma_total_tokens_prefix(messages@, i as int);
            lemma_calls_tokens_nonneg(messages@[i as int]);
        }
        let t = message_tokens_exec(&messages[i]);
        total = total + t;
        i = i + 1;
    }
    assert(messages@.subrange(0, i as int) =~= messages@);
    total
}

// ---------------------------------------------------------------------------
// The system prompt
// ---------------------------------------------------------------------------

/// The fixed opening of the system prompt: who the agent is and how it works.
pub const BASE_PROMPT: &'static str = "你是 xuanji，一个自动化任务执行助手。\n\n## 你的工作方式\n1. 理解用户目标，将其拆解为可执行的子任务\n2. 按顺序调用工具来完成每个子任务\n3. 观察工具返回的结果，决定下一步\n4. 所有子任务完成后，总结结果\n\n## 规则\n- 每次只调用必要的工具，不要做多余操作\n- 如果工具调用失败，分析原因并尝试替代方案\n- 如果信息不足以完成任务，向用户提问\n- 完成后给出简洁的执行总结\n";

/// The instructions for calling tools in text.
pub const TEXT_TOOL_FORMAT: &'static str = "\n## 工具调用格式（必须严格遵守）\n当你需要执行任何操作时，必须使用以下格式调用工具。每次只调用一个工具。\n不要用markdown代码块包裹，直接输出：\n\nACTION: shell.run\nPARAMS: {\"command\": \"你要执行的命令\"}\n\n等待工具返回结果后，再决定下一步操作。\n当所有子任务完成后，直接输出总结文本，不要再用 ACTION 格式。\n\n## 示例\n用户: 列出当前目录的文件\nACTION: shell.run\nPARAMS: {\"command\": \"ls -la\"}\n\n## 重要\n- 不要询问用户，直接开始执行\n- 不要解释你要做什么，直接调用工具\n- 每一步都必须使用 ACTION/PARAMS 格式\n";

/// The line describing a tool.
pub open spec fn tool_line(t: ToolSchema, text_tool_mode: bool) -> Seq<char> {
    if text_tool_mode {
        "- **"@ + t.name@ + "**: "@ + t.description@ + "\n  参数schema: "@ + json_text(t.input_schema@) + "\n"@
    } else {
        "- **"@ + t.name@ + "**: "@ + t.description@ + "\n"@
    }
}

/// The lines describing tools, in order.
pub open spec fn tool_lines(ts: Seq<ToolSchema>, text_tool_mode: bool) -> Seq<char>
    decreases ts.len(),
{
    if ts.len() == 0 {
        Seq::empty()
    } else {
        tool_lines(ts.drop_last(), text_tool_mode) + tool_line(ts.last(), text_tool_mode)
    }
}

/// The tools section of the system prompt: nothing without tools; else the
/// tool lines, followed in text mode by the format for calling them.
pub open spec fn tools_section(tools: Seq<ToolSchema>, text_tool_mode: bool) -> Seq<char> {
    if tools.len() == 0 {
        Seq::empty()
    } else if text_tool_mode {
        "\n## 可用工具\n"@ + tool_lines(tools, true) + TEXT_TOOL_FORMAT@
    } else {
        "\n## 可用工具\n"@ + tool_lines(tools, false)
    }
}

/// The system prompt: the fixed opening; the tools (with the format for
/// calling them in text, in text mode), when there are any; the working
/// memory; the project knowledge; and messages from other agents.
pub open spec fn system_prompt(
    tools: Seq<ToolSchema>,
    working: Option<WorkingMemory>,
    memory_context: Option<Seq<char>>,
    text_tool_mode: bool,
    bus: Option<Seq<KnowledgeMessage>>,
) -> Seq<char> {
    let working_part = match working {
        Some(w) => "\n"@ + join(working_lines(w), "\n\n"@) + "\n"@,
        None => Seq::empty(),
    };
    let context_part = match memory_context {
        Some(c) => "\n## 项目知识\n"@ + c + "\n"@,
        None => Seq::empty(),
    };
    let bus_part = match bus {
        Some(ms) => if ms.len() > 0 {
            formatted_messages(ms)
        } else {
            Seq::empty()
        },
        None => Seq::empty(),
    };
    BASE_PROMPT@ + tools_section(tools, text_tool_mode) + working_part + context_part + bus_part
}

/// The tools section of the system prompt.
fn tools_section_text(tools: &[ToolSchema], text_tool_mode: bool) -> (r: String)
    ensures
        r@ == tools_section(tools@, text_tool_mode),
{
    if tools.len() == 0 {
        return String::new();
    }
    let mut out = "\n## 可用工具\n".to_owned_string();
    let ghost head = out@;
    let mut i: usize = 0;
    while i < tools.len()
        invariant
            i <= tools.len(),
            out@ == head + tool_lines(tools@.subrange(0, i as int), text_tool_mode),
        decreases tools.len() - i,
    {
        let t = &tools[i];
        out.append("- **");
        out.append(t.name.as_str());
        out.append("**: ");
        out.append(t.description.as_str());
        if text_tool_mode {
            out.append("\n  参数schema: ");
            out.append(to_json_text(&t.input_schema).as_str());
            out.append("\n");
        } else {
            out.append("\n");
        }
        let ghost s = tools@.subrange(0, i + 1);
        assert(s.drop_last() =~= tools@.subrange(0, i as int));
        i = i + 1;
    }
    assert(tools@.subrange(0, i as int) =~= tools@);
    if text_tool_mode {
        out.append(TEXT_TOOL_FORMAT);
    }
    out
}

/// Builds the system prompt.
#[verifier::rlimit(50)]
#[verifier::spinoff_prover]
pub fn build_system_prompt(
    tools: &[ToolSchema],
    working_memory: Option<&WorkingMemory>,
    memory_context: Option<&str>,
    text_tool_mode: bool,
    bus_messages: Option<&[KnowledgeMessage]>,
) -> (r: String)
    ensures
        r@ == system_prompt(
            tools@,
            match working_memory {
                Some(w) => Some(*w),
                None => None,
            },
            match memory_context {
                Some(c) => Some(c@),
                None => None,
            },
            text_tool_mode,
            match bus_messages {
                Some(ms) => Some(ms@),
                None => None,
            },
        ),
{
    let mut prompt = BASE_PROMPT.to_owned_string();
    prompt.append(tools_section_text(tools, text_tool_mode).as_str());
    match working_memory {
        Some(wm) => {
            prompt.append("\n");
            prompt.append(wm.to_prompt_context().as_str());
            prompt.append("\n");
        },
        None => {},
    }
    match memory_context {
        Some(ctx) => {
            prompt.append("\n## 项目知识\n");
            prompt.append(ctx);
            prompt.append("\n");
        },
        None => {},
    }
    match bus_messages {
        Some(ms) => {
            if ms.len() > 0 {
                prompt.append(KnowledgeBus::format_messages(ms).as_str());
            }
        },
        None => {},
    }
    prompt
}

// ---------------------------------------------------------------------------
// The reasoning loop
// ---------------------------------------------------------------------------

/// What the agent does after a model response: give its final answer, or
/// call tools and wait for their results.
#[derive(Debug)]
pub enum AgentStep {
    Finish(String),
    CallTools(Vec<ToolCall>),
}

/// The outcome of a tool call as the agent records it: the text of its
/// content blocks (nothing when the content is not an array), successful
/// unless the tool reported an error; or the error's text.
pub open spec fn tool_outcome_text(outcome: Result<McpToolResult, PluginError>) -> (Seq<char>, bool) {
    match outcome {
        Ok(r) => (content_text(r.content@, Seq::empty()), !r.is_error),
        Err(e) => ("Error: "@ + plugin_error_text(e), false),
    }
}

/// The result of a tool call.
pub fn tool_result(call: &ToolCall, outcome: Result<McpToolResult, PluginError>) -> (r: ToolResult)
    ensures
        r.tool_call_id@ == call.id@,
        r.tool_name@ == call.name@,
        (r.result@, r.success) == tool_outcome_text(outcome),
{
    match outcome {
        Ok(m) => {
            let text = match blocks_text(&m.content) {
                Some(t) => t,
                None => String::new(),
            };
            ToolResult { tool_call_id: call.id.clone(), tool_name: call.name.clone(), result: text, success: !m.is_error }
        },
        Err(e) => ToolResult {
            tool_call_id: call.id.clone(),
            tool_name: call.name.clone(),
            result: concat("Error: ", e.to_string().as_str()),
            success: false,
        },
    }
}

/// The message that feeds a tool's result back to the model: a user message
/// in text mode, a tool result message otherwise.
pub open spec fn result_message(r: ToolResult, text_tool_mode: bool) -> MessageV {
    if text_tool_mode {
        MessageV::User {
            content: "工具 "@ + r.tool_name@ + if r.success {
                " 执行成功:\n"@
            } else {
                " 执行失败:\n"@
            } + r.result@,
        }
    } else {
        MessageV::ToolResult {
            tool_call_id: r.tool_call_id@,
            tool_name: r.tool_name@,
            result: r.result@,
            success: r.success,
        }
    }
}

/// The messages a history holds after messages are pushed one by one, each
/// push compressing the history when it is over its limit.
pub open spec fn pushed_all(h: Seq<MessageV>, ms: Seq<MessageV>, cfg: MemoryConfig) -> Seq<MessageV>
    decreases ms.len(),
{
    if ms.len() == 0 {
        h
    } else {
        compressed_views(pushed_all(h, ms.drop_last(), cfg).push(ms.last()), cfg)
    }
}

/// Compression of a history of message models.
pub open spec fn compressed_views(ms: Seq<MessageV>, cfg: MemoryConfig) -> Seq<MessageV> {
    if ms.len() <= cfg.max_history || ms.len() <= 2 + cfg.max_context_turns {
        ms
    } else {
        ms.subrange(0, 2) + ms.subrange(ms.len() - cfg.max_context_turns, ms.len() as int)
    }
}

/// The models of the messages of a compressed history are the compressed models.
proof fn lemma_compressed_views(ms: Seq<Message>, cfg: MemoryConfig)
    ensures
        msg_views(compressed(ms, cfg)) == compressed_views(msg_views(ms), cfg),
{
    if !(ms.len() <= cfg.max_history || ms.len() <= 2 + cfg.max_context_turns) {
        assert(msg_views(compressed(ms, cfg)) =~= compressed_views(msg_views(ms), cfg));
    }
}

/// A task in progress: the conversation so far, the working memory of its
/// goal, and how many model calls it has made.
pub struct AgentRun {
    config: AgentConfig,
    tools: Vec<ToolSchema>,
    risk_checker: RiskChecker,
    short_term: ShortTermMemory,
    working: WorkingMemory,
    loop_count: u32,
}

impl AgentRun {
    /// The conversation so far.
    pub closed spec fn history(&self) -> Seq<MessageV> {
        msg_views(self.short_term.history())
    }

    /// The limits of the conversation history.
    pub closed spec fn memory_limits(&self) -> MemoryConfig {
        self.short_term.limits()
    }

    /// The model calls made so far.
    pub closed spec fn loops(&self) -> u32 {
        self.loop_count
    }

    /// The most model calls allowed.
    pub closed spec fn max_loops(&self) -> u32 {
        self.config.max_loops
    }

    /// Whether tools are called in text.
    pub closed spec fn text_mode(&self) -> bool {
        self.config.text_tool_mode
    }

    /// The tools available.
    pub closed spec fn tools(&self) -> Seq<ToolSchema> {
        self.tools@
    }

    /// Whether risky calls are flagged.
    pub closed spec fn confirms_risky(&self) -> bool {
        self.config.confirm_risky
    }

    /// The risk patterns that compile, tool and expression.
    pub closed spec fn risk_patterns(&self) -> Seq<(Seq<char>, Seq<char>)> {
        self.risk_checker.patterns()
    }

    /// The working memory.
    pub closed spec fn working(&self) -> WorkingMemory {
        self.working
    }

    /// The run's limits allow its history to be pushed to and its risk patterns compile.
    pub closed spec fn wf(&self) -> bool {
        &&& self.short_term.limits().max_context_turns <= usize::MAX - 2
        &&& self.short_term.limits() == MemoryConfig { max_history: 100, max_context_turns: 20 }
        &&& forall|i: int| 0 <= i < self.risk_checker.patterns().len() ==> regex_valid(#[trigger] self.risk_checker.patterns()[i].1)
    }

    /// Starts a task: the system prompt (with the task as the working
    /// memory's goal) and the task itself open the conversation.
    pub fn start(config: AgentConfig, tools: Vec<ToolSchema>, user_input: String) -> (run: AgentRun)
        ensures
            run.wf(),
            run.loops() == 0,
            run.max_loops() == config.max_loops,
            run.text_mode() == config.text_tool_mode,
            run.tools() == tools@,
            run.confirms_risky() == config.confirm_risky,
            run.risk_patterns() == valid_patterns(config.risky_patterns@),
            run.working().goal matches Some(g) && g@ == user_input@,
            run.history() == seq![
                MessageV::System {
                    content: system_prompt(tools@, Some(run.working()), None, config.text_tool_mode, None),
                },
                MessageV::User { content: user_input@ },
            ],
    {
        let risk_checker = RiskChecker::new(&config);
        proof {
            assert forall|i: int| 0 <= i < risk_checker.patterns().len() implies regex_valid(
                #[trigger] risk_checker.patterns()[i].1,
            ) by {
                law_risk_patterns_compile(config.risky_patterns@, i);
            }
        }
        let mut short_term = ShortTermMemory::new(MemoryConfig::default());
        let mut working = WorkingMemory::new();
        working.goal = Some(user_input.clone());
        let prompt = build_system_prompt(tools.as_slice(), Some(&working), None, config.text_tool_mode, None);
        let ghost p = prompt@;
        short_term.push(Message::System { content: prompt });
        short_term.push(Message::User { content: user_input });
        proof {
            assert(short_term.history().len() == 2);
            assert(msg_views(short_term.history()) =~= seq![
                MessageV::System { content: p },
                MessageV::User { content: user_input@ },
            ]);
        }
        AgentRun { config, tools, risk_checker, short_term, working, loop_count: 0 }
    }

    /// The messages of the next model call: a fresh system prompt, then the
    /// conversation after its first message. Refused with `MaxLoopsExceeded`
    /// once the task has made its most calls.
    pub fn next_request(&mut self) -> (r: Result<Vec<Message>, AgentError>)
        requires
            old(self).wf(),
        ensures
            final(self).wf(),
            final(self).history() == old(self).history(),
            final(self).max_loops() == old(self).max_loops(),
            final(self).text_mode() == old(self).text_mode(),
            final(self).tools() == old(self).tools(),
            final(self).working() == old(self).working(),
            match r {
                Err(AgentError::MaxLoopsExceeded(n)) => old(self).loops() >= old(self).max_loops() && n
                    == old(self).max_loops() && final(self).loops() == old(self).loops(),
                Err(_) => false,
                Ok(ms) => old(self).loops() < old(self).max_loops() && final(self).loops() == old(self).loops() + 1
                    && msg_views(ms@) == seq![
                    MessageV::System {
                        content: system_prompt(
                            old(self).tools(),
                            Some(old(self).working()),
                            None,
                            old(self).text_mode(),
                            None,
                        ),
                    },
                ] + if old(self).history().len() > 0 {
                    old(self).history().subrange(1, old(self).history().len() as int)
                } else {
                    Seq::empty()
                },
            },
    {
        if self.loop_count >= self.config.max_loops {
            return Err(AgentError::MaxLoopsExceeded(self.config.max_loops));
        }
        self.loop_count = self.loop_count + 1;
        let prompt = build_system_prompt(self.tools.as_slice(), Some(&self.working), None, self.config.text_tool_mode, None);
        let ghost p = prompt@;
        let mut messages: Vec<Message> = Vec::new();
        messages.push(Message::System { content: prompt });
        let held = self.short_term.messages();
        let mut i: usize = 1;
        let ghost hv = msg_views(held@);
        let ghost tail = if hv.len() > 0 {
            hv.subrange(1, hv.len() as int)
        } else {
            Seq::<MessageV>::empty()
        };
        proof {
            if hv.len() > 0 {
                assert(hv.subrange(1, 1) =~= Seq::<MessageV>::empty());
            }
        }
        while i < held.len()
            invariant
                1 <= i,
                i <= held.len() || held.len() == 0,
                hv == msg_views(held@),
                msg_views(messages@) == seq![MessageV::System { content: p }] + if hv.len() > 0 {
                    hv.subrange(1, i as int)
                } else {
                    Seq::empty()
                },
            decreases held.len() - i,
        {
            let ghost before = msg_views(messages@);
            let m = held[i].duplicate();
            messages.push(m);
            assert(msg_views(messages@) =~= before.push(hv[i as int]));
            assert(hv.subrange(1, i + 1) =~= hv.subrange(1, i as int).push(hv[i as int]));
            i = i + 1;
        }
        proof {
            if hv.len() > 0 {
                assert(i == held.len());
            }
            assert(msg_views(messages@) =~= seq![MessageV::System { content: p }] + tail);
        }
        Ok(messages)
    }

    /// The tools to send with a model call: none in text mode (they are
    /// described in the prompt), else all of them.
    pub fn request_tools(&self) -> (r: Vec<ToolSchema>)
        ensures
            self.text_mode() ==> r@.len() == 0,
            !self.text_mode() ==> r@.len() == self.tools().len() && forall|i: int|
                0 <= i < r@.len() ==> (#[trigger] r@[i]).name@ == self.tools()[i].name@ && r@[i].description@
                    == self.tools()[i].description@ && r@[i].input_schema@ == self.tools()[i].input_schema@,
    {
        let mut r: Vec<ToolSchema> = Vec::new();
        if self.config.text_tool_mode {
            return r;
        }
        let mut i: usize = 0;
        while i < self.tools.len()
            invariant
                i <= self.tools.len(),
                r@.len() == i,
                forall|k: int|
                    0 <= k < i ==> (#[trigger] r@[k]).name@ == self.tools@[k].name@ && r@[k].description@
                        == self.tools@[k].description@ && r@[k].input_schema@ == self.tools@[k].input_schema@,
            decreases self.tools.len() - i,
        {
            let t = &self.tools[i];
            r.push(
                ToolSchema {
                    name: t.name.clone(),
                    description: t.description.clone(),
                    input_schema: t.input_schema.deep_clone(),
                },
            );
            i = i + 1;
        }
        r
    }

    /// Whether a call is flagged as risky: risk checks are on and a pattern
    /// for its tool matches its arguments.
    pub fn is_risky_call(&self, call: &ToolCall) -> (b: bool)
        requires
            self.wf(),
        ensures
            b == (self.confirms_risky() && risky_under(self.risk_patterns(), call.name@, call.arguments@)),
    {
        self.config.confirm_risky && self.risk_checker.is_risky(call.name.as_str(), &call.arguments)
    }

    /// Decides what to do with a model response.
    ///
    /// In text mode, a tool call written in the text (an `ACTION:` block or a
    /// shell code block) is called, with `text-` and the number of the model
    /// call as its id, after the text is recorded as the assistant's message;
    /// a text without one is the final answer. Otherwise the tool calls of the
    /// response are recorded and called, and a plain text is the final answer.
    pub fn on_response(&mut self, response: &LlmResponse) -> (step: AgentStep)
        requires
            old(self).wf(),
        ensures
            final(self).wf(),
            final(self).loops() == old(self).loops(),
            final(self).max_loops() == old(self).max_loops(),
            final(self).text_mode() == old(self).text_mode(),
            final(self).tools() == old(self).tools(),
            final(self).working() == old(self).working(),
            old(self).text_mode() ==> ({
                let content = match response@ {
                    LlmResponseV::Text { content, .. } => content,
                    LlmResponseV::ToolCalls { text, .. } => match text {
                        Some(t) => t,
                        None => Seq::empty(),
                    },
                };
                match text_tool_call(content) {
                    Some(t) => step matches AgentStep::CallTools(calls) && calls_view(calls@) == seq![
                        ToolCallV {
                            id: "text-"@ + decimal_text(old(self).loops() as nat),
                            name: t.tool_name,
                            arguments: t.arguments,
                        },
                    ] && final(self).history() == compressed_views(
                        old(self).history().push(MessageV::Assistant { content }),
                        old(self).memory_limits(),
                    ),
                    None => step matches AgentStep::Finish(s) && s@ == content && final(self).history() == old(self).history(),
                }
            }),
            !old(self).text_mode() ==> match response@ {
                LlmResponseV::ToolCalls { calls, text, .. } => step matches AgentStep::CallTools(cs) && calls_view(cs@)
                    == calls && final(self).history() == compressed_views(
                    old(self).history().push(MessageV::AssistantToolCalls { tool_calls: calls, content: text }),
                    old(self).memory_limits(),
                ),
                LlmResponseV::Text { content, .. } => step matches AgentStep::Finish(s) && s@ == content && final(self).history() == old(self).history(),
            },
    {
        if self.config.text_tool_mode {
            let content = match response.text_content() {
                Some(t) => t.clone(),
                None => String::new(),
            };
            match parse_text_tool_calls(content.as_str()) {
                Some(parsed) => {
                    let ghost cv = content@;
                    let ghost old_ms = self.short_term.history();
                    self.short_term.push(Message::Assistant { content });
                    proof {
                        lemma_compressed_views(old_ms.push(Message::Assistant { content: content }), self.short_term.limits());
                        assert(msg_views(old_ms.push(Message::Assistant { content: content })) =~= msg_views(old_ms).push(
                            MessageV::Assistant { content: cv },
                        ));
                    }
                    let id = concat("text-", u64_text(self.loop_count as u64).as_str());
                    let call = ToolCall { id, name: parsed.tool_name, arguments: parsed.arguments };
                    let mut calls: Vec<ToolCall> = Vec::new();
                    calls.push(call);
                    assert(calls_view(calls@) =~= seq![calls@[0]@]);
                    AgentStep::CallTools(calls)
                },
                None => AgentStep::Finish(content),
            }
        } else {
            match response {
                LlmResponse::ToolCalls { calls, text, .. } => {
                    let recorded = copy_calls(calls.as_slice());
                    let handed = copy_calls(calls.as_slice());
                    let content = match text {
                        Some(t) => Some(t.clone()),
                        None => None,
                    };
                    let msg = Message::AssistantToolCalls { tool_calls: recorded, content };
                    let ghost mv = msg@;
                    let ghost old_ms = self.short_term.history();
                    self.short_term.push(msg);
                    proof {
                        lemma_compressed_views(old_ms.push(msg), self.short_term.limits());
                        assert(msg_views(old_ms.push(msg)) =~= msg_views(old_ms).push(mv));
                    }
                    AgentStep::CallTools(handed)
                },
                LlmResponse::Text { content, .. } => AgentStep::Finish(content.clone()),
            }
        }
    }

    /// Feeds the results of the tools called back into the conversation, in order.
    pub fn on_tool_results(&mut self, results: &[ToolResult])
        requires
            old(self).wf(),
        ensures
            final(self).wf(),
            final(self).loops() == old(self).loops(),
            final(self).max_loops() == old(self).max_loops(),
            final(self).text_mode() == old(self).text_mode(),
            final(self).tools() == old(self).tools(),
            final(self).working() == old(self).working(),
            final(self).history() == pushed_all(
                old(self).history(),
                results@.map_values(|r: ToolResult| result_message(r, old(self).text_mode())),
                old(self).memory_limits(),
            ),
    {
        let ghost mode = self.config.text_tool_mode;
        let ghost h0 = self.history();
        let mut i: usize = 0;
        while i < results.len()
            invariant
                i <= results.len(),
                self.wf(),
                self.loops() == old(self).loops(),
                self.max_loops() == old(self).max_loops(),
                self.text_mode() == mode,
                mode == old(self).text_mode(),
                self.tools() == old(self).tools(),
                self.working() == old(self).working(),
                self.memory_limits() == old(self).memory_limits(),
                h0 == old(self).history(),
                self.history() == pushed_all(
                    h0,
                    results@.subrange(0, i as int).map_values(|r: ToolResult| result_message(r, mode)),
                    old(self).memory_limits(),
                ),
            decreases results.len() - i,
        {
            let r = &results[i];
            let msg = if self.config.text_tool_mode {
                let mut c = concat("工具 ", r.tool_name.as_str());
                if r.success {
                    c.append(" 执行成功:\n");
                } else {
                    c.append(" 执行失败:\n");
                }
                c.append(r.result.as_str());
                Message::User { content: c }
            } else {
                Message::ToolResult {
                    tool_call_id: r.tool_call_id.clone(),
                    tool_name: r.tool_name.clone(),
                    result: r.result.clone(),
                    success: r.success,
                }
            };
            assert(msg@ == result_message(results@[i as int], mode));
            let ghost old_ms = self.short_term.history();
            let ghost mv = msg@;
            self.short_term.push(msg);
            proof {
                lemma_compressed_views(old_ms.push(msg), self.short_term.limits());
                assert(msg_views(old_ms.push(msg)) =~= msg_views(old_ms).push(mv));
                let seqs = results@.subrange(0, i + 1).map_values(|r: ToolResult| result_message(r, mode));
                assert(seqs.drop_last() =~= results@.subrange(0, i as int).map_values(
                    |r: ToolResult| result_message(r, mode),
                ));
                assert(seqs.last() == mv);
            }
            i = i + 1;
        }
        assert(results@.subrange(0, i as int) =~= results@);
    }
}

} // verus!
