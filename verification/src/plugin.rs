//! Tools from MCP servers and built-in functions: their registry, and the
//! JSON-RPC messages exchanged with a server.
use vstd::prelude::*;
use crate::assoc::{keys_distinct, lookup, assoc_insert, has_key, key_index, lemma_lookup, lemma_lookup_insert, find_key};
use crate::json::{
    Json, JsonV, json_text, json_parse, parse_json, to_json_text, fields_get, jv_get, jv_str, jv_bool, decimal_text,
    u64_text, jfield, jstr, json_fields_view,
};
use crate::llm::ToolSchema;
use crate::text::{concat, trim, trim_str, views, ToOwnedString};

verus! {

/// Why a tool could not be reached or run.
#[derive(Debug)]
pub enum PluginError {
    /// The server process could not be started or talked to (the I/O error's text).
    Process(String),
    Protocol(String),
    ServerNotFound(String),
    ToolNotFound(String),
    ExecutionFailed(String),
    /// JSON that could not be read or written (the error's text).
    Json(String),
    Other(String),
}

/// What a tool call returned: its content blocks, and whether the tool reported an error.
#[derive(Debug)]
pub struct McpToolResult {
    pub content: Json,
    pub is_error: bool,
}

/// The text of a plugin error.
pub open spec fn plugin_error_text(e: PluginError) -> Seq<char> {
    match e {
        PluginError::Process(m) => "process error: "@ + m@,
        PluginError::Protocol(m) => "protocol error: "@ + m@,
        PluginError::ServerNotFound(m) => "server not found: "@ + m@,
        PluginError::ToolNotFound(m) => "tool not found: "@ + m@,
        PluginError::ExecutionFailed(m) => "tool execution failed: "@ + m@,
        PluginError::Json(m) => "JSON error: "@ + m@,
        PluginError::Other(m) => m@,
    }
}

impl PluginError {
    /// A copy of this error.
    pub fn copy(&self) -> (r: PluginError)
        ensures
            r == *self,
    {
        match self {
            PluginError::Process(m) => PluginError::Process(m.clone()),
            PluginError::Protocol(m) => PluginError::Protocol(m.clone()),
            PluginError::ServerNotFound(m) => PluginError::ServerNotFound(m.clone()),
            PluginError::ToolNotFound(m) => PluginError::ToolNotFound(m.clone()),
            PluginError::ExecutionFailed(m) => PluginError::ExecutionFailed(m.clone()),
            PluginError::Json(m) => PluginError::Json(m.clone()),
            PluginError::Other(m) => PluginError::Other(m.clone()),
        }
    }

    /// The error as displayed.
    pub fn to_string(&self) -> (s: String)
        ensures
            s@ == plugin_error_text(*self),
    {
        match self {
            PluginError::Process(m) => concat("process error: ", m.as_str()),
            PluginError::Protocol(m) => concat("protocol error: ", m.as_str()),
            PluginError::ServerNotFound(m) => concat("server not found: ", m.as_str()),
            PluginError::ToolNotFound(m) => concat("tool not found: ", m.as_str()),
            PluginError::ExecutionFailed(m) => concat("tool execution failed: ", m.as_str()),
            PluginError::Json(m) => concat("JSON error: ", m.as_str()),
            PluginError::Other(m) => m.clone(),
        }
    }
}

// ---------------------------------------------------------------------------
// Servers and tools
// ---------------------------------------------------------------------------

/// How an MCP server process is started.
#[derive(Debug)]
pub struct McpServerConfig {
    pub name: String,
    pub command: String,
    pub args: Vec<String>,
    /// Environment variables set for the process, each name once.
    pub env: Vec<(String, String)>,
}

/// A tool that a server offers.
#[derive(Debug)]
pub struct McpToolInfo {
    pub name: String,
    pub description: Option<String>,
    pub input_schema: Json,
}

// ---------------------------------------------------------------------------
// JSON-RPC messages
// ---------------------------------------------------------------------------

/// The JSON text of a request (`jsonrpc`, `id`, `method`, then `params` when
/// there are any), as one line.
pub open spec fn request_text(id: u64, method: Seq<char>, params: Option<JsonV>) -> Seq<char> {
    "{\"jsonrpc\":\"2.0\",\"id\":"@ + decimal_text(id as nat) + ",\"method\":"@ + json_text(JsonV::Str(method))
        + match params {
        Some(p) => ",\"params\":"@ + json_text(p),
        None => Seq::empty(),
    } + "}\n"@
}

/// The JSON text of a notification (`jsonrpc`, `method`, then `params` when
/// there are any), as one line.
pub open spec fn notification_text(method: Seq<char>, params: Option<JsonV>) -> Seq<char> {
    "{\"jsonrpc\":\"2.0\",\"method\":"@ + json_text(JsonV::Str(method)) + match params {
        Some(p) => ",\"params\":"@ + json_text(p),
        None => Seq::empty(),
    } + "}\n"@
}

/// The line of a request.
pub fn request_line(id: u64, method: &str, params: Option<&Json>) -> (s: String)
    ensures
        s@ == request_text(
            id,
            method@,
            match params {
                Some(p) => Some(p@),
                None => None,
            },
        ),
{
    let mut s = concat("{\"jsonrpc\":\"2.0\",\"id\":", u64_text(id).as_str());
    s.append(",\"method\":");
    s.append(to_json_text(&Json::Str(method.to_owned_string())).as_str());
    match params {
        Some(p) => {
            s.append(",\"params\":");
            s.append(to_json_text(p).as_str());
        },
        None => {},
    }
    s.append("}\n");
    s
}

/// The line of a notification.
pub fn notification_line(method: &str, params: Option<&Json>) -> (s: String)
    ensures
        s@ == notification_text(
            method@,
            match params {
                Some(p) => Some(p@),
                None => None,
            },
        ),
{
    let mut s = concat("{\"jsonrpc\":\"2.0\",\"method\":", to_json_text(&Json::Str(method.to_owned_string())).as_str());
    match params {
        Some(p) => {
            s.append(",\"params\":");
            s.append(to_json_text(p).as_str());
        },
        None => {},
    }
    s.append("}\n");
    s
}

/// A field that is absent or `null`.
pub open spec fn absent(f: Option<JsonV>) -> bool {
    f is None || f == Some(JsonV::Null)
}

/// A number that reads as an integer in `i64`.
pub open spec fn is_i64_number(f: Option<JsonV>) -> bool {
    match f {
        Some(JsonV::Number(t)) => if t.len() > 0 && t[0] == '-' {
            crate::json::all_digits(t.subrange(1, t.len() as int)) && crate::json::digits_value(
                t.subrange(1, t.len() as int),
            ) <= 0x8000_0000_0000_0000
        } else {
            crate::json::all_digits(t) && crate::json::digits_value(t) <= 0x7fff_ffff_ffff_ffff
        },
        _ => false,
    }
}

/// A JSON-RPC response has the shape the client reads: an object with a
/// string `jsonrpc`, an `id` that is absent, `null` or a `u64`, and an `error`
/// that is absent, `null`, or an object with an `i64` `code` and a string `message`.
pub open spec fn response_shape_ok(v: JsonV) -> bool {
    match v {
        JsonV::Object(fs) => {
            &&& jv_str(fields_get(fs, "jsonrpc"@)) is Some
            &&& absent(fields_get(fs, "id"@)) || crate::json::jv_u64(fields_get(fs, "id"@)) is Some
            &&& absent(fields_get(fs, "error"@)) || (match fields_get(fs, "error"@) {
                Some(JsonV::Object(e)) => is_i64_number(fields_get(e, "code"@)) && jv_str(fields_get(e, "message"@)) is Some,
                _ => false,
            })
        },
        _ => false,
    }
}

/// What a response line gives: the error's text when it is empty, is not
/// JSON, has not the shape of a response or carries an error; else its
/// `result`, which must be there and not `null`.
pub open spec fn response_outcome(line: Seq<char>) -> Result<JsonV, Seq<char>> {
    if trim(line).len() == 0 {
        Err("received empty response from MCP server"@)
    } else {
        match json_parse(line) {
            Err(e) => Err("failed to parse JSON-RPC response: "@ + e),
            Ok(v) => if !response_shape_ok(v) {
                Err("failed to parse JSON-RPC response: invalid JSON-RPC response"@)
            } else {
                let fs = v->Object_0;
                if !absent(fields_get(fs, "error"@)) {
                    Err("JSON-RPC error: "@ + jv_str(fields_get(fields_get(fs, "error"@)->Some_0->Object_0, "message"@))->Some_0)
                } else if absent(fields_get(fs, "result"@)) {
                    Err("JSON-RPC response missing result field"@)
                } else {
                    Ok(fields_get(fs, "result"@)->Some_0)
                }
            },
        }
    }
}

/// Whether a field is absent or `null`.
fn is_absent(f: Option<&Json>) -> (b: bool)
    ensures
        b == absent(
            match f {
                Some(x) => Some(x@),
                None => None,
            },
        ),
{
    match f {
        None => true,
        Some(Json::Null) => true,
        Some(_) => false,
    }
}

/// Whether a field is a number that reads as an `i64`.
fn is_i64_field(f: Option<&Json>) -> (b: bool)
    ensures
        b == is_i64_number(
            match f {
                Some(x) => Some(x@),
                None => None,
            },
        ),
{
    match f {
        Some(Json::Number(t)) => {
            let v = crate::text::chars_of(t.as_str());
            if v.len() > 0 && v[0] == '-' {
                let rest = crate::text::string_of(&v, 1, v.len());
                match crate::json::digits_to_u64(rest.as_str()) {
                    Some(n) => n <= 0x8000_0000_0000_0000u64,
                    None => false,
                }
            } else {
                match crate::json::digits_to_u64(t.as_str()) {
                    Some(n) => n <= 0x7fff_ffff_ffff_ffffu64,
                    None => false,
                }
            }
        },
        _ => false,
    }
}

/// Whether a response has the shape the client reads.
fn response_shape(v: &Json) -> (b: bool)
    ensures
        b == response_shape_ok(v@),
{
    match v {
        Json::Object(_) => {
            let jr = match v.get("jsonrpc") {
                Some(x) => x.as_str().is_some(),
                None => false,
            };
            let id_ok = is_absent(v.get("id")) || match v.get("id") {
                Some(x) => x.as_u64().is_some(),
                None => false,
            };
            let err_ok = is_absent(v.get("error")) || match v.get("error") {
                Some(e) => match e {
                    Json::Object(_) => is_i64_field(e.get("code")) && match e.get("message") {
                        Some(m) => m.as_str().is_some(),
                        None => false,
                    },
                    _ => false,
                },
                None => false,
            };
            jr && id_ok && err_ok
        },
        _ => false,
    }
}

/// Reads a response line: its result, or the error it stands for.
pub fn read_response(line: &str) -> (r: Result<Json, PluginError>)
    ensures
        match r {
            Ok(v) => response_outcome(line@) == Ok::<JsonV, Seq<char>>(v@),
            Err(PluginError::Protocol(m)) => response_outcome(line@) == Err::<JsonV, Seq<char>>(m@),
            Err(_) => false,
        },
{
    let t = trim_str(line);
    if t.as_str().is_empty() {
        return Err(PluginError::Protocol("received empty response from MCP server".to_owned_string()));
    }
    let v = match parse_json(line) {
        Ok(v) => v,
        Err(e) => {
            return Err(PluginError::Protocol(concat("failed to parse JSON-RPC response: ", e.as_str())));
        },
    };
    if !response_shape(&v) {
        return Err(PluginError::Protocol("failed to parse JSON-RPC response: invalid JSON-RPC response".to_owned_string()));
    }
    if !is_absent(v.get("error")) {
        let msg = match v.get("error") {
            Some(e) => match e.get("message") {
                Some(m) => match m.as_str() {
                    Some(s) => s.clone(),
                    None => String::new(),
                },
                None => String::new(),
            },
            None => String::new(),
        };
        return Err(PluginError::Protocol(concat("JSON-RPC error: ", msg.as_str())));
    }
    match v.get("result") {
        Some(x) => {
            if is_absent(Some(x)) {
                Err(PluginError::Protocol("JSON-RPC response missing result field".to_owned_string()))
            } else {
                Ok(x.deep_clone())
            }
        },
        None => Err(PluginError::Protocol("JSON-RPC response missing result field".to_owned_string())),
    }
}

/// The parameters of the `initialize` request.
pub open spec fn initialize_params(version: Seq<char>) -> JsonV {
    JsonV::Object(
        seq![
            ("protocolVersion"@, JsonV::Str("2024-11-05"@)),
            ("capabilities"@, JsonV::Object(Seq::empty())),
            ("clientInfo"@, JsonV::Object(seq![("name"@, JsonV::Str("xuanji"@)), ("version"@, JsonV::Str(version))])),
        ],
    )
}

/// The parameters of the `initialize` request, naming the client's version.
pub fn initialize_request_params(version: &str) -> (r: Json)
    ensures
        r@ == initialize_params(version@),
{
    let mut info: Vec<(String, Json)> = Vec::new();
    jfield(&mut info, "name", jstr("xuanji"));
    jfield(&mut info, "version", jstr(version));
    let mut fs: Vec<(String, Json)> = Vec::new();
    jfield(&mut fs, "protocolVersion", jstr("2024-11-05"));
    assert(json_fields_view(Seq::<(String, Json)>::empty()) =~= Seq::<(Seq<char>, JsonV)>::empty());
    jfield(&mut fs, "capabilities", Json::Object(Vec::new()));
    assert(json_fields_view(info@) =~= seq![("name"@, JsonV::Str("xuanji"@)), ("version"@, JsonV::Str(version@))]);
    let info_json = Json::Object(info);
    assert(info_json@ == JsonV::Object(seq![("name"@, JsonV::Str("xuanji"@)), ("version"@, JsonV::Str(version@))]));
    jfield(&mut fs, "clientInfo", info_json);
    assert(json_fields_view(fs@) =~= initialize_params(version@)->Object_0);
    Json::Object(fs)
}

/// The parameters of a `tools/call` request.
pub fn call_tool_params(name: &str, arguments: Json) -> (r: Json)
    ensures
        r@ == JsonV::Object(seq![("name"@, JsonV::Str(name@)), ("arguments"@, arguments@)]),
{
    crate::llm::make_obj2("name", jstr(name), "arguments", arguments)
}

/// What a `tools/call` result says: the error flag (`isError`, false when it
/// is not a boolean) and the content (the whole result when it has no `content`).
pub fn call_tool_result(response: &Json) -> (r: McpToolResult)
    ensures
        r.is_error == match crate::json::jv_bool(jv_get(response@, "isError"@)) {
            Some(b) => b,
            None => false,
        },
        r.content@ == match jv_get(response@, "content"@) {
            Some(c) => c,
            None => response@,
        },
{
    let is_error = match response.get("isError") {
        Some(b) => match b.as_bool() {
            Some(x) => x,
            None => false,
        },
        None => false,
    };
    let content = match response.get("content") {
        Some(c) => c.deep_clone(),
        None => response.deep_clone(),
    };
    McpToolResult { content, is_error }
}

/// The model of a tool description read from a server.
pub struct ToolInfoV {
    pub name: Seq<char>,
    pub description: Option<Seq<char>>,
    pub input_schema: JsonV,
}

/// One tool of a `tools/list` result: an object with a string `name`, a
/// `description` that is absent, `null` or a string, and an `input_schema`.
pub open spec fn tool_info(v: JsonV) -> Option<ToolInfoV> {
    match v {
        JsonV::Object(fs) => match (jv_str(fields_get(fs, "name"@)), fields_get(fs, "input_schema"@)) {
            (Some(name), Some(schema)) => if absent(fields_get(fs, "description"@)) {
                Some(ToolInfoV { name, description: None, input_schema: schema })
            } else {
                match jv_str(fields_get(fs, "description"@)) {
                    Some(d) => Some(ToolInfoV { name, description: Some(d), input_schema: schema }),
                    None => None,
                }
            },
            _ => None,
        },
        _ => None,
    }
}

/// The tools of a list, all of which must read as tools.
pub open spec fn tool_infos(a: Seq<JsonV>) -> Option<Seq<ToolInfoV>>
    decreases a.len(),
{
    if a.len() == 0 {
        Some(Seq::empty())
    } else {
        match (tool_infos(a.drop_last()), tool_info(a.last())) {
            (Some(ts), Some(t)) => Some(ts.push(t)),
            _ => None,
        }
    }
}

/// The tools a `tools/list` result names (its `tools`, an empty list when it
/// has none), or the error's text when they cannot be read.
pub open spec fn tools_list_outcome(response: JsonV) -> Result<Seq<ToolInfoV>, Seq<char>> {
    let tools = match jv_get(response, "tools"@) {
        Some(t) => t,
        None => JsonV::Array(Seq::empty()),
    };
    match tools {
        JsonV::Array(a) => match tool_infos(a) {
            Some(ts) => Ok(ts),
            None => Err("failed to parse tools/list response: invalid tool description"@),
        },
        _ => Err("failed to parse tools/list response: invalid tool list"@),
    }
}

/// The model of a tool description.
pub open spec fn info_view(t: McpToolInfo) -> ToolInfoV {
    ToolInfoV {
        name: t.name@,
        description: match t.description {
            Some(d) => Some(d@),
            None => None,
        },
        input_schema: t.input_schema@,
    }
}

/// Reads one tool description.
fn read_tool_info(v: &Json) -> (r: Option<McpToolInfo>)
    ensures
        match r {
            Some(t) => tool_info(v@) == Some(info_view(t)),
            None => tool_info(v@) is None,
        },
{
    match v {
        Json::Object(_) => {
            let name = match v.get("name") {
                Some(n) => match n.as_str() {
                    Some(s) => s.clone(),
                    None => {
                        return None;
                    },
                },
                None => {
                    return None;
                },
            };
            let schema = match v.get("input_schema") {
                Some(x) => x.deep_clone(),
                None => {
                    return None;
                },
            };
            let d = v.get("description");
            if is_absent(d) {
                return Some(McpToolInfo { name, description: None, input_schema: schema });
            }
            match d {
                Some(x) => match x.as_str() {
                    Some(s) => Some(McpToolInfo { name, description: Some(s.clone()), input_schema: schema }),
                    None => None,
                },
                None => None,
            }
        },
        _ => None,
    }
}

/// Reads the tools of a `tools/list` result.
#[verifier::loop_isolation(false)]
pub fn read_tools_list(response: &Json) -> (r: Result<Vec<McpToolInfo>, PluginError>)
    ensures
        match r {
            Ok(ts) => tools_list_outcome(response@) == Ok::<Seq<ToolInfoV>, Seq<char>>(
                ts@.map_values(|t: McpToolInfo| info_view(t)),
            ),
            Err(PluginError::Protocol(m)) => tools_list_outcome(response@) == Err::<Seq<ToolInfoV>, Seq<char>>(m@),
            Err(_) => false,
        },
{
    let empty = Json::Array(Vec::new());
    assert(crate::json::json_seq_view(Seq::<Json>::empty()) =~= Seq::<JsonV>::empty());
    let tools = match response.get("tools") {
        Some(t) => t,
        None => &empty,
    };
    match tools {
        Json::Array(a) => {
            let mut out: Vec<McpToolInfo> = Vec::new();
            let mut i: usize = 0;
            proof {
                crate::json::lemma_seq_view_index(a@);
            }
            while i < a.len()
                invariant
                    i <= a.len(),
                    crate::json::json_seq_view(a@).len() == a@.len(),
                    forall|j: int| 0 <= j < a@.len() ==> #[trigger] crate::json::json_seq_view(a@)[j] == a@[j]@,
                    tool_infos(crate::json::json_seq_view(a@).subrange(0, i as int)) == Some(
                        out@.map_values(|t: McpToolInfo| info_view(t)),
                    ),
                decreases a.len() - i,
            {
                let ghost pre = crate::json::json_seq_view(a@).subrange(0, i as int);
                let ghost cur = crate::json::json_seq_view(a@).subrange(0, i + 1);
                assert(cur.drop_last() =~= pre);
                assert(cur.last() == a@[i as int]@);
                match read_tool_info(&a[i]) {
                    Some(t) => {
                        let ghost before = out@.map_values(|t: McpToolInfo| info_view(t));
                        out.push(t);
                        assert(out@.map_values(|t: McpToolInfo| info_view(t)) =~= before.push(info_view(t)));
                    },
                    None => {
                        proof {
                            lemma_tool_infos_none(crate::json::json_seq_view(a@), i as int);
                        }
                        return Err(PluginError::Protocol(
                            "failed to parse tools/list response: invalid tool description".to_owned_string(),
                        ));
                    },
                }
                i = i + 1;
            }
            assert(crate::json::json_seq_view(a@).subrange(0, i as int) =~= crate::json::json_seq_view(a@));
            Ok(out)
        },
        _ => Err(PluginError::Protocol("failed to parse tools/list response: invalid tool list".to_owned_string())),
    }
}

/// One tool that does not read makes the whole list unreadable.
proof fn lemma_tool_infos_none(a: Seq<JsonV>, i: int)
    requires
        0 <= i < a.len(),
        tool_info(a[i]) is None,
    ensures
        tool_infos(a) is None,
    decreases a.len(),
{
    if i < a.len() - 1 {
        assert(a.drop_last()[i] == a[i]);
        lemma_tool_infos_none(a.drop_last(), i);
    }
}

// ---------------------------------------------------------------------------
// The registry
// ---------------------------------------------------------------------------

/// Where a tool comes from.
#[derive(Debug, Clone, PartialEq, Eq)]
pub enum ToolSource {
    /// A tool of the MCP server of this name.
    Mcp { server_name: String },
    /// A built-in function (the caller holds the function itself).
    System,
}

/// A registered tool.
#[derive(Debug)]
pub struct ToolEntry {
    pub name: String,
    pub description: String,
    pub parameters: Json,
    pub source: ToolSource,
}

/// The model of where a tool comes from: the server's name, or `None` for a built-in.
pub open spec fn source_view(s: ToolSource) -> Option<Seq<char>> {
    match s {
        ToolSource::Mcp { server_name } => Some(server_name@),
        ToolSource::System => None,
    }
}

/// The model of a registered tool: description, parameters and source.
pub open spec fn entry_view(e: ToolEntry) -> (Seq<char>, JsonV, Option<Seq<char>>) {
    (e.description@, e.parameters@, source_view(e.source))
}

/// The tools of MCP servers and built-in tools, under their names; a tool
/// registered again under a name replaces the one before.
pub struct ToolRegistry {
    entries: Vec<(String, ToolEntry)>,
}

impl ToolRegistry {
    /// The tools, by name, in the order names were first registered.
    pub closed spec fn tools(&self) -> Seq<(Seq<char>, (Seq<char>, JsonV, Option<Seq<char>>))> {
        self.entries@.map_values(|p: (String, ToolEntry)| (p.0@, entry_view(p.1)))
    }

    /// Each name is registered once, and each entry carries its own name.
    pub closed spec fn wf(&self) -> bool {
        keys_distinct(self.tools()) && forall|i: int| 0 <= i < self.entries@.len() ==> (#[trigger] self.entries@[i]).1.name@ == self.entries@[i].0@
    }

    /// An empty registry.
    pub fn new() -> (r: Self)
        ensures
            r.wf(),
            r.tools().len() == 0,
    {
        let r = ToolRegistry { entries: Vec::new() };
        assert(r.tools() =~= Seq::<(Seq<char>, (Seq<char>, JsonV, Option<Seq<char>>))>::empty());
        r
    }

    /// Registers (or replaces) a tool.
    fn insert(&mut self, entry: ToolEntry)
        requires
            old(self).wf(),
        ensures
            final(self).wf(),
            final(self).tools() == assoc_insert(old(self).tools(), entry.name@, entry_view(entry)),
    {
        let ghost old_t = self.tools();
        let ghost ev = entry_view(entry);
        let ghost nm = entry.name@;
        match find_key(&self.entries, entry.name.as_str()) {
            Some(j) => {
                proof {
                    crate::template::lemma_found_pub(old_t, j as int, nm);
                }
                let k = entry.name.clone();
                self.entries.set(j, (k, entry));
                assert(self.tools() =~= old_t.update(j as int, (nm, ev)));
            },
            None => {
                proof {
                    crate::template::lemma_not_found_pub(old_t, nm);
                }
                let k = entry.name.clone();
                self.entries.push((k, entry));
                assert(self.tools() =~= old_t.push((nm, ev)));
            },
        }
        proof {
            lemma_lookup_insert(old_t, nm, ev);
        }
    }

    /// Registers the tools a server listed, each from that server, with its
    /// description (empty when it has none).
    pub fn register_server_tools(&mut self, server_name: &str, tools: Vec<McpToolInfo>)
        requires
            old(self).wf(),
        ensures
            final(self).wf(),
            final(self).tools() == registered(
                old(self).tools(),
                tools@.map_values(|t: McpToolInfo| info_view(t)),
                server_name@,
            ),
    {
        let ghost t0 = self.tools();
        let ghost infos = tools@.map_values(|t: McpToolInfo| info_view(t));
        let mut i: usize = 0;
        while i < tools.len()
            invariant
                i <= tools.len(),
                self.wf(),
                infos == tools@.map_values(|t: McpToolInfo| info_view(t)),
                self.tools() == registered(t0, infos.subrange(0, i as int), server_name@),
            decreases tools.len() - i,
        {
            let t = &tools[i];
            let description = match &t.description {
                Some(d) => d.clone(),
                None => String::new(),
            };
            let entry = ToolEntry {
                name: t.name.clone(),
                description,
                parameters: t.input_schema.deep_clone(),
                source: ToolSource::Mcp { server_name: server_name.to_owned_string() },
            };
            self.insert(entry);
            let ghost cur = infos.subrange(0, i + 1);
            assert(cur.drop_last() =~= infos.subrange(0, i as int));
            assert(cur.last() == info_view(tools@[i as int]));
            i = i + 1;
        }
        assert(infos.subrange(0, i as int) =~= infos);
    }

    /// Registers (or replaces) a built-in tool.
    pub fn register_system_tool(&mut self, name: &str, description: &str, parameters: Json)
        requires
            old(self).wf(),
        ensures
            final(self).wf(),
            final(self).tools() == assoc_insert(old(self).tools(), name@, (description@, parameters@, None)),
    {
        self.insert(
            ToolEntry {
                name: name.to_owned_string(),
                description: description.to_owned_string(),
                parameters,
                source: ToolSource::System,
            },
        );
    }

    /// The position of `name` among the entries, with its model facts.
    fn find_tool(&self, name: &str) -> (r: Option<usize>)
        requires
            self.wf(),
        ensures
            match r {
                Some(j) => j < self.entries@.len() && self.entries@[j as int].0@ == name@ && lookup(self.tools(), name@)
                    == Some(entry_view(self.entries@[j as int].1)),
                None => lookup(self.tools(), name@) is None,
            },
    {
        proof {
            lemma_lookup(self.tools(), name@);
        }
        match find_key(&self.entries, name) {
            Some(j) => {
                proof {
                    crate::template::lemma_found_pub(self.tools(), j as int, name@);
                }
                Some(j)
            },
            None => {
                proof {
                    crate::template::lemma_not_found_pub(self.tools(), name@);
                }
                None
            },
        }
    }

    /// The schemas of all tools, for the model, in order.
    pub fn all_tool_schemas(&self) -> (r: Vec<ToolSchema>)
        ensures
            r@.len() == self.tools().len(),
            forall|i: int|
                0 <= i < r@.len() ==> (#[trigger] r@[i]).name@ == self.tools()[i].0 && r@[i].description@
                    == self.tools()[i].1.0 && r@[i].input_schema@ == self.tools()[i].1.1,
    {
        let mut r: Vec<ToolSchema> = Vec::new();
        let mut i: usize = 0;
        while i < self.entries.len()
            invariant
                i <= self.entries.len(),
                r@.len() == i,
                forall|k: int|
                    0 <= k < i ==> (#[trigger] r@[k]).name@ == self.tools()[k].0 && r@[k].description@
                        == self.tools()[k].1.0 && r@[k].input_schema@ == self.tools()[k].1.1,
            decreases self.entries.len() - i,
        {
            let e = &self.entries[i].1;
            assert(self.tools()[i as int] == (self.entries@[i as int].0@, entry_view(self.entries@[i as int].1)));
            r.push(
                ToolSchema {
                    name: self.entries[i].0.clone(),
                    description: e.description.clone(),
                    input_schema: e.parameters.deep_clone(),
                },
            );
            i = i + 1;
        }
        r
    }

    /// The names and descriptions of all tools, in order.
    pub fn list_tools(&self) -> (r: Vec<(String, String)>)
        ensures
            r@.len() == self.tools().len(),
            forall|i: int|
                0 <= i < r@.len() ==> (#[trigger] r@[i]).0@ == self.tools()[i].0 && r@[i].1@ == self.tools()[i].1.0,
    {
        let mut r: Vec<(String, String)> = Vec::new();
        let mut i: usize = 0;
        while i < self.entries.len()
            invariant
                i <= self.entries.len(),
                r@.len() == i,
                forall|k: int|
                    0 <= k < i ==> (#[trigger] r@[k]).0@ == self.tools()[k].0 && r@[k].1@ == self.tools()[k].1.0,
            decreases self.entries.len() - i,
        {
            assert(self.tools()[i as int] == (self.entries@[i as int].0@, entry_view(self.entries@[i as int].1)));
            r.push((self.entries[i].0.clone(), self.entries[i].1.description.clone()));
            i = i + 1;
        }
        r
    }

    /// The tool registered under `name`.
    pub fn get_tool(&self, name: &str) -> (r: Option<&ToolEntry>)
        requires
            self.wf(),
        ensures
            match r {
                Some(e) => e.name@ == name@ && lookup(self.tools(), name@) == Some(entry_view(*e)),
                None => lookup(self.tools(), name@) is None,
            },
    {
        match self.find_tool(name) {
            Some(j) => Some(&self.entries[j].1),
            None => None,
        }
    }

    /// Where a call to `name` goes: refused with `ToolNotFound` when no tool
    /// has that name.
    pub fn tool_source(&self, name: &str) -> (r: Result<ToolSource, PluginError>)
        requires
            self.wf(),
        ensures
            match r {
                Ok(s) => lookup(self.tools(), name@) matches Some(e) && e.2 == source_view(s),
                Err(PluginError::ToolNotFound(n)) => n@ == name@ && lookup(self.tools(), name@) is None,
                Err(_) => false,
            },
    {
        match self.find_tool(name) {
            Some(j) => match &self.entries[j].1.source {
                ToolSource::Mcp { server_name } => Ok(ToolSource::Mcp { server_name: server_name.clone() }),
                ToolSource::System => Ok(ToolSource::System),
            },
            None => Err(PluginError::ToolNotFound(name.to_owned_string())),
        }
    }
}

/// After a built-in tool is registered, its name finds it, with its
/// description and schema; every other name finds what it found before.
pub proof fn law_registered_tool_found(r: ToolRegistry, name: Seq<char>, description: Seq<char>, schema: JsonV, other: Seq<char>)
    requires
        r.wf(),
    ensures
        lookup(assoc_insert(r.tools(), name, (description, schema, None::<Seq<char>>)), name) == Some(
            (description, schema, None::<Seq<char>>),
        ),
        other != name ==> lookup(assoc_insert(r.tools(), name, (description, schema, None::<Seq<char>>)), other)
            == lookup(r.tools(), other),
{
    lemma_lookup_insert(r.tools(), name, (description, schema, None::<Seq<char>>));
}

/// The tools after a server's list is registered, one by one.
pub open spec fn registered(
    t: Seq<(Seq<char>, (Seq<char>, JsonV, Option<Seq<char>>))>,
    infos: Seq<ToolInfoV>,
    server: Seq<char>,
) -> Seq<(Seq<char>, (Seq<char>, JsonV, Option<Seq<char>>))>
    decreases infos.len(),
{
    if infos.len() == 0 {
        t
    } else {
        let last = infos.last();
        assoc_insert(
            registered(t, infos.drop_last(), server),
            last.name,
            (
                match last.description {
                    Some(d) => d,
                    None => Seq::empty(),
                },
                last.input_schema,
                Some(server),
            ),
        )
    }
}

} // verus!
