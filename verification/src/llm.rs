//! Messages, tool schemas and responses of the LLM layer, and the request bodies
//! and response readings of the two wire protocols.
use vstd::prelude::*;
use crate::json::{Json, JsonV, json_seq_view, json_fields_view, json_text, json_parse, decimal_text, jstr, jfield, jpush, to_json_text, u64_text, jv_get, jv_str, jv_array, jv_u64, parse_json, lemma_seq_view_index};
use crate::protocol::Protocol;
use crate::text::{chars_of, concat, ends_with, ends_with_exec, string_of};

verus! {

/// Schema of a tool's input parameters.
#[derive(Debug)]
pub struct ToolSchema {
    pub name: String,
    pub description: String,
    pub input_schema: Json,
}

/// One tool call returned by the LLM.
#[derive(Debug)]
pub struct ToolCall {
    pub id: String,
    pub name: String,
    pub arguments: Json,
}

/// The model of a tool call.
pub struct ToolCallV {
    pub id: Seq<char>,
    pub name: Seq<char>,
    pub arguments: JsonV,
}

impl View for ToolCall {
    type V = ToolCallV;

    open spec fn view(&self) -> ToolCallV {
        ToolCallV { id: self.id@, name: self.name@, arguments: self.arguments@ }
    }
}

impl ToolCall {
    /// A copy of this call.
    pub fn duplicate(&self) -> (r: ToolCall)
        ensures
            r@ == self@,
    {
        ToolCall { id: self.id.clone(), name: self.name.clone(), arguments: self.arguments.deep_clone() }
    }
}

/// Token usage reported with a response.
#[derive(Debug, Clone, Copy, PartialEq, Eq, Structural)]
pub struct Usage {
    pub prompt_tokens: u32,
    pub completion_tokens: u32,
    pub total_tokens: u32,
}

impl Usage {
    /// No tokens.
    pub open spec fn zero() -> Usage {
        Usage { prompt_tokens: 0, completion_tokens: 0, total_tokens: 0 }
    }
}

impl Default for Usage {
    fn default() -> (r: Usage)
        ensures
            r == Usage::zero(),
    {
        Usage { prompt_tokens: 0, completion_tokens: 0, total_tokens: 0 }
    }
}

/// The response to a completion request.
#[derive(Debug)]
pub enum LlmResponse {
    ToolCalls { calls: Vec<ToolCall>, text: Option<String>, usage: Usage },
    Text { content: String, usage: Usage },
}

/// The model of a response.
pub enum LlmResponseV {
    ToolCalls { calls: Seq<ToolCallV>, text: Option<Seq<char>>, usage: Usage },
    Text { content: Seq<char>, usage: Usage },
}

/// The models of a sequence of tool calls.
pub open spec fn calls_view(cs: Seq<ToolCall>) -> Seq<ToolCallV> {
    cs.map_values(|c: ToolCall| c@)
}

/// The model of an optional text.
pub open spec fn opt_view(t: Option<String>) -> Option<Seq<char>> {
    match t {
        Some(s) => Some(s@),
        None => None,
    }
}

impl View for LlmResponse {
    type V = LlmResponseV;

    open spec fn view(&self) -> LlmResponseV {
        match self {
            LlmResponse::ToolCalls { calls, text, usage } => LlmResponseV::ToolCalls {
                calls: calls_view(calls@),
                text: opt_view(*text),
                usage: *usage,
            },
            LlmResponse::Text { content, usage } => LlmResponseV::Text {
                content: content@,
                usage: *usage,
            },
        }
    }
}

impl LlmResponse {
    /// The text of the response: the content of a text response, or the text
    /// that came with tool calls.
    pub fn text_content(&self) -> (r: Option<&String>)
        ensures
            r matches Some(t) ==> match self {
                LlmResponse::Text { content, .. } => t@ == content@,
                LlmResponse::ToolCalls { text, .. } => text matches Some(x) && t@ == x@,
            },
            r is None <==> (self matches LlmResponse::ToolCalls { text, .. } && text is None),
    {
        match self {
            LlmResponse::Text { content, .. } => Some(content),
            LlmResponse::ToolCalls { text, .. } => match text {
                Some(t) => Some(t),
                None => None,
            },
        }
    }

    /// The tool calls of the response; none for a text response.
    pub fn tool_calls(&self) -> (r: &[ToolCall])
        ensures
            match self {
                LlmResponse::ToolCalls { calls, .. } => r@ == calls@,
                LlmResponse::Text { .. } => r@.len() == 0,
            },
    {
        match self {
            LlmResponse::ToolCalls { calls, .. } => calls.as_slice(),
            LlmResponse::Text { .. } => &[],
        }
    }
}

/// A message of the conversation.
#[derive(Debug)]
pub enum Message {
    System { content: String },
    User { content: String },
    Assistant { content: String },
    AssistantToolCalls { tool_calls: Vec<ToolCall>, content: Option<String> },
    ToolResult { tool_call_id: String, tool_name: String, result: String, success: bool },
}

/// The model of a message.
pub enum MessageV {
    System { content: Seq<char> },
    User { content: Seq<char> },
    Assistant { content: Seq<char> },
    AssistantToolCalls { tool_calls: Seq<ToolCallV>, content: Option<Seq<char>> },
    ToolResult { tool_call_id: Seq<char>, tool_name: Seq<char>, result: Seq<char>, success: bool },
}

impl View for Message {
    type V = MessageV;

    open spec fn view(&self) -> MessageV {
        match self {
            Message::System { content } => MessageV::System { content: content@ },
            Message::User { content } => MessageV::User { content: content@ },
            Message::Assistant { content } => MessageV::Assistant { content: content@ },
            Message::AssistantToolCalls { tool_calls, content } => MessageV::AssistantToolCalls {
                tool_calls: calls_view(tool_calls@),
                content: opt_view(*content),
            },
            Message::ToolResult { tool_call_id, tool_name, result, success } => MessageV::ToolResult {
                tool_call_id: tool_call_id@,
                tool_name: tool_name@,
                result: result@,
                success: *success,
            },
        }
    }
}

/// The models of messages.
pub open spec fn msg_views(ms: Seq<Message>) -> Seq<MessageV> {
    ms.map_values(|m: Message| m@)
}

/// Copies of tool calls.
pub fn copy_calls(cs: &[ToolCall]) -> (r: Vec<ToolCall>)
    ensures
        calls_view(r@) == calls_view(cs@),
{
    let mut r: Vec<ToolCall> = Vec::new();
    let mut i: usize = 0;
    while i < cs.len()
        invariant
            i <= cs.len(),
            calls_view(r@) == calls_view(cs@.subrange(0, i as int)),
        decreases cs.len() - i,
    {
        let ghost prev = r@;
        let c = cs[i].duplicate();
        r.push(c);
        assert(r@ == prev.push(c));
        assert(calls_view(r@) =~= calls_view(prev).push(c@));
        assert(calls_view(cs@.subrange(0, i + 1)) =~= calls_view(cs@.subrange(0, i as int)).push(cs@[i as int]@));
        i = i + 1;
    }
    assert(cs@.subrange(0, i as int) =~= cs@);
    r
}

impl Message {
    /// A copy of this message.
    pub fn duplicate(&self) -> (r: Message)
        ensures
            r@ == self@,
    {
        match self {
            Message::System { content } => Message::System { content: content.clone() },
            Message::User { content } => Message::User { content: content.clone() },
            Message::Assistant { content } => Message::Assistant { content: content.clone() },
            Message::AssistantToolCalls { tool_calls, content } => Message::AssistantToolCalls {
                tool_calls: copy_calls(tool_calls.as_slice()),
                content: match content {
                    Some(c) => Some(c.clone()),
                    None => None,
                },
            },
            Message::ToolResult { tool_call_id, tool_name, result, success } => Message::ToolResult {
                tool_call_id: tool_call_id.clone(),
                tool_name: tool_name.clone(),
                result: result.clone(),
                success: *success,
            },
        }
    }
}

/// Configuration of one provider.
#[derive(Debug, Clone)]
pub struct ProviderConfig {
    pub protocol: Protocol,
    pub model: String,
    pub api_key: String,
    pub base_url: Option<String>,
    pub max_tokens: Option<u64>,
    /// The sampling temperature, as the JSON text of the number.
    pub temperature: Option<String>,
}

impl ProviderConfig {
    /// A copy of this configuration.
    pub fn duplicate(&self) -> (r: ProviderConfig)
        ensures
            r == *self,
    {
        ProviderConfig {
            protocol: self.protocol,
            model: self.model.clone(),
            api_key: self.api_key.clone(),
            base_url: match &self.base_url {
                Some(b) => Some(b.clone()),
                None => None,
            },
            max_tokens: self.max_tokens,
            temperature: match &self.temperature {
                Some(t) => Some(t.clone()),
                None => None,
            },
        }
    }
}

/// Configuration of all providers.
#[derive(Debug, Clone)]
pub struct LlmConfig {
    pub default_provider: Option<String>,
    /// Providers by name, in the order they were configured.
    pub providers: Vec<(String, ProviderConfig)>,
}

/// Errors of the LLM layer.
#[derive(Debug)]
pub enum LlmError {
    /// The HTTP request failed; the message of the HTTP client.
    HttpError(String),
    ApiError { status: u16, message: String },
    ParseError(String),
    ConfigError(String),
    UnsupportedProtocol(String),
}

/// The text of a model-call error.
pub open spec fn llm_error_text(e: LlmError) -> Seq<char> {
    match e {
        LlmError::HttpError(m) => "HTTP request failed: "@ + m@,
        LlmError::ApiError { status, message } => "API error: status "@ + crate::json::decimal_text(status as nat)
            + " - "@ + message@,
        LlmError::ParseError(m) => "failed to parse response: "@ + m@,
        LlmError::ConfigError(m) => "configuration error: "@ + m@,
        LlmError::UnsupportedProtocol(m) => "unsupported protocol: "@ + m@,
    }
}

impl LlmError {
    /// The error as displayed.
    pub fn to_string(&self) -> (s: String)
        ensures
            s@ == llm_error_text(*self),
    {
        match self {
            LlmError::HttpError(m) => crate::text::concat("HTTP request failed: ", m.as_str()),
            LlmError::ApiError { status, message } => {
                let mut s = crate::text::concat("API error: status ", crate::json::u64_text(*status as u64).as_str());
                s.append(" - ");
                s.append(message.as_str());
                s
            },
            LlmError::ParseError(m) => crate::text::concat("failed to parse response: ", m.as_str()),
            LlmError::ConfigError(m) => crate::text::concat("configuration error: ", m.as_str()),
            LlmError::UnsupportedProtocol(m) => crate::text::concat("unsupported protocol: ", m.as_str()),
        }
    }
}

// ---------------------------------------------------------------------------
// Building JSON
// ---------------------------------------------------------------------------

/// A JSON object with two fields.
pub open spec fn obj2(k1: Seq<char>, v1: JsonV, k2: Seq<char>, v2: JsonV) -> JsonV {
    JsonV::Object(seq![(k1, v1), (k2, v2)])
}

/// A JSON object with three fields.
pub open spec fn obj3(
    k1: Seq<char>,
    v1: JsonV,
    k2: Seq<char>,
    v2: JsonV,
    k3: Seq<char>,
    v3: JsonV,
) -> JsonV {
    JsonV::Object(seq![(k1, v1), (k2, v2), (k3, v3)])
}

/// Builds an object with two fields.
pub fn make_obj2(k1: &str, v1: Json, k2: &str, v2: Json) -> (r: Json)
    ensures
        r@ == obj2(k1@, v1@, k2@, v2@),
{
    let mut fs: Vec<(String, Json)> = Vec::new();
    let ghost a = v1@;
    let ghost b = v2@;
    jfield(&mut fs, k1, v1);
    jfield(&mut fs, k2, v2);
    assert(json_fields_view(fs@) =~= seq![(k1@, a), (k2@, b)]);
    Json::Object(fs)
}

/// Builds an object with three fields.
pub fn make_obj3(k1: &str, v1: Json, k2: &str, v2: Json, k3: &str, v3: Json) -> (r: Json)
    ensures
        r@ == obj3(k1@, v1@, k2@, v2@, k3@, v3@),
{
    let mut fs: Vec<(String, Json)> = Vec::new();
    let ghost a = v1@;
    let ghost b = v2@;
    let ghost c = v3@;
    jfield(&mut fs, k1, v1);
    jfield(&mut fs, k2, v2);
    jfield(&mut fs, k3, v3);
    assert(json_fields_view(fs@) =~= seq![(k1@, a), (k2@, b), (k3@, c)]);
    Json::Object(fs)
}

/// The JSON string of an owned string.
pub fn jstring(s: &String) -> (r: Json)
    ensures
        r@ == JsonV::Str(s@),
{
    Json::Str(s.clone())
}

// ---------------------------------------------------------------------------
// The OpenAI chat completions protocol
// ---------------------------------------------------------------------------

/// An OpenAI tool call entry of an assistant message.
pub open spec fn openai_call_json(tc: ToolCall) -> JsonV {
    obj3(
        "id"@,
        JsonV::Str(tc.id@),
        "type"@,
        JsonV::Str("function"@),
        "function"@,
        obj2("name"@, JsonV::Str(tc.name@), "arguments"@, JsonV::Str(json_text(tc.arguments@))),
    )
}

/// An OpenAI message.
pub open spec fn openai_message_json(m: Message) -> JsonV {
    match m {
        Message::System { content } => obj2("role"@, JsonV::Str("system"@), "content"@, JsonV::Str(content@)),
        Message::User { content } => obj2("role"@, JsonV::Str("user"@), "content"@, JsonV::Str(content@)),
        Message::Assistant { content } => obj2(
            "role"@,
            JsonV::Str("assistant"@),
            "content"@,
            JsonV::Str(content@),
        ),
        Message::AssistantToolCalls { tool_calls, content } => obj3(
            "role"@,
            JsonV::Str("assistant"@),
            "tool_calls"@,
            JsonV::Array(tool_calls@.map_values(|tc: ToolCall| openai_call_json(tc))),
            "content"@,
            match content {
                Some(t) => JsonV::Str(t@),
                None => JsonV::Null,
            },
        ),
        Message::ToolResult { tool_call_id, result, .. } => obj3(
            "role"@,
            JsonV::Str("tool"@),
            "tool_call_id"@,
            JsonV::Str(tool_call_id@),
            "content"@,
            JsonV::Str(result@),
        ),
    }
}

/// An OpenAI tool declaration.
pub open spec fn openai_tool_json(t: ToolSchema) -> JsonV {
    obj2(
        "type"@,
        JsonV::Str("function"@),
        "function"@,
        obj3(
            "name"@,
            JsonV::Str(t.name@),
            "description"@,
            JsonV::Str(t.description@),
            "parameters"@,
            t.input_schema@,
        ),
    )
}

/// The fields `max_tokens` and `temperature`, when configured, after `fs`.
pub open spec fn with_limits(fs: Seq<(Seq<char>, JsonV)>, cfg: ProviderConfig) -> Seq<(Seq<char>, JsonV)> {
    let a = match cfg.max_tokens {
        Some(n) => fs.push(("max_tokens"@, JsonV::Number(decimal_text(n as nat)))),
        None => fs,
    };
    match cfg.temperature {
        Some(t) => a.push(("temperature"@, JsonV::Number(t@))),
        None => a,
    }
}

/// The body of an OpenAI chat completions request.
pub open spec fn openai_body(cfg: ProviderConfig, ms: Seq<Message>, tools: Seq<ToolSchema>) -> JsonV {
    let base = seq![
        ("model"@, JsonV::Str(cfg.model@)),
        ("messages"@, JsonV::Array(ms.map_values(|m: Message| openai_message_json(m)))),
    ];
    let fs = with_limits(base, cfg);
    if tools.len() > 0 {
        JsonV::Object(fs.push(("tools"@, JsonV::Array(tools.map_values(|t: ToolSchema| openai_tool_json(t))))))
    } else {
        JsonV::Object(fs)
    }
}

/// Builds the OpenAI entry of one tool call.
fn openai_call(tc: &ToolCall) -> (r: Json)
    ensures
        r@ == openai_call_json(*tc),
{
    let f = make_obj2("name", jstring(&tc.name), "arguments", Json::Str(to_json_text(&tc.arguments)));
    make_obj3("id", jstring(&tc.id), "type", jstr("function"), "function", f)
}

/// Builds one OpenAI message.
fn openai_message(m: &Message) -> (r: Json)
    ensures
        r@ == openai_message_json(*m),
{
    match m {
        Message::System { content } => make_obj2("role", jstr("system"), "content", jstring(content)),
        Message::User { content } => make_obj2("role", jstr("user"), "content", jstring(content)),
        Message::Assistant { content } => make_obj2("role", jstr("assistant"), "content", jstring(content)),
        Message::AssistantToolCalls { tool_calls, content } => {
            let mut arr: Vec<Json> = Vec::new();
            let mut i: usize = 0;
            while i < tool_calls.len()
                invariant
                    i <= tool_calls.len(),
                    json_seq_view(arr@) == tool_calls@.subrange(0, i as int).map_values(
                        |tc: ToolCall| openai_call_json(tc),
                    ),
                decreases tool_calls.len() - i,
            {
                jpush(&mut arr, openai_call(&tool_calls[i]));
                assert(tool_calls@.subrange(0, i + 1).map_values(|tc: ToolCall| openai_call_json(tc))
                    =~= tool_calls@.subrange(0, i as int).map_values(|tc: ToolCall| openai_call_json(tc)).push(
                    openai_call_json(tool_calls@[i as int]),
                ));
                i = i + 1;
            }
            assert(tool_calls@.subrange(0, i as int) =~= tool_calls@);
            let c = match content {
                Some(t) => jstring(t),
                None => Json::Null,
            };
            make_obj3("role", jstr("assistant"), "tool_calls", Json::Array(arr), "content", c)
        },
        Message::ToolResult { tool_call_id, result, .. } => make_obj3(
            "role",
            jstr("tool"),
            "tool_call_id",
            jstring(tool_call_id),
            "content",
            jstring(result),
        ),
    }
}

/// Builds one OpenAI tool declaration.
fn openai_tool(t: &ToolSchema) -> (r: Json)
    ensures
        r@ == openai_tool_json(*t),
{
    let f = make_obj3(
        "name",
        jstring(&t.name),
        "description",
        jstring(&t.description),
        "parameters",
        t.input_schema.deep_clone(),
    );
    make_obj2("type", jstr("function"), "function", f)
}

/// Appends the configured `max_tokens` and `temperature` fields.
fn push_limits(fs: &mut Vec<(String, Json)>, cfg: &ProviderConfig)
    ensures
        json_fields_view(final(fs)@) == with_limits(json_fields_view(old(fs)@), *cfg),
{
    match cfg.max_tokens {
        Some(n) => jfield(fs, "max_tokens", Json::Number(u64_text(n))),
        None => {},
    }
    match &cfg.temperature {
        Some(t) => jfield(fs, "temperature", Json::Number(t.clone())),
        None => {},
    }
}

/// A provider speaking the OpenAI chat completions protocol.
#[derive(Debug)]
pub struct OpenAIProvider {
    pub config: ProviderConfig,
}

impl OpenAIProvider {
    /// A provider for the given configuration.
    pub fn new(config: ProviderConfig) -> (p: Self)
        ensures
            p.config == config,
    {
        OpenAIProvider { config }
    }

    /// The provider's configuration.
    pub fn config(&self) -> (c: &ProviderConfig)
        ensures
            *c == self.config,
    {
        &self.config
    }

    /// The JSON body of a chat completions request.
    pub fn build_request_body(&self, messages: &[Message], tools: &[ToolSchema]) -> (body: Json)
        ensures
            body@ == openai_body(self.config, messages@, tools@),
    {
        let mut arr: Vec<Json> = Vec::new();
        let mut i: usize = 0;
        while i < messages.len()
            invariant
                i <= messages.len(),
                json_seq_view(arr@) == messages@.subrange(0, i as int).map_values(
                    |m: Message| openai_message_json(m),
                ),
            decreases messages.len() - i,
        {
            jpush(&mut arr, openai_message(&messages[i]));
            assert(messages@.subrange(0, i + 1).map_values(|m: Message| openai_message_json(m))
                =~= messages@.subrange(0, i as int).map_values(|m: Message| openai_message_json(m)).push(
                openai_message_json(messages@[i as int]),
            ));
            i = i + 1;
        }
        assert(messages@.subrange(0, i as int) =~= messages@);
        let mut fs: Vec<(String, Json)> = Vec::new();
        jfield(&mut fs, "model", jstring(&self.config.model));
        let ghost msgs = json_seq_view(arr@);
        jfield(&mut fs, "messages", Json::Array(arr));
        let ghost base = json_fields_view(fs@);
        assert(base =~= seq![
            ("model"@, JsonV::Str(self.config.model@)),
            ("messages"@, JsonV::Array(msgs)),
        ]);
        push_limits(&mut fs, &self.config);
        if tools.len() > 0 {
            let mut ts: Vec<Json> = Vec::new();
            let mut j: usize = 0;
            while j < tools.len()
                invariant
                    j <= tools.len(),
                    json_seq_view(ts@) == tools@.subrange(0, j as int).map_values(
                        |t: ToolSchema| openai_tool_json(t),
                    ),
                decreases tools.len() - j,
            {
                jpush(&mut ts, openai_tool(&tools[j]));
                assert(tools@.subrange(0, j + 1).map_values(|t: ToolSchema| openai_tool_json(t))
                    =~= tools@.subrange(0, j as int).map_values(|t: ToolSchema| openai_tool_json(t)).push(
                    openai_tool_json(tools@[j as int]),
                ));
                j = j + 1;
            }
            assert(tools@.subrange(0, j as int) =~= tools@);
            jfield(&mut fs, "tools", Json::Array(ts));
        }
        Json::Object(fs)
    }
}

// ---------------------------------------------------------------------------
// The Anthropic messages protocol
// ---------------------------------------------------------------------------

/// The content blocks of an Anthropic assistant message with tool calls.
pub open spec fn anthropic_blocks(tool_calls: Seq<ToolCall>, content: Option<String>) -> Seq<JsonV> {
    let text = match content {
        Some(t) => if t@.len() > 0 {
            seq![obj2("type"@, JsonV::Str("text"@), "text"@, JsonV::Str(t@))]
        } else {
            Seq::empty()
        },
        None => Seq::empty(),
    };
    text + tool_calls.map_values(|tc: ToolCall| anthropic_use_json(tc))
}

/// An Anthropic `tool_use` block.
pub open spec fn anthropic_use_json(tc: ToolCall) -> JsonV {
    JsonV::Object(
        seq![
            ("type"@, JsonV::Str("tool_use"@)),
            ("id"@, JsonV::Str(tc.id@)),
            ("name"@, JsonV::Str(tc.name@)),
            ("input"@, tc.arguments@),
        ],
    )
}

/// The Anthropic message for a message other than a system message.
pub open spec fn anthropic_message_json(m: Message) -> JsonV {
    match m {
        Message::User { content } => obj2("role"@, JsonV::Str("user"@), "content"@, JsonV::Str(content@)),
        Message::Assistant { content } => obj2(
            "role"@,
            JsonV::Str("assistant"@),
            "content"@,
            JsonV::Str(content@),
        ),
        Message::AssistantToolCalls { tool_calls, content } => obj2(
            "role"@,
            JsonV::Str("assistant"@),
            "content"@,
            JsonV::Array(anthropic_blocks(tool_calls@, content)),
        ),
        Message::ToolResult { tool_call_id, result, success, .. } => obj2(
            "role"@,
            JsonV::Str("user"@),
            "content"@,
            JsonV::Array(
                seq![
                    obj3(
                        "type"@,
                        JsonV::Str("tool_result"@),
                        "tool_use_id"@,
                        JsonV::Str(tool_call_id@),
                        "content"@,
                        JsonV::Str(if success { result@ } else { "Error: "@ + result@ }),
                    ),
                ],
            ),
        ),
        Message::System { .. } => JsonV::Null,
    }
}

/// The Anthropic messages for a conversation: system messages are left out.
pub open spec fn anthropic_messages(ms: Seq<Message>) -> Seq<JsonV>
    decreases ms.len(),
{
    if ms.len() == 0 {
        Seq::empty()
    } else {
        let rest = anthropic_messages(ms.drop_last());
        match ms.last() {
            Message::System { .. } => rest,
            m => rest.push(anthropic_message_json(m)),
        }
    }
}

/// The role of each message sent to Anthropic is `user` or `assistant`:
/// system messages never appear among them.
pub proof fn law_anthropic_messages_have_no_system_role(ms: Seq<Message>, i: int)
    requires
        0 <= i < anthropic_messages(ms).len(),
    ensures
        jv_get(anthropic_messages(ms)[i], "role"@) == Some(JsonV::Str("user"@)) || jv_get(
            anthropic_messages(ms)[i],
            "role"@,
        ) == Some(JsonV::Str("assistant"@)),
    decreases ms.len(),
{
    let rest = anthropic_messages(ms.drop_last());
    if i < rest.len() {
        law_anthropic_messages_have_no_system_role(ms.drop_last(), i);
    } else {
        reveal_with_fuel(crate::json::fields_get, 2);
    }
}

/// The system prompt of a conversation: the content of its last system message.
pub open spec fn system_prompt_of(ms: Seq<Message>) -> Option<Seq<char>>
    decreases ms.len(),
{
    if ms.len() == 0 {
        None
    } else {
        match ms.last() {
            Message::System { content } => Some(content@),
            _ => system_prompt_of(ms.drop_last()),
        }
    }
}

/// An Anthropic tool declaration.
pub open spec fn anthropic_tool_json(t: ToolSchema) -> JsonV {
    obj3(
        "name"@,
        JsonV::Str(t.name@),
        "description"@,
        JsonV::Str(t.description@),
        "input_schema"@,
        t.input_schema@,
    )
}

/// The token limit sent when none is configured.
pub const ANTHROPIC_DEFAULT_MAX_TOKENS: u64 = 4096;

/// The body of an Anthropic messages request.
pub open spec fn anthropic_body(cfg: ProviderConfig, ms: Seq<Message>, tools: Seq<ToolSchema>) -> JsonV {
    let max = match cfg.max_tokens {
        Some(n) => n,
        None => ANTHROPIC_DEFAULT_MAX_TOKENS,
    };
    let base = seq![
        ("model"@, JsonV::Str(cfg.model@)),
        ("messages"@, JsonV::Array(anthropic_messages(ms))),
        ("max_tokens"@, JsonV::Number(decimal_text(max as nat))),
    ];
    let a = match system_prompt_of(ms) {
        Some(s) => base.push(("system"@, JsonV::Str(s))),
        None => base,
    };
    let b = match cfg.temperature {
        Some(t) => a.push(("temperature"@, JsonV::Number(t@))),
        None => a,
    };
    if tools.len() > 0 {
        JsonV::Object(b.push(("tools"@, JsonV::Array(tools.map_values(|t: ToolSchema| anthropic_tool_json(t))))))
    } else {
        JsonV::Object(b)
    }
}

/// Builds an Anthropic `tool_use` block.
fn anthropic_use(tc: &ToolCall) -> (r: Json)
    ensures
        r@ == anthropic_use_json(*tc),
{
    let mut fs: Vec<(String, Json)> = Vec::new();
    jfield(&mut fs, "type", jstr("tool_use"));
    jfield(&mut fs, "id", jstring(&tc.id));
    jfield(&mut fs, "name", jstring(&tc.name));
    let ghost a = tc.arguments@;
    jfield(&mut fs, "input", tc.arguments.deep_clone());
    assert(json_fields_view(fs@) =~= seq![
        ("type"@, JsonV::Str("tool_use"@)),
        ("id"@, JsonV::Str(tc.id@)),
        ("name"@, JsonV::Str(tc.name@)),
        ("input"@, a),
    ]);
    Json::Object(fs)
}

/// Builds the content blocks of an assistant message with tool calls.
fn anthropic_block_list(tool_calls: &Vec<ToolCall>, content: &Option<String>) -> (r: Vec<Json>)
    ensures
        json_seq_view(r@) == anthropic_blocks(tool_calls@, *content),
{
    let mut blocks: Vec<Json> = Vec::new();
    match content {
        Some(t) => {
            if !t.as_str().is_empty() {
                jpush(&mut blocks, make_obj2("type", jstr("text"), "text", jstring(t)));
            }
        },
        None => {},
    }
    let ghost head = json_seq_view(blocks@);
    let mut i: usize = 0;
    while i < tool_calls.len()
        invariant
            i <= tool_calls.len(),
            json_seq_view(blocks@) == head + tool_calls@.subrange(0, i as int).map_values(
                |tc: ToolCall| anthropic_use_json(tc),
            ),
        decreases tool_calls.len() - i,
    {
        jpush(&mut blocks, anthropic_use(&tool_calls[i]));
        assert(head + tool_calls@.subrange(0, i + 1).map_values(|tc: ToolCall| anthropic_use_json(tc))
            =~= (head + tool_calls@.subrange(0, i as int).map_values(|tc: ToolCall| anthropic_use_json(tc))).push(
            anthropic_use_json(tool_calls@[i as int]),
        ));
        i = i + 1;
    }
    assert(tool_calls@.subrange(0, i as int) =~= tool_calls@);
    blocks
}

/// Builds the Anthropic message for a message other than a system message.
fn anthropic_message(m: &Message) -> (r: Json)
    requires
        !(*m is System),
    ensures
        r@ == anthropic_message_json(*m),
{
    match m {
        Message::User { content } => make_obj2("role", jstr("user"), "content", jstring(content)),
        Message::Assistant { content } => make_obj2("role", jstr("assistant"), "content", jstring(content)),
        Message::AssistantToolCalls { tool_calls, content } => {
            let blocks = anthropic_block_list(tool_calls, content);
            make_obj2("role", jstr("assistant"), "content", Json::Array(blocks))
        },
        Message::ToolResult { tool_call_id, result, success, .. } => {
            let text = if *success {
                result.clone()
            } else {
                concat("Error: ", result.as_str())
            };
            let block = make_obj3(
                "type",
                jstr("tool_result"),
                "tool_use_id",
                jstring(tool_call_id),
                "content",
                Json::Str(text),
            );
            let mut one: Vec<Json> = Vec::new();
            let ghost bv = block@;
            jpush(&mut one, block);
            assert(json_seq_view(one@) =~= seq![bv]);
            make_obj2("role", jstr("user"), "content", Json::Array(one))
        },
        Message::System { .. } => Json::Null,
    }
}

/// Builds one Anthropic tool declaration.
fn anthropic_tool(t: &ToolSchema) -> (r: Json)
    ensures
        r@ == anthropic_tool_json(*t),
{
    make_obj3(
        "name",
        jstring(&t.name),
        "description",
        jstring(&t.description),
        "input_schema",
        t.input_schema.deep_clone(),
    )
}

/// A provider speaking the Anthropic messages protocol.
#[derive(Debug)]
pub struct AnthropicProvider {
    pub config: ProviderConfig,
}

impl AnthropicProvider {
    /// A provider for the given configuration.
    pub fn new(config: ProviderConfig) -> (p: Self)
        ensures
            p.config == config,
    {
        AnthropicProvider { config }
    }

    /// The provider's configuration.
    pub fn config(&self) -> (c: &ProviderConfig)
        ensures
            *c == self.config,
    {
        &self.config
    }

    /// The system prompt, taken out of the message list, and the JSON body of a
    /// messages request.
    pub fn build_request_body(&self, messages: &[Message], tools: &[ToolSchema]) -> (r: (Option<String>, Json))
        ensures
            opt_view(r.0) == system_prompt_of(messages@),
            r.1@ == anthropic_body(self.config, messages@, tools@),
    {
        let mut system: Option<String> = None;
        let mut arr: Vec<Json> = Vec::new();
        let mut i: usize = 0;
        while i < messages.len()
            invariant
                i <= messages.len(),
                json_seq_view(arr@) == anthropic_messages(messages@.subrange(0, i as int)),
                opt_view(system) == system_prompt_of(messages@.subrange(0, i as int)),
            decreases messages.len() - i,
        {
            let ghost pre = messages@.subrange(0, i as int);
            assert(messages@.subrange(0, i + 1).drop_last() =~= pre);
            match &messages[i] {
                Message::System { content } => {
                    system = Some(content.clone());
                },
                m => {
                    jpush(&mut arr, anthropic_message(m));
                },
            }
            i = i + 1;
        }
        assert(messages@.subrange(0, i as int) =~= messages@);
        let max = match self.config.max_tokens {
            Some(n) => n,
            None => ANTHROPIC_DEFAULT_MAX_TOKENS,
        };
        let mut fs: Vec<(String, Json)> = Vec::new();
        jfield(&mut fs, "model", jstring(&self.config.model));
        let ghost msgs = json_seq_view(arr@);
        jfield(&mut fs, "messages", Json::Array(arr));
        jfield(&mut fs, "max_tokens", Json::Number(u64_text(max)));
        assert(json_fields_view(fs@) =~= seq![
            ("model"@, JsonV::Str(self.config.model@)),
            ("messages"@, JsonV::Array(msgs)),
            ("max_tokens"@, JsonV::Number(decimal_text(max as nat))),
        ]);
        match &system {
            Some(s) => jfield(&mut fs, "system", jstring(s)),
            None => {},
        }
        match &self.config.temperature {
            Some(t) => jfield(&mut fs, "temperature", Json::Number(t.clone())),
            None => {},
        }
        if tools.len() > 0 {
            let mut ts: Vec<Json> = Vec::new();
            let mut j: usize = 0;
            while j < tools.len()
                invariant
                    j <= tools.len(),
                    json_seq_view(ts@) == tools@.subrange(0, j as int).map_values(
                        |t: ToolSchema| anthropic_tool_json(t),
                    ),
                decreases tools.len() - j,
            {
                jpush(&mut ts, anthropic_tool(&tools[j]));
                assert(tools@.subrange(0, j + 1).map_values(|t: ToolSchema| anthropic_tool_json(t))
                    =~= tools@.subrange(0, j as int).map_values(|t: ToolSchema| anthropic_tool_json(t)).push(
                    anthropic_tool_json(tools@[j as int]),
                ));
                j = j + 1;
            }
            assert(tools@.subrange(0, j as int) =~= tools@);
            jfield(&mut fs, "tools", Json::Array(ts));
        }
        (system, Json::Object(fs))
    }
}

/// `base_url` without trailing slashes.
pub open spec fn trim_end_slashes(s: Seq<char>) -> Seq<char>
    decreases s.len(),
{
    if s.len() > 0 && s.last() == '/' {
        trim_end_slashes(s.drop_last())
    } else {
        s
    }
}

/// `base_url` with trailing slashes and then one trailing `/v1` removed.
pub open spec fn stripped_base(s: Seq<char>) -> Seq<char> {
    let t = trim_end_slashes(s);
    if ends_with(t, "/v1"@) {
        t.subrange(0, t.len() - 3)
    } else {
        t
    }
}

/// Strips trailing slashes, then a trailing `/v1`, from a base URL.
pub fn strip_trailing_v1(base_url: &str) -> (r: String)
    ensures
        r@ == stripped_base(base_url@),
{
    let v = chars_of(base_url);
    let mut end = v.len();
    assert(v@.subrange(0, end as int) =~= v@);
    while end > 0 && v[end - 1] == '/'
        invariant
            end <= v.len(),
            v@ == base_url@,
            trim_end_slashes(v@) == trim_end_slashes(v@.subrange(0, end as int)),
        decreases end,
    {
        assert(v@.subrange(0, end as int).drop_last() =~= v@.subrange(0, end - 1));
        end = end - 1;
    }
    assert(v@.subrange(0, end as int) =~= v@.subrange(0, end as int));
    let t = string_of(&v, 0, end);
    let tv = chars_of(t.as_str());
    let suffix = chars_of("/v1");
    proof {
        if end == 0 {
            assert(trim_end_slashes(v@.subrange(0, 0)) == v@.subrange(0, 0));
        } else {
            assert(v@.subrange(0, end as int).last() == v@[end - 1]);
        }
        reveal_strlit("/v1");
    }
    if ends_with_exec(&tv, &suffix) {
        string_of(&tv, 0, tv.len() - 3)
    } else {
        t
    }
}

// ---------------------------------------------------------------------------
// Reading responses
// ---------------------------------------------------------------------------

/// A token count read from `u[k]`: the number truncated to 32 bits, 0 when absent.
pub open spec fn u32_field(u: JsonV, k: Seq<char>) -> u32 {
    match jv_u64(jv_get(u, k)) {
        Some(n) => n as u32,
        None => 0,
    }
}

/// Reads a token count from `u[k]`.
fn read_u32_field(u: &Json, k: &str) -> (n: u32)
    ensures
        n == u32_field(u@, k@),
{
    match u.get(k) {
        Some(x) => match x.as_u64() {
            Some(n) => n as u32,
            None => 0,
        },
        None => 0,
    }
}

/// The arguments of a tool call read from JSON text; an empty object when the text is not JSON.
pub open spec fn parsed_args(t: Seq<char>) -> JsonV {
    match json_parse(t) {
        Ok(v) => v,
        Err(_) => JsonV::Object(Seq::empty()),
    }
}

/// The usage of an OpenAI response.
pub open spec fn openai_usage(v: JsonV) -> Usage {
    match jv_get(v, "usage"@) {
        Some(u) => Usage {
            prompt_tokens: u32_field(u, "prompt_tokens"@),
            completion_tokens: u32_field(u, "completion_tokens"@),
            total_tokens: u32_field(u, "total_tokens"@),
        },
        None => Usage::zero(),
    }
}

/// An OpenAI tool call entry, when it has an id, a function name and argument text.
pub open spec fn openai_call_of(tc: JsonV) -> Option<ToolCallV> {
    match (jv_str(jv_get(tc, "id"@)), jv_get(tc, "function"@)) {
        (Some(id), Some(f)) => match (jv_str(jv_get(f, "name"@)), jv_str(jv_get(f, "arguments"@))) {
            (Some(name), Some(args)) => Some(ToolCallV { id, name, arguments: parsed_args(args) }),
            _ => None,
        },
        _ => None,
    }
}

/// The well-formed tool call entries of an OpenAI message, in order.
pub open spec fn openai_calls_of(a: Seq<JsonV>) -> Seq<ToolCallV>
    decreases a.len(),
{
    if a.len() == 0 {
        Seq::empty()
    } else {
        let r = openai_calls_of(a.drop_last());
        match openai_call_of(a.last()) {
            Some(c) => r.push(c),
            None => r,
        }
    }
}

/// An optional text, empty when absent.
pub open spec fn or_empty(t: Option<Seq<char>>) -> Seq<char> {
    match t {
        Some(s) => s,
        None => Seq::empty(),
    }
}

/// What an OpenAI chat completions response reads as.
pub open spec fn openai_parse(v: JsonV) -> Result<LlmResponseV, Seq<char>> {
    let usage = openai_usage(v);
    match jv_get(v, "choices"@) {
        None => Err("missing choices field"@),
        Some(c) => match jv_array(Some(c)) {
            None => Err("choices is not an array"@),
            Some(arr) => if arr.len() == 0 {
                Err("empty choices array"@)
            } else {
                match jv_get(arr[0], "message"@) {
                    None => Err("missing message field"@),
                    Some(msg) => {
                        let content = jv_str(jv_get(msg, "content"@));
                        let calls = match jv_array(jv_get(msg, "tool_calls"@)) {
                            Some(a) => openai_calls_of(a),
                            None => Seq::empty(),
                        };
                        if calls.len() > 0 {
                            Ok(LlmResponseV::ToolCalls { calls, text: content, usage })
                        } else {
                            Ok(LlmResponseV::Text { content: or_empty(content), usage })
                        }
                    },
                }
            },
        },
    }
}

/// The error of a response that does not read.
fn parse_error(msg: &str) -> (e: LlmError)
    ensures
        e matches LlmError::ParseError(m) && m@ == msg@,
{
    LlmError::ParseError(crate::text::ToOwnedString::to_owned_string(msg))
}

/// A text read from JSON, as an owned string.
fn opt_string(x: Option<&String>) -> (r: Option<String>)
    ensures
        opt_view(r) == (match x {
            Some(s) => Some(s@),
            None => None::<Seq<char>>,
        }),
{
    match x {
        Some(s) => Some(s.clone()),
        None => None,
    }
}

/// Reads one OpenAI tool call entry.
fn openai_call_read(tc: &Json) -> (r: Option<ToolCall>)
    ensures
        r matches Some(c) ==> openai_call_of(tc@) == Some(c@),
        r is None ==> openai_call_of(tc@) is None,
{
    let id = match tc.get("id") {
        Some(x) => match x.as_str() {
            Some(s) => s.clone(),
            None => return None,
        },
        None => return None,
    };
    let f = match tc.get("function") {
        Some(f) => f,
        None => return None,
    };
    let name = match f.get("name") {
        Some(x) => match x.as_str() {
            Some(s) => s.clone(),
            None => return None,
        },
        None => return None,
    };
    let args = match f.get("arguments") {
        Some(x) => match x.as_str() {
            Some(s) => s,
            None => return None,
        },
        None => return None,
    };
    let arguments = match parse_json(args.as_str()) {
        Ok(v) => v,
        Err(_) => Json::Object(Vec::new()),
    };
    assert(json_fields_view(Seq::<(String, Json)>::empty()) =~= Seq::empty());
    Some(ToolCall { id, name, arguments })
}

impl OpenAIProvider {
    /// Reads a chat completions response.
    pub fn parse_response(&self, value: &Json) -> (r: Result<LlmResponse, LlmError>)
        ensures
            r matches Ok(resp) ==> openai_parse(value@) == Ok::<LlmResponseV, Seq<char>>(resp@),
            r matches Err(e) ==> e matches LlmError::ParseError(m) && openai_parse(value@)
                == Err::<LlmResponseV, Seq<char>>(m@),
    {
        let usage = match value.get("usage") {
            Some(u) => Usage {
                prompt_tokens: read_u32_field(u, "prompt_tokens"),
                completion_tokens: read_u32_field(u, "completion_tokens"),
                total_tokens: read_u32_field(u, "total_tokens"),
            },
            None => Usage { prompt_tokens: 0, completion_tokens: 0, total_tokens: 0 },
        };
        let choices = match value.get("choices") {
            Some(c) => match c.as_array() {
                Some(a) => a,
                None => return Err(parse_error("choices is not an array")),
            },
            None => return Err(parse_error("missing choices field")),
        };
        proof {
            lemma_seq_view_index(choices@);
        }
        if choices.len() == 0 {
            return Err(parse_error("empty choices array"));
        }
        let message = match choices[0].get("message") {
            Some(m) => m,
            None => return Err(parse_error("missing message field")),
        };
        let content = match message.get("content") {
            Some(c) => opt_string(c.as_str()),
            None => None,
        };
        let mut calls: Vec<ToolCall> = Vec::new();
        match message.get("tool_calls") {
            Some(tcs) => match tcs.as_array() {
                Some(arr) => {
                    proof {
                        lemma_seq_view_index(arr@);
                    }
                    let mut i: usize = 0;
                    while i < arr.len()
                        invariant
                            i <= arr.len(),
                            json_seq_view(arr@).len() == arr@.len(),
                            forall|j: int| 0 <= j < arr@.len() ==> #[trigger] json_seq_view(arr@)[j] == arr@[j]@,
                            calls_view(calls@) == openai_calls_of(json_seq_view(arr@).subrange(0, i as int)),
                        decreases arr.len() - i,
                    {
                        let ghost pre = json_seq_view(arr@).subrange(0, i as int);
                        assert(json_seq_view(arr@).subrange(0, i + 1).drop_last() =~= pre);
                        match openai_call_read(&arr[i]) {
                            Some(c) => {
                                calls.push(c);
                                assert(calls_view(calls@) =~= calls_view(calls@.drop_last()).push(c@));
                            },
                            None => {},
                        }
                        i = i + 1;
                    }
                    assert(json_seq_view(arr@).subrange(0, i as int) =~= json_seq_view(arr@));
                },
                None => {},
            },
            None => {},
        }
        if calls.len() > 0 {
            Ok(LlmResponse::ToolCalls { calls, text: content, usage })
        } else {
            let text = match content {
                Some(t) => t,
                None => String::new(),
            };
            Ok(LlmResponse::Text { content: text, usage })
        }
    }
}

/// The usage counts of an Anthropic response, before the total is formed.
pub open spec fn anthropic_counts(v: JsonV) -> (u32, u32) {
    match jv_get(v, "usage"@) {
        Some(u) => (u32_field(u, "input_tokens"@), u32_field(u, "output_tokens"@)),
        None => (0, 0),
    }
}

/// The usage of an Anthropic response.
pub open spec fn anthropic_usage(v: JsonV) -> Usage {
    match jv_get(v, "usage"@) {
        Some(u) => Usage {
            prompt_tokens: anthropic_counts(v).0,
            completion_tokens: anthropic_counts(v).1,
            total_tokens: (anthropic_counts(v).0 + anthropic_counts(v).1) as u32,
        },
        None => Usage::zero(),
    }
}

/// The `type` of a content block, empty when absent.
pub open spec fn block_type(b: JsonV) -> Seq<char> {
    or_empty(jv_str(jv_get(b, "type"@)))
}

/// The text parts of Anthropic content blocks, in order.
pub open spec fn anthropic_texts(bs: Seq<JsonV>) -> Seq<Seq<char>>
    decreases bs.len(),
{
    if bs.len() == 0 {
        Seq::empty()
    } else {
        let r = anthropic_texts(bs.drop_last());
        let b = bs.last();
        if block_type(b) == "text"@ {
            match jv_str(jv_get(b, "text"@)) {
                Some(t) => r.push(t),
                None => r,
            }
        } else {
            r
        }
    }
}

/// The tool calls of Anthropic content blocks, in order.
pub open spec fn anthropic_calls(bs: Seq<JsonV>) -> Seq<ToolCallV>
    decreases bs.len(),
{
    if bs.len() == 0 {
        Seq::empty()
    } else {
        let r = anthropic_calls(bs.drop_last());
        let b = bs.last();
        if block_type(b) == "tool_use"@ {
            r.push(
                ToolCallV {
                    id: or_empty(jv_str(jv_get(b, "id"@))),
                    name: or_empty(jv_str(jv_get(b, "name"@))),
                    arguments: match jv_get(b, "input"@) {
                        Some(i) => i,
                        None => JsonV::Object(Seq::empty()),
                    },
                },
            )
        } else {
            r
        }
    }
}

/// The content blocks of type `tool_use`, in order.
pub open spec fn tool_use_blocks(bs: Seq<JsonV>) -> Seq<JsonV> {
    bs.filter(|b: JsonV| block_type(b) == "tool_use"@)
}

/// Every `tool_use` content block gives one call, in order: the calls are
/// as many as the `tool_use` blocks, and the k-th call carries the id, name
/// and input of the k-th `tool_use` block.
pub proof fn law_anthropic_calls_one_per_tool_use(bs: Seq<JsonV>)
    ensures
        anthropic_calls(bs).len() == tool_use_blocks(bs).len(),
        forall|k: int|
            0 <= k < anthropic_calls(bs).len() ==> (#[trigger] anthropic_calls(bs)[k]).id == or_empty(
                jv_str(jv_get(tool_use_blocks(bs)[k], "id"@)),
            ) && anthropic_calls(bs)[k].name == or_empty(jv_str(jv_get(tool_use_blocks(bs)[k], "name"@)))
                && anthropic_calls(bs)[k].arguments == match jv_get(tool_use_blocks(bs)[k], "input"@) {
                Some(i) => i,
                None => JsonV::Object(Seq::empty()),
            },
    decreases bs.len(),
{
    reveal(Seq::filter);
    if bs.len() > 0 {
        let prev = bs.drop_last();
        law_anthropic_calls_one_per_tool_use(prev);
        let us = tool_use_blocks(bs);
        let uq = tool_use_blocks(prev);
        if block_type(bs.last()) == "tool_use"@ {
            assert(us == uq.push(bs.last()));
        } else {
            assert(us == uq);
        }
        assert forall|k: int| 0 <= k < anthropic_calls(bs).len() implies (#[trigger] anthropic_calls(bs)[k]).id
            == or_empty(jv_str(jv_get(us[k], "id"@))) && anthropic_calls(bs)[k].name == or_empty(
            jv_str(jv_get(us[k], "name"@)),
        ) && anthropic_calls(bs)[k].arguments == match jv_get(us[k], "input"@) {
            Some(i) => i,
            None => JsonV::Object(Seq::empty()),
        } by {
            if k < anthropic_calls(prev).len() {
                assert(anthropic_calls(bs)[k] == anthropic_calls(prev)[k]);
                assert(us[k] == uq[k]);
            }
        }
    }
}

/// Texts joined with nothing between them.
pub open spec fn join_all(ts: Seq<Seq<char>>) -> Seq<char>
    decreases ts.len(),
{
    if ts.len() == 0 {
        Seq::empty()
    } else {
        join_all(ts.drop_last()) + ts.last()
    }
}

/// What an Anthropic messages response reads as.
pub open spec fn anthropic_parse(v: JsonV) -> Result<LlmResponseV, Seq<char>> {
    let usage = anthropic_usage(v);
    match jv_get(v, "content"@) {
        None => Err("missing content field"@),
        Some(c) => match jv_array(Some(c)) {
            None => Err("content is not an array"@),
            Some(bs) => {
                let texts = anthropic_texts(bs);
                let text = if texts.len() == 0 {
                    None
                } else {
                    Some(join_all(texts))
                };
                let calls = anthropic_calls(bs);
                if calls.len() > 0 {
                    Ok(LlmResponseV::ToolCalls { calls, text, usage })
                } else {
                    Ok(LlmResponseV::Text { content: or_empty(text), usage })
                }
            },
        },
    }
}

/// A response whose content holds `tool_use` blocks reads as tool calls, one
/// per such block, in order.
pub proof fn law_anthropic_parse_tool_calls(v: JsonV, bs: Seq<JsonV>)
    requires
        jv_get(v, "content"@) == Some(JsonV::Array(bs)),
        tool_use_blocks(bs).len() > 0,
    ensures
        anthropic_parse(v) matches Ok(LlmResponseV::ToolCalls { calls, .. }) && calls.len() == tool_use_blocks(bs).len()
            && forall|k: int| 0 <= k < calls.len() ==> #[trigger] calls[k] == anthropic_calls(bs)[k],
{
    law_anthropic_calls_one_per_tool_use(bs);
}

/// The usage total of an Anthropic response fits in 32 bits (the addition does not overflow).
pub open spec fn anthropic_total_fits(v: JsonV) -> bool {
    anthropic_counts(v).0 + anthropic_counts(v).1 <= u32::MAX
}

/// A text read from a block field, empty when absent.
fn str_field_or_empty(b: &Json, k: &str) -> (s: String)
    ensures
        s@ == or_empty(jv_str(jv_get(b@, k@))),
{
    match b.get(k) {
        Some(x) => match x.as_str() {
            Some(t) => t.clone(),
            None => String::new(),
        },
        None => String::new(),
    }
}

impl AnthropicProvider {
    /// Whether the usage total of a response fits in 32 bits.
    pub fn usage_total_fits(value: &Json) -> (b: bool)
        ensures
            b == anthropic_total_fits(value@),
    {
        let (i, o) = match value.get("usage") {
            Some(u) => (read_u32_field(u, "input_tokens"), read_u32_field(u, "output_tokens")),
            None => (0, 0),
        };
        i as u64 + o as u64 <= u32::MAX as u64
    }

    /// Reads a messages response.
    pub fn parse_response(&self, value: &Json) -> (r: Result<LlmResponse, LlmError>)
        requires
            anthropic_total_fits(value@),
        ensures
            r matches Ok(resp) ==> anthropic_parse(value@) == Ok::<LlmResponseV, Seq<char>>(resp@),
            r matches Err(e) ==> e matches LlmError::ParseError(m) && anthropic_parse(value@)
                == Err::<LlmResponseV, Seq<char>>(m@),
    {
        let usage = match value.get("usage") {
            Some(u) => {
                let p = read_u32_field(u, "input_tokens");
                let c = read_u32_field(u, "output_tokens");
                Usage { prompt_tokens: p, completion_tokens: c, total_tokens: p + c }
            },
            None => Usage { prompt_tokens: 0, completion_tokens: 0, total_tokens: 0 },
        };
        let blocks = match value.get("content") {
            Some(c) => match c.as_array() {
                Some(a) => a,
                None => return Err(parse_error("content is not an array")),
            },
            None => return Err(parse_error("missing content field")),
        };
        proof {
            lemma_seq_view_index(blocks@);
        }
        let mut text = String::new();
        let mut parts: usize = 0;
        let mut calls: Vec<ToolCall> = Vec::new();
        let mut i: usize = 0;
        while i < blocks.len()
            invariant
                i <= blocks.len(),
                json_seq_view(blocks@).len() == blocks@.len(),
                forall|j: int| 0 <= j < blocks@.len() ==> #[trigger] json_seq_view(blocks@)[j] == blocks@[j]@,
                parts == anthropic_texts(json_seq_view(blocks@).subrange(0, i as int)).len(),
                parts <= i,
                text@ == join_all(anthropic_texts(json_seq_view(blocks@).subrange(0, i as int))),
                calls_view(calls@) == anthropic_calls(json_seq_view(blocks@).subrange(0, i as int)),
            decreases blocks.len() - i,
        {
            let ghost pre = json_seq_view(blocks@).subrange(0, i as int);
            assert(json_seq_view(blocks@).subrange(0, i + 1).drop_last() =~= pre);
            proof {
                reveal_strlit("text");
                reveal_strlit("tool_use");
                assert("text"@.len() != "tool_use"@.len());
            }
            let b = &blocks[i];
            let ty = str_field_or_empty(b, "type");
            if crate::text::str_eq(ty.as_str(), "text") {
                match b.get("text") {
                    Some(x) => match x.as_str() {
                        Some(t) => {
                            let ghost ts = anthropic_texts(pre);
                            assert(ts.push(t@).drop_last() =~= ts);
                            text.append(t.as_str());
                            parts = parts + 1;
                        },
                        None => {},
                    },
                    None => {},
                }
            } else if crate::text::str_eq(ty.as_str(), "tool_use") {
                let id = str_field_or_empty(b, "id");
                let name = str_field_or_empty(b, "name");
                let input = match b.get("input") {
                    Some(x) => x.deep_clone(),
                    None => Json::Object(Vec::new()),
                };
                assert(json_fields_view(Seq::<(String, Json)>::empty()) =~= Seq::empty());
                let c = ToolCall { id, name, arguments: input };
                calls.push(c);
                assert(calls_view(calls@) =~= calls_view(calls@.drop_last()).push(c@));
            }
            i = i + 1;
        }
        assert(json_seq_view(blocks@).subrange(0, i as int) =~= json_seq_view(blocks@));
        let text_opt = if parts == 0 {
            None
        } else {
            Some(text)
        };
        if calls.len() > 0 {
            Ok(LlmResponse::ToolCalls { calls, text: text_opt, usage })
        } else {
            let t = match text_opt {
                Some(t) => t,
                None => String::new(),
            };
            Ok(LlmResponse::Text { content: t, usage })
        }
    }
}

// ---------------------------------------------------------------------------
// Endpoints
// ---------------------------------------------------------------------------

/// The base URL of a provider: the configured one, or `default`.
pub open spec fn base_or(config: ProviderConfig, default: Seq<char>) -> Seq<char> {
    match config.base_url {
        Some(b) => b@,
        None => default,
    }
}

impl OpenAIProvider {
    /// The URL of a chat completions request: the base URL (the OpenAI API
    /// when none is set) followed by `/chat/completions`.
    pub fn endpoint(&self) -> (r: String)
        ensures
            r@ == base_or(self.config, "https://api.openai.com"@) + "/chat/completions"@,
    {
        match &self.config.base_url {
            Some(b) => concat(b.as_str(), "/chat/completions"),
            None => concat("https://api.openai.com", "/chat/completions"),
        }
    }
}

impl AnthropicProvider {
    /// The URL of a messages request: the base URL (the Anthropic API when
    /// none is set) without its trailing `/v1`, followed by `/v1/messages`.
    pub fn endpoint(&self) -> (r: String)
        ensures
            r@ == stripped_base(base_or(self.config, "https://api.anthropic.com"@)) + "/v1/messages"@,
    {
        let base = match &self.config.base_url {
            Some(b) => strip_trailing_v1(b.as_str()),
            None => strip_trailing_v1("https://api.anthropic.com"),
        };
        concat(base.as_str(), "/v1/messages")
    }
}

/// A provider for a configuration.
#[derive(Debug)]
pub enum Provider {
    OpenAI(OpenAIProvider),
    Anthropic(AnthropicProvider),
}

/// The provider of a configuration, by its protocol; refused for Gemini, which
/// has no provider yet.
pub fn create_provider(config: ProviderConfig) -> (r: Result<Provider, String>)
    ensures
        match r {
            Ok(Provider::OpenAI(p)) => config.protocol == Protocol::OpenAI && p.config == config,
            Ok(Provider::Anthropic(p)) => config.protocol == Protocol::Anthropic && p.config == config,
            Err(m) => config.protocol == Protocol::Gemini && m@ == "Gemini protocol not yet implemented"@,
        },
{
    match config.protocol {
        Protocol::OpenAI => Ok(Provider::OpenAI(OpenAIProvider::new(config))),
        Protocol::Anthropic => Ok(Provider::Anthropic(AnthropicProvider::new(config))),
        Protocol::Gemini => Err(crate::text::ToOwnedString::to_owned_string("Gemini protocol not yet implemented")),
    }
}

} // verus!
