//! The knowledge bus: messages that agents publish for one another, and the
//! summary of them that goes into a prompt.
use vstd::prelude::*;
use crate::json::{Json, JsonV, fields_get, jv_str, json_text, to_json_text};
use crate::text::{chars_of, string_of, ToOwnedString};

verus! {

/// `tokio::sync::broadcast::Sender`, the sending half of the bus.
#[verifier::external_type_specification]
#[verifier::external_body]
#[verifier::reject_recursive_types(T)]
pub struct ExBroadcastSender<T>(tokio::sync::broadcast::Sender<T>);

/// `tokio::sync::broadcast::Receiver`, what a subscriber reads from.
#[verifier::external_type_specification]
#[verifier::external_body]
#[verifier::reject_recursive_types(T)]
pub struct ExBroadcastReceiver<T>(tokio::sync::broadcast::Receiver<T>);

/// A message published on the bus.
#[derive(Debug, Clone)]
pub struct KnowledgeMessage {
    /// The agent that published it.
    pub source_agent: String,
    /// Its channel: `discovery`, `warning`, `state` or `insight`.
    pub channel: String,
    pub payload: Json,
    /// When it was made (RFC 3339).
    pub timestamp: String,
}

/// Calls `chrono::Utc::now().to_rfc3339()`. Nothing is claimed of the time it reads.
#[verifier::external_body]
fn now_rfc3339() -> String {
    chrono::Utc::now().to_rfc3339()
}

impl KnowledgeMessage {
    /// A message stamped with the current time.
    pub fn new(source_agent: &str, channel: &str, payload: Json) -> (m: Self)
        ensures
            m.source_agent@ == source_agent@,
            m.channel@ == channel@,
            m.payload == payload,
    {
        KnowledgeMessage {
            source_agent: source_agent.to_owned_string(),
            channel: channel.to_owned_string(),
            payload,
            timestamp: now_rfc3339(),
        }
    }
}

/// The capacity a channel was asked for when it was made (`tokio` rounds the
/// buffer it allocates up to a power of two).
pub uninterp spec fn requested_capacity(s: tokio::sync::broadcast::Sender<KnowledgeMessage>) -> nat;

/// Calls `tokio::sync::broadcast::channel` and keeps the sending half; claims
/// only that the channel records the capacity it was asked for. The
/// function panics on a capacity of zero or above `usize::MAX / 2`, which
/// `requires` leaves out.
#[verifier::external_body]
fn broadcast_channel(capacity: usize) -> (s: tokio::sync::broadcast::Sender<KnowledgeMessage>)
    requires
        0 < capacity <= usize::MAX / 2,
    ensures
        requested_capacity(s) == capacity,
{
    tokio::sync::broadcast::channel(capacity).0
}

/// Calls `Sender::send`. Its result (how many receivers there were, or the
/// message back when there were none) is dropped; nothing is claimed of it.
#[verifier::external_body]
fn broadcast_send(sender: &tokio::sync::broadcast::Sender<KnowledgeMessage>, message: KnowledgeMessage) {
    let _ = sender.send(message);
}

/// The capacity that the channel a receiver listens on was asked for when it
/// was made.
pub uninterp spec fn receiver_capacity(r: tokio::sync::broadcast::Receiver<KnowledgeMessage>) -> nat;

/// Calls `Sender::subscribe`, which hands out a receiver on the sender's own
/// channel; claims that the receiver's channel is one made with the sender's
/// capacity. That it is the very same channel, and which messages it will
/// yield (those sent after the call), is left unsaid: a channel is known by
/// its address, and what it yields depends on when others send.
#[verifier::external_body]
fn broadcast_subscribe(
    sender: &tokio::sync::broadcast::Sender<KnowledgeMessage>,
) -> (r: tokio::sync::broadcast::Receiver<KnowledgeMessage>)
    ensures
        receiver_capacity(r) == requested_capacity(*sender),
{
    sender.subscribe()
}

/// `Sender::clone`: another handle on the same channel. Nothing is claimed of it.
pub assume_specification<T>[ <tokio::sync::broadcast::Sender<T> as Clone>::clone ](
    sender: &tokio::sync::broadcast::Sender<T>,
) -> tokio::sync::broadcast::Sender<T>;

/// The bus that all agents share. A subscriber receives the messages published
/// after it subscribed; when it falls more than the capacity behind, the
/// oldest are dropped.
#[derive(Clone)]
pub struct KnowledgeBus {
    sender: tokio::sync::broadcast::Sender<KnowledgeMessage>,
}

impl KnowledgeBus {
    /// The capacity the bus was made with.
    pub closed spec fn capacity(&self) -> nat {
        requested_capacity(self.sender)
    }

    /// A bus that keeps up to `capacity` messages for slow subscribers.
    pub fn new(capacity: usize) -> (b: Self)
        requires
            0 < capacity <= usize::MAX / 2,
        ensures
            b.capacity() == capacity,
    {
        KnowledgeBus { sender: broadcast_channel(capacity) }
    }

    /// Publishes a message to every subscriber; with none, it is dropped.
    pub fn publish(&self, message: KnowledgeMessage) {
        broadcast_send(&self.sender, message);
    }

    /// A receiver of every message published from now on.
    pub fn subscribe(&self) -> (r: tokio::sync::broadcast::Receiver<KnowledgeMessage>)
        ensures
            receiver_capacity(r) == self.capacity(),
    {
        broadcast_subscribe(&self.sender)
    }

    /// Publishes `payload` from `agent` on the `discovery` channel.
    pub fn publish_discovery(&self, agent: &str, payload: Json) {
        self.publish(KnowledgeMessage::new(agent, "discovery", payload));
    }

    /// Publishes `payload` from `agent` on the `warning` channel.
    pub fn publish_warning(&self, agent: &str, payload: Json) {
        self.publish(KnowledgeMessage::new(agent, "warning", payload));
    }

    /// Publishes `payload` from `agent` on the `state` channel.
    pub fn publish_state(&self, agent: &str, payload: Json) {
        self.publish(KnowledgeMessage::new(agent, "state", payload));
    }

    /// Publishes `payload` from `agent` on the `insight` channel.
    pub fn publish_insight(&self, agent: &str, payload: Json) {
        self.publish(KnowledgeMessage::new(agent, "insight", payload));
    }
}

// ---------------------------------------------------------------------------
// The prompt summary of messages
// ---------------------------------------------------------------------------

/// What a message says in brief: a string payload itself, the `text` field of
/// an object (or a placeholder when it has none), else the payload's JSON text.
pub open spec fn payload_summary(p: JsonV) -> Seq<char> {
    match p {
        JsonV::Str(s) => s,
        JsonV::Object(fs) => match jv_str(fields_get(fs, "text"@)) {
            Some(t) => t,
            None => "（无详情）"@,
        },
        _ => json_text(p),
    }
}

/// The most characters of a summary that go into a prompt.
pub const SUMMARY_CHARS: usize = 200;

/// A summary cut to its first 200 characters.
pub open spec fn summary_cut(s: Seq<char>) -> Seq<char> {
    if s.len() > SUMMARY_CHARS {
        s.subrange(0, SUMMARY_CHARS as int)
    } else {
        s
    }
}

/// The line of one message.
pub open spec fn message_line(m: KnowledgeMessage) -> Seq<char> {
    "- ["@ + m.channel@ + "] Agent \""@ + m.source_agent@ + "\": "@ + summary_cut(payload_summary(m.payload@))
        + "\n"@
}

/// The lines of messages, in order.
pub open spec fn message_lines(ms: Seq<KnowledgeMessage>) -> Seq<char>
    decreases ms.len(),
{
    if ms.len() == 0 {
        Seq::empty()
    } else {
        message_lines(ms.drop_last()) + message_line(ms.last())
    }
}

/// The prompt section for messages: empty when there are none.
pub open spec fn formatted_messages(ms: Seq<KnowledgeMessage>) -> Seq<char> {
    if ms.len() == 0 {
        Seq::empty()
    } else {
        "## 协作消息\n来自其他 Agent 的信息：\n"@ + message_lines(ms)
    }
}

/// The summary of a payload.
fn summary_of(payload: &Json) -> (s: String)
    ensures
        s@ == payload_summary(payload@),
{
    match payload {
        Json::Str(s) => s.clone(),
        Json::Object(_) => match payload.get("text") {
            Some(v) => match v.as_str() {
                Some(t) => t.clone(),
                None => "（无详情）".to_owned_string(),
            },
            None => "（无详情）".to_owned_string(),
        },
        _ => to_json_text(payload),
    }
}

/// A summary cut to 200 characters.
fn cut_summary(s: &String) -> (t: String)
    ensures
        t@ == summary_cut(s@),
{
    let v = chars_of(s.as_str());
    if v.len() > SUMMARY_CHARS {
        string_of(&v, 0, SUMMARY_CHARS)
    } else {
        s.clone()
    }
}

impl KnowledgeBus {
    /// The prompt section for messages from other agents: a header, then one
    /// line per message with its summary cut to 200 characters; empty when
    /// there are none.
    pub fn format_messages(messages: &[KnowledgeMessage]) -> (r: String)
        ensures
            r@ == formatted_messages(messages@),
    {
        if messages.len() == 0 {
            return String::new();
        }
        let mut out = "## 协作消息\n来自其他 Agent 的信息：\n".to_owned_string();
        let mut i: usize = 0;
        while i < messages.len()
            invariant
                i <= messages.len(),
                messages.len() > 0,
                out@ == "## 协作消息\n来自其他 Agent 的信息：\n"@ + message_lines(messages@.subrange(0, i as int)),
            decreases messages.len() - i,
        {
            let m = &messages[i];
            let summary = summary_of(&m.payload);
            let cut = cut_summary(&summary);
            out.append("- [");
            out.append(m.channel.as_str());
            out.append("] Agent \"");
            out.append(m.source_agent.as_str());
            out.append("\": ");
            out.append(cut.as_str());
            out.append("\n");
            assert(messages@.subrange(0, i + 1).drop_last() =~= messages@.subrange(0, i as int));
            i = i + 1;
        }
        assert(messages@.subrange(0, i as int) =~= messages@);
        out
    }
}

} // verus!
