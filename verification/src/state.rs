//! The shared state of cooperating agents: declared intents to modify files and
//! resources, which keep two agents off the same files, and a versioned store
//! written by compare-and-swap.
use vstd::prelude::*;
use crate::assoc::{
    keys_distinct, has_key, lookup, assoc_insert, assoc_remove, key_index, lemma_lookup, lemma_lookup_insert,
    lemma_lookup_remove, find_key,
};
use crate::bus::{KnowledgeBus, KnowledgeMessage};
use crate::json::{Json, JsonV, jfield, jstr, json_str_array, str_values, json_fields_view, u64_text, decimal_text};
use crate::text::{starts_with, views, str_eq, chars_of, starts_with_exec, copy_strings, ToOwnedString, join, join_strings};

verus! {

// ---------------------------------------------------------------------------
// Intents
// ---------------------------------------------------------------------------

/// What an agent declares it will modify.
#[derive(Debug)]
pub struct IntentScope {
    /// File paths.
    pub files: Vec<String>,
    /// Logical resources.
    pub resources: Vec<String>,
}

/// The model of a scope.
pub struct ScopeV {
    pub files: Seq<Seq<char>>,
    pub resources: Seq<Seq<char>>,
}

impl View for IntentScope {
    type V = ScopeV;

    open spec fn view(&self) -> ScopeV {
        ScopeV { files: views(self.files@), resources: views(self.resources@) }
    }
}

impl IntentScope {
    /// A copy of this scope.
    pub fn copy(&self) -> (r: IntentScope)
        ensures
            r@ == self@,
    {
        IntentScope { files: copy_strings(&self.files), resources: copy_strings(&self.resources) }
    }
}

/// What an agent holds after declaring an intent.
#[derive(Debug)]
pub struct IntentTicket {
    pub agent: String,
    pub scope: IntentScope,
}

/// A value of the store with its version.
#[derive(Debug)]
pub struct StateEntry {
    pub value: Json,
    /// Incremented by every write; a key that was never written is at version 0.
    pub version: u64,
    /// The agent that wrote it last.
    pub last_modified_by: String,
}

/// The model of a store entry.
pub struct EntryV {
    pub value: JsonV,
    pub version: u64,
    pub last_modified_by: Seq<char>,
}

impl View for StateEntry {
    type V = EntryV;

    open spec fn view(&self) -> EntryV {
        EntryV { value: self.value@, version: self.version, last_modified_by: self.last_modified_by@ }
    }
}

/// Why a shared-state operation was refused.
#[derive(Debug)]
pub enum StateError {
    /// Another agent holds an intent that overlaps the one declared.
    Conflict { agent: String, conflicting_agent: String, conflicting_files: Vec<String> },
    /// The version of a key is not the one expected.
    VersionMismatch { key: String, expected: u64, actual: u64 },
}

/// The `Debug` text of a string: quoted, with quotes, backslashes and
/// control characters escaped.
pub uninterp spec fn debug_text(s: Seq<char>) -> Seq<char>;

/// Calls `<str as Debug>::fmt` through `format!("{:?}")`. Claims the text is a
/// function of the string alone.
#[verifier::external_body]
fn debug_str(s: &str) -> (r: String)
    ensures
        r@ == debug_text(s@),
{
    format!("{:?}", s)
}

/// The `Debug` text of a list of strings: their `Debug` texts, in brackets,
/// separated by a comma and a space.
pub open spec fn debug_list(ss: Seq<Seq<char>>) -> Seq<char> {
    "["@ + join(ss.map_values(|x: Seq<char>| debug_text(x)), ", "@) + "]"@
}

/// The text of a shared-state error.
pub open spec fn state_error_text(e: StateError) -> Seq<char> {
    match e {
        StateError::Conflict { agent, conflicting_agent, conflicting_files } => "Agent '"@ + agent@
            + "': conflicts with '"@ + conflicting_agent@ + "' on files "@ + debug_list(views(conflicting_files@)),
        StateError::VersionMismatch { key, expected, actual } => "Version mismatch for '"@ + key@ + "': expected "@
            + decimal_text(expected as nat) + ", actual "@ + decimal_text(actual as nat),
    }
}

/// The `Debug` text of a list of strings.
fn debug_strings(v: &Vec<String>) -> (r: String)
    ensures
        r@ == debug_list(views(v@)),
{
    let mut parts: Vec<String> = Vec::new();
    let mut i: usize = 0;
    while i < v.len()
        invariant
            i <= v.len(),
            parts@.len() == i,
            forall|k: int| 0 <= k < i ==> (#[trigger] parts@[k])@ == debug_text(v@[k]@),
        decreases v.len() - i,
    {
        let d = debug_str(v[i].as_str());
        parts.push(d);
        i = i + 1;
    }
    assert(views(parts@) =~= views(v@).map_values(|x: Seq<char>| debug_text(x)));
    let mut r = "[".to_owned_string();
    r.append(join_strings(&parts, ", ").as_str());
    r.append("]");
    r
}

impl StateError {
    /// The error as displayed.
    pub fn to_string(&self) -> (s: String)
        ensures
            s@ == state_error_text(*self),
    {
        match self {
            StateError::Conflict { agent, conflicting_agent, conflicting_files } => {
                let mut s = "Agent '".to_owned_string();
                s.append(agent.as_str());
                s.append("': conflicts with '");
                s.append(conflicting_agent.as_str());
                s.append("' on files ");
                s.append(debug_strings(conflicting_files).as_str());
                s
            },
            StateError::VersionMismatch { key, expected, actual } => {
                let mut s = "Version mismatch for '".to_owned_string();
                s.append(key.as_str());
                s.append("': expected ");
                s.append(u64_text(*expected).as_str());
                s.append(", actual ");
                s.append(u64_text(*actual).as_str());
                s
            },
        }
    }
}

/// Two paths overlap: they are equal, or one is a prefix of the other.
pub open spec fn overlap(a: Seq<char>, b: Seq<char>) -> bool {
    a == b || starts_with(a, b) || starts_with(b, a)
}

/// Whether two file paths overlap.
pub fn files_overlap(a: &str, b: &str) -> (r: bool)
    ensures
        r == overlap(a@, b@),
{
    let va = chars_of(a);
    let vb = chars_of(b);
    str_eq(a, b) || starts_with_exec(&va, &vb) || starts_with_exec(&vb, &va)
}

/// Overlap is symmetric.
pub proof fn law_files_overlap_symmetric(a: Seq<char>, b: Seq<char>)
    ensures
        overlap(a, b) == overlap(b, a),
{
}

/// Every path overlaps itself, and each of its prefixes.
pub proof fn law_files_overlap_prefix(a: Seq<char>, n: int)
    requires
        0 <= n <= a.len(),
    ensures
        overlap(a, a),
        overlap(a, a.subrange(0, n)),
{
    assert(a.subrange(0, a.subrange(0, n).len() as int) =~= a.subrange(0, n));
}

/// Some file of `existing` overlaps `f`.
pub open spec fn overlaps_any(existing: Seq<Seq<char>>, f: Seq<char>) -> bool {
    exists|k: int| 0 <= k < existing.len() && overlap(#[trigger] existing[k], f)
}

/// The files of `files`, in order, that overlap a file of `existing`.
pub open spec fn file_conflicts(existing: Seq<Seq<char>>, files: Seq<Seq<char>>) -> Seq<Seq<char>>
    decreases files.len(),
{
    if files.len() == 0 {
        Seq::empty()
    } else {
        file_conflicts(existing, files.drop_last()) + if overlaps_any(existing, files.last()) {
            seq![files.last()]
        } else {
            Seq::empty()
        }
    }
}

/// The resources of `resources`, in order, that `existing` also has.
pub open spec fn resource_conflicts(existing: Seq<Seq<char>>, resources: Seq<Seq<char>>) -> Seq<Seq<char>>
    decreases resources.len(),
{
    if resources.len() == 0 {
        Seq::empty()
    } else {
        resource_conflicts(existing, resources.drop_last()) + if existing.contains(resources.last()) {
            seq![resources.last()]
        } else {
            Seq::empty()
        }
    }
}

/// What a declared scope conflicts with in an existing one: overlapping files, then shared resources.
pub open spec fn scope_conflicts(existing: ScopeV, scope: ScopeV) -> Seq<Seq<char>> {
    file_conflicts(existing.files, scope.files) + resource_conflicts(existing.resources, scope.resources)
}

/// The conflicts of `agent` declaring `scope` with the intents of the other agents, in order.
pub open spec fn all_conflicts(intents: Seq<(Seq<char>, ScopeV)>, agent: Seq<char>, scope: ScopeV) -> Seq<
    Seq<char>,
>
    decreases intents.len(),
{
    if intents.len() == 0 {
        Seq::empty()
    } else {
        all_conflicts(intents.drop_last(), agent, scope) + if intents.last().0 == agent {
            Seq::empty()
        } else {
            scope_conflicts(intents.last().1, scope)
        }
    }
}

/// The first other agent with a conflict (the first with a non-empty name),
/// or the empty text.
pub open spec fn conflicting_agent(intents: Seq<(Seq<char>, ScopeV)>, agent: Seq<char>, scope: ScopeV) -> Seq<
    char,
>
    decreases intents.len(),
{
    if intents.len() == 0 {
        Seq::empty()
    } else {
        let prev = conflicting_agent(intents.drop_last(), agent, scope);
        if prev.len() == 0 && intents.last().0 != agent && scope_conflicts(intents.last().1, scope).len() > 0 {
            intents.last().0
        } else {
            prev
        }
    }
}

// ---------------------------------------------------------------------------
// The shared state
// ---------------------------------------------------------------------------

/// The payload announcing a declared intent.
pub open spec fn intent_payload(scope: ScopeV) -> JsonV {
    JsonV::Object(
        seq![
            ("action"@, JsonV::Str("declare_intent"@)),
            ("files"@, JsonV::Array(str_values(scope.files))),
            ("resources"@, JsonV::Array(str_values(scope.resources))),
        ],
    )
}

/// The payload announcing a released intent.
pub open spec fn release_payload() -> JsonV {
    JsonV::Object(seq![("action"@, JsonV::Str("release_intent"@))])
}

/// The payload announcing that `key` was written at `version`.
pub open spec fn write_payload(key: Seq<char>, version: u64) -> JsonV {
    JsonV::Object(
        seq![
            ("action"@, JsonV::Str("write"@)),
            ("key"@, JsonV::Str(key)),
            ("version"@, JsonV::Number(decimal_text(version as nat))),
        ],
    )
}

/// Declared intents and the versioned store, with the bus on which their
/// changes are announced. The caller serialises access (the original held
/// each map behind a lock).
pub struct SharedState {
    intents: Vec<(String, IntentScope)>,
    entries: Vec<(String, StateEntry)>,
    bus: KnowledgeBus,
    sent: Ghost<Seq<(Seq<char>, Seq<char>, JsonV)>>,
}

impl SharedState {
    /// The declared intents, agent and scope, in the order they were first declared.
    pub closed spec fn intents(&self) -> Seq<(Seq<char>, ScopeV)> {
        self.intents@.map_values(|p: (String, IntentScope)| (p.0@, p.1@))
    }

    /// The store, key and entry, in the order keys were first written.
    pub closed spec fn entries(&self) -> Seq<(Seq<char>, EntryV)> {
        self.entries@.map_values(|p: (String, StateEntry)| (p.0@, p.1@))
    }

    /// The messages this state has handed to its bus, oldest first, each as
    /// source agent, channel and payload.
    pub closed spec fn announced(&self) -> Seq<(Seq<char>, Seq<char>, JsonV)> {
        self.sent@
    }

    /// No agent has two intents, no key two entries, and every stored entry
    /// is at version 1 or later.
    pub open spec fn wf(&self) -> bool {
        &&& keys_distinct(self.intents())
        &&& keys_distinct(self.entries())
        &&& forall|i: int| 0 <= i < self.entries().len() ==> #[trigger] self.entries()[i].1.version >= 1
    }

    /// The version of `key`: 0 for a key never written.
    pub open spec fn version_of(&self, key: Seq<char>) -> u64 {
        match lookup(self.entries(), key) {
            Some(e) => e.version,
            None => 0,
        }
    }

    /// A shared state with no intents and an empty store.
    pub fn new(bus: KnowledgeBus) -> (s: Self)
        ensures
            s.wf(),
            s.intents().len() == 0,
            s.entries().len() == 0,
            s.announced().len() == 0,
    {
        let s = SharedState { intents: Vec::new(), entries: Vec::new(), bus, sent: Ghost(Seq::empty()) };
        assert(s.intents() =~= Seq::<(Seq<char>, ScopeV)>::empty());
        assert(s.entries() =~= Seq::<(Seq<char>, EntryV)>::empty());
        s
    }

    /// Declares that `agent` will modify `scope`.
    ///
    /// Refused with `Conflict` when another agent's intent has a file that
    /// overlaps one of `scope` or a resource of it; an agent may declare again
    /// over its own intent, which the new scope replaces. The declaration is
    /// announced on the bus.
    pub fn declare_intent(&mut self, agent: &str, scope: IntentScope) -> (r: Result<IntentTicket, StateError>)
        requires
            old(self).wf(),
        ensures
            final(self).wf(),
            final(self).entries() == old(self).entries(),
            ({
                let cs = all_conflicts(old(self).intents(), agent@, scope@);
                match r {
                    Ok(t) => cs.len() == 0 && t.agent@ == agent@ && t.scope@ == scope@ && final(self).intents()
                        == assoc_insert(old(self).intents(), agent@, scope@) && final(self).announced() == old(
                        self,
                    ).announced().push((agent@, "state"@, intent_payload(scope@))),
                    Err(StateError::Conflict { agent: a, conflicting_agent: ca, conflicting_files: fs }) => cs.len()
                        > 0 && a@ == agent@ && ca@ == conflicting_agent(old(self).intents(), agent@, scope@)
                        && views(fs@) == cs && final(self).intents() == old(self).intents() && final(self).announced()
                        == old(self).announced(),
                    Err(StateError::VersionMismatch { .. }) => false,
                }
            }),
    {
        let ghost sv = scope@;
        let mut conflicting_files: Vec<String> = Vec::new();
        let mut ca = String::new();
        let mut i: usize = 0;
        while i < self.intents.len()
            invariant
                i <= self.intents.len(),
                self.intents() == old(self).intents(),
                scope@ == sv,
                views(conflicting_files@) == all_conflicts(self.intents().subrange(0, i as int), agent@, sv),
                ca@ == conflicting_agent(self.intents().subrange(0, i as int), agent@, sv),
            decreases self.intents.len() - i,
        {
            let ghost pre = self.intents().subrange(0, i as int);
            let ghost cur = self.intents().subrange(0, i + 1);
            assert(cur.drop_last() =~= pre);
            assert(cur.last() == (self.intents@[i as int].0@, self.intents@[i as int].1@));
            let ghost before = views(conflicting_files@);
            if !str_eq(self.intents[i].0.as_str(), agent) {
                let cs = scope_conflicts_exec(&self.intents[i].1, &scope);
                if cs.len() > 0 && ca.as_str().is_empty() {
                    ca = self.intents[i].0.clone();
                }
                let mut k: usize = 0;
                while k < cs.len()
                    invariant
                        k <= cs.len(),
                        views(conflicting_files@) == before + views(cs@).subrange(0, k as int),
                    decreases cs.len() - k,
                {
                    let ghost prev = views(conflicting_files@);
                    conflicting_files.push(cs[k].clone());
                    assert(views(conflicting_files@) =~= prev.push(cs@[k as int]@));
                    assert(views(cs@).subrange(0, k + 1) =~= views(cs@).subrange(0, k as int).push(cs@[k as int]@));
                    assert(views(conflicting_files@) =~= before + views(cs@).subrange(0, k + 1));
                    k = k + 1;
                }
                assert(views(cs@).subrange(0, k as int) =~= views(cs@));
            } else {
                assert(views(conflicting_files@) =~= before + Seq::<Seq<char>>::empty());
            }
            i = i + 1;
        }
        assert(self.intents().subrange(0, i as int) =~= self.intents());
        if conflicting_files.len() > 0 {
            return Err(
                StateError::Conflict { agent: agent.to_owned_string(), conflicting_agent: ca, conflicting_files },
            );
        }
        let ghost old_intents = self.intents();
        let stored = scope.copy();
        match find_key(&self.intents, agent) {
            Some(j) => {
                proof {
                    assert(old_intents[j as int].0 == agent@);
                    assert(has_key(old_intents, agent@));
                    lemma_lookup(old_intents, agent@);
                    assert(key_index(old_intents, agent@) == j) by {
                        let c = key_index(old_intents, agent@);
                        if c != j {
                            if c < j {
                                assert(old_intents[c].0 != old_intents[j as int].0);
                            } else {
                                assert(old_intents[j as int].0 != old_intents[c].0);
                            }
                        }
                    }
                }
                let key = self.intents[j].0.clone();
                self.intents.set(j, (key, stored));
                assert(self.intents() =~= old_intents.update(j as int, (agent@, sv)));
            },
            None => {
                proof {
                    assert(!has_key(old_intents, agent@)) by {
                        if has_key(old_intents, agent@) {
                            let c = key_index(old_intents, agent@);
                            assert(self.intents@[c].0@ == agent@);
                        }
                    }
                }
                self.intents.push((agent.to_owned_string(), stored));
                assert(self.intents() =~= old_intents.push((agent@, sv)));
            },
        }
        proof {
            lemma_lookup_insert(old_intents, agent@, sv);
        }
        let mut fields: Vec<(String, Json)> = Vec::new();
        jfield(&mut fields, "action", jstr("declare_intent"));
        jfield(&mut fields, "files", json_str_array(&scope.files));
        jfield(&mut fields, "resources", json_str_array(&scope.resources));
        let payload = Json::Object(fields);
        assert(json_fields_view(fields@) =~= seq![
            ("action"@, JsonV::Str("declare_intent"@)),
            ("files"@, JsonV::Array(str_values(scope@.files))),
            ("resources"@, JsonV::Array(str_values(scope@.resources))),
        ]);
        self.announce(agent, payload);
        Ok(IntentTicket { agent: agent.to_owned_string(), scope })
    }

    /// The entry stored under `key`, if any.
    pub fn read(&self, key: &str) -> (r: Option<StateEntry>)
        requires
            self.wf(),
        ensures
            match r {
                Some(e) => lookup(self.entries(), key@) == Some(e@),
                None => lookup(self.entries(), key@) is None,
            },
    {
        proof {
            lemma_lookup(self.entries(), key@);
        }
        match find_key(&self.entries, key) {
            Some(j) => {
                proof {
                    self.lemma_entry_index(j as int, key@);
                }
                let e = &self.entries[j].1;
                Some(
                    StateEntry {
                        value: e.value.deep_clone(),
                        version: e.version,
                        last_modified_by: e.last_modified_by.clone(),
                    },
                )
            },
            None => {
                proof {
                    self.lemma_entry_absent(key@);
                }
                None
            },
        }
    }

    /// The position found for a key is the one the model chooses for it.
    proof fn lemma_entry_index(&self, j: int, key: Seq<char>)
        requires
            self.wf(),
            0 <= j < self.entries@.len(),
            self.entries@[j].0@ == key,
        ensures
            has_key(self.entries(), key),
            key_index(self.entries(), key) == j,
            self.entries()[j] == (key, self.entries@[j].1@),
    {
        let es = self.entries();
        assert(es[j].0 == key);
        let c = key_index(es, key);
        if c != j {
            if c < j {
                assert(es[c].0 != es[j].0);
            } else {
                assert(es[j].0 != es[c].0);
            }
        }
    }

    /// A key that no entry has is not a key of the model.
    proof fn lemma_entry_absent(&self, key: Seq<char>)
        requires
            forall|j: int| 0 <= j < self.entries@.len() ==> (#[trigger] self.entries@[j]).0@ != key,
        ensures
            !has_key(self.entries(), key),
    {
        if has_key(self.entries(), key) {
            let c = key_index(self.entries(), key);
            assert(self.entries@[c].0@ == key);
        }
    }

    /// Stores `value` under `key` with the next version, written by `agent`.
    fn store(&mut self, agent: &String, key: &str, value: Json, version: u64)
        requires
            old(self).wf(),
            version >= 1,
        ensures
            final(self).wf(),
            final(self).intents() == old(self).intents(),
            final(self).announced() == old(self).announced(),
            final(self).entries() == assoc_insert(
                old(self).entries(),
                key@,
                EntryV { value: value@, version, last_modified_by: agent@ },
            ),
    {
        let ghost old_es = self.entries();
        let ghost ev = EntryV { value: value@, version, last_modified_by: agent@ };
        let entry = StateEntry { value, version, last_modified_by: agent.clone() };
        match find_key(&self.entries, key) {
            Some(j) => {
                proof {
                    self.lemma_entry_index(j as int, key@);
                }
                let k = self.entries[j].0.clone();
                self.entries.set(j, (k, entry));
                assert(self.entries() =~= old_es.update(j as int, (key@, ev)));
            },
            None => {
                proof {
                    self.lemma_entry_absent(key@);
                }
                self.entries.push((key.to_owned_string(), entry));
                assert(self.entries() =~= old_es.push((key@, ev)));
            },
        }
        proof {
            lemma_lookup_insert(old_es, key@, ev);
            assert forall|i: int| 0 <= i < self.entries().len() implies #[trigger] self.entries()[i].1.version >= 1 by {
                if i < old_es.len() && self.entries()[i] == old_es[i] {
                    assert(old_es[i].1.version >= 1);
                }
            }
        }
    }

    /// Writes a key that has not been written before (or is still at version
    /// 0): its entry becomes version 1. Refused with `VersionMismatch` when the
    /// key is already at a later version.
    pub fn write(&mut self, ticket: &IntentTicket, key: &str, value: Json) -> (r: Result<(), StateError>)
        requires
            old(self).wf(),
        ensures
            final(self).wf(),
            final(self).intents() == old(self).intents(),
            r is Ok <==> !has_key(old(self).entries(), key@),
            match r {
                Ok(()) => old(self).version_of(key@) == 0 && final(self).entries() == assoc_insert(
                    old(self).entries(),
                    key@,
                    EntryV { value: value@, version: 1, last_modified_by: ticket.agent@ },
                ) && final(self).announced() == old(self).announced().push(
                    (ticket.agent@, "state"@, write_payload(key@, 1)),
                ),
                Err(StateError::VersionMismatch { key: k, expected, actual }) => old(self).version_of(key@) != 0
                    && k@ == key@ && expected == 0 && actual == old(self).version_of(key@) && final(self).entries()
                    == old(self).entries() && final(self).announced() == old(self).announced(),
                Err(StateError::Conflict { .. }) => false,
            },
    {
        let current = self.current_version(key);
        proof {
            lemma_lookup(old(self).entries(), key@);
            if has_key(old(self).entries(), key@) {
                let c = key_index(old(self).entries(), key@);
                assert(old(self).entries()[c].1.version >= 1);
            }
        }
        if current != 0 {
            return Err(StateError::VersionMismatch { key: key.to_owned_string(), expected: 0, actual: current });
        }
        self.store(&ticket.agent, key, value, 1);
        self.announce_write(&ticket.agent, key, 1);
        Ok(())
    }

    /// Writes `key` when its version is `expected_version`: the entry takes
    /// the next version. Refused with `VersionMismatch` otherwise.
    pub fn write_cas(&mut self, ticket: &IntentTicket, key: &str, value: Json, expected_version: u64) -> (r: Result<
        (),
        StateError,
    >)
        requires
            old(self).wf(),
            old(self).version_of(key@) != expected_version || expected_version < u64::MAX,
        ensures
            final(self).wf(),
            final(self).intents() == old(self).intents(),
            match r {
                Ok(()) => old(self).version_of(key@) == expected_version && final(self).entries() == assoc_insert(
                    old(self).entries(),
                    key@,
                    EntryV { value: value@, version: (expected_version + 1) as u64, last_modified_by: ticket.agent@ },
                ) && final(self).announced() == old(self).announced().push(
                    (ticket.agent@, "state"@, write_payload(key@, (expected_version + 1) as u64)),
                ),
                Err(StateError::VersionMismatch { key: k, expected, actual }) => old(self).version_of(key@)
                    != expected_version && k@ == key@ && expected == expected_version && actual == old(
                    self,
                ).version_of(key@) && final(self).entries() == old(self).entries() && final(self).announced()
                    == old(self).announced(),
                Err(StateError::Conflict { .. }) => false,
            },
    {
        let current = self.current_version(key);
        if current != expected_version {
            return Err(
                StateError::VersionMismatch { key: key.to_owned_string(), expected: expected_version, actual: current },
            );
        }
        let next = current + 1;
        self.store(&ticket.agent, key, value, next);
        self.announce_write(&ticket.agent, key, next);
        Ok(())
    }

    /// The version of `key`.
    fn current_version(&self, key: &str) -> (v: u64)
        requires
            self.wf(),
        ensures
            v == self.version_of(key@),
    {
        proof {
            lemma_lookup(self.entries(), key@);
        }
        match find_key(&self.entries, key) {
            Some(j) => {
                proof {
                    self.lemma_entry_index(j as int, key@);
                }
                self.entries[j].1.version
            },
            None => {
                proof {
                    self.lemma_entry_absent(key@);
                }
                0
            },
        }
    }

    /// Hands `payload` from `agent` to the bus on the `state` channel, and
    /// records it.
    fn announce(&mut self, agent: &str, payload: Json)
        requires
            old(self).wf(),
        ensures
            final(self).wf(),
            final(self).intents() == old(self).intents(),
            final(self).entries() == old(self).entries(),
            final(self).announced() == old(self).announced().push((agent@, "state"@, payload@)),
    {
        let message = KnowledgeMessage::new(agent, "state", payload);
        let ghost sent = (message.source_agent@, message.channel@, message.payload@);
        self.bus.publish(message);
        proof {
            self.sent@ = self.sent@.push(sent);
        }
    }

    /// Announces a write on the bus.
    fn announce_write(&mut self, agent: &String, key: &str, version: u64)
        requires
            old(self).wf(),
        ensures
            final(self).wf(),
            final(self).intents() == old(self).intents(),
            final(self).entries() == old(self).entries(),
            final(self).announced() == old(self).announced().push((agent@, "state"@, write_payload(key@, version))),
    {
        let mut fields: Vec<(String, Json)> = Vec::new();
        jfield(&mut fields, "action", jstr("write"));
        jfield(&mut fields, "key", jstr(key));
        jfield(&mut fields, "version", Json::Number(u64_text(version)));
        assert(json_fields_view(fields@) =~= seq![
            ("action"@, JsonV::Str("write"@)),
            ("key"@, JsonV::Str(key@)),
            ("version"@, JsonV::Number(decimal_text(version as nat))),
        ]);
        self.announce(agent.as_str(), Json::Object(fields));
    }

    /// Withdraws the intent of `agent`, if it has one, and announces it.
    pub fn release_intent(&mut self, agent: &str)
        requires
            old(self).wf(),
        ensures
            final(self).wf(),
            final(self).entries() == old(self).entries(),
            final(self).intents() == assoc_remove(old(self).intents(), agent@),
            final(self).announced() == old(self).announced().push((agent@, "state"@, release_payload())),
    {
        let ghost old_intents = self.intents();
        match find_key(&self.intents, agent) {
            Some(j) => {
                proof {
                    assert(old_intents[j as int].0 == agent@);
                    let c = key_index(old_intents, agent@);
                    if c != j {
                        if c < j {
                            assert(old_intents[c].0 != old_intents[j as int].0);
                        } else {
                            assert(old_intents[j as int].0 != old_intents[c].0);
                        }
                    }
                }
                self.intents.remove(j);
                assert(self.intents() =~= old_intents.remove(j as int));
            },
            None => {
                proof {
                    if has_key(old_intents, agent@) {
                        let c = key_index(old_intents, agent@);
                        assert(self.intents@[c].0@ == agent@);
                    }
                }
            },
        }
        proof {
            lemma_lookup_remove(old_intents, agent@);
        }
        let mut fields: Vec<(String, Json)> = Vec::new();
        jfield(&mut fields, "action", jstr("release_intent"));
        assert(json_fields_view(fields@) =~= seq![("action"@, JsonV::Str("release_intent"@))]);
        self.announce(agent, Json::Object(fields));
    }
}

/// The conflicts of a declared scope with an existing one.
fn scope_conflicts_exec(existing: &IntentScope, scope: &IntentScope) -> (r: Vec<String>)
    ensures
        views(r@) == scope_conflicts(existing@, scope@),
{
    let mut r: Vec<String> = Vec::new();
    let mut i: usize = 0;
    while i < scope.files.len()
        invariant
            i <= scope.files.len(),
            views(r@) == file_conflicts(views(existing.files@), views(scope.files@.subrange(0, i as int))),
        decreases scope.files.len() - i,
    {
        let f = &scope.files[i];
        let mut hit = false;
        let mut k: usize = 0;
        while k < existing.files.len()
            invariant
                k <= existing.files.len(),
                hit == exists|m: int| 0 <= m < k && overlap(#[trigger] views(existing.files@)[m], f@),
            decreases existing.files.len() - k,
        {
            if files_overlap(existing.files[k].as_str(), f.as_str()) {
                hit = true;
            }
            assert(views(existing.files@)[k as int] == existing.files@[k as int]@);
            k = k + 1;
        }
        let ghost fs = views(scope.files@.subrange(0, i + 1));
        assert(fs.drop_last() =~= views(scope.files@.subrange(0, i as int)));
        assert(fs.last() == f@);
        if hit {
            r.push(f.clone());
        }
        assert(views(r@) =~= file_conflicts(views(existing.files@), fs));
        i = i + 1;
    }
    assert(scope.files@.subrange(0, i as int) =~= scope.files@);
    let ghost fc = views(r@);
    let mut j: usize = 0;
    while j < scope.resources.len()
        invariant
            j <= scope.resources.len(),
            views(r@) == fc + resource_conflicts(
                views(existing.resources@),
                views(scope.resources@.subrange(0, j as int)),
            ),
        decreases scope.resources.len() - j,
    {
        let res = &scope.resources[j];
        let mut hit = false;
        let mut k: usize = 0;
        while k < existing.resources.len()
            invariant
                k <= existing.resources.len(),
                hit == exists|m: int| 0 <= m < k && #[trigger] views(existing.resources@)[m] == res@,
            decreases existing.resources.len() - k,
        {
            if str_eq(existing.resources[k].as_str(), res.as_str()) {
                hit = true;
            }
            assert(views(existing.resources@)[k as int] == existing.resources@[k as int]@);
            k = k + 1;
        }
        let ghost rs = views(scope.resources@.subrange(0, j + 1));
        assert(rs.drop_last() =~= views(scope.resources@.subrange(0, j as int)));
        assert(rs.last() == res@);
        assert(hit == views(existing.resources@).contains(res@));
        let ghost before = views(r@);
        if hit {
            r.push(res.clone());
            assert(views(r@) =~= before.push(res@));
        }
        assert(views(r@) =~= fc + resource_conflicts(views(existing.resources@), rs));
        j = j + 1;
    }
    assert(scope.resources@.subrange(0, j as int) =~= scope.resources@);
    r
}

/// An intent held by one agent blocks every other agent from declaring a
/// scope with an overlapping file.
pub proof fn law_intent_blocks_overlap(
    intents: Seq<(Seq<char>, ScopeV)>,
    holder: int,
    f: int,
    agent: Seq<char>,
    scope: ScopeV,
    g: int,
)
    requires
        0 <= holder < intents.len(),
        intents[holder].0 != agent,
        0 <= f < intents[holder].1.files.len(),
        0 <= g < scope.files.len(),
        overlap(intents[holder].1.files[f], scope.files[g]),
    ensures
        all_conflicts(intents, agent, scope).len() > 0,
{
    lemma_file_conflicts_hit(intents[holder].1.files, scope.files, f, g);
    lemma_all_conflicts_hit(intents, agent, scope, holder);
}

/// An intent held by one agent blocks every other agent from declaring a
/// scope with a resource in common.
pub proof fn law_intent_blocks_shared_resource(
    intents: Seq<(Seq<char>, ScopeV)>,
    holder: int,
    agent: Seq<char>,
    scope: ScopeV,
    g: int,
)
    requires
        0 <= holder < intents.len(),
        intents[holder].0 != agent,
        0 <= g < scope.resources.len(),
        intents[holder].1.resources.contains(scope.resources[g]),
    ensures
        all_conflicts(intents, agent, scope).len() > 0,
{
    lemma_resource_conflicts_hit(intents[holder].1.resources, scope.resources, g);
    lemma_all_conflicts_hit(intents, agent, scope, holder);
}

/// An agent's own intent never stands in its way, and without other intents
/// nothing does: declaring is refused only because of another agent.
pub proof fn law_own_intent_no_conflict(intents: Seq<(Seq<char>, ScopeV)>, agent: Seq<char>, scope: ScopeV)
    requires
        forall|i: int| 0 <= i < intents.len() ==> (#[trigger] intents[i]).0 == agent,
    ensures
        all_conflicts(intents, agent, scope).len() == 0,
    decreases intents.len(),
{
    if intents.len() > 0 {
        assert(intents.last() == intents[intents.len() - 1]);
        assert forall|i: int| 0 <= i < intents.drop_last().len() implies (#[trigger] intents.drop_last()[i]).0
            == agent by {
            assert(intents.drop_last()[i] == intents[i]);
        }
        law_own_intent_no_conflict(intents.drop_last(), agent, scope);
    }
}

/// An overlapping file makes the file conflicts non-empty.
proof fn lemma_file_conflicts_hit(existing: Seq<Seq<char>>, files: Seq<Seq<char>>, f: int, g: int)
    requires
        0 <= f < existing.len(),
        0 <= g < files.len(),
        overlap(existing[f], files[g]),
    ensures
        file_conflicts(existing, files).len() > 0,
    decreases files.len(),
{
    if g == files.len() - 1 {
        assert(overlaps_any(existing, files.last()));
    } else {
        assert(files.drop_last()[g] == files[g]);
        lemma_file_conflicts_hit(existing, files.drop_last(), f, g);
    }
}

/// A shared resource makes the resource conflicts non-empty.
proof fn lemma_resource_conflicts_hit(existing: Seq<Seq<char>>, resources: Seq<Seq<char>>, g: int)
    requires
        0 <= g < resources.len(),
        existing.contains(resources[g]),
    ensures
        resource_conflicts(existing, resources).len() > 0,
    decreases resources.len(),
{
    if g < resources.len() - 1 {
        assert(resources.drop_last()[g] == resources[g]);
        lemma_resource_conflicts_hit(existing, resources.drop_last(), g);
    }
}

/// A conflict with one intent is a conflict of the declaration.
proof fn lemma_all_conflicts_hit(intents: Seq<(Seq<char>, ScopeV)>, agent: Seq<char>, scope: ScopeV, holder: int)
    requires
        0 <= holder < intents.len(),
        intents[holder].0 != agent,
        scope_conflicts(intents[holder].1, scope).len() > 0,
    ensures
        all_conflicts(intents, agent, scope).len() > 0,
    decreases intents.len(),
{
    if holder < intents.len() - 1 {
        assert(intents.drop_last()[holder] == intents[holder]);
        lemma_all_conflicts_hit(intents.drop_last(), agent, scope, holder);
    }
}

/// Once released, an agent's intent blocks no one: releasing removes it and
/// leaves the others.
pub proof fn law_release_frees(intents: Seq<(Seq<char>, ScopeV)>, agent: Seq<char>)
    requires
        keys_distinct(intents),
    ensures
        !has_key(assoc_remove(intents, agent), agent),
        keys_distinct(assoc_remove(intents, agent)),
        forall|a: Seq<char>| a != agent ==> #[trigger] lookup(assoc_remove(intents, agent), a) == lookup(intents, a),
{
    lemma_lookup_remove(intents, agent);
}

/// A read after a successful write gives back what was written.
pub proof fn law_read_after_write(entries: Seq<(Seq<char>, EntryV)>, key: Seq<char>, e: EntryV)
    requires
        keys_distinct(entries),
    ensures
        lookup(assoc_insert(entries, key, e), key) == Some(e),
        forall|k: Seq<char>| k != key ==> #[trigger] lookup(assoc_insert(entries, key, e), k) == lookup(entries, k),
{
    lemma_lookup_insert(entries, key, e);
}

} // verus!
