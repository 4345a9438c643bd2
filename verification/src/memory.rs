//! The three memories of an agent: the bounded conversation history, the
//! working memory of the current goal, and the long-term knowledge of a project.
use vstd::prelude::*;
use crate::json::{decimal_text, u64_text};
use crate::llm::Message;
use crate::text::{join, lemma_join_len_first, join_strings, views, ToOwnedString, concat};
use crate::cli::{join_path, path_join};

verus! {

// ---------------------------------------------------------------------------
// Configuration
// ---------------------------------------------------------------------------

/// Limits of the conversation history.
#[derive(Debug, Clone, Copy, PartialEq, Eq, Structural)]
pub struct MemoryConfig {
    /// Number of messages above which the history is compressed.
    pub max_history: usize,
    /// Number of most recent messages kept by a compression.
    pub max_context_turns: usize,
}

/// The default history limit.
pub fn default_max_history() -> (n: usize)
    ensures
        n == 100,
{
    100
}

/// The default number of recent messages kept.
pub fn default_max_context_turns() -> (n: usize)
    ensures
        n == 20,
{
    20
}

impl Default for MemoryConfig {
    fn default() -> (c: MemoryConfig)
        ensures
            c.max_history == 100,
            c.max_context_turns == 20,
    {
        MemoryConfig { max_history: default_max_history(), max_context_turns: default_max_context_turns() }
    }
}

// ---------------------------------------------------------------------------
// Short-term memory
// ---------------------------------------------------------------------------

/// The history after a compression check: when it is longer than `max_history`
/// and than the first two messages plus the `max_context_turns` most recent ones,
/// only those are kept.
pub open spec fn compressed(ms: Seq<Message>, cfg: MemoryConfig) -> Seq<Message> {
    if ms.len() <= cfg.max_history || ms.len() <= 2 + cfg.max_context_turns {
        ms
    } else {
        ms.subrange(0, 2) + ms.subrange(ms.len() - cfg.max_context_turns, ms.len() as int)
    }
}

/// The longest a history can be between two pushes.
pub open spec fn history_bound(cfg: MemoryConfig) -> int {
    if cfg.max_history >= 2 + cfg.max_context_turns {
        cfg.max_history as int
    } else {
        2 + cfg.max_context_turns
    }
}

/// Conversation history bounded by compression.
pub struct ShortTermMemory {
    messages: Vec<Message>,
    config: MemoryConfig,
}

impl ShortTermMemory {
    /// The messages held.
    pub closed spec fn history(&self) -> Seq<Message> {
        self.messages@
    }

    /// The limits the memory was made with.
    pub closed spec fn limits(&self) -> MemoryConfig {
        self.config
    }

    /// An empty memory with the given limits.
    pub fn new(config: MemoryConfig) -> (m: Self)
        ensures
            m.history() == Seq::<Message>::empty(),
            m.limits() == config,
    {
        ShortTermMemory { messages: Vec::new(), config }
    }

    /// Appends a message, then compresses the history if it is over its limit.
    pub fn push(&mut self, message: Message)
        requires
            old(self).history().len() < old(self).limits().max_history || old(self).limits().max_context_turns
                <= usize::MAX - 2,
        ensures
            final(self).limits() == old(self).limits(),
            final(self).history() == compressed(old(self).history().push(message), old(self).limits()),
    {
        self.messages.push(message);
        self.compress_if_needed();
    }

    /// Keeps the first two and the `max_context_turns` most recent messages
    /// when the history is over its limit.
    fn compress_if_needed(&mut self)
        requires
            old(self).messages@.len() <= old(self).config.max_history || old(self).config.max_context_turns
                <= usize::MAX - 2,
        ensures
            final(self).config == old(self).config,
            final(self).messages@ == compressed(old(self).messages@, old(self).config),
    {
        if self.messages.len() <= self.config.max_history {
            return;
        }
        let preserved_count = 2 + self.config.max_context_turns;
        if self.messages.len() <= preserved_count {
            return;
        }
        let cutoff_end = self.messages.len() - self.config.max_context_turns;
        if cutoff_end > 2 {
            let ghost old_ms = self.messages@;
            let mut tail = self.messages.split_off(cutoff_end);
            self.messages.truncate(2);
            self.messages.append(&mut tail);
            assert(self.messages@ =~= old_ms.subrange(0, 2) + old_ms.subrange(
                old_ms.len() - self.config.max_context_turns,
                old_ms.len() as int,
            ));
        }
    }

    /// The messages held.
    pub fn messages(&self) -> (r: &[Message])
        ensures
            r@ == self.history(),
    {
        self.messages.as_slice()
    }

    /// The messages held, taken out of the memory.
    pub fn into_messages(self) -> (r: Vec<Message>)
        ensures
            r@ == self.history(),
    {
        self.messages
    }
}

/// Compression keeps the first two messages (the system prompt and the first
/// user message) in place.
pub proof fn law_compression_keeps_head(ms: Seq<Message>, cfg: MemoryConfig, i: int)
    requires
        0 <= i < 2,
        i < ms.len(),
    ensures
        compressed(ms, cfg)[i] == ms[i],
{
}

/// Compression keeps the most recent message last when at least one recent
/// message is kept.
pub proof fn law_compression_keeps_last(ms: Seq<Message>, cfg: MemoryConfig)
    requires
        ms.len() > 0,
        cfg.max_context_turns >= 1,
    ensures
        compressed(ms, cfg).len() > 0,
        compressed(ms, cfg).last() == ms.last(),
{
}

/// A history that is within its bound stays within it after a push: the
/// memory never holds more than `max(max_history, 2 + max_context_turns)` messages.
pub proof fn law_history_bounded(ms: Seq<Message>, cfg: MemoryConfig, m: Message)
    requires
        ms.len() <= history_bound(cfg),
    ensures
        compressed(ms.push(m), cfg).len() <= history_bound(cfg),
{
}

/// Under the limit nothing is dropped: the history is the messages pushed, in order.
pub proof fn law_no_compression_under_limit(ms: Seq<Message>, cfg: MemoryConfig)
    requires
        ms.len() <= cfg.max_history,
    ensures
        compressed(ms, cfg) == ms,
{
}

/// The history of a memory made empty with limits `cfg` after `ms` were
/// pushed one by one.
pub open spec fn after_pushes(cfg: MemoryConfig, ms: Seq<Message>) -> Seq<Message>
    decreases ms.len(),
{
    if ms.len() == 0 {
        Seq::empty()
    } else {
        compressed(after_pushes(cfg, ms.drop_last()).push(ms.last()), cfg)
    }
}

/// `f` picks, in increasing order, the positions of `ms` that `r` keeps.
pub open spec fn kept_at(r: Seq<Message>, ms: Seq<Message>, f: Seq<int>) -> bool {
    &&& f.len() == r.len()
    &&& forall|i: int| 0 <= i < f.len() ==> 0 <= #[trigger] f[i] < ms.len() && r[i] == ms[f[i]]
    &&& forall|i: int, j: int| 0 <= i < j < f.len() ==> f[i] < f[j]
}

/// `r` is `ms` with some messages left out, the rest in their order.
pub open spec fn is_subsequence(r: Seq<Message>, ms: Seq<Message>) -> bool {
    exists|f: Seq<int>| kept_at(r, ms, f)
}

/// The positions of the pushed messages that a memory keeps.
proof fn lemma_kept_positions(cfg: MemoryConfig, ms: Seq<Message>) -> (f: Seq<int>)
    ensures
        kept_at(after_pushes(cfg, ms), ms, f),
    decreases ms.len(),
{
    if ms.len() == 0 {
        Seq::empty()
    } else {
        let prev = ms.drop_last();
        let r = after_pushes(cfg, prev);
        let fp = lemma_kept_positions(cfg, prev);
        let x = r.push(ms.last());
        let g = fp.push(prev.len() as int);
        assert(kept_at(x, ms, g)) by {
            assert forall|i: int| 0 <= i < g.len() implies 0 <= #[trigger] g[i] < ms.len() && x[i] == ms[g[i]] by {
                if i < fp.len() {
                    assert(fp[i] == g[i]);
                    assert(ms[fp[i]] == prev[fp[i]]);
                }
            }
        }
        if x.len() <= cfg.max_history || x.len() <= 2 + cfg.max_context_turns {
            g
        } else {
            let t = cfg.max_context_turns as int;
            let h = g.subrange(0, 2) + g.subrange(x.len() - t, x.len() as int);
            let c = compressed(x, cfg);
            assert(c == x.subrange(0, 2) + x.subrange(x.len() - t, x.len() as int));
            assert forall|i: int| 0 <= i < h.len() implies 0 <= #[trigger] h[i] < ms.len() && c[i] == ms[h[i]] by {
                if i < 2 {
                    assert(h[i] == g[i]);
                } else {
                    assert(h[i] == g[x.len() - t + i - 2]);
                }
            }
            assert forall|i: int, j: int| 0 <= i < j < h.len() implies h[i] < h[j] by {
                let a = if i < 2 { i } else { x.len() - t + i - 2 };
                let b = if j < 2 { j } else { x.len() - t + j - 2 };
                assert(h[i] == g[a]);
                assert(h[j] == g[b]);
                assert(a < b);
            }
            h
        }
    }
}

/// The first two messages pushed stay first, and a short history is kept whole.
proof fn lemma_pushes_head(cfg: MemoryConfig, ms: Seq<Message>)
    ensures
        ms.len() <= 2 ==> after_pushes(cfg, ms) == ms,
        ms.len() >= 2 ==> after_pushes(cfg, ms).len() >= 2,
        forall|i: int| 0 <= i < 2 && i < ms.len() ==> #[trigger] after_pushes(cfg, ms)[i] == ms[i],
    decreases ms.len(),
{
    if ms.len() > 0 {
        let prev = ms.drop_last();
        lemma_pushes_head(cfg, prev);
        let x = after_pushes(cfg, prev).push(ms.last());
        if prev.len() < 2 {
            assert(x =~= ms);
        } else {
            assert forall|i: int| 0 <= i < 2 implies #[trigger] compressed(x, cfg)[i] == ms[i] by {
                law_compression_keeps_head(x, cfg, i);
                assert(x[i] == after_pushes(cfg, prev)[i]);
                assert(prev[i] == ms[i]);
            }
        }
    }
}

/// Over any sequence of pushes into a new memory: the history never holds
/// more than `max(max_history, 2 + max_context_turns)` messages; up to
/// `max_history` pushes nothing is dropped; the first two messages pushed stay
/// first; the last one pushed is last when a recent message is kept; and the
/// history is always the pushed messages with some left out, in their order.
pub proof fn law_pushes(cfg: MemoryConfig, ms: Seq<Message>)
    ensures
        after_pushes(cfg, ms).len() <= history_bound(cfg),
        ms.len() <= cfg.max_history ==> after_pushes(cfg, ms) == ms,
        ms.len() >= 2 ==> after_pushes(cfg, ms)[0] == ms[0] && after_pushes(cfg, ms)[1] == ms[1],
        ms.len() > 0 && cfg.max_context_turns >= 1 ==> after_pushes(cfg, ms).len() > 0 && after_pushes(cfg, ms).last()
            == ms.last(),
        is_subsequence(after_pushes(cfg, ms), ms),
    decreases ms.len(),
{
    let f = lemma_kept_positions(cfg, ms);
    lemma_pushes_head(cfg, ms);
    if ms.len() > 0 {
        let prev = ms.drop_last();
        law_pushes(cfg, prev);
        law_history_bounded(after_pushes(cfg, prev), cfg, ms.last());
        if prev.len() <= cfg.max_history {
            assert(after_pushes(cfg, prev).push(ms.last()) =~= ms);
        }
        if cfg.max_context_turns >= 1 {
            law_compression_keeps_last(after_pushes(cfg, prev).push(ms.last()), cfg);
        }
    }
}

// ---------------------------------------------------------------------------
// Working memory
// ---------------------------------------------------------------------------

/// Status of a sub-task.
#[derive(Debug, Clone, Copy, PartialEq, Eq, Structural)]
pub enum SubTaskStatus {
    Pending,
    InProgress,
    Done,
    Failed,
}

impl SubTaskStatus {
    /// The status as displayed.
    pub open spec fn text(self) -> Seq<char> {
        match self {
            SubTaskStatus::Pending => "Pending"@,
            SubTaskStatus::InProgress => "InProgress"@,
            SubTaskStatus::Done => "Done"@,
            SubTaskStatus::Failed => "Failed"@,
        }
    }

    /// The status as displayed (`Display`).
    pub fn to_string(&self) -> (s: String)
        ensures
            s@ == self.text(),
    {
        match self {
            SubTaskStatus::Pending => "Pending".to_owned_string(),
            SubTaskStatus::InProgress => "InProgress".to_owned_string(),
            SubTaskStatus::Done => "Done".to_owned_string(),
            SubTaskStatus::Failed => "Failed".to_owned_string(),
        }
    }
}

/// A sub-task of the current goal.
#[derive(Debug, Clone)]
pub struct SubTask {
    pub description: String,
    pub status: SubTaskStatus,
    pub result_summary: Option<String>,
}

impl SubTask {
    /// A pending sub-task with no result yet.
    pub fn new(description: &str) -> (t: Self)
        ensures
            t.description@ == description@,
            t.status == SubTaskStatus::Pending,
            t.result_summary is None,
    {
        SubTask { description: description.to_owned_string(), status: SubTaskStatus::Pending, result_summary: None }
    }
}

/// The goal, sub-tasks, key results and errors of the current goal.
#[derive(Debug)]
pub struct WorkingMemory {
    pub goal: Option<String>,
    pub subtasks: Vec<SubTask>,
    pub key_results: Vec<String>,
    pub errors: Vec<String>,
}

/// The line of the `i`-th sub-task.
pub open spec fn subtask_line(i: int, t: SubTask) -> Seq<char> {
    decimal_text((i + 1) as nat) + ". ["@ + t.status.text() + "] "@ + t.description@ + match t.result_summary {
        Some(s) => " — "@ + s@,
        None => Seq::empty(),
    }
}

/// Items of a list, each after `- `.
pub open spec fn bullets(items: Seq<String>) -> Seq<Seq<char>> {
    items.map_values(|s: String| "- "@ + s@)
}

/// A titled list section: no lines when the list is empty.
pub open spec fn titled(title: Seq<char>, items: Seq<String>) -> Seq<Seq<char>> {
    if items.len() == 0 {
        Seq::empty()
    } else {
        seq![title] + bullets(items)
    }
}

/// The lines of the working memory's prompt summary.
pub open spec fn working_lines(wm: WorkingMemory) -> Seq<Seq<char>> {
    let goal = match wm.goal {
        Some(g) => seq!["## Goal\n"@ + g@],
        None => Seq::empty(),
    };
    let tasks = if wm.subtasks@.len() == 0 {
        Seq::empty()
    } else {
        seq!["## Sub-Tasks"@] + Seq::new(wm.subtasks@.len(), |i: int| subtask_line(i, wm.subtasks@[i]))
    };
    goal + tasks + titled("## Key Results"@, wm.key_results@) + titled("## Errors"@, wm.errors@)
}

/// Appends the titled list section for `items` to `lines`.
fn push_titled(lines: &mut Vec<String>, title: &str, items: &Vec<String>)
    ensures
        views(final(lines)@) == views(old(lines)@) + titled(title@, items@),
{
    if items.len() == 0 {
        assert(views(lines@) + titled(title@, items@) =~= views(lines@));
        return;
    }
    let ghost start = views(lines@);
    lines.push(title.to_owned_string());
    assert(views(lines@) =~= start + seq![title@]);
    let mut i: usize = 0;
    while i < items.len()
        invariant
            i <= items.len(),
            views(lines@) == start + seq![title@] + bullets(items@.subrange(0, i as int)),
        decreases items.len() - i,
    {
        let line = concat("- ", items[i].as_str());
        let ghost before = views(lines@);
        lines.push(line);
        assert(views(lines@) =~= before.push(line@));
        assert(bullets(items@.subrange(0, i + 1)) =~= bullets(items@.subrange(0, i as int)).push(
            "- "@ + items@[i as int]@,
        ));
        i = i + 1;
    }
    assert(items@.subrange(0, i as int) =~= items@);
}

impl WorkingMemory {
    /// An empty working memory.
    pub fn new() -> (m: Self)
        ensures
            m.goal is None,
            m.subtasks@.len() == 0,
            m.key_results@.len() == 0,
            m.errors@.len() == 0,
    {
        WorkingMemory { goal: None, subtasks: Vec::new(), key_results: Vec::new(), errors: Vec::new() }
    }

    /// This memory with its goal set.
    pub fn with_goal(self, goal: &str) -> (m: Self)
        ensures
            m.goal matches Some(g) && g@ == goal@,
            m.subtasks == self.subtasks,
            m.key_results == self.key_results,
            m.errors == self.errors,
    {
        let mut m = self;
        m.goal = Some(goal.to_owned_string());
        m
    }

    /// A markdown summary of the working memory for the prompt: sections joined by blank lines.
    pub fn to_prompt_context(&self) -> (s: String)
        ensures
            s@ == join(working_lines(*self), "\n\n"@),
            s@.len() == 0 <==> (self.goal is None && self.subtasks@.len() == 0 && self.key_results@.len() == 0
                && self.errors@.len() == 0),
    {
        proof {
            law_working_context_empty(*self);
        }
        let mut lines: Vec<String> = Vec::new();
        match &self.goal {
            Some(g) => {
                lines.push(concat("## Goal\n", g.as_str()));
            },
            None => {},
        }
        let ghost goal_part = views(lines@);
        assert(goal_part =~= match self.goal {
            Some(g) => seq!["## Goal\n"@ + g@],
            None => Seq::<Seq<char>>::empty(),
        });
        if self.subtasks.len() > 0 {
            lines.push("## Sub-Tasks".to_owned_string());
            let mut i: usize = 0;
            while i < self.subtasks.len()
                invariant
                    i <= self.subtasks.len(),
                    views(lines@) == goal_part + seq!["## Sub-Tasks"@] + Seq::new(
                        i as nat,
                        |k: int| subtask_line(k, self.subtasks@[k]),
                    ),
                decreases self.subtasks.len() - i,
            {
                let t = &self.subtasks[i];
                let num = u64_text((i + 1) as u64);
                let mut line = concat(num.as_str(), ". [");
                line.append(t.status.to_string().as_str());
                line.append("] ");
                line.append(t.description.as_str());
                match &t.result_summary {
                    Some(s) => {
                        line.append(" — ");
                        line.append(s.as_str());
                    },
                    None => {},
                }
                assert(line@ =~= subtask_line(i as int, self.subtasks@[i as int]));
                let ghost before = views(lines@);
                lines.push(line);
                assert(views(lines@) =~= before.push(line@));
                assert(Seq::new((i + 1) as nat, |k: int| subtask_line(k, self.subtasks@[k])) =~= Seq::new(
                    i as nat,
                    |k: int| subtask_line(k, self.subtasks@[k]),
                ).push(subtask_line(i as int, self.subtasks@[i as int])));
                i = i + 1;
            }
        }
        let ghost task_part = views(lines@);
        assert(task_part =~= goal_part + (if self.subtasks@.len() == 0 {
            Seq::<Seq<char>>::empty()
        } else {
            seq!["## Sub-Tasks"@] + Seq::new(self.subtasks@.len(), |i: int| subtask_line(i, self.subtasks@[i]))
        }));
        push_titled(&mut lines, "## Key Results", &self.key_results);
        push_titled(&mut lines, "## Errors", &self.errors);
        assert(views(lines@) =~= working_lines(*self));
        join_strings(&lines, "\n\n")
    }
}

impl Default for WorkingMemory {
    fn default() -> (m: Self)
        ensures
            m.goal is None,
            m.subtasks@.len() == 0,
            m.key_results@.len() == 0,
            m.errors@.len() == 0,
    {
        WorkingMemory::new()
    }
}

// ---------------------------------------------------------------------------
// Long-term memory
// ---------------------------------------------------------------------------

/// A finished task in a project's history.
#[derive(Debug, Clone)]
pub struct HistoryEntry {
    pub timestamp: String,
    pub goal: String,
    pub summary: String,
    pub success: bool,
}

/// What is known about a project.
#[derive(Debug, Clone)]
pub struct ProjectContext {
    pub name: String,
    pub tech_stack: Vec<String>,
    pub notes: Vec<String>,
    pub updated_at: String,
}

/// Everything the long-term memory holds for one project.
#[derive(Debug, Clone)]
pub struct MemoryContent {
    /// Preferences, key and value, in the order they were first saved.
    pub preferences: Vec<(String, String)>,
    pub rules: Vec<String>,
    pub project_context: Option<ProjectContext>,
    pub recent_history: Vec<HistoryEntry>,
}

impl MemoryContent {
    /// No preferences, rules, context or history.
    pub fn empty() -> (c: Self)
        ensures
            c.preferences@.len() == 0,
            c.rules@.len() == 0,
            c.project_context is None,
            c.recent_history@.len() == 0,
    {
        MemoryContent { preferences: Vec::new(), rules: Vec::new(), project_context: None, recent_history: Vec::new() }
    }
}

/// The number of history entries loaded into the prompt.
pub const RECENT_HISTORY: usize = 5;

/// The number of history entries a project keeps.
pub const MAX_HISTORY_ENTRIES: usize = 100;

/// The long-term memory of projects.
///
/// Its files are read and written by the caller; these functions are what
/// happens to their contents in between.
pub struct LongTermMemory {
    /// The directory that holds the memory files.
    pub base_dir: String,
}

/// The value stored under `key` among preferences.
pub open spec fn pref_get(ps: Seq<(String, String)>, key: Seq<char>) -> Option<Seq<char>>
    decreases ps.len(),
{
    if ps.len() == 0 {
        None
    } else if ps.last().0@ == key {
        Some(ps.last().1@)
    } else {
        pref_get(ps.drop_last(), key)
    }
}

/// The keys of preferences are distinct.
pub open spec fn prefs_distinct(ps: Seq<(String, String)>) -> bool {
    forall|i: int, j: int| 0 <= i < j < ps.len() ==> ps[i].0@ != ps[j].0@
}

/// One preference line.
pub open spec fn pref_line(p: (String, String)) -> Seq<char> {
    "- "@ + p.0@ + ": "@ + p.1@
}

/// One history line.
pub open spec fn history_line(e: HistoryEntry) -> Seq<char> {
    "- ["@ + e.timestamp@ + "] "@ + e.goal@ + " → "@ + (if e.success {
        "成功"@
    } else {
        "失败"@
    })
}

/// The project section's lines.
pub open spec fn project_lines(c: ProjectContext) -> Seq<Seq<char>> {
    let head = seq!["## 项目知识"@];
    let tech = if c.tech_stack@.len() == 0 {
        Seq::empty()
    } else {
        seq!["- 技术栈: "@ + join(views(c.tech_stack@), ", "@)]
    };
    head + tech + bullets(c.notes@)
}

/// The sections of the long-term memory's prompt summary.
pub open spec fn memory_sections(c: MemoryContent) -> Seq<Seq<char>> {
    let prefs = if c.preferences@.len() == 0 {
        Seq::empty()
    } else {
        seq![join(seq!["## 用户偏好"@] + c.preferences@.map_values(|p: (String, String)| pref_line(p)), "\n"@)]
    };
    let rules = if c.rules@.len() == 0 {
        Seq::empty()
    } else {
        seq![join(seq!["## 自定义规则"@] + bullets(c.rules@), "\n"@)]
    };
    let project = match c.project_context {
        Some(p) => seq![join(project_lines(p), "\n"@)],
        None => Seq::empty(),
    };
    let history = if c.recent_history@.len() == 0 {
        Seq::empty()
    } else {
        seq![join(seq!["## 最近执行记录"@] + c.recent_history@.map_values(|e: HistoryEntry| history_line(e)), "\n"@)]
    };
    prefs + rules + project + history
}

/// The working memory's summary is empty exactly when the memory is: no
/// goal, no sub-tasks, no key results and no errors.
pub proof fn law_working_context_empty(wm: WorkingMemory)
    ensures
        join(working_lines(wm), "\n\n"@).len() == 0 <==> (wm.goal is None && wm.subtasks@.len() == 0
            && wm.key_results@.len() == 0 && wm.errors@.len() == 0),
{
    reveal_strlit("## Goal\n");
    reveal_strlit("## Sub-Tasks");
    reveal_strlit("## Key Results");
    reveal_strlit("## Errors");
    let ls = working_lines(wm);
    if ls.len() > 0 {
        lemma_join_len_first(ls, "\n\n"@);
        assert(ls[0].len() > 0);
    }
}

/// The long-term memory's summary is empty exactly when there are no
/// preferences, no rules, no project knowledge and no history.
pub proof fn law_memory_context_empty(c: MemoryContent)
    ensures
        join(memory_sections(c), "\n\n"@).len() == 0 <==> (c.preferences@.len() == 0 && c.rules@.len() == 0
            && c.project_context is None && c.recent_history@.len() == 0),
{
    reveal_strlit("## 用户偏好");
    reveal_strlit("## 自定义规则");
    reveal_strlit("## 项目知识");
    reveal_strlit("## 最近执行记录");
    let ss = memory_sections(c);
    if ss.len() > 0 {
        lemma_join_len_first(ss, "\n\n"@);
        if c.preferences@.len() > 0 {
            lemma_join_len_first(seq!["## 用户偏好"@] + c.preferences@.map_values(|p: (String, String)| pref_line(p)), "\n"@);
        } else if c.rules@.len() > 0 {
            lemma_join_len_first(seq!["## 自定义规则"@] + bullets(c.rules@), "\n"@);
        } else if c.project_context is Some {
            lemma_join_len_first(project_lines(c.project_context->0), "\n"@);
        } else {
            lemma_join_len_first(seq!["## 最近执行记录"@] + c.recent_history@.map_values(|e: HistoryEntry| history_line(e)), "\n"@);
        }
        assert(ss[0].len() > 0);
    }
}

impl LongTermMemory {
    /// A memory kept under the given directory.
    pub fn new(base_dir: String) -> (m: Self)
        ensures
            m.base_dir == base_dir,
    {
        LongTermMemory { base_dir }
    }

    /// A markdown summary of a project's memory for the system prompt: sections
    /// separated by blank lines.
    pub fn to_prompt_context(content: &MemoryContent) -> (s: String)
        ensures
            s@ == join(memory_sections(*content), "\n\n"@),
            s@.len() == 0 <==> (content.preferences@.len() == 0 && content.rules@.len() == 0
                && content.project_context is None && content.recent_history@.len() == 0),
    {
        proof {
            law_memory_context_empty(*content);
        }
        let mut sections: Vec<String> = Vec::new();
        if content.preferences.len() > 0 {
            let mut lines: Vec<String> = Vec::new();
            lines.push("## 用户偏好".to_owned_string());
            let mut i: usize = 0;
            while i < content.preferences.len()
                invariant
                    i <= content.preferences.len(),
                    views(lines@) == seq!["## 用户偏好"@] + content.preferences@.subrange(0, i as int).map_values(
                        |p: (String, String)| pref_line(p),
                    ),
                decreases content.preferences.len() - i,
            {
                let mut line = concat("- ", content.preferences[i].0.as_str());
                line.append(": ");
                line.append(content.preferences[i].1.as_str());
                let ghost before = views(lines@);
                lines.push(line);
                assert(views(lines@) =~= before.push(line@));
                assert(content.preferences@.subrange(0, i + 1).map_values(|p: (String, String)| pref_line(p))
                    =~= content.preferences@.subrange(0, i as int).map_values(|p: (String, String)| pref_line(p)).push(
                    pref_line(content.preferences@[i as int]),
                ));
                i = i + 1;
            }
            assert(content.preferences@.subrange(0, i as int) =~= content.preferences@);
            let sec = join_strings(&lines, "\n");
            sections.push(sec);
        }
        let ghost s1 = views(sections@);
        if content.rules.len() > 0 {
            let mut lines: Vec<String> = Vec::new();
            push_titled(&mut lines, "## 自定义规则", &content.rules);
            assert(views(lines@) =~= seq!["## 自定义规则"@] + bullets(content.rules@));
            let sec = join_strings(&lines, "\n");
            sections.push(sec);
        }
        let ghost s2 = views(sections@);
        match &content.project_context {
            Some(ctx) => {
                let mut lines: Vec<String> = Vec::new();
                lines.push("## 项目知识".to_owned_string());
                if ctx.tech_stack.len() > 0 {
                    let tech = join_strings(&ctx.tech_stack, ", ");
                    lines.push(concat("- 技术栈: ", tech.as_str()));
                }
                let ghost head = views(lines@);
                assert(head =~= seq!["## 项目知识"@] + (if ctx.tech_stack@.len() == 0 {
                    Seq::<Seq<char>>::empty()
                } else {
                    seq!["- 技术栈: "@ + join(views(ctx.tech_stack@), ", "@)]
                }));
                let mut i: usize = 0;
                while i < ctx.notes.len()
                    invariant
                        i <= ctx.notes.len(),
                        views(lines@) == head + bullets(ctx.notes@.subrange(0, i as int)),
                    decreases ctx.notes.len() - i,
                {
                    let line = concat("- ", ctx.notes[i].as_str());
                    let ghost before = views(lines@);
                    lines.push(line);
                    assert(views(lines@) =~= before.push(line@));
                    assert(bullets(ctx.notes@.subrange(0, i + 1)) =~= bullets(ctx.notes@.subrange(0, i as int)).push(
                        "- "@ + ctx.notes@[i as int]@,
                    ));
                    i = i + 1;
                }
                assert(ctx.notes@.subrange(0, i as int) =~= ctx.notes@);
                assert(views(lines@) =~= project_lines(*ctx));
                let sec = join_strings(&lines, "\n");
                sections.push(sec);
            },
            None => {},
        }
        let ghost s3 = views(sections@);
        if content.recent_history.len() > 0 {
            let mut lines: Vec<String> = Vec::new();
            lines.push("## 最近执行记录".to_owned_string());
            let mut i: usize = 0;
            while i < content.recent_history.len()
                invariant
                    i <= content.recent_history.len(),
                    views(lines@) == seq!["## 最近执行记录"@] + content.recent_history@.subrange(0, i as int).map_values(
                        |e: HistoryEntry| history_line(e),
                    ),
                decreases content.recent_history.len() - i,
            {
                let e = &content.recent_history[i];
                let mut line = concat("- [", e.timestamp.as_str());
                line.append("] ");
                line.append(e.goal.as_str());
                line.append(" → ");
                if e.success {
                    line.append("成功");
                } else {
                    line.append("失败");
                }
                let ghost before = views(lines@);
                lines.push(line);
                assert(views(lines@) =~= before.push(line@));
                assert(content.recent_history@.subrange(0, i + 1).map_values(|e: HistoryEntry| history_line(e))
                    =~= content.recent_history@.subrange(0, i as int).map_values(|e: HistoryEntry| history_line(e)).push(
                    history_line(content.recent_history@[i as int]),
                ));
                i = i + 1;
            }
            assert(content.recent_history@.subrange(0, i as int) =~= content.recent_history@);
            let sec = join_strings(&lines, "\n");
            sections.push(sec);
        }
        assert(views(sections@) =~= memory_sections(*content));
        join_strings(&sections, "\n\n")
    }

    /// Saves a preference: replaces the value of an existing key in place, or
    /// adds the key at the end.
    pub fn save_preference(prefs: &mut Vec<(String, String)>, key: &str, value: &str)
        requires
            prefs_distinct(old(prefs)@),
        ensures
            prefs_distinct(final(prefs)@),
            pref_get(final(prefs)@, key@) == Some(value@),
            forall|k: Seq<char>| k != key@ ==> pref_get(final(prefs)@, k) == pref_get(old(prefs)@, k),
            final(prefs)@.len() == old(prefs)@.len() + (if pref_get(old(prefs)@, key@) is Some {
                0int
            } else {
                1int
            }),
    {
        let mut i: usize = 0;
        while i < prefs.len()
            invariant
                i <= prefs.len(),
                prefs@ == old(prefs)@,
                prefs_distinct(prefs@),
                forall|j: int| 0 <= j < i ==> (#[trigger] prefs@[j]).0@ != key@,
            decreases prefs.len() - i,
        {
            if crate::text::str_eq(prefs[i].0.as_str(), key) {
                let ghost old_ps = prefs@;
                let k = prefs[i].0.clone();
                prefs.set(i, (k, value.to_owned_string()));
                proof {
                    lemma_pref_get_at(old_ps, i as int);
                    lemma_pref_get_update(old_ps, i as int, prefs@, value@);
                }
                return;
            }
            i = i + 1;
        }
        let ghost old_ps = prefs@;
        proof {
            lemma_pref_get_absent(old_ps, key@);
        }
        prefs.push((key.to_owned_string(), value.to_owned_string()));
        assert(prefs@.drop_last() =~= old_ps);
        assert(prefs_distinct(prefs@)) by {
            assert forall|a: int, b: int| 0 <= a < b < prefs@.len() implies prefs@[a].0@ != prefs@[b].0@ by {
                if b == prefs@.len() - 1 {
                    assert(prefs@[a] == old_ps[a]);
                    assert(old_ps[a].0@ != key@);
                } else {
                    assert(prefs@[a] == old_ps[a] && prefs@[b] == old_ps[b]);
                }
            }
        }
    }

    /// Adds a rule at the end.
    pub fn add_rule(rules: &mut Vec<String>, rule: &str)
        ensures
            views(final(rules)@) == views(old(rules)@).push(rule@),
    {
        rules.push(rule.to_owned_string());
        assert(views(rules@) =~= views(old(rules)@).push(rule@));
    }

    /// Removes the rule at `index`; false, with nothing changed, when there is none.
    pub fn remove_rule(rules: &mut Vec<String>, index: usize) -> (removed: bool)
        ensures
            removed == (index < old(rules)@.len()),
            removed ==> final(rules)@ == old(rules)@.remove(index as int),
            !removed ==> final(rules)@ == old(rules)@,
    {
        if index < rules.len() {
            rules.remove(index);
            true
        } else {
            false
        }
    }

    /// The most recent history entries that a project's memory loads: the last five.
    pub fn recent_history(entries: Vec<HistoryEntry>) -> (r: Vec<HistoryEntry>)
        ensures
            r@ == (if entries@.len() <= RECENT_HISTORY {
                entries@
            } else {
                entries@.subrange(entries@.len() - RECENT_HISTORY, entries@.len() as int)
            }),
    {
        let mut entries = entries;
        if entries.len() <= RECENT_HISTORY {
            return entries;
        }
        let start = entries.len() - RECENT_HISTORY;
        let ghost all = entries@;
        let tail = entries.split_off(start);
        assert(tail@ =~= all.subrange(all.len() - RECENT_HISTORY, all.len() as int));
        tail
    }

    /// The lines a history file keeps: empty lines dropped, then the last `max_entries`.
    pub fn trim_history(lines: Vec<String>, max_entries: usize) -> (r: Vec<String>)
        ensures
            ({
                let kept = lines@.filter(|l: String| l@.len() > 0);
                r@ == (if kept.len() <= max_entries {
                    kept
                } else {
                    kept.subrange(kept.len() - max_entries, kept.len() as int)
                })
            }),
    {
        let mut kept: Vec<String> = Vec::new();
        let mut i: usize = 0;
        while i < lines.len()
            invariant
                i <= lines.len(),
                kept@ == lines@.subrange(0, i as int).filter(|l: String| l@.len() > 0),
            decreases lines.len() - i,
        {
            let ghost pre = lines@.subrange(0, i as int);
            assert(lines@.subrange(0, i + 1).drop_last() =~= pre);
            reveal_with_fuel(Seq::<_>::filter, 1);
            if !lines[i].as_str().is_empty() {
                kept.push(lines[i].clone());
            }
            i = i + 1;
        }
        assert(lines@.subrange(0, i as int) =~= lines@);
        if kept.len() <= max_entries {
            return kept;
        }
        let start = kept.len() - max_entries;
        let ghost all = kept@;
        let tail = kept.split_off(start);
        assert(tail@ =~= all.subrange(all.len() - max_entries, all.len() as int));
        tail
    }
}

/// With distinct keys, the value read under a preference's key is that preference's value.
proof fn lemma_pref_get_at(ps: Seq<(String, String)>, j: int)
    requires
        0 <= j < ps.len(),
        prefs_distinct(ps),
    ensures
        pref_get(ps, ps[j].0@) == Some(ps[j].1@),
    decreases ps.len(),
{
    if j < ps.len() - 1 {
        assert(ps.drop_last()[j] == ps[j]);
        lemma_pref_get_at(ps.drop_last(), j);
    }
}

/// Replacing the value of the preference at `i` changes what is read under its
/// key and nothing else.
proof fn lemma_pref_get_update(ps: Seq<(String, String)>, i: int, new_ps: Seq<(String, String)>, v: Seq<char>)
    requires
        0 <= i < ps.len(),
        prefs_distinct(ps),
        new_ps.len() == ps.len(),
        new_ps[i].0@ == ps[i].0@,
        new_ps[i].1@ == v,
        forall|j: int| 0 <= j < ps.len() && j != i ==> new_ps[j] == ps[j],
    ensures
        prefs_distinct(new_ps),
        pref_get(new_ps, ps[i].0@) == Some(v),
        forall|k: Seq<char>| k != ps[i].0@ ==> pref_get(new_ps, k) == pref_get(ps, k),
{
    assert forall|j: int| 0 <= j < ps.len() implies (#[trigger] new_ps[j]).0@ == ps[j].0@ by {
        if j != i {
            assert(new_ps[j] == ps[j]);
        }
    }
    lemma_pref_get_at(new_ps, i);
    assert forall|k: Seq<char>| k != ps[i].0@ implies pref_get(new_ps, k) == pref_get(ps, k) by {
        if exists|j: int| 0 <= j < ps.len() && (#[trigger] ps[j]).0@ == k {
            let j = choose|j: int| 0 <= j < ps.len() && (#[trigger] ps[j]).0@ == k;
            assert(new_ps[j] == ps[j]);
            lemma_pref_get_at(ps, j);
            lemma_pref_get_at(new_ps, j);
        } else {
            assert forall|j: int| 0 <= j < new_ps.len() implies (#[trigger] new_ps[j]).0@ != k by {
                assert(new_ps[j].0@ == ps[j].0@);
            }
            lemma_pref_get_absent(ps, k);
            lemma_pref_get_absent(new_ps, k);
        }
    }
}

/// A key that no preference has reads as absent.
proof fn lemma_pref_get_absent(ps: Seq<(String, String)>, key: Seq<char>)
    requires
        forall|j: int| 0 <= j < ps.len() ==> (#[trigger] ps[j]).0@ != key,
    ensures
        pref_get(ps, key) is None,
    decreases ps.len(),
{
    if ps.len() > 0 {
        lemma_pref_get_absent(ps.drop_last(), key);
    }
}

// ---------------------------------------------------------------------------
// Project files
// ---------------------------------------------------------------------------

/// What `DefaultHasher::new()` gives for a string hashed into it (`str::hash`,
/// then `finish`).
pub uninterp spec fn str_hash(s: Seq<char>) -> u64;

/// Calls `std::hash::DefaultHasher::new`, hashes the string into it and
/// finishes. Claims the hash is a function of the string alone: the std
/// documentation promises that hashers made by `new` all give the same
/// result (within one build of the program).
#[verifier::external_body]
fn default_hash(s: &str) -> (h: u64)
    ensures
        h == str_hash(s@),
{
    let mut hasher = std::collections::hash_map::DefaultHasher::new();
    std::hash::Hash::hash(s, &mut hasher);
    std::hash::Hasher::finish(&hasher)
}

/// The lower-case hexadecimal digit of `d`.
pub open spec fn hex_digit(d: nat) -> char {
    if d < 10 {
        (('0' as u32) + d) as char
    } else {
        (('a' as u32) + d - 10) as char
    }
}

/// The last `k` hexadecimal digits of `n`, zero-padded (`{:0kx}` for `k` of 16).
pub open spec fn hex_text(n: nat, k: nat) -> Seq<char>
    decreases k,
{
    if k == 0 {
        Seq::empty()
    } else {
        hex_text(n / 16, (k - 1) as nat).push(hex_digit(n % 16))
    }
}

/// The hexadecimal digit of `d`.
fn hex_char(d: u64) -> (c: char)
    requires
        d < 16,
    ensures
        c == hex_digit(d as nat),
{
    if d < 10 {
        crate::json::char_of_digit(d)
    } else if d == 10 {
        'a'
    } else if d == 11 {
        'b'
    } else if d == 12 {
        'c'
    } else if d == 13 {
        'd'
    } else if d == 14 {
        'e'
    } else {
        'f'
    }
}

/// The last `k` hexadecimal digits of `n`, zero-padded.
fn hex_digits(n: u64, k: usize) -> (s: String)
    ensures
        s@ == hex_text(n as nat, k as nat),
    decreases k,
{
    if k == 0 {
        String::new()
    } else {
        let mut s = hex_digits(n / 16, k - 1);
        crate::text::push_char(&mut s, hex_char(n % 16));
        s
    }
}

/// The length of a zero-padded hexadecimal text is its width.
proof fn lemma_hex_text_len(n: nat, k: nat)
    ensures
        hex_text(n, k).len() == k,
    decreases k,
{
    if k > 0 {
        lemma_hex_text_len(n / 16, (k - 1) as nat);
    }
}

/// The name of a project's directory: the hash of its canonical path, as 16
/// hexadecimal digits.
pub fn path_to_hash(canonical: &str) -> (r: String)
    ensures
        r@ == hex_text(str_hash(canonical@) as nat, 16),
        r@.len() == 16,
{
    proof {
        lemma_hex_text_len(str_hash(canonical@) as nat, 16);
    }
    hex_digits(default_hash(canonical), 16)
}

/// The files of a project's memory: its directory under `projects`, its
/// context file and its history file.
pub open spec fn project_files(base: Seq<char>, hash: Seq<char>) -> (Seq<char>, Seq<char>, Seq<char>) {
    let dir = join_path(join_path(base, "projects"@), hash);
    (dir, join_path(dir, "context.json"@), join_path(dir, "history.jsonl"@))
}

/// The files of a project's memory.
pub fn project_paths(base: &str, hash: &str) -> (r: (String, String, String))
    ensures
        (r.0@, r.1@, r.2@) == project_files(base@, hash@),
{
    let projects = path_join(base, "projects");
    let dir = path_join(projects.as_str(), hash);
    let context = path_join(dir.as_str(), "context.json");
    let history = path_join(dir.as_str(), "history.jsonl");
    (dir, context, history)
}

/// A project's context with a note added: the stored context, or a new one
/// named after the project's directory (`unknown` when it has no name), with
/// the note appended and the time of the change.
pub fn project_note_added(stored: Option<ProjectContext>, dir_name: Option<String>, note: &str, now: &str) -> (r:
    ProjectContext)
    ensures
        r.updated_at@ == now@,
        match stored {
            Some(c) => r.name == c.name && r.tech_stack == c.tech_stack && views(r.notes@) == views(c.notes@).push(
                note@,
            ),
            None => r.name@ == (match dir_name {
                Some(n) => n@,
                None => "unknown"@,
            }) && r.tech_stack@.len() == 0 && views(r.notes@) == seq![note@],
        },
{
    let mut ctx = match stored {
        Some(c) => c,
        None => ProjectContext {
            name: match dir_name {
                Some(n) => n,
                None => "unknown".to_owned_string(),
            },
            tech_stack: Vec::new(),
            notes: Vec::new(),
            updated_at: now.to_owned_string(),
        },
    };
    let ghost before = views(ctx.notes@);
    ctx.notes.push(note.to_owned_string());
    assert(views(ctx.notes@) =~= before.push(note@));
    ctx.updated_at = now.to_owned_string();
    ctx
}

} // verus!
