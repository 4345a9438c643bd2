//! The decisions of a workflow run. A run moves in rounds: the tasks ready to
//! run are found, their `when` conditions decide which are skipped (or fail),
//! the rest are handed out to run; as each finishes, its result is recorded and
//! a failure blocks everything downstream of it. The caller runs the tasks and
//! reports back.
use vstd::prelude::*;
use petgraph::graph::Graph;
use petgraph::Directed;
use crate::assoc::{keys_distinct, lookup, assoc_insert, kv_view, find_key, assoc_set, lemma_lookup, has_key, key_index, lemma_lookup_insert};
use crate::dag::{
    dag_nodes, dag_edges, build_dag, find_ready_tasks, propagate_failure, ready_tasks, status_of, blocks,
    task_edges, index_entries, deps_known, dep_count, deps_finished,
};
use crate::json::{Json, JsonV, jv_get, jv_str, json_text, json_seq_view, to_json_text};
use crate::template::{TemplateContext, CtxV, evaluate_when, when_value};
use crate::text::{views, join, join_strings, concat, ToOwnedString};
use crate::plugin::PluginError;
use crate::workflow::{
    CoreError, WorkflowDef, TaskDef, TaskStatus, TaskResult, WorkflowResult, task_names, names_distinct,
    core_error_text, parse_duration, duration_secs, duration_fits, finished_well,
};

verus! {

// ---------------------------------------------------------------------------
// Single tasks
// ---------------------------------------------------------------------------

/// How a task is run: its limits, as seconds and attempts.
#[derive(Debug, Clone, Copy, PartialEq, Eq, Structural)]
pub struct TaskTiming {
    /// How long one attempt may take (300 when the task names no timeout).
    pub timeout_secs: u64,
    /// How many times the task is tried (1 without a retry policy).
    pub max_attempts: u32,
    /// How long to wait between attempts (5 without a retry policy).
    pub retry_delay_secs: u64,
}

/// The timing of a task: its timeout and retry policy, read as durations.
pub open spec fn timing_of(t: TaskDef) -> Result<TaskTiming, Seq<char>> {
    let timeout = match t.timeout {
        Some(s) => match duration_secs(s@) {
            Some(n) => Ok(n),
            None => Err("invalid duration: "@ + crate::text::trim(s@)),
        },
        None => Ok(300nat),
    };
    let attempts: u32 = match t.retry {
        Some(r) => r.max_attempts,
        None => 1,
    };
    let delay = match t.retry {
        Some(r) => match duration_secs(r.delay@) {
            Some(n) => Ok(n),
            None => Err("invalid duration: "@ + crate::text::trim(r.delay@)),
        },
        None => Ok(5nat),
    };
    match timeout {
        Err(e) => Err(e),
        Ok(to) => match delay {
            Err(e) => Err(e),
            Ok(d) => Ok(TaskTiming { timeout_secs: to as u64, max_attempts: attempts, retry_delay_secs: d as u64 }),
        },
    }
}

/// The durations of a task fit in 64 bits.
pub open spec fn timing_fits(t: TaskDef) -> bool {
    &&& t.timeout matches Some(s) ==> duration_fits(s@)
    &&& t.retry matches Some(r) ==> duration_fits(r.delay@)
}

/// Reads a task's timeout and retry policy. Refused with a `Template` error
/// when a duration is not valid (the timeout is read first).
pub fn task_timing(task_def: &TaskDef) -> (r: Result<TaskTiming, CoreError>)
    requires
        timing_fits(*task_def),
    ensures
        match r {
            Ok(t) => timing_of(*task_def) == Ok::<TaskTiming, Seq<char>>(t),
            Err(CoreError::Template(m)) => timing_of(*task_def) == Err::<TaskTiming, Seq<char>>(m@),
            Err(_) => false,
        },
{
    let timeout = match &task_def.timeout {
        Some(s) => match parse_duration(s.as_str()) {
            Ok(n) => n,
            Err(e) => {
                return Err(e);
            },
        },
        None => 300,
    };
    let max_attempts = match &task_def.retry {
        Some(r) => r.max_attempts,
        None => 1,
    };
    let delay = match &task_def.retry {
        Some(r) => match parse_duration(r.delay.as_str()) {
            Ok(n) => n,
            Err(e) => {
                return Err(e);
            },
        },
        None => 5,
    };
    Ok(TaskTiming { timeout_secs: timeout, max_attempts, retry_delay_secs: delay })
}

/// The `text` strings of content blocks, in order; blocks without one are left out.
pub open spec fn block_texts(a: Seq<JsonV>) -> Seq<Seq<char>>
    decreases a.len(),
{
    if a.len() == 0 {
        Seq::empty()
    } else {
        block_texts(a.drop_last()) + match jv_str(jv_get(a.last(), "text"@)) {
            Some(t) => seq![t],
            None => Seq::empty(),
        }
    }
}

/// The text of a tool's result content: the texts of its blocks, one per line,
/// when it is an array; else `fallback`.
pub open spec fn content_text(content: JsonV, fallback: Seq<char>) -> Seq<char> {
    match content {
        JsonV::Array(a) => join(block_texts(a), "\n"@),
        _ => fallback,
    }
}

/// The texts of the content blocks of an array.
fn block_texts_exec(a: &Vec<Json>) -> (r: Vec<String>)
    ensures
        views(r@) == block_texts(json_seq_view(a@)),
{
    let mut r: Vec<String> = Vec::new();
    let mut i: usize = 0;
    proof {
        crate::json::lemma_seq_view_index(a@);
    }
    while i < a.len()
        invariant
            i <= a.len(),
            json_seq_view(a@).len() == a@.len(),
            forall|j: int| 0 <= j < a@.len() ==> #[trigger] json_seq_view(a@)[j] == a@[j]@,
            views(r@) == block_texts(json_seq_view(a@).subrange(0, i as int)),
        decreases a.len() - i,
    {
        let ghost pre = json_seq_view(a@).subrange(0, i as int);
        let ghost cur = json_seq_view(a@).subrange(0, i + 1);
        assert(cur.drop_last() =~= pre);
        assert(cur.last() == a@[i as int]@);
        let ghost before = views(r@);
        match a[i].get("text") {
            Some(t) => match t.as_str() {
                Some(s) => {
                    r.push(s.clone());
                    assert(views(r@) =~= before.push(s@));
                },
                None => {
                    assert(views(r@) =~= before + Seq::<Seq<char>>::empty());
                },
            },
            None => {
                assert(views(r@) =~= before + Seq::<Seq<char>>::empty());
            },
        }
        i = i + 1;
    }
    assert(json_seq_view(a@).subrange(0, i as int) =~= json_seq_view(a@));
    r
}

/// The texts of the content blocks of a tool's result, one per line, when the
/// content is an array.
pub fn blocks_text(content: &Json) -> (r: Option<String>)
    ensures
        match r {
            Some(t) => content@ is Array && t@ == content_text(content@, Seq::empty()),
            None => !(content@ is Array),
        },
{
    match content {
        Json::Array(a) => {
            let texts = block_texts_exec(a);
            Some(join_strings(&texts, "\n"))
        },
        _ => None,
    }
}

/// The text a task's tool returned: the texts of its content blocks, one per
/// line; the content's JSON text when it is not an array.
pub fn task_output_text(content: &Json) -> (s: String)
    ensures
        s@ == content_text(content@, json_text(content@)),
{
    match content {
        Json::Array(a) => {
            let texts = block_texts_exec(a);
            join_strings(&texts, "\n")
        },
        _ => to_json_text(content),
    }
}

/// A task that finished: done, its output the text its tool returned.
pub fn task_done(content: &Json) -> (r: TaskResult)
    ensures
        r.status == TaskStatus::Done,
        r.output@ == JsonV::Str(content_text(content@, json_text(content@))),
{
    TaskResult { status: TaskStatus::Done, output: Json::Str(task_output_text(content)) }
}

/// The error of a task whose every attempt failed: the last attempt's error,
/// or a `TaskFailed` when there was no attempt.
pub fn attempts_failed(name: &str, last_error: Option<CoreError>) -> (e: CoreError)
    ensures
        match last_error {
            Some(l) => e == l,
            None => e matches CoreError::TaskFailed { task, reason } && task@ == name@ && reason@ == "unknown error"@,
        },
{
    match last_error {
        Some(e) => e,
        None => CoreError::TaskFailed { task: name.to_owned_string(), reason: "unknown error".to_owned_string() },
    }
}

// ---------------------------------------------------------------------------
// The attempts at a task
// ---------------------------------------------------------------------------

/// How far the attempts at a task have come: how many have ended, and the
/// error of the last that failed.
#[derive(Debug)]
pub struct AttemptState {
    pub made: u32,
    pub last_error: Option<CoreError>,
}

/// How an attempt ended.
#[derive(Debug)]
pub enum AttemptEvent {
    /// The tool returned, with this content.
    Returned(Json),
    /// The tool reported an error.
    Failed(PluginError),
    /// The attempt took longer than the timeout.
    TimedOut,
}

/// What to do next about a task.
#[derive(Debug)]
pub enum AttemptAction {
    /// Wait `wait_secs`, then call the task's tool, giving up after `timeout_secs`.
    Call { wait_secs: u64, timeout_secs: u64 },
    /// The task is over, with this outcome.
    Finish(Result<TaskResult, CoreError>),
}

/// After `made` attempts have ended with `last` as the last error: another
/// call when attempts are left (after the retry delay, or at once for the
/// first), else the task fails with the last error.
pub open spec fn attempt_next(name: Seq<char>, timing: TaskTiming, made: u32, last: Option<CoreError>, a: AttemptAction) -> bool {
    if made < timing.max_attempts {
        a == AttemptAction::Call {
            wait_secs: if made == 0 { 0 } else { timing.retry_delay_secs },
            timeout_secs: timing.timeout_secs,
        }
    } else {
        match a {
            AttemptAction::Finish(Err(e)) => match last {
                Some(l) => e == l,
                None => e matches CoreError::TaskFailed { task, reason } && task@ == name && reason@
                    == "unknown error"@,
            },
            _ => false,
        }
    }
}

/// The decision after `made` attempts ended with `last_error`.
fn attempt_decide(name: &str, timing: &TaskTiming, made: u32, last_error: Option<CoreError>) -> (a: AttemptAction)
    ensures
        attempt_next(name@, *timing, made, last_error, a),
{
    if made < timing.max_attempts {
        let wait_secs = if made == 0 { 0 } else { timing.retry_delay_secs };
        AttemptAction::Call { wait_secs, timeout_secs: timing.timeout_secs }
    } else {
        AttemptAction::Finish(Err(attempts_failed(name, last_error)))
    }
}

/// The first step at a task: no attempt has ended, so the tool is called at
/// once when the task may be tried at all; with no attempts it fails.
pub fn attempt_start(name: &str, timing: &TaskTiming) -> (r: (AttemptState, AttemptAction))
    ensures
        r.0.made == 0,
        r.0.last_error is None,
        attempt_next(name@, *timing, 0, None, r.1),
{
    let a = attempt_decide(name, timing, 0, None);
    (AttemptState { made: 0, last_error: None }, a)
}

/// The step after an attempt at task `name` ended. A tool that returned
/// finishes the task as done with the text it returned. An error, or a
/// timeout (as `Timeout(name)`), becomes the last error; then the tool is
/// called again after the retry delay while attempts are left, and the task
/// fails with that error when none are.
pub fn attempt_step(name: &str, timing: &TaskTiming, state: AttemptState, event: AttemptEvent) -> (r: (
    AttemptState,
    AttemptAction,
))
    requires
        state.made < timing.max_attempts,
    ensures
        match event {
            AttemptEvent::Returned(content) => r.0.made == state.made + 1 && (r.1 matches AttemptAction::Finish(
                Ok(t),
            ) && t.status == TaskStatus::Done && t.output@ == JsonV::Str(
                content_text(content@, json_text(content@)),
            )),
            AttemptEvent::Failed(p) => r.0.made == state.made + 1 && r.0.last_error == Some(CoreError::Plugin(p))
                && attempt_next(name@, *timing, r.0.made, r.0.last_error, r.1),
            AttemptEvent::TimedOut => r.0.made == state.made + 1 && (r.0.last_error matches Some(
                CoreError::Timeout(t),
            ) && t@ == name@) && attempt_next(name@, *timing, r.0.made, r.0.last_error, r.1),
        },
{
    let made = state.made + 1;
    match event {
        AttemptEvent::Returned(content) => {
            let done = task_done(&content);
            (AttemptState { made, last_error: state.last_error }, AttemptAction::Finish(Ok(done)))
        },
        AttemptEvent::Failed(p) => {
            let a = attempt_decide(name, timing, made, Some(CoreError::Plugin(p.copy())));
            (AttemptState { made, last_error: Some(CoreError::Plugin(p)) }, a)
        },
        AttemptEvent::TimedOut => {
            let t = name.to_owned_string();
            let a = attempt_decide(name, timing, made, Some(CoreError::Timeout(t.clone())));
            (AttemptState { made, last_error: Some(CoreError::Timeout(t)) }, a)
        },
    }
}

// ---------------------------------------------------------------------------
// A run
// ---------------------------------------------------------------------------

/// What a `when` condition decides for a ready task.
pub enum WhenOutcome {
    Run,
    Skip,
    /// The condition could not be evaluated; the error's text.
    Fail(Seq<char>),
}

/// The decision of a task's condition (a task without one runs).
pub open spec fn when_outcome(t: TaskDef, ctx: CtxV) -> WhenOutcome {
    match t.when {
        None => WhenOutcome::Run,
        Some(expr) => match when_value(expr@, ctx) {
            Ok(true) => WhenOutcome::Run,
            Ok(false) => WhenOutcome::Skip,
            Err(m) => WhenOutcome::Fail(m),
        },
    }
}

/// The model of a task result.
pub open spec fn result_view(r: TaskResult) -> (TaskStatus, JsonV) {
    (r.status, r.output@)
}

/// The definition of the task named `name`.
pub open spec fn task_def_of(tasks: Seq<(String, TaskDef)>, name: Seq<char>) -> TaskDef {
    tasks[task_names(tasks).index_of(name)].1
}

/// The statuses after the conditions of the ready tasks are decided, task by task.
pub open spec fn statuses_after_when(
    sv: Seq<(Seq<char>, TaskStatus)>,
    ready: Seq<Seq<char>>,
    tasks: Seq<(String, TaskDef)>,
    ctx: CtxV,
) -> Seq<(Seq<char>, TaskStatus)>
    decreases ready.len(),
{
    if ready.len() == 0 {
        sv
    } else {
        let prev = statuses_after_when(sv, ready.drop_last(), tasks, ctx);
        let name = ready.last();
        match when_outcome(task_def_of(tasks, name), ctx) {
            WhenOutcome::Run => assoc_insert(prev, name, TaskStatus::Running),
            WhenOutcome::Skip => assoc_insert(prev, name, TaskStatus::Skipped),
            WhenOutcome::Fail(_) => assoc_insert(prev, name, TaskStatus::Failed),
        }
    }
}

/// The results after the conditions of the ready tasks are decided: a skipped
/// task's output is `"skipped"`, a failed condition's the error's text.
pub open spec fn results_after_when(
    rv: Seq<(Seq<char>, (TaskStatus, JsonV))>,
    ready: Seq<Seq<char>>,
    tasks: Seq<(String, TaskDef)>,
    ctx: CtxV,
) -> Seq<(Seq<char>, (TaskStatus, JsonV))>
    decreases ready.len(),
{
    if ready.len() == 0 {
        rv
    } else {
        let prev = results_after_when(rv, ready.drop_last(), tasks, ctx);
        let name = ready.last();
        match when_outcome(task_def_of(tasks, name), ctx) {
            WhenOutcome::Run => prev,
            WhenOutcome::Skip => assoc_insert(prev, name, (TaskStatus::Skipped, JsonV::Str("skipped"@))),
            WhenOutcome::Fail(m) => assoc_insert(
                prev,
                name,
                (TaskStatus::Failed, JsonV::Str("when error: "@ + "Template resolution error: "@ + m)),
            ),
        }
    }
}

/// The ready tasks whose condition lets them run, in order.
pub open spec fn runnable(ready: Seq<Seq<char>>, tasks: Seq<(String, TaskDef)>, ctx: CtxV) -> Seq<Seq<char>>
    decreases ready.len(),
{
    if ready.len() == 0 {
        Seq::empty()
    } else {
        runnable(ready.drop_last(), tasks, ctx) + match when_outcome(task_def_of(tasks, ready.last()), ctx) {
            WhenOutcome::Run => seq![ready.last()],
            _ => Seq::empty(),
        }
    }
}

/// What decides a task: with no condition, or with one that evaluates to
/// true, it runs; a condition that evaluates to false skips it; one that
/// cannot be evaluated fails it with the error.
pub proof fn law_when_decides(t: TaskDef, ctx: CtxV)
    ensures
        t.when is None ==> when_outcome(t, ctx) == WhenOutcome::Run,
        t.when matches Some(e) && when_value(e@, ctx) == Ok::<bool, Seq<char>>(true) ==> when_outcome(t, ctx)
            == WhenOutcome::Run,
        t.when matches Some(e) && when_value(e@, ctx) == Ok::<bool, Seq<char>>(false) ==> when_outcome(t, ctx)
            == WhenOutcome::Skip,
        t.when matches Some(e) ==> (when_value(e@, ctx) matches Err(m) ==> when_outcome(t, ctx) == WhenOutcome::Fail(
            m,
        )),
{
}

/// The task runs: it has no condition, or its condition evaluates to true.
pub open spec fn condition_holds(t: TaskDef, ctx: CtxV) -> bool {
    match t.when {
        None => true,
        Some(e) => when_value(e@, ctx) == Ok::<bool, Seq<char>>(true),
    }
}

/// Of the ready tasks, each one whose condition holds (or that has none) is
/// handed out and marked running, and each one whose condition is false is
/// marked skipped and not handed out.
pub proof fn law_ready_tasks_run_when_condition_holds(
    sv: Seq<(Seq<char>, TaskStatus)>,
    ready: Seq<Seq<char>>,
    tasks: Seq<(String, TaskDef)>,
    ctx: CtxV,
    name: Seq<char>,
)
    requires
        keys_distinct(sv),
        ready.contains(name),
    ensures
        condition_holds(task_def_of(tasks, name), ctx) ==> runnable(ready, tasks, ctx).contains(name) && status_of(
            statuses_after_when(sv, ready, tasks, ctx),
            name,
        ) == TaskStatus::Running,
        (task_def_of(tasks, name).when matches Some(e) && when_value(e@, ctx) == Ok::<bool, Seq<char>>(false))
            ==> !runnable(ready, tasks, ctx).contains(name) && status_of(statuses_after_when(sv, ready, tasks, ctx), name)
            == TaskStatus::Skipped,
    decreases ready.len(),
{
    let t = task_def_of(tasks, name);
    law_when_decides(t, ctx);
    let prev_r = ready.drop_last();
    let prev = statuses_after_when(sv, prev_r, tasks, ctx);
    lemma_after_when(sv, prev_r, tasks, ctx);
    let last = ready.last();
    let s_last = match when_outcome(task_def_of(tasks, last), ctx) {
        WhenOutcome::Run => TaskStatus::Running,
        WhenOutcome::Skip => TaskStatus::Skipped,
        WhenOutcome::Fail(_) => TaskStatus::Failed,
    };
    lemma_lookup_insert(prev, last, s_last);
    let extra = match when_outcome(task_def_of(tasks, last), ctx) {
        WhenOutcome::Run => seq![last],
        _ => Seq::<Seq<char>>::empty(),
    };
    assert(runnable(ready, tasks, ctx) == runnable(prev_r, tasks, ctx) + extra);
    if last == name {
        if condition_holds(t, ctx) {
            let rr = runnable(ready, tasks, ctx);
            assert(rr[rr.len() - 1] == name);
        }
        if !condition_holds(t, ctx) && t.when is Some && when_value(t.when->Some_0@, ctx) == Ok::<bool, Seq<char>>(false) {
            if runnable(ready, tasks, ctx).contains(name) {
                if prev_r.contains(name) {
                    law_ready_tasks_run_when_condition_holds(sv, prev_r, tasks, ctx, name);
                } else {
                    lemma_runnable_from(prev_r, tasks, ctx, name);
                }
            }
        }
    } else {
        let i = choose|i: int| 0 <= i < ready.len() && ready[i] == name;
        assert(prev_r[i] == name);
        law_ready_tasks_run_when_condition_holds(sv, prev_r, tasks, ctx, name);
        if condition_holds(t, ctx) {
            let rp = runnable(prev_r, tasks, ctx);
            let j = choose|j: int| 0 <= j < rp.len() && rp[j] == name;
            assert(runnable(ready, tasks, ctx)[j] == name);
        }
    }
}

/// What `runnable` hands out is among the tasks it was given.
proof fn lemma_runnable_from(ready: Seq<Seq<char>>, tasks: Seq<(String, TaskDef)>, ctx: CtxV, name: Seq<char>)
    ensures
        runnable(ready, tasks, ctx).contains(name) ==> ready.contains(name),
    decreases ready.len(),
{
    if ready.len() > 0 {
        let prev_r = ready.drop_last();
        lemma_runnable_from(prev_r, tasks, ctx, name);
        let rp = runnable(prev_r, tasks, ctx);
        let r = runnable(ready, tasks, ctx);
        if r.contains(name) {
            let j = choose|j: int| 0 <= j < r.len() && r[j] == name;
            if j < rp.len() {
                assert(r[j] == rp[j]);
                let i = choose|i: int| 0 <= i < prev_r.len() && prev_r[i] == name;
                assert(ready[i] == name);
            } else {
                assert(ready[ready.len() - 1] == name);
            }
        }
    }
}

/// The statuses of tasks, all pending.
pub open spec fn all_pending(names: Seq<Seq<char>>) -> Seq<(Seq<char>, TaskStatus)> {
    names.map_values(|n: Seq<char>| (n, TaskStatus::Pending))
}

/// The statuses after a failure propagates from `name`: the failed task is
/// `Failed`, and every pending task downstream of it `Blocked`.
pub open spec fn failure_propagated(
    after: Seq<(Seq<char>, TaskStatus)>,
    failed: Seq<(Seq<char>, TaskStatus)>,
    nodes: Seq<Seq<char>>,
    es: Seq<(int, int)>,
    start: Option<usize>,
) -> bool {
    match start {
        None => after == failed,
        Some(st) => {
            &&& forall|v: int|
                0 <= v < nodes.len() ==> #[trigger] lookup(after, nodes[v]) == if blocks(
                    es,
                    st as int,
                    v,
                    status_of(failed, nodes[v]),
                ) {
                    Some(TaskStatus::Blocked)
                } else {
                    lookup(failed, nodes[v])
                }
            &&& forall|k: Seq<char>| !nodes.contains(k) ==> #[trigger] lookup(after, k) == lookup(failed, k)
        },
    }
}

/// A task that has not started: pending, or blocked by a failure upstream.
pub open spec fn waiting(s: TaskStatus) -> bool {
    s == TaskStatus::Pending || s == TaskStatus::Blocked
}

/// Every task that has started (is no longer waiting) has all its
/// dependencies done or skipped.
pub open spec fn started_after_deps(
    nodes: Seq<Seq<char>>,
    es: Seq<(int, int)>,
    st: Seq<(Seq<char>, TaskStatus)>,
) -> bool {
    forall|e: int|
        0 <= e < es.len() && !waiting(status_of(st, nodes[(#[trigger] es[e]).1])) ==> finished_well(
            status_of(st, nodes[es[e].0]),
        )
}

/// In a run just started every task is pending.
proof fn lemma_all_pending_status(names: Seq<Seq<char>>, k: Seq<char>)
    ensures
        status_of(all_pending(names), k) == TaskStatus::Pending,
    decreases names.len(),
{
    if names.len() > 0 {
        lemma_all_pending_status(names.drop_last(), k);
        assert(all_pending(names).drop_last() =~= all_pending(names.drop_last()));
    }
}

/// Deciding the conditions of the tasks in `r` changes the status of those
/// tasks alone, each to running, skipped or failed.
proof fn lemma_after_when(
    sv: Seq<(Seq<char>, TaskStatus)>,
    r: Seq<Seq<char>>,
    tasks: Seq<(String, TaskDef)>,
    ctx: CtxV,
)
    requires
        keys_distinct(sv),
    ensures
        keys_distinct(statuses_after_when(sv, r, tasks, ctx)),
        forall|k: Seq<char>| !r.contains(k) ==> #[trigger] status_of(statuses_after_when(sv, r, tasks, ctx), k)
            == status_of(sv, k),
        forall|k: Seq<char>| r.contains(k) ==> !waiting(#[trigger] status_of(statuses_after_when(sv, r, tasks, ctx), k))
            && !finished_well(status_of(statuses_after_when(sv, r, tasks, ctx), k)) || status_of(
            statuses_after_when(sv, r, tasks, ctx),
            k,
        ) == TaskStatus::Skipped,
    decreases r.len(),
{
    if r.len() > 0 {
        let prev = statuses_after_when(sv, r.drop_last(), tasks, ctx);
        lemma_after_when(sv, r.drop_last(), tasks, ctx);
        let name = r.last();
        let s = match when_outcome(task_def_of(tasks, name), ctx) {
            WhenOutcome::Run => TaskStatus::Running,
            WhenOutcome::Skip => TaskStatus::Skipped,
            WhenOutcome::Fail(_) => TaskStatus::Failed,
        };
        assert(statuses_after_when(sv, r, tasks, ctx) == assoc_insert(prev, name, s));
        lemma_lookup_insert(prev, name, s);
        assert forall|k: Seq<char>| !r.contains(k) implies #[trigger] status_of(
            statuses_after_when(sv, r, tasks, ctx),
            k,
        ) == status_of(sv, k) by {
            if k == name {
                assert(r[r.len() - 1] == k);
            }
            if r.drop_last().contains(k) {
                let i = choose|i: int| 0 <= i < r.drop_last().len() && r.drop_last()[i] == k;
                assert(r[i] == k);
            }
            assert(status_of(prev, k) == status_of(sv, k));
            assert(lookup(assoc_insert(prev, name, s), k) == lookup(prev, k));
        }
        assert forall|k: Seq<char>| r.contains(k) implies !waiting(
            #[trigger] status_of(statuses_after_when(sv, r, tasks, ctx), k),
        ) && !finished_well(status_of(statuses_after_when(sv, r, tasks, ctx), k)) || status_of(
            statuses_after_when(sv, r, tasks, ctx),
            k,
        ) == TaskStatus::Skipped by {
            if k != name {
                let i = choose|i: int| 0 <= i < r.len() && r[i] == k;
                assert(i < r.len() - 1);
                assert(r.drop_last()[i] == k);
                assert(r.drop_last().contains(k));
                assert(lookup(assoc_insert(prev, name, s), k) == lookup(prev, k));
                assert(status_of(statuses_after_when(sv, r, tasks, ctx), k) == status_of(prev, k));
            } else {
                assert(status_of(statuses_after_when(sv, r, tasks, ctx), k) == s);
            }
        }
    }
}

/// Deciding the conditions of the ready tasks keeps every started task's
/// dependencies done or skipped.
pub proof fn law_conditions_keep_order(
    nodes: Seq<Seq<char>>,
    es: Seq<(int, int)>,
    sv: Seq<(Seq<char>, TaskStatus)>,
    tasks: Seq<(String, TaskDef)>,
    ctx: CtxV,
)
    requires
        names_distinct(nodes),
        nodes.len() <= usize::MAX,
        keys_distinct(sv),
        forall|e: int| 0 <= e < es.len() ==> 0 <= (#[trigger] es[e]).0 < nodes.len() && 0 <= es[e].1 < nodes.len(),
        started_after_deps(nodes, es, sv),
    ensures
        started_after_deps(
            nodes,
            es,
            statuses_after_when(sv, ready_tasks(index_entries(nodes), nodes, es, sv), tasks, ctx),
        ),
{
    let entries = index_entries(nodes);
    let ready = ready_tasks(entries, nodes, es, sv);
    let after = statuses_after_when(sv, ready, tasks, ctx);
    lemma_after_when(sv, ready, tasks, ctx);
    assert forall|k: Seq<char>| ready.contains(k) implies status_of(sv, k) == TaskStatus::Pending && exists|j: int|
        0 <= j < nodes.len() && nodes[j] == k && deps_finished(nodes, es, sv, j) by {
        let q = choose|q: int| 0 <= q < ready.len() && ready[q] == k;
        crate::dag::law_ready_tasks_pending_with_finished_deps(entries, nodes, es, sv, q);
        let j = choose|j: int|
            0 <= j < entries.len() && #[trigger] entries[j].0 == ready[q] && status_of(sv, entries[j].0)
                == TaskStatus::Pending && deps_finished(nodes, es, sv, entries[j].1 as int);
        assert(entries[j] == (nodes[j], j as usize));
        assert(entries[j].1 as int == j);
    }
    assert forall|e: int|
        0 <= e < es.len() && !waiting(status_of(after, nodes[(#[trigger] es[e]).1])) implies finished_well(
        status_of(after, nodes[es[e].0]),
    ) by {
        let a = es[e].0;
        let b = es[e].1;
        if ready.contains(nodes[b]) {
            let j = choose|j: int| 0 <= j < nodes.len() && nodes[j] == nodes[b] && deps_finished(nodes, es, sv, j);
            if j != b {
                if j < b {
                    assert(nodes[j] != nodes[b]);
                } else {
                    assert(nodes[b] != nodes[j]);
                }
            }
            assert(finished_well(status_of(sv, nodes[a])));
        } else {
            assert(finished_well(status_of(sv, nodes[a])));
        }
        if ready.contains(nodes[a]) {
            assert(status_of(sv, nodes[a]) == TaskStatus::Pending);
        }
    }
}

/// Recording how a running task ended keeps every started task's
/// dependencies done or skipped: a running task has no started dependent.
pub proof fn law_result_keeps_order(
    nodes: Seq<Seq<char>>,
    es: Seq<(int, int)>,
    sv: Seq<(Seq<char>, TaskStatus)>,
    name: Seq<char>,
    s: TaskStatus,
)
    requires
        keys_distinct(sv),
        started_after_deps(nodes, es, sv),
        status_of(sv, name) == TaskStatus::Running,
    ensures
        started_after_deps(nodes, es, assoc_insert(sv, name, s)),
{
    let after = assoc_insert(sv, name, s);
    lemma_lookup_insert(sv, name, s);
    assert forall|e: int|
        0 <= e < es.len() && !waiting(status_of(after, nodes[(#[trigger] es[e]).1])) implies finished_well(
        status_of(after, nodes[es[e].0]),
    ) by {
        let a = nodes[es[e].0];
        let b = nodes[es[e].1];
        if b == name {
            assert(finished_well(status_of(sv, a)));
        } else {
            assert(finished_well(status_of(sv, a)));
        }
        assert(a != name);
    }
}

/// A failure of a running task, with everything pending downstream of it
/// blocked, keeps every started task's dependencies done or skipped.
pub proof fn law_failure_keeps_order(
    nodes: Seq<Seq<char>>,
    es: Seq<(int, int)>,
    sv: Seq<(Seq<char>, TaskStatus)>,
    name: Seq<char>,
    after: Seq<(Seq<char>, TaskStatus)>,
    start: Option<usize>,
)
    requires
        keys_distinct(sv),
        forall|e: int| 0 <= e < es.len() ==> 0 <= (#[trigger] es[e]).0 < nodes.len() && 0 <= es[e].1 < nodes.len(),
        started_after_deps(nodes, es, sv),
        status_of(sv, name) == TaskStatus::Running,
        failure_propagated(after, assoc_insert(sv, name, TaskStatus::Failed), nodes, es, start),
    ensures
        started_after_deps(nodes, es, after),
{
    let failed = assoc_insert(sv, name, TaskStatus::Failed);
    law_result_keeps_order(nodes, es, sv, name, TaskStatus::Failed);
    if start is Some {
        assert forall|e: int|
            0 <= e < es.len() && !waiting(status_of(after, nodes[(#[trigger] es[e]).1])) implies finished_well(
            status_of(after, nodes[es[e].0]),
        ) by {
            let a = es[e].0;
            let b = es[e].1;
            assert(lookup(after, nodes[b]) == if blocks(es, start->0 as int, b, status_of(failed, nodes[b])) {
                Some(TaskStatus::Blocked)
            } else {
                lookup(failed, nodes[b])
            });
            assert(lookup(after, nodes[a]) == if blocks(es, start->0 as int, a, status_of(failed, nodes[a])) {
                Some(TaskStatus::Blocked)
            } else {
                lookup(failed, nodes[a])
            });
            assert(status_of(after, nodes[b]) == status_of(failed, nodes[b]));
            assert(finished_well(status_of(failed, nodes[a])));
        }
    }
}

/// Nothing downstream of a task that did not finish well has started: every
/// task reachable from it is pending or blocked. (Downstream of a task that
/// failed when it ran, everything is blocked; downstream of one whose
/// condition could not be evaluated, things stay pending.)
pub proof fn law_nothing_starts_downstream(
    nodes: Seq<Seq<char>>,
    es: Seq<(int, int)>,
    st: Seq<(Seq<char>, TaskStatus)>,
    p: Seq<int>,
    i: int,
)
    requires
        started_after_deps(nodes, es, st),
        crate::dag::is_path(es, p),
        !finished_well(status_of(st, nodes[p[0]])),
        0 < i < p.len(),
    ensures
        waiting(status_of(st, nodes[p[i]])),
    decreases i,
{
    if i > 1 {
        law_nothing_starts_downstream(nodes, es, st, p, i - 1);
    }
    assert(es.contains((p[i - 1], p[i])));
    let e = choose|e: int| 0 <= e < es.len() && es[e] == (p[i - 1], p[i]);
    assert(es[e].1 == p[i]);
}

/// A workflow run: the graph of its tasks, their statuses and results, and
/// the context their templates read.
pub struct WorkflowRun {
    graph: Graph<String, (), Directed, u32>,
    name_to_idx: Vec<(String, usize)>,
    statuses: Vec<(String, TaskStatus)>,
    results: Vec<(String, TaskResult)>,
    ctx: TemplateContext,
}

impl WorkflowRun {
    /// The task names, by node.
    pub closed spec fn nodes(&self) -> Seq<Seq<char>> {
        dag_nodes(self.graph)
    }

    /// The dependency edges, from a dependency to its task.
    pub closed spec fn edges(&self) -> Seq<(int, int)> {
        dag_edges(self.graph)
    }

    /// Each task's node.
    pub closed spec fn index(&self) -> Seq<(Seq<char>, usize)> {
        kv_view(self.name_to_idx@)
    }

    /// The recorded statuses.
    pub closed spec fn statuses(&self) -> Seq<(Seq<char>, TaskStatus)> {
        kv_view(self.statuses@)
    }

    /// The recorded results.
    pub closed spec fn results(&self) -> Seq<(Seq<char>, (TaskStatus, JsonV))> {
        self.results@.map_values(|p: (String, TaskResult)| (p.0@, result_view(p.1)))
    }

    /// The context that templates read.
    pub closed spec fn context(&self) -> CtxV {
        self.ctx@
    }

    /// The run's parts agree: names occur once, every index is a node (the
    /// task's position), every edge joins two nodes, and the dependencies
    /// form no cycle.
    pub closed spec fn wf(&self) -> bool {
        &&& keys_distinct(self.statuses())
        &&& keys_distinct(self.results())
        &&& keys_distinct(self.index())
        &&& names_distinct(self.nodes())
        &&& forall|i: int| 0 <= i < self.name_to_idx@.len() ==> (#[trigger] self.name_to_idx@[i]).1 < self.nodes().len()
        &&& self.ctx.wf()
        &&& !crate::dag::has_cycle(self.edges())
        &&& self.index() == index_entries(self.nodes())
        &&& forall|e: int|
            0 <= e < self.edges().len() ==> 0 <= (#[trigger] self.edges()[e]).0 < self.nodes().len() && 0
                <= self.edges()[e].1 < self.nodes().len()
    }

    /// Starts a run of a checked workflow: its graph is built, every task is
    /// pending, no result is recorded, and templates read the given inputs
    /// and environment. Refused with `DagCycle` when the dependencies form a cycle.
    #[verifier::loop_isolation(false)]
    pub fn start(workflow: &WorkflowDef, inputs: Vec<(String, Json)>, env: Vec<(String, String)>) -> (r: Result<
        WorkflowRun,
        CoreError,
    >)
        requires
            names_distinct(task_names(workflow.tasks@)),
            deps_known(workflow.tasks@),
            workflow.tasks@.len() < u32::MAX,
            dep_count(workflow.tasks@, workflow.tasks@.len() as int) < u32::MAX,
            keys_distinct(inputs@.map_values(|p: (String, Json)| (p.0@, p.1@))),
            keys_distinct(env@.map_values(|p: (String, String)| (p.0@, p.1@))),
        ensures
            (r is Err && r->Err_0 is DagCycle) <==> crate::dag::has_cycle(task_edges(workflow.tasks@)),
            match r {
                Ok(run) => {
                    &&& !crate::dag::has_cycle(task_edges(workflow.tasks@))
                    &&& started_after_deps(run.nodes(), run.edges(), run.statuses())
                    &&& run.wf()
                    &&& run.nodes() == task_names(workflow.tasks@)
                    &&& run.edges() == task_edges(workflow.tasks@)
                    &&& run.index() == index_entries(task_names(workflow.tasks@))
                    &&& run.statuses() == all_pending(task_names(workflow.tasks@))
                    &&& run.results().len() == 0
                    &&& run.context().inputs == inputs@.map_values(|p: (String, Json)| (p.0@, p.1@))
                    &&& run.context().tasks.len() == 0
                    &&& run.context().env == env@.map_values(|p: (String, String)| (p.0@, p.1@))
                },
                Err(CoreError::DagCycle) => crate::dag::has_cycle(task_edges(workflow.tasks@)),
                Err(_) => false,
            },
    {
        let (graph, name_to_idx) = match build_dag(workflow) {
            Ok(p) => p,
            Err(e) => {
                return Err(e);
            },
        };
        let ghost names = task_names(workflow.tasks@);
        let ghost name_to_idx_ghost = name_to_idx@;
        proof {
            crate::dag::lemma_task_edges_in_range(workflow.tasks@, workflow.tasks@.len() as int);
            assert forall|k: Seq<char>| #[trigger] status_of(all_pending(names), k) == TaskStatus::Pending by {
                lemma_all_pending_status(names, k);
            }
        }
        assert(kv_view(name_to_idx_ghost) == index_entries(names));
        let mut statuses: Vec<(String, TaskStatus)> = Vec::new();
        let mut i: usize = 0;
        while i < workflow.tasks.len()
            invariant
                i <= workflow.tasks.len(),
                names == task_names(workflow.tasks@),
                kv_view(statuses@) == all_pending(names.subrange(0, i as int)),
            decreases workflow.tasks.len() - i,
        {
            let ghost prev = kv_view(statuses@);
            let k = workflow.tasks[i].0.clone();
            statuses.push((k, TaskStatus::Pending));
            assert(kv_view(statuses@) =~= prev.push((names[i as int], TaskStatus::Pending)));
            assert(all_pending(names.subrange(0, i + 1)) =~= all_pending(names.subrange(0, i as int)).push(
                (names[i as int], TaskStatus::Pending),
            ));
            i = i + 1;
        }
        assert(names.subrange(0, i as int) =~= names);
        let ctx = TemplateContext { inputs, tasks: Vec::new(), env };
        let run = WorkflowRun { graph, name_to_idx, statuses, results: Vec::new(), ctx };
        proof {
            assert(run.results() =~= Seq::<(Seq<char>, (TaskStatus, JsonV))>::empty());
            assert(run.context().tasks =~= Seq::<(Seq<char>, (TaskStatus, JsonV))>::empty());
            let st = run.statuses();
            assert forall|a: int, b: int| 0 <= a < b < st.len() implies st[a].0 != st[b].0 by {
                assert(st[a].0 == names[a] && st[b].0 == names[b]);
            }
            let ix = run.index();
            assert(kv_view(name_to_idx_ghost) == index_entries(names));
            assert(ix == index_entries(names));
            assert forall|a: int, b: int| 0 <= a < b < ix.len() implies ix[a].0 != ix[b].0 by {
                assert(ix[a].0 == names[a] && ix[b].0 == names[b]);
            }
            assert forall|j: int| 0 <= j < run.name_to_idx@.len() implies (#[trigger] run.name_to_idx@[j]).1
                < run.nodes().len() by {
                assert(ix[j] == (run.name_to_idx@[j].0@, run.name_to_idx@[j].1));
                assert(ix[j] == (names[j], j as usize));
            }
        }
        Ok(run)
    }

    /// The context that templates read.
    pub fn template_context(&self) -> (c: &TemplateContext)
        ensures
            c@ == self.context(),
    {
        &self.ctx
    }

    /// Decides the next round. With no task ready (pending, every dependency
    /// done or skipped), the run is over: `None`, and nothing changes. Else
    /// each ready task's condition is decided, in order: a task whose
    /// condition is false is skipped, one whose condition cannot be evaluated
    /// fails, and the others are marked running and handed out, in order.
    pub fn next_batch(&mut self, workflow: &WorkflowDef) -> (r: Option<Vec<String>>)
        requires
            old(self).wf(),
            task_names(workflow.tasks@) == old(self).nodes(),
            forall|i: int| 0 <= i < old(self).index().len() ==> old(self).nodes().contains(#[trigger] old(self).index()[i].0),
        ensures
            final(self).wf(),
            final(self).nodes() == old(self).nodes(),
            final(self).edges() == old(self).edges(),
            final(self).index() == old(self).index(),
            final(self).context() == old(self).context(),
            started_after_deps(old(self).nodes(), old(self).edges(), old(self).statuses()) ==> started_after_deps(
                final(self).nodes(),
                final(self).edges(),
                final(self).statuses(),
            ),
            ({
                let ready = ready_tasks(old(self).index(), old(self).nodes(), old(self).edges(), old(self).statuses());
                let ctx = old(self).context();
                match r {
                    None => ready.len() == 0 && final(self).statuses() == old(self).statuses() && final(self).results()
                        == old(self).results(),
                    Some(batch) => ready.len() > 0 && views(batch@) == runnable(ready, workflow.tasks@, ctx)
                        && final(self).statuses() == statuses_after_when(old(self).statuses(), ready, workflow.tasks@, ctx)
                        && final(self).results() == results_after_when(old(self).results(), ready, workflow.tasks@, ctx),
                }
            }),
    {
        let ready = find_ready_tasks(&self.graph, &self.name_to_idx, &self.statuses, workflow);
        let index_len = self.name_to_idx.len();
        proof {
            if started_after_deps(self.nodes(), self.edges(), self.statuses()) {
                assert(self.index().len() == index_len);
                assert(index_entries(self.nodes()).len() == self.nodes().len());
                law_conditions_keep_order(self.nodes(), self.edges(), self.statuses(), workflow.tasks@, self.context());
            }
        }
        if ready.len() == 0 {
            return None;
        }
        let ghost rd = views(ready@);
        let ghost sv0 = self.statuses();
        let ghost rv0 = self.results();
        let ghost ctx = self.context();
        proof {
            lemma_ready_are_nodes(self.index(), self.nodes(), self.edges(), self.statuses());
        }
        let mut batch: Vec<String> = Vec::new();
        let mut i: usize = 0;
        while i < ready.len()
            invariant
                i <= ready.len(),
                rd == views(ready@),
                ctx == self.context(),
                self.wf(),
                self.nodes() == old(self).nodes(),
                self.edges() == old(self).edges(),
                self.index() == old(self).index(),
                ctx == old(self).context(),
                task_names(workflow.tasks@) == self.nodes(),
                names_distinct(self.nodes()),
                forall|j: int| 0 <= j < rd.len() ==> self.nodes().contains(#[trigger] rd[j]),
                self.statuses() == statuses_after_when(sv0, rd.subrange(0, i as int), workflow.tasks@, ctx),
                self.results() == results_after_when(rv0, rd.subrange(0, i as int), workflow.tasks@, ctx),
                views(batch@) == runnable(rd.subrange(0, i as int), workflow.tasks@, ctx),
            decreases ready.len() - i,
        {
            let name = &ready[i];
            let ghost pre = rd.subrange(0, i as int);
            let ghost cur = rd.subrange(0, i + 1);
            assert(cur.drop_last() =~= pre);
            assert(cur.last() == name@);
            assert(self.nodes().contains(rd[i as int]));
            let j = match find_key(&workflow.tasks, name.as_str()) {
                Some(j) => j,
                None => {
                    proof {
                        let c = choose|c: int| 0 <= c < self.nodes().len() && self.nodes()[c] == name@;
                        assert(task_names(workflow.tasks@)[c] == workflow.tasks@[c].0@);
                    }
                    return None;
                },
            };
            proof {
                let names = task_names(workflow.tasks@);
                assert(names[j as int] == name@);
                let c = names.index_of(name@);
                if c != j {
                    if c < j {
                        assert(names[c] != names[j as int]);
                    } else {
                        assert(names[j as int] != names[c]);
                    }
                }
            }
            let task = &workflow.tasks[j].1;
            let ghost before_batch = views(batch@);
            proof {
                self.lemma_results_distinct();
            }
            match &task.when {
                None => {
                    assoc_set(&mut self.statuses, name.as_str(), TaskStatus::Running);
                    batch.push(name.clone());
                    assert(views(batch@) =~= before_batch.push(name@));
                },
                Some(expr) => match evaluate_when(expr.as_str(), &self.ctx) {
                    Ok(true) => {
                        assoc_set(&mut self.statuses, name.as_str(), TaskStatus::Running);
                        batch.push(name.clone());
                        assert(views(batch@) =~= before_batch.push(name@));
                    },
                    Ok(false) => {
                        assoc_set(&mut self.statuses, name.as_str(), TaskStatus::Skipped);
                        self.set_result(name.as_str(), TaskResult { status: TaskStatus::Skipped, output: Json::Str("skipped".to_owned_string()) });
                        assert(views(batch@) =~= before_batch + Seq::<Seq<char>>::empty());
                    },
                    Err(e) => {
                        assoc_set(&mut self.statuses, name.as_str(), TaskStatus::Failed);
                        let text = concat("when error: ", e.to_string().as_str());
                        proof {
                            let m = e->Template_0;
                            assert(text@ =~= "when error: "@ + "Template resolution error: "@ + m@);
                        }
                        self.set_result(name.as_str(), TaskResult { status: TaskStatus::Failed, output: Json::Str(text) });
                        assert(views(batch@) =~= before_batch + Seq::<Seq<char>>::empty());
                    },
                },
            }
            i = i + 1;
        }
        assert(rd.subrange(0, i as int) =~= rd);
        Some(batch)
    }

    /// Records how a task that was handed out finished. A result is recorded
    /// as the task's status and result, and templates can read it from then
    /// on. An error makes the task `Failed`, with the error's text as its
    /// output, and blocks every pending task downstream of it.
    pub fn complete(&mut self, name: &str, outcome: Result<TaskResult, CoreError>)
        requires
            old(self).wf(),
        ensures
            final(self).wf(),
            final(self).nodes() == old(self).nodes(),
            final(self).edges() == old(self).edges(),
            final(self).index() == old(self).index(),
            started_after_deps(old(self).nodes(), old(self).edges(), old(self).statuses()) && status_of(
                old(self).statuses(),
                name@,
            ) == TaskStatus::Running ==> started_after_deps(final(self).nodes(), final(self).edges(), final(self).statuses()),
            match outcome {
                Ok(r) => {
                    &&& final(self).statuses() == assoc_insert(old(self).statuses(), name@, r.status)
                    &&& final(self).results() == assoc_insert(old(self).results(), name@, result_view(r))
                    &&& final(self).context().tasks == assoc_insert(old(self).context().tasks, name@, result_view(r))
                    &&& final(self).context().inputs == old(self).context().inputs
                    &&& final(self).context().env == old(self).context().env
                },
                Err(e) => {
                    &&& final(self).results() == assoc_insert(
                        old(self).results(),
                        name@,
                        (TaskStatus::Failed, JsonV::Str(core_error_text(e))),
                    )
                    &&& failure_propagated(
                        final(self).statuses(),
                        assoc_insert(old(self).statuses(), name@, TaskStatus::Failed),
                        old(self).nodes(),
                        old(self).edges(),
                        lookup(old(self).index(), name@),
                    )
                    &&& final(self).context() == old(self).context()
                },
            },
    {
        proof {
            self.lemma_results_distinct();
            if started_after_deps(self.nodes(), self.edges(), self.statuses()) && status_of(self.statuses(), name@)
                == TaskStatus::Running {
                if outcome is Ok {
                    law_result_keeps_order(self.nodes(), self.edges(), self.statuses(), name@, outcome->Ok_0.status);
                } else {
                    {
                        assert forall|after: Seq<(Seq<char>, TaskStatus)>|
                            failure_propagated(
                                after,
                                assoc_insert(self.statuses(), name@, TaskStatus::Failed),
                                self.nodes(),
                                self.edges(),
                                lookup(self.index(), name@),
                            ) implies started_after_deps(self.nodes(), self.edges(), after) by {
                            law_failure_keeps_order(
                                self.nodes(),
                                self.edges(),
                                self.statuses(),
                                name@,
                                after,
                                lookup(self.index(), name@),
                            );
                        }
                    }
                }
            }
        }
        match outcome {
            Ok(r) => {
                assoc_set(&mut self.statuses, name, r.status);
                let copy = TaskResult { status: r.status, output: r.output.deep_clone() };
                self.ctx.record_task(name, copy);
                self.set_result(name, r);
            },
            Err(e) => {
                assoc_set(&mut self.statuses, name, TaskStatus::Failed);
                let text = e.to_string();
                self.set_result(name, TaskResult { status: TaskStatus::Failed, output: Json::Str(text) });
                propagate_failure(name, &self.graph, &self.name_to_idx, &mut self.statuses);
            },
        }
    }

    /// The statuses and results of the run.
    pub fn finish(self) -> (r: WorkflowResult)
        ensures
            kv_view(r.task_statuses@) == self.statuses(),
            kv_view_results(r.task_results@) == self.results(),
    {
        WorkflowResult { task_statuses: self.statuses, task_results: self.results }
    }

    /// The keys of the results occur once.
    proof fn lemma_results_distinct(&self)
        requires
            self.wf(),
        ensures
            keys_distinct(kv_view_results(self.results@)),
    {
        assert(kv_view_results(self.results@) == self.results());
    }

    /// Records the result of `name`.
    fn set_result(&mut self, name: &str, result: TaskResult)
        requires
            old(self).wf(),
        ensures
            final(self).results() == assoc_insert(old(self).results(), name@, result_view(result)),
            final(self).statuses() == old(self).statuses(),
            final(self).name_to_idx == old(self).name_to_idx,
            final(self).graph == old(self).graph,
            final(self).ctx == old(self).ctx,
            final(self).wf(),
    {
        let ghost old_rv = self.results();
        let ghost rv = result_view(result);
        match find_key(&self.results, name) {
            Some(j) => {
                proof {
                    crate::template::lemma_found_pub(old_rv, j as int, name@);
                }
                let k = self.results[j].0.clone();
                self.results.set(j, (k, result));
                assert(self.results() =~= old_rv.update(j as int, (name@, rv)));
            },
            None => {
                proof {
                    crate::template::lemma_not_found_pub(old_rv, name@);
                }
                self.results.push((name.to_owned_string(), result));
                assert(self.results() =~= old_rv.push((name@, rv)));
            },
        }
        proof {
            crate::assoc::lemma_lookup_insert(old_rv, name@, rv);
        }
    }
}

/// The model of recorded results.
pub open spec fn kv_view_results(rs: Seq<(String, TaskResult)>) -> Seq<(Seq<char>, (TaskStatus, JsonV))> {
    rs.map_values(|p: (String, TaskResult)| (p.0@, result_view(p.1)))
}

/// The ready tasks are tasks of the index.
proof fn lemma_ready_are_nodes(
    entries: Seq<(Seq<char>, usize)>,
    nodes: Seq<Seq<char>>,
    es: Seq<(int, int)>,
    sv: Seq<(Seq<char>, TaskStatus)>,
)
    ensures
        forall|j: int| 0 <= j < ready_tasks(entries, nodes, es, sv).len() ==> exists|i: int|
            0 <= i < entries.len() && entries[i].0 == #[trigger] ready_tasks(entries, nodes, es, sv)[j],
    decreases entries.len(),
{
    if entries.len() > 0 {
        lemma_ready_are_nodes(entries.drop_last(), nodes, es, sv);
        let prev = ready_tasks(entries.drop_last(), nodes, es, sv);
        let all = ready_tasks(entries, nodes, es, sv);
        assert forall|j: int| 0 <= j < all.len() implies exists|i: int|
            0 <= i < entries.len() && entries[i].0 == #[trigger] all[j] by {
            if j < prev.len() {
                assert(all[j] == prev[j]);
                let i = choose|i: int| 0 <= i < entries.drop_last().len() && entries.drop_last()[i].0 == prev[j];
                assert(entries[i] == entries.drop_last()[i]);
            } else {
                assert(all[j] == entries.last().0);
                assert(entries[entries.len() - 1] == entries.last());
            }
        }
    }
}

} // verus!
