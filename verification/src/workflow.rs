//! Workflow definitions: tasks, their dependencies and retry policies, the
//! checks a definition must pass, and the result of a run.
use vstd::prelude::*;
use crate::json::{Json, JsonV, all_digits, digits_value, digits_to_u64};
use crate::llm::LlmError;
use crate::plugin::PluginError;
use crate::text::{trim, views, chars_of, trim_str, string_of, str_eq, concat, ToOwnedString, join, join_strings, sorted_texts, sort_strings};
use crate::assoc::{keys_distinct, lookup, kv_view, assoc_get};

verus! {

/// Why a workflow could not be read, checked or run.
#[derive(Debug)]
pub enum CoreError {
    YamlParse(String),
    DagValidation(String),
    DagCycle,
    TaskFailed { task: String, reason: String },
    Template(String),
    Timeout(String),
    UserCancelled,
    Plugin(PluginError),
    Llm(LlmError),
    Other(String),
}

/// The text of a workflow error.
pub open spec fn core_error_text(e: CoreError) -> Seq<char> {
    match e {
        CoreError::YamlParse(m) => "YAML parse error: "@ + m@,
        CoreError::DagValidation(m) => "DAG validation error: "@ + m@,
        CoreError::DagCycle => "Cycle detected in workflow DAG"@,
        CoreError::TaskFailed { task, reason } => "Task '"@ + task@ + "' failed: "@ + reason@,
        CoreError::Template(m) => "Template resolution error: "@ + m@,
        CoreError::Timeout(t) => "Timeout: task '"@ + t@ + "' exceeded its time limit"@,
        CoreError::UserCancelled => "User cancelled (confirm required)"@,
        CoreError::Plugin(p) => "Plugin error: "@ + crate::plugin::plugin_error_text(p),
        CoreError::Llm(l) => "LLM error: "@ + crate::llm::llm_error_text(l),
        CoreError::Other(m) => m@,
    }
}

impl CoreError {
    /// The error as displayed.
    pub fn to_string(&self) -> (s: String)
        ensures
            s@ == core_error_text(*self),
    {
        match self {
            CoreError::YamlParse(m) => concat("YAML parse error: ", m.as_str()),
            CoreError::DagValidation(m) => concat("DAG validation error: ", m.as_str()),
            CoreError::DagCycle => "Cycle detected in workflow DAG".to_owned_string(),
            CoreError::TaskFailed { task, reason } => {
                let mut s = concat("Task '", task.as_str());
                s.append("' failed: ");
                s.append(reason.as_str());
                s
            },
            CoreError::Template(m) => concat("Template resolution error: ", m.as_str()),
            CoreError::Timeout(t) => {
                let mut s = concat("Timeout: task '", t.as_str());
                s.append("' exceeded its time limit");
                s
            },
            CoreError::UserCancelled => "User cancelled (confirm required)".to_owned_string(),
            CoreError::Plugin(p) => concat("Plugin error: ", p.to_string().as_str()),
            CoreError::Llm(l) => concat("LLM error: ", l.to_string().as_str()),
            CoreError::Other(m) => m.clone(),
        }
    }
}

/// A workflow input parameter.
#[derive(Debug)]
pub struct InputDef {
    pub input_type: String,
    pub default: Option<Json>,
}

/// The type of an input that names none.
pub fn default_input_type() -> (s: String)
    ensures
        s@ == "string"@,
{
    "string".to_owned_string()
}

/// How often a task is tried, and how long to wait between tries.
#[derive(Debug)]
pub struct RetryPolicy {
    pub max_attempts: u32,
    pub delay: String,
}

/// The delay between tries of a policy that names none.
pub fn default_retry_delay() -> (s: String)
    ensures
        s@ == "5s"@,
{
    "5s".to_owned_string()
}

/// A task: the tool it calls with its arguments, the tasks it waits for, and
/// how it is run.
#[derive(Debug)]
pub struct TaskDef {
    pub tool: String,
    pub arguments: Json,
    pub depends_on: Vec<String>,
    pub timeout: Option<String>,
    pub retry: Option<RetryPolicy>,
    pub confirm: bool,
    /// A condition; the task is skipped when it is false.
    pub when: Option<String>,
}

/// A workflow: its inputs and its tasks, each task under its name.
#[derive(Debug)]
pub struct WorkflowDef {
    pub name: String,
    pub description: String,
    pub inputs: Vec<(String, InputDef)>,
    pub tasks: Vec<(String, TaskDef)>,
}

/// The names of the tasks, in order.
pub open spec fn task_names(tasks: Seq<(String, TaskDef)>) -> Seq<Seq<char>> {
    tasks.map_values(|p: (String, TaskDef)| p.0@)
}

/// The tasks have distinct names.
pub open spec fn names_distinct(names: Seq<Seq<char>>) -> bool {
    forall|i: int, j: int| 0 <= i < j < names.len() ==> names[i] != names[j]
}

/// The first dependency that is not a task name.
pub open spec fn first_missing(deps: Seq<Seq<char>>, names: Seq<Seq<char>>) -> Option<Seq<char>>
    decreases deps.len(),
{
    if deps.len() == 0 {
        None
    } else if !names.contains(deps[0]) {
        Some(deps[0])
    } else {
        first_missing(deps.drop_first(), names)
    }
}

/// What is wrong with one task: a missing dependency, else a dependency on itself.
pub open spec fn task_error(names: Seq<Seq<char>>, name: Seq<char>, deps: Seq<Seq<char>>) -> Option<Seq<char>> {
    match first_missing(deps, names) {
        Some(d) => Some("task '"@ + name + "' depends on '"@ + d + "', which does not exist"@),
        None => if deps.contains(name) {
            Some("task '"@ + name + "' depends on itself"@)
        } else {
            None
        },
    }
}

/// The error of the first task, in order, that has one.
pub open spec fn first_task_error(names: Seq<Seq<char>>, tasks: Seq<(String, TaskDef)>) -> Option<Seq<char>>
    decreases tasks.len(),
{
    if tasks.len() == 0 {
        None
    } else {
        match task_error(names, tasks[0].0@, views(tasks[0].1.depends_on@)) {
            Some(m) => Some(m),
            None => first_task_error(names, tasks.drop_first()),
        }
    }
}

/// The error that checking a workflow gives, if any.
pub open spec fn validation_error(tasks: Seq<(String, TaskDef)>) -> Option<Seq<char>> {
    if tasks.len() == 0 {
        Some("workflow has no tasks"@)
    } else {
        first_task_error(task_names(tasks), tasks)
    }
}

/// A workflow that passes the checks: every dependency is a task and no task
/// depends on itself.
pub open spec fn deps_valid(tasks: Seq<(String, TaskDef)>) -> bool {
    forall|i: int, k: int|
        0 <= i < tasks.len() && 0 <= k < tasks[i].1.depends_on@.len() ==> task_names(tasks).contains(
            #[trigger] tasks[i].1.depends_on@[k]@,
        ) && tasks[i].1.depends_on@[k]@ != tasks[i].0@
}

/// `x` is one of `v`.
fn contains_text(v: &Vec<String>, x: &str) -> (b: bool)
    ensures
        b == views(v@).contains(x@),
{
    let mut i: usize = 0;
    while i < v.len()
        invariant
            i <= v.len(),
            forall|j: int| 0 <= j < i ==> v@[j]@ != x@,
        decreases v.len() - i,
    {
        if str_eq(v[i].as_str(), x) {
            assert(views(v@)[i as int] == x@);
            return true;
        }
        i = i + 1;
    }
    proof {
        if views(v@).contains(x@) {
            let j = choose|j: int| 0 <= j < views(v@).len() && views(v@)[j] == x@;
            assert(v@[j]@ == x@);
        }
    }
    false
}

/// `x` is the name of one of the tasks.
fn is_task_name(tasks: &Vec<(String, TaskDef)>, x: &str) -> (b: bool)
    ensures
        b == task_names(tasks@).contains(x@),
{
    let mut i: usize = 0;
    while i < tasks.len()
        invariant
            i <= tasks.len(),
            forall|j: int| 0 <= j < i ==> tasks@[j].0@ != x@,
        decreases tasks.len() - i,
    {
        if str_eq(tasks[i].0.as_str(), x) {
            assert(task_names(tasks@)[i as int] == x@);
            return true;
        }
        i = i + 1;
    }
    proof {
        if task_names(tasks@).contains(x@) {
            let j = choose|j: int| 0 <= j < task_names(tasks@).len() && task_names(tasks@)[j] == x@;
            assert(tasks@[j].0@ == x@);
        }
    }
    false
}

/// Checks a workflow: it has tasks, every dependency names a task, and no task
/// depends on itself. The first task (in order) with a fault gives the error.
#[verifier::loop_isolation(false)]
pub fn validate_workflow(workflow: &WorkflowDef) -> (r: Result<(), CoreError>)
    ensures
        r is Ok <==> workflow.tasks@.len() > 0 && deps_valid(workflow.tasks@),
        match r {
            Ok(()) => validation_error(workflow.tasks@) is None,
            Err(CoreError::DagValidation(m)) => validation_error(workflow.tasks@) == Some(m@),
            Err(_) => false,
        },
{
    let tasks = &workflow.tasks;
    proof {
        law_validation_iff(workflow.tasks@);
    }
    if tasks.len() == 0 {
        return Err(CoreError::DagValidation("workflow has no tasks".to_owned_string()));
    }
    let ghost names = task_names(tasks@);
    let mut i: usize = 0;
    assert(tasks@.subrange(0, tasks@.len() as int) =~= tasks@);
    while i < tasks.len()
        invariant
            i <= tasks.len(),
            tasks@.len() > 0,
            validation_error(tasks@) == first_task_error(names, tasks@),
            names == task_names(tasks@),
            first_task_error(names, tasks@) == first_task_error(names, tasks@.subrange(i as int, tasks@.len() as int)),
        decreases tasks.len() - i,
    {
        let ghost rest = tasks@.subrange(i as int, tasks@.len() as int);
        assert(rest[0] == tasks@[i as int]);
        assert(rest.drop_first() =~= tasks@.subrange(i + 1, tasks@.len() as int));
        let name = &tasks[i].0;
        let deps = &tasks[i].1.depends_on;
        let mut k: usize = 0;
        assert(views(deps@).subrange(0, deps@.len() as int) =~= views(deps@));
        while k < deps.len()
            invariant
                k <= deps.len(),
                first_missing(views(deps@), names) == first_missing(views(deps@).subrange(k as int, deps@.len() as int), names),
                names == task_names(tasks@),
            decreases deps.len() - k,
        {
            let ghost drest = views(deps@).subrange(k as int, deps@.len() as int);
            assert(drest[0] == deps@[k as int]@);
            assert(drest.drop_first() =~= views(deps@).subrange(k + 1, deps@.len() as int));
            if !is_task_name(tasks, deps[k].as_str()) {
                let mut m = concat("task '", name.as_str());
                m.append("' depends on '");
                m.append(deps[k].as_str());
                m.append("', which does not exist");
                assert(first_missing(views(deps@), names) == Some(deps@[k as int]@));
                assert(task_error(names, name@, views(deps@)) == Some(m@));
                assert(first_task_error(names, rest) == Some(m@));
                assert(validation_error(workflow.tasks@) == Some(m@));
                return Err(CoreError::DagValidation(m));
            }
            k = k + 1;
        }
        if contains_text(deps, name.as_str()) {
            let mut m = concat("task '", name.as_str());
            m.append("' depends on itself");
            proof {
                lemma_no_missing_from(views(deps@), names, k as int);
            }
            assert(task_error(names, name@, views(deps@)) == Some(m@));
            assert(first_task_error(names, rest) == Some(m@));
            assert(validation_error(workflow.tasks@) == Some(m@));
            return Err(CoreError::DagValidation(m));
        }
        proof {
            lemma_no_missing_from(views(deps@), names, k as int);
        }
        i = i + 1;
    }
    Ok(())
}

/// Reaching the end of the dependencies with none missing.
proof fn lemma_no_missing_from(deps: Seq<Seq<char>>, names: Seq<Seq<char>>, k: int)
    requires
        k == deps.len(),
        first_missing(deps, names) == first_missing(deps.subrange(k, deps.len() as int), names),
    ensures
        first_missing(deps, names) is None,
{
    assert(deps.subrange(k, deps.len() as int).len() == 0);
}

/// Dependencies that are all task names have none missing.
proof fn lemma_all_known(deps: Seq<Seq<char>>, names: Seq<Seq<char>>)
    requires
        forall|k: int| 0 <= k < deps.len() ==> names.contains(#[trigger] deps[k]),
    ensures
        first_missing(deps, names) is None,
    decreases deps.len(),
{
    if deps.len() > 0 {
        assert(names.contains(deps[0]));
        assert forall|k: int| 0 <= k < deps.drop_first().len() implies names.contains(
            #[trigger] deps.drop_first()[k],
        ) by {
            assert(deps.drop_first()[k] == deps[k + 1]);
        }
        lemma_all_known(deps.drop_first(), names);
    }
}

/// Tasks whose dependencies are all task names, none their own, have no error.
proof fn lemma_no_task_errors(names: Seq<Seq<char>>, ts: Seq<(String, TaskDef)>)
    requires
        forall|i: int, k: int|
            0 <= i < ts.len() && 0 <= k < ts[i].1.depends_on@.len() ==> names.contains(
                #[trigger] ts[i].1.depends_on@[k]@,
            ) && ts[i].1.depends_on@[k]@ != ts[i].0@,
    ensures
        first_task_error(names, ts) is None,
    decreases ts.len(),
{
    if ts.len() > 0 {
        let deps = views(ts[0].1.depends_on@);
        assert forall|k: int| 0 <= k < deps.len() implies names.contains(#[trigger] deps[k]) by {
            assert(deps[k] == ts[0].1.depends_on@[k]@);
        }
        lemma_all_known(deps, names);
        if deps.contains(ts[0].0@) {
            let k = choose|k: int| 0 <= k < deps.len() && deps[k] == ts[0].0@;
            assert(deps[k] == ts[0].1.depends_on@[k]@);
        }
        let rest = ts.drop_first();
        assert forall|i: int, k: int|
            0 <= i < rest.len() && 0 <= k < rest[i].1.depends_on@.len() implies names.contains(
                #[trigger] rest[i].1.depends_on@[k]@,
            ) && rest[i].1.depends_on@[k]@ != rest[i].0@ by {
            assert(rest[i] == ts[i + 1]);
        }
        lemma_no_task_errors(names, rest);
    }
}

/// A workflow passes its checks exactly when it has tasks, every dependency
/// names a task, and no task depends on itself.
pub proof fn law_validation_iff(tasks: Seq<(String, TaskDef)>)
    ensures
        validation_error(tasks) is None <==> tasks.len() > 0 && deps_valid(tasks),
{
    if validation_error(tasks) is None {
        law_valid_workflow_deps(tasks);
    }
    if tasks.len() > 0 && deps_valid(tasks) {
        lemma_no_task_errors(task_names(tasks), tasks);
    }
}

/// A workflow that passes its checks has valid dependencies.
pub proof fn law_valid_workflow_deps(tasks: Seq<(String, TaskDef)>)
    requires
        validation_error(tasks) is None,
    ensures
        deps_valid(tasks),
{
    assert forall|i: int, k: int|
        0 <= i < tasks.len() && 0 <= k < tasks[i].1.depends_on@.len() implies task_names(tasks).contains(
        #[trigger] tasks[i].1.depends_on@[k]@,
    ) && tasks[i].1.depends_on@[k]@ != tasks[i].0@ by {
        lemma_no_task_error(task_names(tasks), tasks, i);
        lemma_no_missing(views(tasks[i].1.depends_on@), task_names(tasks), k);
        assert(views(tasks[i].1.depends_on@)[k] == tasks[i].1.depends_on@[k]@);
    }
}

/// No error among the tasks means no error in any one of them.
proof fn lemma_no_task_error(names: Seq<Seq<char>>, tasks: Seq<(String, TaskDef)>, i: int)
    requires
        0 <= i < tasks.len(),
        first_task_error(names, tasks) is None,
    ensures
        task_error(names, tasks[i].0@, views(tasks[i].1.depends_on@)) is None,
    decreases i,
{
    if i > 0 {
        assert(tasks.drop_first()[i - 1] == tasks[i]);
        lemma_no_task_error(names, tasks.drop_first(), i - 1);
    }
}

/// No missing dependency means each dependency is a name.
proof fn lemma_no_missing(deps: Seq<Seq<char>>, names: Seq<Seq<char>>, k: int)
    requires
        0 <= k < deps.len(),
        first_missing(deps, names) is None,
    ensures
        names.contains(deps[k]),
    decreases k,
{
    if k > 0 {
        assert(deps.drop_first()[k - 1] == deps[k]);
        lemma_no_missing(deps.drop_first(), names, k - 1);
    }
}

/// Reads the outcome of parsing a workflow's YAML (the parse error's text, or
/// the definition) and checks the definition.
pub fn parse_workflow(parsed: Result<WorkflowDef, String>) -> (r: Result<WorkflowDef, CoreError>)
    ensures
        match (parsed, r) {
            (Err(e), Err(CoreError::YamlParse(m))) => m@ == e@,
            (Ok(w), Ok(v)) => v == w && validation_error(w.tasks@) is None,
            (Ok(w), Err(CoreError::DagValidation(m))) => validation_error(w.tasks@) == Some(m@),
            _ => false,
        },
{
    match parsed {
        Err(e) => Err(CoreError::YamlParse(e)),
        Ok(w) => match validate_workflow(&w) {
            Ok(()) => Ok(w),
            Err(e) => Err(e),
        },
    }
}

// ---------------------------------------------------------------------------
// Durations
// ---------------------------------------------------------------------------

/// `u64::from_str`: decimal digits, after an optional `+`, whose value fits.
pub open spec fn parse_u64(t: Seq<char>) -> Option<u64> {
    let d = if t.len() > 0 && t[0] == '+' {
        t.subrange(1, t.len() as int)
    } else {
        t
    };
    if all_digits(d) && digits_value(d) <= u64::MAX {
        Some(digits_value(d) as u64)
    } else {
        None
    }
}

/// The unit of a duration text and the number before it: seconds (`s` or no
/// suffix), minutes (`m`) or hours (`h`).
pub open spec fn duration_parts(t: Seq<char>) -> (Seq<char>, nat) {
    if t.len() > 0 && t.last() == 's' {
        (t.drop_last(), 1)
    } else if t.len() > 0 && t.last() == 'm' {
        (t.drop_last(), 60)
    } else if t.len() > 0 && t.last() == 'h' {
        (t.drop_last(), 3600)
    } else {
        (t, 1)
    }
}

/// The seconds a duration text stands for, when it is valid.
pub open spec fn duration_secs(s: Seq<char>) -> Option<nat> {
    let (num, unit) = duration_parts(trim(s));
    match parse_u64(num) {
        Some(n) => Some((n * unit) as nat),
        None => None,
    }
}

/// `u64::from_str` on a text.
fn parse_u64_exec(v: &Vec<char>, from: usize, to: usize) -> (r: Option<u64>)
    requires
        from <= to <= v.len(),
    ensures
        r == parse_u64(v@.subrange(from as int, to as int)),
{
    let ghost t = v@.subrange(from as int, to as int);
    let start = if from < to && v[from] == '+' {
        from + 1
    } else {
        from
    };
    assert(v@.subrange(start as int, to as int) =~= (if t.len() > 0 && t[0] == '+' {
        t.subrange(1, t.len() as int)
    } else {
        t
    }));
    let digits = string_of(v, start, to);
    digits_to_u64(digits.as_str())
}

/// `u64::from_str` on the characters of a text.
pub fn parse_u64_text(v: &Vec<char>) -> (r: Option<u64>)
    ensures
        r == parse_u64(v@),
{
    assert(v@.subrange(0, v@.len() as int) =~= v@);
    parse_u64_exec(v, 0, v.len())
}

/// Reads a duration such as `30s`, `5m`, `1h` or `90` (seconds), trimmed, as
/// seconds. Refused with a `Template` error naming the (trimmed) text when the
/// number is not a valid `u64`.
pub fn parse_duration(s: &str) -> (r: Result<u64, CoreError>)
    requires
        duration_secs(s@) matches Some(n) ==> n <= u64::MAX,
    ensures
        match r {
            Ok(n) => duration_secs(s@) == Some(n as nat),
            Err(CoreError::Template(m)) => duration_secs(s@) is None && m@ == "invalid duration: "@ + trim(s@),
            Err(_) => false,
        },
{
    let t = trim_str(s);
    let v = chars_of(t.as_str());
    let n = v.len();
    let (end, unit): (usize, u64) = if n > 0 && v[n - 1] == 's' {
        (n - 1, 1)
    } else if n > 0 && v[n - 1] == 'm' {
        (n - 1, 60)
    } else if n > 0 && v[n - 1] == 'h' {
        (n - 1, 3600)
    } else {
        (n, 1)
    };
    assert(v@.subrange(0, end as int) =~= duration_parts(v@).0);
    match parse_u64_exec(&v, 0, end) {
        Some(k) => {
            assert(k * unit <= u64::MAX);
            Ok(k * unit)
        },
        None => Err(CoreError::Template(concat("invalid duration: ", t.as_str()))),
    }
}

/// A duration text whose seconds fit in 64 bits (or that is not valid, which
/// is reported as an error).
pub open spec fn duration_fits(s: Seq<char>) -> bool {
    duration_secs(s) matches Some(n) ==> n <= u64::MAX
}

/// Whether a duration text's seconds fit in 64 bits, which `parse_duration` requires.
pub fn duration_text_fits(s: &str) -> (b: bool)
    ensures
        b == duration_fits(s@),
{
    let t = trim_str(s);
    let v = chars_of(t.as_str());
    let n = v.len();
    let (end, unit): (usize, u64) = if n > 0 && v[n - 1] == 's' {
        (n - 1, 1)
    } else if n > 0 && v[n - 1] == 'm' {
        (n - 1, 60)
    } else if n > 0 && v[n - 1] == 'h' {
        (n - 1, 3600)
    } else {
        (n, 1)
    };
    assert(v@.subrange(0, end as int) =~= duration_parts(v@).0);
    match parse_u64_exec(&v, 0, end) {
        Some(k) => {
            assert(k * unit <= u64::MAX <==> k <= u64::MAX / unit) by (nonlinear_arith)
                requires
                    unit > 0,
            ;
            k <= u64::MAX / unit
        },
        None => true,
    }
}

// ---------------------------------------------------------------------------
// Run results
// ---------------------------------------------------------------------------

/// Where a task is in a run.
#[derive(Debug, Clone, Copy, PartialEq, Eq, Hash, Structural)]
pub enum TaskStatus {
    Pending,
    Running,
    Done,
    Failed,
    Blocked,
    Skipped,
}

impl TaskStatus {
    /// The status as displayed.
    pub open spec fn text(self) -> Seq<char> {
        match self {
            TaskStatus::Pending => "pending"@,
            TaskStatus::Running => "running"@,
            TaskStatus::Done => "done"@,
            TaskStatus::Failed => "failed"@,
            TaskStatus::Blocked => "blocked"@,
            TaskStatus::Skipped => "skipped"@,
        }
    }

    /// The status as displayed (`Display`).
    pub fn to_string(&self) -> (s: String)
        ensures
            s@ == self.text(),
    {
        match self {
            TaskStatus::Pending => "pending".to_owned_string(),
            TaskStatus::Running => "running".to_owned_string(),
            TaskStatus::Done => "done".to_owned_string(),
            TaskStatus::Failed => "failed".to_owned_string(),
            TaskStatus::Blocked => "blocked".to_owned_string(),
            TaskStatus::Skipped => "skipped".to_owned_string(),
        }
    }
}

/// What a finished task gave.
#[derive(Debug, Clone)]
pub struct TaskResult {
    pub status: TaskStatus,
    pub output: Json,
}

/// The statuses and results of a run, each under its task's name.
#[derive(Debug)]
pub struct WorkflowResult {
    pub task_statuses: Vec<(String, TaskStatus)>,
    pub task_results: Vec<(String, TaskResult)>,
}

/// A task that finished well: done, or skipped.
pub open spec fn finished_well(s: TaskStatus) -> bool {
    s == TaskStatus::Done || s == TaskStatus::Skipped
}


/// The icon of a status in a run's summary.
pub open spec fn status_icon(s: TaskStatus) -> Seq<char> {
    match s {
        TaskStatus::Done => "✅"@,
        TaskStatus::Failed => "❌"@,
        TaskStatus::Blocked => "🚫"@,
        TaskStatus::Skipped => "⏭️"@,
        TaskStatus::Running => "🔄"@,
        TaskStatus::Pending => "⏳"@,
    }
}

/// The icon of a status.
fn status_icon_text(s: TaskStatus) -> (r: &'static str)
    ensures
        r@ == status_icon(s),
{
    match s {
        TaskStatus::Done => "✅",
        TaskStatus::Failed => "❌",
        TaskStatus::Blocked => "🚫",
        TaskStatus::Skipped => "⏭️",
        TaskStatus::Running => "🔄",
        TaskStatus::Pending => "⏳",
    }
}

/// The summary line of a task.
pub open spec fn summary_line(name: Seq<char>, status: Option<TaskStatus>) -> Seq<char> {
    match status {
        Some(s) => "  "@ + status_icon(s) + " "@ + name + " — "@ + s.text(),
        None => Seq::empty(),
    }
}

/// The lines of a run's summary: the verdict, an empty line, then a line for
/// each task, in the order of the tasks' names.
pub open spec fn summary_lines(ok: bool, statuses: Seq<(Seq<char>, TaskStatus)>) -> Seq<Seq<char>> {
    seq![if ok { "✅ SUCCESS"@ } else { "❌ FAILED"@ }, Seq::empty()] + sorted_texts(
        statuses.map_values(|p: (Seq<char>, TaskStatus)| p.0),
    ).map_values(|n: Seq<char>| summary_line(n, lookup(statuses, n)))
}

impl WorkflowResult {
    /// The summary of the run, as shown to the user.
    pub fn display_summary(&self) -> (r: String)
        requires
            keys_distinct(kv_view(self.task_statuses@)),
        ensures
            r@ == join(
                summary_lines(
                    forall|i: int| 0 <= i < self.task_statuses@.len() ==> finished_well(
                        #[trigger] self.task_statuses@[i].1,
                    ),
                    kv_view(self.task_statuses@),
                ),
                "\n"@,
            ),
    {
        let ok = self.overall_success();
        let ghost kvs = kv_view(self.task_statuses@);
        let mut names: Vec<String> = Vec::new();
        let mut i: usize = 0;
        while i < self.task_statuses.len()
            invariant
                i <= self.task_statuses.len(),
                kvs == kv_view(self.task_statuses@),
                names@.len() == i,
                forall|k: int| 0 <= k < i ==> (#[trigger] names@[k])@ == kvs[k].0,
            decreases self.task_statuses.len() - i,
        {
            names.push(self.task_statuses[i].0.clone());
            i = i + 1;
        }
        assert(views(names@) =~= kvs.map_values(|p: (Seq<char>, TaskStatus)| p.0));
        let sorted = sort_strings(&names);
        let ghost tail = sorted_texts(kvs.map_values(|p: (Seq<char>, TaskStatus)| p.0)).map_values(
            |n: Seq<char>| summary_line(n, lookup(kvs, n)),
        );
        let mut lines: Vec<String> = Vec::new();
        if ok {
            lines.push("✅ SUCCESS".to_owned_string());
        } else {
            lines.push("❌ FAILED".to_owned_string());
        }
        lines.push(String::new());
        let mut j: usize = 0;
        while j < sorted.len()
            invariant
                j <= sorted.len(),
                views(sorted@) == sorted_texts(kvs.map_values(|p: (Seq<char>, TaskStatus)| p.0)),
                kvs == kv_view(self.task_statuses@),
                keys_distinct(kvs),
                tail.len() == sorted@.len(),
                tail == sorted_texts(kvs.map_values(|p: (Seq<char>, TaskStatus)| p.0)).map_values(
                    |n: Seq<char>| summary_line(n, lookup(kvs, n)),
                ),
                lines@.len() == j + 2,
                lines@[0]@ == (if ok { "✅ SUCCESS"@ } else { "❌ FAILED"@ }),
                lines@[1]@ == Seq::<char>::empty(),
                forall|k: int| 0 <= k < j ==> (#[trigger] lines@[k + 2])@ == tail[k],
            decreases sorted.len() - j,
        {
            let n = &sorted[j];
            assert(views(sorted@)[j as int] == n@);
            let line = match assoc_get(&self.task_statuses, n.as_str()) {
                Some(st) => {
                    let mut l = "  ".to_owned_string();
                    l.append(status_icon_text(st));
                    l.append(" ");
                    l.append(n.as_str());
                    l.append(" — ");
                    l.append(st.to_string().as_str());
                    l
                },
                None => String::new(),
            };
            assert(line@ == tail[j as int]);
            lines.push(line);
            j = j + 1;
        }
        proof {
            let want = seq![if ok { "✅ SUCCESS"@ } else { "❌ FAILED"@ }, Seq::<char>::empty()] + tail;
            assert forall|m: int| 0 <= m < want.len() implies views(lines@)[m] == want[m] by {
                if m >= 2 {
                    assert(lines@[(m - 2) + 2]@ == tail[m - 2]);
                }
            }
            assert(views(lines@) =~= want);
        }
        join_strings(&lines, "\n")
    }

    /// Every task is done or skipped.
    pub fn overall_success(&self) -> (b: bool)
        ensures
            b == (forall|i: int| 0 <= i < self.task_statuses@.len() ==> finished_well(
                #[trigger] self.task_statuses@[i].1,
            )),
    {
        let mut i: usize = 0;
        while i < self.task_statuses.len()
            invariant
                i <= self.task_statuses.len(),
                forall|j: int| 0 <= j < i ==> finished_well(#[trigger] self.task_statuses@[j].1),
            decreases self.task_statuses.len() - i,
        {
            let s = self.task_statuses[i].1;
            if !(s == TaskStatus::Done || s == TaskStatus::Skipped) {
                return false;
            }
            i = i + 1;
        }
        true
    }
}

} // verus!
