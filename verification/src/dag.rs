//! The dependency graph of a workflow, held in a `petgraph` graph: its
//! construction with cycle detection, its topological order, the tasks ready to
//! run, and the blocking of everything downstream of a failed task.
use vstd::prelude::*;
use petgraph::graph::Graph;
use petgraph::Directed;
use crate::assoc::{keys_distinct, has_key, lookup, key_index, assoc_insert, kv_view, assoc_get, assoc_set, lemma_lookup_insert};
use crate::workflow::{CoreError, WorkflowDef, TaskDef, TaskStatus, task_names, names_distinct, finished_well};
use crate::text::{views, str_eq};

verus! {

/// `petgraph::graph::Graph`.
#[verifier::external_type_specification]
#[verifier::external_body]
#[verifier::reject_recursive_types(N)]
#[verifier::reject_recursive_types(E)]
#[verifier::reject_recursive_types(Ty)]
#[verifier::reject_recursive_types(Ix)]
pub struct ExGraph<N, E, Ty, Ix>(petgraph::graph::Graph<N, E, Ty, Ix>);

/// `petgraph::Directed`, the marker of directed graphs.
#[verifier::external_type_specification]
#[verifier::external_body]
pub struct ExDirected(petgraph::Directed);

/// The node weights of a graph (task names), by node index.
pub uninterp spec fn dag_nodes(g: Graph<String, (), Directed, u32>) -> Seq<Seq<char>>;

/// The edges of a graph, source and target node index, in the order they were added.
pub uninterp spec fn dag_edges(g: Graph<String, (), Directed, u32>) -> Seq<(int, int)>;

/// Consecutive nodes of `p` are joined by edges, and there is at least one edge.
pub open spec fn is_path(es: Seq<(int, int)>, p: Seq<int>) -> bool {
    p.len() >= 2 && forall|i: int| #![trigger p[i]] 0 <= i < p.len() - 1 ==> es.contains((p[i], p[i + 1]))
}

/// A path of at least one edge leads back to where it started.
pub open spec fn has_cycle(es: Seq<(int, int)>) -> bool {
    exists|p: Seq<int>| #[trigger] is_path(es, p) && p[0] == p.last()
}

/// A path of at least one edge leads from `a` to `b`.
pub open spec fn reaches(es: Seq<(int, int)>, a: int, b: int) -> bool {
    exists|p: Seq<int>| #[trigger] is_path(es, p) && p[0] == a && p.last() == b
}

/// `order` lists the `n` nodes once each, every edge's source before its target.
pub open spec fn is_topo_order(n: nat, es: Seq<(int, int)>, order: Seq<int>) -> bool {
    &&& order.len() == n
    &&& forall|i: int| 0 <= i < n ==> 0 <= #[trigger] order[i] < n
    &&& forall|i: int, j: int| 0 <= i < j < n ==> order[i] != order[j]
    &&& forall|i: int, j: int| 0 <= i < n && 0 <= j < n && es.contains((order[i], order[j])) ==> i < j
}

/// Calls `Graph::new`: a graph with no nodes and no edges.
#[verifier::external_body]
fn dag_new() -> (g: Graph<String, (), Directed, u32>)
    ensures
        dag_nodes(g) == Seq::<Seq<char>>::empty(),
        dag_edges(g) == Seq::<(int, int)>::empty(),
{
    Graph::new()
}

/// Calls `Graph::add_node`: the node takes the next index. It panics when the
/// index would reach `u32::MAX`, which `requires` leaves out.
#[verifier::external_body]
fn dag_add_node(g: &mut Graph<String, (), Directed, u32>, name: String) -> (i: usize)
    requires
        dag_nodes(*old(g)).len() < u32::MAX,
    ensures
        dag_nodes(*final(g)) == dag_nodes(*old(g)).push(name@),
        dag_edges(*final(g)) == dag_edges(*old(g)),
        i == dag_nodes(*old(g)).len(),
{
    g.add_node(name).index()
}

/// Calls `Graph::add_edge` from node `a` to node `b`. It panics on a node that
/// does not exist, or when the edge index would reach `u32::MAX`, which
/// `requires` leaves out.
#[verifier::external_body]
fn dag_add_edge(g: &mut Graph<String, (), Directed, u32>, a: usize, b: usize)
    requires
        a < dag_nodes(*old(g)).len(),
        b < dag_nodes(*old(g)).len(),
        dag_edges(*old(g)).len() < u32::MAX,
    ensures
        dag_nodes(*final(g)) == dag_nodes(*old(g)),
        dag_edges(*final(g)) == dag_edges(*old(g)).push((a as int, b as int)),
{
    g.add_edge(petgraph::graph::NodeIndex::new(a), petgraph::graph::NodeIndex::new(b), ());
}

/// Calls `Graph::node_count`.
#[verifier::external_body]
fn dag_node_count(g: &Graph<String, (), Directed, u32>) -> (n: usize)
    ensures
        n == dag_nodes(*g).len(),
{
    g.node_count()
}

/// Calls `Graph::edge_count`.
#[verifier::external_body]
fn dag_edge_count(g: &Graph<String, (), Directed, u32>) -> (n: usize)
    ensures
        n == dag_edges(*g).len(),
{
    g.edge_count()
}

/// Calls `petgraph::algo::is_cyclic_directed`, which tells whether the graph has a cycle.
#[verifier::external_body]
fn dag_is_cyclic(g: &Graph<String, (), Directed, u32>) -> (b: bool)
    ensures
        b == has_cycle(dag_edges(*g)),
{
    petgraph::algo::is_cyclic_directed(g)
}

/// Calls `petgraph::algo::toposort`: the nodes in topological order, or `None`
/// (its `Err`) when the graph has a cycle.
#[verifier::external_body]
fn dag_toposort(g: &Graph<String, (), Directed, u32>) -> (r: Option<Vec<usize>>)
    ensures
        r matches Some(o) ==> is_topo_order(
            dag_nodes(*g).len(),
            dag_edges(*g),
            o@.map_values(|x: usize| x as int),
        ),
        r is None ==> has_cycle(dag_edges(*g)),
{
    petgraph::algo::toposort(g, None).ok().map(|v| v.into_iter().map(|n| n.index()).collect())
}

/// Calls `Graph::neighbors_directed` with `Incoming`: the sources of the edges
/// into node `i` (each edge gives one; the order is not claimed).
#[verifier::external_body]
fn dag_predecessors(g: &Graph<String, (), Directed, u32>, i: usize) -> (r: Vec<usize>)
    requires
        i < dag_nodes(*g).len(),
    ensures
        forall|k: int|
            0 <= k < r@.len() ==> (#[trigger] r@[k]) < dag_nodes(*g).len() && dag_edges(*g).contains(
                (r@[k] as int, i as int),
            ),
        forall|e: int|
            0 <= e < dag_edges(*g).len() && (#[trigger] dag_edges(*g)[e]).1 == i ==> exists|k: int|
                0 <= k < r@.len() && r@[k] as int == dag_edges(*g)[e].0,
{
    g.neighbors_directed(petgraph::graph::NodeIndex::new(i), petgraph::Direction::Incoming).map(|n| n.index()).collect()
}

/// Calls `Graph::neighbors_directed` with `Outgoing`: the targets of the edges
/// out of node `i`, each a node of the graph (the order is not claimed).
#[verifier::external_body]
fn dag_successors(g: &Graph<String, (), Directed, u32>, i: usize) -> (r: Vec<usize>)
    requires
        i < dag_nodes(*g).len(),
    ensures
        forall|k: int|
            0 <= k < r@.len() ==> (#[trigger] r@[k]) < dag_nodes(*g).len() && dag_edges(*g).contains(
                (i as int, r@[k] as int),
            ),
        forall|e: int|
            0 <= e < dag_edges(*g).len() && (#[trigger] dag_edges(*g)[e]).0 == i ==> exists|k: int|
                0 <= k < r@.len() && r@[k] as int == dag_edges(*g)[e].1,
{
    g.neighbors_directed(petgraph::graph::NodeIndex::new(i), petgraph::Direction::Outgoing).map(|n| n.index()).collect()
}

/// Calls the graph's index operator: the weight (task name) of node `i`.
#[verifier::external_body]
fn dag_node_name(g: &Graph<String, (), Directed, u32>, i: usize) -> (r: &String)
    requires
        i < dag_nodes(*g).len(),
    ensures
        r@ == dag_nodes(*g)[i as int],
{
    &g[petgraph::graph::NodeIndex::new(i)]
}

// ---------------------------------------------------------------------------
// Building the graph of a workflow
// ---------------------------------------------------------------------------

/// The edges of the dependencies of task `i`: from each dependency to the task.
pub open spec fn dep_edges(names: Seq<Seq<char>>, deps: Seq<Seq<char>>, i: int) -> Seq<(int, int)> {
    deps.map_values(|d: Seq<char>| (names.index_of(d), i))
}

/// The edges of the first `n` tasks, task by task and dependency by dependency.
pub open spec fn task_edges_upto(tasks: Seq<(String, TaskDef)>, n: int) -> Seq<(int, int)>
    decreases n,
{
    if n <= 0 {
        Seq::empty()
    } else {
        task_edges_upto(tasks, n - 1) + dep_edges(task_names(tasks), views(tasks[n - 1].1.depends_on@), n - 1)
    }
}

/// The edges of a workflow's graph.
pub open spec fn task_edges(tasks: Seq<(String, TaskDef)>) -> Seq<(int, int)> {
    task_edges_upto(tasks, tasks.len() as int)
}

/// The number of dependencies of the first `n` tasks.
pub open spec fn dep_count(tasks: Seq<(String, TaskDef)>, n: int) -> int
    decreases n,
{
    if n <= 0 {
        0
    } else {
        dep_count(tasks, n - 1) + tasks[n - 1].1.depends_on@.len()
    }
}

/// Every dependency names a task.
pub open spec fn deps_known(tasks: Seq<(String, TaskDef)>) -> bool {
    forall|i: int, k: int|
        0 <= i < tasks.len() && 0 <= k < tasks[i].1.depends_on@.len() ==> task_names(tasks).contains(
            #[trigger] tasks[i].1.depends_on@[k]@,
        )
}

/// The index of each task in the graph: its position.
pub open spec fn index_entries(names: Seq<Seq<char>>) -> Seq<(Seq<char>, usize)> {
    Seq::new(names.len(), |i: int| (names[i], i as usize))
}

/// The edges of the first `n` tasks number as many as their dependencies.
proof fn lemma_task_edges_len(tasks: Seq<(String, TaskDef)>, n: int)
    requires
        0 <= n <= tasks.len(),
    ensures
        task_edges_upto(tasks, n).len() == dep_count(tasks, n),
        dep_count(tasks, n) >= 0,
    decreases n,
{
    if n > 0 {
        lemma_task_edges_len(tasks, n - 1);
    }
}

/// The dependency count grows with the number of tasks counted.
proof fn lemma_dep_count_mono(tasks: Seq<(String, TaskDef)>, a: int, b: int)
    requires
        0 <= a <= b <= tasks.len(),
    ensures
        dep_count(tasks, a) <= dep_count(tasks, b),
    decreases b - a,
{
    if a < b {
        lemma_dep_count_mono(tasks, a, b - 1);
    }
}

/// The position of `x` among the task names.
fn task_index(tasks: &Vec<(String, TaskDef)>, x: &str) -> (r: usize)
    requires
        task_names(tasks@).contains(x@),
        names_distinct(task_names(tasks@)),
    ensures
        r < tasks@.len(),
        r as int == task_names(tasks@).index_of(x@),
{
    let ghost names = task_names(tasks@);
    let mut i: usize = 0;
    while i < tasks.len()
        invariant
            i <= tasks.len(),
            names == task_names(tasks@),
            names_distinct(names),
            names.contains(x@),
            forall|j: int| 0 <= j < i ==> names[j] != x@,
        decreases tasks.len() - i,
    {
        if str_eq(tasks[i].0.as_str(), x) {
            proof {
                let c = names.index_of(x@);
                assert(names[i as int] == x@);
                if c != i {
                    if c < i {
                        assert(names[c] != names[i as int]);
                    } else {
                        assert(names[i as int] != names[c]);
                    }
                }
            }
            return i;
        }
        assert(names[i as int] == tasks@[i as int].0@);
        i = i + 1;
    }
    proof {
        let c = choose|c: int| 0 <= c < names.len() && names[c] == x@;
        assert(names[c] == x@);
    }
    0
}

/// Builds the graph of a workflow: a node per task, in order, and an edge from
/// each dependency to its task. Refused with `DagCycle` when the dependencies
/// form a cycle.
pub fn build_dag(workflow: &WorkflowDef) -> (r: Result<
    (Graph<String, (), Directed, u32>, Vec<(String, usize)>),
    CoreError,
>)
    requires
        names_distinct(task_names(workflow.tasks@)),
        deps_known(workflow.tasks@),
        workflow.tasks@.len() < u32::MAX,
        dep_count(workflow.tasks@, workflow.tasks@.len() as int) < u32::MAX,
    ensures
        r is Err <==> has_cycle(task_edges(workflow.tasks@)),
        match r {
            Ok((g, idx)) => !has_cycle(task_edges(workflow.tasks@)) && dag_nodes(g) == task_names(workflow.tasks@)
                && dag_edges(g) == task_edges(workflow.tasks@) && kv_view(idx@) == index_entries(
                task_names(workflow.tasks@),
            ),
            Err(CoreError::DagCycle) => has_cycle(task_edges(workflow.tasks@)),
            Err(_) => false,
        },
{
    let tasks = &workflow.tasks;
    let ghost names = task_names(tasks@);
    let mut g = dag_new();
    let mut idx: Vec<(String, usize)> = Vec::new();
    let mut i: usize = 0;
    while i < tasks.len()
        invariant
            i <= tasks.len(),
            tasks@.len() < u32::MAX,
            names == task_names(tasks@),
            dag_nodes(g) == names.subrange(0, i as int),
            dag_edges(g) == Seq::<(int, int)>::empty(),
            kv_view(idx@) == index_entries(names.subrange(0, i as int)),
        decreases tasks.len() - i,
    {
        let name = tasks[i].0.clone();
        let k = dag_add_node(&mut g, name);
        let ghost prev = kv_view(idx@);
        let key = tasks[i].0.clone();
        assert(key@ == names[i as int]);
        idx.push((key, k));
        assert(kv_view(idx@) =~= prev.push((names[i as int], i as usize)));
        assert(names.subrange(0, i + 1) =~= names.subrange(0, i as int).push(names[i as int]));
        assert(kv_view(idx@) =~= index_entries(names.subrange(0, i + 1)));
        i = i + 1;
    }
    assert(names.subrange(0, i as int) =~= names);
    let mut t: usize = 0;
    while t < tasks.len()
        invariant
            t <= tasks.len(),
            names == task_names(tasks@),
            names_distinct(names),
            deps_known(tasks@),
            names.len() == tasks@.len(),
            dag_nodes(g) == names,
            dag_edges(g) == task_edges_upto(tasks@, t as int),
            dep_count(tasks@, tasks@.len() as int) < u32::MAX,
        decreases tasks.len() - t,
    {
        let deps = &tasks[t].1.depends_on;
        let ghost before = dag_edges(g);
        proof {
            lemma_task_edges_len(tasks@, t as int + 1);
            lemma_dep_count_mono(tasks@, t as int + 1, tasks@.len() as int);
        }
        let mut k: usize = 0;
        while k < deps.len()
            invariant
                k <= deps.len(),
                t < tasks.len(),
                names == task_names(tasks@),
                names_distinct(names),
                deps_known(tasks@),
                names.len() == tasks@.len(),
                dag_nodes(g) == names,
                before == task_edges_upto(tasks@, t as int),
                deps@ == tasks@[t as int].1.depends_on@,
                before.len() + deps@.len() < u32::MAX,
                dag_edges(g) == before + dep_edges(names, views(deps@).subrange(0, k as int), t as int),
            decreases deps.len() - k,
        {
            assert(names.contains(deps@[k as int]@)) by {
                assert(tasks@[t as int].1.depends_on@[k as int] == deps@[k as int]);
            }
            let d = task_index(tasks, deps[k].as_str());
            dag_add_edge(&mut g, d, t);
            assert(views(deps@).subrange(0, k + 1) =~= views(deps@).subrange(0, k as int).push(deps@[k as int]@));
            assert(dep_edges(names, views(deps@).subrange(0, k + 1), t as int) =~= dep_edges(
                names,
                views(deps@).subrange(0, k as int),
                t as int,
            ).push((d as int, t as int)));
            k = k + 1;
        }
        assert(views(deps@).subrange(0, k as int) =~= views(deps@));
        t = t + 1;
    }
    if dag_is_cyclic(&g) {
        return Err(CoreError::DagCycle);
    }
    Ok((g, idx))
}

/// The nodes of the graph in topological order, by index. Refused with
/// `DagCycle` when the graph has a cycle.
pub fn topological_sort(graph: &Graph<String, (), Directed, u32>) -> (r: Result<Vec<usize>, CoreError>)
    ensures
        match r {
            Ok(o) => is_topo_order(dag_nodes(*graph).len(), dag_edges(*graph), o@.map_values(|x: usize| x as int)),
            Err(CoreError::DagCycle) => has_cycle(dag_edges(*graph)),
            Err(_) => false,
        },
        !has_cycle(dag_edges(*graph)) ==> r is Ok,
{
    match dag_toposort(graph) {
        Some(o) => Ok(o),
        None => Err(CoreError::DagCycle),
    }
}

/// The number of nodes of a graph.
pub fn node_count(graph: &Graph<String, (), Directed, u32>) -> (n: usize)
    ensures
        n == dag_nodes(*graph).len(),
{
    dag_node_count(graph)
}

/// The number of edges of a graph.
pub fn edge_count(graph: &Graph<String, (), Directed, u32>) -> (n: usize)
    ensures
        n == dag_edges(*graph).len(),
{
    dag_edge_count(graph)
}

// ---------------------------------------------------------------------------
// Statuses
// ---------------------------------------------------------------------------

/// The status of a task: `Pending` until one is recorded.
pub open spec fn status_of(statuses: Seq<(Seq<char>, TaskStatus)>, name: Seq<char>) -> TaskStatus {
    match lookup(statuses, name) {
        Some(s) => s,
        None => TaskStatus::Pending,
    }
}

/// Every task that node `v` depends on is done or skipped.
pub open spec fn deps_finished(
    nodes: Seq<Seq<char>>,
    es: Seq<(int, int)>,
    statuses: Seq<(Seq<char>, TaskStatus)>,
    v: int,
) -> bool {
    forall|e: int|
        0 <= e < es.len() && (#[trigger] es[e]).1 == v ==> finished_well(status_of(statuses, nodes[es[e].0]))
}

/// The tasks, in the order of the index, that are pending with every
/// dependency done or skipped.
pub open spec fn ready_tasks(
    entries: Seq<(Seq<char>, usize)>,
    nodes: Seq<Seq<char>>,
    es: Seq<(int, int)>,
    statuses: Seq<(Seq<char>, TaskStatus)>,
) -> Seq<Seq<char>>
    decreases entries.len(),
{
    if entries.len() == 0 {
        Seq::empty()
    } else {
        let e = entries.last();
        ready_tasks(entries.drop_last(), nodes, es, statuses) + if status_of(statuses, e.0) == TaskStatus::Pending
            && deps_finished(nodes, es, statuses, e.1 as int) {
            seq![e.0]
        } else {
            Seq::empty()
        }
    }
}

/// Every task found ready is pending, and every task it depends on is done
/// or skipped.
pub proof fn law_ready_tasks_pending_with_finished_deps(
    entries: Seq<(Seq<char>, usize)>,
    nodes: Seq<Seq<char>>,
    es: Seq<(int, int)>,
    statuses: Seq<(Seq<char>, TaskStatus)>,
    k: int,
)
    requires
        0 <= k < ready_tasks(entries, nodes, es, statuses).len(),
    ensures
        exists|j: int|
            0 <= j < entries.len() && #[trigger] entries[j].0 == ready_tasks(entries, nodes, es, statuses)[k]
                && status_of(statuses, entries[j].0) == TaskStatus::Pending && deps_finished(
                nodes,
                es,
                statuses,
                entries[j].1 as int,
            ),
    decreases entries.len(),
{
    let prev = ready_tasks(entries.drop_last(), nodes, es, statuses);
    if k < prev.len() {
        law_ready_tasks_pending_with_finished_deps(entries.drop_last(), nodes, es, statuses, k);
        let j = choose|j: int|
            0 <= j < entries.drop_last().len() && #[trigger] entries.drop_last()[j].0 == prev[k] && status_of(
                statuses,
                entries.drop_last()[j].0,
            ) == TaskStatus::Pending && deps_finished(nodes, es, statuses, entries.drop_last()[j].1 as int);
        assert(entries[j] == entries.drop_last()[j]);
    } else {
        let j = entries.len() - 1;
        assert(entries[j] == entries.last());
    }
}

/// Both ends of every edge of a workflow whose dependencies are all tasks
/// are tasks.
pub proof fn lemma_task_edges_in_range(tasks: Seq<(String, TaskDef)>, n: int)
    requires
        deps_known(tasks),
        0 <= n <= tasks.len(),
    ensures
        forall|e: int|
            0 <= e < task_edges_upto(tasks, n).len() ==> 0 <= (#[trigger] task_edges_upto(tasks, n)[e]).0 < tasks.len()
                && 0 <= task_edges_upto(tasks, n)[e].1 < n,
    decreases n,
{
    if n > 0 {
        lemma_task_edges_in_range(tasks, n - 1);
        let names = task_names(tasks);
        let prev = task_edges_upto(tasks, n - 1);
        let deps = views(tasks[n - 1].1.depends_on@);
        let d = dep_edges(names, deps, n - 1);
        let all = task_edges_upto(tasks, n);
        assert(all == prev + d);
        assert forall|e: int| 0 <= e < all.len() implies 0 <= (#[trigger] all[e]).0 < tasks.len() && 0 <= all[e].1 < n by {
            if e >= prev.len() {
                let k = e - prev.len();
                assert(all[e] == d[k]);
                assert(deps[k] == tasks[n - 1].1.depends_on@[k]@);
                assert(names.contains(deps[k]));
            } else {
                assert(all[e] == prev[e]);
            }
        }
    }
}

/// Each dependency of the first `n` tasks gives an edge from the task it
/// names to its task.
proof fn lemma_dep_edges_present(tasks: Seq<(String, TaskDef)>, n: int, v: int, k: int)
    requires
        deps_known(tasks),
        0 <= v < n <= tasks.len(),
        0 <= k < tasks[v].1.depends_on@.len(),
    ensures
        exists|e: int|
            #![trigger task_edges_upto(tasks, n)[e]]
            0 <= e < task_edges_upto(tasks, n).len() && task_edges_upto(tasks, n)[e].1 == v && 0
                <= task_edges_upto(tasks, n)[e].0 < tasks.len() && task_names(tasks)[task_edges_upto(tasks, n)[e].0]
                == tasks[v].1.depends_on@[k]@,
    decreases n,
{
    let names = task_names(tasks);
    let prev = task_edges_upto(tasks, n - 1);
    let d = dep_edges(names, views(tasks[n - 1].1.depends_on@), n - 1);
    let all = task_edges_upto(tasks, n);
    assert(all == prev + d);
    if v < n - 1 {
        lemma_dep_edges_present(tasks, n - 1, v, k);
        let e = choose|e: int|
            #![trigger prev[e]]
            0 <= e < prev.len() && prev[e].1 == v && 0 <= prev[e].0 < tasks.len() && names[prev[e].0]
                == tasks[v].1.depends_on@[k]@;
        assert(all[e] == prev[e]);
        assert(names[all[e].0] == tasks[v].1.depends_on@[k]@);
    } else {
        let dep = tasks[v].1.depends_on@[k]@;
        assert(views(tasks[v].1.depends_on@)[k] == dep);
        assert(names.contains(dep));
        let i = names.index_of(dep);
        assert(0 <= i < names.len() && names[i] == dep);
        let e = prev.len() + k;
        assert(all[e] == d[k]);
        assert(d[k] == (i, v));
        assert(all[e].1 == v && 0 <= all[e].0 < tasks.len() && names[all[e].0] == dep);
    }
}

/// The graph built for a workflow has one node per task and one edge per
/// dependency, and each dependency `d` of a task `n` is an edge from `d` to `n`.
pub proof fn law_dag_shape(tasks: Seq<(String, TaskDef)>, v: int, k: int)
    requires
        deps_known(tasks),
    ensures
        task_names(tasks).len() == tasks.len(),
        task_edges(tasks).len() == dep_count(tasks, tasks.len() as int),
        0 <= v < tasks.len() && 0 <= k < tasks[v].1.depends_on@.len() ==> exists|e: int|
            #![trigger task_edges(tasks)[e]]
            0 <= e < task_edges(tasks).len() && task_edges(tasks)[e].1 == v && 0 <= task_edges(tasks)[e].0 < tasks.len()
                && task_names(tasks)[task_edges(tasks)[e].0] == tasks[v].1.depends_on@[k]@,
{
    lemma_task_edges_len(tasks, tasks.len() as int);
    if 0 <= v < tasks.len() && 0 <= k < tasks[v].1.depends_on@.len() {
        lemma_dep_edges_present(tasks, tasks.len() as int, v, k);
        let e = choose|e: int|
            #![trigger task_edges_upto(tasks, tasks.len() as int)[e]]
            0 <= e < task_edges_upto(tasks, tasks.len() as int).len() && task_edges_upto(tasks, tasks.len() as int)[e].1
                == v && 0 <= task_edges_upto(tasks, tasks.len() as int)[e].0 < tasks.len() && task_names(tasks)[task_edges_upto(
                tasks,
                tasks.len() as int,
            )[e].0] == tasks[v].1.depends_on@[k]@;
        assert(task_edges(tasks)[e] == task_edges_upto(tasks, tasks.len() as int)[e]);
    }
}

/// The dependencies of task `v` among the first `n` tasks' edges: their
/// targets are below `n`, and those into `v` come from its dependencies.
proof fn lemma_edges_into(tasks: Seq<(String, TaskDef)>, n: int, st: Seq<(Seq<char>, TaskStatus)>, v: int)
    requires
        deps_known(tasks),
        0 <= n <= tasks.len(),
        0 <= v < tasks.len(),
    ensures
        forall|e: int| 0 <= e < task_edges_upto(tasks, n).len() ==> #[trigger] task_edges_upto(tasks, n)[e].1 < n,
        (forall|e: int|
            0 <= e < task_edges_upto(tasks, n).len() && (#[trigger] task_edges_upto(tasks, n)[e]).1 == v
                ==> finished_well(status_of(st, task_names(tasks)[task_edges_upto(tasks, n)[e].0]))) <==> (v >= n
            || forall|k: int|
            0 <= k < tasks[v].1.depends_on@.len() ==> finished_well(
                status_of(st, #[trigger] tasks[v].1.depends_on@[k]@),
            )),
    decreases n,
{
    let names = task_names(tasks);
    if n > 0 {
        lemma_edges_into(tasks, n - 1, st, v);
        let prev = task_edges_upto(tasks, n - 1);
        let deps = views(tasks[n - 1].1.depends_on@);
        let d = dep_edges(names, deps, n - 1);
        let all = task_edges_upto(tasks, n);
        assert(all == prev + d);
        assert forall|e: int| 0 <= e < all.len() implies #[trigger] all[e].1 < n by {
            if e >= prev.len() {
                assert(all[e] == d[e - prev.len()]);
            } else {
                assert(all[e] == prev[e]);
            }
        }
        if v == n - 1 {
            assert forall|k: int| 0 <= k < d.len() implies names[(#[trigger] d[k]).0] == tasks[v].1.depends_on@[k]@ by {
                assert(deps[k] == tasks[v].1.depends_on@[k]@);
                assert(names.contains(deps[k]));
            }
            if forall|k: int|
                0 <= k < tasks[v].1.depends_on@.len() ==> finished_well(
                    status_of(st, #[trigger] tasks[v].1.depends_on@[k]@),
                ) {
                assert forall|e: int|
                    0 <= e < all.len() && (#[trigger] all[e]).1 == v implies finished_well(
                    status_of(st, names[all[e].0]),
                ) by {
                    if e < prev.len() {
                        assert(all[e] == prev[e]);
                    } else {
                        let k = e - prev.len();
                        assert(all[e] == d[k]);
                        assert(names[d[k].0] == tasks[v].1.depends_on@[k]@);
                    }
                }
            }
            if forall|e: int|
                0 <= e < all.len() && (#[trigger] all[e]).1 == v ==> finished_well(status_of(st, names[all[e].0])) {
                assert forall|k: int| 0 <= k < tasks[v].1.depends_on@.len() implies finished_well(
                    status_of(st, #[trigger] tasks[v].1.depends_on@[k]@),
                ) by {
                    let e = prev.len() + k;
                    assert(all[e] == d[k]);
                    assert(names[d[k].0] == tasks[v].1.depends_on@[k]@);
                }
            }
        } else {
            assert forall|e: int|
                0 <= e < all.len() && (#[trigger] all[e]).1 == v implies e < prev.len() && all[e] == prev[e] by {
                if e >= prev.len() {
                    assert(all[e] == d[e - prev.len()]);
                }
            }
            let lhs_all = forall|e: int|
                0 <= e < all.len() && (#[trigger] all[e]).1 == v ==> finished_well(status_of(st, names[all[e].0]));
            let lhs_prev = forall|e: int|
                0 <= e < prev.len() && (#[trigger] prev[e]).1 == v ==> finished_well(status_of(st, names[prev[e].0]));
            if lhs_prev {
                assert forall|e: int|
                    0 <= e < all.len() && (#[trigger] all[e]).1 == v implies finished_well(
                    status_of(st, names[all[e].0]),
                ) by {
                    assert(all[e] == prev[e]);
                }
            }
            if lhs_all {
                assert forall|e: int|
                    0 <= e < prev.len() && (#[trigger] prev[e]).1 == v implies finished_well(
                    status_of(st, names[prev[e].0]),
                ) by {
                    assert(all[e] == prev[e]);
                }
            }
            assert(lhs_all == lhs_prev);
        }
    } else {
        assert(task_edges_upto(tasks, n).len() == 0);
    }
}

/// In a workflow whose dependencies are all tasks, task `v`'s dependencies
/// are finished, in the graph's sense, exactly when every task named in its
/// `depends_on` is done or skipped.
pub proof fn law_ready_direct(tasks: Seq<(String, TaskDef)>, st: Seq<(Seq<char>, TaskStatus)>, v: int)
    requires
        deps_known(tasks),
        0 <= v < tasks.len(),
    ensures
        deps_finished(task_names(tasks), task_edges(tasks), st, v) <==> forall|k: int|
            0 <= k < tasks[v].1.depends_on@.len() ==> finished_well(
                status_of(st, #[trigger] tasks[v].1.depends_on@[k]@),
            ),
{
    lemma_edges_into(tasks, tasks.len() as int, st, v);
}

/// A task is found ready exactly when it is in the index, pending, and its
/// dependencies are finished; with distinct names, each is found once.
pub proof fn law_ready_tasks_exact(
    entries: Seq<(Seq<char>, usize)>,
    nodes: Seq<Seq<char>>,
    es: Seq<(int, int)>,
    statuses: Seq<(Seq<char>, TaskStatus)>,
    n: Seq<char>,
)
    ensures
        ready_tasks(entries, nodes, es, statuses).contains(n) <==> exists|j: int|
            0 <= j < entries.len() && #[trigger] entries[j].0 == n && status_of(statuses, n) == TaskStatus::Pending
                && deps_finished(nodes, es, statuses, entries[j].1 as int),
        keys_distinct(entries) ==> ready_tasks(entries, nodes, es, statuses).no_duplicates(),
    decreases entries.len(),
{
    let r = ready_tasks(entries, nodes, es, statuses);
    if entries.len() > 0 {
        let prev_e = entries.drop_last();
        let prev = ready_tasks(prev_e, nodes, es, statuses);
        law_ready_tasks_exact(prev_e, nodes, es, statuses, n);
        let e = entries.last();
        let take = status_of(statuses, e.0) == TaskStatus::Pending && deps_finished(nodes, es, statuses, e.1 as int);
        let extra = if take { seq![e.0] } else { Seq::<Seq<char>>::empty() };
        assert(r == prev + extra);
        if r.contains(n) {
            let q = choose|q: int| 0 <= q < r.len() && r[q] == n;
            if q < prev.len() {
                assert(prev[q] == n);
                let j = choose|j: int|
                    0 <= j < prev_e.len() && #[trigger] prev_e[j].0 == n && status_of(statuses, n) == TaskStatus::Pending
                        && deps_finished(nodes, es, statuses, prev_e[j].1 as int);
                assert(entries[j] == prev_e[j]);
            } else {
                assert(entries[entries.len() - 1] == e);
            }
        }
        if exists|j: int|
            0 <= j < entries.len() && #[trigger] entries[j].0 == n && status_of(statuses, n) == TaskStatus::Pending
                && deps_finished(nodes, es, statuses, entries[j].1 as int) {
            let j = choose|j: int|
                0 <= j < entries.len() && #[trigger] entries[j].0 == n && status_of(statuses, n) == TaskStatus::Pending
                    && deps_finished(nodes, es, statuses, entries[j].1 as int);
            if j < entries.len() - 1 {
                assert(prev_e[j] == entries[j]);
                let q = choose|q: int| 0 <= q < prev.len() && prev[q] == n;
                assert(r[q] == n);
            } else {
                assert(r[r.len() - 1] == n);
            }
        }
        if keys_distinct(entries) {
            assert(keys_distinct(prev_e)) by {
                assert forall|a: int, b: int| 0 <= a < b < prev_e.len() implies prev_e[a].0 != prev_e[b].0 by {
                    assert(prev_e[a] == entries[a] && prev_e[b] == entries[b]);
                }
            }
            if take {
                assert(!prev.contains(e.0)) by {
                    if prev.contains(e.0) {
                        law_ready_tasks_exact(prev_e, nodes, es, statuses, e.0);
                        let j = choose|j: int|
                            0 <= j < prev_e.len() && #[trigger] prev_e[j].0 == e.0 && status_of(statuses, e.0)
                                == TaskStatus::Pending && deps_finished(nodes, es, statuses, prev_e[j].1 as int);
                        assert(entries[j].0 == entries[entries.len() - 1].0);
                    }
                }
                assert forall|a: int, b: int| 0 <= a < r.len() && 0 <= b < r.len() && a != b implies r[a] != r[b] by {
                    if a < prev.len() && b < prev.len() {
                        assert(r[a] == prev[a] && r[b] == prev[b]);
                    } else if a < prev.len() {
                        assert(r[a] == prev[a] && r[b] == e.0);
                    } else if b < prev.len() {
                        assert(r[b] == prev[b] && r[a] == e.0);
                    }
                }
            } else {
                assert(r =~= prev);
            }
        }
    }
}

/// In a workflow whose names are distinct and whose dependencies are all
/// tasks, the tasks found ready are, once each, exactly the pending tasks
/// every one of whose `depends_on` entries is done or skipped.
pub proof fn law_ready_set(tasks: Seq<(String, TaskDef)>, st: Seq<(Seq<char>, TaskStatus)>, n: Seq<char>)
    requires
        deps_known(tasks),
        names_distinct(task_names(tasks)),
        tasks.len() <= usize::MAX,
    ensures
        ready_tasks(index_entries(task_names(tasks)), task_names(tasks), task_edges(tasks), st).no_duplicates(),
        ready_tasks(index_entries(task_names(tasks)), task_names(tasks), task_edges(tasks), st).contains(n) <==> exists|v: int|
            0 <= v < tasks.len() && #[trigger] tasks[v].0@ == n && status_of(st, n) == TaskStatus::Pending && forall|k: int|
                0 <= k < tasks[v].1.depends_on@.len() ==> finished_well(
                    status_of(st, #[trigger] tasks[v].1.depends_on@[k]@),
                ),
{
    let names = task_names(tasks);
    let entries = index_entries(names);
    assert(keys_distinct(entries)) by {
        assert forall|a: int, b: int| 0 <= a < b < entries.len() implies entries[a].0 != entries[b].0 by {
            assert(entries[a].0 == names[a] && entries[b].0 == names[b]);
        }
    }
    law_ready_tasks_exact(entries, names, task_edges(tasks), st, n);
    if ready_tasks(entries, names, task_edges(tasks), st).contains(n) {
        let j = choose|j: int|
            0 <= j < entries.len() && #[trigger] entries[j].0 == n && status_of(st, n) == TaskStatus::Pending
                && deps_finished(names, task_edges(tasks), st, entries[j].1 as int);
        assert(entries[j] == (names[j], j as usize));
        assert(entries[j].1 as int == j);
        law_ready_direct(tasks, st, j);
        assert(tasks[j].0@ == names[j]);
    }
    if exists|v: int|
        0 <= v < tasks.len() && #[trigger] tasks[v].0@ == n && status_of(st, n) == TaskStatus::Pending && forall|k: int|
            0 <= k < tasks[v].1.depends_on@.len() ==> finished_well(status_of(st, #[trigger] tasks[v].1.depends_on@[k]@)) {
        let v = choose|v: int|
            0 <= v < tasks.len() && #[trigger] tasks[v].0@ == n && status_of(st, n) == TaskStatus::Pending && forall|k: int|
                0 <= k < tasks[v].1.depends_on@.len() ==> finished_well(
                    status_of(st, #[trigger] tasks[v].1.depends_on@[k]@),
                );
        law_ready_direct(tasks, st, v);
        assert(entries[v] == (names[v], v as usize));
        assert(names[v] == tasks[v].0@);
        assert(entries[v].1 as int == v);
    }
}

/// The status of a task.
fn status_exec(statuses: &Vec<(String, TaskStatus)>, name: &str) -> (s: TaskStatus)
    requires
        keys_distinct(kv_view(statuses@)),
    ensures
        s == status_of(kv_view(statuses@), name@),
{
    match assoc_get(statuses, name) {
        Some(s) => s,
        None => TaskStatus::Pending,
    }
}

/// The tasks ready to run: pending, with every dependency done or skipped.
pub fn find_ready_tasks(
    graph: &Graph<String, (), Directed, u32>,
    name_to_idx: &Vec<(String, usize)>,
    statuses: &Vec<(String, TaskStatus)>,
    workflow: &WorkflowDef,
) -> (r: Vec<String>)
    requires
        keys_distinct(kv_view(statuses@)),
        forall|i: int| 0 <= i < name_to_idx@.len() ==> (#[trigger] name_to_idx@[i]).1 < dag_nodes(*graph).len(),
    ensures
        views(r@) == ready_tasks(kv_view(name_to_idx@), dag_nodes(*graph), dag_edges(*graph), kv_view(statuses@)),
{
    let ghost nodes = dag_nodes(*graph);
    let ghost es = dag_edges(*graph);
    let ghost sv = kv_view(statuses@);
    let mut ready: Vec<String> = Vec::new();
    let mut i: usize = 0;
    while i < name_to_idx.len()
        invariant
            i <= name_to_idx.len(),
            nodes == dag_nodes(*graph),
            es == dag_edges(*graph),
            sv == kv_view(statuses@),
            keys_distinct(sv),
            forall|j: int| 0 <= j < name_to_idx@.len() ==> (#[trigger] name_to_idx@[j]).1 < nodes.len(),
            views(ready@) == ready_tasks(kv_view(name_to_idx@).subrange(0, i as int), nodes, es, sv),
        decreases name_to_idx.len() - i,
    {
        let ghost ents = kv_view(name_to_idx@).subrange(0, i + 1);
        assert(ents.drop_last() =~= kv_view(name_to_idx@).subrange(0, i as int));
        assert(ents.last() == (name_to_idx@[i as int].0@, name_to_idx@[i as int].1));
        let name = &name_to_idx[i].0;
        let v = name_to_idx[i].1;
        let ghost before = views(ready@);
        if status_exec(statuses, name.as_str()) == TaskStatus::Pending {
            let preds = dag_predecessors(graph, v);
            let mut ok = true;
            let mut k: usize = 0;
            while k < preds.len()
                invariant
                    k <= preds.len(),
                    v < nodes.len(),
                    nodes == dag_nodes(*graph),
                    es == dag_edges(*graph),
                    sv == kv_view(statuses@),
                    keys_distinct(sv),
                    forall|m: int|
                        0 <= m < preds@.len() ==> (#[trigger] preds@[m]) < nodes.len() && es.contains(
                            (preds@[m] as int, v as int),
                        ),
                    ok ==> forall|m: int| 0 <= m < k ==> finished_well(status_of(sv, nodes[#[trigger] preds@[m] as int])),
                    !ok ==> !deps_finished(nodes, es, sv, v as int),
                decreases preds.len() - k,
            {
                let p = preds[k];
                assert(es.contains((p as int, v as int)));
                let ghost e = choose|e: int| 0 <= e < es.len() && es[e] == (p as int, v as int);
                let pn = dag_node_name(graph, p);
                let st = status_exec(statuses, pn.as_str());
                if !(st == TaskStatus::Done || st == TaskStatus::Skipped) {
                    assert(es[e].1 == v && !finished_well(status_of(sv, nodes[es[e].0])));
                    ok = false;
                }
                k = k + 1;
            }
            proof {
                if ok {
                    assert forall|e: int| 0 <= e < es.len() && (#[trigger] es[e]).1 == v implies finished_well(
                        status_of(sv, nodes[es[e].0]),
                    ) by {
                        let m = choose|m: int| 0 <= m < preds@.len() && preds@[m] as int == es[e].0;
                        assert(finished_well(status_of(sv, nodes[preds@[m] as int])));
                    }
                }
            }
            if ok {
                ready.push(name.clone());
                assert(views(ready@) =~= before.push(name@));
            }
        }
        assert(views(ready@) =~= ready_tasks(ents, nodes, es, sv));
        i = i + 1;
    }
    assert(kv_view(name_to_idx@).subrange(0, i as int) =~= kv_view(name_to_idx@));
    ready
}

// ---------------------------------------------------------------------------
// Failure propagation
// ---------------------------------------------------------------------------

/// What a failure does to a task: a pending task downstream of the failed one
/// (reachable from it, and not the failed task itself) becomes `Blocked`.
pub open spec fn blocks(es: Seq<(int, int)>, start: int, v: int, old_status: TaskStatus) -> bool {
    v != start && reaches(es, start, v) && old_status == TaskStatus::Pending
}

/// Every edge out of `v` leads to a visited node.
pub open spec fn closed(es: Seq<(int, int)>, vis: Seq<bool>, n: int, v: int) -> bool {
    forall|e: int| 0 <= e < es.len() && (#[trigger] es[e]).0 == v ==> 0 <= es[e].1 < n && vis[es[e].1]
}

/// In a set of visited nodes closed under edges, everything on a path from a
/// visited node is visited.
proof fn lemma_closed_path(es: Seq<(int, int)>, vis: Seq<bool>, n: int, p: Seq<int>, i: int)
    requires
        is_path(es, p),
        vis.len() == n,
        0 <= p[0] < n,
        vis[p[0]],
        forall|v: int| 0 <= v < n && vis[v] ==> #[trigger] closed(es, vis, n, v),
        0 <= i < p.len(),
    ensures
        0 <= p[i] < n,
        vis[p[i]],
    decreases i,
{
    if i > 0 {
        lemma_closed_path(es, vis, n, p, i - 1);
        assert(es.contains((p[i - 1], p[i])));
        let e = choose|e: int| 0 <= e < es.len() && es[e] == (p[i - 1], p[i]);
        assert(closed(es, vis, n, p[i - 1]));
        assert(es[e].0 == p[i - 1]);
    }
}

/// A path followed by one more edge.
proof fn lemma_path_extend(es: Seq<(int, int)>, p: Seq<int>, w: int)
    requires
        is_path(es, p),
        es.contains((p.last(), w)),
    ensures
        is_path(es, p.push(w)),
        p.push(w)[0] == p[0],
        p.push(w).last() == w,
{
    let q = p.push(w);
    assert forall|i: int| #![trigger q[i]] 0 <= i < q.len() - 1 implies es.contains((q[i], q[i + 1])) by {
        if i < p.len() - 1 {
            assert(q[i] == p[i] && q[i + 1] == p[i + 1]);
            assert(es.contains((p[i], p[i + 1])));
        } else {
            assert(q[i] == p.last());
        }
    }
}

/// The visited nodes, as flags and as a set; `start` is one of them.
#[verifier::opaque]
pub open spec fn vis_ok(n: int, start: int, vis: Seq<bool>, vset: Set<int>) -> bool {
    &&& vis.len() == n && 0 <= start < n && vis[start]
    &&& vset.finite() && vset.len() <= n
    &&& forall|v: int| 0 <= v < n ==> (vis[v] <==> #[trigger] vset.contains(v))
    &&& forall|v: int| #[trigger] vset.contains(v) ==> 0 <= v < n
}

/// Every visited node but `start` is reachable from it.
#[verifier::opaque]
pub open spec fn reach_ok(es: Seq<(int, int)>, n: int, start: int, vis: Seq<bool>) -> bool {
    forall|v: int| 0 <= v < n && #[trigger] vis[v] && v != start ==> reaches(es, start, v)
}

/// The stack holds visited nodes.
#[verifier::opaque]
pub open spec fn stack_ok(n: int, vis: Seq<bool>, stack: Seq<usize>) -> bool {
    forall|j: int| 0 <= j < stack.len() ==> (#[trigger] stack[j]) < n && vis[stack[j] as int]
}

/// Every visited node off the stack, but `u`, has all its successors visited.
#[verifier::opaque]
pub open spec fn closed_ok(es: Seq<(int, int)>, n: int, vis: Seq<bool>, stack: Seq<usize>, u: int) -> bool {
    forall|v: int| 0 <= v < n && v != u && #[trigger] vis[v] && !stack.contains(v as usize) ==> closed(es, vis, n, v)
}

/// Each node's status is `Blocked` when it was visited (and is not `start`)
/// and was pending, else as before; other names are untouched.
#[verifier::opaque]
pub open spec fn status_ok(
    nodes: Seq<Seq<char>>,
    start: int,
    vis: Seq<bool>,
    sv: Seq<(Seq<char>, TaskStatus)>,
    old_sv: Seq<(Seq<char>, TaskStatus)>,
) -> bool {
    &&& keys_distinct(sv)
    &&& forall|v: int|
        0 <= v < nodes.len() ==> #[trigger] lookup(sv, nodes[v]) == if vis[v] && v != start && status_of(
            old_sv,
            nodes[v],
        ) == TaskStatus::Pending {
            Some(TaskStatus::Blocked)
        } else {
            lookup(old_sv, nodes[v])
        }
    &&& forall|k: Seq<char>| !nodes.contains(k) ==> #[trigger] lookup(sv, k) == lookup(old_sv, k)
}

/// The state of the search from `start`, expanding `u` (or none, at -1).
pub open spec fn search_ok(
    es: Seq<(int, int)>,
    nodes: Seq<Seq<char>>,
    start: int,
    vis: Seq<bool>,
    stack: Seq<usize>,
    vset: Set<int>,
    sv: Seq<(Seq<char>, TaskStatus)>,
    old_sv: Seq<(Seq<char>, TaskStatus)>,
    u: int,
) -> bool {
    &&& vis_ok(nodes.len() as int, start, vis, vset)
    &&& reach_ok(es, nodes.len() as int, start, vis)
    &&& stack_ok(nodes.len() as int, vis, stack)
    &&& closed_ok(es, nodes.len() as int, vis, stack, u)
    &&& status_ok(nodes, start, vis, sv, old_sv)
}

/// The search starts with `start` visited and on the stack, statuses untouched.
proof fn lemma_search_init(
    es: Seq<(int, int)>,
    nodes: Seq<Seq<char>>,
    start: int,
    vis: Seq<bool>,
    sv: Seq<(Seq<char>, TaskStatus)>,
)
    requires
        0 <= start < nodes.len(),
        start <= usize::MAX,
        vis.len() == nodes.len(),
        forall|v: int| 0 <= v < nodes.len() ==> vis[v] == (v == start),
        keys_distinct(sv),
    ensures
        search_ok(es, nodes, start, vis, seq![start as usize], set![start], sv, sv, -1),
{
    reveal(vis_ok);
    reveal(reach_ok);
    reveal(stack_ok);
    reveal(closed_ok);
    reveal(status_ok);
    let n = nodes.len() as int;
    vstd::set_lib::lemma_int_range(0, n);
    assert(set![start].subset_of(vstd::set_lib::set_int_range(0, n)));
    vstd::set_lib::lemma_len_subset(set![start], vstd::set_lib::set_int_range(0, n));
    let st = seq![start as usize];
    assert(st[0] == start as usize);
    assert forall|v: int| 0 <= v < n && v != -1 && #[trigger] vis[v] && !st.contains(v as usize) implies closed(
        es,
        vis,
        n,
        v,
    ) by {
        assert(v == start);
        assert(st[0] == v as usize);
    }
    assert(closed_ok(es, n, vis, st, -1));
    assert(stack_ok(n, vis, st));
    assert(vis_ok(n, start, vis, set![start]));
}

/// Popping `u` from the stack: it is visited, and reachable unless it is `start`.
#[verifier::rlimit(60)]
#[verifier::spinoff_prover]
proof fn lemma_search_pop(
    es: Seq<(int, int)>,
    nodes: Seq<Seq<char>>,
    start: int,
    vis: Seq<bool>,
    stack: Seq<usize>,
    u: usize,
    vset: Set<int>,
    sv: Seq<(Seq<char>, TaskStatus)>,
    old_sv: Seq<(Seq<char>, TaskStatus)>,
)
    requires
        search_ok(es, nodes, start, vis, stack.push(u), vset, sv, old_sv, -1),
        vis.len() == nodes.len(),
        nodes.len() <= usize::MAX,
    ensures
        search_ok(es, nodes, start, vis, stack, vset, sv, old_sv, u as int),
        u < nodes.len(),
        vis[u as int],
        u != start ==> reaches(es, start, u as int),
{
    reveal(stack_ok);
    reveal(closed_ok);
    reveal(reach_ok);
    let n = nodes.len() as int;
    let full = stack.push(u);
    assert(full[stack.len() as int] == u);
    assert(u < n && vis[u as int]);
    assert forall|v: int| 0 <= v < n && v != u && #[trigger] vis[v] && !stack.contains(v as usize) implies closed(
        es,
        vis,
        n,
        v,
    ) by {
        if full.contains(v as usize) {
            let j = choose|j: int| 0 <= j < full.len() && full[j] == v as usize;
            if j < stack.len() {
                assert(stack[j] == v as usize);
            }
        }
    }
    assert forall|j: int| 0 <= j < stack.len() implies (#[trigger] stack[j]) < n && vis[stack[j] as int] by {
        assert(full[j] == stack[j]);
    }
}

/// Visiting a successor `w` of `u` keeps the visited set in order.
proof fn lemma_visit_vis(n: int, start: int, vis: Seq<bool>, vset: Set<int>, w: usize)
    requires
        vis_ok(n, start, vis, vset),
        w < n,
        !vis[w as int],
    ensures
        vis_ok(n, start, vis.update(w as int, true), vset.insert(w as int)),
        vset.insert(w as int).len() == vset.len() + 1,
{
    reveal(vis_ok);
    let vset2 = vset.insert(w as int);
    assert(!vset.contains(w as int));
    vstd::set_lib::lemma_int_range(0, n);
    assert(vset2.subset_of(vstd::set_lib::set_int_range(0, n)));
    vstd::set_lib::lemma_len_subset(vset2, vstd::set_lib::set_int_range(0, n));
}

/// Visiting a successor `w` of `u`, itself reached from `start`, keeps every
/// visited node reachable.
#[verifier::rlimit(60)]
#[verifier::spinoff_prover]
proof fn lemma_visit_reach(es: Seq<(int, int)>, n: int, start: int, vis: Seq<bool>, u: usize, w: usize)
    requires
        reach_ok(es, n, start, vis),
        vis.len() == n,
        w < n,
        es.contains((u as int, w as int)),
        u != start ==> reaches(es, start, u as int),
        w as int != start,
    ensures
        reach_ok(es, n, start, vis.update(w as int, true)),
{
    reveal(reach_ok);
    assert(reaches(es, start, w as int)) by {
        if u == start {
            let p = seq![start, w as int];
            assert(p[0] == start);
            assert(is_path(es, p));
        } else {
            let p = choose|p: Seq<int>| #[trigger] is_path(es, p) && p[0] == start && p.last() == u as int;
            lemma_path_extend(es, p, w as int);
        }
    }
    let vis2 = vis.update(w as int, true);
    assert forall|v: int| 0 <= v < n && #[trigger] vis2[v] && v != start implies reaches(es, start, v) by {
        if v != w {
            assert(vis[v]);
        }
    }
}

/// Pushing the newly visited `w` keeps the stack and the closed nodes in order.
proof fn lemma_visit_stack(es: Seq<(int, int)>, n: int, vis: Seq<bool>, stack: Seq<usize>, u: usize, w: usize)
    requires
        stack_ok(n, vis, stack),
        closed_ok(es, n, vis, stack, u as int),
        vis.len() == n,
        w < n,
    ensures
        stack_ok(n, vis.update(w as int, true), stack.push(w)),
        closed_ok(es, n, vis.update(w as int, true), stack.push(w), u as int),
{
    reveal(stack_ok);
    reveal(closed_ok);
    let vis2 = vis.update(w as int, true);
    let stack2 = stack.push(w);
    assert forall|j: int| 0 <= j < stack2.len() implies (#[trigger] stack2[j]) < n && vis2[stack2[j] as int] by {
        if j < stack.len() {
            assert(stack2[j] == stack[j]);
            assert(stack[j] < n && vis[stack[j] as int]);
        } else {
            assert(stack2[j] == w);
        }
    }
    assert forall|v: int| 0 <= v < n && v != u && #[trigger] vis2[v] && !stack2.contains(v as usize) implies closed(
        es,
        vis2,
        n,
        v,
    ) by {
        assert(v != w) by {
            assert(stack2[stack.len() as int] == w);
        }
        assert(!stack.contains(v as usize)) by {
            if stack.contains(v as usize) {
                let j = choose|j: int| 0 <= j < stack.len() && stack[j] == v as usize;
                assert(stack2[j] == v as usize);
            }
        }
        assert(vis[v]);
        assert(closed(es, vis, n, v));
        assert forall|e: int| 0 <= e < es.len() && (#[trigger] es[e]).0 == v implies 0 <= es[e].1 < n && vis2[es[e].1] by {
            assert(vis[es[e].1]);
        }
    }
}

/// Blocking the newly visited `w` when it is pending keeps the statuses in order.
proof fn lemma_visit_status(
    nodes: Seq<Seq<char>>,
    start: int,
    vis: Seq<bool>,
    sv: Seq<(Seq<char>, TaskStatus)>,
    sv2: Seq<(Seq<char>, TaskStatus)>,
    old_sv: Seq<(Seq<char>, TaskStatus)>,
    w: usize,
)
    requires
        status_ok(nodes, start, vis, sv, old_sv),
        vis.len() == nodes.len(),
        names_distinct(nodes),
        w < nodes.len(),
        !vis[w as int],
        w as int != start,
        status_of(sv, nodes[w as int]) == TaskStatus::Pending ==> sv2 == assoc_insert(
            sv,
            nodes[w as int],
            TaskStatus::Blocked,
        ),
        status_of(sv, nodes[w as int]) != TaskStatus::Pending ==> sv2 == sv,
    ensures
        status_ok(nodes, start, vis.update(w as int, true), sv2, old_sv),
{
    reveal(status_ok);
    let n = nodes.len() as int;
    let wn = nodes[w as int];
    let vis2 = vis.update(w as int, true);
    assert(lookup(sv, wn) == lookup(old_sv, wn));
    if status_of(sv, wn) == TaskStatus::Pending {
        lemma_lookup_insert(sv, wn, TaskStatus::Blocked);
        assert forall|v: int| 0 <= v < n && v != w implies nodes[v] != wn by {
            if v < w {
                assert(nodes[v] != nodes[w as int]);
            } else {
                assert(nodes[w as int] != nodes[v]);
            }
        }
        assert forall|k: Seq<char>| !nodes.contains(k) implies k != wn by {
            if k == wn {
                assert(nodes[w as int] == wn);
            }
        }
    }
    assert forall|v: int| 0 <= v < n implies #[trigger] lookup(sv2, nodes[v]) == if vis2[v] && v != start && status_of(
        old_sv,
        nodes[v],
    ) == TaskStatus::Pending {
        Some(TaskStatus::Blocked)
    } else {
        lookup(old_sv, nodes[v])
    } by {
        if v != w {
            assert(vis2[v] == vis[v]);
            assert(lookup(sv, nodes[v]) == if vis[v] && v != start && status_of(old_sv, nodes[v]) == TaskStatus::Pending {
                Some(TaskStatus::Blocked)
            } else {
                lookup(old_sv, nodes[v])
            });
            if status_of(sv, wn) == TaskStatus::Pending {
                assert(nodes[v] != wn);
            }
        }
    }
    assert forall|k: Seq<char>| !nodes.contains(k) implies #[trigger] lookup(sv2, k) == lookup(old_sv, k) by {
        assert(lookup(sv, k) == lookup(old_sv, k));
    }
}

/// Once every successor of `u` is visited, `u` is closed too.
proof fn lemma_search_close(
    es: Seq<(int, int)>,
    n: int,
    vis: Seq<bool>,
    stack: Seq<usize>,
    u: usize,
    succ: Seq<usize>,
)
    requires
        closed_ok(es, n, vis, stack, u as int),
        vis.len() == n,
        forall|m: int| 0 <= m < succ.len() ==> vis[#[trigger] succ[m] as int] && succ[m] < n,
        forall|e: int|
            0 <= e < es.len() && (#[trigger] es[e]).0 == u ==> exists|k: int|
                0 <= k < succ.len() && succ[k] as int == es[e].1,
    ensures
        closed_ok(es, n, vis, stack, -1),
{
    reveal(closed_ok);
    assert forall|e: int| 0 <= e < es.len() && (#[trigger] es[e]).0 == u implies 0 <= es[e].1 < n && vis[es[e].1] by {
        let m = choose|m: int| 0 <= m < succ.len() && succ[m] as int == es[e].1;
        assert(vis[succ[m] as int]);
    }
    assert(closed(es, vis, n, u as int));
}

/// When the stack is empty, the visited nodes are `start` and those reachable from it.
#[verifier::rlimit(60)]
#[verifier::spinoff_prover]
proof fn lemma_search_done(
    es: Seq<(int, int)>,
    nodes: Seq<Seq<char>>,
    start: int,
    vis: Seq<bool>,
    vset: Set<int>,
    sv: Seq<(Seq<char>, TaskStatus)>,
    old_sv: Seq<(Seq<char>, TaskStatus)>,
)
    requires
        search_ok(es, nodes, start, vis, Seq::empty(), vset, sv, old_sv, -1),
    ensures
        keys_distinct(sv),
        forall|v: int|
            0 <= v < nodes.len() ==> #[trigger] lookup(sv, nodes[v]) == if blocks(es, start, v, status_of(old_sv, nodes[v])) {
                Some(TaskStatus::Blocked)
            } else {
                lookup(old_sv, nodes[v])
            },
        forall|k: Seq<char>| !nodes.contains(k) ==> #[trigger] lookup(sv, k) == lookup(old_sv, k),
{
    reveal(vis_ok);
    reveal(reach_ok);
    reveal(closed_ok);
    reveal(status_ok);
    let n = nodes.len() as int;
    assert forall|x: int| 0 <= x < n && vis[x] implies #[trigger] closed(es, vis, n, x) by {
        assert(!Seq::<usize>::empty().contains(x as usize));
    }
    assert forall|v: int| 0 <= v < n && v != start && reaches(es, start, v) implies vis[v] by {
        let p = choose|p: Seq<int>| #[trigger] is_path(es, p) && p[0] == start && p.last() == v;
        lemma_closed_path(es, vis, n, p, p.len() - 1);
    }
    assert forall|v: int| 0 <= v < n implies #[trigger] lookup(sv, nodes[v]) == if blocks(
        es,
        start,
        v,
        status_of(old_sv, nodes[v]),
    ) {
        Some(TaskStatus::Blocked)
    } else {
        lookup(old_sv, nodes[v])
    } by {
        assert(lookup(sv, nodes[v]) == if vis[v] && v != start && status_of(old_sv, nodes[v]) == TaskStatus::Pending {
            Some(TaskStatus::Blocked)
        } else {
            lookup(old_sv, nodes[v])
        });
    }
}

/// Marks `Blocked` every pending task downstream of `failed_task` in the graph
/// (a search along outgoing edges); other tasks keep their status. Nothing
/// changes when `failed_task` is not in the index.
pub fn propagate_failure(
    failed_task: &str,
    graph: &Graph<String, (), Directed, u32>,
    name_to_idx: &Vec<(String, usize)>,
    statuses: &mut Vec<(String, TaskStatus)>,
)
    requires
        keys_distinct(kv_view(old(statuses)@)),
        keys_distinct(kv_view(name_to_idx@)),
        forall|i: int| 0 <= i < name_to_idx@.len() ==> (#[trigger] name_to_idx@[i]).1 < dag_nodes(*graph).len(),
        names_distinct(dag_nodes(*graph)),
    ensures
        keys_distinct(kv_view(final(statuses)@)),
        match lookup(kv_view(name_to_idx@), failed_task@) {
            None => final(statuses)@ == old(statuses)@,
            Some(start) => {
                &&& forall|v: int|
                    0 <= v < dag_nodes(*graph).len() ==> #[trigger] lookup(
                        kv_view(final(statuses)@),
                        dag_nodes(*graph)[v],
                    ) == if blocks(
                        dag_edges(*graph),
                        start as int,
                        v,
                        status_of(kv_view(old(statuses)@), dag_nodes(*graph)[v]),
                    ) {
                        Some(TaskStatus::Blocked)
                    } else {
                        lookup(kv_view(old(statuses)@), dag_nodes(*graph)[v])
                    }
                &&& forall|k: Seq<char>|
                    !dag_nodes(*graph).contains(k) ==> #[trigger] lookup(kv_view(final(statuses)@), k) == lookup(
                        kv_view(old(statuses)@),
                        k,
                    )
            },
        },
{
    let start = match assoc_get(name_to_idx, failed_task) {
        Some(s) => s,
        None => {
            return;
        },
    };
    proof {
        crate::assoc::lemma_lookup(kv_view(name_to_idx@), failed_task@);
        let j = key_index(kv_view(name_to_idx@), failed_task@);
        assert(kv_view(name_to_idx@)[j] == (name_to_idx@[j].0@, name_to_idx@[j].1));
    }
    let ghost nodes = dag_nodes(*graph);
    let ghost es = dag_edges(*graph);
    let ghost old_sv = kv_view(statuses@);
    let n = dag_node_count(graph);
    let mut visited: Vec<bool> = Vec::new();
    let mut i: usize = 0;
    while i < n
        invariant
            i <= n,
            visited@.len() == i,
            forall|j: int| 0 <= j < i ==> !visited@[j],
        decreases n - i,
    {
        visited.push(false);
        i = i + 1;
    }
    visited.set(start, true);
    let mut stack: Vec<usize> = Vec::new();
    stack.push(start);
    let ghost mut vset: Set<int> = set![start as int];
    proof {
        assert(stack@ =~= seq![start]);
        lemma_search_init(es, nodes, start as int, visited@, old_sv);
    }
    while stack.len() > 0
        invariant
            n == nodes.len(),
            nodes == dag_nodes(*graph),
            es == dag_edges(*graph),
            names_distinct(nodes),
            visited@.len() == n,
            vset.finite(),
            vset.len() <= n,
            search_ok(es, nodes, start as int, visited@, stack@, vset, kv_view(statuses@), old_sv, -1),
        decreases n - vset.len(), stack.len(),
    {
        let ghost full = stack@;
        let u = stack.pop().unwrap();
        proof {
            assert(full == stack@.push(u));
            lemma_search_pop(es, nodes, start as int, visited@, stack@, u, vset, kv_view(statuses@), old_sv);
        }
        let ghost vset0 = vset;
        let ghost stack0 = stack@;
        let succ = dag_successors(graph, u);
        let mut k: usize = 0;
        while k < succ.len()
            invariant
                n == nodes.len(),
                nodes == dag_nodes(*graph),
                es == dag_edges(*graph),
                names_distinct(nodes),
                u < n,
                visited@.len() == n,
                vset.finite(),
                vset.len() <= n,
                visited@[u as int],
                u != start ==> reaches(es, start as int, u as int),
                k <= succ@.len(),
                forall|m: int|
                    0 <= m < succ@.len() ==> (#[trigger] succ@[m]) < n && es.contains((u as int, succ@[m] as int)),
                forall|m: int| 0 <= m < k ==> visited@[#[trigger] succ@[m] as int],
                search_ok(es, nodes, start as int, visited@, stack@, vset, kv_view(statuses@), old_sv, u as int),
                vset0.len() <= vset.len(),
                vset.len() == vset0.len() ==> stack@ == stack0,
            decreases succ.len() - k,
        {
            let w = succ[k];
            if !visited[w] {
                let ghost vis_before = visited@;
                let ghost sv_before = kv_view(statuses@);
                let ghost stack_before = stack@;
                let ghost vset_before = vset;
                proof {
                    reveal(vis_ok);
                    reveal(status_ok);
                }
                visited.set(w, true);
                let wn = dag_node_name(graph, w);
                let st = status_exec(statuses, wn.as_str());
                if st == TaskStatus::Pending {
                    assoc_set(statuses, wn.as_str(), TaskStatus::Blocked);
                }
                stack.push(w);
                proof {
                    let n_i = n as int;
                    lemma_visit_vis(n_i, start as int, vis_before, vset_before, w);
                    lemma_visit_reach(es, n_i, start as int, vis_before, u, w);
                    lemma_visit_stack(es, n_i, vis_before, stack_before, u, w);
                    lemma_visit_status(nodes, start as int, vis_before, sv_before, kv_view(statuses@), old_sv, w);
                    vset = vset.insert(w as int);
                    assert(visited@ == vis_before.update(w as int, true));
                    assert(stack@ == stack_before.push(w));
                }
            }
            k = k + 1;
        }
        proof {
            lemma_search_close(es, n as int, visited@, stack@, u, succ@);
        }
    }
    proof {
        assert(stack@ =~= Seq::<usize>::empty());
        lemma_search_done(es, nodes, start as int, visited@, vset, kv_view(statuses@), old_sv);
    }
}

} // verus!
