//! The task graph as a `daggy` graph: tasks as nodes in name order, an edge
//! from each dependency to the task that needs it, no cycles.

use vstd::prelude::*;
use daggy::{Dag, NodeIndex};
use crate::graph::{
    ascii_text, dag_edges, deps_edges, dot_text, edge_views, hashes_labelled, last_named, names_of,
    node_views, sorted_leaves, DagVisualizer, NodeStyle,
};
use crate::order::is_stable_sort;
use crate::task::{Task, TaskView};
use crate::text::{push_str, string_of};

verus! {

/// A `daggy` graph of tasks with unit edge weights and `u32` indices. Its
/// contents are read through `dag_tasks` and `dag_edge_list`, and changed
/// only by the calls below.
#[verifier::external_body]
pub struct TaskDag {
    graph: Dag<Task, (), u32>,
}

/// The tasks a graph holds, in node index order.
pub uninterp spec fn dag_tasks(d: TaskDag) -> Seq<TaskView>;

/// The edges a graph holds, as (from, to) node indices, in the order added.
pub uninterp spec fn dag_edge_list(d: TaskDag) -> Seq<(nat, nat)>;

/// A path through `edges`: at least two nodes, each step an edge.
pub open spec fn is_path(edges: Seq<(nat, nat)>, p: Seq<nat>) -> bool {
    p.len() >= 2 && forall|i: int| 0 <= i < p.len() - 1 ==> #[trigger] edges.contains((p[i], p[i + 1]))
}

/// Some path leads from `from` to `to`.
pub open spec fn reachable(edges: Seq<(nat, nat)>, from: nat, to: nat) -> bool {
    exists|p: Seq<nat>| #[trigger] is_path(edges, p) && p[0] == from && p.last() == to
}

/// An edge `a -> b` closes a cycle: it is a loop, or `b` already reaches
/// `a`.
pub open spec fn would_cycle(edges: Seq<(nat, nat)>, a: nat, b: nat) -> bool {
    a == b || reachable(edges, b, a)
}

/// Calls `Dag::new`: an empty graph.
#[verifier::external_body]
fn dag_new() -> (d: TaskDag)
    ensures
        dag_tasks(d) == Seq::<TaskView>::empty(),
        dag_edge_list(d) == Seq::<(nat, nat)>::empty(),
{
    TaskDag { graph: Dag::new() }
}

/// Calls `Dag::add_node`: the task becomes the last node, its index the old
/// node count. It panics at the index type's limit, which `requires` keeps
/// out.
#[verifier::external_body]
fn dag_add_node(d: &mut TaskDag, t: Task) -> (r: usize)
    requires
        dag_tasks(*old(d)).len() < u32::MAX,
    ensures
        dag_tasks(*final(d)) == dag_tasks(*old(d)).push(t@),
        dag_edge_list(*final(d)) == dag_edge_list(*old(d)),
        r == dag_tasks(*old(d)).len(),
{
    d.graph.add_node(t).index()
}

/// Calls `Dag::add_edge` with the unit weight. When the edge would close a
/// cycle it is refused, and the refusal's `Debug` text comes back (`Some`);
/// otherwise it is added at the end of the edge list (`None`). It panics for
/// a missing node or at the index type's edge limit, which `requires` keeps
/// out.
#[verifier::external_body]
fn dag_add_edge(d: &mut TaskDag, a: usize, b: usize) -> (refused: Option<String>)
    requires
        a < dag_tasks(*old(d)).len(),
        b < dag_tasks(*old(d)).len(),
        dag_edge_list(*old(d)).len() + 1 < u32::MAX,
    ensures
        refused is Some == would_cycle(dag_edge_list(*old(d)), a as nat, b as nat),
        refused matches Some(text) ==> text@ == "WouldCycle\n"@,
        refused is None ==> dag_edge_list(*final(d)) == dag_edge_list(*old(d)).push((a as nat, b as nat)),
        refused is Some ==> dag_edge_list(*final(d)) == dag_edge_list(*old(d)),
        dag_tasks(*final(d)) == dag_tasks(*old(d)),
{
    match d.graph.add_edge(NodeIndex::new(a), NodeIndex::new(b), ()) {
        Ok(_) => None,
        Err(e) => Some(format!("{:?}", e)),
    }
}

/// Calls `Dag::raw_nodes`, handing out each node's task in index order.
#[verifier::external_body]
fn dag_node_list(d: &TaskDag) -> (r: Vec<Task>)
    ensures
        node_views(r@) == dag_tasks(*d),
{
    d.graph.raw_nodes().iter().map(|n| n.weight.clone_task()).collect()
}

/// Adding `edges[..k]` in order: the edges kept, or the index of the first
/// that would close a cycle.
pub open spec fn insert_edges(edges: Seq<(nat, nat)>, k: nat) -> Result<Seq<(nat, nat)>, nat>
    decreases k,
{
    if k == 0 {
        Ok(Seq::empty())
    } else {
        match insert_edges(edges, (k - 1) as nat) {
            Err(j) => Err(j),
            Ok(acc) => if would_cycle(acc, edges[k - 1].0, edges[k - 1].1) {
                Err((k - 1) as nat)
            } else {
                Ok(acc.push(edges[k - 1]))
            },
        }
    }
}

pub proof fn lemma_insert_edges_len(edges: Seq<(nat, nat)>, k: nat)
    ensures
        insert_edges(edges, k) matches Ok(acc) ==> acc.len() <= k,
    decreases k,
{
    if k > 0 {
        lemma_insert_edges_len(edges, (k - 1) as nat);
    }
}

/// The tasks of `tasks` in the order `perm` lists them.
pub open spec fn permuted(tasks: Seq<TaskView>, perm: Seq<usize>) -> Seq<TaskView> {
    Seq::new(perm.len(), |k: int| tasks[perm[k] as int])
}

pub open spec fn cycle_message(task: Seq<char>) -> Seq<char> {
    "Failed to add edge to "@ + task + ": WouldCycle\n"@
}

/// What building the graph of `nodes` gives: every planned edge added, or
/// the message naming the task whose dependency edge would close a cycle.
pub open spec fn built(nodes: Seq<TaskView>, d: Result<TaskDag, Seq<char>>) -> bool {
    let edges = dag_edges(nodes, nodes.len());
    match insert_edges(edges, edges.len()) {
        Ok(acc) => d matches Ok(g) && dag_tasks(g) == nodes && dag_edge_list(g) == acc,
        Err(k) => d matches Err(m) && m == cycle_message(nodes[edges[k as int].1 as int].name),
    }
}

pub open spec fn built_view(r: Result<TaskDag, String>) -> Result<TaskDag, Seq<char>> {
    match r {
        Ok(g) => Ok(g),
        Err(m) => Err(m@),
    }
}

impl DagVisualizer {
    /// The graph of `tasks`: the tasks in stable name order, then each
    /// dependency edge in plan order, stopping at the first that would
    /// close a cycle.
    pub fn create_dag_from_tasks(tasks: Vec<Task>) -> (r: Result<TaskDag, String>)
        requires
            tasks.len() < u32::MAX,
            forall|perm: Seq<usize>|
                #[trigger] is_stable_sort(names_of(node_views(tasks@)), perm) ==> dag_edges(
                    permuted(node_views(tasks@), perm),
                    tasks.len() as nat,
                ).len() + 1 < u32::MAX,
        ensures
            exists|perm: Seq<usize>|
                #[trigger] is_stable_sort(names_of(node_views(tasks@)), perm) && built(
                    permuted(node_views(tasks@), perm),
                    built_view(r),
                ),
    {
        let ghost tv = node_views(tasks@);
        let n = tasks.len();
        let (nodes, edges) = DagVisualizer::plan_dag(tasks);
        let ghost perm = choose|perm: Seq<usize>|
            #[trigger] is_stable_sort(names_of(tv), perm) && nodes@.len() == tv.len() && forall|k: int|
                0 <= k < nodes@.len() ==> (#[trigger] nodes@[k])@ == tv[perm[k] as int];
        let ghost nv = node_views(nodes@);
        assert(nv =~= permuted(tv, perm));
        let ghost ev = edge_views(edges@);
        assert(ev.len() + 1 < u32::MAX);
        let mut dag = dag_new();
        let mut i: usize = 0;
        while i < nodes.len()
            invariant
                i <= nodes.len(),
                nodes.len() == n,
                n < u32::MAX,
                nv == node_views(nodes@),
                dag_tasks(dag) == nv.take(i as int),
                dag_edge_list(dag) == Seq::<(nat, nat)>::empty(),
            decreases nodes.len() - i,
        {
            let t = nodes[i].clone_task();
            dag_add_node(&mut dag, t);
            assert(nv.take(i + 1) =~= nv.take(i as int).push(nv[i as int]));
            i = i + 1;
        }
        assert(nv.take(i as int) =~= nv);
        proof {
            lemma_dag_edges_in_range(nv, nv.len());
            assert forall|m: int| 0 <= m < edges.len() implies (#[trigger] edges@[m]).0 < nv.len()
                && edges@[m].1 < nv.len() by {
                assert(ev[m] == (edges@[m].0 as nat, edges@[m].1 as nat));
            }
        }
        let mut k: usize = 0;
        while k < edges.len()
            invariant
                k <= edges.len(),
                ev == edge_views(edges@),
                ev.len() + 1 < u32::MAX,
                dag_tasks(dag) == nv,
                nv == node_views(nodes@),
                tv == node_views(tasks@),
                is_stable_sort(names_of(tv), perm),
                nv == permuted(tv, perm),
                ev == dag_edges(nv, nv.len()),
                forall|m: int| 0 <= m < edges.len() ==> (#[trigger] edges@[m]).0 < nv.len() && edges@[m].1 < nv.len(),
                insert_edges(ev, k as nat) == Ok::<Seq<(nat, nat)>, nat>(dag_edge_list(dag)),
            decreases edges.len() - k,
        {
            let (a, b) = edges[k];
            proof {
                lemma_insert_edges_len(ev, k as nat);
            }
            assert(ev[k as int] == (a as nat, b as nat));
            if let Some(refusal) = dag_add_edge(&mut dag, a, b) {
                let mut msg: Vec<char> = Vec::new();
                push_str(&mut msg, "Failed to add edge to ");
                push_str(&mut msg, nodes[b].name.as_str());
                push_str(&mut msg, ": ");
                push_str(&mut msg, refusal.as_str());
                assert(nv[b as int].name == nodes@[b as int].name@);
                proof {
                    lemma_insert_edges_stops(ev, (k + 1) as nat, ev.len());
                }
                proof {
                    reveal_strlit(": ");
                    reveal_strlit("WouldCycle\n");
                    reveal_strlit(": WouldCycle\n");
                }
                assert(msg@ =~= cycle_message(nv[ev[k as int].1 as int].name));
                let m = string_of(msg.as_slice());
                assert(built(nv, built_view(Err(m))));
                return Err(m);
            }
            k = k + 1;
        }
        assert(edges@.len() == ev.len());
        assert(built(nv, built_view(Ok(dag))));
        Ok(dag)
    }
}

proof fn lemma_last_named_in_range(nodes: Seq<TaskView>, name: Seq<char>, n: nat)
    requires
        n <= nodes.len(),
    ensures
        last_named(nodes, name, n) matches Some(d) ==> d < n,
    decreases n,
{
    if n > 0 {
        lemma_last_named_in_range(nodes, name, (n - 1) as nat);
    }
}

proof fn lemma_deps_edges_in_range(nodes: Seq<TaskView>, target: nat, deps: Seq<Seq<char>>, k: nat)
    requires
        target < nodes.len(),
    ensures
        forall|m: int| 0 <= m < deps_edges(nodes, target, deps, k).len() ==> (#[trigger] deps_edges(nodes, target, deps, k)[m]).0
            < nodes.len() && deps_edges(nodes, target, deps, k)[m].1 < nodes.len(),
    decreases k,
{
    if k > 0 && k <= deps.len() {
        lemma_deps_edges_in_range(nodes, target, deps, (k - 1) as nat);
        lemma_last_named_in_range(nodes, deps[k - 1], nodes.len());
        let a = deps_edges(nodes, target, deps, (k - 1) as nat);
        let b: Seq<(nat, nat)> = match last_named(nodes, deps[k - 1], nodes.len()) {
            Some(d) => seq![(d, target)],
            None => Seq::empty(),
        };
        assert(deps_edges(nodes, target, deps, k) == a + b);
        assert forall|m: int| 0 <= m < (a + b).len() implies (#[trigger] (a + b)[m]).0 < nodes.len() && (a
            + b)[m].1 < nodes.len() by {
            if m >= a.len() {
                assert((a + b)[m] == b[m - a.len()]);
            }
        }
    }
}

/// Every planned edge joins two of the nodes.
proof fn lemma_dag_edges_in_range(nodes: Seq<TaskView>, n: nat)
    requires
        n <= nodes.len(),
    ensures
        forall|m: int| 0 <= m < dag_edges(nodes, n).len() ==> (#[trigger] dag_edges(nodes, n)[m]).0 < nodes.len()
            && dag_edges(nodes, n)[m].1 < nodes.len(),
    decreases n,
{
    if n > 0 {
        lemma_dag_edges_in_range(nodes, (n - 1) as nat);
        lemma_deps_edges_in_range(nodes, (n - 1) as nat, nodes[n - 1].task_deps, nodes[n - 1].task_deps.len());
        let a = dag_edges(nodes, (n - 1) as nat);
        let b = deps_edges(nodes, (n - 1) as nat, nodes[n - 1].task_deps, nodes[n - 1].task_deps.len());
        assert forall|m: int| 0 <= m < (a + b).len() implies (#[trigger] (a + b)[m]).0 < nodes.len() && (a
            + b)[m].1 < nodes.len() by {
            if m >= a.len() {
                assert((a + b)[m] == b[m - a.len()]);
            }
        }
    }
}

impl DagVisualizer {
    /// The graph as Graphviz DOT text, its nodes in index order.
    pub fn generate_dot(&self, dag: &TaskDag) -> (r: Result<String, String>)
        requires
            self.options.style == NodeStyle::Simple || hashes_labelled(dag_tasks(*dag)),
        ensures
            r matches Ok(text) && text@ == dot_text(self.options, dag_tasks(*dag)),
    {
        let nodes = dag_node_list(dag);
        self.dot_of_nodes(&nodes)
    }

    /// The graph as a tree for the terminal, from the tasks nothing depends
    /// on.
    pub fn generate_ascii(&self, dag: &TaskDag) -> (r: Result<String, String>)
        requires
            dag_tasks(*dag).len() <= usize::MAX / 4,
        ensures
            r matches Ok(text) && exists|order: Seq<nat>|
                #[trigger] sorted_leaves(dag_tasks(*dag), order) && text@ == ascii_text(dag_tasks(*dag), order),
    {
        let nodes = dag_node_list(dag);
        self.ascii_of_nodes(&nodes)
    }
}

pub proof fn lemma_insert_edges_stops(edges: Seq<(nat, nat)>, k: nat, n: nat)
    requires
        k <= n,
        insert_edges(edges, k) is Err,
    ensures
        insert_edges(edges, n) == insert_edges(edges, k),
    decreases n - k,
{
    if k < n {
        lemma_insert_edges_stops(edges, k, (n - 1) as nat);
    }
}

} // verus!
