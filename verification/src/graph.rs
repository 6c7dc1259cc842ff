//! The direct call graph: building it from module bytes, reachability, and
//! the cumulative unique size reachable from a function.

use std::collections::{HashMap, HashSet};

use vstd::prelude::*;

use crate::model::{callees_of, CallGraph, FunctionInfo, WasmModuleInfo};
use crate::module::saturate_u64;
use crate::walk::{body_indices, scan_view, walk_module, walk_result, WalkOptions, WalkView, WasmError};

verus! {

broadcast use vstd::std_specs::hash::group_hash_axioms;

/// `g` is the call graph the walk `v` collected: one entry per recorded
/// body, holding its direct calls in order and its `call_indirect` presence.
pub open spec fn graph_matches_walk(g: CallGraph, v: WalkView) -> bool {
    &&& g.edges@.dom() == v.calls.dom()
    &&& g.has_indirect@.dom() == v.calls.dom()
    &&& v.calls.dom() == body_indices(v.bodies)
    &&& forall|k: u32| #[trigger] v.calls.contains_key(k) ==>
        g.edges@[k]@ == v.calls[k].0 && g.has_indirect@[k] == v.calls[k].1
}

/// `g` is the call graph of `d` by the payload walk of `d`.
pub open spec fn graph_from_walk(g: CallGraph, d: Seq<u8>) -> bool {
    match walk_result(d, false, false, true, None) {
        Some((v, _)) => graph_matches_walk(g, v),
        None => false,
    }
}

/// Build a direct call graph by scanning operators in each defined function body.
/// - Only direct `call` operators contribute edges
/// - `call_indirect` is recorded via `has_indirect` but no edges are added
///
/// Every defined function gets an entry in both maps; each body's entry is
/// `body_calls_of` its bytes (see `code_step`).
pub fn build_call_graph(bytes: &[u8]) -> (r: Result<CallGraph, WasmError>)
    ensures
        r is Ok <==> walk_result(bytes@, false, false, true, None) is Some,
        r matches Ok(g) ==> graph_from_walk(g, bytes@),
        r matches Ok(g) ==> g.edges@.dom() == g.has_indirect@.dom(),
        r matches Err(e) ==> !(e is FunctionNotFound),
{
    let opts = WalkOptions { exports: false, names: false, calls: true, target: None };
    match walk_module(bytes, &opts) {
        Err(e) => Err(e),
        Ok((scan, _)) => {
            proof {
                let v = scan_view(scan);
                assert(v.calls.dom() =~= scan.graph.edges@.dom());
                assert(graph_matches_walk(scan.graph, v));
            }
            Ok(scan.graph)
        },
    }
}

// ---------------------------------------------------------------------------
// Reachability

/// `p` is a path of direct calls: each element calls the next.
pub open spec fn is_call_path(edges: Map<u32, Vec<u32>>, p: Seq<u32>) -> bool {
    &&& p.len() >= 1
    &&& forall|i: int| 0 <= i < p.len() - 1 ==> callees_of(edges, #[trigger] p[i]).contains(p[i + 1])
}

/// `k` is reachable from `root` through direct calls (`root` reaches itself).
pub open spec fn reaches(edges: Map<u32, Vec<u32>>, root: u32, k: u32) -> bool {
    exists|p: Seq<u32>| #[trigger] is_call_path(edges, p) && p[0] == root && p.last() == k
}

/// The functions reachable from `root` through direct calls.
pub open spec fn reachable_set(edges: Map<u32, Vec<u32>>, root: u32) -> Set<u32> {
    Set::new(|k: u32| reaches(edges, root, k))
}

/// Every call target recorded in the edge map.
pub open spec fn call_targets(edges: Map<u32, Vec<u32>>) -> Set<u32> {
    Set::new(|k: u32| exists|s: u32| edges.contains_key(s) && #[trigger] edges[s]@.contains(k))
}

/// The code size of function `k` by the last entry of `fs` with that index;
/// 0 when no defined function has that index (imports have no size).
pub open spec fn size_of_index(fs: Seq<FunctionInfo>, k: u32) -> nat
    decreases fs.len(),
{
    if fs.len() == 0 {
        0
    } else if fs.last().index == k {
        fs.last().code_size as nat
    } else {
        size_of_index(fs.drop_last(), k)
    }
}

/// `size_of_index` as a map-shaped lookup: whether some entry has index `k`.
pub open spec fn has_index(fs: Seq<FunctionInfo>, k: u32) -> bool {
    exists|i: int| 0 <= i < fs.len() && #[trigger] fs[i].index == k
}

/// Sum of `f` over a sequence.
pub open spec fn sum_over(keys: Seq<u32>, f: spec_fn(u32) -> nat) -> nat
    decreases keys.len(),
{
    if keys.len() == 0 { 0 } else { sum_over(keys.drop_last(), f) + f(keys.last()) }
}

/// Sum of `f` over a finite set.
pub open spec fn set_sum(s: Set<u32>, f: spec_fn(u32) -> nat) -> nat {
    s.fold(0nat, |acc: nat, k: u32| acc + f(k))
}

/// The total size of a set of functions.
pub open spec fn size_total(fs: Seq<FunctionInfo>, s: Set<u32>) -> nat {
    set_sum(s, |k: u32| size_of_index(fs, k))
}

/// Summing over a sequence without duplicates is summing over its set.
pub proof fn lemma_set_sum_seq(keys: Seq<u32>, f: spec_fn(u32) -> nat)
    requires
        keys.no_duplicates(),
    ensures
        keys.to_set().finite(),
        set_sum(keys.to_set(), f) == sum_over(keys, f),
    decreases keys.len(),
{
    let g = |acc: nat, k: u32| acc + f(k);
    assert(vstd::set::fold::is_fun_commutative(g)) by {
        assert forall|a1: u32, a2: u32, b: nat| #[trigger] g(g(b, a2), a1) == g(g(b, a1), a2) by {}
    }
    if keys.len() == 0 {
        assert(keys.to_set() =~= Set::<u32>::empty());
        vstd::set::fold::lemma_fold_empty(0nat, g);
    } else {
        let init = keys.drop_last();
        let x = keys.last();
        assert(init.no_duplicates()) by {
            assert forall|i: int, j: int| 0 <= i < init.len() && 0 <= j < init.len() && i != j implies init[i] != init[j] by {
                assert(init[i] == keys[i] && init[j] == keys[j]);
            }
        }
        lemma_set_sum_seq(init, f);
        assert(!init.to_set().contains(x)) by {
            if init.to_set().contains(x) {
                let i = choose|i: int| 0 <= i < init.len() && init[i] == x;
                assert(keys[i] == keys[keys.len() - 1]);
            }
        }
        assert(keys.to_set() =~= init.to_set().insert(x)) by {
            assert(keys =~= init.push(x));
        }
        vstd::set::fold::lemma_fold_insert(init.to_set(), 0nat, g, x);
    }
}

/// Finitely many call targets are recorded in a map with a finite domain.
pub proof fn lemma_call_targets_finite(edges: Map<u32, Vec<u32>>)
    requires
        edges.dom().finite(),
    ensures
        call_targets(edges).finite(),
    decreases edges.dom().len(),
{
    if edges.dom().len() == 0 {
        assert(call_targets(edges) =~= Set::<u32>::empty()) by {
            assert forall|k: u32| !call_targets(edges).contains(k) by {
                if call_targets(edges).contains(k) {
                    let s = choose|s: u32| edges.contains_key(s) && #[trigger] edges[s]@.contains(k);
                    assert(edges.dom().contains(s));
                }
            }
        }
    } else {
        let s = edges.dom().choose();
        let rest = edges.remove(s);
        lemma_call_targets_finite(rest);
        let here = edges[s]@.to_set();
        assert(call_targets(edges).subset_of(call_targets(rest).union(here))) by {
            assert forall|k: u32| call_targets(edges).contains(k) implies call_targets(rest).union(here).contains(k) by {
                let t = choose|t: u32| edges.contains_key(t) && #[trigger] edges[t]@.contains(k);
                if t != s {
                    assert(rest.contains_key(t) && rest[t]@.contains(k));
                }
            }
        }
        vstd::set_lib::lemma_set_subset_finite(call_targets(rest).union(here), call_targets(edges));
    }
}

/// A set that holds `root` and every callee of its members holds every
/// node of every call path from `root`.
pub proof fn lemma_closed_holds_path(edges: Map<u32, Vec<u32>>, root: u32, v: Set<u32>, p: Seq<u32>)
    requires
        v.contains(root),
        forall|n: u32, c: u32| v.contains(n) && #[trigger] callees_of(edges, n).contains(c) ==> v.contains(c),
        is_call_path(edges, p),
        p[0] == root,
    ensures
        v.contains(p.last()),
    decreases p.len(),
{
    if p.len() > 1 {
        let q = p.drop_last();
        assert(is_call_path(edges, q)) by {
            assert forall|i: int| 0 <= i < q.len() - 1 implies callees_of(edges, #[trigger] q[i]).contains(q[i + 1]) by {
                assert(q[i] == p[i] && q[i + 1] == p[i + 1]);
            }
        }
        lemma_closed_holds_path(edges, root, v, q);
        assert(callees_of(edges, p[p.len() - 2]).contains(p[p.len() - 1]));
    }
}

/// Extending a path to `n` by a callee of `n` gives a path.
pub proof fn lemma_extend_path(edges: Map<u32, Vec<u32>>, root: u32, n: u32, c: u32)
    requires
        reaches(edges, root, n),
        callees_of(edges, n).contains(c),
    ensures
        reaches(edges, root, c),
{
    let p = choose|p: Seq<u32>| #[trigger] is_call_path(edges, p) && p[0] == root && p.last() == n;
    let q = p.push(c);
    assert(is_call_path(edges, q)) by {
        assert forall|i: int| 0 <= i < q.len() - 1 implies callees_of(edges, #[trigger] q[i]).contains(q[i + 1]) by {
            if i < p.len() - 1 {
                assert(q[i] == p[i] && q[i + 1] == p[i + 1]);
            }
        }
    }
    assert(q[0] == root && q.last() == c);
}

/// A function reaches itself.
pub proof fn lemma_reaches_self(edges: Map<u32, Vec<u32>>, root: u32)
    ensures
        reaches(edges, root, root),
{
    let p = seq![root];
    assert(is_call_path(edges, p));
}

/// The code sizes by index, built from the function list (the last entry
/// of an index wins).
fn size_map_of(functions: &Vec<FunctionInfo>) -> (m: HashMap<u32, u32>)
    ensures
        forall|k: u32| #[trigger] m@.contains_key(k) <==> has_index(functions@, k),
        forall|k: u32| m@.contains_key(k) ==> m@[k] as nat == size_of_index(functions@, k),
{
    let mut m: HashMap<u32, u32> = HashMap::new();
    let mut i: usize = 0;
    while i < functions.len()
        invariant
            i <= functions.len(),
            forall|k: u32| #[trigger] m@.contains_key(k) <==> has_index(functions@.take(i as int), k),
            forall|k: u32| m@.contains_key(k) ==> m@[k] as nat == size_of_index(functions@.take(i as int), k),
        decreases functions.len() - i,
    {
        let f = &functions[i];
        m.insert(f.index, f.code_size);
        proof {
            let pre = functions@.take(i as int);
            let post = functions@.take(i + 1);
            assert(post.drop_last() =~= pre);
            assert forall|k: u32| #[trigger] m@.contains_key(k) <==> has_index(post, k) by {
                if has_index(post, k) && k != f.index {
                    let j = choose|j: int| 0 <= j < post.len() && #[trigger] post[j].index == k;
                    assert(j < pre.len() && pre[j] == post[j]);
                }
                if has_index(pre, k) {
                    let j = choose|j: int| 0 <= j < pre.len() && #[trigger] pre[j].index == k;
                    assert(post[j] == pre[j]);
                }
                if k == f.index {
                    assert(post[i as int].index == k);
                }
            }
        }
        i = i + 1;
    }
    proof {
        assert(functions@.take(functions.len() as int) =~= functions@);
    }
    m
}

/// Appending an element that is not yet present keeps a sequence free of
/// duplicates and adds the element to its set.
pub proof fn lemma_push_fresh(order: Seq<u32>, x: u32)
    requires
        order.no_duplicates(),
        !order.to_set().contains(x),
    ensures
        order.push(x).no_duplicates(),
        order.push(x).to_set() == order.to_set().insert(x),
        order.push(x).drop_last() == order,
{
    let o2 = order.push(x);
    assert(o2.to_set() =~= order.to_set().insert(x)) by {
        assert forall|k: u32| o2.to_set().contains(k) <==> order.to_set().insert(x).contains(k) by {
            if order.to_set().contains(k) {
                let j = choose|j: int| 0 <= j < order.len() && order[j] == k;
                assert(o2[j] == k);
            }
            if o2.to_set().contains(k) && k != x {
                let j = choose|j: int| 0 <= j < o2.len() && o2[j] == k;
                assert(order[j] == k);
            }
            if k == x {
                assert(o2[order.len() as int] == x);
            }
        }
    }
    assert(o2.no_duplicates()) by {
        assert forall|i: int, j: int| 0 <= i < o2.len() && 0 <= j < o2.len() && i != j implies o2[i] != o2[j] by {
            if i < order.len() && j < order.len() {
                assert(o2[i] == order[i] && o2[j] == order[j]);
            } else if i < order.len() {
                assert(order.to_set().contains(order[i]));
            } else if j < order.len() {
                assert(order.to_set().contains(order[j]));
            }
        }
    }
    assert(o2.drop_last() =~= order);
}

/// Pushes, last child first, every child not yet visited.
fn push_unvisited_children(children: &Vec<u32>, visited: &HashSet<u32>, stack: &mut Vec<u32>)
    ensures
        old(stack)@.len() <= final(stack)@.len(),
        forall|i: int| 0 <= i < old(stack)@.len() ==> final(stack)@[i] == old(stack)@[i],
        forall|i: int| old(stack)@.len() <= i < final(stack)@.len() ==>
            children@.contains(#[trigger] final(stack)@[i]) && !visited@.contains(final(stack)@[i]),
        forall|c: u32| #[trigger] children@.contains(c) ==> visited@.contains(c) || final(stack)@.contains(c),
{
    let mut j: usize = children.len();
    while j > 0
        invariant
            j <= children.len(),
            old(stack)@.len() <= stack@.len(),
            forall|i: int| 0 <= i < old(stack)@.len() ==> stack@[i] == old(stack)@[i],
            forall|i: int| old(stack)@.len() <= i < stack@.len() ==>
                children@.contains(#[trigger] stack@[i]) && !visited@.contains(stack@[i]),
            forall|i: int| j <= i < children.len() ==>
                visited@.contains(#[trigger] children@[i]) || stack@.contains(children@[i]),
        decreases j,
    {
        j = j - 1;
        let c = children[j];
        let ghost before = stack@;
        if !visited.contains(&c) {
            stack.push(c);
            proof {
                assert(stack@[stack.len() - 1] == c);
            }
        }
        proof {
            assert forall|i: int| j <= i < children.len() implies
                visited@.contains(#[trigger] children@[i]) || stack@.contains(children@[i]) by {
                if i > j as int && !visited@.contains(children@[i]) {
                    let t = choose|t: int| 0 <= t < before.len() && before[t] == children@[i];
                    assert(stack@[t] == children@[i]);
                }
                if i == j as int && !visited@.contains(c) {
                    assert(stack@[stack.len() - 1] == c);
                }
            }
        }
    }
    proof {
        assert forall|c: u32| #[trigger] children@.contains(c) implies visited@.contains(c) || stack@.contains(c) by {
            let i = choose|i: int| 0 <= i < children@.len() && children@[i] == c;
        }
    }
}

/// The invariant of the depth-first visit in `unique_cumulative_size`.
pub open spec fn visit_inv(
    edges: Map<u32, Vec<u32>>,
    root: u32,
    universe: Set<u32>,
    visited: Set<u32>,
    stack: Seq<u32>,
) -> bool {
    &&& visited.subset_of(universe)
    &&& forall|i: int| 0 <= i < stack.len() ==> universe.contains(#[trigger] stack[i])
    &&& forall|k: u32| visited.contains(k) ==> reaches(edges, root, k)
    &&& forall|i: int| 0 <= i < stack.len() ==> reaches(edges, root, #[trigger] stack[i])
    &&& forall|n: u32, c: u32| visited.contains(n) && #[trigger] callees_of(edges, n).contains(c)
        ==> visited.contains(c) || stack.contains(c)
    &&& visited.contains(root) || stack.contains(root)
}

/// Popping an already visited node keeps the visit invariant.
pub proof fn lemma_pop_visited(
    edges: Map<u32, Vec<u32>>, root: u32, universe: Set<u32>, visited: Set<u32>, stack: Seq<u32>,
)
    requires
        stack.len() > 0,
        visit_inv(edges, root, universe, visited, stack),
        visited.contains(stack.last()),
    ensures
        visit_inv(edges, root, universe, visited, stack.drop_last()),
{
    let rest = stack.drop_last();
    assert forall|n: u32, c: u32| visited.contains(n) && #[trigger] callees_of(edges, n).contains(c)
        implies visited.contains(c) || rest.contains(c) by {
        if !visited.contains(c) {
            let j = choose|j: int| 0 <= j < stack.len() && stack[j] == c;
            assert(j < stack.len() - 1);
            assert(rest[j] == c);
        }
    }
    if !visited.contains(root) {
        let j = choose|j: int| 0 <= j < stack.len() && stack[j] == root;
        assert(rest[j] == root);
    }
    assert forall|i: int| 0 <= i < rest.len() implies universe.contains(#[trigger] rest[i]) && reaches(edges, root, rest[i]) by {
        assert(rest[i] == stack[i]);
    }
}

/// Visiting the top node and pushing its unvisited children keeps the
/// visit invariant.
pub proof fn lemma_visit_node(
    edges: Map<u32, Vec<u32>>, root: u32, universe: Set<u32>, visited: Set<u32>, stack: Seq<u32>,
    new_stack: Seq<u32>,
)
    requires
        stack.len() > 0,
        universe == call_targets(edges).insert(root),
        visit_inv(edges, root, universe, visited, stack),
        stack.drop_last().len() <= new_stack.len(),
        forall|i: int| 0 <= i < stack.drop_last().len() ==> new_stack[i] == stack.drop_last()[i],
        forall|i: int| stack.drop_last().len() <= i < new_stack.len() ==>
            callees_of(edges, stack.last()).contains(#[trigger] new_stack[i]),
        forall|c: u32| #[trigger] callees_of(edges, stack.last()).contains(c) ==>
            visited.insert(stack.last()).contains(c) || new_stack.contains(c),
    ensures
        visit_inv(edges, root, universe, visited.insert(stack.last()), new_stack),
{
    let node = stack.last();
    let rest = stack.drop_last();
    let v2 = visited.insert(node);
    assert(reaches(edges, root, node)) by {
        assert(stack[stack.len() - 1] == node);
    }
    assert(universe.contains(node)) by {
        assert(stack[stack.len() - 1] == node);
    }
    assert forall|i: int| 0 <= i < new_stack.len() implies
        universe.contains(#[trigger] new_stack[i]) && reaches(edges, root, new_stack[i]) by {
        if i < rest.len() {
            assert(new_stack[i] == stack[i]);
        } else {
            let c = new_stack[i];
            assert(callees_of(edges, node).contains(c));
            lemma_extend_path(edges, root, node, c);
            if edges.contains_key(node) {
                assert(edges[node]@.contains(c));
                assert(call_targets(edges).contains(c));
            } else {
                assert(callees_of(edges, node) =~= Seq::<u32>::empty());
            }
        }
    }
    assert forall|n: u32, c: u32| v2.contains(n) && #[trigger] callees_of(edges, n).contains(c)
        implies v2.contains(c) || new_stack.contains(c) by {
        if n != node && !visited.contains(c) && c != node {
            let j = choose|j: int| 0 <= j < stack.len() && stack[j] == c;
            assert(j < stack.len() - 1);
            assert(new_stack[j] == c);
        }
    }
    if !v2.contains(root) {
        let j = choose|j: int| 0 <= j < stack.len() && stack[j] == root;
        assert(j < stack.len() - 1);
        assert(new_stack[j] == root);
    }
}

/// Compute the cumulative unique size (in bytes) reachable from `root` via direct calls.
/// - Sizes are taken from `module` (defined functions only); imports have no size
/// - Each reachable function's size is counted at most once (no double counting)
/// Returns (total_bytes, unique_node_count); the total saturates at `u64::MAX`.
pub fn unique_cumulative_size(root: u32, module: &WasmModuleInfo, graph: &CallGraph) -> (r: (u64, usize))
    ensures
        reachable_set(graph.edges@, root).finite(),
        r.1 == reachable_set(graph.edges@, root).len(),
        r.0 == saturate_u64(size_total(module.functions@, reachable_set(graph.edges@, root))),
{
    let ghost edges = graph.edges@;
    let ghost fs = module.functions@;
    let ghost sizef = |k: u32| size_of_index(fs, k);
    let ghost universe = call_targets(edges).insert(root);
    proof {
        lemma_call_targets_finite(edges);
        lemma_reaches_self(edges, root);
    }
    let size_map = size_map_of(&module.functions);
    let mut visited: HashSet<u32> = HashSet::new();
    let mut stack: Vec<u32> = Vec::new();
    stack.push(root);
    proof {
        assert(stack@[0] == root);
    }
    let mut total: u64 = 0;
    let ghost mut order: Seq<u32> = Seq::empty();
    while stack.len() > 0
        invariant
            universe.finite(),
            universe == call_targets(edges).insert(root),
            edges == graph.edges@,
            fs == module.functions@,
            sizef == (|k: u32| size_of_index(fs, k)),
            forall|k: u32| #[trigger] size_map@.contains_key(k) <==> has_index(fs, k),
            forall|k: u32| size_map@.contains_key(k) ==> size_map@[k] as nat == size_of_index(fs, k),
            order.no_duplicates(),
            visited@ == order.to_set(),
            visit_inv(edges, root, universe, visited@, stack@),
            total == saturate_u64(sum_over(order, sizef)),
        decreases universe.difference(visited@).len(), stack.len(),
    {
        let ghost pre = stack@;
        let node = stack.pop().unwrap();
        proof {
            assert(pre.drop_last() =~= stack@);
            assert(pre.last() == node);
        }
        if visited.contains(&node) {
            proof {
                lemma_pop_visited(edges, root, universe, visited@, pre);
            }
            continue;
        }
        let ghost old_visited = visited@;
        visited.insert(node);
        proof {
            lemma_push_fresh(order, node);
            order = order.push(node);
            assert(universe.difference(visited@) =~= universe.difference(old_visited).remove(node));
            vstd::set_lib::lemma_set_subset_finite(universe, universe.difference(old_visited));
            assert(universe.contains(node)) by {
                assert(pre[pre.len() - 1] == node);
            }
            assert(universe.difference(old_visited).contains(node));
        }
        match size_map.get(&node) {
            Some(sz) => {
                total = total.saturating_add(*sz as u64);
            },
            None => {
                proof {
                    lemma_size_absent(fs, node);
                }
            },
        }
        let ghost mid = stack@;
        match graph.edges.get(&node) {
            Some(children) => {
                push_unvisited_children(children, &visited, &mut stack);
                proof {
                    assert(children@ == callees_of(edges, node));
                }
            },
            None => {
                proof {
                    assert(callees_of(edges, node) =~= Seq::<u32>::empty());
                }
            },
        }
        proof {
            lemma_visit_node(edges, root, universe, old_visited, pre, stack@);
        }
    }
    proof {
        let reach = reachable_set(edges, root);
        assert(visited@ =~= reach) by {
            assert forall|k: u32| reach.contains(k) implies visited@.contains(k) by {
                let p = choose|p: Seq<u32>| #[trigger] is_call_path(edges, p) && p[0] == root && p.last() == k;
                assert forall|n: u32, c: u32| visited@.contains(n) && #[trigger] callees_of(edges, n).contains(c)
                    implies visited@.contains(c) by {
                    assert(!stack@.contains(c));
                }
                if !visited@.contains(root) {
                    assert(stack@.contains(root));
                }
                lemma_closed_holds_path(edges, root, visited@, p);
            }
        }
        lemma_set_sum_seq(order, sizef);
        order.unique_seq_to_set();
    }
    (total, visited.len())
}

/// Without an entry of index `k`, `k` has size 0.
pub proof fn lemma_size_absent(fs: Seq<FunctionInfo>, k: u32)
    requires
        !has_index(fs, k),
    ensures
        size_of_index(fs, k) == 0,
    decreases fs.len(),
{
    if fs.len() > 0 {
        assert(fs.last().index != k) by {
            if fs.last().index == k {
                assert(fs[fs.len() - 1].index == k);
            }
        }
        assert(!has_index(fs.drop_last(), k)) by {
            if has_index(fs.drop_last(), k) {
                let i = choose|i: int| 0 <= i < fs.drop_last().len() && #[trigger] fs.drop_last()[i].index == k;
                assert(fs[i].index == k);
            }
        }
        lemma_size_absent(fs.drop_last(), k);
    }
}

} // verus!
