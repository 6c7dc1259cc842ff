//! The state and decisions of the interactive views: tabs, the shared
//! selection, the call/size/callers trees (filtering, node kinds, keyboard
//! focus), the function list (filtering and sorting) and the inspector
//! (cursor, byte ranges, source lines). Drawing stays with the front end.

use std::collections::{HashMap, HashSet};
use std::ops::Range;

use vstd::prelude::*;
use vstd::string::StrSliceExecFns;

use crate::hexdump::{find_function, find_index, lemma_find_index};
use crate::matching::{function_matches, function_matches_spec};
use crate::graph::{lemma_set_sum_seq, set_sum, sum_over};
use crate::model::{CallGraph, FunctionInfo, SourceLocation, WasmModuleInfo, WatLine};
use crate::output::{edge_count, lemma_take_contains, map_keys, value_count};
use crate::text::{dec_str, empty_string, push_dec, push_str};

verus! {

broadcast use vstd::std_specs::hash::group_hash_axioms;

/// Tab types for the docking layout.
#[derive(Clone, Copy, PartialEq, Eq, Debug, Structural)]
pub enum TabKind {
    /// Function list panel - shows all functions sorted by size.
    FunctionList,
    /// Call tree/graph panel - shows call relationships.
    CallTree,
    /// Callers tree panel - shows which functions call the selected function.
    Callers,
    /// Size tree panel - shows cumulative size breakdown.
    SizeTree,
    /// Inspector panel - shows WAT disassembly and source mapping.
    Inspector,
}

/// The display title of a tab.
pub open spec fn tab_title(t: TabKind) -> Seq<char> {
    match t {
        TabKind::FunctionList => "Functions"@,
        TabKind::CallTree => "Call Graph"@,
        TabKind::Callers => "Callers"@,
        TabKind::SizeTree => "Size Tree"@,
        TabKind::Inspector => "Inspector"@,
    }
}

impl TabKind {
    /// Returns the display title for this tab type.
    pub fn title(&self) -> (s: &'static str)
        ensures
            s@ == tab_title(*self),
    {
        match self {
            TabKind::FunctionList => "Functions",
            TabKind::CallTree => "Call Graph",
            TabKind::Callers => "Callers",
            TabKind::SizeTree => "Size Tree",
            TabKind::Inspector => "Inspector",
        }
    }
}

/// A node of a tree view, identified by its path from the root: each step
/// is a function index and the node's position among its parent's children.
pub type NodePath = Vec<(u32, usize)>;

/// Whether two paths are equal.
pub fn same_path(a: &NodePath, b: &NodePath) -> (r: bool)
    ensures
        r == (a@ == b@),
{
    if a.len() != b.len() {
        return false;
    }
    let mut i: usize = 0;
    while i < a.len()
        invariant
            i <= a.len() == b.len(),
            forall|j: int| 0 <= j < i ==> a@[j] == b@[j],
        decreases a.len() - i,
    {
        if a[i].0 != b[i].0 || a[i].1 != b[i].1 {
            return false;
        }
        i = i + 1;
    }
    proof {
        assert(a@ =~= b@);
    }
    true
}

/// A copy of a path.
pub fn copy_path(p: &NodePath) -> (r: NodePath)
    ensures
        r@ == p@,
{
    let mut r: NodePath = Vec::new();
    let mut i: usize = 0;
    while i < p.len()
        invariant
            i <= p.len(),
            r@ == p@.take(i as int),
        decreases p.len() - i,
    {
        r.push(p[i]);
        i = i + 1;
        proof {
            assert(r@ =~= p@.take(i as int));
        }
    }
    proof {
        assert(p@.take(p@.len() as int) =~= p@);
    }
    r
}

/// The views of a list of paths.
pub open spec fn paths_view(v: Seq<NodePath>) -> Seq<Seq<(u32, usize)>> {
    v.map_values(|p: NodePath| p@)
}

/// Centralized selection state - single source of truth for all views.
///
/// All panels read and write this struct; no panel keeps its own copy of
/// the selection.
pub struct SelectionState {
    /// Currently selected function by INDEX (not list position).
    /// Using index survives filter changes.
    pub selected_function: Option<u32>,
    /// Cursor position in WAT instruction list.
    pub instruction_cursor: usize,
    /// Expanded nodes in tree views, identified by path from root, each at
    /// most once.
    pub expanded_nodes: Vec<NodePath>,
    /// The tab that has keyboard focus.
    pub active_tab: TabKind,
}

impl Default for SelectionState {
    fn default() -> (s: SelectionState)
        ensures
            s.selected_function is None,
            s.instruction_cursor == 0,
            s.expanded_nodes@.len() == 0,
            s.active_tab == TabKind::FunctionList,
    {
        SelectionState {
            selected_function: None,
            instruction_cursor: 0,
            expanded_nodes: Vec::new(),
            active_tab: TabKind::FunctionList,
        }
    }
}

/// Pushing onto a sequence adds the element to its set.
proof fn lemma_push_to_set<T>(s: Seq<T>, x: T)
    ensures
        s.push(x).to_set() == s.to_set().insert(x),
{
    assert forall|y: T| s.push(x).to_set().contains(y) <==> s.to_set().insert(x).contains(y) by {
        if s.push(x).contains(y) {
            let j = choose|j: int| 0 <= j < s.push(x).len() && s.push(x)[j] == y;
            if j < s.len() {
                assert(s[j] == y);
            }
        }
        if s.contains(y) {
            let j = choose|j: int| 0 <= j < s.len() && s[j] == y;
            assert(s.push(x)[j] == y);
        }
        if y == x {
            assert(s.push(x)[s.len() as int] == y);
        }
    }
    assert(s.push(x).to_set() =~= s.to_set().insert(x));
}

impl SelectionState {
    /// The set of expanded paths.
    pub open spec fn expanded(self) -> Set<Seq<(u32, usize)>> {
        paths_view(self.expanded_nodes@).to_set()
    }

    /// Each expanded path is recorded once.
    pub open spec fn wf(self) -> bool {
        paths_view(self.expanded_nodes@).no_duplicates()
    }

    /// Selects a single function.
    pub fn select_single(&mut self, func_index: u32)
        ensures
            final(self).selected_function == Some(func_index),
            final(self).instruction_cursor == old(self).instruction_cursor,
            final(self).expanded_nodes@ == old(self).expanded_nodes@,
            final(self).active_tab == old(self).active_tab,
    {
        self.selected_function = Some(func_index);
    }

    /// The selected function, which the trees are rooted at.
    pub fn primary_selection(&self) -> (r: Option<u32>)
        ensures
            r == self.selected_function,
    {
        self.selected_function
    }

    /// The most recently selected function, which the inspector shows.
    pub fn last_selected(&self) -> (r: Option<u32>)
        ensures
            r == self.selected_function,
    {
        self.selected_function
    }

    /// Whether `func_index` is the selected function.
    pub fn is_selected(&self, func_index: u32) -> (r: bool)
        ensures
            r == (self.selected_function == Some(func_index)),
    {
        match self.selected_function {
            Some(f) => f == func_index,
            None => false,
        }
    }

    /// The position of `path` among the expanded paths.
    fn expanded_position(&self, path: &NodePath) -> (r: Option<usize>)
        ensures
            match r {
                Some(i) => i < self.expanded_nodes@.len() && self.expanded_nodes@[i as int]@ == path@,
                None => !self.expanded().contains(path@),
            },
    {
        let mut i: usize = 0;
        while i < self.expanded_nodes.len()
            invariant
                i <= self.expanded_nodes@.len(),
                forall|j: int| 0 <= j < i ==> #[trigger] self.expanded_nodes@[j]@ != path@,
            decreases self.expanded_nodes@.len() - i,
        {
            if same_path(&self.expanded_nodes[i], path) {
                return Some(i);
            }
            i = i + 1;
        }
        proof {
            if self.expanded().contains(path@) {
                let j = choose|j: int| 0 <= j < paths_view(self.expanded_nodes@).len()
                    && paths_view(self.expanded_nodes@)[j] == path@;
                assert(self.expanded_nodes@[j]@ == path@);
            }
        }
        None
    }

    /// Whether `path` is expanded.
    pub fn is_expanded(&self, path: &NodePath) -> (r: bool)
        ensures
            r == self.expanded().contains(path@),
    {
        match self.expanded_position(path) {
            Some(i) => {
                proof {
                    assert(paths_view(self.expanded_nodes@)[i as int] == path@);
                }
                true
            },
            None => false,
        }
    }

    /// Marks `path` as expanded.
    pub fn expand(&mut self, path: &NodePath)
        requires
            old(self).wf(),
        ensures
            final(self).wf(),
            final(self).expanded() == old(self).expanded().insert(path@),
            final(self).selected_function == old(self).selected_function,
            final(self).instruction_cursor == old(self).instruction_cursor,
            final(self).active_tab == old(self).active_tab,
    {
        if self.is_expanded(path) {
            proof {
                assert(self.expanded() =~= self.expanded().insert(path@));
            }
            return;
        }
        let ghost before = paths_view(self.expanded_nodes@);
        let p = copy_path(path);
        self.expanded_nodes.push(p);
        proof {
            assert(paths_view(self.expanded_nodes@) =~= before.push(path@));
            lemma_push_to_set(before, path@);
            assert(before.push(path@).no_duplicates()) by {
                assert forall|a: int, b: int| 0 <= a < before.len() + 1 && 0 <= b < before.len() + 1 && a != b
                    implies before.push(path@)[a] != before.push(path@)[b] by {
                    if a == before.len() {
                        assert(before.contains(before[b]));
                    } else if b == before.len() {
                        assert(before.contains(before[a]));
                    }
                }
            }
        }
    }

    /// Keeps the expanded set in step with a tree view: a node shown open
    /// is expanded, one shown closed is not.
    pub fn sync_expanded(&mut self, path: &NodePath, is_open: bool)
        requires
            old(self).wf(),
        ensures
            final(self).wf(),
            final(self).expanded() == if is_open {
                old(self).expanded().insert(path@)
            } else {
                old(self).expanded().remove(path@)
            },
            final(self).selected_function == old(self).selected_function,
            final(self).instruction_cursor == old(self).instruction_cursor,
            final(self).active_tab == old(self).active_tab,
    {
        let expanded = self.is_expanded(path);
        if is_open && !expanded {
            self.expand(path);
        } else if !is_open && expanded {
            self.collapse(path);
        } else {
            proof {
                if is_open {
                    assert(self.expanded() =~= self.expanded().insert(path@));
                } else {
                    assert(self.expanded() =~= self.expanded().remove(path@));
                }
            }
        }
    }

    /// Marks `path` as collapsed.
    pub fn collapse(&mut self, path: &NodePath)
        requires
            old(self).wf(),
        ensures
            final(self).wf(),
            final(self).expanded() == old(self).expanded().remove(path@),
            final(self).selected_function == old(self).selected_function,
            final(self).instruction_cursor == old(self).instruction_cursor,
            final(self).active_tab == old(self).active_tab,
    {
        match self.expanded_position(path) {
            None => {
                proof {
                    assert(self.expanded() =~= self.expanded().remove(path@));
                }
            },
            Some(i) => {
                let ghost before = paths_view(self.expanded_nodes@);
                assert(before[i as int] == path@);
                self.expanded_nodes.remove(i);
                proof {
                    let after = paths_view(self.expanded_nodes@);
                    assert(after =~= before.remove(i as int));
                    assert forall|x: Seq<(u32, usize)>| after.to_set().contains(x)
                        <==> before.to_set().remove(path@).contains(x) by {
                        if after.contains(x) {
                            let j = choose|j: int| 0 <= j < after.len() && after[j] == x;
                            if j < i {
                                assert(before[j] == x);
                                assert(j != i);
                            } else {
                                assert(before[j + 1] == x);
                            }
                        }
                        if before.contains(x) && x != path@ {
                            let j = choose|j: int| 0 <= j < before.len() && before[j] == x;
                            if j < i {
                                assert(after[j] == x);
                            } else {
                                assert(j != i);
                                assert(after[j - 1] == x);
                            }
                        }
                    }
                    assert(after.to_set() =~= before.to_set().remove(path@));
                    assert(after.no_duplicates()) by {
                        assert forall|a: int, b: int| 0 <= a < after.len() && 0 <= b < after.len() && a != b
                            implies after[a] != after[b] by {
                            let a0 = if a < i { a } else { a + 1 };
                            let b0 = if b < i { b } else { b + 1 };
                            assert(after[a] == before[a0] && after[b] == before[b0]);
                        }
                    }
                }
            },
        }
    }
}

/// Maximum tree depth shown by the tree views.
pub const MAX_DEPTH: usize = 5;

/// The first function with index `k` matches the search `filter`.
pub open spec fn node_matches(fs: Seq<FunctionInfo>, k: u32, filter: Seq<char>) -> bool {
    match find_index(fs, k) {
        Some(i) => function_matches_spec(fs[i], filter),
        None => false,
    }
}

/// Whether the subtree of `k` at `depth` holds a function matching
/// `filter`: nothing below the depth limit or at a node already on the
/// path (`visited`); else the node itself or one of its callees' subtrees,
/// with the node added to the path.
pub open spec fn subtree_match(fs: Seq<FunctionInfo>, edges: Map<u32, Vec<u32>>, filter: Seq<char>, visited: Set<u32>, k: u32, depth: nat) -> bool
    decreases 6 - depth, 1nat, 0nat,
{
    if depth >= 5 || visited.contains(k) {
        false
    } else if node_matches(fs, k, filter) {
        true
    } else if edges.contains_key(k) {
        children_match(fs, edges, filter, visited.insert(k), edges[k]@, depth + 1)
    } else {
        false
    }
}

/// Whether one of the subtrees of `children` at `depth` holds a match.
pub open spec fn children_match(fs: Seq<FunctionInfo>, edges: Map<u32, Vec<u32>>, filter: Seq<char>, visited: Set<u32>, children: Seq<u32>, depth: nat) -> bool
    decreases 7 - depth, 0nat, children.len(),
{
    if depth > 5 || children.len() == 0 {
        false
    } else {
        subtree_match(fs, edges, filter, visited, children[0], depth)
            || children_match(fs, edges, filter, visited, children.drop_first(), depth)
    }
}

/// Check if a subtree contains any function matching the filter (see
/// `subtree_match`). The visited set is the same afterwards.
pub fn subtree_contains_match(
    func_index: u32,
    filter: &str,
    module: &WasmModuleInfo,
    graph: &CallGraph,
    visited: &mut HashSet<u32>,
    depth: usize,
) -> (r: bool)
    ensures
        final(visited)@ == old(visited)@,
        r == subtree_match(module.functions@, graph.edges@, filter@, old(visited)@, func_index, depth as nat),
    decreases MAX_DEPTH - depth,
{
    if depth >= MAX_DEPTH || visited.contains(&func_index) {
        return false;
    }
    proof {
        lemma_find_index(module.functions@, func_index);
    }
    match find_function(&module.functions, func_index) {
        Some(i) => {
            if function_matches(&module.functions[i], filter) {
                return true;
            }
        },
        None => {},
    }
    let ghost before = visited@;
    visited.insert(func_index);
    let has_match = match graph.edges.get(&func_index) {
        Some(children) => {
            let ghost inner = visited@;
            let mut found = false;
            let mut j: usize = 0;
            proof {
                assert(children@.skip(0) =~= children@);
            }
            while !found && j < children.len()
                invariant
                    j <= children@.len(),
                    depth < MAX_DEPTH,
                    visited@ == inner,
                    inner == before.insert(func_index),
                    children_match(module.functions@, graph.edges@, filter@, inner, children@, (depth + 1) as nat)
                        == (found || children_match(module.functions@, graph.edges@, filter@, inner, children@.skip(j as int), (depth + 1) as nat)),
                decreases children@.len() - j,
            {
                proof {
                    assert(children@.skip(j as int).drop_first() =~= children@.skip(j + 1));
                    assert(children@.skip(j as int)[0] == children@[j as int]);
                }
                if subtree_contains_match(children[j], filter, module, graph, visited, depth + 1) {
                    found = true;
                }
                j = j + 1;
            }
            proof {
                if !found {
                    assert(children@.skip(j as int).len() == 0);
                }
            }
            found
        },
        None => false,
    };
    visited.remove(&func_index);
    proof {
        assert(visited@ =~= before);
    }
    has_match
}

/// Check if a function matches the filter: every function matches an empty
/// filter.
pub fn matches_filter(func: &FunctionInfo, filter: &str) -> (r: bool)
    ensures
        r == (filter@.len() == 0 || function_matches_spec(*func, filter@)),
{
    if filter.unicode_len() == 0 {
        return true;
    }
    function_matches(func, filter)
}

/// How a tree node is drawn.
#[derive(Clone, Copy, PartialEq, Eq, Debug, Structural)]
pub enum NodeKind {
    /// The function is already on the path from the root: marked, not expanded.
    Recursive,
    /// The depth limit is reached and there are children: marked, not expanded.
    DepthLimit,
    /// Children that can be shown.
    Expandable,
    /// No children.
    Leaf,
}

/// The callees (or callers) recorded for `k`: its list is not empty.
pub open spec fn has_children(edges: Map<u32, Vec<u32>>, k: u32) -> bool {
    edges.contains_key(k) && edges[k]@.len() > 0
}

/// The kind of the node of `k` at `depth` with `visited` on its path.
pub open spec fn node_kind(edges: Map<u32, Vec<u32>>, k: u32, depth: nat, visited: Set<u32>) -> NodeKind {
    if visited.contains(k) {
        NodeKind::Recursive
    } else if depth >= 5 && has_children(edges, k) {
        NodeKind::DepthLimit
    } else if has_children(edges, k) {
        NodeKind::Expandable
    } else {
        NodeKind::Leaf
    }
}

/// The kind of a tree node.
pub fn tree_node_kind(edges: &HashMap<u32, Vec<u32>>, func_index: u32, depth: usize, visited: &HashSet<u32>) -> (r: NodeKind)
    ensures
        r == node_kind(edges@, func_index, depth as nat, visited@),
{
    let children = match edges.get(&func_index) {
        Some(c) => c.len() > 0,
        None => false,
    };
    if visited.contains(&func_index) {
        NodeKind::Recursive
    } else if depth >= MAX_DEPTH && children {
        NodeKind::DepthLimit
    } else if children {
        NodeKind::Expandable
    } else {
        NodeKind::Leaf
    }
}

/// The path of a tree node: the root's is `[(root, 0)]`, any other node's
/// is the path it was reached by.
pub open spec fn node_path_of(func_index: u32, depth: nat, path: Seq<(u32, usize)>) -> Seq<(u32, usize)> {
    if depth == 0 { seq![(func_index, 0usize)] } else { path }
}

/// What a tree view decides for one node.
pub struct TreeNode {
    /// Whether the node is shown (always without a filter).
    pub visible: bool,
    /// Whether the node itself matches a non-empty filter (highlighted).
    pub highlighted: bool,
    /// The node's path.
    pub path: NodePath,
    /// Whether the keyboard focus is on the node.
    pub focused: bool,
    /// How the node is drawn.
    pub kind: NodeKind,
}

/// The decisions for the node of `func_index` at `depth`, reached by `path`
/// with `visited` on the path from the root: it is shown when the filter is
/// empty, the node matches it, or its subtree holds a match.
pub fn call_tree_node(
    filter: &str,
    focus: &Option<NodePath>,
    module: &WasmModuleInfo,
    graph: &CallGraph,
    func_index: u32,
    depth: usize,
    path: &NodePath,
    visited: &HashSet<u32>,
) -> (r: TreeNode)
    ensures
        r.visible == (filter@.len() == 0 || node_matches(module.functions@, func_index, filter@)
            || subtree_match(module.functions@, graph.edges@, filter@, Set::empty(), func_index, depth as nat)),
        r.highlighted == (filter@.len() > 0 && node_matches(module.functions@, func_index, filter@)),
        r.path@ == node_path_of(func_index, depth as nat, path@),
        r.focused == (focus matches Some(f) && f@ == r.path@),
        r.kind == node_kind(graph.edges@, func_index, depth as nat, visited@),
{
    proof {
        lemma_find_index(module.functions@, func_index);
    }
    let node_match = match find_function(&module.functions, func_index) {
        Some(i) => matches_filter(&module.functions[i], filter),
        None => false,
    };
    let empty = filter.unicode_len() == 0;
    let visible = if empty {
        true
    } else if node_match {
        true
    } else {
        let mut fresh: HashSet<u32> = HashSet::new();
        subtree_contains_match(func_index, filter, module, graph, &mut fresh, depth)
    };
    let node_path = if depth == 0 {
        let mut p: NodePath = Vec::new();
        p.push((func_index, 0));
        proof {
            assert(p@ =~= seq![(func_index, 0usize)]);
        }
        p
    } else {
        copy_path(path)
    };
    let focused = match focus {
        Some(f) => same_path(f, &node_path),
        None => false,
    };
    TreeNode {
        visible,
        highlighted: !empty && node_match,
        path: node_path,
        focused,
        kind: tree_node_kind(&graph.edges, func_index, depth, visited),
    }
}

/// The path of the `pos`-th child `child` of the node at `path`.
pub fn child_path(path: &NodePath, child: u32, pos: usize) -> (r: NodePath)
    ensures
        r@ == path@.push((child, pos)),
{
    let mut r = copy_path(path);
    r.push((child, pos));
    r
}

/// The navigation keys pressed in one frame of a tree view.
#[derive(Clone, Copy)]
pub struct TreeKeys {
    /// `j` or arrow down: focus the next visible node.
    pub down: bool,
    /// `k` or arrow up: focus the previous visible node.
    pub up: bool,
    /// Enter or Space: select the focused node's function.
    pub select: bool,
    /// Arrow right: expand the focused node.
    pub expand: bool,
    /// Arrow left: collapse the focused node, or focus its parent.
    pub collapse: bool,
    /// `g`: focus the first visible node.
    pub top: bool,
    /// `G`: focus the last visible node.
    pub bottom: bool,
}

/// The position of the focused path among the visible ones (the first
/// equal one), or 0.
pub open spec fn focus_position(visible: Seq<Seq<(u32, usize)>>, focus: Option<Seq<(u32, usize)>>, from: nat) -> nat
    decreases visible.len() - from,
{
    if from >= visible.len() {
        0
    } else if focus == Some(visible[from as int]) {
        from
    } else {
        focus_position(visible, focus, from + 1)
    }
}

/// The view of an optional path.
pub open spec fn opt_path(p: Option<NodePath>) -> Option<Seq<(u32, usize)>> {
    match p {
        Some(v) => Some(v@),
        None => None,
    }
}

/// The focus after the moves of one frame (down, then up, both from the
/// position before the frame).
pub open spec fn focus_after_moves(visible: Seq<Seq<(u32, usize)>>, focus: Option<Seq<(u32, usize)>>, keys: TreeKeys) -> Option<Seq<(u32, usize)>> {
    let cur = focus_position(visible, focus, 0) as int;
    let n = visible.len() as int;
    let f1 = if keys.down { Some(visible[if cur + 1 < n - 1 { cur + 1 } else { n - 1 }]) } else { focus };
    if keys.up { Some(visible[if cur >= 1 { cur - 1 } else { 0 }]) } else { f1 }
}

/// The state after the keys of one frame: the moves, then selection of the
/// focused node, expanding it, collapsing it (or focusing its parent when it
/// is not expanded), and the jumps to the first or last node. Nothing
/// happens while the filter has the focus or no node is visible.
pub open spec fn tree_keys_effect(
    visible: Seq<Seq<(u32, usize)>>,
    focus: Option<Seq<(u32, usize)>>,
    selected: Option<u32>,
    expanded: Set<Seq<(u32, usize)>>,
    filter_focused: bool,
    keys: TreeKeys,
) -> (Option<Seq<(u32, usize)>>, Option<u32>, Set<Seq<(u32, usize)>>) {
    if filter_focused || visible.len() == 0 {
        (focus, selected, expanded)
    } else {
        let f2 = focus_after_moves(visible, focus, keys);
        let sel = match f2 {
            Some(p) => if keys.select && p.len() > 0 { Some(p.last().0) } else { selected },
            None => selected,
        };
        let exp1 = match f2 {
            Some(p) => if keys.expand { expanded.insert(p) } else { expanded },
            None => expanded,
        };
        let (f3, exp2) = match f2 {
            Some(p) => if keys.collapse {
                if exp1.contains(p) {
                    (f2, exp1.remove(p))
                } else if p.len() > 1 {
                    (Some(p.drop_last()), exp1)
                } else {
                    (f2, exp1)
                }
            } else {
                (f2, exp1)
            },
            None => (f2, exp1),
        };
        let f4 = if keys.top { Some(visible[0]) } else { f3 };
        let f5 = if keys.bottom { Some(visible[visible.len() - 1]) } else { f4 };
        (f5, sel, exp2)
    }
}

/// Finds the focused path among the visible ones.
fn find_focus(visible: &Vec<NodePath>, focus: &Option<NodePath>) -> (r: usize)
    ensures
        r == focus_position(paths_view(visible@), opt_path(*focus), 0),
        visible@.len() > 0 ==> r < visible@.len(),
{
    let ghost vs = paths_view(visible@);
    let mut i: usize = 0;
    match focus {
        None => {
            while i < visible.len()
                invariant
                    i <= visible@.len(),
                    vs == paths_view(visible@),
                    opt_path(*focus) is None,
                    focus_position(vs, opt_path(*focus), 0) == focus_position(vs, opt_path(*focus), i as nat),
                decreases visible@.len() - i,
            {
                i = i + 1;
            }
            0
        },
        Some(f) => {
            while i < visible.len()
                invariant
                    i <= visible@.len(),
                    vs == paths_view(visible@),
                    opt_path(*focus) == Some(f@),
                    focus_position(vs, opt_path(*focus), 0) == focus_position(vs, opt_path(*focus), i as nat),
                decreases visible@.len() - i,
            {
                if same_path(&visible[i], f) {
                    return i;
                }
                i = i + 1;
            }
            0
        },
    }
}

/// Applies the navigation keys of one frame to a tree view's focus and the
/// shared selection (see `tree_keys_effect`).
pub fn tree_handle_keys(
    focus_path: &mut Option<NodePath>,
    filter_focused: bool,
    selection: &mut SelectionState,
    visible: &Vec<NodePath>,
    keys: TreeKeys,
)
    requires
        old(selection).wf(),
    ensures
        final(selection).wf(),
        (opt_path(*final(focus_path)), final(selection).selected_function, final(selection).expanded())
            == tree_keys_effect(paths_view(visible@), opt_path(*old(focus_path)), old(selection).selected_function,
                old(selection).expanded(), filter_focused, keys),
        final(selection).instruction_cursor == old(selection).instruction_cursor,
        final(selection).active_tab == old(selection).active_tab,
{
    if filter_focused || visible.len() == 0 {
        return;
    }
    let ghost vs = paths_view(visible@);
    let cur = find_focus(visible, focus_path);
    let n = visible.len();
    if keys.down {
        let p = if cur + 1 < n - 1 { cur + 1 } else { n - 1 };
        *focus_path = Some(copy_path(&visible[p]));
    }
    if keys.up {
        let p = if cur >= 1 { cur - 1 } else { 0 };
        *focus_path = Some(copy_path(&visible[p]));
    }
    assert(opt_path(*focus_path) == focus_after_moves(vs, opt_path(*old(focus_path)), keys));
    let ghost f2 = opt_path(*focus_path);
    if keys.select {
        match focus_path {
            Some(p) => {
                if p.len() > 0 {
                    let last = p[p.len() - 1].0;
                    selection.select_single(last);
                }
            },
            None => {},
        }
    }
    if keys.expand {
        match focus_path {
            Some(p) => { selection.expand(p); },
            None => {},
        }
    }
    if keys.collapse {
        let mut parent: Option<NodePath> = None;
        match focus_path {
            Some(p) => {
                if selection.is_expanded(p) {
                    selection.collapse(p);
                } else if p.len() > 1 {
                    let mut q = copy_path(p);
                    q.pop();
                    proof {
                        assert(q@ =~= p@.drop_last());
                    }
                    parent = Some(q);
                }
            },
            None => {},
        }
        if parent.is_some() {
            *focus_path = parent;
        }
    }
    if keys.top {
        *focus_path = Some(copy_path(&visible[0]));
    }
    if keys.bottom {
        *focus_path = Some(copy_path(&visible[n - 1]));
    }
}

/// Panel state for the call tree (downstream calls) of the selected function.
pub struct CallTreePanel {
    /// Current filter input text.
    pub filter_text: String,
    /// Whether the filter input currently has focus.
    pub filter_focused: bool,
    /// Currently focused node path for keyboard navigation.
    pub focus_path: Option<NodePath>,
}

impl CallTreePanel {
    /// Create a new call tree panel.
    pub fn new() -> (p: CallTreePanel)
        ensures
            p.filter_text@.len() == 0,
            !p.filter_focused,
            p.focus_path is None,
    {
        CallTreePanel { filter_text: String::new(), filter_focused: false, focus_path: None }
    }

    /// Check if a subtree contains any function matching the filter.
    pub fn subtree_contains_match(
        func_index: u32,
        filter: &str,
        module: &WasmModuleInfo,
        graph: &CallGraph,
        visited: &mut HashSet<u32>,
        depth: usize,
    ) -> (r: bool)
        ensures
            final(visited)@ == old(visited)@,
            r == subtree_match(module.functions@, graph.edges@, filter@, old(visited)@, func_index, depth as nat),
    {
        subtree_contains_match(func_index, filter, module, graph, visited, depth)
    }

    /// Check if a function matches the filter.
    pub fn matches_filter(func: &FunctionInfo, filter: &str) -> (r: bool)
        ensures
            r == (filter@.len() == 0 || function_matches_spec(*func, filter@)),
    {
        matches_filter(func, filter)
    }

    /// Applies the navigation keys of one frame.
    pub fn handle_keyboard(&mut self, selection: &mut SelectionState, visible_nodes: &Vec<NodePath>, keys: TreeKeys)
        requires
            old(selection).wf(),
        ensures
            final(selection).wf(),
            (opt_path(final(self).focus_path), final(selection).selected_function, final(selection).expanded())
                == tree_keys_effect(paths_view(visible_nodes@), opt_path(old(self).focus_path),
                    old(selection).selected_function, old(selection).expanded(), old(self).filter_focused, keys),
            final(self).filter_text@ == old(self).filter_text@,
            final(self).filter_focused == old(self).filter_focused,
            final(selection).instruction_cursor == old(selection).instruction_cursor,
            final(selection).active_tab == old(selection).active_tab,
    {
        tree_handle_keys(&mut self.focus_path, self.filter_focused, selection, visible_nodes, keys);
    }
}

/// Panel state for the size tree (cumulative size impact) of the selected
/// function.
pub struct SizeTreePanel {
    /// Current filter input text.
    pub filter_text: String,
    /// Whether the filter input currently has focus.
    pub filter_focused: bool,
    /// Currently focused node path for keyboard navigation.
    pub focus_path: Option<NodePath>,
}

impl SizeTreePanel {
    /// Create a new size tree panel.
    pub fn new() -> (p: SizeTreePanel)
        ensures
            p.filter_text@.len() == 0,
            !p.filter_focused,
            p.focus_path is None,
    {
        SizeTreePanel { filter_text: String::new(), filter_focused: false, focus_path: None }
    }

    /// Check if a subtree contains any function matching the filter.
    pub fn subtree_contains_match(
        func_index: u32,
        filter: &str,
        module: &WasmModuleInfo,
        graph: &CallGraph,
        visited: &mut HashSet<u32>,
        depth: usize,
    ) -> (r: bool)
        ensures
            final(visited)@ == old(visited)@,
            r == subtree_match(module.functions@, graph.edges@, filter@, old(visited)@, func_index, depth as nat),
    {
        subtree_contains_match(func_index, filter, module, graph, visited, depth)
    }

    /// Check if a function matches the filter.
    pub fn matches_filter(func: &FunctionInfo, filter: &str) -> (r: bool)
        ensures
            r == (filter@.len() == 0 || function_matches_spec(*func, filter@)),
    {
        matches_filter(func, filter)
    }

    /// Applies the navigation keys of one frame.
    pub fn handle_keyboard(&mut self, selection: &mut SelectionState, visible_nodes: &Vec<NodePath>, keys: TreeKeys)
        requires
            old(selection).wf(),
        ensures
            final(selection).wf(),
            (opt_path(final(self).focus_path), final(selection).selected_function, final(selection).expanded())
                == tree_keys_effect(paths_view(visible_nodes@), opt_path(old(self).focus_path),
                    old(selection).selected_function, old(selection).expanded(), old(self).filter_focused, keys),
            final(self).filter_text@ == old(self).filter_text@,
            final(self).filter_focused == old(self).filter_focused,
            final(selection).instruction_cursor == old(selection).instruction_cursor,
            final(selection).active_tab == old(selection).active_tab,
    {
        tree_handle_keys(&mut self.focus_path, self.filter_focused, selection, visible_nodes, keys);
    }
}

/// Panel state for the callers tree (upstream calls) of the selected
/// function.
pub struct CallersTreePanel {
    /// Current filter input text (not applied yet).
    pub filter_text: String,
    /// Whether the filter input currently has focus.
    pub filter_focused: bool,
}

impl CallersTreePanel {
    /// Create a new callers tree panel.
    pub fn new() -> (p: CallersTreePanel)
        ensures
            p.filter_text@.len() == 0,
            !p.filter_focused,
    {
        CallersTreePanel { filter_text: String::new(), filter_focused: false }
    }
}

/// How often `t` is called over all edge lists.
pub open spec fn incoming_calls(edges: Map<u32, Vec<u32>>, t: u32) -> nat {
    set_sum(edges.dom(), |k: u32| value_count(edges[k]@, t))
}

/// The edges of an optional call graph.
pub open spec fn opt_edges(g: Option<&CallGraph>) -> Option<Map<u32, Vec<u32>>> {
    match g {
        Some(g) => Some(g.edges@),
        None => None,
    }
}

/// The call count of `k`: 0 without a call graph.
pub open spec fn calls_of(edges: Option<Map<u32, Vec<u32>>>, k: u32) -> nat {
    match edges {
        Some(e) => incoming_calls(e, k),
        None => 0,
    }
}

/// A prefix sum is at most the whole sum.
proof fn lemma_sum_over_prefix(keys: Seq<u32>, f: spec_fn(u32) -> nat, i: int)
    requires
        0 <= i <= keys.len(),
    ensures
        sum_over(keys.take(i), f) <= sum_over(keys, f),
    decreases keys.len() - i,
{
    if i < keys.len() {
        lemma_sum_over_prefix(keys, f, i + 1);
        assert(keys.take(i + 1).drop_last() =~= keys.take(i));
    } else {
        assert(keys.take(i) =~= keys);
    }
}

/// Counts the occurrences of `t` in a list.
fn count_value(v: &Vec<u32>, t: u32) -> (n: u64)
    ensures
        n == value_count(v@, t),
{
    let mut n: u64 = 0;
    let mut j: usize = 0;
    while j < v.len()
        invariant
            j <= v@.len(),
            n == value_count(v@.take(j as int), t),
            n <= j,
        decreases v@.len() - j,
    {
        proof {
            assert(v@.take(j + 1).drop_last() =~= v@.take(j as int));
        }
        if v[j] == t {
            n = n + 1;
        }
        j = j + 1;
    }
    proof {
        assert(v@.take(v@.len() as int) =~= v@);
    }
    n
}

/// Which column the function list is sorted by.
#[derive(Clone, Copy, PartialEq, Eq, Debug, Structural)]
pub enum SortColumn {
    Name,
    Size,
    Calls,
}

impl Default for SortColumn {
    fn default() -> (c: SortColumn)
        ensures
            c == SortColumn::Size,
    {
        SortColumn::Size
    }
}

/// Lexicographic order of character sequences by code point (the order of
/// `String`'s `Ord`, as UTF-8 preserves code point order).
pub open spec fn lex_lt(a: Seq<char>, b: Seq<char>) -> bool
    decreases a.len(),
{
    if a.len() == 0 {
        b.len() > 0
    } else if b.len() == 0 {
        false
    } else if (a[0] as int) < (b[0] as int) {
        true
    } else if a[0] == b[0] {
        lex_lt(a.drop_first(), b.drop_first())
    } else {
        false
    }
}

/// `lex_lt` is a strict total order.
proof fn lemma_lex_order(a: Seq<char>, b: Seq<char>, c: Seq<char>)
    ensures
        !lex_lt(a, a),
        lex_lt(a, b) && lex_lt(b, c) ==> lex_lt(a, c),
        a != b ==> lex_lt(a, b) || lex_lt(b, a),
        lex_lt(a, b) ==> !lex_lt(b, a),
    decreases a.len(),
{
    if a.len() > 0 && b.len() > 0 && c.len() > 0 {
        lemma_lex_order(a.drop_first(), b.drop_first(), c.drop_first());
    }
    if a.len() > 0 {
        lemma_lex_order(a.drop_first(), a.drop_first(), a.drop_first());
    }
    if a.len() > 0 && b.len() > 0 {
        lemma_lex_order(a.drop_first(), b.drop_first(), b.drop_first());
        if a != b && a[0] == b[0] {
            assert(a.drop_first() != b.drop_first()) by {
                if a.drop_first() == b.drop_first() {
                    assert(a =~= seq![a[0]] + a.drop_first());
                    assert(b =~= seq![b[0]] + b.drop_first());
                }
            }
        }
    }
    if a.len() == 0 && b.len() == 0 {
        assert(a =~= b);
    }
}

/// `lex_lt`.
fn lex_less(a: &String, b: &String) -> (r: bool)
    ensures
        r == lex_lt(a@, b@),
{
    let sa = a.as_str();
    let sb = b.as_str();
    let na = sa.unicode_len();
    let nb = sb.unicode_len();
    let mut i: usize = 0;
    proof {
        assert(a@.skip(0) =~= a@);
        assert(b@.skip(0) =~= b@);
    }
    while i < na && i < nb
        invariant
            na == a@.len(),
            nb == b@.len(),
            sa@ == a@,
            sb@ == b@,
            i <= na,
            i <= nb,
            lex_lt(a@, b@) == lex_lt(a@.skip(i as int), b@.skip(i as int)),
        decreases na - i,
    {
        let ca = sa.get_char(i);
        let cb = sb.get_char(i);
        proof {
            assert(a@.skip(i as int)[0] == ca);
            assert(b@.skip(i as int)[0] == cb);
            assert(a@.skip(i as int).drop_first() =~= a@.skip(i + 1));
            assert(b@.skip(i as int).drop_first() =~= b@.skip(i + 1));
        }
        if (ca as u32) < (cb as u32) {
            return true;
        }
        if ca != cb {
            return false;
        }
        i = i + 1;
    }
    i < nb
}

/// `str::to_lowercase`: the Unicode lowercase mapping of each character.
pub uninterp spec fn lowercase(s: Seq<char>) -> Seq<char>;

/// `str::to_lowercase`.
#[verifier::external_body]
fn to_lowercase(s: &str) -> (r: String)
    ensures
        r@ == lowercase(s@),
{
    s.to_lowercase()
}

/// The name the list sorts by: the display name, lowercased.
pub open spec fn sort_name(f: FunctionInfo) -> Seq<char> {
    lowercase(f.display_name())
}

/// The sort key of entry `a` is below that of entry `b`.
pub open spec fn key_lt(fs: Seq<FunctionInfo>, edges: Option<Map<u32, Vec<u32>>>, col: SortColumn, a: int, b: int) -> bool {
    match col {
        SortColumn::Name => lex_lt(sort_name(fs[a]), sort_name(fs[b])),
        SortColumn::Size => fs[a].code_size < fs[b].code_size,
        SortColumn::Calls => calls_of(edges, fs[a].index) < calls_of(edges, fs[b].index),
    }
}

/// Entry `a` comes before entry `b` in the list: its key comes first in the
/// sort direction, or the keys are equal and `a` comes first in the module
/// (the sort is stable).
pub open spec fn listed_before(fs: Seq<FunctionInfo>, edges: Option<Map<u32, Vec<u32>>>, col: SortColumn, asc: bool, a: int, b: int) -> bool {
    let lt = if asc { key_lt(fs, edges, col, a, b) } else { key_lt(fs, edges, col, b, a) };
    let gt = if asc { key_lt(fs, edges, col, b, a) } else { key_lt(fs, edges, col, a, b) };
    lt || (!gt && a < b)
}

/// `listed_before` orders distinct entries strictly and totally.
proof fn lemma_listed_order(fs: Seq<FunctionInfo>, edges: Option<Map<u32, Vec<u32>>>, col: SortColumn, asc: bool, a: int, b: int, c: int)
    ensures
        !listed_before(fs, edges, col, asc, a, a),
        a != b ==> listed_before(fs, edges, col, asc, a, b) || listed_before(fs, edges, col, asc, b, a),
        listed_before(fs, edges, col, asc, a, b) && listed_before(fs, edges, col, asc, b, c)
            ==> listed_before(fs, edges, col, asc, a, c),
{
    match col {
        SortColumn::Name => {
            let (x, y, z) = (sort_name(fs[a]), sort_name(fs[b]), sort_name(fs[c]));
            lemma_lex_order(x, y, z);
            lemma_lex_order(z, y, x);
            lemma_lex_order(y, x, z);
            lemma_lex_order(x, z, y);
            lemma_lex_order(y, z, x);
            lemma_lex_order(z, x, y);
            lemma_lex_order(x, y, x);
            lemma_lex_order(y, x, y);
            lemma_lex_order(y, z, y);
            lemma_lex_order(z, y, z);
            lemma_lex_order(x, z, x);
            lemma_lex_order(z, x, z);
            if !lex_lt(x, y) && !lex_lt(y, x) {
                assert(x == y);
            }
            if !lex_lt(y, z) && !lex_lt(z, y) {
                assert(y == z);
            }
        },
        _ => {},
    }
}

/// `listed_before` on indices of `fs`, given the lowercased names (for the
/// name column) and the call counts (for the calls column).
fn listed_before_exec(
    fs: &Vec<FunctionInfo>,
    names: &Vec<String>,
    counts: &Vec<u64>,
    edges: Ghost<Option<Map<u32, Vec<u32>>>>,
    col: SortColumn,
    asc: bool,
    a: usize,
    b: usize,
) -> (r: bool)
    requires
        a < fs@.len(),
        b < fs@.len(),
        col == SortColumn::Name ==> names@.len() == fs@.len()
            && forall|i: int| 0 <= i < fs@.len() ==> (#[trigger] names@[i])@ == sort_name(fs@[i]),
        col == SortColumn::Calls ==> counts@.len() == fs@.len()
            && forall|i: int| 0 <= i < fs@.len() ==> #[trigger] counts@[i] == calls_of(edges@, fs@[i].index),
    ensures
        r == listed_before(fs@, edges@, col, asc, a as int, b as int),
{
    let (lt, gt) = match col {
        SortColumn::Name => (lex_less(&names[a], &names[b]), lex_less(&names[b], &names[a])),
        SortColumn::Size => (fs[a].code_size < fs[b].code_size, fs[b].code_size < fs[a].code_size),
        SortColumn::Calls => (counts[a] < counts[b], counts[b] < counts[a]),
    };
    let (before, after) = if asc { (lt, gt) } else { (gt, lt) };
    before || (!after && a < b)
}

/// Inserts entry `x` into a list ordered by `listed_before`, after every
/// entry that comes before it.
fn insert_listed(
    out: &mut Vec<usize>,
    x: usize,
    fs: &Vec<FunctionInfo>,
    names: &Vec<String>,
    counts: &Vec<u64>,
    edges: Ghost<Option<Map<u32, Vec<u32>>>>,
    col: SortColumn,
    asc: bool,
)
    requires
        x < fs@.len(),
        forall|i: int| 0 <= i < old(out)@.len() ==> #[trigger] old(out)@[i] < fs@.len() && old(out)@[i] != x,
        forall|i: int, j: int| 0 <= i < j < old(out)@.len()
            ==> listed_before(fs@, edges@, col, asc, #[trigger] old(out)@[i] as int, #[trigger] old(out)@[j] as int),
        col == SortColumn::Name ==> names@.len() == fs@.len()
            && forall|i: int| 0 <= i < fs@.len() ==> (#[trigger] names@[i])@ == sort_name(fs@[i]),
        col == SortColumn::Calls ==> counts@.len() == fs@.len()
            && forall|i: int| 0 <= i < fs@.len() ==> #[trigger] counts@[i] == calls_of(edges@, fs@[i].index),
    ensures
        final(out)@.to_set() == old(out)@.to_set().insert(x),
        final(out)@.len() == old(out)@.len() + 1,
        forall|i: int| 0 <= i < final(out)@.len() ==> #[trigger] final(out)@[i] < fs@.len(),
        forall|i: int, j: int| 0 <= i < j < final(out)@.len()
            ==> listed_before(fs@, edges@, col, asc, #[trigger] final(out)@[i] as int, #[trigger] final(out)@[j] as int),
{
    let mut p: usize = 0;
    while p < out.len() && !listed_before_exec(fs, names, counts, edges, col, asc, x, out[p])
        invariant
            p <= out@.len(),
            x < fs@.len(),
            forall|i: int| 0 <= i < p ==> !listed_before(fs@, edges@, col, asc, x as int, #[trigger] out@[i] as int),
            forall|i: int| 0 <= i < out@.len() ==> #[trigger] out@[i] < fs@.len() && out@[i] != x,
            col == SortColumn::Name ==> names@.len() == fs@.len()
                && forall|i: int| 0 <= i < fs@.len() ==> (#[trigger] names@[i])@ == sort_name(fs@[i]),
            col == SortColumn::Calls ==> counts@.len() == fs@.len()
                && forall|i: int| 0 <= i < fs@.len() ==> #[trigger] counts@[i] == calls_of(edges@, fs@[i].index),
        decreases out@.len() - p,
    {
        p = p + 1;
    }
    let ghost before = out@;
    out.insert(p, x);
    proof {
        assert forall|i: int, j: int| 0 <= i < j < out@.len()
            implies listed_before(fs@, edges@, col, asc, #[trigger] out@[i] as int, #[trigger] out@[j] as int) by {
            if j < p {
                assert(out@[i] == before[i] && out@[j] == before[j]);
            } else if j == p {
                assert(out@[i] == before[i]);
                lemma_listed_order(fs@, edges@, col, asc, x as int, before[i] as int, x as int);
            } else if i == p {
                assert(out@[j] == before[j - 1]);
                lemma_listed_order(fs@, edges@, col, asc, x as int, before[p as int] as int, before[j - 1] as int);
            } else if i < p {
                assert(out@[i] == before[i] && out@[j] == before[j - 1]);
            } else {
                assert(out@[i] == before[i - 1] && out@[j] == before[j - 1]);
            }
        }
        assert forall|y: usize| out@.to_set().contains(y) <==> before.to_set().insert(x).contains(y) by {
            if out@.contains(y) {
                let t = choose|t: int| 0 <= t < out@.len() && out@[t] == y;
                if t < p {
                    assert(before[t] == y);
                } else if t > p {
                    assert(before[t - 1] == y);
                }
            }
            if before.contains(y) {
                let t = choose|t: int| 0 <= t < before.len() && before[t] == y;
                if t < p {
                    assert(out@[t] == y);
                } else {
                    assert(out@[t + 1] == y);
                }
            }
            if y == x {
                assert(out@[p as int] == y);
            }
        }
        assert(out@.to_set() =~= before.to_set().insert(x));
    }
}

/// Panel state for the function list: filter, sort column and direction,
/// and the cached order of the listed functions.
pub struct FunctionListPanel {
    /// Current filter input text.
    pub filter_text: String,
    /// Which column is being sorted.
    pub sort_column: SortColumn,
    /// Sort direction (true = ascending, false = descending).
    pub sort_ascending: bool,
    /// Cached indices into module.functions after filter/sort.
    pub cached_indices: Vec<usize>,
    /// Whether the cache needs rebuilding.
    pub cache_dirty: bool,
    /// Total function count (for "N of M" display).
    pub total_function_count: usize,
}

/// The functions of `fs` listed for `filter`.
pub open spec fn listed(fs: Seq<FunctionInfo>, filter: Seq<char>) -> Set<usize> {
    Set::new(|i: usize| i < fs.len() && function_matches_spec(fs[i as int], filter))
}

/// The call counts of all functions fit in `usize`.
pub open spec fn calls_fit(fs: Seq<FunctionInfo>, edges: Option<Map<u32, Vec<u32>>>) -> bool {
    forall|i: int| 0 <= i < fs.len() ==> calls_of(edges, #[trigger] fs[i].index) <= usize::MAX
}

impl FunctionListPanel {
    /// Create a new function list panel: no filter, descending by size,
    /// cache to be built.
    pub fn new() -> (p: FunctionListPanel)
        ensures
            p.filter_text@.len() == 0,
            p.sort_column == SortColumn::Size,
            !p.sort_ascending,
            p.cached_indices@.len() == 0,
            p.cache_dirty,
            p.total_function_count == 0,
    {
        FunctionListPanel {
            filter_text: String::new(),
            sort_column: SortColumn::Size,
            sort_ascending: false,
            cached_indices: Vec::new(),
            cache_dirty: true,
            total_function_count: 0,
        }
    }

    /// Count incoming calls to a function (how many times it's called by
    /// others): its occurrences over all edge lists.
    pub fn count_calls(func_index: u32, call_graph: Option<&CallGraph>) -> (n: usize)
        requires
            calls_of(opt_edges(call_graph), func_index) <= usize::MAX,
        ensures
            n == calls_of(opt_edges(call_graph), func_index),
    {
        let cg = match call_graph {
            Some(g) => g,
            None => { return 0; },
        };
        let keys = map_keys(&cg.edges);
        let ghost f = |k: u32| value_count(cg.edges@[k]@, func_index);
        proof {
            lemma_set_sum_seq(keys@, f);
            assert(keys@.to_set() == cg.edges@.dom());
        }
        let mut total: u64 = 0;
        let mut i: usize = 0;
        while i < keys.len()
            invariant
                i <= keys@.len(),
                keys@.to_set() == cg.edges@.dom(),
                f == (|k: u32| value_count(cg.edges@[k]@, func_index)),
                total == sum_over(keys@.take(i as int), f),
                sum_over(keys@, f) <= usize::MAX,
            decreases keys@.len() - i,
        {
            let k = keys[i];
            proof {
                assert(keys@.to_set().contains(k));
                assert(keys@.take(i + 1).drop_last() =~= keys@.take(i as int));
                lemma_sum_over_prefix(keys@, f, i + 1);
            }
            let c = match cg.edges.get(&k) {
                Some(v) => count_value(v, func_index),
                None => 0,
            };
            total = total + c;
            i = i + 1;
        }
        proof {
            assert(keys@.take(keys@.len() as int) =~= keys@);
        }
        total as usize
    }

    /// Rebuild the cached indices: the functions matching the filter,
    /// ordered by the sort column and direction (stable).
    pub fn rebuild_cache(&mut self, module: &WasmModuleInfo, call_graph: Option<&CallGraph>)
        requires
            old(self).sort_column == SortColumn::Calls ==> calls_fit(module.functions@, opt_edges(call_graph)),
        ensures
            final(self).total_function_count == module.functions@.len(),
            final(self).cached_indices@.to_set() == listed(module.functions@, old(self).filter_text@),
            forall|i: int, j: int| 0 <= i < j < final(self).cached_indices@.len()
                ==> listed_before(module.functions@, opt_edges(call_graph), old(self).sort_column, old(self).sort_ascending,
                    #[trigger] final(self).cached_indices@[i] as int, #[trigger] final(self).cached_indices@[j] as int),
            !final(self).cache_dirty,
            final(self).filter_text@ == old(self).filter_text@,
            final(self).sort_column == old(self).sort_column,
            final(self).sort_ascending == old(self).sort_ascending,
    {
        let fs = &module.functions;
        let n = fs.len();
        let col = self.sort_column;
        let asc = self.sort_ascending;
        let ghost edges = opt_edges(call_graph);
        let mut names: Vec<String> = Vec::new();
        let mut counts: Vec<u64> = Vec::new();
        if col == SortColumn::Name {
            let mut i: usize = 0;
            while i < n
                invariant
                    i <= n == fs@.len(),
                    names@.len() == i,
                    forall|t: int| 0 <= t < i ==> (#[trigger] names@[t])@ == sort_name(fs@[t]),
                decreases n - i,
            {
                let name = fs[i].best_name();
                names.push(to_lowercase(name.as_str()));
                i = i + 1;
            }
        }
        if col == SortColumn::Calls {
            let mut i: usize = 0;
            while i < n
                invariant
                    i <= n == fs@.len(),
                    col == SortColumn::Calls ==> calls_fit(fs@, edges),
                    col == SortColumn::Calls,
                    edges == opt_edges(call_graph),
                    counts@.len() == i,
                    forall|t: int| 0 <= t < i ==> #[trigger] counts@[t] == calls_of(edges, fs@[t].index),
                decreases n - i,
            {
                proof {
                    assert(calls_of(edges, fs@[i as int].index) <= usize::MAX);
                }
                let c = Self::count_calls(fs[i].index, call_graph);
                counts.push(c as u64);
                i = i + 1;
            }
        }
        let mut out: Vec<usize> = Vec::new();
        let mut i: usize = 0;
        while i < n
            invariant
                i <= n == fs@.len(),
                out@.to_set() == listed(fs@, self.filter_text@).filter(|x: usize| x < i),
                forall|t: int| 0 <= t < out@.len() ==> #[trigger] out@[t] < i,
                forall|a: int, b: int| 0 <= a < b < out@.len()
                    ==> listed_before(fs@, edges, col, asc, #[trigger] out@[a] as int, #[trigger] out@[b] as int),
                col == SortColumn::Name ==> names@.len() == fs@.len()
                    && forall|t: int| 0 <= t < fs@.len() ==> (#[trigger] names@[t])@ == sort_name(fs@[t]),
                col == SortColumn::Calls ==> counts@.len() == fs@.len()
                    && forall|t: int| 0 <= t < fs@.len() ==> #[trigger] counts@[t] == calls_of(edges, fs@[t].index),
            decreases n - i,
        {
            if function_matches(&fs[i], self.filter_text.as_str()) {
                let ghost before = out@;
                insert_listed(&mut out, i, fs, &names, &counts, Ghost(edges), col, asc);
                proof {
                    assert(out@.to_set() =~= listed(fs@, self.filter_text@).filter(|x: usize| x < i + 1));
                    assert forall|t: int| 0 <= t < out@.len() implies #[trigger] out@[t] < i + 1 by {
                        assert(out@.to_set().contains(out@[t]));
                    }
                }
            } else {
                proof {
                    assert(out@.to_set() =~= listed(fs@, self.filter_text@).filter(|x: usize| x < i + 1));
                }
            }
            i = i + 1;
        }
        proof {
            assert(listed(fs@, self.filter_text@).filter(|x: usize| x < n) =~= listed(fs@, self.filter_text@));
        }
        self.total_function_count = n;
        self.cached_indices = out;
        self.cache_dirty = false;
    }

    /// A click on a column header: the sorted column flips direction;
    /// another column becomes the sorted one, ascending for names and
    /// descending for sizes and call counts. The cache is to be rebuilt.
    pub fn click_column(&mut self, col: SortColumn)
        ensures
            final(self).sort_column == col,
            final(self).sort_ascending == if old(self).sort_column == col {
                !old(self).sort_ascending
            } else {
                col == SortColumn::Name
            },
            final(self).cache_dirty,
            final(self).filter_text@ == old(self).filter_text@,
            final(self).cached_indices@ == old(self).cached_indices@,
    {
        if self.sort_column == col {
            self.sort_ascending = !self.sort_ascending;
        } else {
            self.sort_column = col;
            self.sort_ascending = col == SortColumn::Name;
        }
        self.cache_dirty = true;
    }

    /// The label of a column header: an arrow marks the sorted column's
    /// direction (`^` ascending, `v` descending).
    pub fn header_label(&self, col: SortColumn) -> (s: &'static str)
        ensures
            s@ == header_text(col, self.sort_column == col, self.sort_ascending),
    {
        let active = self.sort_column == col;
        match col {
            SortColumn::Name => if !active { "Name" } else if self.sort_ascending { "Name ^" } else { "Name v" },
            SortColumn::Size => if !active { "Size" } else if self.sort_ascending { "Size ^" } else { "Size v" },
            SortColumn::Calls => if !active { "Calls" } else if self.sort_ascending { "Calls ^" } else { "Calls v" },
        }
    }
}

/// The text of a column header.
pub open spec fn header_text(col: SortColumn, active: bool, asc: bool) -> Seq<char> {
    match col {
        SortColumn::Name => if !active { "Name"@ } else if asc { "Name ^"@ } else { "Name v"@ },
        SortColumn::Size => if !active { "Size"@ } else if asc { "Size ^"@ } else { "Size v"@ },
        SortColumn::Calls => if !active { "Calls"@ } else if asc { "Calls ^"@ } else { "Calls v"@ },
    }
}

/// How often `caller` occurs in the callers list of `callee`.
pub open spec fn reverse_count(rev: Map<u32, Vec<u32>>, caller: u32, callee: u32) -> nat {
    if rev.contains_key(callee) { value_count(rev[callee]@, caller) } else { 0 }
}

/// Build reverse call graph: callee -> callers. Each call `a -> b` of the
/// edge lists puts `a` into the list of `b` once; only called functions
/// have a list. The order within a list follows the map's iteration order.
pub fn build_reverse_graph(graph: &CallGraph) -> (rev: HashMap<u32, Vec<u32>>)
    ensures
        forall|a: u32, b: u32| #[trigger] reverse_count(rev@, a, b) == edge_count(graph.edges@, a, b),
        forall|b: u32| #[trigger] rev@.contains_key(b) ==> rev@[b]@.len() > 0,
{
    let keys = map_keys(&graph.edges);
    let mut rev: HashMap<u32, Vec<u32>> = HashMap::new();
    let mut i: usize = 0;
    while i < keys.len()
        invariant
            i <= keys@.len(),
            keys@.to_set() == graph.edges@.dom(),
            keys@.no_duplicates(),
            forall|b: u32| #[trigger] rev@.contains_key(b) ==> rev@[b]@.len() > 0,
            forall|a: u32, b: u32| #[trigger] reverse_count(rev@, a, b)
                == if keys@.take(i as int).contains(a) { edge_count(graph.edges@, a, b) } else { 0 },
        decreases keys@.len() - i,
    {
        let a = keys[i];
        proof {
            assert(keys@.to_set().contains(a));
            assert forall|x: u32| keys@.take(i as int).contains(x) implies x != a by {
                let t = choose|t: int| 0 <= t < i && keys@.take(i as int)[t] == x;
                assert(keys@[t] == x);
            }
        }
        let v = match graph.edges.get(&a) {
            Some(v) => v,
            None => { proof { assert(false); } return rev; },
        };
        let mut j: usize = 0;
        while j < v.len()
            invariant
                i < keys@.len(),
                a == keys@[i as int],
                graph.edges@.contains_key(a),
                v@ == graph.edges@[a]@,
                j <= v@.len(),
                forall|x: u32| keys@.take(i as int).contains(x) ==> x != a,
                forall|b: u32| #[trigger] rev@.contains_key(b) ==> rev@[b]@.len() > 0,
                forall|x: u32, b: u32| #[trigger] reverse_count(rev@, x, b)
                    == if keys@.take(i as int).contains(x) { edge_count(graph.edges@, x, b) }
                       else if x == a { value_count(v@.take(j as int), b) } else { 0 },
            decreases v@.len() - j,
        {
            let callee = v[j];
            let ghost before = rev@;
            let mut list = match rev.remove(&callee) {
                Some(l) => l,
                None => Vec::new(),
            };
            let ghost old_list = list@;
            list.push(a);
            rev.insert(callee, list);
            proof {
                assert(v@.take(j + 1).drop_last() =~= v@.take(j as int));
                assert(old_list == if before.contains_key(callee) { before[callee]@ } else { Seq::<u32>::empty() });
                assert forall|x: u32, b: u32| #[trigger] reverse_count(rev@, x, b)
                    == reverse_count(before, x, b) + if x == a && b == callee { 1nat } else { 0nat } by {
                    if b == callee {
                        assert(rev@.contains_key(b));
                        assert(rev@[b]@ == old_list.push(a));
                        assert(old_list.push(a).drop_last() =~= old_list);
                        assert(old_list.push(a).last() == a);
                        assert(value_count(Seq::<u32>::empty(), x) == 0);
                        assert(value_count(old_list.push(a), x) == value_count(old_list, x) + if a == x { 1nat } else { 0nat });
                    } else {
                        assert(rev@.contains_key(b) == before.contains_key(b));
                        if before.contains_key(b) {
                            assert(rev@[b] == before[b]);
                        }
                    }
                }
            }
            j = j + 1;
        }
        proof {
            assert(v@.take(v@.len() as int) =~= v@);
            assert forall|x: u32| keys@.take(i + 1).contains(x) <==> (keys@.take(i as int).contains(x) || x == a) by {
                lemma_take_contains(keys@, i as int, x);
            }
        }
        i = i + 1;
    }
    proof {
        assert(keys@.take(keys@.len() as int) =~= keys@);
        assert forall|a: u32, b: u32| #[trigger] reverse_count(rev@, a, b) == edge_count(graph.edges@, a, b) by {
            if !keys@.contains(a) {
                assert(!keys@.to_set().contains(a));
            }
        }
    }
    rev
}

/// The match count label of the function list: the number listed, and out
/// of how many when a filter is set.
pub open spec fn count_label_text(listed: nat, total: nat, filtering: bool) -> Seq<char> {
    if filtering {
        dec_str(listed) + " of "@ + dec_str(total) + " functions"@
    } else {
        dec_str(listed) + " functions"@
    }
}

impl FunctionListPanel {
    /// The match count label.
    pub fn count_label(&self) -> (s: String)
        ensures
            s@ == count_label_text(self.cached_indices@.len(), self.total_function_count as nat,
                self.filter_text@.len() > 0),
    {
        let mut s = empty_string();
        push_dec(&mut s, self.cached_indices.len() as u64);
        if self.filter_text.as_str().unicode_len() == 0 {
            push_str(&mut s, " functions");
        } else {
            push_str(&mut s, " of ");
            push_dec(&mut s, self.total_function_count as u64);
            push_str(&mut s, " functions");
        }
        s
    }
}

/// The navigation keys pressed in one frame of the inspector.
#[derive(Clone, Copy)]
pub struct CursorKeys {
    /// `j` or arrow down.
    pub down: bool,
    /// `k` or arrow up.
    pub up: bool,
    /// `g` (without shift) or Home.
    pub top: bool,
    /// `G` (with shift) or End.
    pub bottom: bool,
}

/// The cursor position the keys ask for, the first key in the order down,
/// up, top, bottom deciding; `None` when no key is pressed or there are no
/// lines.
pub open spec fn cursor_target(current: nat, line_count: nat, keys: CursorKeys) -> Option<nat> {
    if line_count == 0 {
        None
    } else if keys.down {
        Some(if current + 1 < line_count - 1 { current + 1 } else { (line_count - 1) as nat })
    } else if keys.up {
        Some(if current >= 1 { (current - 1) as nat } else { 0 })
    } else if keys.top {
        Some(0)
    } else if keys.bottom {
        Some((line_count - 1) as nat)
    } else {
        None
    }
}

/// The primary source file of a list of mappings: the file mapped most
/// often, the first seen among equals.
pub open spec fn file_tally(locs: Seq<Option<SourceLocation>>) -> Seq<(Seq<char>, nat)>
    decreases locs.len(),
{
    if locs.len() == 0 {
        Seq::empty()
    } else {
        let prev = file_tally(locs.drop_last());
        match locs.last() {
            Some(l) => match tally_pos(prev, l.file@) {
                Some(i) => prev.update(i, (prev[i].0, prev[i].1 + 1)),
                None => prev.push((l.file@, 1nat)),
            },
            None => prev,
        }
    }
}

/// The position of the entry for file `f`.
pub open spec fn tally_pos(t: Seq<(Seq<char>, nat)>, f: Seq<char>) -> Option<int>
    decreases t.len(),
{
    if t.len() == 0 {
        None
    } else if t[0].0 == f {
        Some(0)
    } else {
        match tally_pos(t.drop_first(), f) {
            Some(i) => Some(i + 1),
            None => None,
        }
    }
}

/// The position of the first largest count among the first `k` entries.
pub open spec fn tally_max(t: Seq<(Seq<char>, nat)>, k: nat) -> int
    decreases k,
{
    if k <= 1 {
        0
    } else {
        let b = tally_max(t, (k - 1) as nat);
        if t[k - 1].1 > t[b].1 { k - 1 } else { b }
    }
}

/// The file mapped most often, if any mapping has one.
pub open spec fn primary_file(locs: Seq<Option<SourceLocation>>) -> Option<Seq<char>> {
    let t = file_tally(locs);
    if t.len() == 0 { None } else { Some(t[tally_max(t, t.len())].0) }
}

spec fn tally_view(v: Seq<(String, u64)>) -> Seq<(Seq<char>, nat)> {
    v.map_values(|e: (String, u64)| (e.0@, e.1 as nat))
}

/// The primary source file of a list of mappings (see `primary_file`).
pub fn primary_source_file(mappings: &Vec<Option<SourceLocation>>) -> (r: Option<String>)
    ensures
        match r {
            Some(f) => primary_file(mappings@) == Some(f@),
            None => primary_file(mappings@) is None,
        },
{
    let mut tally: Vec<(String, u64)> = Vec::new();
    let mut i: usize = 0;
    while i < mappings.len()
        invariant
            i <= mappings@.len(),
            tally_view(tally@) == file_tally(mappings@.take(i as int)),
            forall|t: int| 0 <= t < tally@.len() ==> #[trigger] tally@[t].1 <= i,
        decreases mappings@.len() - i,
    {
        proof {
            assert(mappings@.take(i + 1).drop_last() =~= mappings@.take(i as int));
        }
        match &mappings[i] {
            Some(loc) => {
                let ghost tv = tally_view(tally@);
                let mut p: usize = 0;
                proof {
                    assert(tv.skip(0) =~= tv);
                }
                while p < tally.len() && tally[p].0 != loc.file
                    invariant
                        p <= tally@.len(),
                        tv == tally_view(tally@),
                        tally_pos(tv, loc.file@) == match tally_pos(tv.skip(p as int), loc.file@) {
                            Some(j) => Some(j + p),
                            None => None,
                        },
                    decreases tally@.len() - p,
                {
                    proof {
                        assert(tv.skip(p as int).drop_first() =~= tv.skip(p + 1));
                        assert(tv.skip(p as int)[0] == tv[p as int]);
                    }
                    p = p + 1;
                }
                if p < tally.len() {
                    proof {
                        assert(tv.skip(p as int)[0] == tv[p as int]);
                    }
                    let name = tally[p].0.clone();
                    let count = tally[p].1 + 1;
                    tally.set(p, (name, count));
                    proof {
                        assert(tally_view(tally@) =~= tv.update(p as int, (tv[p as int].0, tv[p as int].1 + 1)));
                    }
                } else {
                    proof {
                        assert(tv.skip(p as int).len() == 0);
                    }
                    tally.push((loc.file.clone(), 1));
                    proof {
                        assert(tally_view(tally@) =~= tv.push((loc.file@, 1nat)));
                    }
                }
            },
            None => {},
        }
        i = i + 1;
    }
    proof {
        assert(mappings@.take(mappings@.len() as int) =~= mappings@);
    }
    if tally.len() == 0 {
        return None;
    }
    let ghost tv = tally_view(tally@);
    let mut best: usize = 0;
    let mut k: usize = 1;
    while k < tally.len()
        invariant
            1 <= k <= tally@.len(),
            tv == tally_view(tally@),
            best < k,
            best as int == tally_max(tv, k as nat),
        decreases tally@.len() - k,
    {
        if tally[k].1 > tally[best].1 {
            best = k;
        }
        k = k + 1;
    }
    Some(tally[best].0.clone())
}

/// Panel state for the inspector: the disassembly, bytes and source
/// mappings of the shown function, and scrolling.
pub struct InspectorPanel {
    /// Cached function index to detect selection changes.
    pub cached_func_index: Option<u32>,
    /// Cached WAT lines for current function.
    pub cached_wat_lines: Vec<WatLine>,
    /// Cached function body bytes.
    pub cached_hex_bytes: Vec<u8>,
    /// Cached source mappings: instruction index -> SourceLocation.
    pub cached_source_mappings: Vec<Option<SourceLocation>>,
    /// Cached source file content: path -> lines.
    pub source_file_cache: HashMap<String, Vec<String>>,
    /// Current source file path (for display).
    pub cached_source_path: Option<String>,
    /// Current source file lines (for current function).
    pub cached_source_lines: Vec<String>,
    /// Current source line number (1-indexed, from DWARF).
    pub cached_current_source_line: Option<u32>,
    /// Last cursor position that triggered scroll (to avoid redundant scrolls).
    pub last_scrolled_cursor: Option<usize>,
}

/// The byte range of the instruction at `cursor`: from its offset to the
/// next line's offset, or for the last line at most 4 bytes (not past the
/// bytes); only a non-empty range starting within the bytes.
pub open spec fn instruction_range(lines: Seq<WatLine>, hex_len: nat, cursor: nat) -> Option<(nat, nat)> {
    if cursor >= lines.len() {
        None
    } else {
        let start = lines[cursor as int].offset as nat;
        let end = if cursor + 1 < lines.len() {
            lines[(cursor + 1) as int].offset as nat
        } else if start + 4 < hex_len {
            start + 4
        } else {
            hex_len
        };
        if start < end && start < hex_len { Some((start, end)) } else { None }
    }
}

impl InspectorPanel {
    /// Create a new inspector panel with empty cache.
    pub fn new() -> (p: InspectorPanel)
        ensures
            p.cached_func_index is None,
            p.cached_wat_lines@.len() == 0,
            p.cached_hex_bytes@.len() == 0,
            p.cached_source_mappings@.len() == 0,
            p.source_file_cache@ == Map::<String, Vec<String>>::empty(),
            p.cached_source_path is None,
            p.cached_source_lines@.len() == 0,
            p.cached_current_source_line is None,
            p.last_scrolled_cursor is None,
    {
        InspectorPanel {
            cached_func_index: None,
            cached_wat_lines: Vec::new(),
            cached_hex_bytes: Vec::new(),
            cached_source_mappings: Vec::new(),
            source_file_cache: HashMap::new(),
            cached_source_path: None,
            cached_source_lines: Vec::new(),
            cached_current_source_line: None,
            last_scrolled_cursor: None,
        }
    }

    /// Whether the caches hold another function than `func_index`.
    pub fn needs_update(&self, func_index: u32) -> (r: bool)
        ensures
            r == (self.cached_func_index != Some(func_index)),
    {
        match self.cached_func_index {
            Some(f) => f != func_index,
            None => true,
        }
    }

    /// Installs a newly selected function: its disassembly, body bytes and
    /// per-line source mappings; the primary source file is the one mapped
    /// most often, and the cursor returns to the first line.
    pub fn install_function(
        &mut self,
        func_index: u32,
        wat_lines: Vec<WatLine>,
        hex_bytes: Vec<u8>,
        mappings: Vec<Option<SourceLocation>>,
        selection: &mut SelectionState,
    )
        ensures
            final(self).cached_func_index == Some(func_index),
            final(self).cached_wat_lines@ == wat_lines@,
            final(self).cached_hex_bytes@ == hex_bytes@,
            final(self).cached_source_mappings@ == mappings@,
            match final(self).cached_source_path {
                Some(f) => primary_file(mappings@) == Some(f@),
                None => primary_file(mappings@) is None,
            },
            final(self).source_file_cache@ == old(self).source_file_cache@,
            final(selection).instruction_cursor == 0,
            final(selection).selected_function == old(selection).selected_function,
            final(selection).expanded_nodes@ == old(selection).expanded_nodes@,
            final(selection).active_tab == old(selection).active_tab,
    {
        self.cached_func_index = Some(func_index);
        self.cached_source_path = primary_source_file(&mappings);
        self.cached_wat_lines = wat_lines;
        self.cached_hex_bytes = hex_bytes;
        self.cached_source_mappings = mappings;
        selection.instruction_cursor = 0;
    }

    /// Get the current source line number for the given cursor position.
    pub fn current_source_line(&self, cursor: usize) -> (r: Option<u32>)
        ensures
            r == if cursor < self.cached_source_mappings@.len() {
                match self.cached_source_mappings@[cursor as int] {
                    Some(loc) => Some(loc.line),
                    None => None,
                }
            } else {
                None
            },
    {
        if cursor < self.cached_source_mappings.len() {
            match &self.cached_source_mappings[cursor] {
                Some(loc) => Some(loc.line),
                None => None,
            }
        } else {
            None
        }
    }

    /// Calculate the byte range for the current instruction.
    pub fn instruction_byte_range(&self, cursor: usize) -> (r: Option<Range<usize>>)
        ensures
            match r {
                Some(rg) => instruction_range(self.cached_wat_lines@, self.cached_hex_bytes@.len(), cursor as nat)
                    == Some((rg.start as nat, rg.end as nat)),
                None => instruction_range(self.cached_wat_lines@, self.cached_hex_bytes@.len(), cursor as nat) is None,
            },
    {
        if cursor >= self.cached_wat_lines.len() {
            return None;
        }
        let start = self.cached_wat_lines[cursor].offset;
        let hex_len = self.cached_hex_bytes.len();
        if start >= hex_len {
            return None;
        }
        let end = if cursor + 1 < self.cached_wat_lines.len() {
            self.cached_wat_lines[cursor + 1].offset
        } else if hex_len - start > 4 {
            start + 4
        } else {
            hex_len
        };
        if start < end {
            Some(Range { start, end })
        } else {
            None
        }
    }

    /// Applies the navigation keys of one frame: the cursor moves to the
    /// position the keys ask for; the new position is returned when it
    /// changed.
    pub fn handle_keyboard(&self, selection: &mut SelectionState, line_count: usize, keys: CursorKeys) -> (r: Option<usize>)
        ensures
            match cursor_target(old(selection).instruction_cursor as nat, line_count as nat, keys) {
                Some(p) => if p != old(selection).instruction_cursor {
                    r == Some(p as usize) && final(selection).instruction_cursor == p
                } else {
                    r is None && final(selection).instruction_cursor == old(selection).instruction_cursor
                },
                None => r is None && final(selection).instruction_cursor == old(selection).instruction_cursor,
            },
            final(selection).selected_function == old(selection).selected_function,
            final(selection).expanded_nodes@ == old(selection).expanded_nodes@,
            final(selection).active_tab == old(selection).active_tab,
    {
        if line_count == 0 {
            return None;
        }
        let current = selection.instruction_cursor;
        let new_pos = if keys.down {
            Some(if current < line_count - 1 && current + 1 < line_count - 1 { current + 1 } else { line_count - 1 })
        } else if keys.up {
            Some(if current >= 1 { current - 1 } else { 0 })
        } else if keys.top {
            Some(0)
        } else if keys.bottom {
            Some(line_count - 1)
        } else {
            None
        };
        match new_pos {
            Some(p) => {
                if p != current {
                    selection.instruction_cursor = p;
                    Some(p)
                } else {
                    None
                }
            },
            None => None,
        }
    }

    /// Decides where the views scroll this frame: to the cursor after a
    /// function change, to the keyboard's new position, or to the cursor
    /// when it moved otherwise (a click); the cursor scrolled to is
    /// remembered.
    pub fn scroll_target(&mut self, cache_updated: bool, keyboard_scroll: Option<usize>, cursor: usize) -> (r: Option<usize>)
        ensures
            r == if cache_updated {
                Some(cursor)
            } else if keyboard_scroll is Some {
                keyboard_scroll
            } else if old(self).last_scrolled_cursor != Some(cursor) {
                Some(cursor)
            } else {
                None
            },
            final(self).last_scrolled_cursor == if cache_updated || keyboard_scroll is Some
                || old(self).last_scrolled_cursor != Some(cursor) {
                Some(cursor)
            } else {
                old(self).last_scrolled_cursor
            },
            final(self).cached_wat_lines@ == old(self).cached_wat_lines@,
            final(self).cached_hex_bytes@ == old(self).cached_hex_bytes@,
            final(self).cached_source_mappings@ == old(self).cached_source_mappings@,
    {
        if cache_updated {
            self.last_scrolled_cursor = Some(cursor);
            Some(cursor)
        } else if keyboard_scroll.is_some() {
            self.last_scrolled_cursor = Some(cursor);
            keyboard_scroll
        } else {
            let same = match self.last_scrolled_cursor {
                Some(c) => c == cursor,
                None => false,
            };
            if !same {
                self.last_scrolled_cursor = Some(cursor);
                Some(cursor)
            } else {
                None
            }
        }
    }
}

/// The number of rows of a hex view with `per_row` bytes a row.
pub fn hex_row_count(len: usize, per_row: usize) -> (r: usize)
    requires
        per_row > 0,
    ensures
        r == (len + per_row - 1) / (per_row as int),
{
    proof {
        assert(len % per_row != 0 ==> len / per_row < usize::MAX) by (nonlinear_arith)
            requires per_row > 0, len <= usize::MAX;
    }
    let r = len / per_row + if len % per_row == 0 { 0 } else { 1 };
    proof {
        assert(r == (len + per_row - 1) / (per_row as int)) by (nonlinear_arith)
            requires r == len / per_row + if len % per_row == 0 { 0int } else { 1int }, per_row > 0;
    }
    r
}

impl Default for CallTreePanel {
    fn default() -> (p: CallTreePanel)
        ensures
            p.filter_text@.len() == 0,
            !p.filter_focused,
            p.focus_path is None,
    {
        CallTreePanel::new()
    }
}

impl Default for SizeTreePanel {
    fn default() -> (p: SizeTreePanel)
        ensures
            p.filter_text@.len() == 0,
            !p.filter_focused,
            p.focus_path is None,
    {
        SizeTreePanel::new()
    }
}

impl Default for CallersTreePanel {
    fn default() -> (p: CallersTreePanel)
        ensures
            p.filter_text@.len() == 0,
            !p.filter_focused,
    {
        CallersTreePanel::new()
    }
}

impl Default for FunctionListPanel {
    fn default() -> (p: FunctionListPanel)
        ensures
            p.filter_text@.len() == 0,
            p.sort_column == SortColumn::Size,
            !p.sort_ascending,
            p.cached_indices@.len() == 0,
            p.cache_dirty,
            p.total_function_count == 0,
    {
        FunctionListPanel::new()
    }
}

impl Default for InspectorPanel {
    fn default() -> (p: InspectorPanel)
        ensures
            p.cached_func_index is None,
            p.cached_wat_lines@.len() == 0,
            p.cached_hex_bytes@.len() == 0,
            p.cached_source_mappings@.len() == 0,
            p.cached_source_path is None,
            p.cached_source_lines@.len() == 0,
            p.cached_current_source_line is None,
            p.last_scrolled_cursor is None,
    {
        InspectorPanel::new()
    }
}

} // verus!
