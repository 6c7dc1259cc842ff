use std::collections::{HashMap, HashSet};

use wasm_poke::panels::{call_tree_node, child_path, hex_row_count, primary_source_file, CursorKeys, NodeKind, TreeKeys};
use wasm_poke::{
    build_reverse_graph, CallGraph, CallTreePanel, CallersTreePanel, FunctionInfo, FunctionListPanel,
    InspectorPanel, SelectionState, SizeTreePanel, SortColumn, SourceLocation, TabKind, WasmModuleInfo, WatLine,
};

fn func(index: u32, size: u32, name: &str) -> FunctionInfo {
    FunctionInfo {
        index,
        code_size: size,
        body_range: None,
        export_names: vec![],
        raw_name: Some(name.to_string()),
        demangled_name: None,
    }
}

fn module() -> WasmModuleInfo {
    WasmModuleInfo {
        total_code_size: 100,
        imported_functions: 1,
        defined_functions: 4,
        functions: vec![func(1, 40, "Zeta"), func(2, 10, "alpha"), func(3, 40, "beta"), func(4, 10, "Gamma")],
    }
}

fn graph() -> CallGraph {
    let mut edges = HashMap::new();
    edges.insert(1, vec![2, 3]);
    edges.insert(2, vec![3, 0]);
    edges.insert(3, vec![1]);
    edges.insert(4, vec![]);
    let mut has_indirect = HashMap::new();
    for k in [1u32, 2, 3, 4] {
        has_indirect.insert(k, false);
    }
    CallGraph { edges, has_indirect }
}

#[test]
fn tab_titles() {
    assert_eq!(TabKind::FunctionList.title(), "Functions");
    assert_eq!(TabKind::CallTree.title(), "Call Graph");
    assert_eq!(TabKind::Callers.title(), "Callers");
    assert_eq!(TabKind::SizeTree.title(), "Size Tree");
    assert_eq!(TabKind::Inspector.title(), "Inspector");
}

#[test]
fn selection_expand_and_collapse() {
    let mut s = SelectionState::default();
    assert_eq!(s.primary_selection(), None);
    s.select_single(7);
    assert!(s.is_selected(7));
    assert!(!s.is_selected(8));
    assert_eq!(s.last_selected(), Some(7));
    let p = vec![(1u32, 0usize), (2, 1)];
    assert!(!s.is_expanded(&p));
    s.expand(&p);
    s.expand(&p);
    assert!(s.is_expanded(&p));
    assert_eq!(s.expanded_nodes.len(), 1);
    s.collapse(&p);
    assert!(!s.is_expanded(&p));
    assert!(s.expanded_nodes.is_empty());
}

#[test]
fn panels_start_empty() {
    let c = CallTreePanel::new();
    assert!(c.filter_text.is_empty() && !c.filter_focused && c.focus_path.is_none());
    let s = SizeTreePanel::new();
    assert!(s.filter_text.is_empty() && !s.filter_focused && s.focus_path.is_none());
    let r = CallersTreePanel::new();
    assert!(r.filter_text.is_empty() && !r.filter_focused);
    let f = FunctionListPanel::new();
    assert_eq!(f.sort_column, SortColumn::Size);
    assert!(!f.sort_ascending && f.cache_dirty && f.cached_indices.is_empty());
    let i = InspectorPanel::new();
    assert!(i.cached_func_index.is_none() && i.cached_wat_lines.is_empty());
    assert_eq!(SortColumn::default(), SortColumn::Size);
}

#[test]
fn count_calls_counts_every_occurrence() {
    let g = graph();
    assert_eq!(FunctionListPanel::count_calls(3, Some(&g)), 2);
    assert_eq!(FunctionListPanel::count_calls(1, Some(&g)), 1);
    assert_eq!(FunctionListPanel::count_calls(4, Some(&g)), 0);
    assert_eq!(FunctionListPanel::count_calls(3, None), 0);
}

#[test]
fn rebuild_cache_sorts_stably_in_each_column() {
    let m = module();
    let g = graph();
    let mut p = FunctionListPanel::new();
    p.rebuild_cache(&m, Some(&g));
    assert_eq!(p.cached_indices, vec![0, 2, 1, 3]);
    assert_eq!(p.total_function_count, 4);
    assert!(!p.cache_dirty);
    p.click_column(SortColumn::Name);
    assert!(p.sort_ascending);
    p.rebuild_cache(&m, Some(&g));
    assert_eq!(p.cached_indices, vec![1, 2, 3, 0]);
    p.click_column(SortColumn::Name);
    assert!(!p.sort_ascending);
    p.rebuild_cache(&m, Some(&g));
    assert_eq!(p.cached_indices, vec![0, 3, 2, 1]);
    p.click_column(SortColumn::Calls);
    assert!(!p.sort_ascending);
    p.rebuild_cache(&m, Some(&g));
    assert_eq!(p.cached_indices, vec![2, 0, 1, 3]);
    p.click_column(SortColumn::Size);
    p.click_column(SortColumn::Size);
    assert!(p.sort_ascending);
    p.rebuild_cache(&m, Some(&g));
    assert_eq!(p.cached_indices, vec![1, 3, 0, 2]);
}

#[test]
fn rebuild_cache_filters() {
    let m = module();
    let mut p = FunctionListPanel::new();
    p.filter_text = "a".to_string();
    p.rebuild_cache(&m, None);
    assert_eq!(p.cached_indices, vec![0, 2, 1, 3]);
    p.filter_text = "alpha".to_string();
    p.rebuild_cache(&m, None);
    assert_eq!(p.cached_indices, vec![1]);
    assert_eq!(p.count_label(), "1 of 4 functions");
    p.filter_text.clear();
    p.rebuild_cache(&m, None);
    assert_eq!(p.count_label(), "4 functions");
}

#[test]
fn header_labels() {
    let mut p = FunctionListPanel::new();
    assert_eq!(p.header_label(SortColumn::Size), "Size v");
    assert_eq!(p.header_label(SortColumn::Name), "Name");
    p.click_column(SortColumn::Name);
    assert_eq!(p.header_label(SortColumn::Name), "Name ^");
    assert_eq!(p.header_label(SortColumn::Calls), "Calls");
}

#[test]
fn reverse_graph_lists_callers() {
    let g = graph();
    let rev = build_reverse_graph(&g);
    let mut c3 = rev.get(&3).cloned().unwrap();
    c3.sort();
    assert_eq!(c3, vec![1, 2]);
    assert_eq!(rev.get(&1), Some(&vec![3]));
    assert_eq!(rev.get(&0), Some(&vec![2]));
    assert_eq!(rev.get(&4), None);
    assert_eq!(rev.len(), 4);
}

#[test]
fn subtree_matching_respects_depth_and_cycles() {
    let m = module();
    let g = graph();
    let mut visited = HashSet::new();
    assert!(CallTreePanel::subtree_contains_match(1, "gamma", &m, &g, &mut visited, 0) == false);
    assert!(CallTreePanel::subtree_contains_match(2, "zeta", &m, &g, &mut visited, 0));
    assert!(visited.is_empty());
    assert!(!SizeTreePanel::subtree_contains_match(2, "zeta", &m, &g, &mut visited, 5));
    visited.insert(2);
    assert!(!SizeTreePanel::subtree_contains_match(2, "alpha", &m, &g, &mut visited, 0));
    assert_eq!(visited.len(), 1);
    assert!(CallTreePanel::matches_filter(&m.functions[0], ""));
    assert!(SizeTreePanel::matches_filter(&m.functions[0], "zet"));
    assert!(!SizeTreePanel::matches_filter(&m.functions[0], "alpha"));
}

#[test]
fn tree_nodes() {
    let m = module();
    let g = graph();
    let visited: HashSet<u32> = HashSet::new();
    let root = call_tree_node("", &None, &m, &g, 1, 0, &vec![], &visited);
    assert!(root.visible && !root.highlighted && !root.focused);
    assert_eq!(root.path, vec![(1, 0)]);
    assert_eq!(root.kind, NodeKind::Expandable);
    let mut on_path = HashSet::new();
    on_path.insert(1u32);
    let child = child_path(&root.path, 3, 1);
    assert_eq!(child, vec![(1, 0), (3, 1)]);
    let n = call_tree_node("beta", &Some(child.clone()), &m, &g, 3, 1, &child, &on_path);
    assert!(n.visible && n.highlighted && n.focused);
    assert_eq!(n.kind, NodeKind::Expandable);
    let back = call_tree_node("", &None, &m, &g, 1, 2, &vec![(1, 0), (3, 1), (1, 0)], &on_path);
    assert_eq!(back.kind, NodeKind::Recursive);
    let deep = call_tree_node("", &None, &m, &g, 2, 5, &vec![(2, 0)], &visited);
    assert_eq!(deep.kind, NodeKind::DepthLimit);
    let leaf = call_tree_node("", &None, &m, &g, 4, 1, &vec![(4, 0)], &visited);
    assert_eq!(leaf.kind, NodeKind::Leaf);
    let hidden = call_tree_node("nothing", &None, &m, &g, 4, 1, &vec![(4, 0)], &visited);
    assert!(!hidden.visible);
}

fn keys() -> TreeKeys {
    TreeKeys { down: false, up: false, select: false, expand: false, collapse: false, top: false, bottom: false }
}

#[test]
fn tree_keyboard_navigation() {
    let visible = vec![vec![(1u32, 0usize)], vec![(1, 0), (2, 0)], vec![(1, 0), (3, 1)]];
    let mut panel = CallTreePanel::new();
    let mut sel = SelectionState::default();
    panel.handle_keyboard(&mut sel, &visible, TreeKeys { down: true, ..keys() });
    assert_eq!(panel.focus_path, Some(visible[1].clone()));
    panel.handle_keyboard(&mut sel, &visible, TreeKeys { down: true, ..keys() });
    panel.handle_keyboard(&mut sel, &visible, TreeKeys { down: true, ..keys() });
    assert_eq!(panel.focus_path, Some(visible[2].clone()));
    panel.handle_keyboard(&mut sel, &visible, TreeKeys { select: true, ..keys() });
    assert_eq!(sel.selected_function, Some(3));
    panel.handle_keyboard(&mut sel, &visible, TreeKeys { expand: true, ..keys() });
    assert!(sel.is_expanded(&visible[2]));
    panel.handle_keyboard(&mut sel, &visible, TreeKeys { collapse: true, ..keys() });
    assert!(!sel.is_expanded(&visible[2]));
    assert_eq!(panel.focus_path, Some(visible[2].clone()));
    panel.handle_keyboard(&mut sel, &visible, TreeKeys { collapse: true, ..keys() });
    assert_eq!(panel.focus_path, Some(vec![(1, 0)]));
    panel.handle_keyboard(&mut sel, &visible, TreeKeys { bottom: true, ..keys() });
    assert_eq!(panel.focus_path, Some(visible[2].clone()));
    panel.handle_keyboard(&mut sel, &visible, TreeKeys { top: true, ..keys() });
    assert_eq!(panel.focus_path, Some(visible[0].clone()));
    panel.handle_keyboard(&mut sel, &visible, TreeKeys { up: true, ..keys() });
    assert_eq!(panel.focus_path, Some(visible[0].clone()));
    panel.filter_focused = true;
    panel.handle_keyboard(&mut sel, &visible, TreeKeys { down: true, ..keys() });
    assert_eq!(panel.focus_path, Some(visible[0].clone()));
}

fn loc(file: &str, line: u32) -> Option<SourceLocation> {
    Some(SourceLocation { file: file.to_string(), line, column: 0 })
}

fn wat(text: &str, offset: usize) -> WatLine {
    WatLine { text: text.to_string(), offset, indent: 0, src: None }
}

#[test]
fn inspector_caches_and_cursor() {
    let mut p = InspectorPanel::new();
    let mut sel = SelectionState::default();
    sel.instruction_cursor = 5;
    assert!(p.needs_update(1));
    let lines = vec![wat(";; func [1]", 0), wat("call 0", 1), wat("end", 3)];
    let maps = vec![None, loc("b.rs", 7), loc("a.rs", 9)];
    p.install_function(1, lines, vec![0x00, 0x10, 0x00, 0x0b], maps, &mut sel);
    assert!(!p.needs_update(1));
    assert!(p.needs_update(2));
    assert_eq!(sel.instruction_cursor, 0);
    assert_eq!(p.cached_source_path.as_deref(), Some("b.rs"));
    assert_eq!(p.current_source_line(1), Some(7));
    assert_eq!(p.current_source_line(0), None);
    assert_eq!(p.current_source_line(9), None);
    assert_eq!(p.instruction_byte_range(0), Some(0..1));
    assert_eq!(p.instruction_byte_range(1), Some(1..3));
    assert_eq!(p.instruction_byte_range(2), Some(3..4));
    assert_eq!(p.instruction_byte_range(3), None);
    let down = CursorKeys { down: true, up: false, top: false, bottom: false };
    assert_eq!(p.handle_keyboard(&mut sel, 3, down), Some(1));
    assert_eq!(p.handle_keyboard(&mut sel, 3, down), Some(2));
    assert_eq!(p.handle_keyboard(&mut sel, 3, down), None);
    let top = CursorKeys { down: false, up: false, top: true, bottom: false };
    assert_eq!(p.handle_keyboard(&mut sel, 3, top), Some(0));
    assert_eq!(p.handle_keyboard(&mut sel, 0, top), None);
    assert_eq!(p.scroll_target(true, None, 0), Some(0));
    assert_eq!(p.scroll_target(false, None, 0), None);
    assert_eq!(p.scroll_target(false, None, 2), Some(2));
    assert_eq!(p.scroll_target(false, Some(1), 1), Some(1));
}

#[test]
fn primary_source_file_prefers_most_mapped_then_first_seen() {
    assert_eq!(primary_source_file(&vec![None, None]), None);
    let m = vec![loc("a.rs", 1), loc("b.rs", 2), loc("b.rs", 3), None, loc("a.rs", 4)];
    assert_eq!(primary_source_file(&m).as_deref(), Some("a.rs"));
    let m2 = vec![loc("a.rs", 1), loc("b.rs", 2), loc("b.rs", 3)];
    assert_eq!(primary_source_file(&m2).as_deref(), Some("b.rs"));
}

#[test]
fn hex_rows() {
    assert_eq!(hex_row_count(0, 8), 0);
    assert_eq!(hex_row_count(8, 8), 1);
    assert_eq!(hex_row_count(9, 8), 2);
    assert_eq!(hex_row_count(usize::MAX, 1), usize::MAX);
}

#[test]
fn call_counts_match_callers_lists() {
    let g = graph();
    let rev = build_reverse_graph(&g);
    for t in 0u32..6 {
        let callers = rev.get(&t).map_or(0, |v| v.len());
        assert_eq!(FunctionListPanel::count_calls(t, Some(&g)), callers, "function {}", t);
    }
}

#[test]
fn down_then_up_returns() {
    let visible = vec![vec![(1u32, 0usize)], vec![(1, 0), (2, 0)], vec![(1, 0), (3, 1)]];
    let mut panel = SizeTreePanel::new();
    let mut sel = SelectionState::default();
    panel.focus_path = Some(visible[1].clone());
    panel.handle_keyboard(&mut sel, &visible, TreeKeys { down: true, ..keys() });
    panel.handle_keyboard(&mut sel, &visible, TreeKeys { up: true, ..keys() });
    assert_eq!(panel.focus_path, Some(visible[1].clone()));
    let p = InspectorPanel::new();
    sel.instruction_cursor = 3;
    let down = CursorKeys { down: true, up: false, top: false, bottom: false };
    let up = CursorKeys { down: false, up: true, top: false, bottom: false };
    assert_eq!(p.handle_keyboard(&mut sel, 10, down), Some(4));
    assert_eq!(p.handle_keyboard(&mut sel, 10, up), Some(3));
}
