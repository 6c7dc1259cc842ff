use wasm_poke::{function_matches, FunctionInfo};

fn make_func() -> FunctionInfo {
    FunctionInfo {
        index: 0,
        code_size: 100,
        body_range: None,
        demangled_name: Some("demangled::function_name".to_string()),
        raw_name: Some("_ZN9demangled13function_nameE".to_string()),
        export_names: vec!["export_name".to_string()],
    }
}

#[test]
fn test_single_term() {
    let f = make_func();
    assert!(function_matches(&f, "demangled"));
    assert!(function_matches(&f, "function"));
}

#[test]
fn test_multi_term() {
    let f = make_func();
    assert!(function_matches(&f, "demangled function"));
    assert!(function_matches(&f, "demangled name"));
    assert!(!function_matches(&f, "demangled foo"));
}

#[test]
fn test_demangled_priority() {
    let f = make_func();
    assert!(function_matches(&f, "ZN9"));
    assert!(function_matches(&f, "export"));
}

#[test]
fn test_case_insensitivity() {
    let f = make_func();
    assert!(function_matches(&f, "DEMANGLED"));
    assert!(function_matches(&f, "Function"));
}

#[test]
fn test_no_demangled() {
    let mut f = make_func();
    f.demangled_name = None;
    assert!(function_matches(&f, "ZN9"));
    assert!(function_matches(&f, "export"));
    assert!(function_matches(&f, "ZN9 export"));
}

#[test]
fn test_fallback() {
    let mut f = make_func();
    f.demangled_name = None;
    f.raw_name = None;
    f.export_names.clear();
    assert!(function_matches(&f, "func"));
    assert!(function_matches(&f, "0"));
    assert!(!function_matches(&f, "func[1]"));
}

#[test]
fn blank_search_matches_everything() {
    let f = make_func();
    assert!(function_matches(&f, ""));
    assert!(function_matches(&f, "   \t "));
}

#[test]
fn two_terms_need_both() {
    let f = make_func();
    assert!(function_matches(&f, "export   demangled"));
    assert!(!function_matches(&f, "export nothing_like_it"));
    assert!(!function_matches(&f, "nothing_like_it export"));
}

#[test]
fn star_pattern_is_anchored() {
    let f = make_func();
    assert!(function_matches(&f, "demangled*"));
    assert!(!function_matches(&f, "function*"));
    assert!(function_matches(&f, "*name"));
}

#[test]
fn fallback_name_only_when_unnamed() {
    let f = make_func();
    assert_eq!(f.best_name(), "demangled::function_name");
    let mut g = make_func();
    g.demangled_name = None;
    assert_eq!(g.best_name(), "_ZN9demangled13function_nameE");
    g.raw_name = None;
    assert_eq!(g.best_name(), "export_name");
    g.export_names.clear();
    g.index = 42;
    assert_eq!(g.best_name(), "func[42]");
}
