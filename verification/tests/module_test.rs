use wasm_poke::dwarf::init_dwarf_context as init_ctx;
use wasm_poke::{
    build_call_graph, disassemble_function_listing, filter_functions, function_body_bytes,
    function_source_span, hexdump, init_dwarf_context, map_instr_to_source, map_instr_to_source_fast,
    map_wat_line_to_source_cached, parse_wasm_from_bytes, sorted_by_size, unique_cumulative_size,
    FunctionInfo, WasmError, WasmModuleInfo, WatLine, WatText,
};

/// Two functions of type `() -> ()`: function 0 is empty and named
/// `_ZN4test6helperE`, function 1 calls function 0 and is exported as `main`.
const MODULE: &[u8] = &[
    0x00, 0x61, 0x73, 0x6d, 0x01, 0x00, 0x00, 0x00, // header
    0x01, 0x04, 0x01, 0x60, 0x00, 0x00, // type section
    0x03, 0x03, 0x02, 0x00, 0x00, // function section
    0x07, 0x08, 0x01, 0x04, b'm', b'a', b'i', b'n', 0x00, 0x01, // export section
    0x0a, 0x09, 0x02, 0x02, 0x00, 0x0b, 0x04, 0x00, 0x10, 0x00, 0x0b, // code section
    0x00, 0x1a, 0x04, b'n', b'a', b'm', b'e', 0x01, 0x13, 0x01, 0x00, 0x10, // name section
    b'_', b'Z', b'N', b'4', b't', b'e', b's', b't', b'6', b'h', b'e', b'l', b'p', b'e', b'r', b'E',
];

#[test]
fn lib_parse_invalid_bytes() {
    let bytes = b"\0asm\x01\0\0\0";
    let res = parse_wasm_from_bytes(bytes);
    let info = res.expect("empty module should parse");
    assert_eq!(info.defined_functions, 0);
    assert_eq!(info.functions.len(), 0);
    assert_eq!(info.total_code_size, 0);
}

#[test]
fn parser_parse_invalid_bytes() {
    let bytes = b"\0asm\x01\0\0\0";
    let res = parse_wasm_from_bytes(bytes);
    let info = res.expect("empty module should parse");
    assert_eq!(info.defined_functions, 0);
    assert_eq!(info.functions.len(), 0);
    assert_eq!(info.total_code_size, 0);
}

#[test]
fn garbage_is_malformed() {
    match parse_wasm_from_bytes(b"not wasm at all") {
        Err(WasmError::Malformed { .. }) => {}
        other => panic!("unexpected: {:?}", other.map(|m| m.functions.len())),
    }
}

#[test]
fn truncated_module_is_an_error() {
    assert!(parse_wasm_from_bytes(&MODULE[..33]).is_err());
}

#[test]
fn parses_sizes_names_and_exports() {
    let info = parse_wasm_from_bytes(MODULE).unwrap();
    assert_eq!(info.imported_functions, 0);
    assert_eq!(info.defined_functions, 2);
    assert_eq!(info.total_code_size, 6);
    let f0 = &info.functions[0];
    assert_eq!(f0.index, 0);
    assert_eq!(f0.code_size, 2);
    assert_eq!(f0.body_range, Some(33..35));
    assert_eq!(f0.raw_name.as_deref(), Some("_ZN4test6helperE"));
    assert_eq!(f0.demangled_name.as_deref(), Some("test::helper"));
    assert_eq!(f0.best_name(), "test::helper");
    let f1 = &info.functions[1];
    assert_eq!(f1.index, 1);
    assert_eq!(f1.code_size, 4);
    assert_eq!(f1.body_range, Some(36..40));
    assert_eq!(f1.export_names, vec!["main".to_string()]);
    assert_eq!(f1.raw_name, None);
    assert_eq!(f1.demangled_name, None);
    assert_eq!(f1.best_name(), "main");
}

#[test]
fn call_graph_of_module() {
    let g = build_call_graph(MODULE).unwrap();
    assert_eq!(g.edges.get(&0), Some(&vec![]));
    assert_eq!(g.edges.get(&1), Some(&vec![0]));
    assert_eq!(g.has_indirect.get(&0), Some(&false));
    assert_eq!(g.has_indirect.get(&1), Some(&false));
    assert_eq!(g.edges.len(), 2);
}

#[test]
fn cumulative_size_counts_each_reachable_function_once() {
    let info = parse_wasm_from_bytes(MODULE).unwrap();
    let g = build_call_graph(MODULE).unwrap();
    assert_eq!(unique_cumulative_size(1, &info, &g), (6, 2));
    assert_eq!(unique_cumulative_size(0, &info, &g), (2, 1));
    // an unknown root still counts itself, with no size
    assert_eq!(unique_cumulative_size(7, &info, &g), (0, 1));
}

#[test]
fn cumulative_size_handles_cycles() {
    let mut info = parse_wasm_from_bytes(MODULE).unwrap();
    info.functions[0].code_size = 10;
    let mut g = build_call_graph(MODULE).unwrap();
    g.edges.insert(0, vec![1, 0, 1]);
    assert_eq!(unique_cumulative_size(0, &info, &g), (14, 2));
}

#[test]
fn body_bytes_of_functions() {
    let info = parse_wasm_from_bytes(MODULE).unwrap();
    assert_eq!(function_body_bytes(&info, MODULE, 1), Some(&[0x00u8, 0x10, 0x00, 0x0b][..]));
    assert_eq!(function_body_bytes(&info, MODULE, 0), Some(&[0x00u8, 0x0b][..]));
    assert_eq!(function_body_bytes(&info, MODULE, 9), None);
}

fn text(e: &WatText) -> String {
    match e {
        WatText::Text(s) => s.clone(),
        WatText::F32Const(b) => format!("f32 {b}"),
        WatText::F64Const(b) => format!("f64 {b}"),
    }
}

#[test]
fn listing_of_calling_function() {
    let listing = disassemble_function_listing(MODULE, 1).unwrap();
    let lines: Vec<(String, usize, usize)> =
        listing.entries.iter().map(|e| (text(&e.text), e.offset, e.indent)).collect();
    assert_eq!(
        lines,
        vec![
            (";; func [1]".to_string(), 0, 0),
            ("(func".to_string(), 0, 0),
            ("  ;; body".to_string(), 0, 0),
            ("call 0".to_string(), 1, 0),
            ("end".to_string(), 3, 0),
            (")".to_string(), 0, 0),
        ]
    );
}

#[test]
fn listing_of_missing_function_is_not_found() {
    match disassemble_function_listing(MODULE, 5) {
        Err(WasmError::FunctionNotFound(5)) => {}
        _ => panic!("expected FunctionNotFound(5)"),
    }
}

#[test]
fn hexdump_lines_and_gutter() {
    assert_eq!(
        hexdump(b"\0asmAB", 4),
        "00000000: 00 61 73 6d  |.asm|\n00000004: 41 42        |AB|\n"
    );
    assert_eq!(hexdump(b"abc", 0), "");
    assert_eq!(hexdump(b"", 16), "");
}

#[test]
fn dwarf_context_without_debug_info() {
    let dc = init_dwarf_context(MODULE).expect("a module without debug info still has a context");
    assert_eq!(dc.first_body_start(), 33);
    assert!(init_ctx(b"definitely not an object file").is_none());
    let info = parse_wasm_from_bytes(MODULE).unwrap();
    assert!(map_instr_to_source_fast(&info, MODULE, 1, 1).is_none());
    assert!(map_instr_to_source_fast(&info, MODULE, 9, 1).is_none());
    assert!(map_instr_to_source(MODULE, 1, 1).is_none());
    assert!(function_source_span(MODULE, 1).is_none());
    let wl = WatLine { text: "call 0".to_string(), offset: 1, indent: 0, src: None };
    assert!(map_wat_line_to_source_cached(&info, MODULE, 1, &wl).is_none());
}

fn named(index: u32, size: u32, name: &str) -> FunctionInfo {
    FunctionInfo {
        index,
        code_size: size,
        body_range: None,
        export_names: vec![],
        raw_name: Some(name.to_string()),
        demangled_name: None,
    }
}

#[test]
fn sorting_and_filtering() {
    let module = WasmModuleInfo {
        total_code_size: 60,
        imported_functions: 0,
        defined_functions: 4,
        functions: vec![named(0, 10, "alloc_a"), named(1, 30, "b"), named(2, 10, "alloc_c"), named(3, 10, "d")],
    };
    let all: Vec<u32> = sorted_by_size(&module, None).iter().map(|f| f.index).collect();
    assert_eq!(all, vec![1, 0, 2, 3]);
    let some: Vec<u32> = sorted_by_size(&module, Some("ALLOC")).iter().map(|f| f.index).collect();
    assert_eq!(some, vec![0, 2]);
    let filtered: Vec<u32> = filter_functions(&module.functions, "alloc*").iter().map(|f| f.index).collect();
    assert_eq!(filtered, vec![0, 2]);
    let none: Vec<u32> = filter_functions(&module.functions, "*zzz").iter().map(|f| f.index).collect();
    assert!(none.is_empty());
}

#[test]
fn debug_sections_are_read_by_name() {
    let mut bytes = b"\0asm\x01\0\0\0".to_vec();
    bytes.extend_from_slice(&[0x00, 0x0e, 0x0a]);
    bytes.extend_from_slice(b".debug_str");
    bytes.extend_from_slice(b"abc");
    let sections = wasm_poke::dwarf::DebugSections::read(&bytes);
    assert_eq!(sections.lookup(".debug_str"), b"abc");
    assert_eq!(sections.lookup(".debug_info"), b"");
    let none = wasm_poke::dwarf::DebugSections::read(b"not an object");
    assert_eq!(none.lookup(".debug_str"), b"");
}

#[test]
fn single_word_search_agrees_with_filter() {
    let fs = vec![named(0, 1, "alloc_zero"), named(1, 2, "Beta"), named(2, 3, "gamma")];
    for word in ["alloc", "BETA", "a*", "*a", "zzz", "gam*a"] {
        let filtered: Vec<u32> = filter_functions(&fs, word).iter().map(|f| f.index).collect();
        let matched: Vec<u32> =
            fs.iter().filter(|f| wasm_poke::function_matches(f, word)).map(|f| f.index).collect();
        assert_eq!(filtered, matched, "word {}", word);
    }
}

/// One defined function (global index 0) whose body, bytes 22..28, is:
/// no locals; block; nop; end; end.
const BLOCK_MODULE: &[u8] = &[
    0x00, 0x61, 0x73, 0x6d, 0x01, 0, 0, 0, 0x01, 0x04, 0x01, 0x60, 0, 0, 0x03, 0x02, 0x01, 0, 0x0a, 0x08, 0x01,
    0x06, 0, 0x02, 0x40, 0x01, 0x0b, 0x0b,
];

/// One defined function 0 whose body is: call 0; call 0; end.
const CALL_TWICE_MODULE: &[u8] = &[
    0x00, 0x61, 0x73, 0x6d, 0x01, 0, 0, 0, 0x01, 0x04, 0x01, 0x60, 0, 0, 0x03, 0x02, 0x01, 0, 0x0a, 0x08, 0x01,
    0x06, 0, 0x10, 0, 0x10, 0, 0x0b,
];

#[test]
fn listing_of_nested_block() {
    let listing = disassemble_function_listing(BLOCK_MODULE, 0).unwrap();
    let lines: Vec<(String, usize, usize)> =
        listing.entries.iter().map(|e| (text(&e.text), e.offset, e.indent)).collect();
    assert_eq!(
        lines,
        vec![
            (";; func [0]".to_string(), 0, 0),
            ("(func".to_string(), 0, 0),
            ("  ;; body".to_string(), 0, 0),
            ("block".to_string(), 1, 0),
            ("  nop".to_string(), 3, 1),
            ("end".to_string(), 4, 0),
            ("end".to_string(), 5, 0),
            (")".to_string(), 0, 0),
        ]
    );
}

#[test]
fn parse_of_one_function_module() {
    let m = parse_wasm_from_bytes(BLOCK_MODULE).unwrap();
    assert_eq!(m.total_code_size, 6);
    assert_eq!(m.imported_functions, 0);
    assert_eq!(m.defined_functions, 1);
    assert_eq!(m.functions.len(), 1);
    assert_eq!(m.functions[0].index, 0);
    assert_eq!(m.functions[0].code_size, 6);
    assert_eq!(m.functions[0].body_range, Some(22..28));
    assert!(m.functions[0].export_names.is_empty());
    assert!(m.functions[0].raw_name.is_none());
    assert!(m.functions[0].demangled_name.is_none());
}

#[test]
fn call_graph_keeps_repeated_calls_in_order() {
    let g = build_call_graph(CALL_TWICE_MODULE).unwrap();
    assert_eq!(g.edges.len(), 1);
    assert_eq!(g.edges[&0], vec![0u32, 0]);
    assert_eq!(g.has_indirect[&0], false);
}

#[test]
fn body_calls_and_ops_of_a_byte_range() {
    let (calls, indirect) = wasm_poke::walk::body_calls(CALL_TWICE_MODULE, 22, 28).unwrap();
    assert_eq!(calls, vec![0u32, 0]);
    assert!(!indirect);
    let ops = wasm_poke::disasm::body_ops(BLOCK_MODULE, 22, 28).unwrap();
    let offsets: Vec<usize> = ops.iter().map(|o| o.1).collect();
    assert_eq!(offsets, vec![23, 25, 26, 27]);
    let locals = wasm_poke::disasm::body_locals(BLOCK_MODULE, 22, 28).unwrap();
    assert!(locals.is_empty());
}

#[test]
fn failed_listing_line_text() {
    let l = wasm_poke::disasm::failed_listing_line(42);
    assert_eq!(l.text, ";; Failed to disassemble function 42");
    assert_eq!((l.offset, l.indent), (0, 0));
    assert!(l.src.is_none());
}

#[test]
fn line_mappings_without_context_are_empty() {
    let m = parse_wasm_from_bytes(MODULE).unwrap();
    let lines = vec![
        WatLine { text: "a".to_string(), offset: 0, indent: 0, src: None },
        WatLine { text: "b".to_string(), offset: 1, indent: 0, src: None },
    ];
    let maps = wasm_poke::dwarf::line_source_mappings(None, &m, 1, &lines);
    assert_eq!(maps.len(), 2);
    assert!(maps.iter().all(|x| x.is_none()));
    assert!(wasm_poke::dwarf::probes_fit(&m, 1, 10));
    assert!(!wasm_poke::dwarf::probes_fit(&m, 1, usize::MAX));
}

#[test]
fn multi_word_filter_agrees_with_matcher() {
    let fs = vec![named(0, 1, "alloc_zero"), named(1, 2, "Beta alloc"), named(2, 3, "gamma")];
    let filtered: Vec<u32> = filter_functions(&fs, "alloc zero").iter().map(|f| f.index).collect();
    assert_eq!(filtered, vec![0]);
    let filtered: Vec<u32> = filter_functions(&fs, "a  b").iter().map(|f| f.index).collect();
    let matched: Vec<u32> = fs.iter().filter(|f| wasm_poke::function_matches(f, "a  b")).map(|f| f.index).collect();
    assert_eq!(filtered, matched);
}

/// One imported function `m.f` (global index 0) and one defined function
/// (global index 1) whose body, bytes 31..33, is: no locals; end.
const IMPORT_MODULE: &[u8] = &[
    0x00, 0x61, 0x73, 0x6d, 0x01, 0, 0, 0, 0x01, 0x04, 0x01, 0x60, 0, 0, 0x02, 0x07, 0x01, 0x01, b'm', 0x01, b'f',
    0x00, 0x00, 0x03, 0x02, 0x01, 0x00, 0x0a, 0x04, 0x01, 0x02, 0x00, 0x0b,
];

#[test]
fn imports_shift_global_indices() {
    let m = parse_wasm_from_bytes(IMPORT_MODULE).unwrap();
    assert_eq!(m.imported_functions, 1);
    assert_eq!(m.defined_functions, 1);
    assert_eq!(m.functions[0].index, 1);
    assert_eq!(m.functions[0].body_range, Some(31..33));
    assert_eq!(m.functions[0].code_size, 2);
    match disassemble_function_listing(IMPORT_MODULE, 0) {
        Err(WasmError::FunctionNotFound(0)) => {}
        _ => panic!("an imported function has no body"),
    }
    let listing = disassemble_function_listing(IMPORT_MODULE, 1).unwrap();
    assert_eq!(listing.entries.len(), 5);
    let g = build_call_graph(IMPORT_MODULE).unwrap();
    assert_eq!(g.edges.len(), 1);
    assert!(g.edges[&1].is_empty());
}

#[test]
fn wide_hexdump_pads_one_line() {
    let d = hexdump(&[0x41, 0x42], 4);
    assert_eq!(d, "00000000: 41 42        |AB|\n");
}
