use std::collections::HashMap;

use wasm_poke::output::percent_tenths_of;
use wasm_poke::{call_graph_output, output_summary, summary_output, CallGraph, FunctionInfo, WasmModuleInfo};

fn make_test_module() -> WasmModuleInfo {
    WasmModuleInfo {
        total_code_size: 1000,
        imported_functions: 2,
        defined_functions: 3,
        functions: vec![
            FunctionInfo {
                index: 2,
                code_size: 500,
                body_range: None,
                export_names: vec!["main".to_string()],
                raw_name: Some("_start".to_string()),
                demangled_name: Some("main".to_string()),
            },
            FunctionInfo {
                index: 3,
                code_size: 300,
                body_range: None,
                export_names: vec![],
                raw_name: Some("helper".to_string()),
                demangled_name: None,
            },
            FunctionInfo {
                index: 4,
                code_size: 200,
                body_range: None,
                export_names: vec![],
                raw_name: None,
                demangled_name: None,
            },
        ],
    }
}

fn make_test_call_graph() -> CallGraph {
    let mut edges = HashMap::new();
    edges.insert(2, vec![3, 4]);
    edges.insert(3, vec![4]);

    let mut has_indirect = HashMap::new();
    has_indirect.insert(2, false);
    has_indirect.insert(3, true);
    has_indirect.insert(4, false);

    CallGraph { edges, has_indirect }
}

#[test]
fn summary_output_format() {
    let module = make_test_module();

    let mut buffer = Vec::new();
    output_summary(&module, &mut buffer);

    let output = String::from_utf8(buffer).unwrap();
    assert!(output.contains("WebAssembly Module Summary"));
    assert!(output.contains("Defined:  3"));
    assert!(output.contains("Imported: 2"));
    assert!(output.contains("Exported: 1"));
    assert!(output.contains("Total code size: 1000 bytes"));
    assert!(output.contains("main - 500 bytes"));
}

#[test]
fn summary_output_exact_text() {
    let module = make_test_module();
    let mut buffer = Vec::new();
    output_summary(&module, &mut buffer);
    let output = String::from_utf8(buffer).unwrap();
    let expected = "WebAssembly Module Summary\n\
==========================\n\
\n\
Functions:\n\
\x20 Defined:  3\n\
\x20 Imported: 2\n\
\x20 Exported: 1\n\
\n\
Total code size: 1000 bytes\n\
\n\
Top 20 Functions by Size:\n\
--------------------------\n\
\x20  1. main - 500 bytes (50.0%)\n\
\x20  2. helper - 300 bytes (30.0%)\n\
\x20  3. func[4] - 200 bytes (20.0%)\n";
    assert_eq!(output, expected);
}

#[test]
fn summary_lists_top_twenty_and_the_rest() {
    let mut functions = Vec::new();
    for i in 0..23u32 {
        functions.push(FunctionInfo {
            index: i,
            code_size: 10 + i,
            body_range: None,
            export_names: vec![],
            raw_name: None,
            demangled_name: None,
        });
    }
    let total: u64 = functions.iter().map(|f| f.code_size as u64).sum();
    let module = WasmModuleInfo { total_code_size: total, imported_functions: 0, defined_functions: 23, functions };
    let mut buffer = Vec::new();
    output_summary(&module, &mut buffer);
    let output = String::from_utf8(buffer).unwrap();
    assert!(output.contains("   1. func[22] - 32 bytes"));
    assert!(output.contains("  20. func[3] - 13 bytes"));
    assert!(!output.contains("func[2] - 12 bytes"));
    assert!(output.ends_with("\n  ... and 3 more functions\n"));
}

#[test]
fn summary_with_zero_total_shows_zero_percent() {
    let module = WasmModuleInfo {
        total_code_size: 0,
        imported_functions: 0,
        defined_functions: 1,
        functions: vec![FunctionInfo {
            index: 0,
            code_size: 0,
            body_range: None,
            export_names: vec!["e".to_string()],
            raw_name: None,
            demangled_name: None,
        }],
    };
    let mut buffer = Vec::new();
    output_summary(&module, &mut buffer);
    let output = String::from_utf8(buffer).unwrap();
    assert!(output.contains("   1. e - 0 bytes (0.0%)\n"));
}

fn float_percent(size: u32, total: u64) -> String {
    let pct = if total == 0 { 0.0 } else { (size as f64) * 100.0 / (total as f64) };
    format!("{:.1}", pct)
}

fn integer_percent(size: u32, total: u64) -> String {
    let t = percent_tenths_of(size, total);
    format!("{}.{}", t / 10, t % 10)
}

#[test]
fn percent_matches_float_formatting_on_ties_and_edges() {
    let cases: Vec<(u32, u64)> = vec![
        (3, 2000),
        (1, 400),
        (1, 800),
        (7, 2000),
        (5, 2000),
        (1, 3),
        (2, 3),
        (1, 7),
        (500, 1000),
        (300, 1000),
        (1, 1),
        (u32::MAX, 1),
        (1, u64::MAX),
        (u32::MAX, u64::MAX),
        (12345, 9007199254740993),
        (1, 9007199254740993),
        (99999, 100000),
        (999999, 1000000),
        (9995, 1000000),
        (95, 100000),
        (1, 2000),
        (3, 20000),
        (17, 34000),
        (123456789, 987654321),
    ];
    for (s, t) in cases {
        assert_eq!(integer_percent(s, t), float_percent(s, t), "size {} total {}", s, t);
    }
}

#[test]
fn percent_matches_float_formatting_on_a_sweep() {
    let mut seed: u64 = 0x9e3779b97f4a7c15;
    for total in 1u64..400 {
        for size in 0u32..=(total as u32 + 3) {
            assert_eq!(integer_percent(size, total), float_percent(size, total), "size {} total {}", size, total);
        }
    }
    for _ in 0..20000 {
        seed ^= seed << 13;
        seed ^= seed >> 7;
        seed ^= seed << 17;
        let size = (seed >> 32) as u32 >> (seed % 32);
        let total = (seed | 1) >> (seed % 61);
        assert_eq!(integer_percent(size, total), float_percent(size, total), "size {} total {}", size, total);
    }
}

#[test]
fn summary_output_counts() {
    let module = make_test_module();
    let s = summary_output(&module);
    assert_eq!(s.total_code_size, 1000);
    assert_eq!(s.function_count, 3);
    assert_eq!(s.imported_functions, 2);
    assert_eq!(s.exported_functions, 1);
}

#[test]
fn call_graph_output_is_flattened_and_sorted() {
    let g = make_test_call_graph();
    let out = call_graph_output(&g);
    assert_eq!(out.edges, vec![[2, 3], [2, 4], [3, 4]]);
    assert_eq!(out.functions_with_indirect, vec![3]);
}

#[test]
fn call_graph_output_keeps_repeated_calls() {
    let mut edges = HashMap::new();
    edges.insert(9, vec![1, 1, 0]);
    edges.insert(1, vec![9]);
    let mut has_indirect = HashMap::new();
    has_indirect.insert(9, true);
    has_indirect.insert(1, true);
    let out = call_graph_output(&CallGraph { edges, has_indirect });
    assert_eq!(out.edges, vec![[1, 9], [9, 0], [9, 1], [9, 1]]);
    assert_eq!(out.functions_with_indirect, vec![1, 9]);
}

#[test]
fn whole_module_is_hundred_percent() {
    for size in [1u32, 3, 7, 1000, 123456789, u32::MAX] {
        assert_eq!(percent_tenths_of(size, size as u64), 1000);
        assert_eq!(integer_percent(size, size as u64), "100.0");
    }
    assert_eq!(percent_tenths_of(0, 77), 0);
    assert_eq!(percent_tenths_of(5, 0), 0);
}
