//! Size and structure analysis of WebAssembly modules: per-function sizes,
//! names, call graphs, disassembly, source mapping, reports, and the state
//! of the interactive views.

pub mod cli;
pub mod disasm;
pub mod dwarf;
pub mod graph;
pub mod hexdump;
pub mod laws;
pub mod matching;
pub mod model;
pub mod module;
pub mod output;
pub mod panels;
pub mod text;
pub mod walk;
pub mod wasm_read;

pub use cli::{Cli, CliError, OutputMode};
pub use disasm::{disassemble_function_listing, FunctionListing, WatEntry, WatText};
pub use dwarf::{
    function_source_span, function_source_span_with, init_dwarf_context, map_instr_to_source,
    map_instr_to_source_fast, map_instr_to_source_in, map_instr_to_source_with,
    map_wat_line_to_source_cached, DwarfCtx,
};
pub use graph::{build_call_graph, unique_cumulative_size};
pub use hexdump::{function_body_bytes, hexdump};
pub use matching::{filter_functions, function_matches, sorted_by_size};
pub use model::{CallGraph, FunctionInfo, SourceLocation, SourceSpan, WasmModuleInfo, WatLine};
pub use module::parse_wasm_from_bytes;
pub use output::{call_graph_output, output_summary, summary_output, CallGraphOutput, SourceOutput, SummaryOutput};
pub use panels::{
    build_reverse_graph, CallTreePanel, CallersTreePanel, FunctionListPanel, InspectorPanel, SelectionState,
    SizeTreePanel, SortColumn, TabKind,
};
pub use walk::WasmError;
