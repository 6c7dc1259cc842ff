//! The data model of an analysed module: defined functions with sizes and
//! names, the module summary, the direct call graph and source locations.

use std::collections::HashMap;
use std::ops::Range;

use vstd::prelude::*;

use crate::text::{dec_str, empty_string, push_char, push_dec, push_str};

verus! {

/// Information about a single (defined) function in the module.
///
/// Only defined functions have bodies and thus sizes; imported functions are
/// not listed.
#[derive(Debug, Clone)]
pub struct FunctionInfo {
    /// Global function index (includes any imported functions before defined ones).
    pub index: u32,
    /// Size, in bytes, of the function body (locals + instructions).
    pub code_size: u32,
    /// Byte range (start..end) within the `.wasm` file of the function body, if known.
    pub body_range: Option<Range<usize>>,
    /// Export names that reference this function's index (zero or more).
    pub export_names: Vec<String>,
    /// Raw function name from the name section, if present.
    pub raw_name: Option<String>,
    /// Demangled name (Rust), if any available name could be demangled.
    pub demangled_name: Option<String>,
}

/// The fallback display name of a function without any name: `func[<index>]`.
pub open spec fn fallback_name(index: u32) -> Seq<char> {
    seq!['f', 'u', 'n', 'c', '['] + dec_str(index as nat) + seq![']']
}

/// The names of a function as character sequences.
pub open spec fn opt_view(o: Option<String>) -> Option<Seq<char>> {
    match o {
        Some(s) => Some(s@),
        None => None,
    }
}

/// The views of a list of strings.
pub open spec fn strings_view(v: Seq<String>) -> Seq<Seq<char>> {
    v.map_values(|s: String| s@)
}

impl FunctionInfo {
    /// The display name: demangled name, else raw name, else first export
    /// name, else `func[<index>]`.
    pub open spec fn display_name(self) -> Seq<char> {
        match self.demangled_name {
            Some(d) => d@,
            None => match self.raw_name {
                Some(r) => r@,
                None => if self.export_names.len() > 0 {
                    self.export_names[0]@
                } else {
                    fallback_name(self.index)
                },
            },
        }
    }

    /// True when the function carries no name at all.
    pub open spec fn is_unnamed(self) -> bool {
        self.demangled_name.is_none() && self.raw_name.is_none() && self.export_names.len() == 0
    }

    /// Returns the "best" available display name for this function.
    /// Prefers demangled name, then raw name, then first export, finally `func[index]`.
    pub fn best_name(&self) -> (name: String)
        ensures
            name@ == self.display_name(),
    {
        if let Some(d) = &self.demangled_name {
            return d.clone();
        }
        if let Some(r) = &self.raw_name {
            return r.clone();
        }
        if self.export_names.len() > 0 {
            return self.export_names[0].clone();
        }
        fallback_name_string(self.index)
    }
}

/// Renders `func[<index>]`.
pub fn fallback_name_string(index: u32) -> (s: String)
    ensures
        s@ == fallback_name(index),
{
    let mut s = empty_string();
    push_str(&mut s, "func[");
    push_dec(&mut s, index as u64);
    push_char(&mut s, ']');
    proof {
        reveal_strlit("func[");
        assert(s@ =~= fallback_name(index));
    }
    s
}

/// Aggregated information about the module and its functions.
#[derive(Debug, Clone)]
pub struct WasmModuleInfo {
    /// Total bytes of all defined functions (sum of `code_size`).
    pub total_code_size: u64,
    /// Number of imported functions in the index space.
    pub imported_functions: u32,
    /// Number of defined functions (with bodies).
    pub defined_functions: u32,
    /// Per-function information for all defined functions.
    pub functions: Vec<FunctionInfo>,
}

/// Sum of the code sizes of a sequence of functions.
pub open spec fn sum_code_sizes(fs: Seq<FunctionInfo>) -> nat
    decreases fs.len(),
{
    if fs.len() == 0 {
        0
    } else {
        sum_code_sizes(fs.drop_last()) + fs.last().code_size as nat
    }
}

/// Call graph of direct calls between functions identified by global indices.
/// - `edges[src] = Vec<dst>` where each entry is a direct `call` target
/// - `has_indirect[src] = true` if the function contains any `call_indirect`
#[derive(Debug, Clone)]
pub struct CallGraph {
    pub edges: HashMap<u32, Vec<u32>>,
    pub has_indirect: HashMap<u32, bool>,
}

/// The callees of `src` as recorded in the edge map (empty when absent).
pub open spec fn callees_of(edges: Map<u32, Vec<u32>>, src: u32) -> Seq<u32> {
    if edges.contains_key(src) {
        edges[src]@
    } else {
        Seq::empty()
    }
}

impl CallGraph {
    /// An empty call graph.
    pub fn new() -> (g: CallGraph)
        ensures
            g.edges@ == Map::<u32, Vec<u32>>::empty(),
            g.has_indirect@ == Map::<u32, bool>::empty(),
    {
        CallGraph { edges: HashMap::new(), has_indirect: HashMap::new() }
    }
}

/// A source location (file, line, column) as recorded in DWARF line info.
#[derive(Debug, Clone)]
pub struct SourceLocation {
    pub file: String,
    pub line: u32,
    pub column: u32,
}

/// A source span: the dominant file of a function and its line/column extent.
#[derive(Debug, Clone)]
pub struct SourceSpan {
    pub file: String,
    pub start_line: u32,
    pub start_column: u32,
    pub end_line: u32,
    pub end_column: u32,
}

/// One line of a WAT-like disassembly listing.
#[derive(Debug, Clone)]
pub struct WatLine {
    /// The rendered text of the line.
    pub text: String,
    /// Function-body-relative byte offset of the operator (0 for non-operator lines).
    pub offset: usize,
    /// Visual indentation level.
    pub indent: usize,
    /// Mapped source location, if available.
    pub src: Option<SourceLocation>,
}

} // verus!
