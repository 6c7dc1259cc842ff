//! The walk over a module's payloads: counts function imports, collects
//! function exports and names, records every defined function body, and,
//! when asked, the direct calls of each body. Nested modules of a component
//! are walked in place, as `Parser::parse_all` does.

use std::collections::HashMap;

use vstd::prelude::*;

use wasmparser::{BinaryReaderError, CustomSectionReader, Export, SectionLimited};

use crate::model::{strings_view, CallGraph};
use crate::wasm_read::{
    body_extent, classify_payload, control_op, custom_section_len, custom_section_name,
    exports_iter, group_imports, group_len, import_groups, name_map_len, name_section,
    new_parser, next_export, next_import_group, next_import_is_func, next_name_subsection,
    next_naming, next_op, op_control, op_operand, op_read, open_body_ops, operand_op, ops_open,
    parse_step, reader_error_parts, ControlOp, OperandOp, Section, Step,
    code_entry_extent, custom_len_at, custom_name_at, export_count_at, export_read, export_section_count,
    name_map_len_at, name_sub_read, naming_read, CustomAt, ExportSection, import_count_at, import_group_len, import_group_read, import_item_read,
    import_section_count, parse_outcome, parser_offset, parser_offset_at, payload_kind, ImportSection,
    ParseOutcome, PayloadKind, WalkParser,
};

verus! {

broadcast use vstd::std_specs::hash::group_hash_axioms;

/// Why a module could not be walked.
#[derive(Debug)]
pub enum WasmError {
    /// `wasmparser` rejected the bytes: its message and the byte offset.
    Malformed { message: String, offset: u64 },
    /// More than `u32::MAX` function imports.
    ImportCountOverflow,
    /// A function index does not fit in `u32`.
    IndexOverflow,
    /// No defined function has the requested index.
    FunctionNotFound(u32),
    /// The parser stopped for lack of input.
    Incomplete,
}

/// Converts a `wasmparser` error into this library's error.
pub fn reader_error(e: BinaryReaderError) -> (r: WasmError)
    ensures
        r is Malformed,
{
    let (message, offset) = reader_error_parts(e);
    WasmError::Malformed { message, offset }
}

/// What a walk collects besides the function bodies.
pub struct WalkOptions {
    /// Collect the function exports.
    pub exports: bool,
    /// Collect the function names of the `name` section.
    pub names: bool,
    /// Collect the direct calls of every body.
    pub calls: bool,
    /// Stop at the defined function with this global index.
    pub target: Option<u32>,
}

/// A defined function body as the walk met it.
#[derive(Clone, Copy)]
pub struct BodyRecord {
    /// Global function index (function imports first, then defined functions).
    pub index: u32,
    /// Body size in bytes (locals + instructions).
    pub size: u32,
    /// Start offset of the body in the module bytes.
    pub start: usize,
    /// End offset (exclusive) of the body in the module bytes.
    pub end: usize,
}

/// What a walk over a module collected.
pub struct ModuleScan {
    /// Number of function imports met.
    pub imported_functions: u32,
    /// Number of code entries met.
    pub defined_functions: u32,
    /// The code entries in order.
    pub bodies: Vec<BodyRecord>,
    /// Function index -> export names, in export order.
    pub exports: HashMap<u32, Vec<String>>,
    /// Function index -> name from the `name` section (the last naming wins).
    pub names: HashMap<u32, String>,
    /// Direct calls and `call_indirect` presence per body.
    pub graph: CallGraph,
}

/// The set of global indices of a list of bodies.
pub open spec fn body_indices(bodies: Seq<BodyRecord>) -> Set<u32> {
    Set::new(|k: u32| exists|i: int| 0 <= i < bodies.len() && bodies[i].index == k)
}

impl ModuleScan {
    /// The shape every walk result has: one record per code entry, body
    /// ranges well formed with the size equal to their length, indices
    /// strictly increasing and below `imported + defined`, and call-graph
    /// entries only for recorded bodies.
    pub open spec fn wf(self) -> bool {
        &&& self.bodies.len() == self.defined_functions
        &&& forall|i: int| 0 <= i < self.bodies.len() ==> {
            &&& (#[trigger] self.bodies[i]).start <= self.bodies[i].end
            &&& self.bodies[i].size as int == self.bodies[i].end - self.bodies[i].start
            &&& self.bodies[i].index < self.imported_functions + self.defined_functions
        }
        &&& forall|i: int, j: int|
            0 <= i < j < self.bodies.len() ==> (#[trigger] self.bodies[i]).index < (#[trigger] self.bodies[j]).index
        &&& forall|k: u32| #[trigger] self.graph.edges@.contains_key(k) ==> body_indices(self.bodies@).contains(k)
        &&& forall|k: u32| #[trigger] self.graph.has_indirect@.contains_key(k) ==> body_indices(self.bodies@).contains(k)
    }

    /// An empty scan.
    pub fn new() -> (s: ModuleScan)
        ensures
            s.wf(),
            s.imported_functions == 0,
            s.defined_functions == 0,
            s.exports@ == Map::<u32, Vec<String>>::empty(),
            s.names@ == Map::<u32, String>::empty(),
            s.graph.edges@ == Map::<u32, Vec<u32>>::empty(),
            s.graph.has_indirect@ == Map::<u32, bool>::empty(),
    {
        ModuleScan {
            imported_functions: 0,
            defined_functions: 0,
            bodies: Vec::new(),
            exports: HashMap::new(),
            names: HashMap::new(),
            graph: CallGraph::new(),
        }
    }
}

/// The sum of two counts, `None` when either is.
pub open spec fn count_add(a: Option<nat>, b: Option<nat>) -> Option<nat> {
    match (a, b) {
        (Some(x), Some(y)) => Some(x + y),
        _ => None,
    }
}

/// The function imports among the imports of group `g` of the import
/// section of step `k` of the parser with origin `o`, reading from read `j`
/// on with at most `fuel` reads; `None` when a read fails first.
pub open spec fn group_funcs(d: Seq<u8>, o: Seq<nat>, k: nat, g: nat, j: nat, fuel: nat) -> Option<nat>
    decreases fuel,
{
    if fuel == 0 {
        Some(0)
    } else {
        match import_item_read(d, o, k, g, j) {
            None => Some(0),
            Some(Err(_)) => None,
            Some(Ok(f)) => count_add(Some(if f { 1nat } else { 0nat }), group_funcs(d, o, k, g, j + 1, (fuel - 1) as nat)),
        }
    }
}

/// The function imports of the import section of step `k` of the parser
/// with origin `o`, reading groups from read `i` on with at most `fuel`
/// reads (each group read up to one more than its length); `None` when a
/// read fails first.
pub open spec fn section_funcs(d: Seq<u8>, o: Seq<nat>, k: nat, i: nat, fuel: nat) -> Option<nat>
    decreases fuel,
{
    if fuel == 0 {
        Some(0)
    } else {
        match import_group_read(d, o, k, i) {
            None => Some(0),
            Some(Err(_)) => None,
            Some(Ok(_)) => count_add(
                group_funcs(d, o, k, i, 0, import_group_len(d, o, k, i) as nat + 1),
                section_funcs(d, o, k, i + 1, (fuel - 1) as nat),
            ),
        }
    }
}

/// The function imports of the import section of step `k` of the parser
/// with origin `o` (the section's declared count bounds the group reads).
pub open spec fn import_section_funcs(d: Seq<u8>, o: Seq<nat>, k: nat) -> Option<nat> {
    section_funcs(d, o, k, 0, import_count_at(d, o, k) as nat + 1)
}

/// Counts the function imports of an import section onto `imported`: `Ok`
/// exactly when every read succeeds and the count fits in `u32`.
fn count_function_imports<'a>(s: ImportSection<'a>, imported: &mut u32) -> (r: Result<(), WasmError>)
    ensures
        r matches Err(e) ==> !(e is FunctionNotFound),
        r is Ok <==> (import_section_funcs(s.at().0, s.at().1, s.at().2) matches Some(c)
            && *old(imported) + c <= u32::MAX),
        r is Ok ==> import_section_funcs(s.at().0, s.at().1, s.at().2) == Some((*final(imported) - *old(imported)) as nat),
        *final(imported) >= *old(imported),
{
    let ghost d = s.at().0;
    let ghost o = s.at().1;
    let ghost k = s.at().2;
    let ghost sat = s.at();
    assert(sat == (d, o, k));
    let n = import_section_count(&s);
    let mut groups = import_groups(s);
    let mut i: u64 = 0;
    let mut done = false;
    while !done && i <= n as u64
        invariant
            *imported >= *old(imported),
            i <= n as u64 + 1,
            n == import_count_at(d, o, k),
            s.at() == (d, o, k),
            groups.at() == (d, o, k),
            !done ==> groups.reads() == i,
            import_section_funcs(d, o, k) == count_add(Some((*imported - *old(imported)) as nat),
                if done { Some(0nat) } else { section_funcs(d, o, k, i as nat, (n as nat + 1 - i) as nat) }),
        decreases (n as u64 + 1 - i) as int + (if done { 0int } else { 1int }),
    {
        match next_import_group(&mut groups) {
            None => { done = true; },
            Some(Err(e)) => {
                proof {
                    assert(section_funcs(d, o, k, i as nat, (n as nat + 1 - i) as nat) is None);
                    assert(import_section_funcs(d, o, k) is None);
                }
                return Err(reader_error(e));
            },
            Some(Ok(g)) => {
                let m = group_len(&g);
                let mut items = group_imports(g);
                let mut j: u64 = 0;
                let mut gdone = false;
                let ghost rest = section_funcs(d, o, k, i as nat + 1, (n as nat - i) as nat);
                while !gdone && j <= m as u64
                    invariant
                        *imported >= *old(imported),
                        j <= m as u64 + 1,
                        m == import_group_len(d, o, k, i as nat),
                        s.at() == (d, o, k),
                        items.at() == (d, o, k, i as nat),
                        !gdone ==> items.reads() == j,
                        rest == section_funcs(d, o, k, i as nat + 1, (n as nat - i) as nat),
                        import_section_funcs(d, o, k) == count_add(Some((*imported - *old(imported)) as nat),
                            count_add(if gdone { Some(0nat) } else { group_funcs(d, o, k, i as nat, j as nat, (m as nat + 1 - j) as nat) }, rest)),
                    decreases (m as u64 + 1 - j) as int + (if gdone { 0int } else { 1int }),
                {
                    let ghost gf = group_funcs(d, o, k, i as nat, j as nat, (m as nat + 1 - j) as nat);
                    let ghost gnext = group_funcs(d, o, k, i as nat, j as nat + 1, (m as nat - j) as nat);
                    match next_import_is_func(&mut items) {
                        None => { gdone = true; },
                        Some(Err(e)) => {
                            proof {
                                assert(gf is None);
                                assert(import_section_funcs(d, o, k) is None);
                            }
                            return Err(reader_error(e));
                        },
                        Some(Ok(is_func)) => {
                            proof {
                                assert(gf == count_add(Some(if is_func { 1nat } else { 0nat }), gnext));
                            }
                            if is_func {
                                match imported.checked_add(1) {
                                    Some(v) => { *imported = v; },
                                    None => {
                                        proof {
                                            let tot = import_section_funcs(d, o, k);
                                            if tot is Some {
                                                assert(gf is Some && gf->0 >= 1);
                                                assert(tot->0 >= (*imported - *old(imported)) + 1);
                                            }
                                        }
                                        return Err(WasmError::ImportCountOverflow);
                                    },
                                }
                            }
                            j = j + 1;
                        },
                    }
                }
            },
        }
        if !done {
            i = i + 1;
        }
    }
    Ok(())
}

/// The export list of `idx` after appending `name`.
pub open spec fn exports_after_push(m: Map<u32, Vec<String>>, idx: u32, name: String) -> Seq<String> {
    if m.contains_key(idx) { m[idx]@.push(name) } else { seq![name] }
}

/// Appends `name` to the export list of `idx`.
pub fn push_export(exports: &mut HashMap<u32, Vec<String>>, idx: u32, name: String)
    ensures
        final(exports)@.dom() == old(exports)@.dom().insert(idx),
        final(exports)@[idx]@ == exports_after_push(old(exports)@, idx, name),
        forall|k: u32| k != idx && old(exports)@.contains_key(k) ==> #[trigger] final(exports)@[k] == old(exports)@[k],
{
    let mut list = match exports.remove(&idx) {
        Some(v) => v,
        None => Vec::new(),
    };
    list.push(name);
    exports.insert(idx, list);
}

/// The view of an export map: each index's export names.
pub open spec fn exports_view(m: Map<u32, Vec<String>>) -> Map<u32, Seq<Seq<char>>> {
    Map::new(|k: u32| m.contains_key(k), |k: u32| strings_view(m[k]@))
}

/// The view of a name map: each index's name.
pub open spec fn names_view(m: Map<u32, String>) -> Map<u32, Seq<char>> {
    Map::new(|k: u32| m.contains_key(k), |k: u32| m[k]@)
}

/// The export map after appending `name` to the export names of `idx`.
pub open spec fn add_export(m: Map<u32, Seq<Seq<char>>>, idx: u32, name: Seq<char>) -> Map<u32, Seq<Seq<char>>> {
    m.insert(idx, if m.contains_key(idx) { m[idx].push(name) } else { seq![name] })
}

/// The export map after the function exports of the export section of step
/// `k` of the parser with origin `o`, reading from read `j` on with at most
/// `fuel` reads; `None` when a read fails first.
pub open spec fn exports_from(d: Seq<u8>, o: Seq<nat>, k: nat, j: nat, fuel: nat, m: Map<u32, Seq<Seq<char>>>) -> Option<Map<u32, Seq<Seq<char>>>>
    decreases fuel,
{
    if fuel == 0 {
        Some(m)
    } else {
        match export_read(d, o, k, j) {
            None => Some(m),
            Some(Err(_)) => None,
            Some(Ok((f, idx, name))) => exports_from(d, o, k, j + 1, (fuel - 1) as nat, if f { add_export(m, idx, name) } else { m }),
        }
    }
}

/// The export map after the export section of step `k` of the parser with
/// origin `o` (the section's declared count bounds the reads).
pub open spec fn section_exports(d: Seq<u8>, o: Seq<nat>, k: nat, m: Map<u32, Seq<Seq<char>>>) -> Option<Map<u32, Seq<Seq<char>>>> {
    exports_from(d, o, k, 0, export_count_at(d, o, k) as nat + 1, m)
}

/// Collects the function exports of an export section: each function
/// export's name is appended to the list of its index.
fn collect_exports<'a>(s: ExportSection<'a>, exports: &mut HashMap<u32, Vec<String>>) -> (r: Result<(), WasmError>)
    ensures
        r matches Err(e) ==> !(e is FunctionNotFound),
        r is Ok <==> section_exports(s.at().0, s.at().1, s.at().2, exports_view(old(exports)@)) is Some,
        r is Ok ==> section_exports(s.at().0, s.at().1, s.at().2, exports_view(old(exports)@)) == Some(exports_view(final(exports)@)),
{
    let ghost d = s.at().0;
    let ghost o = s.at().1;
    let ghost k = s.at().2;
    let n = export_section_count(&s);
    let mut it = exports_iter(s);
    let mut i: u64 = 0;
    let mut done = false;
    while !done && i <= n as u64
        invariant
            i <= n as u64 + 1,
            n == export_count_at(d, o, k),
            s.at() == (d, o, k),
            it.at() == (d, o, k),
            !done ==> it.reads() == i,
            section_exports(d, o, k, exports_view(old(exports)@)) == if done {
                Some(exports_view(exports@))
            } else {
                exports_from(d, o, k, i as nat, (n as nat + 1 - i) as nat, exports_view(exports@))
            },
        decreases (n as u64 + 1 - i) as int + (if done { 0int } else { 1int }),
    {
        match next_export(&mut it) {
            None => { done = true; },
            Some(Err(e)) => { return Err(reader_error(e)); },
            Some(Ok((is_func, idx, name))) => {
                if is_func {
                    let ghost before = exports@;
                    let ghost nv = name@;
                    push_export(exports, idx, name);
                    proof {
                        assert(exports_view(exports@) =~= add_export(exports_view(before), idx, nv)) by {
                            if before.contains_key(idx) {
                                assert(strings_view(exports@[idx]@) =~= strings_view(before[idx]@).push(nv));
                            } else {
                                assert(strings_view(exports@[idx]@) =~= seq![nv]);
                            }
                        }
                    }
                }
                i = i + 1;
            },
        }
    }
    Ok(())
}

/// Whether a custom section's name is "name".
fn is_name_section(s: &String) -> (b: bool)
    ensures
        b == (s@ == "name"@),
{
    proof {
        reveal_strlit("name");
    }
    let t = s.as_str();
    if t.unicode_len() != 4 {
        return false;
    }
    let b = t.get_char(0) == 'n' && t.get_char(1) == 'a' && t.get_char(2) == 'm' && t.get_char(3) == 'e';
    proof {
        if b {
            assert(s@ =~= "name"@);
        }
    }
    b
}

/// The name map after the namings of the function-name map read by read
/// `i` of the subsections, reading from read `j` on with at most `fuel`
/// reads; `None` when a read fails first. A later naming of an index
/// replaces an earlier one.
pub open spec fn namings_from(d: Seq<u8>, o: Seq<nat>, k: nat, i: nat, j: nat, fuel: nat, m: Map<u32, Seq<char>>) -> Option<Map<u32, Seq<char>>>
    decreases fuel,
{
    if fuel == 0 {
        Some(m)
    } else {
        match naming_read(d, o, k, i, j) {
            None => Some(m),
            Some(Err(_)) => None,
            Some(Ok((idx, name))) => namings_from(d, o, k, i, j + 1, (fuel - 1) as nat, m.insert(idx, name)),
        }
    }
}

/// The name map after the subsections of the name section of step `k` of
/// the parser with origin `o`, reading from read `i` on with at most `fuel`
/// reads; only function-name subsections add names.
pub open spec fn subsections_from(d: Seq<u8>, o: Seq<nat>, k: nat, i: nat, fuel: nat, m: Map<u32, Seq<char>>) -> Option<Map<u32, Seq<char>>>
    decreases fuel,
{
    if fuel == 0 {
        Some(m)
    } else {
        match name_sub_read(d, o, k, i) {
            None => Some(m),
            Some(Err(_)) => None,
            Some(Ok(false)) => subsections_from(d, o, k, i + 1, (fuel - 1) as nat, m),
            Some(Ok(true)) => match namings_from(d, o, k, i, 0, name_map_len_at(d, o, k, i) as nat + 1, m) {
                Some(m2) => subsections_from(d, o, k, i + 1, (fuel - 1) as nat, m2),
                None => None,
            },
        }
    }
}

/// The name map after the custom section of step `k` of the parser with
/// origin `o`: a section named "name" adds its function names (its byte
/// length bounds the subsection reads); any other leaves the map as it is.
pub open spec fn custom_names(d: Seq<u8>, o: Seq<nat>, k: nat, m: Map<u32, Seq<char>>) -> Option<Map<u32, Seq<char>>> {
    if custom_name_at(d, o, k) == "name"@ {
        subsections_from(d, o, k, 0, custom_len_at(d, o, k) as nat + 1, m)
    } else {
        Some(m)
    }
}

/// Collects the function names of a custom section named "name".
fn collect_names<'a>(c: &CustomAt<'a>, names: &mut HashMap<u32, String>) -> (r: Result<(), WasmError>)
    ensures
        r matches Err(e) ==> !(e is FunctionNotFound),
        r is Ok <==> custom_names(c.at().0, c.at().1, c.at().2, names_view(old(names)@)) is Some,
        r is Ok ==> custom_names(c.at().0, c.at().1, c.at().2, names_view(old(names)@)) == Some(names_view(final(names)@)),
{
    let ghost d = c.at().0;
    let ghost o = c.at().1;
    let ghost k = c.at().2;
    let section_name = custom_section_name(c);
    if !is_name_section(&section_name) {
        return Ok(());
    }
    let bound = custom_section_len(c);
    let mut subsections = name_section(c);
    let mut i: u128 = 0;
    let mut done = false;
    while !done && i <= bound as u128
        invariant
            i <= bound as nat + 1,
            bound == custom_len_at(d, o, k),
            custom_name_at(d, o, k) == "name"@,
            c.at() == (d, o, k),
            subsections.at() == (d, o, k),
            !done ==> subsections.reads() == i,
            custom_names(d, o, k, names_view(old(names)@)) == if done {
                Some(names_view(names@))
            } else {
                subsections_from(d, o, k, i as nat, (bound as nat + 1 - i) as nat, names_view(names@))
            },
        decreases (bound as nat + 1 - i) as int + (if done { 0int } else { 1int }),
    {
        match next_name_subsection(&mut subsections) {
            None => { done = true; },
            Some(Err(e)) => { return Err(reader_error(e)); },
            Some(Ok(None)) => { i = i + 1; },
            Some(Ok(Some(mut map))) => {
                let m = name_map_len(&map);
                let ghost rest_from = names_view(names@);
                let mut j: u128 = 0;
                let mut mdone = false;
                while !mdone && j <= m as u128
                    invariant
                        j <= m as nat + 1,
                        m == name_map_len_at(d, o, k, i as nat),
                        map.at() == (d, o, k, i as nat),
                        !mdone ==> map.reads() == j,
                        i <= bound as u128,
                        bound == custom_len_at(d, o, k),
                        custom_name_at(d, o, k) == "name"@,
                        c.at() == (d, o, k),
                        custom_names(d, o, k, names_view(old(names)@)) == match (if mdone {
                            Some(names_view(names@))
                        } else {
                            namings_from(d, o, k, i as nat, j as nat, (m as nat + 1 - j) as nat, names_view(names@))
                        }) {
                            Some(m2) => subsections_from(d, o, k, i as nat + 1, (bound as nat - i) as nat, m2),
                            None => None,
                        },
                    decreases (m as nat + 1 - j) as int + (if mdone { 0int } else { 1int }),
                {
                    match next_naming(&mut map) {
                        None => { mdone = true; },
                        Some(Err(e)) => { return Err(reader_error(e)); },
                        Some(Ok((idx, name))) => {
                            let ghost before = names@;
                            let ghost nv = name@;
                            names.insert(idx, name);
                            proof {
                                assert(names_view(names@) =~= names_view(before).insert(idx, nv));
                            }
                            j = j + 1;
                        },
                    }
                }
                i = i + 1;
            },
        }
    }
    Ok(())
}

/// How many reads the operator walk of the body at `data[start..end]` makes
/// before the end (at most `start..end`'s length): from read `k` on, with
/// `fuel` reads left, the number of the read that answers `None` (or where
/// the fuel runs out), or `None` when a read fails first.
pub open spec fn op_stop(data: Seq<u8>, start: usize, end: usize, k: nat, fuel: nat) -> Option<nat>
    decreases fuel,
{
    if fuel == 0 {
        Some(k)
    } else {
        match op_read(data, start, end, k) {
            None => Some(k),
            Some(Err(_)) => None,
            Some(Ok(_)) => op_stop(data, start, end, k + 1, (fuel - 1) as nat),
        }
    }
}

/// The most reads the operator walk of a body makes: its byte length
/// (every operator takes a byte), capped at 2^60.
pub open spec fn op_bound(start: usize, end: usize) -> nat {
    let b = end - start;
    if b < 0x1000_0000_0000_0000 { b as nat } else { 0x1000_0000_0000_0000nat }
}

/// The number of operators of the body at `data[start..end]`, or `None`
/// when a read fails.
pub open spec fn op_total(data: Seq<u8>, start: usize, end: usize) -> Option<nat> {
    op_stop(data, start, end, 0, op_bound(start, end))
}

/// The direct call targets among the first `n` operators of a body, in order.
pub open spec fn calls_upto(data: Seq<u8>, start: usize, end: usize, n: nat) -> Seq<u32>
    decreases n,
{
    if n == 0 {
        Seq::empty()
    } else {
        let prev = calls_upto(data, start, end, (n - 1) as nat);
        match op_operand(data, start, end, (n - 1) as nat) {
            Some(OperandOp::Call(f)) => prev.push(f),
            _ => prev,
        }
    }
}

/// Whether a `call_indirect` is among the first `n` operators of a body.
pub open spec fn indirect_upto(data: Seq<u8>, start: usize, end: usize, n: nat) -> bool
    decreases n,
{
    if n == 0 {
        false
    } else {
        indirect_upto(data, start, end, (n - 1) as nat) || (
            !(op_operand(data, start, end, (n - 1) as nat) matches Some(OperandOp::Call(_)))
            && op_control(data, start, end, (n - 1) as nat) == Some(ControlOp::CallIndirect))
    }
}

/// The direct calls, in order, and whether there is a `call_indirect`, of
/// the body at `data[start..end]`; `None` when its operators cannot be read.
pub open spec fn body_calls_of(data: Seq<u8>, start: usize, end: usize) -> Option<(Seq<u32>, bool)> {
    if ops_open(data, start, end) {
        match op_total(data, start, end) {
            Some(n) => Some((calls_upto(data, start, end, n), indirect_upto(data, start, end, n))),
            None => None,
        }
    } else {
        None
    }
}

/// The direct call targets of the function body at `data[start..end]`, in
/// operator order, and whether it contains a `call_indirect`.
pub fn body_calls(data: &[u8], start: usize, end: usize) -> (r: Result<(Vec<u32>, bool), WasmError>)
    requires
        start <= end <= data@.len(),
    ensures
        match r {
            Ok((c, ind)) => body_calls_of(data@, start, end) == Some((c@, ind)),
            Err(e) => body_calls_of(data@, start, end) is None && e is Malformed,
        },
{
    let mut ops = match open_body_ops(data, start, end) {
        Ok(o) => o,
        Err(e) => { return Err(reader_error(e)); },
    };
    let bound = end - start;
    let mut calls: Vec<u32> = Vec::new();
    let mut indirect = false;
    let mut i: usize = 0;
    while i < bound && (i as u64) < 0x1000_0000_0000_0000u64
        invariant
            i <= bound,
            bound == end - start,
            ops.body() == (data@, start, end),
            ops.reads() == i,
            ops_open(data@, start, end),
            op_total(data@, start, end) == op_stop(data@, start, end, i as nat, (op_bound(start, end) - i) as nat),
            i <= op_bound(start, end),
            calls@ == calls_upto(data@, start, end, i as nat),
            indirect == indirect_upto(data@, start, end, i as nat),
        decreases bound - i,
    {
        let it = match next_op(&mut ops) {
            None => {
                proof {
                    assert(op_stop(data@, start, end, i as nat, (op_bound(start, end) - i) as nat) == Some(i as nat));
                }
                return Ok((calls, indirect));
            },
            Some(Err(e)) => { return Err(reader_error(e)); },
            Some(Ok(it)) => it,
        };
        match operand_op(&it) {
            Some(OperandOp::Call(f)) => { calls.push(f); },
            _ => {
                match control_op(&it) {
                    Some(ControlOp::CallIndirect) => { indirect = true; },
                    _ => {},
                }
            },
        }
        i = i + 1;
    }
    Ok((calls, indirect))
}

/// What a walk collects, which depends on the module bytes alone: the
/// function imports counted, the code entries met, the bodies recorded and,
/// when asked, each body's direct calls and `call_indirect` presence, the
/// function exports and the function names.
#[verifier::ext_equal]
pub struct WalkView {
    pub imported: nat,
    pub defined: nat,
    pub bodies: Seq<BodyRecord>,
    pub calls: Map<u32, (Seq<u32>, bool)>,
    pub exports: Map<u32, Seq<Seq<char>>>,
    pub names: Map<u32, Seq<char>>,
}

/// A walk view without the exports and names, which only some walks read.
pub open spec fn plain_view(v: WalkView) -> WalkView {
    WalkView { exports: Map::empty(), names: Map::empty(), ..v }
}

/// A walk state whose view leaves out exports and names.
pub open spec fn plain_state(st: WalkState) -> WalkState {
    WalkState { view: plain_view(st.view), ..st }
}

/// Where a walk stands: the parsers left to resume (origin and steps made),
/// the current parser's origin and steps made, and what it has collected.
pub struct WalkState {
    pub stack: Seq<(Seq<nat>, nat)>,
    pub origin: Seq<nat>,
    pub k: nat,
    pub view: WalkView,
}

/// One step of a walk: it fails, ends with what it collected (and the
/// target's body range when the target was met), or goes on.
pub enum WalkStep {
    Fail,
    Done(WalkView, Option<(usize, usize)>),
    Next(WalkState),
}

/// The walk state after one more step of the current parser.
pub open spec fn advanced(st: WalkState, view: WalkView) -> WalkState {
    WalkState { stack: st.stack, origin: st.origin, k: st.k + 1, view }
}

/// A step that met a code section entry: the body must lie within the
/// bytes and its global index fit in `u32`; the target's body ends the
/// walk; otherwise the body is recorded (with its calls when asked).
pub open spec fn code_step(d: Seq<u8>, calls: bool, target: Option<u32>, st: WalkState) -> WalkStep {
    let (s, e, len) = code_entry_extent(d, st.origin, st.k);
    let global = st.view.imported + st.view.defined;
    if e > d.len() {
        WalkStep::Fail
    } else if global > u32::MAX {
        WalkStep::Fail
    } else if target == Some(global as u32) {
        WalkStep::Done(st.view, Some((s, e)))
    } else if st.view.defined >= u32::MAX {
        WalkStep::Fail
    } else {
        let body = BodyRecord { index: global as u32, size: len as u32, start: s, end: e };
        let v = WalkView {
            defined: st.view.defined + 1,
            bodies: st.view.bodies.push(body),
            ..st.view
        };
        if calls {
            match body_calls_of(d, s, e) {
                Some(c) => WalkStep::Next(advanced(st, WalkView { calls: st.view.calls.insert(global as u32, c), ..v })),
                None => WalkStep::Fail,
            }
        } else {
            WalkStep::Next(advanced(st, v))
        }
    }
}

/// One step of the walk of `d`: parse the current parser's next payload at
/// its own offset and act on it. Import sections add their function
/// imports, export sections their function exports (when asked), custom
/// sections their function names (when asked), nested modules and
/// components are walked in place, and the end of the outermost parser ends
/// the walk.
pub open spec fn walk_step(d: Seq<u8>, exports: bool, names: bool, calls: bool, target: Option<u32>, st: WalkState) -> WalkStep {
    let o = st.origin;
    let k = st.k;
    if parser_offset_at(d, o, k) > d.len() {
        WalkStep::Fail
    } else {
        match parse_outcome(d, o, k) {
            ParseOutcome::Parsed(_) => match payload_kind(d, o, k) {
                PayloadKind::Imports => match import_section_funcs(d, o, k) {
                    Some(c) => if st.view.imported + c <= u32::MAX {
                        WalkStep::Next(advanced(st, WalkView { imported: st.view.imported + c, ..st.view }))
                    } else {
                        WalkStep::Fail
                    },
                    None => WalkStep::Fail,
                },
                PayloadKind::CodeEntry => code_step(d, calls, target, st),
                PayloadKind::Exports => if exports {
                    match section_exports(d, o, k, st.view.exports) {
                        Some(m) => WalkStep::Next(advanced(st, WalkView { exports: m, ..st.view })),
                        None => WalkStep::Fail,
                    }
                } else {
                    WalkStep::Next(advanced(st, st.view))
                },
                PayloadKind::Custom => if names {
                    match custom_names(d, o, k, st.view.names) {
                        Some(m) => WalkStep::Next(advanced(st, WalkView { names: m, ..st.view })),
                        None => WalkStep::Fail,
                    }
                } else {
                    WalkStep::Next(advanced(st, st.view))
                },
                PayloadKind::Nested => WalkStep::Next(WalkState {
                    stack: st.stack.push((o, k + 1)),
                    origin: o.push(k),
                    k: 0,
                    view: st.view,
                }),
                PayloadKind::End => if st.stack.len() == 0 {
                    WalkStep::Done(st.view, None)
                } else {
                    WalkStep::Next(WalkState {
                        stack: st.stack.drop_last(),
                        origin: st.stack.last().0,
                        k: st.stack.last().1,
                        view: st.view,
                    })
                },
                _ => WalkStep::Next(advanced(st, st.view)),
            },
            _ => WalkStep::Fail,
        }
    }
}

/// The walk of `d` from `st` with at most `fuel` steps; `None` when it fails
/// or runs out of steps.
pub open spec fn walk_from(d: Seq<u8>, exports: bool, names: bool, calls: bool, target: Option<u32>, st: WalkState, fuel: nat) -> Option<(WalkView, Option<(usize, usize)>)>
    decreases fuel,
{
    if fuel == 0 {
        None
    } else {
        match walk_step(d, exports, names, calls, target, st) {
            WalkStep::Fail => None,
            WalkStep::Done(v, f) => Some((v, f)),
            WalkStep::Next(next) => walk_from(d, exports, names, calls, target, next, (fuel - 1) as nat),
        }
    }
}

/// The most steps a walk of `len` bytes takes: every payload but an `End`
/// consumes a byte, and every parser but the outermost starts after a
/// section header of at least two bytes.
pub open spec fn walk_fuel(len: nat) -> nat {
    2 * len + 4
}

/// The walk of the whole module `d` (see `walk_step`), from the outermost
/// parser with nothing collected.
pub open spec fn walk_result(d: Seq<u8>, exports: bool, names: bool, calls: bool, target: Option<u32>) -> Option<(WalkView, Option<(usize, usize)>)> {
    walk_from(d, exports, names, calls, target, walk_start(), walk_fuel(d.len()))
}

/// The state a walk starts from: the outermost parser, nothing collected.
pub open spec fn walk_start() -> WalkState {
    WalkState {
        stack: Seq::empty(),
        origin: Seq::empty(),
        k: 0,
        view: WalkView {
            imported: 0,
            defined: 0,
            bodies: Seq::empty(),
            calls: Map::empty(),
            exports: Map::empty(),
            names: Map::empty(),
        },
    }
}

/// Leaving out exports and names changes nothing else a walk collects, and
/// a walk that reads them can only fail more often.
pub proof fn lemma_plain_walk(d: Seq<u8>, exports: bool, names: bool, calls: bool, target: Option<u32>, st: WalkState, f: nat)
    requires
        walk_from(d, exports, names, calls, target, st, f) is Some,
    ensures
        walk_from(d, false, false, calls, target, plain_state(st), f) == match walk_from(d, exports, names, calls, target, st, f) {
            Some((v, x)) => Some((plain_view(v), x)),
            None => None,
        },
    decreases f,
{
    if f > 0 {
        match walk_step(d, exports, names, calls, target, st) {
            WalkStep::Next(n) => {
                assert(walk_step(d, false, false, calls, target, plain_state(st)) == WalkStep::Next(plain_state(n)));
                lemma_plain_walk(d, exports, names, calls, target, n, (f - 1) as nat);
            },
            WalkStep::Done(v, x) => {
                assert(walk_step(d, false, false, calls, target, plain_state(st)) == WalkStep::Done(plain_view(v), x));
            },
            WalkStep::Fail => {},
        }
    }
}

/// A walk that reads exports and names and succeeds collects, without
/// them, what the walk that does not read them collects.
pub proof fn lemma_plain_result(d: Seq<u8>, exports: bool, names: bool, calls: bool, target: Option<u32>)
    requires
        walk_result(d, exports, names, calls, target) is Some,
    ensures
        walk_result(d, false, false, calls, target) == match walk_result(d, exports, names, calls, target) {
            Some((v, x)) => Some((plain_view(v), x)),
            None => None,
        },
{
    lemma_plain_walk(d, exports, names, calls, target, walk_start(), walk_fuel(d.len()));
    assert(plain_view(walk_start().view) =~= walk_start().view);
    assert(plain_state(walk_start()) == walk_start());
}

/// What a walk result collected that depends on the bytes alone.
pub open spec fn scan_view(scan: ModuleScan) -> WalkView {
    WalkView {
        imported: scan.imported_functions as nat,
        defined: scan.defined_functions as nat,
        bodies: scan.bodies@,
        calls: Map::new(
            |k: u32| scan.graph.edges@.contains_key(k),
            |k: u32| (scan.graph.edges@[k]@, scan.graph.has_indirect@[k]),
        ),
        exports: exports_view(scan.exports@),
        names: names_view(scan.names@),
    }
}

/// The resume points of a stack of parsers.
pub open spec fn frames(v: Seq<WalkParser>) -> Seq<(Seq<nat>, nat)> {
    v.map_values(|p: WalkParser| (p.origin(), p.steps()))
}

/// The walk state of a running walk.
pub open spec fn exec_state(stack: Seq<WalkParser>, cur: WalkParser, scan: ModuleScan) -> WalkState {
    WalkState { stack: frames(stack), origin: cur.origin(), k: cur.steps(), view: scan_view(scan) }
}

/// Walks the payloads of `data` (a module, or a component with nested
/// modules), collecting what `opts` asks for: what it collects, and whether
/// it succeeds, is `walk_result` of the bytes. When `opts.target` names the
/// global index of a defined function, the walk stops there and hands back
/// its body's byte range.
pub fn walk_module(data: &[u8], opts: &WalkOptions) -> (r: Result<(ModuleScan, Option<(usize, usize)>), WasmError>)
    ensures
        r matches Err(e) ==> !(e is FunctionNotFound),
        r matches Ok((scan, found)) ==> walk_result(data@, opts.exports, opts.names, opts.calls, opts.target) == Some((scan_view(scan), found)),
        r matches Ok((scan, found)) ==> walk_result(data@, false, false, opts.calls, opts.target) == Some((plain_view(scan_view(scan)), found)),
        r is Err ==> walk_result(data@, opts.exports, opts.names, opts.calls, opts.target) is None,
        r matches Ok((scan, found)) ==> {
            &&& scan.wf()
            &&& !opts.exports ==> scan.exports@ == Map::<u32, Vec<String>>::empty()
            &&& !opts.names ==> scan.names@ == Map::<u32, String>::empty()
            &&& !opts.calls ==> scan.graph.edges@ == Map::<u32, Vec<u32>>::empty()
            &&& !opts.calls ==> scan.graph.has_indirect@ == Map::<u32, bool>::empty()
            &&& opts.calls ==> scan.graph.edges@.dom() == body_indices(scan.bodies@)
            &&& opts.calls ==> scan.graph.has_indirect@.dom() == body_indices(scan.bodies@)
            &&& forall|i: int| 0 <= i < scan.bodies.len() ==> (#[trigger] scan.bodies[i]).end <= data@.len()
            &&& opts.calls ==> forall|i: int| 0 <= i < scan.bodies.len() ==>
                body_calls_of(data@, (#[trigger] scan.bodies[i]).start, scan.bodies[i].end)
                    == Some((scan.graph.edges@[scan.bodies[i].index]@, scan.graph.has_indirect@[scan.bodies[i].index]))
            &&& found matches Some((s, e)) ==> s <= e <= data@.len()
            &&& found is Some ==> opts.target == Some((scan.imported_functions + scan.defined_functions) as u32)
            &&& found is Some ==> scan.imported_functions + scan.defined_functions <= u32::MAX
            &&& opts.target matches Some(t) ==> !body_indices(scan.bodies@).contains(t)
        },
{
    let mut scan = ModuleScan::new();
    let mut cur: WalkParser = new_parser(data);
    let mut stack: Vec<WalkParser> = Vec::new();
    let mut fuel: u128 = 2 * (data.len() as u128) + 4;
    proof {
        assert(scan_view(scan).calls =~= Map::<u32, (Seq<u32>, bool)>::empty());
        assert(scan.bodies@ =~= Seq::<BodyRecord>::empty());
        assert(scan_view(scan).exports =~= Map::<u32, Seq<Seq<char>>>::empty());
        assert(scan_view(scan).names =~= Map::<u32, Seq<char>>::empty());
        assert(scan_view(scan) =~= walk_start().view);
        assert(frames(stack@) =~= Seq::<(Seq<nat>, nat)>::empty());
    }
    loop
        invariant
            scan.wf(),
            cur.data() == data@,
            forall|i: int| 0 <= i < stack@.len() ==> (#[trigger] stack@[i]).data() == data@,
            walk_result(data@, opts.exports, opts.names, opts.calls, opts.target) == walk_from(data@, opts.exports,
                opts.names, opts.calls, opts.target, exec_state(stack@, cur, scan), fuel as nat),
            !opts.exports ==> scan.exports@ == Map::<u32, Vec<String>>::empty(),
            !opts.names ==> scan.names@ == Map::<u32, String>::empty(),
            !opts.calls ==> scan.graph.edges@ == Map::<u32, Vec<u32>>::empty(),
            !opts.calls ==> scan.graph.has_indirect@ == Map::<u32, bool>::empty(),
            scan.graph.edges@.dom() == body_indices(scan.bodies@) || !opts.calls,
            opts.calls ==> scan.graph.has_indirect@.dom() == body_indices(scan.bodies@),
            opts.target matches Some(t) ==> !body_indices(scan.bodies@).contains(t),
            forall|i: int| 0 <= i < scan.bodies.len() ==> (#[trigger] scan.bodies[i]).end <= data@.len(),
            opts.calls ==> forall|i: int| 0 <= i < scan.bodies.len() ==>
                body_calls_of(data@, (#[trigger] scan.bodies[i]).start, scan.bodies[i].end)
                    == Some((scan.graph.edges@[scan.bodies[i].index]@, scan.graph.has_indirect@[scan.bodies[i].index])),
        decreases fuel,
    {
        let ghost st = exec_state(stack@, cur, scan);
        if fuel == 0 {
            return Err(WasmError::Malformed { message: String::from_str("too many payloads"), offset: 0 });
        }
        let off = parser_offset(&cur);
        if off > data.len() as u64 {
            return Err(WasmError::Malformed { message: String::from_str("parser offset beyond the module bytes"), offset: off });
        }
        let pos = off as usize;
        let res = parse_step(&mut cur, data, pos);
        fuel = fuel - 1;
        let (consumed, payload) = match res {
            Ok(Step::Parsed(n, p)) => (n, p),
            Ok(Step::NeedMoreData) => { return Err(WasmError::Incomplete); },
            Err(e) => { return Err(reader_error(e)); },
        };
        let section = classify_payload(payload, consumed);
        proof {
            assert(frames(stack@) == st.stack);
        }
        match section {
            Section::Imports(s) => {
                let ghost before = scan;
                count_function_imports(s, &mut scan.imported_functions)?;
                proof {
                    assert(st.view == scan_view(before));
                    assert(scan.bodies@ == before.bodies@);
                    assert(scan.defined_functions == before.defined_functions);
                    assert(scan.graph == before.graph);
                    assert(scan_view(scan).calls =~= st.view.calls);
                    assert(scan_view(scan) =~= WalkView { imported: st.view.imported + (scan.imported_functions - before.imported_functions) as nat, ..st.view });
                }
            },
            Section::Exports(s) => {
                let ghost before = scan;
                if opts.exports {
                    collect_exports(s, &mut scan.exports)?;
                }
                proof {
                    assert(scan.graph == before.graph);
                    assert(scan_view(scan).calls =~= st.view.calls);
                    assert(scan_view(scan) =~= WalkView { exports: exports_view(scan.exports@), ..st.view });
                }
            },
            Section::Custom(cs) => {
                let ghost before = scan;
                if opts.names {
                    collect_names(&cs, &mut scan.names)?;
                }
                proof {
                    assert(scan.graph == before.graph);
                    assert(scan_view(scan).calls =~= st.view.calls);
                    assert(scan_view(scan) =~= WalkView { names: names_view(scan.names@), ..st.view });
                }
            },
            Section::CodeEntry(entry) => {
                let (start, end, remaining) = body_extent(&entry);
                if end > data.len() {
                    return Err(WasmError::Malformed {
                        message: String::from_str("function body lies outside the module bytes"),
                        offset: start as u64,
                    });
                }
                let defined_idx = scan.defined_functions;
                let global = match scan.imported_functions.checked_add(defined_idx) {
                    Some(g) => g,
                    None => { return Err(WasmError::IndexOverflow); },
                };
                if let Some(t) = opts.target {
                    if global == t {
                        proof {
                            lemma_plain_result(data@, opts.exports, opts.names, opts.calls, opts.target);
                        }
                        return Ok((scan, Some((start, end))));
                    }
                }
                if defined_idx == u32::MAX {
                    return Err(WasmError::IndexOverflow);
                }
                let ghost pre = scan;
                if opts.calls {
                    let (calls, indirect) = body_calls(data, start, end)?;
                    scan.graph.edges.insert(global, calls);
                    scan.graph.has_indirect.insert(global, indirect);
                    proof {
                        assert forall|i: int| 0 <= i < scan.bodies.len() implies
                            body_calls_of(data@, (#[trigger] scan.bodies[i]).start, scan.bodies[i].end)
                                == Some((scan.graph.edges@[scan.bodies[i].index]@, scan.graph.has_indirect@[scan.bodies[i].index])) by {
                            assert(pre.bodies[i].index < global);
                            assert(pre.graph.edges@.contains_key(pre.bodies[i].index)) by {
                                assert(body_indices(pre.bodies@).contains(pre.bodies[i].index));
                            }
                        }
                        assert(scan_view(scan).calls =~= st.view.calls.insert(global, (calls@, indirect)));
                    }
                }
                let ghost old_bodies = scan.bodies@;
                scan.bodies.push(BodyRecord { index: global, size: remaining as u32, start, end });
                scan.defined_functions = defined_idx + 1;
                proof {
                    assert(body_indices(scan.bodies@) =~= body_indices(old_bodies).insert(global)) by {
                        assert forall|k: u32| body_indices(scan.bodies@).contains(k)
                            <==> body_indices(old_bodies).insert(global).contains(k) by {
                            if body_indices(old_bodies).contains(k) {
                                let i = choose|i: int| 0 <= i < old_bodies.len() && old_bodies[i].index == k;
                                assert(scan.bodies@[i] == old_bodies[i]);
                            }
                            if body_indices(scan.bodies@).contains(k) && k != global {
                                let i = choose|i: int| 0 <= i < scan.bodies@.len() && scan.bodies@[i].index == k;
                                assert(i < old_bodies.len());
                            }
                            if k == global {
                                assert(scan.bodies@[old_bodies.len() as int].index == k);
                            }
                        }
                    }
                    if !opts.calls {
                        assert(scan_view(scan).calls =~= st.view.calls);
                    }
                }
            },
            Section::Nested(p) => {
                stack.push(cur);
                cur = p;
                proof {
                    assert(frames(stack@) =~= st.stack.push((st.origin, st.k + 1)));
                }
            },
            Section::End => {
                match stack.pop() {
                    Some(p) => {
                        cur = p;
                        proof {
                            assert(frames(stack@) =~= st.stack.drop_last());
                        }
                    },
                    None => {
                        proof {
                            lemma_plain_result(data@, opts.exports, opts.names, opts.calls, opts.target);
                        }
                        return Ok((scan, None));
                    },
                }
            },
            Section::Other => {},
        }
    }
}

} // verus!
