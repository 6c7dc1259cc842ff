//! Per-function size and naming information of a module.

use std::collections::HashMap;
use std::ops::Range;

use vstd::prelude::*;

use crate::model::{opt_view, strings_view, sum_code_sizes, FunctionInfo, WasmModuleInfo};
use crate::walk::{scan_view, walk_module, walk_result, BodyRecord, ModuleScan, WalkOptions, WalkView, WasmError};

verus! {

broadcast use vstd::std_specs::hash::group_hash_axioms;

/// What `rustc_demangle::try_demangle(name)` renders (with `Display`, hash
/// suffix included), or `None` when `name` is not a mangled Rust symbol.
pub uninterp spec fn rust_demangle(name: Seq<char>) -> Option<Seq<char>>;

/// `rustc_demangle::try_demangle(name).ok().map(|d| d.to_string())`.
#[verifier::external_body]
pub(crate) fn demangle(name: &str) -> (r: Option<String>)
    ensures
        opt_view(r) == rust_demangle(name@),
{
    rustc_demangle::try_demangle(name).ok().map(|d| d.to_string())
}

/// The demangled name of a function: the raw name demangled if that
/// succeeds, else the first export name demangled.
pub open spec fn demangled_from(raw: Option<Seq<char>>, exports: Seq<Seq<char>>) -> Option<Seq<char>> {
    let from_raw = match raw {
        Some(r) => rust_demangle(r),
        None => None,
    };
    if from_raw is Some {
        from_raw
    } else if exports.len() > 0 {
        rust_demangle(exports[0])
    } else {
        None
    }
}

/// The export names of `idx` in a collected export map.
pub open spec fn exports_of(exports: Map<u32, Vec<String>>, idx: u32) -> Seq<Seq<char>> {
    if exports.contains_key(idx) { strings_view(exports[idx]@) } else { Seq::empty() }
}

/// The name of `idx` in a collected name map.
pub open spec fn name_of(names: Map<u32, String>, idx: u32) -> Option<Seq<char>> {
    if names.contains_key(idx) { Some(names[idx]@) } else { None }
}

/// `f` is the function information built from body record `b` and the
/// collected export and name maps.
pub open spec fn function_from(f: FunctionInfo, b: BodyRecord, exports: Map<u32, Vec<String>>, names: Map<u32, String>) -> bool {
    &&& f.index == b.index
    &&& f.code_size == b.size
    &&& f.body_range == Some(Range { start: b.start, end: b.end })
    &&& strings_view(f.export_names@) == exports_of(exports, b.index)
    &&& opt_view(f.raw_name) == name_of(names, b.index)
    &&& opt_view(f.demangled_name) == demangled_from(name_of(names, b.index), exports_of(exports, b.index))
}

/// The smaller of a natural number and `u64::MAX`: a saturating sum.
pub open spec fn saturate_u64(n: nat) -> u64 {
    if n <= u64::MAX { n as u64 } else { u64::MAX }
}

/// The module information assembled from a walk result: one function per
/// body in order, the counts of the walk, and the saturating total size.
pub open spec fn info_from_scan(info: WasmModuleInfo, scan: ModuleScan) -> bool {
    &&& info.imported_functions == scan.imported_functions
    &&& info.defined_functions == scan.defined_functions
    &&& info.functions.len() == scan.bodies.len()
    &&& forall|i: int| 0 <= i < scan.bodies.len() ==>
        function_from(#[trigger] info.functions[i], scan.bodies[i], scan.exports@, scan.names@)
    &&& info.total_code_size == saturate_u64(sum_code_sizes(info.functions@))
}

/// Builds the per-function information from what a walk collected: each
/// body gets its export names, its raw name, and a demangled name (raw name
/// first, else first export name); sizes are summed, saturating at `u64::MAX`.
pub fn assemble_module_info(scan: &ModuleScan) -> (info: WasmModuleInfo)
    ensures
        info_from_scan(info, *scan),
{
    let mut total_code_size: u64 = 0;
    let mut functions: Vec<FunctionInfo> = Vec::new();
    let mut i: usize = 0;
    while i < scan.bodies.len()
        invariant
            i <= scan.bodies.len(),
            functions.len() == i,
            forall|j: int| 0 <= j < i ==>
                function_from(#[trigger] functions[j], scan.bodies[j], scan.exports@, scan.names@),
            total_code_size == saturate_u64(sum_code_sizes(functions@)),
        decreases scan.bodies.len() - i,
    {
        let b = scan.bodies[i];
        let raw_name: Option<String> = match scan.names.get(&b.index) {
            Some(n) => Some(n.clone()),
            None => None,
        };
        let export_names: Vec<String> = match scan.exports.get(&b.index) {
            Some(v) => v.clone(),
            None => Vec::new(),
        };
        proof {
            if scan.exports@.contains_key(b.index) {
                assert(strings_view(export_names@) =~= strings_view(scan.exports@[b.index]@)) by {
                    assert forall|k: int| 0 <= k < export_names@.len() implies export_names@[k] == scan.exports@[b.index]@[k] by {
                        assert(cloned::<String>(scan.exports@[b.index]@[k], export_names@[k]));
                    }
                }
            } else {
                assert(strings_view(export_names@) =~= Seq::<Seq<char>>::empty());
            }
        }
        let mut demangled_name: Option<String> = match &raw_name {
            Some(r) => demangle(r.as_str()),
            None => None,
        };
        if demangled_name.is_none() {
            if export_names.len() > 0 {
                demangled_name = demangle(export_names[0].as_str());
            }
        }
        let f = FunctionInfo {
            index: b.index,
            code_size: b.size,
            body_range: Some(Range { start: b.start, end: b.end }),
            export_names,
            raw_name,
            demangled_name,
        };
        let ghost before = functions@;
        total_code_size = total_code_size.saturating_add(b.size as u64);
        functions.push(f);
        proof {
            assert(functions@.drop_last() == before);
        }
        i = i + 1;
    }
    WasmModuleInfo {
        total_code_size,
        imported_functions: scan.imported_functions,
        defined_functions: scan.defined_functions,
        functions,
    }
}

/// The shape of every parsed module: one entry per defined function,
/// global indices strictly increasing and below `imported + defined`, each
/// body range well formed with the size equal to its length, the demangled
/// name derived from the raw name or else the first export name, and the
/// total the saturating sum of the sizes.
pub open spec fn parsed_module_wf(info: WasmModuleInfo) -> bool {
    &&& info.functions.len() == info.defined_functions
    &&& forall|i: int| 0 <= i < info.functions.len() ==> {
        &&& (#[trigger] info.functions[i]).body_range matches Some(r)
            && r.start <= r.end && info.functions[i].code_size as int == r.end - r.start
        &&& info.functions[i].index < info.imported_functions + info.defined_functions
        &&& opt_view(info.functions[i].demangled_name) == demangled_from(
            opt_view(info.functions[i].raw_name),
            strings_view(info.functions[i].export_names@),
        )
    }
    &&& forall|i: int, j: int| 0 <= i < j < info.functions.len() ==>
        (#[trigger] info.functions[i]).index < (#[trigger] info.functions[j]).index
    &&& info.total_code_size == saturate_u64(sum_code_sizes(info.functions@))
}

/// The body range of `f`, if any, ends within `len` bytes.
pub open spec fn range_within(f: FunctionInfo, len: nat) -> bool {
    match f.body_range {
        Some(rg) => rg.end <= len,
        None => true,
    }
}

/// A walk result with the well-formed shape assembles into a well-formed module.
pub proof fn lemma_assembled_wf(info: WasmModuleInfo, scan: ModuleScan)
    requires
        scan.wf(),
        info_from_scan(info, scan),
    ensures
        parsed_module_wf(info),
{
    assert forall|i: int, j: int| 0 <= i < j < info.functions.len() implies
        (#[trigger] info.functions[i]).index < (#[trigger] info.functions[j]).index by {
        assert(function_from(info.functions[i], scan.bodies[i], scan.exports@, scan.names@));
        assert(function_from(info.functions[j], scan.bodies[j], scan.exports@, scan.names@));
    }
    assert forall|i: int| 0 <= i < info.functions.len() implies {
        &&& (#[trigger] info.functions[i]).body_range matches Some(r)
            && r.start <= r.end && info.functions[i].code_size as int == r.end - r.start
        &&& info.functions[i].index < info.imported_functions + info.defined_functions
        &&& opt_view(info.functions[i].demangled_name) == demangled_from(
            opt_view(info.functions[i].raw_name),
            strings_view(info.functions[i].export_names@),
        )
    } by {
        assert(function_from(info.functions[i], scan.bodies[i], scan.exports@, scan.names@));
        assert(scan.bodies[i].start <= scan.bodies[i].end);
    }
}

/// `info` holds what the walk collected: the function-import and
/// code-entry counts, and one function per recorded body with its global
/// index, size, byte range, export names and raw name, in walk order.
pub open spec fn info_matches_walk(info: WasmModuleInfo, v: WalkView) -> bool {
    &&& info.imported_functions as nat == v.imported
    &&& info.defined_functions as nat == v.defined
    &&& info.functions.len() == v.bodies.len()
    &&& forall|i: int| 0 <= i < v.bodies.len() ==> {
        &&& (#[trigger] info.functions[i]).index == v.bodies[i].index
        &&& info.functions[i].code_size == v.bodies[i].size
        &&& info.functions[i].body_range == Some(Range { start: v.bodies[i].start, end: v.bodies[i].end })
        &&& strings_view(info.functions[i].export_names@) == walk_exports_of(v, v.bodies[i].index)
        &&& opt_view(info.functions[i].raw_name) == walk_name_of(v, v.bodies[i].index)
    }
}

/// The export names the walk collected for `idx`, in export order.
pub open spec fn walk_exports_of(v: WalkView, idx: u32) -> Seq<Seq<char>> {
    if v.exports.contains_key(idx) { v.exports[idx] } else { Seq::empty() }
}

/// The name the walk collected for `idx` (the last naming wins).
pub open spec fn walk_name_of(v: WalkView, idx: u32) -> Option<Seq<char>> {
    if v.names.contains_key(idx) { Some(v.names[idx]) } else { None }
}

/// `info` is what parsing `d` gives by the payload walk of `d`.
pub open spec fn parsed_from_walk(info: WasmModuleInfo, d: Seq<u8>) -> bool {
    match walk_result(d, true, true, false, None) {
        Some((v, _)) => info_matches_walk(info, v),
        None => false,
    }
}

/// Parse a WebAssembly module from in-memory bytes, producing per-function
/// size and naming information.
///
/// The result is assembled from a walk over the module's payloads (see
/// `assemble_module_info`), so it has the shape `parsed_module_wf` states.
pub fn parse_wasm_from_bytes(bytes: &[u8]) -> (r: Result<WasmModuleInfo, WasmError>)
    ensures
        r is Ok <==> walk_result(bytes@, true, true, false, None) is Some,
        r matches Ok(info) ==> parsed_from_walk(info, bytes@),
        r matches Ok(info) ==> parsed_module_wf(info),
        r matches Ok(info) ==> forall|i: int| 0 <= i < info.functions.len() ==>
            range_within(#[trigger] info.functions[i], bytes@.len()),
        r matches Err(e) ==> !(e is FunctionNotFound),
{
    let opts = WalkOptions { exports: true, names: true, calls: false, target: None };
    let walked = walk_module(bytes, &opts);
    match walked {
        Err(e) => Err(e),
        Ok((scan, _)) => {
            let info = assemble_module_info(&scan);
            proof {
                lemma_assembled_wf(info, scan);
                assert forall|i: int| 0 <= i < scan.bodies@.len() implies {
                    &&& (#[trigger] info.functions[i]).index == scan.bodies@[i].index
                    &&& info.functions[i].code_size == scan.bodies@[i].size
                    &&& info.functions[i].body_range == Some(Range { start: scan.bodies@[i].start, end: scan.bodies@[i].end })
                    &&& strings_view(info.functions[i].export_names@) == walk_exports_of(scan_view(scan), scan.bodies@[i].index)
                    &&& opt_view(info.functions[i].raw_name) == walk_name_of(scan_view(scan), scan.bodies@[i].index)
                } by {
                    assert(function_from(info.functions[i], scan.bodies[i], scan.exports@, scan.names@));
                }
                assert(info_matches_walk(info, scan_view(scan)));
                assert forall|i: int| 0 <= i < info.functions.len() implies
                    range_within(#[trigger] info.functions[i], bytes@.len()) by {
                    assert(function_from(info.functions[i], scan.bodies[i], scan.exports@, scan.names@));
                    assert(scan.bodies[i].end <= bytes@.len());
                }
            }
            Ok(info)
        },
    }
}

} // verus!
