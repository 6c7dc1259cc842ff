//! Raw bytes of function bodies and their hex dump.

use vstd::prelude::*;

use crate::model::{FunctionInfo, WasmModuleInfo};
use crate::text::{empty_string, hex_padded, push_char, push_hex_padded, push_str};

verus! {

/// The first entry of `fs` with global index `k`, if any.
pub open spec fn find_index(fs: Seq<FunctionInfo>, k: u32) -> Option<int>
    decreases fs.len(),
{
    if fs.len() == 0 {
        None
    } else if fs[0].index == k {
        Some(0)
    } else {
        match find_index(fs.drop_first(), k) {
            Some(i) => Some(i + 1),
            None => None,
        }
    }
}

/// A found position is a valid position with the index asked for, and no
/// earlier entry has that index.
pub proof fn lemma_find_index(fs: Seq<FunctionInfo>, k: u32)
    ensures
        find_index(fs, k) matches Some(i) ==> 0 <= i < fs.len() && fs[i].index == k
            && forall|j: int| 0 <= j < i ==> fs[j].index != k,
        find_index(fs, k) is None ==> forall|j: int| 0 <= j < fs.len() ==> fs[j].index != k,
    decreases fs.len(),
{
    if fs.len() > 0 {
        lemma_find_index(fs.drop_first(), k);
        if fs[0].index != k {
            assert forall|j: int| 1 <= j < fs.len() implies fs[j] == fs.drop_first()[j - 1] by {}
        }
    }
}

/// Finds the position of the first function with global index `k`.
pub fn find_function(functions: &Vec<FunctionInfo>, k: u32) -> (r: Option<usize>)
    ensures
        r matches Some(i) ==> find_index(functions@, k) == Some(i as int),
        r is None ==> find_index(functions@, k) is None,
{
    let mut i: usize = 0;
    proof {
        assert(functions@.skip(0) =~= functions@);
    }
    while i < functions.len()
        invariant
            i <= functions.len(),
            find_index(functions@, k) == match find_index(functions@.skip(i as int), k) {
                Some(j) => Some(j + i),
                None => None,
            },
        decreases functions.len() - i,
    {
        proof {
            assert(functions@.skip(i as int).drop_first() =~= functions@.skip(i + 1));
        }
        if functions[i].index == k {
            return Some(i);
        }
        i = i + 1;
    }
    proof {
        assert(functions@.skip(i as int).len() == 0);
    }
    None
}

/// The body bytes of function `k`: the body range of its first entry, when
/// it has one that lies within `len` bytes.
pub open spec fn body_slice_range(fs: Seq<FunctionInfo>, k: u32, len: nat) -> Option<(int, int)> {
    match find_index(fs, k) {
        Some(i) => match fs[i].body_range {
            Some(r) => if r.end <= len { Some((r.start as int, r.end as int)) } else { None },
            None => None,
        },
        None => None,
    }
}

/// The body range of the function that `find_index` finds for `k`, if
/// any, does not end before it starts (slicing it would panic otherwise).
pub open spec fn found_range_ordered(fs: Seq<FunctionInfo>, k: u32) -> bool {
    match find_index(fs, k) {
        Some(i) => match fs[i].body_range {
            Some(rg) => rg.start <= rg.end,
            None => true,
        },
        None => true,
    }
}

/// Return the raw function body bytes for a given global function index, if available.
/// Uses `FunctionInfo.body_range` to slice into the module bytes.
/// Returns None if the function is not found or has no recorded body range (e.g., import),
/// or if the range ends past the bytes.
pub fn function_body_bytes<'a>(module: &WasmModuleInfo, wasm_bytes: &'a [u8], func_index: u32) -> (r: Option<&'a [u8]>)
    requires
        found_range_ordered(module.functions@, func_index),
    ensures
        match body_slice_range(module.functions@, func_index, wasm_bytes@.len()) {
            Some((s, e)) => r matches Some(b) && b@ == wasm_bytes@.subrange(s, e),
            None => r is None,
        },
{
    proof {
        lemma_find_index(module.functions@, func_index);
    }
    let i = find_function(&module.functions, func_index)?;
    match &module.functions[i].body_range {
        None => None,
        Some(range) => {
            if range.end <= wasm_bytes.len() {
                Some(slice_range(wasm_bytes, range.start, range.end))
            } else {
                None
            }
        },
    }
}

/// `&data[start..end]` (vstd's `slice_subrange`).
pub(crate) fn slice_range<'a>(data: &'a [u8], start: usize, end: usize) -> (r: &'a [u8])
    requires
        start <= end <= data@.len(),
    ensures
        r@ == data@.subrange(start as int, end as int),
{
    vstd::slice::slice_subrange(data, start, end)
}

/// The hex dump's ASCII gutter character of a byte: printable ASCII (graphic
/// or space) as itself, anything else as '.'.
pub open spec fn gutter_char(b: u8) -> char {
    if (0x21 <= b && b <= 0x7e) || b == 0x20 { b as char } else { '.' }
}

/// The gutter of a run of bytes.
pub open spec fn gutter(bs: Seq<u8>) -> Seq<char>
    decreases bs.len(),
{
    if bs.len() == 0 { Seq::empty() } else { gutter(bs.drop_last()).push(gutter_char(bs.last())) }
}

/// The hex cells of one line: `width` cells, "xx " for a byte and three
/// spaces past the end.
pub open spec fn hex_cells(line: Seq<u8>, width: nat) -> Seq<char>
    decreases width,
{
    if width == 0 {
        Seq::empty()
    } else {
        let i = (width - 1) as nat;
        hex_cells(line, i) + if i < line.len() {
            hex_padded(line[i as int] as nat, 2) + seq![' ']
        } else {
            seq![' ', ' ', ' ']
        }
    }
}

/// One line of the dump at `offset`: 8-digit hex offset, ": ", the cells,
/// " |", the gutter, "|" and a newline.
pub open spec fn dump_line(bytes: Seq<u8>, offset: nat, width: nat) -> Seq<char> {
    let end = if offset + width < bytes.len() { offset + width } else { bytes.len() };
    let line = bytes.subrange(offset as int, end as int);
    hex_padded(offset, 8) + seq![':', ' '] + hex_cells(line, width) + seq![' ', '|'] + gutter(line) + seq!['|', '\n']
}

/// The dump from `offset` on: one line per `width` bytes.
pub open spec fn dump_from(bytes: Seq<u8>, offset: nat, width: nat) -> Seq<char>
    decreases (if offset >= bytes.len() { 0 } else { bytes.len() - offset }),
{
    if width == 0 || offset >= bytes.len() {
        Seq::empty()
    } else {
        dump_line(bytes, offset, width) + dump_from(bytes, offset + width, width)
    }
}

/// The gutter character of a byte.
fn gutter_char_of(b: u8) -> (c: char)
    ensures
        c == gutter_char(b),
{
    if (0x21 <= b && b <= 0x7e) || b == 0x20 { b as char } else { '.' }
}

/// Appends one dump line.
fn push_dump_line(out: &mut String, bytes: &[u8], offset: usize, width: usize)
    requires
        offset < bytes@.len(),
        width > 0,
    ensures
        final(out)@ == old(out)@ + dump_line(bytes@, offset as nat, width as nat),
{
    let end = if width < bytes.len() - offset { offset + width } else { bytes.len() };
    let ghost line = bytes@.subrange(offset as int, end as int);
    push_hex_padded(out, offset as u64, 8);
    push_str(out, ": ");
    let ghost after_head = out@;
    proof { reveal_strlit(": "); }
    let mut i: usize = 0;
    while i < width
        invariant
            i <= width,
            offset < end <= bytes@.len(),
            end - offset <= width,
            line == bytes@.subrange(offset as int, end as int),
            out@ == after_head + hex_cells(line, i as nat),
        decreases width - i,
    {
        let ghost before = out@;
        if i < end - offset {
            push_hex_padded(out, bytes[offset + i] as u64, 2);
            push_char(out, ' ');
            proof {
                assert(line[i as int] == bytes@[offset + i]);
                assert(out@ =~= after_head + hex_cells(line, (i + 1) as nat));
            }
        } else {
            push_str(out, "   ");
            proof {
                reveal_strlit("   ");
                assert(out@ =~= after_head + hex_cells(line, (i + 1) as nat));
            }
        }
        i = i + 1;
    }
    push_str(out, " |");
    proof { reveal_strlit(" |"); }
    let ghost after_bar = out@;
    let mut j: usize = offset;
    while j < end
        invariant
            offset <= j <= end,
            end <= bytes@.len(),
            out@ == after_bar + gutter(bytes@.subrange(offset as int, j as int)),
        decreases end - j,
    {
        let c = gutter_char_of(bytes[j]);
        push_char(out, c);
        j = j + 1;
        proof {
            assert(bytes@.subrange(offset as int, j as int).drop_last() =~= bytes@.subrange(offset as int, j - 1));
        }
    }
    push_str(out, "|\n");
    proof {
        reveal_strlit("|\n");
        assert(out@ =~= old(out)@ + dump_line(bytes@, offset as nat, width as nat));
    }
}

/// Produce a simple hex dump (with ASCII gutter) of the provided bytes.
/// `width` controls the number of bytes per line (commonly 16); a width of
/// 0 gives an empty dump.
pub fn hexdump(bytes: &[u8], width: usize) -> (out: String)
    ensures
        out@ == dump_from(bytes@, 0, width as nat),
{
    let mut out = empty_string();
    if width == 0 {
        return out;
    }
    let mut offset: usize = 0;
    while offset < bytes.len()
        invariant
            width > 0,
            offset <= bytes@.len(),
            out@ + dump_from(bytes@, offset as nat, width as nat) == dump_from(bytes@, 0, width as nat),
        decreases bytes@.len() - offset,
    {
        let ghost before = out@;
        push_dump_line(&mut out, bytes, offset, width);
        proof {
            assert(before + dump_from(bytes@, offset as nat, width as nat)
                =~= out@ + dump_from(bytes@, (offset + width) as nat, width as nat));
        }
        if width < bytes.len() - offset {
            offset = offset + width;
        } else {
            proof {
                assert(dump_from(bytes@, (offset + width) as nat, width as nat) == Seq::<char>::empty());
            }
            offset = bytes.len();
        }
    }
    proof {
        assert(out@ + dump_from(bytes@, offset as nat, width as nat) =~= out@);
    }
    out
}

} // verus!
