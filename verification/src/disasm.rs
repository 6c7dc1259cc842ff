//! WAT-like disassembly of one function: header and locals lines, then one
//! line per operator with block indentation.
//!
//! Float constants are handed out as their IEEE bit patterns: rendering a
//! float's decimal value is left to the caller.

use vstd::prelude::*;

use crate::text::{dec_str, empty_string, push_dec, push_repeat, push_signed_dec, push_str, repeat_char, signed_dec_str};
use crate::model::WatLine;
use crate::walk::{op_bound, op_stop, op_total, reader_error, walk_module, walk_result, WalkOptions, WasmError};
use crate::wasm_read::{
    arith_op, control_op, local_read, locals_count, locals_declared, locals_open, misc_op, next_op,
    op_arith, op_control, op_debug, op_misc, op_operand, op_read, open_body_locals, open_body_ops,
    operand_op, operator_debug, ops_open, read_local, ArithOp, ControlOp, OpItem, OperandOp,
};

verus! {

/// A decoded operator: the variants the listing renders specially, and the
/// `Debug` rendering of every other operator.
pub enum DecodedOp {
    Operand(OperandOp),
    Arith(ArithOp),
    Control(ControlOp),
    Other(String),
}

/// The spec view of a decoded operator.
pub enum DecodedView {
    Operand(OperandOp),
    Arith(ArithOp),
    Control(ControlOp),
    Other(Seq<char>),
}

/// The view of a decoded operator.
pub open spec fn decoded_view(d: DecodedOp) -> DecodedView {
    match d {
        DecodedOp::Operand(o) => DecodedView::Operand(o),
        DecodedOp::Arith(a) => DecodedView::Arith(a),
        DecodedOp::Control(c) => DecodedView::Control(c),
        DecodedOp::Other(s) => DecodedView::Other(s@),
    }
}

/// The operator read by read `k` of the body at `data[start..end]`, decoded:
/// an operand operator, else an add/sub/mul, else a block-structure or
/// miscellaneous operator, else its `Debug` rendering.
pub open spec fn decoded_at(data: Seq<u8>, start: usize, end: usize, k: nat) -> DecodedView {
    match op_operand(data, start, end, k) {
        Some(o) => DecodedView::Operand(o),
        None => match op_arith(data, start, end, k) {
            Some(a) => DecodedView::Arith(a),
            None => match op_control(data, start, end, k) {
                Some(c) => DecodedView::Control(c),
                None => match op_misc(data, start, end, k) {
                    Some(c) => DecodedView::Control(c),
                    None => DecodedView::Other(op_debug(data, start, end, k)),
                },
            },
        },
    }
}

/// Decodes one operator read from a body.
fn decode_operator<'a>(it: &OpItem<'a>) -> (d: DecodedOp)
    ensures
        decoded_view(d) == decoded_at(it.at().0, it.at().1, it.at().2, it.at().3),
{
    if let Some(o) = operand_op(it) {
        return DecodedOp::Operand(o);
    }
    if let Some(a) = arith_op(it) {
        return DecodedOp::Arith(a);
    }
    if let Some(c) = control_op(it) {
        return DecodedOp::Control(c);
    }
    if let Some(c) = misc_op(it) {
        return DecodedOp::Control(c);
    }
    DecodedOp::Other(operator_debug(it))
}

/// The offset of a successful read, 0 otherwise.
pub open spec fn read_offset(r: Option<Result<usize, ()>>) -> usize {
    match r {
        Some(Ok(o)) => o,
        _ => 0,
    }
}

/// The first `n` operators of the body at `data[start..end]`, decoded, with
/// their offsets in the module.
pub open spec fn decoded_ops(data: Seq<u8>, start: usize, end: usize, n: nat) -> Seq<(DecodedView, usize)> {
    Seq::new(n, |k: int| (decoded_at(data, start, end, k as nat), read_offset(op_read(data, start, end, k as nat))))
}

/// The operators of the body at `data[start..end]`, decoded, with their
/// offsets; `None` when they cannot be read.
pub open spec fn body_decode(data: Seq<u8>, start: usize, end: usize) -> Option<Seq<(DecodedView, usize)>> {
    if ops_open(data, start, end) {
        match op_total(data, start, end) {
            Some(n) => Some(decoded_ops(data, start, end, n)),
            None => None,
        }
    } else {
        None
    }
}

/// The views of decoded operators with offsets.
pub open spec fn ops_view(v: Seq<(DecodedOp, usize)>) -> Seq<(DecodedView, usize)> {
    v.map_values(|p: (DecodedOp, usize)| (decoded_view(p.0), p.1))
}

/// The text of one listing entry: rendered text, or a float constant whose
/// decimal value the caller renders.
pub enum WatText {
    Text(String),
    /// `f32.const` with the bit pattern of its value.
    F32Const(u32),
    /// `f64.const` with the bit pattern of its value.
    F64Const(u64),
}

/// One entry of a listing.
pub struct WatEntry {
    pub text: WatText,
    /// Function-body-relative byte offset (0 for header, locals and closing lines).
    pub offset: usize,
    /// Indentation level of an operator line (0 for the others).
    pub indent: usize,
}

/// The spec view of an entry text.
pub enum TextView {
    Text(Seq<char>),
    F32Const(u32),
    F64Const(u64),
}

/// The spec view of an entry: text, offset, indentation.
pub open spec fn entry_view(e: WatEntry) -> (TextView, usize, usize) {
    (match e.text {
        WatText::Text(s) => TextView::Text(s@),
        WatText::F32Const(b) => TextView::F32Const(b),
        WatText::F64Const(b) => TextView::F64Const(b),
    }, e.offset, e.indent)
}

/// Two spaces per indentation level.
pub open spec fn pad(level: nat) -> Seq<char> {
    repeat_char(' ', 2 * level)
}

/// The indentation an operator is printed at: `else` and `end` close a
/// level first (never below 0).
pub open spec fn indent_before(op: DecodedView, indent: nat) -> nat {
    match op {
        DecodedView::Control(ControlOp::Else) | DecodedView::Control(ControlOp::End) =>
            if indent > 0 { (indent - 1) as nat } else { 0 },
        _ => indent,
    }
}

/// The indentation after an operator: `block`, `loop`, `if` and `else`
/// open a level (saturating at `usize::MAX`).
pub open spec fn indent_after(op: DecodedView, indent: nat) -> nat {
    let cur = indent_before(op, indent);
    match op {
        DecodedView::Control(ControlOp::Block) | DecodedView::Control(ControlOp::Loop)
        | DecodedView::Control(ControlOp::If) | DecodedView::Control(ControlOp::Else) =>
            if cur < usize::MAX { cur + 1 } else { cur },
        _ => cur,
    }
}

/// Mnemonic of an add/sub/mul operator.
pub open spec fn arith_name(a: ArithOp) -> Seq<char> {
    match a {
        ArithOp::I32Add => "i32.add"@,
        ArithOp::I32Sub => "i32.sub"@,
        ArithOp::I32Mul => "i32.mul"@,
        ArithOp::I64Add => "i64.add"@,
        ArithOp::I64Sub => "i64.sub"@,
        ArithOp::I64Mul => "i64.mul"@,
        ArithOp::F32Add => "f32.add"@,
        ArithOp::F32Sub => "f32.sub"@,
        ArithOp::F32Mul => "f32.mul"@,
        ArithOp::F64Add => "f64.add"@,
        ArithOp::F64Sub => "f64.sub"@,
        ArithOp::F64Mul => "f64.mul"@,
    }
}

/// Mnemonic of a control or miscellaneous operator.
pub open spec fn control_name(c: ControlOp) -> Seq<char> {
    match c {
        ControlOp::CallIndirect => "call_indirect"@,
        ControlOp::Block => "block"@,
        ControlOp::Loop => "loop"@,
        ControlOp::If => "if"@,
        ControlOp::Else => "else"@,
        ControlOp::End => "end"@,
        ControlOp::BrTable => "br_table"@,
        ControlOp::Return => "return"@,
        ControlOp::Drop => "drop"@,
        ControlOp::Select => "select"@,
        ControlOp::Nop => "nop"@,
        ControlOp::Unreachable => "unreachable"@,
        ControlOp::MemoryGrow => "memory.grow"@,
        ControlOp::MemorySize => "memory.size"@,
    }
}

/// Mnemonic (with trailing space) of an operator with an index operand.
pub open spec fn index_op_name(o: OperandOp) -> Seq<char> {
    match o {
        OperandOp::LocalGet(_) => "local.get "@,
        OperandOp::LocalSet(_) => "local.set "@,
        OperandOp::LocalTee(_) => "local.tee "@,
        OperandOp::GlobalGet(_) => "global.get "@,
        OperandOp::GlobalSet(_) => "global.set "@,
        OperandOp::Call(_) => "call "@,
        OperandOp::Br(_) => "br "@,
        _ => "br_if "@,
    }
}

/// The index operand of an operator with one.
pub open spec fn index_operand(o: OperandOp) -> u32 {
    match o {
        OperandOp::LocalGet(i) => i,
        OperandOp::LocalSet(i) => i,
        OperandOp::LocalTee(i) => i,
        OperandOp::GlobalGet(i) => i,
        OperandOp::GlobalSet(i) => i,
        OperandOp::Call(i) => i,
        OperandOp::Br(i) => i,
        OperandOp::BrIf(i) => i,
        _ => 0,
    }
}

/// The text of an operator line at indentation `level`.
pub open spec fn op_text(op: DecodedView, level: nat) -> TextView {
    match op {
        DecodedView::Operand(OperandOp::I32Const(v)) => TextView::Text(pad(level) + "i32.const "@ + signed_dec_str(v as int)),
        DecodedView::Operand(OperandOp::I64Const(v)) => TextView::Text(pad(level) + "i64.const "@ + signed_dec_str(v as int)),
        DecodedView::Operand(OperandOp::F32Const(b)) => TextView::F32Const(b),
        DecodedView::Operand(OperandOp::F64Const(b)) => TextView::F64Const(b),
        DecodedView::Operand(o) => TextView::Text(pad(level) + index_op_name(o) + dec_str(index_operand(o) as nat)),
        DecodedView::Arith(a) => TextView::Text(pad(level) + arith_name(a)),
        DecodedView::Control(c) => TextView::Text(pad(level) + control_name(c)),
        DecodedView::Other(s) => TextView::Text(pad(level) + ";; "@ + s),
    }
}

/// The entries of a run of operators (each with its absolute offset),
/// starting at indentation `indent`; offsets are made relative to
/// `body_start` (saturating at 0).
pub open spec fn op_entries(ops: Seq<(DecodedView, usize)>, indent: nat, body_start: usize) -> Seq<(TextView, usize, usize)>
    decreases ops.len(),
{
    if ops.len() == 0 {
        Seq::empty()
    } else {
        let op = ops[0].0;
        let cur = indent_before(op, indent);
        let off = if ops[0].1 >= body_start { (ops[0].1 - body_start) as usize } else { 0usize };
        seq![(op_text(op, cur), off, cur as usize)] + op_entries(ops.drop_first(), indent_after(op, indent), body_start)
    }
}

/// A plain text entry at offset 0 and indentation 0.
pub open spec fn plain(s: Seq<char>) -> (TextView, usize, usize) {
    (TextView::Text(s), 0usize, 0usize)
}

/// The locals lines: a "locals:" line then one line per declaration, or
/// nothing without declarations.
pub open spec fn locals_entries(locals: Seq<(u32, Seq<char>)>) -> Seq<(TextView, usize, usize)> {
    if locals.len() == 0 {
        Seq::empty()
    } else {
        seq![plain("  ;; locals:"@)] + locals.map_values(|d: (u32, Seq<char>)|
            plain("  ;;   count="@ + dec_str(d.0 as nat) + " type="@ + d.1))
    }
}

/// The whole listing of function `target`.
pub open spec fn listing_spec(
    target: u32,
    locals: Seq<(u32, Seq<char>)>,
    ops: Seq<(DecodedView, usize)>,
    body_start: usize,
) -> Seq<(TextView, usize, usize)> {
    seq![plain(";; func ["@ + dec_str(target as nat) + "]"@), plain("(func"@)]
        + locals_entries(locals) + seq![plain("  ;; body"@)]
        + op_entries(ops, 0, body_start) + seq![plain(")"@)]
}

/// The views of a list of entries.
pub open spec fn entries_view(v: Seq<WatEntry>) -> Seq<(TextView, usize, usize)> {
    v.map_values(|e: WatEntry| entry_view(e))
}

/// The views of the locals declarations.
pub open spec fn locals_view(v: Seq<(u32, String)>) -> Seq<(u32, Seq<char>)> {
    v.map_values(|d: (u32, String)| (d.0, d.1@))
}

fn arith_mnemonic(a: &ArithOp) -> (s: &'static str)
    ensures
        s@ == arith_name(*a),
{
    match a {
        ArithOp::I32Add => "i32.add",
        ArithOp::I32Sub => "i32.sub",
        ArithOp::I32Mul => "i32.mul",
        ArithOp::I64Add => "i64.add",
        ArithOp::I64Sub => "i64.sub",
        ArithOp::I64Mul => "i64.mul",
        ArithOp::F32Add => "f32.add",
        ArithOp::F32Sub => "f32.sub",
        ArithOp::F32Mul => "f32.mul",
        ArithOp::F64Add => "f64.add",
        ArithOp::F64Sub => "f64.sub",
        ArithOp::F64Mul => "f64.mul",
    }
}

fn control_mnemonic(c: &ControlOp) -> (s: &'static str)
    ensures
        s@ == control_name(*c),
{
    match c {
        ControlOp::CallIndirect => "call_indirect",
        ControlOp::Block => "block",
        ControlOp::Loop => "loop",
        ControlOp::If => "if",
        ControlOp::Else => "else",
        ControlOp::End => "end",
        ControlOp::BrTable => "br_table",
        ControlOp::Return => "return",
        ControlOp::Drop => "drop",
        ControlOp::Select => "select",
        ControlOp::Nop => "nop",
        ControlOp::Unreachable => "unreachable",
        ControlOp::MemoryGrow => "memory.grow",
        ControlOp::MemorySize => "memory.size",
    }
}

fn index_mnemonic(o: &OperandOp) -> (s: &'static str)
    ensures
        s@ == index_op_name(*o),
{
    match o {
        OperandOp::LocalGet(_) => "local.get ",
        OperandOp::LocalSet(_) => "local.set ",
        OperandOp::LocalTee(_) => "local.tee ",
        OperandOp::GlobalGet(_) => "global.get ",
        OperandOp::GlobalSet(_) => "global.set ",
        OperandOp::Call(_) => "call ",
        OperandOp::Br(_) => "br ",
        _ => "br_if ",
    }
}

fn index_operand_of(o: &OperandOp) -> (i: u32)
    ensures
        i == index_operand(*o),
{
    match o {
        OperandOp::LocalGet(i) => *i,
        OperandOp::LocalSet(i) => *i,
        OperandOp::LocalTee(i) => *i,
        OperandOp::GlobalGet(i) => *i,
        OperandOp::GlobalSet(i) => *i,
        OperandOp::Call(i) => *i,
        OperandOp::Br(i) => *i,
        OperandOp::BrIf(i) => *i,
        _ => 0,
    }
}

/// Renders the text of an operator line at indentation `level`.
pub fn render_op_text(op: &DecodedOp, level: usize) -> (t: WatText)
    requires
        2 * level <= u64::MAX,
    ensures
        entry_view(WatEntry { text: t, offset: 0, indent: 0 }).0 == op_text(decoded_view(*op), level as nat),
{
    let mut s = empty_string();
    push_repeat(&mut s, ' ', 2 * level as u64);
    let ghost p = s@;
    match op {
        DecodedOp::Operand(OperandOp::I32Const(v)) => {
            push_str(&mut s, "i32.const ");
            push_signed_dec(&mut s, *v as i64);
        },
        DecodedOp::Operand(OperandOp::I64Const(v)) => {
            push_str(&mut s, "i64.const ");
            push_signed_dec(&mut s, *v);
        },
        DecodedOp::Operand(OperandOp::F32Const(b)) => {
            return WatText::F32Const(*b);
        },
        DecodedOp::Operand(OperandOp::F64Const(b)) => {
            return WatText::F64Const(*b);
        },
        DecodedOp::Operand(o) => {
            push_str(&mut s, index_mnemonic(o));
            push_dec(&mut s, index_operand_of(o) as u64);
        },
        DecodedOp::Arith(a) => {
            push_str(&mut s, arith_mnemonic(a));
        },
        DecodedOp::Control(c) => {
            push_str(&mut s, control_mnemonic(c));
        },
        DecodedOp::Other(d) => {
            push_str(&mut s, ";; ");
            push_str(&mut s, d.as_str());
        },
    }
    proof {
        assert(p == pad(level as nat));
        assert(s@ =~= match op_text(decoded_view(*op), level as nat) { TextView::Text(t) => t, _ => s@ });
    }
    WatText::Text(s)
}

/// The indentation before and after an operator.
pub fn indent_step(op: &DecodedOp, indent: usize) -> (r: (usize, usize))
    ensures
        r.0 as nat == indent_before(decoded_view(*op), indent as nat),
        r.1 as nat == indent_after(decoded_view(*op), indent as nat),
{
    let cur = match op {
        DecodedOp::Control(ControlOp::Else) | DecodedOp::Control(ControlOp::End) =>
            if indent > 0 { indent - 1 } else { 0 },
        _ => indent,
    };
    let next = match op {
        DecodedOp::Control(ControlOp::Block) | DecodedOp::Control(ControlOp::Loop)
        | DecodedOp::Control(ControlOp::If) | DecodedOp::Control(ControlOp::Else) =>
            if cur < usize::MAX { cur + 1 } else { cur },
        _ => cur,
    };
    (cur, next)
}

/// Pushes a plain text entry.
fn push_plain(out: &mut Vec<WatEntry>, s: String)
    ensures
        entries_view(final(out)@) == entries_view(old(out)@).push(plain(s@)),
{
    out.push(WatEntry { text: WatText::Text(s), offset: 0, indent: 0 });
    proof {
        assert(entries_view(out@) =~= entries_view(old(out)@).push(plain(s@)));
    }
}

/// Builds the listing entries of function `target` from its locals
/// declarations and decoded operators (with absolute offsets).
pub fn listing_entries(target: u32, locals: &Vec<(u32, String)>, ops: &Vec<(DecodedOp, usize)>, body_start: usize) -> (r: Vec<WatEntry>)
    requires
        ops@.len() < u64::MAX / 4,
    ensures
        entries_view(r@) == listing_spec(target, locals_view(locals@), ops_view(ops@), body_start),
{
    let mut out: Vec<WatEntry> = Vec::new();
    let mut h = empty_string();
    push_str(&mut h, ";; func [");
    push_dec(&mut h, target as u64);
    push_str(&mut h, "]");
    push_plain(&mut out, h);
    push_plain(&mut out, String::from_str("(func"));
    let ghost head = entries_view(out@);
    if locals.len() > 0 {
        push_plain(&mut out, String::from_str("  ;; locals:"));
        let mut i: usize = 0;
        while i < locals.len()
            invariant
                i <= locals.len(),
                locals.len() > 0,
                entries_view(out@) == head + seq![plain("  ;; locals:"@)]
                    + locals_view(locals@).take(i as int).map_values(|d: (u32, Seq<char>)|
                        plain("  ;;   count="@ + dec_str(d.0 as nat) + " type="@ + d.1)),
            decreases locals.len() - i,
        {
            let mut line = empty_string();
            push_str(&mut line, "  ;;   count=");
            push_dec(&mut line, locals[i].0 as u64);
            push_str(&mut line, " type=");
            push_str(&mut line, locals[i].1.as_str());
            push_plain(&mut out, line);
            i = i + 1;
            proof {
                assert(locals_view(locals@).take(i as int) =~= locals_view(locals@).take(i - 1).push(locals_view(locals@)[i - 1]));
                assert(entries_view(out@) =~= head + seq![plain("  ;; locals:"@)]
                    + locals_view(locals@).take(i as int).map_values(|d: (u32, Seq<char>)|
                        plain("  ;;   count="@ + dec_str(d.0 as nat) + " type="@ + d.1)));
            }
        }
        proof {
            assert(locals_view(locals@).take(locals.len() as int) =~= locals_view(locals@));
        }
    }
    proof {
        assert(entries_view(out@) =~= head + locals_entries(locals_view(locals@)));
    }
    push_plain(&mut out, String::from_str("  ;; body"));
    let ghost before_ops = entries_view(out@);
    let mut indent: usize = 0;
    let mut i: usize = 0;
    proof {
        assert(ops_view(ops@).skip(0) =~= ops_view(ops@));
    }
    while i < ops.len()
        invariant
            i <= ops.len(),
            indent <= i,
            ops@.len() < u64::MAX / 4,
            entries_view(out@) + op_entries(ops_view(ops@).skip(i as int), indent as nat, body_start)
                == before_ops + op_entries(ops_view(ops@), 0, body_start),
        decreases ops.len() - i,
    {
        let (cur, next) = indent_step(&ops[i].0, indent);
        let text = render_op_text(&ops[i].0, cur);
        let off = if ops[i].1 >= body_start { ops[i].1 - body_start } else { 0 };
        let ghost before = entries_view(out@);
        out.push(WatEntry { text, offset: off, indent: cur });
        proof {
            assert(entries_view(out@) =~= before.push(entry_view(WatEntry { text, offset: off, indent: cur })));
            assert(ops_view(ops@).skip(i as int).drop_first() =~= ops_view(ops@).skip(i + 1));
            assert(ops_view(ops@).skip(i as int)[0] == (decoded_view(ops@[i as int].0), ops@[i as int].1));
        }
        indent = next;
        i = i + 1;
    }
    push_plain(&mut out, String::from_str(")"));
    proof {
        assert(ops_view(ops@).skip(ops.len() as int) =~= Seq::<(DecodedView, usize)>::empty());
        assert(entries_view(out@) =~= listing_spec(target, locals_view(locals@), ops_view(ops@), body_start));
    }
    out
}

/// The first `n` locals declarations of the body at `data[start..end]`, or
/// `None` when one of those reads fails.
pub open spec fn locals_upto(data: Seq<u8>, start: usize, end: usize, n: nat) -> Option<Seq<(u32, Seq<char>)>>
    decreases n,
{
    if n == 0 {
        Some(Seq::empty())
    } else {
        match locals_upto(data, start, end, (n - 1) as nat) {
            Some(p) => match local_read(data, start, end, (n - 1) as nat) {
                Ok(d) => Some(p.push(d)),
                Err(_) => None,
            },
            None => None,
        }
    }
}

/// The locals declarations (count and value type) of the body at
/// `data[start..end]`; `None` when they cannot be read.
pub open spec fn body_locals_of(data: Seq<u8>, start: usize, end: usize) -> Option<Seq<(u32, Seq<char>)>> {
    if locals_open(data, start, end) {
        locals_upto(data, start, end, locals_declared(data, start, end) as nat)
    } else {
        None
    }
}

/// A failed read stays failed for every later count.
proof fn lemma_locals_upto_fails(data: Seq<u8>, start: usize, end: usize, k: nat, n: nat)
    requires
        k <= n,
        locals_upto(data, start, end, k) is None,
    ensures
        locals_upto(data, start, end, n) is None,
    decreases n - k,
{
    if k < n {
        lemma_locals_upto_fails(data, start, end, k, (n - 1) as nat);
    }
}

/// Reads the locals declarations of the body at `data[start..end]`.
pub fn body_locals(data: &[u8], start: usize, end: usize) -> (r: Result<Vec<(u32, String)>, WasmError>)
    requires
        start <= end <= data@.len(),
    ensures
        match r {
            Ok(v) => body_locals_of(data@, start, end) == Some(locals_view(v@)),
            Err(e) => body_locals_of(data@, start, end) is None && e is Malformed,
        },
{
    let mut reader = match open_body_locals(data, start, end) {
        Ok(r) => r,
        Err(e) => { return Err(reader_error(e)); },
    };
    let n = locals_count(&reader);
    let mut out: Vec<(u32, String)> = Vec::new();
    let mut i: u32 = 0;
    proof {
        assert(locals_view(out@) =~= Seq::<(u32, Seq<char>)>::empty());
    }
    while i < n
        invariant
            i <= n,
            n == locals_declared(data@, start, end),
            locals_open(data@, start, end),
            reader.body() == (data@, start, end),
            reader.reads() == i,
            locals_upto(data@, start, end, i as nat) == Some(locals_view(out@)),
        decreases n - i,
    {
        match read_local(&mut reader) {
            Ok(d) => {
                let ghost before = out@;
                out.push(d);
                proof {
                    assert(locals_view(out@) =~= locals_view(before).push((d.0, d.1@)));
                }
            },
            Err(e) => {
                proof {
                    assert(locals_upto(data@, start, end, (i + 1) as nat) is None);
                    lemma_locals_upto_fails(data@, start, end, (i + 1) as nat, n as nat);
                }
                return Err(reader_error(e));
            },
        }
        i = i + 1;
    }
    Ok(out)
}

/// Decodes the operators of the body at `data[start..end]` with their
/// offsets in the module.
pub fn body_ops(data: &[u8], start: usize, end: usize) -> (r: Result<Vec<(DecodedOp, usize)>, WasmError>)
    requires
        start <= end <= data@.len(),
    ensures
        match r {
            Ok(v) => body_decode(data@, start, end) == Some(ops_view(v@)) && v@.len() < u64::MAX / 4,
            Err(e) => body_decode(data@, start, end) is None && e is Malformed,
        },
{
    let mut ops = match open_body_ops(data, start, end) {
        Ok(o) => o,
        Err(e) => { return Err(reader_error(e)); },
    };
    let bound = end - start;
    let mut out: Vec<(DecodedOp, usize)> = Vec::new();
    let mut i: usize = 0;
    proof {
        assert(ops_view(out@) =~= decoded_ops(data@, start, end, 0));
    }
    while i < bound && (i as u64) < 0x1000_0000_0000_0000u64
        invariant
            i <= bound,
            bound == end - start,
            ops.body() == (data@, start, end),
            ops.reads() == i,
            ops_open(data@, start, end),
            op_total(data@, start, end) == op_stop(data@, start, end, i as nat, (op_bound(start, end) - i) as nat),
            i <= op_bound(start, end),
            ops_view(out@) == decoded_ops(data@, start, end, i as nat),
            out@.len() == i,
        decreases bound - i,
    {
        assert(op_bound(start, end) > i);
        let it = match next_op(&mut ops) {
            None => {
                proof {
                    assert(op_stop(data@, start, end, i as nat, (op_bound(start, end) - i) as nat) == Some(i as nat));
                }
                return Ok(out);
            },
            Some(Err(e)) => {
                proof {
                    assert(op_stop(data@, start, end, i as nat, (op_bound(start, end) - i) as nat) is None);
                }
                return Err(reader_error(e));
            },
            Some(Ok(it)) => it,
        };
        let d = decode_operator(&it);
        let off = it.offset();
        let ghost before = out@;
        out.push((d, off));
        proof {
            assert(op_read(data@, start, end, i as nat) == Some(Ok::<usize, ()>(off)));
            assert(decoded_view(d) == decoded_at(data@, start, end, i as nat));
            assert(ops_view(out@) =~= decoded_ops(data@, start, end, (i + 1) as nat)) by {
                assert forall|k: int| 0 <= k < i + 1 implies ops_view(out@)[k] == decoded_ops(data@, start, end, (i + 1) as nat)[k] by {
                    assert(out@.len() == i + 1);
                    if k < i {
                        assert(out@[k] == before[k]);
                        assert(ops_view(out@)[k] == ops_view(before)[k]);
                        assert(ops_view(before)[k] == decoded_ops(data@, start, end, i as nat)[k]);
                    }
                }
            }
        }
        i = i + 1;
    }
    Ok(out)
}

/// The listing of function `target` whose body is stored at
/// `data[start..end]`: header, locals and operator lines as
/// `listing_spec` lays them out; `None` when the locals or the operators
/// cannot be read.
pub open spec fn function_listing(data: Seq<u8>, target: u32, start: usize, end: usize) -> Option<Seq<(TextView, usize, usize)>> {
    match (body_locals_of(data, start, end), body_decode(data, start, end)) {
        (Some(l), Some(o)) => Some(listing_spec(target, l, o, start)),
        _ => None,
    }
}

/// The single line shown for a function that cannot be disassembled:
/// ";; Failed to disassemble function N" at offset 0 and indentation 0,
/// without a source location.
pub fn failed_listing_line(func_index: u32) -> (l: WatLine)
    ensures
        l.text@ == ";; Failed to disassemble function "@ + dec_str(func_index as nat),
        l.offset == 0,
        l.indent == 0,
        l.src is None,
{
    let mut text = empty_string();
    push_str(&mut text, ";; Failed to disassemble function ");
    push_dec(&mut text, func_index as u64);
    WatLine { text, offset: 0, indent: 0, src: None }
}

/// A listing of one function: its entries, with float constants left for
/// the caller to render.
pub struct FunctionListing {
    pub entries: Vec<WatEntry>,
}

/// `r` is the listing of function `target` whose body is stored at
/// `d[start..end]`: `Ok` with those entries when the locals and operators
/// can be read, else a `Malformed` error.
pub open spec fn listing_result(r: Result<FunctionListing, WasmError>, d: Seq<u8>, target: u32, start: usize, end: usize) -> bool {
    &&& start <= end <= d.len()
    &&& match r {
        Ok(l) => function_listing(d, target, start, end) == Some(entries_view(l.entries@)),
        Err(e) => function_listing(d, target, start, end) is None && e is Malformed,
    }
}

/// Disassembles function `target_func_index` into listing entries: walks
/// the module to the function's body, reads its locals declarations and
/// operators from the module bytes, and renders them (see
/// `listing_entries`). A function index that no defined function has is an
/// error.
pub fn disassemble_function_listing(wasm_bytes: &[u8], target_func_index: u32) -> (r: Result<FunctionListing, WasmError>)
    ensures
        walk_result(wasm_bytes@, false, false, false, Some(target_func_index)) is None ==> r is Err && !(r->Err_0 is FunctionNotFound),
        walk_result(wasm_bytes@, false, false, false, Some(target_func_index)) matches Some((_, None))
            ==> r == Err::<FunctionListing, WasmError>(WasmError::FunctionNotFound(target_func_index)),
        walk_result(wasm_bytes@, false, false, false, Some(target_func_index)) matches Some((_, Some((s, e)))) ==> listing_result(r, wasm_bytes@, target_func_index, s, e),
{
    let opts = WalkOptions { exports: false, names: false, calls: false, target: Some(target_func_index) };
    let (_, found) = walk_module(wasm_bytes, &opts)?;
    let (start, end) = match found {
        Some(b) => b,
        None => { return Err(WasmError::FunctionNotFound(target_func_index)); },
    };
    let locals = body_locals(wasm_bytes, start, end)?;
    let ops = body_ops(wasm_bytes, start, end)?;
    let entries = listing_entries(target_func_index, &locals, &ops, start);
    proof {
        assert(function_listing(wasm_bytes@, target_func_index, start, end) == Some(entries_view(entries@)));
    }
    Ok(FunctionListing { entries })
}

} // verus!
