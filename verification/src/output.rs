//! Headless reports: the text summary of a module and the plain parts of the
//! JSON report (call-graph edges, indirect-call markers, summary counts,
//! source spans).
//!
//! Percentages are printed as `{:.1}` of `size as f64 * 100.0 / total as
//! f64`; they are computed here in integers, following binary64 rounding
//! step by step.

use std::collections::HashMap;

use vstd::prelude::*;
use vstd::std_specs::iter::IteratorSpec;
use vstd::utf8::encode_utf8;

use crate::matching::{by_size_desc, derefs, sorted_by_size};
use crate::model::{CallGraph, FunctionInfo, SourceSpan, WasmModuleInfo};
use crate::text::{dec_str, digit_char, digit_of, empty_string, push_char, push_dec, push_str};

verus! {

/// `2^n`.
pub open spec fn two_pow(n: nat) -> nat
    decreases n,
{
    if n == 0 { 1 } else { 2 * two_pow((n - 1) as nat) }
}

/// Powers of two are positive and double at each step.
pub proof fn lemma_two_pow_52()
    ensures
        two_pow(52) == 4503599627370496,
        two_pow(53) == 9007199254740992,
{
    reveal_with_fuel(two_pow, 54);
}

/// `q` rounded up when the remainder `r` of a division by `d` is above one
/// half, or exactly one half and `q` is odd.
pub open spec fn round_half_even(q: nat, r: nat, d: nat) -> nat {
    if 2 * r > d || (2 * r == d && q % 2 == 1) { q + 1 } else { q }
}

/// The first `k`, from the given one on (and at most 64), at which `n / 2^k`
/// is below `2^53`.
pub open spec fn excess_exp(n: nat, k: nat) -> nat
    decreases 64 - k,
{
    if k >= 64 || n / two_pow(k) < two_pow(53) { k } else { excess_exp(n, k + 1) }
}

/// `n as f64`, exactly: `n` rounded to 53 significant bits, ties to even.
pub open spec fn as_binary64(n: nat) -> nat {
    let k = excess_exp(n, 0);
    round_half_even(n / two_pow(k), n % two_pow(k), two_pow(k)) * two_pow(k)
}

/// The first `s`, from the given one on (and at most 127), at which
/// `a * 2^s` reaches `2^52 * b`.
pub open spec fn scale_exp(a: nat, b: nat, s: nat) -> nat
    decreases 127 - s,
{
    if s >= 127 || a * two_pow(s) >= two_pow(52) * b { s } else { scale_exp(a, b, s + 1) }
}

/// The quotient `a / b` rounded to a binary64 value, as its significand
/// for the scale `2^s` (ties to even).
pub open spec fn rounded_significand(a: nat, b: nat, s: nat) -> nat {
    round_half_even((a * two_pow(s)) / b, (a * two_pow(s)) % b, b)
}

/// What `format!("{:.1}", size as f64 * 100.0 / total as f64)` prints, in
/// tenths (0 when `total` is 0): `100 * size` is exact in binary64, `total`
/// is rounded to binary64, the quotient is rounded to binary64, and that
/// value is rounded to one decimal, half to even.
pub open spec fn percent_tenths(size: u32, total: u64) -> nat {
    if total == 0 || size == 0 {
        0
    } else {
        let a = (100 * size) as nat;
        let b = as_binary64(total as nat);
        let s = scale_exp(a, b, 0);
        round_half_even(
            10 * rounded_significand(a, b, s) / two_pow(s),
            10 * rounded_significand(a, b, s) % two_pow(s),
            two_pow(s),
        )
    }
}

/// `n as f64` as an integer.
fn binary64_of(n: u64) -> (r: u128)
    requires
        n > 0,
    ensures
        r == as_binary64(n as nat),
        1 <= r <= 0x2_0000_0000_0000_0000,
{
    proof {
        lemma_two_pow_52();
    }
    let big: u128 = n as u128;
    let mut p: u128 = 1;
    let mut k: u32 = 0;
    while big / p >= 9007199254740992 && k < 64
        invariant
            p == two_pow(k as nat),
            1 <= p <= big,
            k <= 64,
            big == n,
            excess_exp(n as nat, 0) == excess_exp(n as nat, k as nat),
            two_pow(53) == 9007199254740992,
        decreases 64 - k,
    {
        proof {
            assert(p * 2 <= big) by (nonlinear_arith)
                requires big / p >= 9007199254740992, p >= 1;
        }
        p = p * 2;
        k = k + 1;
    }
    let q = big / p;
    let r = big % p;
    proof {
        assert(q * p <= big) by (nonlinear_arith)
            requires q == big / p, p > 0;
        assert(q >= 1) by (nonlinear_arith)
            requires q == big / p, p <= big, p > 0;
    }
    let rounded = if 2 * r > p || (2 * r == p && q % 2 == 1) { q + 1 } else { q };
    proof {
        assert(rounded * p <= big + p) by (nonlinear_arith)
            requires rounded <= q + 1, q * p <= big;
        assert(rounded * p >= 1) by (nonlinear_arith)
            requires rounded >= 1, p >= 1;
    }
    rounded * p
}

/// The percentage of `size` in `total` as printed with one decimal, in
/// tenths.
pub fn percent_tenths_of(size: u32, total: u64) -> (t: u128)
    ensures
        t == percent_tenths(size, total),
        t <= 1000 * size + 20,
{
    if total == 0 || size == 0 {
        return 0;
    }
    proof {
        lemma_two_pow_52();
    }
    let b = binary64_of(total);
    let a: u128 = size as u128 * 100;
    let thr: u128 = b * 4503599627370496;
    proof {
        assert(thr <= 0x2_0000_0000_0000_0000 * 4503599627370496) by (nonlinear_arith)
            requires thr == b * 4503599627370496, b <= 0x2_0000_0000_0000_0000;
        assert(thr >= 4503599627370496) by (nonlinear_arith)
            requires thr == b * 4503599627370496, b >= 1;
    }
    let mut num: u128 = a;
    let mut p: u128 = 1;
    let mut s: u32 = 0;
    while num < thr && s < 127
        invariant
            p == two_pow(s as nat),
            num == a * two_pow(s as nat),
            1 <= p <= num,
            s <= 127,
            thr == two_pow(52) * b,
            thr <= 0x2_0000_0000_0000_0000 * 4503599627370496,
            num <= 2 * thr,
            scale_exp(a as nat, b as nat, 0) == scale_exp(a as nat, b as nat, s as nat),
        decreases 127 - s,
    {
        proof {
            assert(two_pow((s + 1) as nat) == 2 * two_pow(s as nat));
            assert(a * two_pow((s + 1) as nat) == 2 * (a * two_pow(s as nat))) by (nonlinear_arith)
                requires two_pow((s + 1) as nat) == 2 * two_pow(s as nat);
        }
        num = num * 2;
        p = p * 2;
        s = s + 1;
    }
    let m = num / b;
    let r = num % b;
    proof {
        assert(m <= num) by (nonlinear_arith)
            requires m == num / b, b >= 1;
    }
    let sig = if 2 * r > b || (2 * r == b && m % 2 == 1) { m + 1 } else { m };
    let q = (10 * sig) / p;
    let r2 = (10 * sig) % p;
    proof {
        assert(m <= a * p) by (nonlinear_arith)
            requires m == num / b, num == a * p, b >= 1;
        assert(q <= 10 * a + 10) by (nonlinear_arith)
            requires q == (10 * sig) as int / p as int, sig <= a * p + 1, p >= 1;
    }
    if 2 * r2 > p || (2 * r2 == p && q % 2 == 1) { q + 1 } else { q }
}

/// A percentage in tenths as printed with one decimal.
pub open spec fn tenths_text(t: nat) -> Seq<char> {
    dec_str(t / 10) + seq!['.', digit_char(t % 10)]
}

/// The number of functions with at least one export name.
pub open spec fn exported_count(fs: Seq<FunctionInfo>) -> nat
    decreases fs.len(),
{
    if fs.len() == 0 {
        0
    } else {
        exported_count(fs.drop_last()) + if fs.last().export_names.len() > 0 { 1nat } else { 0nat }
    }
}

/// A rank right-aligned in two columns (`{:2}`).
pub open spec fn rank_text(r: nat) -> Seq<char> {
    if r < 10 { seq![' '] + dec_str(r) } else { dec_str(r) }
}

/// One line of the top list: rank, name, size and share of the total.
pub open spec fn top_line(rank: nat, f: FunctionInfo, total: u64) -> Seq<char> {
    "  "@ + rank_text(rank) + ". "@ + f.display_name() + " - "@ + dec_str(f.code_size as nat)
        + " bytes ("@ + tenths_text(percent_tenths(f.code_size, total)) + "%)\n"@
}

/// The lines of the first `k` functions of `fs`, ranked from 1.
pub open spec fn top_lines(fs: Seq<FunctionInfo>, total: u64, k: nat) -> Seq<char>
    decreases k,
{
    if k == 0 {
        Seq::empty()
    } else {
        top_lines(fs, total, (k - 1) as nat) + top_line(k, fs[k - 1], total)
    }
}

/// The statistics part of the summary.
pub open spec fn summary_header(m: WasmModuleInfo) -> Seq<char> {
    "WebAssembly Module Summary\n"@ + "==========================\n"@ + "\n"@
        + "Functions:\n"@
        + "  Defined:  "@ + dec_str(m.defined_functions as nat) + "\n"@
        + "  Imported: "@ + dec_str(m.imported_functions as nat) + "\n"@
        + "  Exported: "@ + dec_str(exported_count(m.functions@)) + "\n"@ + "\n"@
        + "Total code size: "@ + dec_str(m.total_code_size as nat) + " bytes\n"@ + "\n"@
        + "Top 20 Functions by Size:\n"@ + "--------------------------\n"@
}

/// The human-readable summary of a module: function counts, total code
/// size, and the 20 largest functions (stable order by descending size)
/// with their share of the total, then how many more there are.
pub open spec fn summary_text(m: WasmModuleInfo) -> Seq<char> {
    let sorted = by_size_desc(m.functions@);
    let n = sorted.len();
    summary_header(m) + top_lines(sorted, m.total_code_size, if n < 20 { n } else { 20 })
        + if n > 20 {
            "\n"@ + "  ... and "@ + dec_str((n - 20) as nat) + " more functions\n"@
        } else {
            Seq::empty()
        }
}

/// Counts the functions with at least one export name.
pub fn count_exported(functions: &Vec<FunctionInfo>) -> (n: u32)
    requires
        functions@.len() <= u32::MAX,
    ensures
        n as nat == exported_count(functions@),
{
    let mut n: u32 = 0;
    let mut i: usize = 0;
    while i < functions.len()
        invariant
            i <= functions@.len() <= u32::MAX,
            n as nat == exported_count(functions@.take(i as int)),
            n <= i,
        decreases functions@.len() - i,
    {
        proof {
            assert(functions@.take(i + 1).drop_last() =~= functions@.take(i as int));
        }
        if functions[i].export_names.len() > 0 {
            n = n + 1;
        }
        i = i + 1;
    }
    proof {
        assert(functions@.take(functions@.len() as int) =~= functions@);
    }
    n
}

/// Appends a percentage in tenths with one decimal.
fn push_tenths(s: &mut String, t: u64)
    ensures
        final(s)@ == old(s)@ + tenths_text(t as nat),
{
    push_dec(s, t / 10);
    push_char(s, '.');
    push_char(s, digit_of(t % 10));
    proof {
        assert(final(s)@ =~= old(s)@ + tenths_text(t as nat));
    }
}

/// Appends one line of the top list.
fn push_top_line(s: &mut String, rank: u64, f: &FunctionInfo, total: u64)
    ensures
        final(s)@ == old(s)@ + top_line(rank as nat, *f, total),
{
    push_str(s, "  ");
    if rank < 10 {
        push_char(s, ' ');
    }
    push_dec(s, rank);
    push_str(s, ". ");
    let name = f.best_name();
    push_str(s, name.as_str());
    push_str(s, " - ");
    push_dec(s, f.code_size as u64);
    push_str(s, " bytes (");
    let t = percent_tenths_of(f.code_size, total);
    push_tenths(s, t as u64);
    push_str(s, "%)\n");
    proof {
        assert(final(s)@ =~= old(s)@ + top_line(rank as nat, *f, total));
    }
}

/// Renders the human-readable summary of a module.
pub fn summary_string(module: &WasmModuleInfo) -> (s: String)
    requires
        module.functions@.len() <= u32::MAX,
    ensures
        s@ == summary_text(*module),
{
    let mut s = empty_string();
    push_str(&mut s, "WebAssembly Module Summary\n");
    push_str(&mut s, "==========================\n");
    push_str(&mut s, "\n");
    push_str(&mut s, "Functions:\n");
    push_str(&mut s, "  Defined:  ");
    push_dec(&mut s, module.defined_functions as u64);
    push_str(&mut s, "\n");
    push_str(&mut s, "  Imported: ");
    push_dec(&mut s, module.imported_functions as u64);
    push_str(&mut s, "\n");
    let exported = count_exported(&module.functions);
    push_str(&mut s, "  Exported: ");
    push_dec(&mut s, exported as u64);
    push_str(&mut s, "\n");
    push_str(&mut s, "\n");
    push_str(&mut s, "Total code size: ");
    push_dec(&mut s, module.total_code_size);
    push_str(&mut s, " bytes\n");
    push_str(&mut s, "\n");
    push_str(&mut s, "Top 20 Functions by Size:\n");
    push_str(&mut s, "--------------------------\n");
    proof {
        assert(s@ =~= summary_header(*module));
    }
    let ghost header = s@;
    let sorted = sorted_by_size(module, None);
    let ghost sv = by_size_desc(module.functions@);
    let n = sorted.len();
    let top = if n < 20 { n } else { 20 };
    let mut i: usize = 0;
    while i < top
        invariant
            i <= top <= 20,
            top <= n == sorted@.len(),
            derefs(sorted@) == sv,
            s@ == header + top_lines(sv, module.total_code_size, i as nat),
        decreases top - i,
    {
        push_top_line(&mut s, (i + 1) as u64, sorted[i], module.total_code_size);
        proof {
            assert(derefs(sorted@)[i as int] == *sorted@[i as int]);
            assert(s@ =~= header + top_lines(sv, module.total_code_size, (i + 1) as nat));
        }
        i = i + 1;
    }
    let ghost listed = s@;
    if n > 20 {
        push_str(&mut s, "\n");
        push_str(&mut s, "  ... and ");
        push_dec(&mut s, (n - 20) as u64);
        push_str(&mut s, " more functions\n");
    }
    proof {
        assert(sv.len() == n);
        assert(s@ =~= summary_text(*module));
    }
    s
}

/// Output a human-readable summary of the module, as UTF-8 bytes appended
/// to `out`.
pub fn output_summary(module: &WasmModuleInfo, out: &mut Vec<u8>)
    requires
        module.functions@.len() <= u32::MAX,
    ensures
        final(out)@ == old(out)@ + encode_utf8(summary_text(*module)),
{
    let text = summary_string(module);
    let bytes = text.as_str().as_bytes();
    out.extend_from_slice(bytes);
    proof {
        assert(final(out)@ =~= old(out)@ + encode_utf8(summary_text(*module)));
    }
}

/// The module statistics of the JSON report.
#[derive(Debug, Clone)]
pub struct SummaryOutput {
    /// Total code size across all defined functions.
    pub total_code_size: u64,
    /// Number of defined functions (with bodies).
    pub function_count: u32,
    /// Number of imported functions.
    pub imported_functions: u32,
    /// Number of exported functions.
    pub exported_functions: u32,
}

/// A source span as the JSON report gives it.
#[derive(Debug, Clone)]
pub struct SourceOutput {
    /// Source file path.
    pub file: String,
    /// Start line number.
    pub start_line: u32,
    /// End line number.
    pub end_line: u32,
}

/// The call graph as the JSON report gives it.
#[derive(Debug, Clone)]
pub struct CallGraphOutput {
    /// Direct call edges as [src, dst] pairs, in ascending order.
    pub edges: Vec<[u32; 2]>,
    /// Function indices that contain indirect calls, in ascending order.
    pub functions_with_indirect: Vec<u32>,
}

/// The summary statistics of a module.
pub fn summary_output(module: &WasmModuleInfo) -> (r: SummaryOutput)
    requires
        module.functions@.len() <= u32::MAX,
    ensures
        r.total_code_size == module.total_code_size,
        r.function_count == module.defined_functions,
        r.imported_functions == module.imported_functions,
        r.exported_functions as nat == exported_count(module.functions@),
{
    SummaryOutput {
        total_code_size: module.total_code_size,
        function_count: module.defined_functions,
        imported_functions: module.imported_functions,
        exported_functions: count_exported(&module.functions),
    }
}

/// A source span without its columns.
pub fn source_output(span: &SourceSpan) -> (r: SourceOutput)
    ensures
        r.file@ == span.file@,
        r.start_line == span.start_line,
        r.end_line == span.end_line,
{
    SourceOutput { file: span.file.clone(), start_line: span.start_line, end_line: span.end_line }
}

/// How often `x` occurs in `s`.
pub open spec fn value_count(s: Seq<u32>, x: u32) -> nat
    decreases s.len(),
{
    if s.len() == 0 {
        0
    } else {
        value_count(s.drop_last(), x) + if s.last() == x { 1nat } else { 0nat }
    }
}

/// How often the pair `[a, b]` occurs in `s`.
pub open spec fn pair_count(s: Seq<[u32; 2]>, a: u32, b: u32) -> nat
    decreases s.len(),
{
    if s.len() == 0 {
        0
    } else {
        pair_count(s.drop_last(), a, b) + if s.last()@[0] == a && s.last()@[1] == b { 1nat } else { 0nat }
    }
}

/// How often the call `a -> b` occurs in the edge map.
pub open spec fn edge_count(edges: Map<u32, Vec<u32>>, a: u32, b: u32) -> nat {
    if edges.contains_key(a) { value_count(edges[a]@, b) } else { 0 }
}

/// Lexicographic order of pairs.
pub open spec fn pair_le(x: [u32; 2], y: [u32; 2]) -> bool {
    x@[0] < y@[0] || (x@[0] == y@[0] && x@[1] <= y@[1])
}

/// A sequence of pairs in ascending order.
pub open spec fn pairs_sorted(s: Seq<[u32; 2]>) -> bool {
    forall|i: int, j: int| 0 <= i < j < s.len() ==> pair_le(#[trigger] s[i], #[trigger] s[j])
}

/// Pair counts add up over a concatenation.
proof fn lemma_pair_count_concat(s: Seq<[u32; 2]>, t: Seq<[u32; 2]>, a: u32, b: u32)
    ensures
        pair_count(s + t, a, b) == pair_count(s, a, b) + pair_count(t, a, b),
    decreases t.len(),
{
    if t.len() > 0 {
        lemma_pair_count_concat(s, t.drop_last(), a, b);
        assert((s + t).drop_last() =~= s + t.drop_last());
    }
}

/// Inserting an element adds one occurrence of it.
proof fn lemma_pair_count_insert(s: Seq<[u32; 2]>, p: int, x: [u32; 2], a: u32, b: u32)
    requires
        0 <= p <= s.len(),
    ensures
        pair_count(s.insert(p, x), a, b) == pair_count(s, a, b) + if x@[0] == a && x@[1] == b { 1nat } else { 0nat },
{
    let pre = s.take(p);
    let post = s.skip(p);
    assert(s =~= pre + post);
    assert(s.insert(p, x) =~= (pre + seq![x]) + post);
    lemma_pair_count_concat(pre, post, a, b);
    lemma_pair_count_concat(pre + seq![x], post, a, b);
    lemma_pair_count_concat(pre, seq![x], a, b);
    let one = seq![x];
    assert(one.drop_last() =~= Seq::<[u32; 2]>::empty());
    assert(one.last() == x);
    assert(pair_count(Seq::<[u32; 2]>::empty(), a, b) == 0);
    assert(pair_count(one, a, b) == if x@[0] == a && x@[1] == b { 1nat } else { 0nat });
}

/// A prefix one longer holds what the shorter one holds and the next element.
pub proof fn lemma_take_contains(s: Seq<u32>, i: int, a: u32)
    requires
        0 <= i < s.len(),
    ensures
        s.take(i + 1).contains(a) <==> (s.take(i).contains(a) || s[i] == a),
{
    let p = s.take(i);
    let q = s.take(i + 1);
    assert(q =~= p.push(s[i]));
    if q.contains(a) {
        let t = choose|t: int| 0 <= t < q.len() && q[t] == a;
        if t < i {
            assert(p[t] == a);
        }
    }
    if p.contains(a) {
        let t = choose|t: int| 0 <= t < p.len() && p[t] == a;
        assert(q[t] == a);
    }
    if s[i] == a {
        assert(q[i] == a);
    }
}

/// The keys of a map with `u32` keys, each once.
pub fn map_keys<V>(m: &HashMap<u32, V>) -> (r: Vec<u32>)
    ensures
        r@.to_set() == m@.dom(),
        r@.no_duplicates(),
        r@.len() == m@.dom().len(),
{
    let mut r: Vec<u32> = Vec::new();
    for k in it: m.keys()
        invariant
            r@ == it.seq().take(it.index() as int).unref(),
            it.seq() == m.keys().remaining(),
    {
        proof {
            assert(it.seq().take(it.index() + 1).unref() =~= it.seq().take(it.index() as int).unref().push(*k));
        }
        r.push(*k);
    }
    proof {
        assert(r@ =~= m.keys().remaining().unref());
    }
    r
}

/// `pair_le`.
fn pair_le_exec(x: &[u32; 2], y: &[u32; 2]) -> (b: bool)
    ensures
        b == pair_le(*x, *y),
{
    x[0] < y[0] || (x[0] == y[0] && x[1] <= y[1])
}

/// Inserts a pair after every pair not greater than it.
fn insert_pair(out: &mut Vec<[u32; 2]>, x: [u32; 2])
    requires
        pairs_sorted(old(out)@),
    ensures
        pairs_sorted(final(out)@),
        forall|a: u32, b: u32| #[trigger] pair_count(final(out)@, a, b)
            == pair_count(old(out)@, a, b) + if x@[0] == a && x@[1] == b { 1nat } else { 0nat },
{
    let mut p: usize = 0;
    while p < out.len() && pair_le_exec(&out[p], &x)
        invariant
            p <= out.len(),
            forall|i: int| 0 <= i < p ==> pair_le(#[trigger] out@[i], x),
        decreases out.len() - p,
    {
        p = p + 1;
    }
    let ghost before = out@;
    out.insert(p, x);
    proof {
        assert forall|a: u32, b: u32| #[trigger] pair_count(out@, a, b)
            == pair_count(before, a, b) + if x@[0] == a && x@[1] == b { 1nat } else { 0nat } by {
            lemma_pair_count_insert(before, p as int, x, a, b);
        }
        assert forall|i: int, j: int| 0 <= i < j < out@.len() implies pair_le(#[trigger] out@[i], #[trigger] out@[j]) by {
            if j < p {
                assert(out@[i] == before[i] && out@[j] == before[j]);
            } else if j == p {
                assert(out@[i] == before[i]);
            } else if i == p {
                assert(out@[j] == before[j - 1]);
                assert(!pair_le(before[p as int], x));
                assert(pair_le(before[p as int], before[j - 1]) || j - 1 == p);
            } else if i < p {
                assert(out@[i] == before[i] && out@[j] == before[j - 1]);
            } else {
                assert(out@[i] == before[i - 1] && out@[j] == before[j - 1]);
            }
        }
    }
}

/// The direct-call edges of a graph as pairs in ascending order, each call
/// as often as the edge lists record it.
pub fn sorted_edges(graph: &CallGraph) -> (r: Vec<[u32; 2]>)
    ensures
        pairs_sorted(r@),
        forall|a: u32, b: u32| #[trigger] pair_count(r@, a, b) == edge_count(graph.edges@, a, b),
{
    let keys = map_keys(&graph.edges);
    let mut out: Vec<[u32; 2]> = Vec::new();
    let mut i: usize = 0;
    while i < keys.len()
        invariant
            i <= keys@.len(),
            keys@.to_set() == graph.edges@.dom(),
            keys@.no_duplicates(),
            pairs_sorted(out@),
            forall|a: u32, b: u32| #[trigger] pair_count(out@, a, b)
                == if keys@.take(i as int).contains(a) { edge_count(graph.edges@, a, b) } else { 0 },
        decreases keys@.len() - i,
    {
        let k = keys[i];
        proof {
            assert(keys@.to_set().contains(k));
        }
        let v = match graph.edges.get(&k) {
            Some(v) => v,
            None => { proof { assert(false); } return out; },
        };
        let mut j: usize = 0;
        proof {
            assert forall|a: u32| keys@.take(i as int).contains(a) implies a != k by {
                let t = choose|t: int| 0 <= t < i && keys@.take(i as int)[t] == a;
                assert(keys@[t] == a);
            }
        }
        while j < v.len()
            invariant
                i < keys@.len(),
                k == keys@[i as int],
                graph.edges@.contains_key(k),
                v@ == graph.edges@[k]@,
                j <= v@.len(),
                pairs_sorted(out@),
                forall|a: u32| keys@.take(i as int).contains(a) ==> a != k,
                forall|a: u32, b: u32| #[trigger] pair_count(out@, a, b)
                    == if keys@.take(i as int).contains(a) { edge_count(graph.edges@, a, b) }
                       else if a == k { value_count(v@.take(j as int), b) } else { 0 },
            decreases v@.len() - j,
        {
            let ghost before = out@;
            let x: [u32; 2] = [k, v[j]];
            insert_pair(&mut out, x);
            proof {
                assert(v@.take(j + 1).drop_last() =~= v@.take(j as int));
            }
            j = j + 1;
        }
        proof {
            assert(v@.take(v@.len() as int) =~= v@);
            assert forall|a: u32| keys@.take(i + 1).contains(a) <==> (keys@.take(i as int).contains(a) || a == k) by {
                lemma_take_contains(keys@, i as int, a);
            }
        }
        i = i + 1;
    }
    proof {
        assert(keys@.take(keys@.len() as int) =~= keys@);
        assert forall|a: u32, b: u32| #[trigger] pair_count(out@, a, b) == edge_count(graph.edges@, a, b) by {
            if !keys@.contains(a) {
                assert(!keys@.to_set().contains(a));
            }
        }
    }
    out
}

/// A sequence of indices in strictly ascending order.
pub open spec fn strictly_ascending(s: Seq<u32>) -> bool {
    forall|i: int, j: int| 0 <= i < j < s.len() ==> #[trigger] s[i] < #[trigger] s[j]
}

/// The functions marked as containing `call_indirect`, in ascending order.
pub fn indirect_callers(graph: &CallGraph) -> (r: Vec<u32>)
    ensures
        strictly_ascending(r@),
        forall|k: u32| #[trigger] r@.contains(k) <==> (graph.has_indirect@.contains_key(k) && graph.has_indirect@[k]),
{
    let keys = map_keys(&graph.has_indirect);
    let mut out: Vec<u32> = Vec::new();
    let mut i: usize = 0;
    while i < keys.len()
        invariant
            i <= keys@.len(),
            keys@.to_set() == graph.has_indirect@.dom(),
            keys@.no_duplicates(),
            strictly_ascending(out@),
            forall|k: u32| #[trigger] out@.contains(k)
                <==> (keys@.take(i as int).contains(k) && graph.has_indirect@[k]),
        decreases keys@.len() - i,
    {
        let k = keys[i];
        proof {
            assert(keys@.to_set().contains(k));
            assert(!keys@.take(i as int).contains(k)) by {
                if keys@.take(i as int).contains(k) {
                    let t = choose|t: int| 0 <= t < i && keys@.take(i as int)[t] == k;
                    assert(keys@[t] == keys@[i as int]);
                }
            }
            assert forall|a: u32| keys@.take(i + 1).contains(a) <==> (keys@.take(i as int).contains(a) || a == k) by {
                lemma_take_contains(keys@, i as int, a);
            }
        }
        let marked = match graph.has_indirect.get(&k) {
            Some(b) => *b,
            None => false,
        };
        if marked {
            let mut p: usize = 0;
            while p < out.len() && out[p] < k
                invariant
                    p <= out.len(),
                    forall|t: int| 0 <= t < p ==> #[trigger] out@[t] < k,
                decreases out.len() - p,
            {
                p = p + 1;
            }
            let ghost before = out@;
            proof {
                assert(!before.contains(k));
                if p < before.len() {
                    assert(before[p as int] != k);
                }
            }
            out.insert(p, k);
            proof {
                assert forall|a: int, b: int| 0 <= a < b < out@.len() implies #[trigger] out@[a] < #[trigger] out@[b] by {
                    if b < p {
                        assert(out@[a] == before[a] && out@[b] == before[b]);
                    } else if b == p {
                        assert(out@[a] == before[a]);
                    } else if a == p {
                        assert(out@[b] == before[b - 1]);
                        assert(before[p as int] > k);
                        assert(before[p as int] <= before[b - 1]);
                    } else if a < p {
                        assert(out@[a] == before[a] && out@[b] == before[b - 1]);
                    } else {
                        assert(out@[a] == before[a - 1] && out@[b] == before[b - 1]);
                    }
                }
                assert forall|x: u32| #[trigger] out@.contains(x) <==> (before.contains(x) || x == k) by {
                    if out@.contains(x) {
                        let t = choose|t: int| 0 <= t < out@.len() && out@[t] == x;
                        if t < p {
                            assert(before[t] == x);
                        } else if t > p {
                            assert(before[t - 1] == x);
                        }
                    }
                    if before.contains(x) {
                        let t = choose|t: int| 0 <= t < before.len() && before[t] == x;
                        if t < p {
                            assert(out@[t] == x);
                        } else {
                            assert(out@[t + 1] == x);
                        }
                    }
                    if x == k {
                        assert(out@[p as int] == x);
                    }
                }
            }
        }
        i = i + 1;
    }
    proof {
        assert(keys@.take(keys@.len() as int) =~= keys@);
        assert forall|k: u32| #[trigger] out@.contains(k) <==> (graph.has_indirect@.contains_key(k) && graph.has_indirect@[k]) by {
            if graph.has_indirect@.contains_key(k) {
                assert(keys@.to_set().contains(k));
            }
            if keys@.contains(k) {
                assert(keys@.to_set().contains(k));
            }
        }
    }
    out
}

/// The call graph as the JSON report gives it.
pub fn call_graph_output(graph: &CallGraph) -> (r: CallGraphOutput)
    ensures
        pairs_sorted(r.edges@),
        forall|a: u32, b: u32| #[trigger] pair_count(r.edges@, a, b) == edge_count(graph.edges@, a, b),
        strictly_ascending(r.functions_with_indirect@),
        forall|k: u32| #[trigger] r.functions_with_indirect@.contains(k)
            <==> (graph.has_indirect@.contains_key(k) && graph.has_indirect@[k]),
{
    CallGraphOutput { edges: sorted_edges(graph), functions_with_indirect: indirect_callers(graph) }
}

} // verus!
