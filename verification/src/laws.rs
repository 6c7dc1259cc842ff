//! Properties of the library as a whole: how searches combine their terms,
//! the order of size listings, what a cumulative size always counts, the
//! shape of source spans, and what the function list shows.

use vstd::prelude::*;

use crate::dwarf::{body_offset_source, found_at, instr_source, mapped_location, probe_window, offsets_fit, source_view, target_body, walked_instr_source};
use crate::disasm::{arith_name, control_name, decoded_at, indent_after, op_entries, op_text, pad, DecodedView};
use crate::walk::{add_export, body_calls_of, calls_upto, custom_names, exports_from, group_funcs, indirect_upto, namings_from, op_total};
use crate::wasm_read::{custom_name_at, export_read, import_item_read, naming_read, op_control, op_operand, ArithOp, ControlOp, OperandOp};
use crate::hexdump::{find_index, lemma_find_index};
use crate::module::parsed_from_walk;
use crate::walk::{lemma_plain_walk, plain_state, plain_view, walk_from, walk_fuel, walk_result, walk_start, walk_step, BodyRecord, WalkState, WalkStep, WalkView};
use crate::model::WasmModuleInfo;
use crate::dwarf::{body_span, dominant_upto, sat_sub, span_samples, stat_file, stat_pos, stat_update, stats_of, LocationView, StatView};
use crate::graph::{call_targets, is_call_path, lemma_call_targets_finite, lemma_reaches_self, reachable_set, set_sum, size_of_index, size_total};
use crate::matching::{by_size_desc, function_matches_spec, insert_position, lemma_by_size_desc_len, lemma_insert_position_bound, matches_some_name, search_terms, split_terms_from, is_white_space};
use crate::model::{callees_of, FunctionInfo};
use crate::output::{as_binary64, excess_exp, lemma_two_pow_52, percent_tenths, round_half_even, rounded_significand, scale_exp, two_pow};
use crate::output::{edge_count, value_count};
use crate::panels::{cursor_target, focus_position, incoming_calls, listed, reverse_count, tree_keys_effect, CursorKeys, TreeKeys};

verus! {

/// Splitting a run without whitespace extends the current term.
proof fn lemma_split_run(x: Seq<char>, y: Seq<char>, cur: Seq<char>, acc: Seq<Seq<char>>)
    requires
        forall|i: int| 0 <= i < x.len() ==> !is_white_space(#[trigger] x[i]),
    ensures
        split_terms_from(x + y, cur, acc) == split_terms_from(y, cur + x, acc),
    decreases x.len(),
{
    if x.len() == 0 {
        assert(x + y =~= y);
        assert(cur + x =~= cur);
    } else {
        let rest = x.drop_first();
        assert((x + y)[0] == x[0]);
        assert((x + y).drop_first() =~= rest + y);
        assert(cur.push(x[0]) + rest =~= cur + x);
        lemma_split_run(rest, y, cur.push(x[0]), acc);
    }
}

/// Splitting a run of whitespace with no current term adds nothing.
proof fn lemma_split_blank(w: Seq<char>, acc: Seq<Seq<char>>)
    requires
        forall|i: int| 0 <= i < w.len() ==> is_white_space(#[trigger] w[i]),
    ensures
        split_terms_from(w, Seq::empty(), acc) == acc,
    decreases w.len(),
{
    if w.len() > 0 {
        assert(is_white_space(w[0]));
        lemma_split_blank(w.drop_first(), acc);
    }
}

/// A search made only of whitespace (or empty) has no terms, so every
/// function matches it: an empty filter lists everything.
pub proof fn law_blank_search_matches_all(f: FunctionInfo, pattern: Seq<char>)
    requires
        forall|i: int| 0 <= i < pattern.len() ==> is_white_space(#[trigger] pattern[i]),
    ensures
        search_terms(pattern).len() == 0,
        function_matches_spec(f, pattern),
{
    lemma_split_blank(pattern, Seq::empty());
}

/// A single word (no whitespace) is one search term.
pub proof fn law_single_term(a: Seq<char>)
    requires
        a.len() > 0,
        forall|i: int| 0 <= i < a.len() ==> !is_white_space(#[trigger] a[i]),
    ensures
        search_terms(a) == seq![a],
{
    lemma_split_run(a, Seq::empty(), Seq::empty(), Seq::empty());
    assert(a + Seq::<char>::empty() =~= a);
    assert(Seq::<char>::empty() + a =~= a);
    assert(Seq::<Seq<char>>::empty().push(a) =~= seq![a]);
}

/// Two words separated by whitespace match a function exactly when each
/// word matches one of its names: the terms of a search are combined with
/// "and".
pub proof fn law_two_term_search(f: FunctionInfo, a: Seq<char>, c: char, b: Seq<char>)
    requires
        a.len() > 0,
        b.len() > 0,
        forall|i: int| 0 <= i < a.len() ==> !is_white_space(#[trigger] a[i]),
        forall|i: int| 0 <= i < b.len() ==> !is_white_space(#[trigger] b[i]),
        is_white_space(c),
    ensures
        search_terms(a + seq![c] + b) == seq![a, b],
        function_matches_spec(f, a + seq![c] + b) == (function_matches_spec(f, a) && function_matches_spec(f, b)),
{
    let s = a + seq![c] + b;
    assert(s =~= a + (seq![c] + b));
    lemma_split_run(a, seq![c] + b, Seq::empty(), Seq::empty());
    assert(Seq::<char>::empty() + a =~= a);
    let t = seq![c] + b;
    assert(t[0] == c);
    assert(t.drop_first() =~= b);
    let acc = Seq::<Seq<char>>::empty().push(a);
    lemma_split_run(b, Seq::empty(), Seq::empty(), acc);
    assert(b + Seq::<char>::empty() =~= b);
    assert(Seq::<char>::empty() + b =~= b);
    assert(acc.push(b) =~= seq![a, b]);
    law_single_term(a);
    law_single_term(b);
    assert(search_terms(s) == seq![a, b]);
    if function_matches_spec(f, a) && function_matches_spec(f, b) {
        assert(matches_some_name(f, search_terms(a)[0]));
        assert(matches_some_name(f, search_terms(b)[0]));
        assert forall|i: int| 0 <= i < search_terms(s).len() implies matches_some_name(f, #[trigger] search_terms(s)[i]) by {
            if i == 0 {
                assert(search_terms(s)[0] == a);
            } else {
                assert(search_terms(s)[1] == b);
            }
        }
    }
    if function_matches_spec(f, s) {
        assert(matches_some_name(f, search_terms(s)[0]));
        assert(matches_some_name(f, search_terms(s)[1]));
        assert forall|i: int| 0 <= i < search_terms(a).len() implies matches_some_name(f, #[trigger] search_terms(a)[i]) by {
            assert(search_terms(a)[i] == a);
        }
        assert forall|i: int| 0 <= i < search_terms(b).len() implies matches_some_name(f, #[trigger] search_terms(b)[i]) by {
            assert(search_terms(b)[i] == b);
        }
    }
}

/// With an empty filter the function list shows every function.
pub proof fn law_empty_filter_lists_all(fs: Seq<FunctionInfo>)
    ensures
        listed(fs, Seq::empty()) == Set::new(|i: usize| i < fs.len()),
{
    assert forall|i: usize| listed(fs, Seq::empty()).contains(i) <==> i < fs.len() by {
        if i < fs.len() {
            law_blank_search_matches_all(fs[i as int], Seq::empty());
        }
    }
    assert(listed(fs, Seq::empty()) =~= Set::new(|i: usize| i < fs.len()));
}

/// Insertion at `insert_position` keeps a list in descending size order.
proof fn lemma_insert_keeps_desc(s: Seq<FunctionInfo>, x: FunctionInfo)
    requires
        forall|i: int, j: int| 0 <= i < j < s.len() ==> (#[trigger] s[i]).code_size >= (#[trigger] s[j]).code_size,
    ensures
        ({
            let p = insert_position(s, x.code_size) as int;
            let r = s.insert(p, x);
            &&& 0 <= p <= s.len()
            &&& forall|i: int| 0 <= i < p ==> (#[trigger] s[i]).code_size >= x.code_size
            &&& forall|i: int| p <= i < s.len() ==> (#[trigger] s[i]).code_size < x.code_size
            &&& forall|i: int, j: int| 0 <= i < j < r.len() ==> (#[trigger] r[i]).code_size >= (#[trigger] r[j]).code_size
        }),
    decreases s.len(),
{
    lemma_insert_position_bound(s, x.code_size);
    let p = insert_position(s, x.code_size) as int;
    if s.len() > 0 {
        let t = s.drop_first();
        assert forall|i: int, j: int| 0 <= i < j < t.len() implies (#[trigger] t[i]).code_size >= (#[trigger] t[j]).code_size by {
            assert(t[i] == s[i + 1] && t[j] == s[j + 1]);
        }
        lemma_insert_keeps_desc(t, x);
        if s[0].code_size >= x.code_size {
            assert(p == 1 + insert_position(t, x.code_size));
            assert forall|i: int| 0 <= i < p implies (#[trigger] s[i]).code_size >= x.code_size by {
                if i > 0 {
                    assert(s[i] == t[i - 1]);
                }
            }
            assert forall|i: int| p <= i < s.len() implies (#[trigger] s[i]).code_size < x.code_size by {
                assert(s[i] == t[i - 1]);
            }
        } else {
            assert(p == 0);
            assert forall|i: int| p <= i < s.len() implies (#[trigger] s[i]).code_size < x.code_size by {
                if i > 0 {
                    assert(s[0].code_size >= s[i].code_size);
                }
            }
        }
    }
    let r = s.insert(p, x);
    assert forall|i: int, j: int| 0 <= i < j < r.len() implies (#[trigger] r[i]).code_size >= (#[trigger] r[j]).code_size by {
        if j < p {
            assert(r[i] == s[i] && r[j] == s[j]);
        } else if j == p {
            assert(r[i] == s[i]);
        } else if i == p {
            assert(r[j] == s[j - 1]);
        } else if i < p {
            assert(r[i] == s[i] && r[j] == s[j - 1]);
        } else {
            assert(r[i] == s[i - 1] && r[j] == s[j - 1]);
        }
    }
}

/// The size listing is in descending order of code size and holds exactly
/// the listed functions (the same multiset).
pub proof fn law_size_listing_sorted(s: Seq<FunctionInfo>)
    ensures
        forall|i: int, j: int| 0 <= i < j < by_size_desc(s).len()
            ==> (#[trigger] by_size_desc(s)[i]).code_size >= (#[trigger] by_size_desc(s)[j]).code_size,
        by_size_desc(s).to_multiset() == s.to_multiset(),
    decreases s.len(),
{
    if s.len() > 0 {
        let init = s.drop_last();
        law_size_listing_sorted(init);
        lemma_by_size_desc_len(init);
        let sorted = by_size_desc(init);
        lemma_insert_keeps_desc(sorted, s.last());
        let p = insert_position(sorted, s.last().code_size) as int;
        assert(by_size_desc(s) == sorted.insert(p, s.last()));
        vstd::seq_lib::lemma_multiset_commutative(init, seq![s.last()]);
        assert(s =~= init + seq![s.last()]);
        let pre = sorted.take(p);
        let post = sorted.skip(p);
        assert(sorted =~= pre + post);
        assert(sorted.insert(p, s.last()) =~= pre + (seq![s.last()] + post));
        vstd::seq_lib::lemma_multiset_commutative(pre, post);
        vstd::seq_lib::lemma_multiset_commutative(pre, seq![s.last()] + post);
        vstd::seq_lib::lemma_multiset_commutative(seq![s.last()], post);
        assert(by_size_desc(s).to_multiset() =~= s.to_multiset());
    } else {
        assert(s =~= Seq::<FunctionInfo>::empty());
    }
}

/// The functions reachable from a root always include the root, so its
/// cumulative size counts at least the root's own size and at least one
/// function.
pub proof fn law_cumulative_size_covers_root(fs: Seq<FunctionInfo>, edges: Map<u32, Vec<u32>>, root: u32)
    requires
        edges.dom().finite(),
    ensures
        reachable_set(edges, root).contains(root),
        reachable_set(edges, root).finite(),
        reachable_set(edges, root).len() >= 1,
        size_total(fs, reachable_set(edges, root)) >= size_of_index(fs, root),
{
    let r = reachable_set(edges, root);
    lemma_reaches_self(edges, root);
    lemma_call_targets_finite(edges);
    let u = call_targets(edges).insert(root);
    assert(r.subset_of(u)) by {
        assert forall|k: u32| r.contains(k) implies u.contains(k) by {
            let p = choose|p: Seq<u32>| #[trigger] is_call_path(edges, p) && p[0] == root && p.last() == k;
            if p.len() > 1 {
                let i = p.len() - 2;
                assert(callees_of(edges, p[i]).contains(p[i + 1]));
                assert(edges.contains_key(p[i]) && edges[p[i]]@.contains(k));
            }
        }
    }
    vstd::set_lib::lemma_set_subset_finite(u, r);
    let f = |k: u32| size_of_index(fs, k);
    let g = |acc: nat, k: u32| acc + f(k);
    assert(vstd::set::fold::is_fun_commutative(g)) by {
        assert forall|a1: u32, a2: u32, b: nat| #[trigger] g(g(b, a2), a1) == g(g(b, a1), a2) by {}
    }
    let rest = r.remove(root);
    assert(rest.insert(root) =~= r);
    vstd::set::fold::lemma_fold_insert(rest, 0nat, g, root);
    assert(r.len() == rest.len() + 1);
}

/// Every statistics entry has its minimum line and column at most its
/// maximum once counted.
proof fn lemma_stats_ordered(locs: Seq<LocationView>)
    ensures
        forall|i: int| 0 <= i < stats_of(locs).len() ==>
            (#[trigger] stats_of(locs)[i]).2 <= stats_of(locs)[i].4 && stats_of(locs)[i].3 <= stats_of(locs)[i].5,
    decreases locs.len(),
{
    if locs.len() > 0 {
        lemma_stats_ordered(locs.drop_last());
        let st = stats_of(locs.drop_last());
        let l = locs.last();
        assert forall|i: int| 0 <= i < stats_of(locs).len() implies
            (#[trigger] stats_of(locs)[i]).2 <= stats_of(locs)[i].4 && stats_of(locs)[i].3 <= stats_of(locs)[i].5 by {
            let f = match l.0 { Some(x) => x, None => "<unknown>"@ };
            match stat_pos(st, f) {
                Some(p) => {
                    lemma_stat_pos_bound(st, f);
                    if i != p {
                        assert(stats_of(locs)[i] == st[i]);
                    }
                },
                None => {
                    if i < st.len() {
                        assert(stats_of(locs)[i] == st[i]);
                    }
                },
            }
        }
    }
}

/// A found statistics position lies within the list.
proof fn lemma_stat_pos_bound(st: Seq<StatView>, f: Seq<char>)
    ensures
        stat_pos(st, f) matches Some(p) ==> 0 <= p < st.len(),
    decreases st.len(),
{
    if st.len() > 0 {
        lemma_stat_pos_bound(st.drop_first(), f);
    }
}

/// A source span never ends before it starts: its start line and column
/// are at most its end line and column.
pub proof fn law_span_is_ordered(secs: Seq<(Seq<char>, Seq<u8>)>, first: usize, start: usize, end: usize)
    ensures
        body_span(secs, first, start, end) matches Some((f, sl, sc, el, ec)) ==> sl <= el && sc <= ec,
{
    let len = end - start;
    if len > 0 {
        let n = if len < 8192 { len } else { 8192 };
        let locs = span_samples(secs, sat_sub(start, first), ((n + 3) / 4) as nat);
        lemma_stats_ordered(locs);
        let st = stats_of(locs);
        if st.len() > 0 {
            lemma_dominant_bound(st, st.len());
        }
    }
}

/// The dominant entry lies among the entries considered.
proof fn lemma_dominant_bound(st: Seq<StatView>, k: nat)
    requires
        1 <= k <= st.len(),
    ensures
        0 <= dominant_upto(st, k) < k,
    decreases k,
{
    if k > 1 {
        lemma_dominant_bound(st, (k - 1) as nat);
    }
}

/// A single word (no whitespace) is searched as a whole: it matches a
/// function exactly when the word matches one of its names.
pub proof fn law_single_word_search_is_whole_pattern(f: FunctionInfo, a: Seq<char>)
    requires
        a.len() > 0,
        forall|i: int| 0 <= i < a.len() ==> !is_white_space(#[trigger] a[i]),
    ensures
        function_matches_spec(f, a) == matches_some_name(f, a),
{
    law_single_term(a);
    if matches_some_name(f, a) {
        assert forall|i: int| 0 <= i < search_terms(a).len() implies matches_some_name(f, #[trigger] search_terms(a)[i]) by {
            assert(search_terms(a)[i] == a);
        }
    }
    if function_matches_spec(f, a) {
        assert(matches_some_name(f, search_terms(a)[0]));
    }
}

/// The size listing is stable: functions of equal size keep the order they
/// have in the input.
pub proof fn law_size_listing_stable(s: Seq<FunctionInfo>, v: u32)
    ensures
        by_size_desc(s).filter(|f: FunctionInfo| f.code_size == v) == s.filter(|f: FunctionInfo| f.code_size == v),
    decreases s.len(),
{
    let pred = |f: FunctionInfo| f.code_size == v;
    if s.len() == 0 {
        assert(s =~= Seq::<FunctionInfo>::empty());
    } else {
        let init = s.drop_last();
        let x = s.last();
        law_size_listing_stable(init, v);
        law_size_listing_sorted(init);
        let sorted = by_size_desc(init);
        lemma_insert_keeps_desc(sorted, x);
        let p = insert_position(sorted, x.code_size) as int;
        let pre = sorted.take(p);
        let post = sorted.skip(p);
        assert(sorted =~= pre + post);
        assert(by_size_desc(s) == sorted.insert(p, x));
        assert(sorted.insert(p, x) =~= (pre + seq![x]) + post);
        Seq::filter_distributes_over_add(pre, post, pred);
        Seq::filter_distributes_over_add(pre + seq![x], post, pred);
        Seq::filter_distributes_over_add(pre, seq![x], pred);
        assert(s =~= init.push(x));
        init.lemma_filter_push(x, pred);
        Seq::<FunctionInfo>::empty().lemma_filter_push(x, pred);
        assert(seq![x] =~= Seq::<FunctionInfo>::empty().push(x));
        assert(Seq::<FunctionInfo>::empty().filter(pred) =~= Seq::<FunctionInfo>::empty()) by {
            Seq::<FunctionInfo>::empty().lemma_filter_len(pred);
        }
        if x.code_size == v {
            assert(post.all(|f: FunctionInfo| !pred(f))) by {
                assert forall|i: int| 0 <= i < post.len() implies !pred(#[trigger] post[i]) by {
                    assert(post[i] == sorted[p + i]);
                }
            }
            post.lemma_all_neg_filter_empty(pred);
            assert(post.filter(pred) =~= Seq::<FunctionInfo>::empty());
            assert(by_size_desc(s).filter(pred) =~= sorted.filter(pred).push(x));
        } else {
            assert(by_size_desc(s).filter(pred) =~= sorted.filter(pred));
        }
    }
}

/// Powers of two grow with the exponent.
proof fn lemma_two_pow_mono(a: nat, b: nat)
    requires
        a <= b,
    ensures
        two_pow(a) <= two_pow(b),
    decreases b - a,
{
    if a < b {
        lemma_two_pow_mono(a, (b - 1) as nat);
    }
}

/// The exponent search for `100 * t / t` ends at 46.
proof fn lemma_whole_scale(t: nat, s: nat)
    requires
        t > 0,
        s <= 46,
        two_pow(45) == 35184372088832,
        two_pow(46) == 70368744177664,
        two_pow(52) == 4503599627370496,
    ensures
        scale_exp(100 * t, t, s) == 46,
    decreases 46 - s,
{
    if s == 46 {
        assert(100 * t * two_pow(46) >= two_pow(52) * t) by (nonlinear_arith)
            requires t > 0, two_pow(46) == 70368744177664, two_pow(52) == 4503599627370496;
    } else {
        lemma_two_pow_mono(s, 45);
        assert(100 * t * two_pow(s) < two_pow(52) * t) by (nonlinear_arith)
            requires t > 0, two_pow(s) <= 35184372088832, two_pow(52) == 4503599627370496;
        lemma_whole_scale(t, s + 1);
    }
}

/// A function that is the whole module is shown as 100.0%, and an empty
/// one as 0.0%.
pub proof fn law_whole_is_hundred_percent(size: u32, total: u64)
    ensures
        size > 0 ==> percent_tenths(size, size as u64) == 1000,
        percent_tenths(0, total) == 0,
{
    if size > 0 {
        let t = size as nat;
        lemma_two_pow_52();
        assert(two_pow(45) == 35184372088832 && two_pow(46) == 70368744177664) by {
            reveal_with_fuel(two_pow, 47);
        }
        assert(two_pow(0) == 1);
        assert(excess_exp(t, 0) == 0);
        assert(t / two_pow(0) == t && t % two_pow(0) == 0);
        assert(as_binary64(t) == t);
        lemma_whole_scale(t, 0);
        let c: int = (100 * two_pow(46)) as int;
        assert((100 * t) * two_pow(46) == c * t) by (nonlinear_arith)
            requires c == 100 * two_pow(46);
        vstd::arithmetic::div_mod::lemma_div_by_multiple(c, t as int);
        vstd::arithmetic::div_mod::lemma_mod_multiples_basic(c, t as int);
        assert(rounded_significand(100 * t, t, 46) == c);
        assert(10 * c == 1000 * two_pow(46));
        vstd::arithmetic::div_mod::lemma_div_by_multiple(1000, two_pow(46) as int);
        vstd::arithmetic::div_mod::lemma_mod_multiples_basic(1000, two_pow(46) as int);
        assert(round_half_even(1000, 0, two_pow(46)) == 1000);
    }
}

/// Summing over a finite set with one element more adds that element's term.
proof fn lemma_set_sum_insert(st: Set<u32>, f: spec_fn(u32) -> nat, x: u32)
    requires
        st.finite(),
        !st.contains(x),
    ensures
        set_sum(st.insert(x), f) == set_sum(st, f) + f(x),
{
    let g = |acc: nat, k: u32| acc + f(k);
    assert(vstd::set::fold::is_fun_commutative(g)) by {
        assert forall|a1: u32, a2: u32, b: nat| #[trigger] g(g(b, a2), a1) == g(g(b, a1), a2) by {}
    }
    vstd::set::fold::lemma_fold_insert(st, 0nat, g, x);
}

/// The sum over the empty set is 0.
proof fn lemma_set_sum_empty(f: spec_fn(u32) -> nat)
    ensures
        set_sum(Set::empty(), f) == 0,
{
    vstd::set::fold::lemma_fold_empty(0nat, |acc: nat, k: u32| acc + f(k));
}

/// Sums of terms that agree on the set are equal; the sum of a pointwise
/// sum is the sum of the sums; an indicator sums to whether its element is
/// in the set.
proof fn lemma_set_sum_algebra(st: Set<u32>, f: spec_fn(u32) -> nat, g: spec_fn(u32) -> nat, h: spec_fn(u32) -> nat, x: u32)
    requires
        st.finite(),
    ensures
        (forall|k: u32| st.contains(k) ==> f(k) == g(k)) ==> set_sum(st, f) == set_sum(st, g),
        (forall|k: u32| st.contains(k) ==> h(k) == f(k) + g(k)) ==> set_sum(st, h) == set_sum(st, f) + set_sum(st, g),
        set_sum(st, |k: u32| if k == x { 1nat } else { 0nat }) == if st.contains(x) { 1nat } else { 0nat },
    decreases st.len(),
{
    let d = |k: u32| if k == x { 1nat } else { 0nat };
    if st.len() == 0 {
        assert(st =~= Set::<u32>::empty());
        lemma_set_sum_empty(f);
        lemma_set_sum_empty(g);
        lemma_set_sum_empty(h);
        lemma_set_sum_empty(d);
    } else {
        let y = st.choose();
        let rest = st.remove(y);
        assert(rest.insert(y) =~= st);
        lemma_set_sum_algebra(rest, f, g, h, x);
        lemma_set_sum_insert(rest, f, y);
        lemma_set_sum_insert(rest, g, y);
        lemma_set_sum_insert(rest, h, y);
        lemma_set_sum_insert(rest, d, y);
    }
}

/// A sequence's length is the sum, over a set holding its elements, of how
/// often each occurs.
proof fn lemma_len_is_count_sum(l: Seq<u32>, st: Set<u32>)
    requires
        st.finite(),
        forall|i: int| 0 <= i < l.len() ==> st.contains(#[trigger] l[i]),
    ensures
        l.len() == set_sum(st, |a: u32| value_count(l, a)),
    decreases l.len(),
{
    let f = |a: u32| value_count(l, a);
    if l.len() == 0 {
        lemma_set_sum_algebra(st, f, |a: u32| 0nat, f, 0);
        lemma_set_sum_algebra(st, |a: u32| 0nat, |a: u32| 0nat, |a: u32| 0nat, 0);
        assert(set_sum(st, |a: u32| 0nat) == 0) by {
            lemma_zero_sum(st);
        }
    } else {
        let init = l.drop_last();
        let x = l.last();
        lemma_len_is_count_sum(init, st);
        let fi = |a: u32| value_count(init, a);
        let d = |k: u32| if k == x { 1nat } else { 0nat };
        lemma_set_sum_algebra(st, fi, d, f, x);
        assert(st.contains(l[l.len() - 1]));
    }
}

/// The sum of zeros is zero.
proof fn lemma_zero_sum(st: Set<u32>)
    requires
        st.finite(),
    ensures
        set_sum(st, |a: u32| 0nat) == 0,
    decreases st.len(),
{
    if st.len() == 0 {
        assert(st =~= Set::<u32>::empty());
        lemma_set_sum_empty(|a: u32| 0nat);
    } else {
        let y = st.choose();
        let rest = st.remove(y);
        assert(rest.insert(y) =~= st);
        lemma_zero_sum(rest);
        lemma_set_sum_insert(rest, |a: u32| 0nat, y);
    }
}

/// An element of a sequence occurs in it at least once.
proof fn lemma_count_positive(l: Seq<u32>, i: int)
    requires
        0 <= i < l.len(),
    ensures
        value_count(l, l[i]) > 0,
    decreases l.len(),
{
    if i < l.len() - 1 {
        lemma_count_positive(l.drop_last(), i);
    }
}

/// The call count of a function (its occurrences over all edge lists) is the
/// length of its callers list in the reverse graph: the function list and
/// the callers tree agree on who calls a function.
pub proof fn law_call_count_is_callers_length(edges: Map<u32, Vec<u32>>, rev: Map<u32, Vec<u32>>, t: u32)
    requires
        edges.dom().finite(),
        forall|a: u32, b: u32| #[trigger] reverse_count(rev, a, b) == edge_count(edges, a, b),
    ensures
        incoming_calls(edges, t) == if rev.contains_key(t) { rev[t]@.len() } else { 0 },
{
    let l = if rev.contains_key(t) { rev[t]@ } else { Seq::<u32>::empty() };
    assert forall|a: u32| value_count(l, a) == edge_count(edges, a, t) by {
        assert(reverse_count(rev, a, t) == edge_count(edges, a, t));
    }
    assert forall|i: int| 0 <= i < l.len() implies edges.dom().contains(#[trigger] l[i]) by {
        lemma_count_positive(l, i);
        assert(edge_count(edges, l[i], t) > 0);
    }
    lemma_len_is_count_sum(l, edges.dom());
    let f = |a: u32| value_count(edges[a]@, t);
    let g = |a: u32| value_count(l, a);
    lemma_set_sum_algebra(edges.dom(), f, g, f, t);
}

/// The keys of a frame in which only the given navigation key is pressed.
pub open spec fn only_key(down: bool, up: bool, expand: bool, collapse: bool) -> TreeKeys {
    TreeKeys { down, up, select: false, expand, collapse, top: false, bottom: false }
}

/// A focused path that occurs once among the visible ones is found at its
/// position.
proof fn lemma_focus_position(visible: Seq<Seq<(u32, usize)>>, i: int, from: nat)
    requires
        visible.no_duplicates(),
        0 <= from <= i < visible.len(),
    ensures
        focus_position(visible, Some(visible[i]), from) == i,
    decreases visible.len() - from,
{
    if from < i {
        assert(visible[from as int] != visible[i]);
        lemma_focus_position(visible, i, from + 1);
    }
}

/// In a tree view, moving the focus down and then up comes back to the node
/// it started on (when that node is not the last one), and changes nothing
/// else.
pub proof fn law_tree_down_then_up(
    visible: Seq<Seq<(u32, usize)>>,
    i: int,
    selected: Option<u32>,
    expanded: Set<Seq<(u32, usize)>>,
)
    requires
        visible.no_duplicates(),
        0 <= i < visible.len() - 1,
    ensures
        ({
            let (f1, s1, e1) = tree_keys_effect(visible, Some(visible[i]), selected, expanded, false, only_key(true, false, false, false));
            tree_keys_effect(visible, f1, s1, e1, false, only_key(false, true, false, false))
        }) == (Some(visible[i]), selected, expanded),
{
    lemma_focus_position(visible, i, 0);
    lemma_focus_position(visible, i + 1, 0);
}

/// Expanding the focused node and then collapsing it leaves the expanded
/// set as it was (when the node was not expanded) and the focus where it
/// was.
pub proof fn law_tree_expand_then_collapse(
    visible: Seq<Seq<(u32, usize)>>,
    p: Seq<(u32, usize)>,
    selected: Option<u32>,
    expanded: Set<Seq<(u32, usize)>>,
)
    requires
        visible.len() > 0,
        !expanded.contains(p),
    ensures
        ({
            let (f1, s1, e1) = tree_keys_effect(visible, Some(p), selected, expanded, false, only_key(false, false, true, false));
            tree_keys_effect(visible, f1, s1, e1, false, only_key(false, false, false, true))
        }) == (Some(p), selected, expanded),
{
    assert(expanded.insert(p).remove(p) =~= expanded);
}

/// In the inspector, moving the cursor down and then up comes back to the
/// line it started on (when that line is not the last one).
pub proof fn law_cursor_down_then_up(current: nat, line_count: nat)
    requires
        current + 1 < line_count,
    ensures
        ({
            let down = CursorKeys { down: true, up: false, top: false, bottom: false };
            let up = CursorKeys { down: false, up: true, top: false, bottom: false };
            match cursor_target(current, line_count, down) {
                Some(c) => cursor_target(c, line_count, up) == Some(current),
                None => false,
            }
        }),
{
}

} // verus!

verus! {

/// The target body range a walk result holds, if any.
spec fn found_of(r: Option<(WalkView, Option<(usize, usize)>)>) -> Option<(usize, usize)> {
    match r {
        Some((_, f)) => f,
        None => None,
    }
}

/// A walk only appends bodies: what it ends with extends what it had.
proof fn lemma_walk_keeps_bodies(d: Seq<u8>, calls: bool, target: Option<u32>, st: WalkState, f: nat, v: WalkView, x: Option<(usize, usize)>)
    requires
        walk_from(d, false, false, calls, target, st, f) == Some((v, x)),
    ensures
        st.view.bodies.len() <= v.bodies.len(),
        forall|j: int| 0 <= j < st.view.bodies.len() ==> v.bodies[j] == st.view.bodies[j],
        target is None ==> x is None,
    decreases f,
{
    if f > 0 {
        match walk_step(d, false, false, calls, target, st) {
            WalkStep::Next(n) => {
                lemma_walk_keeps_bodies(d, calls, target, n, (f - 1) as nat, v, x);
                assert forall|j: int| 0 <= j < st.view.bodies.len() implies v.bodies[j] == st.view.bodies[j] by {
                    assert(n.view.bodies[j] == st.view.bodies[j]);
                }
            },
            _ => {},
        }
    }
}

/// A walk that looks for function `t` stops at the first body with that
/// index that the same walk without a target records, and finds nothing
/// when that walk records none.
proof fn lemma_target_walk(d: Seq<u8>, st: WalkState, f: nat, t: u32, v: WalkView)
    requires
        walk_from(d, false, false, false, None, st, f) == Some((v, None::<(usize, usize)>)),
        forall|j: int| 0 <= j < st.view.bodies.len() ==> (#[trigger] st.view.bodies[j]).index != t,
    ensures
        (forall|j: int| 0 <= j < v.bodies.len() ==> (#[trigger] v.bodies[j]).index != t)
            ==> found_of(walk_from(d, false, false, false, Some(t), st, f)) is None,
        forall|p: int| #![trigger v.bodies[p]] 0 <= p < v.bodies.len() && v.bodies[p].index == t
            && (forall|j: int| 0 <= j < p ==> (#[trigger] v.bodies[j]).index != t)
            ==> found_of(walk_from(d, false, false, false, Some(t), st, f)) == Some((v.bodies[p].start, v.bodies[p].end)),
    decreases f,
{
    if f > 0 {
        match walk_step(d, false, false, false, None, st) {
            WalkStep::Next(n) => {
                lemma_walk_keeps_bodies(d, false, None, n, (f - 1) as nat, v, None);
                let added = n.view.bodies.len() > st.view.bodies.len();
                if added && n.view.bodies[st.view.bodies.len() as int].index == t {
                    assert(walk_step(d, false, false, false, Some(t), st) == WalkStep::Done(st.view,
                        Some((n.view.bodies[st.view.bodies.len() as int].start, n.view.bodies[st.view.bodies.len() as int].end))));
                    assert(v.bodies[st.view.bodies.len() as int] == n.view.bodies[st.view.bodies.len() as int]);
                    assert forall|p: int| #![trigger v.bodies[p]] 0 <= p < v.bodies.len() && v.bodies[p].index == t
                        && (forall|j: int| 0 <= j < p ==> (#[trigger] v.bodies[j]).index != t)
                        implies p == st.view.bodies.len() by {
                        if p < st.view.bodies.len() {
                            assert(v.bodies[p] == st.view.bodies[p]);
                        } else if p > st.view.bodies.len() {
                            assert(v.bodies[st.view.bodies.len() as int].index == t);
                        }
                    }
                } else {
                    assert(walk_step(d, false, false, false, Some(t), st) == WalkStep::Next(n));
                    assert forall|j: int| 0 <= j < n.view.bodies.len() implies (#[trigger] n.view.bodies[j]).index != t by {
                        if j < st.view.bodies.len() {
                            assert(n.view.bodies[j] == st.view.bodies[j]);
                        }
                    }
                    lemma_target_walk(d, n, (f - 1) as nat, t, v);
                }
            },
            WalkStep::Done(_, _) => {
                assert(walk_step(d, false, false, false, Some(t), st) == walk_step(d, false, false, false, None, st));
            },
            WalkStep::Fail => {},
        }
    }
}

/// Mapping an offset through the body ranges of the parsed module agrees
/// with mapping it through the body the walk finds: the fast mapping and
/// the plain one give the same location (where the probed addresses fit).
pub proof fn law_fast_mapping_agrees_with_walk(
    d: Seq<u8>,
    info: WasmModuleInfo,
    t: u32,
    off: usize,
    secs: Seq<(Seq<char>, Seq<u8>)>,
    first: usize,
)
    requires
        parsed_from_walk(info, d),
        offsets_fit(info.functions@, t, off),
    ensures
        instr_source(secs, first, info.functions@, t, off) == walked_instr_source(secs, first, d, t, off),
{
    let init = walk_start();
    let (fv, x) = walk_result(d, true, true, false, None)->0;
    lemma_plain_walk(d, true, true, false, None, init, walk_fuel(d.len()));
    assert(plain_state(init) == init);
    let v = plain_view(fv);
    lemma_walk_keeps_bodies(d, false, None, init, walk_fuel(d.len()), v, x);
    lemma_target_walk(d, init, walk_fuel(d.len()), t, v);
    lemma_find_index(info.functions@, t);
    match find_index(info.functions@, t) {
        Some(i) => {
            assert(info.functions@[i].index == v.bodies[i].index);
            assert forall|j: int| 0 <= j < i implies (#[trigger] v.bodies[j]).index != t by {
                assert(info.functions@[j].index == v.bodies[j].index);
            }
            assert(target_body(d, t) == Some((v.bodies[i].start, v.bodies[i].end)));
        },
        None => {
            assert forall|j: int| 0 <= j < v.bodies.len() implies (#[trigger] v.bodies[j]).index != t by {
                assert(info.functions@[j].index == v.bodies[j].index);
            }
            assert(target_body(d, t) is None);
        },
    }
}

/// When the walk of a module succeeds, the walk that looks for function
/// `t` finds a body exactly when `t` is the index of a recorded body, and
/// then it is the first such body: disassembly and source lookups fail
/// with "not found" exactly for indices that no defined function has.
pub proof fn law_target_found_iff_defined(d: Seq<u8>, t: u32, v: WalkView, x: Option<(usize, usize)>)
    requires
        walk_result(d, false, false, false, None) == Some((v, x)),
    ensures
        target_body(d, t) is Some <==> exists|i: int| 0 <= i < v.bodies.len() && #[trigger] v.bodies[i].index == t,
        forall|i: int| #![trigger v.bodies[i]] 0 <= i < v.bodies.len() && v.bodies[i].index == t
            && (forall|j: int| 0 <= j < i ==> (#[trigger] v.bodies[j]).index != t)
            ==> target_body(d, t) == Some((v.bodies[i].start, v.bodies[i].end)),
{
    let init = walk_start();
    lemma_walk_keeps_bodies(d, false, None, init, walk_fuel(d.len()), v, x);
    lemma_target_walk(d, init, walk_fuel(d.len()), t, v);
    if exists|i: int| 0 <= i < v.bodies.len() && #[trigger] v.bodies[i].index == t {
        let i0 = choose|i: int| 0 <= i < v.bodies.len() && #[trigger] v.bodies[i].index == t;
        let p = first_with(v.bodies, t, i0);
        assert(target_body(d, t) == Some((v.bodies[p].start, v.bodies[p].end)));
    }
}

/// The first position at or before `i` whose body has index `t`, given
/// that the body at `i` has it.
proof fn first_with(b: Seq<BodyRecord>, t: u32, i: int) -> (p: int)
    requires
        0 <= i < b.len(),
        b[i].index == t,
    ensures
        0 <= p <= i,
        b[p].index == t,
        forall|j: int| 0 <= j < p ==> (#[trigger] b[j]).index != t,
    decreases i,
{
    if exists|j: int| 0 <= j < i && #[trigger] b[j].index == t {
        let j = choose|j: int| 0 <= j < i && #[trigger] b[j].index == t;
        first_with(b, t, j)
    } else {
        i
    }
}

} // verus!

verus! {

/// Read `j` of the export section of step `k` of the parser with origin `o`
/// is a function export (kind `Func`) of index `idx`.
pub open spec fn function_export_at(d: Seq<u8>, o: Seq<nat>, k: nat, j: nat, idx: u32) -> bool {
    match export_read(d, o, k, j) {
        Some(Ok((is_func, i, _))) => is_func && i == idx,
        _ => false,
    }
}

/// Only function exports name a function: when no export read from `j` on
/// (within `fuel` reads) is a function export of `idx`, collecting the
/// exports leaves the entry of `idx` exactly as it was, whatever memory,
/// table, global or tag exports of that index the section holds.
pub proof fn law_only_function_exports_name_functions(
    d: Seq<u8>,
    o: Seq<nat>,
    k: nat,
    j: nat,
    fuel: nat,
    m: Map<u32, Seq<Seq<char>>>,
    m2: Map<u32, Seq<Seq<char>>>,
    idx: u32,
)
    requires
        exports_from(d, o, k, j, fuel, m) == Some(m2),
        forall|jj: nat| j <= jj < j + fuel ==> !#[trigger] function_export_at(d, o, k, jj, idx),
    ensures
        m2.contains_key(idx) == m.contains_key(idx),
        m.contains_key(idx) ==> m2[idx] == m[idx],
    decreases fuel,
{
    if fuel > 0 {
        match export_read(d, o, k, j) {
            Some(Ok((f, i, name))) => {
                assert(!function_export_at(d, o, k, j, idx));
                let m1 = if f { add_export(m, i, name) } else { m };
                assert(m1.contains_key(idx) == m.contains_key(idx));
                assert(m.contains_key(idx) ==> m1[idx] == m[idx]);
                assert forall|jj: nat| j + 1 <= jj < j + 1 + (fuel - 1) implies !#[trigger] function_export_at(d, o, k, jj, idx) by {
                    assert(j <= jj < j + fuel);
                }
                law_only_function_exports_name_functions(d, o, k, j + 1, (fuel - 1) as nat, m1, m2, idx);
            },
            _ => {},
        }
    }
}

/// A function export of `idx` appends its name to the export names of
/// `idx`: the names collected for `idx` end with it unless later function
/// exports of `idx` follow.
pub proof fn law_function_export_appends_name(
    d: Seq<u8>,
    o: Seq<nat>,
    k: nat,
    j: nat,
    fuel: nat,
    m: Map<u32, Seq<Seq<char>>>,
    m2: Map<u32, Seq<Seq<char>>>,
    idx: u32,
    name: Seq<char>,
)
    requires
        fuel > 0,
        export_read(d, o, k, j) == Some(Ok::<(bool, u32, Seq<char>), ()>((true, idx, name))),
        exports_from(d, o, k, j, fuel, m) == Some(m2),
        forall|jj: nat| j + 1 <= jj < j + fuel ==> !#[trigger] function_export_at(d, o, k, jj, idx),
    ensures
        m2.contains_key(idx),
        m2[idx].len() > 0,
        m2[idx].last() == name,
        m.contains_key(idx) ==> m2[idx] == m[idx].push(name),
{
    let m1 = add_export(m, idx, name);
    law_only_function_exports_name_functions(d, o, k, j + 1, (fuel - 1) as nat, m1, m2, idx);
}

/// A body that holds a `call_indirect` is marked: when read `k` of the body
/// is a `call_indirect` (and no direct call), the flag over any number of
/// reads past `k` is set.
pub proof fn law_call_indirect_marks_body(d: Seq<u8>, s: usize, e: usize, k: nat, n: nat)
    requires
        k < n,
        op_operand(d, s, e, k) is None,
        op_control(d, s, e, k) == Some(ControlOp::CallIndirect),
    ensures
        indirect_upto(d, s, e, n),
    decreases n,
{
    if k < n - 1 {
        law_call_indirect_marks_body(d, s, e, k, (n - 1) as nat);
    }
}

/// A body is marked only for a `call_indirect` it holds: when the flag is
/// set, some read before `n` is a `call_indirect`.
pub proof fn law_indirect_mark_has_cause(d: Seq<u8>, s: usize, e: usize, n: nat)
    requires
        indirect_upto(d, s, e, n),
    ensures
        exists|k: nat| k < n && #[trigger] op_control(d, s, e, k) == Some(ControlOp::CallIndirect),
    decreases n,
{
    if n > 0 {
        if indirect_upto(d, s, e, (n - 1) as nat) {
            law_indirect_mark_has_cause(d, s, e, (n - 1) as nat);
        } else {
            assert(op_control(d, s, e, (n - 1) as nat) == Some(ControlOp::CallIndirect));
        }
    }
}

/// The call graph and the disassembly agree on a body: when both read its
/// operators, the body is marked for `call_indirect` exactly when some
/// decoded operator is a `call_indirect` that is no direct call.
pub proof fn law_indirect_flag_matches_decoded_body(d: Seq<u8>, s: usize, e: usize, c: Seq<u32>, ind: bool)
    requires
        body_calls_of(d, s, e) == Some((c, ind)),
    ensures
        ind ==> exists|k: nat| #[trigger] op_control(d, s, e, k) == Some(ControlOp::CallIndirect)
            && k < op_total(d, s, e)->0,
        (exists|k: nat| k < op_total(d, s, e)->0 && #[trigger] decoded_at(d, s, e, k) == DecodedView::Control(ControlOp::CallIndirect)
            && op_control(d, s, e, k) == Some(ControlOp::CallIndirect)) ==> ind,
{
    let n = op_total(d, s, e)->0;
    if ind {
        law_indirect_mark_has_cause(d, s, e, n);
    }
    if exists|k: nat| k < n && #[trigger] decoded_at(d, s, e, k) == DecodedView::Control(ControlOp::CallIndirect)
        && op_control(d, s, e, k) == Some(ControlOp::CallIndirect) {
        let k = choose|k: nat| k < n && #[trigger] decoded_at(d, s, e, k) == DecodedView::Control(ControlOp::CallIndirect)
            && op_control(d, s, e, k) == Some(ControlOp::CallIndirect);
        law_call_indirect_marks_body(d, s, e, k, n);
    }
}

/// The add operators.
pub open spec fn is_add(a: ArithOp) -> bool {
    a is I32Add || a is I64Add || a is F32Add || a is F64Add
}

/// The subtract operators.
pub open spec fn is_sub(a: ArithOp) -> bool {
    a is I32Sub || a is I64Sub || a is F32Sub || a is F64Sub
}

/// The operators on `i32`.
pub open spec fn on_i32(a: ArithOp) -> bool {
    a is I32Add || a is I32Sub || a is I32Mul
}

/// The operators on `i64`.
pub open spec fn on_i64(a: ArithOp) -> bool {
    a is I64Add || a is I64Sub || a is I64Mul
}

/// The operators on `f32`.
pub open spec fn on_f32(a: ArithOp) -> bool {
    a is F32Add || a is F32Sub || a is F32Mul
}

/// Each arithmetic operator is listed with its own WAT mnemonic, the value
/// type, a dot and the operation: distinct operators get distinct names, the
/// name ends in "add", "sub" or "mul" exactly for additions, subtractions and
/// multiplications, and starts with "i32", "i64", "f32" or "f64" exactly for
/// operators on that type.
pub proof fn law_arith_mnemonics(a: ArithOp, b: ArithOp)
    ensures
        arith_name(a) == arith_name(b) ==> a == b,
        arith_name(a).len() == 7,
        arith_name(a)[3] == '.',
        arith_name(a).subrange(4, 7) == "add"@ <==> is_add(a),
        arith_name(a).subrange(4, 7) == "sub"@ <==> is_sub(a),
        arith_name(a).subrange(4, 7) == "mul"@ <==> !is_add(a) && !is_sub(a),
        arith_name(a).subrange(0, 3) == "i32"@ <==> on_i32(a),
        arith_name(a).subrange(0, 3) == "i64"@ <==> on_i64(a),
        arith_name(a).subrange(0, 3) == "f32"@ <==> on_f32(a),
        arith_name(a).subrange(0, 3) == "f64"@ <==> !on_i32(a) && !on_i64(a) && !on_f32(a),
{
    reveal_strlit("i32.add");
    reveal_strlit("i32.sub");
    reveal_strlit("i32.mul");
    reveal_strlit("i64.add");
    reveal_strlit("i64.sub");
    reveal_strlit("i64.mul");
    reveal_strlit("f32.add");
    reveal_strlit("f32.sub");
    reveal_strlit("f32.mul");
    reveal_strlit("f64.add");
    reveal_strlit("f64.sub");
    reveal_strlit("f64.mul");
    reveal_strlit("add");
    reveal_strlit("sub");
    reveal_strlit("mul");
    reveal_strlit("i32");
    reveal_strlit("i64");
    reveal_strlit("f32");
    reveal_strlit("f64");
    let x = arith_name(a);
    let y = arith_name(b);
    assert(x.subrange(4, 7) =~= seq![x[4], x[5], x[6]]);
    assert(x.subrange(0, 3) =~= seq![x[0], x[1], x[2]]);
    assert("add"@ =~= seq!['a', 'd', 'd']);
    assert("sub"@ =~= seq!['s', 'u', 'b']);
    assert("mul"@ =~= seq!['m', 'u', 'l']);
    assert("i32"@ =~= seq!['i', '3', '2']);
    assert("i64"@ =~= seq!['i', '6', '4']);
    assert("f32"@ =~= seq!['f', '3', '2']);
    assert("f64"@ =~= seq!['f', '6', '4']);
    if x == y {
        assert(x[0] == y[0] && x[1] == y[1] && x[4] == y[4]);
    }
}

/// The listing tells arithmetic operators apart: two different operators at
/// the same indentation never give the same line text.
pub proof fn law_arith_lines_distinct(a: ArithOp, b: ArithOp, level: nat)
    requires
        a != b,
    ensures
        op_text(DecodedView::Arith(a), level) != op_text(DecodedView::Arith(b), level),
{
    law_arith_mnemonics(a, b);
    law_arith_mnemonics(b, a);
    if op_text(DecodedView::Arith(a), level) == op_text(DecodedView::Arith(b), level) {
        let p = pad(level);
        assert((p + arith_name(a)).subrange(p.len() as int, p.len() as int + 7) =~= arith_name(a));
        assert((p + arith_name(b)).subrange(p.len() as int, p.len() as int + 7) =~= arith_name(b));
    }
}

/// The dominant file is one with the most samples: its count is at least
/// that of every entry, and every entry before it has fewer (the first seen
/// among equals wins).
pub proof fn law_dominant_has_most_samples(st: Seq<StatView>, k: nat)
    requires
        1 <= k <= st.len(),
    ensures
        forall|j: int| 0 <= j < k ==> st[dominant_upto(st, k)].1 >= #[trigger] st[j].1,
        forall|j: int| 0 <= j < dominant_upto(st, k) ==> #[trigger] st[j].1 < st[dominant_upto(st, k)].1,
    decreases k,
{
    lemma_dominant_bound(st, k);
    if k > 1 {
        law_dominant_has_most_samples(st, (k - 1) as nat);
        lemma_dominant_bound(st, (k - 1) as nat);
    }
}

/// The per-file statistics of the samples a source span of the body
/// `start..end` is computed from.
pub open spec fn span_stats(secs: Seq<(Seq<char>, Seq<u8>)>, first: usize, start: usize, end: usize) -> Seq<StatView> {
    let len = end - start;
    let n = if len < 8192 { len } else { 8192 };
    stats_of(span_samples(secs, sat_sub(start, first), ((n + 3) / 4) as nat))
}

/// A source span's file is one with the most samples of the body: no file
/// among the sampled locations has a larger count.
pub proof fn law_span_file_has_most_samples(secs: Seq<(Seq<char>, Seq<u8>)>, first: usize, start: usize, end: usize)
    requires
        body_span(secs, first, start, end) is Some,
    ensures
        exists|i: int| 0 <= i < span_stats(secs, first, start, end).len()
            && #[trigger] span_stats(secs, first, start, end)[i].0 == (body_span(secs, first, start, end)->0).0
            && forall|j: int| 0 <= j < span_stats(secs, first, start, end).len()
                ==> span_stats(secs, first, start, end)[i].1 >= #[trigger] span_stats(secs, first, start, end)[j].1,
{
    let st = span_stats(secs, first, start, end);
    assert(st.len() > 0);
    law_dominant_has_most_samples(st, st.len());
    lemma_dominant_bound(st, st.len());
    let i = dominant_upto(st, st.len());
    assert(0 <= i < st.len());
    assert(st[i].0 == (body_span(secs, first, start, end)->0).0);
    assert(forall|j: int| 0 <= j < st.len() ==> st[i].1 >= #[trigger] st[j].1);
}

/// An offset maps to the location found at its own address: when the
/// lookup at `base + offset` finds a location, that is the answer, whatever
/// the other addresses of the body map to.
pub proof fn law_offset_maps_to_its_own_address(secs: Seq<(Seq<char>, Seq<u8>)>, base: nat, offset: nat, l: LocationView)
    requires
        found_at(secs, (base + offset) as int) == Some(l),
    ensures
        mapped_location(secs, base, offset) == Some(l),
{
}

/// Mapping an operator offset of a body gives the location found at the
/// body's module-relative start plus that offset, when there is one.
pub proof fn law_body_offset_uses_its_address(
    secs: Seq<(Seq<char>, Seq<u8>)>,
    first: usize,
    body_start: usize,
    off: usize,
    l: LocationView,
)
    requires
        found_at(secs, sat_sub(body_start, first) + off) == Some(l),
    ensures
        body_offset_source(secs, first, body_start, off) == Some(source_view(l)),
{
}

} // verus!

verus! {

/// The direct calls of a body are exactly the call targets among its
/// operators: a target is listed exactly when some read before `n` is a
/// direct call of it, and there are as many entries as direct calls.
pub proof fn law_direct_calls_are_call_operands(d: Seq<u8>, s: usize, e: usize, n: nat, f: u32)
    ensures
        calls_upto(d, s, e, n).contains(f) <==> exists|k: nat| k < n && #[trigger] op_operand(d, s, e, k) == Some(OperandOp::Call(f)),
        calls_upto(d, s, e, n).len() <= n,
    decreases n,
{
    if n > 0 {
        law_direct_calls_are_call_operands(d, s, e, (n - 1) as nat, f);
        let prev = calls_upto(d, s, e, (n - 1) as nat);
        match op_operand(d, s, e, (n - 1) as nat) {
            Some(OperandOp::Call(g)) => {
                assert(calls_upto(d, s, e, n) == prev.push(g));
                if g == f {
                    assert(prev.push(g)[prev.len() as int] == f);
                }
                if prev.push(g).contains(f) && g != f {
                    let i = choose|i: int| 0 <= i < prev.push(g).len() && prev.push(g)[i] == f;
                    assert(prev[i] == f);
                }
                if prev.contains(f) {
                    let i = choose|i: int| 0 <= i < prev.len() && prev[i] == f;
                    assert(prev.push(g)[i] == f);
                }
            },
            _ => {},
        }
        if exists|k: nat| k < n && #[trigger] op_operand(d, s, e, k) == Some(OperandOp::Call(f)) {
            let k = choose|k: nat| k < n && #[trigger] op_operand(d, s, e, k) == Some(OperandOp::Call(f));
            if k < n - 1 {
                assert(exists|k2: nat| k2 < n - 1 && #[trigger] op_operand(d, s, e, k2) == Some(OperandOp::Call(f)));
            }
        }
    }
}

/// Only function imports are counted: a group none of whose import reads is
/// a function import adds nothing.
pub proof fn law_only_function_imports_counted(d: Seq<u8>, o: Seq<nat>, k: nat, g: nat, j: nat, fuel: nat)
    requires
        forall|jj: nat| j <= jj < j + fuel ==> !(#[trigger] import_item_read(d, o, k, g, jj) == Some(Ok::<bool, ()>(true))),
        group_funcs(d, o, k, g, j, fuel) is Some,
    ensures
        group_funcs(d, o, k, g, j, fuel) == Some(0nat),
    decreases fuel,
{
    if fuel > 0 {
        match import_item_read(d, o, k, g, j) {
            Some(Ok(_)) => {
                assert forall|jj: nat| j + 1 <= jj < j + 1 + (fuel - 1) implies
                    !(#[trigger] import_item_read(d, o, k, g, jj) == Some(Ok::<bool, ()>(true))) by {
                    assert(j <= jj < j + fuel);
                }
                law_only_function_imports_counted(d, o, k, g, j + 1, (fuel - 1) as nat);
            },
            _ => {},
        }
    }
}

/// Each function import counts once: a function import read adds one to
/// what the rest of the group adds.
pub proof fn law_function_import_counts_one(d: Seq<u8>, o: Seq<nat>, k: nat, g: nat, j: nat, fuel: nat)
    requires
        fuel > 0,
        import_item_read(d, o, k, g, j) == Some(Ok::<bool, ()>(true)),
        group_funcs(d, o, k, g, j + 1, (fuel - 1) as nat) is Some,
    ensures
        group_funcs(d, o, k, g, j, fuel) == Some(group_funcs(d, o, k, g, j + 1, (fuel - 1) as nat)->0 + 1),
{
}

/// Read `j` of the function-name map `i` names `idx`.
pub open spec fn naming_of(d: Seq<u8>, o: Seq<nat>, k: nat, i: nat, j: nat, idx: u32) -> bool {
    match naming_read(d, o, k, i, j) {
        Some(Ok((x, _))) => x == idx,
        _ => false,
    }
}

/// A naming gives its function its name, and the last naming of an index
/// wins: after a naming of `idx` that no later naming of `idx` follows, the
/// name of `idx` is that naming's name; namings of other indices leave it.
pub proof fn law_last_naming_wins(
    d: Seq<u8>,
    o: Seq<nat>,
    k: nat,
    i: nat,
    j: nat,
    fuel: nat,
    m: Map<u32, Seq<char>>,
    m2: Map<u32, Seq<char>>,
    idx: u32,
)
    requires
        namings_from(d, o, k, i, j, fuel, m) == Some(m2),
        forall|jj: nat| j <= jj < j + fuel ==> !#[trigger] naming_of(d, o, k, i, jj, idx),
    ensures
        m2.contains_key(idx) == m.contains_key(idx),
        m.contains_key(idx) ==> m2[idx] == m[idx],
    decreases fuel,
{
    if fuel > 0 {
        match naming_read(d, o, k, i, j) {
            Some(Ok((x, name))) => {
                assert(!naming_of(d, o, k, i, j, idx));
                assert forall|jj: nat| j + 1 <= jj < j + 1 + (fuel - 1) implies !#[trigger] naming_of(d, o, k, i, jj, idx) by {
                    assert(j <= jj < j + fuel);
                }
                law_last_naming_wins(d, o, k, i, j + 1, (fuel - 1) as nat, m.insert(x, name), m2, idx);
            },
            _ => {},
        }
    }
}

/// A naming of `idx` sets its name to the naming's name when no later
/// naming of `idx` follows.
pub proof fn law_naming_sets_name(
    d: Seq<u8>,
    o: Seq<nat>,
    k: nat,
    i: nat,
    j: nat,
    fuel: nat,
    m: Map<u32, Seq<char>>,
    m2: Map<u32, Seq<char>>,
    idx: u32,
    name: Seq<char>,
)
    requires
        fuel > 0,
        naming_read(d, o, k, i, j) == Some(Ok::<(u32, Seq<char>), ()>((idx, name))),
        namings_from(d, o, k, i, j, fuel, m) == Some(m2),
        forall|jj: nat| j + 1 <= jj < j + fuel ==> !#[trigger] naming_of(d, o, k, i, jj, idx),
    ensures
        m2.contains_key(idx),
        m2[idx] == name,
{
    law_last_naming_wins(d, o, k, i, j + 1, (fuel - 1) as nat, m.insert(idx, name), m2, idx);
}

/// Only a custom section named "name" adds names: any other custom section
/// leaves the names as they are.
pub proof fn law_other_custom_sections_add_no_names(d: Seq<u8>, o: Seq<nat>, k: nat, m: Map<u32, Seq<char>>)
    requires
        custom_name_at(d, o, k) != "name"@,
    ensures
        custom_names(d, o, k, m) == Some(m),
{
}

/// The block-structure and miscellaneous operators are listed with
/// distinct mnemonics.
pub proof fn law_control_mnemonics_distinct(a: ControlOp, b: ControlOp)
    ensures
        control_name(a) == control_name(b) ==> a == b,
{
    reveal_strlit("call_indirect");
    reveal_strlit("block");
    reveal_strlit("loop");
    reveal_strlit("if");
    reveal_strlit("else");
    reveal_strlit("end");
    reveal_strlit("br_table");
    reveal_strlit("return");
    reveal_strlit("drop");
    reveal_strlit("select");
    reveal_strlit("nop");
    reveal_strlit("unreachable");
    reveal_strlit("memory.grow");
    reveal_strlit("memory.size");
    let x = control_name(a);
    let y = control_name(b);
    if x == y {
        assert(x.len() == y.len());
        assert(x[0] == y[0]);
        if x.len() > 1 {
            assert(x[1] == y[1]);
        }
        if x.len() > 7 {
            assert(x[7] == y[7]);
        }
        if x.len() > 2 {
            assert(x[2] == y[2]);
        }
    }
}

/// When nothing is found at an offset's own address, the mapping falls
/// back to the first location found from the body's start on, within 4096
/// addresses; with nothing found there either, there is no location.
pub proof fn law_offset_fallback_is_first_found(secs: Seq<(Seq<char>, Seq<u8>)>, base: nat, offset: nat, delta: nat, l: LocationView)
    requires
        found_at(secs, (base + offset) as int) is None,
        delta < 4096,
        found_at(secs, (base + delta) as int) == Some(l),
        forall|x: nat| x < delta ==> #[trigger] found_at(secs, (base + x) as int) is None,
    ensures
        mapped_location(secs, base, offset) == Some(l),
{
    lemma_probe_window_first(secs, base, 0, delta, l);
}

/// The window search from `from` finds the first location at or after it.
proof fn lemma_probe_window_first(secs: Seq<(Seq<char>, Seq<u8>)>, base: nat, from: nat, delta: nat, l: LocationView)
    requires
        from <= delta < 4096,
        found_at(secs, (base + delta) as int) == Some(l),
        forall|x: nat| from <= x < delta ==> #[trigger] found_at(secs, (base + x) as int) is None,
    ensures
        probe_window(secs, base, from) == Some(l),
    decreases delta - from,
{
    if from < delta {
        assert(found_at(secs, (base + from) as int) is None);
        lemma_probe_window_first(secs, base, from + 1, delta, l);
    }
}

} // verus!

verus! {

/// How many of the locations are counted for file `f`.
pub open spec fn file_count(locs: Seq<LocationView>, f: Seq<char>) -> nat
    decreases locs.len(),
{
    if locs.len() == 0 {
        0
    } else {
        file_count(locs.drop_last(), f) + if stat_file(locs.last()) == f { 1nat } else { 0nat }
    }
}

/// A count that saturates at `u32::MAX`.
pub open spec fn sat_count(n: nat) -> u32 {
    if n <= u32::MAX { n as u32 } else { u32::MAX }
}

/// `stat_pos` finds the first entry of the file.
proof fn lemma_stat_pos_found(st: Seq<StatView>, f: Seq<char>)
    ensures
        stat_pos(st, f) matches Some(p) ==> 0 <= p < st.len() && st[p].0 == f,
        stat_pos(st, f) is None ==> forall|j: int| 0 <= j < st.len() ==> (#[trigger] st[j]).0 != f,
    decreases st.len(),
{
    if st.len() > 0 {
        lemma_stat_pos_found(st.drop_first(), f);
        if st[0].0 != f {
            assert forall|j: int| 1 <= j < st.len() implies st[j] == st.drop_first()[j - 1] by {}
        }
    }
}

/// The per-file statistics count the samples of each file: every sampled
/// file has exactly one entry, no entry names an unsampled file, and each
/// entry's count is the number of samples of its file (saturating).
pub proof fn law_stats_count_samples(locs: Seq<LocationView>)
    ensures
        forall|i: int, j: int| 0 <= i < j < stats_of(locs).len() ==> (#[trigger] stats_of(locs)[i]).0 != (#[trigger] stats_of(locs)[j]).0,
        forall|i: int| 0 <= i < stats_of(locs).len() ==>
            (#[trigger] stats_of(locs)[i]).1 == sat_count(file_count(locs, stats_of(locs)[i].0)),
        forall|i: int| 0 <= i < stats_of(locs).len() ==> file_count(locs, (#[trigger] stats_of(locs)[i]).0) > 0,
        forall|f: Seq<char>| #[trigger] file_count(locs, f) > 0 ==> exists|i: int| 0 <= i < stats_of(locs).len() && #[trigger] stats_of(locs)[i].0 == f,
    decreases locs.len(),
{
    if locs.len() > 0 {
        let prev = locs.drop_last();
        let l = locs.last();
        let f = stat_file(l);
        law_stats_count_samples(prev);
        let st = stats_of(prev);
        lemma_stat_pos_found(st, f);
        let st2 = stats_of(locs);
        match stat_pos(st, f) {
            Some(p) => {
                assert(st2 == st.update(p, stat_update(st[p], l)));
                assert forall|i: int| 0 <= i < st2.len() implies
                    (#[trigger] st2[i]).1 == sat_count(file_count(locs, st2[i].0)) by {
                    if i == p {
                        assert(st2[i].0 == f);
                    } else {
                        assert(st2[i] == st[i]);
                        assert(st[i].0 != f);
                    }
                }
                assert forall|g: Seq<char>| #[trigger] file_count(locs, g) > 0 implies
                    exists|i: int| 0 <= i < st2.len() && #[trigger] st2[i].0 == g by {
                    if g == f {
                        assert(st2[p].0 == g);
                    } else {
                        assert(file_count(prev, g) > 0);
                        let i = choose|i: int| 0 <= i < st.len() && #[trigger] st[i].0 == g;
                        assert(st2[i].0 == g);
                    }
                }
                assert forall|i: int| 0 <= i < st2.len() implies file_count(locs, (#[trigger] st2[i]).0) > 0 by {
                    if i != p {
                        assert(st2[i] == st[i]);
                    }
                }
                assert forall|i: int, j: int| 0 <= i < j < st2.len() implies (#[trigger] st2[i]).0 != (#[trigger] st2[j]).0 by {
                    assert(st2[i].0 == st[i].0 && st2[j].0 == st[j].0);
                }
            },
            None => {
                let e = stat_update(
                    (f, 0u32, match l.1 { Some(x) => x, None => 0u32 }, match l.2 { Some(x) => x, None => 0u32 }, 0u32, 0u32),
                    l,
                );
                assert(st2 == st.push(e));
                assert(file_count(prev, f) == 0) by {
                    if file_count(prev, f) > 0 {
                        let i = choose|i: int| 0 <= i < st.len() && #[trigger] st[i].0 == f;
                    }
                }
                assert forall|i: int| 0 <= i < st2.len() implies
                    (#[trigger] st2[i]).1 == sat_count(file_count(locs, st2[i].0)) by {
                    if i < st.len() {
                        assert(st2[i] == st[i]);
                        assert(st[i].0 != f);
                    }
                }
                assert forall|g: Seq<char>| #[trigger] file_count(locs, g) > 0 implies
                    exists|i: int| 0 <= i < st2.len() && #[trigger] st2[i].0 == g by {
                    if g == f {
                        assert(st2[st.len() as int].0 == g);
                    } else {
                        assert(file_count(prev, g) > 0);
                        let i = choose|i: int| 0 <= i < st.len() && #[trigger] st[i].0 == g;
                        assert(st2[i].0 == g);
                    }
                }
                assert forall|i: int| 0 <= i < st2.len() implies file_count(locs, (#[trigger] st2[i]).0) > 0 by {
                    if i < st.len() {
                        assert(st2[i] == st[i]);
                    }
                }
                assert forall|i: int, j: int| 0 <= i < j < st2.len() implies (#[trigger] st2[i]).0 != (#[trigger] st2[j]).0 by {
                    if j < st.len() {
                        assert(st2[i].0 == st[i].0 && st2[j].0 == st[j].0);
                    } else {
                        assert(st2[i].0 == st[i].0);
                    }
                }
            },
        }
    }
}

/// A source span's file is sampled at least as often as any other file of
/// the body (counts saturating at `u32::MAX`).
pub proof fn law_span_file_is_most_sampled(secs: Seq<(Seq<char>, Seq<u8>)>, first: usize, start: usize, end: usize, g: Seq<char>)
    requires
        body_span(secs, first, start, end) is Some,
    ensures
        ({
            let len = end - start;
            let n = if len < 8192 { len } else { 8192 };
            let locs = span_samples(secs, sat_sub(start, first), ((n + 3) / 4) as nat);
            sat_count(file_count(locs, (body_span(secs, first, start, end)->0).0)) >= sat_count(file_count(locs, g))
        }),
{
    let len = end - start;
    let n = if len < 8192 { len } else { 8192 };
    let locs = span_samples(secs, sat_sub(start, first), ((n + 3) / 4) as nat);
    let st = stats_of(locs);
    law_stats_count_samples(locs);
    law_span_file_has_most_samples(secs, first, start, end);
    assert(st == span_stats(secs, first, start, end));
    let i = choose|i: int| 0 <= i < st.len() && #[trigger] st[i].0 == (body_span(secs, first, start, end)->0).0
        && forall|j: int| 0 <= j < st.len() ==> st[i].1 >= #[trigger] st[j].1;
    if file_count(locs, g) > 0 {
        let j = choose|j: int| 0 <= j < st.len() && #[trigger] st[j].0 == g;
        assert(st[i].1 >= st[j].1);
    }
}

} // verus!

verus! {

/// Each operator line of a listing carries the operator's offset within
/// its function body: the line's offset plus the body start is the
/// operator's offset in the module, for every operator at or after the
/// body start; there is one line per operator.
pub proof fn law_listing_offsets_are_body_relative(ops: Seq<(DecodedView, usize)>, indent: nat, body_start: usize)
    ensures
        op_entries(ops, indent, body_start).len() == ops.len(),
        forall|k: int| 0 <= k < ops.len() && ops[k].1 >= body_start ==>
            (#[trigger] op_entries(ops, indent, body_start)[k]).1 + body_start == ops[k].1,
    decreases ops.len(),
{
    if ops.len() > 0 {
        let rest = ops.drop_first();
        let next = indent_after(ops[0].0, indent);
        law_listing_offsets_are_body_relative(rest, next, body_start);
        assert forall|k: int| 0 <= k < ops.len() && ops[k].1 >= body_start implies
            (#[trigger] op_entries(ops, indent, body_start)[k]).1 + body_start == ops[k].1 by {
            if k > 0 {
                assert(op_entries(ops, indent, body_start)[k] == op_entries(rest, next, body_start)[k - 1]);
                assert(rest[k - 1] == ops[k]);
            }
        }
    }
}

} // verus!
