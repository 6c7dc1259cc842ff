//! Name matching: case-insensitive `*` wildcard patterns over a function's
//! names, whitespace-separated search terms, filtering and size ordering.

use vstd::prelude::*;
use vstd::string::StrSliceExecFns;

use crate::model::{fallback_name, fallback_name_string, FunctionInfo, WasmModuleInfo};
use crate::text::{empty_string, push_char};

verus! {

/// What `globset` answers for `text` against `pattern` compiled with
/// `GlobBuilder::new(pattern).case_insensitive(true).backslash_escape(false)`:
/// `None` when the pattern does not compile, else whether it matches. On
/// targets whose path separator is not `/`, globset normalises separators
/// in the tested text first, so the name is that of the target built for.
pub uninterp spec fn glob_match(pattern: Seq<char>, text: Seq<char>) -> Option<bool>;

/// Compiles `pattern` with `globset::GlobBuilder` (case-insensitive, no
/// backslash escapes) and tests `text` with `GlobMatcher::is_match`.
#[verifier::external_body]
fn glob_is_match(pattern: &str, text: &str) -> (r: Option<bool>)
    ensures
        r == glob_match(pattern@, text@),
{
    let glob = globset::GlobBuilder::new(pattern).case_insensitive(true).backslash_escape(false).build().ok()?;
    Some(glob.compile_matcher().is_match(text))
}

/// Whether `c` has the Unicode `White_Space` property: U+0009 to U+000D,
/// U+0020, U+0085, U+00A0, U+1680, U+2000 to U+200A, U+2028, U+2029,
/// U+202F, U+205F and U+3000.
pub open spec fn is_white_space(c: char) -> bool {
    let n = c as u32;
    ||| 0x09 <= n <= 0x0d
    ||| n == 0x20 || n == 0x85 || n == 0xa0 || n == 0x1680
    ||| 0x2000 <= n <= 0x200a
    ||| n == 0x2028 || n == 0x2029 || n == 0x202f || n == 0x205f || n == 0x3000
}

/// Whether `c` is white space (`char::is_whitespace`, the `White_Space`
/// property): compares its code point against the list of `is_white_space`.
fn char_is_whitespace(c: char) -> (b: bool)
    ensures
        b == is_white_space(c),
{
    let n = c as u32;
    (0x09 <= n && n <= 0x0d) || n == 0x20 || n == 0x85 || n == 0xa0 || n == 0x1680
        || (0x2000 <= n && n <= 0x200a) || n == 0x2028 || n == 0x2029 || n == 0x202f || n == 0x205f
        || n == 0x3000
}

/// A pattern without `*` is searched as a substring: it is wrapped as `*pattern*`.
pub open spec fn normalized_pattern(p: Seq<char>) -> Seq<char> {
    if p.contains('*') { p } else { seq!['*'] + p + seq!['*'] }
}

/// `text` matches the (normalized) pattern `p`; a pattern that does not
/// compile matches nothing.
pub open spec fn hits(p: Seq<char>, text: Seq<char>) -> bool {
    glob_match(normalized_pattern(p), text) == Some(true)
}

/// Pattern `p` matches one of the function's names: demangled name, raw
/// name, any export name, or `func[<index>]` when the function has no name.
pub open spec fn matches_some_name(f: FunctionInfo, p: Seq<char>) -> bool {
    ||| f.demangled_name matches Some(d) && hits(p, d@)
    ||| f.raw_name matches Some(r) && hits(p, r@)
    ||| exists|i: int| 0 <= i < f.export_names.len() && hits(p, #[trigger] f.export_names[i]@)
    ||| f.is_unnamed() && hits(p, fallback_name(f.index))
}

/// Splits `s` into its maximal runs of non-whitespace characters, appending
/// them to `acc` after the partial term `cur`.
pub open spec fn split_terms_from(s: Seq<char>, cur: Seq<char>, acc: Seq<Seq<char>>) -> Seq<Seq<char>>
    decreases s.len(),
{
    if s.len() == 0 {
        if cur.len() > 0 { acc.push(cur) } else { acc }
    } else if is_white_space(s[0]) {
        split_terms_from(s.drop_first(), Seq::empty(), if cur.len() > 0 { acc.push(cur) } else { acc })
    } else {
        split_terms_from(s.drop_first(), cur.push(s[0]), acc)
    }
}

/// The whitespace-separated terms of a search string.
pub open spec fn search_terms(s: Seq<char>) -> Seq<Seq<char>> {
    split_terms_from(s, Seq::empty(), Seq::empty())
}

/// A function matches a search string when every term of it matches one of
/// the function's names.
pub open spec fn function_matches_spec(f: FunctionInfo, pattern: Seq<char>) -> bool {
    forall|i: int| 0 <= i < search_terms(pattern).len() ==> matches_some_name(f, #[trigger] search_terms(pattern)[i])
}

/// Builds a string from characters.
fn string_of(cs: &Vec<char>) -> (s: String)
    ensures
        s@ == cs@,
{
    let mut s = empty_string();
    let mut i: usize = 0;
    while i < cs.len()
        invariant
            i <= cs.len(),
            s@ == cs@.take(i as int),
        decreases cs.len() - i,
    {
        push_char(&mut s, cs[i]);
        i = i + 1;
        proof {
            assert(s@ =~= cs@.take(i as int));
        }
    }
    proof {
        assert(cs@.take(cs.len() as int) =~= cs@);
    }
    s
}

/// Splits a search string into its whitespace-separated terms.
pub fn split_search_terms(s: &str) -> (terms: Vec<String>)
    ensures
        terms@.len() == search_terms(s@).len(),
        forall|i: int| 0 <= i < terms@.len() ==> #[trigger] terms@[i]@ == search_terms(s@)[i],
{
    let n = s.unicode_len();
    let mut terms: Vec<String> = Vec::new();
    let mut cur: Vec<char> = Vec::new();
    let ghost mut acc: Seq<Seq<char>> = Seq::empty();
    let mut i: usize = 0;
    proof {
        assert(s@.skip(0) =~= s@);
        assert(cur@ =~= Seq::<char>::empty());
    }
    while i < n
        invariant
            i <= n,
            n == s@.len(),
            terms@.len() == acc.len(),
            forall|k: int| 0 <= k < terms@.len() ==> #[trigger] terms@[k]@ == acc[k],
            split_terms_from(s@.skip(i as int), cur@, acc) == search_terms(s@),
        decreases n - i,
    {
        let c = s.get_char(i);
        proof {
            assert(s@.skip(i as int).drop_first() =~= s@.skip(i + 1));
            assert(s@.skip(i as int)[0] == c);
        }
        if char_is_whitespace(c) {
            if cur.len() > 0 {
                let t = string_of(&cur);
                terms.push(t);
                proof {
                    acc = acc.push(cur@);
                }
            }
            cur = Vec::new();
        } else {
            cur.push(c);
        }
        i = i + 1;
    }
    if cur.len() > 0 {
        let t = string_of(&cur);
        terms.push(t);
        proof {
            acc = acc.push(cur@);
        }
    }
    proof {
        assert(s@.skip(n as int) =~= Seq::<char>::empty());
    }
    terms
}

/// Wraps a pattern without `*` as `*pattern*`.
fn normalize_pattern(p: &str) -> (r: String)
    ensures
        r@ == normalized_pattern(p@),
{
    let n = p.unicode_len();
    let mut has_star = false;
    let mut i: usize = 0;
    while i < n
        invariant
            i <= n,
            n == p@.len(),
            has_star == p@.take(i as int).contains('*'),
        decreases n - i,
    {
        let c = p.get_char(i);
        proof {
            let pre = p@.take(i as int);
            let post = p@.take(i + 1);
            assert(post =~= pre.push(c));
            if pre.contains('*') {
                let j = choose|j: int| 0 <= j < pre.len() && pre[j] == '*';
                assert(post[j] == '*');
            }
            if c == '*' {
                assert(post[i as int] == '*');
            }
            if post.contains('*') && c != '*' {
                let j = choose|j: int| 0 <= j < post.len() && post[j] == '*';
                assert(pre[j] == '*');
            }
        }
        if c == '*' {
            has_star = true;
        }
        i = i + 1;
    }
    proof {
        assert(p@.take(n as int) =~= p@);
    }
    if has_star {
        String::from_str(p)
    } else {
        let mut s = empty_string();
        push_char(&mut s, '*');
        crate::text::push_str(&mut s, p);
        push_char(&mut s, '*');
        proof {
            assert(s@ =~= seq!['*'] + p@ + seq!['*']);
        }
        s
    }
}

/// Whether `text` matches a normalized pattern.
fn hits_exec(pattern: &String, text: &str) -> (b: bool)
    ensures
        b == (glob_match(pattern@, text@) == Some(true)),
{
    match glob_is_match(pattern.as_str(), text) {
        Some(true) => true,
        _ => false,
    }
}

/// Whether the normalized pattern matches one of the function's names.
fn matches_some_name_exec(func: &FunctionInfo, normalized: &String, ghost_p: &str) -> (b: bool)
    requires
        normalized@ == normalized_pattern(ghost_p@),
    ensures
        b == matches_some_name(*func, ghost_p@),
{
    if let Some(d) = &func.demangled_name {
        if hits_exec(normalized, d.as_str()) {
            return true;
        }
    }
    if let Some(r) = &func.raw_name {
        if hits_exec(normalized, r.as_str()) {
            return true;
        }
    }
    let mut i: usize = 0;
    while i < func.export_names.len()
        invariant
            i <= func.export_names.len(),
            normalized@ == normalized_pattern(ghost_p@),
            forall|j: int| 0 <= j < i ==> !hits(ghost_p@, #[trigger] func.export_names[j]@),
        decreases func.export_names.len() - i,
    {
        if hits_exec(normalized, func.export_names[i].as_str()) {
            return true;
        }
        i = i + 1;
    }
    if func.demangled_name.is_none() && func.raw_name.is_none() && func.export_names.len() == 0 {
        let tmp = fallback_name_string(func.index);
        if hits_exec(normalized, tmp.as_str()) {
            return true;
        }
    }
    false
}

/// Returns true if the function matches the given search string.
///
/// The search string is split at whitespace into terms; every term must
/// match (case-insensitively, `*` as wildcard, a term without `*` as a
/// substring) at least one of the function's names: demangled name, raw
/// name, export names, or `func[<index>]` for a function without names.
pub fn function_matches(func: &FunctionInfo, pattern: &str) -> (b: bool)
    ensures
        b == function_matches_spec(*func, pattern@),
{
    let terms = split_search_terms(pattern);
    let mut i: usize = 0;
    while i < terms.len()
        invariant
            i <= terms.len(),
            terms@.len() == search_terms(pattern@).len(),
            forall|k: int| 0 <= k < terms@.len() ==> #[trigger] terms@[k]@ == search_terms(pattern@)[k],
            forall|k: int| 0 <= k < i ==> matches_some_name(*func, #[trigger] search_terms(pattern@)[k]),
        decreases terms.len() - i,
    {
        let normalized = normalize_pattern(terms[i].as_str());
        if !matches_some_name_exec(func, &normalized, terms[i].as_str()) {
            proof {
                assert(terms@[i as int]@ == search_terms(pattern@)[i as int]);
            }
            return false;
        }
        proof {
            assert(terms@[i as int]@ == search_terms(pattern@)[i as int]);
        }
        i = i + 1;
    }
    true
}

/// The references of a list, seen as values.
pub open spec fn derefs(v: Seq<&FunctionInfo>) -> Seq<FunctionInfo> {
    v.map_values(|f: &FunctionInfo| *f)
}

/// Filter functions with the search of `function_matches`: the pattern is
/// split into whitespace-separated terms, and a function is kept when every
/// term matches one of its names.
/// - `*` matches any sequence of characters (including empty)
/// - All other characters match literally
///
/// A term without '*' is searched as a substring (wrapped as *term*).
/// Matching is case-insensitive.
pub fn filter_functions<'a>(funcs: &'a [FunctionInfo], pattern: &str) -> (r: Vec<&'a FunctionInfo>)
    ensures
        derefs(r@) == funcs@.filter(|f: FunctionInfo| function_matches_spec(f, pattern@)),
{
    let ghost keep = |f: FunctionInfo| function_matches_spec(f, pattern@);
    let mut out: Vec<&'a FunctionInfo> = Vec::new();
    let mut i: usize = 0;
    while i < funcs.len()
        invariant
            i <= funcs@.len(),
            keep == (|f: FunctionInfo| function_matches_spec(f, pattern@)),
            derefs(out@) == funcs@.take(i as int).filter(keep),
        decreases funcs@.len() - i,
    {
        let f = &funcs[i];
        let m = function_matches(f, pattern);
        proof {
            reveal_with_fuel(Seq::filter, 1);
            assert(funcs@.take(i + 1).drop_last() =~= funcs@.take(i as int));
        }
        let ghost before = out@;
        if m {
            out.push(f);
            proof {
                assert(derefs(out@) =~= derefs(before).push(*f));
            }
        }
        i = i + 1;
    }
    proof {
        assert(funcs@.take(funcs@.len() as int) =~= funcs@);
    }
    out
}

/// The position at which a function of size `size` goes into a list sorted
/// by descending size, after every entry at least as large (so equal sizes
/// keep their order).
pub open spec fn insert_position(s: Seq<FunctionInfo>, size: u32) -> nat
    decreases s.len(),
{
    if s.len() == 0 {
        0
    } else if s[0].code_size < size {
        0
    } else {
        1 + insert_position(s.drop_first(), size)
    }
}

/// Stable ordering by descending code size (insertion of each element, in
/// input order, after the entries at least as large).
pub open spec fn by_size_desc(s: Seq<FunctionInfo>) -> Seq<FunctionInfo>
    decreases s.len(),
{
    if s.len() == 0 {
        Seq::empty()
    } else {
        let sorted = by_size_desc(s.drop_last());
        sorted.insert(insert_position(sorted, s.last().code_size) as int, s.last())
    }
}

/// The insertion position lies within the list.
pub proof fn lemma_insert_position_bound(s: Seq<FunctionInfo>, size: u32)
    ensures
        insert_position(s, size) <= s.len(),
    decreases s.len(),
{
    if s.len() > 0 {
        lemma_insert_position_bound(s.drop_first(), size);
    }
}

/// Ordering by descending size keeps the length.
pub proof fn lemma_by_size_desc_len(s: Seq<FunctionInfo>)
    ensures
        by_size_desc(s).len() == s.len(),
    decreases s.len(),
{
    if s.len() > 0 {
        lemma_by_size_desc_len(s.drop_last());
        lemma_insert_position_bound(by_size_desc(s.drop_last()), s.last().code_size);
    }
}

/// Finds the insertion position for `size` in a list of references.
fn find_insert_position(list: &Vec<&FunctionInfo>, size: u32) -> (p: usize)
    ensures
        p as nat == insert_position(derefs(list@), size),
        p <= list.len(),
{
    let mut p: usize = 0;
    proof {
        assert(derefs(list@).skip(0) =~= derefs(list@));
    }
    while p < list.len() && list[p].code_size >= size
        invariant
            p <= list.len(),
            insert_position(derefs(list@), size) == p + insert_position(derefs(list@).skip(p as int), size),
        decreases list.len() - p,
    {
        proof {
            assert(derefs(list@).skip(p as int).drop_first() =~= derefs(list@).skip(p + 1));
        }
        p = p + 1;
    }
    proof {
        if p == list.len() {
            assert(derefs(list@).skip(p as int).len() == 0);
        }
    }
    p
}

/// Stable sort of references by descending code size.
pub fn sort_by_size_desc(list: Vec<&FunctionInfo>) -> (r: Vec<&FunctionInfo>)
    ensures
        derefs(r@) == by_size_desc(derefs(list@)),
{
    let mut out: Vec<&FunctionInfo> = Vec::new();
    let mut i: usize = 0;
    while i < list.len()
        invariant
            i <= list.len(),
            derefs(out@) == by_size_desc(derefs(list@).take(i as int)),
        decreases list.len() - i,
    {
        let f = list[i];
        let p = find_insert_position(&out, f.code_size);
        let ghost before = out@;
        out.insert(p, f);
        proof {
            let pre = derefs(list@).take(i as int);
            let post = derefs(list@).take(i + 1);
            assert(post.drop_last() =~= pre);
            assert(post.last() == *f);
            assert(derefs(out@) =~= derefs(before).insert(p as int, *f));
        }
        i = i + 1;
    }
    proof {
        assert(derefs(list@).take(list.len() as int) =~= derefs(list@));
    }
    out
}

/// Return a new Vec of references to functions sorted by descending size
/// (stable: equal sizes keep their order). Optionally apply a wildcard
/// filter first.
pub fn sorted_by_size<'a>(module: &'a WasmModuleInfo, pattern: Option<&str>) -> (r: Vec<&'a FunctionInfo>)
    ensures
        derefs(r@) == by_size_desc(match pattern {
            Some(p) => module.functions@.filter(|f: FunctionInfo| function_matches_spec(f, p@)),
            None => module.functions@,
        }),
{
    let list: Vec<&FunctionInfo> = match pattern {
        Some(p) => filter_functions(module.functions.as_slice(), p),
        None => {
            let mut all: Vec<&FunctionInfo> = Vec::new();
            let mut i: usize = 0;
            while i < module.functions.len()
                invariant
                    i <= module.functions.len(),
                    derefs(all@) == module.functions@.take(i as int),
                decreases module.functions.len() - i,
            {
                let ghost before = all@;
                all.push(&module.functions[i]);
                i = i + 1;
                proof {
                    assert(derefs(all@) =~= derefs(before).push(module.functions@[i - 1]));
                    assert(derefs(all@) =~= module.functions@.take(i as int));
                }
            }
            proof {
                assert(module.functions@.take(module.functions.len() as int) =~= module.functions@);
            }
            all
        },
    };
    sort_by_size_desc(list)
}

} // verus!
