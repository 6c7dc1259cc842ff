//! Verified text building blocks: decimal and hexadecimal rendering of
//! integers and character-level string building.

use vstd::prelude::*;

verus! {

/// The decimal digit character for `d` (0..=9).
pub open spec fn digit_char(d: nat) -> char {
    if d == 0 { '0' }
    else if d == 1 { '1' }
    else if d == 2 { '2' }
    else if d == 3 { '3' }
    else if d == 4 { '4' }
    else if d == 5 { '5' }
    else if d == 6 { '6' }
    else if d == 7 { '7' }
    else if d == 8 { '8' }
    else { '9' }
}

/// The lower-case hexadecimal digit character for `d` (0..=15).
pub open spec fn hex_char(d: nat) -> char {
    if d < 10 { digit_char(d) }
    else if d == 10 { 'a' }
    else if d == 11 { 'b' }
    else if d == 12 { 'c' }
    else if d == 13 { 'd' }
    else if d == 14 { 'e' }
    else { 'f' }
}

/// Decimal rendering of a natural number, most significant digit first,
/// without leading zeros (`0` renders as "0").
pub open spec fn dec_str(n: nat) -> Seq<char>
    decreases n,
{
    if n < 10 {
        seq![digit_char(n)]
    } else {
        dec_str(n / 10).push(digit_char(n % 10))
    }
}

/// Decimal rendering of a signed integer: a leading '-' for negative values.
pub open spec fn signed_dec_str(v: int) -> Seq<char> {
    if v < 0 {
        seq!['-'] + dec_str((-v) as nat)
    } else {
        dec_str(v as nat)
    }
}

/// Lower-case hexadecimal rendering of a natural number without leading zeros.
pub open spec fn hex_str(n: nat) -> Seq<char>
    decreases n,
{
    if n < 16 {
        seq![hex_char(n)]
    } else {
        hex_str(n / 16).push(hex_char(n % 16))
    }
}

/// `count` copies of the character `c`.
pub open spec fn repeat_char(c: char, count: nat) -> Seq<char>
    decreases count,
{
    if count == 0 {
        Seq::empty()
    } else {
        repeat_char(c, (count - 1) as nat).push(c)
    }
}

/// Hexadecimal rendering left-padded with zeros to at least `width` characters.
pub open spec fn hex_padded(n: nat, width: nat) -> Seq<char> {
    let h = hex_str(n);
    if h.len() < width {
        repeat_char('0', (width - h.len()) as nat) + h
    } else {
        h
    }
}

/// Appends one character to a string (std's `String::push`).
#[verifier::external_body]
pub(crate) fn push_char(s: &mut String, c: char)
    ensures
        final(s)@ == old(s)@.push(c),
{
    s.push(c);
}

/// Appends a string slice to a string (vstd's `append`).
pub(crate) fn push_str(s: &mut String, t: &str)
    ensures
        final(s)@ == old(s)@ + t@,
{
    s.append(t);
}

/// An empty string.
pub fn empty_string() -> (s: String)
    ensures
        s@ == Seq::<char>::empty(),
{
    String::new()
}

/// The decimal digit character of a value below 10.
pub fn digit_of(d: u64) -> (c: char)
    requires
        d < 10,
    ensures
        c == digit_char(d as nat),
{
    if d == 0 { '0' }
    else if d == 1 { '1' }
    else if d == 2 { '2' }
    else if d == 3 { '3' }
    else if d == 4 { '4' }
    else if d == 5 { '5' }
    else if d == 6 { '6' }
    else if d == 7 { '7' }
    else if d == 8 { '8' }
    else { '9' }
}

/// The lower-case hexadecimal digit character of a value below 16.
pub fn hex_digit_of(d: u64) -> (c: char)
    requires
        d < 16,
    ensures
        c == hex_char(d as nat),
{
    if d < 10 { digit_of(d) }
    else if d == 10 { 'a' }
    else if d == 11 { 'b' }
    else if d == 12 { 'c' }
    else if d == 13 { 'd' }
    else if d == 14 { 'e' }
    else { 'f' }
}

/// Appends the decimal rendering of `n`.
pub fn push_dec(s: &mut String, n: u64)
    ensures
        final(s)@ == old(s)@ + dec_str(n as nat),
    decreases n,
{
    if n >= 10 {
        push_dec(s, n / 10);
    }
    let c = digit_of(n % 10);
    push_char(s, c);
    proof {
        assert(old(s)@ + dec_str(n as nat) =~= if n >= 10 {
            (old(s)@ + dec_str((n / 10) as nat)).push(c)
        } else {
            old(s)@.push(c)
        });
    }
}

/// Appends the decimal rendering of a signed value.
pub fn push_signed_dec(s: &mut String, v: i64)
    ensures
        final(s)@ == old(s)@ + signed_dec_str(v as int),
{
    if v < 0 {
        push_char(s, '-');
        let mag: u64 = if v == i64::MIN { 0x8000_0000_0000_0000u64 } else { (-v) as u64 };
        push_dec(s, mag);
        proof {
            assert(old(s)@ + signed_dec_str(v as int) =~= old(s)@.push('-') + dec_str(mag as nat));
        }
    } else {
        push_dec(s, v as u64);
    }
}

/// Appends the lower-case hexadecimal rendering of `n`.
pub fn push_hex(s: &mut String, n: u64)
    ensures
        final(s)@ == old(s)@ + hex_str(n as nat),
    decreases n,
{
    if n >= 16 {
        push_hex(s, n / 16);
    }
    let c = hex_digit_of(n % 16);
    push_char(s, c);
    proof {
        assert(old(s)@ + hex_str(n as nat) =~= if n >= 16 {
            (old(s)@ + hex_str((n / 16) as nat)).push(c)
        } else {
            old(s)@.push(c)
        });
    }
}

/// Number of hexadecimal digits of `n`, computed.
pub fn hex_len(n: u64) -> (len: u64)
    ensures
        len as nat == hex_str(n as nat).len(),
        len <= 16,
    decreases n,
{
    proof { lemma_hex_len_bound(n as nat); }
    if n < 16 {
        1
    } else {
        hex_len(n / 16) + 1
    }
}

/// Powers of sixteen.
pub open spec fn pow16(k: nat) -> nat
    decreases k,
{
    if k == 0 { 1 } else { 16 * pow16((k - 1) as nat) }
}

/// A number below 16^k has at most k hexadecimal digits.
pub proof fn lemma_hex_len_pow(n: nat, k: nat)
    requires
        k >= 1,
        n < pow16(k),
    ensures
        hex_str(n).len() <= k,
    decreases n,
{
    if n >= 16 {
        let p = pow16((k - 1) as nat);
        assert(n / 16 < p) by (nonlinear_arith)
            requires n < 16 * p, n >= 16;
        assert(k >= 2) by {
            if k == 1 {
                assert(pow16(0) == 1);
            }
        }
        lemma_hex_len_pow(n / 16, (k - 1) as nat);
    }
}

/// The hexadecimal rendering of a number below 16^k has at most k digits.
pub proof fn lemma_hex_len_bound(n: nat)
    ensures
        hex_str(n).len() >= 1,
        n < 0x1_0000_0000_0000_0000 ==> hex_str(n).len() <= 16,
        n < 0x1_0000_0000 ==> hex_str(n).len() <= 8,
        n < 0x100 ==> hex_str(n).len() <= 2,
        n >= 0x10 ==> hex_str(n).len() >= 2,
    decreases n,
{
    reveal_with_fuel(pow16, 17);
    if n >= 16 {
        lemma_hex_len_bound(n / 16);
    }
    if n < 0x1_0000_0000_0000_0000 {
        lemma_hex_len_pow(n, 16);
    }
    if n < 0x1_0000_0000 {
        lemma_hex_len_pow(n, 8);
    }
    if n < 0x100 {
        lemma_hex_len_pow(n, 2);
    }
}

/// Appends `count` copies of `c`.
pub fn push_repeat(s: &mut String, c: char, count: u64)
    ensures
        final(s)@ == old(s)@ + repeat_char(c, count as nat),
{
    let mut i: u64 = 0;
    while i < count
        invariant
            i <= count,
            s@ == old(s)@ + repeat_char(c, i as nat),
        decreases count - i,
    {
        push_char(s, c);
        i = i + 1;
        proof {
            assert(old(s)@ + repeat_char(c, i as nat) =~= (old(s)@ + repeat_char(c, (i - 1) as nat)).push(c));
        }
    }
}

/// Appends the zero-padded hexadecimal rendering of `n` (at least `width` digits).
pub fn push_hex_padded(s: &mut String, n: u64, width: u64)
    ensures
        final(s)@ == old(s)@ + hex_padded(n as nat, width as nat),
{
    let len = hex_len(n);
    if len < width {
        push_repeat(s, '0', width - len);
    }
    let ghost mid = s@;
    push_hex(s, n);
    proof {
        if len < width {
            assert(old(s)@ + hex_padded(n as nat, width as nat) =~= mid + hex_str(n as nat));
        } else {
            assert(old(s)@ + hex_padded(n as nat, width as nat) =~= mid + hex_str(n as nat));
        }
    }
}

} // verus!
