//! Small string helpers shared by the formatter and the parsers.

use vstd::prelude::*;

verus! {

/// Appends `c` to `s`.
///
/// Calls `String::push`, which the standard library documents as appending
/// the given `char` to the end of the string; the contract states exactly
/// that over the character view.
#[verifier::external_body]
pub(crate) fn push_char(s: &mut String, c: char)
    ensures
        final(s)@ == old(s)@.push(c),
{
    s.push(c);
}

/// Collects the characters of `s` in order.
pub(crate) fn chars_of(s: &str) -> (r: Vec<char>)
    ensures
        r@ == s@,
{
    let mut out: Vec<char> = Vec::new();
    for c in iter: s.chars()
        invariant
            out@ == iter.seq().take(iter.index() as int),
    {
        out.push(c);
    }
    assert(out@ =~= s@);
    out
}

/// The uppercase hexadecimal digit for `d < 16`.
pub open spec fn hex_digit(d: nat) -> char {
    if d == 0 {
        '0'
    } else if d == 1 {
        '1'
    } else if d == 2 {
        '2'
    } else if d == 3 {
        '3'
    } else if d == 4 {
        '4'
    } else if d == 5 {
        '5'
    } else if d == 6 {
        '6'
    } else if d == 7 {
        '7'
    } else if d == 8 {
        '8'
    } else if d == 9 {
        '9'
    } else if d == 10 {
        'A'
    } else if d == 11 {
        'B'
    } else if d == 12 {
        'C'
    } else if d == 13 {
        'D'
    } else if d == 14 {
        'E'
    } else {
        'F'
    }
}

/// Uppercase hexadecimal digits of `v` without leading zeros (`0` is `0`).
pub open spec fn hex_digits(v: nat) -> Seq<char>
    decreases v,
{
    if v < 16 {
        seq![hex_digit(v)]
    } else {
        hex_digits(v / 16).push(hex_digit(v % 16))
    }
}

/// `n` copies of the digit zero.
pub open spec fn zeros(n: int) -> Seq<char> {
    Seq::new(if n > 0 { n as nat } else { 0 }, |i: int| '0')
}

/// Uppercase hexadecimal form of `v`, zero-padded to at least four digits,
/// as written by `{:04X}`.
pub open spec fn hex4(v: nat) -> Seq<char> {
    zeros(4 - hex_digits(v).len()) + hex_digits(v)
}

fn hex_digit_char(d: u32) -> (c: char)
    requires
        d < 16,
    ensures
        c == hex_digit(d as nat),
{
    if d == 0 {
        '0'
    } else if d == 1 {
        '1'
    } else if d == 2 {
        '2'
    } else if d == 3 {
        '3'
    } else if d == 4 {
        '4'
    } else if d == 5 {
        '5'
    } else if d == 6 {
        '6'
    } else if d == 7 {
        '7'
    } else if d == 8 {
        '8'
    } else if d == 9 {
        '9'
    } else if d == 10 {
        'A'
    } else if d == 11 {
        'B'
    } else if d == 12 {
        'C'
    } else if d == 13 {
        'D'
    } else if d == 14 {
        'E'
    } else {
        'F'
    }
}

/// Appends the uppercase hexadecimal form of `v`, zero-padded to at least
/// four digits.
pub(crate) fn push_hex4(out: &mut String, v: u32)
    ensures
        final(out)@ == old(out)@ + hex4(v as nat),
{
    let mut digits: Vec<char> = Vec::new();
    let mut rest = v;
    assert(hex_digits(v as nat) == hex_digits(rest as nat) + digits@);
    while rest >= 16
        invariant
            hex_digits(v as nat) == hex_digits(rest as nat) + digits@,
        decreases rest,
    {
        let c = hex_digit_char(rest % 16);
        let ghost old_digits = digits@;
        digits.insert(0, c);
        assert(hex_digits(rest as nat) == hex_digits((rest / 16) as nat).push(c));
        rest = rest / 16;
        assert(hex_digits(v as nat) =~= hex_digits(rest as nat) + digits@);
    }
    let c = hex_digit_char(rest);
    let ghost old_digits = digits@;
    digits.insert(0, c);
    assert(hex_digits(rest as nat) =~= seq![c]);
    assert(digits@ =~= seq![c] + old_digits);
    assert(digits@ =~= hex_digits(v as nat));
    let ghost start = out@;
    let mut pad = digits.len();
    while pad < 4
        invariant
            digits@ == hex_digits(v as nat),
            digits.len() <= pad <= 4 || (digits.len() > 4 && pad == digits.len()),
            out@ == start + zeros(pad - digits.len()),
        decreases 4 - pad,
    {
        push_char(out, '0');
        pad = pad + 1;
        assert(out@ =~= start + zeros(pad - digits.len()));
    }
    let mut i: usize = 0;
    while i < digits.len()
        invariant
            digits@ == hex_digits(v as nat),
            i <= digits.len(),
            out@ == start + zeros(4 - digits.len()) + digits@.take(i as int),
        decreases digits.len() - i,
    {
        push_char(out, digits[i]);
        i = i + 1;
        assert(out@ =~= start + zeros(4 - digits.len()) + digits@.take(i as int));
    }
    assert(digits@.take(digits.len() as int) =~= digits@);
}

} // verus!
