//! Decimal integer text, as the machine's `PRINT` instruction emits it.

use vstd::prelude::*;

verus! {

/// The character for one decimal digit value.
pub open spec fn dec_digit(d: int) -> char
    recommends
        0 <= d < 10,
{
    ((0x30 + d) as u8) as char
}

/// The decimal representation of a natural number, most significant digit
/// first, with no leading zeros (a single `'0'` for zero).
pub open spec fn dec_rep_nat(n: nat) -> Seq<char>
    decreases n,
{
    if n < 10 {
        seq![dec_digit(n as int)]
    } else {
        dec_rep_nat(n / 10) + seq![dec_digit((n % 10) as int)]
    }
}

/// The decimal representation of a signed machine word: a minus sign and
/// the magnitude for negative values.
pub open spec fn dec_rep_i32(v: i32) -> Seq<char> {
    if v < 0 {
        seq!['-'] + dec_rep_nat((-(v as int)) as nat)
    } else {
        dec_rep_nat(v as nat)
    }
}

/// The representation of `m` prefixed to `tail`, with zero contributing
/// nothing: the shape of the digit-peeling loop's intermediate state.
spec fn rep_ext(m: nat, tail: Seq<char>) -> Seq<char> {
    if m == 0 {
        tail
    } else {
        dec_rep_nat(m) + tail
    }
}

/// The digit characters of `digits` (least significant first) read back
/// most significant first.
spec fn chars_rev(digits: Seq<u8>) -> Seq<char> {
    Seq::new(digits.len(), |i: int| dec_digit(digits[digits.len() - 1 - i] as int))
}

/// Relies on String::push: appends the given char to the end of this String.
#[verifier::external_body]
pub fn push_char(s: &mut String, c: char)
    ensures
        final(s)@ == old(s)@ + seq![c],
{
    s.push(c)
}

/// The decimal digits of `n`, as text.
pub fn u32_to_string(n: u32) -> (s: String)
    ensures
        s@ == dec_rep_nat(n as nat),
{
    let mut digits: Vec<u8> = Vec::new();
    let mut m: u32 = n / 10;
    digits.push((n % 10) as u8);
    assert(chars_rev(digits@) =~= seq![dec_digit(n as int % 10)]);
    assert(rep_ext(m as nat, chars_rev(digits@)) =~= dec_rep_nat(n as nat));
    while m != 0
        invariant
            rep_ext(m as nat, chars_rev(digits@)) == dec_rep_nat(n as nat),
            forall|i: int| 0 <= i < digits@.len() ==> digits@[i] < 10,
        decreases m,
    {
        let ghost pre = digits@;
        let d: u8 = (m % 10) as u8;
        digits.push(d);
        assert(chars_rev(digits@) =~= seq![dec_digit(d as int)] + chars_rev(pre));
        if m >= 10 {
            assert(dec_rep_nat(m as nat) + chars_rev(pre)
                =~= dec_rep_nat(m as nat / 10) + (seq![dec_digit(d as int)] + chars_rev(pre)));
        }
        m = m / 10;
    }
    let mut s = String::new();
    let mut j: usize = 0;
    while j < digits.len()
        invariant
            j <= digits@.len(),
            s@ == chars_rev(digits@).take(j as int),
            forall|i: int| 0 <= i < digits@.len() ==> digits@[i] < 10,
        decreases digits@.len() - j,
    {
        let d = digits[digits.len() - 1 - j];
        push_char(&mut s, (0x30 + d) as char);
        assert(s@ =~= chars_rev(digits@).take(j as int + 1));
        j += 1;
    }
    assert(s@ =~= chars_rev(digits@));
    s
}

/// The decimal text of a signed machine word.
pub fn i32_to_string(v: i32) -> (s: String)
    ensures
        s@ == dec_rep_i32(v),
{
    if v >= 0 {
        u32_to_string(v as u32)
    } else {
        let mag: u32 = (-(v as i64)) as u32;
        let digits = u32_to_string(mag);
        let mut s = String::new();
        push_char(&mut s, '-');
        s.append(digits.as_str());
        assert(s@ =~= dec_rep_i32(v));
        s
    }
}

} // verus!
