//! Text for the kernel's diagnostics: decimal numbers and strings built character by
//! character.
use vstd::prelude::*;

verus! {

/// The character of the decimal digit `d`.
pub open spec fn digit_char(d: nat) -> char {
    (48 + d) as char
}

/// The decimal digits of `v`, most significant first, without leading zeros.
pub open spec fn decimal(v: nat) -> Seq<char>
    decreases v,
{
    if v < 10 {
        seq![digit_char(v)]
    } else {
        decimal(v / 10).push(digit_char(v % 10))
    }
}

/// The character of the decimal digit `d`.
fn digit(d: usize) -> (r: char)
    requires
        d < 10,
    ensures
        r == digit_char(d as nat),
{
    if d == 0 { '0' } else if d == 1 { '1' } else if d == 2 { '2' } else if d == 3 { '3' } else if d == 4 {
        '4'
    } else if d == 5 { '5' } else if d == 6 { '6' } else if d == 7 { '7' } else if d == 8 { '8' } else { '9' }
}

/// Appends the decimal digits of `v` to `s`.
fn push_decimal(s: &mut String, v: usize)
    ensures
        final(s)@ == old(s)@ + decimal(v as nat),
    decreases v,
{
    if v >= 10 {
        push_decimal(s, v / 10);
    }
    push_char(s, digit(v % 10));
    proof {
        if v < 10 {
            assert(v % 10 == v);
        }
        assert(old(s)@ + decimal(v as nat) =~= if v >= 10 {
            (old(s)@ + decimal((v / 10) as nat)).push(digit_char((v % 10) as nat))
        } else {
            old(s)@.push(digit_char(v as nat))
        });
    }
}

/// The text of `v` units whose name is `prefix` followed by `iB`: the number in decimal,
/// a space and the unit, as in `8 MiB`.
pub(crate) fn number_with_unit(v: usize, prefix: char) -> (r: String)
    ensures
        r@ == decimal(v as nat) + seq![' ', prefix, 'i', 'B'],
{
    let mut s = String::new();
    push_decimal(&mut s, v);
    push_char(&mut s, ' ');
    push_char(&mut s, prefix);
    push_char(&mut s, 'i');
    push_char(&mut s, 'B');
    assert(s@ =~= decimal(v as nat) + seq![' ', prefix, 'i', 'B']);
    s
}

/// `String::push` of std: appends one character.
#[verifier::external_body]
pub(crate) fn push_char(s: &mut String, c: char)
    ensures
        final(s)@ == old(s)@.push(c),
{
    s.push(c)
}

} // verus!
