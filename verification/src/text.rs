//! Rendering of the diagnostic description: a verified decimal formatter
//! and the textual shape of the cache summary.

use vstd::prelude::*;

verus! {

/// Relies on `String::push`: appends the one character to the string.
pub assume_specification[ String::push ](s: &mut String, c: char)
    ensures
        final(s)@ == old(s)@.push(c),
;

/// Relies on `String::push_str`: appends the slice's characters to the
/// string.
pub assume_specification[ String::push_str ](s: &mut String, other: &str)
    ensures
        final(s)@ == old(s)@ + other@,
;

/// The character for one decimal digit.
pub open spec fn digit_char(d: nat) -> char {
    if d == 0 {
        '0'
    } else if d == 1 {
        '1'
    } else if d == 2 {
        '2'
    } else if d == 3 {
        '3'
    } else if d == 4 {
        '4'
    } else if d == 5 {
        '5'
    } else if d == 6 {
        '6'
    } else if d == 7 {
        '7'
    } else if d == 8 {
        '8'
    } else {
        '9'
    }
}

/// The decimal rendering of a natural number, most significant digit
/// first, without leading zeros (a single `'0'` for zero).
pub open spec fn decimal(n: nat) -> Seq<char>
    decreases n,
{
    if n < 10 {
        seq![digit_char(n)]
    } else {
        decimal(n / 10).push(digit_char(n % 10))
    }
}

/// The stored keys joined in order, each followed by a comma and a space.
pub open spec fn joined_keys(ks: Seq<Seq<char>>) -> Seq<char>
    decreases ks.len(),
{
    if ks.len() == 0 {
        Seq::empty()
    } else {
        joined_keys(ks.drop_last()) + ks.last() + (", ")@
    }
}

/// The full diagnostic line for a cache of capacity `cap` whose keys are
/// `ks` in recency order.
pub open spec fn render(cap: nat, ks: Seq<Seq<char>>) -> Seq<char> {
    ("Cache [Capacity: ")@ + decimal(cap) + (", Keys: [")@ + joined_keys(ks) + ("]]")@
}

/// The character for the digit `d`.
fn digit_of(d: usize) -> (c: char)
    requires
        d < 10,
    ensures
        c == digit_char(d as nat),
{
    if d == 0 {
        '0'
    } else if d == 1 {
        '1'
    } else if d == 2 {
        '2'
    } else if d == 3 {
        '3'
    } else if d == 4 {
        '4'
    } else if d == 5 {
        '5'
    } else if d == 6 {
        '6'
    } else if d == 7 {
        '7'
    } else if d == 8 {
        '8'
    } else {
        '9'
    }
}

/// Appends the decimal rendering of `n` to `s`.
pub fn push_decimal(s: &mut String, n: usize)
    ensures
        final(s)@ == old(s)@ + decimal(n as nat),
    decreases n,
{
    if n >= 10 {
        push_decimal(s, n / 10);
    }
    let ghost mid = s@;
    let d: usize = n % 10;
    s.push(digit_of(d));
    proof {
        assert(d as nat == n as nat % 10);
        if n < 10 {
            assert(s@ =~= old(s)@ + decimal(n as nat));
        } else {
            assert(mid == old(s)@ + decimal(n as nat / 10));
            assert(decimal(n as nat) == decimal(n as nat / 10).push(digit_char(n as nat % 10)));
            assert(s@ =~= old(s)@ + decimal(n as nat));
        }
    }
}

} // verus!
