//! Character-level helpers shared by the converter, the codec and the
//! renderer-facing export.
//!
//! Exec code in this crate manipulates text as `Vec<char>`, whose view matches
//! the `Seq<char>` view of `String` and `&str` exactly; the two trusted
//! conversions below move between the representations.

use vstd::prelude::*;

verus! {

/// Relies on `str::chars`: yields the characters of the string in order,
/// which is precisely the string's view.
#[verifier::external_body]
pub fn chars_of(s: &str) -> (v: Vec<char>)
    ensures
        v@ == s@,
{
    s.chars().collect()
}

/// Relies on `impl FromIterator<char> for String` (`String::from_iter`):
/// builds the string holding exactly the given characters in order.
#[verifier::external_body]
pub fn string_of(v: &Vec<char>) -> (s: String)
    ensures
        s@ == v@,
{
    v.iter().collect()
}

/// The decimal digit `d` as a character.
pub open spec fn digit_char(d: int) -> char {
    if d == 0 {
        '0'
    } else if d == 1 {
        '1'
    } else if d == 2 {
        '2'
    } else if d == 3 {
        '3'
    } else if d == 4 {
        '4'
    } else if d == 5 {
        '5'
    } else if d == 6 {
        '6'
    } else if d == 7 {
        '7'
    } else if d == 8 {
        '8'
    } else {
        '9'
    }
}

/// The shortest decimal rendering of `n`, for `0 <= n <= 255`.
pub open spec fn dec_chars(n: int) -> Seq<char> {
    if n < 10 {
        seq![digit_char(n)]
    } else if n < 100 {
        seq![digit_char(n / 10), digit_char(n % 10)]
    } else {
        seq![digit_char(n / 100), digit_char((n / 10) % 10), digit_char(n % 10)]
    }
}

/// The decimal rendering of an unbounded nonnegative number.
pub open spec fn dec_chars_wide(n: int) -> Seq<char>
    decreases n,
{
    if n < 10 {
        seq![digit_char(n)]
    } else {
        dec_chars_wide(n / 10) + seq![digit_char(n % 10)]
    }
}

fn digit(d: u8) -> (c: char)
    requires
        d < 10,
    ensures
        c == digit_char(d as int),
{
    match d {
        0 => '0',
        1 => '1',
        2 => '2',
        3 => '3',
        4 => '4',
        5 => '5',
        6 => '6',
        7 => '7',
        8 => '8',
        _ => '9',
    }
}

/// Appends the decimal rendering of `n` to `out`.
pub fn push_u8_decimal(out: &mut Vec<char>, n: u8)
    ensures
        final(out)@ == old(out)@ + dec_chars(n as int),
{
    if n < 10 {
        out.push(digit(n));
    } else if n < 100 {
        out.push(digit(n / 10));
        out.push(digit(n % 10));
    } else {
        out.push(digit(n / 100));
        out.push(digit((n / 10) % 10));
        out.push(digit(n % 10));
    }
    assert(out@ =~= old(out)@ + dec_chars(n as int));
}

/// Appends the decimal rendering of `n` to `out`.
pub fn push_u64_decimal(out: &mut Vec<char>, n: u64)
    ensures
        final(out)@ == old(out)@ + dec_chars_wide(n as int),
    decreases n,
{
    if n < 10 {
        out.push(digit(n as u8));
        assert(out@ =~= old(out)@ + dec_chars_wide(n as int));
    } else {
        push_u64_decimal(out, n / 10);
        out.push(digit((n % 10) as u8));
        assert(out@ =~= old(out)@ + dec_chars_wide(n as int));
    }
}

} // verus!
