//! The matching formatter: render an `i32` as the decimal text that parses
//! back to it, and the proof of that round trip.

use vstd::prelude::*;

use crate::model::all_digits;
use crate::model::digit_val;
use crate::model::digits_value;
use crate::model::is_dec_digit;
use crate::model::lemma_digits_value_push;
use crate::model::lemma_first_non_digit_is;
use crate::parser::parse_spec;
use crate::parser::parsed_value;
use crate::parser::ParseIntResult;

verus! {

/// The digit character for a value between 0 and 9.
pub open spec fn digit_char(d: int) -> char {
    if d == 0 {
        '0'
    } else if d == 1 {
        '1'
    } else if d == 2 {
        '2'
    } else if d == 3 {
        '3'
    } else if d == 4 {
        '4'
    } else if d == 5 {
        '5'
    } else if d == 6 {
        '6'
    } else if d == 7 {
        '7'
    } else if d == 8 {
        '8'
    } else {
        '9'
    }
}

/// The decimal digit string of a non-negative `n`, most significant digit
/// first and without leading zeros (`0` renders as `"0"`).
pub open spec fn digit_chars(n: int) -> Seq<char>
    recommends
        n >= 0,
    decreases n,
{
    if n < 10 {
        seq![digit_char(n)]
    } else {
        digit_chars(n / 10).push(digit_char(n % 10))
    }
}

/// The canonical decimal text of a signed value: a `'-'` before the digit
/// string of the magnitude when `v` is negative.
pub open spec fn decimal_repr(v: int) -> Seq<char> {
    if v < 0 {
        seq!['-'] + digit_chars(-v)
    } else {
        digit_chars(v)
    }
}

/// `digit_char` yields a digit character whose value is the digit itself.
pub proof fn lemma_digit_char(d: int)
    requires
        0 <= d <= 9,
    ensures
        is_dec_digit(digit_char(d)),
        digit_val(digit_char(d)) == d,
{
}

/// The digit string of a non-negative `n` is non-empty, made of digits
/// alone, and denotes `n`.
pub proof fn lemma_digit_chars(n: int)
    requires
        n >= 0,
    ensures
        digit_chars(n).len() >= 1,
        all_digits(digit_chars(n)),
        digits_value(digit_chars(n)) == n,
    decreases n,
{
    if n < 10 {
        lemma_digit_char(n);
        assert(digit_chars(n) =~= Seq::empty().push(digit_char(n)));
        lemma_digits_value_push(Seq::empty(), digit_char(n));
    } else {
        lemma_digit_chars(n / 10);
        lemma_digit_char(n % 10);
        lemma_digits_value_push(digit_chars(n / 10), digit_char(n % 10));
        vstd::arithmetic::div_mod::lemma_fundamental_div_mod(n, 10);
        assert forall|k: int| 0 <= k < digit_chars(n).len() implies is_dec_digit(
            digit_chars(n)[k],
        ) by {
            if k < digit_chars(n / 10).len() {
                assert(digit_chars(n)[k] == digit_chars(n / 10)[k]);
            }
        }
    }
}

/// The round trip: the decimal text of any `i32` parses back to exactly
/// that value.
pub proof fn lemma_round_trip(v: i32)
    ensures
        parse_spec(decimal_repr(v as int)) == ParseIntResult::Success(v),
{
    let s = decimal_repr(v as int);
    if v >= 0 {
        lemma_digit_chars(v as int);
        assert(!is_dec_digit('-'));
        assert(is_dec_digit(s[0]));
        lemma_first_non_digit_is(s, 0, s.len() as int);
        assert(parsed_value(s) == v as int);
    } else {
        let m = -(v as int);
        lemma_digit_chars(m);
        assert(s[0] == '-');
        assert(s.len() >= 2);
        assert(s[1] == digit_chars(m)[0]);
        assert(is_dec_digit(s[1]));
        assert(s[1] != '-');
        assert(s.skip(1) =~= digit_chars(m));
        assert forall|k: int| 1 <= k < s.len() implies is_dec_digit(s[k]) by {
            assert(s[k] == digit_chars(m)[k - 1]);
        }
        lemma_first_non_digit_is(s, 1, s.len() as int);
        assert(parsed_value(s) == -m == v as int);
    }
}

/// Append the decimal digit string of `m` to `out`, most significant digit
/// first.
fn push_digits(m: u32, out: &mut Vec<char>)
    ensures
        final(out)@ == old(out)@ + digit_chars(m as int),
    decreases m,
{
    if m >= 10 {
        push_digits(m / 10, out);
        let d = m % 10;
        out.push(digit_char_of(d));
        proof {
            assert(out@ =~= old(out)@ + digit_chars(m as int));
        }
    } else {
        out.push(digit_char_of(m));
        proof {
            assert(out@ =~= old(out)@ + digit_chars(m as int));
        }
    }
}

/// The digit character for `d`, which must be at most 9.
fn digit_char_of(d: u32) -> (c: char)
    requires
        d <= 9,
    ensures
        c == digit_char(d as int),
{
    if d == 0 {
        '0'
    } else if d == 1 {
        '1'
    } else if d == 2 {
        '2'
    } else if d == 3 {
        '3'
    } else if d == 4 {
        '4'
    } else if d == 5 {
        '5'
    } else if d == 6 {
        '6'
    } else if d == 7 {
        '7'
    } else if d == 8 {
        '8'
    } else {
        '9'
    }
}

/// Render `v` as its canonical decimal character sequence: an optional
/// leading `'-'`, then the digits of the magnitude without leading zeros.
/// By [`lemma_round_trip`], parsing the result gives back `Success(v)`.
pub fn format_int(v: i32) -> (r: Vec<char>)
    ensures
        r@ == decimal_repr(v as int),
{
    let mut out: Vec<char> = Vec::new();
    if v < 0 {
        out.push('-');
        let m: u32 = (-(v as i64)) as u32;
        push_digits(m, &mut out);
        proof {
            assert(out@ =~= seq!['-'] + digit_chars(m as int));
        }
    } else {
        push_digits(v as u32, &mut out);
    }
    out
}

} // verus!
