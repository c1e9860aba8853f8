//! The conversion routine itself: a strict scan of a character sequence that
//! either yields the signed 32-bit value it denotes or pinpoints the first
//! offending position.
//!
//! Failures that no single character causes use documented sentinels:
//! - empty input fails at position 0 with character `'\0'`;
//! - a lone `'-'` fails at position 1 (the end of the input) with `'\0'`;
//! - a magnitude outside the `i32` range, with every scanned character a
//!   digit, fails at position 0 with character `'0'`.

use vstd::prelude::*;

use crate::model::all_digits;
use crate::model::digits_value;
use crate::model::first_non_digit_from;
use crate::model::is_dec_digit;
use crate::model::lemma_digits_value_push;
use crate::model::lemma_first_non_digit_bounds;
use crate::model::lemma_first_non_digit_is;

verus! {

/// The outcome of a conversion: either the denoted `i32`, or the zero-based
/// position where validation first failed together with the character there
/// (a sentinel when no single character is to blame).
#[derive(Debug, Clone, Copy, PartialEq, Eq, Structural)]
pub enum ParseIntResult {
    Success(i32),
    Failure { position: usize, character: char },
}

/// The digit part of a literal: everything after a leading `'-'`, or the
/// whole string when no sign is present.
pub open spec fn digits_part(s: Seq<char>) -> Seq<char> {
    if s.len() > 0 && s[0] == '-' {
        s.skip(1)
    } else {
        s
    }
}

/// The signed numeric value a literal denotes: the value of its digit part,
/// negated when a leading `'-'` is present.
pub open spec fn parsed_value(s: Seq<char>) -> int {
    if s.len() > 0 && s[0] == '-' {
        -digits_value(s.skip(1))
    } else {
        digits_value(s)
    }
}

/// `s` is a valid signed decimal literal for `i32`: an optional leading `'-'`,
/// then at least one character, all of them decimal digits, denoting a value
/// in `[i32::MIN, i32::MAX]`.
pub open spec fn is_valid_literal(s: Seq<char>) -> bool {
    &&& digits_part(s).len() > 0
    &&& all_digits(digits_part(s))
    &&& i32::MIN <= parsed_value(s) <= i32::MAX
}

/// What the conversion returns, on every input.  The checks stand in the
/// order the scan applies them: empty input, double leading sign, lone sign,
/// first non-digit after the sign, magnitude range.
pub open spec fn parse_spec(s: Seq<char>) -> ParseIntResult {
    if s.len() == 0 {
        ParseIntResult::Failure { position: 0, character: '\0' }
    } else if s[0] == '-' && s.len() >= 2 && s[1] == '-' {
        ParseIntResult::Failure { position: 1, character: '-' }
    } else if s[0] == '-' && s.len() == 1 {
        ParseIntResult::Failure { position: 1, character: '\0' }
    } else {
        let start: int = if s[0] == '-' {
            1
        } else {
            0
        };
        let j = first_non_digit_from(s, start);
        if j < s.len() {
            ParseIntResult::Failure { position: j as usize, character: s[j] }
        } else {
            let v = parsed_value(s);
            if i32::MIN <= v <= i32::MAX {
                ParseIntResult::Success(v as i32)
            } else {
                ParseIntResult::Failure { position: 0, character: '0' }
            }
        }
    }
}

/// The conversion is sound and complete for valid literals: it succeeds
/// exactly on the valid signed decimal literals, and on those it returns
/// the value the literal denotes.
pub proof fn lemma_parse_complete(s: Seq<char>)
    ensures
        (parse_spec(s) is Success) <==> is_valid_literal(s),
        is_valid_literal(s) ==> parse_spec(s) == ParseIntResult::Success(parsed_value(s) as i32),
{
    if s.len() == 0 {
    } else if s[0] == '-' && s.len() >= 2 && s[1] == '-' {
        assert(!is_dec_digit('-'));
        assert(digits_part(s)[0] == '-');
        assert(!all_digits(digits_part(s)));
    } else if s[0] == '-' && s.len() == 1 {
        assert(digits_part(s).len() == 0);
    } else {
        let start: int = if s[0] == '-' {
            1
        } else {
            0
        };
        let j = first_non_digit_from(s, start);
        lemma_first_non_digit_bounds(s, start);
        if j < s.len() {
            // the non-digit at j makes the digit part invalid
            if all_digits(digits_part(s)) {
                assert(is_dec_digit(digits_part(s)[j - start]));
            }
        } else {
            // every character from start on is a digit
            assert forall|k: int| 0 <= k < digits_part(s).len() implies is_dec_digit(
                digits_part(s)[k],
            ) by {
                assert(digits_part(s)[k] == s[k + start]);
            }
            assert(digits_part(s).len() > 0);
        }
    }
}

/// A literal whose digit part is well formed but whose magnitude falls
/// outside the `i32` range is always rejected: overflow never wraps around
/// into a `Success`.
pub proof fn lemma_overflow_fails(s: Seq<char>)
    requires
        digits_part(s).len() > 0,
        all_digits(digits_part(s)),
        parsed_value(s) > i32::MAX || parsed_value(s) < i32::MIN,
    ensures
        parse_spec(s) is Failure,
{
    lemma_parse_complete(s);
}

/// Empty input is always rejected.
pub proof fn lemma_empty_fails(s: Seq<char>)
    requires
        s.len() == 0,
    ensures
        parse_spec(s) is Failure,
{
}

/// Convert `input` to a signed 32-bit integer, strictly.
///
/// The result is `Success(v)` exactly when `input` is an optional `'-'`
/// followed by one or more decimal digits whose signed value `v` lies in the
/// `i32` range; leading zeros are accepted.  Any other input yields
/// `Failure` with the position and character described by [`parse_spec`],
/// and the function never panics.
pub fn parse_int(input: &str) -> (r: ParseIntResult)
    ensures
        r == parse_spec(input@),
        (r is Success) <==> is_valid_literal(input@),
        is_valid_literal(input@) ==> r == ParseIntResult::Success(parsed_value(input@) as i32),
{
    proof {
        lemma_parse_complete(input@);
    }
    let ghost s = input@;
    let n = input.unicode_len();
    if n == 0 {
        return ParseIntResult::Failure { position: 0, character: '\0' };
    }
    let negative = input.get_char(0) == '-';
    if negative {
        if n >= 2 && input.get_char(1) == '-' {
            return ParseIntResult::Failure { position: 1, character: '-' };
        }
        if n == 1 {
            return ParseIntResult::Failure { position: 1, character: '\0' };
        }
    }
    let start: usize = if negative {
        1
    } else {
        0
    };
    let mut i: usize = start;
    let mut acc: u64 = 0;
    let mut too_big = false;
    while i < n
        invariant
            s == input@,
            n == s.len(),
            start <= i <= n,
            negative == (s[0] == '-'),
            start == if negative {
                1int
            } else {
                0int
            },
            n >= 1,
            !(negative && n == 1),
            !(negative && n >= 2 && s[1] == '-'),
            forall|k: int| start <= k < i ==> is_dec_digit(s[k]),
            !too_big ==> acc == digits_value(s.subrange(start as int, i as int)) && acc
                <= 0x8000_0000u64,
            too_big ==> digits_value(s.subrange(start as int, i as int)) > 0x8000_0000,
        decreases n - i,
    {
        let c = input.get_char(i);
        let cv = c as u32;
        if cv < 48 || cv > 57 {
            proof {
                lemma_first_non_digit_is(s, start as int, i as int);
                lemma_parse_complete(s);
            }
            return ParseIntResult::Failure { position: i, character: c };
        }
        proof {
            assert(s.subrange(start as int, i + 1) =~= s.subrange(start as int, i as int).push(
                s[i as int],
            ));
            lemma_digits_value_push(s.subrange(start as int, i as int), s[i as int]);
        }
        let d = (cv - 48) as u64;
        if !too_big {
            let next = acc * 10 + d;
            if next > 0x8000_0000 {
                too_big = true;
            }
            acc = next;
        }
        i += 1;
    }
    proof {
        lemma_first_non_digit_is(s, start as int, n as int);
        assert(s.subrange(start as int, n as int) =~= s.skip(start as int));
        if !negative {
            assert(s.subrange(0, n as int) =~= s);
        }
    }
    if too_big {
        return ParseIntResult::Failure { position: 0, character: '0' };
    }
    if negative {
        let value = -(acc as i64);
        ParseIntResult::Success(value as i32)
    } else {
        if acc > 0x7FFF_FFFF {
            return ParseIntResult::Failure { position: 0, character: '0' };
        }
        ParseIntResult::Success(acc as i32)
    }
}

} // verus!
