//! The mathematical model of decimal digit sequences: which characters are
//! digits, the numeric value of a digit string, and where the first non-digit
//! of a string stands.

use vstd::prelude::*;

verus! {

/// `c` is one of the ASCII decimal digits `'0'` through `'9'`.
pub open spec fn is_dec_digit(c: char) -> bool {
    48 <= c as u32 <= 57
}

/// The numeric value of a decimal digit character (`'0'` is 0, ... `'9'` is 9).
pub open spec fn digit_val(c: char) -> int {
    c as u32 - 48
}

/// Every character of `s` is a decimal digit.
pub open spec fn all_digits(s: Seq<char>) -> bool {
    forall|k: int| 0 <= k < s.len() ==> is_dec_digit(s[k])
}

/// The numeric value of the digit string `s`, most significant digit first.
/// An empty string has value 0.
pub open spec fn digits_value(s: Seq<char>) -> int
    decreases s.len(),
{
    if s.len() == 0 {
        0
    } else {
        10 * digits_value(s.drop_last()) + digit_val(s.last())
    }
}

/// The least index at or after `i` whose character is not a decimal digit,
/// or `s.len()` when every character from `i` on is a digit.
pub open spec fn first_non_digit_from(s: Seq<char>, i: int) -> int
    recommends
        0 <= i <= s.len(),
    decreases s.len() - i,
{
    if i >= s.len() {
        s.len() as int
    } else if !is_dec_digit(s[i]) {
        i
    } else {
        first_non_digit_from(s, i + 1)
    }
}

/// `first_non_digit_from` stays within bounds, everything before it is a
/// digit, and the character it points at (when in bounds) is not.
pub proof fn lemma_first_non_digit_bounds(s: Seq<char>, i: int)
    requires
        0 <= i <= s.len(),
    ensures
        i <= first_non_digit_from(s, i) <= s.len(),
        forall|k: int| i <= k < first_non_digit_from(s, i) ==> is_dec_digit(s[k]),
        first_non_digit_from(s, i) < s.len() ==> !is_dec_digit(s[first_non_digit_from(s, i)]),
    decreases s.len() - i,
{
    if i < s.len() && is_dec_digit(s[i]) {
        lemma_first_non_digit_bounds(s, i + 1);
    }
}

/// An index `j` preceded only by digits and holding a non-digit (or standing
/// at the end of an all-digit tail) is exactly what `first_non_digit_from`
/// returns.
pub proof fn lemma_first_non_digit_is(s: Seq<char>, i: int, j: int)
    requires
        0 <= i <= j <= s.len(),
        forall|k: int| i <= k < j ==> is_dec_digit(s[k]),
        j < s.len() ==> !is_dec_digit(s[j]),
    ensures
        first_non_digit_from(s, i) == if j < s.len() {
            j
        } else {
            s.len() as int
        },
    decreases j - i,
{
    if i < j {
        lemma_first_non_digit_is(s, i + 1, j);
    }
}

/// Appending a digit multiplies the value by ten and adds the digit.
pub proof fn lemma_digits_value_push(s: Seq<char>, c: char)
    ensures
        digits_value(s.push(c)) == 10 * digits_value(s) + digit_val(c),
{
    assert(s.push(c).drop_last() =~= s);
}

} // verus!
