//! Numeric value of integer literals, and the 16-bit signed range check that
//! array bounds must satisfy.

use vstd::prelude::*;
use vstd::string::StrSliceExecFns;

use crate::classify::is_integer;
use crate::classify::spec_is_integer;
use crate::text::is_digit_char;
use crate::text::is_sign_char;

verus! {

/// The smallest value an array bound may take.
pub const MIN_BOUND: i16 = -32768;

/// The largest value an array bound may take.
pub const MAX_BOUND: i16 = 32767;

/// The numeric value of one ASCII digit.
pub open spec fn digit_val(c: char) -> int {
    c as int - '0' as int
}

/// The value of a run of ASCII digits read in base ten.
pub open spec fn digits_val(s: Seq<char>) -> int
    decreases s.len(),
{
    if s.len() == 0 {
        0
    } else {
        digits_val(s.drop_last()) * 10 + digit_val(s.last())
    }
}

/// The numeric value of an integer literal: the value of its digits, negated
/// when the literal carries a leading `-`.
pub open spec fn str_int(s: Seq<char>) -> int {
    if s.len() > 0 && s[0] == '-' {
        -digits_val(s.drop_first())
    } else if s.len() > 0 && s[0] == '+' {
        digits_val(s.drop_first())
    } else {
        digits_val(s)
    }
}

/// Whether an integer literal's value lies in the 16-bit signed range.
pub open spec fn spec_in_range(s: Seq<char>) -> bool {
    &&& spec_is_integer(s)
    &&& MIN_BOUND as int <= str_int(s) <= MAX_BOUND as int
}

proof fn lemma_digits_val_nonneg(d: Seq<char>)
    requires
        forall|i: int| 0 <= i < d.len() ==> is_digit_char(#[trigger] d[i]),
    ensures
        digits_val(d) >= 0,
    decreases d.len(),
{
    if d.len() > 0 {
        lemma_digits_val_nonneg(d.drop_last());
    }
}

proof fn lemma_digits_val_take_mono(d: Seq<char>, m: int)
    requires
        forall|i: int| 0 <= i < d.len() ==> is_digit_char(#[trigger] d[i]),
        0 <= m <= d.len(),
    ensures
        digits_val(d.take(m)) <= digits_val(d),
    decreases d.len() - m,
{
    if m == d.len() {
        assert(d.take(m) =~= d);
    } else {
        let next = d.take(m + 1);
        assert(next.drop_last() =~= d.take(m));
        assert(next.last() == d[m]);
        assert(forall|i: int| 0 <= i < d.take(m).len() ==> is_digit_char(#[trigger] d.take(m)[i]));
        lemma_digits_val_nonneg(d.take(m));
        assert(digits_val(next) == digits_val(d.take(m)) * 10 + digit_val(d[m]));
        assert(digits_val(d.take(m)) <= digits_val(next));
        lemma_digits_val_take_mono(d, m + 1);
    }
}

/// Parses an integer literal and checks the 16-bit signed range in one pass.
/// Returns the value exactly when the text is an integer literal whose value
/// lies in `[-32768, 32767]`.
pub fn parse_in_range(word: &str) -> (r: Option<i16>)
    ensures
        match r {
            Some(v) => spec_in_range(word@) && v as int == str_int(word@),
            None => !spec_in_range(word@),
        },
{
    if !is_integer(word) {
        return None;
    }
    let n = word.unicode_len();
    let first = word.get_char(0);
    let neg = first == '-';
    let start: usize = if first == '-' || first == '+' {
        1
    } else {
        0
    };
    let ghost digits = word@.subrange(start as int, n as int);
    proof {
        if is_sign_char(word@[0]) {
            assert(digits =~= word@.drop_first());
        } else {
            assert(digits =~= word@);
        }
        assert(forall|i: int| 0 <= i < digits.len() ==> is_digit_char(#[trigger] digits[i]));
    }
    let mut acc: u32 = 0;
    let mut i: usize = start;
    while i < n
        invariant
            n == word@.len(),
            spec_is_integer(word@),
            start <= i <= n,
            start == if is_sign_char(word@[0]) {
                1int
            } else {
                0int
            },
            digits == word@.subrange(start as int, n as int),
            forall|j: int| 0 <= j < digits.len() ==> is_digit_char(#[trigger] digits[j]),
            acc as int == digits_val(digits.take(i - start)),
            acc <= 32768,
            digits_val(digits) == if word@[0] == '-' {
                -str_int(word@)
            } else {
                str_int(word@)
            },
        decreases n - i,
    {
        let c = word.get_char(i);
        assert(c == digits[i - start]);
        let d: u32 = c as u32 - 48;
        acc = acc * 10 + d;
        proof {
            let m = i - start;
            assert(digits.take(m + 1).drop_last() =~= digits.take(m));
            assert(digits.take(m + 1).last() == digits[m]);
            assert(acc as int == digits_val(digits.take(m + 1)));
        }
        if acc > 32768 {
            proof {
                lemma_digits_val_take_mono(digits, i + 1 - start);
                assert(digits_val(digits) > 32768);
            }
            return None;
        }
        i += 1;
    }
    proof {
        assert(digits.take(n - start) =~= digits);
    }
    if neg {
        Some((-(acc as i32)) as i16)
    } else {
        if acc > 32767 {
            return None;
        }
        Some(acc as i16)
    }
}

/// Whether `s` is an integer literal whose value lies in the 16-bit signed
/// range `[-32768, 32767]`.
pub fn is_integer_in_range(s: &str) -> (r: bool)
    ensures
        r == spec_in_range(s@),
{
    parse_in_range(s).is_some()
}

} // verus!
