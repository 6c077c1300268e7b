//! Character-level classifier automata for integer literals and identifiers.

use vstd::prelude::*;
use vstd::string::StrSliceExecFns;

use crate::text::is_digit_char;
use crate::text::is_sign_char;
use crate::text::char_is_digit;
use crate::text::char_is_alphabetic;
use crate::text::unicode_alphabetic;

verus! {

/// A character acceptable anywhere in an integer literal after the optional
/// leading sign: an ASCII decimal digit.
pub open spec fn all_digits(s: Seq<char>, from: int) -> bool {
    forall|i: int| from <= i < s.len() ==> is_digit_char(#[trigger] s[i])
}

/// An integer literal: an optional leading `+` or `-` followed by one or more
/// ASCII digits, and nothing else.
pub open spec fn spec_is_integer(s: Seq<char>) -> bool {
    &&& s.len() > 0
    &&& if is_sign_char(s[0]) {
        s.len() > 1 && all_digits(s, 1)
    } else {
        all_digits(s, 0)
    }
}

/// An identifier: one leading alphabetic character followed by zero or more
/// characters that are alphabetic or ASCII digits.
pub open spec fn spec_is_identifier(s: Seq<char>) -> bool {
    &&& s.len() > 0
    &&& unicode_alphabetic(s[0])
    &&& forall|i: int|
        1 <= i < s.len() ==> (unicode_alphabetic(#[trigger] s[i]) || is_digit_char(s[i]))
}

/// States of the integer-literal automaton. The automaton accepts only when
/// the input ends while in `Digits`; ending in `Start` (empty input) or
/// `SignSeen` (a sign with no digit) rejects.
enum IntState {
    Start,
    SignSeen,
    Digits,
}

/// States of the identifier automaton. Only `Chars` accepts at end of input.
enum IdentState {
    Start,
    Chars,
}

/// Decides whether `str` is an integer literal: an optional leading `+`/`-`
/// followed by one or more ASCII digits. The empty string, a sign alone, and
/// any string with a non-digit after the sign are rejected.
pub fn is_integer(str: &str) -> (r: bool)
    ensures
        r == spec_is_integer(str@),
{
    let n = str.unicode_len();
    let mut state = IntState::Start;
    let mut i: usize = 0;
    while i < n
        invariant
            n == str@.len(),
            i <= n,
            match state {
                IntState::Start => i == 0,
                IntState::SignSeen => i == 1 && is_sign_char(str@[0]),
                IntState::Digits => {
                    &&& i >= 1
                    &&& if is_sign_char(str@[0]) {
                        i >= 2 && (forall|j: int| 1 <= j < i ==> is_digit_char(#[trigger] str@[j]))
                    } else {
                        forall|j: int| 0 <= j < i ==> is_digit_char(#[trigger] str@[j])
                    }
                },
            },
        decreases n - i,
    {
        let ch = str.get_char(i);
        match state {
            IntState::Start => {
                if ch == '-' || ch == '+' {
                    state = IntState::SignSeen;
                } else if char_is_digit(ch) {
                    state = IntState::Digits;
                } else {
                    return false;
                }
            },
            IntState::SignSeen => {
                if char_is_digit(ch) {
                    state = IntState::Digits;
                } else {
                    return false;
                }
            },
            IntState::Digits => {
                if char_is_digit(ch) {
                    state = IntState::Digits;
                } else {
                    return false;
                }
            },
        }
        i += 1;
    }
    match state {
        IntState::Digits => true,
        _ => false,
    }
}

/// Decides whether `str` is an identifier: one leading alphabetic character
/// followed by zero or more alphabetic characters or ASCII digits. The empty
/// string and strings starting with a digit are rejected.
pub fn is_identifier(str: &str) -> (r: bool)
    ensures
        r == spec_is_identifier(str@),
{
    let n = str.unicode_len();
    let mut state = IdentState::Start;
    let mut i: usize = 0;
    while i < n
        invariant
            n == str@.len(),
            i <= n,
            match state {
                IdentState::Start => i == 0,
                IdentState::Chars => {
                    &&& i >= 1
                    &&& unicode_alphabetic(str@[0])
                    &&& forall|j: int|
                        1 <= j < i ==> (unicode_alphabetic(#[trigger] str@[j]) || is_digit_char(
                            str@[j],
                        ))
                },
            },
        decreases n - i,
    {
        let ch = str.get_char(i);
        match state {
            IdentState::Start => {
                if char_is_alphabetic(ch) {
                    state = IdentState::Chars;
                } else {
                    return false;
                }
            },
            IdentState::Chars => {
                if char_is_alphabetic(ch) || char_is_digit(ch) {
                    state = IdentState::Chars;
                } else {
                    return false;
                }
            },
        }
        i += 1;
    }
    match state {
        IdentState::Chars => true,
        _ => false,
    }
}

} // verus!
