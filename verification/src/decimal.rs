//! Signed decimal integers written as text.
//!
//! A number is an optional sign, `+` or `-`, and then one or more of the
//! digits `0` to `9`. Nothing may stand before, between or after them. Leading
//! zeros are allowed. A number that does not fit in an `i32` is no number
//! here.

use vstd::prelude::*;

verus! {

/// `c` is one of the ten decimal digits.
pub open spec fn is_digit(c: char) -> bool {
    '0' <= c && c <= '9'
}

/// The number that the digit `c` stands for.
pub open spec fn digit_value(c: char) -> int {
    c as int - '0' as int
}

/// Every character of `s` is a decimal digit.
pub open spec fn all_digits(s: Seq<char>) -> bool {
    forall|i: int| 0 <= i < s.len() ==> is_digit(#[trigger] s[i])
}

/// The number that a row of digits stands for, the last digit counting once.
pub open spec fn decimal_value(digits: Seq<char>) -> int
    decreases digits.len(),
{
    if digits.len() == 0 {
        0
    } else {
        10 * decimal_value(digits.drop_last()) + digit_value(digits.last())
    }
}

/// `s` begins with a sign.
pub open spec fn has_sign(s: Seq<char>) -> bool {
    s.len() > 0 && (s[0] == '-' || s[0] == '+')
}

/// What stands behind the sign of `s`, or all of `s` if it has none.
pub open spec fn unsigned_part(s: Seq<char>) -> Seq<char> {
    if has_sign(s) {
        s.skip(1)
    } else {
        s
    }
}

/// The integer that `s` is the decimal notation of, if it is one.
pub open spec fn signed_decimal(s: Seq<char>) -> Option<int> {
    let digits = unsigned_part(s);
    if digits.len() > 0 && all_digits(digits) {
        if s[0] == '-' {
            Some(-decimal_value(digits))
        } else {
            Some(decimal_value(digits))
        }
    } else {
        None
    }
}

/// The `i32` that `s` is the decimal notation of, if it is one.
pub open spec fn decimal_i32(s: Seq<char>) -> Option<i32> {
    match signed_decimal(s) {
        Some(v) => if i32::MIN <= v <= i32::MAX {
            Some(v as i32)
        } else {
            None
        },
        None => None,
    }
}

/// A text that is a number is made of digits behind at most one sign.
pub proof fn lemma_decimal_characters(s: Seq<char>)
    requires
        signed_decimal(s) is Some,
    ensures
        s.len() > 0,
        is_digit(s[0]) || s[0] == '-' || s[0] == '+',
        forall|i: int| 1 <= i < s.len() ==> is_digit(#[trigger] s[i]),
{
    let digits = unsigned_part(s);
    if has_sign(s) {
        assert forall|i: int| 1 <= i < s.len() implies is_digit(#[trigger] s[i]) by {
            assert(digits[i - 1] == s[i]);
        }
    } else {
        assert(is_digit(digits[0]));
    }
}

/// Reads `s` as a signed decimal integer; `None` where `s` is no such
/// number or the number does not fit in an `i32`.
pub fn parse_i32(s: &[char]) -> (r: Option<i32>)
    ensures
        r == decimal_i32(s@),
{
    let n: usize = s.len();
    if n == 0 {
        return None;
    }
    let negative: bool = s[0] == '-';
    let start: usize = if s[0] == '-' || s[0] == '+' {
        1
    } else {
        0
    };
    if start == n {
        return None;
    }
    let ghost digits = unsigned_part(s@);
    let mut magnitude: i64 = 0;
    let mut too_large = false;
    let mut i: usize = start;
    while i < n
        invariant
            n == s@.len(),
            start <= i <= n,
            digits == unsigned_part(s@),
            digits == s@.skip(start as int),
            all_digits(digits.take(i - start)),
            0 <= magnitude <= 0x8000_0000,
            !too_large ==> magnitude == decimal_value(digits.take(i - start)),
            too_large ==> decimal_value(digits.take(i - start)) > 0x8000_0000,
        decreases n - i,
    {
        let c = s[i];
        if c < '0' || c > '9' {
            assert(!is_digit(digits[i - start]));
            return None;
        }
        let digit: i64 = (c as u32 - '0' as u32) as i64;
        proof {
            let before = digits.take(i - start);
            let now = digits.take(i - start + 1);
            assert(now.drop_last() == before);
            assert(now.last() == c);
            assert forall|k: int| 0 <= k < now.len() implies is_digit(#[trigger] now[k]) by {
                if k < before.len() {
                    assert(now[k] == before[k]);
                }
            }
            assert(decimal_value(now) == 10 * decimal_value(before) + digit);
        }
        if !too_large {
            magnitude = magnitude * 10 + digit;
            if magnitude > 0x8000_0000 {
                too_large = true;
                magnitude = 0;
            }
        }
        i += 1;
    }
    assert(digits.take(n - start) == digits);
    if too_large {
        None
    } else if negative {
        Some((-magnitude) as i32)
    } else if magnitude <= 0x7fff_ffff {
        Some(magnitude as i32)
    } else {
        None
    }
}

} // verus!
