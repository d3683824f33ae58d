//! Reading numbers from text.

use vstd::prelude::*;
use crate::text::chars_of;

verus! {

pub open spec fn is_digit(c: char) -> bool {
    '0' <= c <= '9'
}

/// A digit's value.
pub open spec fn digit_value(c: char) -> nat {
    (c as u32 - '0' as u32) as nat
}

/// At least one character, and all of them digits.
pub open spec fn is_digits(s: Seq<char>) -> bool {
    s.len() > 0 && forall|i: int| 0 <= i < s.len() ==> is_digit(#[trigger] s[i])
}

/// The number that digits are.
pub open spec fn number(s: Seq<char>) -> nat
    decreases s.len(),
{
    if s.len() == 0 {
        0
    } else {
        number(s.drop_last()) * 10 + digit_value(s.last())
    }
}

/// The number that a text is: digits, with or without a sign before them.
pub open spec fn signed_value(s: Seq<char>) -> Option<int> {
    if is_digits(s) {
        Some(number(s) as int)
    } else if s.len() > 0 && s[0] == '+' && is_digits(s.drop_first()) {
        Some(number(s.drop_first()) as int)
    } else if s.len() > 0 && s[0] == '-' && is_digits(s.drop_first()) {
        Some(-(number(s.drop_first()) as int))
    } else {
        None
    }
}

/// The number that a text is: digits, with or without a `+` before them.
pub open spec fn unsigned_value(s: Seq<char>) -> Option<nat> {
    if is_digits(s) {
        Some(number(s))
    } else if s.len() > 0 && s[0] == '+' && is_digits(s.drop_first()) {
        Some(number(s.drop_first()))
    } else {
        None
    }
}

proof fn number_grows(s: Seq<char>, n: int)
    requires
        0 <= n <= s.len(),
    ensures
        number(s.take(n)) <= number(s),
    decreases s.len(),
{
    if n < s.len() {
        number_grows(s.drop_last(), n);
        assert(s.drop_last().take(n) =~= s.take(n));
    } else {
        assert(s.take(n) =~= s);
    }
}

/// The number that the characters from `from` on are, where they are digits
/// and it is at most `limit`.
fn digits_from(chars: &Vec<char>, from: usize, limit: u64) -> (r: Option<u64>)
    requires
        from <= chars@.len(),
    ensures
        match r {
            Some(n) => is_digits(chars@.skip(from as int)) && n == number(
                chars@.skip(from as int),
            ) && n <= limit,
            None => !is_digits(chars@.skip(from as int)) || number(chars@.skip(from as int))
                > limit,
        },
{
    let ghost s = chars@.skip(from as int);
    if from == chars.len() {
        return None;
    }
    let mut value: u64 = 0;
    let mut i: usize = from;
    assert(s.take(0) =~= Seq::<char>::empty());
    while i < chars.len()
        invariant
            from <= i <= chars@.len(),
            s == chars@.skip(from as int),
            value <= limit,
            value == number(s.take(i - from)),
            forall|k: int| 0 <= k < i - from ==> is_digit(#[trigger] s[k]),
        decreases chars.len() - i,
    {
        let c = chars[i];
        assert(s[i - from] == c);
        if !('0' <= c && c <= '9') {
            assert(!is_digit(s[i - from]));
            return None;
        }
        let digit: u64 = (c as u32 - '0' as u32) as u64;
        assert(s.take(i - from + 1).drop_last() =~= s.take(i - from));
        assert(s.take(i - from + 1).last() == c);
        assert(number(s.take(i - from + 1)) == value * 10 + digit);
        let wide: u128 = value as u128 * 10 + digit as u128;
        if wide > limit as u128 {
            proof {
                number_grows(s, i - from + 1);
            }
            return None;
        }
        value = wide as u64;
        i += 1;
    }
    assert(s.take(s.len() as int) =~= s);
    Some(value)
}

/// The number that a text is, where it is at most `limit`.
pub fn parse_unsigned(text: &str, limit: u64) -> (r: Option<u64>)
    ensures
        match unsigned_value(text@) {
            Some(n) => r == if n <= limit {
                Some(n as u64)
            } else {
                None
            },
            None => r is None,
        },
{
    let chars = chars_of(text);
    assert(text@.skip(0) =~= text@);
    assert(text@.len() > 0 ==> text@.skip(1) =~= text@.drop_first());
    if chars.len() > 0 && chars[0] == '+' {
        assert(!is_digit(text@[0]));
        digits_from(&chars, 1, limit)
    } else {
        digits_from(&chars, 0, limit)
    }
}

/// The number that a text is, where it lies between `least` and `most`.
pub fn parse_signed(text: &str, least: i64, most: i64) -> (r: Option<i64>)
    requires
        -0x7fff_ffff_ffff_ffff <= least <= 0 <= most,
    ensures
        match signed_value(text@) {
            Some(n) => r == if least <= n <= most {
                Some(n as i64)
            } else {
                None
            },
            None => r is None,
        },
{
    let chars = chars_of(text);
    assert(text@.skip(0) =~= text@);
    assert(text@.len() > 0 ==> text@.skip(1) =~= text@.drop_first());
    if chars.len() > 0 && chars[0] == '-' {
        assert(!is_digit(text@[0]));
        match digits_from(&chars, 1, (-least) as u64) {
            Some(n) => Some(-(n as i64)),
            None => None,
        }
    } else if chars.len() > 0 && chars[0] == '+' {
        assert(!is_digit(text@[0]));
        match digits_from(&chars, 1, most as u64) {
            Some(n) => Some(n as i64),
            None => None,
        }
    } else {
        match digits_from(&chars, 0, most as u64) {
            Some(n) => Some(n as i64),
            None => None,
        }
    }
}

} // verus!
