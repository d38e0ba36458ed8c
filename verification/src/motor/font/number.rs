//! Numbers as a font description writes them: decimal digits after an
//! optional sign.

use vstd::prelude::*;

verus! {

pub open spec fn is_digit(b: u8) -> bool {
    48 <= b <= 57
}

pub open spec fn all_digits(s: Seq<u8>) -> bool {
    forall|i: int| 0 <= i < s.len() ==> is_digit(#[trigger] s[i])
}

/// The number that a string of decimal digits denotes; zero for the empty
/// string.
pub open spec fn digits_value(s: Seq<u8>) -> nat
    decreases s.len(),
{
    if s.len() == 0 {
        0
    } else {
        (10 * digits_value(s.drop_last()) + (s.last() - 48)) as nat
    }
}

/// The number that `s` denotes: one or more decimal digits, after a `+`
/// or a `-` if there is one. Nothing else denotes a number.
pub open spec fn number(s: Seq<u8>) -> Option<int> {
    if s.len() > 0 && (s[0] == 43 || s[0] == 45) {
        let digits = s.skip(1);
        if digits.len() > 0 && all_digits(digits) {
            Some(
                if s[0] == 45 {
                    -(digits_value(digits) as int)
                } else {
                    digits_value(digits) as int
                },
            )
        } else {
            None
        }
    } else if s.len() > 0 && all_digits(s) {
        Some(digits_value(s) as int)
    } else {
        None
    }
}

/// The number that `s` denotes, if it is one that has no `-` before it and
/// is no more than `max`.
pub open spec fn unsigned_number(s: Seq<u8>, max: int) -> Option<int> {
    match number(s) {
        Some(n) => if s[0] != 45 && n <= max {
            Some(n)
        } else {
            None
        },
        None => None,
    }
}

/// The number that `s` denotes, if it lies from `min` to `max`.
pub open spec fn signed_number(s: Seq<u8>, min: int, max: int) -> Option<int> {
    match number(s) {
        Some(n) => if min <= n <= max {
            Some(n)
        } else {
            None
        },
        None => None,
    }
}

/// More digits do not denote less.
pub proof fn lemma_digits_grow(s: Seq<u8>, n: int)
    requires
        0 <= n <= s.len(),
        all_digits(s),
    ensures
        digits_value(s.take(n)) <= digits_value(s),
    decreases s.len() - n,
{
    if n < s.len() {
        lemma_digits_grow(s, n + 1);
        assert(s.take(n + 1).drop_last() =~= s.take(n));
        assert(is_digit(s[n]));
        assert(s.take(n + 1).last() == s[n]);
    } else {
        assert(s.take(n) =~= s);
    }
}

/// The value of the digits of `s` from `from` on, or nothing if there is
/// none, if one of them is no digit, or if they denote more than
/// `limit`.
fn parse_digits(s: &[u8], from: usize, limit: u64) -> (r: Option<u64>)
    requires
        from <= s@.len(),
        limit <= 0x1_0000_0000,
    ensures
        r == if s@.len() > from && all_digits(s@.skip(from as int)) && digits_value(
            s@.skip(from as int),
        ) <= limit {
            Some(digits_value(s@.skip(from as int)) as u64)
        } else {
            None
        },
{
    let ghost digits = s@.skip(from as int);
    let len = s.len();
    if from >= len {
        return None;
    }
    let mut value: u64 = 0;
    let mut i: usize = from;
    assert(digits.take(0) =~= Seq::<u8>::empty());
    while i < len
        invariant
            from <= i <= len,
            len == s@.len(),
            digits == s@.skip(from as int),
            limit <= 0x1_0000_0000,
            all_digits(digits.take(i - from)),
            value == digits_value(digits.take(i - from)),
            value <= limit,
        decreases len - i,
    {
        let b = s[i];
        assert(digits[i - from] == b);
        if b < 48 || b > 57 {
            assert(!is_digit(digits[i - from]));
            return None;
        }
        proof {
            assert(digits.take(i - from + 1).drop_last() =~= digits.take(i - from));
            assert(digits.take(i - from + 1).last() == b);
            assert forall|k: int| 0 <= k < i - from + 1 implies is_digit(
                #[trigger] digits.take(i - from + 1)[k],
            ) by {
                if k < i - from {
                    assert(digits.take(i - from)[k] == digits[k]);
                }
            }
        }
        let next: u64 = 10 * value + (b - 48) as u64;
        if next > limit {
            proof {
                if all_digits(digits) {
                    lemma_digits_grow(digits, i - from + 1);
                }
            }
            return None;
        }
        value = next;
        i += 1;
    }
    assert(digits.take(len - from) =~= digits);
    Some(value)
}

/// The `u32` that `s` denotes.
pub fn parse_u32(s: &[u8]) -> (r: Option<u32>)
    ensures
        r == match unsigned_number(s@, u32::MAX as int) {
            Some(n) => Some(n as u32),
            None => None,
        },
{
    if s.len() == 0 {
        return None;
    }
    let from: usize = if s[0] == 43 {
        1
    } else {
        0
    };
    proof {
        if from == 0 {
            assert(s@.skip(0) =~= s@);
            if s@[0] == 45 {
                assert(!is_digit(s@[0]));
            }
        }
    }
    match parse_digits(s, from, u32::MAX as u64) {
        Some(n) => Some(n as u32),
        None => None,
    }
}

/// The `u8` that `s` denotes.
pub fn parse_u8(s: &[u8]) -> (r: Option<u8>)
    ensures
        r == match unsigned_number(s@, u8::MAX as int) {
            Some(n) => Some(n as u8),
            None => None,
        },
{
    match parse_u32(s) {
        Some(n) => if n <= u8::MAX as u32 {
            Some(n as u8)
        } else {
            None
        },
        None => None,
    }
}

/// The `i32` that `s` denotes.
pub fn parse_i32(s: &[u8]) -> (r: Option<i32>)
    ensures
        r == match signed_number(s@, i32::MIN as int, i32::MAX as int) {
            Some(n) => Some(n as i32),
            None => None,
        },
{
    if s.len() == 0 {
        return None;
    }
    let negative = s[0] == 45;
    let from: usize = if s[0] == 43 || s[0] == 45 {
        1
    } else {
        0
    };
    proof {
        if from == 0 {
            assert(s@.skip(0) =~= s@);
        }
    }
    let limit: u64 = if negative {
        0x8000_0000
    } else {
        0x7fff_ffff
    };
    match parse_digits(s, from, limit) {
        Some(n) => if negative {
            Some((-(n as i64)) as i32)
        } else {
            Some(n as i32)
        },
        None => None,
    }
}

} // verus!
