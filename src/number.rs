//! Decimal integer parsing with the rules of std's integer `FromStr`: an
//! optional sign (`-` only for signed types), then one or more ASCII digits,
//! and a value in the type's range.
use vstd::prelude::*;

verus! {

pub open spec fn is_digit(c: char) -> bool {
    '0' <= c && c <= '9'
}

pub open spec fn all_digits(s: Seq<char>) -> bool {
    forall|i: int| 0 <= i < s.len() ==> is_digit(#[trigger] s[i])
}

/// The value of a string of decimal digits.
pub open spec fn digits_value(s: Seq<char>) -> nat
    decreases s.len(),
{
    if s.len() == 0 {
        0
    } else {
        digits_value(s.drop_last()) * 10 + ((s.last() as u32 - '0' as u32) as nat)
    }
}

/// The integer that `s` denotes, if it is in `min..=max`; `-` is accepted only
/// where `signed` holds.
pub open spec fn parse_int(s: Seq<char>, signed: bool, min: int, max: int) -> Option<int> {
    let neg = s.len() > 0 && s[0] == '-' && signed;
    let digits = if s.len() > 0 && (s[0] == '+' || neg) {
        s.drop_first()
    } else {
        s
    };
    let v = if neg {
        -digits_value(digits)
    } else {
        digits_value(digits) as int
    };
    if digits.len() > 0 && all_digits(digits) && min <= v <= max {
        Some(v)
    } else {
        None
    }
}

/// The value of the digits `s[lo..]`, or `None` where one is no digit or the
/// value exceeds `u64::MAX`.
fn magnitude(s: &Vec<char>, lo: usize) -> (r: Option<u64>)
    requires
        lo <= s.len(),
    ensures
        match r {
            Some(v) => all_digits(s@.subrange(lo as int, s.len() as int)) && v == digits_value(
                s@.subrange(lo as int, s.len() as int),
            ),
            None => !all_digits(s@.subrange(lo as int, s.len() as int)) || digits_value(
                s@.subrange(lo as int, s.len() as int),
            ) > u64::MAX,
        },
{
    let mut acc: u64 = 0;
    let mut i: usize = lo;
    let mut overflow = false;
    assert(s@.subrange(lo as int, lo as int) =~= Seq::<char>::empty());
    while i < s.len()
        invariant
            lo <= i <= s.len(),
            all_digits(s@.subrange(lo as int, i as int)),
            !overflow ==> acc == digits_value(s@.subrange(lo as int, i as int)),
            overflow ==> digits_value(s@.subrange(lo as int, i as int)) > u64::MAX,
        decreases s.len() - i,
    {
        let c = s[i];
        let pre = Ghost(s@.subrange(lo as int, i as int));
        let cur = Ghost(s@.subrange(lo as int, i + 1));
        assert(cur@.drop_last() =~= pre@);
        if !('0' <= c && c <= '9') {
            assert(cur@.last() == c);
            assert(!all_digits(s@.subrange(lo as int, s.len() as int))) by {
                assert(s@.subrange(lo as int, s.len() as int)[i - lo] == c);
            }
            return None;
        }
        let d = (c as u32 - '0' as u32) as u64;
        assert(all_digits(cur@)) by {
            assert forall|j: int| 0 <= j < cur@.len() implies is_digit(#[trigger] cur@[j]) by {
                if j < pre@.len() {
                    assert(cur@[j] == pre@[j]);
                }
            }
        }
        if overflow {
            assert(digits_value(cur@) > u64::MAX) by (nonlinear_arith)
                requires
                    digits_value(cur@) >= digits_value(pre@) * 10,
                    digits_value(pre@) > u64::MAX,
            {
            }
        } else if acc > 1844674407370955161 || (acc == 1844674407370955161 && d > 5) {
            overflow = true;
        } else {
            acc = acc * 10 + d;
        }
        i = i + 1;
    }
    assert(s@.subrange(lo as int, i as int) == s@.subrange(lo as int, s.len() as int));
    if overflow {
        None
    } else {
        Some(acc)
    }
}

/// Parses an unsigned 32-bit integer.
pub fn parse_u32(s: &Vec<char>) -> (r: Option<u32>)
    ensures
        match r {
            Some(v) => parse_int(s@, false, 0, u32::MAX as int) == Some(v as int),
            None => parse_int(s@, false, 0, u32::MAX as int) is None,
        },
{
    let lo: usize = if s.len() > 0 && s[0] == '+' {
        1
    } else {
        0
    };
    assert(s@.subrange(lo as int, s.len() as int) =~= (if lo == 1 {
        s@.drop_first()
    } else {
        s@
    }));
    if lo == s.len() {
        return None;
    }
    match magnitude(s, lo) {
        Some(v) => {
            if v <= 4294967295 {
                Some(v as u32)
            } else {
                None
            }
        },
        None => None,
    }
}

/// Parses a signed 64-bit integer.
pub fn parse_i64(s: &Vec<char>) -> (r: Option<i64>)
    ensures
        match r {
            Some(v) => parse_int(s@, true, i64::MIN as int, i64::MAX as int) == Some(v as int),
            None => parse_int(s@, true, i64::MIN as int, i64::MAX as int) is None,
        },
{
    let neg = s.len() > 0 && s[0] == '-';
    let lo: usize = if s.len() > 0 && (s[0] == '+' || neg) {
        1
    } else {
        0
    };
    assert(s@.subrange(lo as int, s.len() as int) =~= (if lo == 1 {
        s@.drop_first()
    } else {
        s@
    }));
    if lo == s.len() {
        return None;
    }
    match magnitude(s, lo) {
        Some(v) => {
            if neg {
                if v <= 9223372036854775807 {
                    Some(-(v as i64))
                } else if v == 9223372036854775808 {
                    Some(i64::MIN)
                } else {
                    None
                }
            } else if v <= 9223372036854775807 {
                Some(v as i64)
            } else {
                None
            }
        },
        None => None,
    }
}

/// Parses a signed 32-bit integer.
pub fn parse_i32(s: &Vec<char>) -> (r: Option<i32>)
    ensures
        match r {
            Some(v) => parse_int(s@, true, i32::MIN as int, i32::MAX as int) == Some(v as int),
            None => parse_int(s@, true, i32::MIN as int, i32::MAX as int) is None,
        },
{
    match parse_i64(s) {
        Some(v) => {
            if -2147483648 <= v && v <= 2147483647 {
                Some(v as i32)
            } else {
                None
            }
        },
        None => None,
    }
}

} // verus!
