//! Parsing of decimal integer strings, as found in the
//! `__REALTIME_TIMESTAMP` field of a journal entry.

use vstd::prelude::*;
use vstd::string::StrSliceExecFns;

verus! {

/// True when `c` is an ASCII decimal digit.
pub open spec fn is_digit(c: char) -> bool {
    '0' <= c && c <= '9'
}

/// Numeric value of one decimal digit character.
pub open spec fn digit_value(c: char) -> int
    recommends
        is_digit(c),
{
    c as int - '0' as int
}

/// True when `s` is one or more decimal digit characters.
pub open spec fn all_digits(s: Seq<char>) -> bool {
    s.len() > 0 && forall|i: int| 0 <= i < s.len() ==> is_digit(#[trigger] s[i])
}

/// Value of a digit string read most-significant first.
pub open spec fn digits_value(s: Seq<char>) -> int
    decreases s.len(),
{
    if s.len() == 0 {
        0
    } else {
        digits_value(s.drop_last()) * 10 + digit_value(s.last())
    }
}

/// The integer denoted by `s`: an optional sign (`+` or `-`) followed by
/// one or more decimal digits. `None` when `s` has any other shape.
pub open spec fn spec_parse_decimal(s: Seq<char>) -> Option<int> {
    let neg = s.len() > 0 && s[0] == '-';
    let digits = if s.len() > 0 && (s[0] == '-' || s[0] == '+') {
        s.drop_first()
    } else {
        s
    };
    if all_digits(digits) {
        Some(
            if neg {
                -digits_value(digits)
            } else {
                digits_value(digits)
            },
        )
    } else {
        None
    }
}

/// The integer denoted by `s` when it fits in an `i64`; `None` when `s` is
/// malformed or out of range.
pub open spec fn spec_parse_i64(s: Seq<char>) -> Option<i64> {
    match spec_parse_decimal(s) {
        Some(v) => if i64::MIN <= v <= i64::MAX {
            Some(v as i64)
        } else {
            None
        },
        None => None,
    }
}

proof fn lemma_digits_value_nonneg(s: Seq<char>)
    requires
        forall|i: int| 0 <= i < s.len() ==> is_digit(#[trigger] s[i]),
    ensures
        digits_value(s) >= 0,
    decreases s.len(),
{
    if s.len() > 0 {
        lemma_digits_value_nonneg(s.drop_last());
    }
}

proof fn lemma_digits_value_step(s: Seq<char>, i: int)
    requires
        0 <= i < s.len(),
    ensures
        digits_value(s.take(i + 1)) == digits_value(s.take(i)) * 10 + digit_value(s[i]),
{
    assert(s.take(i + 1).drop_last() =~= s.take(i));
    assert(s.take(i + 1).last() == s[i]);
}

// Once a prefix of a digit string exceeds a nonnegative bound, the whole
// string does too.
proof fn lemma_digits_value_prefix_exceeds(s: Seq<char>, i: int, bound: int)
    requires
        0 <= i <= s.len(),
        bound >= 0,
        forall|j: int| 0 <= j < s.len() ==> is_digit(#[trigger] s[j]),
        digits_value(s.take(i)) > bound,
    ensures
        digits_value(s) > bound,
    decreases s.len() - i,
{
    if i == s.len() {
        assert(s.take(i) =~= s);
    } else {
        lemma_digits_value_step(s, i);
        lemma_digits_value_nonneg(s.take(i));
        lemma_digits_value_prefix_exceeds(s, i + 1, bound);
    }
}

/// Parse `s` as an optionally signed decimal `i64`.
pub fn parse_i64(s: &str) -> (r: Option<i64>)
    ensures
        r == spec_parse_i64(s@),
{
    let n = s.unicode_len();
    if n == 0 {
        return None;
    }
    let first = s.get_char(0);
    let neg = first == '-';
    let has_sign = neg || first == '+';
    let start: usize = if has_sign {
        1
    } else {
        0
    };
    let ghost digits: Seq<char> = if has_sign {
        s@.drop_first()
    } else {
        s@
    };
    if start == n {
        assert(!all_digits(digits));
        return None;
    }
    // The magnitude may reach one past `i64::MAX` when negative.
    let limit: u64 = if neg {
        9223372036854775808
    } else {
        9223372036854775807
    };
    let mut mag: u64 = 0;
    let mut i: usize = start;
    while i < n
        invariant
            start <= i <= n,
            n == s@.len(),
            start == if has_sign { 1int } else { 0int },
            digits == if has_sign { s@.drop_first() } else { s@ },
            neg ==> s@.len() > 0 && s@[0] == '-',
            !neg && has_sign ==> s@.len() > 0 && s@[0] == '+',
            !has_sign ==> !(s@.len() > 0 && (s@[0] == '-' || s@[0] == '+')),
            digits.len() == n - start,
            limit == if neg { 9223372036854775808u64 } else { 9223372036854775807u64 },
            forall|j: int| 0 <= j < i - start ==> is_digit(#[trigger] digits[j]),
            mag == digits_value(digits.take(i - start)),
            mag <= limit,
        decreases n - i,
    {
        let c = s.get_char(i);
        let u = c as u32;
        if u < 48 || u > 57 {
            assert(!is_digit(digits[i - start]));
            return None;
        }
        assert(is_digit(digits[i - start]));
        let d = (u - 48) as u64;
        let stepped = match mag.checked_mul(10) {
            Some(m) => m.checked_add(d),
            None => None,
        };
        proof {
            lemma_digits_value_step(digits, i - start);
        }
        match stepped {
            Some(next) if next <= limit => {
                mag = next;
            },
            _ => {
                // The digits read so far already exceed the range.
                proof {
                    if all_digits(digits) {
                        lemma_digits_value_prefix_exceeds(
                            digits,
                            i - start + 1,
                            limit as int,
                        );
                    }
                }
                return None;
            },
        }
        i += 1;
    }
    assert(digits.take(n - start) =~= digits);
    assert(all_digits(digits));
    if neg {
        if mag == 9223372036854775808 {
            Some(i64::MIN)
        } else {
            Some(-(mag as i64))
        }
    } else {
        Some(mag as i64)
    }
}

} // verus!
