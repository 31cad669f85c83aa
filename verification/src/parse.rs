//! Parsing signed decimal integers, as the rate-limit timestamp arrives in
//! a URL query parameter.

use vstd::prelude::*;
use vstd::string::StrSliceExecFns;

verus! {

/// Whether `c` is a decimal digit.
pub open spec fn is_digit(c: char) -> bool {
    48 <= c as u32 <= 57
}

/// The value of a decimal digit.
pub open spec fn digit_val(c: char) -> int {
    c as u32 - 48
}

/// Whether every character of `s` is a decimal digit.
pub open spec fn all_digits(s: Seq<char>) -> bool {
    forall|i: int| 0 <= i < s.len() ==> is_digit(#[trigger] s[i])
}

/// The number written by a digit sequence, most significant first.
pub open spec fn digits_val(s: Seq<char>) -> int
    decreases s.len(),
{
    if s.len() == 0 {
        0
    } else {
        digits_val(s.drop_last()) * 10 + digit_val(s.last())
    }
}

/// A digit sequence writes a non-negative number.
pub proof fn lemma_digits_val_nonneg(s: Seq<char>)
    requires
        all_digits(s),
    ensures
        digits_val(s) >= 0,
    decreases s.len(),
{
    if s.len() > 0 {
        assert(all_digits(s.drop_last()));
        lemma_digits_val_nonneg(s.drop_last());
    }
}

/// Extending a digit sequence never shrinks its value.
pub proof fn lemma_digits_val_prefix(s: Seq<char>, m: int)
    requires
        all_digits(s),
        0 <= m <= s.len(),
    ensures
        digits_val(s) >= digits_val(s.take(m)),
    decreases s.len() - m,
{
    if m == s.len() {
        assert(s.take(m) =~= s);
    } else {
        lemma_digits_val_prefix(s, m + 1);
        let t = s.take(m + 1);
        assert(t.drop_last() =~= s.take(m));
        assert(t.last() == s[m]);
        assert(all_digits(s.take(m)));
        lemma_digits_val_nonneg(s.take(m));
        assert(digits_val(t) == digits_val(s.take(m)) * 10 + digit_val(s[m]));
    }
}

/// What parsing `s` as a signed 64-bit decimal integer yields: an optional
/// single sign, then at least one digit, the value within range.
pub open spec fn spec_parse_i64(s: Seq<char>) -> Option<i64> {
    let signed = s.len() > 0 && (s[0] == '-' || s[0] == '+');
    let neg = s.len() > 0 && s[0] == '-';
    let digits = if signed {
        s.drop_first()
    } else {
        s
    };
    if digits.len() == 0 || !all_digits(digits) {
        None
    } else {
        let v = if neg {
            -digits_val(digits)
        } else {
            digits_val(digits)
        };
        if i64::MIN <= v <= i64::MAX {
            Some(v as i64)
        } else {
            None
        }
    }
}

/// Parse `s` as a signed decimal 64-bit integer.
pub fn parse_i64(s: &str) -> (r: Option<i64>)
    ensures
        r == spec_parse_i64(s@),
{
    let n = s.unicode_len();
    let mut start: usize = 0;
    let mut neg = false;
    if n > 0 {
        let c0 = s.get_char(0);
        if c0 == '-' {
            neg = true;
            start = 1;
        } else if c0 == '+' {
            start = 1;
        }
    }
    let ghost digits = if start == 1 {
        s@.drop_first()
    } else {
        s@
    };
    proof {
        assert(forall|t: int| 0 <= t < digits.len() ==> digits[t] == s@[t + start]);
    }
    if start >= n {
        // empty input, or a bare sign
        return None;
    }
    // the magnitude may reach one past `i64::MAX` only for a negative number
    let limit: u64 = if neg {
        9223372036854775808
    } else {
        9223372036854775807
    };
    let mut acc: u64 = 0;
    let mut j: usize = start;
    while j < n
        invariant
            start <= j <= n,
            n == s@.len(),
            start == 0 || start == 1,
            start < n,
            (start == 1) == (s@.len() > 0 && (s@[0] == '-' || s@[0] == '+')),
            neg == (s@.len() > 0 && s@[0] == '-'),
            digits == (if start == 1 {
                s@.drop_first()
            } else {
                s@
            }),
            digits.len() == n - start,
            forall|t: int| 0 <= t < digits.len() ==> digits[t] == s@[t + start],
            all_digits(digits.take(j - start)),
            acc as int == digits_val(digits.take(j - start)),
            acc <= limit,
            limit == (if neg {
                9223372036854775808u64
            } else {
                9223372036854775807u64
            }),
        decreases n - j,
    {
        let c = s.get_char(j);
        let cv = c as u32;
        if cv < 48 || cv > 57 {
            proof {
                assert(digits[j - start] == c);
                assert(!is_digit(c));
                assert(!all_digits(digits));
            }
            return None;
        }
        let d: u64 = (cv - 48) as u64;
        if acc > (limit - d) / 10 {
            proof {
                let m = j - start;
                let t = digits.take(m + 1);
                assert(t.drop_last() =~= digits.take(m));
                assert(t.last() == digits[m]);
                assert(all_digits(t));
                assert(digits_val(t) == acc as int * 10 + d);
                // acc > (limit - d) / 10 means acc * 10 + d > limit
                let q = ((limit - d) / 10) as int;
                assert(limit - d == q * 10 + ((limit - d) as int % 10));
                assert(acc as int * 10 + d > limit);
                if all_digits(digits) {
                    lemma_digits_val_prefix(digits, m + 1);
                    assert(digits_val(digits) > limit);
                    lemma_digits_val_nonneg(digits);
                }
            }
            return None;
        }
        proof {
            let q = ((limit - d) / 10) as int;
            assert(limit - d == q * 10 + ((limit - d) as int % 10));
            assert(acc as int * 10 <= q * 10);
            assert(acc as int * 10 + d <= limit);
            let m = j - start;
            let t = digits.take(m + 1);
            assert(t.drop_last() =~= digits.take(m));
            assert(t.last() == digits[m]);
            assert(digits_val(t) == digits_val(digits.take(m)) * 10 + digit_val(digits[m]));
        }
        acc = acc * 10 + d;
        j += 1;
    }
    proof {
        assert(digits.take(n - start) =~= digits);
    }
    if neg {
        if acc == 9223372036854775808 {
            Some(i64::MIN)
        } else {
            Some(-(acc as i64))
        }
    } else {
        Some(acc as i64)
    }
}

} // verus!
