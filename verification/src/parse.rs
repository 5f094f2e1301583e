//! Verified reading of decimal integers from strings.
//!
//! The spec functions here state what Rust's `str::parse` accepts for
//! unsigned and signed integers: an optional sign, then one or more decimal
//! digits, with the value inside the target type's range.  The executable
//! parsers are proved to return exactly that.

use vstd::prelude::*;

verus! {

/// `c` is an ASCII decimal digit.
pub open spec fn is_digit_char(c: char) -> bool {
    48 <= c as int <= 57
}

/// The numeric value of the digit `c`.
pub open spec fn digit_val(c: char) -> nat {
    (c as int - 48) as nat
}

/// Every character of `s` is a decimal digit.
pub open spec fn all_digits(s: Seq<char>) -> bool {
    forall|i: int| 0 <= i < s.len() ==> is_digit_char(s[i])
}

/// The value of `s` read as a base-10 numeral.
pub open spec fn dec_val(s: Seq<char>) -> nat
    decreases s.len(),
{
    if s.len() == 0 {
        0
    } else {
        dec_val(s.drop_last()) * 10 + digit_val(s.last())
    }
}

/// Extending a numeral by one digit multiplies its value by ten and adds
/// that digit.
proof fn lemma_dec_val_take_succ(s: Seq<char>, k: int)
    requires
        0 <= k < s.len(),
    ensures
        dec_val(s.take(k + 1)) == dec_val(s.take(k)) * 10 + digit_val(s[k]),
{
    assert(s.take(k + 1).drop_last() =~= s.take(k));
    assert(s.take(k + 1).last() == s[k]);
}

/// A prefix of a numeral never has a larger value than the whole.
proof fn lemma_dec_val_take_le(s: Seq<char>, k: int)
    requires
        0 <= k <= s.len(),
    ensures
        dec_val(s.take(k)) <= dec_val(s),
    decreases s.len(),
{
    if k == s.len() {
        assert(s.take(k) =~= s);
    } else {
        lemma_dec_val_take_le(s.drop_last(), k);
        assert(s.drop_last().take(k) =~= s.take(k));
    }
}

/// What `str::parse::<u16>` returns on `s`: an optional leading `+`, then
/// one or more decimal digits whose value is at most `u16::MAX`.
pub open spec fn parse_u16_spec(s: Seq<char>) -> Option<u16> {
    let d = if s.len() > 0 && s[0] == '+' {
        s.drop_first()
    } else {
        s
    };
    if d.len() > 0 && all_digits(d) && dec_val(d) <= 0xFFFF {
        Some(dec_val(d) as u16)
    } else {
        None
    }
}

/// What `str::parse::<i32>` returns on `s`: an optional leading `+` or `-`,
/// then one or more decimal digits whose signed value fits an `i32`.
pub open spec fn parse_i32_spec(s: Seq<char>) -> Option<i32> {
    let neg = s.len() > 0 && s[0] == '-';
    let d = if s.len() > 0 && (s[0] == '+' || s[0] == '-') {
        s.drop_first()
    } else {
        s
    };
    if d.len() > 0 && all_digits(d) {
        if neg {
            if dec_val(d) <= 0x8000_0000 {
                Some((0 - dec_val(d) as int) as i32)
            } else {
                None
            }
        } else {
            if dec_val(d) <= 0x7FFF_FFFF {
                Some(dec_val(d) as i32)
            } else {
                None
            }
        }
    } else {
        None
    }
}

/// Reads `s` as a non-negative decimal number, as `str::parse::<u16>` does.
pub fn parse_u16(s: &str) -> (r: Option<u16>)
    ensures
        r == parse_u16_spec(s@),
{
    let n = s.unicode_len();
    let mut i: usize = 0;
    if n > 0 && s.get_char(0) == '+' {
        i = 1;
    }
    let ghost digits = if s@.len() > 0 && s@[0] == '+' {
        s@.drop_first()
    } else {
        s@
    };
    proof {
        assert(digits =~= s@.subrange(i as int, n as int));
    }
    if i == n {
        return None;
    }
    let mut acc: u32 = 0;
    let mut j: usize = i;
    while j < n
        invariant
            i <= j <= n,
            n == s@.len(),
            digits == s@.subrange(i as int, n as int),
            digits == (if s@.len() > 0 && s@[0] == '+' {
                s@.drop_first()
            } else {
                s@
            }),
            forall|k: int| i <= k < j ==> is_digit_char(s@[k]),
            acc <= 0xFFFF,
            acc == dec_val(s@.subrange(i as int, j as int)),
        decreases n - j,
    {
        let c = s.get_char(j);
        let d = c as u32;
        proof {
            assert(c == s@[j as int]);
            assert(d == c as int);
        }
        if d < 48 || d > 57 {
            proof {
                assert(digits[j - i] == s@[j as int]);
                assert(!is_digit_char(digits[j - i]));
            }
            return None;
        }
        let acc2 = acc * 10 + (d - 48);
        proof {
            lemma_dec_val_take_succ(digits, j - i);
            assert(digits.take(j - i) =~= s@.subrange(i as int, j as int));
            assert(digits.take(j - i + 1) =~= s@.subrange(i as int, j + 1));
            assert(digit_val(s@[j as int]) == d - 48);
        }
        if acc2 > 0xFFFF {
            proof {
                if all_digits(digits) {
                    lemma_dec_val_take_le(digits, j - i + 1);
                }
            }
            return None;
        }
        acc = acc2;
        j = j + 1;
    }
    proof {
        assert(s@.subrange(i as int, j as int) == digits);
    }
    Some(acc as u16)
}

/// Reads `s` as a signed decimal number, as `str::parse::<i32>` does.
pub fn parse_i32(s: &str) -> (r: Option<i32>)
    ensures
        r == parse_i32_spec(s@),
{
    let n = s.unicode_len();
    let mut i: usize = 0;
    let mut neg = false;
    if n > 0 {
        let c0 = s.get_char(0);
        if c0 == '-' {
            neg = true;
            i = 1;
        } else if c0 == '+' {
            i = 1;
        }
    }
    let ghost digits = if s@.len() > 0 && (s@[0] == '+' || s@[0] == '-') {
        s@.drop_first()
    } else {
        s@
    };
    proof {
        assert(digits =~= s@.subrange(i as int, n as int));
    }
    if i == n {
        return None;
    }
    let mut acc: u64 = 0;
    let mut j: usize = i;
    while j < n
        invariant
            i <= j <= n,
            n == s@.len(),
            digits == s@.subrange(i as int, n as int),
            digits == (if s@.len() > 0 && (s@[0] == '+' || s@[0] == '-') {
                s@.drop_first()
            } else {
                s@
            }),
            forall|k: int| i <= k < j ==> is_digit_char(s@[k]),
            acc <= 0x8000_0000,
            acc == dec_val(s@.subrange(i as int, j as int)),
        decreases n - j,
    {
        let c = s.get_char(j);
        let d = c as u64;
        proof {
            assert(c == s@[j as int]);
            assert(d == c as int);
        }
        if d < 48 || d > 57 {
            proof {
                assert(digits[j - i] == s@[j as int]);
                assert(!is_digit_char(digits[j - i]));
            }
            return None;
        }
        let acc2 = acc * 10 + (d - 48);
        proof {
            lemma_dec_val_take_succ(digits, j - i);
            assert(digits.take(j - i) =~= s@.subrange(i as int, j as int));
            assert(digits.take(j - i + 1) =~= s@.subrange(i as int, j + 1));
            assert(digit_val(s@[j as int]) == d - 48);
        }
        if acc2 > 0x8000_0000 {
            proof {
                if all_digits(digits) {
                    lemma_dec_val_take_le(digits, j - i + 1);
                }
            }
            return None;
        }
        acc = acc2;
        j = j + 1;
    }
    proof {
        assert(s@.subrange(i as int, j as int) == digits);
    }
    if neg {
        if acc == 0x8000_0000 {
            Some(i32::MIN)
        } else {
            Some(0 - (acc as i32))
        }
    } else {
        if acc == 0x8000_0000 {
            None
        } else {
            Some(acc as i32)
        }
    }
}

} // verus!
