//! The numeric literal decoder: turns a token substring into a 128-bit signed
//! integer, resolving the radix from prefix/suffix markers (`0x`/`h` for
//! hexadecimal, `0b`/`b` for binary), with a decimal-then-hexadecimal
//! fallback for unmarked digit strings.

use vstd::prelude::*;
use crate::chars::to_char_vec;
use crate::error::{Error, ErrorModel};

verus! {

/// The value of `c` as a digit: 0–9 for `'0'`–`'9'`, 10–15 for `'a'`–`'f'`
/// and `'A'`–`'F'`, and -1 for every other character.
pub open spec fn spec_digit_val(c: char) -> int {
    if '0' <= c && c <= '9' {
        c as int - '0' as int
    } else if 'a' <= c && c <= 'f' {
        c as int - 'a' as int + 10
    } else if 'A' <= c && c <= 'F' {
        c as int - 'A' as int + 10
    } else {
        -1
    }
}

/// Every character of `s` is a digit of the given radix.
pub open spec fn valid_digits(s: Seq<char>, radix: int) -> bool {
    forall|i: int| 0 <= i < s.len() ==> 0 <= #[trigger] spec_digit_val(s[i]) < radix
}

/// The unsigned value of the digit string `s` in the given radix.
pub open spec fn digits_val(s: Seq<char>, radix: int) -> int
    decreases s.len(),
{
    if s.len() == 0 {
        0
    } else {
        digits_val(s.drop_last(), radix) * radix + spec_digit_val(s.last())
    }
}

/// What a sign-split digit string yields: `None` unless `digits` is one or
/// more digits of the radix whose (possibly negated) value fits the 128-bit
/// signed range.
pub open spec fn radix_parse_core(digits: Seq<char>, neg: bool, radix: int) -> Option<i128> {
    if digits.len() == 0 || !valid_digits(digits, radix) {
        None
    } else {
        let val = if neg {
            -digits_val(digits, radix)
        } else {
            digits_val(digits, radix)
        };
        if i128::MIN <= val <= i128::MAX {
            Some(val as i128)
        } else {
            None
        }
    }
}

/// What parsing `s` as an integer in the given radix yields: an optional
/// leading sign, then one or more digits of the radix; `None` on any other
/// shape and on values outside the 128-bit signed range.
pub open spec fn spec_radix_parse(s: Seq<char>, radix: int) -> Option<i128> {
    let signed = s.len() >= 1 && (s[0] == '-' || s[0] == '+');
    let neg = s.len() >= 1 && s[0] == '-';
    let digits = if signed {
        s.skip(1)
    } else {
        s
    };
    radix_parse_core(digits, neg, radix)
}

/// What decoding the numeric token `s` yields.  The radix markers are
/// checked in order: prefix `0x`, suffix `h`, prefix `0b`, suffix `b`;
/// otherwise the whole text is tried as decimal and then as hexadecimal.
pub open spec fn spec_parse_num(s: Seq<char>) -> Option<i128> {
    if s.len() >= 2 && s[0] == '0' && s[1] == 'x' {
        spec_radix_parse(s.skip(2), 16)
    } else if s.len() >= 1 && s.last() == 'h' {
        spec_radix_parse(s.drop_last(), 16)
    } else if s.len() >= 2 && s[0] == '0' && s[1] == 'b' {
        spec_radix_parse(s.skip(2), 2)
    } else if s.len() >= 1 && s.last() == 'b' {
        spec_radix_parse(s.drop_last(), 2)
    } else if spec_radix_parse(s, 10) is Some {
        spec_radix_parse(s, 10)
    } else {
        spec_radix_parse(s, 16)
    }
}

/// A digit string of a valid radix has a non-negative value.
proof fn lemma_digits_val_nonneg(s: Seq<char>, radix: int)
    requires
        radix >= 2,
        valid_digits(s, radix),
    ensures
        digits_val(s, radix) >= 0,
    decreases s.len(),
{
    if s.len() > 0 {
        assert(valid_digits(s.drop_last(), radix));
        lemma_digits_val_nonneg(s.drop_last(), radix);
        let v = digits_val(s.drop_last(), radix);
        assert(0 <= spec_digit_val(s[s.len() - 1]));
        assert(v * radix >= 0) by (nonlinear_arith)
            requires
                v >= 0,
                radix >= 2,
        ;
    }
}

/// Extending a digit string never shrinks its value.
proof fn lemma_digits_val_take_le(s: Seq<char>, radix: int, k: int)
    requires
        radix >= 2,
        valid_digits(s, radix),
        0 <= k <= s.len(),
    ensures
        digits_val(s.take(k), radix) <= digits_val(s, radix),
    decreases s.len() - k,
{
    if k < s.len() {
        assert(s.take(k + 1).drop_last() =~= s.take(k));
        assert(s.take(k + 1).last() == s[k]);
        assert(valid_digits(s.take(k), radix));
        lemma_digits_val_nonneg(s.take(k), radix);
        let v = digits_val(s.take(k), radix);
        assert(v * radix >= v) by (nonlinear_arith)
            requires
                v >= 0,
                radix >= 2,
        ;
        assert(0 <= spec_digit_val(s[k]));
        assert(digits_val(s.take(k + 1), radix) >= digits_val(s.take(k), radix));
        lemma_digits_val_take_le(s, radix, k + 1);
    } else {
        assert(s.take(k) =~= s);
    }
}

/// The value of `c` as a digit, executably: `None` when `c` is no digit of
/// any supported radix.
fn digit_val(c: char) -> (d: Option<u8>)
    ensures
        d is Some <==> spec_digit_val(c) >= 0,
        d is Some ==> d->0 as int == spec_digit_val(c),
{
    if '0' <= c && c <= '9' {
        Some((c as u32 - '0' as u32) as u8)
    } else if 'a' <= c && c <= 'f' {
        Some((c as u32 - 'a' as u32 + 10) as u8)
    } else if 'A' <= c && c <= 'F' {
        Some((c as u32 - 'A' as u32 + 10) as u8)
    } else {
        None
    }
}

/// Parses `cs[start..end]` as an integer in the given radix, per
/// [`spec_radix_parse`].
fn radix_parse(cs: &Vec<char>, start: usize, end: usize, radix: u32) -> (o: Option<i128>)
    requires
        start <= end <= cs@.len(),
        radix == 2 || radix == 10 || radix == 16,
    ensures
        o == spec_radix_parse(cs@.subrange(start as int, end as int), radix as int),
{
    let ghost s = cs@.subrange(start as int, end as int);
    let ghost r = radix as int;
    let mut i = start;
    let mut neg = false;
    if i < end && (cs[i] == '-' || cs[i] == '+') {
        neg = cs[i] == '-';
        i = i + 1;
    }
    let i0 = i;
    let ghost digits = cs@.subrange(i0 as int, end as int);
    proof {
        if i0 == start {
            assert(digits =~= s);
        } else {
            assert(digits =~= s.skip(1));
        }
        assert(spec_radix_parse(s, r) == radix_parse_core(digits, neg, r));
    }
    if i == end {
        return None;
    }
    let mut acc: i128 = 0;
    while i < end
        invariant
            start <= i0 <= i <= end <= cs@.len(),
            radix == 2 || radix == 10 || radix == 16,
            r == radix as int,
            digits == cs@.subrange(i0 as int, end as int),
            digits.len() >= 1,
            spec_radix_parse(cs@.subrange(start as int, end as int), r) == radix_parse_core(
                digits,
                neg,
                r,
            ),
            valid_digits(digits.take(i - i0), radix as int),
            acc as int == -digits_val(digits.take(i - i0), radix as int),
        decreases end - i,
    {
        let ghost k = i - i0;
        proof {
            assert(digits.take(k + 1).drop_last() =~= digits.take(k as int));
            assert(digits.take(k + 1).last() == digits[k]);
            assert(digits[k] == cs@[i as int]);
        }
        let dv_opt = digit_val(cs[i]);
        let dv: u8 = match dv_opt {
            Some(d) => {
                if (d as u32) < radix {
                    d
                } else {
                    proof {
                        assert(!(0 <= spec_digit_val(digits[k]) < r));
                        assert(!valid_digits(digits, r));
                    }
                    return None;
                }
            },
            None => {
                proof {
                    assert(!(0 <= spec_digit_val(digits[k]) < r));
                    assert(!valid_digits(digits, r));
                }
                return None;
            },
        };
        proof {
            assert(valid_digits(digits.take(k + 1), r));
        }
        let ghost p = digits_val(digits.take(k as int), r);
        let ghost p1 = digits_val(digits.take(k + 1), r);
        proof {
            lemma_digits_val_nonneg(digits.take(k as int), r);
            assert(p1 == p * r + spec_digit_val(digits[k]));
            assert((-p) * r == -(p * r)) by (nonlinear_arith);
            assert(p * r >= 0) by (nonlinear_arith)
                requires
                    p >= 0,
                    r >= 2,
            ;
        }
        let acc1 = match acc.checked_mul(radix as i128) {
            Some(a) => a,
            None => {
                proof {
                    // The value so far already exceeds the signed 128-bit
                    // magnitude, so the full string cannot be in range.
                    assert(p * r > i128::MAX as int + 1);
                    assert(p1 > i128::MAX as int + 1);
                    if valid_digits(digits, r) {
                        lemma_digits_val_take_le(digits, r, k + 1);
                    }
                }
                return None;
            },
        };
        let acc2 = match acc1.checked_sub(dv as i128) {
            Some(a) => a,
            None => {
                proof {
                    assert(p1 > i128::MAX as int + 1);
                    if valid_digits(digits, r) {
                        lemma_digits_val_take_le(digits, r, k + 1);
                    }
                }
                return None;
            },
        };
        acc = acc2;
        i = i + 1;
    }
    proof {
        assert(digits.take(end - i0) =~= digits);
        lemma_digits_val_nonneg(digits, r);
    }
    if neg {
        Some(acc)
    } else {
        match 0i128.checked_sub(acc) {
            Some(v) => Some(v),
            None => None,
        }
    }
}

/// Decodes a numeric token per [`spec_parse_num`]: `0x`/`h` mark hexadecimal
/// and `0b`/`b` binary (a marked remainder that fails to parse — for example
/// one carrying a second marker — is an error); unmarked text is tried as
/// decimal, then as hexadecimal.  On failure the error carries the full
/// original token text.
pub fn parse_num(num_str: &str) -> (r: Result<i128, Error>)
    ensures
        match r {
            Ok(v) => spec_parse_num(num_str@) == Some(v),
            Err(e) => spec_parse_num(num_str@) is None && e@ == ErrorModel::NumParseError(
                num_str@,
            ),
        },
{
    let cs = to_char_vec(num_str);
    let n = cs.len();
    let res: Option<i128> = if n >= 2 && cs[0] == '0' && cs[1] == 'x' {
        proof {
            assert(cs@.subrange(2, n as int) =~= num_str@.skip(2));
        }
        radix_parse(&cs, 2, n, 16)
    } else if n >= 1 && cs[n - 1] == 'h' {
        proof {
            assert(cs@.subrange(0, n - 1) =~= num_str@.drop_last());
        }
        radix_parse(&cs, 0, n - 1, 16)
    } else if n >= 2 && cs[0] == '0' && cs[1] == 'b' {
        proof {
            assert(cs@.subrange(2, n as int) =~= num_str@.skip(2));
        }
        radix_parse(&cs, 2, n, 2)
    } else if n >= 1 && cs[n - 1] == 'b' {
        proof {
            assert(cs@.subrange(0, n - 1) =~= num_str@.drop_last());
        }
        radix_parse(&cs, 0, n - 1, 2)
    } else {
        proof {
            assert(cs@.subrange(0, n as int) =~= num_str@);
        }
        match radix_parse(&cs, 0, n, 10) {
            Some(v) => Some(v),
            None => radix_parse(&cs, 0, n, 16),
        }
    };
    match res {
        Some(v) => Ok(v),
        None => Err(Error::NumParseError(num_str.to_owned())),
    }
}

} // verus!
