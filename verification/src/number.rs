//! The grammar of numeric tokens: integers (decimal or hexadecimal) and
//! floating point literals, checked on the token text.
use vstd::prelude::*;
use vstd::string::StrSliceExecFns;

verus! {

/// Any integer accepted by one of the integer readers is smaller than this
/// bound in magnitude; digit strings are only evaluated up to it.
pub const DIGIT_LIMIT: u128 = 0x1_0000_0000_0000_0000u128;

pub open spec fn is_dec_digit(c: char) -> bool {
    '0' <= c && c <= '9'
}

pub open spec fn is_radix_digit(c: char, radix: int) -> bool {
    if radix == 16 {
        is_dec_digit(c) || ('a' <= c && c <= 'f') || ('A' <= c && c <= 'F')
    } else {
        is_dec_digit(c)
    }
}

pub open spec fn digit_val(c: char) -> int {
    if is_dec_digit(c) {
        c as int - '0' as int
    } else if 'a' <= c && c <= 'f' {
        c as int - 'a' as int + 10
    } else {
        c as int - 'A' as int + 10
    }
}

pub open spec fn all_digits(s: Seq<char>, radix: int) -> bool {
    forall|i: int| 0 <= i < s.len() ==> #[trigger] is_radix_digit(s[i], radix)
}

/// The value of a string of digits in the given radix (most significant first).
pub open spec fn digits_value(s: Seq<char>, radix: int) -> int
    decreases s.len(),
{
    if s.len() == 0 {
        0
    } else {
        digits_value(s.drop_last(), radix) * radix + digit_val(s.last())
    }
}

/// The digits of `s` in the given radix: `Some(value)` if `s` is a non-empty
/// digit string.
pub open spec fn digit_string(s: Seq<char>, radix: int) -> Option<int> {
    if s.len() > 0 && all_digits(s, radix) {
        Some(digits_value(s, radix))
    } else {
        None
    }
}

pub open spec fn has_hex_prefix(s: Seq<char>) -> bool {
    s.len() >= 2 && s[0] == '0' && (s[1] == 'x' || s[1] == 'X')
}

/// The value of an integer literal: `0x`/`0X` followed by hex digits, or
/// decimal digits with an optional `+` sign, or a `-` sign where negative
/// values are allowed (`signed`).
pub open spec fn int_text_value(s: Seq<char>, signed: bool) -> Option<int> {
    if has_hex_prefix(s) {
        digit_string(s.skip(2), 16)
    } else if s.len() > 0 && s[0] == '+' {
        digit_string(s.skip(1), 10)
    } else if signed && s.len() > 0 && s[0] == '-' {
        match digit_string(s.skip(1), 10) {
            Some(v) => Some(-v),
            None => None,
        }
    } else {
        digit_string(s, 10)
    }
}

/// The integer literal `s`, if it is one and its value lies in `lo..=hi`
/// (negative literals are allowed when `lo` is negative).
pub open spec fn int_in_range(s: Seq<char>, lo: int, hi: int) -> Option<int> {
    match int_text_value(s, lo < 0) {
        Some(v) => if lo <= v && v <= hi {
            Some(v)
        } else {
            None
        },
        None => None,
    }
}

/// The end of the run of decimal digits that starts at `i`.
pub open spec fn digit_run(s: Seq<char>, i: int) -> int
    decreases s.len() - i,
{
    if 0 <= i < s.len() && is_dec_digit(s[i]) {
        digit_run(s, i + 1)
    } else {
        i
    }
}

/// A floating point literal: hexadecimal digits after `0x`/`0X` whose value
/// fits in 64 bits, or an optional sign, a mantissa with at least one digit
/// and an optional decimal point, and an optional exponent (`e` or `E`, an
/// optional sign, at least one digit).
pub open spec fn float_text_ok(s: Seq<char>) -> bool {
    if has_hex_prefix(s) {
        match digit_string(s.skip(2), 16) {
            Some(v) => v <= u64::MAX,
            None => false,
        }
    } else {
        let i0: int = if s.len() > 0 && (s[0] == '+' || s[0] == '-') {
            1
        } else {
            0
        };
        let i1 = digit_run(s, i0);
        let has_dot = i1 < s.len() && s[i1] == '.';
        let i2 = if has_dot {
            digit_run(s, i1 + 1)
        } else {
            i1
        };
        let mantissa_digits = (i1 - i0) + (if has_dot {
            i2 - i1 - 1
        } else {
            0
        });
        let has_exp = i2 < s.len() && (s[i2] == 'e' || s[i2] == 'E');
        let j: int = if has_exp {
            if i2 + 1 < s.len() && (s[i2 + 1] == '+' || s[i2 + 1] == '-') {
                i2 + 2
            } else {
                i2 + 1
            }
        } else {
            i2
        };
        let i3 = if has_exp {
            digit_run(s, j)
        } else {
            i2
        };
        mantissa_digits >= 1 && (!has_exp || i3 > j) && i3 == s.len()
    }
}

proof fn lemma_digits_value_nonneg(s: Seq<char>, radix: int)
    requires
        all_digits(s, radix),
        radix == 10 || radix == 16,
    ensures
        digits_value(s, radix) >= 0,
    decreases s.len(),
{
    if s.len() > 0 {
        assert(is_radix_digit(s[s.len() - 1], radix));
        assert forall|i: int| 0 <= i < s.drop_last().len() implies #[trigger] is_radix_digit(
            s.drop_last()[i],
            radix,
        ) by {
            assert(is_radix_digit(s[i], radix));
        }
        lemma_digits_value_nonneg(s.drop_last(), radix);
        let v = digits_value(s.drop_last(), radix);
        assert(v * radix >= 0) by (nonlinear_arith)
            requires
                v >= 0,
                radix >= 0,
        ;
    }
}

/// A digit string is worth at least as much as any of its prefixes.
proof fn lemma_digits_value_grows(s: Seq<char>, k: int, radix: int)
    requires
        0 <= k <= s.len(),
        all_digits(s, radix),
        radix == 10 || radix == 16,
    ensures
        digits_value(s, radix) >= digits_value(s.take(k), radix),
    decreases s.len(),
{
    if k == s.len() {
        assert(s.take(k) =~= s);
    } else {
        assert forall|i: int| 0 <= i < s.drop_last().len() implies #[trigger] is_radix_digit(
            s.drop_last()[i],
            radix,
        ) by {
            assert(is_radix_digit(s[i], radix));
        }
        lemma_digits_value_grows(s.drop_last(), k, radix);
        assert(s.drop_last().take(k) =~= s.take(k));
        lemma_digits_value_nonneg(s.drop_last(), radix);
        assert(is_radix_digit(s[s.len() - 1], radix));
        let v = digits_value(s.drop_last(), radix);
        assert(v * radix >= v) by (nonlinear_arith)
            requires
                v >= 0,
                radix >= 1,
        ;
    }
}

/// The value of the digit `c` in `radix`, if it is one.
fn digit_of(c: char, radix: u32) -> (r: Option<u32>)
    requires
        radix == 10 || radix == 16,
    ensures
        r is Some <==> is_radix_digit(c, radix as int),
        r matches Some(d) ==> d == digit_val(c) && d < radix,
{
    if '0' <= c && c <= '9' {
        Some((c as u32) - ('0' as u32))
    } else if radix == 16 && 'a' <= c && c <= 'f' {
        Some((c as u32) - ('a' as u32) + 10)
    } else if radix == 16 && 'A' <= c && c <= 'F' {
        Some((c as u32) - ('A' as u32) + 10)
    } else {
        None
    }
}

/// Reads the characters `start..end` of `text` as digits in `radix`.
/// Returns `None` if the range is empty, holds a non-digit, or is worth more
/// than `DIGIT_LIMIT`.
pub fn scan_digits(text: &str, start: usize, end: usize, radix: u32) -> (r: Option<u128>)
    requires
        start <= end <= text@.len(),
        radix == 10 || radix == 16,
    ensures
        ({
            let sub = text@.subrange(start as int, end as int);
            &&& r matches Some(v) ==> digit_string(sub, radix as int) == Some(v as int) && v
                <= DIGIT_LIMIT
            &&& r is None ==> match digit_string(sub, radix as int) {
                Some(v) => v > DIGIT_LIMIT,
                None => true,
            }
        }),
{
    let ghost full = text@.subrange(start as int, end as int);
    if start == end {
        return None;
    }
    let mut i = start;
    let mut acc: u128 = 0;
    while i < end
        invariant
            start <= i <= end <= text@.len(),
            radix == 10 || radix == 16,
            full == text@.subrange(start as int, end as int),
            all_digits(text@.subrange(start as int, i as int), radix as int),
            acc as int == digits_value(text@.subrange(start as int, i as int), radix as int),
            acc <= DIGIT_LIMIT,
        decreases end - i,
    {
        let c = text.get_char(i);
        let ghost prefix = text@.subrange(start as int, i as int);
        let ghost next = text@.subrange(start as int, i + 1);
        assert(next.drop_last() =~= prefix);
        assert(next.last() == c);
        match digit_of(c, radix) {
            None => {
                proof {
                    assert(full[i - start] == c);
                }
                return None;
            },
            Some(d) => {
                assert(acc * (radix as u128) + (d as u128) <= DIGIT_LIMIT * 16 + 16) by (
                nonlinear_arith)
                    requires
                        acc <= DIGIT_LIMIT,
                        radix <= 16,
                        d < 16,
                ;
                acc = acc * (radix as u128) + (d as u128);
                proof {
                    assert forall|k: int| 0 <= k < next.len() implies #[trigger] is_radix_digit(
                        next[k],
                        radix as int,
                    ) by {
                        if k < prefix.len() {
                            assert(next[k] == prefix[k]);
                        }
                    }
                }
                i = i + 1;
                if acc > DIGIT_LIMIT {
                    proof {
                        if all_digits(full, radix as int) {
                            lemma_digits_value_grows(full, (i - start) as int, radix as int);
                            assert(full.take((i - start) as int) =~= next);
                        }
                    }
                    return None;
                }
            },
        }
    }
    assert(full =~= text@.subrange(start as int, i as int));
    Some(acc)
}

/// Reads `text` as an integer literal whose value lies in `lo..=hi`.
pub fn parse_int_text(text: &str, lo: i128, hi: i128) -> (r: Option<i128>)
    requires
        i64::MIN <= lo <= hi <= u64::MAX,
    ensures
        r matches Some(v) ==> int_in_range(text@, lo as int, hi as int) == Some(v as int),
        r is None ==> int_in_range(text@, lo as int, hi as int) is None,
{
    let n = text.unicode_len();
    let ghost s = text@;
    let mut hex = false;
    if n >= 2 {
        let c0 = text.get_char(0);
        let c1 = text.get_char(1);
        hex = c0 == '0' && (c1 == 'x' || c1 == 'X');
    }
    if hex {
        assert(s.skip(2) =~= s.subrange(2, n as int));
        match scan_digits(text, 2, n, 16) {
            Some(v) => {
                let w = v as i128;
                if lo <= w && w <= hi {
                    Some(w)
                } else {
                    None
                }
            },
            None => None,
        }
    } else {
        let mut start: usize = 0;
        let mut negative = false;
        if n > 0 {
            let c0 = text.get_char(0);
            if c0 == '+' {
                start = 1;
            } else if lo < 0 && c0 == '-' {
                start = 1;
                negative = true;
            }
        }
        assert(s.skip(start as int) =~= s.subrange(start as int, n as int));
        assert(s =~= s.subrange(0, n as int));
        match scan_digits(text, start, n, 10) {
            Some(v) => {
                if negative {
                    let m = -(v as i128);
                    if lo <= m && m <= hi {
                        Some(m)
                    } else {
                        None
                    }
                } else {
                    let w = v as i128;
                    if lo <= w && w <= hi {
                        Some(w)
                    } else {
                        None
                    }
                }
            },
            None => None,
        }
    }
}

/// The end of the run of decimal digits of `text` that starts at `i`.
fn scan_digit_run(text: &str, n: usize, i: usize) -> (r: usize)
    requires
        n == text@.len(),
        i <= n,
    ensures
        r as int == digit_run(text@, i as int),
        i <= r <= n,
{
    let mut j = i;
    while j < n && '0' <= text.get_char(j) && text.get_char(j) <= '9'
        invariant
            n == text@.len(),
            i <= j <= n,
            digit_run(text@, i as int) == digit_run(text@, j as int),
        decreases n - j,
    {
        j = j + 1;
    }
    j
}

/// Whether `text` is a floating point literal (see `float_text_ok`).
pub fn float_text_check(text: &str) -> (r: bool)
    ensures
        r == float_text_ok(text@),
{
    let n = text.unicode_len();
    let ghost s = text@;
    if n >= 2 {
        let c0 = text.get_char(0);
        let c1 = text.get_char(1);
        if c0 == '0' && (c1 == 'x' || c1 == 'X') {
            assert(s.skip(2) =~= s.subrange(2, n as int));
            return match scan_digits(text, 2, n, 16) {
                Some(v) => v <= u64::MAX as u128,
                None => false,
            };
        }
    }
    let mut i0: usize = 0;
    if n > 0 {
        let c0 = text.get_char(0);
        if c0 == '+' || c0 == '-' {
            i0 = 1;
        }
    }
    let i1 = scan_digit_run(text, n, i0);
    let has_dot = i1 < n && text.get_char(i1) == '.';
    let i2 = if has_dot {
        scan_digit_run(text, n, i1 + 1)
    } else {
        i1
    };
    let mantissa_digits = (i1 - i0) + (if has_dot {
        i2 - i1 - 1
    } else {
        0
    });
    let has_exp = i2 < n && (text.get_char(i2) == 'e' || text.get_char(i2) == 'E');
    let j = if has_exp {
        if i2 + 1 < n && (text.get_char(i2 + 1) == '+' || text.get_char(i2 + 1) == '-') {
            i2 + 2
        } else {
            i2 + 1
        }
    } else {
        i2
    };
    let i3 = if has_exp {
        scan_digit_run(text, n, j)
    } else {
        i2
    };
    mantissa_digits >= 1 && (!has_exp || i3 > j) && i3 == n
}

} // verus!
