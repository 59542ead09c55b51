//! Decimal numerals: parsing a `u32` from a digit string (with the optional
//! leading `+` that the standard parser accepts) and printing a `u32` back
//! to its digit string.

use vstd::prelude::*;
use vstd::string::StrSliceExecFns;
use vstd::string::StringExecFns;

verus! {

/// `c` is a decimal digit.
pub open spec fn is_digit(c: char) -> bool {
    '0' <= c && c <= '9'
}

/// Numeric value of a digit character.
pub open spec fn digit_val(c: char) -> int {
    c as int - '0' as int
}

/// Every character of `s` is a decimal digit.
pub open spec fn all_digits(s: Seq<char>) -> bool {
    forall|i: int| 0 <= i < s.len() ==> is_digit(s[i])
}

/// Value of a digit string read as a base-10 numeral.
pub open spec fn digits_value(s: Seq<char>) -> int
    decreases s.len(),
{
    if s.len() == 0 {
        0
    } else {
        digits_value(s.drop_last()) * 10 + digit_val(s.last())
    }
}

/// What parsing a `u32` from `s` yields: an optional leading `+`, then one
/// or more digits whose value fits in a `u32`; anything else fails.
pub open spec fn spec_parse_u32(s: Seq<char>) -> Option<u32> {
    let body = if s.len() > 0 && s[0] == '+' {
        s.drop_first()
    } else {
        s
    };
    if body.len() > 0 && all_digits(body) && digits_value(body) <= u32::MAX {
        Some(digits_value(body) as u32)
    } else {
        None
    }
}

pub proof fn lemma_digits_value_nonneg(s: Seq<char>)
    requires
        all_digits(s),
    ensures
        digits_value(s) >= 0,
    decreases s.len(),
{
    if s.len() > 0 {
        assert(all_digits(s.drop_last()));
        lemma_digits_value_nonneg(s.drop_last());
    }
}

pub proof fn lemma_digits_value_take_succ(s: Seq<char>, k: int)
    requires
        0 <= k < s.len(),
    ensures
        digits_value(s.take(k + 1)) == digits_value(s.take(k)) * 10 + digit_val(s[k]),
{
    assert(s.take(k + 1).drop_last() =~= s.take(k));
    assert(s.take(k + 1).last() == s[k]);
}

/// A longer digit string never has a smaller value: the value of a prefix
/// bounds the value of the whole string from below.
pub proof fn lemma_digits_value_prefix_le(s: Seq<char>, k: int)
    requires
        all_digits(s),
        0 <= k <= s.len(),
    ensures
        digits_value(s.take(k)) <= digits_value(s),
    decreases s.len() - k,
{
    if k == s.len() {
        assert(s.take(k) =~= s);
    } else {
        lemma_digits_value_take_succ(s, k);
        assert(all_digits(s.take(k))) by {
            assert(forall|i: int| 0 <= i < k ==> s.take(k)[i] == s[i]);
        }
        lemma_digits_value_nonneg(s.take(k));
        assert(digits_value(s.take(k)) * 10 >= digits_value(s.take(k))) by (nonlinear_arith)
            requires digits_value(s.take(k)) >= 0;
        lemma_digits_value_prefix_le(s, k + 1);
    }
}

/// Whether `c` is a decimal digit.
pub fn digit_check(c: char) -> (r: bool)
    ensures
        r == is_digit(c),
{
    c >= '0' && c <= '9'
}

/// Parse the digit run `s[start..end]` as a base-10 `u32`.
pub fn parse_digits_range(s: &str, start: usize, end: usize) -> (r: Option<u32>)
    requires
        start <= end <= s@.len(),
    ensures
        ({
            let sub = s@.subrange(start as int, end as int);
            r == if sub.len() > 0 && all_digits(sub) && digits_value(sub) <= u32::MAX {
                Some(digits_value(sub) as u32)
            } else {
                None::<u32>
            }
        }),
{
    let ghost sub = s@.subrange(start as int, end as int);
    if start == end {
        return None;
    }
    let mut acc: u32 = 0;
    let mut i: usize = start;
    while i < end
        invariant
            start <= i <= end <= s@.len(),
            sub == s@.subrange(start as int, end as int),
            all_digits(sub.take(i - start)),
            acc == digits_value(sub.take(i - start)),
        decreases end - i,
    {
        let c = s.get_char(i);
        proof {
            assert(sub[i - start] == s@[i as int]);
        }
        if !digit_check(c) {
            proof {
                assert(!is_digit(sub[i - start]));
            }
            return None;
        }
        let d: u32 = (c as u32) - ('0' as u32);
        proof {
            assert('0' as int <= c as int <= '9' as int);
            assert(d == digit_val(c));
        }
        let wide: u64 = (acc as u64) * 10 + (d as u64);
        proof {
            lemma_digits_value_take_succ(sub, i - start);
            assert(all_digits(sub.take(i - start + 1)));
            assert(wide == digits_value(sub.take(i - start + 1)));
        }
        if wide > u32::MAX as u64 {
            proof {
                if all_digits(sub) {
                    lemma_digits_value_prefix_le(sub, i - start + 1);
                }
            }
            return None;
        }
        acc = wide as u32;
        i = i + 1;
    }
    proof {
        assert(sub.take(end - start) =~= sub);
        lemma_digits_value_nonneg(sub);
    }
    Some(acc)
}

/// Parse a `u32` from a whole string, as the standard decimal parser does:
/// an optional leading `+`, then one or more digits, rejecting overflow.
pub fn parse_u32(s: &str) -> (r: Option<u32>)
    ensures
        r == spec_parse_u32(s@),
{
    let len = s.unicode_len();
    if len == 0 {
        return None;
    }
    let start: usize = if s.get_char(0) == '+' {
        1
    } else {
        0
    };
    let r = parse_digits_range(s, start, len);
    proof {
        if start == 1 {
            assert(s@.drop_first() =~= s@.subrange(1, s@.len() as int));
        } else {
            assert(s@ =~= s@.subrange(0, s@.len() as int));
        }
    }
    r
}

/// Digit character of a digit value.
pub open spec fn digit_char(d: int) -> char {
    if d == 0 {
        '0'
    } else if d == 1 {
        '1'
    } else if d == 2 {
        '2'
    } else if d == 3 {
        '3'
    } else if d == 4 {
        '4'
    } else if d == 5 {
        '5'
    } else if d == 6 {
        '6'
    } else if d == 7 {
        '7'
    } else if d == 8 {
        '8'
    } else {
        '9'
    }
}

/// Decimal digit string of a non-negative integer, most significant digit
/// first, with no leading zeros (except for the numeral `0` itself).
pub open spec fn spec_decimal(n: int) -> Seq<char>
    decreases n when n >= 0
{
    if n < 10 {
        seq![digit_char(n)]
    } else {
        spec_decimal(n / 10).push(digit_char(n % 10))
    }
}

fn digit_str(d: u32) -> (r: &'static str)
    requires
        d < 10,
    ensures
        r@.len() == 1,
        r@[0] == digit_char(d as int),
{
    proof {
        reveal_strlit("0");
        reveal_strlit("1");
        reveal_strlit("2");
        reveal_strlit("3");
        reveal_strlit("4");
        reveal_strlit("5");
        reveal_strlit("6");
        reveal_strlit("7");
        reveal_strlit("8");
        reveal_strlit("9");
    }
    match d {
        0 => "0",
        1 => "1",
        2 => "2",
        3 => "3",
        4 => "4",
        5 => "5",
        6 => "6",
        7 => "7",
        8 => "8",
        _ => "9",
    }
}

/// Print `n` as its decimal digit string.
pub fn u32_to_decimal(n: u32) -> (r: String)
    ensures
        r@ == spec_decimal(n as int),
    decreases n,
{
    let d: u32 = n % 10;
    let rest: u32 = n / 10;
    let digit = digit_str(d);
    if rest == 0 {
        let r = String::from_str(digit);
        proof {
            assert(r@ =~= seq![digit_char(d as int)]);
        }
        r
    } else {
        let mut r = u32_to_decimal(rest);
        r.append(digit);
        proof {
            assert(n as int / 10 == rest as int);
            assert(n as int % 10 == d as int);
            assert(r@ =~= spec_decimal(rest as int).push(digit_char(d as int)));
        }
        r
    }
}

} // verus!
