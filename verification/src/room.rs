//! Room identifiers: extracting the numeric room id from a bare numeral or
//! from a live-room address.
//!
//! Two shapes are accepted: a string that is nothing but digits, and a
//! string containing the fixed host marker directly followed by digits
//! (the leftmost such occurrence wins and its maximal digit run is the
//! id). The id must be positive and fit a `u32`; anything else is
//! rejected.

use vstd::prelude::*;
use vstd::string::StrSliceExecFns;
use crate::text::{matches_lit, has_lit_at};
use crate::numeric::{
    is_digit, digits_value, digit_check, parse_digits_range, all_digits,
    lemma_digits_value_nonneg,
};

verus! {

/// The fixed host marker that precedes the digits in a room address.
pub open spec fn host_marker() -> Seq<char> {
    "live.bilibili.com/"@
}

/// Position `i` of `s` holds a decimal digit.
pub open spec fn digit_at(s: Seq<char>, i: int) -> bool {
    0 <= i < s.len() && is_digit(s[i])
}

/// The host marker occurs at position `i` with a digit directly after it.
pub open spec fn marker_match_at(s: Seq<char>, i: int) -> bool {
    matches_lit(s, i, host_marker()) && digit_at(s, i + host_marker().len())
}

/// The first position at or after `i` where the marker-and-digits pattern
/// occurs.
pub open spec fn first_marker_from(s: Seq<char>, i: int) -> Option<int>
    decreases s.len() - i when 0 <= i <= s.len()
{
    if i >= s.len() {
        None
    } else if marker_match_at(s, i) {
        Some(i)
    } else {
        first_marker_from(s, i + 1)
    }
}

/// End of the maximal digit run beginning at `j`.
pub open spec fn digit_run_end(s: Seq<char>, j: int) -> int
    decreases s.len() - j when 0 <= j <= s.len()
{
    if j < s.len() && is_digit(s[j]) {
        digit_run_end(s, j + 1)
    } else {
        j
    }
}

/// The digit run that names the room: the whole string when it is nothing
/// but digits, else the maximal digit run after the leftmost host-marker
/// occurrence that digits follow.
pub open spec fn spec_room_digits(s: Seq<char>) -> Option<Seq<char>> {
    if s.len() > 0 && all_digits(s) {
        Some(s)
    } else {
        match first_marker_from(s, 0) {
            None => None,
            Some(i) => Some(
                s.subrange(i + host_marker().len(), digit_run_end(s, i + host_marker().len())),
            ),
        }
    }
}

/// What parsing a room id from `s` yields: the value of the room's digit
/// run; no accepted shape, a zero id, or a value too large for a `u32`
/// yields nothing.
pub open spec fn spec_room_id(s: Seq<char>) -> Option<u32> {
    match spec_room_digits(s) {
        None => None,
        Some(d) => if 0 < digits_value(d) <= u32::MAX {
            Some(digits_value(d) as u32)
        } else {
            None
        },
    }
}

proof fn lemma_first_marker_skip(s: Seq<char>, i: int)
    requires
        0 <= i <= s.len(),
        forall|j: int| 0 <= j < i ==> !marker_match_at(s, j),
    ensures
        first_marker_from(s, 0) == first_marker_from(s, i),
    decreases i,
{
    if i > 0 {
        lemma_first_marker_skip(s, i - 1);
    }
}

proof fn lemma_digit_run(s: Seq<char>, a: int, b: int)
    requires
        0 <= a <= b <= s.len(),
        forall|k: int| a <= k < b ==> is_digit(s[k]),
        b == s.len() || !is_digit(s[b]),
    ensures
        digit_run_end(s, a) == b,
    decreases b - a,
{
    if a < b {
        lemma_digit_run(s, a + 1, b);
    }
}

/// A bare numeral parses to its own value: every non-empty all-digit
/// string whose value is positive and fits a `u32` yields exactly that
/// value.
pub proof fn lemma_room_id_of_numeral(s: Seq<char>)
    requires
        s.len() > 0,
        all_digits(s),
        0 < digits_value(s) <= u32::MAX,
    ensures
        spec_room_id(s) == Some(digits_value(s) as u32),
{
}

/// The host marker followed by a positive digit run parses to that run's
/// value.
pub proof fn lemma_room_id_behind_marker(d: Seq<char>)
    requires
        d.len() > 0,
        all_digits(d),
        0 < digits_value(d) <= u32::MAX,
    ensures
        spec_room_id(host_marker() + d) == Some(digits_value(d) as u32),
{
    reveal_strlit("live.bilibili.com/");
    let s = host_marker() + d;
    assert(s[0] == 'l');
    assert(!is_digit(s[0]));
    assert(s.subrange(0, host_marker().len() as int) =~= host_marker());
    assert(s[host_marker().len() as int] == d[0]);
    assert(marker_match_at(s, 0));
    assert(first_marker_from(s, 0) == Some(0int));
    assert(forall|k: int| 18 <= k < s.len() ==> s[k] == d[k - 18] && is_digit(s[k]));
    lemma_digit_run(s, 18, s.len() as int);
    assert(s.subrange(18, s.len() as int) =~= d);
}

/// Parse a room id: a string of digits, or a live-room address in which
/// digits directly follow the fixed host marker.
pub fn parse_room_id(s: &str) -> (r: Option<u32>)
    ensures
        r == spec_room_id(s@),
{
    proof {
        reveal_strlit("live.bilibili.com/");
    }
    let len = s.unicode_len();
    if len > 0 && all_digits_up_to(s, len) {
        let v = parse_digits_range(s, 0, len);
        proof {
            assert(s@.subrange(0, s@.len() as int) =~= s@);
            lemma_digits_value_nonneg(s@);
        }
        return positive_only(v);
    }
    let mut i: usize = 0;
    while i < len
        invariant
            0 <= i <= len,
            len == s@.len(),
            !(s@.len() > 0 && all_digits(s@)),
            forall|j: int| 0 <= j < i ==> !marker_match_at(s@, j),
        decreases len - i,
    {
        proof {
            reveal_strlit("live.bilibili.com/");
        }
        if has_lit_at(s, i, "live.bilibili.com/") {
            let k = i + 18;
            if k < len && digit_check(s.get_char(k)) {
                proof {
                    lemma_first_marker_skip(s@, i as int);
                    assert(first_marker_from(s@, 0) == Some(i as int));
                }
                let mut e: usize = k;
                while e < len && digit_check(s.get_char(e))
                    invariant
                        k <= e <= len,
                        len == s@.len(),
                        forall|q: int| k <= q < e ==> is_digit(s@[q]),
                    decreases len - e,
                {
                    e = e + 1;
                }
                proof {
                    assert(e > k);
                    lemma_digit_run(s@, k as int, e as int);
                    let sub = s@.subrange(k as int, e as int);
                    assert(forall|q: int| 0 <= q < sub.len() ==> sub[q] == s@[k + q]);
                    assert(all_digits(sub));
                    assert(sub.len() > 0);
                    lemma_digits_value_nonneg(sub);
                }
                let v = parse_digits_range(s, k, e);
                return positive_only(v);
            }
        }
        i = i + 1;
    }
    proof {
        lemma_first_marker_skip(s@, len as int);
    }
    None
}

/// Every character of `s` before `len` is a digit.
fn all_digits_up_to(s: &str, len: usize) -> (r: bool)
    requires
        len == s@.len(),
    ensures
        r == all_digits(s@),
{
    let mut i: usize = 0;
    while i < len
        invariant
            0 <= i <= len,
            len == s@.len(),
            forall|j: int| 0 <= j < i ==> is_digit(s@[j]),
        decreases len - i,
    {
        if !digit_check(s.get_char(i)) {
            return false;
        }
        i = i + 1;
    }
    true
}

/// Keep only a positive id.
fn positive_only(v: Option<u32>) -> (r: Option<u32>)
    ensures
        r == match v {
            Some(n) => if n > 0 {
                Some(n)
            } else {
                None::<u32>
            },
            None => None::<u32>,
        },
{
    match v {
        Some(n) => if n > 0 {
            Some(n)
        } else {
            None
        },
        None => None,
    }
}

} // verus!
