//! Character-level string utilities: equality, literal matching at a
//! position, substring search, and stripping of surrounding quote
//! characters.

use vstd::prelude::*;
use vstd::string::StrSliceExecFns;

verus! {

/// The literal `lit` occurs in `s` starting at position `i`.
pub open spec fn matches_lit(s: Seq<char>, i: int, lit: Seq<char>) -> bool {
    0 <= i && i + lit.len() <= s.len() && s.subrange(i, i + lit.len()) == lit
}

/// `needle` occurs somewhere in `hay` as a contiguous substring.
pub open spec fn spec_contains(hay: Seq<char>, needle: Seq<char>) -> bool {
    exists|i: int| matches_lit(hay, i, needle)
}

/// Character-by-character string equality, proved against the views.
pub fn str_eq(a: &str, b: &str) -> (r: bool)
    ensures
        r == (a@ == b@),
{
    let alen = a.unicode_len();
    let blen = b.unicode_len();
    if alen != blen {
        return false;
    }
    let mut i: usize = 0;
    while i < alen
        invariant
            0 <= i <= alen,
            alen == a@.len(),
            alen == b@.len(),
            forall|j: int| 0 <= j < i ==> a@[j] == b@[j],
        decreases alen - i,
    {
        if a.get_char(i) != b.get_char(i) {
            return false;
        }
        i = i + 1;
    }
    proof {
        assert(a@ =~= b@);
    }
    true
}

/// Does the literal `lit` occur in `s` starting at position `i`?
pub fn has_lit_at(s: &str, i: usize, lit: &str) -> (r: bool)
    ensures
        r == matches_lit(s@, i as int, lit@),
{
    let slen = s.unicode_len();
    let llen = lit.unicode_len();
    if i > slen || llen > slen - i {
        return false;
    }
    let mut j: usize = 0;
    while j < llen
        invariant
            0 <= j <= llen,
            i + llen <= slen,
            slen == s@.len(),
            llen == lit@.len(),
            forall|k: int| 0 <= k < j ==> s@[i + k] == lit@[k],
        decreases llen - j,
    {
        if s.get_char(i + j) != lit.get_char(j) {
            proof {
                assert(s@.subrange(i as int, i + lit@.len())[j as int] == s@[i + j]);
            }
            return false;
        }
        j = j + 1;
    }
    proof {
        assert(s@.subrange(i as int, i + lit@.len()) =~= lit@);
    }
    true
}

/// Does `needle` occur anywhere in `hay` as a contiguous substring?
pub fn contains_substr(hay: &str, needle: &str) -> (r: bool)
    ensures
        r == spec_contains(hay@, needle@),
{
    let hlen = hay.unicode_len();
    if has_lit_at(hay, hlen, needle) {
        return true;
    }
    let mut i: usize = 0;
    while i < hlen
        invariant
            0 <= i <= hlen,
            hlen == hay@.len(),
            forall|k: int| 0 <= k < i ==> !matches_lit(hay@, k, needle@),
        decreases hlen - i,
    {
        if has_lit_at(hay, i, needle) {
            return true;
        }
        i = i + 1;
    }
    proof {
        assert(forall|k: int| matches_lit(hay@, k, needle@) ==> 0 <= k <= hay@.len());
    }
    false
}

/// Number of `"` characters at the front of `s`.
pub open spec fn lead_quotes(s: Seq<char>) -> int
    decreases s.len(),
{
    if s.len() > 0 && s[0] == '"' {
        1 + lead_quotes(s.drop_first())
    } else {
        0
    }
}

/// Number of `"` characters at the back of `s`.
pub open spec fn trail_quotes(s: Seq<char>) -> int
    decreases s.len(),
{
    if s.len() > 0 && s.last() == '"' {
        1 + trail_quotes(s.drop_last())
    } else {
        0
    }
}

/// `s` with every leading and trailing `"` character removed; a string of
/// nothing but quotes becomes empty.
pub open spec fn spec_strip_quotes(s: Seq<char>) -> Seq<char> {
    let a = lead_quotes(s);
    let b = trail_quotes(s);
    if a + b <= s.len() {
        s.subrange(a, s.len() - b)
    } else {
        Seq::empty()
    }
}

proof fn lemma_lead_quotes_is_first_non_quote(s: Seq<char>, k: int)
    requires
        0 <= k <= s.len(),
        forall|j: int| 0 <= j < k ==> s[j] == '"',
        k == s.len() || s[k] != '"',
    ensures
        lead_quotes(s) == k,
    decreases s.len(),
{
    if s.len() > 0 && s[0] == '"' {
        lemma_lead_quotes_is_first_non_quote(s.drop_first(), k - 1);
    }
}

proof fn lemma_trail_quotes_is_last_non_quote(s: Seq<char>, k: int)
    requires
        0 <= k <= s.len(),
        forall|j: int| k <= j < s.len() ==> s[j] == '"',
        k == 0 || s[k - 1] != '"',
    ensures
        trail_quotes(s) == s.len() - k,
    decreases s.len(),
{
    if s.len() > 0 && s.last() == '"' {
        lemma_trail_quotes_is_last_non_quote(s.drop_last(), k);
    }
}

/// Strip every leading and trailing `"` character from `s`.
pub fn strip_quotes(s: &str) -> (r: String)
    ensures
        r@ == spec_strip_quotes(s@),
{
    let len = s.unicode_len();
    let mut i: usize = 0;
    while i < len && s.get_char(i) == '"'
        invariant
            0 <= i <= len,
            len == s@.len(),
            forall|j: int| 0 <= j < i ==> s@[j] == '"',
        decreases len - i,
    {
        i = i + 1;
    }
    proof {
        lemma_lead_quotes_is_first_non_quote(s@, i as int);
    }
    let mut j: usize = len;
    while j > i && s.get_char(j - 1) == '"'
        invariant
            i <= j <= len,
            len == s@.len(),
            forall|k: int| j <= k < len ==> s@[k] == '"',
        decreases j,
    {
        j = j - 1;
    }
    if j == i {
        // the whole string is quote characters; the result is empty
        proof {
            lemma_trail_quotes_is_last_non_quote(s@, 0);
        }
        let r = String::new();
        proof {
            assert(r@ =~= spec_strip_quotes(s@));
        }
        r
    } else {
        proof {
            lemma_trail_quotes_is_last_non_quote(s@, j as int);
        }
        let sub = s.substring_char(i, j);
        let r = sub.to_owned();
        proof {
            assert(r@ =~= spec_strip_quotes(s@));
        }
        r
    }
}

} // verus!
