//! Verified string comparison and substring search, plus the lowercasing
//! call that MIME types and extensions go through before classification.

use vstd::prelude::*;
use vstd::string::StrSliceExecFns;

verus! {

/// What `str::to_lowercase` returns; the result depends on the characters
/// alone.
pub uninterp spec fn lower_of(s: Seq<char>) -> Seq<char>;

/// Every character is ASCII and none is an uppercase ASCII letter, so
/// lowercasing maps the string to itself.
pub open spec fn ascii_lowercase(s: Seq<char>) -> bool {
    forall|i: int|
        0 <= i < s.len() ==> ((#[trigger] s[i]) as u32) < 128 && !(65 <= s[i] as u32 && s[i] as u32
            <= 90)
}

/// Relies on str::to_lowercase: Unicode lowercasing of every character; an
/// ASCII string without uppercase letters has no lowercase mappings and is
/// returned unchanged.
#[verifier::external_body]
pub fn to_lower(s: &str) -> (r: String)
    ensures
        r@ == lower_of(s@),
        ascii_lowercase(s@) ==> r@ == s@,
{
    s.to_lowercase()
}

/// The characters of `sub` appear in `s` starting at position `i`.
pub open spec fn match_at(s: Seq<char>, sub: Seq<char>, i: int) -> bool {
    forall|k: int| 0 <= k < sub.len() ==> s[i + k] == sub[k]
}

/// `sub` occurs contiguously somewhere in `s`.
pub open spec fn contains_seq(s: Seq<char>, sub: Seq<char>) -> bool {
    exists|i: int| 0 <= i && i + sub.len() <= s.len() && #[trigger] match_at(s, sub, i)
}

pub fn str_eq(a: &str, b: &str) -> (r: bool)
    ensures
        r == (a@ == b@),
{
    let n: usize = a.unicode_len();
    if n != b.unicode_len() {
        return false;
    }
    let mut i: usize = 0;
    while i < n
        invariant
            n == a@.len(),
            n == b@.len(),
            0 <= i <= n,
            forall|j: int| 0 <= j < i ==> a@[j] == b@[j],
        decreases n - i,
    {
        if a.get_char(i) != b.get_char(i) {
            return false;
        }
        i += 1;
    }
    proof {
        assert(a@ =~= b@);
    }
    true
}

fn str_match_at(s: &str, sub: &str, i: usize) -> (r: bool)
    requires
        i + sub@.len() <= s@.len(),
    ensures
        r == match_at(s@, sub@, i as int),
{
    let n: usize = s.unicode_len();
    let m: usize = sub.unicode_len();
    let mut k: usize = 0;
    while k < m
        invariant
            i + m <= n,
            n == s@.len(),
            m == sub@.len(),
            0 <= k <= m,
            forall|j: int| 0 <= j < k ==> s@[i + j] == sub@[j],
        decreases m - k,
    {
        if s.get_char(i + k) != sub.get_char(k) {
            return false;
        }
        k += 1;
    }
    true
}

pub fn str_contains(s: &str, sub: &str) -> (r: bool)
    ensures
        r == contains_seq(s@, sub@),
{
    let n: usize = s.unicode_len();
    let m: usize = sub.unicode_len();
    if m > n {
        return false;
    }
    let mut i: usize = 0;
    while i <= n - m
        invariant
            m <= n,
            n == s@.len(),
            m == sub@.len(),
            0 <= i <= n - m + 1,
            forall|j: int| 0 <= j < i ==> !#[trigger] match_at(s@, sub@, j),
        decreases n - i,
    {
        if str_match_at(s, sub, i) {
            return true;
        }
        i += 1;
    }
    false
}

} // verus!
