//! Plain searches over text, spelled out character by character: whether
//! a string holds a given character, and whether it holds a given
//! substring. The listing filter and the argument validators build on
//! these.

use vstd::prelude::*;

verus! {

pub open spec fn spec_contains_char(s: Seq<char>, c: char) -> bool {
    exists|i: int| 0 <= i < s.len() && s[i] == c
}

/// Whether `needle` occurs in `hay` starting at position `i`.
pub open spec fn spec_matches_at(hay: Seq<char>, needle: Seq<char>, i: int) -> bool {
    hay.subrange(i, i + needle.len()) == needle
}

pub open spec fn spec_contains(hay: Seq<char>, needle: Seq<char>) -> bool {
    exists|i: int| 0 <= i <= hay.len() - needle.len() && spec_matches_at(hay, needle, i)
}

/// Whether the string holds the character anywhere.
pub fn contains_char(s: &str, c: char) -> (r: bool)
    ensures
        r == spec_contains_char(s@, c),
{
    let n = s.unicode_len();
    let mut i: usize = 0;
    while i < n
        invariant
            n == s@.len(),
            i <= n,
            forall|j: int| 0 <= j < i ==> s@[j] != c,
        decreases n - i,
    {
        if s.get_char(i) == c {
            return true;
        }
        i = i + 1;
    }
    false
}

/// Whether `needle` stands in `hay` at position `i` exactly.
fn matches_at(hay: &str, needle: &str, i: usize) -> (r: bool)
    requires
        i + needle@.len() <= hay@.len(),
    ensures
        r == spec_matches_at(hay@, needle@, i as int),
{
    let h = hay.unicode_len();
    let n = needle.unicode_len();
    let mut k: usize = 0;
    while k < n
        invariant
            h == hay@.len(),
            n == needle@.len(),
            i + n <= h,
            k <= n,
            forall|t: int| 0 <= t < k ==> hay@[i + t] == needle@[t],
        decreases n - k,
    {
        if hay.get_char(i + k) != needle.get_char(k) {
            proof {
                assert(hay@.subrange(i as int, i + n)[k as int] == hay@[i + k]);
            }
            return false;
        }
        k = k + 1;
    }
    proof {
        assert(hay@.subrange(i as int, i + n) =~= needle@);
    }
    true
}

/// Whether `needle` occurs anywhere in `hay`.
pub fn contains_substring(hay: &str, needle: &str) -> (r: bool)
    ensures
        r == spec_contains(hay@, needle@),
{
    let h = hay.unicode_len();
    let n = needle.unicode_len();
    if n > h {
        return false;
    }
    if n == 0 {
        proof {
            assert(spec_matches_at(hay@, needle@, 0)) by {
                assert(hay@.subrange(0, 0) =~= needle@);
            }
        }
        return true;
    }
    let mut i: usize = 0;
    while i <= h - n
        invariant
            h == hay@.len(),
            n == needle@.len(),
            1 <= n <= h,
            i <= h - n + 1,
            forall|j: int| 0 <= j < i ==> !spec_matches_at(hay@, needle@, j),
        decreases h - n - i + 1,
    {
        if matches_at(hay, needle, i) {
            return true;
        }
        i = i + 1;
    }
    false
}

} // verus!
