//! Case-insensitive title search.
//!
//! Chart titles are searched the way the datastore's case-insensitive
//! pattern match treats a `%keyword%` pattern, folding ASCII letters only: a
//! title matches when it contains the keyword anywhere, comparing characters
//! after mapping `A`..`Z` onto `a`..`z`.

use vstd::prelude::*;

verus! {

/// A character's code point with ASCII upper-case letters folded onto their
/// lower-case counterparts.
pub open spec fn fold_char(c: char) -> u32 {
    if 65 <= c as u32 <= 90 {
        (c as u32 + 32) as u32
    } else {
        c as u32
    }
}

/// Whether the needle matches the haystack character by character, folded,
/// starting at position `k`.
pub open spec fn ci_match_at(hay: Seq<char>, needle: Seq<char>, k: int) -> bool {
    forall|j: int| 0 <= j < needle.len() ==> fold_char(hay[k + j]) == fold_char(needle[j])
}

/// Whether the haystack contains the needle anywhere, case-insensitively
/// over ASCII letters. An empty needle is contained in everything.
pub open spec fn contains_ci(hay: Seq<char>, needle: Seq<char>) -> bool {
    exists|k: int| 0 <= k <= hay.len() - needle.len() && ci_match_at(hay, needle, k)
}

/// Whether two characters agree after ASCII case folding.
fn chars_fold_equal(a: char, b: char) -> (r: bool)
    ensures
        r == (fold_char(a) == fold_char(b)),
{
    let av = a as u32;
    let bv = b as u32;
    let af: u32 = if 65 <= av && av <= 90 {
        av + 32
    } else {
        av
    };
    let bf: u32 = if 65 <= bv && bv <= 90 {
        bv + 32
    } else {
        bv
    };
    af == bf
}

/// Whether `hay` contains `needle`, comparing ASCII letters without regard
/// to case.
pub fn str_contains_ci(hay: &str, needle: &str) -> (r: bool)
    ensures
        r == contains_ci(hay@, needle@),
{
    let hay_len = hay.unicode_len();
    let needle_len = needle.unicode_len();
    if needle_len > hay_len {
        assert(!contains_ci(hay@, needle@));
        return false;
    }
    let last_start = hay_len - needle_len;
    let mut k: usize = 0;
    while k <= last_start
        invariant
            hay_len == hay@.len(),
            needle_len == needle@.len(),
            needle_len <= hay_len,
            last_start == hay_len - needle_len,
            k <= last_start + 1,
            forall|p: int| 0 <= p < k ==> !ci_match_at(hay@, needle@, p),
        decreases last_start + 1 - k,
    {
        let mut j: usize = 0;
        let mut mismatched = false;
        while j < needle_len
            invariant
                hay_len == hay@.len(),
                needle_len == needle@.len(),
                needle_len <= hay_len,
                k <= hay_len - needle_len,
                j <= needle_len,
                !mismatched ==> forall|q: int|
                    0 <= q < j ==> fold_char(hay@[k + q]) == fold_char(needle@[q]),
                mismatched ==> !ci_match_at(hay@, needle@, k as int),
            decreases needle_len - j,
        {
            if !chars_fold_equal(hay.get_char(k + j), needle.get_char(j)) {
                proof {
                    assert(fold_char(hay@[k as int + j as int]) != fold_char(needle@[j as int]));
                }
                mismatched = true;
            }
            j = j + 1;
        }
        if !mismatched {
            proof {
                assert(ci_match_at(hay@, needle@, k as int));
            }
            return true;
        }
        k = k + 1;
    }
    proof {
        assert forall|p: int| 0 <= p <= hay@.len() - needle@.len() implies !ci_match_at(
            hay@,
            needle@,
            p,
        ) by {
            assert(p < k);
        }
    }
    false
}

} // verus!
