//! Byte-level text helpers: substring search and ASCII-case-insensitive
//! comparison, used by the query engine.

use vstd::prelude::*;
use vstd::string::StringSliceAdditionalSpecFns;

verus! {

/// The ASCII lowercase of one byte.
pub open spec fn lower_byte(b: u8) -> u8 {
    if 65 <= b <= 90 {
        (b + 32) as u8
    } else {
        b
    }
}

/// The ASCII lowercase of a byte string.
pub open spec fn lower_bytes(s: Seq<u8>) -> Seq<u8> {
    s.map_values(|b: u8| lower_byte(b))
}

/// Whether `needle` occurs as a contiguous run inside `hay`.
pub open spec fn spec_contains_bytes(hay: Seq<u8>, needle: Seq<u8>) -> bool {
    exists|i: int|
        0 <= i <= hay.len() - needle.len() && #[trigger] hay.subrange(i, i + needle.len())
            == needle
}

/// ASCII lowercase of one byte.
fn lower_u8(b: u8) -> (r: u8)
    ensures
        r == lower_byte(b),
{
    if 65 <= b && b <= 90 {
        b + 32
    } else {
        b
    }
}

/// Compare two strings byte for byte, ignoring ASCII case.
pub fn eq_ignore_ascii_case(a: &str, b: &str) -> (r: bool)
    ensures
        r == (lower_bytes(a.spec_bytes()) == lower_bytes(b.spec_bytes())),
{
    let ab = a.as_bytes();
    let bb = b.as_bytes();
    if ab.len() != bb.len() {
        return false;
    }
    let n = ab.len();
    let mut i: usize = 0;
    while i < n
        invariant
            i <= n,
            n == ab@.len() == bb@.len(),
            ab@ == a.spec_bytes(),
            bb@ == b.spec_bytes(),
            forall|j: int|
                0 <= j < i ==> lower_byte(ab@[j]) == lower_byte(bb@[j]),
        decreases n - i,
    {
        if lower_u8(ab[i]) != lower_u8(bb[i]) {
            proof {
                assert(lower_bytes(ab@)[i as int] != lower_bytes(bb@)[i as int]);
            }
            return false;
        }
        i = i + 1;
    }
    proof {
        assert(lower_bytes(ab@) =~= lower_bytes(bb@));
    }
    true
}

/// Whether `needle` occurs inside `hay`, byte for byte.
pub fn contains_bytes(hay: &[u8], needle: &[u8]) -> (r: bool)
    ensures
        r == spec_contains_bytes(hay@, needle@),
{
    let n = needle.len();
    let m = hay.len();
    if n > m {
        return false;
    }
    if n == 0 {
        proof {
            assert(spec_contains_bytes(hay@, needle@)) by {
                assert(hay@.subrange(0, 0 + needle@.len() as int) =~= needle@);
            }
        }
        return true;
    }
    let mut i: usize = 0;
    while i <= m - n
        invariant
            n <= m,
            n >= 1,
            n == needle@.len(),
            m == hay@.len(),
            i <= m - n + 1,
            forall|w: int|
                0 <= w < i ==> #[trigger] hay@.subrange(w, w + needle@.len()) != needle@,
        decreases m - n + 1 - i,
    {
        let mut j: usize = 0;
        let mut matched = true;
        while j < n && matched
            invariant
                i <= m - n,
                n <= m,
                n == needle@.len(),
                m == hay@.len(),
                j <= n,
                matched ==> forall|q: int| 0 <= q < j ==> hay@[i + q] == needle@[q],
                !matched ==> hay@.subrange(i as int, i + needle@.len()) != needle@,
            decreases (if matched {
                1int
            } else {
                0int
            }), n - j,
        {
            if hay[i + j] != needle[j] {
                proof {
                    assert(hay@.subrange(i as int, i + needle@.len())[j as int] != needle@[
                        j as int
                    ]);
                }
                matched = false;
            } else {
                j = j + 1;
            }
        }
        if matched {
            proof {
                assert(hay@.subrange(i as int, i + needle@.len()) =~= needle@);
            }
            return true;
        }
        i = i + 1;
    }
    proof {
        assert(!spec_contains_bytes(hay@, needle@));
    }
    false
}

/// Whether the text `needle` occurs inside `hay`.
pub fn str_contains(hay: &str, needle: &str) -> (r: bool)
    ensures
        r == spec_contains_bytes(hay.spec_bytes(), needle.spec_bytes()),
{
    contains_bytes(hay.as_bytes(), needle.as_bytes())
}

} // verus!
