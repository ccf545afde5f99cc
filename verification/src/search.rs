//! Byte searches, with the facts about them that the scanner relies on.

use vstd::prelude::*;
use vstd::slice::slice_subrange;

verus! {

/// The first position at or after `from` that holds `a`, `b` or `c`, or the
/// length of `s` if there is none.
pub open spec fn next_of(s: Seq<u8>, from: int, a: u8, b: u8, c: u8) -> int
    decreases s.len() - from,
{
    if from < 0 || from >= s.len() {
        s.len() as int
    } else if s[from] == a || s[from] == b || s[from] == c {
        from
    } else {
        next_of(s, from + 1, a, b, c)
    }
}

/// The first position at or after `from` that holds `a`, or the length of
/// `s` if there is none.
pub open spec fn next_byte(s: Seq<u8>, from: int, a: u8) -> int {
    next_of(s, from, a, a, a)
}

/// `memchr::memchr` returns the index of the first byte of the haystack that
/// equals the needle, or `None` if no byte does.
pub assume_specification[ memchr::memchr ](needle: u8, haystack: &[u8]) -> (r: Option<usize>)
    ensures
        match r {
            Some(i) => i < haystack@.len() && haystack@[i as int] == needle && forall|j: int|
                0 <= j < i ==> haystack@[j] != needle,
            None => forall|j: int| 0 <= j < haystack@.len() ==> haystack@[j] != needle,
        },
;

/// `memchr::memchr2` returns the index of the first byte of the haystack
/// that equals one of the two needles, or `None` if no byte does.
pub assume_specification[ memchr::memchr2 ](needle1: u8, needle2: u8, haystack: &[u8]) -> (r:
    Option<usize>)
    ensures
        match r {
            Some(i) => i < haystack@.len() && (haystack@[i as int] == needle1 || haystack@[i as int]
                == needle2) && forall|j: int|
                0 <= j < i ==> haystack@[j] != needle1 && haystack@[j] != needle2,
            None => forall|j: int|
                0 <= j < haystack@.len() ==> haystack@[j] != needle1 && haystack@[j] != needle2,
        },
;

/// `memchr::memchr3` returns the index of the first byte of the haystack
/// that equals one of the three needles, or `None` if no byte does.
pub assume_specification[ memchr::memchr3 ](
    needle1: u8,
    needle2: u8,
    needle3: u8,
    haystack: &[u8],
) -> (r: Option<usize>)
    ensures
        match r {
            Some(i) => i < haystack@.len() && (haystack@[i as int] == needle1 || haystack@[i as int]
                == needle2 || haystack@[i as int] == needle3) && forall|j: int|
                0 <= j < i ==> haystack@[j] != needle1 && haystack@[j] != needle2 && haystack@[j]
                    != needle3,
            None => forall|j: int|
                0 <= j < haystack@.len() ==> haystack@[j] != needle1 && haystack@[j] != needle2
                    && haystack@[j] != needle3,
        },
;

/// A position that holds one of the bytes, with none of them before it, is
/// the one that `next_of` names.
pub proof fn lemma_next_of_is_first(s: Seq<u8>, from: int, r: int, a: u8, b: u8, c: u8)
    requires
        0 <= from <= r <= s.len(),
        forall|j: int| from <= j < r ==> s[j] != a && s[j] != b && s[j] != c,
        r < s.len() ==> s[r] == a || s[r] == b || s[r] == c,
    ensures
        next_of(s, from, a, b, c) == r,
    decreases r - from,
{
    if from < r {
        lemma_next_of_is_first(s, from + 1, r, a, b, c);
    }
}

/// `next_of` stays within the input and lands on one of the bytes, unless it
/// ran to the end.
pub proof fn lemma_next_of_bounds(s: Seq<u8>, from: int, a: u8, b: u8, c: u8)
    requires
        0 <= from <= s.len(),
    ensures
        from <= next_of(s, from, a, b, c) <= s.len(),
        next_of(s, from, a, b, c) < s.len() ==> {
            let x = s[next_of(s, from, a, b, c)];
            x == a || x == b || x == c
        },
    decreases s.len() - from,
{
    if from < s.len() && !(s[from] == a || s[from] == b || s[from] == c) {
        lemma_next_of_bounds(s, from + 1, a, b, c);
    }
}

/// None of the bytes stands before the position that `next_of` names.
pub proof fn lemma_next_of_skips(s: Seq<u8>, from: int, a: u8, b: u8, c: u8)
    requires
        0 <= from <= s.len(),
    ensures
        forall|k: int|
            from <= k < next_of(s, from, a, b, c) ==> s[k] != a && s[k] != b && s[k] != c,
    decreases s.len() - from,
{
    if from < s.len() && !(s[from] == a || s[from] == b || s[from] == c) {
        lemma_next_of_skips(s, from + 1, a, b, c);
    }
}

/// Finds the first `a` at or after `from`.
pub fn find_byte(bytes: &[u8], from: usize, a: u8) -> (r: usize)
    requires
        from <= bytes@.len(),
    ensures
        r == next_byte(bytes@, from as int, a),
        from <= r <= bytes@.len(),
{
    let rest = slice_subrange(bytes, from, bytes.len());
    let r = match memchr::memchr(a, rest) {
        Some(i) => from + i,
        None => bytes.len(),
    };
    proof {
        assert forall|j: int| from <= j < r implies bytes@[j] != a by {
            assert(rest@[j - from] == bytes@[j]);
        }
        lemma_next_of_is_first(bytes@, from as int, r as int, a, a, a);
    }
    r
}

/// Finds the first `a` or `b` at or after `from`.
pub fn find_byte2(bytes: &[u8], from: usize, a: u8, b: u8) -> (r: usize)
    requires
        from <= bytes@.len(),
    ensures
        r == next_of(bytes@, from as int, a, b, b),
        from <= r <= bytes@.len(),
{
    let rest = slice_subrange(bytes, from, bytes.len());
    let r = match memchr::memchr2(a, b, rest) {
        Some(i) => from + i,
        None => bytes.len(),
    };
    proof {
        assert forall|j: int| from <= j < r implies bytes@[j] != a && bytes@[j] != b by {
            assert(rest@[j - from] == bytes@[j]);
        }
        lemma_next_of_is_first(bytes@, from as int, r as int, a, b, b);
    }
    r
}

/// Finds the first `a`, `b` or `c` at or after `from`.
pub fn find_byte3(bytes: &[u8], from: usize, a: u8, b: u8, c: u8) -> (r: usize)
    requires
        from <= bytes@.len(),
    ensures
        r == next_of(bytes@, from as int, a, b, c),
        from <= r <= bytes@.len(),
{
    let rest = slice_subrange(bytes, from, bytes.len());
    let r = match memchr::memchr3(a, b, c, rest) {
        Some(i) => from + i,
        None => bytes.len(),
    };
    proof {
        assert forall|j: int| from <= j < r implies bytes@[j] != a && bytes@[j] != b && bytes@[j]
            != c by {
            assert(rest@[j - from] == bytes@[j]);
        }
        lemma_next_of_is_first(bytes@, from as int, r as int, a, b, c);
    }
    r
}

} // verus!
