//! Spec-level vocabulary for character and substring occurrences.
//!
//! All positions are character indices into the haystack's character
//! sequence (a `Seq<char>`), never byte offsets.

use vstd::prelude::*;

verus! {

/// The character `c` occurs in `h` at index `i`.
pub open spec fn char_at(h: Seq<char>, c: char, i: int) -> bool {
    0 <= i < h.len() && h[i] == c
}

/// `i` is the leftmost index at which `c` occurs in `h`.
pub open spec fn is_first_char(h: Seq<char>, c: char, i: int) -> bool {
    char_at(h, c, i) && forall|j: int| 0 <= j < i ==> h[j] != c
}

/// `i` is the rightmost index at which `c` occurs in `h`.
pub open spec fn is_last_char(h: Seq<char>, c: char, i: int) -> bool {
    char_at(h, c, i) && forall|j: int| i < j < h.len() ==> h[j] != c
}

/// The needle `n` occurs in `h` starting at index `i`.
pub open spec fn matches_at(h: Seq<char>, n: Seq<char>, i: int) -> bool {
    0 <= i && i + n.len() <= h.len() && h.subrange(i, i + n.len()) == n
}

/// The needle `n` occurs somewhere in `h`.
pub open spec fn occurs(h: Seq<char>, n: Seq<char>) -> bool {
    exists|i: int| matches_at(h, n, i)
}

/// `i` is the leftmost start index of an occurrence of `n` in `h`.
pub open spec fn is_first_match(h: Seq<char>, n: Seq<char>, i: int) -> bool {
    matches_at(h, n, i) && forall|j: int| 0 <= j < i ==> !matches_at(h, n, j)
}

/// `i` is the rightmost start index of an occurrence of `n` in `h`.
pub open spec fn is_last_match(h: Seq<char>, n: Seq<char>, i: int) -> bool {
    matches_at(h, n, i) && forall|j: int| j > i ==> !matches_at(h, n, j)
}

/// Splitting a text at an in-range index partitions it: the left half
/// holds exactly `i` characters, and the two halves concatenate back
/// to the whole text.
pub proof fn lemma_split_round_trip(h: Seq<char>, i: int)
    requires
        0 <= i < h.len(),
    ensures
        h.subrange(0, i) + h.subrange(i, h.len() as int) == h,
        h.subrange(0, i).len() == i,
{
    assert(h.subrange(0, i) + h.subrange(i, h.len() as int) =~= h);
}

/// The leftmost occurrence of a character is unique.
pub proof fn lemma_first_char_unique(h: Seq<char>, c: char, i: int, j: int)
    requires
        is_first_char(h, c, i),
        is_first_char(h, c, j),
    ensures
        i == j,
{
}

/// The leftmost occurrence of a needle is unique.
pub proof fn lemma_first_match_unique(h: Seq<char>, n: Seq<char>, i: int, j: int)
    requires
        is_first_match(h, n, i),
        is_first_match(h, n, j),
    ensures
        i == j,
{
}

} // verus!
