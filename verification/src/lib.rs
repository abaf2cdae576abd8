//! A small string-manipulation library: substring search (forward and
//! backward) and split operations over UTF-8 text.
//!
//! The central type is [`ZSV`], an immutable wrapper around an owned
//! `String`. Every search result is a character index (not a byte
//! offset), and every bound in the algorithms is expressed in character
//! counts, so the operations behave uniformly on multi-byte text.

use vstd::prelude::*;
use vstd::string::StrSliceExecFns;

pub mod occurrence;

use crate::occurrence::{char_at, is_first_char, is_last_char, matches_at, occurs, is_first_match,
    is_last_match, lemma_first_char_unique, lemma_first_match_unique};

verus! {

/// An immutable text value: one well-formed Unicode string, viewed in
/// specifications as its sequence of characters.
#[derive(Debug, PartialEq)]
pub struct ZSV {
    pub data: String,
}

impl View for ZSV {
    type V = Seq<char>;

    open spec fn view(&self) -> Seq<char> {
        self.data@
    }
}

/// Collects the characters of `s` into a vector, in order.
fn chars_of(s: &str) -> (v: Vec<char>)
    ensures
        v@ == s@,
{
    let n: usize = s.unicode_len();
    let mut v: Vec<char> = Vec::new();
    let mut i: usize = 0;
    while i < n
        invariant
            n == s@.len(),
            i <= n,
            v@ == s@.subrange(0, i as int),
        decreases n - i,
    {
        let c = s.get_char(i);
        v.push(c);
        i += 1;
        proof {
            assert(v@ =~= s@.subrange(0, i as int));
        }
    }
    proof {
        assert(v@ =~= s@);
    }
    v
}

impl ZSV {
    /// Finds the first instance of `f` in the text, and returns either
    /// `Some(index)`, or `None` if the character doesn't exist within
    /// the text.
    pub fn find_char(&self, f: char) -> (r: Option<usize>)
        ensures
            (match r {
                Some(i) => is_first_char(self@, f, i as int),
                None => forall|j: int| !char_at(self@, f, j),
            }),
    {
        let chars = chars_of(self.data.as_str());
        let mut indx: usize = 0;
        while indx < chars.len()
            invariant
                chars@ == self@,
                indx <= chars@.len(),
                forall|j: int| 0 <= j < indx ==> self@[j] != f,
            decreases chars@.len() - indx,
        {
            if chars[indx] == f {
                return Some(indx);
            }
            indx += 1;
        }
        None
    }

    /// Finds the last instance of `f` in the text, and returns either
    /// `Some(index)`, or `None` if the character doesn't exist within
    /// the text.
    ///
    /// Index semantics: the returned index is computed by seeding a
    /// counter with the text's character length and decrementing it once
    /// per character scanned from the end, returning the counter value
    /// before adjusting for the match. So a match at zero-based
    /// character position `p` yields `Some(p + 1)`. This off-by-one is
    /// kept for compatibility; the counter is seeded with the character
    /// length (not the byte length), so multi-byte text counts the same
    /// way as single-byte text.
    pub fn rfind_char(&self, f: char) -> (r: Option<usize>)
        ensures
            (match r {
                Some(i) => 1 <= i <= self@.len() && is_last_char(self@, f, i - 1),
                None => forall|j: int| !char_at(self@, f, j),
            }),
    {
        let chars = chars_of(self.data.as_str());
        let mut indx: usize = chars.len();
        while indx > 0
            invariant
                chars@ == self@,
                indx <= chars@.len(),
                forall|j: int| indx <= j < self@.len() ==> self@[j] != f,
            decreases indx,
        {
            if chars[indx - 1] == f {
                return Some(indx);
            }
            indx -= 1;
        }
        None
    }

    /// Finds the first instance of `f` in the text, and returns either
    /// `Some(index)`, or `None` if the string isn't contained within
    /// the text. If `f` is empty, the result is always `Some(0)`, even
    /// on an empty text.
    pub fn find_string(&self, f: &ZSV) -> (r: Option<usize>)
        ensures
            f@.len() == 0 ==> r == Some(0usize),
            f@.len() > self@.len() ==> r is None,
            f@.len() > 0 ==> (match r {
                Some(i) => is_first_match(self@, f@, i as int),
                None => !occurs(self@, f@),
            }),
    {
        let h = chars_of(self.data.as_str());
        let n = chars_of(f.data.as_str());
        if n.len() > h.len() {
            return None;
        }
        if n.len() == 0 {
            return Some(0usize);
        }
        let last: usize = h.len() - n.len();
        let mut a: usize = 0;
        while a <= last
            invariant
                h@ == self@,
                n@ == f@,
                0 < n@.len() <= h@.len(),
                last == h@.len() - n@.len(),
                last < usize::MAX,
                a <= last + 1,
                forall|j: int| 0 <= j < a ==> !matches_at(self@, f@, j),
            decreases last + 1 - a,
        {
            if match_at(&h, &n, a) {
                return Some(a);
            }
            a += 1;
        }
        proof {
            assert forall|i: int| !matches_at(self@, f@, i) by {
                if matches_at(self@, f@, i) {
                    assert(0 <= i <= last);
                }
            };
        }
        None
    }

    /// Finds the last instance of `f` in the text, and returns either
    /// `Some(index)`, or `None` if the string isn't contained within
    /// the text. If `f` is empty, the result is always
    /// `Some(char_len - 1)`, the last valid index; if the text itself
    /// is empty, the result is `None`.
    pub fn rfind_string(&self, f: &ZSV) -> (r: Option<usize>)
        ensures
            f@.len() > self@.len() ==> r is None,
            self@.len() == 0 ==> r is None,
            self@.len() > 0 && f@.len() == 0 ==> r == Some((self@.len() - 1) as usize),
            self@.len() > 0 && f@.len() > 0 ==> (match r {
                Some(i) => is_last_match(self@, f@, i as int),
                None => !occurs(self@, f@),
            }),
    {
        let h = chars_of(self.data.as_str());
        let n = chars_of(f.data.as_str());
        if n.len() > h.len() {
            return None;
        }
        if h.len() == 0 {
            return None;
        }
        if n.len() == 0 {
            return Some(h.len() - 1);
        }
        proof {
            assert forall|j: int| h@.len() - n@.len() < j implies !matches_at(self@, f@, j) by {
                if matches_at(self@, f@, j) {
                    assert(j + f@.len() <= self@.len());
                }
            };
        }
        let mut a: usize = h.len() - n.len() + 1;
        while a > 0
            invariant
                h@ == self@,
                n@ == f@,
                0 < n@.len() <= h@.len(),
                a <= h@.len() - n@.len() + 1,
                forall|j: int| a <= j ==> !matches_at(self@, f@, j),
            decreases a,
        {
            let cand: usize = a - 1;
            if match_at(&h, &n, cand) {
                return Some(cand);
            }
            a -= 1;
        }
        proof {
            assert forall|i: int| !matches_at(self@, f@, i) by {
                if matches_at(self@, f@, i) {
                    assert(0 <= i);
                }
            };
        }
        None
    }

    /// Splits the text into a tuple `(a, b)` where `Some(a)` is all
    /// data left of the index `indx`, and `Some(b)` is all data to the
    /// right of and including `indx`. If `indx` is out of range (at or
    /// past the character length), both halves are `None`.
    pub fn split_index(&self, indx: usize) -> (r: (Option<ZSV>, Option<ZSV>))
        ensures
            indx >= self@.len() ==> r.0 is None && r.1 is None,
            indx < self@.len() ==> (r.0 matches Some(l) && l@ == self@.subrange(0, indx as int)),
            indx < self@.len() ==> (r.1 matches Some(rt) && rt@ == self@.subrange(
                indx as int,
                self@.len() as int,
            )),
    {
        let len: usize = self.data.as_str().unicode_len();
        if indx >= len {
            return (None, None);
        }
        let left = ZSV { data: self.data.as_str().substring_char(0, indx).to_owned() };
        let right = ZSV { data: self.data.as_str().substring_char(indx, len).to_owned() };
        (Some(left), Some(right))
    }

    /// Splits the text into a tuple `(a, b)` where `Some(a)` is all
    /// data left of the first instance of the separator character `s`,
    /// and `Some(b)` is all data to the right of and including the
    /// separator. If the separator does not occur, the result is the
    /// whole text as `a` and `None` as `b`.
    pub fn split_char(&self, s: char) -> (r: (Option<ZSV>, Option<ZSV>))
        ensures
            (forall|j: int| !char_at(self@, s, j)) ==> (r.0 matches Some(l) && l@ == self@)
                && r.1 is None,
            forall|i: int|
                is_first_char(self@, s, i) ==> (r.0 matches Some(l) && l@ == self@.subrange(0, i))
                    && (r.1 matches Some(rt) && rt@ == self@.subrange(i, self@.len() as int)),
    {
        if let Some(separator) = self.find_char(s) {
            // `find_char` already guarantees the index is in range;
            // this re-check is kept defensively.
            if separator >= self.data.as_str().unicode_len() {
                return (None, None);
            }
            let r = self.split_index(separator);
            proof {
                assert forall|i: int| is_first_char(self@, s, i) implies (r.0 matches Some(l)
                    && l@ == self@.subrange(0, i)) && (r.1 matches Some(rt) && rt@
                    == self@.subrange(i, self@.len() as int)) by {
                    lemma_first_char_unique(self@, s, i, separator as int);
                };
            }
            return r;
        } else {
            return (Some(self.clone()), None);
        }
    }

    /// Splits the text into a tuple `(a, b)` around the first instance
    /// of the string `s`, as `split_index` applied to the result of
    /// `find_string`. If `s` does not occur, the result is the whole
    /// text as `a` and `None` as `b`.
    pub fn split_string(&self, s: &ZSV) -> (r: (Option<ZSV>, Option<ZSV>))
        ensures
            s@.len() == 0 && self@.len() == 0 ==> r.0 is None && r.1 is None,
            s@.len() == 0 && self@.len() > 0 ==> (r.0 matches Some(l)
                && l@ == Seq::<char>::empty()) && (r.1 matches Some(rt) && rt@ == self@),
            s@.len() > 0 && !occurs(self@, s@) ==> (r.0 matches Some(l) && l@ == self@)
                && r.1 is None,
            s@.len() > 0 ==> forall|i: int|
                is_first_match(self@, s@, i) ==> (r.0 matches Some(l) && l@ == self@.subrange(0, i))
                    && (r.1 matches Some(rt) && rt@ == self@.subrange(i, self@.len() as int)),
    {
        if let Some(indx) = self.find_string(s) {
            let r = self.split_index(indx);
            proof {
                if s@.len() == 0 && self@.len() > 0 {
                    assert(self@.subrange(0, 0) =~= Seq::<char>::empty());
                    assert(self@.subrange(0, self@.len() as int) =~= self@);
                }
                if s@.len() > 0 {
                    assert forall|i: int| is_first_match(self@, s@, i) implies (r.0 matches Some(l)
                        && l@ == self@.subrange(0, i)) && (r.1 matches Some(rt) && rt@
                        == self@.subrange(i, self@.len() as int)) by {
                        lemma_first_match_unique(self@, s@, i, indx as int);
                    };
                }
            }
            return r;
        } else {
            return (Some(self.clone()), None);
        }
    }

    /// Returns an independent owned copy of the underlying `String`.
    pub fn as_owned_string(&self) -> (r: String)
        ensures
            r@ == self@,
    {
        self.data.clone()
    }
}

impl From<&str> for ZSV {
    /// Constructs a text value owning a copy of the borrowed slice.
    fn from(data: &str) -> (r: ZSV)
        ensures
            r@ == data@,
    {
        ZSV { data: data.to_owned() }
    }
}

impl vstd::std_specs::convert::FromSpecImpl<&str> for ZSV {
    open spec fn obeys_from_spec() -> bool {
        false
    }

    open spec fn from_spec(v: &str) -> ZSV {
        arbitrary()
    }
}

impl From<String> for ZSV {
    /// Constructs a text value taking ownership of the string.
    fn from(data: String) -> (r: ZSV)
        ensures
            r@ == data@,
    {
        ZSV { data }
    }
}

impl vstd::std_specs::convert::FromSpecImpl<String> for ZSV {
    open spec fn obeys_from_spec() -> bool {
        true
    }

    open spec fn from_spec(v: String) -> ZSV {
        ZSV { data: v }
    }
}

impl Clone for ZSV {
    /// Returns an independently owned copy of the text.
    fn clone(&self) -> (r: Self)
        ensures
            r@ == self@,
    {
        ZSV { data: self.data.clone() }
    }
}

/// Reports whether `n` occurs in `h` starting at character index `a`.
fn match_at(h: &Vec<char>, n: &Vec<char>, a: usize) -> (r: bool)
    requires
        a + n@.len() <= h@.len(),
    ensures
        r == matches_at(h@, n@, a as int),
{
    let hlen: usize = h.len();
    let mut b: usize = 0;
    while b < n.len()
        invariant
            hlen == h@.len(),
            a + n@.len() <= h@.len(),
            b <= n@.len(),
            forall|k: int| 0 <= k < b ==> h@[a + k] == n@[k],
        decreases n@.len() - b,
    {
        if h[a + b] != n[b] {
            proof {
                assert(!matches_at(h@, n@, a as int)) by {
                    if matches_at(h@, n@, a as int) {
                        assert(h@.subrange(a as int, a + n@.len())[b as int] == n@[b as int]);
                    }
                };
            }
            return false;
        }
        b += 1;
    }
    proof {
        assert(h@.subrange(a as int, a + n@.len()) =~= n@);
    }
    true
}

} // verus!
