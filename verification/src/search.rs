//! What it means to find a byte in a sequence of bytes.

use vstd::prelude::*;

verus! {

/// `i` is the first position of `x` in `s`.
pub open spec fn is_first_match(s: Seq<u8>, x: u8, i: int) -> bool {
    &&& 0 <= i < s.len()
    &&& s[i] == x
    &&& forall|j: int| 0 <= j < i ==> s[j] != x
}

/// `i` is the last position of `x` in `s`.
pub open spec fn is_last_match(s: Seq<u8>, x: u8, i: int) -> bool {
    &&& 0 <= i < s.len()
    &&& s[i] == x
    &&& forall|j: int| i < j < s.len() ==> s[j] != x
}

/// `r` is what a forward search for `x` in `s` answers: the first position of `x`,
/// or `None` when `x` does not occur.
pub open spec fn finds_first(s: Seq<u8>, x: u8, r: Option<usize>) -> bool {
    match r {
        Some(i) => is_first_match(s, x, i as int),
        None => !s.contains(x),
    }
}

/// `r` is what a backward search for `x` in `s` answers: the last position of `x`,
/// or `None` when `x` does not occur.
pub open spec fn finds_last(s: Seq<u8>, x: u8, r: Option<usize>) -> bool {
    match r {
        Some(i) => is_last_match(s, x, i as int),
        None => !s.contains(x),
    }
}

} // verus!
