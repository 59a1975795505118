//! A searcher that prepares the word pattern of its byte once and reuses it for every search.

use vstd::prelude::*;
use crate::memchr_new::{memchr_naive, memchr_with_word, memrchr_with_word, WORD_BYTES};
use crate::num::repeat_u8;
use crate::search::{finds_first, finds_last};
use crate::word::byte_of;

verus! {

/// Searches byte slices for one byte, held as a word whose every byte is that byte.
pub struct Finder(u64);

proof fn lemma_low_byte(w: u64)
    by (bit_vector)
    ensures
        byte_of(w, 0) == w as u8,
{
}

impl View for Finder {
    type V = u8;

    /// The byte that this finder searches for.
    closed spec fn view(&self) -> u8 {
        self.0 as u8
    }
}

impl Finder {
    #[verifier::type_invariant]
    spec fn every_byte_is_the_needle(self) -> bool {
        forall|k: int| 0 <= k < 8 ==> #[trigger] byte_of(self.0, k) == self.0 as u8
    }

    /// The word that this finder holds.
    pub closed spec fn word(self) -> u64 {
        self.0
    }

    /// A finder for the byte `x`, holding the word whose every byte is `x`.
    pub fn new(x: u8) -> (f: Self)
        ensures
            f@ == x,
            forall|k: int| 0 <= k < 8 ==> #[trigger] byte_of(f.word(), k) == x,
    {
        let r = repeat_u8(x);
        proof {
            lemma_low_byte(r);
            assert(byte_of(r, 0) == x);
        }
        Finder(r)
    }

    /// The first index of this finder's byte in `text`, or `None` when it does not occur.
    pub fn find_first(&self, text: &[u8]) -> (r: Option<usize>)
        ensures
            finds_first(text@, self@, r),
    {
        proof {
            use_type_invariant(self);
        }
        let x = self.0 as u8;
        if text.len() < 2 * WORD_BYTES {
            return memchr_naive(x, text);
        }
        memchr_with_word(x, self.0, text, 0)
    }

    /// The last index of this finder's byte in `text`, or `None` when it does not occur.
    pub fn find_last(&self, text: &[u8]) -> (r: Option<usize>)
        ensures
            finds_last(text@, self@, r),
    {
        proof {
            use_type_invariant(self);
        }
        let x = self.0 as u8;
        memrchr_with_word(x, self.0, text, 0)
    }
}

} // verus!
