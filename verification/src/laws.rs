//! Properties of the searches and of the word tests that hold for all inputs.

use vstd::prelude::*;
use crate::search::{finds_first, finds_last};
use crate::word::{byte_of, classic_spec, fix_spec};

verus! {

/// A forward search has exactly one correct answer: any two functions whose results meet
/// `finds_first` for the same bytes and the same needle (`memchr`, the byte-by-byte search,
/// a `Finder`) give the same result.
pub proof fn lemma_finds_first_unique(s: Seq<u8>, x: u8, r1: Option<usize>, r2: Option<usize>)
    requires
        finds_first(s, x, r1),
        finds_first(s, x, r2),
    ensures
        r1 == r2,
{
    match (r1, r2) {
        (Some(i), Some(j)) => {
            if i < j {
                assert(s[i as int] == x);
            } else if j < i {
                assert(s[j as int] == x);
            }
        },
        (Some(i), None) => {
            assert(s[i as int] == x);
        },
        (None, Some(j)) => {
            assert(s[j as int] == x);
        },
        (None, None) => {},
    }
}

/// A backward search has exactly one correct answer.
pub proof fn lemma_finds_last_unique(s: Seq<u8>, x: u8, r1: Option<usize>, r2: Option<usize>)
    requires
        finds_last(s, x, r1),
        finds_last(s, x, r2),
    ensures
        r1 == r2,
{
    match (r1, r2) {
        (Some(i), Some(j)) => {
            if i < j {
                assert(s[j as int] == x);
            } else if j < i {
                assert(s[i as int] == x);
            }
        },
        (Some(i), None) => {
            assert(s[i as int] == x);
        },
        (None, Some(j)) => {
            assert(s[j as int] == x);
        },
        (None, None) => {},
    }
}

/// The forward and the backward search agree on whether the needle occurs, and the first
/// occurrence never comes after the last one.
pub proof fn lemma_first_not_after_last(s: Seq<u8>, x: u8, first: Option<usize>, last: Option<usize>)
    requires
        finds_first(s, x, first),
        finds_last(s, x, last),
    ensures
        first is None <==> last is None,
        first matches Some(i) ==> last matches Some(j) && i <= j,
{
    match (first, last) {
        (Some(i), Some(j)) => {
            if j < i {
                assert(s[j as int] == x);
            }
        },
        (Some(i), None) => {
            assert(s[i as int] == x);
        },
        (None, Some(j)) => {
            assert(s[j as int] == x);
        },
        (None, None) => {},
    }
}

proof fn lemma_marks_bits(v: u64, k: u64)
    by (bit_vector)
    requires
        k < 8,
    ensures
        ((fix_spec(v) >> (8 * k + 7)) & 1 == 1) == (byte_of(v, k as int) == 0),
        byte_of(v, k as int) == 0 ==> (classic_spec(v) >> (8 * k + 7)) & 1 == 1,
        fix_spec(v) & classic_spec(v) == fix_spec(v),
        fix_spec(v) & 0x7f7f_7f7f_7f7f_7f7fu64 == 0,
        classic_spec(v) & 0x7f7f_7f7f_7f7f_7f7fu64 == 0,
{
}

/// The classic test marks the top bit of every zero byte (it has no false negatives); the
/// borrow correction keeps exactly those marks and clears the others, so that the corrected
/// value marks the zero bytes and nothing else.
pub proof fn lemma_zero_byte_marks(v: u64)
    ensures
        forall|k: int| 0 <= k < 8 && #[trigger] byte_of(v, k) == 0
            ==> (classic_spec(v) >> ((8 * k + 7) as u64)) & 1 == 1,
        forall|k: int| 0 <= k < 8
            ==> (((fix_spec(v) >> ((8 * k + 7) as u64)) & 1 == 1) == (#[trigger] byte_of(v, k) == 0)),
        fix_spec(v) & classic_spec(v) == fix_spec(v),
        fix_spec(v) & 0x7f7f_7f7f_7f7f_7f7fu64 == 0,
        classic_spec(v) & 0x7f7f_7f7f_7f7f_7f7fu64 == 0,
{
    lemma_marks_bits(v, 0);
    assert forall|k: int| 0 <= k < 8
        implies (((fix_spec(v) >> ((8 * k + 7) as u64)) & 1 == 1) == (#[trigger] byte_of(v, k) == 0))
            && (byte_of(v, k) == 0 ==> (classic_spec(v) >> ((8 * k + 7) as u64)) & 1 == 1) by {
        lemma_marks_bits(v, k as u64);
    }
}

proof fn lemma_equal_bytes(a: u64, b: u64)
    by (bit_vector)
    requires
        byte_of(a, 0) == byte_of(b, 0),
        byte_of(a, 1) == byte_of(b, 1),
        byte_of(a, 2) == byte_of(b, 2),
        byte_of(a, 3) == byte_of(b, 3),
        byte_of(a, 4) == byte_of(b, 4),
        byte_of(a, 5) == byte_of(b, 5),
        byte_of(a, 6) == byte_of(b, 6),
        byte_of(a, 7) == byte_of(b, 7),
    ensures
        a == b,
{
}

/// A word is determined by its eight bytes: so the word of `Finder::new(x)` and the result
/// of `repeat_u8(x)`, whose bytes are all `x`, are the same word.
pub proof fn lemma_bytes_determine_word(a: u64, b: u64)
    requires
        forall|k: int| 0 <= k < 8 ==> #[trigger] byte_of(a, k) == byte_of(b, k),
    ensures
        a == b,
{
    assert(byte_of(a, 0) == byte_of(b, 0));
    assert(byte_of(a, 1) == byte_of(b, 1));
    assert(byte_of(a, 2) == byte_of(b, 2));
    assert(byte_of(a, 3) == byte_of(b, 3));
    assert(byte_of(a, 4) == byte_of(b, 4));
    assert(byte_of(a, 5) == byte_of(b, 5));
    assert(byte_of(a, 6) == byte_of(b, 6));
    assert(byte_of(a, 7) == byte_of(b, 7));
    lemma_equal_bytes(a, b);
}

} // verus!
