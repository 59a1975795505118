//! Forward and backward search for a byte in a byte slice, two 64-bit words at a time.
//!
//! A word is read from eight consecutive bytes of the slice, the first byte becoming the least
//! significant one. The word is xored with a word whose bytes all equal the needle, so that the
//! matching bytes become zero bytes, which the "has a zero byte" trick then finds.

use vstd::prelude::*;
use vstd::std_specs::bits::{axiom_u64_trailing_zeros, axiom_u64_leading_zeros};
use crate::num::repeat_u8;
use crate::search::{finds_first, finds_last, is_first_match, is_last_match};
use crate::word::{
    byte_of, word_bytes, classic_spec, fix_spec, first_nul_spec, last_nul_spec, compose_spec,
    lemma_compose_bytes, lemma_classic_first_zero, lemma_fix_last_zero, lemma_word_first,
    lemma_word_last, lemma_wrapping_sub_lo, lemma_first_nul_byte, lemma_last_nul_byte,
};

verus! {

/// A word whose every byte is `0x01`.
pub const LO_U64: u64 = 0x0101_0101_0101_0101u64;

/// A word whose every byte is `0x80`.
pub const HI_U64: u64 = 0x8080_8080_8080_8080u64;

/// The number of bytes in a word.
pub const WORD_BYTES: usize = 8;

/// Index of the byte that holds the lowest set bit of `num`: that byte of `num` is nonzero
/// and the bytes below it are zero.
pub fn find_first_nul(num: u64) -> (r: usize)
    requires
        num != 0,
    ensures
        r == first_nul_spec(num),
        r < 8,
        byte_of(num, r as int) != 0,
        forall|j: int| 0 <= j < r ==> #[trigger] byte_of(num, j) == 0,
{
    proof {
        axiom_u64_trailing_zeros(num);
        lemma_first_nul_byte(num);
    }
    let t: u32 = num.trailing_zeros();
    assert(t >> 3u32 == t / 8) by (bit_vector);
    (t >> 3) as usize
}

/// Index of the byte that holds the highest set bit of `num`: that byte of `num` is nonzero
/// and the bytes above it are zero.
pub fn find_last_nul(num: u64) -> (r: usize)
    requires
        num != 0,
    ensures
        r == last_nul_spec(num),
        r < 8,
        byte_of(num, r as int) != 0,
        forall|j: int| r < j < 8 ==> #[trigger] byte_of(num, j) == 0,
{
    proof {
        axiom_u64_leading_zeros(num);
        lemma_last_nul_byte(num);
    }
    let l: u32 = num.leading_zeros();
    assert(l >> 3u32 == l / 8) by (bit_vector);
    WORD_BYTES - 1 - (l >> 3) as usize
}

/// The classic "has a zero byte" test: `None` when `input` has no zero byte, and otherwise
/// a word whose lowest set bit lies in the first zero byte of `input`.
pub fn contains_zero_byte(input: u64) -> (r: Option<u64>)
    ensures
        r == (if classic_spec(input) == 0 { None } else { Some(classic_spec(input)) }),
        r is None <==> !word_bytes(input).contains(0u8),
        r matches Some(c) ==> c != 0 && is_first_match(word_bytes(input), 0u8, first_nul_spec(c)),
{
    proof {
        lemma_classic_first_zero(input);
        lemma_wrapping_sub_lo(input);
    }
    let c = input.wrapping_sub(LO_U64) & !input & HI_U64;
    if c == 0 {
        None
    } else {
        Some(c)
    }
}

/// The "has a zero byte" test with the marks that a borrow leaves above a true zero byte
/// taken out: `None` when `input` has no zero byte, and otherwise a word whose set bits are
/// the top bits of the zero bytes of `input`, so that its highest set bit lies in the last
/// zero byte.
#[must_use]
pub fn contains_zero_byte_borrow_fix(input: u64) -> (r: Option<u64>)
    ensures
        r == (if classic_spec(input) == 0 { None } else { Some(fix_spec(input)) }),
        r is None <==> !word_bytes(input).contains(0u8),
        r matches Some(f) ==> f != 0 && is_last_match(word_bytes(input), 0u8, last_nul_spec(f)),
{
    proof {
        lemma_fix_last_zero(input);
        lemma_wrapping_sub_lo(input);
    }
    // Stage 1: the classic test, for a fast rejection.
    let mut classic = input.wrapping_sub(LO_U64) & !input & HI_U64;
    if classic == 0 {
        return None;
    }
    // Stage 2: a byte whose lowest bit is set is not zero, so its mark came from a borrow.
    classic = classic & (!input << 7u32);
    Some(classic)
}

/// Byte-by-byte forward search.
pub fn memchr_naive(x: u8, text: &[u8]) -> (r: Option<usize>)
    ensures
        finds_first(text@, x, r),
{
    let mut i: usize = 0;
    while i < text.len()
        invariant
            i <= text.len(),
            forall|j: int| 0 <= j < i ==> text@[j] != x,
        decreases text.len() - i,
    {
        if text[i] == x {
            return Some(i);
        }
        i += 1;
    }
    None
}

/// Byte-by-byte backward search.
pub fn memrchr_naive(x: u8, text: &[u8]) -> (r: Option<usize>)
    ensures
        finds_last(text@, x, r),
{
    let mut i: usize = text.len();
    while i > 0
        invariant
            i <= text.len(),
            forall|j: int| i <= j < text.len() ==> text@[j] != x,
        decreases i,
    {
        if text[i - 1] == x {
            return Some(i - 1);
        }
        i -= 1;
    }
    None
}

/// The word made of `text[i .. i + 8]`, the first byte least significant.
pub fn load_word(text: &[u8], i: usize) -> (w: u64)
    requires
        i + 8 <= text.len(),
    ensures
        word_bytes(w) == text@.subrange(i as int, i + 8),
{
    let b0 = text[i] as u64;
    let b1 = text[i + 1] as u64;
    let b2 = text[i + 2] as u64;
    let b3 = text[i + 3] as u64;
    let b4 = text[i + 4] as u64;
    let b5 = text[i + 5] as u64;
    let b6 = text[i + 6] as u64;
    let b7 = text[i + 7] as u64;
    let w = b0 | (b1 << 8u64) | (b2 << 16u64) | (b3 << 24u64) | (b4 << 32u64) | (b5 << 40u64)
        | (b6 << 48u64) | (b7 << 56u64);
    proof {
        lemma_compose_bytes(b0, b1, b2, b3, b4, b5, b6, b7);
        assert(w == compose_spec(b0, b1, b2, b3, b4, b5, b6, b7));
        assert(word_bytes(w) =~= text@.subrange(i as int, i + 8));
    }
    w
}


/// Forward search for `x` in `text`: the first index of `x`, or `None` when `x` does not occur.
#[must_use]
pub fn memchr(x: u8, text: &[u8]) -> (r: Option<usize>)
    ensures
        finds_first(text@, x, r),
{
    // Fast path for small slices.
    if text.len() < 2 * WORD_BYTES {
        return memchr_naive(x, text);
    }
    memchr_aligned(x, text)
}

/// Forward search for `x` in a text of at least two words, reading two words at a time.
pub fn memchr_aligned(x: u8, text: &[u8]) -> (r: Option<usize>)
    requires
        text.len() >= 2 * WORD_BYTES,
    ensures
        finds_first(text@, x, r),
{
    let repeated_x = repeat_u8(x);
    // Words are assembled from bytes, so they need no alignment: the body starts at once.
    memchr_with_word(x, repeated_x, text, 0)
}

/// Forward search for `x`, given the word `repeated_x` whose every byte is `x`, in three
/// parts: a head of `head` bytes (at most the whole text) searched byte by byte, the body
/// searched two words at a time, and the tail of fewer than two words searched byte by byte.
/// The result is the same for every `head`.
pub fn memchr_with_word(x: u8, repeated_x: u64, text: &[u8], head: usize) -> (r: Option<usize>)
    requires
        text.len() >= 2 * WORD_BYTES,
        forall|k: int| 0 <= k < 8 ==> #[trigger] byte_of(repeated_x, k) == x,
    ensures
        finds_first(text@, x, r),
{
    let len = text.len();
    let mut offset: usize = head;
    if offset > 0 {
        if offset > len {
            offset = len;
        }
        let slice = &text[0..offset];
        if let Some(index) = memchr_naive(x, slice) {
            assert(slice@[index as int] == text@[index as int]);
            assert forall|j: int| 0 <= j < index implies text@[j] != x by {
                assert(slice@[j] == text@[j]);
            }
            return Some(index);
        }
        assert forall|j: int| 0 <= j < offset implies text@[j] != x by {
            assert(slice@[j] == text@[j]);
        }
    }
    while offset <= len - 2 * WORD_BYTES
        invariant
            len == text.len(),
            len >= 16,
            offset <= len,
            forall|k: int| 0 <= k < 8 ==> #[trigger] byte_of(repeated_x, k) == x,
            forall|j: int| 0 <= j < offset ==> text@[j] != x,
        decreases len - offset,
    {
        let lower = load_word(text, offset);
        let upper = load_word(text, offset + WORD_BYTES);
        proof {
            lemma_word_first(text@, offset as int, lower, repeated_x, x);
            lemma_word_first(text@, offset + 8, upper, repeated_x, x);
        }
        // The lower word comes first in the text, so it is checked first.
        let maybe_match_lower = contains_zero_byte(lower ^ repeated_x);
        if let Some(lower_valid) = maybe_match_lower {
            let zero_byte_pos = find_first_nul(lower_valid);
            return Some(offset + zero_byte_pos);
        }
        let maybe_match_upper = contains_zero_byte(upper ^ repeated_x);
        if let Some(upper_valid) = maybe_match_upper {
            let zero_byte_pos = find_first_nul(upper_valid);
            return Some(offset + WORD_BYTES + zero_byte_pos);
        }
        offset += WORD_BYTES * 2;
    }
    // Find the byte in the tail if the word loop did not.
    let slice = &text[offset..len];
    match memchr_naive(x, slice) {
        Some(i) => {
            assert(slice@[i as int] == text@[offset + i]);
            assert forall|j: int| 0 <= j < offset + i implies text@[j] != x by {
                if j >= offset {
                    assert(slice@[j - offset] == text@[j]);
                }
            }
            Some(offset + i)
        },
        None => {
            assert forall|j: int| 0 <= j < len implies text@[j] != x by {
                if j >= offset {
                    assert(slice@[j - offset] == text@[j]);
                }
            }
            None
        },
    }
}

/// Backward search for `x` in `text`: the last index of `x`, or `None` when `x` does not occur.
#[must_use]
pub fn memrchr(x: u8, text: &[u8]) -> (r: Option<usize>)
    ensures
        finds_last(text@, x, r),
{
    let repeated_x = repeat_u8(x);
    // Words are assembled from bytes, so they need no alignment: the body starts at once.
    memrchr_with_word(x, repeated_x, text, 0)
}

/// Backward search for `x`, given the word `repeated_x` whose every byte is `x`, in three
/// parts: a prefix of `prefix` bytes, a body of whole pairs of words after it, and the tail of
/// fewer than two words after the body. The tail is searched byte by byte first, then the body
/// two words at a time from its end, then the prefix byte by byte. The result is the same for
/// every `prefix`.
pub fn memrchr_with_word(x: u8, repeated_x: u64, text: &[u8], prefix: usize) -> (r: Option<usize>)
    requires
        prefix <= text.len(),
        forall|k: int| 0 <= k < 8 ==> #[trigger] byte_of(repeated_x, k) == x,
    ensures
        finds_last(text@, x, r),
{
    let len = text.len();
    let min_aligned_offset = prefix;
    let max_aligned_offset = len - (len - prefix) % (2 * WORD_BYTES);
    let mut offset = max_aligned_offset;
    let tail = &text[offset..len];
    if let Some(index) = memrchr_naive(x, tail) {
        assert(tail@[index as int] == text@[offset + index]);
        assert forall|j: int| offset + index < j < len implies text@[j] != x by {
            assert(tail@[j - offset] == text@[j]);
        }
        return Some(offset + index);
    }
    assert forall|j: int| offset <= j < len implies text@[j] != x by {
        assert(tail@[j - offset] == text@[j]);
    }
    while offset > min_aligned_offset
        invariant
            len == text.len(),
            min_aligned_offset <= offset <= len,
            (offset - min_aligned_offset) % 16 == 0,
            forall|k: int| 0 <= k < 8 ==> #[trigger] byte_of(repeated_x, k) == x,
            forall|j: int| offset <= j < len ==> text@[j] != x,
        decreases offset,
    {
        let lower = load_word(text, offset - 2 * WORD_BYTES);
        let upper = load_word(text, offset - WORD_BYTES);
        proof {
            lemma_word_last(text@, offset - 16, lower, repeated_x, x);
            lemma_word_last(text@, offset - 8, upper, repeated_x, x);
        }
        // The upper word comes last in the text, so it is checked first.
        let maybe_match_upper = contains_zero_byte_borrow_fix(upper ^ repeated_x);
        if let Some(num) = maybe_match_upper {
            let zero_byte_pos = find_last_nul(num);
            return Some(offset - WORD_BYTES + zero_byte_pos);
        }
        let maybe_match_lower = contains_zero_byte_borrow_fix(lower ^ repeated_x);
        if let Some(num) = maybe_match_lower {
            let zero_byte_pos = find_last_nul(num);
            return Some(offset - 2 * WORD_BYTES + zero_byte_pos);
        }
        offset -= 2 * WORD_BYTES;
    }
    // Find the last match in the prefix.
    let head = &text[0..offset];
    let found = memrchr_naive(x, head);
    if let Some(index) = found {
        assert(head@[index as int] == text@[index as int]);
        assert forall|j: int| index < j < len implies text@[j] != x by {
            if j < offset {
                assert(head@[j] == text@[j]);
            }
        }
    } else {
        assert forall|j: int| 0 <= j < len implies text@[j] != x by {
            if j < offset {
                assert(head@[j] == text@[j]);
            }
        }
    }
    found
}

} // verus!
