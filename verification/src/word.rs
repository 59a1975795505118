//! Facts about 64-bit words seen as eight little-endian bytes.

use vstd::prelude::*;
use vstd::std_specs::bits::{u64_trailing_zeros, u64_leading_zeros, axiom_u64_trailing_zeros, axiom_u64_leading_zeros};
use crate::search::{is_first_match, is_last_match};

verus! {

/// The byte of `w` at position `k`, counting from the least significant byte.
pub open spec fn byte_of(w: u64, k: int) -> u8 {
    ((w >> ((8 * k) as u64)) & 0xff) as u8
}

/// The classic "has a zero byte" value of `v`: `(v - 0x0101..01) & !v & 0x8080..80`, the
/// subtraction wrapping around.
pub open spec fn classic_spec(v: u64) -> u64 {
    ((v - 0x0101_0101_0101_0101u64) as u64) & !v & 0x8080_8080_8080_8080u64
}

/// The classic value with the marks that a borrow set above a `0x01` byte taken out.
pub open spec fn fix_spec(v: u64) -> u64 {
    classic_spec(v) & (!v << 7u64)
}

/// The classic value subtracts with wraparound.
pub proof fn lemma_wrapping_sub_lo(v: u64)
    by (bit_vector)
    ensures
        v.wrapping_sub(0x0101_0101_0101_0101u64) == (v - 0x0101_0101_0101_0101u64) as u64,
{
}

/// Where the classic value puts its lowest mark: at the top bit of the first zero byte.
proof fn lemma_classic_first_bits(v: u64)
    by (bit_vector)
    ensures
        (byte_of(v, 0) == 0)
            ==> (classic_spec(v) >> 7u64) & 1 == 1
                && classic_spec(v) & (((1u64 << 7u64) - 1) as u64) == 0,
        (byte_of(v, 0) != 0 && byte_of(v, 1) == 0)
            ==> (classic_spec(v) >> 15u64) & 1 == 1
                && classic_spec(v) & (((1u64 << 15u64) - 1) as u64) == 0,
        (byte_of(v, 0) != 0 && byte_of(v, 1) != 0 && byte_of(v, 2) == 0)
            ==> (classic_spec(v) >> 23u64) & 1 == 1
                && classic_spec(v) & (((1u64 << 23u64) - 1) as u64) == 0,
        (byte_of(v, 0) != 0 && byte_of(v, 1) != 0 && byte_of(v, 2) != 0 && byte_of(v, 3) == 0)
            ==> (classic_spec(v) >> 31u64) & 1 == 1
                && classic_spec(v) & (((1u64 << 31u64) - 1) as u64) == 0,
        (byte_of(v, 0) != 0 && byte_of(v, 1) != 0 && byte_of(v, 2) != 0 && byte_of(v, 3) != 0 && byte_of(v, 4) == 0)
            ==> (classic_spec(v) >> 39u64) & 1 == 1
                && classic_spec(v) & (((1u64 << 39u64) - 1) as u64) == 0,
        (byte_of(v, 0) != 0 && byte_of(v, 1) != 0 && byte_of(v, 2) != 0 && byte_of(v, 3) != 0 && byte_of(v, 4) != 0 && byte_of(v, 5) == 0)
            ==> (classic_spec(v) >> 47u64) & 1 == 1
                && classic_spec(v) & (((1u64 << 47u64) - 1) as u64) == 0,
        (byte_of(v, 0) != 0 && byte_of(v, 1) != 0 && byte_of(v, 2) != 0 && byte_of(v, 3) != 0 && byte_of(v, 4) != 0 && byte_of(v, 5) != 0 && byte_of(v, 6) == 0)
            ==> (classic_spec(v) >> 55u64) & 1 == 1
                && classic_spec(v) & (((1u64 << 55u64) - 1) as u64) == 0,
        (byte_of(v, 0) != 0 && byte_of(v, 1) != 0 && byte_of(v, 2) != 0 && byte_of(v, 3) != 0 && byte_of(v, 4) != 0 && byte_of(v, 5) != 0 && byte_of(v, 6) != 0 && byte_of(v, 7) == 0)
            ==> (classic_spec(v) >> 63u64) & 1 == 1
                && classic_spec(v) & (((1u64 << 63u64) - 1) as u64) == 0,
        (byte_of(v, 0) != 0 && byte_of(v, 1) != 0 && byte_of(v, 2) != 0 && byte_of(v, 3) != 0 && byte_of(v, 4) != 0 && byte_of(v, 5) != 0 && byte_of(v, 6) != 0 && byte_of(v, 7) != 0)
            ==> classic_spec(v) == 0,
{
}

/// Where the corrected value puts its highest mark: at the top bit of the last zero byte.
proof fn lemma_fix_last_bits(v: u64)
    by (bit_vector)
    ensures
        (byte_of(v, 0) == 0 && byte_of(v, 1) != 0 && byte_of(v, 2) != 0 && byte_of(v, 3) != 0 && byte_of(v, 4) != 0 && byte_of(v, 5) != 0 && byte_of(v, 6) != 0 && byte_of(v, 7) != 0)
            ==> fix_spec(v) >> 7u64 == 1,
        (byte_of(v, 1) == 0 && byte_of(v, 2) != 0 && byte_of(v, 3) != 0 && byte_of(v, 4) != 0 && byte_of(v, 5) != 0 && byte_of(v, 6) != 0 && byte_of(v, 7) != 0)
            ==> fix_spec(v) >> 15u64 == 1,
        (byte_of(v, 2) == 0 && byte_of(v, 3) != 0 && byte_of(v, 4) != 0 && byte_of(v, 5) != 0 && byte_of(v, 6) != 0 && byte_of(v, 7) != 0)
            ==> fix_spec(v) >> 23u64 == 1,
        (byte_of(v, 3) == 0 && byte_of(v, 4) != 0 && byte_of(v, 5) != 0 && byte_of(v, 6) != 0 && byte_of(v, 7) != 0)
            ==> fix_spec(v) >> 31u64 == 1,
        (byte_of(v, 4) == 0 && byte_of(v, 5) != 0 && byte_of(v, 6) != 0 && byte_of(v, 7) != 0)
            ==> fix_spec(v) >> 39u64 == 1,
        (byte_of(v, 5) == 0 && byte_of(v, 6) != 0 && byte_of(v, 7) != 0)
            ==> fix_spec(v) >> 47u64 == 1,
        (byte_of(v, 6) == 0 && byte_of(v, 7) != 0)
            ==> fix_spec(v) >> 55u64 == 1,
        (byte_of(v, 7) == 0)
            ==> fix_spec(v) >> 63u64 == 1,
        classic_spec(v) != 0 ==> fix_spec(v) != 0,
{
}

/// The eight bytes of `v`, least significant first.
pub open spec fn word_bytes(v: u64) -> Seq<u8> {
    Seq::new(8, |k: int| byte_of(v, k))
}

/// Index of the byte that holds the lowest set bit of `c`.
pub open spec fn first_nul_spec(c: u64) -> int {
    u64_trailing_zeros(c) as int / 8
}

/// Index of the byte that holds the highest set bit of `c`.
pub open spec fn last_nul_spec(c: u64) -> int {
    7 - u64_leading_zeros(c) / 8
}

proof fn lemma_low_bits_clear(c: u64, p: u64, t: u64)
    by (bit_vector)
    requires
        p < 64,
        t < 64,
        c & (((1u64 << p) - 1) as u64) == 0,
        (c >> t) & 1 == 1,
    ensures
        t >= p,
{
}

proof fn lemma_high_bits_clear(c: u64, p: u64, t: u64)
    by (bit_vector)
    requires
        p < 64,
        t < 64,
        c >> p == 1,
    ensures
        p < t ==> (c >> t) & 1 == 0,
        (c >> p) & 1 == 1,
{
}

proof fn lemma_shift_below(c: u64, p: u64, s: u64)
    by (bit_vector)
    requires
        s <= p < 64,
        c >> p == 1,
    ensures
        c >> s != 0,
{
}

proof fn lemma_bit_set_nonzero(c: u64, p: u64)
    by (bit_vector)
    requires
        p < 64,
        (c >> p) & 1 == 1,
    ensures
        c != 0,
{
}

/// A word whose bit `p` is set and whose bits below `p` are clear has `p` trailing zeros.
proof fn lemma_trailing_zeros_at(c: u64, p: u64)
    requires
        p < 64,
        (c >> p) & 1 == 1,
        c & (((1u64 << p) - 1) as u64) == 0,
    ensures
        u64_trailing_zeros(c) == p,
{
    axiom_u64_trailing_zeros(c);
    lemma_bit_set_nonzero(c, p);
    let t = u64_trailing_zeros(c) as u64;
    if t < p {
        lemma_low_bits_clear(c, p, t);
    }
}

/// A word whose highest set bit is bit `p` has `63 - p` leading zeros.
proof fn lemma_leading_zeros_at(c: u64, p: u64)
    requires
        p < 64,
        c >> p == 1,
    ensures
        u64_leading_zeros(c) == 63 - p,
{
    axiom_u64_leading_zeros(c);
    lemma_high_bits_clear(c, p, 63);
    lemma_bit_set_nonzero(c, p);
    let l = u64_leading_zeros(c);
    if l < 63 - p {
        lemma_high_bits_clear(c, p, (63 - l) as u64);
    } else if l > 63 - p {
        lemma_shift_below(c, p, (64 - l) as u64);
    }
}

/// The classic value of `v` is zero exactly when `v` has no zero byte, and otherwise its
/// lowest set bit lies in the first zero byte of `v`.
pub proof fn lemma_classic_first_zero(v: u64)
    ensures
        classic_spec(v) == 0 <==> !word_bytes(v).contains(0u8),
        classic_spec(v) != 0 ==> is_first_match(word_bytes(v), 0u8, first_nul_spec(classic_spec(v))),
{
    let s = word_bytes(v);
    let c = classic_spec(v);
    lemma_classic_first_bits(v);
    if byte_of(v, 0) == 0 {
        lemma_trailing_zeros_at(c, 7u64);
        assert(s[0] == 0u8);
    } else if byte_of(v, 1) == 0 {
        lemma_trailing_zeros_at(c, 15u64);
        assert(s[1] == 0u8);
    } else if byte_of(v, 2) == 0 {
        lemma_trailing_zeros_at(c, 23u64);
        assert(s[2] == 0u8);
    } else if byte_of(v, 3) == 0 {
        lemma_trailing_zeros_at(c, 31u64);
        assert(s[3] == 0u8);
    } else if byte_of(v, 4) == 0 {
        lemma_trailing_zeros_at(c, 39u64);
        assert(s[4] == 0u8);
    } else if byte_of(v, 5) == 0 {
        lemma_trailing_zeros_at(c, 47u64);
        assert(s[5] == 0u8);
    } else if byte_of(v, 6) == 0 {
        lemma_trailing_zeros_at(c, 55u64);
        assert(s[6] == 0u8);
    } else if byte_of(v, 7) == 0 {
        lemma_trailing_zeros_at(c, 63u64);
        assert(s[7] == 0u8);
    } else {
        assert(!s.contains(0u8));
    }
}


/// When `v` has a zero byte, the corrected value of `v` is not zero, and its highest set bit
/// lies in the last zero byte of `v`.
pub proof fn lemma_fix_last_zero(v: u64)
    ensures
        classic_spec(v) == 0 <==> !word_bytes(v).contains(0u8),
        classic_spec(v) != 0 ==> fix_spec(v) != 0,
        classic_spec(v) != 0 ==> is_last_match(word_bytes(v), 0u8, last_nul_spec(fix_spec(v))),
{
    let s = word_bytes(v);
    let f = fix_spec(v);
    lemma_classic_first_zero(v);
    lemma_fix_last_bits(v);
    if byte_of(v, 7) == 0 {
        lemma_leading_zeros_at(f, 63u64);
        assert(s[7] == 0u8);
    } else if byte_of(v, 6) == 0 {
        lemma_leading_zeros_at(f, 55u64);
        assert(s[6] == 0u8);
    } else if byte_of(v, 5) == 0 {
        lemma_leading_zeros_at(f, 47u64);
        assert(s[5] == 0u8);
    } else if byte_of(v, 4) == 0 {
        lemma_leading_zeros_at(f, 39u64);
        assert(s[4] == 0u8);
    } else if byte_of(v, 3) == 0 {
        lemma_leading_zeros_at(f, 31u64);
        assert(s[3] == 0u8);
    } else if byte_of(v, 2) == 0 {
        lemma_leading_zeros_at(f, 23u64);
        assert(s[2] == 0u8);
    } else if byte_of(v, 1) == 0 {
        lemma_leading_zeros_at(f, 15u64);
        assert(s[1] == 0u8);
    } else if byte_of(v, 0) == 0 {
        lemma_leading_zeros_at(f, 7u64);
        assert(s[0] == 0u8);
    }
}


/// The word whose bytes, least significant first, are `b0` .. `b7`.
pub open spec fn compose_spec(b0: u64, b1: u64, b2: u64, b3: u64, b4: u64, b5: u64, b6: u64, b7: u64) -> u64 {
    b0 | (b1 << 8u64) | (b2 << 16u64) | (b3 << 24u64) | (b4 << 32u64) | (b5 << 40u64) | (b6 << 48u64) | (b7 << 56u64)
}

pub proof fn lemma_compose_bytes(b0: u64, b1: u64, b2: u64, b3: u64, b4: u64, b5: u64, b6: u64, b7: u64)
    by (bit_vector)
    requires
        b0 < 256, b1 < 256, b2 < 256, b3 < 256, b4 < 256, b5 < 256, b6 < 256, b7 < 256,
    ensures
        byte_of(compose_spec(b0, b1, b2, b3, b4, b5, b6, b7), 0) == b0,
        byte_of(compose_spec(b0, b1, b2, b3, b4, b5, b6, b7), 1) == b1,
        byte_of(compose_spec(b0, b1, b2, b3, b4, b5, b6, b7), 2) == b2,
        byte_of(compose_spec(b0, b1, b2, b3, b4, b5, b6, b7), 3) == b3,
        byte_of(compose_spec(b0, b1, b2, b3, b4, b5, b6, b7), 4) == b4,
        byte_of(compose_spec(b0, b1, b2, b3, b4, b5, b6, b7), 5) == b5,
        byte_of(compose_spec(b0, b1, b2, b3, b4, b5, b6, b7), 6) == b6,
        byte_of(compose_spec(b0, b1, b2, b3, b4, b5, b6, b7), 7) == b7,
{
}

proof fn lemma_xor_byte(w: u64, r: u64, k: u64, x: u8)
    by (bit_vector)
    requires
        k < 8,
        byte_of(r, k as int) == x,
    ensures
        (byte_of(w ^ r, k as int) == 0) == (byte_of(w, k as int) == x),
{
}

/// A word whose bytes are `s[off .. off + 8]`, compared with a word whose bytes are all `x`:
/// the classic value of their xor says where `x` first occurs among those bytes.
pub proof fn lemma_word_first(s: Seq<u8>, off: int, w: u64, rep: u64, x: u8)
    requires
        0 <= off,
        off + 8 <= s.len(),
        word_bytes(w) == s.subrange(off, off + 8),
        forall|k: int| 0 <= k < 8 ==> #[trigger] byte_of(rep, k) == x,
    ensures
        classic_spec(w ^ rep) == 0 ==> forall|j: int| off <= j < off + 8 ==> s[j] != x,
        classic_spec(w ^ rep) != 0 ==> {
            let k = first_nul_spec(classic_spec(w ^ rep));
            &&& 0 <= k < 8
            &&& s[off + k] == x
            &&& forall|j: int| off <= j < off + k ==> s[j] != x
        },
{
    let v = w ^ rep;
    lemma_word_xor(s, off, w, rep, x);
    lemma_classic_first_zero(v);
    if classic_spec(v) == 0 {
        assert forall|j: int| off <= j < off + 8 implies s[j] != x by {
            assert(word_bytes(v)[j - off] != 0);
        }
    } else {
        let k = first_nul_spec(classic_spec(v));
        assert(word_bytes(v)[k] == 0);
        assert forall|j: int| off <= j < off + k implies s[j] != x by {
            assert(word_bytes(v)[j - off] != 0);
        }
    }
}

/// As [`lemma_word_first`], for the corrected value and the last occurrence of `x`.
pub proof fn lemma_word_last(s: Seq<u8>, off: int, w: u64, rep: u64, x: u8)
    requires
        0 <= off,
        off + 8 <= s.len(),
        word_bytes(w) == s.subrange(off, off + 8),
        forall|k: int| 0 <= k < 8 ==> #[trigger] byte_of(rep, k) == x,
    ensures
        classic_spec(w ^ rep) == 0 ==> forall|j: int| off <= j < off + 8 ==> s[j] != x,
        classic_spec(w ^ rep) != 0 ==> {
            let k = last_nul_spec(fix_spec(w ^ rep));
            &&& fix_spec(w ^ rep) != 0
            &&& 0 <= k < 8
            &&& s[off + k] == x
            &&& forall|j: int| off + k < j < off + 8 ==> s[j] != x
        },
{
    let v = w ^ rep;
    lemma_word_xor(s, off, w, rep, x);
    lemma_fix_last_zero(v);
    if classic_spec(v) == 0 {
        assert forall|j: int| off <= j < off + 8 implies s[j] != x by {
            assert(word_bytes(v)[j - off] != 0);
        }
    } else {
        let k = last_nul_spec(fix_spec(v));
        assert(word_bytes(v)[k] == 0);
        assert forall|j: int| off + k < j < off + 8 implies s[j] != x by {
            assert(word_bytes(v)[j - off] != 0);
        }
    }
}

proof fn lemma_word_xor(s: Seq<u8>, off: int, w: u64, rep: u64, x: u8)
    requires
        0 <= off,
        off + 8 <= s.len(),
        word_bytes(w) == s.subrange(off, off + 8),
        forall|k: int| 0 <= k < 8 ==> #[trigger] byte_of(rep, k) == x,
    ensures
        forall|k: int| 0 <= k < 8 ==> (#[trigger] word_bytes(w ^ rep)[k] == 0) == (s[off + k] == x),
{
    assert forall|k: int| 0 <= k < 8 implies (#[trigger] word_bytes(w ^ rep)[k] == 0) == (s[off + k] == x) by {
        assert(byte_of(rep, k) == x);
        lemma_xor_byte(w, rep, k as u64, x);
        assert(word_bytes(w)[k] == s.subrange(off, off + 8)[k]);
    }
}


proof fn lemma_byte_with_set_bit(c: u64, t: u64)
    by (bit_vector)
    requires
        t < 64,
        (c >> t) & 1 != 0,
    ensures
        byte_of(c, (t / 8) as int) != 0,
{
}

proof fn lemma_byte_with_clear_bits(c: u64, k: u64)
    by (bit_vector)
    requires
        k < 8,
        (c >> (8 * k)) & 1 == 0,
        (c >> (8 * k + 1)) & 1 == 0,
        (c >> (8 * k + 2)) & 1 == 0,
        (c >> (8 * k + 3)) & 1 == 0,
        (c >> (8 * k + 4)) & 1 == 0,
        (c >> (8 * k + 5)) & 1 == 0,
        (c >> (8 * k + 6)) & 1 == 0,
        (c >> (8 * k + 7)) & 1 == 0,
    ensures
        byte_of(c, k as int) == 0,
{
}

/// The byte that holds the lowest set bit of a nonzero `c` is nonzero, and every byte
/// below it is zero.
pub proof fn lemma_first_nul_byte(c: u64)
    requires
        c != 0,
    ensures
        0 <= first_nul_spec(c) < 8,
        byte_of(c, first_nul_spec(c)) != 0,
        forall|j: int| 0 <= j < first_nul_spec(c) ==> #[trigger] byte_of(c, j) == 0,
{
    axiom_u64_trailing_zeros(c);
    let t = u64_trailing_zeros(c) as u64;
    lemma_byte_with_set_bit(c, t);
    assert forall|j: int| 0 <= j < first_nul_spec(c) implies #[trigger] byte_of(c, j) == 0 by {
        let k = j as u64;
        assert((c >> (8 * k)) & 1 == 0);
        assert((c >> (8 * k + 1)) & 1 == 0);
        assert((c >> (8 * k + 2)) & 1 == 0);
        assert((c >> (8 * k + 3)) & 1 == 0);
        assert((c >> (8 * k + 4)) & 1 == 0);
        assert((c >> (8 * k + 5)) & 1 == 0);
        assert((c >> (8 * k + 6)) & 1 == 0);
        assert((c >> (8 * k + 7)) & 1 == 0);
        lemma_byte_with_clear_bits(c, k);
    }
}

/// The byte that holds the highest set bit of a nonzero `c` is nonzero, and every byte
/// above it is zero.
pub proof fn lemma_last_nul_byte(c: u64)
    requires
        c != 0,
    ensures
        0 <= last_nul_spec(c) < 8,
        byte_of(c, last_nul_spec(c)) != 0,
        forall|j: int| last_nul_spec(c) < j < 8 ==> #[trigger] byte_of(c, j) == 0,
{
    axiom_u64_leading_zeros(c);
    let l = u64_leading_zeros(c);
    let t = (63 - l) as u64;
    assert(last_nul_spec(c) == t / 8);
    lemma_byte_with_set_bit(c, t);
    assert forall|j: int| last_nul_spec(c) < j < 8 implies #[trigger] byte_of(c, j) == 0 by {
        let k = j as u64;
        assert((c >> (8 * k)) & 1 == 0);
        assert((c >> (8 * k + 1)) & 1 == 0);
        assert((c >> (8 * k + 2)) & 1 == 0);
        assert((c >> (8 * k + 3)) & 1 == 0);
        assert((c >> (8 * k + 4)) & 1 == 0);
        assert((c >> (8 * k + 5)) & 1 == 0);
        assert((c >> (8 * k + 6)) & 1 == 0);
        assert((c >> (8 * k + 7)) & 1 == 0);
        lemma_byte_with_clear_bits(c, k);
    }
}

} // verus!
