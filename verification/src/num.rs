//! Word-sized byte patterns.

use vstd::prelude::*;
use crate::word::byte_of;

verus! {

proof fn lemma_repeat_u8_byte(x: u64, k: u64)
    by (bit_vector)
    requires
        x < 256,
        k < 8,
    ensures
        byte_of((x * 0x0101_0101_0101_0101u64) as u64, k as int) == x,
{
}

/// Returns an `u64` where every byte is equal to `x`.
pub fn repeat_u8(x: u8) -> (r: u64)
    ensures
        forall|k: int| 0 <= k < 8 ==> #[trigger] byte_of(r, k) == x,
        r as u8 == x,
{
    let r: u64 = (x as u64) * 0x0101_0101_0101_0101u64;
    assert forall|k: int| 0 <= k < 8 implies #[trigger] byte_of(r, k) == x by {
        lemma_repeat_u8_byte(x as u64, k as u64);
    }
    assert(r as u8 == byte_of(r, 0)) by (bit_vector);
    r
}


/// The pair of bytes of `w` at position `k`, counting from the least significant pair.
pub open spec fn pair_of(w: u64, k: int) -> u16 {
    ((w >> ((16 * k) as u64)) & 0xffff) as u16
}

/// The word after `n` steps of shifting in `x` from below, sixteen bits at a time.
pub open spec fn u16_fill(x: u64, n: nat) -> u64
    decreases n,
{
    if n == 0 {
        0
    } else {
        (u16_fill(x, (n - 1) as nat) << 16u64) | x
    }
}

proof fn lemma_u16_fill_pairs(x: u64, k: u64)
    by (bit_vector)
    requires
        x < 65536,
        k < 4,
    ensures
        pair_of(((((((0u64 << 16u64) | x) << 16u64) | x) << 16u64 | x) << 16u64) | x, k as int) == x,
{
}

/// Returns an `u64` where every byte pair is equal to `x`.
pub fn repeat_u16(x: u16) -> (r: u64)
    ensures
        forall|k: int| 0 <= k < 4 ==> #[trigger] pair_of(r, k) == x,
{
    let mut r: u64 = 0;
    let mut i: usize = 0;
    while i < 8
        invariant
            i % 2 == 0,
            i <= 8,
            r == u16_fill(x as u64, (i / 2) as nat),
        decreases 8 - i,
    {
        r = r.wrapping_shl(16) | (x as u64);
        i += 2;
    }
    proof {
        reveal_with_fuel(u16_fill, 5);
        assert forall|k: int| 0 <= k < 4 implies #[trigger] pair_of(r, k) == x by {
            lemma_u16_fill_pairs(x as u64, k as u64);
        }
    }
    r
}

} // verus!
