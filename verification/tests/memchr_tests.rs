use memchr_stuff::memchr_new::{
    contains_zero_byte, contains_zero_byte_borrow_fix, find_first_nul, find_last_nul, memchr,
    memrchr,
};
use memchr_stuff::num::repeat_u8;
use rand::rngs::StdRng;
use rand::{Rng, RngCore, SeedableRng, rng};
use rand_chacha::ChaCha12Rng;

const DETERMINISTIC: bool = true;
const TEST_SIZE: usize = 10000;
const RANDOM_SEED: u64 = 4269;
const MAX_SIZED_STRING: usize = 20000;

/// The output stream of `StdRng::seed_from_u64` (ChaCha with 12 rounds, seeded through
/// PCG32), computed with plain scalar code: the vectorised generator of `rand` is slow in an
/// unoptimised build. `chacha_stream_matches_std_rng` and
/// `chacha_stream_matches_std_rng_on_every_string` check that both give the same strings.
struct ChaCha12Stream {
    input: [u32; 16],
    block: [u32; 16],
    index: usize,
}

fn add(a: u32, b: u32) -> u32 {
    (a as u64 + b as u64) as u32
}

fn quarter(x: &mut [u32; 16], a: usize, b: usize, c: usize, d: usize) {
    x[a] = add(x[a], x[b]);
    let t = x[d] ^ x[a];
    x[d] = (t << 16) | (t >> 16);
    x[c] = add(x[c], x[d]);
    let t = x[b] ^ x[c];
    x[b] = (t << 12) | (t >> 20);
    x[a] = add(x[a], x[b]);
    let t = x[d] ^ x[a];
    x[d] = (t << 8) | (t >> 24);
    x[c] = add(x[c], x[d]);
    let t = x[b] ^ x[c];
    x[b] = (t << 7) | (t >> 25);
}

impl ChaCha12Stream {
    fn seed_from_u64(mut state: u64) -> Self {
        let mut input = [0u32; 16];
        input[0] = 0x6170_7865;
        input[1] = 0x3320_646e;
        input[2] = 0x7962_2d32;
        input[3] = 0x6b20_6574;
        for k in 0..8 {
            state = state.wrapping_mul(6364136223846793005).wrapping_add(11634580027462260723);
            let xorshifted = (((state >> 18) ^ state) >> 27) as u32;
            let rot = (state >> 59) as u32;
            input[4 + k] = xorshifted.rotate_right(rot);
        }
        ChaCha12Stream { input, block: [0; 16], index: 16 }
    }

    /// How many 32-bit words of the stream have been handed out.
    fn word_pos(&self) -> u128 {
        let blocks = ((self.input[13] as u64) << 32) | self.input[12] as u64;
        blocks as u128 * 16 + self.index as u128 - 16
    }

    fn refill(&mut self) {
        let mut x = self.input;
        for _ in 0..6 {
            quarter(&mut x, 0, 4, 8, 12);
            quarter(&mut x, 1, 5, 9, 13);
            quarter(&mut x, 2, 6, 10, 14);
            quarter(&mut x, 3, 7, 11, 15);
            quarter(&mut x, 0, 5, 10, 15);
            quarter(&mut x, 1, 6, 11, 12);
            quarter(&mut x, 2, 7, 8, 13);
            quarter(&mut x, 3, 4, 9, 14);
        }
        for i in 0..16 {
            self.block[i] = add(x[i], self.input[i]);
        }
        let counter = ((self.input[13] as u64) << 32 | self.input[12] as u64).wrapping_add(1);
        self.input[12] = counter as u32;
        self.input[13] = (counter >> 32) as u32;
        self.index = 0;
    }
}

impl RngCore for ChaCha12Stream {
    fn next_u32(&mut self) -> u32 {
        if self.index >= 16 {
            self.refill();
        }
        let v = self.block[self.index];
        self.index += 1;
        v
    }
    fn next_u64(&mut self) -> u64 {
        let lo = self.next_u32() as u64;
        let hi = self.next_u32() as u64;
        (hi << 32) | lo
    }
    fn fill_bytes(&mut self, dst: &mut [u8]) {
        for chunk in dst.chunks_mut(4) {
            let b = self.next_u32().to_le_bytes();
            chunk.copy_from_slice(&b[..chunk.len()]);
        }
    }
}

fn generate_random_byte_strings(count: usize, deterministic: bool) -> Vec<Vec<u8>> {
    let mut rng: Box<dyn RngCore> = if deterministic {
        Box::new(ChaCha12Stream::seed_from_u64(RANDOM_SEED))
    } else {
        Box::new(rng())
    };

    let mut strings = Vec::with_capacity(count);

    for _ in 0..count {
        // random strings with varying lengths from 0 to MAX SIZED STRING
        let length = rng.random_range(0..=MAX_SIZED_STRING);
        let bytes: Vec<u8> = (0..length).map(|_| rng.random()).collect();
        strings.push(bytes);
    }

    strings
}

fn generate_random_word_byte_arrays(count: usize, deterministic: bool) -> Vec<[u8; 8]> {
    let mut rng: Box<dyn RngCore> = if deterministic {
        Box::new(StdRng::seed_from_u64(RANDOM_SEED))
    } else {
        Box::new(rng())
    };

    let mut arrays = Vec::with_capacity(count);
    for _ in 0..count {
        let mut bytes = [0u8; 8];
        rng.fill_bytes(&mut bytes);
        arrays.push(bytes);
    }

    arrays
}

fn test_memchr(search: u8, sl: &[u8]) {
    let memchrtest = memchr(search, sl);
    let realans = sl.iter().position(|b| *b == search);
    assert!(
        memchrtest == realans,
        "test failed in memchr: expected {realans:?}, got {memchrtest:?} for byte {search:#04x}\n
        searching for {} with ASCII value {search} in slice {}",
        char::from_u32(search as _).unwrap(),
        String::from_utf8_lossy(sl)
    );
}

fn test_memrchr(search: u8, sl: &[u8]) {
    let realans = sl.iter().rposition(|b| *b == search);
    let memrchrtest = memrchr(search, sl);
    assert!(
        memrchrtest == realans,
        "test failed in memrchr: expected {realans:?}, got {memrchrtest:?} for byte {search:#04x}\n
        searching for {} with ASCII value {search} in slice {}",
        char::from_u32(search as _).unwrap(),
        String::from_utf8_lossy(sl)
    );
}

#[test]
fn tmemchr() {
    let byte_strings = generate_random_byte_strings(TEST_SIZE, DETERMINISTIC);
    let random_chars = 0..=u8::MAX;

    for byte in random_chars {
        for string in &byte_strings {
            test_memchr(byte, string);
        }
    }
}

#[test]
fn tmemrchr() {
    let byte_strings = generate_random_byte_strings(TEST_SIZE, DETERMINISTIC);
    let random_chars = 0..=u8::MAX;

    for byte in random_chars {
        for string in &byte_strings {
            test_memrchr(byte, string);
        }
    }
}

#[test]
fn test_reversed() {
    let arrays = generate_random_word_byte_arrays(TEST_SIZE, DETERMINISTIC);

    for bytes in arrays.iter() {
        for i in 0..=u8::MAX {
            let word = u64::from_le_bytes(*bytes) ^ repeat_u8(i);

            let expected_pos = bytes.iter().rposition(|&b| b == i);
            let detected_pos = contains_zero_byte_borrow_fix(word).map(find_last_nul);

            assert_eq!(
                detected_pos, expected_pos,
                "Mismatch for word={word:#018x} bytes={bytes:?} in contains last zero byte!"
            );
        }
    }
}

#[test]
fn test_forward() {
    let arrays = generate_random_word_byte_arrays(TEST_SIZE, DETERMINISTIC);

    for bytes in arrays.iter() {
        for i in 0..=u8::MAX {
            let word = u64::from_le_bytes(*bytes) ^ repeat_u8(i);

            let expected_pos = bytes.iter().position(|&b| b == i);
            let detected_pos = contains_zero_byte(word).map(find_first_nul);

            assert_eq!(
                detected_pos, expected_pos,
                "Mismatch for word={word:#018x} bytes={bytes:?} in contains zero byte!"
            );
        }
    }
}

#[test]
fn chacha_stream_matches_std_rng() {
    let mut fast = ChaCha12Stream::seed_from_u64(RANDOM_SEED);
    let mut std_rng = StdRng::seed_from_u64(RANDOM_SEED);
    for _ in 0..200 {
        let length = std_rng.random_range(0..=MAX_SIZED_STRING);
        assert_eq!(fast.random_range(0..=MAX_SIZED_STRING), length);
        for _ in 0..length {
            assert_eq!(fast.random::<u8>(), std_rng.random::<u8>());
        }
    }
    let mut a = [0u8; 13];
    let mut b = [0u8; 13];
    fast.fill_bytes(&mut a);
    std_rng.fill_bytes(&mut b);
    assert_eq!(a, b);
    assert_eq!(fast.next_u64(), std_rng.next_u64());
    assert_eq!(fast.next_u32(), std_rng.next_u32());
}

#[test]
fn chacha_stream_matches_std_rng_on_every_string() {
    // `StdRng` is `rand_chacha`'s `ChaCha12Rng`, which can jump to any word of its stream.
    let mut std_rng = StdRng::seed_from_u64(RANDOM_SEED);
    let mut reference = ChaCha12Rng::seed_from_u64(RANDOM_SEED);
    for _ in 0..100 {
        assert_eq!(reference.next_u32(), std_rng.next_u32());
    }
    // Walk the stream through all the strings that the searches use; at the start of each
    // string and at its middle and last byte, the reference stream must give the same words.
    let mut fast = ChaCha12Stream::seed_from_u64(RANDOM_SEED);
    for _ in 0..TEST_SIZE {
        let start = fast.word_pos();
        let length = fast.random_range(0..=MAX_SIZED_STRING);
        reference.set_word_pos(start);
        assert_eq!(reference.random_range(0..=MAX_SIZED_STRING), length);
        let first_byte = fast.word_pos();
        assert_eq!(reference.get_word_pos(), first_byte);
        let mut middle = 0u8;
        let mut last = 0u8;
        for i in 0..length {
            let b: u8 = fast.random();
            if i == length / 2 {
                middle = b;
            }
            last = b;
        }
        if length > 0 {
            reference.set_word_pos(first_byte + (length / 2) as u128);
            assert_eq!(reference.random::<u8>(), middle);
            reference.set_word_pos(first_byte + length as u128 - 1);
            assert_eq!(reference.random::<u8>(), last);
        }
    }
    // After all the strings, both streams continue alike.
    reference.set_word_pos(fast.word_pos());
    for _ in 0..64 {
        assert_eq!(reference.next_u32(), fast.next_u32());
    }
}
