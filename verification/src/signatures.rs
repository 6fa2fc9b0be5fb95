//! Weak rolling signature over a sliding window, and the strong
//! cryptographic signature used to confirm candidate matches.

use blake2::digest::Digest;
use core::fmt::Write;
use vstd::prelude::*;
use vstd::arithmetic::div_mod::{
    lemma_add_mod_noop, lemma_add_mod_noop_right, lemma_mod_add_multiples_vanish,
    lemma_mod_bound, lemma_mod_twice, lemma_mul_mod_noop_left, lemma_small_mod,
    lemma_sub_mod_noop_right,
};

verus! {

/// Modulus of the two rolling checksum components: 2^16.
pub const MODULUS: i64 = 65536;

/// Sum of the bytes `data[start .. start + n]`.
pub open spec fn byte_sum(data: Seq<u8>, start: int, n: int) -> int
    decreases n,
{
    if n <= 0 {
        0
    } else {
        byte_sum(data, start, n - 1) + data[start + n - 1]
    }
}

/// Weighted sum over a window: the byte at relative position `i` counts
/// with weight `b - i`.
pub open spec fn weighted_sum(data: Seq<u8>, start: int, b: int, n: int) -> int
    decreases n,
{
    if n <= 0 {
        0
    } else {
        weighted_sum(data, start, b, n - 1) + (b - (n - 1)) * data[start + n - 1]
    }
}

/// First checksum component of the window of length `b` at `start`.
pub open spec fn spec_r1(data: Seq<u8>, start: int, b: int) -> int {
    byte_sum(data, start, b) % 65536
}

/// Second checksum component of the window of length `b` at `start`.
pub open spec fn spec_r2(data: Seq<u8>, start: int, b: int) -> int {
    weighted_sum(data, start, b, b) % 65536
}

/// Combined weak signature value of the window of length `b` at `start`.
pub open spec fn spec_weak_value(data: Seq<u8>, start: int, b: int) -> int {
    spec_r1(data, start, b) + 65536 * spec_r2(data, start, b)
}

/// The weak signature block for the window of length `b` at `start`.
pub open spec fn spec_sign(data: Seq<u8>, start: int, b: int) -> WeakSignatureBlock {
    WeakSignatureBlock {
        offset: start as u64,
        signature: spec_weak_value(data, start, b) as i64,
        r1: spec_r1(data, start, b) as i64,
        r2: spec_r2(data, start, b) as i64,
    }
}

/// A buffer of bytes together with the window length used to sign it.
#[derive(Debug, Clone)]
pub struct WeakSignature {
    pub block_size: usize,
    pub data: Vec<u8>,
}

/// The weak signature of one window: its offset, the two checksum
/// components `r1, r2 < 2^16`, and the combined value `r1 + 2^16 * r2`.
#[derive(Debug, Clone, Copy)]
pub struct WeakSignatureBlock {
    pub offset: u64,
    pub signature: i64,
    pub r1: i64,
    pub r2: i64,
}

impl WeakSignatureBlock {
    pub fn new(offset: u64, signature: i64, r1: i64, r2: i64) -> (r: Self)
        ensures
            r == (WeakSignatureBlock { offset, signature, r1, r2 }),
    {
        Self { offset, signature, r1, r2 }
    }

    pub fn get_signature(&self) -> (r: i64)
        ensures
            r == self.signature,
    {
        self.signature
    }
}

impl WeakSignature {
    pub fn new(block_size: usize, data: Vec<u8>) -> (r: Self)
        ensures
            r.block_size == block_size,
            r.data@ == data@,
    {
        Self { block_size, data }
    }

    /// Compute the signature block of the window starting at `offset`.
    pub fn sign(&self, offset: usize) -> (r: WeakSignatureBlock)
        requires
            offset + self.block_size <= self.data@.len(),
        ensures
            r == spec_sign(self.data@, offset as int, self.block_size as int),
    {
        let b = self.block_size;
        let n = self.data.len();
        let ghost data = self.data@;
        let mut acc1: i64 = 0;
        let mut acc2: i64 = 0;
        let mut i: usize = 0;
        while i < b
            invariant
                0 <= i <= b,
                offset + b <= n,
                n == data.len(),
                self.data@ == data,
                self.block_size == b,
                acc1 == byte_sum(data, offset as int, i as int) % 65536,
                acc2 == weighted_sum(data, offset as int, b as int, i as int) % 65536,
            decreases b - i,
        {
            let x = self.data[offset + i] as i64;
            let w: i64 = ((b - i) % 65536) as i64;
            proof {
                lemma_mod_bound(acc1 as int, 65536);
                lemma_mod_bound(acc2 as int, 65536);
                lemma_mod_bound((b - i) as int, 65536);
                // acc1 + x stays within bounds and the mod folds in
                lemma_add_mod_noop(
                    byte_sum(data, offset as int, i as int),
                    x as int,
                    65536,
                );
                lemma_small_mod((x as nat), 65536);
                // the weight can be reduced mod 65536 before multiplying
                lemma_mul_mod_noop_left((b - i) as int, x as int, 65536);
                lemma_add_mod_noop(
                    weighted_sum(data, offset as int, b as int, i as int),
                    (b - i) * x,
                    65536,
                );
                lemma_mod_bound(((b - i) as int % 65536) * x, 65536);
                lemma_mod_twice(((b - i) as int % 65536) * (x as int), 65536);
                assert(((b - i) as int % 65536) * x <= 65535 * 255) by (nonlinear_arith)
                    requires
                        0 <= (b - i) as int % 65536 < 65536,
                        0 <= x <= 255,
                ;
            }
            acc1 = (acc1 + x) % 65536;
            let wx: i64 = (w * x) % 65536;
            acc2 = (acc2 + wx) % 65536;
            i = i + 1;
            proof {
                assert(byte_sum(data, offset as int, i as int)
                    == byte_sum(data, offset as int, (i - 1) as int) + data[offset + i - 1]);
                assert(weighted_sum(data, offset as int, b as int, i as int)
                    == weighted_sum(data, offset as int, b as int, (i - 1) as int)
                        + (b - (i - 1)) * data[offset + i - 1]);
            }
        }
        proof {
            lemma_mod_bound(byte_sum(data, offset as int, b as int), 65536);
            lemma_mod_bound(weighted_sum(data, offset as int, b as int, b as int), 65536);
            lemma_small_mod(
                (spec_r1(data, offset as int, b as int)
                    + 65536 * spec_r2(data, offset as int, b as int)) as nat,
                65536 * 65536,
            );
        }
        let r = (acc1 + MODULUS * acc2) % (MODULUS * MODULUS);
        WeakSignatureBlock { offset: offset as u64, signature: r, r1: acc1, r2: acc2 }
    }

    /// Roll the signature one byte forward: drop the byte at `prev.offset`,
    /// take in the byte just past the window.  When the next window would
    /// fall off the end of the buffer, the previous block is returned
    /// unchanged.  Whenever both are defined, rolling the signature of the
    /// window at `k` yields exactly the signature of the window at `k + 1`.
    pub fn compute_next_signature(&self, prev: WeakSignatureBlock) -> (r: WeakSignatureBlock)
        requires
            prev == spec_sign(self.data@, prev.offset as int, self.block_size as int),
            prev.offset + self.block_size <= self.data@.len(),
        ensures
            prev.offset + self.block_size < self.data@.len() ==> r == spec_sign(
                self.data@,
                prev.offset + 1,
                self.block_size as int,
            ),
            prev.offset + self.block_size >= self.data@.len() ==> r == prev,
    {
        let ghost data = self.data@;
        let ghost b = self.block_size as int;
        let ghost k = prev.offset as int;
        let len = self.data.len();
        proof {
            assert(prev.offset <= len);
        }
        let old_idx = prev.offset as usize;
        let new_idx = old_idx + self.block_size;

        if new_idx >= len {
            return prev;
        }

        let x = self.data[old_idx] as i64;
        let y = self.data[new_idx] as i64;
        let w: i64 = ((self.block_size) % 65536) as i64;
        let ghost s1 = byte_sum(data, k, b);
        let ghost s2 = weighted_sum(data, k, b, b);
        let ghost s1n = byte_sum(data, k + 1, b);
        let ghost s2n = weighted_sum(data, k + 1, b, b);
        proof {
            lemma_mod_bound(s1, 65536);
            lemma_mod_bound(s2, 65536);
            lemma_mod_bound(b, 65536);
        }
        // r1' = (r1 - x + y) mod M, kept non-negative
        let r1n = (prev.r1 + MODULUS - x + y) % MODULUS;
        // r2' = (r2 - B * x + r1') mod M, kept non-negative
        proof {
            assert((b % 65536) * x <= 65535 * 255) by (nonlinear_arith)
                requires
                    0 <= b % 65536 < 65536,
                    0 <= x <= 255,
            ;
        }
        let t = (w * x) % MODULUS;
        proof {
            lemma_mod_bound((b % 65536) * x, 65536);
        }
        let r2n = (prev.r2 + MODULUS - t + r1n) % MODULUS;
        proof {
            lemma_byte_sum_shift(data, k, b);
            assert(s1n == s1 - x + y);
            assert(r1n == s1n % 65536) by {
                // ((s1 % M) + (M - x + y)) % M == (s1 + M - x + y) % M == s1n % M
                lemma_add_mod_noop_right(65536 - x + y, s1, 65536);
                lemma_mod_add_multiples_vanish(s1 - x + y, 65536);
            }
            lemma_weighted_sum_shift(data, k, b, b);
            assert(weighted_sum(data, k, b, b + 1) == s2 + (b - b) * data[k + b]);
            assert((b - b) * data[k + b] == 0) by (nonlinear_arith);
            assert(s2n == s2 - b * x + s1n);
            // t is congruent to b * x
            lemma_mul_mod_noop_left(b, x as int, 65536);
            assert(t == (b * x) % 65536);
            assert(r2n == s2n % 65536) by {
                // ((s2 % M) + M - t + r1n) % M == (s2 + M - t + r1n) % M
                lemma_add_mod_noop_right(65536 - t + r1n, s2, 65536);
                // == (s2 - t + r1n) % M
                lemma_mod_add_multiples_vanish(s2 - t + r1n, 65536);
                // == (s2 - b * x + r1n) % M
                lemma_sub_mod_noop_right(s2 + r1n, b * x, 65536);
                lemma_mod_twice(b * x, 65536);
                // == (s2 - b * x + s1n) % M
                lemma_add_mod_noop_right(s2 - b * x, s1n, 65536);
            }
            lemma_mod_bound(s1n, 65536);
            lemma_mod_bound(s2n, 65536);
            lemma_small_mod(
                (spec_r1(data, k + 1, b) + 65536 * spec_r2(data, k + 1, b)) as nat,
                65536 * 65536,
            );
        }
        let r = (r1n + MODULUS * r2n) % (MODULUS * MODULUS);
        WeakSignatureBlock { offset: prev.offset + 1, signature: r, r1: r1n, r2: r2n }
    }
}

/// Name for the strong signature of a byte sequence: its Blake2s-256 digest
/// rendered as 64 lowercase hexadecimal characters.  The digest is a
/// function of the input bytes alone.
pub uninterp spec fn strong_digest_of(data: Seq<u8>) -> Seq<char>;

/// Relies on blake2's `Blake2s256` through the `Digest` trait: `new`,
/// `update` and `finalize` produce the 32-byte Blake2s-256 digest of the
/// input, which depends on the input bytes alone; each byte is then written
/// as two lowercase hex digits.
#[verifier::external_body]
pub fn compute_strong_signature(data: &[u8]) -> (r: String)
    ensures
        r@ == strong_digest_of(data@),
        r@.len() == 64,
{
    let mut hasher = blake2::Blake2s256::new();
    hasher.update(data);
    let hash = hasher.finalize();
    let mut out = String::with_capacity(hash.len() * 2);
    for byte in hash {
        write!(&mut out, "{:02x}", byte).unwrap();
    }
    out
}

/// Shifting a window of length `n` one byte forward changes its byte sum by
/// dropping the first byte and taking in the byte past the end.
pub proof fn lemma_byte_sum_shift(data: Seq<u8>, k: int, n: int)
    requires
        0 <= k,
        0 <= n,
        k + n < data.len(),
    ensures
        byte_sum(data, k + 1, n) == byte_sum(data, k, n) - data[k] + data[k + n],
    decreases n,
{
    if n > 0 {
        lemma_byte_sum_shift(data, k, n - 1);
    }
}

/// Shifting a window one byte forward re-weights the weighted sum: the sum
/// over the shifted window equals the sum over one more byte of the old
/// window, minus the full-weight first byte, plus the plain byte sum of the
/// shifted window.
pub proof fn lemma_weighted_sum_shift(data: Seq<u8>, k: int, b: int, n: int)
    requires
        0 <= k,
        0 <= n,
        k + n < data.len(),
    ensures
        weighted_sum(data, k + 1, b, n) == weighted_sum(data, k, b, n + 1) - b * data[k]
            + byte_sum(data, k + 1, n),
    decreases n,
{
    if n == 0 {
        assert(weighted_sum(data, k, b, 1)
            == weighted_sum(data, k, b, 0) + (b - 0) * data[k + 1 - 1]);
        assert((b - 0) * data[k] == b * data[k]) by (nonlinear_arith);
    } else {
        lemma_weighted_sum_shift(data, k, b, n - 1);
        assert(weighted_sum(data, k + 1, b, n)
            == weighted_sum(data, k + 1, b, n - 1) + (b - (n - 1)) * data[k + n]);
        assert(weighted_sum(data, k, b, n + 1)
            == weighted_sum(data, k, b, n) + (b - n) * data[k + n]);
        assert(byte_sum(data, k + 1, n) == byte_sum(data, k + 1, n - 1) + data[k + n]);
        assert((b - (n - 1)) * data[k + n] == (b - n) * data[k + n] + data[k + n])
            by (nonlinear_arith);
    }
}

} // verus!
