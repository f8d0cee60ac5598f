//! Perceptual hashing — the "resist duplication of content" invariant.
//!
//! Source URLs dedupe exact re-submissions; the pHash catches the same
//! *picture* arriving under a different URL. Hashes are 64-bit dHashes
//! computed from the resolved media and compared by Hamming distance — a
//! near match flags the submission to moderators, it never auto-rejects.

use vstd::prelude::*;
use vstd::arithmetic::power2::{lemma_pow2_adds, lemma_pow2_strictly_increases, lemma2_to64, lemma2_to64_rest, pow2};

verus! {

#[derive(Debug)]
pub enum PHashError {
    Fetch(String),
    Decode(String),
}

/// Hamming distance ceiling at or under which two hashes read as "the same
/// picture". dHash convention: 0 = identical, ≤10 = near-duplicate.
pub const NEAR_DUPLICATE_DISTANCE: u32 = 10;

/// The number of one bits among the low `k` bits of `x`.
pub open spec fn ones(x: nat, k: nat) -> nat
    decreases k,
{
    if k == 0 {
        0
    } else {
        (x % 2) + ones(x / 2, (k - 1) as nat)
    }
}

/// The Hamming distance of two 64-bit hashes: the bits in which they differ.
pub open spec fn hamming_spec(a: u64, b: u64) -> nat {
    ones((a ^ b) as nat, 64)
}

pub proof fn lemma_ones_bound(x: nat, k: nat)
    ensures
        ones(x, k) <= k,
    decreases k,
{
    if k > 0 {
        lemma_ones_bound(x / 2, (k - 1) as nat);
    }
}

pub proof fn lemma_ones_zero(k: nat)
    ensures
        ones(0, k) == 0,
    decreases k,
{
    if k > 0 {
        lemma_ones_zero((k - 1) as nat);
    }
}

/// Bits differing between two 64-bit hashes.
pub fn hamming(a: u64, b: u64) -> (d: u32)
    ensures
        d == hamming_spec(a, b),
        d <= 64,
{
    let v = a ^ b;
    let mut x = v;
    let mut count: u32 = 0;
    let mut i: u32 = 0;
    proof {
        lemma_ones_bound(v as nat, 64);
    }
    while i < 64
        invariant
            i <= 64,
            count <= i,
            count + ones(x as nat, (64 - i) as nat) == ones(v as nat, 64),
        decreases 64 - i,
    {
        count = count + (x % 2) as u32;
        x = x / 2;
        i = i + 1;
    }
    count
}

/// The Hamming distance is symmetric and zero between equal hashes.
pub proof fn hamming_laws(a: u64, b: u64)
    ensures
        hamming_spec(a, b) == hamming_spec(b, a),
        hamming_spec(a, a) == 0,
        hamming_spec(a, b) <= 64,
{
    assert(a ^ b == b ^ a) by (bit_vector);
    assert(a ^ a == 0) by (bit_vector);
    lemma_ones_zero(64);
    lemma_ones_bound((a ^ b) as nat, 64);
}

/// `2^k`.
pub open spec fn two_pow(k: nat) -> nat
    decreases k,
{
    if k == 0 { 1 } else { 2 * two_pow((k - 1) as nat) }
}

/// A number below `2^k` with no one bit among its low `k` bits is zero.
pub proof fn lemma_ones_zero_only(x: nat, k: nat)
    requires
        x < two_pow(k),
        ones(x, k) == 0,
    ensures
        x == 0,
    decreases k,
{
    if k > 0 {
        lemma_ones_zero_only(x / 2, (k - 1) as nat);
    }
}

/// Per bit, a difference from `a` to `c` is a difference from `a` to `b` or
/// from `b` to `c`.
pub proof fn lemma_ones_triangle(a: u64, b: u64, c: u64, k: nat)
    ensures
        ones((a ^ c) as nat, k) <= ones((a ^ b) as nat, k) + ones((b ^ c) as nat, k),
    decreases k,
{
    if k > 0 {
        assert((a ^ c) / 2 == (a / 2) ^ (c / 2)) by (bit_vector);
        assert((a ^ b) / 2 == (a / 2) ^ (b / 2)) by (bit_vector);
        assert((b ^ c) / 2 == (b / 2) ^ (c / 2)) by (bit_vector);
        assert((a ^ c) % 2 <= (a ^ b) % 2 + (b ^ c) % 2) by (bit_vector);
        lemma_ones_triangle(a / 2, b / 2, c / 2, (k - 1) as nat);
    }
}

/// The Hamming distance is a metric on hashes: zero exactly between equal
/// hashes, and never longer than a detour through a third hash.
pub proof fn hamming_metric(a: u64, b: u64, c: u64)
    ensures
        hamming_spec(a, b) == 0 <==> a == b,
        hamming_spec(a, c) <= hamming_spec(a, b) + hamming_spec(b, c),
{
    assert(two_pow(64) == 0x1_0000_0000_0000_0000) by {
        reveal_with_fuel(two_pow, 65);
    }
    if hamming_spec(a, b) == 0 {
        lemma_ones_zero_only((a ^ b) as nat, 64);
        assert(a ^ b == 0 ==> a == b) by (bit_vector);
    }
    if a == b {
        assert(a ^ a == 0) by (bit_vector);
        lemma_ones_zero(64);
    }
    lemma_ones_triangle(a, b, c, 64);
}

/// How many of the bits `lo`, `lo + 1`, … (`k` of them, below 64) differ
/// between `a` and `b`.
pub open spec fn differing_bits(a: u64, b: u64, lo: u64, k: nat) -> nat
    decreases k,
{
    if k == 0 || lo >= 64 {
        0
    } else {
        (if (a >> lo) & 1 != (b >> lo) & 1 { 1nat } else { 0nat }) + differing_bits(a, b, (lo + 1) as u64, (k - 1) as nat)
    }
}

proof fn lemma_ones_differing(a: u64, b: u64, lo: u64, k: nat)
    requires
        lo + k <= 64,
    ensures
        ones(((a ^ b) >> lo) as nat, k) == differing_bits(a, b, lo, k),
    decreases k,
{
    if k > 0 {
        assert(((a ^ b) >> lo) % 2 == (if (a >> lo) & 1 != (b >> lo) & 1 { 1u64 } else { 0u64 })) by (bit_vector)
            requires
                lo < 64,
        ;
        assert(((a ^ b) >> lo) / 2 == (a ^ b) >> ((lo + 1) as u64)) by (bit_vector)
            requires
                lo < 64,
        ;
        lemma_ones_differing(a, b, (lo + 1) as u64, (k - 1) as nat);
    }
}

/// The Hamming distance is the number of bit positions `0..64` at which
/// the two hashes differ.
pub proof fn lemma_hamming_bits(a: u64, b: u64)
    ensures
        hamming_spec(a, b) == differing_bits(a, b, 0, 64),
{
    assert((a ^ b) >> 0u64 == a ^ b) by (bit_vector);
    lemma_ones_differing(a, b, 0, 64);
}

// ---------------------------------------------------------------- dHash ----

/// Bit `n` of the dHash (most significant first): pixel `(x, y)` darker
/// than its right neighbour in the 9×8 grayscale thumbnail `p`.
pub open spec fn dhash_bit(p: Seq<u8>, n: int) -> nat {
    let y = n / 8;
    let x = n % 8;
    if p[y * 9 + x] < p[y * 9 + x + 1] { 1 } else { 0 }
}

/// The first `n` dHash bits packed into an integer.
pub open spec fn dhash_prefix(p: Seq<u8>, n: nat) -> nat
    decreases n,
{
    if n == 0 {
        0
    } else {
        dhash_prefix(p, (n - 1) as nat) * 2 + dhash_bit(p, n - 1)
    }
}

/// The 64-bit dHash of a 9×8 grayscale thumbnail (row-major, 72 bytes).
pub open spec fn dhash_spec(p: Seq<u8>) -> nat {
    dhash_prefix(p, 64)
}

/// The dHash of a decoded 9×8 grayscale thumbnail.
pub fn dhash_of_thumbnail(p: &[u8]) -> (h: u64)
    requires
        p.len() == 72,
    ensures
        h == dhash_spec(p@),
{
    let mut hash: u64 = 0;
    let mut n: usize = 0;
    proof {
        lemma2_to64();
        lemma2_to64_rest();
    }
    while n < 64
        invariant
            n <= 64,
            p.len() == 72,
            hash == dhash_prefix(p@, n as nat),
            hash < pow2(n as nat),
            pow2(64) == 0x10000000000000000,
        decreases 64 - n,
    {
        let y = n / 8;
        let x = n % 8;
        let bit: u64 = if p[y * 9 + x] < p[y * 9 + x + 1] { 1 } else { 0 };
        proof {
            lemma_pow2_adds(n as nat, 1);
            lemma2_to64();
            if n + 1 < 64 {
                lemma_pow2_strictly_increases((n + 1) as nat, 64);
            }
        }
        hash = hash * 2 + bit;
        n = n + 1;
    }
    hash
}

/// The `width`×`height` 8-bit grayscale thumbnail (row-major) that the
/// `image` crate decodes and resizes from an encoded image.
pub uninterp spec fn luma_thumbnail(bytes: Seq<u8>, width: u32, height: u32) -> Option<Seq<u8>>;

/// Decodes `bytes` with `image::load_from_memory`, converts to 8-bit luma
/// and resizes to `width`×`height` (triangle filter). Trusted: the result
/// is the named thumbnail, one byte per pixel, and decoding fails exactly
/// when it is `None`; the error message is left unconstrained.
#[verifier::external_body]
fn decode_thumbnail(bytes: &[u8], width: u32, height: u32) -> (r: Result<Vec<u8>, String>)
    requires
        width > 0,
        height > 0,
    ensures
        match r {
            Ok(p) => luma_thumbnail(bytes@, width, height) == Some(p@) && p.len() == width * height,
            Err(_) => luma_thumbnail(bytes@, width, height) is None,
        },
{
    let img = image::load_from_memory(bytes).map_err(|e| e.to_string())?;
    let gray = image::imageops::resize(&img.to_luma8(), width, height, image::imageops::FilterType::Triangle);
    Ok(gray.into_raw())
}

/// The 64-bit dHash of an encoded image: grayscale, shrink to 9×8, each
/// bit "left pixel darker than its right neighbour".
pub fn dhash(bytes: &[u8]) -> (r: Result<u64, PHashError>)
    ensures
        match r {
            Ok(h) => luma_thumbnail(bytes@, 9, 8) is Some && h == dhash_spec(luma_thumbnail(bytes@, 9, 8)->0),
            Err(e) => luma_thumbnail(bytes@, 9, 8) is None && e is Decode,
        },
{
    match decode_thumbnail(bytes, 9, 8) {
        Ok(p) => Ok(dhash_of_thumbnail(p.as_slice())),
        Err(msg) => Err(PHashError::Decode(msg)),
    }
}

} // verus!
