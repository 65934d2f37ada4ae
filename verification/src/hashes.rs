//! The hash primitives the key derivation and the identifier checksum
//! rest on. Each digest is named by an uninterpreted function of the
//! input alone; the outside calls stand behind trusted wrappers, and the
//! 128-bit twox composition is verified on top of them.
use vstd::prelude::*;
use core::hash::Hasher;
use blake2::digest::consts::U16;
use blake2::{Blake2b, Blake2b512, Digest};
use twox_hash::XxHash64;
use crate::le::{le_bytes, lemma_le_bytes_len, lemma_pow256_16, pow256, push_le};

verus! {

/// What the 64-bit xxHash of `data` under `seed` is: a pure function of
/// its two arguments.
pub uninterp spec fn xxhash64_of(seed: u64, data: Seq<u8>) -> u64;

/// What the 16-byte Blake2b digest of `data` is.
pub uninterp spec fn blake2b128_of(data: Seq<u8>) -> Seq<u8>;

/// What the 64-byte Blake2b digest of `data` is.
pub uninterp spec fn blake2b512_of(data: Seq<u8>) -> Seq<u8>;

/// Relies on twox_hash::XxHash64: the streaming xxHash64 of `data`
/// seeded with `seed`, a deterministic function of seed and data.
#[verifier::external_body]
pub(crate) fn xxhash64(seed: u64, data: &Vec<u8>) -> (r: u64)
    ensures
        r == xxhash64_of(seed, data@),
{
    let mut h = XxHash64::with_seed(seed);
    h.write(data.as_slice());
    h.finish()
}

/// Relies on blake2::Blake2b with a 16-byte output size: the Blake2b
/// digest of `data` with digest length 16, deterministic in `data`.
#[verifier::external_body]
pub(crate) fn blake2b128(data: &Vec<u8>) -> (r: Vec<u8>)
    ensures
        r@ == blake2b128_of(data@),
        r@.len() == 16,
{
    let mut h: Blake2b<U16> = Blake2b::new();
    h.update(data.as_slice());
    h.finalize().to_vec()
}

/// Relies on blake2::Blake2b512: the Blake2b digest of `data` with
/// digest length 64, deterministic in `data`.
#[verifier::external_body]
pub(crate) fn blake2b512(data: &Vec<u8>) -> (r: Vec<u8>)
    ensures
        r@ == blake2b512_of(data@),
        r@.len() == 64,
{
    let mut h = Blake2b512::new();
    h.update(data.as_slice());
    h.finalize().to_vec()
}

/// The 128-bit twox hash: the little-endian bytes of two xxHash64 runs
/// over the same data, seeded 0 and 1.
pub open spec fn twox128_s(data: Seq<u8>) -> Seq<u8> {
    le_bytes(xxhash64_of(0, data) as nat, 8) + le_bytes(xxhash64_of(1, data) as nat, 8)
}

pub proof fn lemma_twox128_len(data: Seq<u8>)
    ensures
        twox128_s(data).len() == 16,
{
    lemma_le_bytes_len(xxhash64_of(0, data) as nat, 8);
    lemma_le_bytes_len(xxhash64_of(1, data) as nat, 8);
}

/// Computes the 128-bit twox hash of `data`.
pub fn twox128(data: &Vec<u8>) -> (r: Vec<u8>)
    ensures
        r@ == twox128_s(data@),
        r@.len() == 16,
{
    let h0 = xxhash64(0, data);
    let h1 = xxhash64(1, data);
    let mut out: Vec<u8> = Vec::new();
    proof {
        lemma_pow256_16();
        assert((h0 as nat) < pow256(8));
        assert((h1 as nat) < pow256(8));
    }
    push_le(&mut out, h0 as u128, 8);
    push_le(&mut out, h1 as u128, 8);
    proof {
        lemma_twox128_len(data@);
        assert(out@ =~= twox128_s(data@));
    }
    out
}

} // verus!
