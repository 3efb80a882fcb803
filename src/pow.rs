//! Proof-of-work helpers: the quick difficulty check that recovers a
//! block's boundary from its mix digest, Keccak hashing, and the FNV step.

use vstd::prelude::*;
use vstd::bytes::{spec_u64_to_le_bytes, u64_to_le_bytes};

use crate::codec::extend_bytes;

verus! {

pub const FNV_PRIME: u32 = 0x01000193;

/// One FNV step: multiply modulo 2^32, then xor.
pub open spec fn fnv_spec(x: u32, y: u32) -> u32 {
    (((x as int) * (FNV_PRIME as int)) % 0x1_0000_0000) as u32 ^ y
}

pub fn fnv_hash(x: u32, y: u32) -> (r: u32)
    ensures
        r == fnv_spec(x, y),
{
    x.wrapping_mul(FNV_PRIME) ^ y
}

/// Keccak-256 digest of `data`.
pub uninterp spec fn keccak256_of(data: Seq<u8>) -> Seq<u8>;

/// Keccak-512 digest of `data`.
pub uninterp spec fn keccak512_of(data: Seq<u8>) -> Seq<u8>;

/// Relies on tiny_keccak::keccak256: the Keccak-256 digest of its input.
#[verifier::external_body]
fn keccak_256(data: &[u8]) -> (r: [u8; 32])
    ensures
        r@ == keccak256_of(data@),
{
    tiny_keccak::keccak256(data)
}

/// Relies on tiny_keccak::keccak512: the Keccak-512 digest of its input.
#[verifier::external_body]
fn keccak_512(data: &[u8]) -> (r: [u8; 64])
    ensures
        r@ == keccak512_of(data@),
{
    tiny_keccak::keccak512(data)
}

/// The boundary that a header hash, nonce and mix digest reach:
/// Keccak-256 of the Keccak-512 seed of header hash and little-endian
/// nonce, followed by the mix digest.
pub open spec fn difficulty_spec(header_hash: Seq<u8>, nonce: u64, mix_hash: Seq<u8>) -> Seq<u8> {
    keccak256_of(keccak512_of(header_hash + spec_u64_to_le_bytes(nonce)) + mix_hash)
}

/// Difficulty quick check for proof-of-work preverification: the boundary
/// recovered from the mix digest.
pub fn calc_difficulty(header_hash: &[u8; 32], nonce: u64, mix_hash: &[u8; 32]) -> (r: [u8; 32])
    ensures
        r@ == difficulty_spec(header_hash@, nonce, mix_hash@),
{
    let mut seed_input: Vec<u8> = Vec::new();
    extend_bytes(&mut seed_input, header_hash.as_slice());
    let le = u64_to_le_bytes(nonce);
    extend_bytes(&mut seed_input, le.as_slice());
    let seed = keccak_512(seed_input.as_slice());
    let mut input: Vec<u8> = Vec::new();
    extend_bytes(&mut input, seed.as_slice());
    extend_bytes(&mut input, mix_hash.as_slice());
    keccak_256(input.as_slice())
}

/// Keccak-256 hashing of byte strings.
#[derive(Clone, Copy, Debug, PartialEq, Eq, Default)]
pub struct KeccakHasher;

impl KeccakHasher {
    /// The Keccak-256 digest of `x`.
    pub fn hash(x: &[u8]) -> (r: [u8; 32])
        ensures
            r@ == keccak256_of(x@),
    {
        keccak_256(x)
    }
}

} // verus!
