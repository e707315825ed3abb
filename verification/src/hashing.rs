//! Trusted access to the host's hashing and serialization primitives: the
//! Blake2 and XX hashes and the SCALE codec's fixed-width encoding.  The
//! digests are named, not spelled out: `blake2_128_of` and `twox_64_of`
//! stand for whatever the hash returns, a function of the input bytes
//! alone.

use parity_scale_codec::Encode;

use vstd::prelude::*;

verus! {

/// The 16-byte Blake2b digest of `data`.
pub uninterp spec fn blake2_128_of(data: Seq<u8>) -> Seq<u8>;

/// The 8-byte XX digest of `data`.
pub uninterp spec fn twox_64_of(data: Seq<u8>) -> Seq<u8>;

/// The little-endian bytes of a `u64`.
pub open spec fn u64_le_bytes(x: u64) -> Seq<u8> {
    seq![
        (x & 0xff) as u8,
        ((x >> 8) & 0xff) as u8,
        ((x >> 16) & 0xff) as u8,
        ((x >> 24) & 0xff) as u8,
        ((x >> 32) & 0xff) as u8,
        ((x >> 40) & 0xff) as u8,
        ((x >> 48) & 0xff) as u8,
        ((x >> 56) & 0xff) as u8,
    ]
}

/// The little-endian bytes of a `u32`.
pub open spec fn u32_le_bytes(x: u32) -> Seq<u8> {
    seq![(x & 0xff) as u8, ((x >> 8) & 0xff) as u8, ((x >> 16) & 0xff) as u8, ((x >> 24)
        & 0xff) as u8]
}

/// Relies on sp_io::hashing::blake2_128: the 16-byte Blake2b digest of the
/// input, a function of the input bytes alone.
#[verifier::external_body]
pub fn blake2_128(data: &[u8]) -> (r: [u8; 16])
    ensures
        r@ == blake2_128_of(data@),
        r@.len() == 16,
{
    sp_io::hashing::blake2_128(data)
}

/// Relies on sp_io::hashing::twox_64: the 8-byte XX digest of the input, a
/// function of the input bytes alone.
#[verifier::external_body]
pub fn twox_64(data: &[u8]) -> (r: [u8; 8])
    ensures
        r@ == twox_64_of(data@),
        r@.len() == 8,
{
    sp_io::hashing::twox_64(data)
}

/// Relies on parity_scale_codec::Encode for `([u8; 32], u64, u32)`: SCALE
/// encodes a byte array as its bytes, fixed-width unsigned integers as
/// their little-endian bytes, and a tuple as the concatenation of its
/// fields' encodings.
#[verifier::external_body]
pub fn encode_random_payload(seed: &[u8; 32], sender: u64, index: u32) -> (r: Vec<u8>)
    ensures
        r@ == seed@ + u64_le_bytes(sender) + u32_le_bytes(index),
{
    (*seed, sender, index).encode()
}

/// Relies on parity_scale_codec::Encode for `(u64, u32)`: SCALE encodes
/// fixed-width unsigned integers as their little-endian bytes and a tuple
/// as the concatenation of its fields' encodings.
#[verifier::external_body]
pub fn encode_lock_payload(account: u64, index: u32) -> (r: Vec<u8>)
    ensures
        r@ == u64_le_bytes(account) + u32_le_bytes(index),
{
    (account, index).encode()
}

} // verus!
