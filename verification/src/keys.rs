use vstd::prelude::*;

verus! {

/// Storage keys are composed from two 64-bit halves: a bucket or account in
/// the high half and a per-bucket discriminant in the low half.  Packing the
/// pair into one `u128` key keeps every table a flat point store.
pub open spec fn pair_key(hi: u64, lo: u64) -> u128 {
    ((hi as u128) * 0x1_0000_0000_0000_0000 + (lo as u128)) as u128
}

/// Distinct pairs always pack to distinct keys, so point writes under one
/// pair can never clobber the entry of another.
pub broadcast proof fn lemma_pair_key_injective(h1: u64, l1: u64, h2: u64, l2: u64)
    ensures
        (#[trigger] pair_key(h1, l1) == #[trigger] pair_key(h2, l2)) <==> (h1 == h2 && l1 == l2),
{
    assert((h1 as u128) * 0x1_0000_0000_0000_0000 + (l1 as u128) == (h2 as u128)
        * 0x1_0000_0000_0000_0000 + (l2 as u128) ==> h1 == h2 && l1 == l2) by (nonlinear_arith);
}

/// Packs the two halves of a storage key.
pub fn make_pair_key(hi: u64, lo: u64) -> (k: u128)
    ensures
        k == pair_key(hi, lo),
{
    (hi as u128) * 0x1_0000_0000_0000_0000 + (lo as u128)
}

/// The `u64` read little-endian from eight bytes.
pub open spec fn le64(s: Seq<u8>) -> u64
    recommends
        s.len() == 8,
{
    (s[0] as u64) | ((s[1] as u64) << 8) | ((s[2] as u64) << 16) | ((s[3] as u64) << 24) | ((
    s[4] as u64) << 32) | ((s[5] as u64) << 40) | ((s[6] as u64) << 48) | ((s[7] as u64) << 56)
}

/// Reads a `u64` little-endian from an eight-byte identifier.
pub fn read_le64(b: &[u8; 8]) -> (x: u64)
    ensures
        x == le64(b@),
{
    (b[0] as u64) | ((b[1] as u64) << 8) | ((b[2] as u64) << 16) | ((b[3] as u64) << 24) | ((
    b[4] as u64) << 32) | ((b[5] as u64) << 40) | ((b[6] as u64) << 48) | ((b[7] as u64) << 56)
}

} // verus!
