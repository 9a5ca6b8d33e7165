//! Facts about vstd's little-endian encodings that the codec relies on.
use vstd::bytes::*;
use vstd::prelude::*;

verus! {

pub broadcast proof fn lemma_le_u16(v: u16)
    ensures
        #[trigger] spec_u16_to_le_bytes(v).len() == 2,
        spec_u16_from_le_bytes(spec_u16_to_le_bytes(v)) == v,
{
    lemma_auto_spec_u16_to_from_le_bytes();
    assert(spec_u16_to_le_bytes(v).len() == 2);
}

pub broadcast proof fn lemma_le_u32(v: u32)
    ensures
        #[trigger] spec_u32_to_le_bytes(v).len() == 4,
        spec_u32_from_le_bytes(spec_u32_to_le_bytes(v)) == v,
{
    lemma_auto_spec_u32_to_from_le_bytes();
    assert(spec_u32_to_le_bytes(v).len() == 4);
}

pub broadcast proof fn lemma_le_u64(v: u64)
    ensures
        #[trigger] spec_u64_to_le_bytes(v).len() == 8,
        spec_u64_from_le_bytes(spec_u64_to_le_bytes(v)) == v,
{
    lemma_auto_spec_u64_to_from_le_bytes();
    assert(spec_u64_to_le_bytes(v).len() == 8);
}

pub broadcast proof fn lemma_le_u128(v: u128)
    ensures
        #[trigger] spec_u128_to_le_bytes(v).len() == 16,
        spec_u128_from_le_bytes(spec_u128_to_le_bytes(v)) == v,
{
    lemma_auto_spec_u128_to_from_le_bytes();
    assert(spec_u128_to_le_bytes(v).len() == 16);
}

pub broadcast group group_le_bytes {
    lemma_le_u16,
    lemma_le_u32,
    lemma_le_u64,
    lemma_le_u128,
}

} // verus!
