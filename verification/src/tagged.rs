//! Addresses that carry metadata in their low bits, as the server's
//! lock-free list tags its links.
use vstd::prelude::*;

verus! {

/// The word whose lowest `bits` bits are set.
pub open spec fn low_mask(bits: u32) -> usize {
    ((1usize << bits) - 1usize) as usize
}

/// The mask of the metadata bits: the lowest `bits` bits.
pub fn meta_mask(bits: u32) -> (r: usize)
    requires
        bits < usize::BITS,
    ensures
        r == low_mask(bits),
{
    let mut result: usize = 0;
    let mut i: u32 = 0;
    proof {
        assert(((1usize << 0u32) - 1usize) as usize == 0usize) by (bit_vector);
    }
    while bits > i
        invariant
            i <= bits < usize::BITS,
            result == low_mask(i),
        decreases bits - i,
    {
        proof {
            assert(((1usize << i) - 1usize) as usize | (1usize << i) == ((1usize << (i + 1) as u32) - 1usize)
                as usize) by (bit_vector)
                requires
                    i < usize::BITS,
            ;
        }
        result = result | (1usize << i);
        i = i + 1;
    }
    result
}

/// The metadata of a tagged address: its low `bits` bits.
pub fn get_metadata(addr: usize, bits: u32) -> (r: usize)
    requires
        bits < usize::BITS,
    ensures
        r == addr & low_mask(bits),
{
    addr & meta_mask(bits)
}

/// The address with its metadata bits cleared.
pub fn strip_metadata(addr: usize, bits: u32) -> (r: usize)
    requires
        bits < usize::BITS,
    ensures
        r == addr & !low_mask(bits),
{
    addr & !meta_mask(bits)
}

/// The address with the bits of `metadata` set.
pub fn merge_ptr_and_metadata(addr: usize, metadata: usize) -> (r: usize)
    ensures
        r == addr | metadata,
{
    addr | metadata
}

/// An address is its stripped address with its metadata put back; tagging
/// a stripped address with metadata that fits the mask gives back that
/// metadata and that stripped address.
pub proof fn lemma_metadata_roundtrip(addr: usize, meta: usize, bits: u32)
    requires
        bits < usize::BITS,
    ensures
        (addr & !low_mask(bits)) | (addr & low_mask(bits)) == addr,
        ((addr & !low_mask(bits)) | (meta & low_mask(bits))) & low_mask(bits) == meta & low_mask(bits),
        ((addr & !low_mask(bits)) | (meta & low_mask(bits))) & !low_mask(bits) == addr & !low_mask(bits),
{
    let m = low_mask(bits);
    assert((addr & !m) | (addr & m) == addr) by (bit_vector);
    assert(((addr & !m) | (meta & m)) & m == meta & m) by (bit_vector);
    assert(((addr & !m) | (meta & m)) & !m == addr & !m) by (bit_vector);
}

/// The bit of a link's metadata that marks the node as being deleted.
pub const DELETION_MARKER: usize = 2;

/// The bit of a link's metadata that marks the node as detached.
pub const DETACHED_MARKER: usize = 1;

/// The metadata of a link of the lock-free list.
#[derive(Copy, Clone)]
pub struct Metadata(pub usize);

impl Metadata {
    /// Whether the node is being deleted.
    pub fn get_deletion_marker(&self) -> (r: bool)
        ensures
            r == (self.0 & DELETION_MARKER != 0),
    {
        (self.0 & DELETION_MARKER) != 0
    }

    /// Whether the node is detached.
    pub fn get_detached_marker(&self) -> (r: bool)
        ensures
            r == (self.0 & DETACHED_MARKER != 0),
    {
        (self.0 & DETACHED_MARKER) != 0
    }
}

} // verus!
