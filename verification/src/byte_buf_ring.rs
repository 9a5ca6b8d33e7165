//! The markers of the client's ring buffer of audio frames: a head position
//! and two counters packed into one word, so that one atomic addition moves
//! all three; and the buffer's checks for room, for something to remove, and
//! where an entry is read.
use vstd::prelude::*;

verus! {

/// A head position (the low 32 bits), a count of started entries (the next
/// 16 bits) and a count of finished entries (the top 16 bits) in one word.
#[derive(Copy, Clone)]
pub struct Marker(u64);

/// The word of a marker with the given parts; parts too wide for their
/// place spill into the bits of the next part.
pub open spec fn marker_word(head: u64, len: u64, finished_len: u64) -> u64 {
    head | (len << 32u64) | (finished_len << 48u64)
}

impl Marker {
    /// The word the marker is.
    pub closed spec fn raw(self) -> u64 {
        self.0
    }

    /// A marker with the given parts.
    pub fn new(head: u64, len: u64, finished_len: u64) -> (r: Self)
        ensures
            r.raw() == marker_word(head, len, finished_len),
    {
        Marker(head | (len << 32) | (finished_len << 48))
    }

    /// The marker that is the given word.
    pub fn from_raw(raw: u64) -> (r: Self)
        ensures
            r.raw() == raw,
    {
        Marker(raw)
    }

    /// The head position.
    pub fn head(&self) -> (r: u64)
        ensures
            r == self.raw() % 0x1_0000_0000,
    {
        let r = self.0 & 0xffff_ffff;
        proof {
            let v = self.0;
            assert(v & 0xffff_ffff == v % 0x1_0000_0000) by (bit_vector);
        }
        r
    }

    /// The number of started entries.
    pub fn len(&self) -> (r: u64)
        ensures
            r == self.raw() / 0x1_0000_0000 % 0x1_0000,
    {
        let r = (self.0 & (0xffff << 32)) >> 32;
        proof {
            let v = self.0;
            assert((v & (0xffffu64 << 32u64)) >> 32u64 == v / 0x1_0000_0000 % 0x1_0000) by (bit_vector);
        }
        r
    }

    /// The number of finished entries.
    pub fn finished_len(&self) -> (r: u64)
        ensures
            r == self.raw() / 0x1_0000_0000_0000,
    {
        let r = (self.0 & (0xffff << 48)) >> 48;
        proof {
            let v = self.0;
            assert((v & (0xffffu64 << 48u64)) >> 48u64 == v / 0x1_0000_0000_0000) by (bit_vector);
        }
        r
    }

    /// The word the marker is.
    pub fn into_raw(self) -> (r: u64)
        ensures
            r == self.raw(),
    {
        self.0
    }
}

/// The parts of a marker made from parts that fit their places read back
/// unchanged.
pub proof fn lemma_marker_parts(head: u64, len: u64, finished_len: u64)
    requires
        head < 0x1_0000_0000,
        len < 0x1_0000,
        finished_len < 0x1_0000,
    ensures
        marker_word(head, len, finished_len) % 0x1_0000_0000 == head,
        marker_word(head, len, finished_len) / 0x1_0000_0000 % 0x1_0000 == len,
        marker_word(head, len, finished_len) / 0x1_0000_0000_0000 == finished_len,
{
    assert((head | (len << 32u64) | (finished_len << 48u64)) % 0x1_0000_0000 == head) by (bit_vector)
        requires
            head < 0x1_0000_0000,
            len < 0x1_0000,
            finished_len < 0x1_0000,
    ;
    assert((head | (len << 32u64) | (finished_len << 48u64)) / 0x1_0000_0000 % 0x1_0000 == len) by (bit_vector)
        requires
            head < 0x1_0000_0000,
            len < 0x1_0000,
            finished_len < 0x1_0000,
    ;
    assert((head | (len << 32u64) | (finished_len << 48u64)) / 0x1_0000_0000_0000 == finished_len) by (bit_vector)
        requires
            head < 0x1_0000_0000,
            len < 0x1_0000,
            finished_len < 0x1_0000,
    ;
}

/// Adding the words of two markers adds their parts, as long as no sum
/// overflows its place: this is what lets one atomic addition advance a
/// marker.
pub proof fn lemma_marker_add(h1: u64, l1: u64, f1: u64, h2: u64, l2: u64, f2: u64)
    requires
        h1 + h2 < 0x1_0000_0000,
        l1 + l2 < 0x1_0000,
        f1 + f2 < 0x1_0000,
    ensures
        marker_word(h1, l1, f1) + marker_word(h2, l2, f2) == marker_word(
            (h1 + h2) as u64,
            (l1 + l2) as u64,
            (f1 + f2) as u64,
        ),
{
    let h = (h1 + h2) as u64;
    let l = (l1 + l2) as u64;
    let f = (f1 + f2) as u64;
    assert((h1 | (l1 << 32u64) | (f1 << 48u64)) + (h2 | (l2 << 32u64) | (f2 << 48u64)) == (h | (l << 32u64) | (f
        << 48u64))) by (bit_vector)
        requires
            h == h1 + h2,
            l == l1 + l2,
            f == f1 + f2,
            h1 + h2 < 0x1_0000_0000,
            l1 + l2 < 0x1_0000,
            f1 + f2 < 0x1_0000,
    ;
}

/// The bytes in front of each entry of the ring buffer that hold its length.
pub const LEN_HEADER: u64 = 4;

/// The largest capacity a ring buffer can be made with: its positions must
/// fit in the 16-bit halves of the marker's upper word.
pub const MAX_RING_CAPACITY: u64 = 32765;

/// Whether a ring buffer can be made with capacity `cap`.
pub fn capacity_fits(cap: u64) -> (r: bool)
    ensures
        r == (cap <= MAX_RING_CAPACITY),
{
    cap <= MAX_RING_CAPACITY
}

/// Whether an entry of `data_len` bytes fits when writing has reached
/// `head` and removing has reached `remove_head`: the bytes in use, the entry
/// and its length header must stay below the capacity.
pub fn push_fits(head: u64, remove_head: u64, data_len: u64, cap: u64) -> (r: bool)
    requires
        remove_head <= head,
    ensures
        r == (head - remove_head + data_len + LEN_HEADER < cap),
{
    let used = head - remove_head;
    match used.checked_add(data_len) {
        Some(n) => match n.checked_add(LEN_HEADER) {
            Some(total) => total < cap,
            None => false,
        },
        None => false,
    }
}

/// Whether an entry can be removed: fewer entries were taken out than were
/// finished being written.
pub fn can_pop(removed: u64, finished: u64) -> (r: bool)
    ensures
        r == (removed < finished),
{
    removed < finished
}

/// Where in the buffer the entry at position `head` is read from.
pub fn read_offset(head: u64, cap: u64) -> (r: u64)
    requires
        cap > 0,
    ensures
        r == head % cap,
        r < cap,
{
    head % cap
}

} // verus!
