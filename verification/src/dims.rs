//! Sizes kept as one 64-bit word, texture coordinates, and identifiers of
//! the renderer's atlases and glyphs.
use vstd::prelude::*;

verus! {

/// A width and a height as one word: the width in the low 32 bits, the
/// height in the high 32 bits.
pub open spec fn spec_pack(width: u32, height: u32) -> u64 {
    (width as int + height as int * 0x1_0000_0000) as u64
}

/// Packs a width and a height into one word.
pub fn pack_dims(width: u32, height: u32) -> (r: u64)
    ensures
        r == spec_pack(width, height),
{
    let r = width as u64 | ((height as u64) << 32);
    proof {
        let w = width as u64;
        let h = height as u64;
        assert(w | (h << 32) == w + h * 0x1_0000_0000) by (bit_vector)
            requires
                w < 0x1_0000_0000,
                h < 0x1_0000_0000,
        ;
    }
    r
}

/// The width and the height held in a word.
pub fn unpack_dims(v: u64) -> (r: (u32, u32))
    ensures
        r.0 == v % 0x1_0000_0000,
        r.1 == v / 0x1_0000_0000,
{
    let r = (v as u32, (v >> 32) as u32);
    proof {
        assert(v as u32 == v % 0x1_0000_0000) by (bit_vector);
        assert((v >> 32) as u32 == v / 0x1_0000_0000) by (bit_vector);
    }
    r
}

/// Unpacking a packed word gives back the width and the height.
pub proof fn lemma_pack_unpack(width: u32, height: u32)
    ensures
        spec_pack(width, height) % 0x1_0000_0000 == width,
        spec_pack(width, height) / 0x1_0000_0000 == height,
{
    let v = width as int + height as int * 0x1_0000_0000;
    assert(v < 0x1_0000_0000_0000_0000);
    assert(v % 0x1_0000_0000 == width) by (nonlinear_arith)
        requires
            v == width as int + height as int * 0x1_0000_0000,
            0 <= width < 0x1_0000_0000,
            0 <= height,
    ;
    assert(v / 0x1_0000_0000 == height) by (nonlinear_arith)
        requires
            v == width as int + height as int * 0x1_0000_0000,
            0 <= width < 0x1_0000_0000,
            0 <= height,
    ;
}

/// The size of a window, as one word.
pub struct Dimensions {
    inner: u64,
}

impl View for Dimensions {
    type V = (u32, u32);

    closed spec fn view(&self) -> (u32, u32) {
        ((self.inner % 0x1_0000_0000) as u32, (self.inner / 0x1_0000_0000) as u32)
    }
}

impl Dimensions {
    /// A size of `width` by `height`.
    pub fn new(width: u32, height: u32) -> (r: Self)
        ensures
            r@ == (width, height),
    {
        proof {
            lemma_pack_unpack(width, height);
        }
        Dimensions { inner: pack_dims(width, height) }
    }

    /// The width and the height.
    pub fn get(&self) -> (r: (u32, u32))
        ensures
            r == self@,
    {
        unpack_dims(self.inner)
    }

    /// Changes the size to `width` by `height`.
    pub fn set(&mut self, width: u32, height: u32)
        ensures
            final(self)@ == (width, height),
    {
        proof {
            lemma_pack_unpack(width, height);
        }
        self.inner = pack_dims(width, height);
    }
}

/// The size of an atlas's texture, as one word.
pub struct Size(u64);

impl View for Size {
    type V = (u32, u32);

    closed spec fn view(&self) -> (u32, u32) {
        ((self.0 % 0x1_0000_0000) as u32, (self.0 / 0x1_0000_0000) as u32)
    }
}

impl Size {
    /// A size of `width` by `height`.
    pub fn new(width: u32, height: u32) -> (r: Self)
        ensures
            r@ == (width, height),
    {
        proof {
            lemma_pack_unpack(width, height);
        }
        Size(pack_dims(width, height))
    }

    /// The width and the height.
    pub fn get(&self) -> (r: (u32, u32))
        ensures
            r == self@,
    {
        unpack_dims(self.0)
    }

    /// Changes the size to `width` by `height`.
    pub fn set(&mut self, width: u32, height: u32)
        ensures
            final(self)@ == (width, height),
    {
        proof {
            lemma_pack_unpack(width, height);
        }
        self.0 = pack_dims(width, height);
    }
}

/// A position in a texture atlas.
#[derive(Copy, Clone)]
pub struct UV(pub u32, pub u32);

impl UV {
    /// The two coordinates as an array.
    pub fn into_array(self) -> (r: [u32; 2])
        ensures
            r@ == seq![self.0, self.1],
    {
        let r = [self.0, self.1];
        proof {
            assert(r@ =~= seq![self.0, self.1]);
        }
        r
    }

    /// The two coordinates as a pair.
    pub fn into_tuple(self) -> (r: (u32, u32))
        ensures
            r == (self.0, self.1),
    {
        (self.0, self.1)
    }
}

/// The identity of a texture atlas.
#[derive(Copy, Clone, PartialEq, Eq, Hash, Structural)]
pub struct AtlasId(usize);

/// Where new atlas identities come from: a counter, advanced by one for each
/// identity handed out and wrapping around at its limit.
pub struct AtlasIdCounter {
    next: usize,
}

impl View for AtlasIdCounter {
    type V = usize;

    closed spec fn view(&self) -> usize {
        self.next
    }
}

impl AtlasId {
    /// The number of the identity.
    pub closed spec fn value(self) -> usize {
        self.0
    }

    /// A new identity: the counter's value, after which the counter moves on
    /// by one.
    pub fn generate(counter: &mut AtlasIdCounter) -> (r: Self)
        ensures
            r.value() == old(counter)@,
            final(counter)@ == if old(counter)@ == usize::MAX {
                0
            } else {
                (old(counter)@ + 1) as usize
            },
    {
        let id = counter.next;
        counter.next = if id == usize::MAX {
            0
        } else {
            id + 1
        };
        AtlasId(id)
    }
}

impl AtlasIdCounter {
    /// A counter that starts at zero.
    pub fn new() -> (r: Self)
        ensures
            r@ == 0,
    {
        AtlasIdCounter { next: 0 }
    }
}

/// The identity of a glyph of the renderer.
pub struct GlyphId(usize);

impl GlyphId {
    /// The identity with number `raw`.
    pub fn from_raw(raw: usize) -> (r: Self)
        ensures
            r.as_raw_spec() == raw,
    {
        GlyphId(raw)
    }

    /// The number of the identity.
    pub closed spec fn as_raw_spec(&self) -> usize {
        self.0
    }

    /// The number of the identity.
    pub fn as_raw(&self) -> (r: usize)
        ensures
            r == self.as_raw_spec(),
    {
        self.0
    }
}

/// Two identities handed out one after the other are different.
pub proof fn lemma_successive_ids_differ(n: usize)
    ensures
        n != (if n == usize::MAX {
            0
        } else {
            (n + 1) as usize
        }),
{
}

/// The counter's value after handing out one identity.
pub open spec fn spec_next_id(c: usize) -> usize {
    if c == usize::MAX {
        0
    } else {
        (c + 1) as usize
    }
}

/// The identities that `n` calls of `AtlasId::generate` hand out, one after
/// the other, from a counter at `c`.
pub open spec fn spec_generated(c: usize, n: nat) -> Seq<usize>
    decreases n,
{
    if n == 0 {
        Seq::empty()
    } else {
        seq![c] + spec_generated(spec_next_id(c), (n - 1) as nat)
    }
}

/// The `i`-th identity handed out from a counter at `c`.
pub open spec fn spec_nth_id(c: usize, i: int) -> int {
    if c + i <= usize::MAX {
        c + i
    } else {
        c + i - usize::MAX - 1
    }
}

proof fn lemma_generated_nth(c: usize, n: nat)
    requires
        n <= usize::MAX as nat + 1,
    ensures
        spec_generated(c, n).len() == n,
        forall|i: int| 0 <= i < n ==> #[trigger] spec_generated(c, n)[i] == spec_nth_id(c, i),
    decreases n,
{
    if n > 0 {
        let d = spec_next_id(c);
        lemma_generated_nth(d, (n - 1) as nat);
        assert forall|i: int| 0 <= i < n implies #[trigger] spec_generated(c, n)[i] == spec_nth_id(c, i) by {
            if i > 0 {
                assert(spec_generated(c, n)[i] == spec_generated(d, (n - 1) as nat)[i - 1]);
            }
        }
    }
}

/// Identities handed out by one counter are all different as long as fewer
/// calls than the counter has values were made; each is the one before plus
/// one, wrapping around at the limit. Calls from several threads take effect
/// one after the other on the counter, so this holds of them too.
pub proof fn lemma_generated_ids_unique(c: usize, n: nat)
    requires
        n <= usize::MAX as nat + 1,
    ensures
        spec_generated(c, n).len() == n,
        forall|i: int, j: int| 0 <= i < j < n ==> spec_generated(c, n)[i] != spec_generated(c, n)[j],
        forall|i: int| 0 <= i < n - 1 ==> #[trigger] spec_generated(c, n)[i + 1] == spec_next_id(
            spec_generated(c, n)[i],
        ),
{
    lemma_generated_nth(c, n);
}

} // verus!
