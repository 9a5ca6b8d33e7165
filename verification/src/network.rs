//! What the network code decides without touching the network: the keep-alive
//! message's encoding, the size of voice datagrams, and how a voice buffer is
//! cut into datagrams.
use crate::buf::{buf_with_capacity, bytes_mut_view, bytes_view};
use crate::protocol::{
    duration_view, read_duration, read_u64, spec_read_duration, spec_read_u64, spec_write_duration,
    spec_write_u64, write_duration, write_u64, wf_duration, ProtocolError, lemma_rt_duration, lemma_rt_u64,
};
use bytes::{Bytes, BytesMut};
use std::time::Duration;
use vstd::prelude::*;

verus! {

broadcast use crate::endian::group_le_bytes;

/// Which IP version to bind to.
#[derive(Copy, Clone, PartialEq, Eq, Debug, Structural)]
pub enum AddressMode {
    V4,
    V6,
}

/// Something that can be turned into bytes to send.
pub trait ToBytes {
    fn to_bytes(&self) -> Vec<u8>;
}

/// A keep-alive message: a counter and the time it was sent at.
pub struct KeepAlive {
    pub id: u64,
    pub send_time: Duration,
}

/// The bytes of a keep-alive message: the counter, then the time.
pub open spec fn spec_keep_alive_bytes(id: u64, send_time: (u64, u32)) -> Seq<u8> {
    spec_write_u64(id) + spec_write_duration(send_time)
}

/// How a keep-alive message is read: the counter, then the time.
pub open spec fn spec_read_keep_alive(s: Seq<u8>) -> Result<((u64, (u64, u32)), Seq<u8>), ProtocolError> {
    match spec_read_u64(s) {
        Ok((id, r1)) => match spec_read_duration(r1) {
            Ok((t, r2)) => Ok(((id, t), r2)),
            Err(e) => Err(e),
        },
        Err(e) => Err(e),
    }
}

impl KeepAlive {
    /// The message as the 20 bytes it is sent as.
    pub fn encode(&self) -> (r: BytesMut)
        ensures
            bytes_mut_view(r) == spec_keep_alive_bytes(self.id, duration_view(self.send_time)),
            wf_duration(duration_view(self.send_time)),
    {
        let mut buf = buf_with_capacity(8 + 8 + 4);
        write_u64(self.id, &mut buf);
        write_duration(&self.send_time, &mut buf);
        proof {
            assert(bytes_mut_view(buf) =~= spec_keep_alive_bytes(self.id, duration_view(self.send_time)));
        }
        buf
    }

    /// Reads a message: the counter, then the time.
    pub fn decode(src: &mut Bytes) -> (r: Result<Self, ProtocolError>)
        ensures
            match spec_read_keep_alive(bytes_view(*old(src))) {
                Ok(((id, t), rest)) => r matches Ok(k) && k.id == id && duration_view(k.send_time) == t
                    && bytes_view(*final(src)) == rest,
                Err(e) => r == Err::<Self, ProtocolError>(e),
            },
    {
        let id = read_u64(src)?;
        let send_time = read_duration(src)?;
        Ok(KeepAlive { id, send_time })
    }
}

/// A keep-alive message reads back as what was sent, with whatever follows
/// it left unread.
pub proof fn lemma_keep_alive_roundtrip(id: u64, t: (u64, u32), rest: Seq<u8>)
    requires
        wf_duration(t),
    ensures
        spec_read_keep_alive(spec_keep_alive_bytes(id, t) + rest) == Ok::<((u64, (u64, u32)), Seq<u8>), ProtocolError>(
            ((id, t), rest),
        ),
{
    let tail = spec_write_duration(t) + rest;
    assert(spec_keep_alive_bytes(id, t) + rest =~= spec_write_u64(id) + tail);
    lemma_rt_u64(id, tail);
    lemma_rt_duration(t, rest);
}

/// The largest voice payload per datagram: the largest datagram less 25
/// bytes, rounded down to a multiple of `ALIGN` when `ALIGN` is 2 or more.
pub open spec fn spec_max_size(align: usize, max_datagram: usize) -> usize {
    let max_bytes = (max_datagram - 25) as usize;
    if align < 2 || max_bytes % align == 0 {
        max_bytes
    } else {
        (max_bytes - max_bytes % align) as usize
    }
}

/// The largest voice payload per datagram, given the largest datagram the
/// connection takes.
pub fn max_size<const ALIGN: usize>(max_datagram: usize) -> (r: usize)
    requires
        max_datagram >= 25,
    ensures
        r == spec_max_size(ALIGN, max_datagram),
        ALIGN >= 2 ==> r % ALIGN == 0,
        r <= max_datagram - 25,
{
    let max_bytes = max_datagram - 25;
    if ALIGN < 2 || max_bytes % ALIGN == 0 {
        max_bytes
    } else {
        proof {
            let m = max_bytes as int;
            let a = ALIGN as int;
            assert((m - m % a) % a == 0 && m % a <= m) by (nonlinear_arith)
                requires
                    a >= 2,
                    m >= 0,
            ;
        }
        max_bytes - (max_bytes % ALIGN)
    }
}

/// The ranges of a buffer of `len` bytes that go into separate datagrams:
/// whole pieces of `max_bytes`, then what is left (possibly nothing).
pub open spec fn spec_frame_ranges(len: nat, max_bytes: nat) -> Seq<(usize, usize)> {
    let full = len / max_bytes;
    Seq::new(full + 1, |x: int| if x < full {
        ((x * max_bytes) as usize, (x * max_bytes + max_bytes) as usize)
    } else {
        ((full * max_bytes) as usize, len as usize)
    })
}

/// Cuts a buffer of `len` bytes into the ranges sent as separate datagrams.
pub fn frame_ranges(len: usize, max_bytes: usize) -> (r: Vec<(usize, usize)>)
    requires
        max_bytes > 0,
    ensures
        r@ == spec_frame_ranges(len as nat, max_bytes as nat),
{
    let full_frames = len / max_bytes;
    let mut ranges: Vec<(usize, usize)> = Vec::new();
    let mut x: usize = 0;
    proof {
        assert(full_frames * max_bytes <= len) by (nonlinear_arith)
            requires
                full_frames == len / max_bytes,
                max_bytes > 0,
        ;
    }
    while x < full_frames
        invariant
            x <= full_frames,
            full_frames == len / max_bytes,
            full_frames * max_bytes <= len,
            max_bytes > 0,
            ranges@ == spec_frame_ranges(len as nat, max_bytes as nat).take(x as int),
        decreases full_frames - x,
    {
        proof {
            assert(x * max_bytes + max_bytes <= full_frames * max_bytes) by (nonlinear_arith)
                requires
                    x < full_frames,
            ;
        }
        let start = x * max_bytes;
        ranges.push((start, start + max_bytes));
        proof {
            assert(ranges@ =~= spec_frame_ranges(len as nat, max_bytes as nat).take(x as int + 1));
        }
        x = x + 1;
    }
    ranges.push((full_frames * max_bytes, len));
    proof {
        assert(ranges@ =~= spec_frame_ranges(len as nat, max_bytes as nat));
    }
    ranges
}

/// The ranges cover the buffer from start to end, one after the other, and
/// none is longer than `max_bytes`.
pub proof fn lemma_frame_ranges_cover(len: nat, max_bytes: nat)
    requires
        max_bytes > 0,
        len <= usize::MAX,
    ensures
        ({
            let r = spec_frame_ranges(len, max_bytes);
            &&& r.len() >= 1
            &&& r[0].0 == 0
            &&& r[r.len() - 1].1 == len
            &&& forall|i: int| 0 <= i < r.len() - 1 ==> #[trigger] r[i].1 == r[i + 1].0
            &&& forall|i: int| 0 <= i < r.len() ==> #[trigger] r[i].0 <= r[i].1 && r[i].1 - r[i].0 <= max_bytes
        }),
{
    let r = spec_frame_ranges(len, max_bytes);
    let full = len / max_bytes;
    assert(full * max_bytes <= len && len - full * max_bytes < max_bytes) by (nonlinear_arith)
        requires
            full == len / max_bytes,
            max_bytes > 0,
    ;
    assert forall|i: int| 0 <= i < r.len() - 1 implies #[trigger] r[i].1 == r[i + 1].0 by {
        assert((i + 1) * max_bytes == i * max_bytes + max_bytes) by (nonlinear_arith);
        assert((i + 1) * max_bytes <= full * max_bytes) by (nonlinear_arith)
            requires
                i + 1 <= full,
                max_bytes > 0,
        ;
    }
    assert forall|i: int| 0 <= i < r.len() implies #[trigger] r[i].0 <= r[i].1 && r[i].1 - r[i].0 <= max_bytes by {
        if i < full {
            assert(i * max_bytes + max_bytes <= full * max_bytes) by (nonlinear_arith)
                requires
                    i + 1 <= full,
                    max_bytes > 0,
            ;
            assert(0 <= i * max_bytes) by (nonlinear_arith)
                requires
                    0 <= i,
            ;
        }
    }
}

} // verus!
