//! The wire format's building blocks: integers, booleans, durations,
//! strings, identifiers and length-prefixed lists.
//!
//! Every value is written little-endian; strings and lists carry a `u64`
//! length prefix. Each `read_*` function is specified by a `spec_read_*`
//! function over the received bytes, each `write_*` function by a
//! `spec_write_*` function giving the bytes it appends, and the two are
//! tied together by the round-trip lemmas at the end of this file.
use crate::buf::{
    advance, as_slice, buf_limit, bytes_mut_view, bytes_view, get_i16_le, get_u128_le, get_u16_le,
    get_u32_le, get_u64_le, get_u8, put_i16_le, put_slice, put_u128_le, put_u16_le, put_u32_le,
    put_u64_le, put_u8, remaining, slice,
};
use vstd::slice::slice_to_vec;
use bytes::{Bytes, BytesMut};
use std::time::Duration;
use vstd::bytes::*;
use vstd::prelude::*;
use vstd::utf8::*;

verus! {

/// The protocol version a client must announce when it authenticates.
pub const PROTOCOL_VERSION: u64 = 1;

/// A byte that should have named an enum variant named none.
pub struct ErrorEnumVariantNotFound(pub &'static str, pub u8);

/// A byte that should have encoded a boolean was neither 0 nor 1.
pub struct ErrorBoolConversion(pub u8);

/// Why a value could not be read from the wire.
pub enum ProtocolError {
    /// The input ended before the value did.
    UnexpectedEnd,
    /// A discriminant byte named no variant of the enum being read.
    EnumVariantNotFound(ErrorEnumVariantNotFound),
    /// A boolean byte was neither 0 nor 1.
    BoolConversion(ErrorBoolConversion),
    /// A duration's seconds overflowed once its nanoseconds were carried in.
    DurationOverflow,
    /// The value names a packet whose reading is not implemented.
    Unsupported,
}

/// The outcome of reading a value of view type `T` from a byte sequence:
/// the value and the bytes after it, or the reason it could not be read.
pub type SpecRead<T> = Result<(T, Seq<u8>), ProtocolError>;

/// A 256-bit unsigned number, as its low and high 128-bit halves.
#[derive(Copy, Clone, PartialEq, Eq, Debug, Hash, PartialOrd, Ord, Structural)]
pub struct Word256 {
    pub low: u128,
    pub high: u128,
}

/// The identity of a user: the SHA-256 digest of their public key, read as a
/// little-endian 256-bit number.
#[derive(Copy, Clone, PartialEq, Eq, Debug, Hash, PartialOrd, Ord, Structural)]
pub struct UserUuid(Word256);

impl View for Word256 {
    type V = Word256;

    open spec fn view(&self) -> Word256 {
        *self
    }
}

impl View for UserUuid {
    type V = UserUuid;

    open spec fn view(&self) -> UserUuid {
        *self
    }
}

impl UserUuid {
    #[inline]
    pub fn from_u256(raw: Word256) -> (r: Self)
        ensures
            r.value() == raw,
    {
        Self(raw)
    }

    #[inline]
    pub fn into_u256(self) -> (r: Word256)
        ensures
            r == self.value(),
    {
        self.0
    }

    /// The 256-bit number this identity stands for.
    pub closed spec fn value(self) -> Word256 {
        self.0
    }

    /// Two identities are the same exactly when their numbers are.
    pub broadcast proof fn lemma_value_injective(a: Self, b: Self)
        ensures
            #[trigger] a.value() == #[trigger] b.value() ==> a == b,
    {
    }
}

// ---------------------------------------------------------------------------
// Little-endian encodings: their lengths, and decoding undoes encoding
// ---------------------------------------------------------------------------

broadcast use crate::endian::group_le_bytes;

// ---------------------------------------------------------------------------
// Bytes taken from the front of the input
// ---------------------------------------------------------------------------

/// The first `n` bytes and the rest, or `UnexpectedEnd` when fewer remain.
pub open spec fn spec_take(s: Seq<u8>, n: nat) -> SpecRead<Seq<u8>> {
    if s.len() >= n {
        Ok((s.take(n as int), s.skip(n as int)))
    } else {
        Err(ProtocolError::UnexpectedEnd)
    }
}

/// `after` is what remains of `before` once some prefix of it was consumed.
pub open spec fn consumed_from(before: Seq<u8>, after: Seq<u8>) -> bool {
    after.len() <= before.len() && after =~= before.skip(before.len() - after.len())
}

/// What a reader guarantees: on success it returned the value that the
/// specification reads, leaving exactly the bytes after it; on failure it
/// failed for the reason the specification gives, having consumed a prefix.
pub open spec fn decoded<T: View>(
    r: Result<T, ProtocolError>,
    spec: SpecRead<T::V>,
    before: Seq<u8>,
    after: Seq<u8>,
) -> bool {
    &&& match spec {
        Ok((v, rest)) => r is Ok && r->Ok_0@ == v && after == rest,
        Err(e) => r is Err && r->Err_0 == e,
    }
    &&& consumed_from(before, after)
}

pub broadcast proof fn lemma_consumed_trans(a: Seq<u8>, b: Seq<u8>, c: Seq<u8>)
    requires
        #[trigger] consumed_from(a, b),
        #[trigger] consumed_from(b, c),
    ensures
        consumed_from(a, c),
{
    assert(c =~= a.skip(a.len() - c.len()));
}

pub proof fn lemma_consumed_refl(a: Seq<u8>)
    ensures
        consumed_from(a, a),
{
    assert(a =~= a.skip(0));
}

pub proof fn lemma_consumed_skip(a: Seq<u8>, n: int)
    requires
        0 <= n <= a.len(),
    ensures
        consumed_from(a, a.skip(n)),
{
    assert(a.skip(n) =~= a.skip(a.len() - a.skip(n).len()));
}

/// Splitting a concatenation at the length of its first part gives back the parts.
pub proof fn lemma_split(a: Seq<u8>, b: Seq<u8>)
    ensures
        (a + b).take(a.len() as int) =~= a,
        (a + b).skip(a.len() as int) =~= b,
{
}

// ---------------------------------------------------------------------------
// Fixed-width integers
// ---------------------------------------------------------------------------

pub open spec fn spec_read_u8(s: Seq<u8>) -> SpecRead<u8> {
    match spec_take(s, 1) {
        Ok((b, rest)) => Ok((b[0], rest)),
        Err(e) => Err(e),
    }
}

pub open spec fn spec_read_u16(s: Seq<u8>) -> SpecRead<u16> {
    match spec_take(s, 2) {
        Ok((b, rest)) => Ok((spec_u16_from_le_bytes(b), rest)),
        Err(e) => Err(e),
    }
}

pub open spec fn spec_read_i16(s: Seq<u8>) -> SpecRead<i16> {
    match spec_take(s, 2) {
        Ok((b, rest)) => Ok((spec_u16_from_le_bytes(b) as i16, rest)),
        Err(e) => Err(e),
    }
}

pub open spec fn spec_read_u32(s: Seq<u8>) -> SpecRead<u32> {
    match spec_take(s, 4) {
        Ok((b, rest)) => Ok((spec_u32_from_le_bytes(b), rest)),
        Err(e) => Err(e),
    }
}

pub open spec fn spec_read_u64(s: Seq<u8>) -> SpecRead<u64> {
    match spec_take(s, 8) {
        Ok((b, rest)) => Ok((spec_u64_from_le_bytes(b), rest)),
        Err(e) => Err(e),
    }
}

pub open spec fn spec_read_u128(s: Seq<u8>) -> SpecRead<u128> {
    match spec_take(s, 16) {
        Ok((b, rest)) => Ok((spec_u128_from_le_bytes(b), rest)),
        Err(e) => Err(e),
    }
}

pub open spec fn spec_write_u8(v: u8) -> Seq<u8> {
    seq![v]
}

pub open spec fn spec_write_u16(v: u16) -> Seq<u8> {
    spec_u16_to_le_bytes(v)
}

pub open spec fn spec_write_i16(v: i16) -> Seq<u8> {
    spec_u16_to_le_bytes(v as u16)
}

pub open spec fn spec_write_u32(v: u32) -> Seq<u8> {
    spec_u32_to_le_bytes(v)
}

pub open spec fn spec_write_u64(v: u64) -> Seq<u8> {
    spec_u64_to_le_bytes(v)
}

pub open spec fn spec_write_u128(v: u128) -> Seq<u8> {
    spec_u128_to_le_bytes(v)
}

/// Reads one byte.
pub fn read_u8(src: &mut Bytes) -> (r: Result<u8, ProtocolError>)
    ensures
        decoded(r, spec_read_u8(bytes_view(*old(src))), bytes_view(*old(src)), bytes_view(*final(src))),
{
    proof { lemma_consumed_refl(bytes_view(*src)); }
    if remaining(src) < 1 {
        return Err(ProtocolError::UnexpectedEnd);
    }
    let ghost s0 = bytes_view(*src);
    let v = get_u8(src);
    proof { lemma_consumed_skip(s0, 1); }
    Ok(v)
}

/// Reads a little-endian `u16`.
pub fn read_u16(src: &mut Bytes) -> (r: Result<u16, ProtocolError>)
    ensures
        decoded(r, spec_read_u16(bytes_view(*old(src))), bytes_view(*old(src)), bytes_view(*final(src))),
{
    proof { lemma_consumed_refl(bytes_view(*src)); }
    if remaining(src) < 2 {
        return Err(ProtocolError::UnexpectedEnd);
    }
    let ghost s0 = bytes_view(*src);
    let v = get_u16_le(src);
    proof { lemma_consumed_skip(s0, 2); }
    Ok(v)
}

/// Reads a little-endian two's complement `i16`.
pub fn read_i16(src: &mut Bytes) -> (r: Result<i16, ProtocolError>)
    ensures
        decoded(r, spec_read_i16(bytes_view(*old(src))), bytes_view(*old(src)), bytes_view(*final(src))),
{
    proof { lemma_consumed_refl(bytes_view(*src)); }
    if remaining(src) < 2 {
        return Err(ProtocolError::UnexpectedEnd);
    }
    let ghost s0 = bytes_view(*src);
    let v = get_i16_le(src);
    proof { lemma_consumed_skip(s0, 2); }
    Ok(v)
}

/// Reads a little-endian `u32`.
pub fn read_u32(src: &mut Bytes) -> (r: Result<u32, ProtocolError>)
    ensures
        decoded(r, spec_read_u32(bytes_view(*old(src))), bytes_view(*old(src)), bytes_view(*final(src))),
{
    proof { lemma_consumed_refl(bytes_view(*src)); }
    if remaining(src) < 4 {
        return Err(ProtocolError::UnexpectedEnd);
    }
    let ghost s0 = bytes_view(*src);
    let v = get_u32_le(src);
    proof { lemma_consumed_skip(s0, 4); }
    Ok(v)
}

/// Reads a little-endian `u64`.
pub fn read_u64(src: &mut Bytes) -> (r: Result<u64, ProtocolError>)
    ensures
        decoded(r, spec_read_u64(bytes_view(*old(src))), bytes_view(*old(src)), bytes_view(*final(src))),
{
    proof { lemma_consumed_refl(bytes_view(*src)); }
    if remaining(src) < 8 {
        return Err(ProtocolError::UnexpectedEnd);
    }
    let ghost s0 = bytes_view(*src);
    let v = get_u64_le(src);
    proof { lemma_consumed_skip(s0, 8); }
    Ok(v)
}

/// Reads a little-endian `u128`.
pub fn read_u128(src: &mut Bytes) -> (r: Result<u128, ProtocolError>)
    ensures
        decoded(r, spec_read_u128(bytes_view(*old(src))), bytes_view(*old(src)), bytes_view(*final(src))),
{
    proof { lemma_consumed_refl(bytes_view(*src)); }
    if remaining(src) < 16 {
        return Err(ProtocolError::UnexpectedEnd);
    }
    let ghost s0 = bytes_view(*src);
    let v = get_u128_le(src);
    proof { lemma_consumed_skip(s0, 16); }
    Ok(v)
}


// ---------------------------------------------------------------------------
// Writing fixed-width integers
// ---------------------------------------------------------------------------

/// `dst` may grow by `n` more bytes.
pub open spec fn has_room(dst: Seq<u8>, n: int) -> bool {
    dst.len() + n <= buf_limit()
}

/// Appends one byte.
pub fn write_u8(v: u8, dst: &mut BytesMut)
    requires
        has_room(bytes_mut_view(*old(dst)), 1),
    ensures
        bytes_mut_view(*final(dst)) == bytes_mut_view(*old(dst)) + spec_write_u8(v),
{
    put_u8(dst, v);
    assert(bytes_mut_view(*dst) =~= bytes_mut_view(*old(dst)) + spec_write_u8(v));
}

/// Appends a little-endian `u16`.
pub fn write_u16(v: u16, dst: &mut BytesMut)
    requires
        has_room(bytes_mut_view(*old(dst)), 2),
    ensures
        bytes_mut_view(*final(dst)) == bytes_mut_view(*old(dst)) + spec_write_u16(v),
{
    put_u16_le(dst, v);
}

/// Appends a little-endian two's complement `i16`.
pub fn write_i16(v: i16, dst: &mut BytesMut)
    requires
        has_room(bytes_mut_view(*old(dst)), 2),
    ensures
        bytes_mut_view(*final(dst)) == bytes_mut_view(*old(dst)) + spec_write_i16(v),
{
    put_i16_le(dst, v);
}

/// Appends a little-endian `u32`.
pub fn write_u32(v: u32, dst: &mut BytesMut)
    requires
        has_room(bytes_mut_view(*old(dst)), 4),
    ensures
        bytes_mut_view(*final(dst)) == bytes_mut_view(*old(dst)) + spec_write_u32(v),
{
    put_u32_le(dst, v);
}

/// Appends a little-endian `u64`.
pub fn write_u64(v: u64, dst: &mut BytesMut)
    requires
        has_room(bytes_mut_view(*old(dst)), 8),
    ensures
        bytes_mut_view(*final(dst)) == bytes_mut_view(*old(dst)) + spec_write_u64(v),
{
    put_u64_le(dst, v);
}

/// Appends a little-endian `u128`.
pub fn write_u128(v: u128, dst: &mut BytesMut)
    requires
        has_room(bytes_mut_view(*old(dst)), 16),
    ensures
        bytes_mut_view(*final(dst)) == bytes_mut_view(*old(dst)) + spec_write_u128(v),
{
    put_u128_le(dst, v);
}

// ---------------------------------------------------------------------------
// Booleans
// ---------------------------------------------------------------------------

pub open spec fn spec_read_bool(s: Seq<u8>) -> SpecRead<bool> {
    match spec_read_u8(s) {
        Ok((b, rest)) => if b == 0 {
            Ok((false, rest))
        } else if b == 1 {
            Ok((true, rest))
        } else {
            Err(ProtocolError::BoolConversion(ErrorBoolConversion(b)))
        },
        Err(e) => Err(e),
    }
}

pub open spec fn spec_write_bool(v: bool) -> Seq<u8> {
    seq![if v { 1u8 } else { 0u8 }]
}

/// Reads a boolean: the byte 0 is `false`, 1 is `true`, anything else an
/// error. Exactly one byte is consumed whenever there is one, also when it
/// is not a boolean.
pub fn read_bool(src: &mut Bytes) -> (r: Result<bool, ProtocolError>)
    ensures
        decoded(r, spec_read_bool(bytes_view(*old(src))), bytes_view(*old(src)), bytes_view(*final(src))),
        bytes_view(*final(src)) == (if bytes_view(*old(src)).len() > 0 {
            bytes_view(*old(src)).drop_first()
        } else {
            bytes_view(*old(src))
        }),
{
    let val = read_u8(src)?;
    if val == 0 {
        Ok(false)
    } else if val == 1 {
        Ok(true)
    } else {
        Err(ProtocolError::BoolConversion(ErrorBoolConversion(val)))
    }
}

/// Appends a boolean as the byte 1 or 0.
pub fn write_bool(v: bool, dst: &mut BytesMut)
    requires
        has_room(bytes_mut_view(*old(dst)), 1),
    ensures
        bytes_mut_view(*final(dst)) == bytes_mut_view(*old(dst)) + spec_write_bool(v),
{
    write_u8(if v { 1 } else { 0 }, dst);
}

// ---------------------------------------------------------------------------
// Durations: whole seconds as u64, then the sub-second nanoseconds as u32
// ---------------------------------------------------------------------------

/// The whole seconds of a duration (what `Duration::as_secs` returns).
pub uninterp spec fn duration_secs(d: Duration) -> u64;

/// The sub-second nanoseconds of a duration (what `Duration::subsec_nanos` returns).
pub uninterp spec fn duration_subsec_nanos(d: Duration) -> u32;

/// A duration as its seconds and sub-second nanoseconds.
pub open spec fn duration_view(d: Duration) -> (u64, u32) {
    (duration_secs(d), duration_subsec_nanos(d))
}

pub open spec fn nanos_per_sec() -> int {
    1_000_000_000
}

/// `Clone::clone` on `Duration`, a `Copy` type: the same duration.
pub assume_specification[ <Duration as Clone>::clone ](d: &Duration) -> (r: Duration)
    ensures
        r == *d,
;

/// `Duration::new`: carries whole seconds out of `nanos` into `secs`.
#[verifier::external_body]
pub(crate) fn duration_new(secs: u64, nanos: u32) -> (r: Duration)
    requires
        secs + nanos as int / nanos_per_sec() <= u64::MAX,
    ensures
        duration_secs(r) == secs + nanos as int / nanos_per_sec(),
        duration_subsec_nanos(r) == nanos as int % nanos_per_sec(),
{
    Duration::new(secs, nanos)
}

/// `Duration::as_secs`: the whole seconds.
#[verifier::external_body]
pub(crate) fn duration_as_secs(d: &Duration) -> (r: u64)
    ensures
        r == duration_secs(*d),
{
    d.as_secs()
}

/// `Duration::subsec_nanos`: the fractional part in nanoseconds, always below one billion.
#[verifier::external_body]
pub(crate) fn duration_nanos(d: &Duration) -> (r: u32)
    ensures
        r == duration_subsec_nanos(*d),
        r < nanos_per_sec(),
{
    d.subsec_nanos()
}

pub open spec fn spec_read_duration(s: Seq<u8>) -> SpecRead<(u64, u32)> {
    match spec_read_u64(s) {
        Ok((secs, r1)) => match spec_read_u32(r1) {
            Ok((nanos, rest)) => if secs + nanos as int / nanos_per_sec() <= u64::MAX {
                Ok((((secs + nanos as int / nanos_per_sec()) as u64, (nanos as int % nanos_per_sec()) as u32), rest))
            } else {
                Err(ProtocolError::DurationOverflow)
            },
            Err(e) => Err(e),
        },
        Err(e) => Err(e),
    }
}

pub open spec fn spec_write_duration(d: (u64, u32)) -> Seq<u8> {
    spec_write_u64(d.0) + spec_write_u32(d.1)
}

/// A duration as the wire can carry it: fewer than a billion sub-second nanoseconds.
pub open spec fn wf_duration(d: (u64, u32)) -> bool {
    d.1 < nanos_per_sec()
}

/// Reads a duration.
pub fn read_duration(src: &mut Bytes) -> (r: Result<Duration, ProtocolError>)
    ensures
        match spec_read_duration(bytes_view(*old(src))) {
            Ok((v, rest)) => r is Ok && duration_view(r->Ok_0) == v && bytes_view(*final(src)) == rest,
            Err(e) => r is Err && r->Err_0 == e,
        },
        consumed_from(bytes_view(*old(src)), bytes_view(*final(src))),
{
    broadcast use lemma_consumed_trans;
    let secs = read_u64(src)?;
    let subsec_nanos = read_u32(src)?;
    if secs as u128 + (subsec_nanos / 1_000_000_000) as u128 > u64::MAX as u128 {
        return Err(ProtocolError::DurationOverflow);
    }
    Ok(duration_new(secs, subsec_nanos))
}

/// Appends a duration.
pub fn write_duration(d: &Duration, dst: &mut BytesMut)
    requires
        has_room(bytes_mut_view(*old(dst)), 12),
    ensures
        bytes_mut_view(*final(dst)) == bytes_mut_view(*old(dst)) + spec_write_duration(duration_view(*d)),
        wf_duration(duration_view(*d)),
{
    write_u64(duration_as_secs(d), dst);
    write_u32(duration_nanos(d), dst);
    assert(bytes_mut_view(*dst) =~= bytes_mut_view(*old(dst)) + spec_write_duration(duration_view(*d)));
}

// ---------------------------------------------------------------------------
// Length-prefixed byte strings and text
// ---------------------------------------------------------------------------

/// The text that `String::from_utf8_lossy` makes of some bytes.
pub uninterp spec fn spec_utf8_lossy(bytes: Seq<u8>) -> Seq<char>;

/// `String::from_utf8_lossy`, made owned: decodes UTF-8, replacing invalid
/// sequences. Only the documented part is claimed: valid UTF-8 decodes exactly.
#[verifier::external_body]
pub(crate) fn utf8_lossy(bytes: &[u8]) -> (r: String)
    ensures
        r@ == spec_utf8_lossy(bytes@),
        valid_utf8(bytes@) ==> r@ == decode_utf8(bytes@),
{
    String::from(String::from_utf8_lossy(bytes))
}

/// Takes the next `len` bytes off the front of `src` as a cursor of their own.
pub fn read_slice(src: &mut Bytes, len: usize) -> (r: Bytes)
    requires
        len <= bytes_view(*old(src)).len(),
    ensures
        bytes_view(r) == bytes_view(*old(src)).take(len as int),
        bytes_view(*final(src)) == bytes_view(*old(src)).skip(len as int),
{
    let result = slice(src, 0, len);
    advance(src, len);
    assert(bytes_view(result) =~= bytes_view(*old(src)).take(len as int));
    result
}

/// The bytes behind a `u64` length prefix.
pub open spec fn spec_read_bytes(s: Seq<u8>) -> SpecRead<Seq<u8>> {
    match spec_read_u64(s) {
        Ok((n, r)) => spec_take(r, n as nat),
        Err(e) => Err(e),
    }
}

pub open spec fn spec_write_bytes(b: Seq<u8>) -> Seq<u8> {
    spec_write_u64(b.len() as u64) + b
}

pub open spec fn wf_bytes(b: Seq<u8>) -> bool {
    b.len() <= u64::MAX
}

/// The text that lossy decoding makes of some bytes: their UTF-8 decoding
/// when they are valid UTF-8.
pub open spec fn spec_lossy_text(b: Seq<u8>) -> Seq<char> {
    if valid_utf8(b) {
        decode_utf8(b)
    } else {
        spec_utf8_lossy(b)
    }
}

pub open spec fn spec_read_string(s: Seq<u8>) -> SpecRead<Seq<char>> {
    match spec_read_bytes(s) {
        Ok((b, rest)) => Ok((spec_lossy_text(b), rest)),
        Err(e) => Err(e),
    }
}

pub open spec fn spec_write_string(s: Seq<char>) -> Seq<u8> {
    spec_write_bytes(encode_utf8(s))
}

pub open spec fn wf_string(s: Seq<char>) -> bool {
    wf_bytes(encode_utf8(s))
}

/// Reads a `u64` length and then that many bytes.
pub fn read_bytes(src: &mut Bytes) -> (r: Result<Vec<u8>, ProtocolError>)
    ensures
        decoded(r, spec_read_bytes(bytes_view(*old(src))), bytes_view(*old(src)), bytes_view(*final(src))),
{
    broadcast use lemma_consumed_trans;
    let len = read_u64(src)?;
    if len > remaining(src) as u64 {
        return Err(ProtocolError::UnexpectedEnd);
    }
    let data = read_slice(src, len as usize);
    Ok(slice_to_vec(as_slice(&data)))
}

/// Appends a `u64` length and then the bytes.
pub fn write_bytes(b: &[u8], dst: &mut BytesMut)
    requires
        has_room(bytes_mut_view(*old(dst)), 8 + b@.len() as int),
    ensures
        bytes_mut_view(*final(dst)) == bytes_mut_view(*old(dst)) + spec_write_bytes(b@),
{
    write_u64(b.len() as u64, dst);
    put_slice(dst, b);
    assert(bytes_mut_view(*dst) =~= bytes_mut_view(*old(dst)) + spec_write_bytes(b@));
}

/// Reads a `u64` length and then that many bytes of UTF-8 text; invalid
/// sequences are replaced rather than refused.
pub fn read_string(src: &mut Bytes) -> (r: Result<String, ProtocolError>)
    ensures
        decoded(r, spec_read_string(bytes_view(*old(src))), bytes_view(*old(src)), bytes_view(*final(src))),
{
    broadcast use lemma_consumed_trans;
    let len = read_u64(src)?;
    if len > remaining(src) as u64 {
        return Err(ProtocolError::UnexpectedEnd);
    }
    let data = read_slice(src, len as usize);
    Ok(utf8_lossy(as_slice(&data)))
}

/// Appends the UTF-8 byte length of `s` as a `u64`, then its UTF-8 bytes.
pub fn write_string(s: &str, dst: &mut BytesMut)
    requires
        has_room(bytes_mut_view(*old(dst)), 8 + encode_utf8(s@).len() as int),
    ensures
        bytes_mut_view(*final(dst)) == bytes_mut_view(*old(dst)) + spec_write_string(s@),
{
    write_bytes(s.as_bytes(), dst);
}

// ---------------------------------------------------------------------------
// Identifiers
// ---------------------------------------------------------------------------

pub open spec fn spec_read_word256(s: Seq<u8>) -> SpecRead<Word256> {
    match spec_read_u128(s) {
        Ok((low, r)) => match spec_read_u128(r) {
            Ok((high, rest)) => Ok((Word256 { low, high }, rest)),
            Err(e) => Err(e),
        },
        Err(e) => Err(e),
    }
}

pub open spec fn spec_write_word256(w: Word256) -> Seq<u8> {
    spec_write_u128(w.low) + spec_write_u128(w.high)
}

pub open spec fn spec_read_user_uuid(s: Seq<u8>) -> SpecRead<UserUuid> {
    match spec_read_word256(s) {
        Ok((w, rest)) => Ok((UserUuid::from_u256_spec(w), rest)),
        Err(e) => Err(e),
    }
}

pub open spec fn spec_write_user_uuid(u: UserUuid) -> Seq<u8> {
    spec_write_word256(u.value())
}

impl UserUuid {
    /// The identity standing for a given number.
    pub closed spec fn from_u256_spec(raw: Word256) -> Self {
        UserUuid(raw)
    }

    pub broadcast proof fn lemma_from_u256_spec(raw: Word256)
        ensures
            #[trigger] Self::from_u256_spec(raw).value() == raw,
    {
    }
}

/// Reads a 256-bit number: its low 128 bits, then its high 128 bits, both
/// little-endian (together, 32 little-endian bytes).
pub fn read_word256(src: &mut Bytes) -> (r: Result<Word256, ProtocolError>)
    ensures
        decoded(r, spec_read_word256(bytes_view(*old(src))), bytes_view(*old(src)), bytes_view(*final(src))),
{
    broadcast use lemma_consumed_trans;
    let low = read_u128(src)?;
    let high = read_u128(src)?;
    Ok(Word256 { low, high })
}

/// Appends a 256-bit number as 32 little-endian bytes.
pub fn write_word256(w: &Word256, dst: &mut BytesMut)
    requires
        has_room(bytes_mut_view(*old(dst)), 32),
    ensures
        bytes_mut_view(*final(dst)) == bytes_mut_view(*old(dst)) + spec_write_word256(*w),
{
    write_u128(w.low, dst);
    write_u128(w.high, dst);
    assert(bytes_mut_view(*dst) =~= bytes_mut_view(*old(dst)) + spec_write_word256(*w));
}

/// Reads a user identity as 32 little-endian bytes.
pub fn read_user_uuid(src: &mut Bytes) -> (r: Result<UserUuid, ProtocolError>)
    ensures
        decoded(r, spec_read_user_uuid(bytes_view(*old(src))), bytes_view(*old(src)), bytes_view(*final(src))),
{
    broadcast use UserUuid::lemma_value_injective, UserUuid::lemma_from_u256_spec;
    let w = read_word256(src)?;
    Ok(UserUuid::from_u256(w))
}

/// Appends a user identity as 32 little-endian bytes.
pub fn write_user_uuid(u: &UserUuid, dst: &mut BytesMut)
    requires
        has_room(bytes_mut_view(*old(dst)), 32),
    ensures
        bytes_mut_view(*final(dst)) == bytes_mut_view(*old(dst)) + spec_write_user_uuid(*u),
{
    write_word256(&u.into_u256(), dst);
}


// ---------------------------------------------------------------------------
// Length-prefixed lists
// ---------------------------------------------------------------------------

/// The encodings of all elements, one after the other.
pub open spec fn spec_concat_all<V>(xs: Seq<V>, enc: spec_fn(V) -> Seq<u8>) -> Seq<u8>
    decreases xs.len(),
{
    if xs.len() == 0 {
        Seq::<u8>::empty()
    } else {
        spec_concat_all(xs.drop_last(), enc) + enc(xs.last())
    }
}

/// A `u64` element count, then the encodings of the elements.
pub open spec fn spec_write_list<V>(xs: Seq<V>, enc: spec_fn(V) -> Seq<u8>) -> Seq<u8> {
    spec_write_u64(xs.len() as u64) + spec_concat_all(xs, enc)
}

/// Reads `n` elements one after the other.
pub open spec fn spec_read_n<V>(
    s: Seq<u8>,
    n: nat,
    dec: spec_fn(Seq<u8>) -> SpecRead<V>,
) -> SpecRead<Seq<V>>
    decreases n,
{
    if n == 0 {
        Ok((Seq::<V>::empty(), s))
    } else {
        match spec_read_n(s, (n - 1) as nat, dec) {
            Ok((xs, r)) => match dec(r) {
                Ok((x, rest)) => Ok((xs.push(x), rest)),
                Err(e) => Err(e),
            },
            Err(e) => Err(e),
        }
    }
}

/// Reads a `u64` element count, then that many elements.
pub open spec fn spec_read_list<V>(s: Seq<u8>, dec: spec_fn(Seq<u8>) -> SpecRead<V>) -> SpecRead<
    Seq<V>,
> {
    match spec_read_u64(s) {
        Ok((n, r)) => spec_read_n(r, n as nat, dec),
        Err(e) => Err(e),
    }
}

/// Once reading the first `i` elements failed, reading more fails the same way.
pub proof fn lemma_read_n_err<V>(
    s: Seq<u8>,
    i: nat,
    j: nat,
    dec: spec_fn(Seq<u8>) -> SpecRead<V>,
)
    requires
        i <= j,
        spec_read_n(s, i, dec) is Err,
    ensures
        spec_read_n(s, j, dec) == spec_read_n(s, i, dec),
    decreases j - i,
{
    if i < j {
        lemma_read_n_err(s, i, (j - 1) as nat, dec);
    }
}

/// The whole list of reader results a list reader returns, by element views.
pub open spec fn decoded_list<T: View>(
    r: Result<Vec<T>, ProtocolError>,
    spec: SpecRead<Seq<T::V>>,
    before: Seq<u8>,
    after: Seq<u8>,
) -> bool {
    &&& match spec {
        Ok((v, rest)) => r is Ok && r->Ok_0@.map_values(|x: T| x@) == v && after == rest,
        Err(e) => r is Err && r->Err_0 == e,
    }
    &&& consumed_from(before, after)
}

/// Reading the encoding of a list gives the list back, when every element
/// reads back from its own encoding.
pub proof fn lemma_list_roundtrip<V>(
    xs: Seq<V>,
    rest: Seq<u8>,
    enc: spec_fn(V) -> Seq<u8>,
    dec: spec_fn(Seq<u8>) -> SpecRead<V>,
)
    requires
        xs.len() <= u64::MAX,
        forall|i: int, r: Seq<u8>| 0 <= i < xs.len() ==> #[trigger] dec(enc(xs[i]) + r) == Ok::<
            (V, Seq<u8>),
            ProtocolError,
        >((xs[i], r)),
    ensures
        spec_read_list(spec_write_list(xs, enc) + rest, dec) == Ok::<(Seq<V>, Seq<u8>), ProtocolError>(
            (xs, rest),
        ),
{
    let body = spec_concat_all(xs, enc) + rest;
    assert(spec_write_list(xs, enc) + rest =~= spec_write_u64(xs.len() as u64) + body);
    lemma_split(spec_write_u64(xs.len() as u64), body);
    lemma_read_n_roundtrip(xs, rest, enc, dec);
}

pub proof fn lemma_read_n_roundtrip<V>(
    xs: Seq<V>,
    rest: Seq<u8>,
    enc: spec_fn(V) -> Seq<u8>,
    dec: spec_fn(Seq<u8>) -> SpecRead<V>,
)
    requires
        forall|i: int, r: Seq<u8>| 0 <= i < xs.len() ==> #[trigger] dec(enc(xs[i]) + r) == Ok::<
            (V, Seq<u8>),
            ProtocolError,
        >((xs[i], r)),
    ensures
        spec_read_n(spec_concat_all(xs, enc) + rest, xs.len(), dec) == Ok::<
            (Seq<V>, Seq<u8>),
            ProtocolError,
        >((xs, rest)),
    decreases xs.len(),
{
    if xs.len() > 0 {
        let init = xs.drop_last();
        let last = xs.last();
        let tail = enc(last) + rest;
        assert forall|i: int, r: Seq<u8>| 0 <= i < init.len() implies #[trigger] dec(enc(init[i]) + r)
            == Ok::<(V, Seq<u8>), ProtocolError>((init[i], r)) by {
            assert(init[i] == xs[i]);
        }
        lemma_read_n_roundtrip(init, tail, enc, dec);
        assert(spec_concat_all(xs, enc) + rest =~= spec_concat_all(init, enc) + tail);
        assert(dec(enc(xs[xs.len() - 1]) + rest) == Ok::<(V, Seq<u8>), ProtocolError>((last, rest)));
        assert(init.push(last) =~= xs);
        assert(init.len() == (xs.len() - 1) as nat);
        let whole = spec_concat_all(xs, enc) + rest;
        assert(whole == spec_concat_all(init, enc) + tail);
        assert(spec_read_n(whole, init.len(), dec) == Ok::<(Seq<V>, Seq<u8>), ProtocolError>(
            (init, tail),
        ));
        assert(dec(tail) == Ok::<(V, Seq<u8>), ProtocolError>((last, rest)));
        assert(spec_read_n(whole, xs.len(), dec) == Ok::<(Seq<V>, Seq<u8>), ProtocolError>(
            (init.push(last), rest),
        ));
    } else {
        assert(spec_concat_all(xs, enc) + rest =~= rest);
        assert(xs =~= Seq::<V>::empty());
    }
}

/// Reads a `u64` count, then that many little-endian `u128` values.
pub fn read_u128_list(src: &mut Bytes) -> (r: Result<Vec<u128>, ProtocolError>)
    ensures
        decoded(
            r,
            spec_read_list(bytes_view(*old(src)), |s: Seq<u8>| spec_read_u128(s)),
            bytes_view(*old(src)),
            bytes_view(*final(src)),
        ),
{
    broadcast use lemma_consumed_trans;
    let ghost s0 = bytes_view(*src);
    let ghost dec = |s: Seq<u8>| spec_read_u128(s);
    let len = read_u64(src)?;
    let ghost r0 = bytes_view(*src);
    let mut result: Vec<u128> = Vec::new();
    let mut i: u64 = 0;
    proof { lemma_consumed_refl(r0); }
    while i < len
        invariant
            dec == (|s: Seq<u8>| spec_read_u128(s)),
            s0 == bytes_view(*old(src)),
            i <= len,
            spec_read_u64(s0) == Ok::<(u64, Seq<u8>), ProtocolError>((len, r0)),
            consumed_from(s0, r0),
            consumed_from(r0, bytes_view(*src)),
            spec_read_n(r0, i as nat, dec) == Ok::<(Seq<u128>, Seq<u8>), ProtocolError>(
                (result@, bytes_view(*src)),
            ),
        decreases len - i,
    {
        let ghost before = bytes_view(*src);
        let ghost prev = result@;
        proof {
            assert(dec(before) == spec_read_u128(before));
        }
        match read_u128(src) {
            Ok(v) => {
                result.push(v);
                proof {
                    assert(result@ =~= prev.push(v));
                    assert(spec_read_n(r0, (i + 1) as nat, dec) == Ok::<
                        (Seq<u128>, Seq<u8>),
                        ProtocolError,
                    >((result@, bytes_view(*src))));
                }
                i = i + 1;
            },
            Err(e) => {
                proof {
                    assert(spec_read_n(r0, (i + 1) as nat, dec) == Err::<
                        (Seq<u128>, Seq<u8>),
                        ProtocolError,
                    >(e));
                    lemma_read_n_err(r0, (i + 1) as nat, len as nat, dec);
                    lemma_consumed_trans(r0, before, bytes_view(*src));
                    lemma_consumed_trans(s0, r0, bytes_view(*src));
                }
                return Err(e);
            },
        }
    }
    Ok(result)
}

/// Appends a `u64` count, then the values as little-endian `u128`s.
pub fn write_u128_list(xs: &[u128], dst: &mut BytesMut)
    requires
        has_room(bytes_mut_view(*old(dst)), spec_write_list(xs@, |v: u128| spec_write_u128(v)).len() as int),
    ensures
        bytes_mut_view(*final(dst)) == bytes_mut_view(*old(dst)) + spec_write_list(
            xs@,
            |v: u128| spec_write_u128(v),
        ),
{
    let ghost enc = |v: u128| spec_write_u128(v);
    write_u64(xs.len() as u64, dst);
    let ghost start = bytes_mut_view(*dst);
    let mut i: usize = 0;
    while i < xs.len()
        invariant
            enc == (|v: u128| spec_write_u128(v)),
            i <= xs@.len(),
            start == bytes_mut_view(*old(dst)) + spec_write_u64(xs@.len() as u64),
            has_room(bytes_mut_view(*old(dst)), spec_write_list(xs@, |v: u128| spec_write_u128(v)).len() as int),
            bytes_mut_view(*dst) == start + spec_concat_all(xs@.take(i as int), enc),
        decreases xs.len() - i,
    {
        let ghost prev = bytes_mut_view(*dst);
        proof {
            lemma_concat_step(xs@, i as int, enc);
        }
        write_u128(xs[i], dst);
        proof {
            let t = xs@.take(i + 1);
            assert(t.drop_last() =~= xs@.take(i as int));
            assert(t.last() == xs@[i as int]);
            assert(spec_concat_all(t, enc) == spec_concat_all(t.drop_last(), enc) + enc(t.last()));
            assert(bytes_mut_view(*dst) =~= start + spec_concat_all(xs@.take(i + 1), enc));
        }
        i = i + 1;
    }
    assert(xs@.take(xs@.len() as int) =~= xs@);
    assert(bytes_mut_view(*dst) =~= bytes_mut_view(*old(dst)) + spec_write_list(xs@, enc));
}


/// Splitting a list splits the concatenation of its encodings.
pub proof fn lemma_concat_split<V>(xs: Seq<V>, i: int, enc: spec_fn(V) -> Seq<u8>)
    requires
        0 <= i <= xs.len(),
    ensures
        spec_concat_all(xs, enc) =~= spec_concat_all(xs.take(i), enc) + spec_concat_all(
            xs.skip(i),
            enc,
        ),
    decreases xs.len(),
{
    if xs.len() == 0 {
        assert(xs.take(i) =~= xs);
        assert(xs.skip(i) =~= xs);
    } else if i == xs.len() {
        assert(xs.take(i) =~= xs);
        assert(xs.skip(i) =~= Seq::<V>::empty());
    } else {
        let init = xs.drop_last();
        lemma_concat_split(init, i, enc);
        assert(init.take(i) =~= xs.take(i));
        assert(xs.skip(i).drop_last() =~= init.skip(i));
        assert(xs.skip(i).last() == xs.last());
    }
}

/// Appending one more element's encoding to the encodings of a prefix.
pub proof fn lemma_concat_step<V>(xs: Seq<V>, i: int, enc: spec_fn(V) -> Seq<u8>)
    requires
        0 <= i < xs.len(),
    ensures
        spec_concat_all(xs.take(i + 1), enc) == spec_concat_all(xs.take(i), enc) + enc(xs[i]),
        spec_concat_all(xs.take(i + 1), enc).len() <= spec_concat_all(xs, enc).len(),
{
    let t = xs.take(i + 1);
    assert(t.drop_last() =~= xs.take(i));
    assert(t.last() == xs[i]);
    lemma_concat_split(xs, i + 1, enc);
}

/// Reads a `u64` count, then that many 256-bit numbers.
pub fn read_word256_list(src: &mut Bytes) -> (r: Result<Vec<Word256>, ProtocolError>)
    ensures
        decoded(
            r,
            spec_read_list(bytes_view(*old(src)), |s: Seq<u8>| spec_read_word256(s)),
            bytes_view(*old(src)),
            bytes_view(*final(src)),
        ),
{
    broadcast use lemma_consumed_trans;
    let ghost s0 = bytes_view(*src);
    let ghost dec = |s: Seq<u8>| spec_read_word256(s);
    let len = read_u64(src)?;
    let ghost r0 = bytes_view(*src);
    let mut result: Vec<Word256> = Vec::new();
    let mut i: u64 = 0;
    proof { lemma_consumed_refl(r0); }
    while i < len
        invariant
            dec == (|s: Seq<u8>| spec_read_word256(s)),
            s0 == bytes_view(*old(src)),
            i <= len,
            spec_read_u64(s0) == Ok::<(u64, Seq<u8>), ProtocolError>((len, r0)),
            consumed_from(s0, r0),
            consumed_from(r0, bytes_view(*src)),
            spec_read_n(r0, i as nat, dec) == Ok::<(Seq<Word256>, Seq<u8>), ProtocolError>(
                (result@, bytes_view(*src)),
            ),
        decreases len - i,
    {
        let ghost before = bytes_view(*src);
        let ghost prev = result@;
        proof {
            assert(dec(before) == spec_read_word256(before));
        }
        match read_word256(src) {
            Ok(v) => {
                result.push(v);
                proof {
                    assert(result@ =~= prev.push(v));
                    assert(spec_read_n(r0, (i + 1) as nat, dec) == Ok::<
                        (Seq<Word256>, Seq<u8>),
                        ProtocolError,
                    >((result@, bytes_view(*src))));
                }
                i = i + 1;
            },
            Err(e) => {
                proof {
                    assert(spec_read_n(r0, (i + 1) as nat, dec) == Err::<
                        (Seq<Word256>, Seq<u8>),
                        ProtocolError,
                    >(e));
                    lemma_read_n_err(r0, (i + 1) as nat, len as nat, dec);
                    lemma_consumed_trans(r0, before, bytes_view(*src));
                    lemma_consumed_trans(s0, r0, bytes_view(*src));
                }
                return Err(e);
            },
        }
    }
    proof {
        assert(result@.map_values(|x: Word256| x@) =~= result@);
    }
    Ok(result)
}

/// Appends a `u64` count, then the 256-bit numbers.
pub fn write_word256_list(xs: &[Word256], dst: &mut BytesMut)
    requires
        has_room(bytes_mut_view(*old(dst)), spec_write_list(xs@, |v: Word256| spec_write_word256(v)).len() as int),
    ensures
        bytes_mut_view(*final(dst)) == bytes_mut_view(*old(dst)) + spec_write_list(
            xs@,
            |v: Word256| spec_write_word256(v),
        ),
{
    let ghost enc = |v: Word256| spec_write_word256(v);
    write_u64(xs.len() as u64, dst);
    let ghost start = bytes_mut_view(*dst);
    let mut i: usize = 0;
    while i < xs.len()
        invariant
            enc == (|v: Word256| spec_write_word256(v)),
            i <= xs@.len(),
            start == bytes_mut_view(*old(dst)) + spec_write_u64(xs@.len() as u64),
            has_room(bytes_mut_view(*old(dst)), spec_write_list(xs@, |v: Word256| spec_write_word256(v)).len() as int),
            bytes_mut_view(*dst) == start + spec_concat_all(xs@.take(i as int), enc),
        decreases xs.len() - i,
    {
        proof {
            lemma_concat_step(xs@, i as int, enc);
        }
        write_word256(&xs[i], dst);
        proof {
            lemma_concat_step(xs@, i as int, enc);
            assert(bytes_mut_view(*dst) =~= start + spec_concat_all(xs@.take(i + 1), enc));
        }
        i = i + 1;
    }
    assert(xs@.take(xs@.len() as int) =~= xs@);
    assert(bytes_mut_view(*dst) =~= bytes_mut_view(*old(dst)) + spec_write_list(xs@, enc));
}

// ---------------------------------------------------------------------------
// Round trips: reading what was written gives back the value and the rest
// ---------------------------------------------------------------------------

pub proof fn lemma_rt_u8(v: u8, rest: Seq<u8>)
    ensures
        spec_read_u8(spec_write_u8(v) + rest) == Ok::<(u8, Seq<u8>), ProtocolError>((v, rest)),
{
    lemma_split(spec_write_u8(v), rest);
}

pub proof fn lemma_rt_u16(v: u16, rest: Seq<u8>)
    ensures
        spec_read_u16(spec_write_u16(v) + rest) == Ok::<(u16, Seq<u8>), ProtocolError>((v, rest)),
{
    lemma_split(spec_write_u16(v), rest);
}

pub proof fn lemma_rt_i16(v: i16, rest: Seq<u8>)
    ensures
        spec_read_i16(spec_write_i16(v) + rest) == Ok::<(i16, Seq<u8>), ProtocolError>((v, rest)),
{
    lemma_split(spec_write_i16(v), rest);
    assert((v as u16) as i16 == v) by (bit_vector);
}

pub proof fn lemma_rt_u32(v: u32, rest: Seq<u8>)
    ensures
        spec_read_u32(spec_write_u32(v) + rest) == Ok::<(u32, Seq<u8>), ProtocolError>((v, rest)),
{
    lemma_split(spec_write_u32(v), rest);
}

pub proof fn lemma_rt_u64(v: u64, rest: Seq<u8>)
    ensures
        spec_read_u64(spec_write_u64(v) + rest) == Ok::<(u64, Seq<u8>), ProtocolError>((v, rest)),
{
    lemma_split(spec_write_u64(v), rest);
}

pub proof fn lemma_rt_u128(v: u128, rest: Seq<u8>)
    ensures
        spec_read_u128(spec_write_u128(v) + rest) == Ok::<(u128, Seq<u8>), ProtocolError>(
            (v, rest),
        ),
{
    lemma_split(spec_write_u128(v), rest);
}

pub proof fn lemma_rt_bool(v: bool, rest: Seq<u8>)
    ensures
        spec_read_bool(spec_write_bool(v) + rest) == Ok::<(bool, Seq<u8>), ProtocolError>((v, rest)),
{
    lemma_split(spec_write_bool(v), rest);
}

pub proof fn lemma_rt_duration(d: (u64, u32), rest: Seq<u8>)
    requires
        wf_duration(d),
    ensures
        spec_read_duration(spec_write_duration(d) + rest) == Ok::<((u64, u32), Seq<u8>), ProtocolError>(
            (d, rest),
        ),
{
    let tail = spec_write_u32(d.1) + rest;
    assert(spec_write_duration(d) + rest =~= spec_write_u64(d.0) + tail);
    lemma_rt_u64(d.0, tail);
    lemma_rt_u32(d.1, rest);
    assert(d.1 as int / nanos_per_sec() == 0);
}

pub proof fn lemma_rt_bytes(b: Seq<u8>, rest: Seq<u8>)
    requires
        wf_bytes(b),
    ensures
        spec_read_bytes(spec_write_bytes(b) + rest) == Ok::<(Seq<u8>, Seq<u8>), ProtocolError>(
            (b, rest),
        ),
{
    let tail = b + rest;
    assert(spec_write_bytes(b) + rest =~= spec_write_u64(b.len() as u64) + tail);
    lemma_rt_u64(b.len() as u64, tail);
    lemma_split(b, rest);
}

pub proof fn lemma_rt_string(s: Seq<char>, rest: Seq<u8>)
    requires
        wf_string(s),
    ensures
        spec_read_string(spec_write_string(s) + rest) == Ok::<(Seq<char>, Seq<u8>), ProtocolError>(
            (s, rest),
        ),
{
    broadcast use encode_utf8_valid_utf8, encode_utf8_decode_utf8;
    lemma_rt_bytes(encode_utf8(s), rest);
}

pub proof fn lemma_rt_word256(w: Word256, rest: Seq<u8>)
    ensures
        spec_read_word256(spec_write_word256(w) + rest) == Ok::<(Word256, Seq<u8>), ProtocolError>(
            (w, rest),
        ),
{
    let tail = spec_write_u128(w.high) + rest;
    assert(spec_write_word256(w) + rest =~= spec_write_u128(w.low) + tail);
    lemma_rt_u128(w.low, tail);
    lemma_rt_u128(w.high, rest);
}

pub proof fn lemma_rt_user_uuid(u: UserUuid, rest: Seq<u8>)
    ensures
        spec_read_user_uuid(spec_write_user_uuid(u) + rest) == Ok::<(UserUuid, Seq<u8>), ProtocolError>(
            (u, rest),
        ),
{
    broadcast use UserUuid::lemma_value_injective, UserUuid::lemma_from_u256_spec;
    lemma_rt_word256(u.value(), rest);
}


pub proof fn lemma_rt_u128_list(xs: Seq<u128>, rest: Seq<u8>)
    requires
        xs.len() <= u64::MAX,
    ensures
        spec_read_list(
            spec_write_list(xs, |x: u128| spec_write_u128(x)) + rest,
            |s: Seq<u8>| spec_read_u128(s),
        ) == Ok::<(Seq<u128>, Seq<u8>), ProtocolError>((xs, rest)),
{
    let enc = |x: u128| spec_write_u128(x);
    let dec = |s: Seq<u8>| spec_read_u128(s);
    assert forall|i: int, r: Seq<u8>| 0 <= i < xs.len() implies #[trigger] dec(enc(xs[i]) + r)
        == Ok::<(u128, Seq<u8>), ProtocolError>((xs[i], r)) by {
        lemma_rt_u128(xs[i], r);
    }
    lemma_list_roundtrip(xs, rest, enc, dec);
}

pub proof fn lemma_rt_word256_list(xs: Seq<Word256>, rest: Seq<u8>)
    requires
        xs.len() <= u64::MAX,
    ensures
        spec_read_list(
            spec_write_list(xs, |x: Word256| spec_write_word256(x)) + rest,
            |s: Seq<u8>| spec_read_word256(s),
        ) == Ok::<(Seq<Word256>, Seq<u8>), ProtocolError>((xs, rest)),
{
    let enc = |x: Word256| spec_write_word256(x);
    let dec = |s: Seq<u8>| spec_read_word256(s);
    assert forall|i: int, r: Seq<u8>| 0 <= i < xs.len() implies #[trigger] dec(enc(xs[i]) + r)
        == Ok::<(Word256, Seq<u8>), ProtocolError>((xs[i], r)) by {
        lemma_rt_word256(xs[i], r);
    }
    lemma_list_roundtrip(xs, rest, enc, dec);
}

} // verus!
