//! The packets that client and server exchange, and the records inside them.
//!
//! Each type is read and written in the order its fields are declared, with
//! the building blocks of `protocol`; enums start with one discriminant byte
//! giving the variant's position.
use crate::buf::{buf_len, buf_limit, buf_with_capacity, bytes_mut_view, bytes_view, new_buf, put_buf, put_u64_le};
use crate::protocol::{
    consumed_from, decoded, decoded_list, duration_view, has_room, lemma_concat_step,
    lemma_consumed_refl, lemma_consumed_trans, lemma_list_roundtrip, lemma_read_n_err, lemma_rt_bool,
    lemma_rt_bytes, lemma_rt_duration, lemma_rt_i16, lemma_rt_string, lemma_rt_u128,
    lemma_rt_u128_list, lemma_rt_u16, lemma_rt_u64, lemma_rt_u8, lemma_rt_user_uuid,
    lemma_rt_word256, lemma_rt_word256_list, read_bool, read_bytes, read_duration, read_i16,
    read_string, read_u128, read_u128_list, read_u16, read_u64, read_u8, read_user_uuid,
    read_word256_list, spec_concat_all, spec_read_bool, spec_read_bytes, spec_read_duration,
    spec_read_i16, spec_read_list, spec_read_n, spec_read_string, spec_read_u128, spec_read_u16,
    spec_read_u64, spec_read_u8, spec_read_user_uuid, spec_read_word256, spec_write_bool,
    spec_write_bytes, spec_write_duration, spec_write_i16, spec_write_list, spec_write_string,
    spec_write_u128, spec_write_u16, spec_write_u64, spec_write_u8, spec_write_user_uuid,
    spec_write_word256, wf_bytes, wf_duration, wf_string, write_bool, write_bytes, write_duration,
    write_i16, write_string, write_u128, write_u128_list, write_u16, write_u64, write_u8,
    write_user_uuid, write_word256_list, ErrorEnumVariantNotFound, ProtocolError, SpecRead,
    UserUuid, Word256,
};
use bytes::{Bytes, BytesMut};
use std::time::Duration;
use vstd::prelude::*;
use vstd::utf8::encode_utf8;

verus! {

broadcast use crate::endian::group_le_bytes;

/// The power a client needs in order to do each thing with a channel.
#[derive(Clone, Copy, Debug)]
pub struct ChannelPerms {
    /// Every channel one can see is automatically subscribed to.
    pub see: u64,
    pub join: u64,
    pub modify: u64,
    pub talk: u64,
    pub assign_talk: u64,
    /// Kicking is a move into the default channel.
    pub delete: u64,
}

impl View for ChannelPerms {
    type V = ChannelPerms;

    open spec fn view(&self) -> ChannelPerms {
        *self
    }
}

impl ChannelPerms {
    /// How a `ChannelPerms` is read from the front of some bytes.
    #[verifier::opaque]
    pub open spec fn spec_read(s: Seq<u8>) -> SpecRead<ChannelPerms> {
        match spec_read_u64(s) {
            Ok((see, r1)) => match spec_read_u64(r1) {
                Ok((join, r2)) => match spec_read_u64(r2) {
                    Ok((modify, r3)) => match spec_read_u64(r3) {
                        Ok((talk, r4)) => match spec_read_u64(r4) {
                            Ok((assign_talk, r5)) => match spec_read_u64(r5) {
                                Ok((delete, r6)) => Ok((ChannelPerms { see: see, join: join, modify: modify, talk: talk, assign_talk: assign_talk, delete: delete }, r6)),
                                Err(e) => Err(e),
                            },
                            Err(e) => Err(e),
                        },
                        Err(e) => Err(e),
                    },
                    Err(e) => Err(e),
                },
                Err(e) => Err(e),
            },
            Err(e) => Err(e),
        }
    }

    /// The bytes a `ChannelPerms` is written as.
    #[verifier::opaque]
    pub open spec fn spec_write(v: ChannelPerms) -> Seq<u8> {
        spec_write_u64(v.see) + spec_write_u64(v.join) + spec_write_u64(v.modify) + spec_write_u64(v.talk) + spec_write_u64(v.assign_talk) + spec_write_u64(v.delete)
    }

    /// The values that read back unchanged from what they are written as.
    pub open spec fn wf(v: ChannelPerms) -> bool {
        true
    }

    /// Reads a `ChannelPerms`, field by field in declaration order.
    pub fn read(src: &mut Bytes) -> (r: Result<Self, ProtocolError>)
        ensures
            decoded(r, Self::spec_read(bytes_view(*old(src))), bytes_view(*old(src)), bytes_view(*final(src))),
    {
        broadcast use lemma_consumed_trans;
        proof { reveal(ChannelPerms::spec_read); }
        let see = read_u64(src)?;
        let join = read_u64(src)?;
        let modify = read_u64(src)?;
        let talk = read_u64(src)?;
        let assign_talk = read_u64(src)?;
        let delete = read_u64(src)?;
        Ok(ChannelPerms { see, join, modify, talk, assign_talk, delete })
    }

    /// Appends the bytes of this `ChannelPerms`.
    pub fn write(&self, dst: &mut BytesMut)
        requires
            has_room(bytes_mut_view(*old(dst)), Self::spec_write(self@).len() as int),
        ensures
            bytes_mut_view(*final(dst)) == bytes_mut_view(*old(dst)) + Self::spec_write(self@),
    {
        proof { reveal(ChannelPerms::spec_write); }
        write_u64(self.see, dst);
        write_u64(self.join, dst);
        write_u64(self.modify, dst);
        write_u64(self.talk, dst);
        write_u64(self.assign_talk, dst);
        write_u64(self.delete, dst);
        assert(bytes_mut_view(*dst) =~= bytes_mut_view(*old(dst)) + Self::spec_write(self@));
    }

    /// Reading what a well-formed `ChannelPerms` is written as gives it back, and the bytes after it.
    pub proof fn lemma_roundtrip(v: ChannelPerms, rest: Seq<u8>)
        requires
            Self::wf(v),
        ensures
            Self::spec_read(Self::spec_write(v) + rest) == Ok::<(ChannelPerms, Seq<u8>), ProtocolError>((v, rest)),
    {
        reveal(ChannelPerms::spec_read);
        reveal(ChannelPerms::spec_write);
        let t6 = rest;
        let t5 = spec_write_u64(v.delete) + t6;
        let t4 = spec_write_u64(v.assign_talk) + t5;
        let t3 = spec_write_u64(v.talk) + t4;
        let t2 = spec_write_u64(v.modify) + t3;
        let t1 = spec_write_u64(v.join) + t2;
        let t0 = spec_write_u64(v.see) + t1;
        assert(Self::spec_write(v) + rest =~= t0);
        lemma_rt_u64(v.see, t1);
        lemma_rt_u64(v.join, t2);
        lemma_rt_u64(v.modify, t3);
        lemma_rt_u64(v.talk, t4);
        lemma_rt_u64(v.assign_talk, t5);
        lemma_rt_u64(v.delete, t6);
    }
}

/// What a client may do when creating a channel.
#[derive(Clone, Copy, Debug)]
pub struct ChannelCreatePerms {
    pub power: u64,
    pub set_desc: bool,
    pub set_password: bool,
    pub resort_channel: bool,
}

impl View for ChannelCreatePerms {
    type V = ChannelCreatePerms;

    open spec fn view(&self) -> ChannelCreatePerms {
        *self
    }
}

impl ChannelCreatePerms {
    /// How a `ChannelCreatePerms` is read from the front of some bytes.
    #[verifier::opaque]
    pub open spec fn spec_read(s: Seq<u8>) -> SpecRead<ChannelCreatePerms> {
        match spec_read_u64(s) {
            Ok((power, r1)) => match spec_read_bool(r1) {
                Ok((set_desc, r2)) => match spec_read_bool(r2) {
                    Ok((set_password, r3)) => match spec_read_bool(r3) {
                        Ok((resort_channel, r4)) => Ok((ChannelCreatePerms { power: power, set_desc: set_desc, set_password: set_password, resort_channel: resort_channel }, r4)),
                        Err(e) => Err(e),
                    },
                    Err(e) => Err(e),
                },
                Err(e) => Err(e),
            },
            Err(e) => Err(e),
        }
    }

    /// The bytes a `ChannelCreatePerms` is written as.
    #[verifier::opaque]
    pub open spec fn spec_write(v: ChannelCreatePerms) -> Seq<u8> {
        spec_write_u64(v.power) + spec_write_bool(v.set_desc) + spec_write_bool(v.set_password) + spec_write_bool(v.resort_channel)
    }

    /// The values that read back unchanged from what they are written as.
    pub open spec fn wf(v: ChannelCreatePerms) -> bool {
        true
    }

    /// Reads a `ChannelCreatePerms`, field by field in declaration order.
    pub fn read(src: &mut Bytes) -> (r: Result<Self, ProtocolError>)
        ensures
            decoded(r, Self::spec_read(bytes_view(*old(src))), bytes_view(*old(src)), bytes_view(*final(src))),
    {
        broadcast use lemma_consumed_trans;
        proof { reveal(ChannelCreatePerms::spec_read); }
        let power = read_u64(src)?;
        let set_desc = read_bool(src)?;
        let set_password = read_bool(src)?;
        let resort_channel = read_bool(src)?;
        Ok(ChannelCreatePerms { power, set_desc, set_password, resort_channel })
    }

    /// Appends the bytes of this `ChannelCreatePerms`.
    pub fn write(&self, dst: &mut BytesMut)
        requires
            has_room(bytes_mut_view(*old(dst)), Self::spec_write(self@).len() as int),
        ensures
            bytes_mut_view(*final(dst)) == bytes_mut_view(*old(dst)) + Self::spec_write(self@),
    {
        proof { reveal(ChannelCreatePerms::spec_write); }
        write_u64(self.power, dst);
        write_bool(self.set_desc, dst);
        write_bool(self.set_password, dst);
        write_bool(self.resort_channel, dst);
        assert(bytes_mut_view(*dst) =~= bytes_mut_view(*old(dst)) + Self::spec_write(self@));
    }

    /// Reading what a well-formed `ChannelCreatePerms` is written as gives it back, and the bytes after it.
    pub proof fn lemma_roundtrip(v: ChannelCreatePerms, rest: Seq<u8>)
        requires
            Self::wf(v),
        ensures
            Self::spec_read(Self::spec_write(v) + rest) == Ok::<(ChannelCreatePerms, Seq<u8>), ProtocolError>((v, rest)),
    {
        reveal(ChannelCreatePerms::spec_read);
        reveal(ChannelCreatePerms::spec_write);
        let t4 = rest;
        let t3 = spec_write_bool(v.resort_channel) + t4;
        let t2 = spec_write_bool(v.set_password) + t3;
        let t1 = spec_write_bool(v.set_desc) + t2;
        let t0 = spec_write_u64(v.power) + t1;
        assert(Self::spec_write(v) + rest =~= t0);
        lemma_rt_u64(v.power, t1);
        lemma_rt_bool(v.set_desc, t2);
        lemma_rt_bool(v.set_password, t3);
        lemma_rt_bool(v.resort_channel, t4);
    }
}

/// The permissions of a user or of a server group.
#[derive(Clone, Copy, Debug)]
pub struct PermsSnapshot {
    pub server_group_assign: u64,
    pub server_group_unassign: u64,
    pub channel_see: u64,
    pub channel_join: u64,
    pub channel_modify: u64,
    pub channel_talk: u64,
    pub channel_assign_talk: u64,
    pub channel_delete: u64,
    pub can_send: bool,
    pub channel_create: ChannelCreatePerms,
}

impl View for PermsSnapshot {
    type V = PermsSnapshot;

    open spec fn view(&self) -> PermsSnapshot {
        *self
    }
}

impl PermsSnapshot {
    /// How a `PermsSnapshot` is read from the front of some bytes.
    #[verifier::opaque]
    pub open spec fn spec_read(s: Seq<u8>) -> SpecRead<PermsSnapshot> {
        match spec_read_u64(s) {
            Ok((server_group_assign, r1)) => match spec_read_u64(r1) {
                Ok((server_group_unassign, r2)) => match spec_read_u64(r2) {
                    Ok((channel_see, r3)) => match spec_read_u64(r3) {
                        Ok((channel_join, r4)) => match spec_read_u64(r4) {
                            Ok((channel_modify, r5)) => match spec_read_u64(r5) {
                                Ok((channel_talk, r6)) => match spec_read_u64(r6) {
                                    Ok((channel_assign_talk, r7)) => match spec_read_u64(r7) {
                                        Ok((channel_delete, r8)) => match spec_read_bool(r8) {
                                            Ok((can_send, r9)) => match ChannelCreatePerms::spec_read(r9) {
                                                Ok((channel_create, r10)) => Ok((PermsSnapshot { server_group_assign: server_group_assign, server_group_unassign: server_group_unassign, channel_see: channel_see, channel_join: channel_join, channel_modify: channel_modify, channel_talk: channel_talk, channel_assign_talk: channel_assign_talk, channel_delete: channel_delete, can_send: can_send, channel_create: channel_create }, r10)),
                                                Err(e) => Err(e),
                                            },
                                            Err(e) => Err(e),
                                        },
                                        Err(e) => Err(e),
                                    },
                                    Err(e) => Err(e),
                                },
                                Err(e) => Err(e),
                            },
                            Err(e) => Err(e),
                        },
                        Err(e) => Err(e),
                    },
                    Err(e) => Err(e),
                },
                Err(e) => Err(e),
            },
            Err(e) => Err(e),
        }
    }

    /// The bytes a `PermsSnapshot` is written as.
    #[verifier::opaque]
    pub open spec fn spec_write(v: PermsSnapshot) -> Seq<u8> {
        spec_write_u64(v.server_group_assign) + spec_write_u64(v.server_group_unassign) + spec_write_u64(v.channel_see) + spec_write_u64(v.channel_join) + spec_write_u64(v.channel_modify) + spec_write_u64(v.channel_talk) + spec_write_u64(v.channel_assign_talk) + spec_write_u64(v.channel_delete) + spec_write_bool(v.can_send) + ChannelCreatePerms::spec_write(v.channel_create)
    }

    /// The values that read back unchanged from what they are written as.
    pub open spec fn wf(v: PermsSnapshot) -> bool {
        ChannelCreatePerms::wf(v.channel_create)
    }

    /// Reads a `PermsSnapshot`, field by field in declaration order.
    pub fn read(src: &mut Bytes) -> (r: Result<Self, ProtocolError>)
        ensures
            decoded(r, Self::spec_read(bytes_view(*old(src))), bytes_view(*old(src)), bytes_view(*final(src))),
    {
        broadcast use lemma_consumed_trans;
        proof { reveal(PermsSnapshot::spec_read); }
        let server_group_assign = read_u64(src)?;
        let server_group_unassign = read_u64(src)?;
        let channel_see = read_u64(src)?;
        let channel_join = read_u64(src)?;
        let channel_modify = read_u64(src)?;
        let channel_talk = read_u64(src)?;
        let channel_assign_talk = read_u64(src)?;
        let channel_delete = read_u64(src)?;
        let can_send = read_bool(src)?;
        let channel_create = ChannelCreatePerms::read(src)?;
        Ok(PermsSnapshot { server_group_assign, server_group_unassign, channel_see, channel_join, channel_modify, channel_talk, channel_assign_talk, channel_delete, can_send, channel_create })
    }

    /// Appends the bytes of this `PermsSnapshot`.
    pub fn write(&self, dst: &mut BytesMut)
        requires
            has_room(bytes_mut_view(*old(dst)), Self::spec_write(self@).len() as int),
        ensures
            bytes_mut_view(*final(dst)) == bytes_mut_view(*old(dst)) + Self::spec_write(self@),
    {
        proof { reveal(PermsSnapshot::spec_write); }
        write_u64(self.server_group_assign, dst);
        write_u64(self.server_group_unassign, dst);
        write_u64(self.channel_see, dst);
        write_u64(self.channel_join, dst);
        write_u64(self.channel_modify, dst);
        write_u64(self.channel_talk, dst);
        write_u64(self.channel_assign_talk, dst);
        write_u64(self.channel_delete, dst);
        write_bool(self.can_send, dst);
        self.channel_create.write(dst);
        assert(bytes_mut_view(*dst) =~= bytes_mut_view(*old(dst)) + Self::spec_write(self@));
    }

    /// Reading what a well-formed `PermsSnapshot` is written as gives it back, and the bytes after it.
    pub proof fn lemma_roundtrip(v: PermsSnapshot, rest: Seq<u8>)
        requires
            Self::wf(v),
        ensures
            Self::spec_read(Self::spec_write(v) + rest) == Ok::<(PermsSnapshot, Seq<u8>), ProtocolError>((v, rest)),
    {
        reveal(PermsSnapshot::spec_read);
        reveal(PermsSnapshot::spec_write);
        let t10 = rest;
        let t9 = ChannelCreatePerms::spec_write(v.channel_create) + t10;
        let t8 = spec_write_bool(v.can_send) + t9;
        let t7 = spec_write_u64(v.channel_delete) + t8;
        let t6 = spec_write_u64(v.channel_assign_talk) + t7;
        let t5 = spec_write_u64(v.channel_talk) + t6;
        let t4 = spec_write_u64(v.channel_modify) + t5;
        let t3 = spec_write_u64(v.channel_join) + t4;
        let t2 = spec_write_u64(v.channel_see) + t3;
        let t1 = spec_write_u64(v.server_group_unassign) + t2;
        let t0 = spec_write_u64(v.server_group_assign) + t1;
        assert(Self::spec_write(v) + rest =~= t0);
        lemma_rt_u64(v.server_group_assign, t1);
        lemma_rt_u64(v.server_group_unassign, t2);
        lemma_rt_u64(v.channel_see, t3);
        lemma_rt_u64(v.channel_join, t4);
        lemma_rt_u64(v.channel_modify, t5);
        lemma_rt_u64(v.channel_talk, t6);
        lemma_rt_u64(v.channel_assign_talk, t7);
        lemma_rt_u64(v.channel_delete, t8);
        lemma_rt_bool(v.can_send, t9);
        ChannelCreatePerms::lemma_roundtrip(v.channel_create, t10);
    }
}

/// Another user as the server shows them: their name, identity and server groups.
#[derive(Clone, Debug)]
pub struct RemoteProfile {
    pub name: String,
    pub uuid: UserUuid,
    /// The uuids of the server groups they belong to.
    pub server_groups: Vec<u128>,
}

/// What a `RemoteProfile` holds, with text, lists and durations as plain values.
pub struct RemoteProfileView {
    pub name: Seq<char>,
    pub uuid: UserUuid,
    pub server_groups: Seq<u128>,
}

impl View for RemoteProfile {
    type V = RemoteProfileView;

    open spec fn view(&self) -> RemoteProfileView {
        RemoteProfileView {
            name: self.name@,
            uuid: self.uuid,
            server_groups: self.server_groups@,
        }
    }
}

impl RemoteProfile {
    /// How a `RemoteProfile` is read from the front of some bytes.
    #[verifier::opaque]
    pub open spec fn spec_read(s: Seq<u8>) -> SpecRead<RemoteProfileView> {
        match spec_read_string(s) {
            Ok((name, r1)) => match spec_read_user_uuid(r1) {
                Ok((uuid, r2)) => match spec_read_list(r2, |s: Seq<u8>| spec_read_u128(s)) {
                    Ok((server_groups, r3)) => Ok((RemoteProfileView { name: name, uuid: uuid, server_groups: server_groups }, r3)),
                    Err(e) => Err(e),
                },
                Err(e) => Err(e),
            },
            Err(e) => Err(e),
        }
    }

    /// The bytes a `RemoteProfile` is written as.
    #[verifier::opaque]
    pub open spec fn spec_write(v: RemoteProfileView) -> Seq<u8> {
        spec_write_string(v.name) + spec_write_user_uuid(v.uuid) + spec_write_list(v.server_groups, |x: u128| spec_write_u128(x))
    }

    /// The values that read back unchanged from what they are written as.
    pub open spec fn wf(v: RemoteProfileView) -> bool {
        wf_string(v.name) && v.server_groups.len() <= u64::MAX
    }

    /// Reads a `RemoteProfile`, field by field in declaration order.
    pub fn read(src: &mut Bytes) -> (r: Result<Self, ProtocolError>)
        ensures
            decoded(r, Self::spec_read(bytes_view(*old(src))), bytes_view(*old(src)), bytes_view(*final(src))),
    {
        broadcast use lemma_consumed_trans;
        proof { reveal(RemoteProfile::spec_read); }
        let name = read_string(src)?;
        let uuid = read_user_uuid(src)?;
        let server_groups = read_u128_list(src)?;
        Ok(RemoteProfile { name, uuid, server_groups })
    }

    /// Appends the bytes of this `RemoteProfile`.
    pub fn write(&self, dst: &mut BytesMut)
        requires
            has_room(bytes_mut_view(*old(dst)), Self::spec_write(self@).len() as int),
        ensures
            bytes_mut_view(*final(dst)) == bytes_mut_view(*old(dst)) + Self::spec_write(self@),
    {
        proof { reveal(RemoteProfile::spec_write); }
        write_string(self.name.as_str(), dst);
        write_user_uuid(&self.uuid, dst);
        write_u128_list(self.server_groups.as_slice(), dst);
        assert(bytes_mut_view(*dst) =~= bytes_mut_view(*old(dst)) + Self::spec_write(self@));
    }

    /// Reading what a well-formed `RemoteProfile` is written as gives it back, and the bytes after it.
    pub proof fn lemma_roundtrip(v: RemoteProfileView, rest: Seq<u8>)
        requires
            Self::wf(v),
        ensures
            Self::spec_read(Self::spec_write(v) + rest) == Ok::<(RemoteProfileView, Seq<u8>), ProtocolError>((v, rest)),
    {
        reveal(RemoteProfile::spec_read);
        reveal(RemoteProfile::spec_write);
        let t3 = rest;
        let t2 = spec_write_list(v.server_groups, |x: u128| spec_write_u128(x)) + t3;
        let t1 = spec_write_user_uuid(v.uuid) + t2;
        let t0 = spec_write_string(v.name) + t1;
        assert(Self::spec_write(v) + rest =~= t0);
        lemma_rt_string(v.name, t1);
        lemma_rt_user_uuid(v.uuid, t2);
        lemma_rt_u128_list(v.server_groups, t3);
    }

    /// The lists of values that read back unchanged.
    pub open spec fn wf_list(xs: Seq<RemoteProfileView>) -> bool {
        xs.len() <= u64::MAX && forall|i: int| 0 <= i < xs.len() ==> #[trigger] Self::wf(xs[i])
    }

    /// Reads a `u64` count, then that many values.
    #[verifier::rlimit(30)]
    pub fn read_list(src: &mut Bytes) -> (r: Result<Vec<Self>, ProtocolError>)
        ensures
            decoded_list(
                r,
                spec_read_list(bytes_view(*old(src)), |s: Seq<u8>| Self::spec_read(s)),
                bytes_view(*old(src)),
                bytes_view(*final(src)),
            ),
    {
        broadcast use lemma_consumed_trans;
        let ghost s0 = bytes_view(*src);
        let ghost dec = |s: Seq<u8>| Self::spec_read(s);
        let len = read_u64(src)?;
        let ghost r0 = bytes_view(*src);
        let mut result: Vec<Self> = Vec::new();
        let mut i: u64 = 0;
        proof {
            lemma_consumed_refl(r0);
            assert(result@.map_values(|x: Self| x@) =~= Seq::<RemoteProfileView>::empty());
        }
        while i < len
            invariant
                dec == (|s: Seq<u8>| Self::spec_read(s)),
                s0 == bytes_view(*old(src)),
                i <= len,
                spec_read_u64(s0) == Ok::<(u64, Seq<u8>), ProtocolError>((len, r0)),
                consumed_from(s0, r0),
                consumed_from(r0, bytes_view(*src)),
                spec_read_n(r0, i as nat, dec) == Ok::<(Seq<RemoteProfileView>, Seq<u8>), ProtocolError>(
                    (result@.map_values(|x: Self| x@), bytes_view(*src)),
                ),
            decreases len - i,
        {
            let ghost before = bytes_view(*src);
            let ghost prev = result@.map_values(|x: Self| x@);
            proof {
                assert(dec(before) == Self::spec_read(before));
            }
            match Self::read(src) {
                Ok(v) => {
                    result.push(v);
                    proof {
                        assert(result@.map_values(|x: Self| x@) =~= prev.push(v@));
                        assert(spec_read_n(r0, (i + 1) as nat, dec) == Ok::<
                            (Seq<RemoteProfileView>, Seq<u8>),
                            ProtocolError,
                        >((result@.map_values(|x: Self| x@), bytes_view(*src))));
                    }
                    i = i + 1;
                },
                Err(e) => {
                    proof {
                        assert(spec_read_n(r0, (i + 1) as nat, dec) == Err::<
                            (Seq<RemoteProfileView>, Seq<u8>),
                            ProtocolError,
                        >(e));
                        lemma_read_n_err(r0, (i + 1) as nat, len as nat, dec);
                        lemma_consumed_trans(r0, before, bytes_view(*src));
                        lemma_consumed_trans(s0, r0, bytes_view(*src));
                    }
                    return Err(e);
                },
            }
        }
        Ok(result)
    }

    /// Appends a `u64` count, then the values.
    pub fn write_list(xs: &[Self], dst: &mut BytesMut)
        requires
            has_room(
                bytes_mut_view(*old(dst)),
                spec_write_list(xs@.map_values(|x: Self| x@), |x: RemoteProfileView| Self::spec_write(x)).len() as int,
            ),
        ensures
            bytes_mut_view(*final(dst)) == bytes_mut_view(*old(dst)) + spec_write_list(
                xs@.map_values(|x: Self| x@),
                |x: RemoteProfileView| Self::spec_write(x),
            ),
    {
        let ghost enc = |x: RemoteProfileView| Self::spec_write(x);
        let ghost vs = xs@.map_values(|x: Self| x@);
        write_u64(xs.len() as u64, dst);
        let ghost start = bytes_mut_view(*dst);
        let mut i: usize = 0;
        while i < xs.len()
            invariant
                enc == (|x: RemoteProfileView| Self::spec_write(x)),
                vs == xs@.map_values(|x: Self| x@),
                i <= xs@.len(),
                start == bytes_mut_view(*old(dst)) + spec_write_u64(xs@.len() as u64),
                has_room(bytes_mut_view(*old(dst)), spec_write_list(vs, enc).len() as int),
                bytes_mut_view(*dst) == start + spec_concat_all(vs.take(i as int), enc),
            decreases xs.len() - i,
        {
            proof {
                lemma_concat_step(vs, i as int, enc);
                assert(vs[i as int] == xs[i as int]@);
            }
            xs[i].write(dst);
            proof {
                assert(bytes_mut_view(*dst) =~= start + spec_concat_all(vs.take(i + 1), enc));
            }
            i = i + 1;
        }
        assert(vs.take(vs.len() as int) =~= vs);
        assert(bytes_mut_view(*dst) =~= bytes_mut_view(*old(dst)) + spec_write_list(vs, enc));
    }

    /// Reading what a well-formed list is written as gives it back, and the bytes after it.
    pub proof fn lemma_roundtrip_list(xs: Seq<RemoteProfileView>, rest: Seq<u8>)
        requires
            Self::wf_list(xs),
        ensures
            spec_read_list(
                spec_write_list(xs, |x: RemoteProfileView| Self::spec_write(x)) + rest,
                |s: Seq<u8>| Self::spec_read(s),
            ) == Ok::<(Seq<RemoteProfileView>, Seq<u8>), ProtocolError>((xs, rest)),
    {
        let enc = |x: RemoteProfileView| Self::spec_write(x);
        let dec = |s: Seq<u8>| Self::spec_read(s);
        assert forall|i: int, r: Seq<u8>| 0 <= i < xs.len() implies #[trigger] dec(enc(xs[i]) + r)
            == Ok::<(RemoteProfileView, Seq<u8>), ProtocolError>((xs[i], r)) by {
            Self::lemma_roundtrip(xs[i], r);
        }
        lemma_list_roundtrip(xs, rest, enc, dec);
    }
}

/// A group of users sharing a set of permissions.
#[derive(Clone, Debug)]
pub struct ServerGroup {
    pub uuid: u128,
    pub name: String,
    pub priority: u64,
    pub perms: PermsSnapshot,
}

/// What a `ServerGroup` holds, with text, lists and durations as plain values.
pub struct ServerGroupView {
    pub uuid: u128,
    pub name: Seq<char>,
    pub priority: u64,
    pub perms: PermsSnapshot,
}

impl View for ServerGroup {
    type V = ServerGroupView;

    open spec fn view(&self) -> ServerGroupView {
        ServerGroupView {
            uuid: self.uuid,
            name: self.name@,
            priority: self.priority,
            perms: self.perms@,
        }
    }
}

impl ServerGroup {
    /// How a `ServerGroup` is read from the front of some bytes.
    #[verifier::opaque]
    pub open spec fn spec_read(s: Seq<u8>) -> SpecRead<ServerGroupView> {
        match spec_read_u128(s) {
            Ok((uuid, r1)) => match spec_read_string(r1) {
                Ok((name, r2)) => match spec_read_u64(r2) {
                    Ok((priority, r3)) => match PermsSnapshot::spec_read(r3) {
                        Ok((perms, r4)) => Ok((ServerGroupView { uuid: uuid, name: name, priority: priority, perms: perms }, r4)),
                        Err(e) => Err(e),
                    },
                    Err(e) => Err(e),
                },
                Err(e) => Err(e),
            },
            Err(e) => Err(e),
        }
    }

    /// The bytes a `ServerGroup` is written as.
    #[verifier::opaque]
    pub open spec fn spec_write(v: ServerGroupView) -> Seq<u8> {
        spec_write_u128(v.uuid) + spec_write_string(v.name) + spec_write_u64(v.priority) + PermsSnapshot::spec_write(v.perms)
    }

    /// The values that read back unchanged from what they are written as.
    pub open spec fn wf(v: ServerGroupView) -> bool {
        wf_string(v.name) && PermsSnapshot::wf(v.perms)
    }

    /// Reads a `ServerGroup`, field by field in declaration order.
    pub fn read(src: &mut Bytes) -> (r: Result<Self, ProtocolError>)
        ensures
            decoded(r, Self::spec_read(bytes_view(*old(src))), bytes_view(*old(src)), bytes_view(*final(src))),
    {
        broadcast use lemma_consumed_trans;
        proof { reveal(ServerGroup::spec_read); }
        let uuid = read_u128(src)?;
        let name = read_string(src)?;
        let priority = read_u64(src)?;
        let perms = PermsSnapshot::read(src)?;
        Ok(ServerGroup { uuid, name, priority, perms })
    }

    /// Appends the bytes of this `ServerGroup`.
    pub fn write(&self, dst: &mut BytesMut)
        requires
            has_room(bytes_mut_view(*old(dst)), Self::spec_write(self@).len() as int),
        ensures
            bytes_mut_view(*final(dst)) == bytes_mut_view(*old(dst)) + Self::spec_write(self@),
    {
        proof { reveal(ServerGroup::spec_write); }
        write_u128(self.uuid, dst);
        write_string(self.name.as_str(), dst);
        write_u64(self.priority, dst);
        self.perms.write(dst);
        assert(bytes_mut_view(*dst) =~= bytes_mut_view(*old(dst)) + Self::spec_write(self@));
    }

    /// Reading what a well-formed `ServerGroup` is written as gives it back, and the bytes after it.
    pub proof fn lemma_roundtrip(v: ServerGroupView, rest: Seq<u8>)
        requires
            Self::wf(v),
        ensures
            Self::spec_read(Self::spec_write(v) + rest) == Ok::<(ServerGroupView, Seq<u8>), ProtocolError>((v, rest)),
    {
        reveal(ServerGroup::spec_read);
        reveal(ServerGroup::spec_write);
        let t4 = rest;
        let t3 = PermsSnapshot::spec_write(v.perms) + t4;
        let t2 = spec_write_u64(v.priority) + t3;
        let t1 = spec_write_string(v.name) + t2;
        let t0 = spec_write_u128(v.uuid) + t1;
        assert(Self::spec_write(v) + rest =~= t0);
        lemma_rt_u128(v.uuid, t1);
        lemma_rt_string(v.name, t2);
        lemma_rt_u64(v.priority, t3);
        PermsSnapshot::lemma_roundtrip(v.perms, t4);
    }

    /// The lists of values that read back unchanged.
    pub open spec fn wf_list(xs: Seq<ServerGroupView>) -> bool {
        xs.len() <= u64::MAX && forall|i: int| 0 <= i < xs.len() ==> #[trigger] Self::wf(xs[i])
    }

    /// Reads a `u64` count, then that many values.
    #[verifier::rlimit(30)]
    pub fn read_list(src: &mut Bytes) -> (r: Result<Vec<Self>, ProtocolError>)
        ensures
            decoded_list(
                r,
                spec_read_list(bytes_view(*old(src)), |s: Seq<u8>| Self::spec_read(s)),
                bytes_view(*old(src)),
                bytes_view(*final(src)),
            ),
    {
        broadcast use lemma_consumed_trans;
        let ghost s0 = bytes_view(*src);
        let ghost dec = |s: Seq<u8>| Self::spec_read(s);
        let len = read_u64(src)?;
        let ghost r0 = bytes_view(*src);
        let mut result: Vec<Self> = Vec::new();
        let mut i: u64 = 0;
        proof {
            lemma_consumed_refl(r0);
            assert(result@.map_values(|x: Self| x@) =~= Seq::<ServerGroupView>::empty());
        }
        while i < len
            invariant
                dec == (|s: Seq<u8>| Self::spec_read(s)),
                s0 == bytes_view(*old(src)),
                i <= len,
                spec_read_u64(s0) == Ok::<(u64, Seq<u8>), ProtocolError>((len, r0)),
                consumed_from(s0, r0),
                consumed_from(r0, bytes_view(*src)),
                spec_read_n(r0, i as nat, dec) == Ok::<(Seq<ServerGroupView>, Seq<u8>), ProtocolError>(
                    (result@.map_values(|x: Self| x@), bytes_view(*src)),
                ),
            decreases len - i,
        {
            let ghost before = bytes_view(*src);
            let ghost prev = result@.map_values(|x: Self| x@);
            proof {
                assert(dec(before) == Self::spec_read(before));
            }
            match Self::read(src) {
                Ok(v) => {
                    result.push(v);
                    proof {
                        assert(result@.map_values(|x: Self| x@) =~= prev.push(v@));
                        assert(spec_read_n(r0, (i + 1) as nat, dec) == Ok::<
                            (Seq<ServerGroupView>, Seq<u8>),
                            ProtocolError,
                        >((result@.map_values(|x: Self| x@), bytes_view(*src))));
                    }
                    i = i + 1;
                },
                Err(e) => {
                    proof {
                        assert(spec_read_n(r0, (i + 1) as nat, dec) == Err::<
                            (Seq<ServerGroupView>, Seq<u8>),
                            ProtocolError,
                        >(e));
                        lemma_read_n_err(r0, (i + 1) as nat, len as nat, dec);
                        lemma_consumed_trans(r0, before, bytes_view(*src));
                        lemma_consumed_trans(s0, r0, bytes_view(*src));
                    }
                    return Err(e);
                },
            }
        }
        Ok(result)
    }

    /// Appends a `u64` count, then the values.
    pub fn write_list(xs: &[Self], dst: &mut BytesMut)
        requires
            has_room(
                bytes_mut_view(*old(dst)),
                spec_write_list(xs@.map_values(|x: Self| x@), |x: ServerGroupView| Self::spec_write(x)).len() as int,
            ),
        ensures
            bytes_mut_view(*final(dst)) == bytes_mut_view(*old(dst)) + spec_write_list(
                xs@.map_values(|x: Self| x@),
                |x: ServerGroupView| Self::spec_write(x),
            ),
    {
        let ghost enc = |x: ServerGroupView| Self::spec_write(x);
        let ghost vs = xs@.map_values(|x: Self| x@);
        write_u64(xs.len() as u64, dst);
        let ghost start = bytes_mut_view(*dst);
        let mut i: usize = 0;
        while i < xs.len()
            invariant
                enc == (|x: ServerGroupView| Self::spec_write(x)),
                vs == xs@.map_values(|x: Self| x@),
                i <= xs@.len(),
                start == bytes_mut_view(*old(dst)) + spec_write_u64(xs@.len() as u64),
                has_room(bytes_mut_view(*old(dst)), spec_write_list(vs, enc).len() as int),
                bytes_mut_view(*dst) == start + spec_concat_all(vs.take(i as int), enc),
            decreases xs.len() - i,
        {
            proof {
                lemma_concat_step(vs, i as int, enc);
                assert(vs[i as int] == xs[i as int]@);
            }
            xs[i].write(dst);
            proof {
                assert(bytes_mut_view(*dst) =~= start + spec_concat_all(vs.take(i + 1), enc));
            }
            i = i + 1;
        }
        assert(vs.take(vs.len() as int) =~= vs);
        assert(bytes_mut_view(*dst) =~= bytes_mut_view(*old(dst)) + spec_write_list(vs, enc));
    }

    /// Reading what a well-formed list is written as gives it back, and the bytes after it.
    pub proof fn lemma_roundtrip_list(xs: Seq<ServerGroupView>, rest: Seq<u8>)
        requires
            Self::wf_list(xs),
        ensures
            spec_read_list(
                spec_write_list(xs, |x: ServerGroupView| Self::spec_write(x)) + rest,
                |s: Seq<u8>| Self::spec_read(s),
            ) == Ok::<(Seq<ServerGroupView>, Seq<u8>), ProtocolError>((xs, rest)),
    {
        let enc = |x: ServerGroupView| Self::spec_write(x);
        let dec = |s: Seq<u8>| Self::spec_read(s);
        assert forall|i: int, r: Seq<u8>| 0 <= i < xs.len() implies #[trigger] dec(enc(xs[i]) + r)
            == Ok::<(ServerGroupView, Seq<u8>), ProtocolError>((xs[i], r)) by {
            Self::lemma_roundtrip(xs[i], r);
        }
        lemma_list_roundtrip(xs, rest, enc, dec);
    }
}

/// A voice channel.
#[derive(Clone, Debug)]
pub struct Channel {
    pub uuid: u128,
    /// Whether joining asks for a password.
    pub password: bool,
    pub name: String,
    pub desc: String,
    pub perms: ChannelPerms,
    /// The identities of the users in the channel; kept locally and never sent.
    pub clients: Vec<UserUuid>,
    /// The profiles of the users in the channel, as sent to clients.
    pub proto_clients: Vec<RemoteProfile>,
    /// How many users fit; -1 for no limit.
    pub slots: i16,
    /// Where the channel is listed.
    pub sort_id: u16,
}

/// What a `Channel` holds, with text, lists and durations as plain values.
pub struct ChannelView {
    pub uuid: u128,
    pub password: bool,
    pub name: Seq<char>,
    pub desc: Seq<char>,
    pub perms: ChannelPerms,
    pub clients: Seq<UserUuid>,
    pub proto_clients: Seq<RemoteProfileView>,
    pub slots: i16,
    pub sort_id: u16,
}

impl View for Channel {
    type V = ChannelView;

    open spec fn view(&self) -> ChannelView {
        ChannelView {
            uuid: self.uuid,
            password: self.password,
            name: self.name@,
            desc: self.desc@,
            perms: self.perms@,
            clients: self.clients@,
            proto_clients: self.proto_clients@.map_values(|x: RemoteProfile| x@),
            slots: self.slots,
            sort_id: self.sort_id,
        }
    }
}

impl Channel {
    /// How a `Channel` is read from the front of some bytes.
    #[verifier::opaque]
    pub open spec fn spec_read(s: Seq<u8>) -> SpecRead<ChannelView> {
        match spec_read_u128(s) {
            Ok((uuid, r1)) => match spec_read_bool(r1) {
                Ok((password, r2)) => match spec_read_string(r2) {
                    Ok((name, r3)) => match spec_read_string(r3) {
                        Ok((desc, r4)) => match ChannelPerms::spec_read(r4) {
                            Ok((perms, r5)) => match spec_read_list(r5, |s: Seq<u8>| RemoteProfile::spec_read(s)) {
                                Ok((proto_clients, r6)) => match spec_read_i16(r6) {
                                    Ok((slots, r7)) => match spec_read_u16(r7) {
                                        Ok((sort_id, r8)) => Ok((ChannelView { uuid: uuid, password: password, name: name, desc: desc, perms: perms, clients: Seq::<UserUuid>::empty(), proto_clients: proto_clients, slots: slots, sort_id: sort_id }, r8)),
                                        Err(e) => Err(e),
                                    },
                                    Err(e) => Err(e),
                                },
                                Err(e) => Err(e),
                            },
                            Err(e) => Err(e),
                        },
                        Err(e) => Err(e),
                    },
                    Err(e) => Err(e),
                },
                Err(e) => Err(e),
            },
            Err(e) => Err(e),
        }
    }

    /// The bytes a `Channel` is written as.
    #[verifier::opaque]
    pub open spec fn spec_write(v: ChannelView) -> Seq<u8> {
        spec_write_u128(v.uuid) + spec_write_bool(v.password) + spec_write_string(v.name) + spec_write_string(v.desc) + ChannelPerms::spec_write(v.perms) + spec_write_list(v.proto_clients, |x: RemoteProfileView| RemoteProfile::spec_write(x)) + spec_write_i16(v.slots) + spec_write_u16(v.sort_id)
    }

    /// The values that read back unchanged from what they are written as.
    pub open spec fn wf(v: ChannelView) -> bool {
        wf_string(v.name) && wf_string(v.desc) && ChannelPerms::wf(v.perms) && v.clients.len() == 0 && RemoteProfile::wf_list(v.proto_clients)
    }

    /// Reads a `Channel`, field by field in declaration order.
    pub fn read(src: &mut Bytes) -> (r: Result<Self, ProtocolError>)
        ensures
            decoded(r, Self::spec_read(bytes_view(*old(src))), bytes_view(*old(src)), bytes_view(*final(src))),
    {
        broadcast use lemma_consumed_trans;
        proof { reveal(Channel::spec_read); }
        let uuid = read_u128(src)?;
        let password = read_bool(src)?;
        let name = read_string(src)?;
        let desc = read_string(src)?;
        let perms = ChannelPerms::read(src)?;
        let clients: Vec<UserUuid> = Vec::new();
        let proto_clients = RemoteProfile::read_list(src)?;
        let slots = read_i16(src)?;
        let sort_id = read_u16(src)?;
        Ok(Channel { uuid, password, name, desc, perms, clients, proto_clients, slots, sort_id })
    }

    /// Appends the bytes of this `Channel`.
    pub fn write(&self, dst: &mut BytesMut)
        requires
            has_room(bytes_mut_view(*old(dst)), Self::spec_write(self@).len() as int),
        ensures
            bytes_mut_view(*final(dst)) == bytes_mut_view(*old(dst)) + Self::spec_write(self@),
    {
        proof { reveal(Channel::spec_write); }
        write_u128(self.uuid, dst);
        write_bool(self.password, dst);
        write_string(self.name.as_str(), dst);
        write_string(self.desc.as_str(), dst);
        self.perms.write(dst);
        RemoteProfile::write_list(self.proto_clients.as_slice(), dst);
        write_i16(self.slots, dst);
        write_u16(self.sort_id, dst);
        assert(bytes_mut_view(*dst) =~= bytes_mut_view(*old(dst)) + Self::spec_write(self@));
    }

    /// Reading what a well-formed `Channel` is written as gives it back, and the bytes after it.
    pub proof fn lemma_roundtrip(v: ChannelView, rest: Seq<u8>)
        requires
            Self::wf(v),
        ensures
            Self::spec_read(Self::spec_write(v) + rest) == Ok::<(ChannelView, Seq<u8>), ProtocolError>((v, rest)),
    {
        reveal(Channel::spec_read);
        reveal(Channel::spec_write);
        let t8 = rest;
        let t7 = spec_write_u16(v.sort_id) + t8;
        let t6 = spec_write_i16(v.slots) + t7;
        let t5 = spec_write_list(v.proto_clients, |x: RemoteProfileView| RemoteProfile::spec_write(x)) + t6;
        let t4 = ChannelPerms::spec_write(v.perms) + t5;
        let t3 = spec_write_string(v.desc) + t4;
        let t2 = spec_write_string(v.name) + t3;
        let t1 = spec_write_bool(v.password) + t2;
        let t0 = spec_write_u128(v.uuid) + t1;
        assert(Self::spec_write(v) + rest =~= t0);
        lemma_rt_u128(v.uuid, t1);
        lemma_rt_bool(v.password, t2);
        lemma_rt_string(v.name, t3);
        lemma_rt_string(v.desc, t4);
        ChannelPerms::lemma_roundtrip(v.perms, t5);
        RemoteProfile::lemma_roundtrip_list(v.proto_clients, t6);
        lemma_rt_i16(v.slots, t7);
        lemma_rt_u16(v.sort_id, t8);
        assert(v.clients =~= Seq::<UserUuid>::empty());
    }

    /// The lists of values that read back unchanged.
    pub open spec fn wf_list(xs: Seq<ChannelView>) -> bool {
        xs.len() <= u64::MAX && forall|i: int| 0 <= i < xs.len() ==> #[trigger] Self::wf(xs[i])
    }

    /// Reads a `u64` count, then that many values.
    #[verifier::rlimit(30)]
    pub fn read_list(src: &mut Bytes) -> (r: Result<Vec<Self>, ProtocolError>)
        ensures
            decoded_list(
                r,
                spec_read_list(bytes_view(*old(src)), |s: Seq<u8>| Self::spec_read(s)),
                bytes_view(*old(src)),
                bytes_view(*final(src)),
            ),
    {
        broadcast use lemma_consumed_trans;
        let ghost s0 = bytes_view(*src);
        let ghost dec = |s: Seq<u8>| Self::spec_read(s);
        let len = read_u64(src)?;
        let ghost r0 = bytes_view(*src);
        let mut result: Vec<Self> = Vec::new();
        let mut i: u64 = 0;
        proof {
            lemma_consumed_refl(r0);
            assert(result@.map_values(|x: Self| x@) =~= Seq::<ChannelView>::empty());
        }
        while i < len
            invariant
                dec == (|s: Seq<u8>| Self::spec_read(s)),
                s0 == bytes_view(*old(src)),
                i <= len,
                spec_read_u64(s0) == Ok::<(u64, Seq<u8>), ProtocolError>((len, r0)),
                consumed_from(s0, r0),
                consumed_from(r0, bytes_view(*src)),
                spec_read_n(r0, i as nat, dec) == Ok::<(Seq<ChannelView>, Seq<u8>), ProtocolError>(
                    (result@.map_values(|x: Self| x@), bytes_view(*src)),
                ),
            decreases len - i,
        {
            let ghost before = bytes_view(*src);
            let ghost prev = result@.map_values(|x: Self| x@);
            proof {
                assert(dec(before) == Self::spec_read(before));
            }
            match Self::read(src) {
                Ok(v) => {
                    result.push(v);
                    proof {
                        assert(result@.map_values(|x: Self| x@) =~= prev.push(v@));
                        assert(spec_read_n(r0, (i + 1) as nat, dec) == Ok::<
                            (Seq<ChannelView>, Seq<u8>),
                            ProtocolError,
                        >((result@.map_values(|x: Self| x@), bytes_view(*src))));
                    }
                    i = i + 1;
                },
                Err(e) => {
                    proof {
                        assert(spec_read_n(r0, (i + 1) as nat, dec) == Err::<
                            (Seq<ChannelView>, Seq<u8>),
                            ProtocolError,
                        >(e));
                        lemma_read_n_err(r0, (i + 1) as nat, len as nat, dec);
                        lemma_consumed_trans(r0, before, bytes_view(*src));
                        lemma_consumed_trans(s0, r0, bytes_view(*src));
                    }
                    return Err(e);
                },
            }
        }
        Ok(result)
    }

    /// Appends a `u64` count, then the values.
    pub fn write_list(xs: &[Self], dst: &mut BytesMut)
        requires
            has_room(
                bytes_mut_view(*old(dst)),
                spec_write_list(xs@.map_values(|x: Self| x@), |x: ChannelView| Self::spec_write(x)).len() as int,
            ),
        ensures
            bytes_mut_view(*final(dst)) == bytes_mut_view(*old(dst)) + spec_write_list(
                xs@.map_values(|x: Self| x@),
                |x: ChannelView| Self::spec_write(x),
            ),
    {
        let ghost enc = |x: ChannelView| Self::spec_write(x);
        let ghost vs = xs@.map_values(|x: Self| x@);
        write_u64(xs.len() as u64, dst);
        let ghost start = bytes_mut_view(*dst);
        let mut i: usize = 0;
        while i < xs.len()
            invariant
                enc == (|x: ChannelView| Self::spec_write(x)),
                vs == xs@.map_values(|x: Self| x@),
                i <= xs@.len(),
                start == bytes_mut_view(*old(dst)) + spec_write_u64(xs@.len() as u64),
                has_room(bytes_mut_view(*old(dst)), spec_write_list(vs, enc).len() as int),
                bytes_mut_view(*dst) == start + spec_concat_all(vs.take(i as int), enc),
            decreases xs.len() - i,
        {
            proof {
                lemma_concat_step(vs, i as int, enc);
                assert(vs[i as int] == xs[i as int]@);
            }
            xs[i].write(dst);
            proof {
                assert(bytes_mut_view(*dst) =~= start + spec_concat_all(vs.take(i + 1), enc));
            }
            i = i + 1;
        }
        assert(vs.take(vs.len() as int) =~= vs);
        assert(bytes_mut_view(*dst) =~= bytes_mut_view(*old(dst)) + spec_write_list(vs, enc));
    }

    /// Reading what a well-formed list is written as gives it back, and the bytes after it.
    pub proof fn lemma_roundtrip_list(xs: Seq<ChannelView>, rest: Seq<u8>)
        requires
            Self::wf_list(xs),
        ensures
            spec_read_list(
                spec_write_list(xs, |x: ChannelView| Self::spec_write(x)) + rest,
                |s: Seq<u8>| Self::spec_read(s),
            ) == Ok::<(Seq<ChannelView>, Seq<u8>), ProtocolError>((xs, rest)),
    {
        let enc = |x: ChannelView| Self::spec_write(x);
        let dec = |s: Seq<u8>| Self::spec_read(s);
        assert forall|i: int, r: Seq<u8>| 0 <= i < xs.len() implies #[trigger] dec(enc(xs[i]) + r)
            == Ok::<(ChannelView, Seq<u8>), ProtocolError>((xs[i], r)) by {
            Self::lemma_roundtrip(xs[i], r);
        }
        lemma_list_roundtrip(xs, rest, enc, dec);
    }
}

/// A change to the server groups a client belongs to, by group uuid.
#[derive(Clone, Copy, Debug)]
pub enum ClientUpdateServerGroups {
    Add(u128),
    Remove(u128),
}

impl View for ClientUpdateServerGroups {
    type V = ClientUpdateServerGroups;

    open spec fn view(&self) -> ClientUpdateServerGroups {
        *self
    }
}

impl ClientUpdateServerGroups {
    /// How a `ClientUpdateServerGroups` is read: a variant byte, then that variant's fields.
    #[verifier::opaque]
    pub open spec fn spec_read(s: Seq<u8>) -> SpecRead<ClientUpdateServerGroups> {
        match spec_read_u8(s) {
            Ok((tag, r0)) => {
                if tag == 0 {
                    match spec_read_u128(r0) {
                        Ok((g, r1)) => Ok((ClientUpdateServerGroups::Add(g), r1)),
                        Err(e) => Err(e),
                    }
                } else if tag == 1 {
                    match spec_read_u128(r0) {
                        Ok((g, r1)) => Ok((ClientUpdateServerGroups::Remove(g), r1)),
                        Err(e) => Err(e),
                    }
                } else {
                    Err(ProtocolError::EnumVariantNotFound(ErrorEnumVariantNotFound("ClientUpdateServerGroups", tag)))
                }
            },
            Err(e) => Err(e),
        }
    }

    /// The bytes a `ClientUpdateServerGroups` is written as.
    #[verifier::opaque]
    pub open spec fn spec_write(v: ClientUpdateServerGroups) -> Seq<u8> {
        match v {
            ClientUpdateServerGroups::Add(g) => spec_write_u8(0u8) + spec_write_u128(g),
            ClientUpdateServerGroups::Remove(g) => spec_write_u8(1u8) + spec_write_u128(g),
        }
    }

    /// The values that read back unchanged from what they are written as.
    pub open spec fn wf(v: ClientUpdateServerGroups) -> bool {
        match v {
            ClientUpdateServerGroups::Add(_) => true,
            ClientUpdateServerGroups::Remove(_) => true,
        }
    }

    /// Reads a `ClientUpdateServerGroups`.
    pub fn read(src: &mut Bytes) -> (r: Result<Self, ProtocolError>)
        ensures
            decoded(r, Self::spec_read(bytes_view(*old(src))), bytes_view(*old(src)), bytes_view(*final(src))),
    {
        broadcast use lemma_consumed_trans;
        proof { reveal(ClientUpdateServerGroups::spec_read); }
        let tag = read_u8(src)?;
        match tag {
            0 => {
                let g = read_u128(src)?;
                Ok(ClientUpdateServerGroups::Add(g))
            },
            1 => {
                let g = read_u128(src)?;
                Ok(ClientUpdateServerGroups::Remove(g))
            },
            _ => Err(ProtocolError::EnumVariantNotFound(ErrorEnumVariantNotFound("ClientUpdateServerGroups", tag))),
        }
    }

    /// Appends the bytes of this `ClientUpdateServerGroups`.
    pub fn write(&self, dst: &mut BytesMut)
        requires
            has_room(bytes_mut_view(*old(dst)), Self::spec_write(self@).len() as int),
        ensures
            bytes_mut_view(*final(dst)) == bytes_mut_view(*old(dst)) + Self::spec_write(self@),
    {
        proof { reveal(ClientUpdateServerGroups::spec_write); }
        match self {
            ClientUpdateServerGroups::Add(g) => {
                write_u8(0, dst);
                write_u128(*g, dst);
            },
            ClientUpdateServerGroups::Remove(g) => {
                write_u8(1, dst);
                write_u128(*g, dst);
            },
        }
        assert(bytes_mut_view(*dst) =~= bytes_mut_view(*old(dst)) + Self::spec_write(self@));
    }

    /// Reading what a well-formed `ClientUpdateServerGroups` is written as gives it back, and the bytes after it.
    pub proof fn lemma_roundtrip(v: ClientUpdateServerGroups, rest: Seq<u8>)
        requires
            Self::wf(v),
        ensures
            Self::spec_read(Self::spec_write(v) + rest) == Ok::<(ClientUpdateServerGroups, Seq<u8>), ProtocolError>((v, rest)),
    {
        reveal(ClientUpdateServerGroups::spec_read);
        reveal(ClientUpdateServerGroups::spec_write);
        match v {
            ClientUpdateServerGroups::Add(g) => {
                let t1 = rest;
                let t0 = spec_write_u128(g) + t1;
                assert(Self::spec_write(v) + rest =~= spec_write_u8(0u8) + t0);
                lemma_rt_u8(0u8, t0);
                lemma_rt_u128(g, t1);
            },
            ClientUpdateServerGroups::Remove(g) => {
                let t1 = rest;
                let t0 = spec_write_u128(g) + t1;
                assert(Self::spec_write(v) + rest =~= spec_write_u8(1u8) + t0);
                lemma_rt_u8(1u8, t0);
                lemma_rt_u128(g, t1);
            },
        }
    }
}

/// A user entering or leaving a channel.
#[derive(Clone, Copy, Debug)]
pub enum ChannelSubClientUpdate {
    Add(UserUuid),
    Remove(UserUuid),
}

impl View for ChannelSubClientUpdate {
    type V = ChannelSubClientUpdate;

    open spec fn view(&self) -> ChannelSubClientUpdate {
        *self
    }
}

impl ChannelSubClientUpdate {
    /// How a `ChannelSubClientUpdate` is read: a variant byte, then that variant's fields.
    #[verifier::opaque]
    pub open spec fn spec_read(s: Seq<u8>) -> SpecRead<ChannelSubClientUpdate> {
        match spec_read_u8(s) {
            Ok((tag, r0)) => {
                if tag == 0 {
                    match spec_read_user_uuid(r0) {
                        Ok((u, r1)) => Ok((ChannelSubClientUpdate::Add(u), r1)),
                        Err(e) => Err(e),
                    }
                } else if tag == 1 {
                    match spec_read_user_uuid(r0) {
                        Ok((u, r1)) => Ok((ChannelSubClientUpdate::Remove(u), r1)),
                        Err(e) => Err(e),
                    }
                } else {
                    Err(ProtocolError::EnumVariantNotFound(ErrorEnumVariantNotFound("ChannelSubClientUpdate", tag)))
                }
            },
            Err(e) => Err(e),
        }
    }

    /// The bytes a `ChannelSubClientUpdate` is written as.
    #[verifier::opaque]
    pub open spec fn spec_write(v: ChannelSubClientUpdate) -> Seq<u8> {
        match v {
            ChannelSubClientUpdate::Add(u) => spec_write_u8(0u8) + spec_write_user_uuid(u),
            ChannelSubClientUpdate::Remove(u) => spec_write_u8(1u8) + spec_write_user_uuid(u),
        }
    }

    /// The values that read back unchanged from what they are written as.
    pub open spec fn wf(v: ChannelSubClientUpdate) -> bool {
        match v {
            ChannelSubClientUpdate::Add(_) => true,
            ChannelSubClientUpdate::Remove(_) => true,
        }
    }

    /// Reads a `ChannelSubClientUpdate`.
    pub fn read(src: &mut Bytes) -> (r: Result<Self, ProtocolError>)
        ensures
            decoded(r, Self::spec_read(bytes_view(*old(src))), bytes_view(*old(src)), bytes_view(*final(src))),
    {
        broadcast use lemma_consumed_trans;
        proof { reveal(ChannelSubClientUpdate::spec_read); }
        let tag = read_u8(src)?;
        match tag {
            0 => {
                let u = read_user_uuid(src)?;
                Ok(ChannelSubClientUpdate::Add(u))
            },
            1 => {
                let u = read_user_uuid(src)?;
                Ok(ChannelSubClientUpdate::Remove(u))
            },
            _ => Err(ProtocolError::EnumVariantNotFound(ErrorEnumVariantNotFound("ChannelSubClientUpdate", tag))),
        }
    }

    /// Appends the bytes of this `ChannelSubClientUpdate`.
    pub fn write(&self, dst: &mut BytesMut)
        requires
            has_room(bytes_mut_view(*old(dst)), Self::spec_write(self@).len() as int),
        ensures
            bytes_mut_view(*final(dst)) == bytes_mut_view(*old(dst)) + Self::spec_write(self@),
    {
        proof { reveal(ChannelSubClientUpdate::spec_write); }
        match self {
            ChannelSubClientUpdate::Add(u) => {
                write_u8(0, dst);
                write_user_uuid(u, dst);
            },
            ChannelSubClientUpdate::Remove(u) => {
                write_u8(1, dst);
                write_user_uuid(u, dst);
            },
        }
        assert(bytes_mut_view(*dst) =~= bytes_mut_view(*old(dst)) + Self::spec_write(self@));
    }

    /// Reading what a well-formed `ChannelSubClientUpdate` is written as gives it back, and the bytes after it.
    pub proof fn lemma_roundtrip(v: ChannelSubClientUpdate, rest: Seq<u8>)
        requires
            Self::wf(v),
        ensures
            Self::spec_read(Self::spec_write(v) + rest) == Ok::<(ChannelSubClientUpdate, Seq<u8>), ProtocolError>((v, rest)),
    {
        reveal(ChannelSubClientUpdate::spec_read);
        reveal(ChannelSubClientUpdate::spec_write);
        match v {
            ChannelSubClientUpdate::Add(u) => {
                let t1 = rest;
                let t0 = spec_write_user_uuid(u) + t1;
                assert(Self::spec_write(v) + rest =~= spec_write_u8(0u8) + t0);
                lemma_rt_u8(0u8, t0);
                lemma_rt_user_uuid(u, t1);
            },
            ChannelSubClientUpdate::Remove(u) => {
                let t1 = rest;
                let t0 = spec_write_user_uuid(u) + t1;
                assert(Self::spec_write(v) + rest =~= spec_write_u8(1u8) + t0);
                lemma_rt_u8(1u8, t0);
                lemma_rt_user_uuid(u, t1);
            },
        }
    }
}

/// A change to one property of a channel.
#[derive(Clone, Debug)]
pub enum ChannelSubUpdate {
    Name(String),
    Desc(String),
    Perms(ChannelPerms),
    Client(ChannelSubClientUpdate),
}

/// What a `ChannelSubUpdate` holds, with text, lists and durations as plain values.
pub enum ChannelSubUpdateView {
    Name(Seq<char>),
    Desc(Seq<char>),
    Perms(ChannelPerms),
    Client(ChannelSubClientUpdate),
}

impl View for ChannelSubUpdate {
    type V = ChannelSubUpdateView;

    open spec fn view(&self) -> ChannelSubUpdateView {
        match *self {
            ChannelSubUpdate::Name(n) => ChannelSubUpdateView::Name(n@),
            ChannelSubUpdate::Desc(d) => ChannelSubUpdateView::Desc(d@),
            ChannelSubUpdate::Perms(p) => ChannelSubUpdateView::Perms(p@),
            ChannelSubUpdate::Client(c) => ChannelSubUpdateView::Client(c@),
        }
    }
}

impl ChannelSubUpdate {
    /// How a `ChannelSubUpdate` is read: a variant byte, then that variant's fields.
    #[verifier::opaque]
    pub open spec fn spec_read(s: Seq<u8>) -> SpecRead<ChannelSubUpdateView> {
        match spec_read_u8(s) {
            Ok((tag, r0)) => {
                if tag == 0 {
                    match spec_read_string(r0) {
                        Ok((n, r1)) => Ok((ChannelSubUpdateView::Name(n), r1)),
                        Err(e) => Err(e),
                    }
                } else if tag == 1 {
                    match spec_read_string(r0) {
                        Ok((d, r1)) => Ok((ChannelSubUpdateView::Desc(d), r1)),
                        Err(e) => Err(e),
                    }
                } else if tag == 2 {
                    match ChannelPerms::spec_read(r0) {
                        Ok((p, r1)) => Ok((ChannelSubUpdateView::Perms(p), r1)),
                        Err(e) => Err(e),
                    }
                } else if tag == 3 {
                    match ChannelSubClientUpdate::spec_read(r0) {
                        Ok((c, r1)) => Ok((ChannelSubUpdateView::Client(c), r1)),
                        Err(e) => Err(e),
                    }
                } else {
                    Err(ProtocolError::EnumVariantNotFound(ErrorEnumVariantNotFound("ChannelSubUpdate", tag)))
                }
            },
            Err(e) => Err(e),
        }
    }

    /// The bytes a `ChannelSubUpdate` is written as.
    #[verifier::opaque]
    pub open spec fn spec_write(v: ChannelSubUpdateView) -> Seq<u8> {
        match v {
            ChannelSubUpdateView::Name(n) => spec_write_u8(0u8) + spec_write_string(n),
            ChannelSubUpdateView::Desc(d) => spec_write_u8(1u8) + spec_write_string(d),
            ChannelSubUpdateView::Perms(p) => spec_write_u8(2u8) + ChannelPerms::spec_write(p),
            ChannelSubUpdateView::Client(c) => spec_write_u8(3u8) + ChannelSubClientUpdate::spec_write(c),
        }
    }

    /// The values that read back unchanged from what they are written as.
    pub open spec fn wf(v: ChannelSubUpdateView) -> bool {
        match v {
            ChannelSubUpdateView::Name(n) => wf_string(n),
            ChannelSubUpdateView::Desc(d) => wf_string(d),
            ChannelSubUpdateView::Perms(p) => ChannelPerms::wf(p),
            ChannelSubUpdateView::Client(c) => ChannelSubClientUpdate::wf(c),
        }
    }

    /// Reads a `ChannelSubUpdate`.
    pub fn read(src: &mut Bytes) -> (r: Result<Self, ProtocolError>)
        ensures
            decoded(r, Self::spec_read(bytes_view(*old(src))), bytes_view(*old(src)), bytes_view(*final(src))),
    {
        broadcast use lemma_consumed_trans;
        proof { reveal(ChannelSubUpdate::spec_read); }
        let tag = read_u8(src)?;
        match tag {
            0 => {
                let n = read_string(src)?;
                Ok(ChannelSubUpdate::Name(n))
            },
            1 => {
                let d = read_string(src)?;
                Ok(ChannelSubUpdate::Desc(d))
            },
            2 => {
                let p = ChannelPerms::read(src)?;
                Ok(ChannelSubUpdate::Perms(p))
            },
            3 => {
                let c = ChannelSubClientUpdate::read(src)?;
                Ok(ChannelSubUpdate::Client(c))
            },
            _ => Err(ProtocolError::EnumVariantNotFound(ErrorEnumVariantNotFound("ChannelSubUpdate", tag))),
        }
    }

    /// Appends the bytes of this `ChannelSubUpdate`.
    pub fn write(&self, dst: &mut BytesMut)
        requires
            has_room(bytes_mut_view(*old(dst)), Self::spec_write(self@).len() as int),
        ensures
            bytes_mut_view(*final(dst)) == bytes_mut_view(*old(dst)) + Self::spec_write(self@),
    {
        proof { reveal(ChannelSubUpdate::spec_write); }
        match self {
            ChannelSubUpdate::Name(n) => {
                write_u8(0, dst);
                write_string(n.as_str(), dst);
            },
            ChannelSubUpdate::Desc(d) => {
                write_u8(1, dst);
                write_string(d.as_str(), dst);
            },
            ChannelSubUpdate::Perms(p) => {
                write_u8(2, dst);
                p.write(dst);
            },
            ChannelSubUpdate::Client(c) => {
                write_u8(3, dst);
                c.write(dst);
            },
        }
        assert(bytes_mut_view(*dst) =~= bytes_mut_view(*old(dst)) + Self::spec_write(self@));
    }

    /// Reading what a well-formed `ChannelSubUpdate` is written as gives it back, and the bytes after it.
    pub proof fn lemma_roundtrip(v: ChannelSubUpdateView, rest: Seq<u8>)
        requires
            Self::wf(v),
        ensures
            Self::spec_read(Self::spec_write(v) + rest) == Ok::<(ChannelSubUpdateView, Seq<u8>), ProtocolError>((v, rest)),
    {
        reveal(ChannelSubUpdate::spec_read);
        reveal(ChannelSubUpdate::spec_write);
        match v {
            ChannelSubUpdateView::Name(n) => {
                let t1 = rest;
                let t0 = spec_write_string(n) + t1;
                assert(Self::spec_write(v) + rest =~= spec_write_u8(0u8) + t0);
                lemma_rt_u8(0u8, t0);
                lemma_rt_string(n, t1);
            },
            ChannelSubUpdateView::Desc(d) => {
                let t1 = rest;
                let t0 = spec_write_string(d) + t1;
                assert(Self::spec_write(v) + rest =~= spec_write_u8(1u8) + t0);
                lemma_rt_u8(1u8, t0);
                lemma_rt_string(d, t1);
            },
            ChannelSubUpdateView::Perms(p) => {
                let t1 = rest;
                let t0 = ChannelPerms::spec_write(p) + t1;
                assert(Self::spec_write(v) + rest =~= spec_write_u8(2u8) + t0);
                lemma_rt_u8(2u8, t0);
                ChannelPerms::lemma_roundtrip(p, t1);
            },
            ChannelSubUpdateView::Client(c) => {
                let t1 = rest;
                let t0 = ChannelSubClientUpdate::spec_write(c) + t1;
                assert(Self::spec_write(v) + rest =~= spec_write_u8(3u8) + t0);
                lemma_rt_u8(3u8, t0);
                ChannelSubClientUpdate::lemma_roundtrip(c, t1);
            },
        }
    }
}

/// A channel being created, changed or deleted.
#[derive(Clone, Debug)]
pub enum ChannelUpdate {
    Create(Channel),
    SubUpdate { channel: u128, update: ChannelSubUpdate },
    Delete(u128),
}

/// What a `ChannelUpdate` holds, with text, lists and durations as plain values.
pub enum ChannelUpdateView {
    Create(ChannelView),
    SubUpdate { channel: u128, update: ChannelSubUpdateView },
    Delete(u128),
}

impl View for ChannelUpdate {
    type V = ChannelUpdateView;

    open spec fn view(&self) -> ChannelUpdateView {
        match *self {
            ChannelUpdate::Create(c) => ChannelUpdateView::Create(c@),
            ChannelUpdate::SubUpdate { channel, update } => ChannelUpdateView::SubUpdate { channel: channel, update: update@ },
            ChannelUpdate::Delete(c) => ChannelUpdateView::Delete(c),
        }
    }
}

impl ChannelUpdate {
    /// How a `ChannelUpdate` is read: a variant byte, then that variant's fields.
    #[verifier::opaque]
    pub open spec fn spec_read(s: Seq<u8>) -> SpecRead<ChannelUpdateView> {
        match spec_read_u8(s) {
            Ok((tag, r0)) => {
                if tag == 0 {
                    match Channel::spec_read(r0) {
                        Ok((c, r1)) => Ok((ChannelUpdateView::Create(c), r1)),
                        Err(e) => Err(e),
                    }
                } else if tag == 1 {
                    match spec_read_u128(r0) {
                        Ok((channel, r1)) => match ChannelSubUpdate::spec_read(r1) {
                            Ok((update, r2)) => Ok((ChannelUpdateView::SubUpdate { channel: channel, update: update }, r2)),
                            Err(e) => Err(e),
                        },
                        Err(e) => Err(e),
                    }
                } else if tag == 2 {
                    match spec_read_u128(r0) {
                        Ok((c, r1)) => Ok((ChannelUpdateView::Delete(c), r1)),
                        Err(e) => Err(e),
                    }
                } else {
                    Err(ProtocolError::EnumVariantNotFound(ErrorEnumVariantNotFound("ChannelUpdate", tag)))
                }
            },
            Err(e) => Err(e),
        }
    }

    /// The bytes a `ChannelUpdate` is written as.
    #[verifier::opaque]
    pub open spec fn spec_write(v: ChannelUpdateView) -> Seq<u8> {
        match v {
            ChannelUpdateView::Create(c) => spec_write_u8(0u8) + Channel::spec_write(c),
            ChannelUpdateView::SubUpdate { channel, update } => spec_write_u8(1u8) + spec_write_u128(channel) + ChannelSubUpdate::spec_write(update),
            ChannelUpdateView::Delete(c) => spec_write_u8(2u8) + spec_write_u128(c),
        }
    }

    /// The values that read back unchanged from what they are written as.
    pub open spec fn wf(v: ChannelUpdateView) -> bool {
        match v {
            ChannelUpdateView::Create(c) => Channel::wf(c),
            ChannelUpdateView::SubUpdate { channel, update } => ChannelSubUpdate::wf(update),
            ChannelUpdateView::Delete(_) => true,
        }
    }

    /// Reads a `ChannelUpdate`.
    pub fn read(src: &mut Bytes) -> (r: Result<Self, ProtocolError>)
        ensures
            decoded(r, Self::spec_read(bytes_view(*old(src))), bytes_view(*old(src)), bytes_view(*final(src))),
    {
        broadcast use lemma_consumed_trans;
        proof { reveal(ChannelUpdate::spec_read); }
        let tag = read_u8(src)?;
        match tag {
            0 => {
                let c = Channel::read(src)?;
                Ok(ChannelUpdate::Create(c))
            },
            1 => {
                let channel = read_u128(src)?;
                let update = ChannelSubUpdate::read(src)?;
                Ok(ChannelUpdate::SubUpdate { channel: channel, update: update })
            },
            2 => {
                let c = read_u128(src)?;
                Ok(ChannelUpdate::Delete(c))
            },
            _ => Err(ProtocolError::EnumVariantNotFound(ErrorEnumVariantNotFound("ChannelUpdate", tag))),
        }
    }

    /// Appends the bytes of this `ChannelUpdate`.
    pub fn write(&self, dst: &mut BytesMut)
        requires
            has_room(bytes_mut_view(*old(dst)), Self::spec_write(self@).len() as int),
        ensures
            bytes_mut_view(*final(dst)) == bytes_mut_view(*old(dst)) + Self::spec_write(self@),
    {
        proof { reveal(ChannelUpdate::spec_write); }
        match self {
            ChannelUpdate::Create(c) => {
                write_u8(0, dst);
                c.write(dst);
            },
            ChannelUpdate::SubUpdate { channel, update } => {
                write_u8(1, dst);
                write_u128(*channel, dst);
                update.write(dst);
            },
            ChannelUpdate::Delete(c) => {
                write_u8(2, dst);
                write_u128(*c, dst);
            },
        }
        assert(bytes_mut_view(*dst) =~= bytes_mut_view(*old(dst)) + Self::spec_write(self@));
    }

    /// Reading what a well-formed `ChannelUpdate` is written as gives it back, and the bytes after it.
    pub proof fn lemma_roundtrip(v: ChannelUpdateView, rest: Seq<u8>)
        requires
            Self::wf(v),
        ensures
            Self::spec_read(Self::spec_write(v) + rest) == Ok::<(ChannelUpdateView, Seq<u8>), ProtocolError>((v, rest)),
    {
        reveal(ChannelUpdate::spec_read);
        reveal(ChannelUpdate::spec_write);
        match v {
            ChannelUpdateView::Create(c) => {
                let t1 = rest;
                let t0 = Channel::spec_write(c) + t1;
                assert(Self::spec_write(v) + rest =~= spec_write_u8(0u8) + t0);
                lemma_rt_u8(0u8, t0);
                Channel::lemma_roundtrip(c, t1);
            },
            ChannelUpdateView::SubUpdate { channel, update } => {
                let t2 = rest;
                let t1 = ChannelSubUpdate::spec_write(update) + t2;
                let t0 = spec_write_u128(channel) + t1;
                assert(Self::spec_write(v) + rest =~= spec_write_u8(1u8) + t0);
                lemma_rt_u8(1u8, t0);
                lemma_rt_u128(channel, t1);
                ChannelSubUpdate::lemma_roundtrip(update, t2);
            },
            ChannelUpdateView::Delete(c) => {
                let t1 = rest;
                let t0 = spec_write_u128(c) + t1;
                assert(Self::spec_write(v) + rest =~= spec_write_u8(2u8) + t0);
                lemma_rt_u8(2u8, t0);
                lemma_rt_u128(c, t1);
            },
        }
    }
}

/// How long a ban lasts.
#[derive(Clone, Debug)]
pub enum BanDuration {
    Permanent,
    Temporary(Duration),
}

/// What a `BanDuration` holds, with text, lists and durations as plain values.
pub enum BanDurationView {
    Permanent,
    Temporary((u64, u32)),
}

impl View for BanDuration {
    type V = BanDurationView;

    open spec fn view(&self) -> BanDurationView {
        match *self {
            BanDuration::Permanent => BanDurationView::Permanent,
            BanDuration::Temporary(d) => BanDurationView::Temporary(duration_view(d)),
        }
    }
}

impl BanDuration {
    /// How a `BanDuration` is read: a variant byte, then that variant's fields.
    #[verifier::opaque]
    pub open spec fn spec_read(s: Seq<u8>) -> SpecRead<BanDurationView> {
        match spec_read_u8(s) {
            Ok((tag, r0)) => {
                if tag == 0 {
                    Ok((BanDurationView::Permanent, r0))
                } else if tag == 1 {
                    match spec_read_duration(r0) {
                        Ok((d, r1)) => Ok((BanDurationView::Temporary(d), r1)),
                        Err(e) => Err(e),
                    }
                } else {
                    Err(ProtocolError::EnumVariantNotFound(ErrorEnumVariantNotFound("BanDuration", tag)))
                }
            },
            Err(e) => Err(e),
        }
    }

    /// The bytes a `BanDuration` is written as.
    #[verifier::opaque]
    pub open spec fn spec_write(v: BanDurationView) -> Seq<u8> {
        match v {
            BanDurationView::Permanent => spec_write_u8(0u8),
            BanDurationView::Temporary(d) => spec_write_u8(1u8) + spec_write_duration(d),
        }
    }

    /// The values that read back unchanged from what they are written as.
    pub open spec fn wf(v: BanDurationView) -> bool {
        match v {
            BanDurationView::Permanent => true,
            BanDurationView::Temporary(d) => wf_duration(d),
        }
    }

    /// Reads a `BanDuration`.
    pub fn read(src: &mut Bytes) -> (r: Result<Self, ProtocolError>)
        ensures
            decoded(r, Self::spec_read(bytes_view(*old(src))), bytes_view(*old(src)), bytes_view(*final(src))),
    {
        broadcast use lemma_consumed_trans;
        proof { reveal(BanDuration::spec_read); }
        let tag = read_u8(src)?;
        match tag {
            0 => {
                Ok(BanDuration::Permanent)
            },
            1 => {
                let d = read_duration(src)?;
                Ok(BanDuration::Temporary(d))
            },
            _ => Err(ProtocolError::EnumVariantNotFound(ErrorEnumVariantNotFound("BanDuration", tag))),
        }
    }

    /// Appends the bytes of this `BanDuration`.
    pub fn write(&self, dst: &mut BytesMut)
        requires
            has_room(bytes_mut_view(*old(dst)), Self::spec_write(self@).len() as int),
        ensures
            bytes_mut_view(*final(dst)) == bytes_mut_view(*old(dst)) + Self::spec_write(self@),
    {
        proof { reveal(BanDuration::spec_write); }
        match self {
            BanDuration::Permanent => {
                write_u8(0, dst);
            },
            BanDuration::Temporary(d) => {
                write_u8(1, dst);
                write_duration(d, dst);
            },
        }
        assert(bytes_mut_view(*dst) =~= bytes_mut_view(*old(dst)) + Self::spec_write(self@));
    }

    /// Reading what a well-formed `BanDuration` is written as gives it back, and the bytes after it.
    pub proof fn lemma_roundtrip(v: BanDurationView, rest: Seq<u8>)
        requires
            Self::wf(v),
        ensures
            Self::spec_read(Self::spec_write(v) + rest) == Ok::<(BanDurationView, Seq<u8>), ProtocolError>((v, rest)),
    {
        reveal(BanDuration::spec_read);
        reveal(BanDuration::spec_write);
        match v {
            BanDurationView::Permanent => {
                let t0 = rest;
                assert(Self::spec_write(v) + rest =~= spec_write_u8(0u8) + t0);
                lemma_rt_u8(0u8, t0);
            },
            BanDurationView::Temporary(d) => {
                let t1 = rest;
                let t0 = spec_write_duration(d) + t1;
                assert(Self::spec_write(v) + rest =~= spec_write_u8(1u8) + t0);
                lemma_rt_u8(1u8, t0);
                lemma_rt_duration(d, t1);
            },
        }
    }
}

/// Why the server refused a client's authentication.
#[derive(Clone, Debug)]
pub enum AuthFailure {
    Banned { reason: String, duration: BanDuration },
    /// The security level the server requires.
    ReqSec(u8),
    /// The protocol version the server speaks.
    OutOfDate(u64),
    AlreadyOnline,
    /// A description of what was wrong.
    Invalid(String),
}

/// What a `AuthFailure` holds, with text, lists and durations as plain values.
pub enum AuthFailureView {
    Banned { reason: Seq<char>, duration: BanDurationView },
    ReqSec(u8),
    OutOfDate(u64),
    AlreadyOnline,
    Invalid(Seq<char>),
}

impl View for AuthFailure {
    type V = AuthFailureView;

    open spec fn view(&self) -> AuthFailureView {
        match *self {
            AuthFailure::Banned { reason, duration } => AuthFailureView::Banned { reason: reason@, duration: duration@ },
            AuthFailure::ReqSec(level) => AuthFailureView::ReqSec(level),
            AuthFailure::OutOfDate(version) => AuthFailureView::OutOfDate(version),
            AuthFailure::AlreadyOnline => AuthFailureView::AlreadyOnline,
            AuthFailure::Invalid(reason) => AuthFailureView::Invalid(reason@),
        }
    }
}

impl AuthFailure {
    /// How a `AuthFailure` is read: a variant byte, then that variant's fields.
    #[verifier::opaque]
    pub open spec fn spec_read(s: Seq<u8>) -> SpecRead<AuthFailureView> {
        match spec_read_u8(s) {
            Ok((tag, r0)) => {
                if tag == 0 {
                    match spec_read_string(r0) {
                        Ok((reason, r1)) => match BanDuration::spec_read(r1) {
                            Ok((duration, r2)) => Ok((AuthFailureView::Banned { reason: reason, duration: duration }, r2)),
                            Err(e) => Err(e),
                        },
                        Err(e) => Err(e),
                    }
                } else if tag == 1 {
                    match spec_read_u8(r0) {
                        Ok((level, r1)) => Ok((AuthFailureView::ReqSec(level), r1)),
                        Err(e) => Err(e),
                    }
                } else if tag == 2 {
                    match spec_read_u64(r0) {
                        Ok((version, r1)) => Ok((AuthFailureView::OutOfDate(version), r1)),
                        Err(e) => Err(e),
                    }
                } else if tag == 3 {
                    Ok((AuthFailureView::AlreadyOnline, r0))
                } else if tag == 4 {
                    match spec_read_string(r0) {
                        Ok((reason, r1)) => Ok((AuthFailureView::Invalid(reason), r1)),
                        Err(e) => Err(e),
                    }
                } else {
                    Err(ProtocolError::EnumVariantNotFound(ErrorEnumVariantNotFound("AuthFailure", tag)))
                }
            },
            Err(e) => Err(e),
        }
    }

    /// The bytes a `AuthFailure` is written as.
    #[verifier::opaque]
    pub open spec fn spec_write(v: AuthFailureView) -> Seq<u8> {
        match v {
            AuthFailureView::Banned { reason, duration } => spec_write_u8(0u8) + spec_write_string(reason) + BanDuration::spec_write(duration),
            AuthFailureView::ReqSec(level) => spec_write_u8(1u8) + spec_write_u8(level),
            AuthFailureView::OutOfDate(version) => spec_write_u8(2u8) + spec_write_u64(version),
            AuthFailureView::AlreadyOnline => spec_write_u8(3u8),
            AuthFailureView::Invalid(reason) => spec_write_u8(4u8) + spec_write_string(reason),
        }
    }

    /// The values that read back unchanged from what they are written as.
    pub open spec fn wf(v: AuthFailureView) -> bool {
        match v {
            AuthFailureView::Banned { reason, duration } => wf_string(reason) && BanDuration::wf(duration),
            AuthFailureView::ReqSec(_) => true,
            AuthFailureView::OutOfDate(_) => true,
            AuthFailureView::AlreadyOnline => true,
            AuthFailureView::Invalid(reason) => wf_string(reason),
        }
    }

    /// Reads a `AuthFailure`.
    pub fn read(src: &mut Bytes) -> (r: Result<Self, ProtocolError>)
        ensures
            decoded(r, Self::spec_read(bytes_view(*old(src))), bytes_view(*old(src)), bytes_view(*final(src))),
    {
        broadcast use lemma_consumed_trans;
        proof { reveal(AuthFailure::spec_read); }
        let tag = read_u8(src)?;
        match tag {
            0 => {
                let reason = read_string(src)?;
                let duration = BanDuration::read(src)?;
                Ok(AuthFailure::Banned { reason: reason, duration: duration })
            },
            1 => {
                let level = read_u8(src)?;
                Ok(AuthFailure::ReqSec(level))
            },
            2 => {
                let version = read_u64(src)?;
                Ok(AuthFailure::OutOfDate(version))
            },
            3 => {
                Ok(AuthFailure::AlreadyOnline)
            },
            4 => {
                let reason = read_string(src)?;
                Ok(AuthFailure::Invalid(reason))
            },
            _ => Err(ProtocolError::EnumVariantNotFound(ErrorEnumVariantNotFound("AuthFailure", tag))),
        }
    }

    /// Appends the bytes of this `AuthFailure`.
    pub fn write(&self, dst: &mut BytesMut)
        requires
            has_room(bytes_mut_view(*old(dst)), Self::spec_write(self@).len() as int),
        ensures
            bytes_mut_view(*final(dst)) == bytes_mut_view(*old(dst)) + Self::spec_write(self@),
    {
        proof { reveal(AuthFailure::spec_write); }
        match self {
            AuthFailure::Banned { reason, duration } => {
                write_u8(0, dst);
                write_string(reason.as_str(), dst);
                duration.write(dst);
            },
            AuthFailure::ReqSec(level) => {
                write_u8(1, dst);
                write_u8(*level, dst);
            },
            AuthFailure::OutOfDate(version) => {
                write_u8(2, dst);
                write_u64(*version, dst);
            },
            AuthFailure::AlreadyOnline => {
                write_u8(3, dst);
            },
            AuthFailure::Invalid(reason) => {
                write_u8(4, dst);
                write_string(reason.as_str(), dst);
            },
        }
        assert(bytes_mut_view(*dst) =~= bytes_mut_view(*old(dst)) + Self::spec_write(self@));
    }

    /// Reading what a well-formed `AuthFailure` is written as gives it back, and the bytes after it.
    pub proof fn lemma_roundtrip(v: AuthFailureView, rest: Seq<u8>)
        requires
            Self::wf(v),
        ensures
            Self::spec_read(Self::spec_write(v) + rest) == Ok::<(AuthFailureView, Seq<u8>), ProtocolError>((v, rest)),
    {
        reveal(AuthFailure::spec_read);
        reveal(AuthFailure::spec_write);
        match v {
            AuthFailureView::Banned { reason, duration } => {
                let t2 = rest;
                let t1 = BanDuration::spec_write(duration) + t2;
                let t0 = spec_write_string(reason) + t1;
                assert(Self::spec_write(v) + rest =~= spec_write_u8(0u8) + t0);
                lemma_rt_u8(0u8, t0);
                lemma_rt_string(reason, t1);
                BanDuration::lemma_roundtrip(duration, t2);
            },
            AuthFailureView::ReqSec(level) => {
                let t1 = rest;
                let t0 = spec_write_u8(level) + t1;
                assert(Self::spec_write(v) + rest =~= spec_write_u8(1u8) + t0);
                lemma_rt_u8(1u8, t0);
                lemma_rt_u8(level, t1);
            },
            AuthFailureView::OutOfDate(version) => {
                let t1 = rest;
                let t0 = spec_write_u64(version) + t1;
                assert(Self::spec_write(v) + rest =~= spec_write_u8(2u8) + t0);
                lemma_rt_u8(2u8, t0);
                lemma_rt_u64(version, t1);
            },
            AuthFailureView::AlreadyOnline => {
                let t0 = rest;
                assert(Self::spec_write(v) + rest =~= spec_write_u8(3u8) + t0);
                lemma_rt_u8(3u8, t0);
            },
            AuthFailureView::Invalid(reason) => {
                let t1 = rest;
                let t0 = spec_write_string(reason) + t1;
                assert(Self::spec_write(v) + rest =~= spec_write_u8(4u8) + t0);
                lemma_rt_u8(4u8, t0);
                lemma_rt_string(reason, t1);
            },
        }
    }
}

/// The server's answer to an authentication request.
#[derive(Clone, Debug)]
pub enum AuthResponse {
    Success { default_channel_id: u128, server_groups: Vec<ServerGroup>, own_groups: Vec<u128>, channels: Vec<Channel> },
    Failure(AuthFailure),
}

/// What a `AuthResponse` holds, with text, lists and durations as plain values.
pub enum AuthResponseView {
    Success { default_channel_id: u128, server_groups: Seq<ServerGroupView>, own_groups: Seq<u128>, channels: Seq<ChannelView> },
    Failure(AuthFailureView),
}

impl View for AuthResponse {
    type V = AuthResponseView;

    open spec fn view(&self) -> AuthResponseView {
        match *self {
            AuthResponse::Success { default_channel_id, server_groups, own_groups, channels } => AuthResponseView::Success { default_channel_id: default_channel_id, server_groups: server_groups@.map_values(|x: ServerGroup| x@), own_groups: own_groups@, channels: channels@.map_values(|x: Channel| x@) },
            AuthResponse::Failure(f) => AuthResponseView::Failure(f@),
        }
    }
}

impl AuthResponse {
    /// How a `AuthResponse` is read: a variant byte, then that variant's fields.
    #[verifier::opaque]
    pub open spec fn spec_read(s: Seq<u8>) -> SpecRead<AuthResponseView> {
        match spec_read_u8(s) {
            Ok((tag, r0)) => {
                if tag == 0 {
                    match spec_read_u128(r0) {
                        Ok((default_channel_id, r1)) => match spec_read_list(r1, |s: Seq<u8>| ServerGroup::spec_read(s)) {
                            Ok((server_groups, r2)) => match spec_read_list(r2, |s: Seq<u8>| spec_read_u128(s)) {
                                Ok((own_groups, r3)) => match spec_read_list(r3, |s: Seq<u8>| Channel::spec_read(s)) {
                                    Ok((channels, r4)) => Ok((AuthResponseView::Success { default_channel_id: default_channel_id, server_groups: server_groups, own_groups: own_groups, channels: channels }, r4)),
                                    Err(e) => Err(e),
                                },
                                Err(e) => Err(e),
                            },
                            Err(e) => Err(e),
                        },
                        Err(e) => Err(e),
                    }
                } else if tag == 1 {
                    match AuthFailure::spec_read(r0) {
                        Ok((f, r1)) => Ok((AuthResponseView::Failure(f), r1)),
                        Err(e) => Err(e),
                    }
                } else {
                    Err(ProtocolError::EnumVariantNotFound(ErrorEnumVariantNotFound("AuthResponse", tag)))
                }
            },
            Err(e) => Err(e),
        }
    }

    /// The bytes a `AuthResponse` is written as.
    #[verifier::opaque]
    pub open spec fn spec_write(v: AuthResponseView) -> Seq<u8> {
        match v {
            AuthResponseView::Success { default_channel_id, server_groups, own_groups, channels } => spec_write_u8(0u8) + spec_write_u128(default_channel_id) + spec_write_list(server_groups, |x: ServerGroupView| ServerGroup::spec_write(x)) + spec_write_list(own_groups, |x: u128| spec_write_u128(x)) + spec_write_list(channels, |x: ChannelView| Channel::spec_write(x)),
            AuthResponseView::Failure(f) => spec_write_u8(1u8) + AuthFailure::spec_write(f),
        }
    }

    /// The values that read back unchanged from what they are written as.
    pub open spec fn wf(v: AuthResponseView) -> bool {
        match v {
            AuthResponseView::Success { default_channel_id, server_groups, own_groups, channels } => ServerGroup::wf_list(server_groups) && own_groups.len() <= u64::MAX && Channel::wf_list(channels),
            AuthResponseView::Failure(f) => AuthFailure::wf(f),
        }
    }

    /// Reads a `AuthResponse`.
    pub fn read(src: &mut Bytes) -> (r: Result<Self, ProtocolError>)
        ensures
            decoded(r, Self::spec_read(bytes_view(*old(src))), bytes_view(*old(src)), bytes_view(*final(src))),
    {
        broadcast use lemma_consumed_trans;
        proof { reveal(AuthResponse::spec_read); }
        let tag = read_u8(src)?;
        match tag {
            0 => {
                let default_channel_id = read_u128(src)?;
                let server_groups = ServerGroup::read_list(src)?;
                let own_groups = read_u128_list(src)?;
                let channels = Channel::read_list(src)?;
                Ok(AuthResponse::Success { default_channel_id: default_channel_id, server_groups: server_groups, own_groups: own_groups, channels: channels })
            },
            1 => {
                let f = AuthFailure::read(src)?;
                Ok(AuthResponse::Failure(f))
            },
            _ => Err(ProtocolError::EnumVariantNotFound(ErrorEnumVariantNotFound("AuthResponse", tag))),
        }
    }

    /// Appends the bytes of this `AuthResponse`.
    pub fn write(&self, dst: &mut BytesMut)
        requires
            has_room(bytes_mut_view(*old(dst)), Self::spec_write(self@).len() as int),
        ensures
            bytes_mut_view(*final(dst)) == bytes_mut_view(*old(dst)) + Self::spec_write(self@),
    {
        proof { reveal(AuthResponse::spec_write); }
        match self {
            AuthResponse::Success { default_channel_id, server_groups, own_groups, channels } => {
                write_u8(0, dst);
                write_u128(*default_channel_id, dst);
                ServerGroup::write_list(server_groups.as_slice(), dst);
                write_u128_list(own_groups.as_slice(), dst);
                Channel::write_list(channels.as_slice(), dst);
            },
            AuthResponse::Failure(f) => {
                write_u8(1, dst);
                f.write(dst);
            },
        }
        assert(bytes_mut_view(*dst) =~= bytes_mut_view(*old(dst)) + Self::spec_write(self@));
    }

    #[verifier::rlimit(50)]
    /// Reading what a well-formed `AuthResponse` is written as gives it back, and the bytes after it.
    pub proof fn lemma_roundtrip(v: AuthResponseView, rest: Seq<u8>)
        requires
            Self::wf(v),
        ensures
            Self::spec_read(Self::spec_write(v) + rest) == Ok::<(AuthResponseView, Seq<u8>), ProtocolError>((v, rest)),
    {
        reveal(AuthResponse::spec_read);
        reveal(AuthResponse::spec_write);
        match v {
            AuthResponseView::Success { default_channel_id, server_groups, own_groups, channels } => {
                let t4 = rest;
                let t3 = spec_write_list(channels, |x: ChannelView| Channel::spec_write(x)) + t4;
                let t2 = spec_write_list(own_groups, |x: u128| spec_write_u128(x)) + t3;
                let t1 = spec_write_list(server_groups, |x: ServerGroupView| ServerGroup::spec_write(x)) + t2;
                let t0 = spec_write_u128(default_channel_id) + t1;
                assert(Self::spec_write(v) + rest =~= spec_write_u8(0u8) + t0);
                lemma_rt_u8(0u8, t0);
                lemma_rt_u128(default_channel_id, t1);
                ServerGroup::lemma_roundtrip_list(server_groups, t2);
                lemma_rt_u128_list(own_groups, t3);
                Channel::lemma_roundtrip_list(channels, t4);
            },
            AuthResponseView::Failure(f) => {
                let t1 = rest;
                let t0 = AuthFailure::spec_write(f) + t1;
                assert(Self::spec_write(v) + rest =~= spec_write_u8(1u8) + t0);
                lemma_rt_u8(1u8, t0);
                AuthFailure::lemma_roundtrip(f, t1);
            },
        }
    }
}

/// The server's answer to a request to switch channels.
#[derive(Clone, Copy, Debug, PartialEq, Eq, Structural)]
pub enum SwitchChannelResponse {
    Success,
    SameChannel,
    NoPermissions,
    InvalidChannel,
}

impl View for SwitchChannelResponse {
    type V = SwitchChannelResponse;

    open spec fn view(&self) -> SwitchChannelResponse {
        *self
    }
}

impl SwitchChannelResponse {
    /// How a `SwitchChannelResponse` is read: a variant byte, then that variant's fields.
    #[verifier::opaque]
    pub open spec fn spec_read(s: Seq<u8>) -> SpecRead<SwitchChannelResponse> {
        match spec_read_u8(s) {
            Ok((tag, r0)) => {
                if tag == 0 {
                    Ok((SwitchChannelResponse::Success, r0))
                } else if tag == 1 {
                    Ok((SwitchChannelResponse::SameChannel, r0))
                } else if tag == 2 {
                    Ok((SwitchChannelResponse::NoPermissions, r0))
                } else if tag == 3 {
                    Ok((SwitchChannelResponse::InvalidChannel, r0))
                } else {
                    Err(ProtocolError::EnumVariantNotFound(ErrorEnumVariantNotFound("SwitchChannelResponse", tag)))
                }
            },
            Err(e) => Err(e),
        }
    }

    /// The bytes a `SwitchChannelResponse` is written as.
    #[verifier::opaque]
    pub open spec fn spec_write(v: SwitchChannelResponse) -> Seq<u8> {
        match v {
            SwitchChannelResponse::Success => spec_write_u8(0u8),
            SwitchChannelResponse::SameChannel => spec_write_u8(1u8),
            SwitchChannelResponse::NoPermissions => spec_write_u8(2u8),
            SwitchChannelResponse::InvalidChannel => spec_write_u8(3u8),
        }
    }

    /// The values that read back unchanged from what they are written as.
    pub open spec fn wf(v: SwitchChannelResponse) -> bool {
        match v {
            SwitchChannelResponse::Success => true,
            SwitchChannelResponse::SameChannel => true,
            SwitchChannelResponse::NoPermissions => true,
            SwitchChannelResponse::InvalidChannel => true,
        }
    }

    /// Reads a `SwitchChannelResponse`.
    pub fn read(src: &mut Bytes) -> (r: Result<Self, ProtocolError>)
        ensures
            decoded(r, Self::spec_read(bytes_view(*old(src))), bytes_view(*old(src)), bytes_view(*final(src))),
    {
        broadcast use lemma_consumed_trans;
        proof { reveal(SwitchChannelResponse::spec_read); }
        let tag = read_u8(src)?;
        match tag {
            0 => {
                Ok(SwitchChannelResponse::Success)
            },
            1 => {
                Ok(SwitchChannelResponse::SameChannel)
            },
            2 => {
                Ok(SwitchChannelResponse::NoPermissions)
            },
            3 => {
                Ok(SwitchChannelResponse::InvalidChannel)
            },
            _ => Err(ProtocolError::EnumVariantNotFound(ErrorEnumVariantNotFound("SwitchChannelResponse", tag))),
        }
    }

    /// Appends the bytes of this `SwitchChannelResponse`.
    pub fn write(&self, dst: &mut BytesMut)
        requires
            has_room(bytes_mut_view(*old(dst)), Self::spec_write(self@).len() as int),
        ensures
            bytes_mut_view(*final(dst)) == bytes_mut_view(*old(dst)) + Self::spec_write(self@),
    {
        proof { reveal(SwitchChannelResponse::spec_write); }
        match self {
            SwitchChannelResponse::Success => {
                write_u8(0, dst);
            },
            SwitchChannelResponse::SameChannel => {
                write_u8(1, dst);
            },
            SwitchChannelResponse::NoPermissions => {
                write_u8(2, dst);
            },
            SwitchChannelResponse::InvalidChannel => {
                write_u8(3, dst);
            },
        }
        assert(bytes_mut_view(*dst) =~= bytes_mut_view(*old(dst)) + Self::spec_write(self@));
    }

    /// Reading what a well-formed `SwitchChannelResponse` is written as gives it back, and the bytes after it.
    pub proof fn lemma_roundtrip(v: SwitchChannelResponse, rest: Seq<u8>)
        requires
            Self::wf(v),
        ensures
            Self::spec_read(Self::spec_write(v) + rest) == Ok::<(SwitchChannelResponse, Seq<u8>), ProtocolError>((v, rest)),
    {
        reveal(SwitchChannelResponse::spec_read);
        reveal(SwitchChannelResponse::spec_write);
        match v {
            SwitchChannelResponse::Success => {
                let t0 = rest;
                assert(Self::spec_write(v) + rest =~= spec_write_u8(0u8) + t0);
                lemma_rt_u8(0u8, t0);
            },
            SwitchChannelResponse::SameChannel => {
                let t0 = rest;
                assert(Self::spec_write(v) + rest =~= spec_write_u8(1u8) + t0);
                lemma_rt_u8(1u8, t0);
            },
            SwitchChannelResponse::NoPermissions => {
                let t0 = rest;
                assert(Self::spec_write(v) + rest =~= spec_write_u8(2u8) + t0);
                lemma_rt_u8(2u8, t0);
            },
            SwitchChannelResponse::InvalidChannel => {
                let t0 = rest;
                assert(Self::spec_write(v) + rest =~= spec_write_u8(3u8) + t0);
                lemma_rt_u8(3u8, t0);
            },
        }
    }
}

/// The packets the server sends to a client.
#[derive(Clone, Debug)]
pub enum ServerPacket {
    AuthResponse(AuthResponse),
    ChannelUpdate(ChannelUpdate),
    ClientConnected(RemoteProfile),
    ClientDisconnected(RemoteProfile),
    ClientUpdateServerGroups { client: UserUuid, update: ClientUpdateServerGroups },
    KeepAlive { id: u64, send_time: Duration },
    /// Holds the server's public key and a random challenge, encrypted with the client's public key.
    ChallengeRequest { signed_data: Vec<u8> },
    SwitchChannelResponse(SwitchChannelResponse),
}

/// What a `ServerPacket` holds, with text, lists and durations as plain values.
pub enum ServerPacketView {
    AuthResponse(AuthResponseView),
    ChannelUpdate(ChannelUpdateView),
    ClientConnected(RemoteProfileView),
    ClientDisconnected(RemoteProfileView),
    ClientUpdateServerGroups { client: UserUuid, update: ClientUpdateServerGroups },
    KeepAlive { id: u64, send_time: (u64, u32) },
    ChallengeRequest { signed_data: Seq<u8> },
    SwitchChannelResponse(SwitchChannelResponse),
}

impl View for ServerPacket {
    type V = ServerPacketView;

    open spec fn view(&self) -> ServerPacketView {
        match *self {
            ServerPacket::AuthResponse(a) => ServerPacketView::AuthResponse(a@),
            ServerPacket::ChannelUpdate(u) => ServerPacketView::ChannelUpdate(u@),
            ServerPacket::ClientConnected(p) => ServerPacketView::ClientConnected(p@),
            ServerPacket::ClientDisconnected(p) => ServerPacketView::ClientDisconnected(p@),
            ServerPacket::ClientUpdateServerGroups { client, update } => ServerPacketView::ClientUpdateServerGroups { client: client, update: update@ },
            ServerPacket::KeepAlive { id, send_time } => ServerPacketView::KeepAlive { id: id, send_time: duration_view(send_time) },
            ServerPacket::ChallengeRequest { signed_data } => ServerPacketView::ChallengeRequest { signed_data: signed_data@ },
            ServerPacket::SwitchChannelResponse(r) => ServerPacketView::SwitchChannelResponse(r@),
        }
    }
}

impl ServerPacket {
    /// How a `ServerPacket` is read: a variant byte, then that variant's fields.
    #[verifier::opaque]
    pub open spec fn spec_read(s: Seq<u8>) -> SpecRead<ServerPacketView> {
        match spec_read_u8(s) {
            Ok((tag, r0)) => {
                if tag == 0 {
                    match AuthResponse::spec_read(r0) {
                        Ok((a, r1)) => Ok((ServerPacketView::AuthResponse(a), r1)),
                        Err(e) => Err(e),
                    }
                } else if tag == 1 {
                    match ChannelUpdate::spec_read(r0) {
                        Ok((u, r1)) => Ok((ServerPacketView::ChannelUpdate(u), r1)),
                        Err(e) => Err(e),
                    }
                } else if tag == 2 {
                    match RemoteProfile::spec_read(r0) {
                        Ok((p, r1)) => Ok((ServerPacketView::ClientConnected(p), r1)),
                        Err(e) => Err(e),
                    }
                } else if tag == 3 {
                    match RemoteProfile::spec_read(r0) {
                        Ok((p, r1)) => Ok((ServerPacketView::ClientDisconnected(p), r1)),
                        Err(e) => Err(e),
                    }
                } else if tag == 4 {
                    match spec_read_user_uuid(r0) {
                        Ok((client, r1)) => match ClientUpdateServerGroups::spec_read(r1) {
                            Ok((update, r2)) => Ok((ServerPacketView::ClientUpdateServerGroups { client: client, update: update }, r2)),
                            Err(e) => Err(e),
                        },
                        Err(e) => Err(e),
                    }
                } else if tag == 5 {
                    match spec_read_u64(r0) {
                        Ok((id, r1)) => match spec_read_duration(r1) {
                            Ok((send_time, r2)) => Ok((ServerPacketView::KeepAlive { id: id, send_time: send_time }, r2)),
                            Err(e) => Err(e),
                        },
                        Err(e) => Err(e),
                    }
                } else if tag == 6 {
                    Err(ProtocolError::Unsupported)
                } else if tag == 7 {
                    match SwitchChannelResponse::spec_read(r0) {
                        Ok((r, r1)) => Ok((ServerPacketView::SwitchChannelResponse(r), r1)),
                        Err(e) => Err(e),
                    }
                } else {
                    Err(ProtocolError::EnumVariantNotFound(ErrorEnumVariantNotFound("ServerPacket", tag)))
                }
            },
            Err(e) => Err(e),
        }
    }

    /// The bytes a `ServerPacket` is written as.
    #[verifier::opaque]
    pub open spec fn spec_write(v: ServerPacketView) -> Seq<u8> {
        match v {
            ServerPacketView::AuthResponse(a) => spec_write_u8(0u8) + AuthResponse::spec_write(a),
            ServerPacketView::ChannelUpdate(u) => spec_write_u8(1u8) + ChannelUpdate::spec_write(u),
            ServerPacketView::ClientConnected(p) => spec_write_u8(2u8) + RemoteProfile::spec_write(p),
            ServerPacketView::ClientDisconnected(p) => spec_write_u8(3u8) + RemoteProfile::spec_write(p),
            ServerPacketView::ClientUpdateServerGroups { client, update } => spec_write_u8(4u8) + spec_write_user_uuid(client) + ClientUpdateServerGroups::spec_write(update),
            ServerPacketView::KeepAlive { id, send_time } => spec_write_u8(5u8) + spec_write_u64(id) + spec_write_duration(send_time),
            ServerPacketView::ChallengeRequest { signed_data } => spec_write_u8(6u8) + spec_write_bytes(signed_data),
            ServerPacketView::SwitchChannelResponse(r) => spec_write_u8(7u8) + SwitchChannelResponse::spec_write(r),
        }
    }

    /// The values that read back unchanged from what they are written as.
    pub open spec fn wf(v: ServerPacketView) -> bool {
        match v {
            ServerPacketView::AuthResponse(a) => AuthResponse::wf(a),
            ServerPacketView::ChannelUpdate(u) => ChannelUpdate::wf(u),
            ServerPacketView::ClientConnected(p) => RemoteProfile::wf(p),
            ServerPacketView::ClientDisconnected(p) => RemoteProfile::wf(p),
            ServerPacketView::ClientUpdateServerGroups { client, update } => ClientUpdateServerGroups::wf(update),
            ServerPacketView::KeepAlive { id, send_time } => wf_duration(send_time),
            ServerPacketView::ChallengeRequest { signed_data } => wf_bytes(signed_data),
            ServerPacketView::SwitchChannelResponse(r) => SwitchChannelResponse::wf(r),
        }
    }

    /// Reads a `ServerPacket`.
    pub fn read(src: &mut Bytes) -> (r: Result<Self, ProtocolError>)
        ensures
            decoded(r, Self::spec_read(bytes_view(*old(src))), bytes_view(*old(src)), bytes_view(*final(src))),
    {
        broadcast use lemma_consumed_trans;
        proof { reveal(ServerPacket::spec_read); }
        let tag = read_u8(src)?;
        match tag {
            0 => {
                let a = AuthResponse::read(src)?;
                Ok(ServerPacket::AuthResponse(a))
            },
            1 => {
                let u = ChannelUpdate::read(src)?;
                Ok(ServerPacket::ChannelUpdate(u))
            },
            2 => {
                let p = RemoteProfile::read(src)?;
                Ok(ServerPacket::ClientConnected(p))
            },
            3 => {
                let p = RemoteProfile::read(src)?;
                Ok(ServerPacket::ClientDisconnected(p))
            },
            4 => {
                let client = read_user_uuid(src)?;
                let update = ClientUpdateServerGroups::read(src)?;
                Ok(ServerPacket::ClientUpdateServerGroups { client: client, update: update })
            },
            5 => {
                let id = read_u64(src)?;
                let send_time = read_duration(src)?;
                Ok(ServerPacket::KeepAlive { id: id, send_time: send_time })
            },
            6 => {
                Err(ProtocolError::Unsupported)
            },
            7 => {
                let r = SwitchChannelResponse::read(src)?;
                Ok(ServerPacket::SwitchChannelResponse(r))
            },
            _ => Err(ProtocolError::EnumVariantNotFound(ErrorEnumVariantNotFound("ServerPacket", tag))),
        }
    }

    /// Appends the bytes of this `ServerPacket`.
    pub fn write(&self, dst: &mut BytesMut)
        requires
            has_room(bytes_mut_view(*old(dst)), Self::spec_write(self@).len() as int),
        ensures
            bytes_mut_view(*final(dst)) == bytes_mut_view(*old(dst)) + Self::spec_write(self@),
    {
        proof { reveal(ServerPacket::spec_write); }
        match self {
            ServerPacket::AuthResponse(a) => {
                write_u8(0, dst);
                a.write(dst);
            },
            ServerPacket::ChannelUpdate(u) => {
                write_u8(1, dst);
                u.write(dst);
            },
            ServerPacket::ClientConnected(p) => {
                write_u8(2, dst);
                p.write(dst);
            },
            ServerPacket::ClientDisconnected(p) => {
                write_u8(3, dst);
                p.write(dst);
            },
            ServerPacket::ClientUpdateServerGroups { client, update } => {
                write_u8(4, dst);
                write_user_uuid(client, dst);
                update.write(dst);
            },
            ServerPacket::KeepAlive { id, send_time } => {
                write_u8(5, dst);
                write_u64(*id, dst);
                write_duration(send_time, dst);
            },
            ServerPacket::ChallengeRequest { signed_data } => {
                write_u8(6, dst);
                write_bytes(signed_data.as_slice(), dst);
            },
            ServerPacket::SwitchChannelResponse(r) => {
                write_u8(7, dst);
                r.write(dst);
            },
        }
        assert(bytes_mut_view(*dst) =~= bytes_mut_view(*old(dst)) + Self::spec_write(self@));
    }

    #[verifier::rlimit(50)]
    /// Reading what a well-formed `ServerPacket` is written as gives it back, and the bytes after it.
    pub proof fn lemma_roundtrip(v: ServerPacketView, rest: Seq<u8>)
        requires
            Self::wf(v),
            !(v is ChallengeRequest),
        ensures
            Self::spec_read(Self::spec_write(v) + rest) == Ok::<(ServerPacketView, Seq<u8>), ProtocolError>((v, rest)),
    {
        reveal(ServerPacket::spec_read);
        reveal(ServerPacket::spec_write);
        match v {
            ServerPacketView::AuthResponse(a) => {
                let t1 = rest;
                let t0 = AuthResponse::spec_write(a) + t1;
                assert(Self::spec_write(v) + rest =~= spec_write_u8(0u8) + t0);
                lemma_rt_u8(0u8, t0);
                AuthResponse::lemma_roundtrip(a, t1);
            },
            ServerPacketView::ChannelUpdate(u) => {
                let t1 = rest;
                let t0 = ChannelUpdate::spec_write(u) + t1;
                assert(Self::spec_write(v) + rest =~= spec_write_u8(1u8) + t0);
                lemma_rt_u8(1u8, t0);
                ChannelUpdate::lemma_roundtrip(u, t1);
            },
            ServerPacketView::ClientConnected(p) => {
                let t1 = rest;
                let t0 = RemoteProfile::spec_write(p) + t1;
                assert(Self::spec_write(v) + rest =~= spec_write_u8(2u8) + t0);
                lemma_rt_u8(2u8, t0);
                RemoteProfile::lemma_roundtrip(p, t1);
            },
            ServerPacketView::ClientDisconnected(p) => {
                let t1 = rest;
                let t0 = RemoteProfile::spec_write(p) + t1;
                assert(Self::spec_write(v) + rest =~= spec_write_u8(3u8) + t0);
                lemma_rt_u8(3u8, t0);
                RemoteProfile::lemma_roundtrip(p, t1);
            },
            ServerPacketView::ClientUpdateServerGroups { client, update } => {
                let t2 = rest;
                let t1 = ClientUpdateServerGroups::spec_write(update) + t2;
                let t0 = spec_write_user_uuid(client) + t1;
                assert(Self::spec_write(v) + rest =~= spec_write_u8(4u8) + t0);
                lemma_rt_u8(4u8, t0);
                lemma_rt_user_uuid(client, t1);
                ClientUpdateServerGroups::lemma_roundtrip(update, t2);
            },
            ServerPacketView::KeepAlive { id, send_time } => {
                let t2 = rest;
                let t1 = spec_write_duration(send_time) + t2;
                let t0 = spec_write_u64(id) + t1;
                assert(Self::spec_write(v) + rest =~= spec_write_u8(5u8) + t0);
                lemma_rt_u8(5u8, t0);
                lemma_rt_u64(id, t1);
                lemma_rt_duration(send_time, t2);
            },
            ServerPacketView::ChallengeRequest { signed_data } => {
            },
            ServerPacketView::SwitchChannelResponse(r) => {
                let t1 = rest;
                let t0 = SwitchChannelResponse::spec_write(r) + t1;
                assert(Self::spec_write(v) + rest =~= spec_write_u8(7u8) + t0);
                lemma_rt_u8(7u8, t0);
                SwitchChannelResponse::lemma_roundtrip(r, t1);
            },
        }
    }
}

/// The packets a client sends to the server.
#[derive(Clone, Debug)]
pub enum ClientPacket {
    /// The first packet of every connection: the client's protocol version, public key (whose hash is its identity), name, security proofs and signed send time.
    AuthRequest { protocol_version: u64, pub_key: Vec<u8>, name: String, security_proofs: Vec<Word256>, signed_data: Vec<u8> },
    Disconnect,
    KeepAlive { id: u64, send_time: Duration },
    UpdateClientServerGroups { client: UserUuid, update: ClientUpdateServerGroups },
    /// Holds a signed copy of the server's public key.
    ChallengeResponse { signed_data: Vec<u8> },
    SwitchChannel { channel: u128 },
}

/// What a `ClientPacket` holds, with text, lists and durations as plain values.
pub enum ClientPacketView {
    AuthRequest { protocol_version: u64, pub_key: Seq<u8>, name: Seq<char>, security_proofs: Seq<Word256>, signed_data: Seq<u8> },
    Disconnect,
    KeepAlive { id: u64, send_time: (u64, u32) },
    UpdateClientServerGroups { client: UserUuid, update: ClientUpdateServerGroups },
    ChallengeResponse { signed_data: Seq<u8> },
    SwitchChannel { channel: u128 },
}

impl View for ClientPacket {
    type V = ClientPacketView;

    open spec fn view(&self) -> ClientPacketView {
        match *self {
            ClientPacket::AuthRequest { protocol_version, pub_key, name, security_proofs, signed_data } => ClientPacketView::AuthRequest { protocol_version: protocol_version, pub_key: pub_key@, name: name@, security_proofs: security_proofs@, signed_data: signed_data@ },
            ClientPacket::Disconnect => ClientPacketView::Disconnect,
            ClientPacket::KeepAlive { id, send_time } => ClientPacketView::KeepAlive { id: id, send_time: duration_view(send_time) },
            ClientPacket::UpdateClientServerGroups { client, update } => ClientPacketView::UpdateClientServerGroups { client: client, update: update@ },
            ClientPacket::ChallengeResponse { signed_data } => ClientPacketView::ChallengeResponse { signed_data: signed_data@ },
            ClientPacket::SwitchChannel { channel } => ClientPacketView::SwitchChannel { channel: channel },
        }
    }
}

impl ClientPacket {
    /// How a `ClientPacket` is read: a variant byte, then that variant's fields.
    #[verifier::opaque]
    pub open spec fn spec_read(s: Seq<u8>) -> SpecRead<ClientPacketView> {
        match spec_read_u8(s) {
            Ok((tag, r0)) => {
                if tag == 0 {
                    match spec_read_u64(r0) {
                        Ok((protocol_version, r1)) => match spec_read_bytes(r1) {
                            Ok((pub_key, r2)) => match spec_read_string(r2) {
                                Ok((name, r3)) => match spec_read_list(r3, |s: Seq<u8>| spec_read_word256(s)) {
                                    Ok((security_proofs, r4)) => match spec_read_bytes(r4) {
                                        Ok((signed_data, r5)) => Ok((ClientPacketView::AuthRequest { protocol_version: protocol_version, pub_key: pub_key, name: name, security_proofs: security_proofs, signed_data: signed_data }, r5)),
                                        Err(e) => Err(e),
                                    },
                                    Err(e) => Err(e),
                                },
                                Err(e) => Err(e),
                            },
                            Err(e) => Err(e),
                        },
                        Err(e) => Err(e),
                    }
                } else if tag == 1 {
                    Ok((ClientPacketView::Disconnect, r0))
                } else if tag == 2 {
                    match spec_read_u64(r0) {
                        Ok((id, r1)) => match spec_read_duration(r1) {
                            Ok((send_time, r2)) => Ok((ClientPacketView::KeepAlive { id: id, send_time: send_time }, r2)),
                            Err(e) => Err(e),
                        },
                        Err(e) => Err(e),
                    }
                } else if tag == 3 {
                    match spec_read_user_uuid(r0) {
                        Ok((client, r1)) => match ClientUpdateServerGroups::spec_read(r1) {
                            Ok((update, r2)) => Ok((ClientPacketView::UpdateClientServerGroups { client: client, update: update }, r2)),
                            Err(e) => Err(e),
                        },
                        Err(e) => Err(e),
                    }
                } else if tag == 4 {
                    Err(ProtocolError::Unsupported)
                } else if tag == 5 {
                    match spec_read_u128(r0) {
                        Ok((channel, r1)) => Ok((ClientPacketView::SwitchChannel { channel: channel }, r1)),
                        Err(e) => Err(e),
                    }
                } else {
                    Err(ProtocolError::EnumVariantNotFound(ErrorEnumVariantNotFound("ClientPacket", tag)))
                }
            },
            Err(e) => Err(e),
        }
    }

    /// The bytes a `ClientPacket` is written as.
    #[verifier::opaque]
    pub open spec fn spec_write(v: ClientPacketView) -> Seq<u8> {
        match v {
            ClientPacketView::AuthRequest { protocol_version, pub_key, name, security_proofs, signed_data } => spec_write_u8(0u8) + spec_write_u64(protocol_version) + spec_write_string(name) + spec_write_bytes(pub_key) + spec_write_list(security_proofs, |x: Word256| spec_write_word256(x)) + spec_write_bytes(signed_data),
            ClientPacketView::Disconnect => spec_write_u8(1u8),
            ClientPacketView::KeepAlive { id, send_time } => spec_write_u8(2u8) + spec_write_u64(id) + spec_write_duration(send_time),
            ClientPacketView::UpdateClientServerGroups { client, update } => spec_write_u8(3u8) + spec_write_user_uuid(client) + ClientUpdateServerGroups::spec_write(update),
            ClientPacketView::ChallengeResponse { signed_data } => spec_write_u8(4u8) + spec_write_bytes(signed_data),
            ClientPacketView::SwitchChannel { channel } => spec_write_u8(5u8) + spec_write_u128(channel),
        }
    }

    /// The values that read back unchanged from what they are written as.
    pub open spec fn wf(v: ClientPacketView) -> bool {
        match v {
            ClientPacketView::AuthRequest { protocol_version, pub_key, name, security_proofs, signed_data } => wf_bytes(pub_key) && wf_string(name) && security_proofs.len() <= u64::MAX && wf_bytes(signed_data),
            ClientPacketView::Disconnect => true,
            ClientPacketView::KeepAlive { id, send_time } => wf_duration(send_time),
            ClientPacketView::UpdateClientServerGroups { client, update } => ClientUpdateServerGroups::wf(update),
            ClientPacketView::ChallengeResponse { signed_data } => wf_bytes(signed_data),
            ClientPacketView::SwitchChannel { .. } => true,
        }
    }

    /// Reads a `ClientPacket`.
    pub fn read(src: &mut Bytes) -> (r: Result<Self, ProtocolError>)
        ensures
            decoded(r, Self::spec_read(bytes_view(*old(src))), bytes_view(*old(src)), bytes_view(*final(src))),
    {
        broadcast use lemma_consumed_trans;
        proof { reveal(ClientPacket::spec_read); }
        let tag = read_u8(src)?;
        match tag {
            0 => {
                let protocol_version = read_u64(src)?;
                let pub_key = read_bytes(src)?;
                let name = read_string(src)?;
                let security_proofs = read_word256_list(src)?;
                let signed_data = read_bytes(src)?;
                Ok(ClientPacket::AuthRequest { protocol_version: protocol_version, pub_key: pub_key, name: name, security_proofs: security_proofs, signed_data: signed_data })
            },
            1 => {
                Ok(ClientPacket::Disconnect)
            },
            2 => {
                let id = read_u64(src)?;
                let send_time = read_duration(src)?;
                Ok(ClientPacket::KeepAlive { id: id, send_time: send_time })
            },
            3 => {
                let client = read_user_uuid(src)?;
                let update = ClientUpdateServerGroups::read(src)?;
                Ok(ClientPacket::UpdateClientServerGroups { client: client, update: update })
            },
            4 => {
                Err(ProtocolError::Unsupported)
            },
            5 => {
                let channel = read_u128(src)?;
                Ok(ClientPacket::SwitchChannel { channel: channel })
            },
            _ => Err(ProtocolError::EnumVariantNotFound(ErrorEnumVariantNotFound("ClientPacket", tag))),
        }
    }

    /// Appends the bytes of this `ClientPacket`.
    pub fn write(&self, dst: &mut BytesMut)
        requires
            !(*self is ChallengeResponse),
            has_room(bytes_mut_view(*old(dst)), Self::spec_write(self@).len() as int),
        ensures
            bytes_mut_view(*final(dst)) == bytes_mut_view(*old(dst)) + Self::spec_write(self@),
    {
        proof { reveal(ClientPacket::spec_write); }
        match self {
            ClientPacket::AuthRequest { protocol_version, pub_key, name, security_proofs, signed_data } => {
                write_u8(0, dst);
                write_u64(*protocol_version, dst);
                write_string(name.as_str(), dst);
                write_bytes(pub_key.as_slice(), dst);
                write_word256_list(security_proofs.as_slice(), dst);
                write_bytes(signed_data.as_slice(), dst);
            },
            ClientPacket::Disconnect => {
                write_u8(1, dst);
            },
            ClientPacket::KeepAlive { id, send_time } => {
                write_u8(2, dst);
                write_u64(*id, dst);
                write_duration(send_time, dst);
            },
            ClientPacket::UpdateClientServerGroups { client, update } => {
                write_u8(3, dst);
                write_user_uuid(client, dst);
                update.write(dst);
            },
            ClientPacket::ChallengeResponse { .. } => {},
            ClientPacket::SwitchChannel { channel } => {
                write_u8(5, dst);
                write_u128(*channel, dst);
            },
        }
        assert(bytes_mut_view(*dst) =~= bytes_mut_view(*old(dst)) + Self::spec_write(self@));
    }

    #[verifier::rlimit(50)]
    /// Reading what a well-formed `ClientPacket` is written as gives it back, and the bytes after it.
    pub proof fn lemma_roundtrip(v: ClientPacketView, rest: Seq<u8>)
        requires
            Self::wf(v),
            !(v is ChallengeResponse) && (v is AuthRequest ==> v->AuthRequest_pub_key == encode_utf8(v->AuthRequest_name)),
        ensures
            Self::spec_read(Self::spec_write(v) + rest) == Ok::<(ClientPacketView, Seq<u8>), ProtocolError>((v, rest)),
    {
        reveal(ClientPacket::spec_read);
        reveal(ClientPacket::spec_write);
        match v {
            ClientPacketView::AuthRequest { protocol_version, pub_key, name, security_proofs, signed_data } => {
                let t5 = rest;
                let t4 = spec_write_bytes(signed_data) + t5;
                let t3 = spec_write_list(security_proofs, |x: Word256| spec_write_word256(x)) + t4;
                let t2 = spec_write_string(name) + t3;
                let t1 = spec_write_bytes(pub_key) + t2;
                let t0 = spec_write_u64(protocol_version) + t1;
                assert(spec_write_string(name) == spec_write_bytes(pub_key));
                assert(Self::spec_write(v) + rest =~= spec_write_u8(0u8) + t0);
                lemma_rt_u8(0u8, t0);
                lemma_rt_u64(protocol_version, t1);
                lemma_rt_bytes(pub_key, t2);
                lemma_rt_string(name, t3);
                lemma_rt_word256_list(security_proofs, t4);
                lemma_rt_bytes(signed_data, t5);
            },
            ClientPacketView::Disconnect => {
                let t0 = rest;
                assert(Self::spec_write(v) + rest =~= spec_write_u8(1u8) + t0);
                lemma_rt_u8(1u8, t0);
            },
            ClientPacketView::KeepAlive { id, send_time } => {
                let t2 = rest;
                let t1 = spec_write_duration(send_time) + t2;
                let t0 = spec_write_u64(id) + t1;
                assert(Self::spec_write(v) + rest =~= spec_write_u8(2u8) + t0);
                lemma_rt_u8(2u8, t0);
                lemma_rt_u64(id, t1);
                lemma_rt_duration(send_time, t2);
            },
            ClientPacketView::UpdateClientServerGroups { client, update } => {
                let t2 = rest;
                let t1 = ClientUpdateServerGroups::spec_write(update) + t2;
                let t0 = spec_write_user_uuid(client) + t1;
                assert(Self::spec_write(v) + rest =~= spec_write_u8(3u8) + t0);
                lemma_rt_u8(3u8, t0);
                lemma_rt_user_uuid(client, t1);
                ClientUpdateServerGroups::lemma_roundtrip(update, t2);
            },
            ClientPacketView::ChallengeResponse { signed_data } => {
            },
            ClientPacketView::SwitchChannel { channel } => {
                let t1 = rest;
                let t0 = spec_write_u128(channel) + t1;
                assert(Self::spec_write(v) + rest =~= spec_write_u8(5u8) + t0);
                lemma_rt_u8(5u8, t0);
                lemma_rt_u128(channel, t1);
            },
        }
    }
}

/// Whether a client connects for text only or for voice and text.
#[derive(Clone, Copy, Debug, PartialEq, Eq, Structural)]
pub enum AuthKind {
    /// A text connection.
    Text,
    /// A voice and text connection.
    Full,
}

/// The permission set of a server group, as the client calls it.
pub type GroupPerms = PermsSnapshot;

impl Default for ChannelPerms {
    /// Anyone may see, join and talk in the channel; modifying it, assigning
    /// talk power and deleting it take a power of 100.
    fn default() -> (r: Self)
        ensures
            r == (ChannelPerms { see: 0, join: 0, modify: 100, talk: 0, assign_talk: 100, delete: 100 }),
    {
        ChannelPerms { see: 0, join: 0, modify: 100, talk: 0, assign_talk: 100, delete: 100 }
    }
}

impl Default for ChannelCreatePerms {
    /// No power and no extra rights.
    fn default() -> (r: Self)
        ensures
            r == (ChannelCreatePerms { power: 0, set_desc: false, set_password: false, resort_channel: false }),
    {
        ChannelCreatePerms { power: 0, set_desc: false, set_password: false, resort_channel: false }
    }
}

impl Default for PermsSnapshot {
    /// No permissions at all.
    fn default() -> (r: Self)
        ensures
            r == PermsSnapshot::none(),
    {
        PermsSnapshot {
            server_group_assign: 0,
            server_group_unassign: 0,
            channel_see: 0,
            channel_join: 0,
            channel_modify: 0,
            channel_talk: 0,
            channel_assign_talk: 0,
            channel_delete: 0,
            can_send: false,
            channel_create: ChannelCreatePerms {
                power: 0,
                set_desc: false,
                set_password: false,
                resort_channel: false,
            },
        }
    }
}

impl PermsSnapshot {
    /// The permission set that grants nothing.
    pub open spec fn none() -> PermsSnapshot {
        PermsSnapshot {
            server_group_assign: 0,
            server_group_unassign: 0,
            channel_see: 0,
            channel_join: 0,
            channel_modify: 0,
            channel_talk: 0,
            channel_assign_talk: 0,
            channel_delete: 0,
            can_send: false,
            channel_create: ChannelCreatePerms {
                power: 0,
                set_desc: false,
                set_password: false,
                resort_channel: false,
            },
        }
    }
}

// ---------------------------------------------------------------------------
// Framing: a packet travels as its length (u64) followed by its bytes
// ---------------------------------------------------------------------------

/// A payload behind its `u64` length.
pub open spec fn spec_frame(payload: Seq<u8>) -> Seq<u8> {
    spec_write_u64(payload.len() as u64) + payload
}

/// Puts a `u64` length in front of the written payload.
fn frame(payload: BytesMut) -> (r: BytesMut)
    requires
        bytes_mut_view(payload).len() + 8 <= buf_limit(),
    ensures
        bytes_mut_view(r) == spec_frame(bytes_mut_view(payload)),
{
    let len = buf_len(&payload);
    let mut result = buf_with_capacity(8 + len);
    put_u64_le(&mut result, len as u64);
    put_buf(&mut result, payload);
    assert(bytes_mut_view(result) =~= spec_frame(bytes_mut_view(payload)));
    result
}

impl ServerPacket {
    /// The bytes this packet is sent as: its length, then its encoding.
    pub open spec fn spec_encode(v: ServerPacketView) -> Seq<u8> {
        spec_frame(Self::spec_write(v))
    }

    /// Encodes the packet for sending.
    pub fn encode(&self) -> (r: BytesMut)
        requires
            Self::spec_write(self@).len() + 8 <= buf_limit(),
        ensures
            bytes_mut_view(r) == Self::spec_encode(self@),
    {
        let mut tmp_buf = new_buf();
        self.write(&mut tmp_buf);
        assert(bytes_mut_view(tmp_buf) =~= Self::spec_write(self@));
        frame(tmp_buf)
    }
}

impl ClientPacket {
    /// The bytes this packet is sent as: its length, then its encoding.
    pub open spec fn spec_encode(v: ClientPacketView) -> Seq<u8> {
        spec_frame(Self::spec_write(v))
    }

    /// How a framed packet is read: the length is skipped, then the packet read.
    pub open spec fn spec_decode(s: Seq<u8>) -> SpecRead<ClientPacketView> {
        match spec_read_u64(s) {
            Ok((_len, r)) => Self::spec_read(r),
            Err(e) => Err(e),
        }
    }

    /// Encodes the packet for sending.
    pub fn encode(&self) -> (r: BytesMut)
        requires
            !(*self is ChallengeResponse),
            Self::spec_write(self@).len() + 8 <= buf_limit(),
        ensures
            bytes_mut_view(r) == Self::spec_encode(self@),
    {
        let mut tmp_buf = new_buf();
        self.write(&mut tmp_buf);
        assert(bytes_mut_view(tmp_buf) =~= Self::spec_write(self@));
        frame(tmp_buf)
    }

    /// Reads a framed packet. The length in front is read and not checked
    /// against the data: the packet itself says where it ends.
    pub fn decode(buf: &mut Bytes) -> (r: Result<Self, ProtocolError>)
        ensures
            decoded(r, Self::spec_decode(bytes_view(*old(buf))), bytes_view(*old(buf)), bytes_view(*final(buf))),
    {
        broadcast use lemma_consumed_trans;
        let _len = read_u64(buf)?;
        Self::read(buf)
    }
}

/// A client packet that the client can encode is decoded by the server as the
/// same packet, with whatever follows it left unread. The exceptions are the
/// ones the packet definitions themselves make: a challenge response cannot be
/// encoded, and an authentication request is encoded with its name before its
/// public key but decoded in the other order, so it survives only when the
/// public key is the UTF-8 encoding of the name.
pub proof fn lemma_client_packet_transfer(p: ClientPacketView, rest: Seq<u8>)
    requires
        ClientPacket::wf(p),
        !(p is ChallengeResponse),
        p is AuthRequest ==> p->AuthRequest_pub_key == encode_utf8(p->AuthRequest_name),
        ClientPacket::spec_write(p).len() <= u64::MAX,
    ensures
        ClientPacket::spec_decode(ClientPacket::spec_encode(p) + rest) == Ok::<(ClientPacketView, Seq<u8>), ProtocolError>((p, rest)),
{
    let body = ClientPacket::spec_write(p) + rest;
    assert(ClientPacket::spec_encode(p) + rest =~= spec_write_u64(ClientPacket::spec_write(p).len() as u64) + body);
    lemma_rt_u64(ClientPacket::spec_write(p).len() as u64, body);
    ClientPacket::lemma_roundtrip(p, rest);
}

/// A server packet read back from its encoding is the same packet, with
/// whatever follows it left unread; a challenge request is the exception, as
/// reading one is not implemented.
pub proof fn lemma_server_packet_transfer(p: ServerPacketView, rest: Seq<u8>)
    requires
        ServerPacket::wf(p),
        !(p is ChallengeRequest),
        ServerPacket::spec_write(p).len() <= u64::MAX,
    ensures
        match spec_read_u64(ServerPacket::spec_encode(p) + rest) {
            Ok((len, r)) => len == ServerPacket::spec_write(p).len() && ServerPacket::spec_read(r) == Ok::<(ServerPacketView, Seq<u8>), ProtocolError>((p, rest)),
            Err(_) => false,
        },
{
    let body = ServerPacket::spec_write(p) + rest;
    assert(ServerPacket::spec_encode(p) + rest =~= spec_write_u64(ServerPacket::spec_write(p).len() as u64) + body);
    lemma_rt_u64(ServerPacket::spec_write(p).len() as u64, body);
    ServerPacket::lemma_roundtrip(p, rest);
}

/// The wire layout of channel permissions: six little-endian 64-bit
/// numbers, in the order see, join, modify, talk, assign-talk, delete.
pub proof fn lemma_channel_perms_layout(v: ChannelPerms)
    ensures
        ChannelPerms::spec_write(v).len() == 48,
        ChannelPerms::spec_write(v).subrange(0, 8) == vstd::bytes::spec_u64_to_le_bytes(v.see),
        ChannelPerms::spec_write(v).subrange(8, 16) == vstd::bytes::spec_u64_to_le_bytes(v.join),
        ChannelPerms::spec_write(v).subrange(16, 24) == vstd::bytes::spec_u64_to_le_bytes(v.modify),
        ChannelPerms::spec_write(v).subrange(24, 32) == vstd::bytes::spec_u64_to_le_bytes(v.talk),
        ChannelPerms::spec_write(v).subrange(32, 40) == vstd::bytes::spec_u64_to_le_bytes(v.assign_talk),
        ChannelPerms::spec_write(v).subrange(40, 48) == vstd::bytes::spec_u64_to_le_bytes(v.delete),
{
    reveal(ChannelPerms::spec_write);
    let b = ChannelPerms::spec_write(v);
    let a0 = vstd::bytes::spec_u64_to_le_bytes(v.see);
    let a1 = vstd::bytes::spec_u64_to_le_bytes(v.join);
    let a2 = vstd::bytes::spec_u64_to_le_bytes(v.modify);
    let a3 = vstd::bytes::spec_u64_to_le_bytes(v.talk);
    let a4 = vstd::bytes::spec_u64_to_le_bytes(v.assign_talk);
    let a5 = vstd::bytes::spec_u64_to_le_bytes(v.delete);
    assert(b == a0 + a1 + a2 + a3 + a4 + a5);
    assert(b.subrange(0, 8) =~= a0);
    assert(b.subrange(8, 16) =~= a1);
    assert(b.subrange(16, 24) =~= a2);
    assert(b.subrange(24, 32) =~= a3);
    assert(b.subrange(32, 40) =~= a4);
    assert(b.subrange(40, 48) =~= a5);
}

/// Reading channel permissions takes the first 48 bytes as six
/// little-endian 64-bit numbers: see, join, modify, talk, assign-talk,
/// delete; with fewer bytes it fails.
pub proof fn lemma_channel_perms_read_layout(s: Seq<u8>)
    ensures
        s.len() >= 48 ==> ChannelPerms::spec_read(s) == Ok::<(ChannelPerms, Seq<u8>), ProtocolError>((
            ChannelPerms {
                see: vstd::bytes::spec_u64_from_le_bytes(s.subrange(0, 8)),
                join: vstd::bytes::spec_u64_from_le_bytes(s.subrange(8, 16)),
                modify: vstd::bytes::spec_u64_from_le_bytes(s.subrange(16, 24)),
                talk: vstd::bytes::spec_u64_from_le_bytes(s.subrange(24, 32)),
                assign_talk: vstd::bytes::spec_u64_from_le_bytes(s.subrange(32, 40)),
                delete: vstd::bytes::spec_u64_from_le_bytes(s.subrange(40, 48)),
            },
            s.skip(48),
        )),
        s.len() < 48 ==> ChannelPerms::spec_read(s) is Err,
{
    reveal(ChannelPerms::spec_read);
    let r1 = s.skip(8);
    let r2 = r1.skip(8);
    let r3 = r2.skip(8);
    let r4 = r3.skip(8);
    let r5 = r4.skip(8);
    if s.len() >= 48 {
        assert(s.take(8) =~= s.subrange(0, 8));
        assert(r1.take(8) =~= s.subrange(8, 16));
        assert(r2.take(8) =~= s.subrange(16, 24));
        assert(r3.take(8) =~= s.subrange(24, 32));
        assert(r4.take(8) =~= s.subrange(32, 40));
        assert(r5.take(8) =~= s.subrange(40, 48));
        assert(r5.skip(8) =~= s.skip(48));
    }
}

} // verus!
