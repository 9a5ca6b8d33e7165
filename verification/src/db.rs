//! What the server keeps on disk: the records of its channel, server group
//! and user databases, how a user record is encoded, and its configuration.
use crate::buf::{buf_to_vec, bytes_from_vec, bytes_mut_view, bytes_view, new_buf};
use crate::network::AddressMode;
use crate::packet::{ChannelPerms, PermsSnapshot};
use crate::protocol::{
    has_room, lemma_consumed_trans, lemma_rt_string, lemma_rt_u128_list, lemma_rt_u8, lemma_rt_user_uuid,
    lemma_rt_word256, read_string, read_u128_list, read_u8, read_user_uuid, read_word256,
    spec_read_list, spec_read_string, spec_read_u128, spec_read_u8, spec_read_user_uuid, spec_read_word256,
    spec_write_list, spec_write_string, spec_write_u128, spec_write_u8, spec_write_user_uuid,
    spec_write_word256, wf_string, write_string, write_u128_list, write_u8, write_user_uuid, write_word256,
    ProtocolError, SpecRead, UserUuid, Word256,
};
use crate::buf::buf_limit;
use vstd::bytes::{spec_u128_from_le_bytes, spec_u128_to_le_bytes, u128_from_le_bytes, u128_to_le_bytes};
use vstd::prelude::*;
use vstd::slice::slice_subrange;

verus! {

broadcast use crate::endian::group_le_bytes;

/// The uuid of the channel users join first, unless configured otherwise.
pub const DEFAULT_CHANNEL_UUID: u128 = 0;

/// The uuid of the server group of administrators.
pub const ADMIN_GROUP_UUID: u128 = 1;

/// The uuid of the server group every user belongs to.
pub const DEFAULT_GROUP_UUID: u128 = 0;

// ---------------------------------------------------------------------------
// 256-bit numbers as stored
// ---------------------------------------------------------------------------

/// A 256-bit number as its 32 little-endian bytes.
pub struct U256Container {
    raw: [u8; 32],
}

impl U256Container {
    /// The stored bytes.
    pub closed spec fn bytes(&self) -> Seq<u8> {
        self.raw@
    }

    /// The bytes of a number: the low half first, each half little-endian.
    pub fn new(val: Word256) -> (r: Self)
        ensures
            r.bytes() == spec_u128_to_le_bytes(val.low) + spec_u128_to_le_bytes(val.high),
    {
        let low = u128_to_le_bytes(val.low);
        let high = u128_to_le_bytes(val.high);
        let mut raw = [0u8; 32];
        let mut i: usize = 0;
        while i < 32
            invariant
                i <= 32,
                low@.len() == 16,
                high@.len() == 16,
                raw@.len() == 32,
                forall|j: int| 0 <= j < i ==> raw@[j] == (low@ + high@)[j],
            decreases 32 - i,
        {
            let b = if i < 16 {
                low[i]
            } else {
                high[i - 16]
            };
            raw[i] = b;
            i = i + 1;
        }
        proof {
            assert(raw@ =~= low@ + high@);
        }
        U256Container { raw }
    }

    /// The number the bytes hold.
    pub fn unwrap(&self) -> (r: Word256)
        ensures
            r.low == spec_u128_from_le_bytes(self.bytes().subrange(0, 16)),
            r.high == spec_u128_from_le_bytes(self.bytes().subrange(16, 32)),
    {
        let s = self.raw.as_slice();
        let low = u128_from_le_bytes(slice_subrange(s, 0, 16));
        let high = u128_from_le_bytes(slice_subrange(s, 16, 32));
        Word256 { low, high }
    }
}

/// A number stored and read back is the same number.
pub proof fn lemma_u256_container_roundtrip(val: Word256)
    ensures
        spec_u128_from_le_bytes((spec_u128_to_le_bytes(val.low) + spec_u128_to_le_bytes(val.high)).subrange(0, 16))
            == val.low,
        spec_u128_from_le_bytes((spec_u128_to_le_bytes(val.low) + spec_u128_to_le_bytes(val.high)).subrange(16, 32))
            == val.high,
{
    let a = spec_u128_to_le_bytes(val.low);
    let b = spec_u128_to_le_bytes(val.high);
    assert((a + b).subrange(0, 16) =~= a);
    assert((a + b).subrange(16, 32) =~= b);
}

// ---------------------------------------------------------------------------
// Records
// ---------------------------------------------------------------------------

/// A channel as stored in the channel database.
pub struct ChannelDbEntry {
    /// The channel's uuid.
    pub id: u128,
    pub sort_id: u16,
    pub name: String,
    pub desc: String,
    pub password: Option<String>,
    /// Users with the channel group they hold in this channel.
    pub user_groups: Vec<(U256Container, u128)>,
    pub perms: ChannelPerms,
    /// How many users fit; -1 for no limit.
    pub slots: i16,
}

/// Where the channel database is stored.
pub struct ChannelDb {
    path: String,
}

impl ChannelDb {
    /// The database stored at `path`.
    pub fn new(path: String) -> (r: Self)
        ensures
            r.spec_path() == path@,
    {
        ChannelDb { path }
    }

    /// Where the database is stored.
    pub closed spec fn spec_path(&self) -> Seq<char> {
        self.path@
    }

    /// Where the database is stored.
    pub fn path(&self) -> (r: &String)
        ensures
            r@ == self.spec_path(),
    {
        &self.path
    }
}

/// A server group as stored in the server group database.
pub struct ServerGroupEntry {
    pub uuid: u128,
    pub name: String,
    pub perms: PermsSnapshot,
}

/// Where the server group database is stored.
pub struct ServerGroupDb {
    path: String,
}

impl ServerGroupDb {
    /// The database stored at `path`.
    pub fn new(path: String) -> (r: Self)
        ensures
            r.spec_path() == path@,
    {
        ServerGroupDb { path }
    }

    /// Where the database is stored.
    pub closed spec fn spec_path(&self) -> Seq<char> {
        self.path@
    }

    /// Where the database is stored.
    pub fn path(&self) -> (r: &String)
        ensures
            r@ == self.spec_path(),
    {
        &self.path
    }
}

// ---------------------------------------------------------------------------
// Users
// ---------------------------------------------------------------------------

/// A user as stored in the user database.
pub struct DbUser {
    pub uuid: UserUuid,
    pub name: String,
    /// The last proof of work the user authenticated with.
    pub last_security_proof: Word256,
    /// The security level that proof verified at.
    pub last_verified_security_level: u8,
    /// The uuids of the user's server groups.
    pub groups: Vec<u128>,
    pub perms: PermsSnapshot,
}

/// What a `DbUser` holds, as plain values.
pub struct DbUserView {
    pub uuid: UserUuid,
    pub name: Seq<char>,
    pub last_security_proof: Word256,
    pub last_verified_security_level: u8,
    pub groups: Seq<u128>,
    pub perms: PermsSnapshot,
}

impl View for DbUser {
    type V = DbUserView;

    open spec fn view(&self) -> DbUserView {
        DbUserView {
            uuid: self.uuid,
            name: self.name@,
            last_security_proof: self.last_security_proof,
            last_verified_security_level: self.last_verified_security_level,
            groups: self.groups@,
            perms: self.perms@,
        }
    }
}

impl DbUser {
    /// How a stored user is read: its fields in declaration order.
    #[verifier::opaque]
    pub open spec fn spec_read(s: Seq<u8>) -> SpecRead<DbUserView> {
        match spec_read_user_uuid(s) {
            Ok((uuid, r1)) => match spec_read_string(r1) {
                Ok((name, r2)) => match spec_read_word256(r2) {
                    Ok((last_security_proof, r3)) => match spec_read_u8(r3) {
                        Ok((last_verified_security_level, r4)) => match spec_read_list(r4, |s: Seq<u8>| spec_read_u128(s)) {
                            Ok((groups, r5)) => match PermsSnapshot::spec_read(r5) {
                                Ok((perms, r6)) => Ok((
                                    DbUserView {
                                        uuid,
                                        name,
                                        last_security_proof,
                                        last_verified_security_level,
                                        groups,
                                        perms,
                                    },
                                    r6,
                                )),
                                Err(e) => Err(e),
                            },
                            Err(e) => Err(e),
                        },
                        Err(e) => Err(e),
                    },
                    Err(e) => Err(e),
                },
                Err(e) => Err(e),
            },
            Err(e) => Err(e),
        }
    }

    /// The bytes a user is stored as: its fields in declaration order.
    #[verifier::opaque]
    pub open spec fn spec_write(v: DbUserView) -> Seq<u8> {
        spec_write_user_uuid(v.uuid) + spec_write_string(v.name) + spec_write_word256(v.last_security_proof)
            + spec_write_u8(v.last_verified_security_level) + spec_write_list(v.groups, |x: u128| spec_write_u128(x))
            + PermsSnapshot::spec_write(v.perms)
    }

    /// The users that read back unchanged from what they are stored as.
    pub open spec fn wf(v: DbUserView) -> bool {
        wf_string(v.name) && v.groups.len() <= u64::MAX && PermsSnapshot::wf(v.perms)
    }

    /// The bytes the user is stored as.
    pub fn to_bytes(self) -> (r: Vec<u8>)
        requires
            Self::spec_write(self@).len() <= buf_limit(),
        ensures
            r@ == Self::spec_write(self@),
    {
        proof {
            reveal(DbUser::spec_write);
        }
        let mut buf = new_buf();
        write_user_uuid(&self.uuid, &mut buf);
        write_string(self.name.as_str(), &mut buf);
        write_word256(&self.last_security_proof, &mut buf);
        write_u8(self.last_verified_security_level, &mut buf);
        write_u128_list(self.groups.as_slice(), &mut buf);
        self.perms.write(&mut buf);
        proof {
            assert(bytes_mut_view(buf) =~= Self::spec_write(self@));
        }
        buf_to_vec(&buf)
    }

    /// Reads a stored user.
    pub fn from_bytes(bytes: Vec<u8>) -> (r: Result<Self, ProtocolError>)
        ensures
            match Self::spec_read(bytes@) {
                Ok((v, _)) => r matches Ok(u) && u@ == v,
                Err(e) => r == Err::<Self, ProtocolError>(e),
            },
    {
        broadcast use lemma_consumed_trans;

        proof {
            reveal(DbUser::spec_read);
        }
        let mut buf = bytes_from_vec(bytes);
        let uuid = read_user_uuid(&mut buf)?;
        let name = read_string(&mut buf)?;
        let last_security_proof = read_word256(&mut buf)?;
        let last_verified_security_level = read_u8(&mut buf)?;
        let groups = read_u128_list(&mut buf)?;
        let perms = PermsSnapshot::read(&mut buf)?;
        Ok(DbUser { uuid, name, last_security_proof, last_verified_security_level, groups, perms })
    }

    /// Reading what a well-formed user is stored as gives it back, and the
    /// bytes after it.
    pub proof fn lemma_roundtrip(v: DbUserView, rest: Seq<u8>)
        requires
            Self::wf(v),
        ensures
            Self::spec_read(Self::spec_write(v) + rest) == Ok::<(DbUserView, Seq<u8>), ProtocolError>((v, rest)),
    {
        reveal(DbUser::spec_read);
        reveal(DbUser::spec_write);
        let t6 = rest;
        let t5 = PermsSnapshot::spec_write(v.perms) + t6;
        let t4 = spec_write_list(v.groups, |x: u128| spec_write_u128(x)) + t5;
        let t3 = spec_write_u8(v.last_verified_security_level) + t4;
        let t2 = spec_write_word256(v.last_security_proof) + t3;
        let t1 = spec_write_string(v.name) + t2;
        let t0 = spec_write_user_uuid(v.uuid) + t1;
        assert(Self::spec_write(v) + rest =~= t0);
        lemma_rt_user_uuid(v.uuid, t1);
        lemma_rt_string(v.name, t2);
        lemma_rt_word256(v.last_security_proof, t3);
        lemma_rt_u8(v.last_verified_security_level, t4);
        lemma_rt_u128_list(v.groups, t5);
        PermsSnapshot::lemma_roundtrip(v.perms, t6);
    }
}

/// A user stored and read back is the same user.
pub proof fn lemma_db_user_roundtrip(v: DbUserView)
    requires
        DbUser::wf(v),
    ensures
        DbUser::spec_read(DbUser::spec_write(v)) matches Ok((u, _)) && u == v,
{
    DbUser::lemma_roundtrip(v, Seq::empty());
    assert(DbUser::spec_write(v) + Seq::<u8>::empty() =~= DbUser::spec_write(v));
}

// ---------------------------------------------------------------------------
// Configuration
// ---------------------------------------------------------------------------

/// The server's configuration.
pub struct Config {
    pub address_mode: AddressMode,
    pub port: u16,
    /// The lowest security level a client's proofs of work must reach.
    pub req_security_level: u8,
    pub default_channel_id: u128,
}

impl Default for Config {
    /// IPv4 on port 20354, security level 12, the default channel.
    fn default() -> (r: Self)
        ensures
            r.address_mode == AddressMode::V4,
            r.port == 20354,
            r.req_security_level == 12,
            r.default_channel_id == DEFAULT_CHANNEL_UUID,
    {
        Config { address_mode: AddressMode::V4, port: 20354, req_security_level: 12, default_channel_id: DEFAULT_CHANNEL_UUID }
    }
}

impl Config {
    /// Repairs a configuration read from disk: a required security level
    /// below 1 is raised to 1; everything else is kept.
    pub fn sanitize(&mut self)
        ensures
            final(self).req_security_level == if old(self).req_security_level < 1 {
                1
            } else {
                old(self).req_security_level
            },
            final(self).address_mode == old(self).address_mode,
            final(self).port == old(self).port,
            final(self).default_channel_id == old(self).default_channel_id,
    {
        if self.req_security_level < 1 {
            self.req_security_level = 1;
        }
    }
}

} // verus!
