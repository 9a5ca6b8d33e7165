//! How the server decides on an authentication request, and which
//! permissions a user holds once their server groups are taken into account.
use crate::packet::{AuthFailure, AuthFailureView, ChannelCreatePerms, PermsSnapshot};
use crate::protocol::{UserUuid, Word256, PROTOCOL_VERSION};
use vstd::bytes::{spec_u128_from_le_bytes, u128_from_le_bytes};
use vstd::prelude::*;
use vstd::slice::slice_subrange;
use vstd::string::StringExecFns;

verus! {

/// The SHA-256 digest of some bytes, as computed by `openssl::sha::sha256`.
pub uninterp spec fn spec_openssl_sha256(data: Seq<u8>) -> Seq<u8>;

/// `openssl::sha::sha256`: the 32-byte SHA-256 digest of `data`.
#[verifier::external_body]
fn openssl_sha256(data: &[u8]) -> (r: Vec<u8>)
    ensures
        r@ == spec_openssl_sha256(data@),
        r@.len() == 32,
{
    openssl::sha::sha256(data).to_vec()
}

/// The identity belonging to a public key: its SHA-256 digest read as a
/// little-endian 256-bit number.
pub open spec fn spec_uuid_from_pub_key(pub_key: Seq<u8>) -> Word256 {
    let d = spec_openssl_sha256(pub_key);
    Word256 { low: spec_u128_from_le_bytes(d.subrange(0, 16)), high: spec_u128_from_le_bytes(d.subrange(16, 32)) }
}

/// The identity belonging to a public key.
pub fn uuid_from_pub_key(pub_key: &[u8]) -> (r: Word256)
    ensures
        r == spec_uuid_from_pub_key(pub_key@),
{
    let digest = openssl_sha256(pub_key);
    let low = u128_from_le_bytes(slice_subrange(digest.as_slice(), 0, 16));
    let high = u128_from_le_bytes(slice_subrange(digest.as_slice(), 16, 32));
    Word256 { low, high }
}

/// The user identity belonging to a public key.
pub fn user_uuid_from_pub_key(pub_key: &[u8]) -> (r: UserUuid)
    ensures
        r.value() == spec_uuid_from_pub_key(pub_key@),
{
    UserUuid::from_u256(uuid_from_pub_key(pub_key))
}

// ---------------------------------------------------------------------------
// Authentication
// ---------------------------------------------------------------------------

/// Why an authentication request is refused, in the order the server checks:
/// a protocol version other than its own; proofs of work that do not verify;
/// a proven level below the required one; the user being online already.
pub open spec fn spec_check_auth(
    protocol_version: u64,
    proof_level: Option<u8>,
    req_security_level: u8,
    already_online: bool,
) -> Option<AuthFailureView> {
    if protocol_version != PROTOCOL_VERSION {
        Some(AuthFailureView::OutOfDate(PROTOCOL_VERSION))
    } else if proof_level is None {
        Some(AuthFailureView::Invalid("Invalid security proofs!"@))
    } else if req_security_level > proof_level->Some_0 {
        Some(AuthFailureView::ReqSec(req_security_level))
    } else if already_online {
        Some(AuthFailureView::AlreadyOnline)
    } else {
        None
    }
}

/// Decides on an authentication request, given the client's protocol
/// version, the level its proofs of work verified at (`None` when they did
/// not verify), the level the server requires, and whether the user is
/// online already. Returns the failure to answer with, or `None` to accept.
pub fn check_auth(
    protocol_version: u64,
    proof_level: Option<u8>,
    req_security_level: u8,
    already_online: bool,
) -> (r: Option<AuthFailure>)
    ensures
        match spec_check_auth(protocol_version, proof_level, req_security_level, already_online) {
            Some(f) => r is Some && r->Some_0@ == f,
            None => r is None,
        },
{
    if protocol_version != PROTOCOL_VERSION {
        return Some(AuthFailure::OutOfDate(PROTOCOL_VERSION));
    }
    let level = match proof_level {
        Some(level) => level,
        None => {
            return Some(AuthFailure::Invalid(String::from_str("Invalid security proofs!")));
        },
    };
    if req_security_level > level {
        return Some(AuthFailure::ReqSec(req_security_level));
    }
    if already_online {
        return Some(AuthFailure::AlreadyOnline);
    }
    None
}

/// The failure sent when a connection's first packet is not an
/// authentication request.
pub fn first_packet_failure() -> (r: AuthFailure)
    ensures
        r@ == AuthFailureView::Invalid("The first packet sent has to be a `AuthRequest` packet!"@),
{
    AuthFailure::Invalid(String::from_str("The first packet sent has to be a `AuthRequest` packet!"))
}

// ---------------------------------------------------------------------------
// Effective permissions
// ---------------------------------------------------------------------------

/// The channel creation rights a user holds: each right as the power up to
/// which it applies, 0 when it is not granted.
#[derive(Clone, Copy, Debug, PartialEq, Eq, Structural)]
pub struct ActiveChannelCreatePerms {
    pub power: u64,
    pub set_desc: u64,
    pub set_password: u64,
    pub resort_channel: u64,
}

/// The permissions a user holds once their own and their server groups'
/// permissions are combined.
#[derive(Clone, Copy, Debug, PartialEq, Eq, Structural)]
pub struct ActivePerms {
    pub server_group_assign: u64,
    pub server_group_unassign: u64,
    pub channel_see: u64,
    pub channel_join: u64,
    pub channel_modify: u64,
    pub channel_talk: u64,
    pub channel_assign_talk: u64,
    pub channel_delete: u64,
    /// The power up to which the user may send; 0 when sending is not granted.
    pub send: u64,
    pub channel_create: ActiveChannelCreatePerms,
}

pub open spec fn max_u64(a: u64, b: u64) -> u64 {
    if b > a {
        b
    } else {
        a
    }
}

/// A power that counts only when the right is granted.
pub open spec fn granted(flag: bool, power: u64) -> u64 {
    if flag {
        power
    } else {
        0
    }
}

/// The permissions a user holds from their own permission set alone.
pub open spec fn spec_own_perms(p: PermsSnapshot) -> ActivePerms {
    ActivePerms {
        server_group_assign: p.server_group_assign,
        server_group_unassign: p.server_group_unassign,
        channel_see: p.channel_see,
        channel_join: p.channel_join,
        channel_modify: p.channel_modify,
        channel_talk: p.channel_talk,
        channel_assign_talk: p.channel_assign_talk,
        channel_delete: p.channel_delete,
        send: granted(p.can_send, p.channel_join),
        channel_create: ActiveChannelCreatePerms {
            power: p.channel_create.power,
            set_desc: granted(p.channel_create.set_desc, p.channel_create.power),
            set_password: granted(p.channel_create.set_password, p.channel_create.power),
            resort_channel: granted(p.channel_create.resort_channel, p.channel_create.power),
        },
    }
}

/// Adds one server group's permissions: each power becomes the larger of the
/// two, and a right the group grants counts with the group's power.
pub open spec fn spec_add_group(a: ActivePerms, g: PermsSnapshot) -> ActivePerms {
    ActivePerms {
        server_group_assign: max_u64(a.server_group_assign, g.server_group_assign),
        server_group_unassign: max_u64(a.server_group_unassign, g.server_group_unassign),
        channel_see: max_u64(a.channel_see, g.channel_see),
        channel_join: max_u64(a.channel_join, g.channel_join),
        channel_modify: max_u64(a.channel_modify, g.channel_modify),
        channel_talk: max_u64(a.channel_talk, g.channel_talk),
        channel_assign_talk: max_u64(a.channel_assign_talk, g.channel_assign_talk),
        channel_delete: max_u64(a.channel_delete, g.channel_delete),
        send: max_u64(a.send, granted(g.can_send, g.channel_join)),
        channel_create: ActiveChannelCreatePerms {
            power: max_u64(a.channel_create.power, g.channel_create.power),
            set_desc: max_u64(
                a.channel_create.set_desc,
                granted(g.channel_create.set_desc, g.channel_create.power),
            ),
            set_password: max_u64(
                a.channel_create.set_password,
                granted(g.channel_create.set_password, g.channel_create.power),
            ),
            resort_channel: max_u64(
                a.channel_create.resort_channel,
                granted(g.channel_create.resort_channel, g.channel_create.power),
            ),
        },
    }
}

/// The permissions a user holds with the given server groups.
pub open spec fn spec_active_perms(own: PermsSnapshot, groups: Seq<PermsSnapshot>) -> ActivePerms
    decreases groups.len(),
{
    if groups.len() == 0 {
        spec_own_perms(own)
    } else {
        spec_add_group(spec_active_perms(own, groups.drop_last()), groups.last())
    }
}

/// Combines a user's own permissions with those of their server groups.
pub fn active_perms(own: &PermsSnapshot, groups: &[PermsSnapshot]) -> (r: ActivePerms)
    ensures
        r == spec_active_perms(*own, groups@),
{
    let mut active = ActivePerms {
        server_group_assign: own.server_group_assign,
        server_group_unassign: own.server_group_unassign,
        channel_see: own.channel_see,
        channel_join: own.channel_join,
        channel_modify: own.channel_modify,
        channel_talk: own.channel_talk,
        channel_assign_talk: own.channel_assign_talk,
        channel_delete: own.channel_delete,
        send: if own.can_send {
            own.channel_join
        } else {
            0
        },
        channel_create: ActiveChannelCreatePerms {
            power: own.channel_create.power,
            set_desc: if own.channel_create.set_desc {
                own.channel_create.power
            } else {
                0
            },
            set_password: if own.channel_create.set_password {
                own.channel_create.power
            } else {
                0
            },
            resort_channel: if own.channel_create.resort_channel {
                own.channel_create.power
            } else {
                0
            },
        },
    };
    let mut i: usize = 0;
    assert(groups@.take(0) =~= Seq::<PermsSnapshot>::empty());
    while i < groups.len()
        invariant
            i <= groups@.len(),
            active == spec_active_perms(*own, groups@.take(i as int)),
        decreases groups.len() - i,
    {
        let group = &groups[i];
        if group.server_group_assign > active.server_group_assign {
            active.server_group_assign = group.server_group_assign;
        }
        if group.server_group_unassign > active.server_group_unassign {
            active.server_group_unassign = group.server_group_unassign;
        }
        if group.channel_join > active.channel_join {
            active.channel_join = group.channel_join;
        }
        if group.can_send && group.channel_join > active.send {
            active.send = group.channel_join;
        }
        if group.channel_talk > active.channel_talk {
            active.channel_talk = group.channel_talk;
        }
        if group.channel_see > active.channel_see {
            active.channel_see = group.channel_see;
        }
        if group.channel_delete > active.channel_delete {
            active.channel_delete = group.channel_delete;
        }
        if group.channel_assign_talk > active.channel_assign_talk {
            active.channel_assign_talk = group.channel_assign_talk;
        }
        if group.channel_modify > active.channel_modify {
            active.channel_modify = group.channel_modify;
        }
        if group.channel_create.power > active.channel_create.power {
            active.channel_create.power = group.channel_create.power;
        }
        if group.channel_create.resort_channel && group.channel_create.power
            > active.channel_create.resort_channel {
            active.channel_create.resort_channel = group.channel_create.power;
        }
        if group.channel_create.set_password && group.channel_create.power
            > active.channel_create.set_password {
            active.channel_create.set_password = group.channel_create.power;
        }
        if group.channel_create.set_desc && group.channel_create.power
            > active.channel_create.set_desc {
            active.channel_create.set_desc = group.channel_create.power;
        }
        proof {
            assert(groups@.take(i + 1).drop_last() =~= groups@.take(i as int));
            assert(groups@.take(i + 1).last() == groups@[i as int]);
        }
        i = i + 1;
    }
    assert(groups@.take(groups@.len() as int) =~= groups@);
    active
}

/// Every power a user ends up with is at least what their own permissions and
/// each of their server groups grant.
pub proof fn lemma_active_perms_cover(own: PermsSnapshot, groups: Seq<PermsSnapshot>, i: int)
    requires
        0 <= i < groups.len(),
    ensures
        ({
            let a = spec_active_perms(own, groups);
            let g = groups[i];
            &&& a.channel_see >= g.channel_see
            &&& a.channel_join >= g.channel_join
            &&& a.channel_talk >= g.channel_talk
            &&& a.channel_modify >= g.channel_modify
            &&& a.channel_assign_talk >= g.channel_assign_talk
            &&& a.channel_delete >= g.channel_delete
            &&& a.server_group_assign >= g.server_group_assign
            &&& a.server_group_unassign >= g.server_group_unassign
            &&& a.send >= granted(g.can_send, g.channel_join)
            &&& a.channel_create.power >= g.channel_create.power
            &&& a.channel_create.set_desc >= granted(g.channel_create.set_desc, g.channel_create.power)
            &&& a.channel_create.set_password >= granted(g.channel_create.set_password, g.channel_create.power)
            &&& a.channel_create.resort_channel >= granted(g.channel_create.resort_channel, g.channel_create.power)
        }),
    decreases groups.len(),
{
    if i < groups.len() - 1 {
        lemma_active_perms_cover(own, groups.drop_last(), i);
        assert(groups.drop_last()[i] == groups[i]);
    }
}

/// Every power a user ends up with is at least what their own permissions grant.
pub proof fn lemma_active_perms_cover_own(own: PermsSnapshot, groups: Seq<PermsSnapshot>)
    ensures
        ({
            let a = spec_active_perms(own, groups);
            let o = spec_own_perms(own);
            &&& a.channel_see >= o.channel_see
            &&& a.channel_join >= o.channel_join
            &&& a.channel_talk >= o.channel_talk
            &&& a.channel_modify >= o.channel_modify
            &&& a.channel_assign_talk >= o.channel_assign_talk
            &&& a.channel_delete >= o.channel_delete
            &&& a.server_group_assign >= o.server_group_assign
            &&& a.server_group_unassign >= o.server_group_unassign
            &&& a.send >= o.send
            &&& a.channel_create.power >= o.channel_create.power
            &&& a.channel_create.set_desc >= o.channel_create.set_desc
            &&& a.channel_create.set_password >= o.channel_create.set_password
            &&& a.channel_create.resort_channel >= o.channel_create.resort_channel
        }),
    decreases groups.len(),
{
    if groups.len() > 0 {
        lemma_active_perms_cover_own(own, groups.drop_last());
    }
}

/// The power to join channels that a user ends up with is exactly the largest
/// one among their own permissions and those of their server groups: it is
/// granted by one of them.
pub proof fn lemma_active_join_attained(own: PermsSnapshot, groups: Seq<PermsSnapshot>)
    ensures
        spec_active_perms(own, groups).channel_join == own.channel_join || exists|i: int|
            0 <= i < groups.len() && spec_active_perms(own, groups).channel_join
                == #[trigger] groups[i].channel_join,
    decreases groups.len(),
{
    if groups.len() > 0 {
        let init = groups.drop_last();
        lemma_active_join_attained(own, init);
        if spec_active_perms(own, groups).channel_join != own.channel_join {
            if spec_active_perms(own, groups).channel_join == groups[groups.len() - 1].channel_join {
            } else {
                let j = choose|j: int| 0 <= j < init.len() && spec_active_perms(own, init).channel_join == #[trigger] init[j].channel_join;
                assert(groups[j] == init[j]);
            }
        }
    }
}

/// The power to send voice that a user ends up with is the largest join
/// power among their own permissions and their server groups that grant
/// sending, and 0 when none of them does: it is at least each such power,
/// and it is one of them unless it is 0.
pub proof fn lemma_active_send(own: PermsSnapshot, groups: Seq<PermsSnapshot>)
    ensures
        own.can_send ==> spec_active_perms(own, groups).send >= own.channel_join,
        forall|i: int|
            0 <= i < groups.len() && (#[trigger] groups[i]).can_send ==> spec_active_perms(own, groups).send
                >= groups[i].channel_join,
        spec_active_perms(own, groups).send == 0 || (own.can_send && spec_active_perms(own, groups).send
            == own.channel_join) || exists|i: int|
            0 <= i < groups.len() && (#[trigger] groups[i]).can_send && spec_active_perms(own, groups).send
                == groups[i].channel_join,
    decreases groups.len(),
{
    if groups.len() > 0 {
        let init = groups.drop_last();
        lemma_active_send(own, init);
        let a = spec_active_perms(own, groups);
        let b = spec_active_perms(own, init);
        assert forall|i: int| 0 <= i < groups.len() && (#[trigger] groups[i]).can_send implies a.send
            >= groups[i].channel_join by {
            if i < groups.len() - 1 {
                assert(groups[i] == init[i]);
            }
        }
        if a.send != 0 && !(own.can_send && a.send == own.channel_join) {
            if a.send == b.send {
                if !(b.send == 0) && !(own.can_send && b.send == own.channel_join) {
                    let j = choose|j: int| 0 <= j < init.len() && (#[trigger] init[j]).can_send && b.send == init[j].channel_join;
                    assert(groups[j] == init[j]);
                } else {
                    let k = groups.len() - 1;
                    assert(groups[k].can_send && a.send == groups[k].channel_join);
                }
            } else {
                let k = groups.len() - 1;
                assert(groups[k].can_send && a.send == groups[k].channel_join);
            }
        }
    }
}

} // verus!
