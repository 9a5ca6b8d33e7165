//! The server's channels and who is in them: joining, leaving, switching
//! between channels, and the checks of the channel commands.
use crate::packet::{Channel, ChannelPerms, ChannelView, RemoteProfile, RemoteProfileView, SwitchChannelResponse};
use crate::protocol::UserUuid;
use vstd::pervasive::VecAdditionalExecFns;
use vstd::prelude::*;
use vstd::string::StringExecFns;

verus! {

/// `i` is the first position in `s` that holds `u`.
pub open spec fn is_first_user(s: Seq<UserUuid>, u: UserUuid, i: int) -> bool {
    0 <= i < s.len() && s[i] == u && forall|j: int| 0 <= j < i ==> s[j] != u
}

/// `i` is the first position in `s` that holds a profile of `u`.
pub open spec fn is_first_profile(s: Seq<RemoteProfileView>, u: UserUuid, i: int) -> bool {
    0 <= i < s.len() && s[i].uuid == u && forall|j: int| 0 <= j < i ==> s[j].uuid != u
}

/// `i` is the first position in `s` of a channel with the uuid `id`.
pub open spec fn is_first_channel(s: Seq<ChannelView>, id: u128, i: int) -> bool {
    0 <= i < s.len() && s[i].uuid == id && forall|j: int| 0 <= j < i ==> s[j].uuid != id
}

/// The channels as the specifications see them.
pub open spec fn channels_view(chs: Seq<Channel>) -> Seq<ChannelView> {
    chs.map_values(|c: Channel| c@)
}

/// No two channels share a uuid.
pub open spec fn unique_channels(chs: Seq<ChannelView>) -> bool {
    forall|i: int, j: int| 0 <= i < chs.len() && 0 <= j < chs.len() && i != j ==> chs[i].uuid != chs[j].uuid
}

/// The first position of `u` in a list of users.
pub fn find_user(clients: &Vec<UserUuid>, u: &UserUuid) -> (r: Option<usize>)
    ensures
        match r {
            Some(i) => is_first_user(clients@, *u, i as int),
            None => forall|j: int| 0 <= j < clients@.len() ==> clients@[j] != *u,
        },
{
    let mut i: usize = 0;
    while i < clients.len()
        invariant
            i <= clients@.len(),
            forall|j: int| 0 <= j < i ==> clients@[j] != *u,
        decreases clients.len() - i,
    {
        if clients[i] == *u {
            return Some(i);
        }
        i = i + 1;
    }
    None
}

/// The first position of a profile of `u` in a list of profiles.
pub fn find_profile(profiles: &Vec<RemoteProfile>, u: &UserUuid) -> (r: Option<usize>)
    ensures
        match r {
            Some(i) => is_first_profile(profiles@.map_values(|p: RemoteProfile| p@), *u, i as int),
            None => forall|j: int| 0 <= j < profiles@.len() ==> profiles@[j]@.uuid != *u,
        },
{
    let mut i: usize = 0;
    while i < profiles.len()
        invariant
            i <= profiles@.len(),
            forall|j: int| 0 <= j < i ==> profiles@[j]@.uuid != *u,
        decreases profiles.len() - i,
    {
        if profiles[i].uuid == *u {
            return Some(i);
        }
        i = i + 1;
    }
    None
}

/// The first position of a channel with the given uuid.
pub fn find_channel(channels: &Vec<Channel>, id: u128) -> (r: Option<usize>)
    ensures
        match r {
            Some(i) => is_first_channel(channels_view(channels@), id, i as int),
            None => forall|j: int| 0 <= j < channels@.len() ==> channels@[j]@.uuid != id,
        },
{
    let mut i: usize = 0;
    while i < channels.len()
        invariant
            i <= channels@.len(),
            forall|j: int| 0 <= j < i ==> channels@[j]@.uuid != id,
        decreases channels.len() - i,
    {
        if channels[i].uuid == id {
            return Some(i);
        }
        i = i + 1;
    }
    None
}

/// The first position of a channel with the given name.
pub fn find_channel_by_name(channels: &Vec<Channel>, name: &str) -> (r: Option<usize>)
    ensures
        match r {
            Some(i) => i < channels@.len() && channels@[i as int]@.name == name@ && forall|j: int|
                0 <= j < i ==> channels@[j]@.name != name@,
            None => forall|j: int| 0 <= j < channels@.len() ==> channels@[j]@.name != name@,
        },
{
    let wanted = String::from_str(name);
    let mut i: usize = 0;
    while i < channels.len()
        invariant
            i <= channels@.len(),
            wanted@ == name@,
            forall|j: int| 0 <= j < i ==> channels@[j]@.name != name@,
        decreases channels.len() - i,
    {
        if channels[i].name == wanted {
            return Some(i);
        }
        i = i + 1;
    }
    None
}

/// A channel with no one in it, used as a placeholder while a channel of a
/// list is being changed.
pub(crate) fn empty_channel() -> (r: Channel)
    ensures
        r@.uuid == 0,
        !r@.password,
        r@.name == Seq::<char>::empty(),
        r@.desc == Seq::<char>::empty(),
        r@.perms == (ChannelPerms { see: 0, join: 0, modify: 0, talk: 0, assign_talk: 0, delete: 0 }),
        r@.clients == Seq::<UserUuid>::empty(),
        r@.proto_clients == Seq::<RemoteProfileView>::empty(),
        r@.slots == 0,
        r@.sort_id == 0,
{
    Channel {
        uuid: 0,
        password: false,
        name: String::new(),
        desc: String::new(),
        perms: ChannelPerms { see: 0, join: 0, modify: 0, talk: 0, assign_talk: 0, delete: 0 },
        clients: Vec::new(),
        proto_clients: Vec::new(),
        slots: 0,
        sort_id: 0,
    }
}

/// The channel with user `u` taken out of it: their first entry in the list
/// of users and their first profile are removed.
pub open spec fn spec_without(c: ChannelView, u: UserUuid, ui: int, pi: int) -> ChannelView {
    ChannelView { clients: c.clients.remove(ui), proto_clients: c.proto_clients.remove(pi), ..c }
}

/// The channel with a user added at the end.
pub open spec fn spec_with(c: ChannelView, p: RemoteProfileView) -> ChannelView {
    ChannelView { clients: c.clients.push(p.uuid), proto_clients: c.proto_clients.push(p), ..c }
}

/// Whether user `u` is in the channel, as an entry and as a profile.
pub open spec fn is_member(c: ChannelView, u: UserUuid) -> bool {
    c.clients.contains(u) && exists|i: int| 0 <= i < c.proto_clients.len() && #[trigger] c.proto_clients[i].uuid == u
}

/// Takes user `u` out of a channel and returns their profile.
pub fn leave_channel(channel: &mut Channel, u: &UserUuid) -> (r: RemoteProfile)
    requires
        is_member(old(channel)@, *u),
    ensures
        exists|ui: int, pi: int| {
            &&& is_first_user(old(channel)@.clients, *u, ui)
            &&& is_first_profile(old(channel)@.proto_clients, *u, pi)
            &&& final(channel)@ == spec_without(old(channel)@, *u, ui, pi)
            &&& r@ == old(channel)@.proto_clients[pi]
        },
{
    let found_user = find_user(&channel.clients, u);
    proof {
        if found_user is None {
            let k = choose|k: int| 0 <= k < channel@.clients.len() && channel@.clients[k] == *u;
            assert(channel.clients@[k] == *u);
        }
    }
    let ui = found_user.unwrap();
    let found_profile = find_profile(&channel.proto_clients, u);
    proof {
        if found_profile is None {
            let k = choose|k: int| 0 <= k < channel@.proto_clients.len() && #[trigger] channel@.proto_clients[k].uuid == *u;
            assert(channel.proto_clients@[k]@.uuid == *u);
        }
    }
    let pi = found_profile.unwrap();
    let ghost before = channel@;
    channel.clients.remove(ui);
    let profile = channel.proto_clients.remove(pi);
    proof {
        assert(channel@.clients =~= before.clients.remove(ui as int));
        assert(channel@.proto_clients =~= before.proto_clients.remove(pi as int));
        assert(channel@ == spec_without(before, *u, ui as int, pi as int));
        assert(is_first_user(before.clients, *u, ui as int));
        assert(is_first_profile(before.proto_clients, *u, pi as int));
    }
    profile
}

/// Puts a user into a channel: their identity and their profile are appended.
pub fn join_channel(channel: &mut Channel, profile: RemoteProfile)
    ensures
        final(channel)@ == spec_with(old(channel)@, profile@),
{
    let uuid = profile.uuid;
    channel.clients.push(uuid);
    channel.proto_clients.push(profile);
    proof {
        assert(channel@.clients =~= old(channel)@.clients.push(profile@.uuid));
        assert(channel@.proto_clients =~= old(channel)@.proto_clients.push(profile@));
    }
}

/// The answer to a request of the user in channel `current` to switch to the
/// channel with uuid `target`, given their power to join channels: an unknown
/// target is invalid; switching to the channel one is in is refused; and the
/// user needs at least the join power that their current channel asks for.
pub open spec fn spec_switch_response(chs: Seq<ChannelView>, current: int, target: u128, join_power: u64) -> SwitchChannelResponse {
    if forall|j: int| 0 <= j < chs.len() ==> chs[j].uuid != target {
        SwitchChannelResponse::InvalidChannel
    } else if chs[current].uuid == target {
        SwitchChannelResponse::SameChannel
    } else if chs[current].perms.join > join_power {
        SwitchChannelResponse::NoPermissions
    } else {
        SwitchChannelResponse::Success
    }
}

/// Handles a user's request to switch channels. `current` is the position of
/// the user's channel. On success the user is moved (identity and profile)
/// from their channel to the end of the target channel's lists, and the
/// target's position is returned with the answer; otherwise nothing changes
/// and `current` is returned.
pub fn switch_channel(
    channels: &mut Vec<Channel>,
    current: usize,
    target: u128,
    user: &UserUuid,
    join_power: u64,
) -> (r: (SwitchChannelResponse, usize))
    requires
        current < old(channels)@.len(),
        is_member(old(channels)@[current as int]@, *user),
    ensures
        r.0 == spec_switch_response(channels_view(old(channels)@), current as int, target, join_power),
        r.0 == SwitchChannelResponse::Success ==> {
            &&& is_first_channel(channels_view(old(channels)@), target, r.1 as int)
            &&& r.1 != current
            &&& exists|ui: int, pi: int| {
                &&& is_first_user(old(channels)@[current as int]@.clients, *user, ui)
                &&& is_first_profile(old(channels)@[current as int]@.proto_clients, *user, pi)
                &&& channels_view(final(channels)@) == channels_view(old(channels)@)
                    .update(current as int, spec_without(old(channels)@[current as int]@, *user, ui, pi))
                    .update(r.1 as int, spec_with(old(channels)@[r.1 as int]@, old(channels)@[current as int]@.proto_clients[pi]))
            }
        },
        r.0 != SwitchChannelResponse::Success ==> final(channels)@ == old(channels)@ && r.1 == current,
{
    let t = match find_channel(channels, target) {
        Some(t) => t,
        None => {
            return (SwitchChannelResponse::InvalidChannel, current);
        },
    };
    assert(channels@[t as int]@.uuid == target);
    if channels[current].uuid == target {
        return (SwitchChannelResponse::SameChannel, current);
    }
    if channels[current].perms.join > join_power {
        return (SwitchChannelResponse::NoPermissions, current);
    }
    let ghost old_chs = channels@;
    let mut from = empty_channel();
    channels.set_and_swap(current, &mut from);
    let ghost from_before = from@;
    let profile = leave_channel(&mut from, user);
    let ghost (ui, pi) = choose|ui: int, pi: int| {
        &&& is_first_user(from_before.clients, *user, ui)
        &&& is_first_profile(from_before.proto_clients, *user, pi)
        &&& from@ == spec_without(from_before, *user, ui, pi)
        &&& profile@ == from_before.proto_clients[pi]
    };
    channels.set_and_swap(current, &mut from);
    let mut to = empty_channel();
    channels.set_and_swap(t, &mut to);
    let ghost to_before = to@;
    join_channel(&mut to, profile);
    channels.set_and_swap(t, &mut to);
    proof {
        assert(to_before == old_chs[t as int]@);
        assert(from_before == old_chs[current as int]@);
        assert(channels_view(channels@) =~= channels_view(old_chs).update(
            current as int,
            spec_without(old_chs[current as int]@, *user, ui, pi),
        ).update(t as int, spec_with(old_chs[t as int]@, old_chs[current as int]@.proto_clients[pi])));
    }
    (SwitchChannelResponse::Success, t)
}

/// Whether voice is also sent back to the user who spoke, so that a lone
/// user hears themselves.
pub const DEBUG_VOICE: bool = true;

/// How many times voice from `sender` is relayed: once for every user in
/// the channel, the sender only when `DEBUG_VOICE` is set.
pub open spec fn spec_relay_count(clients: Seq<UserUuid>, sender: UserUuid) -> nat
    decreases clients.len(),
{
    if clients.len() == 0 {
        0
    } else {
        spec_relay_count(clients.drop_last(), sender) + if clients.last() != sender || DEBUG_VOICE {
            1nat
        } else {
            0nat
        }
    }
}

/// How many times a chunk of voice from `sender` is relayed for the users
/// of `channel`.
pub fn voice_relay_count(channel: &Channel, sender: &UserUuid) -> (r: usize)
    ensures
        r == spec_relay_count(channel@.clients, *sender),
{
    let mut count: usize = 0;
    let mut i: usize = 0;
    while i < channel.clients.len()
        invariant
            i <= channel@.clients.len(),
            count == spec_relay_count(channel@.clients.take(i as int), *sender),
            count <= i,
        decreases channel.clients.len() - i,
    {
        proof {
            assert(channel@.clients.take(i + 1).drop_last() =~= channel@.clients.take(i as int));
        }
        if channel.clients[i] != *sender || DEBUG_VOICE {
            count = count + 1;
        }
        i = i + 1;
    }
    proof {
        assert(channel@.clients.take(i as int) =~= channel@.clients);
    }
    count
}

} // verus!
