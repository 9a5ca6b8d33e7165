//! What a client knows about the server it is connected to, and how each
//! packet from the server changes that knowledge.
//!
//! The users of a channel and the users the client knows of are kept in
//! lists in which no user occurs twice; adding a user who is already listed
//! replaces their entry in place, as inserting into a map would.
use crate::channels::find_profile;
use crate::packet::{
    AuthFailure, AuthFailureView, AuthResponse, AuthResponseView, BanDuration, BanDurationView, Channel,
    ChannelPerms, ChannelSubClientUpdate, ChannelSubUpdate, ChannelSubUpdateView, ChannelUpdate,
    ChannelUpdateView, ChannelView, RemoteProfile, RemoteProfileView, ServerGroup, ServerGroupView,
    ServerPacket, ServerPacketView,
};
use crate::protocol::{duration_as_secs, UserUuid, Word256};
use crate::server_state::{spec_try_set_connected, ConnectionPhase, ServerState};
use std::collections::HashMap;
use vstd::pervasive::VecAdditionalExecFns;
use vstd::prelude::*;
use vstd::string::StringExecFns;

verus! {

broadcast use vstd::std_specs::hash::group_hash_axioms;

// ---------------------------------------------------------------------------
// Lists of users without repetitions
// ---------------------------------------------------------------------------

/// An entry of a list that is looked up by a key.
pub trait Keyed {
    type Key;

    /// What the entry is looked up by.
    spec fn key(self) -> Self::Key;
}

impl Keyed for RemoteProfileView {
    type Key = UserUuid;

    open spec fn key(self) -> UserUuid {
        self.uuid
    }
}

/// No two entries of `s` have the same key.
pub open spec fn keys_unique<T: Keyed>(s: Seq<T>) -> bool {
    forall|i: int, j: int| 0 <= i < s.len() && 0 <= j < s.len() && i != j ==> s[i].key() != s[j].key()
}

/// `s` has an entry with key `u`.
pub open spec fn has_key<T: Keyed>(s: Seq<T>, u: T::Key) -> bool {
    exists|i: int| 0 <= i < s.len() && #[trigger] s[i].key() == u
}

/// The position of an entry with key `u` in `s`.
pub open spec fn pos_of<T: Keyed>(s: Seq<T>, u: T::Key) -> int {
    choose|i: int| 0 <= i < s.len() && #[trigger] s[i].key() == u
}

/// `s` with `x` put in: in place of the entry with the same key, or at the
/// end when there is none.
pub open spec fn upsert<T: Keyed>(s: Seq<T>, x: T) -> Seq<T> {
    if has_key(s, x.key()) {
        s.update(pos_of(s, x.key()), x)
    } else {
        s.push(x)
    }
}

/// `s` without its entry with key `u`.
pub open spec fn remove_key<T: Keyed>(s: Seq<T>, u: T::Key) -> Seq<T> {
    if has_key(s, u) {
        s.remove(pos_of(s, u))
    } else {
        s
    }
}

/// `s` with every entry of `xs` put in, one after the other.
pub open spec fn upsert_all<T: Keyed>(s: Seq<T>, xs: Seq<T>) -> Seq<T>
    decreases xs.len(),
{
    if xs.len() == 0 {
        s
    } else {
        upsert(upsert_all(s, xs.drop_last()), xs.last())
    }
}

/// In a list without repeated keys, the entry with a key is the one found at
/// any position that has it.
pub proof fn lemma_pos_of_unique<T: Keyed>(s: Seq<T>, i: int)
    requires
        keys_unique(s),
        0 <= i < s.len(),
    ensures
        has_key(s, s[i].key()),
        pos_of(s, s[i].key()) == i,
{
    assert(s[i].key() == s[i].key());
    let p = pos_of(s, s[i].key());
    assert(0 <= p < s.len() && s[p].key() == s[i].key());
}

/// Putting an entry in keeps the keys of a list distinct, and afterwards the
/// list has an entry with that key.
pub proof fn lemma_upsert_unique<T: Keyed>(s: Seq<T>, x: T)
    requires
        keys_unique(s),
    ensures
        keys_unique(upsert(s, x)),
        has_key(upsert(s, x), x.key()),
{
    let r = upsert(s, x);
    if has_key(s, x.key()) {
        let p = pos_of(s, x.key());
        assert(r[p].key() == x.key());
    } else {
        assert(r[s.len() as int].key() == x.key());
    }
}

/// Taking an entry out keeps the keys of a list distinct.
pub proof fn lemma_remove_unique<T: Keyed>(s: Seq<T>, u: T::Key)
    requires
        keys_unique(s),
    ensures
        keys_unique(remove_key(s, u)),
        !has_key(remove_key(s, u), u),
{
    if has_key(s, u) {
        let p = pos_of(s, u);
        let r = s.remove(p);
        assert forall|i: int, j: int| 0 <= i < r.len() && 0 <= j < r.len() && i != j implies r[i].key()
            != r[j].key() by {
            let si = if i < p { i } else { i + 1 };
            let sj = if j < p { j } else { j + 1 };
            assert(r[i] == s[si]);
            assert(r[j] == s[sj]);
        }
        if has_key(r, u) {
            let k = choose|k: int| 0 <= k < r.len() && #[trigger] r[k].key() == u;
            let sk = if k < p { k } else { k + 1 };
            assert(r[k] == s[sk]);
        }
    }
}

/// Putting in a list of entries keeps the keys of a list distinct.
pub proof fn lemma_upsert_all_unique<T: Keyed>(s: Seq<T>, xs: Seq<T>)
    requires
        keys_unique(s),
    ensures
        keys_unique(upsert_all(s, xs)),
    decreases xs.len(),
{
    if xs.len() > 0 {
        lemma_upsert_all_unique(s, xs.drop_last());
        lemma_upsert_unique(upsert_all(s, xs.drop_last()), xs.last());
    }
}

/// Puts a profile into a list of profiles without repetitions.
pub fn upsert_profile(list: &mut Vec<RemoteProfile>, p: RemoteProfile)
    requires
        keys_unique(old(list)@.map_values(|x: RemoteProfile| x@)),
    ensures
        final(list)@.map_values(|x: RemoteProfile| x@) == upsert(
            old(list)@.map_values(|x: RemoteProfile| x@),
            p@,
        ),
        keys_unique(final(list)@.map_values(|x: RemoteProfile| x@)),
{
    let ghost before = list@.map_values(|x: RemoteProfile| x@);
    let ghost pv = p@;
    proof {
        lemma_upsert_unique(before, pv);
    }
    match find_profile(list, &p.uuid) {
        Some(i) => {
            proof {
                lemma_pos_of_unique(before, i as int);
            }
            let mut p = p;
            list.set_and_swap(i, &mut p);
            proof {
                assert(list@.map_values(|x: RemoteProfile| x@) =~= before.update(i as int, pv));
            }
        },
        None => {
            proof {
                if has_key(before, pv.key()) {
                    let k = choose|k: int| 0 <= k < before.len() && #[trigger] before[k].key() == pv.key();
                    assert(list@[k]@.uuid == p.uuid);
                }
            }
            list.push(p);
            proof {
                assert(list@.map_values(|x: RemoteProfile| x@) =~= before.push(pv));
            }
        },
    }
}

/// Takes the profile of `u` out of a list of profiles without repetitions.
pub fn remove_profile(list: &mut Vec<RemoteProfile>, u: &UserUuid) -> (r: RemoteProfile)
    requires
        keys_unique(old(list)@.map_values(|x: RemoteProfile| x@)),
        has_key(old(list)@.map_values(|x: RemoteProfile| x@), *u),
    ensures
        final(list)@.map_values(|x: RemoteProfile| x@) == remove_key(
            old(list)@.map_values(|x: RemoteProfile| x@),
            *u,
        ),
        keys_unique(final(list)@.map_values(|x: RemoteProfile| x@)),
        r@ == old(list)@.map_values(|x: RemoteProfile| x@)[pos_of(
            old(list)@.map_values(|x: RemoteProfile| x@),
            *u,
        )],
{
    let ghost before = list@.map_values(|x: RemoteProfile| x@);
    proof {
        lemma_remove_unique(before, *u);
    }
    let found = find_profile(list, u);
    proof {
        if found is None {
            let k = choose|k: int| 0 <= k < before.len() && #[trigger] before[k].key() == *u;
            assert(list@[k]@.uuid == *u);
        }
    }
    let i = found.unwrap();
    proof {
        lemma_pos_of_unique(before, i as int);
    }
    let r = list.remove(i);
    proof {
        assert(list@.map_values(|x: RemoteProfile| x@) =~= before.remove(i as int));
    }
    r
}

// ---------------------------------------------------------------------------
// The users the client knows of, and the names of the channels
// ---------------------------------------------------------------------------

/// A user known to be on the server, and the channel they are in.
pub struct ConnectedRemoteProfile {
    pub name: String,
    pub uuid: UserUuid,
    pub server_groups: Vec<u128>,
    pub channel: u128,
}

/// What a `ConnectedRemoteProfile` holds, as plain values.
pub struct ConnectedRemoteProfileView {
    pub name: Seq<char>,
    pub uuid: UserUuid,
    pub server_groups: Seq<u128>,
    pub channel: u128,
}

impl View for ConnectedRemoteProfile {
    type V = ConnectedRemoteProfileView;

    open spec fn view(&self) -> ConnectedRemoteProfileView {
        ConnectedRemoteProfileView {
            name: self.name@,
            uuid: self.uuid,
            server_groups: self.server_groups@,
            channel: self.channel,
        }
    }
}

impl Keyed for ConnectedRemoteProfileView {
    type Key = UserUuid;

    open spec fn key(self) -> UserUuid {
        self.uuid
    }
}

/// A channel's name and the channel it names.
pub struct ChannelName {
    pub name: String,
    pub uuid: u128,
}

/// What a `ChannelName` holds, as plain values.
pub struct ChannelNameView {
    pub name: Seq<char>,
    pub uuid: u128,
}

impl View for ChannelName {
    type V = ChannelNameView;

    open spec fn view(&self) -> ChannelNameView {
        ChannelNameView { name: self.name@, uuid: self.uuid }
    }
}

impl Keyed for ChannelNameView {
    type Key = Seq<char>;

    open spec fn key(self) -> Seq<char> {
        self.name
    }
}

/// A user of a channel as a known user in that channel.
pub open spec fn connected_view(p: RemoteProfileView, channel: u128) -> ConnectedRemoteProfileView {
    ConnectedRemoteProfileView { name: p.name, uuid: p.uuid, server_groups: p.server_groups, channel }
}

/// A known user as the profile shown in a channel.
pub open spec fn profile_of(c: ConnectedRemoteProfileView) -> RemoteProfileView {
    RemoteProfileView { name: c.name, uuid: c.uuid, server_groups: c.server_groups }
}

/// A copy of a list of group identifiers.
fn copy_groups(v: &Vec<u128>) -> (r: Vec<u128>)
    ensures
        r@ == v@,
{
    let mut r: Vec<u128> = Vec::new();
    let mut i: usize = 0;
    while i < v.len()
        invariant
            i <= v@.len(),
            r@ == v@.take(i as int),
        decreases v.len() - i,
    {
        r.push(v[i]);
        proof {
            assert(v@.take(i as int + 1) =~= v@.take(i as int).push(v@[i as int]));
        }
        i = i + 1;
    }
    proof {
        assert(v@.take(v@.len() as int) =~= v@);
    }
    r
}

/// The first position of known user `u`.
fn find_connected(list: &Vec<ConnectedRemoteProfile>, u: &UserUuid) -> (r: Option<usize>)
    ensures
        match r {
            Some(i) => i < list@.len() && list@[i as int].uuid == *u,
            None => forall|j: int| 0 <= j < list@.len() ==> list@[j].uuid != *u,
        },
{
    let mut i: usize = 0;
    while i < list.len()
        invariant
            i <= list@.len(),
            forall|j: int| 0 <= j < i ==> list@[j].uuid != *u,
        decreases list.len() - i,
    {
        if list[i].uuid == *u {
            return Some(i);
        }
        i = i + 1;
    }
    None
}

/// Puts a known user into the list of known users.
pub fn upsert_connected(list: &mut Vec<ConnectedRemoteProfile>, c: ConnectedRemoteProfile)
    requires
        keys_unique(old(list)@.map_values(|x: ConnectedRemoteProfile| x@)),
    ensures
        final(list)@.map_values(|x: ConnectedRemoteProfile| x@) == upsert(
            old(list)@.map_values(|x: ConnectedRemoteProfile| x@),
            c@,
        ),
        keys_unique(final(list)@.map_values(|x: ConnectedRemoteProfile| x@)),
{
    let ghost before = list@.map_values(|x: ConnectedRemoteProfile| x@);
    let ghost cv = c@;
    proof {
        lemma_upsert_unique(before, cv);
    }
    match find_connected(list, &c.uuid) {
        Some(i) => {
            proof {
                lemma_pos_of_unique(before, i as int);
            }
            let mut c = c;
            list.set_and_swap(i, &mut c);
            proof {
                assert(list@.map_values(|x: ConnectedRemoteProfile| x@) =~= before.update(i as int, cv));
            }
        },
        None => {
            proof {
                if has_key(before, cv.key()) {
                    let k = choose|k: int| 0 <= k < before.len() && #[trigger] before[k].key() == cv.key();
                    assert(list@[k]@.uuid == c.uuid);
                }
            }
            list.push(c);
            proof {
                assert(list@.map_values(|x: ConnectedRemoteProfile| x@) =~= before.push(cv));
            }
        },
    }
}

/// Takes known user `u` out of the list of known users.
pub fn remove_connected(list: &mut Vec<ConnectedRemoteProfile>, u: &UserUuid) -> (r: ConnectedRemoteProfile)
    requires
        keys_unique(old(list)@.map_values(|x: ConnectedRemoteProfile| x@)),
        has_key(old(list)@.map_values(|x: ConnectedRemoteProfile| x@), *u),
    ensures
        final(list)@.map_values(|x: ConnectedRemoteProfile| x@) == remove_key(
            old(list)@.map_values(|x: ConnectedRemoteProfile| x@),
            *u,
        ),
        keys_unique(final(list)@.map_values(|x: ConnectedRemoteProfile| x@)),
        r@ == old(list)@.map_values(|x: ConnectedRemoteProfile| x@)[pos_of(
            old(list)@.map_values(|x: ConnectedRemoteProfile| x@),
            *u,
        )],
{
    let ghost before = list@.map_values(|x: ConnectedRemoteProfile| x@);
    proof {
        lemma_remove_unique(before, *u);
    }
    let found = find_connected(list, u);
    proof {
        if found is None {
            let k = choose|k: int| 0 <= k < before.len() && #[trigger] before[k].key() == *u;
            assert(list@[k]@.uuid == *u);
        }
    }
    let i = found.unwrap();
    proof {
        lemma_pos_of_unique(before, i as int);
    }
    let r = list.remove(i);
    proof {
        assert(list@.map_values(|x: ConnectedRemoteProfile| x@) =~= before.remove(i as int));
    }
    r
}

/// Sets the channel of known user `u`, and returns their profile.
fn move_connected(list: &mut Vec<ConnectedRemoteProfile>, u: &UserUuid, channel: u128) -> (r: RemoteProfile)
    requires
        keys_unique(old(list)@.map_values(|x: ConnectedRemoteProfile| x@)),
        has_key(old(list)@.map_values(|x: ConnectedRemoteProfile| x@), *u),
    ensures
        ({
            let before = old(list)@.map_values(|x: ConnectedRemoteProfile| x@);
            let e = before[pos_of(before, *u)];
            &&& final(list)@.map_values(|x: ConnectedRemoteProfile| x@) == before.update(
                pos_of(before, *u),
                ConnectedRemoteProfileView { channel, ..e },
            )
            &&& r@ == profile_of(e)
        }),
        keys_unique(final(list)@.map_values(|x: ConnectedRemoteProfile| x@)),
{
    let ghost before = list@.map_values(|x: ConnectedRemoteProfile| x@);
    let found = find_connected(list, u);
    proof {
        if found is None {
            let k = choose|k: int| 0 <= k < before.len() && #[trigger] before[k].key() == *u;
            assert(list@[k]@.uuid == *u);
        }
    }
    let i = found.unwrap();
    proof {
        lemma_pos_of_unique(before, i as int);
    }
    let mut e = ConnectedRemoteProfile {
        name: String::new(),
        uuid: UserUuid::from_u256(Word256 { low: 0, high: 0 }),
        server_groups: Vec::new(),
        channel: 0,
    };
    list.set_and_swap(i, &mut e);
    let profile = RemoteProfile { name: e.name.clone(), uuid: e.uuid, server_groups: copy_groups(&e.server_groups) };
    e.channel = channel;
    list.set_and_swap(i, &mut e);
    proof {
        let ev = before[i as int];
        assert(list@.map_values(|x: ConnectedRemoteProfile| x@) =~= before.update(
            i as int,
            ConnectedRemoteProfileView { channel, ..ev },
        ));
        let after = list@.map_values(|x: ConnectedRemoteProfile| x@);
        assert forall|a: int, b: int| 0 <= a < after.len() && 0 <= b < after.len() && a != b implies after[a].key()
            != after[b].key() by {
            assert(before[a].key() != before[b].key());
        }
    }
    profile
}

/// The first position of a channel name.
fn find_name(list: &Vec<ChannelName>, name: &String) -> (r: Option<usize>)
    ensures
        match r {
            Some(i) => i < list@.len() && list@[i as int].name@ == name@,
            None => forall|j: int| 0 <= j < list@.len() ==> list@[j].name@ != name@,
        },
{
    let mut i: usize = 0;
    while i < list.len()
        invariant
            i <= list@.len(),
            forall|j: int| 0 <= j < i ==> list@[j].name@ != name@,
        decreases list.len() - i,
    {
        if list[i].name == *name {
            return Some(i);
        }
        i = i + 1;
    }
    None
}

/// Records which channel a name belongs to.
pub fn upsert_name(list: &mut Vec<ChannelName>, n: ChannelName)
    requires
        keys_unique(old(list)@.map_values(|x: ChannelName| x@)),
    ensures
        final(list)@.map_values(|x: ChannelName| x@) == upsert(old(list)@.map_values(|x: ChannelName| x@), n@),
        keys_unique(final(list)@.map_values(|x: ChannelName| x@)),
{
    let ghost before = list@.map_values(|x: ChannelName| x@);
    let ghost nv = n@;
    proof {
        lemma_upsert_unique(before, nv);
    }
    match find_name(list, &n.name) {
        Some(i) => {
            proof {
                lemma_pos_of_unique(before, i as int);
            }
            let mut n = n;
            list.set_and_swap(i, &mut n);
            proof {
                assert(list@.map_values(|x: ChannelName| x@) =~= before.update(i as int, nv));
            }
        },
        None => {
            proof {
                if has_key(before, nv.key()) {
                    let k = choose|k: int| 0 <= k < before.len() && #[trigger] before[k].key() == nv.key();
                    assert(list@[k]@.name == n.name@);
                }
            }
            list.push(n);
            proof {
                assert(list@.map_values(|x: ChannelName| x@) =~= before.push(nv));
            }
        },
    }
}

// ---------------------------------------------------------------------------
// Messages to the user
// ---------------------------------------------------------------------------

/// The character of a decimal digit.
pub open spec fn digit_char(d: int) -> char {
    if d == 0 {
        '0'
    } else if d == 1 {
        '1'
    } else if d == 2 {
        '2'
    } else if d == 3 {
        '3'
    } else if d == 4 {
        '4'
    } else if d == 5 {
        '5'
    } else if d == 6 {
        '6'
    } else if d == 7 {
        '7'
    } else if d == 8 {
        '8'
    } else {
        '9'
    }
}

/// A number written in decimal, without leading zeros.
pub open spec fn spec_decimal(n: nat) -> Seq<char>
    decreases n,
{
    if n < 10 {
        seq![digit_char(n as int)]
    } else {
        spec_decimal(n / 10).push(digit_char((n % 10) as int))
    }
}

/// `String::push`: appends one character.
#[verifier::external_body]
fn push_char(s: &mut String, c: char)
    ensures
        final(s)@ == old(s)@.push(c),
{
    s.push(c);
}

/// The character of decimal digit `d`.
fn digit(d: u64) -> (c: char)
    requires
        d < 10,
    ensures
        c == digit_char(d as int),
{
    if d == 0 {
        '0'
    } else if d == 1 {
        '1'
    } else if d == 2 {
        '2'
    } else if d == 3 {
        '3'
    } else if d == 4 {
        '4'
    } else if d == 5 {
        '5'
    } else if d == 6 {
        '6'
    } else if d == 7 {
        '7'
    } else if d == 8 {
        '8'
    } else {
        '9'
    }
}

/// Appends `n` written in decimal.
pub fn push_decimal(s: &mut String, n: u64)
    ensures
        final(s)@ == old(s)@ + spec_decimal(n as nat),
    decreases n,
{
    if n >= 10 {
        push_decimal(s, n / 10);
    }
    push_char(s, digit(n % 10));
    proof {
        assert(old(s)@ + spec_decimal(n as nat) =~= if n >= 10 {
            (old(s)@ + spec_decimal((n / 10) as nat)).push(digit_char((n % 10) as int))
        } else {
            old(s)@.push(digit_char(n as int))
        });
    }
}

/// `n` followed by a unit, or nothing when `n` is zero.
pub open spec fn amount_text(n: nat, unit: Seq<char>) -> Seq<char> {
    if n > 0 {
        spec_decimal(n) + unit
    } else {
        Seq::empty()
    }
}

/// A span of seconds as years, days, hours, minutes and seconds (a year
/// being 365 days), each part that is not zero written as a number and its
/// unit, the seconds first and with nothing between the parts.
pub open spec fn span_text(secs: nat) -> Seq<char> {
    amount_text(secs % 60, " seconds"@) + amount_text(secs % 3600 / 60, " minutes"@) + amount_text(
        secs % 86400 / 3600,
        " hours"@,
    ) + amount_text(secs % 31536000 / 86400, " days"@) + amount_text(secs / 31536000, " years"@)
}

/// How long a ban lasts, in words.
pub open spec fn ban_duration_text(d: BanDurationView) -> Seq<char> {
    match d {
        BanDurationView::Permanent => "permanent"@,
        BanDurationView::Temporary(t) => span_text(t.0 as nat),
    }
}

/// What the user is told when the server refuses them. There is no message
/// for an outdated protocol version: that refusal is not handled.
pub open spec fn failure_text(f: AuthFailureView) -> Seq<char> {
    match f {
        AuthFailureView::Banned { reason, duration } => "You are banned reason: "@ + reason + " for "@
            + ban_duration_text(duration),
        AuthFailureView::ReqSec(level) => "This server requires a security level of "@ + spec_decimal(
            level as nat,
        ),
        AuthFailureView::OutOfDate(_) => Seq::empty(),
        AuthFailureView::AlreadyOnline => "You are already online"@,
        AuthFailureView::Invalid(reason) => reason,
    }
}

/// Appends `n` and `unit` when `n` is not zero.
fn push_amount(s: &mut String, n: u64, unit: &str)
    ensures
        final(s)@ == old(s)@ + amount_text(n as nat, unit@),
{
    if n > 0 {
        push_decimal(s, n);
        s.append(unit);
        proof {
            assert(old(s)@ + amount_text(n as nat, unit@) =~= old(s)@ + spec_decimal(n as nat) + unit@);
        }
    } else {
        proof {
            assert(old(s)@ + amount_text(n as nat, unit@) =~= old(s)@);
        }
    }
}

/// Appends a span of seconds in words.
fn push_span(s: &mut String, secs: u64)
    ensures
        final(s)@ == old(s)@ + span_text(secs as nat),
{
    push_amount(s, secs % 60, " seconds");
    push_amount(s, secs % 3600 / 60, " minutes");
    push_amount(s, secs % 86400 / 3600, " hours");
    push_amount(s, secs % 31536000 / 86400, " days");
    push_amount(s, secs / 31536000, " years");
    proof {
        assert(old(s)@ + span_text(secs as nat) =~= old(s)@ + amount_text((secs % 60) as nat, " seconds"@)
            + amount_text((secs % 3600 / 60) as nat, " minutes"@) + amount_text(
            (secs % 86400 / 3600) as nat,
            " hours"@,
        ) + amount_text((secs % 31536000 / 86400) as nat, " days"@) + amount_text(
            (secs / 31536000) as nat,
            " years"@,
        ));
    }
}

/// The message for a refused authentication.
pub fn failure_message(f: AuthFailure) -> (r: String)
    requires
        !(f is OutOfDate),
    ensures
        r@ == failure_text(f@),
{
    match f {
        AuthFailure::Banned { reason, duration } => {
            let mut s = String::from_str("You are banned reason: ");
            s.append(reason.as_str());
            s.append(" for ");
            match duration {
                BanDuration::Permanent => {
                    s.append("permanent");
                },
                BanDuration::Temporary(t) => {
                    let secs = duration_as_secs(&t);
                    push_span(&mut s, secs);
                },
            }
            s
        },
        AuthFailure::ReqSec(level) => {
            let mut s = String::from_str("This server requires a security level of ");
            push_decimal(&mut s, level as u64);
            s
        },
        AuthFailure::AlreadyOnline => String::from_str("You are already online"),
        AuthFailure::Invalid(reason) => reason,
        AuthFailure::OutOfDate(_) => String::new(),
    }
}

// ---------------------------------------------------------------------------
// The client's picture of a server
// ---------------------------------------------------------------------------

/// What a client knows about the server it is connected to.
pub struct RemoteServer {
    /// The channels, by uuid.
    pub channels: HashMap<u128, Channel>,
    /// Which channel each name belongs to.
    pub channels_by_name: Vec<ChannelName>,
    /// The channel new users are put into, once the server has named it.
    pub default_channel: Option<u128>,
    /// The server groups, by uuid.
    pub groups: HashMap<u128, ServerGroup>,
    /// The users known to be on the server.
    pub clients: Vec<ConnectedRemoteProfile>,
    /// The phase of the connection.
    pub state: ServerState,
}

/// What a `RemoteServer` holds, as plain values.
pub struct RemoteServerView {
    pub channels: Map<u128, ChannelView>,
    pub channels_by_name: Seq<ChannelNameView>,
    pub default_channel: Option<u128>,
    pub groups: Map<u128, ServerGroupView>,
    pub clients: Seq<ConnectedRemoteProfileView>,
    pub phase: ConnectionPhase,
}

impl View for RemoteServer {
    type V = RemoteServerView;

    open spec fn view(&self) -> RemoteServerView {
        RemoteServerView {
            channels: self.channels@.map_values(|c: Channel| c@),
            channels_by_name: self.channels_by_name@.map_values(|n: ChannelName| n@),
            default_channel: self.default_channel,
            groups: self.groups@.map_values(|g: ServerGroup| g@),
            clients: self.clients@.map_values(|c: ConnectedRemoteProfile| c@),
            phase: self.state@,
        }
    }
}

/// No user is listed twice among the known users or among the users of a
/// channel, and no channel name is listed twice.
pub open spec fn model_wf(m: RemoteServerView) -> bool {
    &&& keys_unique(m.clients)
    &&& keys_unique(m.channels_by_name)
    &&& forall|k: u128| #[trigger] m.channels.contains_key(k) ==> keys_unique(m.channels[k].proto_clients)
}

/// A channel as the client keeps it: a user listed twice is kept once, with
/// the later of their profiles.
pub open spec fn normalized(c: ChannelView) -> ChannelView {
    ChannelView { proto_clients: upsert_all(Seq::empty(), c.proto_clients), ..c }
}

/// The known users after learning that the users `members` are in `channel`.
pub open spec fn absorb_members(
    clients: Seq<ConnectedRemoteProfileView>,
    members: Seq<RemoteProfileView>,
    channel: u128,
) -> Seq<ConnectedRemoteProfileView>
    decreases members.len(),
{
    if members.len() == 0 {
        clients
    } else {
        upsert(absorb_members(clients, members.drop_last(), channel), connected_view(members.last(), channel))
    }
}

/// The channels, channel names and known users after taking in the channels
/// `chs` of a successful authentication, one after the other.
pub open spec fn absorb_channels(
    channels: Map<u128, ChannelView>,
    names: Seq<ChannelNameView>,
    clients: Seq<ConnectedRemoteProfileView>,
    chs: Seq<ChannelView>,
) -> (Map<u128, ChannelView>, Seq<ChannelNameView>, Seq<ConnectedRemoteProfileView>)
    decreases chs.len(),
{
    if chs.len() == 0 {
        (channels, names, clients)
    } else {
        let prev = absorb_channels(channels, names, clients, chs.drop_last());
        let c = chs.last();
        (
            prev.0.insert(c.uuid, normalized(c)),
            upsert(prev.1, ChannelNameView { name: c.name, uuid: c.uuid }),
            absorb_members(prev.2, c.proto_clients, c.uuid),
        )
    }
}

/// The server groups after taking in `gs`, one after the other.
pub open spec fn absorb_groups(groups: Map<u128, ServerGroupView>, gs: Seq<ServerGroupView>) -> Map<
    u128,
    ServerGroupView,
>
    decreases gs.len(),
{
    if gs.len() == 0 {
        groups
    } else {
        absorb_groups(groups, gs.drop_last()).insert(gs.last().uuid, gs.last())
    }
}

/// What the client tells its user after a packet.
pub enum UiEvent {
    /// The server accepted the client.
    ServerConnected,
    /// Something went wrong; the text says what.
    Error(String),
    /// A user is now in a channel.
    ChannelAddUser(u128, RemoteProfile),
    /// A user left a channel.
    ChannelRemoveUser(u128, UserUuid),
}

/// What a `UiEvent` holds, as plain values.
pub enum UiEventView {
    ServerConnected,
    Error(Seq<char>),
    ChannelAddUser(u128, RemoteProfileView),
    ChannelRemoveUser(u128, UserUuid),
}

impl View for UiEvent {
    type V = UiEventView;

    open spec fn view(&self) -> UiEventView {
        match *self {
            UiEvent::ServerConnected => UiEventView::ServerConnected,
            UiEvent::Error(s) => UiEventView::Error(s@),
            UiEvent::ChannelAddUser(c, p) => UiEventView::ChannelAddUser(c, p@),
            UiEvent::ChannelRemoveUser(c, u) => UiEventView::ChannelRemoveUser(c, u),
        }
    }
}

/// An optional event as plain values.
pub open spec fn event_view(e: Option<UiEvent>) -> Option<UiEventView> {
    match e {
        Some(e) => Some(e@),
        None => None,
    }
}

/// The packets a client can take in its current state: a second
/// acceptance, a refusal for an outdated protocol version, and packets that
/// name a channel or user the client does not know (or, to remove a user
/// from a channel, one not in it) are not handled.
pub open spec fn accepts(m: RemoteServerView, p: ServerPacketView) -> bool {
    match p {
        ServerPacketView::AuthResponse(AuthResponseView::Success { .. }) => m.default_channel is None,
        ServerPacketView::AuthResponse(AuthResponseView::Failure(f)) => !(f is OutOfDate),
        ServerPacketView::ChannelUpdate(ChannelUpdateView::SubUpdate { channel, update }) => {
            &&& m.channels.contains_key(channel)
            &&& match update {
                ChannelSubUpdateView::Client(ChannelSubClientUpdate::Add(u)) => has_key(m.clients, u),
                ChannelSubUpdateView::Client(ChannelSubClientUpdate::Remove(u)) => has_key(
                    m.channels[channel].proto_clients,
                    u,
                ),
                _ => true,
            }
        },
        ServerPacketView::ClientConnected(_) => m.default_channel is Some && m.channels.contains_key(
            m.default_channel->Some_0,
        ),
        ServerPacketView::ClientDisconnected(p) => has_key(m.clients, p.uuid) && m.channels.contains_key(
            m.clients[pos_of(m.clients, p.uuid)].channel,
        ),
        _ => true,
    }
}

/// `m` with the channel `id` changed to `c`.
pub open spec fn with_channel(m: RemoteServerView, id: u128, c: ChannelView) -> RemoteServerView {
    RemoteServerView { channels: m.channels.insert(id, c), ..m }
}

/// `m` with profile `p` put into the users of channel `id`.
pub open spec fn with_member(m: RemoteServerView, id: u128, p: RemoteProfileView) -> RemoteServerView {
    with_channel(m, id, ChannelView { proto_clients: upsert(m.channels[id].proto_clients, p), ..m.channels[id] })
}

/// The client's knowledge after packet `p`, and what the user is told.
///
/// A successful authentication replaces the channels and channel names by
/// those sent, adds the users in them to the known users, adds the server
/// groups, records the default channel and marks the connection as
/// connected. A refusal is reported. Channel updates create, change or
/// delete a channel; a user added to a channel is moved there among the
/// known users (without being taken out of the channel they were listed
/// in). A connecting user is put into the default channel; for a
/// disconnecting user the known user is dropped and the profile sent is put
/// into the channel that user was in, and the user is reported as leaving
/// it. Other packets change nothing.
pub open spec fn spec_handle(m: RemoteServerView, p: ServerPacketView) -> (RemoteServerView, Option<UiEventView>) {
    match p {
        ServerPacketView::AuthResponse(AuthResponseView::Success { default_channel_id, server_groups, channels, .. }) => {
            let a = absorb_channels(Map::empty(), Seq::empty(), m.clients, channels);
            (
                RemoteServerView {
                    channels: a.0,
                    channels_by_name: a.1,
                    default_channel: Some(default_channel_id),
                    groups: absorb_groups(m.groups, server_groups),
                    clients: a.2,
                    phase: spec_try_set_connected(m.phase).1,
                },
                Some(UiEventView::ServerConnected),
            )
        },
        ServerPacketView::AuthResponse(AuthResponseView::Failure(f)) => (m, Some(UiEventView::Error(failure_text(f)))),
        ServerPacketView::ChannelUpdate(ChannelUpdateView::Create(c)) => (with_channel(m, c.uuid, normalized(c)), None),
        ServerPacketView::ChannelUpdate(ChannelUpdateView::Delete(id)) => (
            RemoteServerView { channels: m.channels.remove(id), ..m },
            None,
        ),
        ServerPacketView::ChannelUpdate(ChannelUpdateView::SubUpdate { channel, update }) => {
            let c = m.channels[channel];
            match update {
                ChannelSubUpdateView::Name(name) => (with_channel(m, channel, ChannelView { name, ..c }), None),
                ChannelSubUpdateView::Desc(desc) => (with_channel(m, channel, ChannelView { desc, ..c }), None),
                ChannelSubUpdateView::Perms(perms) => (with_channel(m, channel, ChannelView { perms, ..c }), None),
                ChannelSubUpdateView::Client(ChannelSubClientUpdate::Add(u)) => {
                    let i = pos_of(m.clients, u);
                    let e = m.clients[i];
                    let moved = RemoteServerView {
                        clients: m.clients.update(i, ConnectedRemoteProfileView { channel, ..e }),
                        ..m
                    };
                    (with_member(moved, channel, profile_of(e)), Some(UiEventView::ChannelAddUser(channel, profile_of(e))))
                },
                ChannelSubUpdateView::Client(ChannelSubClientUpdate::Remove(u)) => (
                    with_channel(m, channel, ChannelView { proto_clients: remove_key(c.proto_clients, u), ..c }),
                    Some(UiEventView::ChannelRemoveUser(channel, u)),
                ),
            }
        },
        ServerPacketView::ClientConnected(prof) => {
            let d = m.default_channel->Some_0;
            let joined = RemoteServerView { clients: upsert(m.clients, connected_view(prof, d)), ..m };
            (with_member(joined, d, prof), Some(UiEventView::ChannelAddUser(d, prof)))
        },
        ServerPacketView::ClientDisconnected(prof) => {
            let e = m.clients[pos_of(m.clients, prof.uuid)];
            let left = RemoteServerView { clients: remove_key(m.clients, prof.uuid), ..m };
            (with_member(left, e.channel, prof), Some(UiEventView::ChannelRemoveUser(e.channel, e.uuid)))
        },
        _ => (m, None),
    }
}

/// A profile with no name, no groups and the all-zero identity, used as a
/// placeholder while a list is being taken apart.
fn placeholder_profile() -> (r: RemoteProfile)
    ensures
        r@.name == Seq::<char>::empty(),
        r@.uuid.value() == (Word256 { low: 0, high: 0 }),
        r@.server_groups == Seq::<u128>::empty(),
{
    RemoteProfile { name: String::new(), uuid: UserUuid::from_u256(Word256 { low: 0, high: 0 }), server_groups: Vec::new() }
}

/// A copy of a profile.
pub fn copy_profile(p: &RemoteProfile) -> (r: RemoteProfile)
    ensures
        r@ == p@,
{
    RemoteProfile { name: p.name.clone(), uuid: p.uuid, server_groups: copy_groups(&p.server_groups) }
}

/// A list of profiles with each user kept once, with their later profile,
/// at the position of their first.
pub fn index_members(list: Vec<RemoteProfile>) -> (r: Vec<RemoteProfile>)
    ensures
        r@.map_values(|x: RemoteProfile| x@) == upsert_all(Seq::empty(), list@.map_values(|x: RemoteProfile| x@)),
        keys_unique(r@.map_values(|x: RemoteProfile| x@)),
{
    let ghost orig = list@.map_values(|x: RemoteProfile| x@);
    let mut list = list;
    let mut out: Vec<RemoteProfile> = Vec::new();
    let mut i: usize = 0;
    proof {
        assert(orig.take(0) =~= Seq::<RemoteProfileView>::empty());
        assert(out@.map_values(|x: RemoteProfile| x@) =~= Seq::<RemoteProfileView>::empty());
    }
    while i < list.len()
        invariant
            i <= list@.len(),
            list@.len() == orig.len(),
            forall|j: int| i <= j < orig.len() ==> #[trigger] list@[j]@ == orig[j],
            out@.map_values(|x: RemoteProfile| x@) == upsert_all(Seq::<RemoteProfileView>::empty(), orig.take(i as int)),
            keys_unique(out@.map_values(|x: RemoteProfile| x@)),
        decreases list.len() - i,
    {
        let mut p = placeholder_profile();
        list.set_and_swap(i, &mut p);
        proof {
            assert(p@ == orig[i as int]);
            assert(orig.take(i as int + 1).drop_last() =~= orig.take(i as int));
            assert(orig.take(i as int + 1).last() == orig[i as int]);
        }
        upsert_profile(&mut out, p);
        i = i + 1;
    }
    proof {
        assert(orig.take(orig.len() as int) =~= orig);
    }
    out
}

/// A channel as the client keeps it.
pub fn normalize(c: Channel) -> (r: Channel)
    ensures
        r@ == normalized(c@),
        keys_unique(r@.proto_clients),
{
    let Channel { uuid, password, name, desc, perms, clients, proto_clients, slots, sort_id } = c;
    let proto_clients = index_members(proto_clients);
    Channel { uuid, password, name, desc, perms, clients, proto_clients, slots, sort_id }
}

/// Adds to the known users the users `members` of channel `channel`.
fn absorb_members_exec(clients: &mut Vec<ConnectedRemoteProfile>, members: &Vec<RemoteProfile>, channel: u128)
    requires
        keys_unique(old(clients)@.map_values(|x: ConnectedRemoteProfile| x@)),
    ensures
        final(clients)@.map_values(|x: ConnectedRemoteProfile| x@) == absorb_members(
            old(clients)@.map_values(|x: ConnectedRemoteProfile| x@),
            members@.map_values(|x: RemoteProfile| x@),
            channel,
        ),
        keys_unique(final(clients)@.map_values(|x: ConnectedRemoteProfile| x@)),
{
    let ghost start = clients@.map_values(|x: ConnectedRemoteProfile| x@);
    let ghost ms = members@.map_values(|x: RemoteProfile| x@);
    let mut j: usize = 0;
    proof {
        assert(ms.take(0) =~= Seq::<RemoteProfileView>::empty());
    }
    while j < members.len()
        invariant
            j <= members@.len(),
            ms == members@.map_values(|x: RemoteProfile| x@),
            clients@.map_values(|x: ConnectedRemoteProfile| x@) == absorb_members(start, ms.take(j as int), channel),
            keys_unique(clients@.map_values(|x: ConnectedRemoteProfile| x@)),
        decreases members.len() - j,
    {
        let p = &members[j];
        let conn = ConnectedRemoteProfile {
            name: p.name.clone(),
            uuid: p.uuid,
            server_groups: copy_groups(&p.server_groups),
            channel,
        };
        proof {
            assert(ms.take(j as int + 1).drop_last() =~= ms.take(j as int));
            assert(ms.take(j as int + 1).last() == ms[j as int]);
            assert(conn@ == connected_view(ms[j as int], channel));
        }
        upsert_connected(clients, conn);
        j = j + 1;
    }
    proof {
        assert(ms.take(ms.len() as int) =~= ms);
    }
}

/// Takes in the channels of a successful authentication: returns the new
/// channels and channel names, and adds the users in them to `clients`.
fn absorb_channels_exec(clients: &mut Vec<ConnectedRemoteProfile>, chs: Vec<Channel>) -> (r: (
    HashMap<u128, Channel>,
    Vec<ChannelName>,
))
    requires
        keys_unique(old(clients)@.map_values(|x: ConnectedRemoteProfile| x@)),
    ensures
        ({
            let a = absorb_channels(
                Map::empty(),
                Seq::empty(),
                old(clients)@.map_values(|x: ConnectedRemoteProfile| x@),
                chs@.map_values(|c: Channel| c@),
            );
            &&& r.0@.map_values(|c: Channel| c@) == a.0
            &&& r.1@.map_values(|n: ChannelName| n@) == a.1
            &&& final(clients)@.map_values(|x: ConnectedRemoteProfile| x@) == a.2
        }),
        keys_unique(final(clients)@.map_values(|x: ConnectedRemoteProfile| x@)),
        keys_unique(r.1@.map_values(|n: ChannelName| n@)),
        forall|k: u128| #[trigger] r.0@.contains_key(k) ==> keys_unique(r.0@[k]@.proto_clients),
{
    let ghost start = clients@.map_values(|x: ConnectedRemoteProfile| x@);
    let ghost orig = chs@.map_values(|c: Channel| c@);
    let mut chs = chs;
    let mut map: HashMap<u128, Channel> = HashMap::new();
    let mut names: Vec<ChannelName> = Vec::new();
    let mut i: usize = 0;
    proof {
        assert(orig.take(0) =~= Seq::<ChannelView>::empty());
        assert(map@.map_values(|c: Channel| c@) =~= Map::<u128, ChannelView>::empty());
        assert(names@.map_values(|n: ChannelName| n@) =~= Seq::<ChannelNameView>::empty());
    }
    while i < chs.len()
        invariant
            i <= chs@.len(),
            chs@.len() == orig.len(),
            forall|j: int| i <= j < orig.len() ==> #[trigger] chs@[j]@ == orig[j],
            ({
                let a = absorb_channels(Map::empty(), Seq::empty(), start, orig.take(i as int));
                &&& map@.map_values(|c: Channel| c@) == a.0
                &&& names@.map_values(|n: ChannelName| n@) == a.1
                &&& clients@.map_values(|x: ConnectedRemoteProfile| x@) == a.2
            }),
            keys_unique(clients@.map_values(|x: ConnectedRemoteProfile| x@)),
            keys_unique(names@.map_values(|n: ChannelName| n@)),
            forall|k: u128| #[trigger] map@.contains_key(k) ==> keys_unique(map@[k]@.proto_clients),
        decreases chs.len() - i,
    {
        let mut c = crate::channels::empty_channel();
        chs.set_and_swap(i, &mut c);
        let ghost cv = c@;
        proof {
            assert(cv == orig[i as int]);
            assert(orig.take(i as int + 1).drop_last() =~= orig.take(i as int));
            assert(orig.take(i as int + 1).last() == orig[i as int]);
        }
        absorb_members_exec(clients, &c.proto_clients, c.uuid);
        upsert_name(&mut names, ChannelName { name: c.name.clone(), uuid: c.uuid });
        let uuid = c.uuid;
        let c = normalize(c);
        let ghost before = map@;
        map.insert(uuid, c);
        proof {
            assert(map@.map_values(|c: Channel| c@) =~= before.map_values(|c: Channel| c@).insert(uuid, normalized(cv)));
        }
        i = i + 1;
    }
    proof {
        assert(orig.take(orig.len() as int) =~= orig);
    }
    (map, names)
}

/// A server group with no name, used as a placeholder while a list is
/// being taken apart.
fn placeholder_group() -> (r: ServerGroup)
    ensures
        r.uuid == 0,
        r.name@ == Seq::<char>::empty(),
        r.priority == 0,
        r.perms == (crate::packet::PermsSnapshot {
            server_group_assign: 0,
            server_group_unassign: 0,
            channel_see: 0,
            channel_join: 0,
            channel_modify: 0,
            channel_talk: 0,
            channel_assign_talk: 0,
            channel_delete: 0,
            can_send: false,
            channel_create: crate::packet::ChannelCreatePerms {
                power: 0,
                set_desc: false,
                set_password: false,
                resort_channel: false,
            },
        }),
{
    ServerGroup {
        uuid: 0,
        name: String::new(),
        priority: 0,
        perms: crate::packet::PermsSnapshot {
            server_group_assign: 0,
            server_group_unassign: 0,
            channel_see: 0,
            channel_join: 0,
            channel_modify: 0,
            channel_talk: 0,
            channel_assign_talk: 0,
            channel_delete: 0,
            can_send: false,
            channel_create: crate::packet::ChannelCreatePerms {
                power: 0,
                set_desc: false,
                set_password: false,
                resort_channel: false,
            },
        },
    }
}

/// Adds server groups, one after the other.
fn absorb_groups_exec(groups: &mut HashMap<u128, ServerGroup>, gs: Vec<ServerGroup>)
    ensures
        final(groups)@.map_values(|g: ServerGroup| g@) == absorb_groups(
            old(groups)@.map_values(|g: ServerGroup| g@),
            gs@.map_values(|g: ServerGroup| g@),
        ),
{
    let ghost start = groups@.map_values(|g: ServerGroup| g@);
    let ghost orig = gs@.map_values(|g: ServerGroup| g@);
    let mut gs = gs;
    let mut i: usize = 0;
    proof {
        assert(orig.take(0) =~= Seq::<ServerGroupView>::empty());
    }
    while i < gs.len()
        invariant
            i <= gs@.len(),
            gs@.len() == orig.len(),
            forall|j: int| i <= j < orig.len() ==> #[trigger] gs@[j]@ == orig[j],
            groups@.map_values(|g: ServerGroup| g@) == absorb_groups(start, orig.take(i as int)),
        decreases gs.len() - i,
    {
        let mut g = placeholder_group();
        gs.set_and_swap(i, &mut g);
        let ghost gv = g@;
        proof {
            assert(gv == orig[i as int]);
            assert(orig.take(i as int + 1).drop_last() =~= orig.take(i as int));
            assert(orig.take(i as int + 1).last() == orig[i as int]);
        }
        let ghost before = groups@;
        let uuid = g.uuid;
        groups.insert(uuid, g);
        proof {
            assert(groups@.map_values(|g: ServerGroup| g@) =~= before.map_values(|g: ServerGroup| g@).insert(uuid, gv));
        }
        i = i + 1;
    }
    proof {
        assert(orig.take(orig.len() as int) =~= orig);
    }
}

impl RemoteServer {
    /// The invariant of the client's knowledge.
    pub open spec fn wf(&self) -> bool {
        model_wf(self@)
    }

    /// Nothing known yet, and a connection that has not started.
    pub fn new() -> (r: Self)
        ensures
            r.wf(),
            r@.channels == Map::<u128, ChannelView>::empty(),
            r@.channels_by_name == Seq::<ChannelNameView>::empty(),
            r@.default_channel is None,
            r@.groups == Map::<u128, ServerGroupView>::empty(),
            r@.clients == Seq::<ConnectedRemoteProfileView>::empty(),
            r@.phase == ConnectionPhase::Pending,
    {
        let r = RemoteServer {
            channels: HashMap::new(),
            channels_by_name: Vec::new(),
            default_channel: None,
            groups: HashMap::new(),
            clients: Vec::new(),
            state: ServerState::new(),
        };
        proof {
            assert(r@.channels =~= Map::<u128, ChannelView>::empty());
            assert(r@.channels_by_name =~= Seq::<ChannelNameView>::empty());
            assert(r@.groups =~= Map::<u128, ServerGroupView>::empty());
            assert(r@.clients =~= Seq::<ConnectedRemoteProfileView>::empty());
        }
        r
    }

    /// Takes channel `id` out of the map of channels.
    fn take_channel(&mut self, id: u128) -> (r: Channel)
        requires
            old(self)@.channels.contains_key(id),
        ensures
            r@ == old(self)@.channels[id],
            final(self)@ == (RemoteServerView { channels: old(self)@.channels.remove(id), ..old(self)@ }),
    {
        let ghost before = self.channels@;
        let r = self.channels.remove(&id);
        proof {
            assert(self@.channels =~= old(self)@.channels.remove(id));
        }
        r.unwrap()
    }

    /// Puts channel `c` back into the map of channels, under `id`.
    fn put_channel(&mut self, id: u128, c: Channel)
        ensures
            final(self)@ == with_channel(old(self)@, id, c@),
    {
        let ghost cv = c@;
        self.channels.insert(id, c);
        proof {
            assert(self@.channels =~= old(self)@.channels.insert(id, cv));
        }
    }

    /// Whether the client can take in packet `p` in its current state.
    pub fn accepts_packet(&self, p: &ServerPacket) -> (r: bool)
        requires
            self.wf(),
        ensures
            r == accepts(self@, p@),
    {
        match p {
            ServerPacket::AuthResponse(AuthResponse::Success { .. }) => self.default_channel.is_none(),
            ServerPacket::AuthResponse(AuthResponse::Failure(f)) => match f {
                AuthFailure::OutOfDate(_) => false,
                _ => true,
            },
            ServerPacket::ChannelUpdate(ChannelUpdate::SubUpdate { channel, update }) => {
                match self.channels.get(channel) {
                    None => false,
                    Some(c) => match update {
                        ChannelSubUpdate::Client(ChannelSubClientUpdate::Add(u)) => {
                            let found = find_connected(&self.clients, u);
                            proof {
                                if found is Some {
                                    assert(self@.clients[found->Some_0 as int].key() == *u);
                                }
                            }
                            found.is_some()
                        },
                        ChannelSubUpdate::Client(ChannelSubClientUpdate::Remove(u)) => {
                            let found = find_profile(&c.proto_clients, u);
                            proof {
                                if found is Some {
                                    assert(c@.proto_clients[found->Some_0 as int].key() == *u);
                                }
                            }
                            found.is_some()
                        },
                        _ => true,
                    },
                }
            },
            ServerPacket::ClientConnected(_) => match self.default_channel {
                Some(d) => self.channels.contains_key(&d),
                None => false,
            },
            ServerPacket::ClientDisconnected(prof) => match find_connected(&self.clients, &prof.uuid) {
                Some(i) => {
                    proof {
                        lemma_pos_of_unique(self@.clients, i as int);
                    }
                    self.channels.contains_key(&self.clients[i].channel)
                },
                None => false,
            },
            _ => true,
        }
    }

    /// Takes in a packet from the server, and returns what to tell the user.
    pub fn handle_packet(&mut self, packet: ServerPacket) -> (r: Option<UiEvent>)
        requires
            old(self).wf(),
            accepts(old(self)@, packet@),
        ensures
            final(self).wf(),
            (final(self)@, event_view(r)) == spec_handle(old(self)@, packet@),
    {
        let ghost m0 = self@;
        let ghost pv = packet@;
        match packet {
            ServerPacket::AuthResponse(AuthResponse::Success { default_channel_id, server_groups, own_groups, channels }) => {
                let (map, names) = absorb_channels_exec(&mut self.clients, channels);
                self.channels = map;
                self.channels_by_name = names;
                self.default_channel = Some(default_channel_id);
                absorb_groups_exec(&mut self.groups, server_groups);
                self.state.try_set_connected();
                proof {
                    assert(self@.channels == spec_handle(m0, pv).0.channels);
                    assert(self@.channels_by_name == spec_handle(m0, pv).0.channels_by_name);
                    assert(self@.clients == spec_handle(m0, pv).0.clients);
                    assert(self@.groups == spec_handle(m0, pv).0.groups);
                    assert(self@.phase == spec_handle(m0, pv).0.phase);
                    assert(self@ == spec_handle(m0, pv).0);
                }
                Some(UiEvent::ServerConnected)
            },
            ServerPacket::AuthResponse(AuthResponse::Failure(f)) => Some(UiEvent::Error(failure_message(f))),
            ServerPacket::ChannelUpdate(ChannelUpdate::Create(c)) => {
                let uuid = c.uuid;
                let c = normalize(c);
                self.put_channel(uuid, c);
                proof {
                    assert(self@.channels =~= spec_handle(m0, pv).0.channels);
                    assert(self@ == spec_handle(m0, pv).0);
                }
                None
            },
            ServerPacket::ChannelUpdate(ChannelUpdate::Delete(id)) => {
                let ghost before = self.channels@;
                self.channels.remove(&id);
                proof {
                    assert(self@.channels =~= old(self)@.channels.remove(id));
                    assert(self@ == spec_handle(m0, pv).0);
                }
                None
            },
            ServerPacket::ChannelUpdate(ChannelUpdate::SubUpdate { channel, update }) => {
                let mut c = self.take_channel(channel);
                match update {
                    ChannelSubUpdate::Name(name) => {
                        c.name = name;
                        self.put_channel(channel, c);
                        proof {
                            assert(self@.channels =~= spec_handle(m0, pv).0.channels);
                            assert(self@ == spec_handle(m0, pv).0);
                        }
                        None
                    },
                    ChannelSubUpdate::Desc(desc) => {
                        c.desc = desc;
                        self.put_channel(channel, c);
                        proof {
                            assert(self@.channels =~= spec_handle(m0, pv).0.channels);
                            assert(self@ == spec_handle(m0, pv).0);
                        }
                        None
                    },
                    ChannelSubUpdate::Perms(perms) => {
                        c.perms = perms;
                        self.put_channel(channel, c);
                        proof {
                            assert(self@.channels =~= spec_handle(m0, pv).0.channels);
                            assert(self@ == spec_handle(m0, pv).0);
                        }
                        None
                    },
                    ChannelSubUpdate::Client(ChannelSubClientUpdate::Add(u)) => {
                        let prof = move_connected(&mut self.clients, &u, channel);
                        let shown = copy_profile(&prof);
                        upsert_profile(&mut c.proto_clients, prof);
                        self.put_channel(channel, c);
                        proof {
                            assert(self@.channels =~= spec_handle(m0, pv).0.channels);
                            assert(self@.clients =~= spec_handle(m0, pv).0.clients);
                            assert(self@ == spec_handle(m0, pv).0);
                        }
                        Some(UiEvent::ChannelAddUser(channel, shown))
                    },
                    ChannelSubUpdate::Client(ChannelSubClientUpdate::Remove(u)) => {
                        remove_profile(&mut c.proto_clients, &u);
                        self.put_channel(channel, c);
                        proof {
                            assert(self@.channels =~= spec_handle(m0, pv).0.channels);
                            assert(self@ == spec_handle(m0, pv).0);
                        }
                        Some(UiEvent::ChannelRemoveUser(channel, u))
                    },
                }
            },
            ServerPacket::ClientConnected(prof) => {
                let d = self.default_channel.unwrap();
                let conn = ConnectedRemoteProfile {
                    name: prof.name.clone(),
                    uuid: prof.uuid,
                    server_groups: copy_groups(&prof.server_groups),
                    channel: d,
                };
                upsert_connected(&mut self.clients, conn);
                let shown = copy_profile(&prof);
                let mut c = self.take_channel(d);
                upsert_profile(&mut c.proto_clients, prof);
                self.put_channel(d, c);
                proof {
                    assert(self@.channels =~= spec_handle(m0, pv).0.channels);
                    assert(self@.clients =~= spec_handle(m0, pv).0.clients);
                    assert(self@ == spec_handle(m0, pv).0);
                }
                Some(UiEvent::ChannelAddUser(d, shown))
            },
            ServerPacket::ClientDisconnected(prof) => {
                let e = remove_connected(&mut self.clients, &prof.uuid);
                let mut c = self.take_channel(e.channel);
                upsert_profile(&mut c.proto_clients, prof);
                self.put_channel(e.channel, c);
                proof {
                    assert(self@.channels =~= spec_handle(m0, pv).0.channels);
                    assert(self@.clients =~= spec_handle(m0, pv).0.clients);
                    assert(self@ == spec_handle(m0, pv).0);
                }
                Some(UiEvent::ChannelRemoveUser(e.channel, e.uuid))
            },
            _ => None,
        }
    }
}

/// A channel's name, description or permissions sent by the server replace
/// the ones the client knew for that channel; every other property of that
/// channel, every other channel, the known users, groups, default channel
/// and connection phase stay as they were, and the user is told nothing.
pub proof fn lemma_channel_property_update(m: RemoteServerView, channel: u128, update: ChannelSubUpdateView)
    requires
        m.channels.contains_key(channel),
        !(update is Client),
    ensures
        ({
            let (n, event) = spec_handle(
                m,
                ServerPacketView::ChannelUpdate(ChannelUpdateView::SubUpdate { channel, update }),
            );
            let before = m.channels[channel];
            let after = n.channels[channel];
            &&& event is None
            &&& n.channels.dom() == m.channels.dom()
            &&& forall|k: u128| #![trigger n.channels[k]] k != channel && m.channels.contains_key(k) ==> n.channels[k] == m.channels[k]
            &&& n.clients == m.clients
            &&& n.groups == m.groups
            &&& n.channels_by_name == m.channels_by_name
            &&& n.default_channel == m.default_channel
            &&& n.phase == m.phase
            &&& after.uuid == before.uuid
            &&& after.password == before.password
            &&& after.clients == before.clients
            &&& after.proto_clients == before.proto_clients
            &&& after.slots == before.slots
            &&& after.sort_id == before.sort_id
            &&& (update matches ChannelSubUpdateView::Name(x) ==> after.name == x) && (!(update is Name) ==> after.name == before.name)
            &&& (update matches ChannelSubUpdateView::Desc(x) ==> after.desc == x) && (!(update is Desc) ==> after.desc == before.desc)
            &&& (update matches ChannelSubUpdateView::Perms(x) ==> after.perms == x) && (!(update is Perms) ==> after.perms == before.perms)
        }),
{
    let (n, event) = spec_handle(m, ServerPacketView::ChannelUpdate(ChannelUpdateView::SubUpdate { channel, update }));
    assert(n.channels.dom() =~= m.channels.dom());
}

} // verus!
