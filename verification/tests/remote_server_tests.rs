use rustspeak::packet::{
    AuthFailure, AuthResponse, BanDuration, Channel, ChannelPerms, ChannelSubClientUpdate, ChannelSubUpdate,
    ChannelUpdate, PermsSnapshot, RemoteProfile, ServerGroup, ServerPacket,
};
use rustspeak::protocol::{UserUuid, Word256};
use rustspeak::remote_server::{failure_message, index_members, push_decimal, RemoteServer, UiEvent};
use rustspeak::server_state::ConnectionPhase;
use std::time::Duration;

fn uuid(low: u128) -> UserUuid {
    UserUuid::from_u256(Word256 { low, high: 0 })
}

fn profile(name: &str, low: u128) -> RemoteProfile {
    RemoteProfile { name: name.to_string(), uuid: uuid(low), server_groups: vec![low as u128] }
}

fn channel(id: u128, name: &str, members: Vec<RemoteProfile>) -> Channel {
    Channel {
        uuid: id,
        password: false,
        name: name.to_string(),
        desc: String::new(),
        perms: ChannelPerms::default(),
        clients: vec![],
        proto_clients: members,
        slots: -1,
        sort_id: 0,
    }
}

fn group(id: u128, name: &str) -> ServerGroup {
    ServerGroup { uuid: id, name: name.to_string(), priority: 0, perms: PermsSnapshot::default() }
}

fn connected_server() -> RemoteServer {
    let mut s = RemoteServer::new();
    s.state.try_set_auth();
    let packet = ServerPacket::AuthResponse(AuthResponse::Success {
        default_channel_id: 0,
        server_groups: vec![group(1, "admin"), group(0, "default")],
        own_groups: vec![],
        channels: vec![
            channel(0, "Lobby", vec![profile("ann", 1), profile("bob", 2)]),
            channel(5, "Games", vec![profile("cid", 3)]),
        ],
    });
    assert!(s.accepts_packet(&packet));
    assert!(matches!(s.handle_packet(packet), Some(UiEvent::ServerConnected)));
    s
}

fn member_names(s: &RemoteServer, ch: u128) -> Vec<String> {
    s.channels[&ch].proto_clients.iter().map(|p| p.name.clone()).collect()
}

#[test]
fn decimal_numbers_have_no_leading_zeros() {
    let mut s = String::from("n=");
    push_decimal(&mut s, 0);
    push_decimal(&mut s, 1205);
    assert_eq!(s, "n=01205");
}

#[test]
fn members_keep_the_later_profile_of_a_user() {
    let list = index_members(vec![profile("ann", 1), profile("bob", 2), profile("ann2", 1)]);
    assert_eq!(list.iter().map(|p| p.name.as_str()).collect::<Vec<_>>(), vec!["ann2", "bob"]);
}

#[test]
fn successful_authentication_takes_in_channels_users_and_groups() {
    let s = connected_server();
    assert!(s.state.is_connected());
    assert_eq!(s.default_channel, Some(0));
    assert_eq!(s.channels.len(), 2);
    assert_eq!(member_names(&s, 0), vec!["ann", "bob"]);
    assert_eq!(s.groups.len(), 2);
    assert_eq!(s.groups[&1].name, "admin");
    assert_eq!(s.clients.len(), 3);
    let cid = s.clients.iter().find(|c| c.uuid == uuid(3)).unwrap();
    assert_eq!(cid.channel, 5);
    assert_eq!(s.channels_by_name.iter().map(|n| (n.name.as_str(), n.uuid)).collect::<Vec<_>>(), vec![("Lobby", 0), ("Games", 5)]);
}

#[test]
fn a_second_acceptance_is_not_taken() {
    let s = connected_server();
    let packet = ServerPacket::AuthResponse(AuthResponse::Success {
        default_channel_id: 0,
        server_groups: vec![],
        own_groups: vec![],
        channels: vec![],
    });
    assert!(!s.accepts_packet(&packet));
}

#[test]
fn refusals_are_reported_in_words() {
    let mut s = RemoteServer::new();
    match s.handle_packet(ServerPacket::AuthResponse(AuthResponse::Failure(AuthFailure::ReqSec(12)))) {
        Some(UiEvent::Error(text)) => assert_eq!(text, "This server requires a security level of 12"),
        _ => panic!("expected an error"),
    }
    assert_eq!(s.state.is_connected(), false);
}

#[test]
fn ban_durations_are_spelled_out() {
    let ban = AuthFailure::Banned {
        reason: String::from("spam"),
        duration: BanDuration::Temporary(Duration::new(31_536_000 + 2 * 86_400 + 3_661, 0)),
    };
    assert_eq!(failure_message(ban), "You are banned reason: spam for 1 seconds1 minutes1 hours2 days1 years");
    let permanent = AuthFailure::Banned { reason: String::from("x"), duration: BanDuration::Permanent };
    assert_eq!(failure_message(permanent), "You are banned reason: x for permanent");
    assert_eq!(failure_message(AuthFailure::AlreadyOnline), "You are already online");
    assert_eq!(failure_message(AuthFailure::Invalid(String::from("bad"))), "bad");
}

#[test]
fn outdated_protocol_refusal_is_not_taken() {
    let s = RemoteServer::new();
    assert!(!s.accepts_packet(&ServerPacket::AuthResponse(AuthResponse::Failure(AuthFailure::OutOfDate(2)))));
}

#[test]
fn channel_updates_change_the_channel() {
    let mut s = connected_server();
    s.handle_packet(ServerPacket::ChannelUpdate(ChannelUpdate::SubUpdate {
        channel: 5,
        update: ChannelSubUpdate::Name(String::from("Gaming")),
    }));
    assert_eq!(s.channels[&5].name, "Gaming");
    s.handle_packet(ServerPacket::ChannelUpdate(ChannelUpdate::Create(channel(9, "New", vec![]))));
    assert_eq!(s.channels.len(), 3);
    s.handle_packet(ServerPacket::ChannelUpdate(ChannelUpdate::Delete(9)));
    assert_eq!(s.channels.len(), 2);
    assert!(!s.accepts_packet(&ServerPacket::ChannelUpdate(ChannelUpdate::SubUpdate {
        channel: 9,
        update: ChannelSubUpdate::Desc(String::new()),
    })));
}

#[test]
fn adding_a_user_to_a_channel_moves_them() {
    let mut s = connected_server();
    let packet = ServerPacket::ChannelUpdate(ChannelUpdate::SubUpdate {
        channel: 5,
        update: ChannelSubUpdate::Client(ChannelSubClientUpdate::Add(uuid(1))),
    });
    assert!(s.accepts_packet(&packet));
    match s.handle_packet(packet) {
        Some(UiEvent::ChannelAddUser(5, p)) => assert_eq!(p.name, "ann"),
        _ => panic!("expected a user added"),
    }
    assert_eq!(member_names(&s, 5), vec!["cid", "ann"]);
    // the user is not taken out of the channel they were listed in
    assert_eq!(member_names(&s, 0), vec!["ann", "bob"]);
    assert_eq!(s.clients.iter().find(|c| c.uuid == uuid(1)).unwrap().channel, 5);
}

#[test]
fn removing_a_user_from_a_channel() {
    let mut s = connected_server();
    let packet = ServerPacket::ChannelUpdate(ChannelUpdate::SubUpdate {
        channel: 0,
        update: ChannelSubUpdate::Client(ChannelSubClientUpdate::Remove(uuid(2))),
    });
    match s.handle_packet(packet) {
        Some(UiEvent::ChannelRemoveUser(0, u)) => assert_eq!(u, uuid(2)),
        _ => panic!("expected a user removed"),
    }
    assert_eq!(member_names(&s, 0), vec!["ann"]);
    let again = ServerPacket::ChannelUpdate(ChannelUpdate::SubUpdate {
        channel: 0,
        update: ChannelSubUpdate::Client(ChannelSubClientUpdate::Remove(uuid(2))),
    });
    assert!(!s.accepts_packet(&again));
}

#[test]
fn connecting_users_join_the_default_channel() {
    let mut s = connected_server();
    match s.handle_packet(ServerPacket::ClientConnected(profile("dan", 4))) {
        Some(UiEvent::ChannelAddUser(0, p)) => assert_eq!(p.name, "dan"),
        _ => panic!("expected a user added"),
    }
    assert_eq!(member_names(&s, 0), vec!["ann", "bob", "dan"]);
    assert_eq!(s.clients.len(), 4);
}

#[test]
fn disconnecting_users_are_forgotten() {
    let mut s = connected_server();
    match s.handle_packet(ServerPacket::ClientDisconnected(profile("cid", 3))) {
        Some(UiEvent::ChannelRemoveUser(5, u)) => assert_eq!(u, uuid(3)),
        _ => panic!("expected a user removed"),
    }
    assert_eq!(s.clients.len(), 2);
    assert!(!s.accepts_packet(&ServerPacket::ClientDisconnected(profile("cid", 3))));
}

#[test]
fn packets_before_authentication_are_checked() {
    let s = RemoteServer::new();
    assert!(!s.accepts_packet(&ServerPacket::ClientConnected(profile("dan", 4))));
    assert!(s.accepts_packet(&ServerPacket::KeepAlive { id: 1, send_time: Duration::new(0, 0) }));
}

#[test]
fn fresh_view_is_pending() {
    let mut s = RemoteServer::new();
    assert_eq!(s.state.try_set_connected(), false);
    assert!(s.state.try_set_auth());
    let _ = ConnectionPhase::Pending;
}
