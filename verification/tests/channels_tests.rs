use rustspeak::channel_commands::{
    db_contains_id, delete_channel, fresh_channel_id, join_words, plan_channel_create, ChannelCommandError,
};
use rustspeak::channels::{find_channel, find_channel_by_name, join_channel, leave_channel, switch_channel};
use rustspeak::db::ChannelDbEntry;
use rustspeak::packet::{Channel, ChannelPerms, RemoteProfile, SwitchChannelResponse};
use rustspeak::protocol::{UserUuid, Word256};

fn uuid(low: u128) -> UserUuid {
    UserUuid::from_u256(Word256 { low, high: 0 })
}

fn profile(name: &str, low: u128) -> RemoteProfile {
    RemoteProfile { name: name.to_string(), uuid: uuid(low), server_groups: vec![] }
}

fn channel(id: u128, name: &str, join: u64) -> Channel {
    Channel {
        uuid: id,
        password: false,
        name: name.to_string(),
        desc: String::new(),
        perms: ChannelPerms { see: 0, join, modify: 100, talk: 0, assign_talk: 100, delete: 100 },
        clients: vec![],
        proto_clients: vec![],
        slots: -1,
        sort_id: 0,
    }
}

fn entry(id: u128, name: &str, sort_id: u16) -> ChannelDbEntry {
    ChannelDbEntry {
        id,
        sort_id,
        name: name.to_string(),
        desc: String::new(),
        password: None,
        user_groups: vec![],
        perms: ChannelPerms::default(),
        slots: -1,
    }
}

fn server() -> Vec<Channel> {
    let mut lobby = channel(0, "Lobby", 0);
    join_channel(&mut lobby, profile("ann", 1));
    join_channel(&mut lobby, profile("bob", 2));
    vec![lobby, channel(5, "Games", 0), channel(6, "Staff", 50)]
}

#[test]
fn channels_are_found_by_uuid_and_name() {
    let chs = server();
    assert_eq!(find_channel(&chs, 5), Some(1));
    assert_eq!(find_channel(&chs, 9), None);
    assert_eq!(find_channel_by_name(&chs, "Staff"), Some(2));
    assert_eq!(find_channel_by_name(&chs, "staff"), None);
}

#[test]
fn leaving_takes_out_identity_and_profile() {
    let mut lobby = server().remove(0);
    let p = leave_channel(&mut lobby, &uuid(1));
    assert_eq!(p.name, "ann");
    assert_eq!(lobby.clients, vec![uuid(2)]);
    assert_eq!(lobby.proto_clients.len(), 1);
    assert_eq!(lobby.proto_clients[0].name, "bob");
}

#[test]
fn switching_to_an_unknown_channel_is_invalid() {
    let mut chs = server();
    let r = switch_channel(&mut chs, 0, 77, &uuid(1), 100);
    assert_eq!(r, (SwitchChannelResponse::InvalidChannel, 0));
    assert_eq!(chs[0].clients.len(), 2);
}

#[test]
fn switching_to_the_same_channel_is_refused() {
    let mut chs = server();
    assert_eq!(switch_channel(&mut chs, 0, 0, &uuid(1), 100), (SwitchChannelResponse::SameChannel, 0));
}

#[test]
fn switching_needs_the_join_power_of_the_current_channel() {
    let mut chs = server();
    chs[0].perms.join = 30;
    assert_eq!(switch_channel(&mut chs, 0, 5, &uuid(1), 29), (SwitchChannelResponse::NoPermissions, 0));
    assert_eq!(chs[0].clients.len(), 2);
    assert_eq!(switch_channel(&mut chs, 0, 5, &uuid(1), 30), (SwitchChannelResponse::Success, 1));
}

#[test]
fn switching_moves_the_user() {
    let mut chs = server();
    assert_eq!(switch_channel(&mut chs, 0, 6, &uuid(2), 0), (SwitchChannelResponse::Success, 2));
    assert_eq!(chs[0].clients, vec![uuid(1)]);
    assert_eq!(chs[2].clients, vec![uuid(2)]);
    assert_eq!(chs[2].proto_clients[0].name, "bob");
    assert!(chs[1].clients.is_empty());
}

#[test]
fn words_are_joined_with_the_separator() {
    assert_eq!(join_words(&["a", "b", "c"], " "), "a b c");
    assert_eq!(join_words(&["a"], ", "), "a");
    assert_eq!(join_words(&[], " "), "");
}

#[test]
fn channel_create_with_all_words() {
    let db = vec![entry(0, "Lobby", 0)];
    let e = plan_channel_create(&db, &["Music", "create", "10", "4", "pw", "loud", "songs"], 99);
    assert_eq!(e.id, 99);
    assert_eq!(e.name, "Music");
    assert_eq!(e.slots, 10);
    assert_eq!(e.sort_id, 4);
    assert_eq!(e.password.as_deref(), Some("pw"));
    assert_eq!(e.desc, "loud songs");
    assert!(e.user_groups.is_empty());
    assert_eq!(e.perms.modify, 100);
}

#[test]
fn channel_create_picks_the_next_sort_position() {
    let db = vec![entry(0, "Lobby", 0), entry(1, "A", 7), entry(2, "B", 3)];
    let e = plan_channel_create(&db, &["C", "create", "-1"], 5);
    assert_eq!(e.sort_id, 8);
    assert_eq!(e.slots, -1);
    assert!(e.password.is_none());
    assert_eq!(e.desc, "");
}

#[test]
fn channel_create_cuts_numbers_to_sixteen_bits() {
    let db = vec![];
    let e = plan_channel_create(&db, &["C", "create", "+65546", "65537"], 5);
    assert_eq!(e.slots, 10);
    assert_eq!(e.sort_id, 1);
}

#[test]
fn fresh_ids_are_unused() {
    let db = vec![entry(0, "Lobby", 0), entry(1, "A", 7)];
    let id = fresh_channel_id(&db).unwrap();
    assert!(!db_contains_id(&db, id));
    assert!(db_contains_id(&db, 1));
}

#[test]
fn deleting_an_unknown_channel_fails() {
    let mut chs = server();
    let mut db = vec![entry(0, "Lobby", 0), entry(5, "Games", 1), entry(6, "Staff", 2)];
    match delete_channel(&mut chs, &mut db, "Nope", 0) {
        Err(e) => {
            assert!(matches!(e, ChannelCommandError::ChannelInexistent(ref n) if n == "Nope"));
            assert_eq!(e.message(), "There is no channel named Nope");
        },
        Ok(()) => panic!("deleted an unknown channel"),
    }
    assert_eq!(chs.len(), 3);
    assert_eq!(db.len(), 3);
}

#[test]
fn the_default_channel_cannot_be_deleted() {
    let mut chs = server();
    let mut db = vec![entry(0, "Lobby", 0)];
    match delete_channel(&mut chs, &mut db, "Lobby", 0) {
        Err(e) => assert_eq!(e.message(), "Lobby and may not be deleted"),
        Ok(()) => panic!("deleted the default channel"),
    }
    assert_eq!(chs.len(), 3);
}

#[test]
fn deleting_removes_channel_and_entry() {
    let mut chs = server();
    let mut db = vec![entry(0, "Lobby", 0), entry(5, "Games", 1), entry(6, "Staff", 2)];
    assert!(delete_channel(&mut chs, &mut db, "Games", 0).is_ok());
    assert_eq!(chs.iter().map(|c| c.uuid).collect::<Vec<_>>(), vec![0, 6]);
    assert_eq!(db.iter().map(|e| e.id).collect::<Vec<_>>(), vec![0, 6]);
}

#[test]
fn deleting_without_a_database_entry_still_removes_the_channel() {
    let mut chs = server();
    let mut db = vec![entry(0, "Lobby", 0)];
    assert!(matches!(
        delete_channel(&mut chs, &mut db, "Staff", 0),
        Err(ChannelCommandError::ChannelInexistent(_))
    ));
    assert_eq!(chs.len(), 2);
    assert_eq!(db.len(), 1);
}
