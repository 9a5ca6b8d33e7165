use rustspeak::auth::{active_perms, check_auth, first_packet_failure, uuid_from_pub_key, user_uuid_from_pub_key};
use rustspeak::packet::{AuthFailure, ChannelCreatePerms, PermsSnapshot};
use rustspeak::protocol::{Word256, PROTOCOL_VERSION};
use rustspeak::security_level::{generate_token_num, hash_sha, security_level_num, verified_security_level};

fn perms(join: u64, talk: u64, can_send: bool, power: u64, set_desc: bool) -> PermsSnapshot {
    PermsSnapshot {
        server_group_assign: 0,
        server_group_unassign: 0,
        channel_see: 0,
        channel_join: join,
        channel_modify: 0,
        channel_talk: talk,
        channel_assign_talk: 0,
        channel_delete: 0,
        can_send,
        channel_create: ChannelCreatePerms { power, set_desc, set_password: false, resort_channel: false },
    }
}

#[test]
fn uuid_is_sha256_read_little_endian() {
    let w = uuid_from_pub_key(b"abc");
    assert_eq!(w, Word256 { low: 0x2322ae5dde404141eacf018fbf1678ba, high: 0xad1500f261ff10b49c7a1796a36103b0 });
    assert_eq!(user_uuid_from_pub_key(b"abc").into_u256(), w);
}

#[test]
fn auth_out_of_date_comes_first() {
    match check_auth(PROTOCOL_VERSION + 1, None, 5, true) {
        Some(AuthFailure::OutOfDate(v)) => assert_eq!(v, PROTOCOL_VERSION),
        _ => panic!("expected an outdated protocol"),
    }
}

#[test]
fn auth_invalid_proofs() {
    match check_auth(PROTOCOL_VERSION, None, 5, false) {
        Some(AuthFailure::Invalid(reason)) => assert_eq!(reason, "Invalid security proofs!"),
        _ => panic!("expected invalid proofs"),
    }
}

#[test]
fn auth_security_level_too_low() {
    assert!(matches!(check_auth(PROTOCOL_VERSION, Some(4), 5, false), Some(AuthFailure::ReqSec(5))));
}

#[test]
fn auth_already_online() {
    assert!(matches!(check_auth(PROTOCOL_VERSION, Some(5), 5, true), Some(AuthFailure::AlreadyOnline)));
}

#[test]
fn auth_accepted() {
    assert!(check_auth(PROTOCOL_VERSION, Some(7), 5, false).is_none());
}

#[test]
fn first_packet_must_be_auth_request() {
    match first_packet_failure() {
        AuthFailure::Invalid(reason) => {
            assert_eq!(reason, "The first packet sent has to be a `AuthRequest` packet!")
        },
        _ => panic!("expected an invalid first packet"),
    }
}

#[test]
fn active_perms_take_the_highest_of_user_and_groups() {
    let own = perms(10, 3, false, 4, true);
    let groups = [perms(20, 1, true, 2, false), perms(5, 9, true, 7, true)];
    let a = active_perms(&own, &groups);
    assert_eq!(a.channel_join, 20);
    assert_eq!(a.channel_talk, 9);
    // the user may not send; the groups grant it up to their join power
    assert_eq!(a.send, 20);
    assert_eq!(a.channel_create.power, 7);
    assert_eq!(a.channel_create.set_desc, 7);
    assert_eq!(a.channel_create.set_password, 0);
}

#[test]
fn active_perms_without_groups() {
    let own = perms(10, 3, true, 4, false);
    let a = active_perms(&own, &[]);
    assert_eq!(a.channel_join, 10);
    assert_eq!(a.send, 10);
    assert_eq!(a.channel_create.power, 4);
    assert_eq!(a.channel_create.set_desc, 0);
}

#[test]
fn hash_sha_xors_the_digest_halves() {
    assert_eq!(hash_sha(0), 0x93e580fddee2fdb2eee7401b08342a58);
    assert_eq!(hash_sha(42), 0x432eb4cf18ef50264f6ae646e2ceef47);
}

#[test]
fn security_level_counts_leading_zero_bits_of_ripemd160() {
    assert_eq!(security_level_num(0), 0);
    assert_eq!(security_level_num(2), 1);
    assert_eq!(security_level_num(13), 2);
    assert_eq!(security_level_num(139), 8);
    assert_eq!(security_level_num(372), 10);
}

#[test]
fn verified_security_level_of_a_valid_chain() {
    assert_eq!(verified_security_level(7, vec![1]), Some(1));
    assert_eq!(verified_security_level(7, vec![1, 7]), Some(2));
    assert_eq!(verified_security_level(7, vec![1, 7, 4]), Some(3));
}

#[test]
fn verified_security_level_rejects_broken_chains() {
    assert_eq!(verified_security_level(7, vec![0]), None);
    assert_eq!(verified_security_level(7, vec![1, 0]), None);
}

#[test]
fn generated_token_reaches_the_level() {
    let token = generate_token_num(3, 99).unwrap();
    assert!(security_level_num(hash_sha(99) ^ token) >= 3);
}
