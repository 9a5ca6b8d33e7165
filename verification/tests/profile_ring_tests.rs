use bytes::Bytes;
use rustspeak::auth::user_uuid_from_pub_key;
use rustspeak::byte_buf_ring::{can_pop, capacity_fits, push_fits, read_offset};
use rustspeak::channel_commands::fresh_channel_id;
use rustspeak::profile::{profile_uuid, DbProfile};
use rustspeak::protocol::{read_bool, ProtocolError};
use rustspeak::security_level::{accept_token, generate_token_num, hash_sha, security_level_num};
use rustspeak::utils::current_time_millis;

#[test]
fn profile_id_matches_the_one_the_server_derives() {
    let rsa = openssl::rsa::Rsa::generate(1024).unwrap();
    let key = openssl::pkey::PKey::from_rsa(rsa).unwrap();
    let priv_der = key.private_key_to_der().unwrap();
    let pub_der = key.public_key_to_der().unwrap();
    let client_side = profile_uuid(&priv_der).unwrap();
    let server_side = user_uuid_from_pub_key(&pub_der);
    assert!(client_side == server_side);
    let profile = DbProfile { priv_key: priv_der, name: String::from("me"), security_proofs: vec![] };
    assert_eq!(profile.pub_key().unwrap(), pub_der);
    assert!(profile.uuid().unwrap() == server_side);
}

#[test]
fn garbage_is_no_private_key() {
    assert!(profile_uuid(&[1, 2, 3]).is_none());
    let profile = DbProfile { priv_key: vec![0; 8], name: String::new(), security_proofs: vec![] };
    assert!(profile.pub_key().is_none());
    assert!(profile.uuid().is_none());
}

#[test]
fn level_zero_takes_the_first_token() {
    let token = generate_token_num(0, 5).unwrap();
    assert!(accept_token(0, 5, token));
}

#[test]
fn accept_token_follows_the_level() {
    let token = generate_token_num(2, 77).unwrap();
    assert!(accept_token(2, 77, token));
    assert_eq!(accept_token(200, 77, token), security_level_num(hash_sha(77) ^ token) >= 200);
}

#[test]
fn an_empty_database_gives_an_id() {
    assert!(fresh_channel_id(&vec![]).is_some());
}

#[test]
fn the_clock_gives_a_time_after_the_epoch() {
    let t = current_time_millis().unwrap();
    assert!(t.subsec_nanos() < 1_000_000_000);
    assert!(t.as_secs() > 0);
}

#[test]
fn booleans_take_one_byte_each_also_when_invalid() {
    let mut src = Bytes::from_static(&[1, 0, 2, 7]);
    assert!(matches!(read_bool(&mut src), Ok(true)));
    assert!(matches!(read_bool(&mut src), Ok(false)));
    assert!(matches!(read_bool(&mut src), Err(ProtocolError::BoolConversion(_))));
    assert_eq!(src.len(), 1);
}

#[test]
fn ring_buffer_checks() {
    assert!(capacity_fits(32765));
    assert!(!capacity_fits(32766));
    assert!(push_fits(10, 0, 5, 20));
    assert!(!push_fits(10, 0, 6, 20));
    assert!(!push_fits(u64::MAX, 0, u64::MAX, 20));
    assert!(can_pop(1, 2));
    assert!(!can_pop(2, 2));
    assert_eq!(read_offset(25, 20), 5);
}
