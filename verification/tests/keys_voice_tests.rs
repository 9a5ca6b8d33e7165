use rustspeak::audio::{voice_frame, MIN_BUF_SIZE};
use rustspeak::certificate::{read_certs, CertificateError};
use rustspeak::channels::voice_relay_count;
use rustspeak::packet::{Channel, ChannelPerms};
use rustspeak::profile::profile_uuid;
use rustspeak::profile_db::DbProfile;
use rustspeak::protocol::{UserUuid, Word256};
use rustspeak::security_level::{generate_proofs, verified_security_level, DEFAULT_SECURITY_LEVEL};

fn uuid(low: u128) -> UserUuid {
    UserUuid::from_u256(Word256 { low, high: 0 })
}

#[test]
fn certificates_and_one_key_are_read() {
    let cert = rcgen::generate_simple_self_signed(vec!["localhost".to_string()]).unwrap();
    let cert_pem = cert.serialize_pem().unwrap();
    let key_pem = cert.serialize_private_key_pem();
    let (certs, key) = read_certs(cert_pem.as_bytes(), key_pem.as_bytes()).unwrap();
    assert_eq!(certs.len(), 1);
    // the certificate comes back as DER, which starts with an ASN.1 sequence
    assert_eq!(certs[0][0], 0x30);
    assert_eq!(key, cert.serialize_private_key_der());
}

#[test]
fn key_files_need_exactly_one_key() {
    let cert = rcgen::generate_simple_self_signed(vec!["localhost".to_string()]).unwrap();
    let cert_pem = cert.serialize_pem().unwrap();
    let key_pem = cert.serialize_private_key_pem();
    let two = format!("{}{}", key_pem, key_pem);
    assert!(matches!(read_certs(cert_pem.as_bytes(), two.as_bytes()), Err(CertificateError::KeyCount(2))));
    assert!(matches!(read_certs(cert_pem.as_bytes(), b""), Err(CertificateError::KeyCount(0))));
}

#[test]
fn new_profiles_have_a_large_key_and_a_valid_proof() {
    let p = DbProfile::new(String::from("me"), String::from("alias")).unwrap();
    assert_eq!(p.name, "me");
    assert_eq!(p.alias, "alias");
    let key = openssl::rsa::Rsa::private_key_from_der(&p.priv_key).unwrap();
    assert_eq!(key.size() * 8, 4096);
    let id = p.uuid().unwrap();
    assert!(id == profile_uuid(&p.priv_key).unwrap());
    let tokens: Vec<u128> = p.security_proofs.iter().map(|w| w.low).collect();
    assert!(p.security_proofs.iter().all(|w| w.high == 0));
    assert_eq!(verified_security_level(id.into_u256().low, tokens), Some(DEFAULT_SECURITY_LEVEL));
}

#[test]
fn signatures_verify_and_repeat() {
    let rsa = openssl::rsa::Rsa::generate(1024).unwrap();
    let key = openssl::pkey::PKey::from_rsa(rsa).unwrap();
    let p = DbProfile {
        name: String::new(),
        alias: String::new(),
        priv_key: key.private_key_to_der().unwrap(),
        security_proofs: vec![],
    };
    let sig = p.sign_data(b"hello").unwrap();
    assert_eq!(p.sign_data(b"hello").unwrap(), sig);
    let mut verifier = openssl::sign::Verifier::new(openssl::hash::MessageDigest::sha256(), &key).unwrap();
    assert!(verifier.verify_oneshot(&sig, b"hello").unwrap());
    let bad = DbProfile { name: String::new(), alias: String::new(), priv_key: vec![1, 2, 3], security_proofs: vec![] };
    assert!(bad.sign_data(b"hello").is_none());
}

#[test]
fn generated_proofs_have_the_requested_level() {
    let tokens = generate_proofs(42, 6).unwrap();
    assert_eq!(tokens.len(), 6);
    assert_eq!(verified_security_level(42, tokens), Some(6));
}

#[test]
fn quiet_chunks_are_not_sent() {
    let mut buf = vec![];
    assert!(voice_frame(&[0; 100], &mut buf).is_none());
    assert!(voice_frame(&[10, 20, 30], &mut buf).is_none());
    assert!(buf.is_empty());
}

#[test]
fn voice_is_gathered_into_frames() {
    let chunk: Vec<i16> = (0..300).map(|i| if i % 2 == 0 { 100 } else { -100 }).collect();
    let mut buf = vec![];
    assert!(voice_frame(&chunk, &mut buf).is_none());
    assert_eq!(buf.len(), 300);
    let frame = voice_frame(&chunk, &mut buf).unwrap();
    assert_eq!(frame.len(), MIN_BUF_SIZE);
    assert_eq!(buf.len(), 600 - MIN_BUF_SIZE);
    assert_eq!(frame[0], 100);
}

#[test]
fn voice_is_relayed_once_per_channel_member() {
    let channel = Channel {
        uuid: 1,
        password: false,
        name: String::from("Lobby"),
        desc: String::new(),
        perms: ChannelPerms::default(),
        clients: vec![uuid(1), uuid(2), uuid(3)],
        proto_clients: vec![],
        slots: -1,
        sort_id: 0,
    };
    assert_eq!(voice_relay_count(&channel, &uuid(2)), 3);
}
