use bytes::{Bytes, BytesMut};
use rustspeak::packet::{
    AuthFailure, AuthResponse, BanDuration, ChannelPerms, ClientPacket, RemoteProfile, ServerPacket,
    SwitchChannelResponse,
};
use rustspeak::protocol::{
    read_bool, read_duration, read_string, read_u16, read_u64, write_bool, write_duration, write_string,
    write_u16, write_u64, ProtocolError, UserUuid, Word256,
};
use std::time::Duration;

fn uuid(low: u128) -> UserUuid {
    UserUuid::from_u256(Word256 { low, high: 0 })
}

#[test]
fn integers_are_little_endian() {
    let mut buf = BytesMut::new();
    write_u16(0x0102, &mut buf);
    write_u64(1, &mut buf);
    assert_eq!(buf.to_vec(), vec![2, 1, 1, 0, 0, 0, 0, 0, 0, 0]);
    let mut src = Bytes::from(buf.to_vec());
    assert_eq!(read_u16(&mut src).ok(), Some(0x0102));
    assert_eq!(read_u64(&mut src).ok(), Some(1));
    assert!(src.is_empty());
}

#[test]
fn short_input_is_unexpected_end() {
    let mut src = Bytes::from(vec![1u8, 2, 3]);
    assert!(matches!(read_u64(&mut src), Err(ProtocolError::UnexpectedEnd)));
}

#[test]
fn bool_byte_other_than_zero_or_one_is_refused() {
    let mut buf = BytesMut::new();
    write_bool(true, &mut buf);
    assert_eq!(buf.to_vec(), vec![1]);
    let mut src = Bytes::from(vec![2u8]);
    match read_bool(&mut src) {
        Err(ProtocolError::BoolConversion(e)) => assert_eq!(e.0, 2),
        _ => panic!("expected a bool conversion error"),
    }
}

#[test]
fn strings_carry_a_length_prefix() {
    let mut buf = BytesMut::new();
    write_string("hé", &mut buf);
    assert_eq!(buf.to_vec(), vec![3, 0, 0, 0, 0, 0, 0, 0, b'h', 0xc3, 0xa9]);
    let mut src = Bytes::from(buf.to_vec());
    assert_eq!(read_string(&mut src).ok().as_deref(), Some("hé"));
}

#[test]
fn string_longer_than_input_is_unexpected_end() {
    let mut src = Bytes::from(vec![5u8, 0, 0, 0, 0, 0, 0, 0, b'a']);
    assert!(matches!(read_string(&mut src), Err(ProtocolError::UnexpectedEnd)));
}

#[test]
fn durations_roundtrip_and_carry_nanoseconds() {
    let mut buf = BytesMut::new();
    write_duration(&Duration::new(5, 7), &mut buf);
    assert_eq!(buf.len(), 12);
    let mut src = Bytes::from(buf.to_vec());
    assert_eq!(read_duration(&mut src).ok(), Some(Duration::new(5, 7)));
    // 1.5 billion nanoseconds carry one second over
    let mut raw = vec![1u8, 0, 0, 0, 0, 0, 0, 0];
    raw.extend_from_slice(&1_500_000_000u32.to_le_bytes());
    let mut src = Bytes::from(raw);
    assert_eq!(read_duration(&mut src).ok(), Some(Duration::new(2, 500_000_000)));
}

#[test]
fn duration_overflow_is_reported() {
    let mut raw = u64::MAX.to_le_bytes().to_vec();
    raw.extend_from_slice(&1_000_000_000u32.to_le_bytes());
    let mut src = Bytes::from(raw);
    assert!(matches!(read_duration(&mut src), Err(ProtocolError::DurationOverflow)));
}

#[test]
fn client_switch_channel_roundtrip() {
    let p = ClientPacket::SwitchChannel { channel: 0xabcdef };
    let encoded = p.encode();
    assert_eq!(encoded.len(), 8 + 1 + 16);
    assert_eq!(&encoded[..9], &[17, 0, 0, 0, 0, 0, 0, 0, 5]);
    let mut src = Bytes::from(encoded.to_vec());
    match ClientPacket::decode(&mut src) {
        Ok(ClientPacket::SwitchChannel { channel }) => assert_eq!(channel, 0xabcdef),
        _ => panic!("expected a channel switch"),
    }
    assert!(src.is_empty());
}

#[test]
fn client_keep_alive_and_disconnect_roundtrip() {
    let encoded = ClientPacket::KeepAlive { id: 9, send_time: Duration::new(3, 4) }.encode();
    let mut src = Bytes::from(encoded.to_vec());
    match ClientPacket::decode(&mut src) {
        Ok(ClientPacket::KeepAlive { id, send_time }) => {
            assert_eq!(id, 9);
            assert_eq!(send_time, Duration::new(3, 4));
        },
        _ => panic!("expected a keep alive"),
    }
    let encoded = ClientPacket::Disconnect.encode();
    assert_eq!(encoded.to_vec(), vec![1, 0, 0, 0, 0, 0, 0, 0, 1]);
    let mut src = Bytes::from(encoded.to_vec());
    assert!(matches!(ClientPacket::decode(&mut src), Ok(ClientPacket::Disconnect)));
}

#[test]
fn auth_request_name_and_key_are_read_in_the_other_order() {
    let p = ClientPacket::AuthRequest {
        protocol_version: 1,
        pub_key: vec![0x41, 0x42],
        name: String::from("xyz"),
        security_proofs: vec![Word256 { low: 1, high: 2 }],
        signed_data: vec![],
    };
    let mut src = Bytes::from(p.encode().to_vec());
    match ClientPacket::decode(&mut src) {
        Ok(ClientPacket::AuthRequest { protocol_version, pub_key, name, security_proofs, signed_data }) => {
            assert_eq!(protocol_version, 1);
            assert_eq!(pub_key, b"xyz".to_vec());
            assert_eq!(name, "AB");
            assert_eq!(security_proofs, vec![Word256 { low: 1, high: 2 }]);
            assert!(signed_data.is_empty());
        },
        _ => panic!("expected an authentication request"),
    }
}

#[test]
fn challenge_response_reading_is_unsupported() {
    let mut src = Bytes::from(vec![4u8]);
    assert!(matches!(ClientPacket::read(&mut src), Err(ProtocolError::Unsupported)));
}

#[test]
fn unknown_packet_tag_is_reported() {
    let mut src = Bytes::from(vec![9u8]);
    match ClientPacket::read(&mut src) {
        Err(ProtocolError::EnumVariantNotFound(e)) => {
            assert_eq!(e.0, "ClientPacket");
            assert_eq!(e.1, 9);
        },
        _ => panic!("expected an unknown variant"),
    }
}

#[test]
fn server_switch_channel_response_roundtrip() {
    let encoded = ServerPacket::SwitchChannelResponse(SwitchChannelResponse::NoPermissions).encode();
    assert_eq!(encoded.to_vec(), vec![2, 0, 0, 0, 0, 0, 0, 0, 7, 2]);
    let mut src = Bytes::from(encoded.to_vec());
    assert_eq!(read_u64(&mut src).ok(), Some(2));
    assert!(matches!(
        ServerPacket::read(&mut src),
        Ok(ServerPacket::SwitchChannelResponse(SwitchChannelResponse::NoPermissions))
    ));
}

#[test]
fn server_auth_failure_roundtrip() {
    let p = ServerPacket::AuthResponse(AuthResponse::Failure(AuthFailure::Banned {
        reason: String::from("spam"),
        duration: BanDuration::Temporary(Duration::new(60, 0)),
    }));
    let mut src = Bytes::from(p.encode().to_vec());
    read_u64(&mut src).ok().unwrap();
    match ServerPacket::read(&mut src) {
        Ok(ServerPacket::AuthResponse(AuthResponse::Failure(AuthFailure::Banned { reason, duration }))) => {
            assert_eq!(reason, "spam");
            assert!(matches!(duration, BanDuration::Temporary(d) if d == Duration::new(60, 0)));
        },
        _ => panic!("expected a ban"),
    }
}

#[test]
fn server_client_connected_roundtrip() {
    let profile = RemoteProfile { name: String::from("bob"), uuid: uuid(3), server_groups: vec![1, 2] };
    let mut src = Bytes::from(ServerPacket::ClientConnected(profile).encode().to_vec());
    read_u64(&mut src).ok().unwrap();
    match ServerPacket::read(&mut src) {
        Ok(ServerPacket::ClientConnected(p)) => {
            assert_eq!(p.name, "bob");
            assert_eq!(p.uuid, uuid(3));
            assert_eq!(p.server_groups, vec![1, 2]);
        },
        _ => panic!("expected a connected client"),
    }
}

#[test]
fn channel_perms_default() {
    let p = ChannelPerms::default();
    assert_eq!((p.see, p.join, p.modify, p.talk, p.assign_talk, p.delete), (0, 0, 100, 0, 100, 100));
}
