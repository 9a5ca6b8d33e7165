use bytes::Bytes;
use rustspeak::audio::{Audio, AudioConfig, AudioMode, AudioStreamSettings, FrequencyQuality, SurroundSoundChannels};
use rustspeak::byte_buf_ring::Marker;
use rustspeak::db::{Config, DbUser, U256Container, DEFAULT_CHANNEL_UUID};
use rustspeak::dims::{AtlasId, AtlasIdCounter, Dimensions, GlyphId, Size, UV};
use rustspeak::mem_order::strongest_failure_ordering;
use rustspeak::network::{frame_ranges, max_size, AddressMode, KeepAlive};
use rustspeak::packet::PermsSnapshot;
use rustspeak::profile::DbProfile;
use rustspeak::protocol::{ProtocolError, UserUuid, Word256};
use rustspeak::server_state::ServerState;
use rustspeak::tagged::{get_metadata, merge_ptr_and_metadata, meta_mask, strip_metadata, Metadata};
use rustspeak::utils::{current_time_millis, eq_ignore_ascii_case, parse_bool, parse_int};
use std::sync::atomic::Ordering;
use std::time::Duration;

#[test]
fn parse_bool_reads_yes_and_no() {
    assert_eq!(parse_bool("true"), Some(true));
    assert_eq!(parse_bool("YES"), Some(true));
    assert_eq!(parse_bool("False"), Some(false));
    assert_eq!(parse_bool("nO"), Some(false));
    assert_eq!(parse_bool("maybe"), None);
    assert_eq!(parse_bool(""), None);
    assert_eq!(parse_bool("yes "), None);
}

#[test]
fn ascii_case_is_ignored_only_for_ascii() {
    assert!(eq_ignore_ascii_case("HeLLo", "hello"));
    assert!(!eq_ignore_ascii_case("É", "é"));
    assert!(!eq_ignore_ascii_case("ab", "abc"));
}

#[test]
fn integers_parse_as_str_parse_does() {
    assert_eq!(parse_int("42", true, -128, 127), Some(42));
    assert_eq!(parse_int("-128", true, -128, 127), Some(-128));
    assert_eq!(parse_int("+7", false, 0, 255), Some(7));
    assert_eq!(parse_int("-0", false, 0, 255), None);
    assert_eq!(parse_int("128", true, -128, 127), None);
    assert_eq!(parse_int("", true, -128, 127), None);
    assert_eq!(parse_int("-", true, -128, 127), None);
    assert_eq!(parse_int("1a", true, -128, 127), None);
    assert_eq!(parse_int("99999999999999999999999999999999", false, 0, 255), None);
}

#[test]
fn the_clock_is_after_the_epoch() {
    assert!(current_time_millis().unwrap() > Duration::from_secs(1_600_000_000));
}

#[test]
fn audio_settings_read_back_low_quality_as_high() {
    let s = AudioStreamSettings::new(AudioMode::Mono, FrequencyQuality::Low).unwrap();
    assert!(matches!(s.get(), (Some(AudioMode::Mono), Some(FrequencyQuality::High))));
    let s = AudioStreamSettings::new(AudioMode::Stereo, FrequencyQuality::Medium).unwrap();
    assert!(matches!(s.get(), (Some(AudioMode::Stereo), Some(FrequencyQuality::Medium))));
}

#[test]
fn surround_sound_needs_three_channels() {
    assert!(AudioStreamSettings::new(AudioMode::SurroundSound(SurroundSoundChannels(2)), FrequencyQuality::High).is_none());
    let mut s = AudioStreamSettings::new(AudioMode::SurroundSound(SurroundSoundChannels(6)), FrequencyQuality::High).unwrap();
    assert!(matches!(s.get(), (Some(AudioMode::SurroundSound(SurroundSoundChannels(6))), Some(FrequencyQuality::High))));
    assert!(!s.set(AudioMode::SurroundSound(SurroundSoundChannels(1)), FrequencyQuality::Medium));
    assert!(matches!(s.get(), (Some(AudioMode::SurroundSound(SurroundSoundChannels(6))), Some(FrequencyQuality::High))));
    assert!(s.set(AudioMode::Stereo, FrequencyQuality::Medium));
    assert!(matches!(s.get(), (Some(AudioMode::Stereo), Some(FrequencyQuality::Medium))));
}

#[test]
fn audio_conversions() {
    assert_eq!(u32::from(FrequencyQuality::Low), 512);
    assert_eq!(u32::from(FrequencyQuality::High), 128);
    assert_eq!(u16::from(AudioMode::Stereo), 2);
    assert_eq!(u16::from(AudioMode::SurroundSound(SurroundSoundChannels(5))), 5);
}

#[test]
fn audio_from_config_is_mono() {
    let cfg = AudioConfig { input_name: String::from("in"), output_name: String::from("out") };
    let audio = Audio::from_cfg(&cfg).unwrap();
    assert!(matches!(audio.stream_settings().get(), (Some(AudioMode::Mono), Some(FrequencyQuality::High))));
}

#[test]
fn dimensions_pack_width_and_height() {
    let mut d = Dimensions::new(1920, 1080);
    assert_eq!(d.get(), (1920, 1080));
    d.set(u32::MAX, 0);
    assert_eq!(d.get(), (u32::MAX, 0));
    let mut s = Size::new(3, 4);
    s.set(5, 6);
    assert_eq!(s.get(), (5, 6));
}

#[test]
fn uv_and_glyph_ids() {
    assert_eq!(UV(1, 2).into_array(), [1, 2]);
    assert_eq!(UV(1, 2).into_tuple(), (1, 2));
    assert_eq!(GlyphId::from_raw(17).as_raw(), 17);
}

#[test]
fn atlas_ids_count_up() {
    let mut c = AtlasIdCounter::new();
    let a = AtlasId::generate(&mut c);
    let b = AtlasId::generate(&mut c);
    assert!(a != b);
}

#[test]
fn connection_phases() {
    let mut s = ServerState::new();
    assert!(!s.is_connected());
    assert!(!s.try_set_connected());
    assert!(s.try_set_auth());
    assert!(!s.try_set_auth());
    assert!(s.try_set_connected());
    assert!(s.is_connected());
    assert!(s.try_set_disconnected());
    assert!(!s.try_set_disconnected());
    assert!(!s.try_set_auth());
    assert!(!s.is_connected());
}

#[test]
fn markers_pack_three_parts() {
    let m = Marker::new(70_000, 3, 2);
    assert_eq!((m.head(), m.len(), m.finished_len()), (70_000, 3, 2));
    assert_eq!(m.into_raw(), 70_000 | (3 << 32) | (2 << 48));
    let sum = Marker::from_raw(Marker::new(10, 1, 0).into_raw() + Marker::new(5, 1, 1).into_raw());
    assert_eq!((sum.head(), sum.len(), sum.finished_len()), (15, 2, 1));
}

#[test]
fn tagged_addresses() {
    assert_eq!(meta_mask(0), 0);
    assert_eq!(meta_mask(2), 3);
    let addr = 0x1000usize;
    let tagged = merge_ptr_and_metadata(addr, 2);
    assert_eq!(get_metadata(tagged, 2), 2);
    assert_eq!(strip_metadata(tagged, 2), addr);
    assert!(Metadata(2).get_deletion_marker());
    assert!(!Metadata(2).get_detached_marker());
    assert!(Metadata(1).get_detached_marker());
}

#[test]
fn failure_orderings() {
    assert_eq!(strongest_failure_ordering(Ordering::Release), Ordering::Relaxed);
    assert_eq!(strongest_failure_ordering(Ordering::AcqRel), Ordering::Acquire);
    assert_eq!(strongest_failure_ordering(Ordering::SeqCst), Ordering::SeqCst);
}

#[test]
fn keep_alive_is_twenty_bytes() {
    let k = KeepAlive { id: 1, send_time: Duration::new(2, 3) };
    let bytes = k.encode().to_vec();
    assert_eq!(bytes, vec![1, 0, 0, 0, 0, 0, 0, 0, 2, 0, 0, 0, 0, 0, 0, 0, 3, 0, 0, 0]);
    let mut src = Bytes::from(bytes);
    let back = KeepAlive::decode(&mut src).ok().unwrap();
    assert_eq!((back.id, back.send_time), (1, Duration::new(2, 3)));
    let mut short = Bytes::from(vec![0u8; 10]);
    assert!(matches!(KeepAlive::decode(&mut short), Err(ProtocolError::UnexpectedEnd)));
    assert_eq!(AddressMode::V4, AddressMode::V4);
}

#[test]
fn datagram_sizes_are_aligned() {
    assert_eq!(max_size::<2>(1225), 1200);
    assert_eq!(max_size::<4>(1228), 1200);
    assert_eq!(max_size::<1>(1228), 1203);
}

#[test]
fn buffers_are_cut_into_datagrams() {
    assert_eq!(frame_ranges(10, 4), vec![(0, 4), (4, 8), (8, 10)]);
    assert_eq!(frame_ranges(8, 4), vec![(0, 4), (4, 8), (8, 8)]);
    assert_eq!(frame_ranges(0, 4), vec![(0, 0)]);
}

#[test]
fn stored_users_read_back() {
    let user = DbUser {
        uuid: UserUuid::from_u256(Word256 { low: 5, high: 6 }),
        name: String::from("ann"),
        last_security_proof: Word256 { low: 7, high: 8 },
        last_verified_security_level: 9,
        groups: vec![0, 1],
        perms: PermsSnapshot::default(),
    };
    let bytes = user.to_bytes();
    assert_eq!(&bytes[..32], &[5u8, 0, 0, 0, 0, 0, 0, 0, 0, 0, 0, 0, 0, 0, 0, 0, 6, 0, 0, 0, 0, 0, 0, 0, 0, 0, 0, 0, 0, 0, 0, 0]);
    let back = DbUser::from_bytes(bytes).ok().unwrap();
    assert_eq!(back.uuid, UserUuid::from_u256(Word256 { low: 5, high: 6 }));
    assert_eq!(back.name, "ann");
    assert_eq!(back.last_security_proof, Word256 { low: 7, high: 8 });
    assert_eq!(back.last_verified_security_level, 9);
    assert_eq!(back.groups, vec![0, 1]);
    assert!(matches!(DbUser::from_bytes(vec![1, 2, 3]), Err(ProtocolError::UnexpectedEnd)));
}

#[test]
fn stored_profiles_read_back() {
    let p = DbProfile { priv_key: vec![1, 2, 3], name: String::from("me"), security_proofs: vec![Word256 { low: 1, high: 0 }] };
    let back = DbProfile::from_bytes(p.to_bytes()).ok().unwrap();
    assert_eq!(back.priv_key, vec![1, 2, 3]);
    assert_eq!(back.name, "me");
    assert_eq!(back.security_proofs, vec![Word256 { low: 1, high: 0 }]);
}

#[test]
fn u256_containers_roundtrip() {
    let w = Word256 { low: 0x0102, high: u128::MAX };
    assert_eq!(U256Container::new(w).unwrap(), w);
}

#[test]
fn server_config_defaults_and_repair() {
    let mut c = Config::default();
    assert_eq!((c.port, c.req_security_level, c.default_channel_id), (20354, 12, DEFAULT_CHANNEL_UUID));
    assert_eq!(c.address_mode, AddressMode::V4);
    c.req_security_level = 0;
    c.sanitize();
    assert_eq!(c.req_security_level, 1);
    c.req_security_level = 30;
    c.sanitize();
    assert_eq!(c.req_security_level, 30);
}
