use voice_recorder::codec::CodecError;
use voice_recorder::identity::IdentityMap;
use voice_recorder::naming::{decimal_text, format_duration, parse_stream_file_name, stream_file_name};

#[test]
fn stream_file_names_round_trip() {
    assert_eq!(stream_file_name(1000), "user_1000.wrty");
    assert_eq!(stream_file_name(0), "user_0.wrty");
    assert_eq!(parse_stream_file_name("user_1000.wrty"), Some(1000));
    assert_eq!(parse_stream_file_name(&stream_file_name(u64::MAX)), Some(u64::MAX));
    assert_eq!(decimal_text(1234567890), "1234567890");
}

#[test]
fn other_file_names_are_not_streams() {
    assert_eq!(parse_stream_file_name("user_.wrty"), None);
    assert_eq!(parse_stream_file_name("user_12a.wrty"), None);
    assert_eq!(parse_stream_file_name("user_12.wav"), None);
    assert_eq!(parse_stream_file_name("ssrc_map.bin"), None);
    assert_eq!(parse_stream_file_name("user_18446744073709551616.wrty"), None);
}

#[test]
fn identity_snapshot_round_trip() {
    let mut ids = IdentityMap::new();
    ids.insert(2000, 67890);
    ids.insert(1000, 12345);
    ids.insert(1001, 12345);
    let bytes = ids.to_snapshot();
    assert_eq!(bytes.len(), 9 + 3 * 12);
    assert_eq!(&bytes[..9], &[b'W', b'R', b'T', b'M', 1, 3, 0, 0, 0]);
    let back = IdentityMap::from_snapshot(&bytes).unwrap();
    assert_eq!(back.entries(), ids.entries());
    assert_eq!(back.get(1001), Some(12345));
}

#[test]
fn malformed_snapshots_are_refused() {
    let mut ids = IdentityMap::new();
    ids.insert(1, 10);
    ids.insert(2, 20);
    let good = ids.to_snapshot();
    let mut bad = good.clone();
    bad[0] = 0;
    assert_eq!(IdentityMap::from_snapshot(&bad).unwrap_err(), CodecError::BadMagic);
    let mut bad = good.clone();
    bad[4] = 9;
    assert_eq!(IdentityMap::from_snapshot(&bad).unwrap_err(), CodecError::UnsupportedVersion(9));
    assert_eq!(IdentityMap::from_snapshot(&good[..good.len() - 1]).unwrap_err(), CodecError::MalformedSnapshot);
    assert_eq!(IdentityMap::from_snapshot(&good[..5]).unwrap_err(), CodecError::TruncatedHeader);
    let mut swapped = good.clone();
    swapped[9] = 3; // first identifier now above the second
    assert_eq!(IdentityMap::from_snapshot(&swapped).unwrap_err(), CodecError::MalformedSnapshot);
}

#[test]
fn durations_read_naturally() {
    assert_eq!(format_duration(0), "0s");
    assert_eq!(format_duration(59), "59s");
    assert_eq!(format_duration(65), "1m 5s");
    assert_eq!(format_duration(3600), "1h 0m 0s");
    assert_eq!(format_duration(3661), "1h 1m 1s");
}
