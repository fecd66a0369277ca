use work_timer::codec::{decode_record, encode_record};
use work_timer::keys::{decode_key, encode_key};
use work_timer::Theme;

#[test]
fn record_values_round_trip() {
    let bytes = encode_record(1234, "Deep Work", "Study");
    let back = decode_record(bytes.as_slice());
    assert_eq!(back, Some((1234, "Deep Work".to_string(), "Study".to_string())));
}

#[test]
fn record_values_round_trip_unicode() {
    let bytes = encode_record(u64::MAX, "\u{00e9}l\u{00e8}ve", "\u{1F345}\u{65e5}");
    let back = decode_record(bytes.as_slice());
    assert_eq!(back, Some((u64::MAX, "\u{00e9}l\u{00e8}ve".to_string(), "\u{1F345}\u{65e5}".to_string())));
}

#[test]
fn malformed_values_are_rejected() {
    assert_eq!(decode_record(b""), None);
    assert_eq!(decode_record(b"junk"), None);
    // a record cut short
    let bytes = encode_record(7, "name", "tag");
    assert_eq!(decode_record(&bytes[..bytes.len() - 1]), None);
    // a record with a trailing byte
    let mut long = bytes.clone();
    long.push(0);
    assert_eq!(decode_record(long.as_slice()), None);
    // a length field pointing past the end
    let mut lying = Vec::new();
    lying.extend_from_slice(&7u64.to_be_bytes());
    lying.extend_from_slice(&1000u64.to_be_bytes());
    lying.extend_from_slice(b"short");
    assert_eq!(decode_record(lying.as_slice()), None);
    // name bytes that are not UTF-8
    let mut bad_utf8 = Vec::new();
    bad_utf8.extend_from_slice(&7u64.to_be_bytes());
    bad_utf8.extend_from_slice(&2u64.to_be_bytes());
    bad_utf8.extend_from_slice(&[0xff, 0xfe]);
    bad_utf8.extend_from_slice(&0u64.to_be_bytes());
    assert_eq!(decode_record(bad_utf8.as_slice()), None);
}

#[test]
fn keys_are_big_endian_and_round_trip() {
    let k = encode_key(0x0102_0304_0506_0708);
    assert_eq!(k, vec![1, 2, 3, 4, 5, 6, 7, 8]);
    assert_eq!(decode_key(k.as_slice()), 0x0102_0304_0506_0708);
    assert_eq!(encode_key(0), vec![0; 8]);
    assert_eq!(encode_key(u64::MAX), vec![0xff; 8]);
    assert_eq!(decode_key(encode_key(9_999_999_999).as_slice()), 9_999_999_999);
}

#[test]
fn key_byte_order_is_time_order() {
    // increasing timestamps give lexicographically increasing keys,
    // which is what makes the store's range scans chronological
    let times = [0u64, 1, 255, 256, 65_535, 1_000_000_007, u64::MAX - 1, u64::MAX];
    for w in times.windows(2) {
        assert!(encode_key(w[0]) < encode_key(w[1]));
    }
}

#[test]
fn theme_values_compare() {
    let t = Theme::Dark;
    let u = t;
    assert!(t == u);
    assert!(Theme::Dark != Theme::Light);
    assert!(Theme::System != Theme::Dark);
}
