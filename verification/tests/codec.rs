use sdboot::codec::{decode_utf16, decode_utf16_lossy, decode_utf16_string, encode_utf16_string};
use sdboot::units::{divide_up, units_from_bytes, U16ArrayExt};

#[test]
fn check_division() {
    assert_eq!(divide_up(16, 2), 8);
    assert_eq!(divide_up(15, 2), 8);
}

#[test]
fn read_check_division() {
    assert_eq!(divide_up(16, 2), 8);
    assert_eq!(divide_up(15, 2), 8);
}

#[test]
fn encode_appends_terminator() {
    let bytes = encode_utf16_string("windows");
    assert_eq!(
        bytes,
        vec![0x77, 0, 0x69, 0, 0x6e, 0, 0x64, 0, 0x6f, 0, 0x77, 0, 0x73, 0, 0, 0]
    );
}

#[test]
fn encode_keeps_existing_terminator() {
    let bytes = encode_utf16_string("a\0");
    assert_eq!(bytes, vec![0x61, 0, 0, 0]);
}

#[test]
fn encode_empty_is_one_terminator() {
    assert_eq!(encode_utf16_string(""), vec![0, 0]);
}

#[test]
fn encode_surrogate_pair() {
    // U+1F642 encodes as the pair D83D DE42, little-endian.
    let bytes = encode_utf16_string("🙂");
    assert_eq!(bytes, vec![0x3D, 0xD8, 0x42, 0xDE, 0, 0]);
}

#[test]
fn decode_trims_one_terminator() {
    assert_eq!(
        decode_utf16_string(&[0x61, 0x62, 0]).unwrap(),
        "ab".to_string()
    );
    // Only one trailing zero unit is trimmed; the one before it is data.
    assert_eq!(
        decode_utf16_string(&[0x61, 0, 0]).unwrap(),
        "a\0".to_string()
    );
}

#[test]
fn decode_without_terminator_takes_all() {
    assert_eq!(decode_utf16_string(&[0x61, 0x62]).unwrap(), "ab".to_string());
}

#[test]
fn decode_rejects_lone_surrogate() {
    let err = decode_utf16_string(&[0x61, 0xD800, 0x62]).unwrap_err();
    assert_eq!(err, "a\u{FFFD}b".to_string());
    assert!(decode_utf16(&[0xDC00]).is_none());
    assert_eq!(decode_utf16_lossy(&[0xDC00]), "\u{FFFD}".to_string());
}

#[test]
fn decode_surrogate_pair() {
    assert_eq!(
        decode_utf16(&[0xD83D, 0xDE42]).unwrap(),
        "🙂".to_string()
    );
}

#[test]
fn round_trip_through_bytes() {
    for text in ["", "windows", "hellö wörld", "🙂 boot 🙂", "a-b_c.d"] {
        let bytes = encode_utf16_string(text);
        let units = units_from_bytes(&bytes);
        assert_eq!(decode_utf16_string(&units).unwrap(), text.to_string());
    }
}

#[test]
fn byte_view_doubles_length() {
    let units: Vec<u16> = vec![0x6261, 0x64];
    let bytes = units.as_u8();
    assert_eq!(bytes, vec![0x61, 0x62, 0x64, 0]);
    assert_eq!(bytes.len(), 2 * units.len());
    assert_eq!(units_from_bytes(&bytes), units);
    // The inverse round trip holds only for even byte counts: the lone
    // trailing byte of an odd buffer belongs to no unit.
    assert_eq!(units_from_bytes(&[0x61, 0x62, 0x63]), vec![0x6261]);
}
