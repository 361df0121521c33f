use four_char_code::FourCharCode;
use kim_temp::key::{key_to_string, string_to_key, SensorKey};

#[test]
fn from_bytes_packs_big_endian() {
    let key = SensorKey::from_bytes(b'T', b'p', b'0', b'1');
    assert_eq!(key.packed, 0x5470_3031);
    assert_eq!(key.byte(0), b'T');
    assert_eq!(key.byte(1), b'p');
    assert_eq!(key.byte(2), b'0');
    assert_eq!(key.byte(3), b'1');
}

#[test]
fn extreme_bytes_round_trip() {
    let key = SensorKey::from_bytes(0xff, 0x00, 0x80, 0x7f);
    assert_eq!(key.packed, 0xff00_807f);
    assert_eq!(key.byte(0), 0xff);
    assert_eq!(key.byte(1), 0x00);
    assert_eq!(key.byte(2), 0x80);
    assert_eq!(key.byte(3), 0x7f);
}

#[test]
fn code_round_trip_keeps_the_number() {
    let key = SensorKey::from_bytes(b'P', b'S', b'T', b'R');
    let code = key.to_code();
    assert_eq!(code.0, 0x5053_5452);
    assert_eq!(SensorKey::from_code(code), key);
}

#[test]
fn from_code_reads_the_raw_field() {
    // A code whose last byte is zero is stored as given: the field is read,
    // not the normalised number.
    let code = FourCharCode(0x5443_3000);
    assert_eq!(SensorKey::from_code(code).packed, 0x5443_3000);
}

#[test]
fn keys_order_by_their_bytes() {
    let a = SensorKey::from_bytes(b'T', b'B', b'0', b'T');
    let b = SensorKey::from_bytes(b'T', b'p', b'0', b'1');
    assert!(a.packed < b.packed);
    assert!(a < b);
    assert!(a.precedes(&b));
    assert!(!b.precedes(&a));
    assert!(!a.precedes(&a));
    // The first byte decides before any later one.
    let low = SensorKey::from_bytes(0x01, 0xff, 0xff, 0xff);
    let high = SensorKey::from_bytes(0x02, 0x00, 0x00, 0x00);
    assert!(low.precedes(&high));
    let tail = SensorKey::from_bytes(0x02, 0x00, 0x00, 0x01);
    assert!(high.precedes(&tail));
    assert_ne!(a, b);
    assert_eq!(b, SensorKey::from_bytes(b'T', b'p', b'0', b'1'));
}

#[test]
fn label_of_ascii_key_is_its_characters() {
    let key = SensorKey::from_bytes(b'T', b'C', b'0', b'P');
    assert_eq!(key.label(), "TC0P");
}

#[test]
fn label_replaces_invalid_utf8() {
    let key = SensorKey::from_bytes(b'T', 0xff, b'0', b'P');
    assert_eq!(key.label(), "T\u{fffd}0P");
}

#[test]
fn label_decodes_valid_multibyte_text() {
    // 0xc3 0xa9 is one character, so the label has three.
    let key = SensorKey::from_bytes(0xc3, 0xa9, b'a', b'b');
    assert_eq!(key.label(), "\u{e9}ab");
}

#[test]
fn key_to_string_reads_big_endian() {
    assert_eq!(key_to_string(FourCharCode(0x5053_5452)), "PSTR");
    assert_eq!(key_to_string(FourCharCode(0x5467_3035)), "Tg05");
}

#[test]
fn string_to_key_packs_the_first_four_bytes() {
    assert_eq!(string_to_key("PSTR").0, 0x5053_5452);
    assert_eq!(string_to_key("PP0b").0, 0x5050_3062);
    assert_eq!(string_to_key("PSTRING").0, 0x5053_5452);
}

#[test]
fn string_and_key_round_trip() {
    for name in ["PSTR", "PHPS", "PP0b", "PP7b", "PPBR", "TSCD"] {
        assert_eq!(key_to_string(string_to_key(name)), name);
    }
}

#[test]
fn from_text_takes_bytes_not_characters() {
    // "é" is two bytes, so the key ends after "ab".
    let key = SensorKey::from_text("\u{e9}abc");
    assert_eq!(key.packed, 0xc3a9_6162);
}
