use spell_wallet::encoding::hex_decode;
use spell_wallet::encoding::hex_encode;
use spell_wallet::encoding::push_u32_le;
use spell_wallet::encoding::push_u64_le;
use spell_wallet::encoding::push_varint;

#[test]
fn hex_encode_known_value() {
    let bytes: Vec<u8> = vec![0x00, 0x0f, 0xa5, 0xff];
    assert_eq!(hex_encode(&bytes), "000fa5ff");
}

#[test]
fn hex_encode_empty() {
    let bytes: Vec<u8> = Vec::new();
    assert_eq!(hex_encode(&bytes), "");
}

#[test]
fn hex_encode_matches_reference_crate() {
    let bytes: Vec<u8> = (0u16..=255).map(|b| b as u8).collect();
    assert_eq!(hex_encode(&bytes), hex::encode(&bytes));
}

#[test]
fn hex_decode_round_trip() {
    let bytes: Vec<u8> = vec![0xde, 0xad, 0xbe, 0xef, 0x00, 0x01];
    let text = hex_encode(&bytes);
    assert_eq!(hex_decode(&text), Some(bytes));
}

#[test]
fn hex_decode_accepts_upper_case() {
    assert_eq!(hex_decode("DEADBEEF"), Some(vec![0xde, 0xad, 0xbe, 0xef]));
}

#[test]
fn hex_decode_rejects_odd_length() {
    assert_eq!(hex_decode("abc"), None);
}

#[test]
fn hex_decode_rejects_stray_characters() {
    assert_eq!(hex_decode("zz"), None);
    assert_eq!(hex_decode("12g4"), None);
}

#[test]
fn varint_known_values() {
    let mut out: Vec<u8> = Vec::new();
    push_varint(&mut out, 0);
    push_varint(&mut out, 252);
    push_varint(&mut out, 253);
    push_varint(&mut out, 0xffff);
    push_varint(&mut out, 0x10000);
    push_varint(&mut out, 0x1_0000_0000);
    let mut expected: Vec<u8> = vec![0x00, 0xfc];
    expected.extend_from_slice(&[0xfd, 0xfd, 0x00]);
    expected.extend_from_slice(&[0xfd, 0xff, 0xff]);
    expected.extend_from_slice(&[0xfe, 0x00, 0x00, 0x01, 0x00]);
    expected.extend_from_slice(&[0xff, 0x00, 0x00, 0x00, 0x00, 0x01, 0x00, 0x00, 0x00]);
    assert_eq!(out, expected);
}

#[test]
fn little_endian_integers() {
    let mut out: Vec<u8> = Vec::new();
    push_u32_le(&mut out, 0x01020304);
    push_u64_le(&mut out, 0x0102030405060708);
    assert_eq!(
        out,
        vec![0x04, 0x03, 0x02, 0x01, 0x08, 0x07, 0x06, 0x05, 0x04, 0x03, 0x02, 0x01]
    );
}
