use pinset::hexstr::hex_decode;
use pinset::hexstr::hex_encode_lower;
use pinset::meta::decode_meta;
use pinset::meta::DecodeError;

/// A real attested record: magic prefix, then CBOR carrying an add event for
/// `0xc0d477556c25c9d67e1f57245c7453da776b51cf`.
const VALID_META: &str = "0xff0a89c674ee7874a3005501c0d477556c25c9d67e1f57245c7453da776b51cf011bffb2637608c09e3802706170706c69636174696f6e2f63626f72";

const MAGIC: &str = "0xff0a89c674ee7874";

#[test]
fn hex_decode_exact_value() {
    assert_eq!(hex_decode("00ff10Ab"), Some(vec![0x00, 0xff, 0x10, 0xab]));
    assert_eq!(hex_decode(""), Some(vec![]));
}

#[test]
fn hex_decode_rejects_bad_input() {
    assert_eq!(hex_decode("abc"), None);
    assert_eq!(hex_decode("zz"), None);
    assert_eq!(hex_decode("0g"), None);
}

#[test]
fn hex_encode_exact_value() {
    assert_eq!(hex_encode_lower(&vec![0x00, 0xff, 0x10, 0xab]), "00ff10ab");
    assert_eq!(hex_encode_lower(&vec![]), "");
}

#[test]
fn decode_valid_meta_recovers_event() {
    let rec = decode_meta(VALID_META).expect("the reference record decodes");
    assert!(rec.is_add);
    assert_eq!(
        rec.address.to_text(),
        "0xc0d477556c25c9d67e1f57245c7453da776b51cf"
    );
}

#[test]
fn decode_remove_tag_meta() {
    // Same record with action tag zero: any tag other than one means remove.
    let meta = format!(
        "{}a1005500c0d477556c25c9d67e1f57245c7453da776b51cf",
        MAGIC
    );
    let rec = decode_meta(&meta).expect("well-formed record decodes");
    assert!(!rec.is_add);
    assert_eq!(
        rec.address.to_text(),
        "0xc0d477556c25c9d67e1f57245c7453da776b51cf"
    );
}

#[test]
fn decode_short_meta_fails_too_short() {
    assert_eq!(decode_meta("").unwrap_err(), DecodeError::TooShort);
    assert_eq!(
        decode_meta("0000000000000000").unwrap_err(),
        DecodeError::TooShort
    );
    // Exactly at the boundary the prefix is complete and the rest is empty
    // hex, which is no CBOR document.
    assert_ne!(decode_meta(MAGIC).unwrap_err(), DecodeError::TooShort);
}

#[test]
fn decode_bad_hex_fails() {
    let odd = format!("{}abc", MAGIC);
    assert_eq!(decode_meta(&odd).unwrap_err(), DecodeError::HexDecode);
    let bad = format!("{}zz", MAGIC);
    assert_eq!(decode_meta(&bad).unwrap_err(), DecodeError::HexDecode);
}

#[test]
fn decode_bad_cbor_fails() {
    // 0x00 is a bare CBOR integer, not a map carrying a payload.
    let not_a_map = format!("{}00", MAGIC);
    assert_eq!(decode_meta(&not_a_map).unwrap_err(), DecodeError::CborDecode);
    // Nothing after the prefix at all.
    assert_eq!(decode_meta(MAGIC).unwrap_err(), DecodeError::CborDecode);
}

#[test]
fn decode_empty_payload_fails() {
    // A map whose payload entry is an empty byte string.
    let empty_payload = format!("{}a10040", MAGIC);
    assert_eq!(
        decode_meta(&empty_payload).unwrap_err(),
        DecodeError::EmptyPayload
    );
}

#[test]
fn decode_bad_address_length_fails() {
    // Payload of two bytes: a tag and a one-byte address.
    let short_addr = format!("{}a1004201aa", MAGIC);
    assert_eq!(
        decode_meta(&short_addr).unwrap_err(),
        DecodeError::BadAddressLength
    );
    // Payload of twenty-three bytes: a tag and twenty-two address bytes.
    let long_addr = format!(
        "{}a1005701c0d477556c25c9d67e1f57245c7453da776b51cfaaaa",
        MAGIC
    );
    assert_eq!(
        decode_meta(&long_addr).unwrap_err(),
        DecodeError::BadAddressLength
    );
}
