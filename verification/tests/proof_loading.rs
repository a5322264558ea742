use genartifacts::ProofError;
use genartifacts::decode_proof_hex;

#[test]
fn proof_round_trip_from_hex_text() {
    let bytes = decode_proof_hex(b"deadbeef").unwrap();
    assert_eq!(bytes, vec![0xde, 0xad, 0xbe, 0xef]);
}

#[test]
fn uppercase_and_mixed_case_digits_decode_alike() {
    let upper = decode_proof_hex(b"DEADBEEF").unwrap();
    let mixed = decode_proof_hex(b"DeAdBeEf").unwrap();
    assert_eq!(upper, vec![0xde, 0xad, 0xbe, 0xef]);
    assert_eq!(mixed, vec![0xde, 0xad, 0xbe, 0xef]);
}

#[test]
fn odd_length_text_is_rejected() {
    let err = decode_proof_hex(b"abc").unwrap_err();
    assert_eq!(err, ProofError::Decode);
}

#[test]
fn non_hex_characters_are_rejected() {
    let err = decode_proof_hex(b"zz").unwrap_err();
    assert_eq!(err, ProofError::Decode);
    let err = decode_proof_hex(b"0g").unwrap_err();
    assert_eq!(err, ProofError::Decode);
}

#[test]
fn empty_text_decodes_to_no_bytes() {
    let bytes = decode_proof_hex(b"").unwrap();
    assert_eq!(bytes, Vec::<u8>::new());
}

#[test]
fn every_byte_value_round_trips() {
    let mut text = String::new();
    for b in 0..=255u8 {
        text.push_str(&format!("{:02x}", b));
    }
    let bytes = decode_proof_hex(text.as_bytes()).unwrap();
    let expected: Vec<u8> = (0..=255u8).collect();
    assert_eq!(bytes, expected);
}
