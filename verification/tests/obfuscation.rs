use pqvpn::crypto::obfuscation::{
    ObfuscationError, Obfuscator, DTLS_1_2_VERSION, DTLS_CONTENT_TYPE_APPLICATION_DATA, HEADER_LEN,
};

#[test]
fn round_trips_when_enabled() {
    let obf = Obfuscator::new(true);
    let wire = b"pretend-this-is-ciphertext";
    let framed = obf.wrap(wire, 42);
    assert_eq!(obf.unwrap(&framed).unwrap(), wire);
}

#[test]
fn wrapped_packet_starts_with_dtls_looking_header() {
    let obf = Obfuscator::new(true);
    let framed = obf.wrap(b"payload", 1);
    assert_eq!(framed[0], DTLS_CONTENT_TYPE_APPLICATION_DATA);
    assert_eq!(&framed[1..3], &DTLS_1_2_VERSION);
}

#[test]
fn passthrough_when_disabled() {
    let obf = Obfuscator::new(false);
    let wire = b"raw session packet";
    let framed = obf.wrap(wire, 0);
    assert_eq!(framed, wire);
    assert_eq!(obf.unwrap(&framed).unwrap(), wire);
}

#[test]
fn rejects_tampered_length_field() {
    let obf = Obfuscator::new(true);
    let mut framed = obf.wrap(b"payload", 5);
    framed[11] = 0xff;
    framed[12] = 0xff;
    assert!(obf.unwrap(&framed).is_err());
}

#[test]
fn header_has_its_exact_bytes() {
    let obf = Obfuscator::new(true);
    assert!(obf.enabled());
    assert!(!Obfuscator::new(false).enabled());
    assert_eq!(
        obf.wrap(&[0xaa, 0xbb], 0x1122_3344_5566_7788),
        vec![
            23, 0xfe, 0xfd, 0, 0, 0x33, 0x44, 0x55, 0x66, 0x77, 0x88, 0, 2, 0xaa, 0xbb,
        ]
    );
    let long = vec![0u8; 0x1234];
    assert_eq!(&obf.wrap(&long, 0)[11..13], &[0x12, 0x34]);
}

#[test]
fn malformed_headers_are_refused() {
    let obf = Obfuscator::new(true);
    let framed = obf.wrap(b"payload", 5);
    assert_eq!(obf.unwrap(&framed[..HEADER_LEN - 1]), Err(ObfuscationError::TooShort));
    assert_eq!(obf.unwrap(&framed[..HEADER_LEN]), Err(ObfuscationError::LengthMismatch));
    let mut other = framed.clone();
    other[0] = 22;
    assert_eq!(obf.unwrap(&other), Err(ObfuscationError::UnexpectedContentType));
    // Neither the version nor the sequence number is looked at.
    let mut other = framed.clone();
    other[1] = 0;
    other[5] = 0xff;
    assert_eq!(obf.unwrap(&other), Ok(&b"payload"[..]));
    assert_eq!(obf.unwrap(&obf.wrap(b"", 0)), Ok(&b""[..]));
}

#[test]
fn packet_beyond_the_length_field_does_not_come_back() {
    let obf = Obfuscator::new(true);
    let framed = obf.wrap(&vec![1u8; 65536], 0);
    assert_eq!(framed.len(), 65536 + HEADER_LEN);
    assert_eq!(obf.unwrap(&framed), Err(ObfuscationError::LengthMismatch));
}
