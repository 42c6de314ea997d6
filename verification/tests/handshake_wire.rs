use pqvpn::crypto::dh_ratchet::{RekeyOffer, RekeyResponse};
use pqvpn::crypto::handshake_wire::{
    decode_hello, decode_message1, decode_message2, decode_rekey_offer, decode_rekey_response,
    encode_hello, encode_message1, encode_message2, encode_rekey_offer, encode_rekey_response,
    WireError, MSG_DATA, MSG_HANDSHAKE1, MSG_HANDSHAKE2, MSG_HELLO, MSG_REKEY_OFFER,
    MSG_REKEY_RESPONSE,
};
use pqvpn::crypto::noise::{Message1, Message2, StaticIdentity};

fn message1() -> Message1 {
    Message1 {
        e_pub: [1u8; 32],
        kem_ciphertext: vec![2, 3],
        encrypted_static: vec![4],
        encrypted_payload: Vec::new(),
    }
}

#[test]
fn tags_are_distinct_small_numbers() {
    assert_eq!(
        [
            MSG_HELLO,
            MSG_HANDSHAKE1,
            MSG_HANDSHAKE2,
            MSG_REKEY_OFFER,
            MSG_REKEY_RESPONSE,
            MSG_DATA
        ],
        [0, 1, 2, 3, 4, 5]
    );
}

#[test]
fn hello_is_read_back() {
    let id = StaticIdentity::generate();
    let wire = encode_hello(&id);
    assert_eq!(wire.len(), 1 + 32 + 2 + 1184);
    assert_eq!(wire[0], MSG_HELLO);
    assert_eq!(&wire[1..33], &id.public);
    assert_eq!(&wire[33..35], &[0xa0, 0x04]);
    let (public, kem) = decode_hello(&wire).ok().unwrap();
    assert_eq!(public, id.public);
    assert_eq!(kem.as_bytes(), id.kem_encap.as_bytes());
}

#[test]
fn bad_hellos_are_refused() {
    let id = StaticIdentity::generate();
    let wire = encode_hello(&id);
    assert!(matches!(decode_hello(&[]), Err(WireError::WrongType { expected: MSG_HELLO })));
    assert!(matches!(decode_hello(&[MSG_DATA]), Err(WireError::WrongType { expected: MSG_HELLO })));
    assert!(matches!(decode_hello(&wire[..32]), Err(WireError::Truncated { expected: MSG_HELLO })));
    assert!(matches!(decode_hello(&wire[..34]), Err(WireError::TruncatedLengthPrefix)));
    assert!(matches!(decode_hello(&wire[..35]), Err(WireError::TruncatedField)));
    assert!(matches!(decode_hello(&wire[..wire.len() - 1]), Err(WireError::TruncatedField)));
    let mut short = wire.clone();
    short[33] = 0x9f;
    assert!(matches!(decode_hello(&short), Err(WireError::BadKemKeyLength)));
    let mut invalid = wire.clone();
    invalid[35] = 0xff;
    invalid[36] = 0xff;
    assert!(matches!(decode_hello(&invalid), Err(WireError::InvalidKemKey)));
}

#[test]
fn message1_has_its_exact_bytes_and_is_read_back() {
    let wire = encode_message1(&message1());
    let mut expected = vec![MSG_HANDSHAKE1];
    expected.extend_from_slice(&[1u8; 32]);
    expected.extend_from_slice(&[2, 0, 2, 3, 1, 0, 4, 0, 0]);
    assert_eq!(wire, expected);

    let msg = decode_message1(&wire).ok().unwrap();
    assert_eq!(msg.e_pub, [1u8; 32]);
    assert_eq!(msg.kem_ciphertext, vec![2, 3]);
    assert_eq!(msg.encrypted_static, vec![4]);
    assert_eq!(msg.encrypted_payload, Vec::<u8>::new());
}

#[test]
fn every_truncation_of_message1_is_refused() {
    let wire = encode_message1(&message1());
    for len in 0..wire.len() {
        assert!(decode_message1(&wire[..len]).is_err());
    }
    assert!(matches!(decode_message1(&wire[..40]), Err(WireError::TruncatedLengthPrefix)));
    assert!(matches!(decode_message1(&wire[..39]), Err(WireError::TruncatedField)));
}

#[test]
fn trailing_bytes_are_ignored() {
    let mut wire = encode_message1(&message1());
    wire.extend_from_slice(b"more");
    assert_eq!(decode_message1(&wire).ok().unwrap().encrypted_static, vec![4]);
}

#[test]
fn message2_is_read_back() {
    let wire = encode_message2(&Message2 { e_pub: [7u8; 32], encrypted_payload: vec![9; 300] });
    assert_eq!(wire[0], MSG_HANDSHAKE2);
    assert_eq!(&wire[33..36], &[44, 1, 9]);
    let msg = decode_message2(&wire).ok().unwrap();
    assert_eq!(msg.e_pub, [7u8; 32]);
    assert_eq!(msg.encrypted_payload, vec![9; 300]);
    assert!(matches!(
        decode_message2(&wire[..33]),
        Err(WireError::TruncatedLengthPrefix)
    ));
}

#[test]
fn rekey_messages_are_read_back() {
    let offer = RekeyOffer { x_pub: [5u8; 32], kem_ek_bytes: vec![1, 2, 3] };
    let wire = encode_rekey_offer(&offer);
    assert_eq!(wire[0], MSG_REKEY_OFFER);
    let read = decode_rekey_offer(&wire).ok().unwrap();
    assert_eq!(read.x_pub, [5u8; 32]);
    assert_eq!(read.kem_ek_bytes, vec![1, 2, 3]);

    let response = RekeyResponse { x_pub: [6u8; 32], kem_ciphertext: vec![4, 5] };
    let wire = encode_rekey_response(&response);
    assert_eq!(wire[0], MSG_REKEY_RESPONSE);
    let read = decode_rekey_response(&wire).ok().unwrap();
    assert_eq!(read.x_pub, [6u8; 32]);
    assert_eq!(read.kem_ciphertext, vec![4, 5]);
}

#[test]
fn no_message_is_taken_for_another() {
    let wires = [
        encode_hello(&StaticIdentity::generate()),
        encode_message1(&message1()),
        encode_message2(&Message2 { e_pub: [7u8; 32], encrypted_payload: vec![9] }),
        encode_rekey_offer(&RekeyOffer { x_pub: [5u8; 32], kem_ek_bytes: vec![1] }),
        encode_rekey_response(&RekeyResponse { x_pub: [6u8; 32], kem_ciphertext: vec![4] }),
    ];
    for (i, wire) in wires.iter().enumerate() {
        assert_eq!(decode_hello(wire).is_ok(), i == 0);
        assert_eq!(decode_message1(wire).is_ok(), i == 1);
        assert_eq!(decode_message2(wire).is_ok(), i == 2);
        assert_eq!(decode_rekey_offer(wire).is_ok(), i == 3);
        assert_eq!(decode_rekey_response(wire).is_ok(), i == 4);
    }
}

#[test]
fn field_beyond_the_length_prefix_does_not_come_back() {
    let long = Message2 { e_pub: [7u8; 32], encrypted_payload: vec![9; 65537] };
    let msg = decode_message2(&encode_message2(&long)).ok().unwrap();
    assert_eq!(msg.encrypted_payload, vec![9]);
}
