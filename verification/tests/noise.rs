use chacha20poly1305::aead::{Aead, KeyInit, Payload};
use chacha20poly1305::ChaCha20Poly1305;
use hkdf::Hkdf;
use pqvpn::crypto::exchange::{answer_handshake, HandshakeAnswer};
use pqvpn::crypto::handshake_wire::encode_message1;
use pqvpn::crypto::keys::{EncapsulationKey, X25519Secret};
use pqvpn::crypto::noise::{
    HandshakeError, InitiatorHandshake, Message1, Message2, ResponderHandshake, StaticIdentity,
    PROTOCOL_NAME,
};
use sha2::{Digest, Sha256};

const ENCRYPTED_STATIC: [u8; 48] = [
    0x77, 0xc6, 0xf7, 0xb6, 0x6e, 0xff, 0xa5, 0xc1, 0x76, 0xd6, 0xae, 0x8b,
    0xaf, 0x8d, 0x9a, 0x77, 0x5c, 0x05, 0x9d, 0xa9, 0x3c, 0x5c, 0x90, 0xfd,
    0x9a, 0xc1, 0xdb, 0x4b, 0x02, 0x95, 0x8e, 0x16, 0x82, 0xd0, 0x18, 0x9a,
    0x22, 0xa4, 0xae, 0x94, 0x33, 0x22, 0xe0, 0xd6, 0xe9, 0xa4, 0x41, 0xee,
];

const ENCRYPTED_PAYLOAD: [u8; 16] = [
    0xf1, 0x42, 0x4c, 0x77, 0x91, 0x36, 0xb7, 0xab, 0x83, 0x8c, 0xa2, 0x16,
    0xa6, 0x49, 0xef, 0xdf,
];

const REPLY_PAYLOAD: [u8; 16] = [
    0xe8, 0xa9, 0x96, 0x02, 0xb4, 0xd9, 0x49, 0xc0, 0x36, 0x91, 0x30, 0x4f,
    0x47, 0x1a, 0x5f, 0x9e,
];

const INITIATOR_SEND: [u8; 32] = [
    0x4f, 0xb0, 0xba, 0xe7, 0xea, 0xe2, 0xdc, 0x33, 0xd7, 0xb7, 0x67, 0xc2,
    0xe1, 0x0a, 0xaa, 0xf4, 0xed, 0x10, 0xf0, 0xc5, 0xb6, 0x34, 0x4e, 0x66,
    0xb6, 0x19, 0x5b, 0xcf, 0xf4, 0xfa, 0xc4, 0x23,
];

const INITIATOR_RECV: [u8; 32] = [
    0x39, 0xa0, 0x81, 0x37, 0x21, 0xf8, 0x05, 0xd9, 0x56, 0xaa, 0x16, 0x1b,
    0x65, 0xe7, 0x3d, 0x8e, 0xa4, 0xc0, 0xfd, 0x0f, 0xad, 0xbf, 0x34, 0x73,
    0x4a, 0x9d, 0x01, 0x53, 0xd1, 0xc2, 0x59, 0xe5,
];

const ROOT_KEY: [u8; 32] = [
    0xca, 0x2f, 0xf0, 0x5c, 0x35, 0x41, 0x12, 0x0b, 0xe9, 0xbb, 0xbe, 0x78,
    0x04, 0x3a, 0xd8, 0x44, 0xf4, 0x8a, 0x84, 0xc0, 0xee, 0x69, 0xfa, 0x93,
    0x86, 0x20, 0xc3, 0xac, 0xb7, 0xeb, 0x5b, 0x4b,
];

/// A fixed X25519 key pair with a random KEM key pair.
fn identity(secret: u8) -> StaticIdentity {
    let secret = X25519Secret::from_bytes([secret; 32]);
    let public = secret.public_key();
    let other = StaticIdentity::generate();
    StaticIdentity {
        secret,
        public,
        kem_decap: other.kem_decap.clone(),
        kem_encap: other.kem_encap.clone(),
    }
}

#[test]
fn handshake_produces_matching_crossed_transport_keys() {
    let initiator_id = StaticIdentity::generate();
    let responder_id = StaticIdentity::generate();

    let (init_hs, msg1) = InitiatorHandshake::start(&initiator_id, responder_id.public, &responder_id.kem_encap);

    let mut resp_hs = ResponderHandshake::new(&responder_id);
    let learned_initiator_static = resp_hs.read_message1(&msg1).expect("msg1 decrypts");
    assert_eq!(learned_initiator_static, initiator_id.public);

    let (msg2, responder_keys) = resp_hs.write_message2().ok().expect("write msg2");
    let initiator_keys = init_hs.finish(msg2).ok().expect("msg2 decrypts");

    // Each side's send key must equal the other side's recv key.
    assert_eq!(initiator_keys.send_key, responder_keys.recv_key);
    assert_eq!(initiator_keys.recv_key, responder_keys.send_key);
    assert_eq!(initiator_keys.root_key, responder_keys.root_key);
}

#[test]
fn tampered_message1_fails_auth() {
    let initiator_id = StaticIdentity::generate();
    let responder_id = StaticIdentity::generate();

    let (_init_hs, mut msg1) = InitiatorHandshake::start(&initiator_id, responder_id.public, &responder_id.kem_encap);
    // Flip a bit in the encrypted static key ciphertext.
    msg1.encrypted_static[0] ^= 0x01;

    let mut resp_hs = ResponderHandshake::new(&responder_id);
    assert!(resp_hs.read_message1(&msg1).is_err());
}

#[test]
fn messages_and_keys_have_their_exact_values() {
    let local = identity(1);
    let remote = X25519Secret::from_bytes([3u8; 32]).public_key();
    let kem = EncapsulationKey::new(&[0u8; 1184]).unwrap();
    let (hs, msg1) = InitiatorHandshake::start_with(
        &local,
        remote,
        &kem,
        X25519Secret::from_bytes([2u8; 32]),
        vec![8u8; 1088],
        [6u8; 32],
    );
    assert_eq!(msg1.e_pub, X25519Secret::from_bytes([2u8; 32]).public_key());
    assert_eq!(msg1.kem_ciphertext, vec![8u8; 1088]);
    assert_eq!(msg1.encrypted_static, ENCRYPTED_STATIC);
    assert_eq!(msg1.encrypted_payload, ENCRYPTED_PAYLOAD);

    let e_pub = X25519Secret::from_bytes([4u8; 32]).public_key();
    let keys = hs
        .finish(Message2 { e_pub, encrypted_payload: REPLY_PAYLOAD.to_vec() })
        .ok()
        .expect("msg2 decrypts");
    assert_eq!(keys.send_key, INITIATOR_SEND);
    assert_eq!(keys.recv_key, INITIATOR_RECV);
    assert_eq!(keys.root_key, ROOT_KEY);
}

#[test]
fn reply_depends_on_the_given_ephemeral_only() {
    let local = identity(1);
    let remote = identity(3);
    let (_hs, msg1) = InitiatorHandshake::start(&local, remote.public, &remote.kem_encap);
    let mut a = ResponderHandshake::new(&remote);
    let mut b = ResponderHandshake::new(&remote);
    a.read_message1(&msg1).unwrap();
    b.read_message1(&msg1).unwrap();
    let (msg_a, keys_a) = a.write_message2_with(X25519Secret::from_bytes([4u8; 32])).ok().unwrap();
    let (msg_b, keys_b) = b.write_message2_with(X25519Secret::from_bytes([4u8; 32])).ok().unwrap();
    assert_eq!(msg_a.e_pub, msg_b.e_pub);
    assert_eq!(msg_a.encrypted_payload, msg_b.encrypted_payload);
    assert_eq!(keys_a.send_key, keys_b.send_key);
    assert_eq!(keys_a.recv_key, keys_b.recv_key);
}

#[test]
fn every_part_of_message1_is_authenticated() {
    let local = StaticIdentity::generate();
    let remote = StaticIdentity::generate();
    for part in 0..4 {
        let (_hs, mut msg1) = InitiatorHandshake::start(&local, remote.public, &remote.kem_encap);
        match part {
            0 => msg1.e_pub[5] ^= 4,
            1 => msg1.encrypted_payload[3] ^= 1,
            2 => msg1.encrypted_static[47] ^= 1,
            _ => msg1.encrypted_static.truncate(3),
        }
        let mut hs = ResponderHandshake::new(&remote);
        assert_eq!(hs.read_message1(&msg1), Err(HandshakeError::DecryptionFailed));
        assert!(matches!(hs.write_message2(), Err(HandshakeError::MessageOneMissing)));
    }
}

#[test]
fn tampered_kem_ciphertext_fails_the_handshake() {
    let local = StaticIdentity::generate();
    let remote = StaticIdentity::generate();
    let (hs, mut msg1) = InitiatorHandshake::start(&local, remote.public, &remote.kem_encap);
    msg1.kem_ciphertext[0] ^= 1;
    let mut resp = ResponderHandshake::new(&remote);
    // The payload key does not depend on the KEM, so this shows only later.
    resp.read_message1(&msg1).unwrap();
    let (msg2, _keys) = resp.write_message2().ok().unwrap();
    assert!(matches!(hs.finish(msg2), Err(HandshakeError::DecryptionFailed)));
}

#[test]
fn kem_ciphertext_of_the_wrong_length_is_refused() {
    let local = StaticIdentity::generate();
    let remote = StaticIdentity::generate();
    let (_hs, mut msg1) = InitiatorHandshake::start(&local, remote.public, &remote.kem_encap);
    msg1.kem_ciphertext.pop();
    let mut resp = ResponderHandshake::new(&remote);
    assert_eq!(resp.read_message1(&msg1), Err(HandshakeError::MalformedKemCiphertext));
}

#[test]
fn message2_needs_message1() {
    let remote = StaticIdentity::generate();
    let resp = ResponderHandshake::new(&remote);
    assert!(matches!(resp.write_message2(), Err(HandshakeError::MessageOneMissing)));
}

#[test]
fn message1_for_another_responder_is_refused() {
    let local = StaticIdentity::generate();
    let remote = StaticIdentity::generate();
    let stranger = StaticIdentity::generate();
    let (_hs, msg1) = InitiatorHandshake::start(&local, remote.public, &remote.kem_encap);
    let mut resp = ResponderHandshake::new(&stranger);
    assert_eq!(resp.try_read_message1(&msg1), Some(Err(HandshakeError::DecryptionFailed)));
}

#[test]
fn protocol_name_is_spelled_right() {
    assert_eq!(&PROTOCOL_NAME, b"Noise_IK_25519_MLKEM768_ChaChaPoly_SHA256");
}

fn absorb(h: [u8; 32], data: &[u8]) -> [u8; 32] {
    Sha256::digest([&h[..], data].concat()).into()
}

#[test]
fn authentic_static_key_of_the_wrong_length_is_told_apart() {
    let remote = StaticIdentity::generate();
    let ephemeral = X25519Secret::random();
    let e_pub = ephemeral.public_key();
    let start: [u8; 32] = Sha256::digest(PROTOCOL_NAME).into();
    let h = absorb(absorb(absorb(start, &remote.public), remote.kem_encap.as_bytes()), &e_pub);
    let mut okm = [0u8; 64];
    let es = ephemeral.diffie_hellman(&remote.public);
    Hkdf::<Sha256>::new(Some(&start), &es).expand(&[], &mut okm).unwrap();
    let key: [u8; 32] = okm[32..].try_into().unwrap();
    let cipher = ChaCha20Poly1305::new(&key.into());
    let encrypted_static =
        cipher.encrypt(&[0u8; 12].into(), Payload { msg: b"short", aad: &h }).unwrap();
    let msg1 = Message1 {
        e_pub,
        kem_ciphertext: vec![0; 1088],
        encrypted_static,
        encrypted_payload: vec![0; 16],
    };
    let mut hs = ResponderHandshake::new(&remote);
    assert_eq!(hs.try_read_message1(&msg1), None);
    assert!(matches!(
        answer_handshake(&remote, &encode_message1(&msg1)),
        HandshakeAnswer::OddStatic
    ));
    // Nothing changed: a proper message 1 is still accepted.
    let local = StaticIdentity::generate();
    let (_hs, good) = InitiatorHandshake::start(&local, remote.public, &remote.kem_encap);
    assert_eq!(hs.try_read_message1(&good), Some(Ok(local.public)));
}

#[test]
fn failed_finish_can_be_retried() {
    let local = StaticIdentity::generate();
    let remote = StaticIdentity::generate();
    let (hs, msg1) = InitiatorHandshake::start(&local, remote.public, &remote.kem_encap);
    let mut resp = ResponderHandshake::new(&remote);
    assert_eq!(resp.try_read_message1(&msg1), Some(Ok(local.public)));
    let (msg2, keys) = resp.write_message2().ok().unwrap();
    let bad = Message2 { e_pub: msg2.e_pub, encrypted_payload: vec![0u8; 16] };
    assert!(matches!(hs.finish(bad), Err(HandshakeError::DecryptionFailed)));
    let done = hs.finish(msg2).ok().unwrap();
    assert_eq!(done.send_key, keys.recv_key);
}
