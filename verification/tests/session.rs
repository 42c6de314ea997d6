use chacha20poly1305::aead::{Aead, KeyInit, Payload};
use pqvpn::crypto::noise::{InitiatorHandshake, ResponderHandshake, StaticIdentity, TransportKeys};
use pqvpn::crypto::padding::PadError;
use pqvpn::crypto::ratchet::Ratchet;
use pqvpn::crypto::session::{Session, SessionError};

const PACKET: [u8; 57] = [
    0x01, 0x00, 0x00, 0x00, 0x00, 0x00, 0x00, 0x00, 0x00, 0x09, 0x09, 0x09,
    0x09, 0x09, 0x09, 0x09, 0x09, 0x09, 0x09, 0x09, 0x09, 0x09, 0x09, 0x09,
    0x09, 0x09, 0x09, 0x09, 0x09, 0x09, 0x09, 0x09, 0x09, 0xf0, 0x43, 0x8c,
    0xe3, 0xc4, 0xa6, 0x44, 0x73, 0x30, 0xb2, 0x26, 0xbc, 0xc4, 0xd4, 0x84,
    0x56, 0x6e, 0xcb, 0xa6, 0x7e, 0x89, 0x58, 0xa1, 0xdd,
];

fn handshake_pair() -> (Session, Session) {
    let initiator_id = StaticIdentity::generate();
    let responder_id = StaticIdentity::generate();

    let (init_hs, msg1) =
        InitiatorHandshake::start(&initiator_id, responder_id.public, &responder_id.kem_encap);
    let mut resp_hs = ResponderHandshake::new(&responder_id);
    resp_hs.read_message1(&msg1).unwrap();
    let (msg2, responder_keys) = resp_hs.write_message2().ok().unwrap();
    let initiator_keys = init_hs.finish(msg2).ok().unwrap();

    (Session::new(initiator_keys), Session::new(responder_keys))
}

fn keys(send: u8, recv: u8) -> TransportKeys {
    TransportKeys { send_key: [send; 32], recv_key: [recv; 32], root_key: [0; 32] }
}

#[test]
fn round_trip_through_full_handshake() {
    let (mut init_session, mut resp_session) = handshake_pair();

    let plaintext = b"hello over the wire";
    let wire = init_session.encrypt(0x01, plaintext);
    let decrypted = resp_session.decrypt(&wire).unwrap();
    assert_eq!(decrypted, plaintext);
}

#[test]
fn packets_are_padded_to_constant_size() {
    let (mut init_session, _resp_session) = handshake_pair();
    let short = init_session.encrypt(0x01, b"x");
    let long = init_session.encrypt(0x01, &vec![7u8; 900]);
    assert_eq!(short.len(), long.len());
    assert_eq!(short.len(), 33 + 1400 + 16);
}

#[test]
fn replayed_packet_is_rejected() {
    let (mut init_session, mut resp_session) = handshake_pair();

    let wire1 = init_session.encrypt(0x01, b"first");
    resp_session.decrypt(&wire1).unwrap();

    let replay_result = resp_session.decrypt(&wire1);
    assert!(replay_result.is_err());
    assert_eq!(replay_result, Err(SessionError::Replayed { seq: 0 }));
}

#[test]
fn reordered_packets_within_window_still_decrypt() {
    let (mut init_session, mut resp_session) = handshake_pair();

    let w0 = init_session.encrypt(0x01, b"zero");
    let w1 = init_session.encrypt(0x01, b"one");
    let w2 = init_session.encrypt(0x01, b"two");

    // Arrive out of order.
    assert_eq!(resp_session.decrypt(&w2).unwrap(), b"two");
    assert_eq!(resp_session.decrypt(&w0).unwrap(), b"zero");
    assert_eq!(resp_session.decrypt(&w1).unwrap(), b"one");

    // Any of them replayed again now fails.
    assert!(resp_session.decrypt(&w0).is_err());
}

#[test]
fn many_packets_round_trip_in_order() {
    let (mut init_session, mut resp_session) = handshake_pair();
    for i in 0..500u32 {
        let plaintext = format!("packet {i}");
        let wire = init_session.encrypt(0x01, plaintext.as_bytes());
        let decrypted = resp_session.decrypt(&wire).unwrap();
        assert_eq!(decrypted, plaintext.as_bytes());
    }
}

#[test]
fn packet_has_its_exact_bytes() {
    let mut session = Session::with_pad_target(keys(7, 8), 8);
    assert!(session.can_encrypt(2));
    assert_eq!(session.encrypt_with_nonce(1, b"hi", [9u8; 24]), PACKET);
    let second = session.encrypt_with_nonce(1, b"hi", [9u8; 24]);
    assert_eq!(&second[..9], &[1, 1, 0, 0, 0, 0, 0, 0, 0]);
    assert_ne!(&second[33..], &PACKET[33..]);

    let mut peer = Session::with_pad_target(keys(8, 7), 8);
    assert!(peer.can_decrypt(&PACKET));
    assert_eq!(peer.decrypt(&PACKET).unwrap(), b"hi");
}

#[test]
fn nonces_are_random() {
    let mut a = Session::new(keys(7, 8));
    let mut b = Session::new(keys(7, 8));
    let (wire_a, wire_b) = (a.encrypt(1, b"x"), b.encrypt(1, b"x"));
    assert_eq!(wire_a[..9], wire_b[..9]);
    assert_ne!(wire_a[9..33], wire_b[9..33]);
}

#[test]
fn header_is_authenticated() {
    let mut sender = Session::new(keys(7, 8));
    let wire = sender.encrypt(1, b"payload");
    for i in [0usize, 1, 9, 33, 100] {
        let mut receiver = Session::new(keys(8, 7));
        let mut forged = wire.clone();
        forged[i] ^= 1;
        assert_eq!(receiver.decrypt(&forged), Err(SessionError::DecryptionFailed));
    }
}

#[test]
fn forged_packet_uses_up_the_key_but_not_the_window() {
    let mut sender = Session::new(keys(7, 8));
    let mut receiver = Session::new(keys(8, 7));
    let wire = sender.encrypt(1, b"payload");
    let mut forged = wire.clone();
    forged[40] ^= 1;
    assert_eq!(receiver.decrypt(&forged), Err(SessionError::DecryptionFailed));
    // The window would still take number 0, but its key is gone.
    assert_eq!(receiver.decrypt(&wire), Err(SessionError::OutOfRange { seq: 0 }));
    let next = sender.encrypt(1, b"next");
    assert_eq!(receiver.decrypt(&next).unwrap(), b"next");
}

#[test]
fn short_packets_are_refused() {
    let mut receiver = Session::new(keys(8, 7));
    assert!(receiver.can_decrypt(&[]));
    assert_eq!(receiver.decrypt(&[]), Err(SessionError::TooShort));
    assert_eq!(receiver.decrypt(&[0u8; 32]), Err(SessionError::TooShort));
    assert_eq!(receiver.decrypt(&[0u8; 33]), Err(SessionError::DecryptionFailed));
}

#[test]
fn numbers_too_far_ahead_are_refused() {
    let mut sender = Session::new(keys(7, 8));
    let mut receiver = Session::new(keys(8, 7));
    let wires: Vec<Vec<u8>> = (0..66).map(|_| sender.encrypt(1, b"x")).collect();
    assert_eq!(receiver.decrypt(&wires[65]), Err(SessionError::OutOfRange { seq: 65 }));
    assert_eq!(receiver.decrypt(&wires[64]).unwrap(), b"x");
    // Number 0 is now behind the window, number 1 is not.
    assert_eq!(receiver.decrypt(&wires[0]), Err(SessionError::Replayed { seq: 0 }));
    assert_eq!(receiver.decrypt(&wires[1]).unwrap(), b"x");
    assert_eq!(receiver.decrypt(&wires[65]).unwrap(), b"x");
}

#[test]
fn skip_limit_and_window_agree() {
    let mut sender = Session::new(keys(7, 8));
    let mut receiver = Session::new(keys(8, 7));
    let wires: Vec<Vec<u8>> = (0..66).map(|_| sender.encrypt(1, b"x")).collect();
    assert_eq!(receiver.decrypt(&wires[0]).unwrap(), b"x");
    assert_eq!(receiver.decrypt(&wires[65]), Err(SessionError::OutOfRange { seq: 65 }));
    // Everything between the last number and the farthest one that is in reach
    // can still be had after the jump.
    assert_eq!(receiver.decrypt(&wires[64]).unwrap(), b"x");
    for wire in &wires[1..64] {
        assert_eq!(receiver.decrypt(wire).unwrap(), b"x");
    }
}

#[test]
fn packets_arrive_in_any_order_within_the_window() {
    let mut sender = Session::new(keys(7, 8));
    let mut receiver = Session::new(keys(8, 7));
    let wires: Vec<Vec<u8>> = (0..120u8).map(|i| sender.encrypt(1, &[i])).collect();
    let order = [5usize, 2, 60, 0, 59, 3, 61, 1, 119, 62, 118, 56, 57, 100, 58];
    for (n, &i) in order.iter().enumerate() {
        assert_eq!(receiver.decrypt(&wires[i]).unwrap(), vec![i as u8]);
        for &j in &order[..=n] {
            assert!(receiver.decrypt(&wires[j]).is_err());
        }
    }
}

#[test]
fn last_number_is_out_of_range_for_a_young_session() {
    let mut receiver = Session::new(keys(8, 7));
    let mut wire = vec![1u8];
    wire.extend_from_slice(&[0xff; 8]);
    wire.extend_from_slice(&[0; 40]);
    assert!(receiver.can_decrypt(&wire));
    assert_eq!(receiver.decrypt(&wire), Err(SessionError::OutOfRange { seq: u64::MAX }));
}

#[test]
fn payload_beyond_the_padding_prefix_does_not_come_back() {
    let mut sender = Session::new(keys(7, 8));
    let mut receiver = Session::new(keys(8, 7));
    let wire = sender.encrypt(1, &vec![5u8; 65537]);
    assert_eq!(receiver.decrypt(&wire).unwrap(), vec![5u8]);
}

#[test]
fn authentic_packet_with_bad_padding_is_refused() {
    let key = Ratchet::new([7u8; 32]).advance();
    let aad = [1u8, 0, 0, 0, 0, 0, 0, 0, 0];
    let cipher = chacha20poly1305::XChaCha20Poly1305::new(&key.into());
    let ct = cipher.encrypt(&[9u8; 24].into(), Payload { msg: &[9, 0, 1], aad: &aad }).unwrap();
    let mut wire = aad.to_vec();
    wire.extend_from_slice(&[9u8; 24]);
    wire.extend_from_slice(&ct);
    let mut receiver = Session::new(keys(8, 7));
    assert_eq!(
        receiver.decrypt(&wire),
        Err(SessionError::BadPadding(PadError::LengthExceedsPacket))
    );
    // It was authentic, so its number is used up.
    assert_eq!(receiver.decrypt(&wire), Err(SessionError::Replayed { seq: 0 }));
}

#[test]
fn delivering_takes_note_of_the_number() {
    let mut sender = Session::new(keys(7, 8));
    let mut receiver = Session::new(keys(8, 7));
    let first = sender.encrypt(1, b"first");
    let second = sender.encrypt(1, b"second");
    assert_eq!(receiver.decrypt(&second).unwrap(), b"second");
    assert_eq!(receiver.deliver(0, &[2, 0, b'h', b'i', 0]).unwrap(), b"hi");
    assert_eq!(receiver.decrypt(&first), Err(SessionError::Replayed { seq: 0 }));
    assert_eq!(receiver.deliver(0, &[2]), Err(SessionError::BadPadding(PadError::TooShort)));
}

#[test]
fn session_over_ratchets_matches_session_over_keys() {
    let mut a = Session::from_ratchets(Ratchet::new([7u8; 32]), Ratchet::new([8u8; 32]), 64);
    let mut b = Session::with_pad_target(keys(8, 7), 64);
    let wire = a.encrypt(2, b"over");
    assert_eq!(b.decrypt(&wire).unwrap(), b"over");
    let wire = b.encrypt(3, b"back");
    assert_eq!(a.decrypt(&wire).unwrap(), b"back");
}
