//! The bytes that would go over the network are opaque, and what goes in at one
//! end of a link comes out at the other.
use pqvpn::crypto::dh_ratchet::Role;
use pqvpn::crypto::exchange::{answer_handshake, handshake_reply, HandshakeAnswer};
use pqvpn::crypto::handshake_wire::{encode_message1, MSG_DATA};
use pqvpn::crypto::noise::{InitiatorHandshake, StaticIdentity};
use pqvpn::crypto::obfuscation::Obfuscator;
use pqvpn::crypto::vpn_session::VpnSession;

const MARKER: &[u8] = b"PING-INTEGRATION-TEST-PAYLOAD-MARKER";

fn send_data_packet(
    session: &mut VpnSession,
    obfuscator: &Obfuscator,
    record_seq: u64,
    plaintext: &[u8],
) -> Vec<u8> {
    let data_wire = session.encrypt_for_wire(0x01, plaintext);
    let mut outer = Vec::with_capacity(1 + data_wire.len());
    outer.push(MSG_DATA);
    outer.extend_from_slice(&data_wire);
    obfuscator.wrap(&outer, record_seq)
}

fn decrypt_captured(session: &mut VpnSession, obfuscator: &Obfuscator, captured: &[u8]) -> Vec<u8> {
    let unwrapped = obfuscator.unwrap(captured).unwrap();
    assert!(!unwrapped.is_empty(), "empty captured packet");
    assert!(unwrapped[0] == MSG_DATA, "expected a data packet");
    session.decrypt_from_wire(&unwrapped[1..]).unwrap()
}

fn handshake_pair() -> (VpnSession, VpnSession) {
    let initiator_id = StaticIdentity::generate();
    let responder_id = StaticIdentity::generate();
    let (hs, msg1) =
        InitiatorHandshake::start(&initiator_id, responder_id.public, &responder_id.kem_encap);
    let (wire2, responder_keys) = match answer_handshake(&responder_id, &encode_message1(&msg1)) {
        HandshakeAnswer::Accepted { wire, keys } => (wire, keys),
        _ => panic!("responder handshake succeeds"),
    };
    let initiator_keys = handshake_reply(&hs, true, &wire2).expect("initiator handshake succeeds");
    (
        VpnSession::new(initiator_keys, Role::Initiator),
        VpnSession::new(responder_keys, Role::Responder),
    )
}

#[test]
fn wire_bytes_are_opaque_and_round_trip_without_obfuscation() {
    let (mut initiator_session, mut responder_session) = handshake_pair();
    let obfuscator = Obfuscator::new(false);
    let captured = send_data_packet(&mut initiator_session, &obfuscator, 0, MARKER);

    assert!(
        !captured.windows(MARKER.len()).any(|w| w == MARKER),
        "plaintext marker leaked onto the wire uncrypted"
    );

    // MSG_DATA(1) || epoch(1) || pkt_type(1) || seq(8) || nonce(24) || ciphertext.
    assert_eq!(captured[0], MSG_DATA);

    let decrypted = decrypt_captured(&mut responder_session, &obfuscator, &captured);
    assert_eq!(decrypted, MARKER);
}

#[test]
fn obfuscated_wire_bytes_look_like_dtls_and_still_round_trip() {
    let (mut initiator_session, mut responder_session) = handshake_pair();
    let obfuscator = Obfuscator::new(true);
    let captured = send_data_packet(&mut initiator_session, &obfuscator, 7, MARKER);

    assert!(
        !captured.windows(MARKER.len()).any(|w| w == MARKER),
        "plaintext marker leaked onto the wire uncrypted"
    );

    assert_eq!(captured[0], 0x17, "obfuscated packet should start with fake DTLS content type");
    assert_eq!(&captured[1..3], &[0xfe, 0xfd], "obfuscated packet should carry fake DTLS 1.2 version bytes");
    assert_ne!(captured[0], MSG_DATA);

    let decrypted = decrypt_captured(&mut responder_session, &obfuscator, &captured);
    assert_eq!(decrypted, MARKER);
}

#[test]
fn full_round_trip_multiple_packets_both_directions() {
    let (mut initiator_session, mut responder_session) = handshake_pair();
    let obfuscator = Obfuscator::new(false);

    for (i, payload) in [b"hello-a".as_slice(), b"hello-b", b"hello-c"].iter().enumerate() {
        let captured = send_data_packet(&mut initiator_session, &obfuscator, i as u64, payload);
        let decrypted = decrypt_captured(&mut responder_session, &obfuscator, &captured);
        assert_eq!(decrypted, *payload);
    }

    // And the reverse direction.
    let captured = send_data_packet(&mut responder_session, &obfuscator, 0, b"reply");
    let decrypted = decrypt_captured(&mut initiator_session, &obfuscator, &captured);
    assert_eq!(decrypted, b"reply");
}
