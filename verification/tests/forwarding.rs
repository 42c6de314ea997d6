use pqvpn::crypto::dh_ratchet::{RekeyError, Role};
use pqvpn::crypto::forwarding::{can_process, inbound, outbound, DropReason, Inbound};
use pqvpn::crypto::handshake_wire::{MSG_DATA, MSG_REKEY_OFFER, MSG_REKEY_RESPONSE};
use pqvpn::crypto::noise::TransportKeys;
use pqvpn::crypto::obfuscation::{ObfuscationError, Obfuscator};
use pqvpn::crypto::vpn_session::{VpnError, VpnSession};

fn pair() -> (VpnSession, VpnSession) {
    let a = TransportKeys { send_key: [1; 32], recv_key: [2; 32], root_key: [3; 32] };
    let b = TransportKeys { send_key: [2; 32], recv_key: [1; 32], root_key: [3; 32] };
    (VpnSession::new(a, Role::Initiator), VpnSession::new(b, Role::Responder))
}

fn unpadded_pair() -> (VpnSession, VpnSession) {
    let a = TransportKeys { send_key: [1; 32], recv_key: [2; 32], root_key: [3; 32] };
    let b = TransportKeys { send_key: [2; 32], recv_key: [1; 32], root_key: [3; 32] };
    (
        VpnSession::with_pad_target(a, Role::Initiator, 0),
        VpnSession::with_pad_target(b, Role::Responder, 0),
    )
}

fn dropped(outcome: Inbound) -> Option<DropReason> {
    match outcome {
        Inbound::Dropped(reason) => Some(reason),
        _ => None,
    }
}

fn delivered(outcome: Inbound) -> Option<Vec<u8>> {
    match outcome {
        Inbound::Deliver(payload) => Some(payload),
        _ => None,
    }
}

#[test]
fn payload_crosses_with_and_without_obfuscation() {
    for enabled in [false, true] {
        let (mut a, mut b) = pair();
        let obfuscator = Obfuscator::new(enabled);
        for seq in 0..3u64 {
            let (datagram, wants_rekey) = outbound(&mut a, &obfuscator, seq, b"an IP packet");
            assert!(!wants_rekey);
            assert_eq!(datagram[0], if enabled { 23 } else { MSG_DATA });
            assert!(can_process(&b, &obfuscator, &datagram));
            let outcome = inbound(&mut b, &obfuscator, &datagram);
            assert_eq!(delivered(outcome), Some(b"an IP packet".to_vec()));
        }
    }
}

#[test]
fn plain_packet_gets_through_an_obfuscating_receiver() {
    let (mut a, mut b) = pair();
    let (datagram, _) = outbound(&mut a, &Obfuscator::new(false), 0, b"plain");
    let outcome = inbound(&mut b, &Obfuscator::new(true), &datagram);
    assert_eq!(delivered(outcome), Some(b"plain".to_vec()));
}

#[test]
fn obfuscated_packet_is_dropped_where_obfuscation_is_off() {
    let (mut a, mut b) = pair();
    let (datagram, _) = outbound(&mut a, &Obfuscator::new(true), 0, b"hidden");
    let outcome = inbound(&mut b, &Obfuscator::new(false), &datagram);
    assert_eq!(dropped(outcome), Some(DropReason::UnexpectedType { msg_type: 23 }));
}

#[test]
fn rekey_runs_through_the_packet_loop() {
    let (mut a, mut b) = pair();
    let obfuscator = Obfuscator::new(true);
    let offer = a.begin_rekey();
    let response = match inbound(&mut b, &obfuscator, &offer) {
        Inbound::Reply(response) => response,
        _ => panic!("the offer was not answered"),
    };
    assert!(matches!(inbound(&mut a, &obfuscator, &response), Inbound::Rekeyed));
    assert_eq!((a.epoch(), b.epoch()), (1, 1));
    let (datagram, _) = outbound(&mut b, &obfuscator, 9, b"after");
    assert_eq!(delivered(inbound(&mut a, &obfuscator, &datagram)), Some(b"after".to_vec()));
}

#[test]
fn lost_answer_does_not_interrupt_the_data() {
    let (mut a, mut b) = pair();
    let obfuscator = Obfuscator::new(false);
    let offer = a.offer_rekey();
    let lost = match inbound(&mut b, &obfuscator, &offer) {
        Inbound::Reply(response) => response,
        _ => panic!("the offer was not answered"),
    };
    assert_eq!((a.epoch(), b.epoch()), (0, 1));
    for seq in 0..200u64 {
        let (datagram, _) = outbound(&mut b, &obfuscator, seq, b"to a");
        assert_eq!(datagram[1], 0);
        assert_eq!(delivered(inbound(&mut a, &obfuscator, &datagram)), Some(b"to a".to_vec()));
        let (datagram, _) = outbound(&mut a, &obfuscator, seq, b"to b");
        assert_eq!(delivered(inbound(&mut b, &obfuscator, &datagram)), Some(b"to b".to_vec()));
    }
    // The same offer goes out again, and gets the same answer.
    assert_eq!(a.offer_rekey(), offer);
    let response = match inbound(&mut b, &obfuscator, &offer) {
        Inbound::Reply(response) => response,
        _ => panic!("the offer was not answered again"),
    };
    assert_eq!(response, lost);
    assert_eq!((b.epoch(), b.dh_ratchet_epoch()), (1, 1));
    assert!(matches!(inbound(&mut a, &obfuscator, &response), Inbound::Rekeyed));
    assert_eq!((a.epoch(), a.dh_ratchet_epoch()), (1, 1));
    // The responder moves over once a packet of the new epoch has arrived.
    let (late, _) = outbound(&mut b, &obfuscator, 200, b"still old");
    assert_eq!(late[1], 0);
    let (datagram, _) = outbound(&mut a, &obfuscator, 200, b"new");
    assert_eq!(datagram[1], 1);
    assert_eq!(delivered(inbound(&mut b, &obfuscator, &datagram)), Some(b"new".to_vec()));
    let (datagram, _) = outbound(&mut b, &obfuscator, 201, b"new too");
    assert_eq!(datagram[1], 1);
    assert_eq!(delivered(inbound(&mut a, &obfuscator, &datagram)), Some(b"new too".to_vec()));
    assert_eq!(delivered(inbound(&mut a, &obfuscator, &late)), Some(b"still old".to_vec()));
}

#[test]
fn answer_that_comes_again_is_not_taken_for_a_later_offer() {
    let (mut a, mut b) = pair();
    let obfuscator = Obfuscator::new(false);
    let offer = a.offer_rekey();
    let response = match inbound(&mut b, &obfuscator, &offer) {
        Inbound::Reply(response) => response,
        _ => panic!("the offer was not answered"),
    };
    assert!(matches!(inbound(&mut a, &obfuscator, &response), Inbound::Rekeyed));
    let second = a.offer_rekey();
    assert_ne!(second, offer);
    assert_eq!(
        dropped(inbound(&mut a, &obfuscator, &response)),
        Some(DropReason::ResponseRejected(VpnError::NoRekeyInProgress))
    );
    let response = match inbound(&mut b, &obfuscator, &second) {
        Inbound::Reply(response) => response,
        _ => panic!("the offer was not answered"),
    };
    assert!(matches!(inbound(&mut a, &obfuscator, &response), Inbound::Rekeyed));
    assert_eq!((a.epoch(), b.epoch()), (2, 2));
    let (datagram, _) = outbound(&mut a, &obfuscator, 0, b"after");
    assert_eq!(delivered(inbound(&mut b, &obfuscator, &datagram)), Some(b"after".to_vec()));
}

#[test]
fn wrong_side_drops_rekey_messages() {
    let (mut a, mut b) = pair();
    let obfuscator = Obfuscator::new(false);
    let offer = a.begin_rekey();
    assert_eq!(
        dropped(inbound(&mut a, &obfuscator, &offer)),
        Some(DropReason::UnexpectedType { msg_type: MSG_REKEY_OFFER })
    );
    assert_eq!(
        dropped(inbound(&mut b, &obfuscator, &[MSG_REKEY_RESPONSE])),
        Some(DropReason::UnexpectedType { msg_type: MSG_REKEY_RESPONSE })
    );
}

#[test]
fn bad_datagrams_are_dropped() {
    let (mut a, mut b) = pair();
    let on = Obfuscator::new(true);
    let off = Obfuscator::new(false);
    assert!(matches!(inbound(&mut a, &on, &[]), Inbound::Ignored));
    assert_eq!(
        dropped(inbound(&mut a, &on, &[23, 1, 2])),
        Some(DropReason::Unwrap(ObfuscationError::TooShort))
    );
    assert_eq!(
        dropped(inbound(&mut a, &on, &on.wrap(&[], 0))),
        Some(DropReason::EmptyObfuscatedBody)
    );
    assert_eq!(
        dropped(inbound(&mut a, &off, &[MSG_DATA])),
        Some(DropReason::Decrypt(VpnError::EmptyPacket))
    );
    assert_eq!(
        dropped(inbound(&mut a, &off, &[9, 9])),
        Some(DropReason::UnexpectedType { msg_type: 9 })
    );
    assert_eq!(
        dropped(inbound(&mut a, &off, &[MSG_REKEY_RESPONSE])),
        Some(DropReason::ResponseRejected(VpnError::NoRekeyInProgress))
    );
    let mut offer = vec![MSG_REKEY_OFFER];
    offer.extend_from_slice(&[0u8; 34]);
    assert_eq!(
        dropped(inbound(&mut b, &off, &offer)),
        Some(DropReason::OfferRejected(VpnError::Rekey(RekeyError::MalformedKey)))
    );
}

#[test]
fn packet_threshold_asks_for_a_rekey() {
    let (mut a, _b) = unpadded_pair();
    let obfuscator = Obfuscator::new(false);
    for seq in 0..65_535u64 {
        assert!(!outbound(&mut a, &obfuscator, seq, b"").1);
    }
    assert!(outbound(&mut a, &obfuscator, 65_535, b"").1);
}
