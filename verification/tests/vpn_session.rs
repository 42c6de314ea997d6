use pqvpn::crypto::dh_ratchet::{
    RekeyError, Role, DEFAULT_REKEY_INTERVAL, DEFAULT_REKEY_PACKET_THRESHOLD,
};
use pqvpn::crypto::handshake_wire::{WireError, MSG_REKEY_OFFER, MSG_REKEY_RESPONSE};
use pqvpn::crypto::noise::TransportKeys;
use pqvpn::crypto::session::SessionError;
use pqvpn::crypto::vpn_session::{VpnError, VpnSession};

fn pair() -> (VpnSession, VpnSession) {
    let a = TransportKeys { send_key: [1; 32], recv_key: [2; 32], root_key: [3; 32] };
    let b = TransportKeys { send_key: [2; 32], recv_key: [1; 32], root_key: [3; 32] };
    (VpnSession::new(a, Role::Initiator), VpnSession::new(b, Role::Responder))
}

fn unpadded_pair() -> (VpnSession, VpnSession) {
    let a = TransportKeys { send_key: [1; 32], recv_key: [2; 32], root_key: [3; 32] };
    let b = TransportKeys { send_key: [2; 32], recv_key: [1; 32], root_key: [3; 32] };
    (
        VpnSession::with_pad_target(a, Role::Initiator, 0),
        VpnSession::with_pad_target(b, Role::Responder, 0),
    )
}

fn rekey(initiator: &mut VpnSession, responder: &mut VpnSession) {
    let offer = initiator.begin_rekey();
    let response = responder.respond_to_rekey(&offer).unwrap();
    assert_eq!(initiator.finish_rekey(&response), Ok(()));
}

#[test]
fn data_crosses_in_both_directions() {
    let (mut a, mut b) = pair();
    assert!(a.can_encrypt(5));
    let wire = a.encrypt_for_wire(1, b"there");
    assert_eq!(&wire[..2], &[0, 1]);
    assert_eq!(wire.len(), 1 + 33 + 1400 + 16);
    assert!(b.can_decrypt(&wire));
    assert_eq!(b.decrypt_from_wire(&wire).unwrap(), b"there");
    assert_eq!(b.decrypt_from_wire(&wire), Err(VpnError::Session(SessionError::Replayed { seq: 0 })));
    let wire = b.encrypt_for_wire(1, b"back");
    assert_eq!(a.decrypt_from_wire(&wire).unwrap(), b"back");
}

#[test]
fn rekey_moves_both_ends_to_the_next_epoch() {
    let (mut a, mut b) = pair();
    assert_eq!((a.role(), b.role()), (Role::Initiator, Role::Responder));
    rekey(&mut a, &mut b);
    assert_eq!((a.epoch(), b.epoch()), (1, 1));
    assert_eq!((a.dh_ratchet_epoch(), b.dh_ratchet_epoch()), (1, 1));
    let wire = a.encrypt_for_wire(1, b"new epoch");
    assert_eq!(wire[0], 1);
    assert_eq!(b.decrypt_from_wire(&wire).unwrap(), b"new epoch");
    let wire = b.encrypt_for_wire(1, b"reply");
    assert_eq!(a.decrypt_from_wire(&wire).unwrap(), b"reply");
}

#[test]
fn packets_in_flight_survive_one_rekey() {
    let (mut a, mut b) = pair();
    let first = a.encrypt_for_wire(1, b"first");
    let second = a.encrypt_for_wire(1, b"second");
    rekey(&mut a, &mut b);
    assert_eq!(b.decrypt_from_wire(&first).unwrap(), b"first");
    rekey(&mut a, &mut b);
    assert_eq!(b.decrypt_from_wire(&second), Err(VpnError::UnknownEpoch { epoch: 0 }));
}

#[test]
fn epochs_wrap_around() {
    let (mut a, mut b) = pair();
    for i in 0..255u32 {
        assert_eq!(a.epoch() as u32, i);
        rekey(&mut a, &mut b);
    }
    let last = a.encrypt_for_wire(1, b"epoch 255");
    assert_eq!(last[0], 255);
    rekey(&mut a, &mut b);
    assert_eq!((a.epoch(), a.dh_ratchet_epoch()), (0, 256));
    assert_eq!(b.decrypt_from_wire(&last).unwrap(), b"epoch 255");
    let wire = a.encrypt_for_wire(1, b"epoch 0 again");
    assert_eq!(b.decrypt_from_wire(&wire).unwrap(), b"epoch 0 again");
    let mut stale = wire.clone();
    stale[0] = 254;
    assert_eq!(b.decrypt_from_wire(&stale), Err(VpnError::UnknownEpoch { epoch: 254 }));
}

#[test]
fn only_the_initiator_wants_rekeys() {
    let (a, b) = pair();
    assert!(!a.should_rekey());
    assert!(!b.should_rekey());
    assert!(!a.rekey_due(DEFAULT_REKEY_INTERVAL - 1, 0));
    assert!(a.rekey_due(DEFAULT_REKEY_INTERVAL, 0));
    assert!(!b.rekey_due(DEFAULT_REKEY_INTERVAL, DEFAULT_REKEY_INTERVAL));
}

#[test]
fn lost_offer_only_delays_the_next_rekey() {
    let (mut a, mut b) = unpadded_pair();
    for _ in 0..DEFAULT_REKEY_PACKET_THRESHOLD {
        a.encrypt_for_wire(1, b"");
    }
    assert!(a.should_rekey());
    let _lost = a.begin_rekey();
    assert!(!a.should_rekey());
    assert!(!a.rekey_due(DEFAULT_REKEY_INTERVAL, DEFAULT_REKEY_INTERVAL - 1));
    assert!(a.rekey_due(0, DEFAULT_REKEY_INTERVAL));
    for _ in 0..DEFAULT_REKEY_PACKET_THRESHOLD {
        assert!(!a.should_rekey());
        a.encrypt_for_wire(1, b"");
    }
    assert!(a.should_rekey());
    rekey(&mut a, &mut b);
    assert!(!a.should_rekey());
    assert_eq!((a.epoch(), b.epoch()), (1, 1));
}

#[test]
fn no_rekey_is_called_for_right_after_one() {
    let (mut a, mut b) = unpadded_pair();
    let _lost = a.begin_rekey();
    for _ in 0..DEFAULT_REKEY_PACKET_THRESHOLD {
        a.encrypt_for_wire(1, b"");
    }
    assert!(a.should_rekey());
    let offer = b.begin_rekey();
    assert!(a.respond_to_rekey(&offer).is_ok());
    assert!(!a.should_rekey());
    assert!(!a.rekey_due(0, DEFAULT_REKEY_INTERVAL));
    assert!(a.rekey_due(DEFAULT_REKEY_INTERVAL, 0));
}

#[test]
fn wait_for_the_answer_counts_from_the_offer() {
    let (mut a, _b) = unpadded_pair();
    for _ in 0..DEFAULT_REKEY_PACKET_THRESHOLD {
        a.encrypt_for_wire(1, b"");
    }
    let now = std::time::Instant::now();
    let long_ago = now.checked_sub(std::time::Duration::from_secs(61)).unwrap();
    a.begin_rekey_at(long_ago);
    assert!(a.should_rekey());
    let offer = a.begin_rekey_at(now);
    assert!(!a.should_rekey());
    assert_eq!(a.offer_rekey_at(long_ago), offer);
    assert!(a.should_rekey());
    assert_eq!(a.offer_rekey(), offer);
    assert!(!a.should_rekey());
    assert_ne!(a.begin_rekey(), offer);
}

#[test]
fn offer_that_comes_again_gets_the_same_answer() {
    let (mut a, mut b) = pair();
    let offer = a.offer_rekey();
    assert_eq!((offer.len(), offer[0]), (1219, MSG_REKEY_OFFER));
    let response = b.answer_offer(&offer).unwrap();
    assert_eq!((response.len(), response[0]), (1123, MSG_REKEY_RESPONSE));
    assert_eq!(b.answer_offer(&offer).unwrap(), response);
    assert_eq!(b.epoch(), 1);
    assert!(!a.has_accepted(&response));
    assert_eq!(a.finish_rekey(&response), Ok(()));
    assert!(a.has_accepted(&response));
    assert!(b.answer_offer(&[]).is_err());
    // Asked outright, the responder rekeys again.
    assert_ne!(b.respond_to_rekey(&offer).unwrap(), response);
    assert_eq!(b.epoch(), 2);
}

#[test]
fn responder_sends_in_the_new_epoch_once_it_is_confirmed() {
    let (mut a, mut b) = pair();
    rekey(&mut a, &mut b);
    assert!(b.can_encrypt_for_peer(3));
    assert_eq!(b.encrypt_for_peer(1, b"old")[0], 0);
    assert_eq!(b.encrypt_for_wire(1, b"new")[0], 1);
    let mut forged = a.encrypt_for_peer(1, b"hi");
    assert_eq!(forged[0], 1);
    let wire = a.encrypt_for_peer(1, b"hi");
    forged[40] ^= 1;
    assert!(b.decrypt_from_wire(&forged).is_err());
    assert_eq!(b.encrypt_for_peer(1, b"old")[0], 0);
    assert_eq!(b.decrypt_from_wire(&wire).unwrap(), b"hi");
    assert_eq!(b.encrypt_for_peer(1, b"new")[0], 1);
}

#[test]
fn delivered_packet_stays_refused_across_a_rekey() {
    let (mut a, mut b) = pair();
    let wire = a.encrypt_for_wire(1, b"once");
    let other = a.encrypt_for_wire(1, b"other");
    assert_eq!(b.decrypt_from_wire(&wire).unwrap(), b"once");
    b.encrypt_for_wire(1, b"back");
    assert_eq!(b.decrypt_from_wire(&other).unwrap(), b"other");
    assert!(b.decrypt_from_wire(&wire).is_err());
    rekey(&mut a, &mut b);
    assert_eq!(b.decrypt_from_wire(&wire), Err(VpnError::Session(SessionError::Replayed { seq: 0 })));
    rekey(&mut a, &mut b);
    assert_eq!(b.decrypt_from_wire(&wire), Err(VpnError::UnknownEpoch { epoch: 0 }));
}

#[test]
fn bad_data_packets_are_refused() {
    let (mut a, _b) = pair();
    assert_eq!(a.decrypt_from_wire(&[]), Err(VpnError::EmptyPacket));
    assert_eq!(a.decrypt_from_wire(&[7]), Err(VpnError::UnknownEpoch { epoch: 7 }));
    assert_eq!(a.decrypt_from_wire(&[0]), Err(VpnError::Session(SessionError::TooShort)));
    assert!(a.can_decrypt(&[]));
    assert!(a.can_decrypt(&[7]));
}

#[test]
fn bad_rekey_responses_are_refused_and_close_the_offer() {
    let (mut a, mut b) = pair();
    assert_eq!(a.finish_rekey(&[]), Err(VpnError::NoRekeyInProgress));
    a.begin_rekey();
    assert_eq!(
        a.finish_rekey(&[]),
        Err(VpnError::Wire(WireError::WrongType { expected: MSG_REKEY_RESPONSE }))
    );
    assert_eq!(a.finish_rekey(&[]), Err(VpnError::NoRekeyInProgress));
    a.begin_rekey();
    let mut short = vec![MSG_REKEY_RESPONSE];
    short.extend_from_slice(&[0u8; 34]);
    assert_eq!(a.finish_rekey(&short), Err(VpnError::Rekey(RekeyError::MalformedCiphertext)));
    assert_eq!(a.epoch(), 0);
    let wire = a.encrypt_for_wire(1, b"still here");
    assert_eq!(b.decrypt_from_wire(&wire).unwrap(), b"still here");
}

#[test]
fn bad_rekey_offers_are_refused() {
    let (_a, mut b) = pair();
    assert_eq!(
        b.respond_to_rekey(&[]),
        Err(VpnError::Wire(WireError::WrongType { expected: MSG_REKEY_OFFER }))
    );
    let mut short = vec![MSG_REKEY_OFFER];
    short.extend_from_slice(&[0u8; 34]);
    assert_eq!(b.respond_to_rekey(&short), Err(VpnError::Rekey(RekeyError::MalformedKey)));
    let mut invalid = vec![MSG_REKEY_OFFER];
    invalid.extend_from_slice(&[0u8; 32]);
    invalid.extend_from_slice(&[0xa0, 0x04]);
    invalid.extend_from_slice(&[0xff; 1184]);
    assert_eq!(b.respond_to_rekey(&invalid), Err(VpnError::Rekey(RekeyError::InvalidKey)));
    assert_eq!(b.epoch(), 0);
}

#[test]
fn pad_target_carries_over_to_new_epochs() {
    let a = TransportKeys { send_key: [1; 32], recv_key: [2; 32], root_key: [3; 32] };
    let b = TransportKeys { send_key: [2; 32], recv_key: [1; 32], root_key: [3; 32] };
    let mut a = VpnSession::with_pad_target(a, Role::Initiator, 64);
    let mut b = VpnSession::with_pad_target(b, Role::Responder, 64);
    assert_eq!(a.encrypt_for_wire(1, b"").len(), 1 + 33 + 64 + 16);
    rekey(&mut a, &mut b);
    assert_eq!(a.encrypt_for_wire(1, b"").len(), 1 + 33 + 64 + 16);
}
