use std::time::Duration;

use pqvpn::crypto::dh_ratchet::{
    DhRatchetState, RatchetPolicy, RekeyError, RekeyOffer, RekeyResponse, Role,
    DEFAULT_REKEY_INTERVAL, DEFAULT_REKEY_PACKET_THRESHOLD,
};
use pqvpn::crypto::keys::{DecapsulationKey, X25519Secret};
use pqvpn::crypto::ratchet::Ratchet;

const ROOT: [u8; 32] = [
    0x23, 0x0a, 0x59, 0xc7, 0x11, 0x4d, 0x25, 0xb0, 0xe6, 0x6b, 0x8a, 0xd9,
    0x02, 0x50, 0x79, 0x5a, 0xf4, 0x13, 0x1d, 0x70, 0x31, 0xda, 0x85, 0x9a,
    0x01, 0x91, 0x63, 0xb7, 0xab, 0x53, 0x00, 0xc9,
];

const FIRST_KEY_K1: [u8; 32] = [
    0x05, 0x07, 0xba, 0x44, 0xb4, 0x71, 0x05, 0x80, 0xac, 0x06, 0x76, 0xf6,
    0xb1, 0x71, 0xce, 0xaf, 0x1c, 0xeb, 0x74, 0x1e, 0x3e, 0x8a, 0x4f, 0x0d,
    0xd6, 0x7d, 0xe3, 0xa0, 0x31, 0x3d, 0x8c, 0x06,
];

const FIRST_KEY_K2: [u8; 32] = [
    0x3e, 0x6d, 0x93, 0xd5, 0x1c, 0x9e, 0xda, 0xe0, 0xe3, 0x3b, 0x79, 0x7d,
    0x94, 0xd2, 0xba, 0x5f, 0x47, 0x1f, 0xe8, 0xbb, 0x99, 0xb0, 0x83, 0x50,
    0xd3, 0xe1, 0x9b, 0x51, 0x24, 0x18, 0xab, 0xe8,
];

#[test]
fn both_sides_derive_matching_crossed_chains() {
    let seed = [3u8; 32];
    let mut initiator = DhRatchetState::new(seed, Role::Initiator, RatchetPolicy::default());
    let mut responder = DhRatchetState::new(seed, Role::Responder, RatchetPolicy::default());

    let (offer, pending) = initiator.begin_rekey_as_initiator();
    let (response, mut resp_send, mut resp_recv) =
        responder.respond_to_rekey(offer).ok().expect("responder answers offer");
    let (mut init_send, mut init_recv) = initiator
        .finish_rekey_as_initiator(pending, response)
        .ok()
        .expect("initiator finishes rekey");

    assert_eq!(init_send.advance(), resp_recv.advance());
    assert_eq!(resp_send.advance(), init_recv.advance());
    assert_eq!(initiator.epoch(), 1);
    assert_eq!(responder.epoch(), 1);
    assert_eq!(initiator.root_key(), responder.root_key());
    assert_ne!(initiator.root_key(), &seed);
}

#[test]
fn rekey_resets_packet_counter_and_clears_threshold_trigger() {
    let seed = [9u8; 32];
    let mut initiator = DhRatchetState::new(
        seed,
        Role::Initiator,
        RatchetPolicy {
            interval: Duration::from_secs(3600).as_nanos(),
            packet_threshold: 10,
        },
    );
    let mut responder = DhRatchetState::new(
        seed,
        Role::Responder,
        RatchetPolicy {
            interval: Duration::from_secs(3600).as_nanos(),
            packet_threshold: 10,
        },
    );
    for _ in 0..10 {
        initiator.record_packet_sent();
    }
    assert!(initiator.should_rekey());

    let (offer, pending) = initiator.begin_rekey_as_initiator();
    let (response, _, _) = responder.respond_to_rekey(offer).ok().unwrap();
    assert!(initiator.finish_rekey_as_initiator(pending, response).is_ok());

    assert_eq!(initiator.packets_since_rekey(), 0);
    assert!(!initiator.should_rekey());
}

#[test]
fn root_key_memory_is_actually_zeroized_on_drop() {
    let seed = [0x77u8; 32];
    let mut state = DhRatchetState::new(seed, Role::Initiator, RatchetPolicy::default());
    assert_eq!(state.root_key(), &seed);
    state.erase();
    let after = state.root_key();
    assert_eq!(after, &[0u8; 32], "root_key bytes were not zeroized on drop");
    assert_ne!(after, &seed, "sanity check: zeroized value differs from original seed");
}

#[test]
fn time_threshold_triggers_independent_of_packet_count() {
    let state = DhRatchetState::new(
        [1u8; 32],
        Role::Initiator,
        RatchetPolicy {
            interval: Duration::from_millis(0).as_nanos(),
            packet_threshold: DEFAULT_REKEY_PACKET_THRESHOLD,
        },
    );
    assert!(state.should_rekey());
}

#[test]
fn default_policy_is_a_minute_or_65536_packets() {
    assert_eq!(DEFAULT_REKEY_INTERVAL, Duration::from_secs(60).as_nanos());
    assert_eq!(DEFAULT_REKEY_PACKET_THRESHOLD, 1 << 16);
    let policy = RatchetPolicy::default();
    assert_eq!(policy.interval, DEFAULT_REKEY_INTERVAL);
    assert_eq!(policy.packet_threshold, DEFAULT_REKEY_PACKET_THRESHOLD);
}

#[test]
fn rekey_is_due_at_either_threshold() {
    let mut state = DhRatchetState::new(
        [1u8; 32],
        Role::Initiator,
        RatchetPolicy { interval: 1000, packet_threshold: 2 },
    );
    assert!(!state.rekey_due(999));
    assert!(state.rekey_due(1000));
    state.record_packet_sent();
    assert_eq!(state.packets_since_rekey(), 1);
    assert!(!state.rekey_due(0));
    state.record_packet_sent();
    assert!(state.rekey_due(0));
    assert!(!state.retry_due(1, 999));
    assert!(state.retry_due(2, 0));
    assert!(state.retry_due(0, 1000));
}

#[test]
fn time_that_passes_makes_a_rekey_due() {
    let state = DhRatchetState::new(
        [1u8; 32],
        Role::Initiator,
        RatchetPolicy { interval: Duration::from_millis(20).as_nanos(), packet_threshold: 10 },
    );
    let start = std::time::Instant::now();
    while start.elapsed() < Duration::from_millis(25) {}
    assert!(state.should_rekey());
}

#[test]
fn time_counts_from_the_last_rekey() {
    let policy =
        RatchetPolicy { interval: Duration::from_millis(20).as_nanos(), packet_threshold: 10 };
    let start = std::time::Instant::now();
    while start.elapsed() < Duration::from_millis(25) {}
    let mut state = DhRatchetState::new_at([1u8; 32], Role::Initiator, policy, start);
    assert!(state.should_rekey());
    state.seed_at(&[0u8; 96], start);
    assert!(state.should_rekey());
    // A packet that is sent does not restart the clock.
    state.record_packet_sent();
    assert!(state.should_rekey());
}

#[test]
fn rekey_has_its_exact_values() {
    for role in [Role::Responder, Role::Initiator] {
        let mut state = DhRatchetState::new([3u8; 32], role, RatchetPolicy::default());
        let offer = RekeyOffer {
            x_pub: X25519Secret::from_bytes([1u8; 32]).public_key(),
            kem_ek_bytes: Vec::new(),
        };
        let (response, mut send, mut recv) = state.respond_to_rekey_with(
            &offer,
            X25519Secret::from_bytes([2u8; 32]),
            vec![9u8; 1088],
            [5u8; 32],
        );
        assert_eq!(response.x_pub, X25519Secret::from_bytes([2u8; 32]).public_key());
        assert_eq!(response.kem_ciphertext, vec![9u8; 1088]);
        assert_eq!(state.root_key(), &ROOT);
        let (first, second) = (send.advance(), recv.advance());
        if role == Role::Initiator {
            assert_eq!((first, second), (FIRST_KEY_K1, FIRST_KEY_K2));
        } else {
            assert_eq!((first, second), (FIRST_KEY_K2, FIRST_KEY_K1));
        }
    }
}

#[test]
fn seeding_cuts_the_material_into_root_and_chains() {
    let mut okm = [0u8; 96];
    for i in 0..96 {
        okm[i] = i as u8;
    }
    let mut state = DhRatchetState::new([3u8; 32], Role::Initiator, RatchetPolicy::default());
    state.record_packet_sent();
    let (mut send, mut recv) = state.seed(&okm);
    assert_eq!(&state.root_key()[..], &okm[..32]);
    assert_eq!((state.epoch(), state.packets_since_rekey()), (1, 0));
    let k1: [u8; 32] = okm[32..64].try_into().unwrap();
    let k2: [u8; 32] = okm[64..].try_into().unwrap();
    assert_eq!(send.advance(), Ratchet::new(k1).advance());
    assert_eq!(recv.advance(), Ratchet::new(k2).advance());
    let mut state = DhRatchetState::new([3u8; 32], Role::Responder, RatchetPolicy::default());
    let (mut send, mut recv) = state.seed(&okm);
    assert_eq!(send.advance(), Ratchet::new(k2).advance());
    assert_eq!(recv.advance(), Ratchet::new(k1).advance());
}

#[test]
fn offer_shows_the_public_halves() {
    let state = DhRatchetState::new([3u8; 32], Role::Initiator, RatchetPolicy::default());
    let (decap, encap) = DecapsulationKey::generate();
    let bytes = encap.as_bytes().to_vec();
    let (offer, _pending) =
        state.begin_rekey_with(X25519Secret::from_bytes([1u8; 32]), decap, encap);
    assert_eq!(offer.x_pub, X25519Secret::from_bytes([1u8; 32]).public_key());
    assert_eq!(offer.kem_ek_bytes, bytes);
}

#[test]
fn malformed_rekey_messages_are_refused_and_change_nothing() {
    let mut state = DhRatchetState::new([3u8; 32], Role::Initiator, RatchetPolicy::default());
    state.record_packet_sent();
    let (mut offer, pending) = state.begin_rekey_as_initiator();
    let x_pub = offer.x_pub;
    let response = RekeyResponse { x_pub, kem_ciphertext: vec![0u8; 1087] };
    assert!(matches!(
        state.finish_rekey_as_initiator(pending, response),
        Err(RekeyError::MalformedCiphertext)
    ));
    offer.kem_ek_bytes.pop();
    assert!(matches!(state.respond_to_rekey(offer), Err(RekeyError::MalformedKey)));
    let invalid = RekeyOffer { x_pub, kem_ek_bytes: vec![0xff; 1184] };
    assert!(matches!(state.respond_to_rekey(invalid), Err(RekeyError::InvalidKey)));
    assert_eq!(state.epoch(), 0);
    assert_eq!(state.packets_since_rekey(), 1);
    assert_eq!(state.root_key(), &[3u8; 32]);
}
