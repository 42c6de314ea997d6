use pqvpn::crypto::ratchet::{Ratchet, ReceivingChain};

#[test]
fn successive_packet_keys_are_distinct() {
    let mut r = Ratchet::new([7u8; 32]);
    let k1 = r.advance();
    let k2 = r.advance();
    let k3 = r.advance();
    assert_ne!(k1, k2);
    assert_ne!(k2, k3);
    assert_ne!(k1, k3);
}

#[test]
fn two_ratchets_from_same_seed_stay_in_lockstep() {
    let mut a = Ratchet::new([42u8; 32]);
    let mut b = Ratchet::new([42u8; 32]);
    for _ in 0..1000 {
        assert_eq!(a.advance(), b.advance());
    }
}

#[test]
fn receiving_chain_matches_sending_chain_in_order() {
    let mut send = Ratchet::new([1u8; 32]);
    let mut recv = ReceivingChain::new([1u8; 32], 64);
    for seq in 0..20u64 {
        let sent = send.advance();
        let got = recv.key_for_seq(seq).unwrap();
        assert_eq!(sent, got);
    }
}

#[test]
fn receiving_chain_handles_reordering_within_skip_window() {
    let mut send = Ratchet::new([2u8; 32]);
    let expected: Vec<[u8; 32]> = (0..5).map(|_| send.advance()).collect();

    let mut recv = ReceivingChain::new([2u8; 32], 64);
    // Arrive out of order: 2, 0, 1, 4, 3.
    assert_eq!(recv.key_for_seq(2).unwrap(), expected[2]);
    assert_eq!(recv.key_for_seq(0).unwrap(), expected[0]);
    assert_eq!(recv.key_for_seq(1).unwrap(), expected[1]);
    assert_eq!(recv.key_for_seq(4).unwrap(), expected[4]);
    assert_eq!(recv.key_for_seq(3).unwrap(), expected[3]);
}

#[test]
fn receiving_chain_rejects_key_reuse_after_consumption() {
    let mut recv = ReceivingChain::new([3u8; 32], 64);
    recv.key_for_seq(0).unwrap();
    assert!(recv.key_for_seq(0).is_none());
}

#[test]
fn receiving_chain_rejects_jump_beyond_max_skip() {
    let mut recv = ReceivingChain::new([4u8; 32], 8);
    assert!(recv.key_for_seq(100).is_none());
}

#[test]
fn packet_keys_have_their_exact_values() {
    let mut r = Ratchet::new([7u8; 32]);
    assert_eq!(
        r.advance(),
        [
            0x86, 0x68, 0x2e, 0xb2, 0xd6, 0xe1, 0x3d, 0x02, 0x68, 0xe6, 0xff, 0x36, 0x7d, 0x27,
            0xc7, 0x1e, 0x4e, 0x87, 0x0c, 0x5b, 0x8a, 0x44, 0x0e, 0xda, 0xd4, 0x28, 0xf2, 0x33,
            0xd3, 0x61, 0x68, 0xd4,
        ]
    );
    assert_eq!(
        r.advance(),
        [
            0xd8, 0x9f, 0xbc, 0x79, 0x5a, 0x0e, 0x65, 0xb9, 0xc0, 0xc9, 0x82, 0x29, 0x5b, 0x26,
            0x2b, 0xaf, 0xb7, 0x52, 0x81, 0xd0, 0xdc, 0x13, 0x82, 0x71, 0x46, 0xed, 0xba, 0x04,
            0xcc, 0x36, 0x61, 0x97,
        ]
    );
}

#[test]
fn skip_limit_is_inclusive_and_a_refusal_changes_nothing() {
    let mut recv = ReceivingChain::new([4u8; 32], 8);
    assert!(!recv.has_key(9));
    assert!(recv.key_for_seq(9).is_none());
    assert!(recv.has_key(8));
    assert!(recv.key_for_seq(8).is_some());
    assert!(recv.has_key(0));
    assert!(recv.has_key(16));
    assert!(!recv.has_key(17));
}

#[test]
fn skip_limit_counts_from_the_last_consumed_number() {
    let mut recv = ReceivingChain::new([4u8; 32], 8);
    assert!(recv.key_for_seq(0).is_some());
    assert!(recv.key_for_seq(9).is_none());
    assert!(recv.has_key(8));
    assert!(recv.key_for_seq(8).is_some());
    assert!(recv.key_for_seq(1).is_some());
}

#[test]
fn only_the_newest_skipped_keys_are_held() {
    let mut recv = ReceivingChain::new([5u8; 32], 2);
    assert!(recv.key_for_seq(2).is_some());
    assert!(recv.has_key(0) && recv.has_key(1));
    assert!(recv.key_for_seq(4).is_some());
    // Number 3 was passed over too, and only two keys may be held.
    assert!(!recv.has_key(0));
    assert!(recv.has_key(1) && recv.has_key(3));
    assert!(recv.key_for_seq(0).is_none());
    assert!(recv.key_for_seq(1).is_some());
    assert!(recv.key_for_seq(1).is_none());
    assert!(recv.key_for_seq(3).is_some());
}

#[test]
fn chain_without_skips_gives_keys_in_order_only() {
    let mut recv = ReceivingChain::new([6u8; 32], 0);
    assert!(recv.key_for_seq(1).is_none());
    assert!(recv.key_for_seq(0).is_some());
    assert!(recv.key_for_seq(0).is_none());
    assert!(recv.key_for_seq(1).is_some());
}
