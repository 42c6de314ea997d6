use pqvpn::crypto::exchange::{
    answer_handshake, handshake_reply, handshake_step, hello_reply, hello_step, Backoff,
    HandshakeAnswer, HandshakeStep, HelloStep,
};
use pqvpn::crypto::handshake_wire::{encode_hello, encode_message1, encode_message2};
use pqvpn::crypto::noise::{InitiatorHandshake, Message2, StaticIdentity};

#[test]
fn hello_waits_grow_to_a_second() {
    let mut backoff = Backoff::hello();
    let waits: Vec<u64> = std::iter::from_fn(|| backoff.next()).collect();
    assert_eq!(waits.len(), 100);
    assert_eq!(&waits[..3], &[100, 150, 200]);
    assert_eq!(&waits[16..20], &[900, 950, 1000, 1000]);
    assert_eq!(waits[99], 1000);
    assert_eq!(backoff.next(), None);
}

#[test]
fn handshake_waits_grow_to_two_seconds() {
    let mut backoff = Backoff::handshake();
    let waits: Vec<u64> = std::iter::from_fn(|| backoff.next()).collect();
    assert_eq!(waits.len(), 30);
    assert_eq!(&waits[..3], &[150, 250, 350]);
    assert_eq!(&waits[17..21], &[1850, 1950, 2000, 2000]);
    assert!(waits.windows(2).all(|w| w[0] <= w[1]));
}

#[test]
fn hello_from_the_peer_is_taken() {
    let id = StaticIdentity::generate();
    let wire = encode_hello(&id);
    let (public, kem) = hello_reply(true, &wire).unwrap();
    assert_eq!(public, id.public);
    assert_eq!(kem.as_bytes(), id.kem_encap.as_bytes());
    assert!(hello_reply(false, &wire).is_none());
    assert!(hello_reply(true, &wire[..100]).is_none());
}

#[test]
fn handshake_completes_over_the_wire() {
    let local = StaticIdentity::generate();
    let remote = StaticIdentity::generate();
    let (hs, msg1) = InitiatorHandshake::start(&local, remote.public, &remote.kem_encap);
    let answer = answer_handshake(&remote, &encode_message1(&msg1));
    let (wire, keys) = match answer {
        HandshakeAnswer::Accepted { wire, keys } => (wire, keys),
        _ => panic!("message 1 was not accepted"),
    };
    assert!(handshake_reply(&hs, false, &wire).is_none());
    assert!(handshake_reply(&hs, true, b"noise").is_none());
    let bad = Message2 { e_pub: [1; 32], encrypted_payload: vec![0; 16] };
    assert!(handshake_reply(&hs, true, &encode_message2(&bad)).is_none());
    let done = handshake_reply(&hs, true, &wire).unwrap();
    assert_eq!(done.send_key, keys.recv_key);
    assert_eq!(done.recv_key, keys.send_key);
    assert_eq!(done.root_key, keys.root_key);
}

#[test]
fn hello_exchange_without_an_answer_gives_up() {
    let mut schedule = Backoff::hello();
    for attempt in 0..100u64 {
        let event = if attempt % 2 == 0 { None } else { Some((true, &b"noise"[..])) };
        match hello_step(&mut schedule, event) {
            HelloStep::Send { wait } => assert_eq!(wait, (100 + 50 * attempt).min(1000)),
            _ => panic!("the exchange ended early"),
        }
    }
    assert!(matches!(hello_step(&mut schedule, None), HelloStep::GiveUp));
}

#[test]
fn hello_exchange_ends_with_the_first_answer() {
    let id = StaticIdentity::generate();
    let wire = encode_hello(&id);
    let mut schedule = Backoff::hello();
    assert!(matches!(hello_step(&mut schedule, None), HelloStep::Send { wait: 100 }));
    let elsewhere = hello_step(&mut schedule, Some((false, &wire)));
    assert!(matches!(elsewhere, HelloStep::Send { wait: 150 }));
    match hello_step(&mut schedule, Some((true, &wire))) {
        HelloStep::Done { public, kem } => {
            assert_eq!(public, id.public);
            assert_eq!(kem.as_bytes(), id.kem_encap.as_bytes());
        }
        _ => panic!("the hello was not taken"),
    }
}

#[test]
fn handshake_exchange_runs_step_by_step() {
    let local = StaticIdentity::generate();
    let remote = StaticIdentity::generate();
    let (hs, msg1) = InitiatorHandshake::start(&local, remote.public, &remote.kem_encap);
    let mut schedule = Backoff::handshake();
    for attempt in 0..29u64 {
        match handshake_step(&mut schedule, &hs, None) {
            HandshakeStep::Send { wait } => assert_eq!(wait, (150 + 100 * attempt).min(2000)),
            _ => panic!("the handshake ended early"),
        }
    }
    let wire = match answer_handshake(&remote, &encode_message1(&msg1)) {
        HandshakeAnswer::Accepted { wire, .. } => wire,
        _ => panic!("message 1 was not accepted"),
    };
    assert!(matches!(
        handshake_step(&mut schedule, &hs, Some((false, &wire))),
        HandshakeStep::Send { wait: 2000 }
    ));
    let mut late = Backoff::handshake();
    assert!(matches!(handshake_step(&mut late, &hs, Some((true, &wire))), HandshakeStep::Done { .. }));
    assert!(matches!(handshake_step(&mut schedule, &hs, None), HandshakeStep::GiveUp));
}

#[test]
fn responder_ignores_everything_else() {
    let local = StaticIdentity::generate();
    let remote = StaticIdentity::generate();
    assert!(matches!(answer_handshake(&remote, &[]), HandshakeAnswer::Ignored));
    assert!(matches!(answer_handshake(&remote, &encode_hello(&local)), HandshakeAnswer::Ignored));
    let (_hs, msg1) = InitiatorHandshake::start(&local, local.public, &local.kem_encap);
    assert!(matches!(
        answer_handshake(&remote, &encode_message1(&msg1)),
        HandshakeAnswer::Ignored
    ));
}
