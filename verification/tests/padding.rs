use pqvpn::crypto::padding::{pad, unpad, PadError, DEFAULT_PAD_TARGET};

#[test]
fn pads_small_packets_to_target_size() {
    let padded = pad(b"hello", DEFAULT_PAD_TARGET);
    assert_eq!(padded.len(), DEFAULT_PAD_TARGET);
    assert_eq!(unpad(&padded).unwrap(), b"hello");
}

#[test]
fn constant_size_regardless_of_payload_length() {
    let a = pad(b"x", DEFAULT_PAD_TARGET);
    let b = pad(&vec![7u8; 900], DEFAULT_PAD_TARGET);
    assert_eq!(a.len(), b.len());
}

#[test]
fn oversized_payload_is_not_truncated() {
    let big = vec![9u8; DEFAULT_PAD_TARGET + 100];
    let padded = pad(&big, DEFAULT_PAD_TARGET);
    assert_eq!(unpad(&padded).unwrap(), big.as_slice());
}

#[test]
fn empty_payload_round_trips() {
    let padded = pad(b"", DEFAULT_PAD_TARGET);
    assert_eq!(unpad(&padded).unwrap(), b"");
}

#[test]
fn padded_bytes_are_prefix_payload_and_zeros() {
    assert_eq!(pad(b"hi", 8), vec![2, 0, b'h', b'i', 0, 0, 0, 0]);
    assert_eq!(pad(b"hi", 4), vec![2, 0, b'h', b'i']);
    assert_eq!(pad(b"hi", 0), vec![2, 0, b'h', b'i']);
    let long = vec![1u8; 259];
    assert_eq!(&pad(&long, 0)[..3], &[3, 1, 1]);
}

#[test]
fn length_prefix_wraps_at_two_bytes() {
    let padded = pad(&vec![1u8; 65536], 0);
    assert_eq!(padded.len(), 65538);
    assert_eq!(&padded[..2], &[0, 0]);
    assert_eq!(unpad(&padded).unwrap(), b"");
}

#[test]
fn malformed_padding_is_refused() {
    assert_eq!(unpad(&[]), Err(PadError::TooShort));
    assert_eq!(unpad(&[1]), Err(PadError::TooShort));
    assert_eq!(unpad(&[1, 0]), Err(PadError::LengthExceedsPacket));
    assert_eq!(unpad(&[0, 1, 7]), Err(PadError::LengthExceedsPacket));
    assert_eq!(unpad(&[0, 0]), Ok(&[][..]));
}
