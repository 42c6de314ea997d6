use pqvpn::crypto::keys::{DecapsulationKey, EncapsulationKey, KemKeyError, X25519Secret};
use pqvpn::crypto::primitives::{KEM_CIPHERTEXT_LEN, KEM_KEY_LEN};

const PUBLIC_ONE: [u8; 32] = [
    0xa4, 0xe0, 0x92, 0x92, 0xb6, 0x51, 0xc2, 0x78, 0xb9, 0x77, 0x2c, 0x56,
    0x9f, 0x5f, 0xa9, 0xbb, 0x13, 0xd9, 0x06, 0xb4, 0x6a, 0xb6, 0x8c, 0x9d,
    0xf9, 0xdc, 0x2b, 0x44, 0x09, 0xf8, 0xa2, 0x09,
];

const PUBLIC_TWO: [u8; 32] = [
    0xce, 0x8d, 0x3a, 0xd1, 0xcc, 0xb6, 0x33, 0xec, 0x7b, 0x70, 0xc1, 0x78,
    0x14, 0xa5, 0xc7, 0x6e, 0xcd, 0x02, 0x96, 0x85, 0x05, 0x0d, 0x34, 0x47,
    0x45, 0xba, 0x05, 0x87, 0x0e, 0x58, 0x7d, 0x59,
];

const SHARED: [u8; 32] = [
    0x2e, 0xd7, 0x6a, 0xb5, 0x49, 0xb1, 0xe7, 0x3c, 0x03, 0x1e, 0xb4, 0x9c,
    0x94, 0x48, 0xf0, 0x79, 0x8a, 0xea, 0x81, 0xb6, 0x98, 0x27, 0x9a, 0x0c,
    0x3d, 0xc3, 0xe4, 0x9f, 0xbf, 0xc4, 0xb9, 0x53,
];

#[test]
fn x25519_has_its_exact_values() {
    let one = X25519Secret::from_bytes([1u8; 32]);
    let two = X25519Secret::from_bytes([2u8; 32]);
    assert_eq!(one.public_key(), PUBLIC_ONE);
    assert_eq!(two.public_key(), PUBLIC_TWO);
    assert_eq!(one.diffie_hellman(&PUBLIC_TWO), SHARED);
    assert_eq!(two.diffie_hellman(&PUBLIC_ONE), SHARED);
}

#[test]
fn x25519_secrets_are_copied_whole() {
    let secret = X25519Secret::from_bytes([7u8; 32]);
    assert_eq!(secret.to_bytes(), [7u8; 32]);
    assert_eq!(secret.clone().to_bytes(), [7u8; 32]);
}

#[test]
fn random_x25519_secrets_differ_and_agree() {
    let a = X25519Secret::random();
    let b = X25519Secret::random();
    assert_ne!(a.to_bytes(), b.to_bytes());
    assert_eq!(a.diffie_hellman(&b.public_key()), b.diffie_hellman(&a.public_key()));
}

#[test]
fn kem_secret_arrives() {
    let (decap, encap) = DecapsulationKey::generate();
    assert_eq!(encap.as_bytes().len(), KEM_KEY_LEN);
    let (ct, shared) = encap.encapsulate();
    assert_eq!(ct.len(), KEM_CIPHERTEXT_LEN);
    assert_eq!(decap.decapsulate(&ct), shared);
    assert_eq!(decap.clone().decapsulate(&ct), shared);
    let (again, other) = encap.clone().encapsulate();
    assert_ne!(again, ct);
    assert_ne!(other, shared);
}

#[test]
fn kem_secret_depends_on_key_and_ciphertext() {
    let (_, encap) = DecapsulationKey::generate();
    let (mut ct, shared) = encap.encapsulate();
    let stranger = DecapsulationKey::from_seed([3u8; 64]);
    let theirs = stranger.decapsulate(&ct);
    assert_ne!(theirs, shared);
    assert_eq!(DecapsulationKey::from_seed([3u8; 64]).decapsulate(&ct), theirs);
    ct[0] ^= 1;
    assert_ne!(stranger.decapsulate(&ct), theirs);
}

#[test]
fn kem_keys_are_read_back() {
    let (_, encap) = DecapsulationKey::generate();
    let read = EncapsulationKey::new(encap.as_bytes()).unwrap();
    assert_eq!(read.as_bytes(), encap.as_bytes());
}

#[test]
fn kem_keys_of_the_wrong_length_are_refused() {
    assert!(matches!(EncapsulationKey::new(&[]), Err(KemKeyError::BadLength)));
    assert!(matches!(EncapsulationKey::new(&[0u8; KEM_KEY_LEN - 1]), Err(KemKeyError::BadLength)));
    assert!(matches!(EncapsulationKey::new(&[0u8; KEM_KEY_LEN + 1]), Err(KemKeyError::BadLength)));
}

#[test]
fn kem_keys_with_unreduced_coefficients_are_refused() {
    let mut data = [0u8; KEM_KEY_LEN];
    assert!(EncapsulationKey::new(&data).is_ok());
    // 3328 is the largest coefficient: 0xd00.
    data[0] = 0x00;
    data[1] = 0x0d;
    assert!(EncapsulationKey::new(&data).is_ok());
    data[0] = 0x01;
    assert!(matches!(EncapsulationKey::new(&data), Err(KemKeyError::Invalid)));
    data[0] = 0x00;
    data[1] = 0x00;
    data[2] = 0xd0;
    assert!(EncapsulationKey::new(&data).is_ok());
    data[1] = 0x10;
    assert!(matches!(EncapsulationKey::new(&data), Err(KemKeyError::Invalid)));
    // The last coefficient counts, the 32 bytes behind it do not.
    let mut data = [0u8; KEM_KEY_LEN];
    data[1152..].fill(0xff);
    assert!(EncapsulationKey::new(&data).is_ok());
    data[1151] = 0xff;
    assert!(matches!(EncapsulationKey::new(&data), Err(KemKeyError::Invalid)));
}
