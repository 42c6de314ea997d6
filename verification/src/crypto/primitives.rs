//! The outside world of this crate: hashing, key derivation, authenticated
//! encryption, key agreement, key encapsulation, randomness, erasure and the
//! clock. Every function here without a proved body only hands its arguments to
//! one of those libraries; what its contract says is trusted, not proved.
//!
//! Of random bytes and of the clock's readings nothing is claimed. What is said of
//! them is where they came from: `nonce_drawn`, `clock_measured` and the like hold
//! of a value that the call in question returned, and of no other that can be
//! named.
use vstd::prelude::*;
use chacha20poly1305::aead::{Aead, KeyInit, Payload};
use chacha20poly1305::{ChaCha20Poly1305, XChaCha20Poly1305};
use hkdf::Hkdf;
use ml_kem::kem::{Decapsulate, Encapsulate, Key, KeyExport};
use ml_kem::{Ciphertext, DecapsulationKey768, EncapsulationKey, Kem, MlKem768};
use sha2::{Digest, Sha256};
use std::time::Instant;
use x25519_dalek::{PublicKey, StaticSecret};
use zeroize::Zeroize;

use crate::crypto::bytes;

verus! {

/// The SHA-256 digest of `data`.
pub uninterp spec fn sha256(data: Seq<u8>) -> Seq<u8>;

/// The first `len` bytes of HKDF-SHA256 output for the given salt, input key
/// material and info string.
pub uninterp spec fn hkdf_sha256(salt: Seq<u8>, ikm: Seq<u8>, info: Seq<u8>, len: nat) -> Seq<u8>;

/// The ChaCha20-Poly1305 ciphertext of `msg`, tag included.
pub uninterp spec fn chacha_seal(key: Seq<u8>, nonce: Seq<u8>, aad: Seq<u8>, msg: Seq<u8>) -> Seq<u8>;

/// What the ChaCha20-Poly1305 ciphertext `ct` decrypts to, if its tag holds.
pub uninterp spec fn chacha_open(key: Seq<u8>, nonce: Seq<u8>, aad: Seq<u8>, ct: Seq<u8>) -> Option<
    Seq<u8>,
>;

/// The XChaCha20-Poly1305 ciphertext of `msg`, tag included.
pub uninterp spec fn xchacha_seal(key: Seq<u8>, nonce: Seq<u8>, aad: Seq<u8>, msg: Seq<u8>) -> Seq<u8>;

/// What the XChaCha20-Poly1305 ciphertext `ct` decrypts to, if its tag holds.
pub uninterp spec fn xchacha_open(key: Seq<u8>, nonce: Seq<u8>, aad: Seq<u8>, ct: Seq<u8>) -> Option<
    Seq<u8>,
>;

/// The X25519 public key of a 32-byte secret.
pub uninterp spec fn x25519_public(secret: Seq<u8>) -> Seq<u8>;

/// The X25519 shared secret of a 32-byte secret and a 32-byte public key.
pub uninterp spec fn x25519_shared(secret: Seq<u8>, public: Seq<u8>) -> Seq<u8>;

/// The ML-KEM-768 encapsulation key that belongs to a 64-byte seed.
pub uninterp spec fn kem_public(seed: Seq<u8>) -> Seq<u8>;

/// The ML-KEM-768 ciphertext and shared key that 32 bytes of randomness give
/// under an encapsulation key.
pub uninterp spec fn kem_encaps(ek: Seq<u8>, randomness: Seq<u8>) -> (Seq<u8>, Seq<u8>);

/// The shared key that the ML-KEM-768 key of a 64-byte seed takes out of a
/// ciphertext.
pub uninterp spec fn kem_decaps(seed: Seq<u8>, ct: Seq<u8>) -> Seq<u8>;

/// Bytes that the AEAD appends to what it encrypts.
pub const TAG_LEN: usize = 16;

/// The longest message that the AEAD takes: 2^32 - 2 blocks of 64 bytes, since
/// its block counter has 32 bits.
pub const AEAD_LIMIT: u64 = 274_877_906_816;

/// Length of an ML-KEM-768 encapsulation key.
pub const KEM_KEY_LEN: usize = 1184;

/// Length of an ML-KEM-768 ciphertext.
pub const KEM_CIPHERTEXT_LEN: usize = 1088;

/// Whether a message of `len` bytes can be encrypted: it is within the AEAD's
/// own limit, and it fits into memory together with its tag.
pub open spec fn sealable(len: nat) -> bool {
    &&& len <= AEAD_LIMIT
    &&& len + TAG_LEN <= isize::MAX
}

/// Whether a ciphertext of `len` bytes can be decrypted: what is inside is
/// within the AEAD's own limit.
pub open spec fn openable(len: nat) -> bool {
    len <= AEAD_LIMIT + TAG_LEN
}

/// Whether the two 12-bit numbers in the `i`-th three bytes of an
/// encapsulation key are below the ML-KEM modulus.
pub open spec fn coefficients_reduced(ek: Seq<u8>, i: int) -> bool {
    &&& ek[3 * i] + 256 * (ek[3 * i + 1] % 16) < 3329
    &&& ek[3 * i + 1] / 16 + 16 * ek[3 * i + 2] < 3329
}

/// Whether `ek` is an ML-KEM-768 encapsulation key: it has the right length,
/// and each of its 768 coefficients is below the modulus.
pub open spec fn kem_key_valid(ek: Seq<u8>) -> bool {
    &&& ek.len() == KEM_KEY_LEN
    &&& forall|i: int| 0 <= i < 384 ==> #[trigger] coefficients_reduced(ek, i)
}

/// Whether a ciphertext and a shared key came out of one encapsulation under
/// the key `ek`.
pub open spec fn kem_encapsulated(ek: Seq<u8>, ct: Seq<u8>, shared: Seq<u8>) -> bool {
    exists|m: [u8; 32]| (ct, shared) == #[trigger] kem_encaps(ek, m@)
}

/// Whether the holders of two X25519 secrets arrive at the same shared secret.
pub open spec fn dh_agree(a: Seq<u8>, b: Seq<u8>) -> bool {
    x25519_shared(a, x25519_public(b)) == x25519_shared(b, x25519_public(a))
}

/// Whether `nonce` came out of `random_nonce`.
pub closed spec fn nonce_drawn(nonce: Seq<u8>) -> bool {
    exists|drawn: [u8; 24]| drawn@ == nonce && #[trigger] call_ensures(random_nonce, (), drawn)
}

/// Whether `secret` came out of `x25519_random`.
pub closed spec fn x25519_drawn(secret: Seq<u8>) -> bool {
    exists|drawn: [u8; 32]| drawn@ == secret && #[trigger] call_ensures(x25519_random, (), drawn)
}

/// Whether a KEM seed came out of `kem_generate`.
pub closed spec fn kem_drawn(seed: Seq<u8>) -> bool {
    exists|drawn: ([u8; 64], Vec<u8>)|
        drawn.0@ == seed && #[trigger] call_ensures(kem_generate, (), drawn)
}

/// Whether `now` came out of `clock_now`.
pub closed spec fn clock_read(now: Instant) -> bool {
    call_ensures(clock_now, (), now)
}

/// Whether `nanos` came out of `clock_elapsed_nanos` for the reading `since`.
pub closed spec fn clock_measured(since: Instant, nanos: u128) -> bool {
    call_ensures(clock_elapsed_nanos, (&since,), nanos)
}

/// The error of the AEAD: the tag does not hold, or the input is too long.
#[verifier::external_type_specification]
#[verifier::external_body]
pub struct ExAeadError(chacha20poly1305::aead::Error);

/// A reading of the monotonic clock.
#[verifier::external_type_specification]
#[verifier::external_body]
pub struct ExInstant(std::time::Instant);

/// `sha2::Sha256::digest`: the SHA-256 digest of `data`, which has 32 bytes.
#[verifier::external_body]
pub(crate) fn sha256_digest(data: &[u8]) -> (digest: [u8; 32])
    ensures
        digest@ == sha256(data@),
{
    Sha256::digest(data).into()
}

/// `hkdf::Hkdf::<Sha256>::new` with a salt, then `expand`: the first `N` bytes
/// of the output. `expand` refuses more than 255 blocks of 32 bytes.
#[verifier::external_body]
pub(crate) fn hkdf_derive<const N: usize>(salt: &[u8], ikm: &[u8], info: &[u8]) -> (okm: [u8; N])
    requires
        N <= 8160,
    ensures
        okm@ == hkdf_sha256(salt@, ikm@, info@, N as nat),
{
    let mut okm = [0u8; N];
    Hkdf::<Sha256>::new(Some(salt), ikm).expand(info, &mut okm).expect("length is within the limit");
    okm
}

/// `chacha20poly1305::ChaCha20Poly1305`, `encrypt`: the ciphertext, a 16-byte
/// tag longer than the message, which `decrypt` under the same key, nonce and
/// associated data takes back to the message. `encrypt` takes no messages
/// above `AEAD_LIMIT`.
#[verifier::external_body]
pub(crate) fn chacha_encrypt(key: &[u8; 32], nonce: &[u8; 12], aad: &[u8], msg: &[u8]) -> (ct: Vec<u8>)
    requires
        sealable(msg@.len()),
    ensures
        ct@ == chacha_seal(key@, nonce@, aad@, msg@),
        ct@.len() == msg@.len() + TAG_LEN,
        chacha_open(key@, nonce@, aad@, ct@) == Some(msg@),
{
    let cipher = ChaCha20Poly1305::new(&(*key).into());
    cipher.encrypt(&(*nonce).into(), Payload { msg, aad }).expect("message is within the limit")
}

/// `chacha20poly1305::ChaCha20Poly1305`, `decrypt`: the message, a 16-byte tag
/// shorter than the ciphertext, or an error. A longer ciphertext than those
/// that `encrypt` makes must not be given.
#[verifier::external_body]
pub(crate) fn chacha_decrypt(key: &[u8; 32], nonce: &[u8; 12], aad: &[u8], ct: &[u8]) -> (r: Result<
    Vec<u8>,
    chacha20poly1305::aead::Error,
>)
    requires
        openable(ct@.len()),
    ensures
        match r {
            Ok(msg) => chacha_open(key@, nonce@, aad@, ct@) == Some(msg@) && msg@.len() + TAG_LEN
                == ct@.len(),
            Err(_) => chacha_open(key@, nonce@, aad@, ct@) is None,
        },
{
    let cipher = ChaCha20Poly1305::new(&(*key).into());
    cipher.decrypt(&(*nonce).into(), Payload { msg: ct, aad })
}

/// `chacha20poly1305::XChaCha20Poly1305`, `encrypt`: as `chacha_encrypt`, with
/// a 24-byte nonce.
#[verifier::external_body]
pub(crate) fn xchacha_encrypt(key: &[u8; 32], nonce: &[u8; 24], aad: &[u8], msg: &[u8]) -> (ct: Vec<
    u8,
>)
    requires
        sealable(msg@.len()),
    ensures
        ct@ == xchacha_seal(key@, nonce@, aad@, msg@),
        ct@.len() == msg@.len() + TAG_LEN,
        xchacha_open(key@, nonce@, aad@, ct@) == Some(msg@),
{
    let cipher = XChaCha20Poly1305::new(&(*key).into());
    cipher.encrypt(&(*nonce).into(), Payload { msg, aad }).expect("message is within the limit")
}

/// `chacha20poly1305::XChaCha20Poly1305`, `decrypt`: as `chacha_decrypt`, with
/// a 24-byte nonce.
#[verifier::external_body]
pub(crate) fn xchacha_decrypt(key: &[u8; 32], nonce: &[u8; 24], aad: &[u8], ct: &[u8]) -> (r: Result<
    Vec<u8>,
    chacha20poly1305::aead::Error,
>)
    requires
        openable(ct@.len()),
    ensures
        match r {
            Ok(msg) => xchacha_open(key@, nonce@, aad@, ct@) == Some(msg@) && msg@.len() + TAG_LEN
                == ct@.len(),
            Err(_) => xchacha_open(key@, nonce@, aad@, ct@) is None,
        },
{
    let cipher = XChaCha20Poly1305::new(&(*key).into());
    cipher.decrypt(&(*nonce).into(), Payload { msg: ct, aad })
}

/// `getrandom::fill` on 24 bytes. The bytes are random, so nothing is claimed
/// of them. It panics where the operating system has no randomness to give.
#[verifier::external_body]
pub(crate) fn random_nonce() -> [u8; 24] {
    let mut nonce = [0u8; 24];
    getrandom::fill(&mut nonce).expect("getrandom failure");
    nonce
}

/// `x25519_dalek::StaticSecret::random`. The secret is random, so nothing is
/// claimed of it. It panics where the operating system has no randomness to
/// give.
#[verifier::external_body]
pub(crate) fn x25519_random() -> [u8; 32] {
    StaticSecret::random().to_bytes()
}

/// `x25519_dalek::PublicKey::from` on a secret: its public key.
#[verifier::external_body]
pub(crate) fn x25519_public_key(secret: &[u8; 32]) -> (public: [u8; 32])
    ensures
        public@ == x25519_public(secret@),
{
    PublicKey::from(&StaticSecret::from(*secret)).to_bytes()
}

/// `x25519_dalek::StaticSecret::diffie_hellman`: the shared secret. Where the
/// public key belongs to a secret, the holder of that secret arrives at the
/// same shared secret from this one's public key.
#[verifier::external_body]
pub(crate) fn x25519_diffie_hellman(secret: &[u8; 32], public: &[u8; 32]) -> (shared: [u8; 32])
    ensures
        shared@ == x25519_shared(secret@, public@),
        forall|other: Seq<u8>|
            other.len() == 32 && public@ == #[trigger] x25519_public(other) ==> shared@
                == x25519_shared(other, x25519_public(secret@)),
{
    StaticSecret::from(*secret).diffie_hellman(&PublicKey::from(*public)).to_bytes()
}

/// `ml_kem::Kem::generate_keypair` for ML-KEM-768: the seed of a fresh
/// decapsulation key, and its encapsulation key, which is a valid one. It
/// panics where the operating system has no randomness to give.
#[verifier::external_body]
pub(crate) fn kem_generate() -> (pair: ([u8; 64], Vec<u8>))
    ensures
        pair.1@ == kem_public(pair.0@),
        kem_key_valid(pair.1@),
{
    let (dk, ek) = MlKem768::generate_keypair();
    (dk.to_bytes().into(), ek.to_bytes().to_vec())
}

/// `ml_kem::EncapsulationKey::<MlKem768>::new`: whether the bytes pass the
/// modulus check for encapsulation keys.
#[verifier::external_body]
pub(crate) fn kem_key_check(ek: &[u8]) -> (ok: bool)
    requires
        ek@.len() == KEM_KEY_LEN,
    ensures
        ok == kem_key_valid(ek@),
{
    let key = Key::<EncapsulationKey<MlKem768>>::try_from(ek).expect("key length");
    EncapsulationKey::<MlKem768>::new(&key).is_ok()
}

/// `ml_kem::kem::Encapsulate::encapsulate` under an ML-KEM-768 key: the
/// ciphertext and the shared key that some 32 random bytes give. That the
/// matching `decapsulate` takes the same shared key out of the ciphertext is
/// not claimed, since ML-KEM decryption can fail, if only with negligible
/// probability. It panics where the operating system has no randomness to give.
#[verifier::external_body]
pub(crate) fn kem_encapsulate(ek: &[u8]) -> (r: (Vec<u8>, [u8; 32]))
    requires
        kem_key_valid(ek@),
    ensures
        r.0@.len() == KEM_CIPHERTEXT_LEN,
        exists|m: [u8; 32]| (r.0@, r.1@) == #[trigger] kem_encaps(ek@, m@),
{
    let key = Key::<EncapsulationKey<MlKem768>>::try_from(ek).expect("key length");
    let (ct, shared) = EncapsulationKey::<MlKem768>::new(&key).expect("valid key").encapsulate();
    (ct.to_vec(), shared.into())
}

/// `ml_kem::kem::Decapsulate::decapsulate` with the ML-KEM-768 key of a seed:
/// the shared key. It never fails: a ciphertext that was not made for the key
/// gives a pseudorandom shared key.
#[verifier::external_body]
pub(crate) fn kem_decapsulate(seed: &[u8; 64], ct: &[u8]) -> (shared: [u8; 32])
    requires
        ct@.len() == KEM_CIPHERTEXT_LEN,
    ensures
        shared@ == kem_decaps(seed@, ct@),
{
    let ct = Ciphertext::<MlKem768>::try_from(ct).expect("ciphertext length");
    DecapsulationKey768::from_seed((*seed).into()).decapsulate(&ct).into()
}

/// `zeroize::Zeroize::zeroize` on an array of bytes: every byte becomes zero.
#[verifier::external_body]
pub(crate) fn wipe<const N: usize>(secret: &mut [u8; N])
    ensures
        final(secret)@ == bytes::zeros(N as nat),
    opens_invariants none
    no_unwind
{
    secret.zeroize()
}

/// `zeroize::Zeroize::zeroize` on a vector of bytes: it ends up empty.
#[verifier::external_body]
pub(crate) fn wipe_vec(secret: &mut Vec<u8>)
    ensures
        final(secret)@ == Seq::<u8>::empty(),
{
    secret.zeroize()
}

/// What is said to be drawn, read or measured is a value that the call in question
/// can have returned, for the very argument that it was made with.
pub(crate) proof fn law_provenance(
    nonce: [u8; 24],
    secret: [u8; 32],
    seed: Seq<u8>,
    now: Instant,
    since: Instant,
    nanos: u128,
)
    ensures
        nonce_drawn(nonce@) ==> exists|drawn: [u8; 24]|
            drawn@ == nonce@ && #[trigger] call_ensures(random_nonce, (), drawn),
        x25519_drawn(secret@) ==> exists|drawn: [u8; 32]|
            drawn@ == secret@ && #[trigger] call_ensures(x25519_random, (), drawn),
        kem_drawn(seed) ==> exists|drawn: ([u8; 64], Vec<u8>)|
            drawn.0@ == seed && #[trigger] call_ensures(kem_generate, (), drawn),
        clock_read(now) ==> call_ensures(clock_now, (), now),
        clock_measured(since, nanos) ==> call_ensures(clock_elapsed_nanos, (&since,), nanos),
{
}

/// A random nonce.
pub(crate) fn draw_nonce() -> (nonce: [u8; 24])
    ensures
        nonce_drawn(nonce@),
{
    random_nonce()
}

/// A random X25519 secret.
pub(crate) fn draw_x25519() -> (secret: [u8; 32])
    ensures
        x25519_drawn(secret@),
{
    x25519_random()
}

/// The seed of a random KEM key pair, and its encapsulation key.
pub(crate) fn draw_kem() -> (pair: ([u8; 64], Vec<u8>))
    ensures
        kem_drawn(pair.0@),
        pair.1@ == kem_public(pair.0@),
        kem_key_valid(pair.1@),
{
    kem_generate()
}

/// The current reading of the clock.
pub(crate) fn read_clock() -> (now: Instant)
    ensures
        clock_read(now),
{
    clock_now()
}

/// The nanoseconds since an earlier reading of the clock.
pub(crate) fn measure_clock(since: &Instant) -> (nanos: u128)
    ensures
        clock_measured(*since, nanos),
{
    clock_elapsed_nanos(since)
}

/// Whether a ciphertext of `len` bytes can be decrypted.
pub(crate) fn can_open(len: usize) -> (r: bool)
    ensures
        r == openable(len as nat),
{
    len as u64 <= AEAD_LIMIT + TAG_LEN as u64
}

/// `std::time::Instant::now`: the current reading of the monotonic clock.
#[verifier::external_body]
pub(crate) fn clock_now() -> Instant {
    Instant::now()
}

/// `std::time::Instant::elapsed`: the nanoseconds since an earlier reading.
/// They depend on when the call is made, so nothing is claimed of them.
#[verifier::external_body]
pub(crate) fn clock_elapsed_nanos(since: &Instant) -> u128 {
    since.elapsed().as_nanos()
}

} // verus!
