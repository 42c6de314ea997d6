//! Hybrid Noise_IK handshake: X25519 static and ephemeral keys, with an
//! ML-KEM-768 encapsulation to the responder's static key mixed in on top.
//!
//! The responder's public keys are known to the initiator ahead of time:
//! ```text
//! <- s
//! ...
//! -> e, es, s, ss (and the KEM ciphertext)
//! <- e, ee, se
//! ```
use vstd::prelude::*;

use crate::crypto::bytes;
use crate::crypto::keys::{DecapsulationKey, EncapsulationKey, X25519Secret};
use crate::crypto::primitives;

verus! {

/// `Noise_IK_25519_MLKEM768_ChaChaPoly_SHA256`.
pub const PROTOCOL_NAME: [u8; 41] = [
    0x4e, 0x6f, 0x69, 0x73, 0x65, 0x5f, 0x49, 0x4b, 0x5f, 0x32, 0x35, 0x35,
    0x31, 0x39, 0x5f, 0x4d, 0x4c, 0x4b, 0x45, 0x4d, 0x37, 0x36, 0x38, 0x5f,
    0x43, 0x68, 0x61, 0x43, 0x68, 0x61, 0x50, 0x6f, 0x6c, 0x79, 0x5f, 0x53,
    0x48, 0x41, 0x32, 0x35, 0x36,
];

/// Why a handshake message was refused.
#[derive(Debug, Clone, Copy, PartialEq, Eq, Structural)]
pub enum HandshakeError {
    /// A ciphertext does not authenticate.
    DecryptionFailed,
    /// The KEM ciphertext does not have the right length.
    MalformedKemCiphertext,
    /// Message 2 was asked for before message 1 was read.
    MessageOneMissing,
}

/// The hash that a transcript starts from: the protocol name itself, padded
/// with zeros, if it fits into a hash; its hash otherwise.
pub open spec fn protocol_hash(name: Seq<u8>) -> Seq<u8> {
    if name.len() <= 32 {
        name + bytes::zeros((32 - name.len()) as nat)
    } else {
        primitives::sha256(name)
    }
}

/// The running state of a handshake: the chaining key, and the hash of
/// everything exchanged so far.
#[verifier::ext_equal]
pub struct Transcript {
    pub ck: Seq<u8>,
    pub h: Seq<u8>,
}

impl Transcript {
    /// The state before anything was exchanged.
    pub open spec fn initial() -> Transcript {
        let h = protocol_hash(PROTOCOL_NAME@);
        Transcript { ck: h, h }
    }

    /// The state after `data` went into the hash.
    pub open spec fn absorb(self, data: Seq<u8>) -> Transcript {
        Transcript { h: primitives::sha256(self.h + data), ..self }
    }

    /// The 64 bytes derived from the chaining key and `ikm`.
    pub open spec fn stretch(self, ikm: Seq<u8>) -> Seq<u8> {
        primitives::hkdf_sha256(self.ck, ikm, Seq::empty(), 64)
    }

    /// The state after `ikm` went into the chaining key.
    pub open spec fn mix(self, ikm: Seq<u8>) -> Transcript {
        Transcript { ck: self.stretch(ikm).subrange(0, 32), ..self }
    }

    /// The message key that mixing in `ikm` gives.
    pub open spec fn key(self, ikm: Seq<u8>) -> Seq<u8> {
        self.stretch(ikm).subrange(32, 64)
    }

    /// `plaintext` encrypted under `key`, bound to the hash.
    pub open spec fn seal(self, key: Seq<u8>, plaintext: Seq<u8>) -> Seq<u8> {
        primitives::chacha_seal(key, bytes::zeros(12), self.h, plaintext)
    }

    /// What `ciphertext` decrypts to under `key`, bound to the hash.
    pub open spec fn open(self, key: Seq<u8>, ciphertext: Seq<u8>) -> Option<Seq<u8>> {
        if primitives::openable(ciphertext.len()) {
            primitives::chacha_open(key, bytes::zeros(12), self.h, ciphertext)
        } else {
            None
        }
    }

    /// The transport keys of the initiator's and of the responder's direction.
    pub open spec fn split(self) -> (Seq<u8>, Seq<u8>) {
        let okm = self.stretch(Seq::empty());
        (okm.subrange(0, 32), okm.subrange(32, 64))
    }

    /// The keys that the initiator ends up with.
    pub open spec fn initiator_keys(self) -> KeysView {
        KeysView { send: self.split().0, recv: self.split().1, root: self.ck }
    }

    /// The keys that the responder ends up with.
    pub open spec fn responder_keys(self) -> KeysView {
        KeysView { send: self.split().1, recv: self.split().0, root: self.ck }
    }
}

/// The keys of a completed handshake, one for each direction, and the root
/// from which later rekeys start. They are erased when dropped.
pub struct TransportKeys {
    pub send_key: [u8; 32],
    pub recv_key: [u8; 32],
    pub root_key: [u8; 32],
}

#[verifier::ext_equal]
pub struct KeysView {
    pub send: Seq<u8>,
    pub recv: Seq<u8>,
    pub root: Seq<u8>,
}

impl View for TransportKeys {
    type V = KeysView;

    open spec fn view(&self) -> KeysView {
        KeysView { send: self.send_key@, recv: self.recv_key@, root: self.root_key@ }
    }
}

impl Drop for TransportKeys {
    /// Erases the keys.
    fn drop(&mut self)
        ensures
            final(self)@ == (KeysView {
                send: bytes::zeros(32),
                recv: bytes::zeros(32),
                root: bytes::zeros(32),
            }),
        opens_invariants none
        no_unwind
    {
        primitives::wipe(&mut self.send_key);
        primitives::wipe(&mut self.recv_key);
        primitives::wipe(&mut self.root_key);
    }
}

struct SymmetricState {
    ck: [u8; 32],
    h: [u8; 32],
}

impl View for SymmetricState {
    type V = Transcript;

    closed spec fn view(&self) -> Transcript {
        Transcript { ck: self.ck@, h: self.h@ }
    }
}

impl Clone for SymmetricState {
    fn clone(&self) -> (r: Self)
        ensures
            r@ == self@,
    {
        SymmetricState { ck: self.ck, h: self.h }
    }
}

impl Drop for SymmetricState {
    fn drop(&mut self)
        ensures
            final(self)@ == (Transcript { ck: bytes::zeros(32), h: bytes::zeros(32) }),
        opens_invariants none
        no_unwind
    {
        primitives::wipe(&mut self.ck);
        primitives::wipe(&mut self.h);
    }
}

/// The hash that the transcript of protocol `name` starts from.
fn hash_protocol_name(name: &[u8]) -> (r: [u8; 32])
    ensures
        r@ == protocol_hash(name@),
{
    if name.len() <= 32 {
        let mut h: [u8; 32] = [0u8; 32];
        let mut i: usize = 0;
        while i < name.len()
            invariant
                i <= name@.len() <= 32,
                forall|j: int| 0 <= j < i ==> h@[j] == name@[j],
                forall|j: int| i <= j < 32 ==> h@[j] == 0,
            decreases name@.len() - i,
        {
            h[i] = name[i];
            i = i + 1;
        }
        assert(h@ =~= protocol_hash(name@));
        h
    } else {
        primitives::sha256_digest(name)
    }
}

impl SymmetricState {
    fn new() -> (r: Self)
        ensures
            r@ == Transcript::initial(),
    {
        let h = hash_protocol_name(&PROTOCOL_NAME);
        SymmetricState { ck: h, h }
    }

    fn mix_hash(&mut self, data: &[u8])
        ensures
            final(self)@ == old(self)@.absorb(data@),
    {
        let mut input: Vec<u8> = Vec::new();
        bytes::append(&mut input, &self.h);
        bytes::append(&mut input, data);
        assert(input@ =~= self.h@ + data@);
        self.h = primitives::sha256_digest(input.as_slice());
    }

    /// Mixes `ikm` into the chaining key and returns the message key.
    fn mix_key(&mut self, ikm: &[u8]) -> (key: [u8; 32])
        ensures
            final(self)@ == old(self)@.mix(ikm@),
            key@ == old(self)@.key(ikm@),
    {
        let empty: [u8; 0] = [];
        assert(empty@ =~= Seq::<u8>::empty());
        let mut okm: [u8; 64] = primitives::hkdf_derive(&self.ck, ikm, &empty);
        self.ck = bytes::take32(&okm, 0);
        let key = bytes::take32(&okm, 32);
        primitives::wipe(&mut okm);
        key
    }

    /// Encrypts `plaintext`, bound to the hash, and hashes the ciphertext. The
    /// nonce is zero: a key is used for one message.
    fn encrypt_and_hash(&mut self, key: &[u8; 32], plaintext: &[u8]) -> (r: Vec<u8>)
        requires
            primitives::sealable(plaintext@.len()),
        ensures
            r@ == old(self)@.seal(key@, plaintext@),
            r@.len() == plaintext@.len() + primitives::TAG_LEN,
            old(self)@.open(key@, r@) == Some(plaintext@),
            final(self)@ == old(self)@.absorb(r@),
    {
        let nonce: [u8; 12] = [0u8; 12];
        assert(nonce@ =~= bytes::zeros(12));
        let ciphertext = primitives::chacha_encrypt(key, &nonce, &self.h, plaintext);
        self.mix_hash(ciphertext.as_slice());
        ciphertext
    }

    /// Decrypts `ciphertext`, bound to the hash, and hashes it. A failure
    /// leaves the state alone.
    fn decrypt_and_hash(&mut self, key: &[u8; 32], ciphertext: &[u8]) -> (r: Result<
        Vec<u8>,
        HandshakeError,
    >)
        ensures
            match r {
                Ok(plaintext) => {
                    &&& old(self)@.open(key@, ciphertext@) == Some(plaintext@)
                    &&& plaintext@.len() + primitives::TAG_LEN == ciphertext@.len()
                    &&& final(self)@ == old(self)@.absorb(ciphertext@)
                },
                Err(e) => {
                    &&& e == HandshakeError::DecryptionFailed
                    &&& old(self)@.open(key@, ciphertext@) is None
                    &&& final(self)@ == old(self)@
                },
            },
    {
        if !primitives::can_open(ciphertext.len()) {
            return Err(HandshakeError::DecryptionFailed);
        }
        let nonce: [u8; 12] = [0u8; 12];
        assert(nonce@ =~= bytes::zeros(12));
        match primitives::chacha_decrypt(key, &nonce, &self.h, ciphertext) {
            Ok(plaintext) => {
                self.mix_hash(ciphertext);
                Ok(plaintext)
            },
            Err(_) => Err(HandshakeError::DecryptionFailed),
        }
    }

    fn root_key(&self) -> (r: [u8; 32])
        ensures
            r@ == self@.ck,
    {
        self.ck
    }

    /// The two transport keys: the initiator sends with the first, the
    /// responder with the second.
    fn split(&self) -> (r: ([u8; 32], [u8; 32]))
        ensures
            (r.0@, r.1@) == self@.split(),
    {
        let empty: [u8; 0] = [];
        assert(empty@ =~= Seq::<u8>::empty());
        let mut okm: [u8; 64] = primitives::hkdf_derive(&self.ck, &empty, &empty);
        let k1 = bytes::take32(&okm, 0);
        let k2 = bytes::take32(&okm, 32);
        primitives::wipe(&mut okm);
        (k1, k2)
    }
}

/// Long-term identity of a peer: an X25519 key pair and an ML-KEM-768 key pair.
pub struct StaticIdentity {
    pub secret: X25519Secret,
    pub public: [u8; 32],
    pub kem_decap: DecapsulationKey,
    pub kem_encap: EncapsulationKey,
}

impl StaticIdentity {
    /// Whether the public halves belong to the private ones.
    pub open spec fn matching(&self) -> bool {
        &&& self.secret@.len() == 32
        &&& self.public@ == primitives::x25519_public(self.secret@)
        &&& self.kem_decap@.len() == 64
        &&& self.kem_encap@ == primitives::kem_public(self.kem_decap@)
    }

    /// A fresh random identity.
    pub fn generate() -> (r: Self)
        ensures
            r.matching(),
            r.public@ == primitives::x25519_public(r.secret@),
            r.kem_encap@ == primitives::kem_public(r.kem_decap@),
            primitives::x25519_drawn(r.secret@),
            primitives::kem_drawn(r.kem_decap@),
    {
        let secret = X25519Secret::random();
        let public = secret.public_key();
        let (kem_decap, kem_encap) = DecapsulationKey::generate();
        StaticIdentity { secret, public, kem_decap, kem_encap }
    }
}

/// Message 1, initiator to responder.
pub struct Message1 {
    pub e_pub: [u8; 32],
    pub kem_ciphertext: Vec<u8>,
    pub encrypted_static: Vec<u8>,
    pub encrypted_payload: Vec<u8>,
}

#[verifier::ext_equal]
pub struct Message1View {
    pub e_pub: Seq<u8>,
    pub kem_ciphertext: Seq<u8>,
    pub encrypted_static: Seq<u8>,
    pub encrypted_payload: Seq<u8>,
}

impl View for Message1 {
    type V = Message1View;

    open spec fn view(&self) -> Message1View {
        Message1View {
            e_pub: self.e_pub@,
            kem_ciphertext: self.kem_ciphertext@,
            encrypted_static: self.encrypted_static@,
            encrypted_payload: self.encrypted_payload@,
        }
    }
}

/// Message 2, responder to initiator.
pub struct Message2 {
    pub e_pub: [u8; 32],
    pub encrypted_payload: Vec<u8>,
}

#[verifier::ext_equal]
pub struct Message2View {
    pub e_pub: Seq<u8>,
    pub encrypted_payload: Seq<u8>,
}

impl View for Message2 {
    type V = Message2View;

    open spec fn view(&self) -> Message2View {
        Message2View { e_pub: self.e_pub@, encrypted_payload: self.encrypted_payload@ }
    }
}

/// The transcript that a handshake with the owner of `public` and `kem`
/// starts from: both of the responder's public keys are hashed first.
pub open spec fn addressed(public: Seq<u8>, kem: Seq<u8>) -> Transcript {
    Transcript::initial().absorb(public).absorb(kem)
}

/// Everything that goes into message 1.
#[verifier::ext_equal]
pub struct Opening {
    /// The initiator's static secret and public key.
    pub secret: Seq<u8>,
    pub public: Seq<u8>,
    /// The initiator's ephemeral secret.
    pub ephemeral: Seq<u8>,
    /// The responder's public keys.
    pub remote_public: Seq<u8>,
    pub remote_kem: Seq<u8>,
    /// The outcome of the encapsulation to the responder.
    pub kem_ciphertext: Seq<u8>,
    pub kem_secret: Seq<u8>,
}

impl Opening {
    pub open spec fn es(self) -> Seq<u8> {
        primitives::x25519_shared(self.ephemeral, self.remote_public)
    }

    pub open spec fn ss(self) -> Seq<u8> {
        primitives::x25519_shared(self.secret, self.remote_public)
    }

    /// The transcript once the ephemeral public key is hashed.
    pub open spec fn with_e(self) -> Transcript {
        addressed(self.remote_public, self.remote_kem).absorb(
            primitives::x25519_public(self.ephemeral),
        )
    }

    /// The transcript once the first shared secret is mixed in.
    pub open spec fn with_es(self) -> Transcript {
        self.with_e().mix(self.es())
    }

    pub open spec fn static_key(self) -> Seq<u8> {
        self.with_e().key(self.es())
    }

    pub open spec fn encrypted_static(self) -> Seq<u8> {
        self.with_es().seal(self.static_key(), self.public)
    }

    /// The transcript once the static public key is sent.
    pub open spec fn with_s(self) -> Transcript {
        self.with_es().absorb(self.encrypted_static())
    }

    /// The transcript once the second shared secret is mixed in.
    pub open spec fn with_ss(self) -> Transcript {
        self.with_s().mix(self.ss())
    }

    pub open spec fn payload_key(self) -> Seq<u8> {
        self.with_s().key(self.ss())
    }

    pub open spec fn encrypted_payload(self) -> Seq<u8> {
        self.with_ss().seal(self.payload_key(), Seq::empty())
    }

    /// The transcript at the end of message 1.
    pub open spec fn transcript(self) -> Transcript {
        self.with_ss().absorb(self.encrypted_payload()).mix(self.kem_secret)
    }

    pub open spec fn message(self) -> Message1View {
        Message1View {
            e_pub: primitives::x25519_public(self.ephemeral),
            kem_ciphertext: self.kem_ciphertext,
            encrypted_static: self.encrypted_static(),
            encrypted_payload: self.encrypted_payload(),
        }
    }

    /// Whether the addressee can read the message: its parts have their sizes,
    /// both ciphertexts open, and whoever holds the secret of the public key
    /// that the message is addressed to arrives at the same shared secrets.
    pub open spec fn readable(self) -> bool {
        &&& self.message().e_pub.len() == 32
        &&& self.encrypted_static().len() == self.public.len() + primitives::TAG_LEN
        &&& self.encrypted_payload().len() == primitives::TAG_LEN
        &&& self.with_es().open(self.static_key(), self.encrypted_static()) == Some(self.public)
        &&& self.with_ss().open(self.payload_key(), self.encrypted_payload()) == Some(
            Seq::<u8>::empty(),
        )
        &&& forall|other: Seq<u8>|
            other.len() == 32 && self.remote_public == #[trigger] primitives::x25519_public(other)
                ==> primitives::dh_agree(self.ephemeral, other) && primitives::dh_agree(
                self.secret,
                other,
            )
    }
}

/// What the static key in message 1 decrypts to for a responder whose
/// transcript stands at `at`.
pub open spec fn learned_static(at: Transcript, secret: Seq<u8>, msg: Message1View) -> Option<
    Seq<u8>,
> {
    let es = primitives::x25519_shared(secret, msg.e_pub);
    let with_e = at.absorb(msg.e_pub);
    with_e.mix(es).open(with_e.key(es), msg.encrypted_static)
}

/// What reading message 1 does to a responder whose transcript stands at `at`:
/// where the transcript ends up, and the initiator's static public key or the
/// reason why the message is refused.
pub open spec fn reading(
    at: Transcript,
    secret: Seq<u8>,
    seed: Seq<u8>,
    msg: Message1View,
) -> (Transcript, Result<Seq<u8>, HandshakeError>) {
    let es = primitives::x25519_shared(secret, msg.e_pub);
    let with_es = at.absorb(msg.e_pub).mix(es);
    match learned_static(at, secret, msg) {
        None => (with_es, Err(HandshakeError::DecryptionFailed)),
        Some(public) => {
            let ss = primitives::x25519_shared(secret, public);
            let with_s = with_es.absorb(msg.encrypted_static);
            let with_ss = with_s.mix(ss);
            if msg.kem_ciphertext.len() != primitives::KEM_CIPHERTEXT_LEN {
                (with_ss, Err(HandshakeError::MalformedKemCiphertext))
            } else {
                let with_kem = with_ss.mix(primitives::kem_decaps(seed, msg.kem_ciphertext));
                match with_kem.open(with_s.key(ss), msg.encrypted_payload) {
                    None => (with_kem, Err(HandshakeError::DecryptionFailed)),
                    Some(_) => (with_kem.absorb(msg.encrypted_payload), Ok(public)),
                }
            }
        },
    }
}

/// Everything that goes into message 2.
#[verifier::ext_equal]
pub struct Reply {
    /// Where the transcript stands after message 1.
    pub at: Transcript,
    /// The initiator's ephemeral and static public keys.
    pub remote_ephemeral: Seq<u8>,
    pub remote_static: Seq<u8>,
    /// The responder's ephemeral secret.
    pub ephemeral: Seq<u8>,
}

impl Reply {
    pub open spec fn ee(self) -> Seq<u8> {
        primitives::x25519_shared(self.ephemeral, self.remote_ephemeral)
    }

    pub open spec fn se(self) -> Seq<u8> {
        primitives::x25519_shared(self.ephemeral, self.remote_static)
    }

    pub open spec fn with_ee(self) -> Transcript {
        self.at.absorb(primitives::x25519_public(self.ephemeral)).mix(self.ee())
    }

    pub open spec fn with_se(self) -> Transcript {
        self.with_ee().mix(self.se())
    }

    pub open spec fn payload_key(self) -> Seq<u8> {
        self.with_ee().key(self.se())
    }

    pub open spec fn encrypted_payload(self) -> Seq<u8> {
        self.with_se().seal(self.payload_key(), Seq::empty())
    }

    /// The transcript at the end of the handshake.
    pub open spec fn transcript(self) -> Transcript {
        self.with_se().absorb(self.encrypted_payload())
    }

    pub open spec fn message(self) -> Message2View {
        Message2View {
            e_pub: primitives::x25519_public(self.ephemeral),
            encrypted_payload: self.encrypted_payload(),
        }
    }

    /// Whether the initiator can read the message: its parts have their sizes,
    /// the ciphertext opens, and whoever holds the secrets of the initiator's
    /// public keys arrives at the same shared secrets.
    pub open spec fn readable(self) -> bool {
        &&& self.message().e_pub.len() == 32
        &&& self.encrypted_payload().len() == primitives::TAG_LEN
        &&& self.with_se().open(self.payload_key(), self.encrypted_payload()) == Some(
            Seq::<u8>::empty(),
        )
        &&& forall|other: Seq<u8>|
            other.len() == 32 && self.remote_ephemeral == #[trigger] primitives::x25519_public(
                other,
            ) ==> primitives::dh_agree(self.ephemeral, other)
        &&& forall|other: Seq<u8>|
            other.len() == 32 && self.remote_static == #[trigger] primitives::x25519_public(other)
                ==> primitives::dh_agree(self.ephemeral, other)
    }
}

/// What an initiator whose transcript stands at `at` makes of message 2.
pub open spec fn conclusion(
    at: Transcript,
    ephemeral: Seq<u8>,
    secret: Seq<u8>,
    msg: Message2View,
) -> Result<KeysView, HandshakeError> {
    let with_ee = at.absorb(msg.e_pub).mix(primitives::x25519_shared(ephemeral, msg.e_pub));
    let se = primitives::x25519_shared(secret, msg.e_pub);
    let with_se = with_ee.mix(se);
    match with_se.open(with_ee.key(se), msg.encrypted_payload) {
        None => Err(HandshakeError::DecryptionFailed),
        Some(_) => Ok(with_se.absorb(msg.encrypted_payload).initiator_keys()),
    }
}

/// What the steps of a transcript are: the hash takes in what is exchanged, with
/// SHA-256; the chaining key takes in a secret with HKDF, whose second half is the
/// key of one message; a message is sealed under such a key, with a nonce of zero
/// and bound to the hash.
pub proof fn law_transcript_steps(
    at: Transcript,
    data: Seq<u8>,
    key: Seq<u8>,
    message: Seq<u8>,
    name: Seq<u8>,
)
    ensures
        at.absorb(data).h == primitives::sha256(at.h + data),
        at.absorb(data).ck == at.ck,
        at.mix(data).ck == primitives::hkdf_sha256(at.ck, data, Seq::empty(), 64).subrange(0, 32),
        at.mix(data).h == at.h,
        at.key(data) == primitives::hkdf_sha256(at.ck, data, Seq::empty(), 64).subrange(32, 64),
        at.seal(key, message) == primitives::chacha_seal(key, bytes::zeros(12), at.h, message),
        message.len() <= primitives::AEAD_LIMIT + 16 ==> at.open(key, message)
            == primitives::chacha_open(key, bytes::zeros(12), at.h, message),
        message.len() > primitives::AEAD_LIMIT + 16 ==> at.open(key, message) is None,
        name.len() > 32 ==> protocol_hash(name) == primitives::sha256(name),
        name.len() <= 32 ==> protocol_hash(name).len() == 32 && name.is_prefix_of(
            protocol_hash(name),
        ) && forall|i: int| name.len() <= i < 32 ==> #[trigger] protocol_hash(name)[i] == 0,
        Transcript::initial().ck == primitives::sha256(PROTOCOL_NAME@),
        Transcript::initial().h == primitives::sha256(PROTOCOL_NAME@),
{
    if name.len() <= 32 {
        assert(name =~= protocol_hash(name).subrange(0, name.len() as int));
    }
}

/// The protocol name spells the pattern and the primitives.
pub proof fn law_protocol_name(i: int)
    ensures
        PROTOCOL_NAME@.len() == "Noise_IK_25519_MLKEM768_ChaChaPoly_SHA256"@.len(),
        0 <= i < 41 ==> PROTOCOL_NAME@[i]
            == "Noise_IK_25519_MLKEM768_ChaChaPoly_SHA256"@[i] as int,
{
    reveal_strlit("Noise_IK_25519_MLKEM768_ChaChaPoly_SHA256");
}

/// The keys that a handshake ends in: 64 bytes of HKDF from the chaining key, of
/// which the initiator sends with the first half and receives with the second, and
/// the responder the other way round. The root is the chaining key itself.
pub proof fn law_transport_keys_are_derived(at: Transcript)
    ensures
        ({
            let okm = primitives::hkdf_sha256(at.ck, Seq::empty(), Seq::empty(), 64);
            &&& at.initiator_keys().send == okm.subrange(0, 32)
            &&& at.initiator_keys().recv == okm.subrange(32, 64)
            &&& at.initiator_keys().root == at.ck
            &&& at.responder_keys().send == okm.subrange(32, 64)
            &&& at.responder_keys().recv == okm.subrange(0, 32)
            &&& at.responder_keys().root == at.ck
        }),
{
}

/// What message 1 holds, from the keys that go into it: the static key is sealed
/// with the secret that the ephemeral key shares with the responder, the empty
/// payload with the one that the static key shares as well; each is bound to the
/// responder's public keys and to all that was sent before it. The encapsulated
/// secret goes in last.
pub proof fn law_message1_contents(o: Opening)
    ensures
        ({
            let none = Seq::<u8>::empty();
            let nonce = bytes::zeros(12);
            let e_pub = primitives::x25519_public(o.ephemeral);
            let start = primitives::sha256(PROTOCOL_NAME@);
            let h0 = primitives::sha256(start + o.remote_public);
            let h1 = primitives::sha256(h0 + o.remote_kem);
            let h2 = primitives::sha256(h1 + e_pub);
            let es = primitives::x25519_shared(o.ephemeral, o.remote_public);
            let k1 = primitives::hkdf_sha256(start, es, none, 64);
            let sealed_static = primitives::chacha_seal(k1.subrange(32, 64), nonce, h2, o.public);
            let h3 = primitives::sha256(h2 + sealed_static);
            let ss = primitives::x25519_shared(o.secret, o.remote_public);
            let k2 = primitives::hkdf_sha256(k1.subrange(0, 32), ss, none, 64);
            let sealed_payload = primitives::chacha_seal(k2.subrange(32, 64), nonce, h3, none);
            let k3 = primitives::hkdf_sha256(k2.subrange(0, 32), o.kem_secret, none, 64);
            &&& o.message().e_pub == e_pub
            &&& o.message().kem_ciphertext == o.kem_ciphertext
            &&& o.message().encrypted_static == sealed_static
            &&& o.message().encrypted_payload == sealed_payload
            &&& o.transcript().h == primitives::sha256(h3 + sealed_payload)
            &&& o.transcript().ck == k3.subrange(0, 32)
        }),
{
}

/// What message 2 holds, from the keys that go into it: the empty payload, sealed
/// with the secrets that the responder's ephemeral key shares with the initiator's
/// ephemeral key and with its static key, and bound to all that was sent before.
pub proof fn law_message2_contents(r: Reply)
    ensures
        ({
            let none = Seq::<u8>::empty();
            let e_pub = primitives::x25519_public(r.ephemeral);
            let h1 = primitives::sha256(r.at.h + e_pub);
            let ee = primitives::x25519_shared(r.ephemeral, r.remote_ephemeral);
            let k1 = primitives::hkdf_sha256(r.at.ck, ee, none, 64);
            let se = primitives::x25519_shared(r.ephemeral, r.remote_static);
            let k2 = primitives::hkdf_sha256(k1.subrange(0, 32), se, none, 64);
            let sealed = primitives::chacha_seal(
                k2.subrange(32, 64),
                bytes::zeros(12),
                h1,
                none,
            );
            &&& r.message().e_pub == e_pub
            &&& r.message().encrypted_payload == sealed
            &&& r.transcript().h == primitives::sha256(h1 + sealed)
            &&& r.transcript().ck == k2.subrange(0, 32)
        }),
{
}

/// What a responder makes of message 1, from its own keys: it learns the static
/// key that the first ciphertext opens to, and accepts the message exactly if that
/// ciphertext opens, the KEM ciphertext has its length, and the second ciphertext
/// opens too.
pub proof fn law_message1_reading(
    at: Transcript,
    secret: Seq<u8>,
    seed: Seq<u8>,
    msg: Message1View,
)
    ensures
        ({
            let none = Seq::<u8>::empty();
            let nonce = bytes::zeros(12);
            let most = primitives::AEAD_LIMIT + 16;
            let h1 = primitives::sha256(at.h + msg.e_pub);
            let es = primitives::x25519_shared(secret, msg.e_pub);
            let k1 = primitives::hkdf_sha256(at.ck, es, none, 64);
            let public = primitives::chacha_open(
                k1.subrange(32, 64),
                nonce,
                h1,
                msg.encrypted_static,
            );
            let h2 = primitives::sha256(h1 + msg.encrypted_static);
            let ss = primitives::x25519_shared(secret, public->0);
            let k2 = primitives::hkdf_sha256(k1.subrange(0, 32), ss, none, 64);
            let kem_secret = primitives::kem_decaps(seed, msg.kem_ciphertext);
            let k3 = primitives::hkdf_sha256(k2.subrange(0, 32), kem_secret, none, 64);
            let payload = primitives::chacha_open(
                k2.subrange(32, 64),
                nonce,
                h2,
                msg.encrypted_payload,
            );
            let (after, result) = reading(at, secret, seed, msg);
            if msg.encrypted_static.len() > most || public is None {
                &&& learned_static(at, secret, msg) is None
                &&& result == Err::<Seq<u8>, HandshakeError>(HandshakeError::DecryptionFailed)
                &&& after == (Transcript { ck: k1.subrange(0, 32), h: h1 })
            } else {
                &&& learned_static(at, secret, msg) == public
                &&& if msg.kem_ciphertext.len() != 1088 {
                    &&& result == Err::<Seq<u8>, HandshakeError>(
                        HandshakeError::MalformedKemCiphertext,
                    )
                    &&& after == (Transcript { ck: k2.subrange(0, 32), h: h2 })
                } else if msg.encrypted_payload.len() > most || payload is None {
                    &&& result == Err::<Seq<u8>, HandshakeError>(HandshakeError::DecryptionFailed)
                    &&& after == (Transcript { ck: k3.subrange(0, 32), h: h2 })
                } else {
                    &&& result == Ok::<Seq<u8>, HandshakeError>(public->0)
                    &&& after.h == primitives::sha256(h2 + msg.encrypted_payload)
                    &&& after.ck == k3.subrange(0, 32)
                }
            }
        }),
{
}

/// What an initiator makes of message 2, from its own keys: the keys of the
/// handshake exactly if the ciphertext opens.
pub proof fn law_message2_reading(
    at: Transcript,
    ephemeral: Seq<u8>,
    secret: Seq<u8>,
    msg: Message2View,
)
    ensures
        ({
            let none = Seq::<u8>::empty();
            let h1 = primitives::sha256(at.h + msg.e_pub);
            let ee = primitives::x25519_shared(ephemeral, msg.e_pub);
            let k1 = primitives::hkdf_sha256(at.ck, ee, none, 64);
            let se = primitives::x25519_shared(secret, msg.e_pub);
            let k2 = primitives::hkdf_sha256(k1.subrange(0, 32), se, none, 64);
            let okm = primitives::hkdf_sha256(k2.subrange(0, 32), none, none, 64);
            let payload = primitives::chacha_open(
                k2.subrange(32, 64),
                bytes::zeros(12),
                h1,
                msg.encrypted_payload,
            );
            conclusion(at, ephemeral, secret, msg) == if msg.encrypted_payload.len()
                <= primitives::AEAD_LIMIT + 16 && payload is Some {
                Ok::<KeysView, HandshakeError>(
                    KeysView {
                        send: okm.subrange(0, 32),
                        recv: okm.subrange(32, 64),
                        root: k2.subrange(0, 32),
                    },
                )
            } else {
                Err::<KeysView, HandshakeError>(HandshakeError::DecryptionFailed)
            }
        }),
{
}

/// A message 1 is accepted by the responder that it is addressed to, provided
/// that the KEM recovers the encapsulated secret: the responder learns the
/// initiator's static public key, and both transcripts stand at the same point.
pub proof fn law_message1_is_accepted(o: Opening, secret: Seq<u8>, seed: Seq<u8>)
    requires
        o.readable(),
        o.public == primitives::x25519_public(o.secret),
        secret.len() == 32,
        o.remote_public == primitives::x25519_public(secret),
        o.kem_ciphertext.len() == primitives::KEM_CIPHERTEXT_LEN,
        primitives::kem_decaps(seed, o.kem_ciphertext) == o.kem_secret,
    ensures
        reading(addressed(o.remote_public, o.remote_kem), secret, seed, o.message()) == (
            o.transcript(),
            Ok::<Seq<u8>, HandshakeError>(o.public),
        ),
{
    assert(primitives::dh_agree(o.ephemeral, secret));
    assert(primitives::dh_agree(o.secret, secret));
    let with_kem = o.with_ss().mix(o.kem_secret);
    assert(with_kem.h == o.with_ss().h);
    assert(with_kem.absorb(o.encrypted_payload()) =~= o.transcript());
}

/// Both sides of a handshake end up with the same keys, crossed: what one
/// sends with, the other receives with, and the roots are equal.
pub proof fn law_transport_keys_cross(o: Opening, r: Reply)
    requires
        r.readable(),
        o.ephemeral.len() == 32,
        o.secret.len() == 32,
        r.at == o.transcript(),
        r.remote_ephemeral == primitives::x25519_public(o.ephemeral),
        r.remote_static == primitives::x25519_public(o.secret),
    ensures
        conclusion(o.transcript(), o.ephemeral, o.secret, r.message()) == Ok::<
            KeysView,
            HandshakeError,
        >(r.transcript().initiator_keys()),
        r.transcript().initiator_keys().send == r.transcript().responder_keys().recv,
        r.transcript().initiator_keys().recv == r.transcript().responder_keys().send,
        r.transcript().initiator_keys().root == r.transcript().responder_keys().root,
{
    assert(primitives::dh_agree(r.ephemeral, o.ephemeral));
    assert(primitives::dh_agree(r.ephemeral, o.secret));
}

pub struct InitiatorHandshake {
    state: SymmetricState,
    e_priv: X25519Secret,
    s_priv: X25519Secret,
}

/// What an initiator remembers between the two messages.
#[verifier::ext_equal]
pub struct InitiatorView {
    pub transcript: Transcript,
    pub ephemeral: Seq<u8>,
    pub secret: Seq<u8>,
}

impl View for InitiatorHandshake {
    type V = InitiatorView;

    closed spec fn view(&self) -> InitiatorView {
        InitiatorView {
            transcript: self.state@,
            ephemeral: self.e_priv@,
            secret: self.s_priv@,
        }
    }
}

/// Whether `hs` and `msg` are a handshake that `local` started with the owner
/// of the remote keys, `kem_secret` being the secret that it encapsulated.
pub open spec fn started(
    local: &StaticIdentity,
    remote_public: Seq<u8>,
    remote_kem: Seq<u8>,
    hs: InitiatorView,
    msg: Message1View,
    kem_secret: Seq<u8>,
) -> bool {
    let o = Opening {
        secret: local.secret@,
        public: local.public@,
        ephemeral: hs.ephemeral,
        remote_public,
        remote_kem,
        kem_ciphertext: msg.kem_ciphertext,
        kem_secret,
    };
    &&& hs == (InitiatorView {
        transcript: o.transcript(),
        ephemeral: hs.ephemeral,
        secret: local.secret@,
    })
    &&& msg == o.message()
    &&& o.readable()
}

impl InitiatorHandshake {
    /// Starts a handshake with a given ephemeral secret and a given outcome of
    /// the encapsulation.
    pub fn start_with(
        local: &StaticIdentity,
        remote_static: [u8; 32],
        remote_kem_encap: &EncapsulationKey,
        e_priv: X25519Secret,
        kem_ciphertext: Vec<u8>,
        kem_secret: [u8; 32],
    ) -> (r: (Self, Message1))
        ensures
            started(local, remote_static@, remote_kem_encap@, r.0@, r.1@, kem_secret@),
            r.0@.ephemeral == e_priv@,
            r.0@.secret == local.secret@,
            r.1.kem_ciphertext@ == kem_ciphertext@,
            ({
                let o = Opening {
                    secret: local.secret@,
                    public: local.public@,
                    ephemeral: e_priv@,
                    remote_public: remote_static@,
                    remote_kem: remote_kem_encap@,
                    kem_ciphertext: kem_ciphertext@,
                    kem_secret: kem_secret@,
                };
                &&& r.0@.transcript == o.transcript()
                &&& r.1@ == o.message()
                &&& o.readable()
            }),
    {
        let ghost o = Opening {
            secret: local.secret@,
            public: local.public@,
            ephemeral: e_priv@,
            remote_public: remote_static@,
            remote_kem: remote_kem_encap@,
            kem_ciphertext: kem_ciphertext@,
            kem_secret: kem_secret@,
        };
        let mut state = SymmetricState::new();
        state.mix_hash(&remote_static);
        state.mix_hash(remote_kem_encap.as_bytes());

        let e_pub = e_priv.public_key();
        state.mix_hash(&e_pub);

        let mut es = e_priv.diffie_hellman(&remote_static);
        let key1 = state.mix_key(&es);
        primitives::wipe(&mut es);
        let encrypted_static = state.encrypt_and_hash(&key1, &local.public);

        let mut ss = local.secret.diffie_hellman(&remote_static);
        let key2 = state.mix_key(&ss);
        primitives::wipe(&mut ss);
        let empty: [u8; 0] = [];
        assert(empty@ =~= Seq::<u8>::empty());
        let encrypted_payload = state.encrypt_and_hash(&key2, &empty);

        let mut shared = kem_secret;
        state.mix_key(&shared);
        primitives::wipe(&mut shared);
        assert(state@ =~= o.transcript());

        let msg = Message1 { e_pub, kem_ciphertext, encrypted_static, encrypted_payload };
        assert(msg@ =~= o.message());
        let hs = InitiatorHandshake { state, e_priv, s_priv: local.secret.clone() };
        (hs, msg)
    }

    /// Starts a handshake as the initiator, given our own static identity and
    /// the responder's known public keys. The ephemeral secret and the
    /// encapsulation are random.
    pub fn start(
        local: &StaticIdentity,
        remote_static: [u8; 32],
        remote_kem_encap: &EncapsulationKey,
    ) -> (r: (Self, Message1))
        ensures
            r.0@.ephemeral.len() == 32,
            r.0@.secret == local.secret@,
            primitives::x25519_drawn(r.0@.ephemeral),
            r.1.e_pub@ == primitives::x25519_public(r.0@.ephemeral),
            r.1.kem_ciphertext@.len() == primitives::KEM_CIPHERTEXT_LEN,
            r.1.encrypted_static@.len() == 32 + primitives::TAG_LEN,
            r.1.encrypted_payload@.len() == primitives::TAG_LEN,
            exists|kem_secret: Seq<u8>|
                #![trigger started(local, remote_static@, remote_kem_encap@, r.0@, r.1@, kem_secret)]
                started(local, remote_static@, remote_kem_encap@, r.0@, r.1@, kem_secret)
                    && primitives::kem_encapsulated(
                    remote_kem_encap@,
                    r.1.kem_ciphertext@,
                    kem_secret,
                ),
    {
        let e_priv = X25519Secret::random();
        let (kem_ciphertext, mut kem_secret) = remote_kem_encap.encapsulate();
        let r = Self::start_with(
            local,
            remote_static,
            remote_kem_encap,
            e_priv,
            kem_ciphertext,
            kem_secret,
        );
        primitives::wipe(&mut kem_secret);
        r
    }

    /// Completes the handshake with message 2. The handshake itself is left
    /// alone, so that it can be completed with another message if this one is
    /// refused.
    pub fn finish(&self, msg2: Message2) -> (r: Result<TransportKeys, HandshakeError>)
        ensures
            match r {
                Ok(keys) => conclusion(
                    self@.transcript,
                    self@.ephemeral,
                    self@.secret,
                    msg2@,
                ) == Ok::<KeysView, HandshakeError>(keys@),
                Err(e) => conclusion(
                    self@.transcript,
                    self@.ephemeral,
                    self@.secret,
                    msg2@,
                ) == Err::<KeysView, HandshakeError>(e),
            },
    {
        let mut state = self.state.clone();
        state.mix_hash(&msg2.e_pub);

        let mut ee = self.e_priv.diffie_hellman(&msg2.e_pub);
        state.mix_key(&ee);
        primitives::wipe(&mut ee);

        let mut se = self.s_priv.diffie_hellman(&msg2.e_pub);
        let key2 = state.mix_key(&se);
        primitives::wipe(&mut se);

        match state.decrypt_and_hash(&key2, msg2.encrypted_payload.as_slice()) {
            Err(e) => Err(e),
            Ok(_) => {
                let root_key = state.root_key();
                let (k1, k2) = state.split();
                let keys = TransportKeys { send_key: k1, recv_key: k2, root_key };
                assert(keys@ =~= state@.initiator_keys());
                Ok(keys)
            },
        }
    }
}

/// A handshake that was started remembers the static and the ephemeral secret, and
/// has sent the message, and stands where the transcript does, that they make for
/// the responder that it is addressed to.
pub proof fn law_started_handshake(
    local: &StaticIdentity,
    remote_public: Seq<u8>,
    remote_kem: Seq<u8>,
    hs: InitiatorView,
    msg: Message1View,
    kem_secret: Seq<u8>,
)
    requires
        started(local, remote_public, remote_kem, hs, msg, kem_secret),
    ensures
        ({
            let o = Opening {
                secret: local.secret@,
                public: local.public@,
                ephemeral: hs.ephemeral,
                remote_public,
                remote_kem,
                kem_ciphertext: msg.kem_ciphertext,
                kem_secret,
            };
            &&& hs.secret == local.secret@
            &&& hs.transcript == o.transcript()
            &&& msg == o.message()
            &&& o.readable()
        }),
{
}

pub struct ResponderHandshake {
    state: SymmetricState,
    s_priv: X25519Secret,
    kem_decap: DecapsulationKey,
    pending_ie: Option<[u8; 32]>,
    pending_is: Option<[u8; 32]>,
}

/// What a responder remembers: its transcript, its private keys, and the
/// initiator's public keys once message 1 was accepted.
#[verifier::ext_equal]
pub struct ResponderView {
    pub transcript: Transcript,
    pub secret: Seq<u8>,
    pub seed: Seq<u8>,
    pub remote_ephemeral: Option<Seq<u8>>,
    pub remote_static: Option<Seq<u8>>,
}

spec fn view_of(key: Option<[u8; 32]>) -> Option<Seq<u8>> {
    match key {
        None => None,
        Some(key) => Some(key@),
    }
}

impl View for ResponderHandshake {
    type V = ResponderView;

    closed spec fn view(&self) -> ResponderView {
        ResponderView {
            transcript: self.state@,
            secret: self.s_priv@,
            seed: self.kem_decap@,
            remote_ephemeral: view_of(self.pending_ie),
            remote_static: view_of(self.pending_is),
        }
    }
}

impl ResponderView {
    /// A responder with these static keys that has not read anything.
    pub open spec fn fresh(
        public: Seq<u8>,
        kem: Seq<u8>,
        secret: Seq<u8>,
        seed: Seq<u8>,
    ) -> ResponderView {
        ResponderView {
            transcript: addressed(public, kem),
            secret,
            seed,
            remote_ephemeral: None,
            remote_static: None,
        }
    }

    /// The reply that this responder gives with a given ephemeral secret, if
    /// message 1 was accepted.
    pub open spec fn reply(self, ephemeral: Seq<u8>) -> Reply {
        Reply {
            at: self.transcript,
            remote_ephemeral: self.remote_ephemeral.unwrap(),
            remote_static: self.remote_static.unwrap(),
            ephemeral,
        }
    }

    /// Whether message 1 was accepted.
    pub open spec fn ready(self) -> bool {
        self.remote_ephemeral is Some && self.remote_static is Some
    }

    /// The responder after it read message 1, and what it made of it.
    pub open spec fn read(self, msg: Message1View) -> (ResponderView, Result<
        Seq<u8>,
        HandshakeError,
    >) {
        let (transcript, result) = reading(self.transcript, self.secret, self.seed, msg);
        match result {
            Ok(public) => (
                ResponderView {
                    transcript,
                    remote_ephemeral: Some(msg.e_pub),
                    remote_static: Some(public),
                    ..self
                },
                result,
            ),
            Err(_) => (ResponderView { transcript, ..self }, result),
        }
    }

    /// Whether the static key in message 1 opens to something that is not an
    /// X25519 public key.
    pub open spec fn odd_static(self, msg: Message1View) -> bool {
        match learned_static(self.transcript, self.secret, msg) {
            Some(public) => public.len() != 32,
            None => false,
        }
    }
}

/// A responder starts from the hash of its own public keys. Reading message 1
/// gives it what `reading` gives; only if that is a static key does it take that
/// key, and the ephemeral key that the message shows, for the initiator's. Its
/// reply goes to those keys from where its transcript stands. Its own secrets never
/// change.
pub proof fn law_responder_steps(
    public: Seq<u8>,
    kem: Seq<u8>,
    responder: ResponderView,
    msg: Message1View,
    ephemeral: Seq<u8>,
)
    ensures
        ({
            let fresh = ResponderView::fresh(public, kem, responder.secret, responder.seed);
            let start = primitives::sha256(PROTOCOL_NAME@);
            let h0 = primitives::sha256(start + public);
            &&& fresh.transcript == (Transcript { ck: start, h: primitives::sha256(h0 + kem) })
            &&& fresh.secret == responder.secret
            &&& fresh.seed == responder.seed
            &&& !fresh.ready()
        }),
        ({
            let (after, result) = responder.read(msg);
            let (transcript, read) = reading(
                responder.transcript,
                responder.secret,
                responder.seed,
                msg,
            );
            &&& result == read
            &&& after.transcript == transcript
            &&& after.secret == responder.secret
            &&& after.seed == responder.seed
            &&& result matches Ok(public) ==> after.ready() && after.remote_ephemeral == Some(
                msg.e_pub,
            ) && after.remote_static == Some(public)
            &&& result is Err ==> after.remote_ephemeral == responder.remote_ephemeral
                && after.remote_static == responder.remote_static
        }),
        responder.ready() <==> responder.remote_ephemeral is Some && responder.remote_static is Some,
        responder.ready() ==> ({
            let reply = responder.reply(ephemeral);
            &&& reply.at == responder.transcript
            &&& reply.ephemeral == ephemeral
            &&& responder.remote_ephemeral == Some(reply.remote_ephemeral)
            &&& responder.remote_static == Some(reply.remote_static)
        }),
        responder.odd_static(msg) <==> (learned_static(
            responder.transcript,
            responder.secret,
            msg,
        ) matches Some(public) && public.len() != 32),
{
}

impl ResponderHandshake {
    pub fn new(local: &StaticIdentity) -> (r: Self)
        ensures
            r@ == ResponderView::fresh(
                local.public@,
                local.kem_encap@,
                local.secret@,
                local.kem_decap@,
            ),
    {
        let mut state = SymmetricState::new();
        state.mix_hash(&local.public);
        state.mix_hash(local.kem_encap.as_bytes());
        ResponderHandshake {
            state,
            s_priv: local.secret.clone(),
            kem_decap: local.kem_decap.clone(),
            pending_ie: None,
            pending_is: None,
        }
    }

    /// Processes message 1 and returns the initiator's static public key, so
    /// that the caller can see whether it is a known peer. A message whose
    /// authentic static key is not 32 bytes long must not be given; see
    /// `try_read_message1`.
    pub fn read_message1(&mut self, msg1: &Message1) -> (r: Result<[u8; 32], HandshakeError>)
        requires
            !old(self)@.odd_static(msg1@),
        ensures
            final(self)@ == old(self)@.read(msg1@).0,
            match r {
                Ok(public) => old(self)@.read(msg1@).1 == Ok::<Seq<u8>, HandshakeError>(public@),
                Err(e) => old(self)@.read(msg1@).1 == Err::<Seq<u8>, HandshakeError>(e),
            },
    {
        let ghost start = self@;
        self.state.mix_hash(&msg1.e_pub);

        let mut es = self.s_priv.diffie_hellman(&msg1.e_pub);
        let key1 = self.state.mix_key(&es);
        primitives::wipe(&mut es);
        let is_bytes = match self.state.decrypt_and_hash(&key1, msg1.encrypted_static.as_slice()) {
            Ok(is_bytes) => is_bytes,
            Err(e) => {
                assert(self@ =~= start.read(msg1@).0);
                return Err(e);
            },
        };
        let initiator_static = bytes::take32(is_bytes.as_slice(), 0);
        assert(initiator_static@ =~= is_bytes@);

        let mut ss = self.s_priv.diffie_hellman(&initiator_static);
        let key2 = self.state.mix_key(&ss);
        primitives::wipe(&mut ss);

        if msg1.kem_ciphertext.len() != primitives::KEM_CIPHERTEXT_LEN {
            assert(self@ =~= start.read(msg1@).0);
            return Err(HandshakeError::MalformedKemCiphertext);
        }
        let mut kem_secret = self.kem_decap.decapsulate(msg1.kem_ciphertext.as_slice());
        self.state.mix_key(&kem_secret);
        primitives::wipe(&mut kem_secret);

        match self.state.decrypt_and_hash(&key2, msg1.encrypted_payload.as_slice()) {
            Ok(_) => {},
            Err(e) => {
                assert(self@ =~= start.read(msg1@).0);
                return Err(e);
            },
        }
        self.pending_ie = Some(msg1.e_pub);
        self.pending_is = Some(initiator_static);
        assert(self@ =~= start.read(msg1@).0);
        Ok(initiator_static)
    }

    /// `read_message1` for any message: `None`, and nothing changes, if the
    /// authentic static key in it is not 32 bytes long.
    pub fn try_read_message1(&mut self, msg1: &Message1) -> (r: Option<
        Result<[u8; 32], HandshakeError>,
    >)
        ensures
            match r {
                None => old(self)@.odd_static(msg1@) && final(self)@ == old(self)@,
                Some(result) => {
                    &&& !old(self)@.odd_static(msg1@)
                    &&& final(self)@ == old(self)@.read(msg1@).0
                    &&& match result {
                        Ok(public) => old(self)@.read(msg1@).1 == Ok::<Seq<u8>, HandshakeError>(
                            public@,
                        ),
                        Err(e) => old(self)@.read(msg1@).1 == Err::<Seq<u8>, HandshakeError>(e),
                    }
                },
            },
    {
        let mut trial = self.state.clone();
        trial.mix_hash(&msg1.e_pub);
        let mut es = self.s_priv.diffie_hellman(&msg1.e_pub);
        let key1 = trial.mix_key(&es);
        primitives::wipe(&mut es);
        if let Ok(is_bytes) = trial.decrypt_and_hash(&key1, msg1.encrypted_static.as_slice()) {
            if is_bytes.len() != 32 {
                return None;
            }
        }
        Some(self.read_message1(msg1))
    }

    /// Writes message 2 with a given ephemeral secret and concludes the
    /// handshake.
    pub fn write_message2_with(self, e_priv: X25519Secret) -> (r: Result<
        (Message2, TransportKeys),
        HandshakeError,
    >)
        ensures
            match r {
                Ok((msg, keys)) => {
                    &&& self@.ready()
                    &&& msg@ == self@.reply(e_priv@).message()
                    &&& keys@ == self@.reply(e_priv@).transcript().responder_keys()
                    &&& self@.reply(e_priv@).readable()
                },
                Err(e) => !self@.ready() && e == HandshakeError::MessageOneMissing,
            },
    {
        let ghost o = self@.reply(e_priv@);
        let mut this = self;
        let (ie, is) = match (this.pending_ie, this.pending_is) {
            (Some(ie), Some(is)) => (ie, is),
            _ => {
                return Err(HandshakeError::MessageOneMissing);
            },
        };
        let e_pub = e_priv.public_key();
        this.state.mix_hash(&e_pub);

        let mut ee = e_priv.diffie_hellman(&ie);
        this.state.mix_key(&ee);
        primitives::wipe(&mut ee);

        let mut se = e_priv.diffie_hellman(&is);
        let key2 = this.state.mix_key(&se);
        primitives::wipe(&mut se);
        let empty: [u8; 0] = [];
        assert(empty@ =~= Seq::<u8>::empty());
        let encrypted_payload = this.state.encrypt_and_hash(&key2, &empty);

        let root_key = this.state.root_key();
        let (k1, k2) = this.state.split();
        let keys = TransportKeys { send_key: k2, recv_key: k1, root_key };
        let msg = Message2 { e_pub, encrypted_payload };
        assert(msg@ =~= o.message());
        assert(keys@ =~= o.transcript().responder_keys());
        Ok((msg, keys))
    }

    /// Writes message 2 and concludes the handshake. The ephemeral secret is
    /// random.
    pub fn write_message2(self) -> (r: Result<(Message2, TransportKeys), HandshakeError>)
        ensures
            match r {
                Ok((msg, keys)) => self@.ready() && exists|ephemeral: Seq<u8>|
                    {
                        let reply = #[trigger] self@.reply(ephemeral);
                        &&& ephemeral.len() == 32
                        &&& primitives::x25519_drawn(ephemeral)
                        &&& msg@ == reply.message()
                        &&& keys@ == reply.transcript().responder_keys()
                        &&& reply.readable()
                    },
                Err(e) => !self@.ready() && e == HandshakeError::MessageOneMissing,
            },
    {
        let e_priv = X25519Secret::random();
        self.write_message2_with(e_priv)
    }
}

} // verus!
