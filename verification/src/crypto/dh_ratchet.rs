//! Periodic DH and KEM ratchet: a fresh hybrid X25519 and ML-KEM-768 exchange
//! on a schedule, after 60 seconds or 2^16 packets sent, whichever comes first,
//! whose outcome is mixed into a persistent root key. Whoever steals the
//! current symmetric chains loses them at the next rekey.
//!
//! A rekey has no KEM key known ahead of time, so it is one round trip: the
//! initiator offers a fresh encapsulation key, and the responder answers with a
//! ciphertext made for it. Both messages carry a fresh X25519 public key too,
//! and the new root key comes from `HKDF(root_key, dh || kem_secret)`.
use std::time::Instant;
use vstd::prelude::*;

use crate::crypto::bytes;
use crate::crypto::keys::{self, DecapsulationKey, EncapsulationKey, KemKeyError, X25519Secret};
use crate::crypto::primitives;
use crate::crypto::ratchet::Ratchet;

verus! {

/// Nanoseconds after which a rekey is due: 60 seconds.
pub const DEFAULT_REKEY_INTERVAL: u128 = 60_000_000_000;

/// Packets sent after which a rekey is due: 2^16.
pub const DEFAULT_REKEY_PACKET_THRESHOLD: u32 = 65_536;

/// The side of the handshake that a peer played. It decides which of the two
/// chains of a rekey is for sending, as it does for the handshake's own keys.
#[derive(Debug, Clone, Copy, PartialEq, Eq, Structural)]
pub enum Role {
    Initiator,
    Responder,
}

/// When a rekey is due.
pub struct RatchetPolicy {
    /// Nanoseconds since the last rekey.
    pub interval: u128,
    /// Packets sent since the last rekey.
    pub packet_threshold: u32,
}

impl Default for RatchetPolicy {
    fn default() -> (r: Self)
        ensures
            r.interval == DEFAULT_REKEY_INTERVAL,
            r.packet_threshold == DEFAULT_REKEY_PACKET_THRESHOLD,
    {
        RatchetPolicy {
            interval: DEFAULT_REKEY_INTERVAL,
            packet_threshold: DEFAULT_REKEY_PACKET_THRESHOLD,
        }
    }
}

/// Why a rekey message was refused.
#[derive(Debug, Clone, Copy, PartialEq, Eq, Structural)]
pub enum RekeyError {
    /// The KEM ciphertext of a response does not have the right length.
    MalformedCiphertext,
    /// The KEM key of an offer does not have the right length.
    MalformedKey,
    /// The KEM key of an offer is not a valid one.
    InvalidKey,
}

pub struct DhRatchetState {
    root_key: [u8; 32],
    role: Role,
    policy: RatchetPolicy,
    epoch: u64,
    packets_since_rekey: u32,
    last_rekey: Instant,
}

/// What a ratchet state stands for, the time of its last rekey aside.
#[verifier::ext_equal]
pub struct DhView {
    pub root: Seq<u8>,
    pub role: Role,
    pub interval: u128,
    pub packet_threshold: u32,
    pub epoch: u64,
    pub packets: u32,
}

impl View for DhRatchetState {
    type V = DhView;

    closed spec fn view(&self) -> DhView {
        DhView {
            root: self.root_key@,
            role: self.role,
            interval: self.policy.interval,
            packet_threshold: self.policy.packet_threshold,
            epoch: self.epoch,
            packets: self.packets_since_rekey,
        }
    }
}

impl DhView {
    /// A state that was never rekeyed.
    pub open spec fn fresh(root: Seq<u8>, role: Role, policy: RatchetPolicy) -> DhView {
        DhView {
            root,
            role,
            interval: policy.interval,
            packet_threshold: policy.packet_threshold,
            epoch: 0,
            packets: 0,
        }
    }

    /// Whether a rekey is due so many nanoseconds after the last one.
    pub open spec fn due(self, elapsed: u128) -> bool {
        self.packets >= self.packet_threshold || elapsed >= self.interval
    }

    /// The 96 bytes that the root key gives with the two shared secrets.
    pub open spec fn stretch(self, dh: Seq<u8>, kem_secret: Seq<u8>) -> Seq<u8> {
        primitives::hkdf_sha256(self.root, dh + kem_secret, Seq::empty(), 96)
    }

    /// The state after a rekey that gives these 96 bytes.
    pub open spec fn seeded(self, okm: Seq<u8>) -> DhView {
        DhView {
            root: okm.subrange(0, 32),
            epoch: (self.epoch + 1) as u64,
            packets: 0,
            ..self
        }
    }

    /// The state after a rekey.
    pub open spec fn rekeyed(self, dh: Seq<u8>, kem_secret: Seq<u8>) -> DhView {
        self.seeded(self.stretch(dh, kem_secret))
    }

    /// The chain keys that a rekey gives, for sending and for receiving.
    pub open spec fn chains(self, dh: Seq<u8>, kem_secret: Seq<u8>) -> (Seq<u8>, Seq<u8>) {
        self.chains_of(self.stretch(dh, kem_secret))
    }

    /// The chain keys in these 96 bytes, for sending and for receiving.
    pub open spec fn chains_of(self, okm: Seq<u8>) -> (Seq<u8>, Seq<u8>) {
        let k1 = okm.subrange(32, 64);
        let k2 = okm.subrange(64, 96);
        match self.role {
            Role::Initiator => (k1, k2),
            Role::Responder => (k2, k1),
        }
    }
}

/// Sent by the initiator to start a rekey: a fresh X25519 public key and a
/// fresh ML-KEM-768 encapsulation key, both for this rekey only.
pub struct RekeyOffer {
    pub x_pub: [u8; 32],
    pub kem_ek_bytes: Vec<u8>,
}

#[verifier::ext_equal]
pub struct OfferView {
    pub x_pub: Seq<u8>,
    pub kem_ek: Seq<u8>,
}

impl View for RekeyOffer {
    type V = OfferView;

    open spec fn view(&self) -> OfferView {
        OfferView { x_pub: self.x_pub@, kem_ek: self.kem_ek_bytes@ }
    }
}

/// Sent by the responder to complete a rekey: its own fresh X25519 public key,
/// and the ciphertext that it made for the offered encapsulation key.
pub struct RekeyResponse {
    pub x_pub: [u8; 32],
    pub kem_ciphertext: Vec<u8>,
}

#[verifier::ext_equal]
pub struct ResponseView {
    pub x_pub: Seq<u8>,
    pub kem_ciphertext: Seq<u8>,
}

impl View for RekeyResponse {
    type V = ResponseView;

    open spec fn view(&self) -> ResponseView {
        ResponseView { x_pub: self.x_pub@, kem_ciphertext: self.kem_ciphertext@ }
    }
}

/// What the initiator remembers between its offer and the answer.
pub struct PendingRekey {
    local_eph: X25519Secret,
    kem_decap: DecapsulationKey,
}

#[verifier::ext_equal]
pub struct PendingView {
    pub ephemeral: Seq<u8>,
    pub seed: Seq<u8>,
}

impl View for PendingRekey {
    type V = PendingView;

    closed spec fn view(&self) -> PendingView {
        PendingView { ephemeral: self.local_eph@, seed: self.kem_decap@ }
    }
}

impl PendingView {
    /// Whether these are secrets of the right sizes whose offer can be accepted.
    pub open spec fn sound(self) -> bool {
        &&& self.ephemeral.len() == 32
        &&& self.seed.len() == 64
        &&& self.offer().x_pub.len() == 32
        &&& primitives::kem_key_valid(self.offer().kem_ek)
    }

    /// The offer that belongs to these secrets.
    pub open spec fn offer(self) -> OfferView {
        OfferView {
            x_pub: primitives::x25519_public(self.ephemeral),
            kem_ek: primitives::kem_public(self.seed),
        }
    }
}

/// What an initiator in state `before` makes of a response: the state and the
/// two chain keys after the rekey, or why there is none.
pub open spec fn rekey_finished(
    before: DhView,
    pending: PendingView,
    response: ResponseView,
) -> Result<(DhView, (Seq<u8>, Seq<u8>)), RekeyError> {
    if response.kem_ciphertext.len() != primitives::KEM_CIPHERTEXT_LEN {
        Err(RekeyError::MalformedCiphertext)
    } else {
        let dh = primitives::x25519_shared(pending.ephemeral, response.x_pub);
        let kem_secret = primitives::kem_decaps(pending.seed, response.kem_ciphertext);
        Ok((before.rekeyed(dh, kem_secret), before.chains(dh, kem_secret)))
    }
}

/// How a responder reads an offered KEM key.
pub open spec fn offered_key_checked(data: Seq<u8>) -> Result<Seq<u8>, RekeyError> {
    match keys::kem_key_checked(data) {
        Ok(key) => Ok(key),
        Err(KemKeyError::BadLength) => Err(RekeyError::MalformedKey),
        Err(KemKeyError::Invalid) => Err(RekeyError::InvalidKey),
    }
}

/// One answer to an offer: what the responder put into it, and what came out.
#[verifier::ext_equal]
pub struct Answer {
    pub ephemeral: Seq<u8>,
    pub kem_secret: Seq<u8>,
    pub response: ResponseView,
    pub send: Seq<u8>,
    pub recv: Seq<u8>,
}

impl Answer {
    /// Whether this is an answer to `offer` that takes a responder from
    /// `before` to `after`. Whoever holds the secret of the offered X25519 key
    /// arrives at the same shared secret.
    pub open spec fn given(self, before: DhView, offer: OfferView, after: DhView) -> bool {
        let dh = primitives::x25519_shared(self.ephemeral, offer.x_pub);
        &&& self.ephemeral.len() == 32
        &&& self.response.x_pub == primitives::x25519_public(self.ephemeral)
        &&& self.response.x_pub.len() == 32
        &&& after == before.rekeyed(dh, self.kem_secret)
        &&& (self.send, self.recv) == before.chains(dh, self.kem_secret)
        &&& forall|other: Seq<u8>|
            other.len() == 32 && offer.x_pub == #[trigger] primitives::x25519_public(other)
                ==> primitives::dh_agree(self.ephemeral, other)
    }
}

/// A rekey brings both sides to the same root key and to crossed chains: what
/// one sends with, the other receives with. This holds whenever both started
/// from the same root key and the KEM recovers the encapsulated secret.
pub proof fn law_rekey_chains_cross(
    initiator: DhView,
    responder: DhView,
    pending: PendingView,
    answer: Answer,
    responder_after: DhView,
)
    requires
        initiator.role == Role::Initiator,
        responder.role == Role::Responder,
        initiator.root == responder.root,
        pending.ephemeral.len() == 32,
        answer.given(responder, pending.offer(), responder_after),
        answer.response.kem_ciphertext.len() == primitives::KEM_CIPHERTEXT_LEN,
        primitives::kem_decaps(pending.seed, answer.response.kem_ciphertext) == answer.kem_secret,
    ensures
        match rekey_finished(initiator, pending, answer.response) {
            Ok((after, (send, recv))) => {
                &&& after.root == responder_after.root
                &&& send == answer.recv
                &&& recv == answer.send
            },
            Err(_) => false,
        },
{
    assert(primitives::dh_agree(answer.ephemeral, pending.ephemeral));
}

/// A rekey is due exactly once so many packets were sent, or so much time has
/// passed, as the policy says.
pub proof fn law_rekey_trigger(state: DhView, elapsed: u128)
    ensures
        state.packets >= state.packet_threshold ==> state.due(elapsed),
        elapsed >= state.interval ==> state.due(elapsed),
        state.packets < state.packet_threshold && elapsed < state.interval ==> !state.due(elapsed),
{
}

/// What a new epoch takes from 96 bytes: the first 32 are the new root key, the
/// next 32 are the chain on which the initiator sends and the responder receives,
/// the last 32 that of the other direction. The packet count starts anew, the
/// number of rekeys goes up by one, and the role and the policy stay.
pub proof fn law_new_epoch(before: DhView, okm: Seq<u8>)
    requires
        before.epoch < u64::MAX,
    ensures
        before.seeded(okm).root == okm.subrange(0, 32),
        before.seeded(okm).epoch == before.epoch + 1,
        before.seeded(okm).packets == 0,
        before.seeded(okm).role == before.role,
        before.seeded(okm).interval == before.interval,
        before.seeded(okm).packet_threshold == before.packet_threshold,
        before.role == Role::Initiator ==> before.chains_of(okm) == (
            okm.subrange(32, 64),
            okm.subrange(64, 96),
        ),
        before.role == Role::Responder ==> before.chains_of(okm) == (
            okm.subrange(64, 96),
            okm.subrange(32, 64),
        ),
{
}

/// What a rekey is derived from: the root key before it and the two shared
/// secrets, the X25519 one first, with HKDF.
pub proof fn law_rekey_is_derived(before: DhView, dh: Seq<u8>, kem_secret: Seq<u8>)
    ensures
        ({
            let okm = primitives::hkdf_sha256(before.root, dh + kem_secret, Seq::empty(), 96);
            &&& before.rekeyed(dh, kem_secret) == before.seeded(okm)
            &&& before.chains(dh, kem_secret) == before.chains_of(okm)
        }),
{
}

/// What an initiator makes of a response, from its secrets: a ciphertext that does
/// not have its length is refused; any other gives the rekey with the secret shared
/// with the key in the response and the one taken out of its ciphertext.
pub proof fn law_response_reading(before: DhView, pending: PendingView, response: ResponseView)
    ensures
        ({
            let dh = primitives::x25519_shared(pending.ephemeral, response.x_pub);
            let kem_secret = primitives::kem_decaps(pending.seed, response.kem_ciphertext);
            let okm = primitives::hkdf_sha256(before.root, dh + kem_secret, Seq::empty(), 96);
            rekey_finished(before, pending, response) == if response.kem_ciphertext.len() == 1088 {
                Ok::<(DhView, (Seq<u8>, Seq<u8>)), RekeyError>(
                    (before.seeded(okm), before.chains_of(okm)),
                )
            } else {
                Err::<(DhView, (Seq<u8>, Seq<u8>)), RekeyError>(RekeyError::MalformedCiphertext)
            }
        }),
        pending.offer().x_pub == primitives::x25519_public(pending.ephemeral),
        pending.offer().kem_ek == primitives::kem_public(pending.seed),
{
}

/// What an answer is, from the secrets that go into it: it shows the public key of
/// the responder's ephemeral secret, and the responder goes through the rekey with
/// the secret shared with the offered key and with the encapsulated one.
pub proof fn law_answer_contents(answer: Answer, before: DhView, offer: OfferView, after: DhView)
    requires
        answer.given(before, offer, after),
    ensures
        ({
            let dh = primitives::x25519_shared(answer.ephemeral, offer.x_pub);
            let okm = primitives::hkdf_sha256(
                before.root,
                dh + answer.kem_secret,
                Seq::empty(),
                96,
            );
            &&& answer.ephemeral.len() == 32
            &&& answer.response.x_pub == primitives::x25519_public(answer.ephemeral)
            &&& after == before.seeded(okm)
            &&& (answer.send, answer.recv) == before.chains_of(okm)
        }),
{
}

/// An offered key is refused for its length or for its contents, and taken as it
/// stands otherwise.
pub proof fn law_offered_key_reading(data: Seq<u8>)
    ensures
        data.len() != 1184 ==> offered_key_checked(data) == Err::<Seq<u8>, RekeyError>(
            RekeyError::MalformedKey,
        ),
        data.len() == 1184 && !primitives::kem_key_valid(data) ==> offered_key_checked(data)
            == Err::<Seq<u8>, RekeyError>(RekeyError::InvalidKey),
        primitives::kem_key_valid(data) ==> offered_key_checked(data) == Ok::<
            Seq<u8>,
            RekeyError,
        >(data),
{
}

/// A rekey starts the packet count anew: none is due right after one unless
/// the policy asks for one after no packets or no time at all.
pub proof fn law_rekey_clears_the_trigger(before: DhView, dh: Seq<u8>, kem_secret: Seq<u8>)
    requires
        before.packet_threshold > 0,
        before.interval > 0,
    ensures
        !before.rekeyed(dh, kem_secret).due(0),
{
}

impl DhRatchetState {
    /// The clock reading of the last rekey, or of the start if there was none.
    pub closed spec fn rekeyed_at(&self) -> Instant {
        self.last_rekey
    }

    pub fn new(root_key: [u8; 32], role: Role, policy: RatchetPolicy) -> (r: Self)
        ensures
            r@ == DhView::fresh(root_key@, role, policy),
            primitives::clock_read(r.rekeyed_at()),
    {
        Self::new_at(root_key, role, policy, primitives::read_clock())
    }

    /// A fresh state whose time to the first rekey counts from a given clock
    /// reading.
    pub fn new_at(root_key: [u8; 32], role: Role, policy: RatchetPolicy, now: Instant) -> (r: Self)
        ensures
            r@ == DhView::fresh(root_key@, role, policy),
            r@ == (DhView {
                root: root_key@,
                role,
                interval: policy.interval,
                packet_threshold: policy.packet_threshold,
                epoch: 0,
                packets: 0,
            }),
            r.rekeyed_at() == now,
    {
        DhRatchetState {
            root_key,
            role,
            policy,
            epoch: 0,
            packets_since_rekey: 0,
            last_rekey: now,
        }
    }

    /// How many rekeys there were.
    pub fn epoch(&self) -> (r: u64)
        ensures
            r == self@.epoch,
    {
        self.epoch
    }

    pub fn packets_since_rekey(&self) -> (r: u32)
        ensures
            r == self@.packets,
    {
        self.packets_since_rekey
    }

    /// The current root key.
    pub fn root_key(&self) -> (r: &[u8; 32])
        ensures
            r@ == self@.root,
    {
        &self.root_key
    }

    pub fn record_packet_sent(&mut self)
        requires
            old(self)@.packets < u32::MAX,
        ensures
            final(self)@ == (DhView { packets: (old(self)@.packets + 1) as u32, ..old(self)@ }),
            final(self).rekeyed_at() == old(self).rekeyed_at(),
    {
        self.packets_since_rekey = self.packets_since_rekey + 1;
    }

    /// Whether a rekey is due so many nanoseconds after the last one.
    pub fn rekey_due(&self, elapsed: u128) -> (r: bool)
        ensures
            r == self@.due(elapsed),
            r == (self@.packets >= self@.packet_threshold || elapsed >= self@.interval),
    {
        self.packets_since_rekey >= self.policy.packet_threshold || elapsed >= self.policy.interval
    }

    /// Whether a rekey is due now: at the time that the clock gives since the
    /// last one. What the clock says decides only if the packet count does not.
    pub fn should_rekey(&self) -> (r: bool)
        ensures
            exists|elapsed: u128| r == #[trigger] self@.due(elapsed),
            exists|elapsed: u128| #[trigger]
                primitives::clock_measured(self.rekeyed_at(), elapsed) && r == (self@.packets
                    >= self@.packet_threshold || elapsed >= self@.interval),
            self@.packets >= self@.packet_threshold || self@.interval == 0 ==> r,
    {
        self.rekey_due(self.nanos_since_rekey())
    }

    /// Nanoseconds since the last rekey, as the clock gives them.
    pub(crate) fn nanos_since_rekey(&self) -> (nanos: u128)
        ensures
            primitives::clock_measured(self.rekeyed_at(), nanos),
    {
        primitives::measure_clock(&self.last_rekey)
    }

    /// Whether a rekey is due again so many packets and nanoseconds after an
    /// offer that was not answered.
    pub fn retry_due(&self, packets: u32, elapsed: u128) -> (r: bool)
        ensures
            r == (packets >= self@.packet_threshold || elapsed >= self@.interval),
    {
        packets >= self.policy.packet_threshold || elapsed >= self.policy.interval
    }

    /// Makes an offer of a given ephemeral secret and a given KEM key pair.
    pub fn begin_rekey_with(
        &self,
        local_eph: X25519Secret,
        kem_decap: DecapsulationKey,
        kem_encap: EncapsulationKey,
    ) -> (r: (RekeyOffer, PendingRekey))
        ensures
            r.0@.x_pub == primitives::x25519_public(local_eph@),
            r.0@.kem_ek == kem_encap@,
            primitives::kem_key_valid(r.0@.kem_ek),
            r.1@ == (PendingView { ephemeral: local_eph@, seed: kem_decap@ }),
    {
        let x_pub = local_eph.public_key();
        let kem_ek_bytes: Vec<u8> = vstd::slice::slice_to_vec(kem_encap.as_bytes());
        (RekeyOffer { x_pub, kem_ek_bytes }, PendingRekey { local_eph, kem_decap })
    }

    /// Initiator side: starts a rekey with a fresh X25519 key and a fresh
    /// ML-KEM-768 key pair, the public halves of which are the offer.
    pub fn begin_rekey_as_initiator(&self) -> (r: (RekeyOffer, PendingRekey))
        ensures
            r.0@ == r.1@.offer(),
            r.0@.x_pub.len() == 32,
            r.1@.ephemeral.len() == 32,
            r.1@.seed.len() == 64,
            primitives::kem_key_valid(r.0@.kem_ek),
            primitives::x25519_drawn(r.1@.ephemeral),
            primitives::kem_drawn(r.1@.seed),
            r.0@.x_pub == primitives::x25519_public(r.1@.ephemeral),
            r.0@.kem_ek == primitives::kem_public(r.1@.seed),
    {
        let local_eph = X25519Secret::random();
        let (kem_decap, kem_encap) = DecapsulationKey::generate();
        self.begin_rekey_with(local_eph, kem_decap, kem_encap)
    }

    /// Initiator side: completes the rekey with the responder's answer, and
    /// returns the chains for sending and for receiving. A refused answer
    /// changes nothing.
    pub fn finish_rekey_as_initiator(&mut self, pending: PendingRekey, response: RekeyResponse) -> (r:
        Result<(Ratchet, Ratchet), RekeyError>)
        requires
            old(self)@.epoch < u64::MAX || response@.kem_ciphertext.len()
                != primitives::KEM_CIPHERTEXT_LEN,
        ensures
            match r {
                Ok((send, recv)) => rekey_finished(old(self)@, pending@, response@) == Ok::<
                    (DhView, (Seq<u8>, Seq<u8>)),
                    RekeyError,
                >((final(self)@, (send@, recv@))) && primitives::clock_read(
                    final(self).rekeyed_at(),
                ),
                Err(e) => {
                    &&& rekey_finished(old(self)@, pending@, response@) == Err::<
                        (DhView, (Seq<u8>, Seq<u8>)),
                        RekeyError,
                    >(e)
                    &&& *final(self) == *old(self)
                },
            },
    {
        let mut dh = pending.local_eph.diffie_hellman(&response.x_pub);
        if response.kem_ciphertext.len() != primitives::KEM_CIPHERTEXT_LEN {
            primitives::wipe(&mut dh);
            return Err(RekeyError::MalformedCiphertext);
        }
        let mut kem_secret = pending.kem_decap.decapsulate(response.kem_ciphertext.as_slice());
        let chains = self.mix_and_derive(&dh, &kem_secret);
        primitives::wipe(&mut dh);
        primitives::wipe(&mut kem_secret);
        Ok(chains)
    }

    /// Answers an offer with a given ephemeral secret and a given outcome of
    /// the encapsulation to the offered key.
    pub fn respond_to_rekey_with(
        &mut self,
        offer: &RekeyOffer,
        local_eph: X25519Secret,
        kem_ciphertext: Vec<u8>,
        kem_secret: [u8; 32],
    ) -> (r: (RekeyResponse, Ratchet, Ratchet))
        requires
            old(self)@.epoch < u64::MAX,
        ensures
            (Answer {
                ephemeral: local_eph@,
                kem_secret: kem_secret@,
                response: r.0@,
                send: r.1@,
                recv: r.2@,
            }).given(old(self)@, offer@, final(self)@),
            r.0@.kem_ciphertext == kem_ciphertext@,
            r.0@.x_pub == primitives::x25519_public(local_eph@),
            primitives::clock_read(final(self).rekeyed_at()),
    {
        let x_pub = local_eph.public_key();
        let mut dh = local_eph.diffie_hellman(&offer.x_pub);
        let mut secret = kem_secret;
        let (send, recv) = self.mix_and_derive(&dh, &secret);
        primitives::wipe(&mut dh);
        primitives::wipe(&mut secret);
        (RekeyResponse { x_pub, kem_ciphertext }, send, recv)
    }

    /// Responder side: answers an offer in one step, with a fresh X25519 key
    /// and an encapsulation to the offered KEM key, and returns the answer with
    /// the chains for sending and for receiving. A refused offer changes
    /// nothing.
    pub fn respond_to_rekey(&mut self, offer: RekeyOffer) -> (r: Result<
        (RekeyResponse, Ratchet, Ratchet),
        RekeyError,
    >)
        requires
            old(self)@.epoch < u64::MAX || offered_key_checked(offer@.kem_ek) is Err,
        ensures
            match r {
                Ok((response, send, recv)) => {
                    &&& offered_key_checked(offer@.kem_ek) is Ok
                    &&& primitives::kem_key_valid(offer@.kem_ek)
                    &&& primitives::clock_read(final(self).rekeyed_at())
                    &&& response@.kem_ciphertext.len() == primitives::KEM_CIPHERTEXT_LEN
                    &&& exists|answer: Answer| #[trigger]
                        answer.given(old(self)@, offer@, final(self)@) && answer.response
                            == response@ && answer.send == send@ && answer.recv == recv@
                            && primitives::x25519_drawn(answer.ephemeral)
                            && primitives::kem_encapsulated(
                            offer@.kem_ek,
                            response@.kem_ciphertext,
                            answer.kem_secret,
                        )
                },
                Err(e) => {
                    &&& offered_key_checked(offer@.kem_ek) == Err::<Seq<u8>, RekeyError>(e)
                    &&& *final(self) == *old(self)
                },
            },
    {
        let peer_kem_ek = match EncapsulationKey::new(offer.kem_ek_bytes.as_slice()) {
            Ok(key) => key,
            Err(KemKeyError::BadLength) => {
                return Err(RekeyError::MalformedKey);
            },
            Err(KemKeyError::Invalid) => {
                return Err(RekeyError::InvalidKey);
            },
        };
        let local_eph = X25519Secret::random();
        let (kem_ciphertext, mut kem_secret) = peer_kem_ek.encapsulate();
        let r = self.respond_to_rekey_with(&offer, local_eph, kem_ciphertext, kem_secret);
        primitives::wipe(&mut kem_secret);
        Ok(r)
    }

    /// Mixes the two shared secrets into the root key, and returns the chains
    /// for sending and for receiving.
    fn mix_and_derive(&mut self, dh: &[u8; 32], kem_secret: &[u8; 32]) -> (r: (Ratchet, Ratchet))
        requires
            old(self)@.epoch < u64::MAX,
        ensures
            final(self)@ == old(self)@.rekeyed(dh@, kem_secret@),
            (r.0@, r.1@) == old(self)@.chains(dh@, kem_secret@),
            primitives::clock_read(final(self).rekeyed_at()),
    {
        let mut ikm: Vec<u8> = Vec::with_capacity(64);
        bytes::append(&mut ikm, dh);
        bytes::append(&mut ikm, kem_secret);
        assert(ikm@ =~= dh@ + kem_secret@);

        let empty: [u8; 0] = [];
        assert(empty@ =~= Seq::<u8>::empty());
        let mut okm: [u8; 96] = primitives::hkdf_derive(&self.root_key, ikm.as_slice(), &empty);
        primitives::wipe_vec(&mut ikm);
        let chains = self.seed(&okm);
        primitives::wipe(&mut okm);
        chains
    }

    /// Begins a new epoch with 96 fresh bytes: the new root key, and the chains
    /// for sending and for receiving, which are returned. The time to the next
    /// rekey counts from now.
    pub fn seed(&mut self, okm: &[u8; 96]) -> (r: (Ratchet, Ratchet))
        requires
            old(self)@.epoch < u64::MAX,
        ensures
            final(self)@ == old(self)@.seeded(okm@),
            (r.0@, r.1@) == old(self)@.chains_of(okm@),
            primitives::clock_read(final(self).rekeyed_at()),
    {
        self.seed_at(okm, primitives::read_clock())
    }

    /// Begins a new epoch with 96 fresh bytes, as `seed` does, at a given clock
    /// reading.
    pub fn seed_at(&mut self, okm: &[u8; 96], now: Instant) -> (r: (Ratchet, Ratchet))
        requires
            old(self)@.epoch < u64::MAX,
        ensures
            final(self)@ == old(self)@.seeded(okm@),
            final(self).rekeyed_at() == now,
            (r.0@, r.1@) == old(self)@.chains_of(okm@),
    {
        let new_root = bytes::take32(okm, 0);
        let k1 = bytes::take32(okm, 32);
        let k2 = bytes::take32(okm, 64);

        primitives::wipe(&mut self.root_key);
        self.root_key = new_root;
        self.epoch = self.epoch + 1;
        self.packets_since_rekey = 0;
        self.last_rekey = now;

        match self.role {
            Role::Initiator => (Ratchet::new(k1), Ratchet::new(k2)),
            Role::Responder => (Ratchet::new(k2), Ratchet::new(k1)),
        }
    }

    /// Overwrites the root key with zeros, as dropping the state does.
    pub fn erase(&mut self)
        ensures
            final(self)@ == (DhView { root: bytes::zeros(32), ..old(self)@ }),
            final(self).rekeyed_at() == old(self).rekeyed_at(),
        opens_invariants none
        no_unwind
    {
        primitives::wipe(&mut self.root_key);
    }
}

impl Drop for DhRatchetState {
    /// Erases the root key.
    fn drop(&mut self)
        ensures
            final(self)@ == (DhView { root: bytes::zeros(32), ..old(self)@ }),
        opens_invariants none
        no_unwind
    {
        self.erase();
    }
}

} // verus!
