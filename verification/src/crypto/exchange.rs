//! The decisions of the two exchanges that bring a link up: the "hello" in
//! which both sides send their static public keys in the clear, and the
//! handshake. What is sent and received, and the waiting, is up to the caller.
//!
//! The hello is a stopgap: whoever can intercept it can put other keys in its
//! place, so the first contact between two peers is trust on first use.
use vstd::prelude::*;

use crate::crypto::handshake_wire::{self, WireError};
use crate::crypto::keys::EncapsulationKey;
use crate::crypto::noise::{
    self, InitiatorHandshake, KeysView, Message1View, Message2View, Opening, Reply,
    ResponderHandshake, ResponderView, StaticIdentity, TransportKeys,
};
use crate::crypto::primitives;

verus! {

/// How often, and with what waits in between, a message is sent again: a linear
/// backoff up to a limit. All times are in milliseconds.
pub struct Backoff {
    attempt: u32,
    attempts: u32,
    first: u64,
    step: u64,
    limit: u64,
}

#[verifier::ext_equal]
pub struct BackoffView {
    pub attempt: nat,
    pub attempts: nat,
    pub first: nat,
    pub step: nat,
    pub limit: nat,
}

impl View for Backoff {
    type V = BackoffView;

    closed spec fn view(&self) -> BackoffView {
        BackoffView {
            attempt: self.attempt as nat,
            attempts: self.attempts as nat,
            first: self.first as nat,
            step: self.step as nat,
            limit: self.limit as nat,
        }
    }
}

impl BackoffView {
    /// The schedule of the hello exchange.
    pub open spec fn hello() -> BackoffView {
        BackoffView { attempt: 0, attempts: 100, first: 100, step: 50, limit: 1000 }
    }

    /// The schedule of message 1.
    pub open spec fn handshake() -> BackoffView {
        BackoffView { attempt: 0, attempts: 30, first: 150, step: 100, limit: 2000 }
    }

    /// How long to wait for an answer to the given attempt.
    pub open spec fn wait(self, attempt: nat) -> nat {
        let linear = self.first + self.step * attempt;
        if linear < self.limit {
            linear
        } else {
            self.limit
        }
    }

    /// The schedule with one attempt spent.
    pub open spec fn spent(self) -> BackoffView {
        BackoffView { attempt: self.attempt + 1, ..self }
    }
}

/// The waits of a schedule never shrink and never exceed its limit.
pub proof fn law_waits_grow_up_to_the_limit(schedule: BackoffView, earlier: nat, later: nat)
    requires
        earlier <= later,
    ensures
        schedule.wait(earlier) <= schedule.wait(later) <= schedule.limit,
{
    assert(schedule.step * earlier <= schedule.step * later) by (nonlinear_arith)
        requires
            earlier <= later,
    ;
}

/// How long the waits of the two exchanges are, and how often each sends: the hello
/// a hundred times, with waits from 100 ms up by 50 ms to one second; message 1
/// thirty times, with waits from 150 ms up by 100 ms to two seconds.
pub proof fn law_wait_times(schedule: BackoffView, attempt: nat)
    ensures
        schedule.wait(attempt) <= schedule.limit,
        schedule.wait(attempt) <= schedule.first + schedule.step * attempt,
        schedule.wait(attempt) == schedule.limit || schedule.wait(attempt) == schedule.first
            + schedule.step * attempt,
        BackoffView::hello().attempt == 0,
        BackoffView::hello().attempts == 100,
        attempt <= 18 ==> BackoffView::hello().wait(attempt) == 100 + 50 * attempt,
        attempt >= 18 ==> BackoffView::hello().wait(attempt) == 1000,
        BackoffView::handshake().attempt == 0,
        BackoffView::handshake().attempts == 30,
        attempt <= 18 ==> BackoffView::handshake().wait(attempt) == 150 + 100 * attempt,
        attempt >= 19 ==> BackoffView::handshake().wait(attempt) == 2000,
{
}

/// How far an exchange has come: its message was sent and an answer is waited
/// for, or it has ended with a result, or the attempts are spent.
pub enum Stage<R> {
    Sent,
    Done(R),
    GaveUp,
}

impl BackoffView {
    /// The schedule and the stage after the next attempt was begun, if there is
    /// one left.
    pub open spec fn begun<R>(self) -> (BackoffView, Stage<R>) {
        if self.attempt < self.attempts {
            (self.spent(), Stage::Sent)
        } else {
            (self, Stage::GaveUp)
        }
    }

    /// The schedule and the stage after an attempt whose wait brought `verdict`:
    /// the result of an acceptable answer, or nothing.
    pub open spec fn advanced<R>(self, verdict: Option<R>) -> (BackoffView, Stage<R>) {
        match verdict {
            Some(result) => (self, Stage::Done(result)),
            None => self.begun(),
        }
    }

    /// The schedule and the stage of a whole exchange, given what the waits
    /// brought, in order.
    pub open spec fn course<R>(self, verdicts: Seq<Option<R>>) -> (BackoffView, Stage<R>)
        decreases verdicts.len(),
    {
        if verdicts.len() == 0 {
            self.begun()
        } else {
            let before = self.course(verdicts.drop_last());
            match before.1 {
                Stage::Sent => before.0.advanced(verdicts.last()),
                _ => before,
            }
        }
    }
}

/// As long as nothing acceptable arrives, an exchange sends once before each
/// wait, until the attempts are spent; then it gives up.
pub proof fn law_exchange_without_an_answer<R>(schedule: BackoffView, verdicts: Seq<Option<R>>)
    requires
        schedule.attempt == 0,
        forall|i: int| 0 <= i < verdicts.len() ==> #[trigger] verdicts[i] is None,
    ensures
        schedule.course(verdicts) == if verdicts.len() < schedule.attempts {
            (
                BackoffView { attempt: verdicts.len() + 1, ..schedule },
                Stage::<R>::Sent,
            )
        } else {
            (BackoffView { attempt: schedule.attempts, ..schedule }, Stage::<R>::GaveUp)
        },
    decreases verdicts.len(),
{
    if verdicts.len() > 0 {
        let fewer = verdicts.drop_last();
        assert forall|i: int| 0 <= i < fewer.len() implies #[trigger] fewer[i] is None by {
            assert(fewer[i] == verdicts[i]);
        }
        assert(verdicts[verdicts.len() - 1] is None);
        law_exchange_without_an_answer(schedule, fewer);
    }
}

/// The first acceptable answer ends an exchange with its result, whatever comes
/// after it, if it comes before the attempts are spent.
pub proof fn law_first_answer_ends_the_exchange<R>(
    schedule: BackoffView,
    verdicts: Seq<Option<R>>,
    first: int,
)
    requires
        schedule.attempt == 0,
        0 <= first < verdicts.len(),
        first < schedule.attempts,
        verdicts[first] is Some,
        forall|i: int| 0 <= i < first ==> #[trigger] verdicts[i] is None,
    ensures
        schedule.course(verdicts) == (
            BackoffView { attempt: (first + 1) as nat, ..schedule },
            Stage::Done(verdicts[first]->0),
        ),
    decreases verdicts.len(),
{
    let fewer = verdicts.drop_last();
    if first == verdicts.len() - 1 {
        assert forall|i: int| 0 <= i < fewer.len() implies #[trigger] fewer[i] is None by {
            assert(fewer[i] == verdicts[i]);
        }
        law_exchange_without_an_answer(schedule, fewer);
    } else {
        assert(fewer[first] == verdicts[first]);
        assert forall|i: int| 0 <= i < first implies #[trigger] fewer[i] is None by {
            assert(fewer[i] == verdicts[i]);
        }
        law_first_answer_ends_the_exchange(schedule, fewer, first);
    }
}

/// No exchange sends more often than its schedule allows, and none ends with a
/// result that no answer gave.
pub proof fn law_exchange_is_bounded<R>(schedule: BackoffView, verdicts: Seq<Option<R>>)
    requires
        schedule.attempt <= schedule.attempts,
    ensures
        schedule.course(verdicts).0.attempt <= schedule.attempts,
        schedule.course(verdicts).0.attempts == schedule.attempts,
        schedule.course(verdicts).1 matches Stage::Done(result) ==> verdicts.contains(
            Some(result),
        ),
    decreases verdicts.len(),
{
    if verdicts.len() > 0 {
        let fewer = verdicts.drop_last();
        law_exchange_is_bounded(schedule, fewer);
        match schedule.course(verdicts).1 {
            Stage::Done(result) => {
                if fewer.contains(Some(result)) {
                    let i = choose|i: int| 0 <= i < fewer.len() && fewer[i] == Some(result);
                    assert(verdicts[i] == Some(result));
                } else {
                    assert(verdicts[verdicts.len() - 1] == Some(result));
                }
            },
            _ => {},
        }
    }
}

impl Backoff {
    /// The attempts are bounded such that no wait overflows.
    pub closed spec fn wf(&self) -> bool {
        &&& self.attempt <= self.attempts <= 100
        &&& self.first <= 1000
        &&& self.step <= 1000
    }

    pub fn hello() -> (r: Self)
        ensures
            r.wf(),
            r@ == BackoffView::hello(),
            r@ == (BackoffView { attempt: 0, attempts: 100, first: 100, step: 50, limit: 1000 }),
    {
        Backoff { attempt: 0, attempts: 100, first: 100, step: 50, limit: 1000 }
    }

    pub fn handshake() -> (r: Self)
        ensures
            r.wf(),
            r@ == BackoffView::handshake(),
            r@ == (BackoffView { attempt: 0, attempts: 30, first: 150, step: 100, limit: 2000 }),
    {
        Backoff { attempt: 0, attempts: 30, first: 150, step: 100, limit: 2000 }
    }

    /// Begins the next attempt: how long to wait for an answer once the message
    /// has been sent, or `None` if all attempts are spent.
    pub fn next(&mut self) -> (r: Option<u64>)
        requires
            old(self).wf(),
        ensures
            final(self).wf(),
            match r {
                Some(wait) => {
                    &&& old(self)@.attempt < old(self)@.attempts
                    &&& wait == old(self)@.wait(old(self)@.attempt)
                    &&& final(self)@ == old(self)@.spent()
                },
                None => old(self)@.attempt >= old(self)@.attempts && final(self)@ == old(self)@,
            },
            r matches Some(wait) ==> {
                &&& wait <= old(self)@.limit
                &&& wait <= old(self)@.first + old(self)@.step * old(self)@.attempt
                &&& wait == old(self)@.limit || wait == old(self)@.first + old(self)@.step * old(
                    self,
                )@.attempt
                &&& final(self)@.attempt == old(self)@.attempt + 1
            },
    {
        if self.attempt >= self.attempts {
            return None;
        }
        let attempt: u64 = self.attempt as u64;
        assert(self.step * attempt <= 100_000) by (nonlinear_arith)
            requires
                self.step <= 1000,
                attempt <= 100,
        ;
        let linear: u64 = self.first + self.step * attempt;
        self.attempt = self.attempt + 1;
        if linear < self.limit {
            Some(linear)
        } else {
            Some(self.limit)
        }
    }
}

/// What a datagram means to a hello exchange: the peer's static public keys, or
/// `None` if it comes from elsewhere or is no hello, and the exchange goes on.
pub fn hello_reply(from_peer: bool, datagram: &[u8]) -> (r: Option<([u8; 32], EncapsulationKey)>)
    ensures
        match r {
            Some((public, kem)) => from_peer && handshake_wire::decoded_hello(datagram@) == Ok::<
                (Seq<u8>, Seq<u8>),
                WireError,
            >((public@, kem@)),
            None => !from_peer || handshake_wire::decoded_hello(datagram@) is Err,
        },
{
    if !from_peer {
        return None;
    }
    match handshake_wire::decode_hello(datagram) {
        Ok(pair) => Some(pair),
        Err(_) => None,
    }
}

/// What a wait in a hello exchange brought: the keys in the datagram that
/// arrived, if any did, came from the peer and is a hello.
pub open spec fn hello_verdict(event: Option<(bool, Seq<u8>)>) -> Option<(Seq<u8>, Seq<u8>)> {
    match event {
        Some((from_peer, datagram)) if from_peer => match handshake_wire::decoded_hello(datagram) {
            Ok(keys) => Some(keys),
            Err(_) => None,
        },
        _ => None,
    }
}

/// The view of what a wait brought.
pub open spec fn event_view(event: Option<(bool, &[u8])>) -> Option<(bool, Seq<u8>)> {
    match event {
        None => None,
        Some((from_peer, datagram)) => Some((from_peer, datagram@)),
    }
}

/// What to do next in a hello exchange.
pub enum HelloStep {
    /// Send the hello, and wait so many milliseconds for a datagram.
    Send { wait: u64 },
    /// The exchange is over: the peer's static public keys.
    Done { public: [u8; 32], kem: EncapsulationKey },
    /// The exchange is over: the attempts are spent.
    GiveUp,
}

/// The next step of a hello exchange after a wait that brought `event`: a
/// datagram, with whether it came from the peer, or nothing. An exchange starts
/// with nothing.
pub fn hello_step(schedule: &mut Backoff, event: Option<(bool, &[u8])>) -> (r: HelloStep)
    requires
        old(schedule).wf(),
    ensures
        final(schedule).wf(),
        ({
            let (after, stage) = old(schedule)@.advanced(hello_verdict(event_view(event)));
            &&& final(schedule)@ == after
            &&& match stage {
                Stage::Sent => r matches HelloStep::Send { wait } && wait == old(schedule)@.wait(
                    old(schedule)@.attempt,
                ),
                Stage::Done(keys) => r matches HelloStep::Done { public, kem } && keys == (
                    public@,
                    kem@,
                ),
                Stage::GaveUp => r is GiveUp,
            }
        }),
        event matches Some((from_peer, datagram)) ==> from_peer ==> {
            &&& handshake_wire::decoded_hello(datagram@) matches Ok(keys) ==> {
                &&& r matches HelloStep::Done { public, kem } && keys == (public@, kem@)
                &&& final(schedule)@ == old(schedule)@
            }
            &&& handshake_wire::decoded_hello(datagram@) is Err ==> !(r is Done)
        },
        event is None ==> !(r is Done),
        event matches Some((from_peer, _)) ==> !from_peer ==> !(r is Done),
        !(r is Done) && old(schedule)@.attempt < old(schedule)@.attempts ==> {
            &&& r is Send
            &&& final(schedule)@.attempt == old(schedule)@.attempt + 1
        },
        !(r is Done) && old(schedule)@.attempt >= old(schedule)@.attempts ==> r is GiveUp,
        r matches HelloStep::Send { wait } ==> {
            &&& wait <= old(schedule)@.limit
            &&& wait <= old(schedule)@.first + old(schedule)@.step * old(schedule)@.attempt
            &&& wait == old(schedule)@.limit || wait == old(schedule)@.first + old(
                schedule,
            )@.step * old(schedule)@.attempt
        },
{
    if let Some((from_peer, datagram)) = event {
        if let Some((public, kem)) = hello_reply(from_peer, datagram) {
            return HelloStep::Done { public, kem };
        }
    }
    match schedule.next() {
        Some(wait) => HelloStep::Send { wait },
        None => HelloStep::GiveUp,
    }
}

/// What an initiator whose handshake is `hs` makes of a datagram: the keys, if
/// it is a message 2 that completes the handshake.
pub open spec fn concluded(hs: noise::InitiatorView, datagram: Seq<u8>) -> Option<KeysView> {
    match handshake_wire::decoded_message2(datagram) {
        Err(_) => None,
        Ok(msg2) => match noise::conclusion(hs.transcript, hs.ephemeral, hs.secret, msg2) {
            Err(_) => None,
            Ok(keys) => Some(keys),
        },
    }
}

/// What a datagram means to an initiator: the keys of the completed handshake,
/// or `None` if it comes from elsewhere or does not complete the handshake, and
/// the exchange goes on.
pub fn handshake_reply(hs: &InitiatorHandshake, from_peer: bool, datagram: &[u8]) -> (r: Option<
    TransportKeys,
>)
    ensures
        match r {
            Some(keys) => from_peer && concluded(hs@, datagram@) == Some(keys@),
            None => !from_peer || concluded(hs@, datagram@) is None,
        },
        from_peer ==> (handshake_wire::decoded_message2(datagram@) matches Ok(msg2) ==> match (
        noise::conclusion(hs@.transcript, hs@.ephemeral, hs@.secret, msg2)) {
            Ok(view) => r matches Some(keys) && keys@ == view,
            Err(_) => r is None,
        }),
        handshake_wire::decoded_message2(datagram@) is Err ==> r is None,
        !from_peer ==> r is None,
{
    if !from_peer {
        return None;
    }
    match handshake_wire::decode_message2(datagram) {
        Err(_) => None,
        Ok(msg2) => match hs.finish(msg2) {
            Ok(keys) => Some(keys),
            Err(_) => None,
        },
    }
}

/// What a wait for message 2 brought: the keys of the completed handshake, if a
/// datagram arrived, came from the peer and completes it.
pub open spec fn handshake_verdict(
    hs: noise::InitiatorView,
    event: Option<(bool, Seq<u8>)>,
) -> Option<KeysView> {
    match event {
        Some((from_peer, datagram)) if from_peer => concluded(hs, datagram),
        _ => None,
    }
}

/// What to do next in a handshake as the initiator.
pub enum HandshakeStep {
    /// Send message 1, and wait so many milliseconds for a datagram.
    Send { wait: u64 },
    /// The handshake is over: the transport keys.
    Done { keys: TransportKeys },
    /// The handshake is over: the attempts are spent.
    GiveUp,
}

/// The next step of a handshake as the initiator after a wait that brought
/// `event`: a datagram, with whether it came from the peer, or nothing. A
/// handshake starts with nothing.
pub fn handshake_step(
    schedule: &mut Backoff,
    hs: &InitiatorHandshake,
    event: Option<(bool, &[u8])>,
) -> (r: HandshakeStep)
    requires
        old(schedule).wf(),
    ensures
        final(schedule).wf(),
        ({
            let (after, stage) = old(schedule)@.advanced(
                handshake_verdict(hs@, event_view(event)),
            );
            &&& final(schedule)@ == after
            &&& match stage {
                Stage::Sent => r matches HandshakeStep::Send { wait } && wait == old(
                    schedule,
                )@.wait(old(schedule)@.attempt),
                Stage::Done(view) => r matches HandshakeStep::Done { keys } && keys@ == view,
                Stage::GaveUp => r is GiveUp,
            }
        }),
        event matches Some((from_peer, datagram)) ==> from_peer ==> {
            &&& handshake_wire::decoded_message2(datagram@) matches Ok(msg2) ==> match (
            noise::conclusion(hs@.transcript, hs@.ephemeral, hs@.secret, msg2)) {
                Ok(view) => {
                    &&& r matches HandshakeStep::Done { keys } && {
                        &&& keys.send_key@ == view.send
                        &&& keys.recv_key@ == view.recv
                        &&& keys.root_key@ == view.root
                    }
                    &&& final(schedule)@ == old(schedule)@
                },
                Err(_) => !(r is Done),
            }
            &&& handshake_wire::decoded_message2(datagram@) is Err ==> !(r is Done)
        },
        event is None ==> !(r is Done),
        event matches Some((from_peer, _)) ==> !from_peer ==> !(r is Done),
        !(r is Done) && old(schedule)@.attempt < old(schedule)@.attempts ==> {
            &&& r is Send
            &&& final(schedule)@.attempt == old(schedule)@.attempt + 1
        },
        !(r is Done) && old(schedule)@.attempt >= old(schedule)@.attempts ==> r is GiveUp,
        r matches HandshakeStep::Send { wait } ==> {
            &&& wait <= old(schedule)@.limit
            &&& wait <= old(schedule)@.first + old(schedule)@.step * old(schedule)@.attempt
            &&& wait == old(schedule)@.limit || wait == old(schedule)@.first + old(
                schedule,
            )@.step * old(schedule)@.attempt
        },
{
    if let Some((from_peer, datagram)) = event {
        if let Some(keys) = handshake_reply(hs, from_peer, datagram) {
            return HandshakeStep::Done { keys };
        }
    }
    match schedule.next() {
        Some(wait) => HandshakeStep::Send { wait },
        None => HandshakeStep::GiveUp,
    }
}

/// What a datagram means to a responder that waits for message 1.
pub enum HandshakeAnswer {
    /// It is not a message 1 that can be accepted; the responder waits on.
    Ignored,
    /// It is an authentic message 1, but its static key is no X25519 key.
    OddStatic,
    /// It is accepted: the bytes of message 2, and the transport keys.
    Accepted { wire: Vec<u8>, keys: TransportKeys },
}

/// The responder that `local` starts a handshake with.
pub open spec fn responder_for(local: &StaticIdentity) -> ResponderView {
    ResponderView::fresh(
        local.public@,
        local.kem_encap@,
        local.secret@,
        local.kem_decap@,
    )
}

/// Answers a datagram as a responder. The ephemeral secret of message 2 is
/// random.
pub fn answer_handshake(local: &StaticIdentity, datagram: &[u8]) -> (r: HandshakeAnswer)
    ensures
        match handshake_wire::decoded_message1(datagram@) {
            Err(_) => r is Ignored,
            Ok(msg1) => if responder_for(local).odd_static(msg1) {
                r is OddStatic
            } else {
                match responder_for(local).read(msg1) {
                    (_, Err(_)) => r is Ignored,
                    (after, Ok(_)) => r matches HandshakeAnswer::Accepted { wire, keys } && exists|
                        ephemeral: Seq<u8>,
                    |
                        {
                            let reply = #[trigger] after.reply(ephemeral);
                            &&& ephemeral.len() == 32
                            &&& primitives::x25519_drawn(ephemeral)
                            &&& wire@ == handshake_wire::encoded_message2(reply.message())
                            &&& keys@ == reply.transcript().responder_keys()
                            &&& reply.readable()
                        },
                }
            },
        },
{
    let msg1 = match handshake_wire::decode_message1(datagram) {
        Ok(msg1) => msg1,
        Err(_) => {
            return HandshakeAnswer::Ignored;
        },
    };
    let mut hs = ResponderHandshake::new(local);
    match hs.try_read_message1(&msg1) {
        None => {
            return HandshakeAnswer::OddStatic;
        },
        Some(Err(_)) => {
            return HandshakeAnswer::Ignored;
        },
        Some(Ok(_)) => {},
    }
    match hs.write_message2() {
        Ok((msg2, keys)) => {
            let wire = handshake_wire::encode_message2(&msg2);
            HandshakeAnswer::Accepted { wire, keys }
        },
        Err(_) => HandshakeAnswer::Ignored,
    }
}

/// The handshake completes over the wire: the responder that message 1 is
/// addressed to accepts it, and the initiator completes the handshake with the
/// answer; both have the same keys, crossed. This holds whenever the KEM
/// recovers the encapsulated secret.
pub proof fn law_handshake_over_the_wire(
    o: Opening,
    secret: Seq<u8>,
    seed: Seq<u8>,
    ephemeral: Seq<u8>,
)
    requires
        o.readable(),
        o.secret.len() == 32,
        o.public == primitives::x25519_public(o.secret),
        o.public.len() == 32,
        o.ephemeral.len() == 32,
        secret.len() == 32,
        o.remote_public == primitives::x25519_public(secret),
        o.kem_ciphertext.len() == primitives::KEM_CIPHERTEXT_LEN,
        primitives::kem_decaps(seed, o.kem_ciphertext) == o.kem_secret,
        ResponderView::fresh(o.remote_public, o.remote_kem, secret, seed).read(
            o.message(),
        ).0.reply(ephemeral).readable(),
    ensures
        ({
            let responder = ResponderView::fresh(o.remote_public, o.remote_kem, secret, seed);
            let wire1 = handshake_wire::encoded_message1(o.message());
            let (after, learned) = responder.read(o.message());
            let reply = after.reply(ephemeral);
            let wire2 = handshake_wire::encoded_message2(reply.message());
            let initiator = noise::InitiatorView {
                transcript: o.transcript(),
                ephemeral: o.ephemeral,
                secret: o.secret,
            };
            &&& handshake_wire::decoded_message1(wire1) == Ok::<Message1View, WireError>(
                o.message(),
            )
            &&& !responder.odd_static(o.message())
            &&& learned == Ok::<Seq<u8>, noise::HandshakeError>(o.public)
            &&& after.ready()
            &&& concluded(initiator, wire2) == Some(reply.transcript().initiator_keys())
            &&& reply.transcript().initiator_keys().send
                == reply.transcript().responder_keys().recv
            &&& reply.transcript().initiator_keys().recv
                == reply.transcript().responder_keys().send
            &&& reply.transcript().initiator_keys().root
                == reply.transcript().responder_keys().root
        }),
{
    let responder = ResponderView::fresh(o.remote_public, o.remote_kem, secret, seed);
    noise::law_message1_is_accepted(o, secret, seed);
    handshake_wire::law_message1_round_trip(o.message());
    let after = responder.read(o.message()).0;
    let reply: Reply = after.reply(ephemeral);
    let msg2: Message2View = reply.message();
    handshake_wire::law_message2_round_trip(msg2);
    noise::law_transport_keys_cross(o, reply);
}

/// What a wait of the handshake brings: the keys that message 2 concludes it with,
/// if a datagram came from the peer, is a message 2 and concludes it; otherwise
/// nothing. For a hello likewise: the keys in it.
pub proof fn law_what_a_wait_brings(
    hs: noise::InitiatorView,
    datagram: Seq<u8>,
    msg2: Message2View,
    keys: (Seq<u8>, Seq<u8>),
)
    ensures
        handshake_verdict(hs, None) is None,
        handshake_verdict(hs, Some((false, datagram))) is None,
        handshake_wire::decoded_message2(datagram) is Err ==> handshake_verdict(
            hs,
            Some((true, datagram)),
        ) is None,
        handshake_wire::decoded_message2(datagram) == Ok::<Message2View, WireError>(msg2) ==> match (
        noise::conclusion(hs.transcript, hs.ephemeral, hs.secret, msg2)) {
            Ok(view) => handshake_verdict(hs, Some((true, datagram))) == Some(view),
            Err(_) => handshake_verdict(hs, Some((true, datagram))) is None,
        },
        hello_verdict(None) is None,
        hello_verdict(Some((false, datagram))) is None,
        handshake_wire::decoded_hello(datagram) is Err ==> hello_verdict(
            Some((true, datagram)),
        ) is None,
        handshake_wire::decoded_hello(datagram) == Ok::<(Seq<u8>, Seq<u8>), WireError>(keys)
            ==> hello_verdict(Some((true, datagram))) == Some(keys),
{
}

/// The hello does what it is for: the hello of a peer, arriving from that peer, ends
/// the exchange with the keys that the peer sent.
pub proof fn law_hello_over_the_wire(schedule: BackoffView, public: Seq<u8>, kem: Seq<u8>)
    requires
        public.len() == 32,
        primitives::kem_key_valid(kem),
    ensures
        schedule.advanced(
            hello_verdict(Some((true, handshake_wire::encoded_hello(public, kem)))),
        ) == (schedule, Stage::Done((public, kem))),
{
    handshake_wire::law_hello_round_trip(public, kem);
}

/// The handshake does what it is for: the answer that the addressed responder gives
/// to message 1, arriving from the peer, ends the exchange with keys that fit those
/// of the responder: what this end sends with, the responder receives with, what
/// this end receives with, the responder sends with, and the roots are equal. This
/// holds whenever the KEM recovers the encapsulated secret.
pub proof fn law_handshake_hands_out_crossed_keys(
    schedule: BackoffView,
    o: Opening,
    secret: Seq<u8>,
    seed: Seq<u8>,
    ephemeral: Seq<u8>,
)
    requires
        o.readable(),
        o.secret.len() == 32,
        o.public == primitives::x25519_public(o.secret),
        o.public.len() == 32,
        o.ephemeral.len() == 32,
        secret.len() == 32,
        o.remote_public == primitives::x25519_public(secret),
        o.kem_ciphertext.len() == primitives::KEM_CIPHERTEXT_LEN,
        primitives::kem_decaps(seed, o.kem_ciphertext) == o.kem_secret,
        ResponderView::fresh(o.remote_public, o.remote_kem, secret, seed).read(
            o.message(),
        ).0.reply(ephemeral).readable(),
    ensures
        ({
            let responder = ResponderView::fresh(o.remote_public, o.remote_kem, secret, seed);
            let reply = responder.read(o.message()).0.reply(ephemeral);
            let theirs = reply.transcript().responder_keys();
            let initiator = noise::InitiatorView {
                transcript: o.transcript(),
                ephemeral: o.ephemeral,
                secret: o.secret,
            };
            let (after, stage) = schedule.advanced(
                handshake_verdict(
                    initiator,
                    Some((true, handshake_wire::encoded_message2(reply.message()))),
                ),
            );
            &&& after == schedule
            &&& stage matches Stage::Done(ours) && {
                &&& ours.send == theirs.recv
                &&& ours.recv == theirs.send
                &&& ours.root == theirs.root
            }
        }),
{
    law_handshake_over_the_wire(o, secret, seed, ephemeral);
}

/// A responder starts from its own static keys.
pub proof fn law_responder_starts_from_its_keys(local: &StaticIdentity)
    ensures
        responder_for(local).transcript == noise::addressed(local.public@, local.kem_encap@),
        responder_for(local).secret == local.secret@,
        responder_for(local).seed == local.kem_decap@,
        !responder_for(local).ready(),
{
}

} // verus!
