//! The crypto state of a live peer connection: the current symmetric session
//! and, for a while after a rekey, the previous one, and the ratchet that
//! drives the periodic rekeys.
//!
//! Each packet shows the epoch of its session in one byte of its own, in front
//! of the session's packet: `epoch (1) | session packet`. After a rekey the
//! session of the epoch before is kept, so that packets in flight under the old
//! chains are not lost; anything older is dropped. Only the initiator starts
//! rekeys.
//!
//! A rekey message may be lost. The initiator does not retransmit an offer at
//! once: it sends the same offer again when the time or the packet threshold has
//! been reached again since it sent it last. The responder answers an offer that
//! comes again with the same answer, without another rekey. Data flows all the
//! while, in the epoch before the rekey: the responder begins the new epoch when
//! it answers, but sends nothing in it to the peer (`encrypt_for_peer`) until a
//! packet of it has arrived and so shows that the answer got through.
use std::collections::BTreeMap;
use std::time::Instant;
use vstd::prelude::*;

use crate::crypto::bytes;
use crate::crypto::dh_ratchet::{
    self, Answer, DhRatchetState, DhView, PendingRekey, PendingView, RatchetPolicy, RekeyError,
    Role,
};
use crate::crypto::handshake_wire::{self, WireError};
use crate::crypto::noise::{KeysView, TransportKeys};
use crate::crypto::padding::DEFAULT_PAD_TARGET;
use crate::crypto::primitives;
use crate::crypto::ratchet::Ratchet;
use crate::crypto::replay;
use crate::crypto::session::{self, Session, SessionError, SessionView};

verus! {

/// Number of epochs kept alive: the current one and the one before.
pub const EPOCH_GRACE: usize = 2;

/// Why a packet or a rekey message was refused.
#[derive(Debug, Clone, Copy, PartialEq, Eq, Structural)]
pub enum VpnError {
    /// A data packet has no epoch byte.
    EmptyPacket,
    /// There is no session for the epoch.
    UnknownEpoch { epoch: u8 },
    /// The session refused the packet.
    Session(SessionError),
    /// A rekey response came without an offer.
    NoRekeyInProgress,
    /// A rekey message could not be decoded.
    Wire(WireError),
    /// The ratchet refused a rekey message.
    Rekey(RekeyError),
}

/// A rekey offer that has not been answered, with its bytes and with the packets
/// sent and the time since.
struct OpenOffer {
    pending: PendingRekey,
    wire: Vec<u8>,
    packets_since: u32,
    offered_at: Instant,
}

#[verifier::ext_equal]
pub struct OpenOfferView {
    pub secrets: PendingView,
    pub packets_since: u32,
}

impl View for OpenOffer {
    type V = OpenOfferView;

    closed spec fn view(&self) -> OpenOfferView {
        OpenOfferView { secrets: self.pending@, packets_since: self.packets_since }
    }
}

pub struct VpnSession {
    epoch: u8,
    sessions: BTreeMap<u8, Session>,
    dh_ratchet: DhRatchetState,
    role: Role,
    pending_rekey: Option<OpenOffer>,
    pad_target: usize,
    answered: Option<(Vec<u8>, Vec<u8>)>,
    accepted: Option<Vec<u8>>,
    confirmed: bool,
}

/// What a connection stands for: its sessions by epoch, which of them is the
/// current one, the rekeying ratchet, the offer that is not answered yet, the
/// last offer that it answered with its answer, the last answer that it
/// accepted, and whether the peer is known to have begun the current epoch too.
#[verifier::ext_equal]
pub struct VpnView {
    pub epoch: u8,
    pub sessions: Map<u8, SessionView>,
    pub dh: DhView,
    pub offer: Option<OpenOfferView>,
    pub pad_target: usize,
    pub answered: Option<(Seq<u8>, Seq<u8>)>,
    pub accepted: Option<Seq<u8>>,
    pub confirmed: bool,
}

impl View for VpnSession {
    type V = VpnView;

    closed spec fn view(&self) -> VpnView {
        VpnView {
            epoch: self.epoch,
            sessions: self.sessions@.map_values(|session: Session| session@),
            dh: self.dh_ratchet@,
            offer: match self.pending_rekey {
                None => None,
                Some(offer) => Some(offer@),
            },
            pad_target: self.pad_target,
            answered: match self.answered {
                None => None,
                Some((offer, response)) => Some((offer@, response@)),
            },
            accepted: match self.accepted {
                None => None,
                Some(response) => Some(response@),
            },
            confirmed: self.confirmed,
        }
    }
}

/// One step in the life of a connection.
pub enum LinkEvent {
    /// A packet was sent in an epoch.
    Sent { epoch: u8 },
    /// A packet arrived, to be delivered or refused.
    Received { framed: Seq<u8> },
    /// A rekey was offered.
    Offered { secrets: PendingView },
    /// The open offer, if there was one, was used up.
    Closed,
    /// A new epoch began.
    Rekeyed { dh: DhView, send: Seq<u8>, recv: Seq<u8> },
    /// What is to be known of a rekey was remembered.
    Remembered {
        answered: Option<(Seq<u8>, Seq<u8>)>,
        accepted: Option<Seq<u8>>,
        confirmed: bool,
    },
}

impl LinkEvent {
    /// Whether this is the arrival of a packet of `epoch`.
    pub open spec fn arrives_in(self, epoch: u8) -> bool {
        match self {
            LinkEvent::Received { framed } => framed.len() > 0 && framed[0] == epoch,
            _ => false,
        }
    }

    /// Whether this is the sending or the arrival of a packet.
    pub open spec fn is_traffic(self) -> bool {
        self is Sent || self is Received
    }
}

/// How many new epochs began in a series of events.
pub open spec fn rekeys(events: Seq<LinkEvent>) -> nat
    decreases events.len(),
{
    if events.len() == 0 {
        0
    } else {
        rekeys(events.drop_last()) + if events.last() is Rekeyed {
            1nat
        } else {
            0nat
        }
    }
}

/// The epoch after `epoch`; epochs wrap around.
pub open spec fn next_epoch(epoch: u8) -> u8 {
    if epoch == 255 {
        0
    } else {
        (epoch + 1) as u8
    }
}

/// The epoch before `epoch`.
pub open spec fn previous_epoch(epoch: u8) -> u8 {
    if epoch == 0 {
        255
    } else {
        (epoch - 1) as u8
    }
}

impl VpnView {
    /// A connection right after the handshake.
    pub open spec fn fresh(keys: KeysView, role: Role, pad_target: usize) -> VpnView {
        VpnView {
            epoch: 0,
            sessions: map![0u8 => SessionView::fresh(keys.send, keys.recv, pad_target)],
            dh: DhView {
                root: keys.root,
                role,
                interval: dh_ratchet::DEFAULT_REKEY_INTERVAL,
                packet_threshold: dh_ratchet::DEFAULT_REKEY_PACKET_THRESHOLD,
                epoch: 0,
                packets: 0,
            },
            offer: None,
            pad_target,
            answered: None,
            accepted: None,
            confirmed: true,
        }
    }

    /// What holds of every connection: the current epoch has a session, no
    /// epoch but the current one and the one before has, the sessions are
    /// valid and have the connection's padding target, the epoch shown on the
    /// wire is the low byte of the number of rekeys, and an open offer is one
    /// that can be accepted.
    pub open spec fn valid(self) -> bool {
        &&& self.sessions.contains_key(self.epoch)
        &&& forall|e: u8| #[trigger]
            self.sessions.contains_key(e) ==> e == self.epoch || next_epoch(e) == self.epoch
        &&& forall|e: u8| #[trigger]
            self.sessions.contains_key(e) ==> self.sessions[e].valid()
        &&& forall|e: u8| #[trigger]
            self.sessions.contains_key(e) ==> self.sessions[e].pad_target == self.pad_target
        &&& self.epoch == self.dh.epoch % 256
        &&& self.offer matches Some(open) ==> open.secrets.sound()
    }

    /// The session of the current epoch.
    pub open spec fn current(self) -> SessionView {
        self.sessions[self.epoch]
    }

    /// The epoch in which packets go to the peer: the current one or, as long as
    /// the peer is not known to have begun it, the one before.
    pub open spec fn outgoing(self) -> u8 {
        if !self.confirmed && self.sessions.contains_key(previous_epoch(self.epoch)) {
            previous_epoch(self.epoch)
        } else {
            self.epoch
        }
    }

    /// Whether a payload of `len` bytes can be sent.
    pub open spec fn can_send(self, len: nat) -> bool {
        self.can_send_in(self.epoch, len)
    }

    /// Whether a payload of `len` bytes can be sent in `epoch`.
    pub open spec fn can_send_in(self, epoch: u8, len: nat) -> bool {
        self.sessions[epoch].can_send(len) && self.dh.packets < u32::MAX
    }

    /// The connection after it sent a packet.
    pub open spec fn sent(self) -> VpnView {
        self.sent_in(self.epoch)
    }

    /// The connection after it sent a packet in `epoch`.
    pub open spec fn sent_in(self, epoch: u8) -> VpnView {
        VpnView {
            sessions: self.sessions.insert(epoch, self.sessions[epoch].sent()),
            dh: DhView { packets: (self.dh.packets + 1) as u32, ..self.dh },
            offer: match self.offer {
                None => None,
                Some(offer) => Some(
                    OpenOfferView {
                        packets_since: if offer.packets_since < u32::MAX {
                            (offer.packets_since + 1) as u32
                        } else {
                            u32::MAX
                        },
                        ..offer
                    },
                ),
            },
            ..self
        }
    }

    /// Whether `framed` is what this connection sends for a payload.
    pub open spec fn sends(self, pkt_type: u8, plaintext: Seq<u8>, framed: Seq<u8>) -> bool {
        self.sends_in(self.epoch, pkt_type, plaintext, framed)
    }

    /// Whether `framed` is what this connection sends for a payload in `epoch`.
    pub open spec fn sends_in(
        self,
        epoch: u8,
        pkt_type: u8,
        plaintext: Seq<u8>,
        framed: Seq<u8>,
    ) -> bool {
        &&& framed.len() > 0
        &&& framed[0] == epoch
        &&& session::packet_of(
            self.sessions[epoch].send_seed,
            self.sessions[epoch].send_seq,
            pkt_type,
            plaintext,
            self.sessions[epoch].pad_target,
            framed.skip(1),
        )
    }

    /// Whether a packet can be looked at.
    pub open spec fn can_receive(self, framed: Seq<u8>) -> bool {
        framed.len() > 0 && self.sessions.contains_key(framed[0])
            ==> self.sessions[framed[0]].can_receive(framed.skip(1))
    }

    /// The connection after it received a packet, and the payload or the reason
    /// why the packet is refused. A packet of the current epoch that is accepted
    /// shows that the peer has begun it.
    pub open spec fn received(self, framed: Seq<u8>) -> (VpnView, Result<Seq<u8>, VpnError>) {
        if framed.len() == 0 {
            (self, Err(VpnError::EmptyPacket))
        } else if !self.sessions.contains_key(framed[0]) {
            (self, Err(VpnError::UnknownEpoch { epoch: framed[0] }))
        } else {
            let (after, result) = self.sessions[framed[0]].received(framed.skip(1));
            (
                VpnView {
                    sessions: self.sessions.insert(framed[0], after),
                    confirmed: self.confirmed || (result is Ok && framed[0] == self.epoch),
                    ..self
                },
                match result {
                    Ok(payload) => Ok(payload),
                    Err(e) => Err(VpnError::Session(e)),
                },
            )
        }
    }

    /// Whether it is time for a rekey, so many nanoseconds after the last rekey
    /// and after the open offer, if there is one: the ratchet says so, and an
    /// open offer has been out for as many packets or as long.
    pub open spec fn rekey_due(self, since_rekey: u128, since_offer: u128) -> bool {
        &&& self.dh.role == Role::Initiator
        &&& match self.offer {
            None => self.dh.due(since_rekey),
            Some(offer) => self.dh.due(since_rekey) && (offer.packets_since
                >= self.dh.packet_threshold || since_offer >= self.dh.interval),
        }
    }

    /// The connection after it made an offer.
    pub open spec fn offered(self, secrets: PendingView) -> VpnView {
        VpnView { offer: Some(OpenOfferView { secrets, packets_since: 0 }), ..self }
    }

    /// The connection after a new epoch began: of the sessions, only the one
    /// that was current stays.
    pub open spec fn installed(self, dh: DhView, send: Seq<u8>, recv: Seq<u8>) -> VpnView {
        let epoch = next_epoch(self.epoch);
        VpnView {
            epoch,
            sessions: map![
                self.epoch => self.current(),
                epoch => SessionView::fresh(send, recv, self.pad_target),
            ],
            dh,
            ..self
        }
    }

    /// Whether a rekey response is refused: there is no open offer, or the
    /// response cannot be read.
    pub open spec fn refuses_response(self, wire: Seq<u8>) -> bool {
        ||| self.offer is None
        ||| match handshake_wire::decoded_rekey_response(wire) {
            Err(_) => true,
            Ok(response) => response.kem_ciphertext.len() != primitives::KEM_CIPHERTEXT_LEN,
        }
    }

    /// The connection after it received a rekey response, and whether the
    /// response was accepted. The open offer is used up either way.
    pub open spec fn rekey_finished(self, wire: Seq<u8>) -> (VpnView, Result<(), VpnError>) {
        match self.offer {
            None => (self, Err(VpnError::NoRekeyInProgress)),
            Some(offer) => {
                let closed = VpnView { offer: None, ..self };
                match handshake_wire::decoded_rekey_response(wire) {
                    Err(e) => (closed, Err(VpnError::Wire(e))),
                    Ok(response) => match dh_ratchet::rekey_finished(
                        self.dh,
                        offer.secrets,
                        response,
                    ) {
                        Err(e) => (closed, Err(VpnError::Rekey(e))),
                        Ok((dh, (send, recv))) => (
                            VpnView {
                                accepted: Some(wire),
                                confirmed: true,
                                ..closed.installed(dh, send, recv)
                            },
                            Ok(()),
                        ),
                    },
                }
            },
        }
    }

    /// The events that a rekey response amounts to.
    pub open spec fn response_events(self, wire: Seq<u8>) -> Seq<LinkEvent> {
        if self.offer is None {
            seq![]
        } else if self.rekey_finished(wire).1 is Err {
            seq![LinkEvent::Closed]
        } else {
            let after = self.rekey_finished(wire).0;
            seq![
                LinkEvent::Closed,
                LinkEvent::Rekeyed {
                    dh: after.dh,
                    send: after.current().send_seed,
                    recv: after.current().recv.seed,
                },
                LinkEvent::Remembered {
                    answered: self.answered,
                    accepted: Some(wire),
                    confirmed: true,
                },
            ]
        }
    }

    /// The connection after an event.
    pub open spec fn step(self, event: LinkEvent) -> VpnView {
        match event {
            LinkEvent::Sent { epoch } => if self.sessions.contains_key(epoch) {
                self.sent_in(epoch)
            } else {
                self
            },
            LinkEvent::Received { framed } => self.received(framed).0,
            LinkEvent::Offered { secrets } => self.offered(secrets),
            LinkEvent::Closed => VpnView { offer: None, ..self },
            LinkEvent::Rekeyed { dh, send, recv } => self.installed(dh, send, recv),
            LinkEvent::Remembered { answered, accepted, confirmed } => VpnView {
                answered,
                accepted,
                confirmed,
                ..self
            },
        }
    }

    /// The connection after a series of events.
    pub open spec fn run(self, events: Seq<LinkEvent>) -> VpnView
        decreases events.len(),
    {
        if events.len() == 0 {
            self
        } else {
            self.run(events.drop_last()).step(events.last())
        }
    }

    /// How a rekey offer is read: the offer, or the reason why it is refused.
    pub open spec fn offer_checked(wire: Seq<u8>) -> Result<dh_ratchet::OfferView, VpnError> {
        match handshake_wire::decoded_rekey_offer(wire) {
            Err(e) => Err(VpnError::Wire(e)),
            Ok(offer) => match dh_ratchet::offered_key_checked(offer.kem_ek) {
                Err(e) => Err(VpnError::Rekey(e)),
                Ok(_) => Ok(offer),
            },
        }
    }

    /// Whether `answer` is one that takes this connection to `after` in reply
    /// to `offer`.
    pub open spec fn answers(
        self,
        offer: dh_ratchet::OfferView,
        answer: Answer,
        after: VpnView,
    ) -> bool {
        &&& answer.given(self.dh, offer, after.dh)
        &&& after == (VpnView {
            answered: after.answered,
            confirmed: false,
            ..self.installed(after.dh, answer.send, answer.recv)
        })
        &&& answer.response.kem_ciphertext.len() == primitives::KEM_CIPHERTEXT_LEN
        &&& primitives::kem_encapsulated(
            offer.kem_ek,
            answer.response.kem_ciphertext,
            answer.kem_secret,
        )
    }

    /// The answer that this connection gave to the offer in `wire`, if that is
    /// the last offer that it answered.
    pub open spec fn repeated(self, wire: Seq<u8>) -> Option<Seq<u8>> {
        match self.answered {
            Some((offer, response)) if offer == wire => Some(response),
            _ => None,
        }
    }

    /// Whether `response` is a reply to the offer in `wire` that takes this
    /// connection to `after`, where both are remembered.
    pub open spec fn replies(self, wire: Seq<u8>, after: VpnView, response: Seq<u8>) -> bool {
        exists|offer: dh_ratchet::OfferView, answer: Answer|
            VpnView::offer_checked(wire) == Ok::<dh_ratchet::OfferView, VpnError>(offer)
                && #[trigger] self.answers(offer, answer, after) && response
                == handshake_wire::encoded_rekey_response(answer.response) && after.answered
                == Some((wire, response))
    }

    /// Whether this connection receives what `peer` sends in `epoch`, and stands
    /// at the packet that `peer` sends next in it.
    pub open spec fn hears(self, peer: VpnView, epoch: u8) -> bool {
        &&& self.sessions.contains_key(epoch)
        &&& peer.sessions.contains_key(epoch)
        &&& self.sessions[epoch].caught_up(peer.sessions[epoch])
    }

    /// Whether this connection and `peer` are the two ends of one link: they
    /// play different roles, have the same root key and epoch, and each
    /// receives in that epoch what the other sends.
    pub open spec fn linked(self, peer: VpnView) -> bool {
        &&& self.dh.role != peer.dh.role
        &&& self.dh.root == peer.dh.root
        &&& self.epoch == peer.epoch
        &&& self.current().recv.seed == peer.current().send_seed
        &&& peer.current().recv.seed == self.current().send_seed
    }
}

/// The two ends of a completed handshake are linked, and have caught up with
/// each other.
pub proof fn law_handshake_links(
    initiator: KeysView,
    responder: KeysView,
    initiator_pad: usize,
    responder_pad: usize,
)
    requires
        initiator.send == responder.recv,
        initiator.recv == responder.send,
        initiator.root == responder.root,
    ensures
        ({
            let i = VpnView::fresh(initiator, Role::Initiator, initiator_pad);
            let r = VpnView::fresh(responder, Role::Responder, responder_pad);
            &&& i.valid()
            &&& r.valid()
            &&& i.linked(r)
            &&& r.linked(i)
            &&& i.current().caught_up(r.current())
            &&& r.current().caught_up(i.current())
            &&& i.hears(r, r.outgoing())
            &&& r.hears(i, i.outgoing())
        }),
{
}

/// A connection stays valid, whatever it sends, whatever arrives, and whatever
/// comes of a rekey.
pub proof fn law_connections_stay_valid(
    before: VpnView,
    framed: Seq<u8>,
    dh: Seq<u8>,
    kem_secret: Seq<u8>,
    send: Seq<u8>,
    recv: Seq<u8>,
)
    requires
        before.valid(),
        before.can_receive(framed),
        before.dh.epoch < u64::MAX,
    ensures
        before.sent().valid(),
        before.sessions.contains_key(before.outgoing()),
        before.sent_in(before.outgoing()).valid(),
        before.received(framed).0.valid(),
        before.installed(before.dh.rekeyed(dh, kem_secret), send, recv).valid(),
{
    assert(before.sessions.contains_key(before.epoch));
    if framed.len() > 0 && before.sessions.contains_key(framed[0]) {
        session::law_sessions_stay_valid(before.sessions[framed[0]], framed.skip(1));
    }
}

/// What one end sends in an epoch, the other delivers if it hears it in that
/// epoch, and hears it again.
pub proof fn law_packet_arrives_in_its_epoch(
    sender: VpnView,
    receiver: VpnView,
    epoch: u8,
    pkt_type: u8,
    plaintext: Seq<u8>,
    framed: Seq<u8>,
)
    requires
        receiver.valid(),
        receiver.hears(sender, epoch),
        sender.can_send_in(epoch, plaintext.len()),
        sender.sends_in(epoch, pkt_type, plaintext, framed),
        plaintext.len() < 65536,
    ensures
        receiver.received(framed).1 == Ok::<Seq<u8>, VpnError>(plaintext),
        receiver.received(framed).0.hears(sender.sent_in(epoch), epoch),
{
    session::law_in_order_delivery(
        sender.sessions[epoch],
        receiver.sessions[epoch],
        pkt_type,
        plaintext,
        framed.skip(1),
    );
}

/// What one end sends, the other delivers: if the receiver has caught up with
/// the sender in the current epoch, it delivers the packet and has caught up
/// again.
pub proof fn law_data_round_trip(
    sender: VpnView,
    receiver: VpnView,
    pkt_type: u8,
    plaintext: Seq<u8>,
    framed: Seq<u8>,
)
    requires
        receiver.valid(),
        sender.linked(receiver),
        receiver.current().caught_up(sender.current()),
        sender.can_send(plaintext.len()),
        sender.sends(pkt_type, plaintext, framed),
        plaintext.len() < 65536,
    ensures
        receiver.received(framed).1 == Ok::<Seq<u8>, VpnError>(plaintext),
        sender.sent().linked(receiver.received(framed).0),
        receiver.received(framed).0.current().caught_up(sender.sent().current()),
{
    assert(receiver.sessions.contains_key(receiver.epoch));
    session::law_in_order_delivery(
        sender.current(),
        receiver.current(),
        pkt_type,
        plaintext,
        framed.skip(1),
    );
}

/// A packet is delivered at most once: once a packet has been delivered, no
/// packet with its epoch and number is, whatever is sent, received and rekeyed
/// in between, until the epoch's number is given out again.
pub proof fn law_delivered_at_most_once(
    receiver: VpnView,
    framed: Seq<u8>,
    between: Seq<LinkEvent>,
    again: Seq<u8>,
)
    requires
        receiver.valid(),
        receiver.received(framed).1 is Ok,
        rekeys(between) < 255,
        again.len() > 0,
        again[0] == framed[0],
        session::seq_of(again.skip(1)) == session::seq_of(framed.skip(1)),
    ensures
        receiver.received(framed).0.run(between).received(again).1 is Err,
{
    let seq = session::seq_of(framed.skip(1));
    let epoch = framed[0];
    assert(receiver.sessions.contains_key(epoch));
    assert(receiver.sessions.contains_key(receiver.epoch));
    replay::law_committed_is_refused(receiver.sessions[epoch].window, seq);
    let age: nat = if epoch == receiver.epoch {
        0
    } else {
        1
    };
    lemma_refused_for_ever(receiver.received(framed).0, between, epoch, age, seq);
}

/// Whether a connection refuses number `seq` of `epoch`, `age` epochs ago.
spec fn refuses(vpn: VpnView, epoch: u8, age: nat, seq: u64) -> bool {
    &&& vpn.sessions.contains_key(vpn.epoch)
    &&& vpn.epoch == (epoch + age) % 256
    &&& vpn.sessions.contains_key(epoch) ==> !vpn.sessions[epoch].window.accepts(seq)
}

proof fn lemma_refused_for_ever(
    receiver: VpnView,
    events: Seq<LinkEvent>,
    epoch: u8,
    age: nat,
    seq: u64,
)
    requires
        refuses(receiver, epoch, age, seq),
        age + rekeys(events) < 256,
    ensures
        refuses(receiver.run(events), epoch, age + rekeys(events), seq),
    decreases events.len(),
{
    if events.len() > 0 {
        let before = receiver.run(events.drop_last());
        lemma_refused_for_ever(receiver, events.drop_last(), epoch, age, seq);
        match events.last() {
            LinkEvent::Received { framed } => {
                if framed.len() > 0 && framed[0] == epoch && before.sessions.contains_key(epoch) {
                    replay::law_refused_stays_refused(
                        before.sessions[epoch].window,
                        seq,
                        session::seq_of(framed.skip(1)),
                    );
                }
            },
            _ => {},
        }
    }
}

/// Every step that a connection takes is one of the events: a rekey response
/// is, whatever comes of it, and so is an answer to an offer.
pub proof fn law_operations_are_events(
    before: VpnView,
    wire: Seq<u8>,
    offer: dh_ratchet::OfferView,
    answer: Answer,
    after: VpnView,
)
    ensures
        before.rekey_finished(wire).0 == before.run(before.response_events(wire)),
        before.answers(offer, answer, after) ==> after == before.step(
            LinkEvent::Rekeyed { dh: after.dh, send: answer.send, recv: answer.recv },
        ).step(
            LinkEvent::Remembered {
                answered: after.answered,
                accepted: before.accepted,
                confirmed: false,
            },
        ),
{
    reveal_with_fuel(VpnView::run, 4);
    let events = before.response_events(wire);
    if events.len() == 3 {
        assert(events.drop_last().drop_last().drop_last() =~= Seq::empty());
        assert(events.drop_last().drop_last() =~= seq![LinkEvent::Closed]);
        assert(events.drop_last().last() == events[1]);
    } else if events.len() == 1 {
        assert(events.drop_last() =~= Seq::empty());
    }
}

/// Where a connection stands after a series of events: the epoch has moved on
/// by one with every rekey, and no epoch but the current one and the one before
/// has a session.
proof fn lemma_epochs_move_on(vpn: VpnView, events: Seq<LinkEvent>)
    requires
        vpn.valid(),
    ensures
        vpn.run(events).epoch == (vpn.epoch + rekeys(events)) % 256,
        vpn.run(events).sessions.contains_key(vpn.run(events).epoch),
        forall|e: u8| #[trigger]
            vpn.run(events).sessions.contains_key(e) ==> e == vpn.run(events).epoch || next_epoch(e)
                == vpn.run(events).epoch,
    decreases events.len(),
{
    if events.len() > 0 {
        lemma_epochs_move_on(vpn, events.drop_last());
    }
}

/// The grace window: a packet that is under way while the receiver goes through
/// rekeys is delivered after none or one of them, and refused as one of an
/// unknown epoch after two and more, until the epoch's number is given out
/// again. Packets of other epochs may arrive meanwhile, and any may be sent.
pub proof fn law_grace_window(
    sender: VpnView,
    receiver: VpnView,
    pkt_type: u8,
    plaintext: Seq<u8>,
    framed: Seq<u8>,
    events: Seq<LinkEvent>,
)
    requires
        receiver.valid(),
        sender.linked(receiver),
        receiver.current().caught_up(sender.current()),
        sender.can_send(plaintext.len()),
        sender.sends(pkt_type, plaintext, framed),
        plaintext.len() < 65536,
        forall|i: int| 0 <= i < events.len() ==> !(#[trigger] events[i]).arrives_in(sender.epoch),
    ensures
        rekeys(events) <= 1 ==> receiver.run(events).received(framed).1 == Ok::<
            Seq<u8>,
            VpnError,
        >(plaintext),
        2 <= rekeys(events) <= 255 ==> receiver.run(events).received(framed).1 == Err::<
            Seq<u8>,
            VpnError,
        >(VpnError::UnknownEpoch { epoch: sender.epoch }),
{
    assert(receiver.sessions.contains_key(receiver.epoch));
    if rekeys(events) <= 1 {
        lemma_session_waits(receiver, events);
        session::law_decrypt_after_encrypt(
            receiver.run(events).sessions[receiver.epoch],
            sender.current().send_seq,
            pkt_type,
            plaintext,
            sender.current().pad_target,
            framed.skip(1),
        );
    } else if rekeys(events) <= 255 {
        law_retired_epochs_stay_gone(receiver, events, framed);
    }
}

/// A session that no packet arrives for is the same to its peer after one rekey.
proof fn lemma_session_waits(vpn: VpnView, events: Seq<LinkEvent>)
    requires
        vpn.valid(),
        rekeys(events) <= 1,
        forall|i: int| 0 <= i < events.len() ==> !(#[trigger] events[i]).arrives_in(vpn.epoch),
    ensures
        vpn.run(events).sessions.contains_key(vpn.epoch),
        vpn.run(events).sessions[vpn.epoch].recv == vpn.current().recv,
        vpn.run(events).sessions[vpn.epoch].window == vpn.current().window,
    decreases events.len(),
{
    if events.len() > 0 {
        let last = events.last();
        assert(last == events[events.len() - 1]);
        assert forall|i: int| 0 <= i < events.drop_last().len() implies !(
        #[trigger] events.drop_last()[i]).arrives_in(vpn.epoch) by {
            assert(events.drop_last()[i] == events[i]);
        }
        lemma_session_waits(vpn, events.drop_last());
        lemma_epochs_move_on(vpn, events.drop_last());
    }
}

/// Older epochs stay gone: after two and more rekeys, a packet of the epoch that
/// was current before them is refused, until the epoch's number is given out
/// again.
pub proof fn law_retired_epochs_stay_gone(before: VpnView, events: Seq<LinkEvent>, framed: Seq<u8>)
    requires
        before.valid(),
        2 <= rekeys(events) <= 255,
        framed.len() > 0,
        framed[0] == before.epoch,
    ensures
        before.run(events).received(framed).1 == Err::<Seq<u8>, VpnError>(
            VpnError::UnknownEpoch { epoch: framed[0] },
        ),
{
    lemma_epochs_move_on(before, events);
}

/// An offer that was made by a rekey is never refused.
pub proof fn law_offer_is_accepted(offer: dh_ratchet::OfferView)
    requires
        offer.x_pub.len() == 32,
        primitives::kem_key_valid(offer.kem_ek),
    ensures
        VpnView::offer_checked(handshake_wire::encoded_rekey_offer(offer)) == Ok::<
            dh_ratchet::OfferView,
            VpnError,
        >(offer),
{
    handshake_wire::law_rekey_offer_round_trip(offer);
}

/// A rekey completes: an answer to the open offer is accepted, and both ends
/// move on to the next epoch.
pub proof fn law_rekey_completes(
    initiator: VpnView,
    responder: VpnView,
    secrets: PendingView,
    answer: Answer,
    responder_after: VpnView,
)
    requires
        initiator.epoch == responder.epoch,
        initiator.dh.epoch < u64::MAX,
        responder.dh.epoch < u64::MAX,
        initiator.offer matches Some(open) && open.secrets == secrets,
        responder.answers(secrets.offer(), answer, responder_after),
    ensures
        ({
            let (after, result) = initiator.rekey_finished(
                handshake_wire::encoded_rekey_response(answer.response),
            );
            &&& result is Ok
            &&& after.offer is None
            &&& after.epoch == next_epoch(initiator.epoch)
            &&& responder_after.epoch == after.epoch
            &&& after.dh.epoch == initiator.dh.epoch + 1
            &&& responder_after.dh.epoch == responder.dh.epoch + 1
        }),
{
    handshake_wire::law_rekey_response_round_trip(answer.response);
}

/// A rekey links the two ends in the next epoch: an offer that the responder
/// answers leaves both with the same root key and with fresh sessions that
/// receive what the other sends, provided that the KEM recovers the secret.
pub proof fn law_rekey_links(
    initiator: VpnView,
    responder: VpnView,
    secrets: PendingView,
    answer: Answer,
    responder_after: VpnView,
)
    requires
        initiator.linked(responder),
        initiator.dh.role == Role::Initiator,
        initiator.offer matches Some(open) && open.secrets == secrets,
        secrets.ephemeral.len() == 32,
        responder.answers(secrets.offer(), answer, responder_after),
        primitives::kem_decaps(secrets.seed, answer.response.kem_ciphertext) == answer.kem_secret,
    ensures
        ({
            let (after, result) = initiator.rekey_finished(
                handshake_wire::encoded_rekey_response(answer.response),
            );
            &&& result is Ok
            &&& after.linked(responder_after)
            &&& after.epoch == next_epoch(initiator.epoch)
            &&& after.current().caught_up(responder_after.current())
            &&& responder_after.current().caught_up(after.current())
        }),
{
    handshake_wire::law_rekey_response_round_trip(answer.response);
    dh_ratchet::law_rekey_chains_cross(
        initiator.dh,
        responder.dh,
        secrets,
        answer,
        responder_after.dh,
    );
}

/// What traffic does not touch.
proof fn lemma_traffic(vpn: VpnView, events: Seq<LinkEvent>)
    requires
        vpn.sessions.contains_key(vpn.epoch),
        forall|i: int| 0 <= i < events.len() ==> (#[trigger] events[i]).is_traffic(),
    ensures
        ({
            let after = vpn.run(events);
            &&& after.sessions.contains_key(after.epoch)
            &&& after.epoch == vpn.epoch
            &&& after.dh.root == vpn.dh.root
            &&& after.dh.role == vpn.dh.role
            &&& after.answered == vpn.answered
            &&& after.current().send_seed == vpn.current().send_seed
            &&& after.current().recv.seed == vpn.current().recv.seed
        }),
    decreases events.len(),
{
    if events.len() > 0 {
        assert forall|i: int| 0 <= i < events.drop_last().len() implies (
        #[trigger] events.drop_last()[i]).is_traffic() by {
            assert(events.drop_last()[i] == events[i]);
        }
        assert(events[events.len() - 1].is_traffic());
        lemma_traffic(vpn, events.drop_last());
    }
}

/// An epoch that has not been confirmed and sees no traffic stays as it is.
proof fn lemma_new_epoch_waits(vpn: VpnView, events: Seq<LinkEvent>)
    requires
        vpn.sessions.contains_key(vpn.epoch),
        !vpn.confirmed,
        forall|i: int|
            0 <= i < events.len() ==> (#[trigger] events[i]).is_traffic() && !events[i].arrives_in(
                vpn.epoch,
            ) && events[i] != (LinkEvent::Sent { epoch: vpn.epoch }),
    ensures
        vpn.run(events).epoch == vpn.epoch,
        vpn.run(events).sessions.contains_key(vpn.epoch),
        vpn.run(events).current() == vpn.current(),
        !vpn.run(events).confirmed,
    decreases events.len(),
{
    if events.len() > 0 {
        let fewer = events.drop_last();
        assert forall|i: int| 0 <= i < fewer.len() implies (#[trigger] fewer[i]).is_traffic()
            && !fewer[i].arrives_in(vpn.epoch) && fewer[i] != (LinkEvent::Sent {
            epoch: vpn.epoch,
        }) by {
            assert(fewer[i] == events[i]);
        }
        assert(events.last() == events[events.len() - 1]);
        lemma_new_epoch_waits(vpn, fewer);
    }
}

/// A rekey never interrupts the data, whichever of its messages is lost or late.
/// Once the responder has answered, each end still hears the other in the epoch
/// in which the other sends, whether or not the answer arrives; once it has
/// arrived, they do so again, provided that the KEM recovers the secret.
pub proof fn law_rekey_never_interrupts_data(
    initiator: VpnView,
    responder: VpnView,
    secrets: PendingView,
    answer: Answer,
    responder_after: VpnView,
)
    requires
        initiator.valid(),
        responder.valid(),
        initiator.confirmed,
        initiator.linked(responder),
        initiator.dh.role == Role::Initiator,
        initiator.hears(responder, initiator.epoch),
        responder.hears(initiator, initiator.epoch),
        initiator.offer matches Some(open) && open.secrets == secrets,
        responder.answers(secrets.offer(), answer, responder_after),
    ensures
        initiator.hears(responder_after, responder_after.outgoing()),
        responder_after.hears(initiator, initiator.outgoing()),
        primitives::kem_decaps(secrets.seed, answer.response.kem_ciphertext) == answer.kem_secret
            ==> ({
            let after = initiator.rekey_finished(
                handshake_wire::encoded_rekey_response(answer.response),
            ).0;
            &&& after.hears(responder_after, responder_after.outgoing())
            &&& responder_after.hears(after, after.outgoing())
        }),
{
    assert(previous_epoch(next_epoch(responder.epoch)) == responder.epoch);
    if primitives::kem_decaps(secrets.seed, answer.response.kem_ciphertext) == answer.kem_secret {
        law_rekey_links(initiator, responder, secrets, answer, responder_after);
    }
    handshake_wire::law_rekey_response_round_trip(answer.response);
}

/// A lost answer only delays the rekey: whatever packets both ends have sent and
/// received since, when the initiator sends its offer again, the responder gives
/// the same answer and does not change, and with that answer the two ends are
/// linked in the new epoch. This holds whenever the KEM recovers the secret.
pub proof fn law_lost_answer_is_given_again(
    initiator: VpnView,
    responder: VpnView,
    secrets: PendingView,
    answer: Answer,
    responder_after: VpnView,
    initiator_traffic: Seq<LinkEvent>,
    responder_traffic: Seq<LinkEvent>,
)
    requires
        initiator.valid(),
        initiator.linked(responder),
        initiator.dh.role == Role::Initiator,
        secrets.ephemeral.len() == 32,
        responder.valid(),
        responder.answers(secrets.offer(), answer, responder_after),
        responder_after.answered == Some(
            (
                handshake_wire::encoded_rekey_offer(secrets.offer()),
                handshake_wire::encoded_rekey_response(answer.response),
            ),
        ),
        primitives::kem_decaps(secrets.seed, answer.response.kem_ciphertext) == answer.kem_secret,
        forall|i: int|
            0 <= i < initiator_traffic.len() ==> (#[trigger] initiator_traffic[i]).is_traffic(),
        forall|i: int|
            0 <= i < responder_traffic.len() ==> (#[trigger] responder_traffic[i]).is_traffic()
                && !responder_traffic[i].arrives_in(responder_after.epoch)
                && responder_traffic[i] != (LinkEvent::Sent { epoch: responder_after.epoch }),
    ensures
        ({
            let i = initiator.run(initiator_traffic).offered(secrets);
            let r = responder_after.run(responder_traffic);
            let response = handshake_wire::encoded_rekey_response(answer.response);
            &&& r.repeated(handshake_wire::encoded_rekey_offer(secrets.offer())) == Some(response)
            &&& !r.confirmed
            &&& i.rekey_finished(response).1 is Ok
            &&& i.rekey_finished(response).0.linked(r)
            &&& i.rekey_finished(response).0.hears(r, r.epoch)
            &&& r.hears(i.rekey_finished(response).0, r.epoch)
        }),
{
    lemma_traffic(initiator, initiator_traffic);
    lemma_traffic(responder_after, responder_traffic);
    lemma_new_epoch_waits(responder_after, responder_traffic);
    let i = initiator.run(initiator_traffic).offered(secrets);
    handshake_wire::law_rekey_response_round_trip(answer.response);
    dh_ratchet::law_rekey_chains_cross(i.dh, responder.dh, secrets, answer, responder_after.dh);
}

/// All packets of a connection look the same: whatever payloads fit the padding
/// target, and in whatever epochs they are sent, their packets have one size.
pub proof fn law_constant_packet_size(
    pad_target: usize,
    a: VpnView,
    type_a: u8,
    payload_a: Seq<u8>,
    framed_a: Seq<u8>,
    b: VpnView,
    type_b: u8,
    payload_b: Seq<u8>,
    framed_b: Seq<u8>,
)
    requires
        a.valid(),
        b.valid(),
        a.pad_target == pad_target,
        b.pad_target == pad_target,
        payload_a.len() + 2 <= pad_target,
        payload_b.len() + 2 <= pad_target,
        a.sends(type_a, payload_a, framed_a),
        b.sends(type_b, payload_b, framed_b),
    ensures
        framed_a.len() == framed_b.len(),
        framed_a.len() == 1 + session::PACKET_HEADER_LEN + pad_target + primitives::TAG_LEN,
{
    assert(a.sessions.contains_key(a.epoch));
    assert(b.sessions.contains_key(b.epoch));
}

/// Packets in flight survive a rekey: right after a new epoch began, a packet
/// of the epoch that was current before is treated as it was before.
pub proof fn law_previous_epoch_still_works(
    before: VpnView,
    dh: DhView,
    send: Seq<u8>,
    recv: Seq<u8>,
    framed: Seq<u8>,
)
    requires
        before.valid(),
        framed.len() > 0,
        framed[0] == before.epoch,
    ensures
        before.installed(dh, send, recv).received(framed).1 == before.received(framed).1,
{
}

/// Older epochs are gone: right after a new epoch began, a packet of any epoch
/// but the new one and the one before is refused.
pub proof fn law_older_epochs_are_gone(
    before: VpnView,
    dh: DhView,
    send: Seq<u8>,
    recv: Seq<u8>,
    framed: Seq<u8>,
)
    requires
        framed.len() > 0,
        framed[0] != before.epoch,
        framed[0] != next_epoch(before.epoch),
    ensures
        before.installed(dh, send, recv).received(framed).1 == Err::<Seq<u8>, VpnError>(
            VpnError::UnknownEpoch { epoch: framed[0] },
        ),
{
}

/// No connection keeps more than `EPOCH_GRACE` sessions alive.
pub proof fn law_at_most_two_epochs(vpn: VpnView)
    requires
        vpn.valid(),
    ensures
        vpn.sessions.dom().finite(),
        vpn.sessions.dom().len() <= EPOCH_GRACE,
{
    let previous: u8 = if vpn.epoch == 0 {
        255
    } else {
        (vpn.epoch - 1) as u8
    };
    let both = set![vpn.epoch, previous];
    assert forall|e: u8| vpn.sessions.dom().contains(e) implies both.contains(e) by {
        assert(vpn.sessions.contains_key(e));
    }
    vstd::set_lib::lemma_len_subset(vpn.sessions.dom(), both);
}

/// A rekey is never called for unless this end is the initiator and its ratchet
/// calls for it; without an open offer, that is all it takes.
pub proof fn law_rekey_follows_the_ratchet(vpn: VpnView, since_rekey: u128, since_offer: u128)
    ensures
        vpn.rekey_due(since_rekey, since_offer) ==> vpn.dh.role == Role::Initiator && vpn.dh.due(
            since_rekey,
        ),
        vpn.dh.role == Role::Initiator && vpn.offer is None ==> (vpn.rekey_due(
            since_rekey,
            since_offer,
        ) <==> vpn.dh.due(since_rekey)),
{
}

/// A lost offer only delays the rekey: with an offer open and the ratchet
/// calling for a rekey, it is due again once the packet or the time threshold
/// has been reached since the offer, and not before.
pub proof fn law_lost_offer_is_retried(vpn: VpnView, since_rekey: u128, since_offer: u128)
    requires
        vpn.dh.role == Role::Initiator,
        vpn.offer is Some,
        vpn.dh.due(since_rekey),
    ensures
        vpn.rekey_due(since_rekey, since_offer) <==> vpn.offer->0.packets_since
            >= vpn.dh.packet_threshold || since_offer >= vpn.dh.interval,
{
}

/// Only the initiator starts rekeys.
pub proof fn law_responder_never_starts_a_rekey(vpn: VpnView, since_rekey: u128, since_offer: u128)
    requires
        vpn.dh.role == Role::Responder,
    ensures
        !vpn.rekey_due(since_rekey, since_offer),
{
}

/// When a rekey is called for, in numbers: this end is the initiator, the packet
/// count or the time since the last rekey has reached its threshold, and so has, if
/// an offer is open, the packet count or the time since that offer.
pub proof fn law_when_a_rekey_is_due(vpn: VpnView, since_rekey: u128, since_offer: u128)
    ensures
        vpn.rekey_due(since_rekey, since_offer) <==> {
            &&& vpn.dh.role == Role::Initiator
            &&& vpn.dh.packets >= vpn.dh.packet_threshold || since_rekey >= vpn.dh.interval
            &&& vpn.offer matches Some(open) ==> open.packets_since >= vpn.dh.packet_threshold
                || since_offer >= vpn.dh.interval
        },
{
}

/// Epochs are counted modulo 256.
pub proof fn law_epochs_wrap_around(epoch: u8)
    ensures
        next_epoch(epoch) == (epoch + 1) % 256,
        previous_epoch(epoch) == (epoch + 255) % 256,
        previous_epoch(next_epoch(epoch)) == epoch,
{
}

/// In which epoch packets go out: in the current one if the peer is known to have
/// begun it, or if there is no session of the one before; otherwise in that one.
pub proof fn law_epoch_of_what_goes_out(vpn: VpnView, before: u8)
    requires
        (before + 1) % 256 == vpn.epoch as int,
    ensures
        vpn.confirmed ==> vpn.outgoing() == vpn.epoch,
        !vpn.sessions.contains_key(before) ==> vpn.outgoing() == vpn.epoch,
        !vpn.confirmed && vpn.sessions.contains_key(before) ==> vpn.outgoing() == before,
{
}

/// What sending a packet in an epoch does: the session of the epoch has sent one
/// more, and the packet counts towards the next rekey and towards the retry of an
/// open offer, whose count stops at the largest number. Nothing else changes.
pub proof fn law_sending(vpn: VpnView, epoch: u8, len: nat)
    ensures
        vpn.can_send(len) <==> vpn.can_send_in(vpn.epoch, len),
        vpn.can_send_in(epoch, len) <==> vpn.sessions[epoch].can_send(len) && vpn.dh.packets
            < u32::MAX,
        vpn.sent() == vpn.sent_in(vpn.epoch),
        vpn.dh.packets < u32::MAX ==> ({
            let after = vpn.sent_in(epoch);
            &&& after.sessions == vpn.sessions.insert(epoch, vpn.sessions[epoch].sent())
            &&& after.dh.packets == vpn.dh.packets + 1
            &&& after.dh == (DhView { packets: after.dh.packets, ..vpn.dh })
            &&& after.offer is None <==> vpn.offer is None
            &&& vpn.offer matches Some(open) ==> {
                &&& after.offer->0.secrets == open.secrets
                &&& open.packets_since < u32::MAX ==> after.offer->0.packets_since
                    == open.packets_since + 1
                &&& open.packets_since == u32::MAX ==> after.offer->0.packets_since == u32::MAX
            }
            &&& after == (VpnView {
                sessions: after.sessions,
                dh: after.dh,
                offer: after.offer,
                ..vpn
            })
        }),
{
}

/// What goes out for a payload: one byte with the epoch, and behind it the next
/// packet of that epoch's session.
pub proof fn law_framing(
    vpn: VpnView,
    epoch: u8,
    pkt_type: u8,
    plaintext: Seq<u8>,
    packet: Seq<u8>,
)
    ensures
        vpn.sends_in(epoch, pkt_type, plaintext, seq![epoch] + packet) <==> session::packet_of(
            vpn.sessions[epoch].send_seed,
            vpn.sessions[epoch].send_seq,
            pkt_type,
            plaintext,
            vpn.sessions[epoch].pad_target,
            packet,
        ),
        vpn.sends(pkt_type, plaintext, packet) <==> vpn.sends_in(
            vpn.epoch,
            pkt_type,
            plaintext,
            packet,
        ),
        vpn.sends_in(epoch, pkt_type, plaintext, packet) ==> packet == seq![epoch] + packet.skip(1),
{
    assert((seq![epoch] + packet).skip(1) =~= packet);
    if vpn.sends_in(epoch, pkt_type, plaintext, packet) {
        assert(packet =~= seq![epoch] + packet.skip(1));
    }
}

/// What becomes of a data packet: its first byte picks the session that gets the
/// rest of it, and what that session makes of it is the outcome. A packet of the
/// current epoch that is delivered confirms it. Nothing else changes; without an
/// epoch, or with one that has no session, nothing changes at all.
pub proof fn law_what_becomes_of_data(vpn: VpnView, framed: Seq<u8>)
    ensures
        framed.len() == 0 ==> vpn.received(framed) == (
            vpn,
            Err::<Seq<u8>, VpnError>(VpnError::EmptyPacket),
        ) && vpn.can_receive(framed),
        framed.len() > 0 && !vpn.sessions.contains_key(framed[0]) ==> vpn.received(framed) == (
            vpn,
            Err::<Seq<u8>, VpnError>(VpnError::UnknownEpoch { epoch: framed[0] }),
        ) && vpn.can_receive(framed),
        framed.len() > 0 && vpn.sessions.contains_key(framed[0]) ==> ({
            let inner = vpn.sessions[framed[0]].received(framed.skip(1));
            let (after, result) = vpn.received(framed);
            &&& vpn.can_receive(framed) <==> vpn.sessions[framed[0]].can_receive(framed.skip(1))
            &&& after.sessions == vpn.sessions.insert(framed[0], inner.0)
            &&& inner.1 matches Ok(payload) ==> result == Ok::<Seq<u8>, VpnError>(payload)
            &&& inner.1 matches Err(e) ==> result == Err::<Seq<u8>, VpnError>(VpnError::Session(e))
            &&& result is Ok && framed[0] == vpn.epoch ==> after.confirmed
            &&& result is Err || framed[0] != vpn.epoch ==> after.confirmed == vpn.confirmed
            &&& after == (VpnView {
                sessions: after.sessions,
                confirmed: after.confirmed,
                ..vpn
            })
        }),
{
}

/// A packet that runs ahead in its epoch is delivered: in every epoch that has a
/// session, an authentic packet with the next number or one less than `MAX_SKIP`
/// above it is.
pub proof fn law_packet_ahead_is_delivered(
    receiver: VpnView,
    seq: u64,
    pkt_type: u8,
    plaintext: Seq<u8>,
    pad_target: usize,
    framed: Seq<u8>,
)
    requires
        receiver.valid(),
        framed.len() > 0,
        receiver.sessions.contains_key(framed[0]),
        session::packet_of(
            receiver.sessions[framed[0]].recv.seed,
            seq,
            pkt_type,
            plaintext,
            pad_target,
            framed.skip(1),
        ),
        receiver.sessions[framed[0]].recv.next <= seq < receiver.sessions[framed[0]].recv.next
            + session::MAX_SKIP,
        seq < u64::MAX,
        plaintext.len() < 65536,
    ensures
        receiver.received(framed).1 == Ok::<Seq<u8>, VpnError>(plaintext),
        receiver.received(framed).0.sessions[framed[0]].recv.next == seq + 1,
{
    session::law_packet_ahead_is_delivered(
        receiver.sessions[framed[0]],
        seq,
        pkt_type,
        plaintext,
        pad_target,
        framed.skip(1),
    );
}

/// What a new epoch is: the epoch is one further, its session is a fresh one on the
/// two new chains, the session that was current stays as it is, and no other does.
/// An offer replaces the open one and counts from nothing. Nothing else changes.
pub proof fn law_beginning_an_epoch(
    vpn: VpnView,
    dh: DhView,
    send: Seq<u8>,
    recv: Seq<u8>,
    secrets: PendingView,
)
    ensures
        ({
            let after = vpn.installed(dh, send, recv);
            &&& after.epoch == (vpn.epoch + 1) % 256
            &&& forall|e: u8| #[trigger]
                after.sessions.contains_key(e) <==> e == vpn.epoch || e == after.epoch
            &&& after.sessions[vpn.epoch] == vpn.sessions[vpn.epoch]
            &&& after.current().send_seed == send
            &&& after.current().send_seq == 0
            &&& after.current().recv.seed == recv
            &&& after.current().recv.next == 0
            &&& after.current().recv.held == Set::<u64>::empty()
            &&& after.current().window.highest is None
            &&& after.current().pad_target == vpn.pad_target
            &&& after.dh == dh
            &&& after == (VpnView {
                epoch: after.epoch,
                sessions: after.sessions,
                dh: after.dh,
                ..vpn
            })
        }),
        vpn.offered(secrets).offer == Some(OpenOfferView { secrets, packets_since: 0 }),
        vpn.offered(secrets) == (VpnView { offer: vpn.offered(secrets).offer, ..vpn }),
{
}

/// What becomes of a rekey response. Without an open offer nothing changes. With
/// one, the offer is used up; if the response can be read and its ciphertext has its
/// length, the new epoch begins with the root key and the chains that it gives, and
/// the response is remembered; otherwise nothing else changes.
pub proof fn law_what_becomes_of_a_response(vpn: VpnView, wire: Seq<u8>)
    ensures
        vpn.offer is None ==> vpn.rekey_finished(wire) == (
            vpn,
            Err::<(), VpnError>(VpnError::NoRekeyInProgress),
        ) && vpn.refuses_response(wire),
        vpn.offer is Some ==> ({
            let closed = VpnView { offer: None, ..vpn };
            let decoded = handshake_wire::decoded_rekey_response(wire);
            let response = decoded->Ok_0;
            let (after, result) = vpn.rekey_finished(wire);
            if decoded is Err {
                &&& vpn.refuses_response(wire)
                &&& after == closed
                &&& result == Err::<(), VpnError>(VpnError::Wire(decoded->Err_0))
            } else if response.kem_ciphertext.len() != 1088 {
                &&& vpn.refuses_response(wire)
                &&& after == closed
                &&& result == Err::<(), VpnError>(VpnError::Rekey(RekeyError::MalformedCiphertext))
            } else {
                let dh = primitives::x25519_shared(
                    vpn.offer->0.secrets.ephemeral,
                    response.x_pub,
                );
                let kem_secret = primitives::kem_decaps(
                    vpn.offer->0.secrets.seed,
                    response.kem_ciphertext,
                );
                let okm = primitives::hkdf_sha256(vpn.dh.root, dh + kem_secret, Seq::empty(), 96);
                let (send, recv) = vpn.dh.chains_of(okm);
                &&& !vpn.refuses_response(wire)
                &&& result is Ok
                &&& after == (VpnView {
                    accepted: Some(wire),
                    confirmed: true,
                    ..closed.installed(vpn.dh.seeded(okm), send, recv)
                })
            }
        }),
{
}

/// How an offer is read: it is refused if it cannot be read, or for the length or
/// the contents of its KEM key, and taken as it stands otherwise.
pub proof fn law_offer_reading(wire: Seq<u8>)
    ensures
        match handshake_wire::decoded_rekey_offer(wire) {
            Err(e) => VpnView::offer_checked(wire) == Err::<dh_ratchet::OfferView, VpnError>(
                VpnError::Wire(e),
            ),
            Ok(offer) => VpnView::offer_checked(wire) == if offer.kem_ek.len() != 1184 {
                Err::<dh_ratchet::OfferView, VpnError>(VpnError::Rekey(RekeyError::MalformedKey))
            } else if !primitives::kem_key_valid(offer.kem_ek) {
                Err::<dh_ratchet::OfferView, VpnError>(VpnError::Rekey(RekeyError::InvalidKey))
            } else {
                Ok::<dh_ratchet::OfferView, VpnError>(offer)
            },
        },
{
}

/// What a reply to an offer does: the responder begins the next epoch with the root
/// key and the chains that some ephemeral secret and some encapsulated secret give
/// with the offered keys, both of which the reply carries; it is not confirmed yet;
/// offer and reply are remembered, so that the same offer gets the same reply again.
/// The session that was current stays.
pub proof fn law_reply_begins_the_next_epoch(
    before: VpnView,
    wire: Seq<u8>,
    offer: dh_ratchet::OfferView,
    after: VpnView,
    response: Seq<u8>,
)
    requires
        before.dh.epoch < u64::MAX,
        VpnView::offer_checked(wire) == Ok::<dh_ratchet::OfferView, VpnError>(offer),
        before.replies(wire, after, response),
    ensures
        after.epoch == (before.epoch + 1) % 256,
        after.dh.epoch == before.dh.epoch + 1,
        after.dh.packets == 0,
        after.dh.role == before.dh.role,
        !after.confirmed,
        after.repeated(wire) == Some(response),
        after.sessions[before.epoch] == before.current(),
        after.accepted == before.accepted,
        after.offer == before.offer,
        after.pad_target == before.pad_target,
        handshake_wire::decoded_rekey_response(response) is Ok,
        ({
            let answer = handshake_wire::decoded_rekey_response(response)->Ok_0;
            exists|ephemeral: Seq<u8>, kem_secret: Seq<u8>|
                #![trigger
                    before.dh.stretch(
                        primitives::x25519_shared(ephemeral, offer.x_pub),
                        kem_secret,
                    )
                ]
                {
                    let okm = primitives::hkdf_sha256(
                        before.dh.root,
                        primitives::x25519_shared(ephemeral, offer.x_pub) + kem_secret,
                        Seq::empty(),
                        96,
                    );
                    &&& answer.x_pub == primitives::x25519_public(ephemeral)
                    &&& primitives::kem_encapsulated(
                        offer.kem_ek,
                        answer.kem_ciphertext,
                        kem_secret,
                    )
                    &&& after.dh == before.dh.seeded(okm)
                    &&& (after.current().send_seed, after.current().recv.seed)
                        == before.dh.chains_of(okm)
                }
        }),
{
    let (_, answer) = choose|checked: dh_ratchet::OfferView, answer: Answer|
        VpnView::offer_checked(wire) == Ok::<dh_ratchet::OfferView, VpnError>(checked)
            && #[trigger] before.answers(checked, answer, after) && response
            == handshake_wire::encoded_rekey_response(answer.response) && after.answered == Some(
            (wire, response),
        );
    handshake_wire::law_rekey_response_round_trip(answer.response);
    dh_ratchet::law_answer_contents(answer, before.dh, offer, after.dh);
    let dh = primitives::x25519_shared(answer.ephemeral, offer.x_pub);
    let okm = before.dh.stretch(dh, answer.kem_secret);
    assert(after.dh == before.dh.seeded(okm));
}

/// Which reply is given again: the one remembered, and only to the offer that it was
/// given to, byte for byte.
pub proof fn law_reply_is_remembered(vpn: VpnView, wire: Seq<u8>, response: Seq<u8>)
    ensures
        vpn.repeated(wire) == Some(response) <==> vpn.answered == Some((wire, response)),
{
}

/// The epoch in which packets go to the peer has a session.
proof fn lemma_outgoing(vpn: VpnView)
    requires
        vpn.valid(),
    ensures
        vpn.sessions.contains_key(vpn.outgoing()),
{
}

impl VpnSession {
    /// The view is a valid one, every session is well-formed, the role is the
    /// ratchet's, and the bytes of an open offer are those of its offer.
    pub closed spec fn wf(&self) -> bool {
        &&& self@.valid()
        &&& self.role == self.dh_ratchet@.role
        &&& self.pending_rekey matches Some(open) ==> open.wire@
            == handshake_wire::encoded_rekey_offer(open.pending@.offer())
        &&& forall|e: u8| #[trigger]
            self.sessions@.contains_key(e) ==> self.sessions@[e].wf()
    }

    /// The clock reading of the last rekey, or of the start if there was none.
    pub closed spec fn rekeyed_at(&self) -> Instant {
        self.dh_ratchet.rekeyed_at()
    }

    /// The clock reading of the open offer, if there is one.
    pub closed spec fn offered_at(&self) -> Option<Instant> {
        match self.pending_rekey {
            None => None,
            Some(offer) => Some(offer.offered_at),
        }
    }

    /// A well-formed connection is a valid one.
    pub proof fn lemma_wf(&self)
        requires
            self.wf(),
        ensures
            self@.valid(),
    {
    }

    pub fn new(keys: TransportKeys, role: Role) -> (r: Self)
        ensures
            r.wf(),
            r@ == VpnView::fresh(keys@, role, DEFAULT_PAD_TARGET),
            r@.epoch == 0,
            r@.sessions.dom() == set![0u8],
            r@.current().send_seed == keys@.send,
            r@.current().recv.seed == keys@.recv,
            r@.current().pad_target == DEFAULT_PAD_TARGET,
            r@.pad_target == DEFAULT_PAD_TARGET,
            r@.dh.root == keys@.root,
            r@.dh.role == role,
            r@.dh.interval == 60_000_000_000,
            r@.dh.packet_threshold == 65_536,
            r@.dh.epoch == 0,
            r@.dh.packets == 0,
            r@.offer is None,
            r@.answered is None,
            r@.accepted is None,
            r@.confirmed,
            primitives::clock_read(r.rekeyed_at()),
    {
        Self::with_pad_target(keys, role, DEFAULT_PAD_TARGET)
    }

    pub fn with_pad_target(keys: TransportKeys, role: Role, pad_target: usize) -> (r: Self)
        ensures
            r.wf(),
            r@ == VpnView::fresh(keys@, role, pad_target),
            r@.epoch == 0,
            r@.sessions.dom() == set![0u8],
            r@.current().send_seed == keys@.send,
            r@.current().recv.seed == keys@.recv,
            r@.current().pad_target == pad_target,
            r@.pad_target == pad_target,
            r@.dh.root == keys@.root,
            r@.dh.role == role,
            r@.dh.interval == 60_000_000_000,
            r@.dh.packet_threshold == 65_536,
            r@.dh.epoch == 0,
            r@.dh.packets == 0,
            r@.offer is None,
            r@.answered is None,
            r@.accepted is None,
            r@.confirmed,
            primitives::clock_read(r.rekeyed_at()),
    {
        let root_key = keys.root_key;
        let ghost view = keys@;
        let mut sessions: BTreeMap<u8, Session> = BTreeMap::new();
        sessions.insert(0u8, Session::with_pad_target(keys, pad_target));
        let r = VpnSession {
            epoch: 0,
            sessions,
            dh_ratchet: DhRatchetState::new(root_key, role, RatchetPolicy::default()),
            role,
            pending_rekey: None,
            pad_target,
            answered: None,
            accepted: None,
            confirmed: true,
        };
        assert(r@ =~= VpnView::fresh(view, role, pad_target));
        assert(r@.sessions.contains_key(0u8));
        r
    }

    /// Whether a payload of `len` bytes can be encrypted.
    pub fn can_encrypt(&self, len: usize) -> (r: bool)
        requires
            self.wf(),
        ensures
            r == self@.can_send(len as nat),
    {
        match self.sessions.get(&self.epoch) {
            Some(session) => session.can_encrypt(len) && self.dh_ratchet.packets_since_rekey()
                < u32::MAX,
            None => false,
        }
    }

    /// Whether `encrypt_for_peer` can encrypt a payload of `len` bytes.
    pub fn can_encrypt_for_peer(&self, len: usize) -> (r: bool)
        requires
            self.wf(),
        ensures
            r == self@.can_send_in(self@.outgoing(), len as nat),
    {
        proof {
            lemma_outgoing(self@);
        }
        match self.sessions.get(&self.outgoing_epoch()) {
            Some(session) => session.can_encrypt(len) && self.dh_ratchet.packets_since_rekey()
                < u32::MAX,
            None => false,
        }
    }

    /// The epoch in which packets go to the peer.
    fn outgoing_epoch(&self) -> (r: u8)
        ensures
            r == self@.outgoing(),
    {
        let previous: u8 = self.epoch.wrapping_sub(1);
        assert(previous == previous_epoch(self.epoch));
        if !self.confirmed && self.sessions.contains_key(&previous) {
            previous
        } else {
            self.epoch
        }
    }

    /// Encrypts one payload for the wire: a ratchet step, padding and AEAD
    /// encryption, with the current epoch in front. The packet counts towards
    /// the next rekey.
    pub fn encrypt_for_wire(&mut self, pkt_type: u8, plaintext: &[u8]) -> (r: Vec<u8>)
        requires
            old(self).wf(),
            old(self)@.can_send(plaintext@.len()),
        ensures
            final(self).wf(),
            final(self)@ == old(self)@.sent(),
            final(self).rekeyed_at() == old(self).rekeyed_at(),
            final(self).offered_at() == old(self).offered_at(),
            old(self)@.sends(pkt_type, plaintext@, r@),
            primitives::nonce_drawn(session::nonce_of(r@.skip(1))),
    {
        self.encrypt_in(self.epoch, pkt_type, plaintext)
    }

    /// Encrypts one payload to be sent to the peer: as `encrypt_for_wire`, but in
    /// the epoch before the current one as long as the peer is not known to have
    /// begun the current one.
    pub fn encrypt_for_peer(&mut self, pkt_type: u8, plaintext: &[u8]) -> (r: Vec<u8>)
        requires
            old(self).wf(),
            old(self)@.can_send_in(old(self)@.outgoing(), plaintext@.len()),
        ensures
            final(self).wf(),
            final(self)@ == old(self)@.sent_in(old(self)@.outgoing()),
            final(self).rekeyed_at() == old(self).rekeyed_at(),
            final(self).offered_at() == old(self).offered_at(),
            old(self)@.sends_in(old(self)@.outgoing(), pkt_type, plaintext@, r@),
            primitives::nonce_drawn(session::nonce_of(r@.skip(1))),
    {
        proof {
            lemma_outgoing(self@);
        }
        let epoch: u8 = self.outgoing_epoch();
        self.encrypt_in(epoch, pkt_type, plaintext)
    }

    /// Encrypts one payload in an epoch that has a session.
    fn encrypt_in(&mut self, epoch: u8, pkt_type: u8, plaintext: &[u8]) -> (r: Vec<u8>)
        requires
            old(self).wf(),
            old(self)@.sessions.contains_key(epoch),
            old(self)@.can_send_in(epoch, plaintext@.len()),
        ensures
            final(self).wf(),
            final(self)@ == old(self)@.sent_in(epoch),
            final(self).rekeyed_at() == old(self).rekeyed_at(),
            final(self).offered_at() == old(self).offered_at(),
            old(self)@.sends_in(epoch, pkt_type, plaintext@, r@),
            primitives::nonce_drawn(session::nonce_of(r@.skip(1))),
    {
        let ghost before = self@;
        let mut out: Vec<u8> = Vec::new();
        out.push(epoch);
        if let Some(mut session) = self.sessions.remove(&epoch) {
            let wire = session.encrypt(pkt_type, plaintext);
            self.sessions.insert(epoch, session);
            bytes::append(&mut out, wire.as_slice());
            assert(out@.skip(1) =~= wire@);
        }
        self.dh_ratchet.record_packet_sent();
        if let Some(mut offer) = self.pending_rekey.take() {
            if offer.packets_since < u32::MAX {
                offer.packets_since = offer.packets_since + 1;
            }
            self.pending_rekey = Some(offer);
        }
        assert(self@.sessions =~= before.sent_in(epoch).sessions);
        assert(self@ =~= before.sent_in(epoch));
        out
    }

    /// Whether `decrypt_from_wire` can be called on `framed`.
    pub fn can_decrypt(&self, framed: &[u8]) -> (r: bool)
        requires
            self.wf(),
        ensures
            r == self@.can_receive(framed@),
    {
        if framed.len() == 0 {
            return true;
        }
        match self.sessions.get(&framed[0]) {
            Some(session) => session.can_decrypt(bytes::tail(framed, 1)),
            None => true,
        }
    }

    /// Decrypts one packet with the session of the epoch that it shows: the
    /// current one or, for a while after a rekey, the one before.
    pub fn decrypt_from_wire(&mut self, framed: &[u8]) -> (r: Result<Vec<u8>, VpnError>)
        requires
            old(self).wf(),
            old(self)@.can_receive(framed@),
        ensures
            final(self).wf(),
            final(self)@ == old(self)@.received(framed@).0,
            final(self).rekeyed_at() == old(self).rekeyed_at(),
            final(self).offered_at() == old(self).offered_at(),
            match r {
                Ok(payload) => old(self)@.received(framed@).1 == Ok::<Seq<u8>, VpnError>(payload@),
                Err(e) => old(self)@.received(framed@).1 == Err::<Seq<u8>, VpnError>(e),
            },
    {
        let ghost before = self@;
        if framed.len() == 0 {
            return Err(VpnError::EmptyPacket);
        }
        let epoch: u8 = framed[0];
        let wire = bytes::tail(framed, 1);
        match self.sessions.remove(&epoch) {
            None => {
                assert(self@ =~= before);
                Err(VpnError::UnknownEpoch { epoch })
            },
            Some(mut session) => {
                let result = session.decrypt(wire);
                proof {
                    session.lemma_wf();
                }
                self.sessions.insert(epoch, session);
                if result.is_ok() && epoch == self.epoch {
                    self.confirmed = true;
                }
                assert(self@.sessions =~= before.received(framed@).0.sessions);
                assert(self@ =~= before.received(framed@).0);
                match result {
                    Ok(payload) => Ok(payload),
                    Err(e) => Err(VpnError::Session(e)),
                }
            },
        }
    }

    /// Whether it is time for a rekey, so many nanoseconds after the last rekey
    /// and after the open offer, if there is one.
    pub fn rekey_due(&self, since_rekey: u128, since_offer: u128) -> (r: bool)
        requires
            self.wf(),
        ensures
            r == self@.rekey_due(since_rekey, since_offer),
            self@.dh.role == Role::Responder ==> !r,
            self@.dh.role == Role::Initiator && self@.offer is None ==> r == (self@.dh.packets
                >= self@.dh.packet_threshold || since_rekey >= self@.dh.interval),
    {
        match self.role {
            Role::Responder => false,
            Role::Initiator => match &self.pending_rekey {
                None => self.dh_ratchet.rekey_due(since_rekey),
                Some(offer) => self.dh_ratchet.rekey_due(since_rekey)
                    && self.dh_ratchet.retry_due(offer.packets_since, since_offer),
            },
        }
    }

    /// Whether it is time to start a rekey, going by the times that the clock
    /// gives since the last rekey and since the open offer. Only the initiator ever
    /// starts one; the responder reacts to offers.
    pub fn should_rekey(&self) -> (r: bool)
        requires
            self.wf(),
        ensures
            exists|since_rekey: u128, since_offer: u128|
                r == #[trigger] self@.rekey_due(since_rekey, since_offer),
            self@.rekey_due(0, 0) ==> r,
            exists|since_rekey: u128, since_offer: u128|
                {
                    &&& r == #[trigger] self@.rekey_due(since_rekey, since_offer)
                    &&& primitives::clock_measured(self.rekeyed_at(), since_rekey)
                    &&& self.offered_at() matches Some(at) ==> primitives::clock_measured(
                        at,
                        since_offer,
                    )
                },
            self@.dh.role == Role::Initiator && self@.offer is None && (forall|nanos: u128|
                #[trigger]
                primitives::clock_measured(self.rekeyed_at(), nanos) ==> nanos
                    >= self@.dh.interval) ==> r,
            self@.dh.packets < self@.dh.packet_threshold && (forall|nanos: u128| #[trigger]
                primitives::clock_measured(self.rekeyed_at(), nanos) ==> nanos
                    < self@.dh.interval) ==> !r,
    {
        let since_rekey: u128 = self.dh_ratchet.nanos_since_rekey();
        assert(primitives::clock_measured(self.rekeyed_at(), since_rekey));
        let since_offer: u128 = match &self.pending_rekey {
            None => 0,
            Some(offer) => primitives::measure_clock(&offer.offered_at),
        };
        self.rekey_due(since_rekey, since_offer)
    }

    /// Initiator side: begins a rekey and returns the offer to send. An offer
    /// that was still open is given up.
    pub fn begin_rekey(&mut self) -> (r: Vec<u8>)
        requires
            old(self).wf(),
        ensures
            final(self).wf(),
            final(self).rekeyed_at() == old(self).rekeyed_at(),
            final(self)@.offer matches Some(open) && {
                &&& final(self)@ == old(self)@.offered(open.secrets)
                &&& r@ == handshake_wire::encoded_rekey_offer(open.secrets.offer())
                &&& open.secrets.sound()
                &&& primitives::x25519_drawn(open.secrets.ephemeral)
                &&& primitives::kem_drawn(open.secrets.seed)
                &&& final(self).offered_at() matches Some(at) && primitives::clock_read(at)
            },
    {
        self.begin_rekey_at(primitives::read_clock())
    }

    /// Begins a rekey, as `begin_rekey` does, at a given clock reading.
    pub fn begin_rekey_at(&mut self, now: Instant) -> (r: Vec<u8>)
        requires
            old(self).wf(),
        ensures
            final(self).wf(),
            final(self).rekeyed_at() == old(self).rekeyed_at(),
            final(self).offered_at() == Some(now),
            final(self)@.offer matches Some(open) && {
                &&& final(self)@ == old(self)@.offered(open.secrets)
                &&& r@ == handshake_wire::encoded_rekey_offer(open.secrets.offer())
                &&& open.secrets.sound()
                &&& primitives::x25519_drawn(open.secrets.ephemeral)
                &&& primitives::kem_drawn(open.secrets.seed)
            },
    {
        let ghost before = self@;
        let (offer, pending) = self.dh_ratchet.begin_rekey_as_initiator();
        let ghost secrets = pending@;
        let wire = handshake_wire::encode_rekey_offer(&offer);
        let kept: Vec<u8> = vstd::slice::slice_to_vec(wire.as_slice());
        self.pending_rekey = Some(
            OpenOffer { pending, wire: kept, packets_since: 0, offered_at: now },
        );
        assert(self@ =~= before.offered(secrets));
        wire
    }

    /// Initiator side: the offer to send now that a rekey is due. It is the open
    /// offer again, if there is one, and a new one otherwise.
    pub fn offer_rekey(&mut self) -> (r: Vec<u8>)
        requires
            old(self).wf(),
        ensures
            final(self).wf(),
            final(self).rekeyed_at() == old(self).rekeyed_at(),
            final(self)@.offer matches Some(open) && {
                &&& final(self)@ == old(self)@.offered(open.secrets)
                &&& r@ == handshake_wire::encoded_rekey_offer(open.secrets.offer())
                &&& open.secrets.sound()
                &&& old(self)@.offer matches Some(before) ==> open.secrets == before.secrets
                &&& old(self)@.offer is None ==> primitives::x25519_drawn(open.secrets.ephemeral)
                    && primitives::kem_drawn(open.secrets.seed)
                &&& final(self).offered_at() matches Some(at) && primitives::clock_read(at)
            },
    {
        self.offer_rekey_at(primitives::read_clock())
    }

    /// The offer to send, as `offer_rekey` gives it, at a given clock reading,
    /// from which the wait for the answer counts anew.
    pub fn offer_rekey_at(&mut self, now: Instant) -> (r: Vec<u8>)
        requires
            old(self).wf(),
        ensures
            final(self).wf(),
            final(self).rekeyed_at() == old(self).rekeyed_at(),
            final(self).offered_at() == Some(now),
            final(self)@.offer matches Some(open) && {
                &&& final(self)@ == old(self)@.offered(open.secrets)
                &&& r@ == handshake_wire::encoded_rekey_offer(open.secrets.offer())
                &&& open.secrets.sound()
                &&& old(self)@.offer matches Some(before) ==> open.secrets == before.secrets
                &&& old(self)@.offer is None ==> primitives::x25519_drawn(open.secrets.ephemeral)
                    && primitives::kem_drawn(open.secrets.seed)
            },
    {
        let ghost before = self@;
        match self.pending_rekey.take() {
            None => {
                assert(self@ =~= before);
                self.begin_rekey_at(now)
            },
            Some(mut offer) => {
                let wire: Vec<u8> = vstd::slice::slice_to_vec(offer.wire.as_slice());
                offer.packets_since = 0;
                offer.offered_at = now;
                self.pending_rekey = Some(offer);
                assert(self@ =~= before.offered(before.offer->0.secrets));
                wire
            },
        }
    }

    /// Initiator side: processes the peer's rekey response and begins the new
    /// epoch.
    pub fn finish_rekey(&mut self, wire: &[u8]) -> (r: Result<(), VpnError>)
        requires
            old(self).wf(),
            old(self)@.dh.epoch < u64::MAX || old(self)@.refuses_response(wire@),
        ensures
            final(self).wf(),
            final(self)@ == old(self)@.rekey_finished(wire@).0,
            r is Err ==> final(self).rekeyed_at() == old(self).rekeyed_at(),
            r is Ok ==> primitives::clock_read(final(self).rekeyed_at()),
            final(self).offered_at() is None,
            r == old(self)@.rekey_finished(wire@).1,
    {
        let ghost before = self@;
        let pending = match self.pending_rekey.take() {
            Some(offer) => offer.pending,
            None => {
                assert(self@ =~= before);
                return Err(VpnError::NoRekeyInProgress);
            },
        };
        let ghost closed = VpnView { offer: None, ..before };
        assert(self@ =~= closed);
        let response = match handshake_wire::decode_rekey_response(wire) {
            Ok(response) => response,
            Err(e) => {
                return Err(VpnError::Wire(e));
            },
        };
        match self.dh_ratchet.finish_rekey_as_initiator(pending, response) {
            Ok((send, recv)) => {
                let ghost dh = self.dh_ratchet@;
                self.install_new_epoch(send, recv);
                assert(self@ =~= closed.installed(dh, send@, recv@));
                self.accepted = Some(vstd::slice::slice_to_vec(wire));
                self.confirmed = true;
                assert(self@ =~= before.rekey_finished(wire@).0);
                Ok(())
            },
            Err(e) => {
                assert(self@ =~= closed);
                Err(VpnError::Rekey(e))
            },
        }
    }

    /// Responder side: processes a rekey offer, begins the new epoch, and
    /// returns the response to send.
    pub fn respond_to_rekey(&mut self, wire: &[u8]) -> (r: Result<Vec<u8>, VpnError>)
        requires
            old(self).wf(),
            old(self)@.dh.epoch < u64::MAX || VpnView::offer_checked(wire@) is Err,
        ensures
            final(self).wf(),
            match r {
                Ok(response) => {
                    &&& old(self)@.replies(wire@, final(self)@, response@)
                    &&& primitives::clock_read(final(self).rekeyed_at())
                    &&& exists|offer: dh_ratchet::OfferView, answer: Answer| #[trigger]
                        old(self)@.answers(offer, answer, final(self)@) && response@
                            == handshake_wire::encoded_rekey_response(answer.response)
                            && primitives::x25519_drawn(answer.ephemeral)
                },
                Err(e) => {
                    &&& VpnView::offer_checked(wire@) == Err::<dh_ratchet::OfferView, VpnError>(e)
                    &&& final(self)@ == old(self)@
                    &&& final(self).rekeyed_at() == old(self).rekeyed_at()
                },
            },
            final(self).offered_at() == old(self).offered_at(),
    {
        let ghost before = self@;
        let offer = match handshake_wire::decode_rekey_offer(wire) {
            Ok(offer) => offer,
            Err(e) => {
                return Err(VpnError::Wire(e));
            },
        };
        let ghost offered = offer@;
        match self.dh_ratchet.respond_to_rekey(offer) {
            Ok((response, send, recv)) => {
                let ghost dh = self.dh_ratchet@;
                let ghost answer = choose|answer: Answer| #[trigger]
                    answer.given(before.dh, offered, dh) && answer.response == response@
                        && answer.send == send@ && answer.recv == recv@
                        && primitives::x25519_drawn(answer.ephemeral)
                        && primitives::kem_encapsulated(
                        offered.kem_ek,
                        response@.kem_ciphertext,
                        answer.kem_secret,
                    );
                self.install_new_epoch(send, recv);
                assert(self@ =~= before.installed(dh, send@, recv@));
                let wire2 = handshake_wire::encode_rekey_response(&response);
                self.answered = Some(
                    (
                        vstd::slice::slice_to_vec(wire),
                        vstd::slice::slice_to_vec(wire2.as_slice()),
                    ),
                );
                self.confirmed = false;
                assert(self@ =~= (VpnView {
                    answered: Some((wire@, wire2@)),
                    confirmed: false,
                    ..before.installed(dh, send@, recv@)
                }));
                assert(before.answers(offered, answer, self@));
                assert(before.replies(wire@, self@, wire2@));
                Ok(wire2)
            },
            Err(e) => {
                assert(self@ =~= before);
                Err(VpnError::Rekey(e))
            },
        }
    }

    /// Responder side: answers a rekey offer that may have come before. To the
    /// last offer that was answered the same answer is given again, and nothing
    /// changes; any other is answered as `respond_to_rekey` does.
    pub fn answer_offer(&mut self, wire: &[u8]) -> (r: Result<Vec<u8>, VpnError>)
        requires
            old(self).wf(),
            old(self)@.dh.epoch < u64::MAX || VpnView::offer_checked(wire@) is Err
                || old(self)@.repeated(wire@) is Some,
        ensures
            final(self).wf(),
            match old(self)@.repeated(wire@) {
                Some(answer) => {
                    &&& r matches Ok(response) && response@ == answer
                    &&& *final(self) == *old(self)
                },
                None => match r {
                    Ok(response) => {
                        &&& old(self)@.replies(wire@, final(self)@, response@)
                        &&& primitives::clock_read(final(self).rekeyed_at())
                    },
                    Err(e) => {
                        &&& VpnView::offer_checked(wire@) == Err::<
                            dh_ratchet::OfferView,
                            VpnError,
                        >(e)
                        &&& final(self)@ == old(self)@
                        &&& final(self).rekeyed_at() == old(self).rekeyed_at()
                    },
                },
            },
            final(self).offered_at() == old(self).offered_at(),
    {
        if let Some(pair) = &self.answered {
            if bytes::same(pair.0.as_slice(), wire) {
                return Ok(vstd::slice::slice_to_vec(pair.1.as_slice()));
            }
        }
        self.respond_to_rekey(wire)
    }

    /// Whether `wire` is the last rekey response that was accepted.
    pub fn has_accepted(&self, wire: &[u8]) -> (r: bool)
        ensures
            r == (self@.accepted == Some(wire@)),
    {
        match &self.accepted {
            None => false,
            Some(response) => bytes::same(response.as_slice(), wire),
        }
    }

    /// Makes the given chains the session of a new current epoch. The session
    /// that was current stays for packets in flight; the one before it goes.
    fn install_new_epoch(&mut self, send: Ratchet, recv: Ratchet)
        requires
            old(self)@.sessions.contains_key(old(self)@.epoch),
            forall|e: u8| #[trigger]
                old(self)@.sessions.contains_key(e) ==> e == old(self)@.epoch || next_epoch(e)
                    == old(self)@.epoch,
            forall|e: u8| #[trigger]
                old(self)@.sessions.contains_key(e) ==> old(self)@.sessions[e].valid(),
            forall|e: u8| #[trigger]
                old(self)@.sessions.contains_key(e) ==> old(self)@.sessions[e].pad_target
                    == old(self)@.pad_target,
            old(self)@.offer matches Some(open) ==> open.secrets.sound(),
            old(self).pending_rekey matches Some(open) ==> open.wire@
                == handshake_wire::encoded_rekey_offer(open.pending@.offer()),
            old(self).role == old(self).dh_ratchet@.role,
            next_epoch(old(self)@.epoch) == old(self)@.dh.epoch % 256,
            forall|e: u8| #[trigger]
                old(self).sessions@.contains_key(e) ==> old(self).sessions@[e].wf(),
        ensures
            final(self).wf(),
            final(self)@ == old(self)@.installed(old(self)@.dh, send@, recv@),
            final(self).offered_at() == old(self).offered_at(),
            final(self).rekeyed_at() == old(self).rekeyed_at(),
    {
        let ghost before = self@;
        let ghost sessions = self.sessions@;
        let new_epoch: u8 = self.epoch.wrapping_add(1);
        assert(new_epoch == next_epoch(before.epoch));
        let session = Session::from_ratchets(send, recv, self.pad_target);
        self.sessions.insert(new_epoch, session);
        let expired: u8 = self.epoch.wrapping_sub(1);
        self.epoch = new_epoch;
        self.sessions.remove(&expired);
        proof {
            assert(before.sessions.dom() =~= sessions.dom());
            assert forall|e: u8| sessions.contains_key(e) implies e == before.epoch || e
                == expired by {
                assert(before.sessions.contains_key(e));
            }
            assert(self@.sessions =~= before.installed(before.dh, send@, recv@).sessions);
            assert(self@ =~= before.installed(before.dh, send@, recv@));
        }
    }

    /// The side of the handshake that this end played.
    pub fn role(&self) -> (r: Role)
        requires
            self.wf(),
        ensures
            r == self@.dh.role,
    {
        self.role
    }

    /// The current epoch, as shown on the wire.
    pub fn epoch(&self) -> (r: u8)
        ensures
            r == self@.epoch,
    {
        self.epoch
    }

    /// How many rekeys there were.
    pub fn dh_ratchet_epoch(&self) -> (r: u64)
        ensures
            r == self@.dh.epoch,
    {
        self.dh_ratchet.epoch()
    }
}

} // verus!
