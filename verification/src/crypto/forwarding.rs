//! The decisions of the packet loop between the TUN device and the socket: how
//! a payload goes out, and what a datagram from the peer means.
//!
//! Control messages are never obfuscated; data packets may be. The content type
//! of an obfuscated packet is none of the message type tags, so that the first
//! byte tells the two apart.
//!
//! Rekey messages may be lost, and may come twice. An offer that comes again is
//! answered as before; an answer that comes again is dropped.
use vstd::prelude::*;

use crate::crypto::bytes;
use crate::crypto::dh_ratchet::{self, Role};
use crate::crypto::handshake_wire::{self, MSG_DATA, MSG_REKEY_OFFER, MSG_REKEY_RESPONSE};
use crate::crypto::obfuscation::{
    self, ObfuscationError, Obfuscator, ObfuscatorView, DTLS_CONTENT_TYPE_APPLICATION_DATA,
};
use crate::crypto::primitives;
use crate::crypto::session;
use crate::crypto::vpn_session::{self, VpnError, VpnSession, VpnView};

verus! {

/// The packet type of a forwarded IP packet.
pub const PKT_TYPE_IP: u8 = 1;

/// Why a datagram was dropped.
#[derive(Debug, Clone, Copy, PartialEq, Eq, Structural)]
pub enum DropReason {
    /// There is nothing behind the header of an obfuscated packet.
    EmptyObfuscatedBody,
    /// The header of an obfuscated packet makes no sense.
    Unwrap(ObfuscationError),
    /// A data packet was refused.
    Decrypt(VpnError),
    /// A rekey offer was refused.
    OfferRejected(VpnError),
    /// A rekey response was refused.
    ResponseRejected(VpnError),
    /// No message of this type is expected.
    UnexpectedType { msg_type: u8 },
}

/// What is to be done about a datagram.
pub enum Inbound {
    /// Hand this payload to the TUN device.
    Deliver(Vec<u8>),
    /// Send this answer to the peer.
    Reply(Vec<u8>),
    /// Nothing: a rekey was completed.
    Rekeyed,
    /// Nothing: the datagram was empty.
    Ignored,
    /// Nothing: the datagram was dropped.
    Dropped(DropReason),
}

/// What a connection puts on the wire for a payload, given its data packet.
pub open spec fn datagram(obfuscator: ObfuscatorView, record_seq: u64, data: Seq<u8>) -> Seq<u8> {
    obfuscator.wrapped(seq![MSG_DATA] + data, record_seq)
}

/// The message type and the rest of a datagram, or why it is dropped. An empty
/// datagram has neither.
pub open spec fn demuxed(obfuscator: ObfuscatorView, received: Seq<u8>) -> Option<
    Result<(u8, Seq<u8>), DropReason>,
> {
    if received.len() == 0 {
        None
    } else if received[0] == DTLS_CONTENT_TYPE_APPLICATION_DATA {
        match obfuscator.unwrapped(received) {
            Err(e) => Some(Err(DropReason::Unwrap(e))),
            Ok(body) => if body.len() == 0 {
                Some(Err(DropReason::EmptyObfuscatedBody))
            } else {
                Some(Ok((body[0], body.skip(1))))
            },
        }
    } else {
        Some(Ok((received[0], received.skip(1))))
    }
}

/// Whether a datagram can be looked at.
pub open spec fn can_handle(vpn: VpnView, obfuscator: ObfuscatorView, received: Seq<u8>) -> bool {
    match demuxed(obfuscator, received) {
        Some(Ok((msg_type, rest))) => if msg_type == MSG_DATA {
            vpn.can_receive(rest)
        } else if msg_type == MSG_REKEY_OFFER && vpn.dh.role == Role::Responder {
            vpn.dh.epoch < u64::MAX || VpnView::offer_checked(seq![msg_type] + rest) is Err
                || vpn.repeated(seq![msg_type] + rest) is Some
        } else if msg_type == MSG_REKEY_RESPONSE && vpn.dh.role == Role::Initiator {
            vpn.dh.epoch < u64::MAX || vpn.refuses_response(seq![msg_type] + rest)
                || vpn.accepted == Some(seq![msg_type] + rest)
        } else {
            true
        },
        _ => true,
    }
}

/// Whether `after` and `outcome` are what a message of type `msg_type` with the
/// bytes `rest` leads to.
pub open spec fn handled(
    before: VpnView,
    msg_type: u8,
    rest: Seq<u8>,
    after: VpnView,
    outcome: Inbound,
) -> bool {
    let full = seq![msg_type] + rest;
    if msg_type == MSG_DATA {
        &&& after == before.received(rest).0
        &&& match before.received(rest).1 {
            Ok(payload) => outcome matches Inbound::Deliver(out) && out@ == payload,
            Err(e) => outcome == Inbound::Dropped(DropReason::Decrypt(e)),
        }
    } else if msg_type == MSG_REKEY_OFFER && before.dh.role == Role::Responder {
        match before.repeated(full) {
            Some(answer) => {
                &&& after == before
                &&& outcome matches Inbound::Reply(out) && out@ == answer
            },
            None => match VpnView::offer_checked(full) {
                Ok(_) => outcome matches Inbound::Reply(out) && before.replies(full, after, out@),
                Err(e) => after == before && outcome == Inbound::Dropped(
                    DropReason::OfferRejected(e),
                ),
            },
        }
    } else if msg_type == MSG_REKEY_RESPONSE && before.dh.role == Role::Initiator
        && before.accepted == Some(full) {
        after == before && outcome == Inbound::Dropped(
            DropReason::ResponseRejected(VpnError::NoRekeyInProgress),
        )
    } else if msg_type == MSG_REKEY_RESPONSE && before.dh.role == Role::Initiator {
        &&& after == before.rekey_finished(full).0
        &&& match before.rekey_finished(full).1 {
            Ok(_) => outcome is Rekeyed,
            Err(e) => outcome == Inbound::Dropped(DropReason::ResponseRejected(e)),
        }
    } else {
        after == before && outcome == Inbound::Dropped(DropReason::UnexpectedType { msg_type })
    }
}

/// Neither a control message nor an unobfuscated data packet is ever taken for
/// an obfuscated one, whether or not obfuscation is on.
pub proof fn law_tags_never_collide_with_dtls(
    obfuscator: ObfuscatorView,
    msg_type: u8,
    rest: Seq<u8>,
)
    requires
        handshake_wire::MSG_HELLO <= msg_type <= MSG_DATA,
    ensures
        msg_type != DTLS_CONTENT_TYPE_APPLICATION_DATA,
        PKT_TYPE_IP == 1,
        demuxed(obfuscator, seq![msg_type] + rest) == Some(
            Ok::<(u8, Seq<u8>), DropReason>((msg_type, rest)),
        ),
{
    assert((seq![msg_type] + rest).skip(1) =~= rest);
}

/// A data packet comes out of its datagram, whether obfuscation is on or off,
/// as long as both ends agree on that and an obfuscated packet fits the length
/// field.
pub proof fn law_data_comes_out(
    sender: ObfuscatorView,
    receiver: ObfuscatorView,
    record_seq: u64,
    data: Seq<u8>,
)
    requires
        sender.enabled == receiver.enabled,
        sender.enabled ==> data.len() + 1 < 65536,
    ensures
        demuxed(receiver, datagram(sender, record_seq, data)) == Some(
            Ok::<(u8, Seq<u8>), DropReason>((MSG_DATA, data)),
        ),
{
    let outer = seq![MSG_DATA] + data;
    assert(outer.skip(1) =~= data);
    obfuscation::law_unwrap_after_wrap(sender, receiver, outer, record_seq);
    if sender.enabled {
        obfuscation::law_wrapped_looks_like_dtls(sender, outer, record_seq);
    }
}

/// A payload that goes in at one end of a link comes out at the other: if the
/// receiver hears the sender in the epoch in which it sends, it delivers the
/// payload of the datagram that the sender makes of it, and hears it again.
pub proof fn law_payload_crosses_the_link(
    sender: VpnView,
    receiver: VpnView,
    sender_obfuscator: ObfuscatorView,
    receiver_obfuscator: ObfuscatorView,
    record_seq: u64,
    payload: Seq<u8>,
    data: Seq<u8>,
    after: VpnView,
    outcome: Inbound,
)
    requires
        receiver.valid(),
        receiver.hears(sender, sender.outgoing()),
        sender.can_send_in(sender.outgoing(), payload.len()),
        sender.sends_in(sender.outgoing(), PKT_TYPE_IP, payload, data),
        payload.len() < 65536,
        sender_obfuscator.enabled == receiver_obfuscator.enabled,
        sender_obfuscator.enabled ==> data.len() + 1 < 65536,
        demuxed(receiver_obfuscator, datagram(sender_obfuscator, record_seq, data)) matches Some(
            Ok((msg_type, rest)),
        ) ==> handled(receiver, msg_type, rest, after, outcome),
    ensures
        outcome matches Inbound::Deliver(out) && out@ == payload,
        after.hears(sender.sent_in(sender.outgoing()), sender.outgoing()),
{
    law_data_comes_out(sender_obfuscator, receiver_obfuscator, record_seq, data);
    vpn_session::law_packet_arrives_in_its_epoch(
        sender,
        receiver,
        sender.outgoing(),
        PKT_TYPE_IP,
        payload,
        data,
    );
}

/// A rekey message that comes a second time changes nothing: the last offer that
/// was answered is answered the same way, and the last answer that was accepted
/// is dropped.
pub proof fn law_repeated_rekey_messages_change_nothing(
    before: VpnView,
    msg_type: u8,
    rest: Seq<u8>,
    after: VpnView,
    outcome: Inbound,
)
    requires
        handled(before, msg_type, rest, after, outcome),
        ({
            let full = seq![msg_type] + rest;
            ||| msg_type == MSG_REKEY_OFFER && before.repeated(full) is Some
            ||| msg_type == MSG_REKEY_RESPONSE && before.accepted == Some(full)
        }),
    ensures
        after == before,
{
}

/// Nothing but authentic data is ever delivered: if a message leads to a
/// delivery, it is a data packet that the connection decrypts to just that.
pub proof fn law_only_authentic_data_is_delivered(
    before: VpnView,
    msg_type: u8,
    rest: Seq<u8>,
    after: VpnView,
    outcome: Inbound,
)
    requires
        handled(before, msg_type, rest, after, outcome),
        outcome is Deliver,
    ensures
        msg_type == MSG_DATA,
        before.received(rest).1 == Ok::<Seq<u8>, VpnError>(outcome->Deliver_0@),
{
}

/// What goes on the wire for a data packet: the packet behind its tag, wrapped with
/// the record's number if obfuscation is on.
pub proof fn law_datagram(obfuscator: ObfuscatorView, record_seq: u64, data: Seq<u8>)
    ensures
        datagram(obfuscator, record_seq, data) == obfuscator.wrapped(seq![5u8] + data, record_seq),
{
}

/// How a datagram is taken apart: an empty one is nothing. One whose first byte is
/// 23 is unwrapped first, and dropped if that fails or leaves nothing. The first
/// byte of the others, and of what was unwrapped, is the type, and the rest follows.
pub proof fn law_demultiplexing(obfuscator: ObfuscatorView, received: Seq<u8>)
    ensures
        received.len() == 0 ==> demuxed(obfuscator, received) is None,
        received.len() > 0 && received[0] != 23 ==> demuxed(obfuscator, received) == Some(
            Ok::<(u8, Seq<u8>), DropReason>((received[0], received.skip(1))),
        ),
        received.len() > 0 && received[0] == 23 ==> match obfuscator.unwrapped(received) {
            Err(e) => demuxed(obfuscator, received) == Some(
                Err::<(u8, Seq<u8>), DropReason>(DropReason::Unwrap(e)),
            ),
            Ok(body) => demuxed(obfuscator, received) == if body.len() > 0 {
                Some(Ok::<(u8, Seq<u8>), DropReason>((body[0], body.skip(1))))
            } else {
                Some(Err::<(u8, Seq<u8>), DropReason>(DropReason::EmptyObfuscatedBody))
            },
        },
{
}

/// What can be processed: everything, as long as the number of rekeys is not used
/// up, except for a data packet whose number is the very last one.
pub proof fn law_what_can_be_processed(
    vpn: VpnView,
    obfuscator: ObfuscatorView,
    received: Seq<u8>,
)
    ensures
        match demuxed(obfuscator, received) {
            Some(Ok((msg_type, rest))) => {
                &&& msg_type == 5 ==> (can_handle(vpn, obfuscator, received) <==> vpn.can_receive(
                    rest,
                ))
                &&& msg_type != 5 && vpn.dh.epoch < u64::MAX ==> can_handle(
                    vpn,
                    obfuscator,
                    received,
                )
            },
            _ => can_handle(vpn, obfuscator, received),
        },
{
}

/// What becomes of a message, by its type. Data is delivered or dropped as the
/// connection receives or refuses it. A responder answers every offer that can be
/// accepted, the last one that it answered with the same answer as before, and drops
/// the others. An initiator goes through the rekey that a response gives, and drops
/// it if there is none, or if it is the last one that it accepted. Anything else is
/// dropped, and changes nothing.
pub proof fn law_what_becomes_of_a_message(
    before: VpnView,
    msg_type: u8,
    rest: Seq<u8>,
    after: VpnView,
    outcome: Inbound,
)
    requires
        handled(before, msg_type, rest, after, outcome),
    ensures
        ({
            let full = seq![msg_type] + rest;
            let (received, delivery) = before.received(rest);
            let (finished, rekey) = before.rekey_finished(full);
            let to_responder = msg_type == 3 && before.dh.role == Role::Responder;
            let to_initiator = msg_type == 4 && before.dh.role == Role::Initiator;
            &&& msg_type == 5 ==> after == received
            &&& msg_type == 5 ==> (delivery matches Ok(payload) ==> outcome matches Inbound::Deliver(
                out,
            ) && out@ == payload)
            &&& msg_type == 5 ==> (delivery matches Err(e) ==> outcome == Inbound::Dropped(
                DropReason::Decrypt(e),
            ))
            &&& to_responder && before.repeated(full) is Some ==> after == before
            &&& to_responder ==> (before.repeated(full) matches Some(answer)
                ==> outcome matches Inbound::Reply(out) && out@ == answer)
            &&& to_responder && before.repeated(full) is None && VpnView::offer_checked(full) is Ok
                ==> (outcome matches Inbound::Reply(out) && before.replies(full, after, out@))
            &&& to_responder && before.repeated(full) is None ==> (VpnView::offer_checked(
                full,
            ) matches Err(e) ==> after == before && outcome == Inbound::Dropped(
                DropReason::OfferRejected(e),
            ))
            &&& to_initiator && before.accepted == Some(full) ==> after == before && outcome
                == Inbound::Dropped(DropReason::ResponseRejected(VpnError::NoRekeyInProgress))
            &&& to_initiator && before.accepted != Some(full) ==> after == finished
            &&& to_initiator && before.accepted != Some(full) && rekey is Ok ==> outcome is Rekeyed
            &&& to_initiator && before.accepted != Some(full) ==> (rekey matches Err(e) ==> outcome
                == Inbound::Dropped(DropReason::ResponseRejected(e)))
            &&& msg_type != 5 && !to_responder && !to_initiator ==> after == before && outcome
                == Inbound::Dropped(DropReason::UnexpectedType { msg_type })
        }),
{
}

/// A responder answers offers in every epoch: whatever the number of rekeys so far,
/// a datagram that holds an offer which can be accepted, and which is not the last
/// one answered, gets a reply, and the responder begins the next epoch with it. The
/// same offer then gets the same reply again.
pub proof fn law_offer_is_answered_in_every_epoch(
    before: VpnView,
    obfuscator: ObfuscatorView,
    received: Seq<u8>,
    wire: Seq<u8>,
    offer: dh_ratchet::OfferView,
    after: VpnView,
    outcome: Inbound,
)
    requires
        before.dh.role == Role::Responder,
        before.dh.epoch < u64::MAX,
        wire.len() > 0,
        wire[0] == 3,
        demuxed(obfuscator, received) == Some(
            Ok::<(u8, Seq<u8>), DropReason>((wire[0], wire.skip(1))),
        ),
        VpnView::offer_checked(wire) == Ok::<dh_ratchet::OfferView, VpnError>(offer),
        before.repeated(wire) is None,
        handled(before, wire[0], wire.skip(1), after, outcome),
    ensures
        can_handle(before, obfuscator, received),
        outcome matches Inbound::Reply(out) && before.replies(wire, after, out@)
            && after.repeated(wire) == Some(out@),
        after.epoch == (before.epoch + 1) % 256,
        after.dh.epoch == before.dh.epoch + 1,
{
    assert(wire =~= seq![wire[0]] + wire.skip(1));
    match outcome {
        Inbound::Reply(out) => {
            vpn_session::law_reply_begins_the_next_epoch(before, wire, offer, after, out@);
        },
        _ => {},
    }
}

/// A control message is taken apart into its tag and the rest.
proof fn lemma_type_and_rest(obfuscator: ObfuscatorView, wire: Seq<u8>, msg_type: u8) -> (rest: Seq<
    u8,
>)
    requires
        wire.len() > 0,
        wire[0] == msg_type,
        handshake_wire::MSG_HELLO <= msg_type <= MSG_DATA,
    ensures
        rest == wire.skip(1),
        wire == seq![msg_type] + rest,
        demuxed(obfuscator, wire) == Some(Ok::<(u8, Seq<u8>), DropReason>((msg_type, rest))),
{
    assert(wire =~= seq![msg_type] + wire.skip(1));
    law_tags_never_collide_with_dtls(obfuscator, msg_type, wire.skip(1));
    wire.skip(1)
}

/// A rekey goes through over the wire, in every epoch: the responder replies to the
/// offer of the initiator that it is linked with, the initiator completes the rekey
/// with that reply, and the two are linked in the next epoch, each receiving what the
/// other sends. This holds whenever the KEM recovers what is encapsulated, and the
/// reply is not the very one that completed the rekey before.
pub proof fn law_rekey_over_the_wire(
    initiator: VpnView,
    responder: VpnView,
    secrets: dh_ratchet::PendingView,
    to_responder: ObfuscatorView,
    responder_after: VpnView,
    reply: Inbound,
    to_initiator: ObfuscatorView,
    initiator_after: VpnView,
    outcome: Inbound,
)
    requires
        initiator.linked(responder),
        initiator.dh.role == Role::Initiator,
        initiator.offer matches Some(open) && open.secrets == secrets,
        secrets.sound(),
        responder.dh.epoch < u64::MAX,
        initiator.dh.epoch < u64::MAX,
        responder.repeated(handshake_wire::encoded_rekey_offer(secrets.offer())) is None,
        forall|ct: Seq<u8>, shared: Seq<u8>| #[trigger]
            primitives::kem_encapsulated(secrets.offer().kem_ek, ct, shared)
                ==> primitives::kem_decaps(secrets.seed, ct) == shared,
        demuxed(to_responder, handshake_wire::encoded_rekey_offer(secrets.offer())) matches Some(
            Ok((msg_type, rest)),
        ) ==> handled(responder, msg_type, rest, responder_after, reply),
        reply matches Inbound::Reply(out) ==> {
            &&& initiator.accepted != Some(out@)
            &&& demuxed(to_initiator, out@) matches Some(Ok((msg_type, rest))) ==> handled(
                initiator,
                msg_type,
                rest,
                initiator_after,
                outcome,
            )
        },
    ensures
        reply is Reply,
        outcome is Rekeyed,
        initiator_after.linked(responder_after),
        initiator_after.epoch == (initiator.epoch + 1) % 256,
        initiator_after.current().caught_up(responder_after.current()),
        responder_after.current().caught_up(initiator_after.current()),
{
    let offer = secrets.offer();
    let wire = handshake_wire::encoded_rekey_offer(offer);
    vpn_session::law_offer_is_accepted(offer);
    let _ = lemma_type_and_rest(to_responder, wire, MSG_REKEY_OFFER);
    law_offer_is_answered_in_every_epoch(
        responder,
        to_responder,
        wire,
        wire,
        offer,
        responder_after,
        reply,
    );
    let out = reply->Reply_0@;
    let (_, answer) = choose|checked: dh_ratchet::OfferView, answer: dh_ratchet::Answer|
        VpnView::offer_checked(wire) == Ok::<dh_ratchet::OfferView, VpnError>(checked)
            && #[trigger] responder.answers(checked, answer, responder_after) && out
            == handshake_wire::encoded_rekey_response(answer.response) && responder_after.answered
            == Some((wire, out));
    assert(responder.answers(offer, answer, responder_after));
    let _ = lemma_type_and_rest(to_initiator, out, MSG_REKEY_RESPONSE);
    vpn_session::law_rekey_links(initiator, responder, secrets, answer, responder_after);
}

/// Encrypts a payload and makes the datagram to send; the flag says whether a
/// rekey is to be begun now.
pub fn outbound(
    session: &mut VpnSession,
    obfuscator: &Obfuscator,
    record_seq: u64,
    payload: &[u8],
) -> (r: (Vec<u8>, bool))
    requires
        old(session).wf(),
        old(session)@.can_send_in(old(session)@.outgoing(), payload@.len()),
    ensures
        final(session).wf(),
        final(session)@ == old(session)@.sent_in(old(session)@.outgoing()),
        final(session).rekeyed_at() == old(session).rekeyed_at(),
        final(session).offered_at() == old(session).offered_at(),
        exists|data: Seq<u8>|
            #[trigger] old(session)@.sends_in(
                old(session)@.outgoing(),
                PKT_TYPE_IP,
                payload@,
                data,
            ) && r.0@ == datagram(obfuscator@, record_seq, data) && primitives::nonce_drawn(
                session::nonce_of(data.skip(1)),
            ),
        exists|since_rekey: u128, since_offer: u128|
            r.1 == #[trigger] final(session)@.rekey_due(since_rekey, since_offer),
        final(session)@.rekey_due(0, 0) ==> r.1,
        exists|since_rekey: u128, since_offer: u128|
            {
                &&& r.1 == #[trigger] final(session)@.rekey_due(since_rekey, since_offer)
                &&& primitives::clock_measured(final(session).rekeyed_at(), since_rekey)
                &&& final(session).offered_at() matches Some(at) ==> primitives::clock_measured(
                    at,
                    since_offer,
                )
            },
{
    let data = session.encrypt_for_peer(PKT_TYPE_IP, payload);
    assert(old(session)@.sends_in(old(session)@.outgoing(), PKT_TYPE_IP, payload@, data@));
    let mut outer: Vec<u8> = Vec::new();
    outer.push(MSG_DATA);
    bytes::append(&mut outer, data.as_slice());
    assert(outer@ =~= seq![MSG_DATA] + data@);
    let framed = obfuscator.wrap(outer.as_slice(), record_seq);
    (framed, session.should_rekey())
}

/// The message type and the rest of a datagram.
fn demux<'a>(obfuscator: &Obfuscator, received: &'a [u8]) -> (r: Option<
    Result<(u8, &'a [u8]), DropReason>,
>)
    ensures
        match r {
            None => demuxed(obfuscator@, received@) is None,
            Some(Err(e)) => demuxed(obfuscator@, received@) == Some(
                Err::<(u8, Seq<u8>), DropReason>(e),
            ),
            Some(Ok((msg_type, rest))) => demuxed(obfuscator@, received@) == Some(
                Ok::<(u8, Seq<u8>), DropReason>((msg_type, rest@)),
            ),
        },
{
    if received.len() == 0 {
        return None;
    }
    if received[0] != DTLS_CONTENT_TYPE_APPLICATION_DATA {
        return Some(Ok((received[0], bytes::tail(received, 1))));
    }
    match obfuscator.unwrap(received) {
        Err(e) => Some(Err(DropReason::Unwrap(e))),
        Ok(body) => {
            if body.len() == 0 {
                Some(Err(DropReason::EmptyObfuscatedBody))
            } else {
                Some(Ok((body[0], bytes::tail(body, 1))))
            }
        },
    }
}

/// Whether `inbound` can be called on `received` for sure: it can unless a
/// sequence number or the number of rekeys is used up.
pub fn can_process(session: &VpnSession, obfuscator: &Obfuscator, received: &[u8]) -> (r: bool)
    requires
        session.wf(),
    ensures
        r ==> can_handle(session@, obfuscator@, received@),
        match demuxed(obfuscator@, received@) {
            Some(Ok((msg_type, rest))) => r == if msg_type == MSG_DATA {
                session@.can_receive(rest)
            } else {
                session@.dh.epoch < u64::MAX
            },
            _ => r,
        },
        session@.dh.epoch < u64::MAX ==> r == can_handle(session@, obfuscator@, received@),
{
    match demux(obfuscator, received) {
        Some(Ok((msg_type, rest))) => {
            if msg_type == MSG_DATA {
                session.can_decrypt(rest)
            } else {
                session.dh_ratchet_epoch() < u64::MAX
            }
        },
        _ => true,
    }
}

/// Processes a datagram from the peer. A datagram that is dropped never leads
/// to anything being delivered.
pub fn inbound(session: &mut VpnSession, obfuscator: &Obfuscator, received: &[u8]) -> (r: Inbound)
    requires
        old(session).wf(),
        can_handle(old(session)@, obfuscator@, received@),
    ensures
        final(session).wf(),
        !(r is Reply) && !(r is Rekeyed) ==> final(session).rekeyed_at() == old(
            session,
        ).rekeyed_at(),
        match demuxed(obfuscator@, received@) {
            None => final(session)@ == old(session)@ && r is Ignored,
            Some(Err(e)) => final(session)@ == old(session)@ && r == Inbound::Dropped(e),
            Some(Ok((msg_type, rest))) => handled(
                old(session)@,
                msg_type,
                rest,
                final(session)@,
                r,
            ),
        },
        final(session)@.offer is Some ==> final(session).offered_at() == old(
            session,
        ).offered_at(),
        r is Rekeyed ==> primitives::clock_read(final(session).rekeyed_at()),
        demuxed(obfuscator@, received@) matches Some(Ok((msg_type, rest))) ==> {
            let full = seq![msg_type] + rest;
            let to_responder = msg_type == MSG_REKEY_OFFER && old(session)@.dh.role
                == Role::Responder;
            let to_initiator = msg_type == MSG_REKEY_RESPONSE && old(session)@.dh.role
                == Role::Initiator;
            &&& msg_type == MSG_DATA ==> (old(session)@.received(rest).1 matches Ok(payload)
                ==> r matches Inbound::Deliver(out) && out@ == payload)
            &&& to_responder && old(session)@.repeated(full) is None && VpnView::offer_checked(
                full,
            ) is Ok ==> {
                &&& r matches Inbound::Reply(out) && old(session)@.replies(
                    full,
                    final(session)@,
                    out@,
                )
                &&& final(session)@.epoch == (old(session)@.epoch + 1) % 256
                &&& final(session)@.dh.epoch == old(session)@.dh.epoch + 1
                &&& primitives::clock_read(final(session).rekeyed_at())
            }
            &&& to_responder ==> (old(session)@.repeated(full) matches Some(answer)
                ==> r matches Inbound::Reply(out) && out@ == answer && final(session)@ == old(
                session,
            )@ && final(session).rekeyed_at() == old(session).rekeyed_at())
            &&& to_initiator && old(session)@.accepted != Some(full) && old(
                session,
            )@.rekey_finished(full).1 is Ok ==> {
                &&& r is Rekeyed
                &&& final(session)@ == old(session)@.rekey_finished(full).0
            }
        },
{
    let (msg_type, rest) = match demux(obfuscator, received) {
        None => {
            return Inbound::Ignored;
        },
        Some(Err(e)) => {
            return Inbound::Dropped(e);
        },
        Some(Ok(pair)) => pair,
    };
    if msg_type == MSG_DATA {
        return match session.decrypt_from_wire(rest) {
            Ok(payload) => Inbound::Deliver(payload),
            Err(e) => Inbound::Dropped(DropReason::Decrypt(e)),
        };
    }
    let role = session.role();
    let mut full: Vec<u8> = Vec::new();
    full.push(msg_type);
    bytes::append(&mut full, rest);
    assert(full@ =~= seq![msg_type] + rest@);
    if msg_type == MSG_REKEY_OFFER && role == Role::Responder {
        match session.answer_offer(full.as_slice()) {
            Ok(response) => Inbound::Reply(response),
            Err(e) => Inbound::Dropped(DropReason::OfferRejected(e)),
        }
    } else if msg_type == MSG_REKEY_RESPONSE && role == Role::Initiator {
        if session.has_accepted(full.as_slice()) {
            return Inbound::Dropped(DropReason::ResponseRejected(VpnError::NoRekeyInProgress));
        }
        match session.finish_rekey(full.as_slice()) {
            Ok(_) => Inbound::Rekeyed,
            Err(e) => Inbound::Dropped(DropReason::ResponseRejected(e)),
        }
    } else {
        Inbound::Dropped(DropReason::UnexpectedType { msg_type })
    }
}

} // verus!
