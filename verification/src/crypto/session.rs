//! Transport session: a pair of symmetric ratchets that encrypts each packet
//! under a key of its own, with constant-size padding before encryption and a
//! sliding replay window on decryption.
//!
//! The wire format is `packet type (1) | sequence number (8, LE) | nonce (24) |
//! ciphertext`. The packet type and the sequence number are associated data:
//! they are authenticated but not encrypted, since the packet's key depends on
//! its number.
use vstd::arithmetic::power;
use vstd::prelude::*;

use crate::crypto::bytes;
use crate::crypto::noise::TransportKeys;
use crate::crypto::padding::{self, PadError, DEFAULT_PAD_TARGET};
use crate::crypto::primitives;
use crate::crypto::ratchet::{self, ChainView, Ratchet, ReceivingChain};
use crate::crypto::replay::{self, ReplayWindow, WindowView, WINDOW_SIZE};

verus! {

/// How far ahead of the last consumed number the receiving chain derives and
/// holds keys, to tolerate reordering. It matches the size of the replay window.
pub const MAX_SKIP: u64 = WINDOW_SIZE;

/// Bytes in front of the ciphertext.
pub const PACKET_HEADER_LEN: usize = 33;

/// Why a packet was refused.
#[derive(Debug, Clone, Copy, PartialEq, Eq, Structural)]
pub enum SessionError {
    /// There is no room for the header.
    TooShort,
    /// The sequence number was seen before, or is behind the replay window.
    Replayed { seq: u64 },
    /// The sequence number is too far ahead, or its key is gone.
    OutOfRange { seq: u64 },
    /// The packet does not authenticate.
    DecryptionFailed,
    /// The packet authenticates, but its padding makes no sense.
    BadPadding(PadError),
}

pub struct Session {
    send_chain: Ratchet,
    recv_chain: ReceivingChain,
    replay_window: ReplayWindow,
    send_seq: u64,
    pad_target: usize,
    send_seed: Ghost<Seq<u8>>,
}

/// What a session stands for: the chain it sends on and how many packets it
/// has sent, the chain it receives on, and the numbers it has seen.
#[verifier::ext_equal]
pub struct SessionView {
    pub send_seed: Seq<u8>,
    pub send_seq: u64,
    pub recv: ChainView,
    pub window: WindowView,
    pub pad_target: usize,
}

impl View for Session {
    type V = SessionView;

    closed spec fn view(&self) -> SessionView {
        SessionView {
            send_seed: self.send_seed@,
            send_seq: self.send_seq,
            recv: self.recv_chain@,
            window: self.replay_window@,
            pad_target: self.pad_target,
        }
    }
}

/// The associated data of a packet.
pub open spec fn associated_data(pkt_type: u8, seq: u64) -> Seq<u8> {
    seq![pkt_type] + bytes::le_bytes(seq as nat, 8)
}

/// The sequence number that a packet shows.
pub open spec fn seq_of(wire: Seq<u8>) -> u64 {
    bytes::le_value(wire.subrange(1, 9)) as u64
}

/// The nonce that a packet shows.
pub open spec fn nonce_of(wire: Seq<u8>) -> Seq<u8> {
    wire.subrange(9, 33)
}

/// Packet `seq` of the chain that starts at `seed`, with a given nonce.
pub open spec fn packet(
    seed: Seq<u8>,
    seq: u64,
    pkt_type: u8,
    plaintext: Seq<u8>,
    pad_target: usize,
    nonce: Seq<u8>,
) -> Seq<u8> {
    associated_data(pkt_type, seq) + nonce + primitives::xchacha_seal(
        ratchet::key_at(seed, seq as nat),
        nonce,
        associated_data(pkt_type, seq),
        padding::padded(plaintext, pad_target as nat),
    )
}

/// Whether `wire` is packet `seq` of the chain that starts at `seed`, with
/// whatever nonce it shows; it then has its size, and decrypts.
pub open spec fn packet_of(
    seed: Seq<u8>,
    seq: u64,
    pkt_type: u8,
    plaintext: Seq<u8>,
    pad_target: usize,
    wire: Seq<u8>,
) -> bool {
    &&& wire == packet(seed, seq, pkt_type, plaintext, pad_target, nonce_of(wire))
    &&& wire.len() == PACKET_HEADER_LEN + padding::padded_len(plaintext.len(), pad_target as nat)
        + primitives::TAG_LEN
    &&& primitives::openable(wire.skip(PACKET_HEADER_LEN as int).len())
    &&& primitives::xchacha_open(
        ratchet::key_at(seed, seq as nat),
        nonce_of(wire),
        associated_data(pkt_type, seq),
        wire.skip(PACKET_HEADER_LEN as int),
    ) == Some(padding::padded(plaintext, pad_target as nat))
}

impl SessionView {
    /// A session that has neither sent nor received anything.
    pub open spec fn fresh(send_seed: Seq<u8>, recv_seed: Seq<u8>, pad_target: usize) -> SessionView {
        SessionView {
            send_seed,
            send_seq: 0,
            recv: ChainView { seed: recv_seed, next: 0, held: Set::empty(), max_skip: MAX_SKIP },
            window: WindowView::empty(),
            pad_target,
        }
    }

    /// Whether a payload of `len` bytes can be sent: there is a sequence number
    /// left, and the packet is within the limits of the AEAD and of memory.
    pub open spec fn can_send(self, len: nat) -> bool {
        &&& self.send_seq < u64::MAX
        &&& padding::padded_len(len, self.pad_target as nat) <= primitives::AEAD_LIMIT
        &&& padding::padded_len(len, self.pad_target as nat) + PACKET_HEADER_LEN
            + primitives::TAG_LEN <= isize::MAX
    }

    /// The session after it sent a packet.
    pub open spec fn sent(self) -> SessionView {
        SessionView { send_seq: (self.send_seq + 1) as u64, ..self }
    }

    /// Whether a packet can be looked at: every packet can, except for one that
    /// would use up the very last sequence number.
    pub open spec fn can_receive(self, wire: Seq<u8>) -> bool {
        wire.len() >= PACKET_HEADER_LEN && self.window.accepts(seq_of(wire)) && self.recv.available(
            seq_of(wire),
        ) ==> seq_of(wire) < u64::MAX
    }

    /// What a packet decrypts to under the key of its number.
    pub open spec fn opened(self, wire: Seq<u8>) -> Option<Seq<u8>> {
        let ciphertext = wire.skip(PACKET_HEADER_LEN as int);
        if primitives::openable(ciphertext.len()) {
            primitives::xchacha_open(
                ratchet::key_at(self.recv.seed, seq_of(wire) as nat),
                nonce_of(wire),
                associated_data(wire[0], seq_of(wire)),
                ciphertext,
            )
        } else {
            None
        }
    }

    /// The session after it received a packet, and the payload or the reason
    /// why the packet is refused.
    pub open spec fn received(self, wire: Seq<u8>) -> (SessionView, Result<
        Seq<u8>,
        SessionError,
    >) {
        let seq = seq_of(wire);
        if wire.len() < PACKET_HEADER_LEN {
            (self, Err(SessionError::TooShort))
        } else if !self.window.accepts(seq) {
            (self, Err(SessionError::Replayed { seq }))
        } else if !self.recv.available(seq) {
            (self, Err(SessionError::OutOfRange { seq }))
        } else {
            let tried = SessionView { recv: self.recv.after(seq), ..self };
            match self.opened(wire) {
                None => (tried, Err(SessionError::DecryptionFailed)),
                Some(padded) => tried.delivered(seq, padded),
            }
        }
    }

    /// The session after a packet has been authenticated, and the payload of
    /// what it decrypted to.
    pub open spec fn delivered(self, seq: u64, padded: Seq<u8>) -> (SessionView, Result<
        Seq<u8>,
        SessionError,
    >) {
        (
            SessionView { window: self.window.commit(seq), ..self },
            match padding::unpadded(padded) {
                Ok(payload) => Ok(payload),
                Err(e) => Err(SessionError::BadPadding(e)),
            },
        )
    }

    /// The session after it received a whole series of packets.
    pub open spec fn received_all(self, wires: Seq<Seq<u8>>) -> SessionView
        decreases wires.len(),
    {
        if wires.len() == 0 {
            self
        } else {
            self.received_all(wires.drop_last()).received(wires.last()).0
        }
    }

    /// Whether this session receives what `peer` sends, and stands at the
    /// packet that `peer` sends next.
    pub open spec fn caught_up(self, peer: SessionView) -> bool {
        &&& self.recv.seed == peer.send_seed
        &&& self.recv.next == peer.send_seq
    }

    /// What holds of every session: its receiving chain is a valid one with the
    /// session's skip limit, and the window has only seen numbers that the
    /// chain has passed.
    pub open spec fn valid(self) -> bool {
        &&& self.recv.valid()
        &&& self.recv.max_skip == MAX_SKIP
        &&& match self.window.highest {
            None => true,
            Some(highest) => highest < self.recv.next,
        }
        &&& forall|s: u64| self.window.seen.contains(s) ==> s < self.recv.next
    }
}

/// A session is valid from the start and stays so, whatever arrives and
/// whatever is sent.
pub proof fn law_sessions_stay_valid(before: SessionView, wire: Seq<u8>)
    requires
        before.valid(),
        before.can_receive(wire),
    ensures
        before.received(wire).0.valid(),
        before.sent().valid(),
        SessionView::fresh(before.send_seed, before.recv.seed, before.pad_target).valid(),
{
    if wire.len() >= PACKET_HEADER_LEN && before.window.accepts(seq_of(wire))
        && before.recv.available(seq_of(wire)) {
        ratchet::law_chain_stays_valid(before.recv, seq_of(wire));
    }
}

proof fn lemma_packet_parts(
    seed: Seq<u8>,
    seq: u64,
    pkt_type: u8,
    plaintext: Seq<u8>,
    pad_target: usize,
    wire: Seq<u8>,
)
    requires
        packet_of(seed, seq, pkt_type, plaintext, pad_target, wire),
    ensures
        wire.len() >= PACKET_HEADER_LEN,
        wire[0] == pkt_type,
        seq_of(wire) == seq,
{
    bytes::lemma_le_bytes_len(seq as nat, 8);
    assert(wire.subrange(1, 9) =~= bytes::le_bytes(seq as nat, 8));
    assert(bytes::byte_range(8) == 0x1_0000_0000_0000_0000) by {
        reveal_with_fuel(bytes::byte_range, 9);
    }
    bytes::law_integer_round_trip(seq as nat, 8);
}

/// What a packet looks like: its type; its number in eight bytes, low byte first;
/// its nonce; and the padded payload, sealed under the key of its number with the
/// first nine bytes as associated data.
pub proof fn law_packet_layout(
    seed: Seq<u8>,
    seq: u64,
    pkt_type: u8,
    plaintext: Seq<u8>,
    pad_target: usize,
    wire: Seq<u8>,
    i: nat,
)
    requires
        packet_of(seed, seq, pkt_type, plaintext, pad_target, wire),
        i < 8,
    ensures
        wire.len() == 33 + padding::padded(plaintext, pad_target as nat).len() + 16,
        wire[0] == pkt_type,
        wire[1 + i as int] == (seq as int / power::pow(256, i)) % 256,
        wire.skip(33) == primitives::xchacha_seal(
            ratchet::key_at(seed, seq as nat),
            wire.subrange(9, 33),
            wire.take(9),
            padding::padded(plaintext, pad_target as nat),
        ),
        primitives::xchacha_open(
            ratchet::key_at(seed, seq as nat),
            wire.subrange(9, 33),
            wire.take(9),
            wire.skip(33),
        ) == Some(padding::padded(plaintext, pad_target as nat)),
{
    padding::law_padded_len(plaintext, pad_target as nat);
    bytes::lemma_le_bytes_len(seq as nat, 8);
    bytes::law_bytes_are_digits(seq as nat, 8, i);
    let aad = associated_data(pkt_type, seq);
    assert(aad[1 + i as int] == bytes::le_bytes(seq as nat, 8)[i as int]);
    assert(wire.take(9) =~= aad);
    assert(wire.skip(33) =~= primitives::xchacha_seal(
        ratchet::key_at(seed, seq as nat),
        nonce_of(wire),
        aad,
        padding::padded(plaintext, pad_target as nat),
    ));
}

/// What a packet shows: eight bytes after the first are the digits of its number,
/// low byte first, and the 24 after those are its nonce.
pub proof fn law_header_is_read_back(wire: Seq<u8>, i: nat)
    requires
        wire.len() >= 33,
        i < 8,
    ensures
        wire[1 + i as int] == (seq_of(wire) as int / power::pow(256, i)) % 256,
        nonce_of(wire) == wire.subrange(9, 33),
        associated_data(wire[0], seq_of(wire)) == wire.take(9),
{
    let shown = wire.subrange(1, 9);
    bytes::law_byte_round_trip(shown);
    lemma_seq_of(wire);
    bytes::law_bytes_are_digits(seq_of(wire) as nat, 8, i);
    assert(shown[i as int] == wire[1 + i as int]);
    assert(seq![wire[0]] + shown =~= wire.take(9));
}

proof fn lemma_seq_of(wire: Seq<u8>)
    requires
        wire.len() >= 9,
    ensures
        seq_of(wire) as nat == bytes::le_value(wire.subrange(1, 9)),
{
    bytes::law_byte_round_trip(wire.subrange(1, 9));
    bytes::law_bytes_are_digits(0, 8, 0);
    assert(bytes::byte_range(8) == 0x1_0000_0000_0000_0000) by {
        reveal_with_fuel(bytes::byte_range, 9);
    }
}

/// What becomes of a packet, from its bytes. Without a whole header it is refused.
/// A number that the window does not accept is refused as a replay, one whose key
/// cannot be had as out of range; neither changes anything. Otherwise the key of
/// the number is used up, and the rest of the packet is opened with it, the nonce
/// shown, and the first nine bytes. If that fails, the window does not change; if
/// not, it takes note of the number, and the payload is what the padding holds.
pub proof fn law_what_becomes_of_a_packet(receiver: SessionView, wire: Seq<u8>)
    ensures
        ({
            let seq = seq_of(wire);
            let (after, result) = receiver.received(wire);
            let opened = primitives::xchacha_open(
                ratchet::key_at(receiver.recv.seed, seq as nat),
                wire.subrange(9, 33),
                wire.take(9),
                wire.skip(33),
            );
            let openable = wire.len() - 33 <= 274_877_906_832;
            &&& after.send_seed == receiver.send_seed
            &&& after.send_seq == receiver.send_seq
            &&& after.pad_target == receiver.pad_target
            &&& wire.len() < 33 ==> after == receiver && result == Err::<Seq<u8>, SessionError>(
                SessionError::TooShort,
            )
            &&& wire.len() >= 33 && !receiver.window.accepts(seq) ==> after == receiver && result
                == Err::<Seq<u8>, SessionError>(SessionError::Replayed { seq })
            &&& wire.len() >= 33 && receiver.window.accepts(seq) && !receiver.recv.available(seq)
                ==> after == receiver && result == Err::<Seq<u8>, SessionError>(
                SessionError::OutOfRange { seq },
            )
            &&& wire.len() >= 33 && receiver.window.accepts(seq) && receiver.recv.available(seq)
                ==> {
                &&& after.recv == receiver.recv.after(seq)
                &&& !openable || opened is None ==> after.window == receiver.window && result
                    == Err::<Seq<u8>, SessionError>(SessionError::DecryptionFailed)
                &&& openable && opened is Some ==> {
                    &&& after.window == receiver.window.commit(seq)
                    &&& match padding::unpadded(opened->0) {
                        Ok(payload) => result == Ok::<Seq<u8>, SessionError>(payload),
                        Err(e) => result == Err::<Seq<u8>, SessionError>(
                            SessionError::BadPadding(e),
                        ),
                    }
                }
            }
        }),
{
    if wire.len() >= 33 {
        law_header_is_read_back(wire, 0);
    }
}

/// What can be sent, in numbers: anything, as long as there is a sequence number
/// left, the padded payload is within the AEAD's limit, and the packet fits into
/// memory. Sending uses up one number and changes nothing else.
pub proof fn law_what_can_be_sent(sender: SessionView, len: nat)
    ensures
        sender.can_send(len) <==> {
            let size = if len + 2 > sender.pad_target {
                len + 2
            } else {
                sender.pad_target as nat
            };
            sender.send_seq < u64::MAX && size <= 274_877_906_816 && 33 + size + 16
                <= isize::MAX
        },
        sender.send_seq < u64::MAX ==> sender.sent().send_seq == sender.send_seq + 1,
        sender.sent() == (SessionView { send_seq: sender.sent().send_seq, ..sender }),
{
}

/// Every packet can be looked at, unless its number is the very last one.
pub proof fn law_what_can_be_received(receiver: SessionView, wire: Seq<u8>)
    ensures
        wire.len() < 33 || seq_of(wire) < u64::MAX ==> receiver.can_receive(wire),
        wire.len() >= 33 && seq_of(wire) == u64::MAX ==> (receiver.can_receive(wire) <==> !(
        receiver.window.accepts(seq_of(wire)) && receiver.recv.available(seq_of(wire)))),
{
}

/// A packet that runs ahead is delivered: whatever number is expected next, an
/// authentic packet with that number or one less than 64 above it is
/// delivered, and the number above it is expected next.
pub proof fn law_packet_ahead_is_delivered(
    receiver: SessionView,
    seq: u64,
    pkt_type: u8,
    plaintext: Seq<u8>,
    pad_target: usize,
    wire: Seq<u8>,
)
    requires
        receiver.valid(),
        receiver.recv.next <= seq < receiver.recv.next + 64,
        seq < u64::MAX,
        packet_of(receiver.recv.seed, seq, pkt_type, plaintext, pad_target, wire),
        plaintext.len() < 65536,
    ensures
        receiver.can_receive(wire),
        receiver.received(wire).1 == Ok::<Seq<u8>, SessionError>(plaintext),
        receiver.received(wire).0.recv.next == seq + 1,
        receiver.received(wire).0.valid(),
{
    ratchet::law_chain_reach(receiver.recv, seq);
    law_decrypt_after_encrypt(receiver, seq, pkt_type, plaintext, pad_target, wire);
    lemma_packet_parts(receiver.recv.seed, seq, pkt_type, plaintext, pad_target, wire);
    law_sessions_stay_valid(receiver, wire);
}

/// A packet too far ahead is refused, and nothing changes: once something has been
/// received, one whose number is 64 or more above the next one.
pub proof fn law_packet_too_far_ahead_is_refused(receiver: SessionView, wire: Seq<u8>)
    requires
        receiver.valid(),
        wire.len() >= 33,
        receiver.recv.next > 0,
        seq_of(wire) >= receiver.recv.next + 64,
    ensures
        receiver.received(wire).1 == Err::<Seq<u8>, SessionError>(
            SessionError::OutOfRange { seq: seq_of(wire) },
        ),
        receiver.received(wire).0 == receiver,
{
    ratchet::law_chain_reach(receiver.recv, seq_of(wire));
}

/// Decryption gives back what was encrypted: a packet of the chain that a
/// session receives on yields its payload, provided that its number was not
/// used up and is in range, and that the payload's length fits its prefix.
pub proof fn law_decrypt_after_encrypt(
    receiver: SessionView,
    seq: u64,
    pkt_type: u8,
    plaintext: Seq<u8>,
    pad_target: usize,
    wire: Seq<u8>,
)
    requires
        packet_of(receiver.recv.seed, seq, pkt_type, plaintext, pad_target, wire),
        receiver.window.accepts(seq),
        receiver.recv.available(seq),
        plaintext.len() < 65536,
    ensures
        receiver.received(wire).1 == Ok::<Seq<u8>, SessionError>(plaintext),
{
    lemma_packet_parts(receiver.recv.seed, seq, pkt_type, plaintext, pad_target, wire);
    padding::law_unpad_after_pad(plaintext, pad_target as nat);
}

/// Packets that arrive in order are all delivered: a receiver that has caught
/// up with the sender delivers the next packet, and has caught up again.
pub proof fn law_in_order_delivery(
    sender: SessionView,
    receiver: SessionView,
    pkt_type: u8,
    plaintext: Seq<u8>,
    wire: Seq<u8>,
)
    requires
        receiver.valid(),
        receiver.caught_up(sender),
        sender.send_seq < u64::MAX,
        packet_of(
            sender.send_seed,
            sender.send_seq,
            pkt_type,
            plaintext,
            sender.pad_target,
            wire,
        ),
        plaintext.len() < 65536,
    ensures
        receiver.received(wire).1 == Ok::<Seq<u8>, SessionError>(plaintext),
        receiver.received(wire).0.caught_up(sender.sent()),
{
    law_decrypt_after_encrypt(
        receiver,
        sender.send_seq,
        pkt_type,
        plaintext,
        sender.pad_target,
        wire,
    );
    lemma_packet_parts(
        sender.send_seed,
        sender.send_seq,
        pkt_type,
        plaintext,
        sender.pad_target,
        wire,
    );
}

/// A packet that was overtaken by a later one is still delivered right after
/// it, if neither number had been passed before and they are less than a window
/// apart.
pub proof fn law_overtaken_packet_is_delivered(
    receiver: SessionView,
    earlier: u64,
    later: u64,
    pkt_type: u8,
    plaintext: Seq<u8>,
    pad_target: usize,
    earlier_wire: Seq<u8>,
    later_wire: Seq<u8>,
)
    requires
        receiver.valid(),
        receiver.recv.next <= earlier < later < u64::MAX,
        later - earlier < WINDOW_SIZE,
        receiver.recv.available(later),
        packet_of(receiver.recv.seed, earlier, pkt_type, plaintext, pad_target, earlier_wire),
        plaintext.len() < 65536,
        seq_of(later_wire) == later,
    ensures
        receiver.received(later_wire).0.received(earlier_wire).1 == Ok::<Seq<u8>, SessionError>(
            plaintext,
        ),
{
    let middle = receiver.received(later_wire).0;
    ratchet::law_skipped_key_is_kept(receiver.recv, earlier, later);
    law_decrypt_after_encrypt(middle, earlier, pkt_type, plaintext, pad_target, earlier_wire);
}

/// The number that a receiving chain expects next, if it expected `start` and
/// then the packets numbered `order` arrived.
pub open spec fn next_after(start: u64, order: Seq<u64>) -> u64
    decreases order.len(),
{
    if order.len() == 0 {
        start
    } else {
        let before = next_after(start, order.drop_last());
        if order.last() < before {
            before
        } else {
            (order.last() + 1) as u64
        }
    }
}

/// Whether packet `seq` arrives within the limits after those numbered `before`:
/// it is new, and it is less than a window behind the highest number or no
/// further ahead of it than the skip limit.
pub open spec fn in_time(start: u64, before: Seq<u64>, seq: u64) -> bool {
    let next = next_after(start, before);
    &&& start <= seq < u64::MAX
    &&& !before.contains(seq)
    &&& if seq < next {
        next - 1 - seq < WINDOW_SIZE
    } else {
        ratchet::in_reach(next, MAX_SKIP, seq)
    }
}

/// Reordering within the window loses nothing: whatever the order in which the
/// packets of a sender arrive, each of them is delivered, as long as each is new
/// and arrives within the limits.
pub proof fn law_any_order_within_the_window(
    receiver: SessionView,
    order: Seq<u64>,
    types: Seq<u8>,
    payloads: Seq<Seq<u8>>,
    pad_target: usize,
    wires: Seq<Seq<u8>>,
    i: int,
)
    requires
        receiver.valid(),
        order.len() == types.len() == payloads.len() == wires.len(),
        forall|j: int|
            0 <= j < order.len() ==> #[trigger] in_time(
                receiver.recv.next,
                order.take(j),
                order[j],
            ),
        forall|j: int|
            0 <= j < order.len() ==> packet_of(
                receiver.recv.seed,
                order[j],
                types[j],
                payloads[j],
                pad_target,
                #[trigger] wires[j],
            ),
        forall|j: int| 0 <= j < payloads.len() ==> #[trigger] payloads[j].len() < 65536,
        0 <= i < order.len(),
    ensures
        receiver.received_all(wires.take(i)).received(wires[i]).1 == Ok::<Seq<u8>, SessionError>(
            payloads[i],
        ),
{
    lemma_in_time(receiver, order, types, payloads, pad_target, wires, i);
    let view = receiver.received_all(wires.take(i));
    lemma_in_time_is_accepted(receiver.recv.next, order.take(i), view, order[i]);
    assert(packet_of(
        receiver.recv.seed,
        order[i],
        types[i],
        payloads[i],
        pad_target,
        wires[i],
    ));
    law_decrypt_after_encrypt(view, order[i], types[i], payloads[i], pad_target, wires[i]);
}

/// What holds of a session that expected `start` and then received the packets
/// numbered `got`, all in time.
spec fn intact(start: u64, got: Seq<u64>, view: SessionView) -> bool {
    &&& view.valid()
    &&& view.recv.next == next_after(start, got)
    &&& got.len() > 0 ==> view.window.highest == Some((view.recv.next - 1) as u64)
        && view.recv.next > 0
    &&& forall|s: u64| #[trigger]
        view.window.seen.contains(s) ==> s < start || got.contains(s)
    &&& forall|s: u64|
        start <= s < view.recv.next && view.recv.next - 1 - s < WINDOW_SIZE && !got.contains(s)
            ==> #[trigger] view.recv.held.contains(s)
}

proof fn lemma_in_time_is_accepted(start: u64, got: Seq<u64>, view: SessionView, seq: u64)
    requires
        intact(start, got, view),
        in_time(start, got, seq),
    ensures
        view.window.accepts(seq),
        view.recv.available(seq),
{
    if seq < view.recv.next {
        assert(got.len() > 0);
        assert(!view.window.seen.contains(seq));
        assert(view.recv.held.contains(seq));
    }
}

proof fn lemma_in_time(
    receiver: SessionView,
    order: Seq<u64>,
    types: Seq<u8>,
    payloads: Seq<Seq<u8>>,
    pad_target: usize,
    wires: Seq<Seq<u8>>,
    n: int,
)
    requires
        receiver.valid(),
        order.len() == types.len() == payloads.len() == wires.len(),
        forall|j: int|
            0 <= j < order.len() ==> #[trigger] in_time(
                receiver.recv.next,
                order.take(j),
                order[j],
            ),
        forall|j: int|
            0 <= j < order.len() ==> packet_of(
                receiver.recv.seed,
                order[j],
                types[j],
                payloads[j],
                pad_target,
                #[trigger] wires[j],
            ),
        0 <= n <= order.len(),
    ensures
        intact(receiver.recv.next, order.take(n), receiver.received_all(wires.take(n))),
        receiver.received_all(wires.take(n)).recv.seed == receiver.recv.seed,
    decreases n,
{
    let start = receiver.recv.next;
    if n == 0 {
        assert(order.take(0) =~= Seq::empty());
        assert(wires.take(0) =~= Seq::empty());
    } else {
        let i = n - 1;
        lemma_in_time(receiver, order, types, payloads, pad_target, wires, i);
        let got = order.take(i);
        let seq = order[i];
        let before = receiver.received_all(wires.take(i));
        assert(order.take(n).drop_last() =~= got);
        assert(wires.take(n).drop_last() =~= wires.take(i));
        assert(in_time(start, got, seq));
        lemma_in_time_is_accepted(start, got, before, seq);
        let wire = wires[i];
        assert(packet_of(receiver.recv.seed, seq, types[i], payloads[i], pad_target, wire));
        lemma_packet_parts(receiver.recv.seed, seq, types[i], payloads[i], pad_target, wire);
        law_sessions_stay_valid(before, wire);
        let after = before.received(wire).0;
        assert(after == receiver.received_all(wires.take(n)));
        assert(order.take(n) =~= got.push(seq));
        assert forall|s: u64| got.contains(s) || s == seq implies order.take(n).contains(s) by {
            if s == seq {
                assert(order.take(n)[i] == s);
            } else {
                let k = choose|k: int| 0 <= k < got.len() && got[k] == s;
                assert(order.take(n)[k] == s);
            }
        }
        assert forall|s: u64|
            start <= s < after.recv.next && after.recv.next - 1 - s < WINDOW_SIZE
                && !order.take(n).contains(s) implies #[trigger] after.recv.held.contains(s) by {
            assert(!got.contains(s) && s != seq);
            if seq >= before.recv.next {
                if s < before.recv.next {
                    assert(before.recv.held.contains(s));
                }
                ratchet::law_skipped_key_is_kept(before.recv, s, seq);
            } else {
                assert(before.recv.held.contains(s));
            }
        }
    }
}

/// A packet is delivered at most once: once its number has been delivered, no
/// packet with that number is, whatever arrives in between.
pub proof fn law_delivered_at_most_once(
    receiver: SessionView,
    wire: Seq<u8>,
    between: Seq<Seq<u8>>,
    again: Seq<u8>,
)
    requires
        receiver.received(wire).1 is Ok,
        seq_of(again) == seq_of(wire),
    ensures
        receiver.received(wire).0.received_all(between).received(again).1 is Err,
{
    let seq = seq_of(wire);
    replay::law_committed_is_refused(receiver.window, seq);
    lemma_refused_for_ever(receiver.received(wire).0, between, seq);
}

proof fn lemma_refused_for_ever(receiver: SessionView, wires: Seq<Seq<u8>>, seq: u64)
    requires
        !receiver.window.accepts(seq),
    ensures
        !receiver.received_all(wires).window.accepts(seq),
    decreases wires.len(),
{
    if wires.len() > 0 {
        let before = receiver.received_all(wires.drop_last());
        lemma_refused_for_ever(receiver, wires.drop_last(), seq);
        replay::law_refused_stays_refused(before.window, seq, seq_of(wires.last()));
    }
}

/// A forged packet is refused and cannot move the replay window: only a packet
/// with a whole header that authenticates, its type and number included, under
/// the key of its number can.
pub proof fn law_forgery_leaves_window_alone(receiver: SessionView, wire: Seq<u8>)
    requires
        wire.len() < PACKET_HEADER_LEN || receiver.opened(wire) is None,
    ensures
        receiver.received(wire).1 is Err,
        receiver.received(wire).0.window == receiver.window,
{
}

/// All packets look the same: whatever payloads fit the padding target, their
/// packets have the same size.
pub proof fn law_constant_wire_size(
    pad_target: usize,
    seed_a: Seq<u8>,
    seq_a: u64,
    type_a: u8,
    a: Seq<u8>,
    wire_a: Seq<u8>,
    seed_b: Seq<u8>,
    seq_b: u64,
    type_b: u8,
    b: Seq<u8>,
    wire_b: Seq<u8>,
)
    requires
        a.len() + 2 <= pad_target,
        b.len() + 2 <= pad_target,
        packet_of(seed_a, seq_a, type_a, a, pad_target, wire_a),
        packet_of(seed_b, seq_b, type_b, b, pad_target, wire_b),
    ensures
        wire_a.len() == wire_b.len(),
{
}

impl Session {
    /// The sending ratchet stands where the next number needs it, the receiving
    /// chain is well-formed, and the view is a valid one.
    pub closed spec fn wf(&self) -> bool {
        &&& self.send_chain@ == ratchet::chain_at(self.send_seed@, self.send_seq as nat)
        &&& self.recv_chain.wf()
        &&& self@.valid()
    }

    /// A well-formed session is a valid one.
    pub proof fn lemma_wf(&self)
        requires
            self.wf(),
        ensures
            self@.valid(),
    {
    }

    pub fn new(keys: TransportKeys) -> (r: Self)
        ensures
            r.wf(),
            r@ == SessionView::fresh(keys@.send, keys@.recv, DEFAULT_PAD_TARGET),
            r@.send_seed == keys@.send,
            r@.recv.seed == keys@.recv,
            r@.pad_target == DEFAULT_PAD_TARGET,
            r@.send_seq == 0,
            r@.recv.next == 0,
            r@.window.highest is None,
    {
        Self::with_pad_target(keys, DEFAULT_PAD_TARGET)
    }

    pub fn with_pad_target(keys: TransportKeys, pad_target: usize) -> (r: Self)
        ensures
            r.wf(),
            r@ == SessionView::fresh(keys@.send, keys@.recv, pad_target),
            r@.send_seed == keys@.send,
            r@.recv.seed == keys@.recv,
            r@.pad_target == pad_target,
            r@.send_seq == 0,
            r@.recv.next == 0,
            r@.window.highest is None,
    {
        Session {
            send_chain: Ratchet::new(keys.send_key),
            recv_chain: ReceivingChain::new(keys.recv_key, MAX_SKIP),
            replay_window: ReplayWindow::new(),
            send_seq: 0,
            pad_target,
            send_seed: Ghost(keys.send_key@),
        }
    }

    /// A session over the two chains that a rekey gives.
    pub fn from_ratchets(send: Ratchet, recv: Ratchet, pad_target: usize) -> (r: Self)
        ensures
            r.wf(),
            r@ == SessionView::fresh(send@, recv@, pad_target),
            r@.send_seed == send@,
            r@.recv.seed == recv@,
            r@.pad_target == pad_target,
            r@.send_seq == 0,
            r@.recv.next == 0,
            r@.window.highest is None,
    {
        let ghost seed = send@;
        Session {
            recv_chain: ReceivingChain::new(recv.chain_key(), MAX_SKIP),
            send_chain: send,
            replay_window: ReplayWindow::new(),
            send_seq: 0,
            pad_target,
            send_seed: Ghost(seed),
        }
    }

    /// Whether a payload of `len` bytes can be encrypted.
    pub fn can_encrypt(&self, len: usize) -> (r: bool)
        ensures
            r == self@.can_send(len as nat),
    {
        let most: usize = isize::MAX as usize;
        if self.send_seq == u64::MAX || len > most - PACKET_HEADER_LEN - primitives::TAG_LEN - 2
            || self.pad_target > most - PACKET_HEADER_LEN - primitives::TAG_LEN {
            return false;
        }
        let size: usize = if len + 2 > self.pad_target {
            len + 2
        } else {
            self.pad_target
        };
        size as u64 <= primitives::AEAD_LIMIT
    }

    /// Encrypts one packet with a given nonce.
    pub fn encrypt_with_nonce(&mut self, pkt_type: u8, plaintext: &[u8], nonce: [u8; 24]) -> (r: Vec<
        u8,
    >)
        requires
            old(self).wf(),
            old(self)@.can_send(plaintext@.len()),
        ensures
            final(self).wf(),
            final(self)@ == old(self)@.sent(),
            packet_of(
                old(self)@.send_seed,
                old(self)@.send_seq,
                pkt_type,
                plaintext@,
                old(self)@.pad_target,
                r@,
            ),
            nonce_of(r@) == nonce@,
    {
        let seq: u64 = self.send_seq;
        self.send_seq = self.send_seq + 1;

        let padded = padding::pad(plaintext, self.pad_target);
        let packet_key = self.send_chain.advance();
        let aad = aad_bytes(pkt_type, seq);
        let ciphertext = primitives::xchacha_encrypt(&packet_key, &nonce, &aad, padded.as_slice());

        let mut out: Vec<u8> = Vec::new();
        out.push(pkt_type);
        bytes::append(&mut out, &bytes::u64_to_le(seq));
        bytes::append(&mut out, &nonce);
        bytes::append(&mut out, ciphertext.as_slice());
        proof {
            bytes::lemma_le_bytes_len(seq as nat, 8);
            assert(out@ =~= aad@ + nonce@ + ciphertext@);
            assert(nonce_of(out@) =~= nonce@);
            assert(out@.skip(PACKET_HEADER_LEN as int) =~= ciphertext@);
        }
        out
    }

    /// Encrypts one packet of type `pkt_type`, its payload padded to a constant
    /// size and its nonce random. The send chain and the sequence number
    /// advance.
    pub fn encrypt(&mut self, pkt_type: u8, plaintext: &[u8]) -> (r: Vec<u8>)
        requires
            old(self).wf(),
            old(self)@.can_send(plaintext@.len()),
        ensures
            final(self).wf(),
            final(self)@ == old(self)@.sent(),
            packet_of(
                old(self)@.send_seed,
                old(self)@.send_seq,
                pkt_type,
                plaintext@,
                old(self)@.pad_target,
                r@,
            ),
            primitives::nonce_drawn(nonce_of(r@)),
    {
        let nonce = primitives::draw_nonce();
        self.encrypt_with_nonce(pkt_type, plaintext, nonce)
    }

    /// Whether `decrypt` can be called on `wire`.
    pub fn can_decrypt(&self, wire: &[u8]) -> (r: bool)
        ensures
            r == self@.can_receive(wire@),
    {
        if wire.len() < PACKET_HEADER_LEN {
            return true;
        }
        let seq: u64 = bytes::u64_from_le(wire, 1);
        seq < u64::MAX || !self.replay_window.check(seq) || !self.recv_chain.has_key(seq)
    }

    /// Decrypts one packet. A replay is refused by the sliding window before a
    /// key derivation is spent on it, and a number too far ahead by the skip
    /// limit. Only once the packet has been authenticated does the window take
    /// note of it.
    pub fn decrypt(&mut self, wire: &[u8]) -> (r: Result<Vec<u8>, SessionError>)
        requires
            old(self).wf(),
            old(self)@.can_receive(wire@),
        ensures
            final(self).wf(),
            final(self)@ == old(self)@.received(wire@).0,
            match r {
                Ok(payload) => old(self)@.received(wire@).1 == Ok::<Seq<u8>, SessionError>(
                    payload@,
                ),
                Err(e) => old(self)@.received(wire@).1 == Err::<Seq<u8>, SessionError>(e),
            },
    {
        proof {
            law_sessions_stay_valid(self@, wire@);
        }
        if wire.len() < PACKET_HEADER_LEN {
            return Err(SessionError::TooShort);
        }
        let pkt_type: u8 = wire[0];
        let seq: u64 = bytes::u64_from_le(wire, 1);
        let nonce = take_nonce(wire);
        let ciphertext = bytes::tail(wire, PACKET_HEADER_LEN);

        if !self.replay_window.check(seq) {
            return Err(SessionError::Replayed { seq });
        }
        let packet_key = match self.recv_chain.key_for_seq(seq) {
            Some(key) => key,
            None => {
                return Err(SessionError::OutOfRange { seq });
            },
        };
        if !primitives::can_open(ciphertext.len()) {
            return Err(SessionError::DecryptionFailed);
        }
        let aad = aad_bytes(pkt_type, seq);
        let padded = match primitives::xchacha_decrypt(&packet_key, &nonce, &aad, ciphertext) {
            Ok(padded) => padded,
            Err(_) => {
                return Err(SessionError::DecryptionFailed);
            },
        };
        self.deliver(seq, padded.as_slice())
    }

    /// Takes note of an authenticated packet, whose number the receiving chain
    /// has passed, and takes the payload out of what it decrypted to.
    pub fn deliver(&mut self, seq: u64, padded: &[u8]) -> (r: Result<Vec<u8>, SessionError>)
        requires
            old(self).wf(),
            seq < old(self)@.recv.next,
        ensures
            final(self).wf(),
            final(self)@ == old(self)@.delivered(seq, padded@).0,
            match r {
                Ok(payload) => old(self)@.delivered(seq, padded@).1 == Ok::<Seq<u8>, SessionError>(
                    payload@,
                ),
                Err(e) => old(self)@.delivered(seq, padded@).1 == Err::<Seq<u8>, SessionError>(e),
            },
    {
        self.replay_window.commit(seq);
        match padding::unpad(padded) {
            Ok(payload) => Ok(vstd::slice::slice_to_vec(payload)),
            Err(e) => Err(SessionError::BadPadding(e)),
        }
    }
}

/// The associated data of a packet.
fn aad_bytes(pkt_type: u8, seq: u64) -> (r: [u8; 9])
    ensures
        r@ == associated_data(pkt_type, seq),
{
    let le = bytes::u64_to_le(seq);
    let r: [u8; 9] = [pkt_type, le[0], le[1], le[2], le[3], le[4], le[5], le[6], le[7]];
    assert(r@ =~= seq![pkt_type] + le@);
    r
}

/// The nonce of a packet.
fn take_nonce(wire: &[u8]) -> (r: [u8; 24])
    requires
        wire@.len() >= PACKET_HEADER_LEN,
    ensures
        r@ == nonce_of(wire@),
{
    let mut r: [u8; 24] = [0u8; 24];
    let mut i: usize = 0;
    while i < 24
        invariant
            i <= 24,
            wire@.len() >= PACKET_HEADER_LEN,
            forall|j: int| 0 <= j < i ==> r@[j] == wire@[9 + j],
        decreases 24 - i,
    {
        r[i] = wire[9 + i];
        i = i + 1;
    }
    assert(r@ =~= nonce_of(wire@));
    r
}

} // verus!
