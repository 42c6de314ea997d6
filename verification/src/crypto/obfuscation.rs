//! Obfuscation: an already encrypted packet goes behind a header that looks
//! like a DTLS 1.2 record, so that a classifier that goes by leading bytes sees
//! ordinary DTLS application data. This is a cheap disguise, not an emulation
//! of the protocol.
//!
//! The header is `content type (1) | version (2) | epoch (2) | sequence number
//! (6) | length (2)`, all big-endian.
use vstd::arithmetic::power;
use vstd::prelude::*;

use crate::crypto::bytes;

verus! {

pub const DTLS_CONTENT_TYPE_APPLICATION_DATA: u8 = 23;

pub const DTLS_1_2_VERSION: [u8; 2] = [0xfe, 0xfd];

pub const HEADER_LEN: usize = 13;

/// Why an obfuscated packet was refused.
#[derive(Debug, Clone, Copy, PartialEq, Eq, Structural)]
pub enum ObfuscationError {
    /// There is no room for the header.
    TooShort,
    /// The content type is not that of application data.
    UnexpectedContentType,
    /// The length field does not match the size of the packet.
    LengthMismatch,
}

pub struct Obfuscator {
    enabled: bool,
    epoch: u16,
}

/// What an obfuscator stands for: whether it does anything, and the epoch that
/// its headers show.
#[verifier::ext_equal]
pub struct ObfuscatorView {
    pub enabled: bool,
    pub epoch: u16,
}

impl View for Obfuscator {
    type V = ObfuscatorView;

    closed spec fn view(&self) -> ObfuscatorView {
        ObfuscatorView { enabled: self.enabled, epoch: self.epoch }
    }
}

/// A header that looks like that of a DTLS record. Of the sequence number it
/// holds the low 48 bits, and of the length the low 16.
pub open spec fn header(epoch: u16, record_seq: u64, len: nat) -> Seq<u8> {
    seq![DTLS_CONTENT_TYPE_APPLICATION_DATA] + DTLS_1_2_VERSION@ + bytes::be_bytes(epoch as nat, 2)
        + bytes::be_bytes(record_seq as nat, 6) + bytes::be_bytes(len, 2)
}

impl ObfuscatorView {
    /// What goes on the wire for a packet.
    pub open spec fn wrapped(self, wire: Seq<u8>, record_seq: u64) -> Seq<u8> {
        if self.enabled {
            header(self.epoch, record_seq, wire.len()) + wire
        } else {
            wire
        }
    }

    /// The packet inside what came off the wire.
    pub open spec fn unwrapped(self, framed: Seq<u8>) -> Result<Seq<u8>, ObfuscationError> {
        if !self.enabled {
            Ok(framed)
        } else if framed.len() < HEADER_LEN {
            Err(ObfuscationError::TooShort)
        } else if framed[0] != DTLS_CONTENT_TYPE_APPLICATION_DATA {
            Err(ObfuscationError::UnexpectedContentType)
        } else if bytes::be_value(framed.subrange(11, 13)) != framed.len() - HEADER_LEN {
            Err(ObfuscationError::LengthMismatch)
        } else {
            Ok(framed.skip(HEADER_LEN as int))
        }
    }
}

proof fn lemma_header(epoch: u16, record_seq: u64, len: nat)
    ensures
        header(epoch, record_seq, len).len() == HEADER_LEN,
        header(epoch, record_seq, len).subrange(11, 13) == bytes::be_bytes(len, 2),
{
    bytes::lemma_le_bytes_len(epoch as nat, 2);
    bytes::lemma_le_bytes_len(record_seq as nat, 6);
    bytes::lemma_le_bytes_len(len, 2);
    assert(header(epoch, record_seq, len).subrange(11, 13) =~= bytes::be_bytes(len, 2));
}

/// Unwrapping gives back what was wrapped, whether obfuscation is on or off, as
/// long as the two ends agree on that. A packet that is wrapped must fit the
/// length field.
pub proof fn law_unwrap_after_wrap(
    sender: ObfuscatorView,
    receiver: ObfuscatorView,
    wire: Seq<u8>,
    record_seq: u64,
)
    requires
        sender.enabled == receiver.enabled,
        sender.enabled ==> wire.len() < 65536,
    ensures
        receiver.unwrapped(sender.wrapped(wire, record_seq)) == Ok::<Seq<u8>, ObfuscationError>(
            wire,
        ),
{
    if sender.enabled {
        let framed = sender.wrapped(wire, record_seq);
        lemma_header(sender.epoch, record_seq, wire.len());
        assert(framed.subrange(11, 13) =~= bytes::be_bytes(wire.len(), 2));
        assert(bytes::byte_range(2) == 65536) by {
            reveal_with_fuel(bytes::byte_range, 3);
        }
        bytes::law_integer_round_trip(wire.len(), 2);
        assert(framed.skip(HEADER_LEN as int) =~= wire);
    }
}

/// A wrapped packet starts like a DTLS 1.2 application data record, and is
/// longer than the packet by exactly the header.
pub proof fn law_wrapped_looks_like_dtls(sender: ObfuscatorView, wire: Seq<u8>, record_seq: u64)
    requires
        sender.enabled,
    ensures
        sender.wrapped(wire, record_seq).len() == HEADER_LEN + wire.len(),
        sender.wrapped(wire, record_seq)[0] == DTLS_CONTENT_TYPE_APPLICATION_DATA,
        sender.wrapped(wire, record_seq).subrange(1, 3) == DTLS_1_2_VERSION@,
{
    lemma_header(sender.epoch, record_seq, wire.len());
    assert(sender.wrapped(wire, record_seq).subrange(1, 3) =~= DTLS_1_2_VERSION@);
}

/// What the header of a wrapped packet holds, byte by byte: the content type, the
/// version, the epoch, the low 48 bits of the record's number, and the length of
/// the packet, all with the high byte first; the packet follows. Without
/// obfuscation a packet is sent as it is.
pub proof fn law_wrapped_layout(sender: ObfuscatorView, wire: Seq<u8>, record_seq: u64, i: nat)
    requires
        i < 6,
    ensures
        !sender.enabled ==> sender.wrapped(wire, record_seq) == wire,
        sender.enabled ==> ({
            let framed = sender.wrapped(wire, record_seq);
            &&& framed.len() == 13 + wire.len()
            &&& framed[0] == 23
            &&& framed[1] == 0xfe
            &&& framed[2] == 0xfd
            &&& framed[3] == sender.epoch / 256
            &&& framed[4] == sender.epoch % 256
            &&& framed[10 - i as int] == (record_seq as int / power::pow(256, i)) % 256
            &&& framed[11] == wire.len() / 256 % 256
            &&& framed[12] == wire.len() % 256
            &&& framed.skip(13) == wire
        }),
{
    if sender.enabled {
        let framed = sender.wrapped(wire, record_seq);
        lemma_header(sender.epoch, record_seq, wire.len());
        bytes::lemma_le_bytes_len(sender.epoch as nat, 2);
        bytes::lemma_le_bytes_len(record_seq as nat, 6);
        bytes::lemma_le_bytes_len(wire.len(), 2);
        bytes::lemma_le_bytes_pair(sender.epoch as nat);
        bytes::lemma_le_bytes_pair(wire.len());
        bytes::law_bytes_are_digits(record_seq as nat, 6, i);
        assert(framed[10 - i as int] == bytes::be_bytes(record_seq as nat, 6)[5 - i as int]);
        assert(framed.skip(13) =~= wire);
    }
}

/// How a packet is unwrapped: without obfuscation it is taken as it is; with it,
/// it needs a whole header of the right content type whose length, high byte first,
/// is that of what follows, and what follows is the packet.
pub proof fn law_unwrapped_reading(receiver: ObfuscatorView, framed: Seq<u8>)
    ensures
        receiver.unwrapped(framed) == if !receiver.enabled {
            Ok::<Seq<u8>, ObfuscationError>(framed)
        } else if framed.len() < 13 {
            Err::<Seq<u8>, ObfuscationError>(ObfuscationError::TooShort)
        } else if framed[0] != 23 {
            Err::<Seq<u8>, ObfuscationError>(ObfuscationError::UnexpectedContentType)
        } else if 13 + 256 * framed[11] + framed[12] != framed.len() {
            Err::<Seq<u8>, ObfuscationError>(ObfuscationError::LengthMismatch)
        } else {
            Ok::<Seq<u8>, ObfuscationError>(framed.skip(13))
        },
{
    if framed.len() >= 13 {
        bytes::lemma_le_pair(framed[12], framed[11]);
        assert(framed.subrange(11, 13) =~= seq![framed[11], framed[12]]);
    }
}

impl Obfuscator {
    pub fn new(enabled: bool) -> (r: Self)
        ensures
            r@ == (ObfuscatorView { enabled, epoch: 0 }),
    {
        Obfuscator { enabled, epoch: 0 }
    }

    pub fn enabled(&self) -> (r: bool)
        ensures
            r == self@.enabled,
    {
        self.enabled
    }

    /// Puts a fake DTLS record header in front of `wire`, an encrypted packet,
    /// or leaves it as it is if obfuscation is off. `record_seq` is the number
    /// that the header shows; it only needs to look plausible.
    pub fn wrap(&self, wire: &[u8], record_seq: u64) -> (r: Vec<u8>)
        ensures
            r@ == self@.wrapped(wire@, record_seq),
    {
        if !self.enabled {
            return vstd::slice::slice_to_vec(wire);
        }
        let mut out: Vec<u8> = Vec::new();
        out.push(DTLS_CONTENT_TYPE_APPLICATION_DATA);
        bytes::append(&mut out, &DTLS_1_2_VERSION);
        bytes::append(&mut out, &bytes::len_to_be(self.epoch as usize));
        bytes::append(&mut out, &bytes::u48_to_be(record_seq));
        bytes::append(&mut out, &bytes::len_to_be(wire.len()));
        bytes::append(&mut out, wire);
        assert(out@ =~= self@.wrapped(wire@, record_seq));
        out
    }

    /// Strips the fake header, or leaves the packet as it is if obfuscation is
    /// off.
    pub fn unwrap<'a>(&self, framed: &'a [u8]) -> (r: Result<&'a [u8], ObfuscationError>)
        ensures
            match r {
                Ok(body) => self@.unwrapped(framed@) == Ok::<Seq<u8>, ObfuscationError>(body@),
                Err(e) => self@.unwrapped(framed@) == Err::<Seq<u8>, ObfuscationError>(e),
            },
    {
        if !self.enabled {
            return Ok(framed);
        }
        if framed.len() < HEADER_LEN {
            return Err(ObfuscationError::TooShort);
        }
        if framed[0] != DTLS_CONTENT_TYPE_APPLICATION_DATA {
            return Err(ObfuscationError::UnexpectedContentType);
        }
        let length: usize = bytes::pair_value(framed[12], framed[11]);
        assert(framed@.subrange(11, 13) =~= seq![framed@[11], framed@[12]]);
        let body = bytes::tail(framed, HEADER_LEN);
        if length != body.len() {
            return Err(ObfuscationError::LengthMismatch);
        }
        Ok(body)
    }
}

} // verus!
