//! Wire format of the handshake and of the periodic rekey, and of the "hello"
//! that carries a peer's static public keys.
//!
//! Every message starts with a one-byte type tag, so that a receiver can tell
//! control messages from data (`MSG_DATA`) on the same socket. Then follow 32
//! bytes of public key, and fields that are each prefixed with their length in
//! two bytes, least significant first. Bytes after the last field are ignored.
use vstd::prelude::*;

use crate::crypto::bytes;
use crate::crypto::dh_ratchet::{OfferView, RekeyOffer, RekeyResponse, ResponseView};
use crate::crypto::keys::{self, EncapsulationKey, KemKeyError};
use crate::crypto::noise::{Message1, Message1View, Message2, Message2View, StaticIdentity};
use crate::crypto::primitives;

verus! {

pub const MSG_HELLO: u8 = 0;

pub const MSG_HANDSHAKE1: u8 = 1;

pub const MSG_HANDSHAKE2: u8 = 2;

pub const MSG_REKEY_OFFER: u8 = 3;

pub const MSG_REKEY_RESPONSE: u8 = 4;

pub const MSG_DATA: u8 = 5;

/// Why bytes are not a message.
#[derive(Debug, Clone, Copy, PartialEq, Eq, Structural)]
pub enum WireError {
    /// They do not start with the tag of the expected message type.
    WrongType { expected: u8 },
    /// They end before the public key does.
    Truncated { expected: u8 },
    /// They end inside the length prefix of a field.
    TruncatedLengthPrefix,
    /// They end inside a field.
    TruncatedField,
    /// The KEM key of a hello does not have the right length.
    BadKemKeyLength,
    /// The KEM key of a hello is not a valid one.
    InvalidKemKey,
}

/// A field: its length, modulo 65536, and its bytes.
pub open spec fn field(data: Seq<u8>) -> Seq<u8> {
    bytes::le_bytes(data.len(), 2) + data
}

/// The field of `buf` at `pos`, and the position after it.
pub open spec fn field_at(buf: Seq<u8>, pos: int) -> Result<(Seq<u8>, int), WireError> {
    if buf.len() < pos + 2 {
        Err(WireError::TruncatedLengthPrefix)
    } else {
        let len = bytes::le_value(buf.subrange(pos, pos + 2));
        if buf.len() < pos + 2 + len {
            Err(WireError::TruncatedField)
        } else {
            Ok((buf.subrange(pos + 2, pos + 2 + len), pos + 2 + len))
        }
    }
}

/// The public key at the start of a message of type `tag`.
pub open spec fn head_of(buf: Seq<u8>, tag: u8) -> Result<Seq<u8>, WireError> {
    if buf.len() == 0 || buf[0] != tag {
        Err(WireError::WrongType { expected: tag })
    } else if buf.len() < 33 {
        Err(WireError::Truncated { expected: tag })
    } else {
        Ok(buf.subrange(1, 33))
    }
}

/// A message of type `tag` with one field.
pub open spec fn encoded_pair(tag: u8, key: Seq<u8>, data: Seq<u8>) -> Seq<u8> {
    seq![tag] + key + field(data)
}

/// The public key and the field of a message of type `tag` with one field.
pub open spec fn decoded_pair(buf: Seq<u8>, tag: u8) -> Result<(Seq<u8>, Seq<u8>), WireError> {
    match head_of(buf, tag) {
        Err(e) => Err(e),
        Ok(key) => match field_at(buf, 33) {
            Err(e) => Err(e),
            Ok((data, _)) => Ok((key, data)),
        },
    }
}

pub open spec fn encoded_hello(public: Seq<u8>, kem: Seq<u8>) -> Seq<u8> {
    encoded_pair(MSG_HELLO, public, kem)
}

/// The static public keys that a hello carries.
pub open spec fn decoded_hello(buf: Seq<u8>) -> Result<(Seq<u8>, Seq<u8>), WireError> {
    match decoded_pair(buf, MSG_HELLO) {
        Err(e) => Err(e),
        Ok((public, kem)) => match keys::kem_key_checked(kem) {
            Err(KemKeyError::BadLength) => Err(WireError::BadKemKeyLength),
            Err(KemKeyError::Invalid) => Err(WireError::InvalidKemKey),
            Ok(kem) => Ok((public, kem)),
        },
    }
}

pub open spec fn encoded_message1(msg: Message1View) -> Seq<u8> {
    seq![MSG_HANDSHAKE1] + msg.e_pub + field(msg.kem_ciphertext) + field(msg.encrypted_static)
        + field(msg.encrypted_payload)
}

pub open spec fn decoded_message1(buf: Seq<u8>) -> Result<Message1View, WireError> {
    match head_of(buf, MSG_HANDSHAKE1) {
        Err(e) => Err(e),
        Ok(e_pub) => match field_at(buf, 33) {
            Err(e) => Err(e),
            Ok((kem_ciphertext, at)) => match field_at(buf, at) {
                Err(e) => Err(e),
                Ok((encrypted_static, at)) => match field_at(buf, at) {
                    Err(e) => Err(e),
                    Ok((encrypted_payload, _)) => Ok(
                        Message1View { e_pub, kem_ciphertext, encrypted_static, encrypted_payload },
                    ),
                },
            },
        },
    }
}

pub open spec fn encoded_message2(msg: Message2View) -> Seq<u8> {
    encoded_pair(MSG_HANDSHAKE2, msg.e_pub, msg.encrypted_payload)
}

pub open spec fn decoded_message2(buf: Seq<u8>) -> Result<Message2View, WireError> {
    match decoded_pair(buf, MSG_HANDSHAKE2) {
        Err(e) => Err(e),
        Ok((e_pub, encrypted_payload)) => Ok(Message2View { e_pub, encrypted_payload }),
    }
}

pub open spec fn encoded_rekey_offer(offer: OfferView) -> Seq<u8> {
    encoded_pair(MSG_REKEY_OFFER, offer.x_pub, offer.kem_ek)
}

pub open spec fn decoded_rekey_offer(buf: Seq<u8>) -> Result<OfferView, WireError> {
    match decoded_pair(buf, MSG_REKEY_OFFER) {
        Err(e) => Err(e),
        Ok((x_pub, kem_ek)) => Ok(OfferView { x_pub, kem_ek }),
    }
}

pub open spec fn encoded_rekey_response(response: ResponseView) -> Seq<u8> {
    encoded_pair(MSG_REKEY_RESPONSE, response.x_pub, response.kem_ciphertext)
}

pub open spec fn decoded_rekey_response(buf: Seq<u8>) -> Result<ResponseView, WireError> {
    match decoded_pair(buf, MSG_REKEY_RESPONSE) {
        Err(e) => Err(e),
        Ok((x_pub, kem_ciphertext)) => Ok(ResponseView { x_pub, kem_ciphertext }),
    }
}

/// A field is read back where it was written, if its length fits the prefix.
proof fn lemma_field_round_trip(before: Seq<u8>, data: Seq<u8>, after: Seq<u8>)
    requires
        data.len() < 65536,
    ensures
        field_at(before + field(data) + after, before.len() as int) == Ok::<
            (Seq<u8>, int),
            WireError,
        >((data, (before.len() + 2 + data.len()) as int)),
{
    let buf = before + field(data) + after;
    let pos = before.len() as int;
    bytes::lemma_le_bytes_len(data.len(), 2);
    assert(buf.subrange(pos, pos + 2) =~= bytes::le_bytes(data.len(), 2));
    assert(bytes::byte_range(2) == 65536) by {
        reveal_with_fuel(bytes::byte_range, 3);
    }
    bytes::law_integer_round_trip(data.len(), 2);
    assert(buf.subrange(pos + 2, pos + 2 + data.len()) =~= data);
}

proof fn lemma_pair_round_trip(tag: u8, key: Seq<u8>, data: Seq<u8>)
    requires
        key.len() == 32,
        data.len() < 65536,
    ensures
        decoded_pair(encoded_pair(tag, key, data), tag) == Ok::<(Seq<u8>, Seq<u8>), WireError>(
            (key, data),
        ),
{
    let buf = encoded_pair(tag, key, data);
    let before = seq![tag] + key;
    lemma_field_round_trip(before, data, Seq::empty());
    assert(before + field(data) + Seq::<u8>::empty() =~= buf);
    assert(buf.subrange(1, 33) =~= key);
}

/// A hello is read back as the keys that were sent.
pub proof fn law_hello_round_trip(public: Seq<u8>, kem: Seq<u8>)
    requires
        public.len() == 32,
        primitives::kem_key_valid(kem),
    ensures
        decoded_hello(encoded_hello(public, kem)) == Ok::<(Seq<u8>, Seq<u8>), WireError>(
            (public, kem),
        ),
{
    lemma_pair_round_trip(MSG_HELLO, public, kem);
}

/// Message 1 is read back unchanged, if each field's length fits its prefix.
pub proof fn law_message1_round_trip(msg: Message1View)
    requires
        msg.e_pub.len() == 32,
        msg.kem_ciphertext.len() < 65536,
        msg.encrypted_static.len() < 65536,
        msg.encrypted_payload.len() < 65536,
    ensures
        decoded_message1(encoded_message1(msg)) == Ok::<Message1View, WireError>(msg),
{
    let buf = encoded_message1(msg);
    let f1 = field(msg.kem_ciphertext);
    let f2 = field(msg.encrypted_static);
    let f3 = field(msg.encrypted_payload);
    let head = seq![MSG_HANDSHAKE1] + msg.e_pub;
    bytes::lemma_le_bytes_len(msg.kem_ciphertext.len(), 2);
    bytes::lemma_le_bytes_len(msg.encrypted_static.len(), 2);
    lemma_field_round_trip(head, msg.kem_ciphertext, f2 + f3);
    lemma_field_round_trip(head + f1, msg.encrypted_static, f3);
    lemma_field_round_trip(head + f1 + f2, msg.encrypted_payload, Seq::empty());
    assert(head + f1 + (f2 + f3) =~= buf);
    assert(head + f1 + f2 + f3 =~= buf);
    assert(head + f1 + f2 + f3 + Seq::<u8>::empty() =~= buf);
    assert(buf.subrange(1, 33) =~= msg.e_pub);
}

/// Message 2 is read back unchanged, if its field's length fits its prefix.
pub proof fn law_message2_round_trip(msg: Message2View)
    requires
        msg.e_pub.len() == 32,
        msg.encrypted_payload.len() < 65536,
    ensures
        decoded_message2(encoded_message2(msg)) == Ok::<Message2View, WireError>(msg),
{
    lemma_pair_round_trip(MSG_HANDSHAKE2, msg.e_pub, msg.encrypted_payload);
}

/// A rekey offer is read back unchanged, if its key's length fits the prefix.
pub proof fn law_rekey_offer_round_trip(offer: OfferView)
    requires
        offer.x_pub.len() == 32,
        offer.kem_ek.len() < 65536,
    ensures
        decoded_rekey_offer(encoded_rekey_offer(offer)) == Ok::<OfferView, WireError>(offer),
{
    lemma_pair_round_trip(MSG_REKEY_OFFER, offer.x_pub, offer.kem_ek);
}

/// A rekey response is read back unchanged, if its ciphertext's length fits
/// the prefix.
pub proof fn law_rekey_response_round_trip(response: ResponseView)
    requires
        response.x_pub.len() == 32,
        response.kem_ciphertext.len() < 65536,
    ensures
        decoded_rekey_response(encoded_rekey_response(response)) == Ok::<ResponseView, WireError>(
            response,
        ),
{
    lemma_pair_round_trip(MSG_REKEY_RESPONSE, response.x_pub, response.kem_ciphertext);
}

/// What a message looks like: its tag, its public key, and each field behind its
/// length in two bytes, low byte first.
pub proof fn law_message_layout(
    public: Seq<u8>,
    data: Seq<u8>,
    msg1: Message1View,
    msg2: Message2View,
    offer: OfferView,
    response: ResponseView,
)
    ensures
        field(data) == seq![(data.len() % 256) as u8, (data.len() / 256 % 256) as u8] + data,
        encoded_hello(public, data) == seq![0u8] + public + field(data),
        encoded_message1(msg1) == seq![1u8] + msg1.e_pub + field(msg1.kem_ciphertext) + field(
            msg1.encrypted_static,
        ) + field(msg1.encrypted_payload),
        encoded_message2(msg2) == seq![2u8] + msg2.e_pub + field(msg2.encrypted_payload),
        encoded_rekey_offer(offer) == seq![3u8] + offer.x_pub + field(offer.kem_ek),
        encoded_rekey_response(response) == seq![4u8] + response.x_pub + field(
            response.kem_ciphertext,
        ),
{
    bytes::lemma_le_bytes_pair(data.len());
}

/// How a field is read: two bytes give its length, low byte first, and as many
/// bytes follow. It is refused exactly if either ends too early.
pub proof fn law_field_reading(buf: Seq<u8>, pos: int)
    requires
        0 <= pos,
    ensures
        buf.len() < pos + 2 ==> field_at(buf, pos) == Err::<(Seq<u8>, int), WireError>(
            WireError::TruncatedLengthPrefix,
        ),
        buf.len() >= pos + 2 ==> ({
            let end = pos + 2 + buf[pos] + 256 * buf[pos + 1];
            field_at(buf, pos) == if end <= buf.len() {
                Ok::<(Seq<u8>, int), WireError>((buf.subrange(pos + 2, end), end))
            } else {
                Err::<(Seq<u8>, int), WireError>(WireError::TruncatedField)
            }
        }),
{
    if buf.len() >= pos + 2 {
        bytes::lemma_le_pair(buf[pos], buf[pos + 1]);
        assert(buf.subrange(pos, pos + 2) =~= seq![buf[pos], buf[pos + 1]]);
    }
}

/// How a message with one field is read: the tag has to be the expected one, 32
/// bytes of public key follow, and then the field; what comes after is ignored.
pub proof fn law_pair_reading(buf: Seq<u8>, tag: u8)
    ensures
        buf.len() == 0 || buf[0] != tag ==> decoded_pair(buf, tag) == Err::<
            (Seq<u8>, Seq<u8>),
            WireError,
        >(WireError::WrongType { expected: tag }),
        0 < buf.len() < 33 && buf[0] == tag ==> decoded_pair(buf, tag) == Err::<
            (Seq<u8>, Seq<u8>),
            WireError,
        >(WireError::Truncated { expected: tag }),
        buf.len() >= 33 && buf[0] == tag ==> match field_at(buf, 33) {
            Ok((data, _)) => decoded_pair(buf, tag) == Ok::<(Seq<u8>, Seq<u8>), WireError>(
                (buf.subrange(1, 33), data),
            ),
            Err(e) => decoded_pair(buf, tag) == Err::<(Seq<u8>, Seq<u8>), WireError>(e),
        },
{
}

/// Message 2 and the rekey messages are read as messages with one field, each with
/// its own tag, and so is a hello, whose field has to be an encapsulation key.
pub proof fn law_single_field_messages(buf: Seq<u8>)
    ensures
        match decoded_pair(buf, 2) {
            Ok((e_pub, encrypted_payload)) => decoded_message2(buf) == Ok::<
                Message2View,
                WireError,
            >(Message2View { e_pub, encrypted_payload }),
            Err(e) => decoded_message2(buf) == Err::<Message2View, WireError>(e),
        },
        match decoded_pair(buf, 3) {
            Ok((x_pub, kem_ek)) => decoded_rekey_offer(buf) == Ok::<OfferView, WireError>(
                OfferView { x_pub, kem_ek },
            ),
            Err(e) => decoded_rekey_offer(buf) == Err::<OfferView, WireError>(e),
        },
        match decoded_pair(buf, 4) {
            Ok((x_pub, kem_ciphertext)) => decoded_rekey_response(buf) == Ok::<
                ResponseView,
                WireError,
            >(ResponseView { x_pub, kem_ciphertext }),
            Err(e) => decoded_rekey_response(buf) == Err::<ResponseView, WireError>(e),
        },
        match decoded_pair(buf, 0) {
            Ok((public, kem)) => decoded_hello(buf) == if kem.len() != 1184 {
                Err::<(Seq<u8>, Seq<u8>), WireError>(WireError::BadKemKeyLength)
            } else if !primitives::kem_key_valid(kem) {
                Err::<(Seq<u8>, Seq<u8>), WireError>(WireError::InvalidKemKey)
            } else {
                Ok::<(Seq<u8>, Seq<u8>), WireError>((public, kem))
            },
            Err(e) => decoded_hello(buf) == Err::<(Seq<u8>, Seq<u8>), WireError>(e),
        },
{
}

/// How message 1 is read: its tag, its public key, and three fields, each where
/// the one before it ends; the first of these that is missing is the reason why it
/// is refused.
pub proof fn law_message1_is_read_in_order(buf: Seq<u8>)
    ensures
        buf.len() == 0 || buf[0] != 1 ==> decoded_message1(buf) == Err::<Message1View, WireError>(
            WireError::WrongType { expected: 1 },
        ),
        0 < buf.len() < 33 && buf[0] == 1 ==> decoded_message1(buf) == Err::<
            Message1View,
            WireError,
        >(WireError::Truncated { expected: 1 }),
        buf.len() >= 33 && buf[0] == 1 ==> ({
            let first = field_at(buf, 33);
            let second = field_at(buf, first->Ok_0.1);
            let third = field_at(buf, second->Ok_0.1);
            if first is Err {
                decoded_message1(buf) == Err::<Message1View, WireError>(first->Err_0)
            } else if second is Err {
                decoded_message1(buf) == Err::<Message1View, WireError>(second->Err_0)
            } else if third is Err {
                decoded_message1(buf) == Err::<Message1View, WireError>(third->Err_0)
            } else {
                decoded_message1(buf) == Ok::<Message1View, WireError>(
                    Message1View {
                        e_pub: buf.subrange(1, 33),
                        kem_ciphertext: first->Ok_0.0,
                        encrypted_static: second->Ok_0.0,
                        encrypted_payload: third->Ok_0.0,
                    },
                )
            }
        }),
{
}

/// The sizes and tags of the rekey messages.
pub proof fn law_rekey_message_sizes(offer: OfferView, response: ResponseView)
    requires
        offer.x_pub.len() == 32,
        offer.kem_ek.len() == primitives::KEM_KEY_LEN,
        response.x_pub.len() == 32,
        response.kem_ciphertext.len() == primitives::KEM_CIPHERTEXT_LEN,
    ensures
        encoded_rekey_offer(offer).len() == 1219,
        encoded_rekey_offer(offer)[0] == MSG_REKEY_OFFER,
        encoded_rekey_response(response).len() == 1123,
        encoded_rekey_response(response)[0] == MSG_REKEY_RESPONSE,
{
    bytes::lemma_le_bytes_len(offer.kem_ek.len(), 2);
    bytes::lemma_le_bytes_len(response.kem_ciphertext.len(), 2);
}

/// A message of one type is never taken for one of another type: it starts
/// with its own tag, and every reader refuses a tag that is not its own.
pub proof fn law_types_are_told_apart(buf: Seq<u8>, tag: u8)
    requires
        buf.len() == 0 || buf[0] != tag,
    ensures
        tag == MSG_HELLO ==> decoded_hello(buf) is Err,
        tag == MSG_HANDSHAKE1 ==> decoded_message1(buf) is Err,
        tag == MSG_HANDSHAKE2 ==> decoded_message2(buf) is Err,
        tag == MSG_REKEY_OFFER ==> decoded_rekey_offer(buf) is Err,
        tag == MSG_REKEY_RESPONSE ==> decoded_rekey_response(buf) is Err,
        forall|public: Seq<u8>, kem: Seq<u8>| #[trigger]
            encoded_hello(public, kem)[0] == MSG_HELLO,
        forall|msg: Message1View| #[trigger] encoded_message1(msg)[0] == MSG_HANDSHAKE1,
        forall|msg: Message2View| #[trigger] encoded_message2(msg)[0] == MSG_HANDSHAKE2,
        forall|offer: OfferView| #[trigger] encoded_rekey_offer(offer)[0] == MSG_REKEY_OFFER,
        forall|response: ResponseView| #[trigger]
            encoded_rekey_response(response)[0] == MSG_REKEY_RESPONSE,
{
}

/// Appends a field.
fn write_lp(buf: &mut Vec<u8>, data: &[u8])
    ensures
        final(buf)@ == old(buf)@ + field(data@),
{
    bytes::append(buf, &bytes::len_to_le(data.len()));
    bytes::append(buf, data);
    assert(buf@ =~= old(buf)@ + field(data@));
}

/// Reads the field at `pos` and moves `pos` behind it.
fn read_lp<'a>(buf: &'a [u8], pos: &mut usize) -> (r: Result<&'a [u8], WireError>)
    requires
        *old(pos) <= buf@.len(),
    ensures
        match r {
            Ok(data) => {
                &&& field_at(buf@, *old(pos) as int) == Ok::<(Seq<u8>, int), WireError>(
                    (data@, *final(pos) as int),
                )
                &&& *final(pos) <= buf@.len()
            },
            Err(e) => field_at(buf@, *old(pos) as int) == Err::<(Seq<u8>, int), WireError>(e),
        },
{
    let at: usize = *pos;
    if buf.len() - at < 2 {
        return Err(WireError::TruncatedLengthPrefix);
    }
    let len: usize = bytes::pair_value(buf[at], buf[at + 1]);
    assert(buf@.subrange(at as int, at + 2) =~= seq![buf@[at as int], buf@[at + 1]]);
    let start: usize = at + 2;
    *pos = start;
    if buf.len() - start < len {
        return Err(WireError::TruncatedField);
    }
    let end: usize = start + len;
    *pos = end;
    Ok(vstd::slice::slice_subrange(buf, start, end))
}

/// Reads the public key at the start of a message of type `msg_type`.
fn read_fixed32(buf: &[u8], msg_type: u8) -> (r: Result<[u8; 32], WireError>)
    ensures
        match r {
            Ok(key) => head_of(buf@, msg_type) == Ok::<Seq<u8>, WireError>(key@) && buf@.len()
                >= 33,
            Err(e) => head_of(buf@, msg_type) == Err::<Seq<u8>, WireError>(e),
        },
{
    if buf.len() == 0 || buf[0] != msg_type {
        return Err(WireError::WrongType { expected: msg_type });
    }
    if buf.len() < 33 {
        return Err(WireError::Truncated { expected: msg_type });
    }
    Ok(bytes::take32(buf, 1))
}

fn encode_pair(tag: u8, key: &[u8; 32], data: &[u8]) -> (r: Vec<u8>)
    ensures
        r@ == encoded_pair(tag, key@, data@),
{
    let mut out: Vec<u8> = Vec::new();
    out.push(tag);
    bytes::append(&mut out, key);
    write_lp(&mut out, data);
    assert(out@ =~= encoded_pair(tag, key@, data@));
    out
}

fn decode_pair(buf: &[u8], tag: u8) -> (r: Result<([u8; 32], Vec<u8>), WireError>)
    ensures
        match r {
            Ok((key, data)) => decoded_pair(buf@, tag) == Ok::<(Seq<u8>, Seq<u8>), WireError>(
                (key@, data@),
            ),
            Err(e) => decoded_pair(buf@, tag) == Err::<(Seq<u8>, Seq<u8>), WireError>(e),
        },
{
    let key = match read_fixed32(buf, tag) {
        Ok(key) => key,
        Err(e) => {
            return Err(e);
        },
    };
    let mut pos: usize = 33;
    match read_lp(buf, &mut pos) {
        Ok(data) => Ok((key, vstd::slice::slice_to_vec(data))),
        Err(e) => Err(e),
    }
}

pub fn encode_hello(id: &StaticIdentity) -> (r: Vec<u8>)
    ensures
        r@ == encoded_hello(id.public@, id.kem_encap@),
{
    encode_pair(MSG_HELLO, &id.public, id.kem_encap.as_bytes())
}

pub fn decode_hello(buf: &[u8]) -> (r: Result<([u8; 32], EncapsulationKey), WireError>)
    ensures
        match r {
            Ok((public, kem)) => decoded_hello(buf@) == Ok::<(Seq<u8>, Seq<u8>), WireError>(
                (public@, kem@),
            ),
            Err(e) => decoded_hello(buf@) == Err::<(Seq<u8>, Seq<u8>), WireError>(e),
        },
{
    let (public, kem_bytes) = match decode_pair(buf, MSG_HELLO) {
        Ok(pair) => pair,
        Err(e) => {
            return Err(e);
        },
    };
    match EncapsulationKey::new(kem_bytes.as_slice()) {
        Ok(kem) => Ok((public, kem)),
        Err(KemKeyError::BadLength) => Err(WireError::BadKemKeyLength),
        Err(KemKeyError::Invalid) => Err(WireError::InvalidKemKey),
    }
}

pub fn encode_message1(msg: &Message1) -> (r: Vec<u8>)
    ensures
        r@ == encoded_message1(msg@),
{
    let mut out: Vec<u8> = Vec::new();
    out.push(MSG_HANDSHAKE1);
    bytes::append(&mut out, &msg.e_pub);
    write_lp(&mut out, msg.kem_ciphertext.as_slice());
    write_lp(&mut out, msg.encrypted_static.as_slice());
    write_lp(&mut out, msg.encrypted_payload.as_slice());
    assert(out@ =~= encoded_message1(msg@));
    out
}

pub fn decode_message1(buf: &[u8]) -> (r: Result<Message1, WireError>)
    ensures
        match r {
            Ok(msg) => decoded_message1(buf@) == Ok::<Message1View, WireError>(msg@),
            Err(e) => decoded_message1(buf@) == Err::<Message1View, WireError>(e),
        },
{
    let e_pub = match read_fixed32(buf, MSG_HANDSHAKE1) {
        Ok(e_pub) => e_pub,
        Err(e) => {
            return Err(e);
        },
    };
    let mut pos: usize = 33;
    let kem_ciphertext: Vec<u8> = match read_lp(buf, &mut pos) {
        Ok(data) => vstd::slice::slice_to_vec(data),
        Err(e) => {
            return Err(e);
        },
    };
    let encrypted_static: Vec<u8> = match read_lp(buf, &mut pos) {
        Ok(data) => vstd::slice::slice_to_vec(data),
        Err(e) => {
            return Err(e);
        },
    };
    let encrypted_payload: Vec<u8> = match read_lp(buf, &mut pos) {
        Ok(data) => vstd::slice::slice_to_vec(data),
        Err(e) => {
            return Err(e);
        },
    };
    Ok(Message1 { e_pub, kem_ciphertext, encrypted_static, encrypted_payload })
}

pub fn encode_message2(msg: &Message2) -> (r: Vec<u8>)
    ensures
        r@ == encoded_message2(msg@),
{
    encode_pair(MSG_HANDSHAKE2, &msg.e_pub, msg.encrypted_payload.as_slice())
}

pub fn decode_message2(buf: &[u8]) -> (r: Result<Message2, WireError>)
    ensures
        match r {
            Ok(msg) => decoded_message2(buf@) == Ok::<Message2View, WireError>(msg@),
            Err(e) => decoded_message2(buf@) == Err::<Message2View, WireError>(e),
        },
{
    match decode_pair(buf, MSG_HANDSHAKE2) {
        Ok((e_pub, encrypted_payload)) => Ok(Message2 { e_pub, encrypted_payload }),
        Err(e) => Err(e),
    }
}

pub fn encode_rekey_offer(offer: &RekeyOffer) -> (r: Vec<u8>)
    ensures
        r@ == encoded_rekey_offer(offer@),
{
    encode_pair(MSG_REKEY_OFFER, &offer.x_pub, offer.kem_ek_bytes.as_slice())
}

pub fn decode_rekey_offer(buf: &[u8]) -> (r: Result<RekeyOffer, WireError>)
    ensures
        match r {
            Ok(offer) => decoded_rekey_offer(buf@) == Ok::<OfferView, WireError>(offer@),
            Err(e) => decoded_rekey_offer(buf@) == Err::<OfferView, WireError>(e),
        },
{
    match decode_pair(buf, MSG_REKEY_OFFER) {
        Ok((x_pub, kem_ek_bytes)) => Ok(RekeyOffer { x_pub, kem_ek_bytes }),
        Err(e) => Err(e),
    }
}

pub fn encode_rekey_response(resp: &RekeyResponse) -> (r: Vec<u8>)
    ensures
        r@ == encoded_rekey_response(resp@),
{
    encode_pair(MSG_REKEY_RESPONSE, &resp.x_pub, resp.kem_ciphertext.as_slice())
}

pub fn decode_rekey_response(buf: &[u8]) -> (r: Result<RekeyResponse, WireError>)
    ensures
        match r {
            Ok(resp) => decoded_rekey_response(buf@) == Ok::<ResponseView, WireError>(resp@),
            Err(e) => decoded_rekey_response(buf@) == Err::<ResponseView, WireError>(e),
        },
{
    match decode_pair(buf, MSG_REKEY_RESPONSE) {
        Ok((x_pub, kem_ciphertext)) => Ok(RekeyResponse { x_pub, kem_ciphertext }),
        Err(e) => Err(e),
    }
}

} // verus!
