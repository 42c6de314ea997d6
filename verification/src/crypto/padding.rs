//! Constant-size packet padding, applied before encryption so that the length
//! of a ciphertext does not tell an observer the size of the IP packet inside.
//! The format is `[u16 LE actual length][payload][zero pad]`.
use vstd::prelude::*;

use crate::crypto::bytes;

verus! {

pub const DEFAULT_PAD_TARGET: usize = 1400;

/// Why a padded packet was refused.
#[derive(Debug, Clone, Copy, PartialEq, Eq, Structural)]
pub enum PadError {
    /// There is no room for the length prefix.
    TooShort,
    /// The length prefix promises more bytes than there are.
    LengthExceedsPacket,
}

/// The size of a padded payload: the target, or the natural size of a payload
/// that is larger.
pub open spec fn padded_len(len: nat, target: nat) -> nat {
    if len + 2 > target {
        len + 2
    } else {
        target
    }
}

/// The padded form of a payload. The prefix holds the low 16 bits of its length.
pub open spec fn padded(plaintext: Seq<u8>, target: nat) -> Seq<u8> {
    bytes::le_bytes(plaintext.len(), 2) + plaintext + bytes::zeros(
        (padded_len(plaintext.len(), target) - 2 - plaintext.len()) as nat,
    )
}

/// The payload inside a padded packet.
pub open spec fn unpadded(packet: Seq<u8>) -> Result<Seq<u8>, PadError> {
    if packet.len() < 2 {
        Err(PadError::TooShort)
    } else {
        let len = bytes::le_value(packet.take(2));
        if len > packet.len() - 2 {
            Err(PadError::LengthExceedsPacket)
        } else {
            Ok(packet.subrange(2, 2 + len as int))
        }
    }
}

/// A padded packet has exactly the padded length.
pub proof fn law_padded_len(plaintext: Seq<u8>, target: nat)
    ensures
        padded(plaintext, target).len() == padded_len(plaintext.len(), target),
{
    bytes::lemma_le_bytes_len(plaintext.len(), 2);
}

/// Payloads that fit the target all get the same size, whatever their length.
pub proof fn law_constant_size(a: Seq<u8>, b: Seq<u8>, target: nat)
    requires
        a.len() + 2 <= target,
        b.len() + 2 <= target,
    ensures
        padded(a, target).len() == target,
        padded(b, target).len() == target,
{
    law_padded_len(a, target);
    law_padded_len(b, target);
}

/// Removing the padding gives the payload back, if its length fits the prefix.
pub proof fn law_unpad_after_pad(plaintext: Seq<u8>, target: nat)
    requires
        plaintext.len() < 65536,
    ensures
        unpadded(padded(plaintext, target)) == Ok::<Seq<u8>, PadError>(plaintext),
{
    let packet = padded(plaintext, target);
    let prefix = bytes::le_bytes(plaintext.len(), 2);
    bytes::lemma_le_bytes_len(plaintext.len(), 2);
    law_padded_len(plaintext, target);
    assert(packet.take(2) =~= prefix);
    assert(bytes::byte_range(2) == 65536) by {
        reveal_with_fuel(bytes::byte_range, 3);
    }
    bytes::law_integer_round_trip(plaintext.len(), 2);
    assert(packet.subrange(2, 2 + plaintext.len() as int) =~= plaintext);
}

/// A padded packet has the larger of the target and the payload's natural size;
/// it shows the payload's length in its first two bytes, low byte first, then
/// holds the payload, and after that only zeros.
pub proof fn law_padded_layout(plaintext: Seq<u8>, target: nat)
    ensures
        ({
            let packet = padded(plaintext, target);
            let len = plaintext.len();
            &&& packet.len() >= len + 2
            &&& packet.len() >= target
            &&& packet.len() == len + 2 || packet.len() == target
            &&& packet[0] == len % 256
            &&& packet[1] == len / 256 % 256
            &&& packet.subrange(2, 2 + len as int) == plaintext
            &&& forall|i: int| 2 + len <= i < packet.len() ==> #[trigger] packet[i] == 0
        }),
{
    let packet = padded(plaintext, target);
    bytes::lemma_le_bytes_len(plaintext.len(), 2);
    bytes::lemma_le_bytes_pair(plaintext.len());
    assert(packet.subrange(2, 2 + plaintext.len() as int) =~= plaintext);
}

/// A packet holds the payload that its first two bytes give the length of. It is
/// refused exactly if it has no such bytes or ends before the payload does.
pub proof fn law_unpadded_reading(packet: Seq<u8>)
    ensures
        packet.len() < 2 ==> unpadded(packet) == Err::<Seq<u8>, PadError>(PadError::TooShort),
        packet.len() >= 2 ==> ({
            let len = packet[0] + 256 * packet[1];
            unpadded(packet) == if 2 + len <= packet.len() {
                Ok::<Seq<u8>, PadError>(packet.subrange(2, 2 + len))
            } else {
                Err::<Seq<u8>, PadError>(PadError::LengthExceedsPacket)
            }
        }),
{
    if packet.len() >= 2 {
        bytes::lemma_le_pair(packet[0], packet[1]);
        assert(packet.take(2) =~= seq![packet[0], packet[1]]);
    }
}

/// Pads `plaintext` up to `target` bytes. A payload that is larger, with its
/// 2-byte prefix, is left at its natural size: it is neither truncated nor
/// rejected.
pub fn pad(plaintext: &[u8], target: usize) -> (r: Vec<u8>)
    requires
        padded_len(plaintext@.len(), target as nat) <= isize::MAX,
    ensures
        r@ == padded(plaintext@, target as nat),
        r@.len() == padded_len(plaintext@.len(), target as nat),
{
    let prefixed_len: usize = plaintext.len() + 2;
    let total: usize = if prefixed_len > target {
        prefixed_len
    } else {
        target
    };
    let mut out: Vec<u8> = Vec::with_capacity(total);
    bytes::append(&mut out, &bytes::len_to_le(plaintext.len()));
    bytes::append(&mut out, plaintext);
    proof {
        bytes::lemma_le_bytes_len(plaintext@.len(), 2);
        law_padded_len(plaintext@, target as nat);
    }
    let ghost body = out@;
    out.resize(total, 0);
    assert(out@ =~= body + bytes::zeros((total - body.len()) as nat));
    out
}

/// The payload of a padded packet.
pub fn unpad(packet: &[u8]) -> (r: Result<&[u8], PadError>)
    ensures
        match r {
            Ok(body) => unpadded(packet@) == Ok::<Seq<u8>, PadError>(body@),
            Err(e) => unpadded(packet@) == Err::<Seq<u8>, PadError>(e),
        },
{
    if packet.len() < 2 {
        return Err(PadError::TooShort);
    }
    let len: usize = bytes::pair_value(packet[0], packet[1]);
    assert(packet@.take(2) =~= seq![packet@[0], packet@[1]]);
    if len > packet.len() - 2 {
        return Err(PadError::LengthExceedsPacket);
    }
    Ok(vstd::slice::slice_subrange(packet, 2, 2 + len))
}

} // verus!
