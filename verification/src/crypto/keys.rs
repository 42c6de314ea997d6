//! Key material: X25519 secrets and the two halves of an ML-KEM-768 key.
use vstd::prelude::*;

use crate::crypto::bytes;
use crate::crypto::primitives;

verus! {

/// An X25519 secret key. It is erased when dropped.
pub struct X25519Secret {
    secret: [u8; 32],
}

impl View for X25519Secret {
    type V = Seq<u8>;

    closed spec fn view(&self) -> Seq<u8> {
        self.secret@
    }
}

impl X25519Secret {
    /// A fresh random secret.
    pub fn random() -> (r: Self)
        ensures
            r@.len() == 32,
            primitives::x25519_drawn(r@),
    {
        X25519Secret { secret: primitives::draw_x25519() }
    }

    pub fn from_bytes(secret: [u8; 32]) -> (r: Self)
        ensures
            r@ == secret@,
    {
        X25519Secret { secret }
    }

    pub fn to_bytes(&self) -> (r: [u8; 32])
        ensures
            r@ == self@,
    {
        self.secret
    }

    /// The public key of this secret.
    pub fn public_key(&self) -> (r: [u8; 32])
        ensures
            r@ == primitives::x25519_public(self@),
            self@.len() == 32,
    {
        primitives::x25519_public_key(&self.secret)
    }

    /// The secret shared with the owner of `public`, who arrives at the same.
    pub fn diffie_hellman(&self, public: &[u8; 32]) -> (r: [u8; 32])
        ensures
            r@ == primitives::x25519_shared(self@, public@),
            forall|other: Seq<u8>|
                other.len() == 32 && public@ == #[trigger] primitives::x25519_public(other)
                    ==> primitives::dh_agree(self@, other),
    {
        primitives::x25519_diffie_hellman(&self.secret, public)
    }
}

impl Clone for X25519Secret {
    fn clone(&self) -> (r: Self)
        ensures
            r@ == self@,
    {
        X25519Secret { secret: self.secret }
    }
}

impl Drop for X25519Secret {
    /// Erases the secret.
    fn drop(&mut self)
        ensures
            final(self)@ == bytes::zeros(32),
        opens_invariants none
        no_unwind
    {
        primitives::wipe(&mut self.secret);
    }
}

/// Why bytes are not an ML-KEM-768 encapsulation key.
#[derive(Debug, Clone, Copy, PartialEq, Eq, Structural)]
pub enum KemKeyError {
    /// They are not `KEM_KEY_LEN` many.
    BadLength,
    /// They fail the modulus check.
    Invalid,
}

/// The public half of an ML-KEM-768 key; always a valid one.
pub struct EncapsulationKey {
    key: Vec<u8>,
}

impl View for EncapsulationKey {
    type V = Seq<u8>;

    closed spec fn view(&self) -> Seq<u8> {
        self.key@
    }
}

/// What reading `data` as an encapsulation key gives.
pub open spec fn kem_key_checked(data: Seq<u8>) -> Result<Seq<u8>, KemKeyError> {
    if data.len() != primitives::KEM_KEY_LEN {
        Err(KemKeyError::BadLength)
    } else if !primitives::kem_key_valid(data) {
        Err(KemKeyError::Invalid)
    } else {
        Ok(data)
    }
}

/// Bytes are an encapsulation key exactly if there are 1184 of them and each of
/// the 768 numbers of 12 bits at the start of them is below 3329; they are then
/// the key as they stand. The length is looked at first.
pub proof fn law_kem_key_reading(data: Seq<u8>)
    ensures
        data.len() != 1184 ==> kem_key_checked(data) == Err::<Seq<u8>, KemKeyError>(
            KemKeyError::BadLength,
        ),
        data.len() == 1184 ==> kem_key_checked(data) == if forall|i: int|
            0 <= i < 384 ==> {
                &&& #[trigger] data[3 * i] + 256 * (data[3 * i + 1] % 16) < 3329
                &&& data[3 * i + 1] / 16 + 16 * data[3 * i + 2] < 3329
            } {
            Ok::<Seq<u8>, KemKeyError>(data)
        } else {
            Err::<Seq<u8>, KemKeyError>(KemKeyError::Invalid)
        },
{
    if data.len() == 1184 {
        if primitives::kem_key_valid(data) {
            assert forall|i: int| 0 <= i < 384 implies {
                &&& #[trigger] data[3 * i] + 256 * (data[3 * i + 1] % 16) < 3329
                &&& data[3 * i + 1] / 16 + 16 * data[3 * i + 2] < 3329
            } by {
                assert(primitives::coefficients_reduced(data, i));
            }
        } else {
            let i = choose|i: int|
                0 <= i < 384 && !#[trigger] primitives::coefficients_reduced(data, i);
            assert(data[3 * i] == data[3 * i]);
        }
    }
}

/// A ciphertext and a shared key belong together under a key exactly if some 32
/// bytes of randomness give both.
pub proof fn law_encapsulation(ek: Seq<u8>, ct: Seq<u8>, shared: Seq<u8>)
    ensures
        primitives::kem_encapsulated(ek, ct, shared) <==> exists|m: [u8; 32]|
            (ct, shared) == #[trigger] primitives::kem_encaps(ek, m@),
{
}

impl EncapsulationKey {
    #[verifier::type_invariant]
    spec fn inv(&self) -> bool {
        primitives::kem_key_valid(self.key@)
    }

    /// The key that `data` encodes.
    pub fn new(data: &[u8]) -> (r: Result<EncapsulationKey, KemKeyError>)
        ensures
            match r {
                Ok(key) => kem_key_checked(data@) == Ok::<Seq<u8>, KemKeyError>(key@),
                Err(e) => kem_key_checked(data@) == Err::<Seq<u8>, KemKeyError>(e),
            },
    {
        if data.len() != primitives::KEM_KEY_LEN {
            return Err(KemKeyError::BadLength);
        }
        if !primitives::kem_key_check(data) {
            return Err(KemKeyError::Invalid);
        }
        let key: Vec<u8> = vstd::slice::slice_to_vec(data);
        Ok(EncapsulationKey { key })
    }

    pub fn as_bytes(&self) -> (r: &[u8])
        ensures
            r@ == self@,
            primitives::kem_key_valid(r@),
    {
        proof {
            use_type_invariant(self);
        }
        self.key.as_slice()
    }

    /// A fresh shared key, and the ciphertext that carries it to the holder of
    /// the private half.
    pub fn encapsulate(&self) -> (r: (Vec<u8>, [u8; 32]))
        ensures
            r.0@.len() == primitives::KEM_CIPHERTEXT_LEN,
            primitives::kem_encapsulated(self@, r.0@, r.1@),
            exists|m: [u8; 32]| (r.0@, r.1@) == #[trigger] primitives::kem_encaps(self@, m@),
    {
        proof {
            use_type_invariant(self);
        }
        let r = primitives::kem_encapsulate(self.key.as_slice());
        proof {
            law_encapsulation(self@, r.0@, r.1@);
        }
        r
    }
}

impl Clone for EncapsulationKey {
    fn clone(&self) -> (r: Self)
        ensures
            r@ == self@,
    {
        proof {
            use_type_invariant(self);
        }
        let key: Vec<u8> = vstd::slice::slice_to_vec(self.key.as_slice());
        EncapsulationKey { key }
    }
}

/// The private half of an ML-KEM-768 key, as the seed that it is derived from.
/// It is erased when dropped.
pub struct DecapsulationKey {
    seed: [u8; 64],
}

impl View for DecapsulationKey {
    type V = Seq<u8>;

    closed spec fn view(&self) -> Seq<u8> {
        self.seed@
    }
}

impl DecapsulationKey {
    /// A fresh random key pair.
    pub fn generate() -> (r: (DecapsulationKey, EncapsulationKey))
        ensures
            r.0@.len() == 64,
            r.1@ == primitives::kem_public(r.0@),
            primitives::kem_drawn(r.0@),
    {
        let (seed, key) = primitives::draw_kem();
        (DecapsulationKey { seed }, EncapsulationKey { key })
    }

    pub fn from_seed(seed: [u8; 64]) -> (r: Self)
        ensures
            r@ == seed@,
    {
        DecapsulationKey { seed }
    }

    /// The shared key that `ct` carries.
    pub fn decapsulate(&self, ct: &[u8]) -> (r: [u8; 32])
        requires
            ct@.len() == primitives::KEM_CIPHERTEXT_LEN,
        ensures
            r@ == primitives::kem_decaps(self@, ct@),
    {
        primitives::kem_decapsulate(&self.seed, ct)
    }
}

impl Clone for DecapsulationKey {
    fn clone(&self) -> (r: Self)
        ensures
            r@ == self@,
    {
        DecapsulationKey { seed: self.seed }
    }
}

impl Drop for DecapsulationKey {
    /// Erases the seed.
    fn drop(&mut self)
        ensures
            final(self)@ == bytes::zeros(64),
        opens_invariants none
        no_unwind
    {
        primitives::wipe(&mut self.seed);
    }
}

} // verus!
