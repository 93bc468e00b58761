//! Hashes, keys and signatures.
//!
//! Hashing is BLAKE2b with a 32-byte output and signatures are Ed25519; both
//! are computed by other crates, reached through the three wrappers below.

use crate::bytes::bytes_equal;
use blake2::Digest;
use ed25519_dalek::{Signer, Verifier};
use vstd::prelude::*;

verus! {

/// The BLAKE2b-256 digest of a byte string.
pub uninterp spec fn blake2b_256(bytes: Seq<u8>) -> [u8; 32];

/// The Ed25519 signature that a secret key gives a message.
pub uninterp spec fn ed25519_signature(secret: [u8; 32], message: Seq<u8>) -> [u8; 64];

/// Whether an Ed25519 signature verifies for a message under a public key.
pub uninterp spec fn ed25519_valid(public: [u8; 32], message: Seq<u8>, signature: [u8; 64]) -> bool;

/// Calls `blake2::Digest::digest` of `Blake2b<U32>`. The digest depends on
/// the input bytes alone; nothing else is claimed of it.
#[verifier::external_body]
fn digest(bytes: &[u8]) -> (r: [u8; 32])
    ensures
        r == blake2b_256(bytes@),
{
    blake2::Blake2b::<blake2::digest::consts::U32>::digest(bytes).into()
}

/// Calls `ed25519_dalek::SigningKey::sign` with the key made by
/// `SigningKey::from_bytes`. Ed25519 signing is deterministic: the signature
/// depends on the secret key and the message alone.
#[verifier::external_body]
fn sign_bytes(secret: &[u8; 32], message: &[u8]) -> (r: [u8; 64])
    ensures
        r == ed25519_signature(*secret, message@),
{
    ed25519_dalek::SigningKey::from_bytes(secret).sign(message).to_bytes()
}

/// Calls `ed25519_dalek::VerifyingKey::verify`. Bytes that are no public key
/// verify nothing. The verdict depends on the three arguments alone.
#[verifier::external_body]
fn verify_bytes(public: &[u8; 32], message: &[u8], signature: &[u8; 64]) -> (r: bool)
    ensures
        r == ed25519_valid(*public, message@, *signature),
{
    match ed25519_dalek::VerifyingKey::from_bytes(public) {
        Ok(key) => key.verify(message, &ed25519_dalek::Signature::from_bytes(signature)).is_ok(),
        Err(_) => false,
    }
}

/// A 32-byte content digest. All zeroes stands for "no previous block".
#[derive(Clone, Copy, Debug, Eq, Hash)]
pub struct Hash(pub [u8; 32]);

impl PartialEq for Hash {
    fn eq(&self, other: &Self) -> (r: bool) {
        let r = bytes_equal(self.0.as_slice(), other.0.as_slice());
        assert(r ==> self.0 =~= other.0);
        r
    }
}

impl vstd::std_specs::cmp::PartialEqSpecImpl for Hash {
    open spec fn obeys_eq_spec() -> bool {
        true
    }

    open spec fn eq_spec(&self, other: &Self) -> bool {
        *self == *other
    }
}

impl Hash {
    /// The zero hash.
    pub open spec fn zero() -> Hash {
        Hash(
            [
                0u8, 0u8, 0u8, 0u8, 0u8, 0u8, 0u8, 0u8, 0u8, 0u8, 0u8, 0u8, 0u8, 0u8, 0u8, 0u8,
                0u8, 0u8, 0u8, 0u8, 0u8, 0u8, 0u8, 0u8, 0u8, 0u8, 0u8, 0u8, 0u8, 0u8, 0u8, 0u8,
            ],
        )
    }

    /// The zero hash, which marks the start of a chain.
    pub fn zeroed() -> (h: Hash)
        ensures
            h == Hash::zero(),
    {
        let h = Hash([0u8; 32]);
        assert(h.0 =~= Hash::zero().0);
        h
    }
}

/// The hash of a byte string.
pub open spec fn hash_of(bytes: Seq<u8>) -> Hash {
    Hash(blake2b_256(bytes))
}

/// Hashes a byte string.
pub fn hash(bytes: Vec<u8>) -> (h: Hash)
    ensures
        h == hash_of(bytes@),
{
    Hash(digest(bytes.as_slice()))
}

/// A public key: the 32 bytes of an Ed25519 verifying key.
#[derive(Clone, Copy, Debug, Eq, Hash)]
pub struct PublicKey(pub [u8; 32]);

impl PartialEq for PublicKey {
    fn eq(&self, other: &Self) -> (r: bool) {
        let r = bytes_equal(self.0.as_slice(), other.0.as_slice());
        assert(r ==> self.0 =~= other.0);
        r
    }
}

impl vstd::std_specs::cmp::PartialEqSpecImpl for PublicKey {
    open spec fn obeys_eq_spec() -> bool {
        true
    }

    open spec fn eq_spec(&self, other: &Self) -> bool {
        *self == *other
    }
}

impl PublicKey {
    /// The key of 32 zero bytes, which stands where no key was given yet.
    pub open spec fn zero() -> PublicKey {
        PublicKey(
            [
                0u8, 0u8, 0u8, 0u8, 0u8, 0u8, 0u8, 0u8, 0u8, 0u8, 0u8, 0u8, 0u8, 0u8, 0u8, 0u8,
                0u8, 0u8, 0u8, 0u8, 0u8, 0u8, 0u8, 0u8, 0u8, 0u8, 0u8, 0u8, 0u8, 0u8, 0u8, 0u8,
            ],
        )
    }
}

/// A private key: the 32 bytes of an Ed25519 secret key.
#[derive(Clone, Copy, Debug)]
pub struct PrivateKey(pub [u8; 32]);

/// A public key with the private key that signs for it.
#[derive(Clone, Copy, Debug)]
pub struct KeyPair {
    /// The key under which signatures verify.
    pub public_key: PublicKey,
    /// The key that signs.
    pub private_key: PrivateKey,
}

/// A signature together with the public key it claims to come from.
#[derive(Clone, Copy, Debug)]
pub struct Signature {
    /// The key of the signer.
    pub public_key: PublicKey,
    /// The 64 bytes of the Ed25519 signature.
    pub signature: [u8; 64],
}

impl Signature {
    /// The signature that `key_pair` gives `payload`.
    pub open spec fn of(key_pair: KeyPair, payload: Seq<u8>) -> Signature {
        Signature {
            public_key: key_pair.public_key,
            signature: ed25519_signature(key_pair.private_key.0, payload),
        }
    }

    /// Whether this signature verifies for `payload` under its own public key.
    pub open spec fn valid_for(&self, payload: Seq<u8>) -> bool {
        ed25519_valid(self.public_key.0, payload, self.signature)
    }

    /// Signs `payload` with the private key of `key_pair`.
    pub fn new(key_pair: &KeyPair, payload: &[u8]) -> (s: Signature)
        ensures
            s == Signature::of(*key_pair, payload@),
    {
        Signature {
            public_key: key_pair.public_key,
            signature: sign_bytes(&key_pair.private_key.0, payload),
        }
    }

    /// Checks the signature against `payload`.
    pub fn verify(&self, payload: &[u8]) -> (r: bool)
        ensures
            r == self.valid_for(payload@),
    {
        verify_bytes(&self.public_key.0, payload, &self.signature)
    }
}

} // verus!
