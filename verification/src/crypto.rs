//! Ed25519 keys and signatures, and the calls into `sp_core::ed25519` that make and check
//! them.

use vstd::prelude::*;
use sp_core::Pair;

verus! {

/// An Ed25519 signature: sixty-four bytes.
#[derive(Clone, Copy, Debug, Eq)]
pub struct Signature {
    pub bytes: [u8; 64],
}

/// An Ed25519 public key: thirty-two bytes.
#[derive(Clone, Copy, Debug, Eq)]
pub struct PublicKey {
    pub bytes: [u8; 32],
}

/// An Ed25519 key pair, held as the seed it is made from.
#[derive(Clone, Copy, Debug)]
pub struct KeyPair {
    pub seed: [u8; 32],
}

impl Default for Signature {
    /// The signature whose bytes are all zero. It stands in the place of the signature while
    /// a payload that embeds one is signed or verified.
    fn default() -> (signature: Signature)
        ensures
            signature.bytes@ == Seq::new(64, |i: int| 0u8),
    {
        let signature = Signature { bytes: [0u8; 64] };
        assert(signature.bytes@ =~= Seq::new(64, |i: int| 0u8));
        signature
    }
}

impl PartialEq for Signature {
    fn eq(&self, other: &Signature) -> (same: bool) {
        let mut i: usize = 0;
        while i < 64
            invariant
                i <= 64,
                forall|j: int| 0 <= j < i ==> self.bytes[j] == other.bytes[j],
            decreases 64 - i,
        {
            if self.bytes[i] != other.bytes[i] {
                return false;
            }
            i += 1;
        }
        assert(self.bytes =~= other.bytes);
        true
    }
}

impl vstd::std_specs::cmp::PartialEqSpecImpl for Signature {
    open spec fn obeys_eq_spec() -> bool {
        true
    }

    open spec fn eq_spec(&self, other: &Signature) -> bool {
        self.bytes == other.bytes
    }
}

impl PartialEq for PublicKey {
    fn eq(&self, other: &PublicKey) -> (same: bool) {
        let mut i: usize = 0;
        while i < 32
            invariant
                i <= 32,
                forall|j: int| 0 <= j < i ==> self.bytes[j] == other.bytes[j],
            decreases 32 - i,
        {
            if self.bytes[i] != other.bytes[i] {
                return false;
            }
            i += 1;
        }
        assert(self.bytes =~= other.bytes);
        true
    }
}

impl vstd::std_specs::cmp::PartialEqSpecImpl for PublicKey {
    open spec fn obeys_eq_spec() -> bool {
        true
    }

    open spec fn eq_spec(&self, other: &PublicKey) -> bool {
        self.bytes == other.bytes
    }
}

/// The public key of the pair made from `seed`.
pub uninterp spec fn ed25519_public(seed: Seq<u8>) -> Seq<u8>;

/// The signature that the pair made from `seed` gives to `message`.
pub uninterp spec fn ed25519_signature(seed: Seq<u8>, message: Seq<u8>) -> Seq<u8>;

/// Whether `signature` is a good signature of `message` under the key `public`.
pub uninterp spec fn ed25519_accepts(signature: Seq<u8>, message: Seq<u8>, public: Seq<u8>) -> bool;

/// `Pair::public` of the `sp_core::ed25519::Pair` that `Pair::from_seed` makes: the key is a
/// function of the seed.
#[verifier::external_body]
pub(crate) fn ed25519_public_key(seed: &[u8; 32]) -> (public: [u8; 32])
    ensures
        public@ == ed25519_public(seed@),
{
    sp_core::ed25519::Pair::from_seed(seed).public().0
}

/// `Pair::sign` of the `sp_core::ed25519::Pair` that `Pair::from_seed` makes: the signature is
/// a function of the seed and the message.
#[verifier::external_body]
pub(crate) fn ed25519_sign(seed: &[u8; 32], message: &[u8]) -> (signature: [u8; 64])
    ensures
        signature@ == ed25519_signature(seed@, message@),
{
    sp_core::ed25519::Pair::from_seed(seed).sign(message).0
}

/// `Pair::verify` of `sp_core::ed25519::Pair`: the verdict is a function of the signature, the
/// message and the key.
#[verifier::external_body]
pub(crate) fn ed25519_verify(signature: &[u8; 64], message: &[u8], public: &[u8; 32]) -> (good:
    bool)
    ensures
        good == ed25519_accepts(signature@, message@, public@),
{
    sp_core::ed25519::Pair::verify(
        &sp_core::ed25519::Signature::from_raw(*signature),
        message,
        &sp_core::ed25519::Public::from_raw(*public),
    )
}

impl KeyPair {
    /// The public key of the pair.
    pub fn public(&self) -> (key: PublicKey)
        ensures
            key.bytes@ == ed25519_public(self.seed@),
    {
        PublicKey { bytes: ed25519_public_key(&self.seed) }
    }

    /// Signs `message`.
    pub fn sign(&self, message: &[u8]) -> (signature: Signature)
        ensures
            signature.bytes@ == ed25519_signature(self.seed@, message@),
    {
        Signature { bytes: ed25519_sign(&self.seed, message) }
    }
}

impl Signature {
    /// Whether this is a good signature of `message` under the key `signer`.
    pub fn verify(&self, message: &[u8], signer: &PublicKey) -> (good: bool)
        ensures
            good == ed25519_accepts(self.bytes@, message@, signer.bytes@),
    {
        ed25519_verify(&self.bytes, message, &signer.bytes)
    }
}

} // verus!
