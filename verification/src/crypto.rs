//! The 256-bit hash and the domain-separated event signature.

use crate::seqs::array_of_32;
use crate::text::{hex_bytes, hex_decode, hex_encode, hex_text};
use ed25519_dalek::{Signer, Verifier};
use vstd::array::spec_array_fill_for_copy_type;
use vstd::prelude::*;
use vstd::std_specs::convert::FromSpecImpl;
use vstd::std_specs::cmp::PartialEqSpecImpl;
use vstd::string::StringSliceAdditionalSpecFns;

verus! {

/// A 32-byte BLAKE3 digest. Two hashes are equal exactly when their bytes are.
#[derive(Clone, Copy, Eq, PartialOrd, Ord, Hash, Debug)]
pub struct Blake3Hash(pub [u8; 32]);

impl PartialEq for Blake3Hash {
    fn eq(&self, other: &Blake3Hash) -> (r: bool) {
        let mut i: usize = 0;
        while i < 32
            invariant
                i <= 32,
                forall|j: int| 0 <= j < i ==> self.0@[j] == other.0@[j],
            decreases 32 - i,
        {
            if self.0[i] != other.0[i] {
                return false;
            }
            i += 1;
        }
        assert(self.0 =~= other.0);
        true
    }
}

impl PartialEqSpecImpl for Blake3Hash {
    open spec fn obeys_eq_spec() -> bool {
        true
    }

    open spec fn eq_spec(&self, other: &Blake3Hash) -> bool {
        *self == *other
    }
}

impl View for Blake3Hash {
    type V = Seq<u8>;

    open spec fn view(&self) -> Seq<u8> {
        self.0@
    }
}

/// Two hashes with the same bytes are the same hash.
pub proof fn lemma_hash_by_bytes(a: Blake3Hash, b: Blake3Hash)
    requires
        a@ == b@,
    ensures
        a == b,
{
    assert(a.0 =~= b.0);
}

/// The BLAKE3 digest of a byte string.
pub uninterp spec fn blake3_digest(data: Seq<u8>) -> [u8; 32];

/// The hash of a byte string.
pub open spec fn hash_of(data: Seq<u8>) -> Blake3Hash {
    Blake3Hash(blake3_digest(data))
}

/// Calls `blake3::hash` and copies the 32 bytes of its output. The digest is a
/// function of the input bytes alone; nothing else is claimed of it.
#[verifier::external_body]
fn blake3_of(data: &[u8]) -> (digest: [u8; 32])
    ensures
        digest == blake3_digest(data@),
{
    *blake3::hash(data).as_bytes()
}

/// The all-zero hash, which stands for the root of an empty accumulator.
pub open spec fn zero_hash() -> Blake3Hash {
    Blake3Hash(spec_array_fill_for_copy_type(0u8))
}

/// The hash of two hashes laid side by side, left first.
pub open spec fn pair_hash(left: Blake3Hash, right: Blake3Hash) -> Blake3Hash {
    hash_of(left@ + right@)
}

impl Blake3Hash {
    /// The all-zero hash.
    pub fn zero() -> (z: Blake3Hash)
        ensures
            z == zero_hash(),
    {
        Blake3Hash([0u8; 32])
    }

    /// The hash in hexadecimal, its human-readable form.
    pub fn to_hex(&self) -> (text: String)
        ensures
            text@ == hex_text(self@),
    {
        hex_encode(self.0.as_slice())
    }

    /// The hash that a hexadecimal text stands for: none where the text is no
    /// hexadecimal, or stands for more or fewer than 32 bytes.
    pub fn from_hex(text: &str) -> (hash: Option<Blake3Hash>)
        ensures
            match hash {
                Some(h) => hex_bytes(text@) == Some(h@),
                None => hex_bytes(text@) is None || hex_bytes(text@)->0.len() != 32,
            },
    {
        match hex_decode(text) {
            Some(bytes) => Blake3Hash::from_slice(bytes.as_slice()),
            None => None,
        }
    }

    /// The hash with the given bytes, its binary form: none where they are
    /// more or fewer than 32.
    pub fn from_slice(bytes: &[u8]) -> (hash: Option<Blake3Hash>)
        ensures
            match hash {
                Some(h) => h@ == bytes@,
                None => bytes@.len() != 32,
            },
    {
        match array_of_32(bytes) {
            Some(array) => Some(Blake3Hash(array)),
            None => None,
        }
    }

    /// The 32 bytes of the hash.
    pub fn as_bytes(&self) -> (bytes: &[u8])
        ensures
            bytes@ == self@,
    {
        self.0.as_slice()
    }
}

impl From<[u8; 32]> for Blake3Hash {
    fn from(bytes: [u8; 32]) -> (h: Blake3Hash) {
        Blake3Hash(bytes)
    }
}

impl FromSpecImpl<[u8; 32]> for Blake3Hash {
    open spec fn obeys_from_spec() -> bool {
        true
    }

    open spec fn from_spec(bytes: [u8; 32]) -> Blake3Hash {
        Blake3Hash(bytes)
    }
}

/// Computes the BLAKE3 hash of a byte slice.
pub fn hash_bytes(data: &[u8]) -> (h: Blake3Hash)
    ensures
        h == hash_of(data@),
{
    Blake3Hash(blake3_of(data))
}

/// Hashes two hashes laid side by side, left first.
pub fn hash_pair(left: &Blake3Hash, right: &Blake3Hash) -> (h: Blake3Hash)
    ensures
        h == pair_hash(*left, *right),
{
    let mut buf: Vec<u8> = Vec::with_capacity(64);
    buf.extend_from_slice(left.0.as_slice());
    buf.extend_from_slice(right.0.as_slice());
    assert(buf@ =~= left@ + right@);
    hash_bytes(buf.as_slice())
}

/// The Ed25519 verification failure, carried through as it comes.
#[verifier::external_type_specification]
#[verifier::external_body]
pub struct ExSignatureError(ed25519_dalek::SignatureError);

/// The Ed25519 public key that belongs to a 32-byte secret key.
pub uninterp spec fn ed25519_public_key(secret: Seq<u8>) -> [u8; 32];

/// The Ed25519 signature of a message under a 32-byte secret key.
pub uninterp spec fn ed25519_signature(secret: Seq<u8>, message: Seq<u8>) -> [u8; 64];

/// Whether Ed25519 verification accepts a signature on a message under the
/// 32 bytes of a public key. Bytes that are no valid public key accept nothing.
pub uninterp spec fn ed25519_accepts(public: Seq<u8>, message: Seq<u8>, signature: Seq<u8>) -> bool;

/// Whether 32 bytes are an Ed25519 public key, that is a point of the curve.
pub uninterp spec fn ed25519_is_key(public: Seq<u8>) -> bool;

/// Calls `ed25519_dalek::VerifyingKey::from_bytes` and tells whether it gave a
/// key. The answer is a function of the bytes alone.
#[verifier::external_body]
pub(crate) fn ed25519_key_valid(public: &[u8; 32]) -> (valid: bool)
    ensures
        valid == ed25519_is_key(public@),
{
    ed25519_dalek::VerifyingKey::from_bytes(public).is_ok()
}

/// Builds an `ed25519_dalek::SigningKey` from the secret bytes and returns
/// the bytes of its `verifying_key()`. The key pair is derived from the secret
/// alone.
#[verifier::external_body]
pub(crate) fn ed25519_public_of(secret: &[u8; 32]) -> (public: [u8; 32])
    ensures
        public == ed25519_public_key(secret@),
{
    ed25519_dalek::SigningKey::from_bytes(secret).verifying_key().to_bytes()
}

/// Calls `Signer::sign` of `ed25519_dalek::SigningKey`, which never fails for
/// this key type. Signing is deterministic: the signature is a function of the
/// secret and the message. The crate's own verification accepts what it
/// signed under the matching public key.
#[verifier::external_body]
pub(crate) fn ed25519_sign(secret: &[u8; 32], message: &[u8]) -> (signature: [u8; 64])
    ensures
        signature == ed25519_signature(secret@, message@),
        ed25519_accepts(ed25519_public_key(secret@)@, message@, signature@),
{
    ed25519_dalek::SigningKey::from_bytes(secret).sign(message).to_bytes()
}

/// Calls `Verifier::verify` of `ed25519_dalek::VerifyingKey` on the key that
/// `VerifyingKey::from_bytes` builds; bytes that are no curve point come back
/// as the error of `from_bytes`. The verdict is a function of the three byte
/// strings.
#[verifier::external_body]
pub(crate) fn ed25519_verify(public: &[u8; 32], message: &[u8], signature: &[u8; 64]) -> (res: Result<
    (),
    ed25519_dalek::SignatureError,
>)
    ensures
        res.is_ok() == ed25519_accepts(public@, message@, signature@),
{
    match ed25519_dalek::VerifyingKey::from_bytes(public) {
        Ok(key) => key.verify(message, &ed25519_dalek::Signature::from_bytes(signature)),
        Err(e) => Err(e),
    }
}

/// The protocol version byte that follows the event domain tag.
pub const PROTOCOL_VERSION: u8 = 1;

/// The ASCII tag that opens every event signature preimage.
pub open spec fn event_domain() -> Seq<u8> {
    "EXOCHAIN-EVENT-SIG-v1".spec_bytes()
}

/// What is signed for an event: the domain tag, the version byte, the id.
pub open spec fn event_signing_preimage(event_id: Blake3Hash) -> Seq<u8> {
    event_domain() + seq![PROTOCOL_VERSION] + event_id@
}

/// What is signed for an event is never the bare id: the tag and the version
/// byte stand before it, so the signature is one on other bytes than the 32
/// of the id.
pub proof fn lemma_preimage_is_not_the_id(event_id: Blake3Hash)
    ensures
        event_signing_preimage(event_id) != event_id@,
        event_signing_preimage(event_id).len() == event_domain().len() + 33,
{
    assert(event_id@.len() == 32);
}

/// Builds the event signature preimage.
pub fn build_event_preimage(event_id: &Blake3Hash) -> (preimage: Vec<u8>)
    ensures
        preimage@ == event_signing_preimage(*event_id),
{
    let mut preimage: Vec<u8> = Vec::new();
    preimage.extend_from_slice("EXOCHAIN-EVENT-SIG-v1".as_bytes());
    preimage.push(PROTOCOL_VERSION);
    preimage.extend_from_slice(event_id.0.as_slice());
    preimage
}

/// The public key of a secret key.
pub fn public_key_of(signing_key: &[u8; 32]) -> (public: [u8; 32])
    ensures
        public == ed25519_public_key(signing_key@),
{
    ed25519_public_of(signing_key)
}

/// Signs an event id under the event domain.
pub fn compute_signature(signing_key: &[u8; 32], event_id: &Blake3Hash) -> (signature: [u8; 64])
    ensures
        signature == ed25519_signature(signing_key@, event_signing_preimage(*event_id)),
        ed25519_accepts(
            ed25519_public_key(signing_key@)@,
            event_signing_preimage(*event_id),
            signature@,
        ),
{
    let preimage = build_event_preimage(event_id);
    ed25519_sign(signing_key, preimage.as_slice())
}

/// Verifies a signature on an event id under the event domain.
pub fn verify_signature(public_key: &[u8; 32], event_id: &Blake3Hash, signature: &[u8; 64]) -> (res:
    Result<(), ed25519_dalek::SignatureError>)
    ensures
        res.is_ok() == ed25519_accepts(
            public_key@,
            event_signing_preimage(*event_id),
            signature@,
        ),
{
    let preimage = build_event_preimage(event_id);
    ed25519_verify(public_key, preimage.as_slice(), signature)
}

} // verus!
