//! Decentralized identifiers and the documents that describe them.

use crate::crypto::{hash_bytes, hash_of};
pub use crate::event::Did;
use crate::text::{base58_encode, base58_text};
use vstd::prelude::*;
use vstd::slice::slice_subrange;
use vstd::string::StringExecFns;

verus! {

/// A key of an identity, as its document lists it.
#[derive(Clone, Debug, PartialEq, Eq)]
pub struct VerificationMethod {
    /// The key's identifier: the identity, `#key-` and the version.
    pub id: String,
    /// The kind of key.
    pub key_type: String,
    /// The identity that controls the key.
    pub controller: Did,
    /// The public key in multibase: `z` and the key in base58.
    pub public_key_multibase: String,
    /// The version of the key, rising with every rotation.
    pub version: u64,
    /// Whether the key is in use.
    pub active: bool,
    /// From when the key is valid.
    pub valid_from: u64,
    /// When the key was revoked, if it was.
    pub revoked_at: Option<u64>,
}

/// A service that an identity offers.
#[derive(Clone, Debug, PartialEq, Eq)]
pub struct ServiceEndpoint {
    pub id: String,
    pub type_: String,
    pub endpoint: String,
}

/// The document of an identity: its keys and its services.
#[derive(Clone, Debug, PartialEq, Eq)]
pub struct DidDocument {
    pub id: Did,
    /// The keys, with their versions.
    pub verification_methods: Vec<VerificationMethod>,
    /// The services.
    pub services: Vec<ServiceEndpoint>,
    /// When the document was created.
    pub created: u64,
    /// When it was last changed.
    pub updated: u64,
}

/// What a verification method holds.
#[verifier::ext_equal]
pub struct VerificationMethodView {
    pub id: Seq<char>,
    pub key_type: Seq<char>,
    pub controller: Seq<char>,
    pub public_key_multibase: Seq<char>,
    pub version: u64,
    pub active: bool,
    pub valid_from: u64,
    pub revoked_at: Option<u64>,
}

/// What a service endpoint holds.
#[verifier::ext_equal]
pub struct ServiceEndpointView {
    pub id: Seq<char>,
    pub type_: Seq<char>,
    pub endpoint: Seq<char>,
}

/// What a document holds.
#[verifier::ext_equal]
pub struct DidDocumentView {
    pub id: Seq<char>,
    pub verification_methods: Seq<VerificationMethodView>,
    pub services: Seq<ServiceEndpointView>,
    pub created: u64,
    pub updated: u64,
}

impl View for VerificationMethod {
    type V = VerificationMethodView;

    open spec fn view(&self) -> VerificationMethodView {
        VerificationMethodView {
            id: self.id@,
            key_type: self.key_type@,
            controller: self.controller@,
            public_key_multibase: self.public_key_multibase@,
            version: self.version,
            active: self.active,
            valid_from: self.valid_from,
            revoked_at: self.revoked_at,
        }
    }
}

impl View for ServiceEndpoint {
    type V = ServiceEndpointView;

    open spec fn view(&self) -> ServiceEndpointView {
        ServiceEndpointView { id: self.id@, type_: self.type_@, endpoint: self.endpoint@ }
    }
}

impl View for DidDocument {
    type V = DidDocumentView;

    open spec fn view(&self) -> DidDocumentView {
        DidDocumentView {
            id: self.id@,
            verification_methods: self.verification_methods@.map_values(
                |m: VerificationMethod| m@,
            ),
            services: self.services@.map_values(|s: ServiceEndpoint| s@),
            created: self.created,
            updated: self.updated,
        }
    }
}

impl VerificationMethod {
    /// A copy of the method.
    pub fn duplicate(&self) -> (copy: VerificationMethod)
        ensures
            copy@ == self@,
    {
        VerificationMethod {
            id: self.id.clone(),
            key_type: self.key_type.clone(),
            controller: self.controller.clone(),
            public_key_multibase: self.public_key_multibase.clone(),
            version: self.version,
            active: self.active,
            valid_from: self.valid_from,
            revoked_at: self.revoked_at,
        }
    }
}

/// The identifier that belongs to a public key: `did:exo:` and, in base58,
/// the first 20 bytes of the key's hash.
pub open spec fn did_text(public_key: Seq<u8>) -> Seq<char> {
    "did:exo:"@ + base58_text(hash_of(public_key)@.subrange(0, 20))
}

/// Derives the identifier of a public key.
pub fn derive_did(public_key_bytes: &[u8]) -> (did: Did)
    ensures
        did@ == did_text(public_key_bytes@),
{
    let hash = hash_bytes(public_key_bytes);
    let truncated = slice_subrange(hash.as_bytes(), 0, 20);
    let encoded = base58_encode(truncated);
    let mut did = "did:exo:".to_owned();
    did.append(encoded.as_str());
    did
}

} // verus!
