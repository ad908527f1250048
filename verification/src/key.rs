//! Keys of an identity: how they are looked up, checked and rotated.

use crate::crypto::{
    ed25519_accepts, ed25519_is_key, ed25519_key_valid, event_signing_preimage, verify_signature,
    Blake3Hash,
};
use crate::did::{DidDocument, DidDocumentView, VerificationMethod, VerificationMethodView};
use crate::event::Did;
use crate::seqs::array_of_32;
use crate::text::{base58_bytes, base58_decode, base58_encode, base58_text, decimal_string, decimal_text};
use vstd::prelude::*;
use vstd::string::{StrSliceExecFns, StringExecFns};

verus! {

/// Why a key could not be had or used.
#[derive(Debug)]
pub enum KeyError {
    /// No such key.
    NotFound(String),
    /// The key was revoked.
    Revoked(String),
    /// The key is past its time.
    Expired(String),
    /// The key's text is in no known format.
    InvalidFormat,
    /// The signature does not verify under the key.
    InvalidSignature,
    /// The key's bytes could not be read.
    CryptoError,
}

/// Where the public keys of identities are kept, by identifier and version.
pub trait KeyVault {
    /// The keys in the vault, by identifier and version.
    spec fn keys(&self) -> Map<(Seq<char>, u64), [u8; 32]>;

    /// Whether the vault never fails of its own: it hands out every key that
    /// it holds. A vault in memory is such a vault; one that revokes keys,
    /// lets them expire or sits behind a network need not be.
    spec fn never_fails(&self) -> bool;

    /// The public key that an identity had at a version. A vault may turn a
    /// request down for reasons of its own; a key that it hands out is the
    /// one it holds.
    fn get_key(&self, did: &Did, version: u64) -> (res: Result<[u8; 32], KeyError>)
        ensures
            res matches Ok(key) ==> self.keys().contains_key((did@, version)) && self.keys()[(
                did@,
                version,
            )] == key,
            self.never_fails() && self.keys().contains_key((did@, version)) ==> res is Ok,
    ;

    /// Keeps a public key for an identity at a version.
    fn store_key(&mut self, did: &Did, key: [u8; 32], version: u64) -> (res: Result<(), KeyError>)
        ensures
            match res {
                Ok(_) => final(self).keys() == old(self).keys().insert((did@, version), key),
                Err(_) => final(self).keys() == old(self).keys(),
            },
            old(self).never_fails() ==> res is Ok,
            final(self).never_fails() == old(self).never_fails(),
    ;
}

/// One key of a vault in memory.
#[derive(Debug)]
pub struct VaultEntry {
    pub did: Did,
    pub version: u64,
    pub key: [u8; 32],
}

/// No two of the entries are for the same identity and version.
pub open spec fn distinct_entries(entries: Seq<VaultEntry>) -> bool {
    forall|i: int, j: int|
        0 <= i < j < entries.len() ==> !((#[trigger] entries[i]).did@ == (#[trigger] entries[j]).did@
            && entries[i].version == entries[j].version)
}

/// The map that a sequence of entries stands for.
pub open spec fn entries_keys(entries: Seq<VaultEntry>) -> Map<(Seq<char>, u64), [u8; 32]> {
    Map::new(
        |at: (Seq<char>, u64)|
            exists|i: int|
                0 <= i < entries.len() && (#[trigger] entries[i]).did@ == at.0 && entries[i].version
                    == at.1,
        |at: (Seq<char>, u64)|
            entries[choose|i: int|
                0 <= i < entries.len() && (#[trigger] entries[i]).did@ == at.0 && entries[i].version
                    == at.1].key,
    )
}

/// Among distinct entries the map gives each identity and version its key.
proof fn lemma_entry_at(entries: Seq<VaultEntry>, i: int)
    requires
        distinct_entries(entries),
        0 <= i < entries.len(),
    ensures
        entries_keys(entries).contains_key((entries[i].did@, entries[i].version)),
        entries_keys(entries)[(entries[i].did@, entries[i].version)] == entries[i].key,
{
    let at = (entries[i].did@, entries[i].version);
    let j = choose|j: int|
        0 <= j < entries.len() && (#[trigger] entries[j]).did@ == at.0 && entries[j].version
            == at.1;
    assert(j == i);
}

/// Putting a key in the place of an entry, or behind the entries where there
/// is none for the identity and version, maps them to the key and keeps the
/// rest.
proof fn lemma_entry_put(entries: Seq<VaultEntry>, place: int, entry: VaultEntry)
    requires
        distinct_entries(entries),
        0 <= place <= entries.len(),
        place < entries.len() ==> entries[place].did@ == entry.did@ && entries[place].version
            == entry.version,
        place == entries.len() ==> !entries_keys(entries).contains_key((entry.did@, entry.version)),
    ensures
        ({
            let after = if place < entries.len() {
                entries.update(place, entry)
            } else {
                entries.push(entry)
            };
            &&& distinct_entries(after)
            &&& entries_keys(after) == entries_keys(entries).insert(
                (entry.did@, entry.version),
                entry.key,
            )
        }),
{
    let after = if place < entries.len() {
        entries.update(place, entry)
    } else {
        entries.push(entry)
    };
    let at = (entry.did@, entry.version);
    assert forall|i: int, j: int| 0 <= i < j < after.len() implies !((#[trigger] after[i]).did@ == (
    #[trigger] after[j]).did@ && after[i].version == after[j].version) by {
        if place < entries.len() {
            assert(after[i].did@ == entries[i].did@ && after[i].version == entries[i].version);
            assert(after[j].did@ == entries[j].did@ && after[j].version == entries[j].version);
        } else if j == entries.len() {
            assert(after[i] == entries[i]);
            if entries[i].did@ == at.0 && entries[i].version == at.1 {
                assert(entries_keys(entries).contains_key(at));
            }
        } else {
            assert(after[i] == entries[i] && after[j] == entries[j]);
        }
    }
    let m = entries_keys(entries).insert(at, entry.key);
    let n = entries_keys(after);
    assert forall|k: (Seq<char>, u64)| n.contains_key(k) <==> m.contains_key(k) by {
        if n.contains_key(k) {
            let i = choose|i: int|
                0 <= i < after.len() && (#[trigger] after[i]).did@ == k.0 && after[i].version == k.1;
            if i != place {
                assert(entries[i].did@ == k.0 && entries[i].version == k.1);
            }
        }
        if m.contains_key(k) && k != at {
            let i = choose|i: int|
                0 <= i < entries.len() && (#[trigger] entries[i]).did@ == k.0
                    && entries[i].version == k.1;
            assert(after[i].did@ == k.0 && after[i].version == k.1);
        }
        if k == at {
            assert(after[place].did@ == k.0 && after[place].version == k.1);
        }
    }
    assert forall|k: (Seq<char>, u64)| n.contains_key(k) implies #[trigger] n[k] == m[k] by {
        let i = choose|i: int|
            0 <= i < after.len() && (#[trigger] after[i]).did@ == k.0 && after[i].version == k.1;
        lemma_entry_at(after, i);
        if i != place {
            assert(after[i] == entries[i]);
            lemma_entry_at(entries, i);
        }
    }
    assert(n =~= m);
}

/// A vault in memory.
#[derive(Debug)]
pub struct MemoryVault {
    entries: Vec<VaultEntry>,
}

impl MemoryVault {
    #[verifier::type_invariant]
    spec fn entries_distinct(&self) -> bool {
        distinct_entries(self.entries@)
    }

    /// The empty vault.
    pub fn new() -> (vault: MemoryVault)
        ensures
            vault.keys() == Map::<(Seq<char>, u64), [u8; 32]>::empty(),
    {
        let vault = MemoryVault { entries: Vec::new() };
        assert(vault.keys() =~= Map::<(Seq<char>, u64), [u8; 32]>::empty());
        vault
    }

    /// The place of the entry for an identity and a version.
    fn position(&self, did: &Did, version: u64) -> (place: Option<usize>)
        ensures
            match place {
                Some(i) => i < self.entries@.len() && self.entries@[i as int].did@ == did@
                    && self.entries@[i as int].version == version,
                None => !self.keys().contains_key((did@, version)),
            },
    {
        let mut i: usize = 0;
        while i < self.entries.len()
            invariant
                i <= self.entries@.len(),
                forall|j: int|
                    0 <= j < i ==> !((#[trigger] self.entries@[j]).did@ == did@
                        && self.entries@[j].version == version),
            decreases self.entries@.len() - i,
        {
            if self.entries[i].version == version && self.entries[i].did == *did {
                return Some(i);
            }
            i += 1;
        }
        None
    }
}

impl KeyVault for MemoryVault {
    closed spec fn keys(&self) -> Map<(Seq<char>, u64), [u8; 32]> {
        entries_keys(self.entries@)
    }

    open spec fn never_fails(&self) -> bool {
        true
    }

    fn get_key(&self, did: &Did, version: u64) -> (res: Result<[u8; 32], KeyError>)
        ensures
            res is Ok <==> self.keys().contains_key((did@, version)),
            res matches Err(e) ==> e matches KeyError::NotFound(id) && id@ == did@,
    {
        proof {
            use_type_invariant(self);
        }
        match self.position(did, version) {
            Some(i) => {
                proof {
                    lemma_entry_at(self.entries@, i as int);
                }
                Ok(self.entries[i].key)
            },
            None => Err(KeyError::NotFound(did.clone())),
        }
    }

    fn store_key(&mut self, did: &Did, key: [u8; 32], version: u64) -> (res: Result<(), KeyError>)
        ensures
            res is Ok,
    {
        proof {
            use_type_invariant(&*self);
        }
        let place = self.position(did, version);
        let ghost before = self.entries@;
        let mut taken = MemoryVault::new();
        core::mem::swap(self, &mut taken);
        let MemoryVault { entries } = taken;
        let mut entries = entries;
        let entry = VaultEntry { did: did.clone(), version, key };
        match place {
            Some(i) => {
                proof {
                    lemma_entry_put(before, i as int, entry);
                }
                entries.set(i, entry);
            },
            None => {
                proof {
                    lemma_entry_put(before, before.len() as int, entry);
                }
                entries.push(entry);
            },
        }
        *self = MemoryVault { entries };
        Ok(())
    }
}

/// The place of the first method from `from` on that has the given id.
pub open spec fn method_position(
    methods: Seq<VerificationMethodView>,
    key_id: Seq<char>,
    from: nat,
) -> Option<nat>
    decreases methods.len() - from,
{
    if from >= methods.len() {
        None
    } else if methods[from as int].id == key_id {
        Some(from)
    } else {
        method_position(methods, key_id, from + 1)
    }
}

/// What the check of a signature against a document comes to.
pub enum SignatureVerdict {
    /// The signature verifies under the key.
    Valid,
    /// The document has no key of that id.
    UnknownKey,
    /// The key is not in use.
    InactiveKey,
    /// The key's text is no `z` with 32 bytes in base58 that are a public key.
    UnreadableKey,
    /// The signature does not verify under the key.
    Rejected,
}

/// The public key that a multibase text stands for: the text is `z` and then,
/// in base58, 32 bytes that are a public key.
pub open spec fn multibase_key(text: Seq<char>) -> Option<Seq<u8>> {
    if text.len() == 0 || text[0] != 'z' {
        None
    } else {
        match base58_bytes(text.subrange(1, text.len() as int)) {
            Some(bytes) => if bytes.len() == 32 && ed25519_is_key(bytes) {
                Some(bytes)
            } else {
                None
            },
            None => None,
        }
    }
}

/// The verdict on a signature on a hash, under the key of a document that has
/// the given id. The first method of that id counts.
pub open spec fn signature_verdict(
    doc: DidDocumentView,
    key_id: Seq<char>,
    message_hash: Blake3Hash,
    signature: Seq<u8>,
) -> SignatureVerdict {
    match method_position(doc.verification_methods, key_id, 0) {
        None => SignatureVerdict::UnknownKey,
        Some(i) => {
            let method = doc.verification_methods[i as int];
            if !method.active {
                SignatureVerdict::InactiveKey
            } else {
                match multibase_key(method.public_key_multibase) {
                    None => SignatureVerdict::UnreadableKey,
                    Some(key) => if ed25519_accepts(
                        key,
                        event_signing_preimage(message_hash),
                        signature,
                    ) {
                        SignatureVerdict::Valid
                    } else {
                        SignatureVerdict::Rejected
                    },
                }
            }
        },
    }
}

/// Finds the first method of a document that has the given id.
fn find_method(doc: &DidDocument, key_id: &str) -> (place: Option<usize>)
    ensures
        match place {
            Some(i) => i < doc.verification_methods@.len() && method_position(
                doc@.verification_methods,
                key_id@,
                0,
            ) == Some(i as nat),
            None => method_position(doc@.verification_methods, key_id@, 0) is None,
        },
{
    let wanted = key_id.to_owned();
    let mut i: usize = 0;
    while i < doc.verification_methods.len()
        invariant
            i <= doc.verification_methods@.len(),
            wanted@ == key_id@,
            method_position(doc@.verification_methods, key_id@, 0) == method_position(
                doc@.verification_methods,
                key_id@,
                i as nat,
            ),
        decreases doc.verification_methods@.len() - i,
    {
        assert(doc@.verification_methods[i as int] == doc.verification_methods@[i as int]@);
        if doc.verification_methods[i].id == wanted {
            return Some(i);
        }
        i += 1;
    }
    None
}

/// Reads the public key out of a multibase text.
fn read_multibase_key(text: &str) -> (key: Option<[u8; 32]>)
    ensures
        match key {
            Some(k) => multibase_key(text@) == Some(k@),
            None => multibase_key(text@) is None,
        },
{
    let len = text.unicode_len();
    if len == 0 || text.get_char(0) != 'z' {
        return None;
    }
    let rest = text.substring_char(1, len);
    match base58_decode(rest) {
        Some(bytes) => match array_of_32(bytes.as_slice()) {
            Some(key) => if ed25519_key_valid(&key) {
                Some(key)
            } else {
                None
            },
            None => None,
        },
        None => None,
    }
}

/// Verifies a signature on a hash against the key of a document that has the
/// given id.
pub fn verify_did_signature(
    doc: &DidDocument,
    key_id: &str,
    message_hash: &Blake3Hash,
    signature: &[u8; 64],
) -> (res: Result<(), KeyError>)
    ensures
        match res {
            Ok(_) => signature_verdict(doc@, key_id@, *message_hash, signature@) is Valid,
            Err(KeyError::NotFound(id)) => id@ == key_id@ && signature_verdict(
                doc@,
                key_id@,
                *message_hash,
                signature@,
            ) is UnknownKey,
            Err(KeyError::Revoked(id)) => id@ == key_id@ && signature_verdict(
                doc@,
                key_id@,
                *message_hash,
                signature@,
            ) is InactiveKey,
            Err(KeyError::CryptoError) => signature_verdict(
                doc@,
                key_id@,
                *message_hash,
                signature@,
            ) is UnreadableKey,
            Err(KeyError::InvalidSignature) => signature_verdict(
                doc@,
                key_id@,
                *message_hash,
                signature@,
            ) is Rejected,
            Err(KeyError::Expired(_)) => false,
            Err(KeyError::InvalidFormat) => false,
        },
{
    let place = match find_method(doc, key_id) {
        Some(place) => place,
        None => {
            return Err(KeyError::NotFound(key_id.to_owned()));
        },
    };
    assert(doc@.verification_methods[place as int] == doc.verification_methods@[place as int]@);
    let method = &doc.verification_methods[place];
    if !method.active {
        return Err(KeyError::Revoked(key_id.to_owned()));
    }
    let key = match read_multibase_key(method.public_key_multibase.as_str()) {
        Some(key) => key,
        None => {
            return Err(KeyError::CryptoError);
        },
    };
    match verify_signature(&key, message_hash, signature) {
        Ok(_) => Ok(()),
        Err(_) => Err(KeyError::InvalidSignature),
    }
}

/// The method that a rotation adds: the next version of the old key, in use,
/// with the new public key.
pub open spec fn rotated_method(
    doc_id: Seq<char>,
    old_version: u64,
    new_public_key: Seq<u8>,
    controller: Seq<char>,
) -> VerificationMethodView {
    VerificationMethodView {
        id: doc_id + "#key-"@ + decimal_text((old_version + 1) as u64),
        key_type: "Ed25519VerificationKey2020"@,
        controller: controller,
        public_key_multibase: "z"@ + base58_text(new_public_key),
        version: (old_version + 1) as u64,
        active: true,
        valid_from: 0,
        revoked_at: None,
    }
}

/// Rotates a key of a document: the old key goes out of use and its successor
/// is added behind the others. Gives back the new method.
pub fn rotate_key(
    doc: &mut DidDocument,
    old_key_id: &str,
    new_public_key: &[u8; 32],
    controller: &Did,
) -> (res: Result<VerificationMethod, KeyError>)
    requires
        method_position(old(doc)@.verification_methods, old_key_id@, 0) matches Some(i) ==> old(
            doc,
        )@.verification_methods[i as int].version < u64::MAX,
    ensures
        match res {
            Ok(new_method) => match method_position(old(doc)@.verification_methods, old_key_id@, 0) {
                Some(i) => {
                    let old_method = old(doc)@.verification_methods[i as int];
                    &&& new_method@ == rotated_method(
                        old(doc)@.id,
                        old_method.version,
                        new_public_key@,
                        controller@,
                    )
                    &&& final(doc)@ == DidDocumentView {
                        verification_methods: old(doc)@.verification_methods.update(
                            i as int,
                            VerificationMethodView { active: false, ..old_method },
                        ).push(new_method@),
                        updated: 0,
                        ..old(doc)@
                    }
                },
                None => false,
            },
            Err(KeyError::NotFound(id)) => id@ == old_key_id@ && method_position(
                old(doc)@.verification_methods,
                old_key_id@,
                0,
            ) is None && final(doc)@ == old(doc)@,
            Err(_) => false,
        },
{
    let place = match find_method(doc, old_key_id) {
        Some(place) => place,
        None => {
            return Err(KeyError::NotFound(old_key_id.to_owned()));
        },
    };
    let ghost before = doc@;
    assert(before.verification_methods[place as int] == doc.verification_methods@[place as int]@);
    let mut old_method = doc.verification_methods[place].duplicate();
    old_method.active = false;
    let new_version: u64 = old_method.version + 1;
    let version_text = decimal_string(new_version);
    let mut new_id = doc.id.clone();
    new_id.append("#key-");
    new_id.append(version_text.as_str());
    let encoded = base58_encode(new_public_key.as_slice());
    let mut multibase = "z".to_owned();
    multibase.append(encoded.as_str());
    let new_method = VerificationMethod {
        id: new_id,
        key_type: "Ed25519VerificationKey2020".to_owned(),
        controller: controller.clone(),
        public_key_multibase: multibase,
        version: new_version,
        active: true,
        valid_from: 0,
        revoked_at: None,
    };
    doc.verification_methods.set(place, old_method);
    doc.updated = 0;
    doc.verification_methods.push(new_method.duplicate());
    assert(doc@.verification_methods =~= before.verification_methods.update(
        place as int,
        VerificationMethodView { active: false, ..before.verification_methods[place as int] },
    ).push(new_method@));
    assert(doc@.services =~= before.services);
    Ok(new_method)
}

} // verus!
