use ed25519_dalek::{Signature, SigningKey, Verifier};
use exochain::crypto::{compute_signature, hash_bytes, public_key_of, Blake3Hash};
use exochain::did::{derive_did, DidDocument, ServiceEndpoint, VerificationMethod};
use exochain::key::{rotate_key, verify_did_signature, KeyError};
use exochain::risk::RiskAttestation;
use exochain::text::decimal_string;
use rand::rngs::OsRng;

fn method(did: &str, version: u64, public: &[u8; 32]) -> VerificationMethod {
    VerificationMethod {
        id: format!("{}#key-{}", did, version),
        key_type: "Ed25519VerificationKey2020".to_string(),
        controller: did.to_string(),
        public_key_multibase: format!("z{}", bs58::encode(public).into_string()),
        version,
        active: true,
        valid_from: 0,
        revoked_at: None,
    }
}

fn document(secret: &[u8; 32]) -> DidDocument {
    let public = public_key_of(secret);
    let did = derive_did(&public);
    DidDocument {
        verification_methods: vec![method(&did, 1, &public)],
        id: did,
        services: vec![ServiceEndpoint {
            id: "svc".to_string(),
            type_: "hub".to_string(),
            endpoint: "https://example.org".to_string(),
        }],
        created: 10,
        updated: 20,
    }
}

fn attestation(secret: &[u8; 32]) -> RiskAttestation {
    RiskAttestation::new(
        "did:exo:subject".to_string(),
        "did:exo:verifier".to_string(),
        85,
        9000,
        hash_bytes(b"factors"),
        hash_bytes(b"context"),
        12345,
        1000,
        300,
        "did:exo:issuer".to_string(),
        secret,
    )
}

#[test]
fn test_did_derivation_structure() {
    let dummy_key = [0u8; 32];
    let did = derive_did(&dummy_key);
    assert!(did.starts_with("did:exo:"));
    // 20 bytes -> base58 (~27-28 chars).
    // Just check prefix and non-empty.
}

#[test]
fn test_risk_attestation_flow() {
    let mut csprng = OsRng;
    let signing_key = SigningKey::generate(&mut csprng);
    let verifying_key = signing_key.verifying_key();
    let issuer_did = "did:exo:issuer".to_string();
    let subject_did = "did:exo:subject".to_string();

    // Create attestation
    let att = RiskAttestation::new(
        subject_did,
        "did:exo:verifier".to_string(),
        85,
        9000,
        hash_bytes(b"factors"),
        hash_bytes(b"context"),
        12345,
        1000,
        300, // duration
        issuer_did,
        &signing_key.to_bytes(),
    );

    // Verify
    assert!(att.verify(&verifying_key.to_bytes()).is_ok());
    assert!(!att.is_expired(1200));
    assert!(att.is_expired(1301));
}

#[test]
fn did_is_prefix_and_base58_of_the_hash_head() {
    let key = [7u8; 32];
    let did = derive_did(&key);
    let hash = blake3::hash(&key);
    let expected = format!("did:exo:{}", bs58::encode(&hash.as_bytes()[0..20]).into_string());
    assert_eq!(did, expected);
    assert!(did.len() > "did:exo:".len());
    assert_ne!(derive_did(&[8u8; 32]), did);
    let decoded = bs58::decode(&did["did:exo:".len()..]).into_vec().unwrap();
    assert_eq!(decoded, hash.as_bytes()[0..20].to_vec());
}

#[test]
fn attestation_fields_and_expiry() {
    let att = attestation(&[3u8; 32]);
    assert_eq!(att.subject, "did:exo:subject");
    assert_eq!(att.audience, "did:exo:verifier");
    assert_eq!(att.score, 85);
    assert_eq!(att.confidence_bps, 9000);
    assert_eq!(att.factors_hash, hash_bytes(b"factors"));
    assert_eq!(att.context_hash, hash_bytes(b"context"));
    assert_eq!(att.nonce, 12345);
    assert_eq!(att.issued_at, 1000);
    assert_eq!(att.expires_at, 1300);
    assert_eq!(att.issuer, "did:exo:issuer");
    assert!(!att.is_expired(0));
    assert!(!att.is_expired(1300));
    assert!(att.is_expired(1301));
    assert!(att.is_expired(u64::MAX));
}

#[test]
fn attestation_preimage_is_tag_and_array() {
    let att = attestation(&[3u8; 32]);
    let preimage = att.compute_preimage();
    let tag = b"EXOCHAIN-RISK-v1";
    assert_eq!(&preimage[..tag.len()], tag);
    let mut expected = tag.to_vec();
    expected.push(0x8a);
    expected.push(0x6f);
    expected.extend_from_slice(b"did:exo:subject");
    expected.push(0x70);
    expected.extend_from_slice(b"did:exo:verifier");
    expected.extend_from_slice(&[0x18, 85]);
    expected.extend_from_slice(&[0x19, 0x23, 0x28]);
    expected.extend_from_slice(&[0x58, 32]);
    expected.extend_from_slice(&att.factors_hash.0);
    expected.extend_from_slice(&[0x58, 32]);
    expected.extend_from_slice(&att.context_hash.0);
    expected.extend_from_slice(&[0x19, 0x30, 0x39]);
    expected.extend_from_slice(&[0x19, 0x03, 0xe8]);
    expected.extend_from_slice(&[0x19, 0x05, 0x14]);
    expected.push(0x6e);
    expected.extend_from_slice(b"did:exo:issuer");
    assert_eq!(preimage, expected);

    let value: serde_cbor::Value = serde_cbor::from_slice(&preimage[tag.len()..]).unwrap();
    match value {
        serde_cbor::Value::Array(items) => assert_eq!(items.len(), 10),
        other => panic!("unexpected: {:?}", other),
    }
}

#[test]
fn attestation_signature_is_bound_to_every_signed_field() {
    let secret = [3u8; 32];
    let public = public_key_of(&secret);
    let att = attestation(&secret);
    assert!(att.verify(&public).is_ok());
    assert!(att.verify(&public_key_of(&[4u8; 32])).is_err());

    let mut a = att.clone();
    a.subject.push('x');
    assert!(a.verify(&public).is_err());
    let mut a = att.clone();
    a.audience = "did:exo:other".to_string();
    assert!(a.verify(&public).is_err());
    let mut a = att.clone();
    a.score = 86;
    assert!(a.verify(&public).is_err());
    let mut a = att.clone();
    a.confidence_bps = 9001;
    assert!(a.verify(&public).is_err());
    let mut a = att.clone();
    a.factors_hash = hash_bytes(b"other");
    assert!(a.verify(&public).is_err());
    let mut a = att.clone();
    a.context_hash = hash_bytes(b"other");
    assert!(a.verify(&public).is_err());
    let mut a = att.clone();
    a.nonce += 1;
    assert!(a.verify(&public).is_err());
    let mut a = att.clone();
    a.issued_at += 1;
    assert!(a.verify(&public).is_err());
    let mut a = att.clone();
    a.expires_at += 1;
    assert!(a.verify(&public).is_err());
    let mut a = att.clone();
    a.issuer = "did:exo:issuer2".to_string();
    assert!(a.verify(&public).is_err());
    let mut a = att.clone();
    a.signature[10] ^= 1;
    assert!(a.verify(&public).is_err());
    // moving a character from one text to the next changes the preimage
    let mut a = att.clone();
    a.subject = "did:exo:subjec".to_string();
    a.audience = "tdid:exo:verifier".to_string();
    assert!(a.verify(&public).is_err());
}

#[test]
fn attestation_signature_is_under_its_own_domain() {
    let secret = [3u8; 32];
    let att = attestation(&secret);
    let vk = SigningKey::from_bytes(&secret).verifying_key();
    let sig = Signature::from_bytes(&att.signature);
    assert!(vk.verify(&att.compute_preimage(), &sig).is_ok());
    let tag_len = b"EXOCHAIN-RISK-v1".len();
    assert!(vk.verify(&att.compute_preimage()[tag_len..], &sig).is_err());
    let id = Blake3Hash(*blake3::hash(&att.compute_preimage()).as_bytes());
    assert!(exochain::crypto::verify_signature(&vk.to_bytes(), &id, &att.signature).is_err());
}

#[test]
fn did_signature_verifies_under_the_listed_key() {
    let secret = [21u8; 32];
    let doc = document(&secret);
    let key_id = format!("{}#key-1", doc.id);
    let hash = hash_bytes(b"message");
    let sig = compute_signature(&secret, &hash);
    assert!(verify_did_signature(&doc, &key_id, &hash, &sig).is_ok());
    assert!(matches!(
        verify_did_signature(&doc, &key_id, &hash_bytes(b"other"), &sig),
        Err(KeyError::InvalidSignature)
    ));
    match verify_did_signature(&doc, "did:exo:none#key-1", &hash, &sig) {
        Err(KeyError::NotFound(id)) => assert_eq!(id, "did:exo:none#key-1"),
        other => panic!("unexpected: {:?}", other),
    }
}

#[test]
fn did_signature_errors() {
    let secret = [21u8; 32];
    let hash = hash_bytes(b"message");
    let sig = compute_signature(&secret, &hash);

    let mut doc = document(&secret);
    let key_id = format!("{}#key-1", doc.id);
    doc.verification_methods[0].active = false;
    match verify_did_signature(&doc, &key_id, &hash, &sig) {
        Err(KeyError::Revoked(id)) => assert_eq!(id, key_id),
        other => panic!("unexpected: {:?}", other),
    }

    let mut doc = document(&secret);
    let text = doc.verification_methods[0].public_key_multibase[1..].to_string();
    doc.verification_methods[0].public_key_multibase = format!("m{}", text);
    assert!(matches!(verify_did_signature(&doc, &key_id, &hash, &sig), Err(KeyError::CryptoError)));
    doc.verification_methods[0].public_key_multibase = String::new();
    assert!(matches!(verify_did_signature(&doc, &key_id, &hash, &sig), Err(KeyError::CryptoError)));
    doc.verification_methods[0].public_key_multibase = "z0OIl".to_string();
    assert!(matches!(verify_did_signature(&doc, &key_id, &hash, &sig), Err(KeyError::CryptoError)));
    doc.verification_methods[0].public_key_multibase =
        format!("z{}", bs58::encode([1u8; 31]).into_string());
    assert!(matches!(verify_did_signature(&doc, &key_id, &hash, &sig), Err(KeyError::CryptoError)));

    // 32 bytes that are no point of the curve
    let mut found = None;
    for b in 0u8..=255 {
        let mut candidate = [b; 32];
        candidate[31] &= 0x7f;
        if ed25519_dalek::VerifyingKey::from_bytes(&candidate).is_err() {
            found = Some(candidate);
            break;
        }
    }
    let no_point = found.unwrap();
    doc.verification_methods[0].public_key_multibase =
        format!("z{}", bs58::encode(no_point).into_string());
    assert!(matches!(verify_did_signature(&doc, &key_id, &hash, &sig), Err(KeyError::CryptoError)));

    // the first method of an id counts
    let mut doc = document(&secret);
    let mut shadow = doc.verification_methods[0].clone();
    shadow.active = false;
    doc.verification_methods.insert(0, shadow);
    assert!(matches!(verify_did_signature(&doc, &key_id, &hash, &sig), Err(KeyError::Revoked(_))));
}

#[test]
fn rotation_retires_the_old_key_and_adds_the_next() {
    let old_secret = [21u8; 32];
    let new_secret = [22u8; 32];
    let new_public = public_key_of(&new_secret);
    let mut doc = document(&old_secret);
    let before = doc.clone();
    let old_id = format!("{}#key-1", doc.id);
    let controller = "did:exo:controller".to_string();

    let new_method = rotate_key(&mut doc, &old_id, &new_public, &controller).unwrap();
    assert_eq!(new_method.id, format!("{}#key-2", doc.id));
    assert_eq!(new_method.key_type, "Ed25519VerificationKey2020");
    assert_eq!(new_method.controller, controller);
    assert_eq!(
        new_method.public_key_multibase,
        format!("z{}", bs58::encode(new_public).into_string())
    );
    assert_eq!(new_method.version, 2);
    assert!(new_method.active);
    assert_eq!(new_method.valid_from, 0);
    assert_eq!(new_method.revoked_at, None);

    assert_eq!(doc.id, before.id);
    assert_eq!(doc.created, before.created);
    assert_eq!(doc.updated, 0);
    assert_eq!(doc.services, before.services);
    assert_eq!(doc.verification_methods.len(), 2);
    let mut retired = before.verification_methods[0].clone();
    retired.active = false;
    assert_eq!(doc.verification_methods[0], retired);
    assert_eq!(doc.verification_methods[1], new_method);

    let hash = hash_bytes(b"message");
    let new_sig = compute_signature(&new_secret, &hash);
    assert!(verify_did_signature(&doc, &new_method.id, &hash, &new_sig).is_ok());
    let old_sig = compute_signature(&old_secret, &hash);
    assert!(matches!(
        verify_did_signature(&doc, &old_id, &hash, &old_sig),
        Err(KeyError::Revoked(_))
    ));

    let unchanged = doc.clone();
    match rotate_key(&mut doc, "did:exo:none#key-9", &new_public, &controller) {
        Err(KeyError::NotFound(id)) => assert_eq!(id, "did:exo:none#key-9"),
        other => panic!("unexpected: {:?}", other),
    }
    assert_eq!(doc, unchanged);

    let third = rotate_key(&mut doc, &new_method.id, &[5u8; 32], &controller).unwrap();
    assert_eq!(third.version, 3);
    assert_eq!(doc.verification_methods.len(), 3);
    assert!(!doc.verification_methods[1].active);
}

#[test]
fn rotation_writes_the_version_in_decimal() {
    let mut doc = document(&[1u8; 32]);
    doc.verification_methods[0].version = 1234567889;
    let key_id = doc.verification_methods[0].id.clone();
    let m = rotate_key(&mut doc, &key_id, &[2u8; 32], &"c".to_string()).unwrap();
    assert_eq!(m.version, 1234567890);
    assert!(m.id.ends_with("#key-1234567890"));
    assert_eq!(decimal_string(0), "0");
    assert_eq!(decimal_string(9), "9");
    assert_eq!(decimal_string(10), "10");
    assert_eq!(decimal_string(12345), "12345");
    assert_eq!(decimal_string(u64::MAX), "18446744073709551615");
    assert_eq!(exochain::identity::hello(), "Hello from exo-identity");
}

#[test]
fn attestation_ranges() {
    let mut att = attestation(&[3u8; 32]);
    assert!(att.is_in_range());
    att.score = 100;
    att.confidence_bps = 10000;
    assert!(att.is_in_range());
    att.score = 101;
    assert!(!att.is_in_range());
    att.score = 0;
    att.confidence_bps = 10001;
    assert!(!att.is_in_range());
    att.confidence_bps = 0;
    assert!(att.is_in_range());
}
