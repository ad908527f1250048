use exochain::append::{
    append_event, integrity_verdict, parent_clock, validate_event, verify_integrity, AppendError,
};
use exochain::checkpoint::{
    checkpoint_signing_preimage, sign_checkpoint, verify_checkpoint_signature, CheckpointPayload,
    CHECKPOINT_DOMAIN_SEP,
};
use exochain::consensus::BftGadget;
use exochain::crypto::{compute_signature, hash_bytes, hash_pair, public_key_of, Blake3Hash};
use exochain::event::{compute_event_id, Did, EventEnvelope, EventPayload, LedgerEvent};
use exochain::hlc::HybridLogicalClock;
use exochain::inclusion::EventInclusionProof;
use exochain::key::{KeyError, KeyVault, MemoryVault};
use exochain::mmr::{root_of_leaves, Mmr};
use exochain::smt::{merkleize, precedes, Smt};
use exochain::store::{DagStore, MemoryStore, StoreError};

const SECRET: [u8; 32] = [11u8; 32];

fn vault_with(did: &str, version: u64, key: [u8; 32]) -> MemoryVault {
    let mut vault = MemoryVault::new();
    vault.store_key(&did.to_string(), key, version).unwrap();
    vault
}

fn vault() -> MemoryVault {
    vault_with("did:exo:author", 1, public_key_of(&SECRET))
}

fn signed(parents: Vec<Blake3Hash>, physical_ms: u64, logical: u32, tag: u8) -> LedgerEvent {
    let envelope = EventEnvelope {
        parents,
        logical_time: HybridLogicalClock { physical_ms, logical },
        author: "did:exo:author".to_string(),
        key_version: 1,
        payload: EventPayload::Opaque(vec![tag]),
    };
    let event_id = compute_event_id(&envelope).unwrap();
    let signature = compute_signature(&SECRET, &event_id);
    LedgerEvent { envelope, event_id, signature }
}

fn leaf(i: u8) -> Blake3Hash {
    hash_bytes(&[i])
}

fn leaves(n: usize) -> Vec<Blake3Hash> {
    (0..n).map(|i| hash_bytes(&(i as u64).to_le_bytes())).collect()
}

#[test]
fn test_mmr_accumulation() {
    let mut mmr = Mmr::new();
    let leaves: Vec<Blake3Hash> = (0..5)
        .map(|i| {
            let mut buf = [0u8; 32];
            buf[0] = i;
            hash_bytes(&buf)
        })
        .collect();

    for leaf in &leaves {
        mmr.append(*leaf);
    }

    // Size should be 5
    assert_eq!(mmr.size, 5);

    // Verify peaks structure for size 5 (101 binary)
    // peaks[0] should be Some (1 leaf)
    // peaks[1] should be None
    // peaks[2] should be Some (4 leaves)
    assert!(mmr.peaks[0].is_some());
    assert!(mmr.peaks[1].is_none());
    assert!(mmr.peaks[2].is_some());

    // Root logic check
    let root = mmr.get_root();
    assert_ne!(root.0, [0u8; 32]);
}

#[test]
fn test_proof_verification() {
    // Construct a simple tree manually:
    //       Root
    //      /    \
    //    H1      H2
    //   /  \    /  \
    //  L0  L1  L2  L3

    let l0 = hash_bytes(&[0]);
    let l1 = hash_bytes(&[1]);

    let h1_input = [l0.0, l1.0].concat();
    let h1 = hash_bytes(&h1_input);

    // Let's assume size 2 tree (Root = H1).
    let proof = EventInclusionProof { leaf_index: 0, mmr_size: 2, path: vec![], siblings: vec![l1] };

    assert!(proof.verify(&h1, &l0));

    // Negative test
    assert!(!proof.verify(&l0, &l0)); // root != l0
}

#[test]
fn mmr_of_five_leaves_and_the_proof_of_leaf_zero() {
    let ls: Vec<Blake3Hash> = (0u8..5).map(leaf).collect();
    let mut mmr = Mmr::new();
    for l in ls.iter() {
        mmr.append(*l);
    }
    assert_eq!(mmr.size, 5);
    assert!(mmr.peaks[0].is_some());
    assert!(mmr.peaks[1].is_none());
    assert!(mmr.peaks[2].is_some());
    let root = mmr.get_root();
    assert_ne!(root, Blake3Hash::zero());

    let mountain = hash_pair(&hash_pair(&ls[0], &ls[1]), &hash_pair(&ls[2], &ls[3]));
    assert_eq!(mmr.peaks[0], Some(ls[4]));
    assert_eq!(mmr.peaks[2], Some(mountain));
    assert_eq!(root, hash_pair(&ls[4], &mountain));

    let proof = EventInclusionProof::generate(&ls, 0).unwrap();
    assert_eq!(proof.mmr_size, 5);
    assert_eq!(proof.siblings, vec![ls[1], hash_pair(&ls[2], &ls[3]), ls[4]]);
    assert_eq!(proof.path, vec![ls[1], hash_pair(&ls[2], &ls[3])]);
    assert_eq!(proof.leaf_index, 0b100);
    assert!(proof.verify(&root, &ls[0]));
    assert!(!proof.verify(&root, &ls[1]));

    let last = EventInclusionProof::generate(&ls, 4).unwrap();
    assert_eq!(last.siblings, vec![mountain]);
    assert!(last.path.is_empty());
    assert_eq!(last.leaf_index, 0);
    assert!(last.verify(&root, &ls[4]));
}

#[test]
fn mmr_root_bags_from_the_highest_peak_down() {
    assert_eq!(Mmr::new().get_root(), Blake3Hash::zero());
    assert_eq!(Mmr::default().size, 0);
    assert!(Mmr::default().peaks.is_empty());
    assert!(MemoryStore::default().contains_event(&Blake3Hash::zero()).is_ok());
    assert_eq!(root_of_leaves(&vec![]), Blake3Hash::zero());
    let ls = leaves(7);
    assert_eq!(root_of_leaves(&ls[..1].to_vec()), ls[0]);
    assert_eq!(root_of_leaves(&ls[..2].to_vec()), hash_pair(&ls[0], &ls[1]));
    assert_eq!(root_of_leaves(&ls[..3].to_vec()), hash_pair(&ls[2], &hash_pair(&ls[0], &ls[1])));
    let high = hash_pair(&hash_pair(&ls[0], &ls[1]), &hash_pair(&ls[2], &ls[3]));
    let mid = hash_pair(&ls[4], &ls[5]);
    let low = ls[6];
    assert_eq!(root_of_leaves(&ls), hash_pair(&low, &hash_pair(&mid, &high)));
    let mut mmr = Mmr::new();
    for l in ls.iter() {
        mmr.append(*l);
    }
    assert_eq!(mmr.get_root(), root_of_leaves(&ls));
}

#[test]
fn mmr_peaks_follow_the_bits_of_the_size() {
    let ls = leaves(200);
    let mut mmr = Mmr::new();
    assert_eq!(mmr.size, 0);
    assert!(mmr.peaks.is_empty());
    for (n, l) in ls.iter().enumerate() {
        mmr.append(*l);
        let size = (n + 1) as u64;
        assert_eq!(mmr.size, size);
        let occupied = mmr.peaks.iter().filter(|p| p.is_some()).count() as u32;
        assert_eq!(occupied, size.count_ones());
        for h in 0..64usize {
            let set = (size >> h) & 1 == 1;
            let has = h < mmr.peaks.len() && mmr.peaks[h].is_some();
            assert_eq!(set, has);
        }
    }
}

#[test]
fn every_generated_proof_verifies_against_its_root() {
    for n in 1..=40usize {
        let ls = leaves(n);
        let root = root_of_leaves(&ls);
        for i in 0..n {
            let proof = EventInclusionProof::generate(&ls, i).unwrap();
            assert_eq!(proof.mmr_size, n as u64);
            assert!(proof.verify(&root, &ls[i]));
            assert!(proof.siblings.starts_with(&proof.path));
            if n.is_power_of_two() {
                assert_eq!(proof.leaf_index, i as u64);
                assert_eq!(proof.path, proof.siblings);
            }
            let wrong = hash_bytes(b"not a leaf");
            assert!(!proof.verify(&root, &wrong));
            if !proof.siblings.is_empty() {
                let mut bad = proof.clone();
                bad.siblings[0] = wrong;
                assert!(!bad.verify(&root, &ls[i]));
                let mut bad = proof.clone();
                bad.leaf_index ^= 1;
                assert!(!bad.verify(&root, &ls[i]));
            }
        }
        assert!(EventInclusionProof::generate(&ls, n).is_none());
    }
    assert!(EventInclusionProof::generate(&vec![], 0).is_none());
}

#[test]
fn a_proof_holds_for_a_later_root_only_when_made_for_it() {
    let ls = leaves(11);
    let earlier = ls[..6].to_vec();
    let old_root = root_of_leaves(&earlier);
    let new_root = root_of_leaves(&ls);
    for i in 0..6 {
        let old_proof = EventInclusionProof::generate(&earlier, i).unwrap();
        let new_proof = EventInclusionProof::generate(&ls, i).unwrap();
        assert!(old_proof.verify(&old_root, &ls[i]));
        assert!(new_proof.verify(&new_root, &ls[i]));
        assert!(!old_proof.verify(&new_root, &ls[i]));
        assert!(!new_proof.verify(&old_root, &ls[i]));
        assert_eq!(new_proof.mmr_size, 11);
    }
}

#[test]
fn proof_with_no_siblings_is_the_leaf_itself() {
    let l = leaf(1);
    let proof = EventInclusionProof { leaf_index: 0, mmr_size: 1, path: vec![], siblings: vec![] };
    assert!(proof.verify(&l, &l));
    assert!(!proof.verify(&leaf(2), &l));
    let right =
        EventInclusionProof { leaf_index: 1, mmr_size: 2, path: vec![], siblings: vec![leaf(0)] };
    assert!(right.verify(&hash_pair(&leaf(0), &l), &l));
    assert!(!right.verify(&hash_pair(&l, &leaf(0)), &l));
}

#[test]
fn smt_root_does_not_depend_on_insertion_order() {
    let pairs: Vec<(Blake3Hash, Blake3Hash)> =
        (0u8..9).map(|i| (hash_bytes(&[i]), hash_bytes(&[i, i]))).collect();
    let mut forward = Smt::new();
    for (k, v) in pairs.iter() {
        forward.update(*k, *v);
    }
    let mut backward = Smt::new();
    for (k, v) in pairs.iter().rev() {
        backward.update(*k, *v);
    }
    let mut shuffled = Smt::new();
    for i in [4usize, 0, 8, 2, 6, 1, 7, 3, 5] {
        shuffled.update(pairs[i].0, pairs[i].1);
    }
    let mut overwritten = Smt::new();
    for (k, _) in pairs.iter() {
        overwritten.update(*k, Blake3Hash::zero());
    }
    for (k, v) in pairs.iter().rev() {
        overwritten.update(*k, *v);
    }
    let root = forward.get_root();
    assert_ne!(root, Blake3Hash::zero());
    assert_eq!(backward.get_root(), root);
    assert_eq!(shuffled.get_root(), root);
    assert_eq!(overwritten.get_root(), root);
    assert_eq!(forward.len(), 9);
    assert_eq!(overwritten.len(), 9);

    let mut changed = Smt::new();
    for (k, v) in pairs.iter() {
        changed.update(*k, *v);
    }
    changed.update(pairs[3].0, hash_bytes(b"other"));
    assert_ne!(changed.get_root(), root);
    assert_eq!(changed.get(&pairs[3].0), Some(hash_bytes(b"other")));
    assert_eq!(forward.get(&pairs[3].0), Some(pairs[3].1));
    assert_eq!(forward.get(&hash_bytes(b"absent")), None);
}

#[test]
fn smt_root_of_small_maps() {
    assert_eq!(Smt::new().get_root(), Blake3Hash::zero());
    assert_eq!(Smt::default().get_root(), Blake3Hash::zero());
    assert_eq!(Smt::new().len(), 0);

    let mut keys: Vec<Blake3Hash> = (0u8..3).map(|i| hash_bytes(&[i])).collect();
    keys.sort();
    let value = |k: &Blake3Hash| hash_pair(k, k);
    let l: Vec<Blake3Hash> = keys.iter().map(|k| hash_pair(k, &value(k))).collect();

    let mut one = Smt::new();
    one.update(keys[0], value(&keys[0]));
    assert_eq!(one.get_root(), l[0]);

    let mut two = Smt::new();
    two.update(keys[1], value(&keys[1]));
    two.update(keys[0], value(&keys[0]));
    assert_eq!(two.get_root(), hash_pair(&l[0], &l[1]));

    let mut three = Smt::new();
    three.update(keys[2], value(&keys[2]));
    three.update(keys[0], value(&keys[0]));
    three.update(keys[1], value(&keys[1]));
    assert_eq!(three.get_root(), hash_pair(&hash_pair(&l[0], &l[1]), &l[2]));
}

#[test]
fn merkle_levels_promote_an_odd_last_node() {
    let l: Vec<Blake3Hash> = (0u8..5).map(leaf).collect();
    assert_eq!(merkleize(vec![]), Blake3Hash::zero());
    assert_eq!(merkleize(vec![l[0]]), l[0]);
    let left = hash_pair(&hash_pair(&l[0], &l[1]), &hash_pair(&l[2], &l[3]));
    assert_eq!(merkleize(l.clone()), hash_pair(&left, &l[4]));
    assert_eq!(merkleize(l[..4].to_vec()), left);
}

#[test]
fn hashes_are_ordered_by_their_bytes() {
    let mut a = [0u8; 32];
    let mut b = [0u8; 32];
    assert!(!precedes(&Blake3Hash(a), &Blake3Hash(b)));
    b[31] = 1;
    assert!(precedes(&Blake3Hash(a), &Blake3Hash(b)));
    assert!(!precedes(&Blake3Hash(b), &Blake3Hash(a)));
    a[0] = 1;
    assert!(precedes(&Blake3Hash(b), &Blake3Hash(a)));
    a[0] = 0;
    a[5] = 200;
    b[5] = 199;
    b[6] = 255;
    assert!(precedes(&Blake3Hash(b), &Blake3Hash(a)));
    for i in 0u8..20 {
        for j in 0u8..20 {
            let x = hash_bytes(&[i]);
            let y = hash_bytes(&[j]);
            assert_eq!(precedes(&x, &y), x < y);
        }
    }
}

#[test]
fn genesis_event_is_stored_and_found() {
    let mut store = MemoryStore::new();
    let genesis = signed(vec![], 1000, 0, 0);
    let id = genesis.event_id;
    assert!(!store.contains_event(&id).unwrap());
    assert!(matches!(store.get_event(&id), Err(StoreError::EventNotFound(missing)) if missing == id));
    assert!(append_event(&mut store, &vault(), genesis.duplicate()).is_ok());
    assert!(store.contains_event(&id).unwrap());
    let found = store.get_event(&id).unwrap();
    assert!(found.same_as(&genesis));
    assert_eq!(verify_integrity(&store, &id).unwrap(), true);
    // appending the same event again is safe
    assert!(append_event(&mut store, &vault(), genesis.duplicate()).is_ok());
    assert!(store.get_event(&id).unwrap().same_as(&genesis));
}

#[test]
fn child_of_unknown_parent_is_turned_down() {
    let mut store = MemoryStore::new();
    let unknown = hash_bytes(b"unknown");
    let child = signed(vec![unknown], 2000, 0, 1);
    let id = child.event_id;
    match append_event(&mut store, &vault(), child) {
        Err(AppendError::ParentNotFound(missing)) => assert_eq!(missing, unknown),
        other => panic!("unexpected: {:?}", other),
    }
    assert!(!store.contains_event(&id).unwrap());
}

#[test]
fn child_not_above_its_parent_is_turned_down() {
    let mut store = MemoryStore::new();
    let genesis = signed(vec![], 1000, 0, 0);
    let parent_id = genesis.event_id;
    append_event(&mut store, &vault(), genesis).unwrap();
    let child = signed(vec![parent_id], 999, 0, 1);
    match append_event(&mut store, &vault(), child) {
        Err(AppendError::CausalityViolation(clock)) => {
            assert_eq!(clock, HybridLogicalClock { physical_ms: 999, logical: 0 })
        }
        other => panic!("unexpected: {:?}", other),
    }
    let same_time = signed(vec![parent_id], 1000, 0, 2);
    assert!(matches!(
        append_event(&mut store, &vault(), same_time),
        Err(AppendError::CausalityViolation(_))
    ));
    let above = signed(vec![parent_id], 1000, 1, 3);
    assert!(append_event(&mut store, &vault(), above).is_ok());
}

#[test]
fn tampered_envelope_is_a_crypto_error_before_the_signature() {
    let mut store = MemoryStore::new();
    let mut event = signed(vec![], 1000, 0, 0);
    event.envelope.payload = EventPayload::Opaque(vec![9]);
    // the signature is broken too, and no key would be found: the id comes first
    event.signature = [0u8; 64];
    event.envelope.author = "did:exo:nobody".to_string();
    assert!(matches!(append_event(&mut store, &vault(), event), Err(AppendError::CryptoError)));

    let mut event = signed(vec![], 1000, 0, 0);
    event.envelope.key_version = 2;
    assert!(matches!(append_event(&mut store, &vault(), event), Err(AppendError::CryptoError)));
    let mut event = signed(vec![], 1000, 0, 0);
    event.event_id = hash_bytes(b"other id");
    assert!(matches!(append_event(&mut store, &vault(), event), Err(AppendError::CryptoError)));
}

#[test]
fn bad_signature_or_unknown_key_is_an_invalid_signature() {
    let mut store = MemoryStore::new();
    let mut event = signed(vec![], 1000, 0, 0);
    event.signature[3] ^= 0x40;
    let id = event.event_id;
    assert!(matches!(
        append_event(&mut store, &vault(), event),
        Err(AppendError::InvalidSignature)
    ));
    assert!(!store.contains_event(&id).unwrap());

    let event = signed(vec![], 1000, 0, 0);
    let other_vault = vault_with("did:exo:author", 1, public_key_of(&[12u8; 32]));
    assert!(matches!(
        append_event(&mut store, &other_vault, event),
        Err(AppendError::InvalidSignature)
    ));
    let event = signed(vec![], 1000, 0, 0);
    let empty_vault = vault_with("did:exo:someone", 1, public_key_of(&SECRET));
    assert!(matches!(
        append_event(&mut store, &empty_vault, event),
        Err(AppendError::InvalidSignature)
    ));
    let later = vault_with("did:exo:author", 7, public_key_of(&SECRET));
    assert!(matches!(
        append_event(&mut store, &later, signed(vec![], 1000, 0, 0)),
        Err(AppendError::InvalidSignature)
    ));
    assert!(append_event(&mut store, &MemoryVault::new(), signed(vec![], 1000, 0, 0)).is_err());
}

#[test]
fn checks_go_in_order() {
    let mut store = MemoryStore::new();
    let genesis = signed(vec![], 1000, 0, 0);
    let parent_id = genesis.event_id;
    append_event(&mut store, &vault(), genesis).unwrap();
    // first parent is too late, second parent is missing: the missing parent wins
    let unknown = hash_bytes(b"unknown");
    let child = signed(vec![parent_id, unknown], 10, 0, 1);
    assert!(matches!(
        append_event(&mut store, &vault(), child),
        Err(AppendError::ParentNotFound(missing)) if missing == unknown
    ));
    // causality comes before the id
    let mut child = signed(vec![parent_id], 10, 0, 1);
    child.event_id = hash_bytes(b"x");
    assert!(matches!(
        append_event(&mut store, &vault(), child),
        Err(AppendError::CausalityViolation(_))
    ));
}

#[test]
fn verdict_from_plain_values() {
    let genesis = signed(vec![], 1000, 0, 0);
    let child = signed(vec![genesis.event_id], 1000, 1, 1);
    let key: Result<[u8; 32], KeyError> = Ok(public_key_of(&SECRET));
    let parent = Some(HybridLogicalClock { physical_ms: 1000, logical: 0 });
    assert!(validate_event(&child, &vec![parent], &key).is_ok());
    assert!(validate_event(&genesis, &vec![], &key).is_ok());
    assert!(matches!(
        validate_event(&child, &vec![None], &key),
        Err(AppendError::ParentNotFound(id)) if id == genesis.event_id
    ));
    assert!(matches!(
        validate_event(&child, &vec![], &key),
        Err(AppendError::ParentNotFound(id)) if id == genesis.event_id
    ));
    let late = Some(HybridLogicalClock { physical_ms: 1000, logical: 1 });
    assert!(matches!(
        validate_event(&child, &vec![late], &key),
        Err(AppendError::CausalityViolation(c)) if c == child.envelope.logical_time
    ));
    let no_key: Result<[u8; 32], KeyError> = Err(KeyError::Revoked("k".to_string()));
    assert!(matches!(
        validate_event(&child, &vec![parent], &no_key),
        Err(AppendError::InvalidSignature)
    ));
    let expired: Result<[u8; 32], KeyError> = Err(KeyError::Expired("k".to_string()));
    assert!(matches!(
        validate_event(&child, &vec![parent], &expired),
        Err(AppendError::InvalidSignature)
    ));
    let malformed: Result<[u8; 32], KeyError> = Err(KeyError::InvalidFormat);
    assert!(matches!(
        validate_event(&child, &vec![parent], &malformed),
        Err(AppendError::InvalidSignature)
    ));
}

#[test]
fn store_keeps_the_first_event_of_an_id() {
    let mut store = MemoryStore::new();
    let event = signed(vec![], 1000, 0, 0);
    assert!(store.insert_event(event.duplicate()).is_ok());
    assert!(store.insert_event(event.duplicate()).is_ok());
    let mut different = event.duplicate();
    different.signature = [1u8; 64];
    assert!(matches!(store.insert_event(different), Err(StoreError::IoError(_))));
    assert!(store.get_event(&event.event_id).unwrap().same_as(&event));
    // the store validates nothing
    let mut odd = signed(vec![hash_bytes(b"nowhere")], 5, 5, 5);
    odd.event_id = hash_bytes(b"made up");
    assert!(store.insert_event(odd.duplicate()).is_ok());
    assert_eq!(verify_integrity(&store, &odd.event_id).unwrap(), false);
    assert!(matches!(
        verify_integrity(&store, &hash_bytes(b"absent")),
        Err(AppendError::Store(StoreError::EventNotFound(_)))
    ));
    assert!(matches!(AppendError::from(StoreError::IoError("x".to_string())), AppendError::Store(_)));
}

#[test]
fn integrity_sees_a_wrong_id_and_a_missing_parent() {
    let mut store = MemoryStore::new();
    let genesis = signed(vec![], 1000, 0, 0);
    let child = signed(vec![genesis.event_id], 2000, 0, 1);
    store.insert_event(child.duplicate()).unwrap();
    assert_eq!(verify_integrity(&store, &child.event_id).unwrap(), false);
    store.insert_event(genesis.duplicate()).unwrap();
    assert_eq!(verify_integrity(&store, &child.event_id).unwrap(), true);
    let mut forged = signed(vec![genesis.event_id], 3000, 0, 2);
    forged.event_id = hash_bytes(b"forged");
    store.insert_event(forged.duplicate()).unwrap();
    assert_eq!(verify_integrity(&store, &forged.event_id).unwrap(), false);
}

#[test]
fn appended_events_keep_the_store_linked() {
    let mut store = MemoryStore::new();
    let mut ids: Vec<Blake3Hash> = Vec::new();
    let mut events: Vec<LedgerEvent> = Vec::new();
    for i in 0u8..12 {
        let parents: Vec<Blake3Hash> = ids.iter().rev().take(2).cloned().collect();
        let event = signed(parents, 1000 + i as u64, 0, i);
        ids.push(event.event_id);
        events.push(event.duplicate());
        append_event(&mut store, &vault(), event).unwrap();
    }
    for event in events.iter() {
        let stored = store.get_event(&event.event_id).unwrap();
        assert_eq!(compute_event_id(&stored.envelope).unwrap(), stored.event_id);
        for p in stored.envelope.parents.iter() {
            let parent = store.get_event(p).unwrap();
            assert!(parent.envelope.logical_time < stored.envelope.logical_time);
        }
        assert!(verify_integrity(&store, &event.event_id).unwrap());
    }
}

#[test]
fn checkpoint_preimage_is_byte_for_byte() {
    let cp = CheckpointPayload {
        event_root: hash_bytes(b"events"),
        state_root: hash_bytes(b"state"),
        height: 0x0102_0304_0506_0708,
        finalized_events: 5,
        frontier: vec![hash_bytes(b"f1"), hash_bytes(b"f2")],
        validator_sigs: vec![],
    };
    let mut expected = b"EXOCHAIN-CHECKPOINT-v1".to_vec();
    expected.extend_from_slice(&cp.event_root.0);
    expected.extend_from_slice(&cp.state_root.0);
    expected.extend_from_slice(&[8, 7, 6, 5, 4, 3, 2, 1]);
    expected.extend_from_slice(&5u64.to_le_bytes());
    expected.extend_from_slice(&cp.frontier[0].0);
    expected.extend_from_slice(&cp.frontier[1].0);
    assert_eq!(checkpoint_signing_preimage(&cp), expected);
    assert_eq!(CHECKPOINT_DOMAIN_SEP, "EXOCHAIN-CHECKPOINT-v1");

    let empty = CheckpointPayload {
        event_root: Blake3Hash::zero(),
        state_root: Blake3Hash::zero(),
        height: u64::MAX,
        finalized_events: 0,
        frontier: vec![],
        validator_sigs: vec![],
    };
    let bytes = checkpoint_signing_preimage(&empty);
    assert_eq!(bytes.len(), 22 + 32 + 32 + 8 + 8);
    assert_eq!(&bytes[86..94], &[0xff; 8]);
    assert_eq!(&bytes[94..], &[0u8; 8]);
}

#[test]
fn validators_sign_the_checkpoint_preimage() {
    let mut cp = CheckpointPayload {
        event_root: hash_bytes(b"events"),
        state_root: hash_bytes(b"state"),
        height: 3,
        finalized_events: 40,
        frontier: vec![hash_bytes(b"f1")],
        validator_sigs: vec![],
    };
    let sig = sign_checkpoint(&cp, "did:exo:validator".to_string(), 2, &SECRET);
    assert_eq!(sig.validator_did, "did:exo:validator");
    assert_eq!(sig.key_version, 2);
    let public = public_key_of(&SECRET);
    assert!(verify_checkpoint_signature(&cp, &sig, &public));
    assert!(!verify_checkpoint_signature(&cp, &sig, &public_key_of(&[1u8; 32])));
    // the signatures are no part of what is signed
    cp.validator_sigs.push(sig.clone());
    assert!(verify_checkpoint_signature(&cp, &sig, &public));
    cp.height = 4;
    assert!(!verify_checkpoint_signature(&cp, &sig, &public));
    // a checkpoint signature is no event signature
    assert!(exochain::crypto::verify_signature(&public, &cp.event_root, &sig.signature).is_err());
    let gadget = BftGadget::new();
    assert_eq!(gadget.current_epoch, 0);
    assert!(gadget.is_finalized(&cp));
}

#[test]
fn store_refusal_is_surfaced_and_changes_nothing() {
    let mut store = MemoryStore::new();
    let genesis = signed(vec![], 1000, 0, 0);
    // the id is taken by a different event, which the store keeps
    let mut squatter = genesis.duplicate();
    squatter.signature = [9u8; 64];
    store.insert_event(squatter.duplicate()).unwrap();
    match append_event(&mut store, &vault(), genesis.duplicate()) {
        Err(AppendError::Store(StoreError::IoError(message))) => assert!(!message.is_empty()),
        other => panic!("unexpected: {:?}", other),
    }
    assert!(store.get_event(&genesis.event_id).unwrap().same_as(&squatter));
    // a retry changes nothing either
    assert!(matches!(
        append_event(&mut store, &vault(), genesis.duplicate()),
        Err(AppendError::Store(StoreError::IoError(_)))
    ));
    assert!(store.get_event(&genesis.event_id).unwrap().same_as(&squatter));
}

#[test]
fn vault_keeps_one_key_per_identity_and_version() {
    let alice = "did:exo:alice".to_string();
    let bob = "did:exo:bob".to_string();
    let mut vault = MemoryVault::new();
    assert!(matches!(vault.get_key(&alice, 1), Err(KeyError::NotFound(id)) if id == alice));
    vault.store_key(&alice, [1u8; 32], 1).unwrap();
    vault.store_key(&alice, [2u8; 32], 2).unwrap();
    vault.store_key(&bob, [3u8; 32], 1).unwrap();
    assert_eq!(vault.get_key(&alice, 1).unwrap(), [1u8; 32]);
    assert_eq!(vault.get_key(&alice, 2).unwrap(), [2u8; 32]);
    assert_eq!(vault.get_key(&bob, 1).unwrap(), [3u8; 32]);
    assert!(vault.get_key(&bob, 2).is_err());
    vault.store_key(&alice, [9u8; 32], 1).unwrap();
    assert_eq!(vault.get_key(&alice, 1).unwrap(), [9u8; 32]);
    assert_eq!(vault.get_key(&alice, 2).unwrap(), [2u8; 32]);
}

#[test]
fn store_replies_about_a_parent_are_read_as_they_came() {
    let parent = signed(vec![], 1234, 5, 0);
    match parent_clock(Ok(parent.duplicate())) {
        Ok(Some(clock)) => assert_eq!(clock, HybridLogicalClock { physical_ms: 1234, logical: 5 }),
        other => panic!("unexpected: {:?}", other),
    }
    assert!(matches!(parent_clock(Err(StoreError::EventNotFound(parent.event_id))), Ok(None)));
    match parent_clock(Err(StoreError::IoError("disk gone".to_string()))) {
        Err(AppendError::Store(StoreError::IoError(message))) => assert_eq!(message, "disk gone"),
        other => panic!("unexpected: {:?}", other),
    }
}

#[test]
fn the_first_missing_parent_is_named() {
    let mut store = MemoryStore::new();
    let genesis = signed(vec![], 1000, 0, 0);
    let known = genesis.event_id;
    append_event(&mut store, &vault(), genesis).unwrap();
    let first = hash_bytes(b"first unknown");
    let second = hash_bytes(b"second unknown");
    let child = signed(vec![first, second], 2000, 0, 1);
    assert!(matches!(
        append_event(&mut store, &vault(), child),
        Err(AppendError::ParentNotFound(id)) if id == first
    ));
    let child = signed(vec![known, second, first], 2000, 0, 1);
    assert!(matches!(
        append_event(&mut store, &vault(), child),
        Err(AppendError::ParentNotFound(id)) if id == second
    ));
    let child = signed(vec![second, known], 2000, 0, 1);
    assert!(matches!(
        append_event(&mut store, &vault(), child),
        Err(AppendError::ParentNotFound(id)) if id == second
    ));
}

#[test]
fn integrity_is_decided_from_the_answers_about_the_parents() {
    let genesis = signed(vec![], 1000, 0, 0);
    let child = signed(vec![genesis.event_id, hash_bytes(b"other")], 2000, 0, 1);
    assert!(integrity_verdict(&genesis, &vec![]));
    assert!(!integrity_verdict(&genesis, &vec![true]));
    assert!(integrity_verdict(&child, &vec![true, true]));
    assert!(!integrity_verdict(&child, &vec![true, false]));
    assert!(!integrity_verdict(&child, &vec![false, true]));
    assert!(!integrity_verdict(&child, &vec![false]));
    assert!(!integrity_verdict(&child, &vec![true]));
    assert!(!integrity_verdict(&child, &vec![]));
    assert!(!integrity_verdict(&child, &vec![true, true, true]));
    let mut forged = child.duplicate();
    forged.event_id = hash_bytes(b"forged");
    assert!(!integrity_verdict(&forged, &vec![true, true]));
    let mut changed = child.duplicate();
    changed.envelope.key_version = 9;
    assert!(!integrity_verdict(&changed, &vec![true, true]));
    // the signature is no part of the id
    let mut resigned = child.duplicate();
    resigned.signature = [0u8; 64];
    assert!(integrity_verdict(&resigned, &vec![true, true]));
}

#[test]
fn memory_store_answers_a_missing_id_with_that_id() {
    let store = MemoryStore::new();
    let id = hash_bytes(b"absent");
    match store.get_event(&id) {
        Err(StoreError::EventNotFound(missing)) => assert_eq!(missing, id),
        other => panic!("unexpected: {:?}", other.map(|e| e.event_id)),
    }
    assert_eq!(store.contains_event(&id).unwrap(), false);
}
