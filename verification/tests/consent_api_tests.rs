use exochain::api::{hello, EventView, MutationRoot, QueryRoot};
use exochain::bailment::Bailment;
use exochain::crypto::{hash_bytes, Blake3Hash};
use exochain::event::{compute_event_id, EventEnvelope, EventPayload};
use exochain::gatekeeper::{Gatekeeper, GatekeeperError, MockGatekeeper};
use exochain::hlc::HybridLogicalClock;
use exochain::policy::{contains_text, AccessorSet, Condition, Effect, Policy};

fn policy(id: &str, effect: Effect, subjects: AccessorSet, resources: &[&str]) -> Policy {
    Policy {
        id: id.to_string(),
        description: String::new(),
        effect,
        subjects,
        resources: resources.iter().map(|r| r.to_string()).collect(),
        conditions: vec![Condition { type_: "MFA".to_string(), value: "true".to_string() }],
    }
}

#[test]
fn policy_matches_subject_and_resource() {
    let alice = "did:exo:alice".to_string();
    let bob = "did:exo:bob".to_string();
    let any = policy("any-doc", Effect::Allow, AccessorSet::Any, &["doc-1"]);
    assert!(any.is_match(&alice, "doc-1"));
    assert!(!any.is_match(&alice, "doc-2"));
    assert!(!any.is_match(&alice, "doc-"));

    let specific =
        policy("alice-all", Effect::Allow, AccessorSet::Specific(vec![alice.clone()]), &["a", "*"]);
    assert!(specific.is_match(&alice, "a"));
    assert!(specific.is_match(&alice, "anything"));
    assert!(!specific.is_match(&bob, "a"));

    let group = policy("admins", Effect::Allow, AccessorSet::Group("admins".to_string()), &["*"]);
    assert!(!group.is_match(&alice, "a"));

    let nothing = policy("nothing", Effect::Deny, AccessorSet::Any, &[]);
    assert!(!nothing.is_match(&alice, "a"));
    let nobody = policy("nobody", Effect::Deny, AccessorSet::Specific(vec![]), &["*"]);
    assert!(!nobody.is_match(&alice, "a"));

    let list = vec!["x".to_string(), "yz".to_string()];
    assert!(contains_text(&list, "yz"));
    assert!(!contains_text(&list, "y"));
    assert!(!contains_text(&vec![], ""));
}

#[test]
fn gatekeeper_decides_by_the_first_matching_policy() {
    let alice = "did:exo:alice".to_string();
    let bob = "did:exo:bob".to_string();
    let mut gk = MockGatekeeper::new();
    assert!(gk.policies.is_empty());
    assert!(matches!(gk.request_access(&alice, "doc", "ctx"), Err(GatekeeperError::PolicyDenied)));

    gk.register_policy(policy("deny-bob", Effect::Deny, AccessorSet::Specific(vec![bob.clone()]), &["*"]));
    gk.register_policy(policy("allow-all", Effect::Allow, AccessorSet::Any, &["doc"]));
    assert_eq!(gk.policies.len(), 2);
    assert_eq!(gk.policies[1].id, "allow-all");

    let grant = gk.request_access(&alice, "doc", "ctx").unwrap();
    assert_eq!(grant.token, "mock_token");
    assert_eq!(grant.expires_at, 0);
    assert!(matches!(gk.request_access(&bob, "doc", "ctx"), Err(GatekeeperError::PolicyDenied)));
    assert!(matches!(gk.request_access(&alice, "other", "ctx"), Err(GatekeeperError::PolicyDenied)));

    let report = gk.attest().unwrap();
    assert_eq!(report.measurement, Blake3Hash::zero());
    assert!(report.signature.is_empty());
}

#[test]
fn bailment_holds_its_parts() {
    let p = policy("p", Effect::Allow, AccessorSet::Any, &["*"]);
    let b = Bailment::new(
        "res-1".to_string(),
        "did:exo:owner".to_string(),
        "did:exo:custodian".to_string(),
        hash_bytes(b"payload"),
        p,
        77,
    );
    assert_eq!(b.resource_id, "res-1");
    assert_eq!(b.depositor, "did:exo:owner");
    assert_eq!(b.custodian, "did:exo:custodian");
    assert_eq!(b.payload_hash, hash_bytes(b"payload"));
    assert_eq!(b.policy.id, "p");
    assert_eq!(b.created_at, 77);
}

#[test]
fn event_view_shows_ids_in_hex() {
    let parents = vec![hash_bytes(b"first"), Blake3Hash::zero()];
    let envelope = EventEnvelope {
        parents: parents.clone(),
        logical_time: HybridLogicalClock { physical_ms: 1, logical: 2 },
        author: "did:exo:author".to_string(),
        key_version: 1,
        payload: EventPayload::Genesis { network_id: "n".to_string() },
    };
    let view = EventView::of(&envelope);
    assert_eq!(view.id, hex::encode(compute_event_id(&envelope).unwrap().0));
    assert_eq!(view.parents, vec![hex::encode(parents[0].0), "00".repeat(32)]);
    assert_eq!(view.author, "did:exo:author");
    assert_eq!(view.payload_type, "Generic");
}

#[test]
fn api_roots_answer() {
    assert_eq!(hello(), "Hello from exo-api");
    assert_eq!(QueryRoot.health(), "OK");
    assert!(QueryRoot.event("1234".to_string()).is_none());
    assert!(MutationRoot.submit_event("00".to_string()));
}
