//! The gatekeeper: access to data keys, granted by policy.

use crate::crypto::{zero_hash, Blake3Hash};
use crate::event::Did;
use crate::policy::{Effect, Policy};
use vstd::prelude::*;

verus! {

/// Why the gatekeeper turned a request down.
#[derive(Debug)]
pub enum GatekeeperError {
    /// No policy allows it.
    PolicyDenied,
    /// The enclave could not attest itself.
    AttestationFailed,
    /// Something else failed.
    System(String),
}

/// An attestation report of the enclave.
#[derive(Clone, Debug)]
pub struct TeeReport {
    pub measurement: Blake3Hash,
    pub signature: Vec<u8>,
}

/// A grant of access.
#[derive(Clone, Debug)]
pub struct AccessGrant {
    pub token: String,
    pub expires_at: u64,
}

/// What enforces policy-based access to data keys.
pub trait Gatekeeper {
    /// Asks for access to a resource.
    fn request_access(&self, subject: &Did, resource_id: &str, context: &str) -> Result<
        AccessGrant,
        GatekeeperError,
    >;

    /// Attests the integrity of the enclave.
    fn attest(&self) -> Result<TeeReport, GatekeeperError>;
}

/// A gatekeeper for development: it holds a list of policies and decides by
/// the first that matches.
#[derive(Debug)]
pub struct MockGatekeeper {
    pub policies: Vec<Policy>,
}

/// The place of the first policy from `from` on that speaks of the subject and
/// the resource.
pub open spec fn first_match(
    policies: Seq<Policy>,
    subject: Seq<char>,
    resource: Seq<char>,
    from: nat,
) -> Option<nat>
    decreases policies.len() - from,
{
    if from >= policies.len() {
        None
    } else if policies[from as int].matches(subject, resource) {
        Some(from)
    } else {
        first_match(policies, subject, resource, from + 1)
    }
}

/// Whether the policies grant the subject access to the resource: the first
/// policy that speaks of both allows it. Where none speaks of them, access is
/// denied.
pub open spec fn grants(policies: Seq<Policy>, subject: Seq<char>, resource: Seq<char>) -> bool {
    match first_match(policies, subject, resource, 0) {
        Some(i) => policies[i as int].effect == Effect::Allow,
        None => false,
    }
}

impl MockGatekeeper {
    /// A gatekeeper without policies.
    pub fn new() -> (gatekeeper: MockGatekeeper)
        ensures
            gatekeeper.policies@.len() == 0,
    {
        MockGatekeeper { policies: Vec::new() }
    }

    /// Adds a policy behind the others.
    pub fn register_policy(&mut self, policy: Policy)
        ensures
            final(self).policies@ == old(self).policies@.push(policy),
    {
        self.policies.push(policy);
    }
}

impl Gatekeeper for MockGatekeeper {
    fn request_access(&self, subject: &Did, resource_id: &str, _context: &str) -> (res: Result<
        AccessGrant,
        GatekeeperError,
    >)
        ensures
            match res {
                Ok(grant) => grants(self.policies@, subject@, resource_id@) && grant.token@
                    == "mock_token"@ && grant.expires_at == 0,
                Err(GatekeeperError::PolicyDenied) => !grants(
                    self.policies@,
                    subject@,
                    resource_id@,
                ),
                Err(_) => false,
            },
    {
        let mut i: usize = 0;
        while i < self.policies.len()
            invariant
                i <= self.policies@.len(),
                first_match(self.policies@, subject@, resource_id@, 0) == first_match(
                    self.policies@,
                    subject@,
                    resource_id@,
                    i as nat,
                ),
            decreases self.policies@.len() - i,
        {
            if self.policies[i].is_match(subject, resource_id) {
                return match self.policies[i].effect {
                    Effect::Allow => Ok(
                        AccessGrant { token: "mock_token".to_owned(), expires_at: 0 },
                    ),
                    Effect::Deny => Err(GatekeeperError::PolicyDenied),
                };
            }
            i += 1;
        }
        Err(GatekeeperError::PolicyDenied)
    }

    fn attest(&self) -> (res: Result<TeeReport, GatekeeperError>)
        ensures
            res matches Ok(report) && report.measurement == zero_hash() && report.signature@.len()
                == 0,
    {
        Ok(TeeReport { measurement: Blake3Hash::zero(), signature: Vec::new() })
    }
}

} // verus!
