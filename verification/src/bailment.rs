//! Bailments: data left with a custodian under a policy.

use crate::crypto::Blake3Hash;
use crate::event::Did;
use crate::policy::Policy;
use vstd::prelude::*;

verus! {

/// Data that a depositor left with a custodian, and the policy that governs
/// access to it.
#[derive(Clone, Debug)]
pub struct Bailment {
    /// The id of the data.
    pub resource_id: String,
    /// The owner of the data.
    pub depositor: Did,
    /// Who holds the data.
    pub custodian: Did,
    /// The hash of the encrypted payload.
    pub payload_hash: Blake3Hash,
    /// The policy that governs access.
    pub policy: Policy,
    /// When the bailment was made.
    pub created_at: u64,
}

impl Bailment {
    /// A bailment of the given parts.
    pub fn new(
        resource_id: String,
        depositor: Did,
        custodian: Did,
        payload_hash: Blake3Hash,
        policy: Policy,
        created_at: u64,
    ) -> (bailment: Bailment)
        ensures
            bailment.resource_id == resource_id,
            bailment.depositor == depositor,
            bailment.custodian == custodian,
            bailment.payload_hash == payload_hash,
            bailment.policy == policy,
            bailment.created_at == created_at,
    {
        Bailment { resource_id, depositor, custodian, payload_hash, policy, created_at }
    }
}

} // verus!
