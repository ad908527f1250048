//! The checkpoint: a commitment to the event root and the state root at a
//! height, and the bytes that validators sign for it.

use crate::crypto::{
    ed25519_accepts, ed25519_public_key, ed25519_sign, ed25519_signature, ed25519_verify,
    Blake3Hash,
};
use crate::event::Did;
use vstd::prelude::*;
use vstd::string::StringSliceAdditionalSpecFns;

verus! {

/// The signature of one validator on a checkpoint.
#[derive(Clone, Debug)]
pub struct ValidatorSignature {
    pub validator_did: Did,
    pub key_version: u64,
    pub signature: [u8; 64],
}

/// What a checkpoint commits to, with the signatures gathered for it.
#[derive(Clone, Debug)]
pub struct CheckpointPayload {
    /// The root over the finalized event ids.
    pub event_root: Blake3Hash,
    /// The root over the derived state.
    pub state_root: Blake3Hash,
    /// The sequence number of the checkpoint.
    pub height: u64,
    /// The number of events folded into the event root.
    pub finalized_events: u64,
    /// The ids at the edge of the finalized history.
    pub frontier: Vec<Blake3Hash>,
    /// The validators' signatures.
    pub validator_sigs: Vec<ValidatorSignature>,
}

/// The ASCII tag that opens every checkpoint signature preimage.
pub const CHECKPOINT_DOMAIN_SEP: &'static str = "EXOCHAIN-CHECKPOINT-v1";

/// The eight bytes of a number, the lowest first.
pub open spec fn le64(value: u64) -> Seq<u8> {
    seq![
        (value % 0x100) as u8,
        (value / 0x100 % 0x100) as u8,
        (value / 0x1_0000 % 0x100) as u8,
        (value / 0x100_0000 % 0x100) as u8,
        (value / 0x1_0000_0000 % 0x100) as u8,
        (value / 0x100_0000_0000 % 0x100) as u8,
        (value / 0x1_0000_0000_0000 % 0x100) as u8,
        (value / 0x100_0000_0000_0000) as u8,
    ]
}

/// The bytes of some hashes, one after the other.
pub open spec fn hash_items(hashes: Seq<Blake3Hash>) -> Seq<u8>
    decreases hashes.len(),
{
    if hashes.len() == 0 {
        Seq::empty()
    } else {
        hash_items(hashes.drop_last()) + hashes.last()@
    }
}

/// What is signed for a checkpoint: the domain tag, the two roots, the height
/// and the number of finalized events as eight bytes each, the frontier.
pub open spec fn checkpoint_preimage(
    event_root: Blake3Hash,
    state_root: Blake3Hash,
    height: u64,
    finalized_events: u64,
    frontier: Seq<Blake3Hash>,
) -> Seq<u8> {
    CHECKPOINT_DOMAIN_SEP.spec_bytes() + event_root@ + state_root@ + le64(height) + le64(
        finalized_events,
    ) + hash_items(frontier)
}

impl CheckpointPayload {
    /// What is signed for this checkpoint. The signatures are no part of it.
    pub open spec fn preimage(&self) -> Seq<u8> {
        checkpoint_preimage(
            self.event_root,
            self.state_root,
            self.height,
            self.finalized_events,
            self.frontier@,
        )
    }
}

/// Appends the eight bytes of a number, the lowest first.
fn write_le64(out: &mut Vec<u8>, value: u64)
    ensures
        final(out)@ == old(out)@ + le64(value),
{
    out.push((value % 0x100) as u8);
    out.push((value / 0x100 % 0x100) as u8);
    out.push((value / 0x1_0000 % 0x100) as u8);
    out.push((value / 0x100_0000 % 0x100) as u8);
    out.push((value / 0x1_0000_0000 % 0x100) as u8);
    out.push((value / 0x100_0000_0000 % 0x100) as u8);
    out.push((value / 0x1_0000_0000_0000 % 0x100) as u8);
    out.push((value / 0x100_0000_0000_0000) as u8);
    assert(out@ =~= old(out)@ + le64(value));
}

/// Computes the signing preimage of a checkpoint.
pub fn checkpoint_signing_preimage(cp: &CheckpointPayload) -> (preimage: Vec<u8>)
    ensures
        preimage@ == cp.preimage(),
{
    let mut preimage: Vec<u8> = Vec::new();
    preimage.extend_from_slice(CHECKPOINT_DOMAIN_SEP.as_bytes());
    preimage.extend_from_slice(cp.event_root.as_bytes());
    preimage.extend_from_slice(cp.state_root.as_bytes());
    write_le64(&mut preimage, cp.height);
    write_le64(&mut preimage, cp.finalized_events);
    let ghost start = preimage@;
    let mut i: usize = 0;
    assert(cp.frontier@.take(0) =~= Seq::empty());
    assert(preimage@ =~= start + hash_items(cp.frontier@.take(0)));
    while i < cp.frontier.len()
        invariant
            i <= cp.frontier@.len(),
            preimage@ == start + hash_items(cp.frontier@.take(i as int)),
        decreases cp.frontier@.len() - i,
    {
        assert(cp.frontier@.take(i + 1).drop_last() =~= cp.frontier@.take(i as int));
        preimage.extend_from_slice(cp.frontier[i].as_bytes());
        assert(preimage@ =~= start + hash_items(cp.frontier@.take(i + 1)));
        i += 1;
    }
    assert(cp.frontier@.take(i as int) =~= cp.frontier@);
    assert(preimage@ =~= cp.preimage());
    preimage
}

/// Signs a checkpoint as a validator, under the checkpoint domain.
pub fn sign_checkpoint(
    cp: &CheckpointPayload,
    validator_did: Did,
    key_version: u64,
    signing_key: &[u8; 32],
) -> (sig: ValidatorSignature)
    ensures
        sig.validator_did == validator_did,
        sig.key_version == key_version,
        sig.signature == ed25519_signature(signing_key@, cp.preimage()),
        ed25519_accepts(ed25519_public_key(signing_key@)@, cp.preimage(), sig.signature@),
{
    let preimage = checkpoint_signing_preimage(cp);
    ValidatorSignature {
        validator_did,
        key_version,
        signature: ed25519_sign(signing_key, preimage.as_slice()),
    }
}

/// Whether a validator's signature on a checkpoint verifies under a public
/// key.
pub fn verify_checkpoint_signature(
    cp: &CheckpointPayload,
    sig: &ValidatorSignature,
    public_key: &[u8; 32],
) -> (valid: bool)
    ensures
        valid == ed25519_accepts(public_key@, cp.preimage(), sig.signature@),
{
    let preimage = checkpoint_signing_preimage(cp);
    ed25519_verify(public_key, preimage.as_slice(), &sig.signature).is_ok()
}

} // verus!
