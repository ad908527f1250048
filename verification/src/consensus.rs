//! The finality oracle: a stand-in for the vote-collecting gadget.

use crate::checkpoint::CheckpointPayload;
use vstd::prelude::*;

verus! {

/// The finality gadget. It gathers no votes yet: every checkpoint it is asked
/// about counts as final.
#[derive(Debug)]
pub struct BftGadget {
    pub current_epoch: u64,
}

impl BftGadget {
    /// The gadget at epoch 0.
    pub fn new() -> (gadget: BftGadget)
        ensures
            gadget.current_epoch == 0,
    {
        BftGadget { current_epoch: 0 }
    }

    /// Whether a checkpoint is final.
    pub fn is_finalized(&self, _checkpoint: &CheckpointPayload) -> (finalized: bool)
        ensures
            finalized,
    {
        true
    }
}

} // verus!
