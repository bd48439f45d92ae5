//! The status that a node tells its peers.
use vstd::prelude::*;

use crate::beacon::Checkpoint;
use crate::bytes::{display_root, root_text, B256};
use crate::chain::import::BeaconChain;

verus! {

/// What a node tells a peer of its view of the chain.
#[derive(Debug, Clone, Copy, PartialEq, Eq)]
pub struct Status {
    pub fork_digest: [u8; 4],
    pub finalized_root: B256,
    pub finalized_epoch: u64,
    pub head_root: B256,
    pub head_slot: u64,
    pub earliest_available_slot: u64,
}

/// The finalized checkpoint and the root of the head block.
#[derive(Debug, Clone, Copy, PartialEq, Eq)]
pub struct ChainHead {
    pub finalized_checkpoint: Checkpoint,
    pub head_root: B256,
}

/// Chooses the head of a status. Without a head, the finalized block stands in for
/// it; without a finalized checkpoint there is no status.
pub fn choose_head<Error>(
    finalized_checkpoint: Result<Checkpoint, Error>,
    head: Result<B256, Error>,
) -> (chosen: Result<ChainHead, String>)
    ensures
        match finalized_checkpoint {
            Ok(finalized_checkpoint) => chosen == Ok::<ChainHead, String>(
                ChainHead {
                    finalized_checkpoint,
                    head_root: match head {
                        Ok(head) => head,
                        Err(_) => finalized_checkpoint.root,
                    },
                },
            ),
            Err(_) => chosen matches Err(text) && text@ == "Failed to get finalized checkpoint"@,
        },
{
    match finalized_checkpoint {
        Ok(finalized_checkpoint) => {
            let head_root = match head {
                Ok(head) => head,
                Err(_) => finalized_checkpoint.root,
            };
            Ok(ChainHead { finalized_checkpoint, head_root })
        },
        Err(_) => Err("Failed to get finalized checkpoint".to_owned()),
    }
}

/// The text of a lookup that gave no block.
pub open spec fn failed_lookup(head_root: B256, found: Seq<char>) -> Seq<char> {
    "Failed to get block for head root "@ + root_text(head_root) + ": "@ + found
}

impl<State> BeaconChain<State> {
    /// The status of a chain. `head_slot` is what looking up the head block gave: its
    /// slot, nothing, or the text of the error.
    pub fn build_status_request(
        &self,
        head: &ChainHead,
        head_slot: Result<Option<u64>, String>,
        fork_digest: [u8; 4],
    ) -> (status: Result<Status, String>)
        ensures
            match head_slot {
                Ok(Some(slot)) => status == Ok::<Status, String>(
                    Status {
                        fork_digest,
                        finalized_root: head.finalized_checkpoint.root,
                        finalized_epoch: head.finalized_checkpoint.epoch,
                        head_root: head.head_root,
                        head_slot: slot,
                        earliest_available_slot: 0,
                    },
                ),
                Ok(None) => status matches Err(text) && text@ == failed_lookup(
                    head.head_root,
                    "Ok(None)"@,
                ),
                Err(error) => status matches Err(text) && text@ == failed_lookup(
                    head.head_root,
                    "Err("@ + error@ + ")"@,
                ),
            },
    {
        let found = match head_slot {
            Ok(Some(slot)) => {
                return Ok(
                    Status {
                        fork_digest,
                        finalized_root: head.finalized_checkpoint.root,
                        finalized_epoch: head.finalized_checkpoint.epoch,
                        head_root: head.head_root,
                        head_slot: slot,
                        earliest_available_slot: 0,
                    },
                );
            },
            Ok(None) => "Ok(None)".to_owned(),
            Err(error) => {
                let mut found = "Err(".to_owned();
                found.append(error.as_str());
                found.append(")");
                found
            },
        };
        let mut text = "Failed to get block for head root ".to_owned();
        text.append(display_root(&head.head_root).as_str());
        text.append(": ");
        text.append(found.as_str());
        Err(text)
    }
}

/// A failed lookup names the head root and what was found in place of a block.
pub proof fn failed_lookup_names_root_and_finding(head_root: B256, found: Seq<char>)
    ensures
        failed_lookup(head_root, found) == "Failed to get block for head root "@ + root_text(
            head_root,
        ) + ": "@ + found,
{
}

} // verus!
