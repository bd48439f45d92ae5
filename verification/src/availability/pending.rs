//! What is known of a block whose data is not yet available.
use std::collections::HashSet;

use vstd::prelude::*;
use vstd::std_specs::iter::IteratorSpec;

use crate::beacon::SignedBeaconBlock;

verus! {

/// A block that waits for its columns, with the state that it leads to.
#[derive(Debug, Clone)]
pub struct PendingBlock<State> {
    pub signed_block: SignedBeaconBlock,
    pub post_state: State,
}

/// What has arrived for one block root: the block, its columns, or both.
#[derive(Debug)]
pub struct PendingAvailability<State> {
    pub pending_block: Option<PendingBlock<State>>,
    pub received_columns: HashSet<u64>,
    pub slot: u64,
}

/// The mathematical value of a [`PendingAvailability`].
#[verifier::ext_equal]
pub struct Arrivals<State> {
    pub pending_block: Option<PendingBlock<State>>,
    pub received_columns: Set<u64>,
    pub slot: u64,
}

/// Nothing has arrived.
pub open spec fn no_arrivals<State>() -> Arrivals<State> {
    Arrivals { pending_block: None, received_columns: Set::empty(), slot: 0 }
}

impl<State> View for PendingAvailability<State> {
    type V = Arrivals<State>;

    open spec fn view(&self) -> Arrivals<State> {
        Arrivals {
            pending_block: self.pending_block,
            received_columns: self.received_columns@,
            slot: self.slot,
        }
    }
}

impl<State: Clone> Clone for PendingAvailability<State> {
    fn clone(&self) -> (copy: Self)
        ensures
            copy.received_columns@ == self.received_columns@,
            copy.slot == self.slot,
            copy.pending_block is Some <==> self.pending_block is Some,
            self.pending_block is Some ==> cloned(self.pending_block->0, copy.pending_block->0),
    {
        broadcast use vstd::std_specs::hash::group_hash_axioms;

        let mut received_columns: HashSet<u64> = HashSet::new();
        let ghost columns = vstd::std_specs::hash::spec_hash_keys_iter(
            &self.received_columns,
        ).remaining().unref();
        for column in iter: self.received_columns.iter()
            invariant
                iter.seq().unref() == columns,
                received_columns@ == columns.take(iter.index() as int).to_set(),
        {
            received_columns.insert(*column);
            proof {
                let taken = columns.take(iter.index() as int);
                assert(columns.take(iter.index() + 1) =~= taken.push(*column));
                taken.lemma_push_to_set_commute(*column);
            }
        }
        assert(columns.take(columns.len() as int) =~= columns);
        let pending_block = match &self.pending_block {
            Some(pending_block) => Some(pending_block.clone()),
            None => None,
        };
        PendingAvailability { pending_block, received_columns, slot: self.slot }
    }
}

impl<State> Default for PendingAvailability<State> {
    fn default() -> (entry: Self)
        ensures
            entry@ == no_arrivals::<State>(),
            entry.pending_block is None,
            forall|column: u64| !#[trigger] entry.received_columns@.contains(column),
            entry.slot == 0,
    {
        PendingAvailability { pending_block: None, received_columns: HashSet::new(), slot: 0 }
    }
}

} // verus!
