//! Parameters of the network and the arithmetic of slots and epochs.
use vstd::prelude::*;

verus! {

/// How many slots an epoch has.
pub const SLOTS_PER_EPOCH: u64 = 32;

/// How many epochs ahead a seed is known.
pub const MIN_SEED_LOOKAHEAD: u64 = 1;

/// The first slot of the chain.
pub const GENESIS_SLOT: u64 = 0;

/// How many days back blocks are still checked for available data.
pub const AVAILABILITY_DAYS: u64 = 17;

/// The parameters of the network that this crate reads.
#[derive(Debug, Clone, Copy, PartialEq, Eq, Structural)]
pub struct NetworkSpec {
    /// The length of a slot in milliseconds.
    pub slot_duration_ms: u64,
    /// The length of a slot in seconds.
    pub seconds_per_slot: u64,
    /// How far the clocks of two nodes may differ, in milliseconds.
    pub maximum_gossip_clock_disparity: u64,
    /// The epoch of the Fulu fork.
    pub fulu_fork_epoch: u64,
    /// The largest message that a peer may send, in bytes.
    pub max_message_size: u64,
}

/// The epoch that holds a slot.
pub fn compute_epoch_at_slot(slot: u64) -> (epoch: u64)
    ensures
        epoch == slot / SLOTS_PER_EPOCH,
        epoch * SLOTS_PER_EPOCH <= slot < (epoch + 1) * SLOTS_PER_EPOCH,
{
    slot / SLOTS_PER_EPOCH
}

/// Whether the first slot of an epoch fits in 64 bits.
pub open spec fn start_slot_fits(epoch: u64) -> bool {
    epoch * SLOTS_PER_EPOCH <= u64::MAX
}

/// The first slot of an epoch.
pub fn compute_start_slot_at_epoch(epoch: u64) -> (slot: u64)
    requires
        start_slot_fits(epoch),
    ensures
        slot == epoch * SLOTS_PER_EPOCH,
{
    epoch * SLOTS_PER_EPOCH
}

/// The epoch of an epoch's first slot is that epoch.
pub proof fn start_slot_lies_in_its_epoch(epoch: u64)
    requires
        start_slot_fits(epoch),
    ensures
        (epoch * SLOTS_PER_EPOCH) / (SLOTS_PER_EPOCH as int) == epoch,
{
}

} // verus!
