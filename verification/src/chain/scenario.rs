//! Judging fork choice by recorded scenarios: which outcome a step expects.
use vstd::prelude::*;

use crate::beacon::Checkpoint;
use crate::bytes::B256;
use crate::chain::import::OnBlockOutcome;

verus! {

/// Whether a step is to succeed. A step that does not say is.
pub fn expects_success(valid: Option<bool>) -> (expects: bool)
    ensures
        expects == (valid != Some(false)),
{
    match valid {
        Some(valid) => valid,
        None => true,
    }
}

/// What checking one column of a scenario gave.
#[derive(Debug)]
pub struct ColumnCheck<Error> {
    /// Whether the column is well-formed.
    pub well_formed: bool,
    /// Whether its proofs hold, or that they could not be checked.
    pub proofs: Result<bool, Error>,
}

/// Whether a column may be stored.
pub open spec fn storable<Error>(check: ColumnCheck<Error>) -> bool {
    check.well_formed && check.proofs == Ok::<bool, Error>(true)
}

/// A block of a scenario with the columns that were handed out for it. Columns
/// are stored only if they are valid, as everywhere; one that is not makes the
/// whole step invalid.
#[derive(Debug, Clone, Copy, PartialEq, Eq)]
pub struct BlockScenario {
    verify_blob_availability: bool,
    data_columns_valid: bool,
}

impl BlockScenario {
    /// Whether fork choice has to see the data of the block.
    pub closed spec fn verifies(&self) -> bool {
        self.verify_blob_availability
    }

    /// Whether all columns so far were valid.
    pub closed spec fn columns_valid(&self) -> bool {
        self.data_columns_valid
    }

    /// A block whose step lists columns, or does not.
    pub fn new(lists_columns: bool) -> (scenario: Self)
        ensures
            scenario.verifies() == lists_columns,
            scenario.columns_valid(),
    {
        BlockScenario { verify_blob_availability: lists_columns, data_columns_valid: true }
    }

    /// Whether fork choice has to see the data of the block: it has if the step
    /// lists columns.
    pub fn verify_blob_availability(&self) -> (verifies: bool)
        ensures
            verifies == self.verifies(),
    {
        self.verify_blob_availability
    }

    /// Takes note of a column. Returns whether to store it.
    pub fn add_column<Error>(&mut self, check: ColumnCheck<Error>) -> (store: bool)
        ensures
            store == storable(check),
            final(self).verifies() == old(self).verifies(),
            final(self).columns_valid() == (old(self).columns_valid() && storable(check)),
    {
        let proofs_hold = match check.proofs {
            Ok(hold) => hold,
            Err(_) => false,
        };
        let valid = check.well_formed && proofs_hold;
        self.data_columns_valid = self.data_columns_valid && valid;
        valid
    }

    /// Whether the step came out as expected.
    pub fn holds<Error>(&self, outcome: Result<OnBlockOutcome, Error>, valid: Option<bool>) -> (holds:
        bool)
        ensures
            holds == ((self.columns_valid() && outcome == Ok::<OnBlockOutcome, Error>(
                OnBlockOutcome::Imported,
            )) == (valid != Some(false))),
    {
        let imported = match outcome {
            Ok(OnBlockOutcome::Imported) => true,
            _ => false,
        };
        (self.data_columns_valid && imported) == expects_success(valid)
    }
}

/// What a scenario expects of the store. What it leaves open is not compared.
#[derive(Debug, Clone, Copy, PartialEq, Eq)]
pub struct Checks {
    pub time: Option<u64>,
    pub justified_checkpoint: Option<Checkpoint>,
    pub finalized_checkpoint: Option<Checkpoint>,
    pub proposer_boost_root: Option<B256>,
}

/// What the store holds.
#[derive(Debug, Clone, Copy, PartialEq, Eq)]
pub struct Observed {
    pub time: u64,
    pub justified_checkpoint: Checkpoint,
    pub finalized_checkpoint: Checkpoint,
    pub proposer_boost_root: B256,
}

/// A value of the store that a scenario can speak of.
#[derive(Debug, Clone, Copy, PartialEq, Eq, Structural)]
pub enum CheckedValue {
    Time,
    JustifiedCheckpoint,
    FinalizedCheckpoint,
    ProposerBoostRoot,
}

/// Whether a value is as expected, or nothing is expected of it.
pub open spec fn agrees<T>(expected: Option<T>, observed: T) -> bool {
    expected matches Some(expected) ==> expected == observed
}

/// Whether two checkpoints are equal.
fn same_checkpoint(first: &Checkpoint, second: &Checkpoint) -> (same: bool)
    ensures
        same == (*first == *second),
{
    first.epoch == second.epoch && first.root.equals(&second.root)
}

/// The first value that is not as expected, if there is one.
pub fn first_mismatch(checks: &Checks, observed: &Observed) -> (mismatch: Option<CheckedValue>)
    ensures
        mismatch == (if !agrees(checks.time, observed.time) {
            Some(CheckedValue::Time)
        } else if !agrees(checks.justified_checkpoint, observed.justified_checkpoint) {
            Some(CheckedValue::JustifiedCheckpoint)
        } else if !agrees(checks.finalized_checkpoint, observed.finalized_checkpoint) {
            Some(CheckedValue::FinalizedCheckpoint)
        } else if !agrees(checks.proposer_boost_root, observed.proposer_boost_root) {
            Some(CheckedValue::ProposerBoostRoot)
        } else {
            None
        }),
{
    if let Some(time) = checks.time {
        if time != observed.time {
            return Some(CheckedValue::Time);
        }
    }
    if let Some(checkpoint) = checks.justified_checkpoint {
        if !same_checkpoint(&checkpoint, &observed.justified_checkpoint) {
            return Some(CheckedValue::JustifiedCheckpoint);
        }
    }
    if let Some(checkpoint) = checks.finalized_checkpoint {
        if !same_checkpoint(&checkpoint, &observed.finalized_checkpoint) {
            return Some(CheckedValue::FinalizedCheckpoint);
        }
    }
    if let Some(root) = checks.proposer_boost_root {
        if !root.equals(&observed.proposer_boost_root) {
            return Some(CheckedValue::ProposerBoostRoot);
        }
    }
    None
}

/// A column is stored exactly if it is well-formed and its proofs were found to
/// hold; a check that failed counts against it.
pub proof fn only_proven_columns_are_stored<Error>(check: ColumnCheck<Error>)
    ensures
        storable(check) <==> check.well_formed && (check.proofs matches Ok(true)),
{
}

/// A value agrees unless something else is expected of it.
pub proof fn open_expectations_agree<T>(expected: Option<T>, observed: T)
    ensures
        agrees(expected, observed) <==> expected is None || expected == Some(observed),
{
}

} // verus!
