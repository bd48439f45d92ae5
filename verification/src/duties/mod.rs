//! Validator duties: who proposes, attests and signs for the sync committee.
pub mod api;
pub mod attester;
pub mod lookup;
pub mod proposer;
pub mod sync_committee;
