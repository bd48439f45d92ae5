//! Blocks that wait for their data columns.
pub mod checker;
pub mod pending;
