//! Gossip: the protocol's parameters, message ids, and the rules by which data
//! column sidecars are accepted.
pub mod config;
pub mod validation;
