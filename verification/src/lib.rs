//! Beacon-chain data availability, column fetching and validator duties.
//!
//! The contracts say what each function returns, and the public proof functions
//! state the properties that span several functions. All of it is verified but the
//! few calls into other crates, which stand behind trusted contracts: the comment
//! above each says what is claimed of the call. Reading a database, talking to
//! peers and answering HTTP requests is left to the caller, who hands in what was
//! read as plain values.
pub mod availability;
pub mod beacon;
pub mod bytes;
pub mod chain;
pub mod columns;
pub mod duties;
pub mod gossip;
pub mod merkle;
pub mod network;
pub mod peer;
pub mod root_map;
pub mod text;
