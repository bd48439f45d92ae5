//! The local chain: importing blocks, judging them by scenarios, and the status told to peers.
pub mod import;
pub mod scenario;
pub mod status;
