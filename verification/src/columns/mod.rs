//! Fetching the data columns that pending blocks still need.
pub mod fetch;
pub mod fetches;
pub mod request;
pub mod tracker;
