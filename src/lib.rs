//! Turns receipts of the social-graph contract into index events, and keeps
//! a bounded window of them.
pub mod diagnostics;
pub mod entry;
pub mod events;
pub mod indexer;
pub mod json;
pub mod model;
pub mod order;
pub mod payload;
pub mod sink;
pub mod laws;
