//! Verified core of a load-based leader-election protocol for a small,
//! statically configured cluster of peer nodes.
//!
//! The crate contains the node state machine, the newline-terminated wire
//! codec for the five election messages, the staleness rules for inbound
//! messages, the deterministic CPU-load tie-break, and the timer decisions
//! that drive elections and leader step-down. All network and clock plumbing
//! stays outside; the functions here work on plain values and carry exact
//! contracts.

pub mod api;
pub mod codec;
pub mod config;
pub mod election;
pub mod handler;
pub mod laws;
pub mod message;
pub mod monitor;
pub mod registration;
pub mod state;
