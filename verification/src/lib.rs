//! A transactional voting ledger: named polls with a bounded set of labeled
//! options, one ballot per (account, poll) pair, and tallies that always
//! equal the number of matching ballots — including the revote path, where
//! the old option's count is decremented atomically with the new one's
//! increment.
//!
//! The host environment (message decoding, address validation, persistence,
//! response encoding) is an external collaborator: this library consumes a
//! caller identity and already-validated input data as plain values, holds
//! the poll and ballot state itself, and hands response data back as plain
//! values.

pub mod contract;
pub mod error;
pub mod laws;
pub mod model;
pub mod msg;
pub mod order;
pub mod state;
