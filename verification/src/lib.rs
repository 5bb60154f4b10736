//! A minimal peer-to-peer ledger node library.
//!
//! The crate keeps an append-only chain of blocks holding signed
//! value-transfer transactions, validates blocks against a naive
//! proof-of-work rule and a value-conservation rule, rebuilds a chain
//! from an unordered set of persisted blocks, replays the chain into a
//! balance cache, and models the deduplicated peer registry and the
//! outbound-job dispatcher of the gossip subsystem.
//!
//! Cryptography (SHA-256, RSA signatures) and the wire encoding are
//! supplied by outside crates; sockets, disk and threads belong to the
//! program around the library, which calls the handlers here with plain
//! values and carries their decisions out.

pub mod address;
pub mod block;
pub mod blockchain;
pub mod crypto;
pub mod network;
pub mod node;
pub mod protocol;
pub mod transaction;
pub mod wallet;

mod kill_token;

pub use kill_token::KillToken;
