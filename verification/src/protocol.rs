//! An early protocol sketch of the ledger data model.
//!
//! These types predate the full ledger entities: accounts are plain
//! numeric ids, blocks link by id instead of by hash, and verification is
//! not yet in place.  They are kept as the wire-level sketch they are.

pub mod address;
pub mod block;
pub mod blockchain;
pub mod transaction;
