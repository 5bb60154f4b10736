//! Sketch-level blocks, linked by numeric id.

use vstd::prelude::*;
use crate::protocol::transaction::Transaction;

verus! {

/// A block that names its predecessor by id.
pub struct Block {
    pub id: u64,
    pub id_prev: u64,
    pub transactions: Vec<Option<Transaction>>,
}

impl Block {
    pub fn new(id: u64, id_prev: u64) -> (r: Block)
        ensures
            r.id == id,
            r.id_prev == id_prev,
            r.transactions@.len() == 0,
    {
        Block { id, id_prev, transactions: Vec::new() }
    }

    pub fn id(&self) -> (r: u64)
        ensures
            r == self.id,
    {
        self.id
    }

    /// Mutable access to the predecessor id.
    pub fn id_prev(&mut self) -> (r: &mut u64)
        ensures
            *r == old(self).id_prev,
            final(self).id_prev == *final(r),
            final(self).id == old(self).id,
            final(self).transactions == old(self).transactions,
    {
        &mut self.id_prev
    }
}

} // verus!
