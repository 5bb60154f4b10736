//! Sketch-level chain: only the head is kept, and verification always
//! passes.

use vstd::prelude::*;
use crate::protocol::block::Block;

verus! {

/// A chain sketch holding its head block.
pub struct Blockchain {
    pub length: u64,
    pub head: Option<Block>,
}

impl Blockchain {
    pub fn new() -> (r: Blockchain)
        ensures
            r.length == 0,
            r.head is None,
    {
        Blockchain { length: 0, head: None }
    }

    /// Verification placeholder: every block passes.
    fn verify(&self, _block: &Block) -> (r: bool)
        ensures
            r,
    {
        true
    }

    /// Appends a block: its predecessor id is rewritten to the head's id
    /// (zero on an empty chain) and it becomes the new head.
    pub fn append_block(&mut self, mut block: Block) -> (r: Result<(), (&'static str, Block)>)
        ensures
            r is Ok,
            final(self).head matches Some(b) && b.id == block.id && b.transactions
                == block.transactions,
            final(self).head matches Some(b) && b.id_prev == (match old(self).head {
                Some(h) => h.id,
                None => 0u64,
            }),
            final(self).length == old(self).length,
    {
        if Blockchain::verify(self, &block) {
            if let Some(i) = &self.head {
                let prev_id = i.id();
                *(block.id_prev()) = prev_id;
                self.head = Some(block);
            } else {
                *(block.id_prev()) = 0;
                self.head = Some(block);
            }
            Ok(())
        } else {
            Err(("block verification failed!", block))
        }
    }
}

} // verus!
