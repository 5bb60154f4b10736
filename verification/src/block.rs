//! Blocks of the ledger.
//!
//! A block carries a sequence id, a mutable nonce (varied while mining), a
//! miner identity, an ordered list of transactions, and the hash of the
//! previous block (empty for the genesis block).  Its content hash covers
//! id, nonce, previous-hash, miner hash and every transaction hash in
//! order.

use vstd::prelude::*;
use crate::address::{addr_eqv, addr_hash, Address};
use crate::crypto::{append_bytes, bytes_to_hex, sha256, sha256_of, u64_be, u64_to_be_bytes,
    hex_of, Sha256Hash};
use crate::transaction::{tx_eqv, tx_hash, lemma_tx_hash_determined, Transaction};

verus! {

/// The counter varied to satisfy the proof-of-work condition.
#[derive(Clone, Debug, PartialEq, Eq, Structural)]
pub struct Nounce {
    pub nounce: u64,
}

impl Nounce {
    pub fn new() -> (r: Nounce)
        ensures
            r.nounce == 0,
    {
        Nounce { nounce: 0 }
    }

    pub fn incr(&mut self)
        requires
            old(self).nounce < u64::MAX,
        ensures
            final(self).nounce == old(self).nounce + 1,
    {
        self.nounce = self.nounce + 1;
    }
}

/// One block of the chain.
#[derive(Clone, Debug)]
pub struct Block {
    pub id: u64,
    pub nounce: Nounce,
    pub miner: Address,
    pub transactions: Vec<Transaction>,
    pub hash_prev: Vec<u8>,
}

/// Two blocks carry the same content.
pub open spec fn block_eqv(a: Block, b: Block) -> bool {
    &&& a.id == b.id
    &&& a.nounce == b.nounce
    &&& addr_eqv(a.miner, b.miner)
    &&& a.transactions@.len() == b.transactions@.len()
    &&& forall|i: int|
        0 <= i < a.transactions@.len() ==> tx_eqv(
            #[trigger] a.transactions@[i],
            b.transactions@[i],
        )
    &&& a.hash_prev@ == b.hash_prev@
}

/// The concatenation of the content hashes of a transaction list, in
/// order.
pub open spec fn tx_hashes(s: Seq<Transaction>) -> Seq<u8>
    decreases s.len(),
{
    if s.len() == 0 {
        Seq::empty()
    } else {
        tx_hashes(s.drop_last()) + tx_hash(s.last())
    }
}

/// Transaction lists with pairwise equivalent entries have the same hash
/// concatenation.
pub proof fn lemma_tx_hashes_congruent(s1: Seq<Transaction>, s2: Seq<Transaction>)
    requires
        s1.len() == s2.len(),
        forall|i: int| 0 <= i < s1.len() ==> tx_eqv(#[trigger] s1[i], s2[i]),
    ensures
        tx_hashes(s1) == tx_hashes(s2),
    decreases s1.len(),
{
    if s1.len() > 0 {
        lemma_tx_hashes_congruent(s1.drop_last(), s2.drop_last());
        assert(tx_eqv(s1.last(), s2.last()));
        lemma_tx_hash_determined(s1.last(), s2.last());
    }
}

/// Field-for-field equal blocks (previous-hash compared by content) are
/// equivalent.
pub proof fn lemma_block_eqv_of_fields(a: Block, b: Block)
    requires
        a.id == b.id,
        a.nounce == b.nounce,
        a.miner == b.miner,
        a.transactions == b.transactions,
        a.hash_prev@ == b.hash_prev@,
    ensures
        block_eqv(a, b),
{
    assert forall|i: int| 0 <= i < a.transactions@.len() implies tx_eqv(
        #[trigger] a.transactions@[i],
        b.transactions@[i],
    ) by {
        assert(a.transactions@[i] == b.transactions@[i]);
    }
}

/// The content hash a block would have with `prev` as its previous-hash.
#[verifier::opaque]
pub open spec fn block_hash_with_prev(b: Block, prev: Seq<u8>) -> Seq<u8> {
    sha256_of(
        u64_be(b.id) + u64_be(b.nounce.nounce) + prev + addr_hash(b.miner) + tx_hashes(
            b.transactions@,
        ),
    )
}

/// The content hash of a block.
pub open spec fn block_hash(b: Block) -> Seq<u8> {
    block_hash_with_prev(b, b.hash_prev@)
}

/// Blocks with the same content have the same hash.
pub proof fn lemma_block_hash_congruent(b1: Block, b2: Block)
    requires
        block_eqv(b1, b2),
    ensures
        block_hash(b1) == block_hash(b2),
{
    reveal(block_hash_with_prev);
    lemma_tx_hashes_congruent(b1.transactions@, b2.transactions@);
}

/// Whether a block is a genesis candidate: its previous-hash is empty.
pub open spec fn is_genesis(b: Block) -> bool {
    b.hash_prev@.len() == 0
}

impl Block {
    /// An empty genesis-shaped block mined by `miner`.
    pub fn new(miner: Address) -> (r: Block)
        ensures
            r.id == 0,
            r.nounce.nounce == 0,
            r.miner == miner,
            r.transactions@.len() == 0,
            r.hash_prev@.len() == 0,
    {
        Block {
            id: 0,
            hash_prev: Vec::new(),
            miner,
            nounce: Nounce::new(),
            transactions: Vec::new(),
        }
    }

    /// An empty block that follows `prev`: the next id, and `prev`'s hash
    /// as previous-hash.
    pub fn with_previous(miner: Address, prev: &Block) -> (r: Block)
        requires
            prev.id < u64::MAX,
        ensures
            r.id == prev.id + 1,
            r.nounce.nounce == 0,
            r.miner == miner,
            r.transactions@.len() == 0,
            r.hash_prev@ == block_hash(*prev),
    {
        Block {
            id: prev.id + 1,
            hash_prev: prev.hash(),
            miner,
            nounce: Nounce::new(),
            transactions: Vec::new(),
        }
    }

    pub fn id(&self) -> (r: u64)
        ensures
            r == self.id,
    {
        self.id
    }

    /// Appends a transaction to the block.
    pub fn add_transaction(&mut self, trx: Transaction)
        ensures
            final(self).transactions@ == old(self).transactions@.push(trx),
            final(self).id == old(self).id,
            final(self).nounce == old(self).nounce,
            final(self).miner == old(self).miner,
            final(self).hash_prev == old(self).hash_prev,
    {
        self.transactions.push(trx);
    }

    pub fn get_miner(&self) -> (r: &Address)
        ensures
            r == &self.miner,
    {
        &self.miner
    }

    pub fn transactions(&self) -> (r: &Vec<Transaction>)
        ensures
            r == &self.transactions,
    {
        &self.transactions
    }

    /// Bumps the nonce, changing the block's hash for the next mining
    /// trial.
    pub fn update_nounce(&mut self)
        requires
            old(self).nounce.nounce < u64::MAX,
        ensures
            final(self).nounce.nounce == old(self).nounce.nounce + 1,
            final(self).id == old(self).id,
            final(self).miner == old(self).miner,
            final(self).transactions == old(self).transactions,
            final(self).hash_prev == old(self).hash_prev,
    {
        self.nounce.incr()
    }

    pub fn hash_prev(&self) -> (r: &Vec<u8>)
        ensures
            r == &self.hash_prev,
    {
        &self.hash_prev
    }

    pub fn set_hash_prev(&mut self, hash: Vec<u8>)
        ensures
            final(self).hash_prev == hash,
            final(self).id == old(self).id,
            final(self).nounce == old(self).nounce,
            final(self).miner == old(self).miner,
            final(self).transactions == old(self).transactions,
    {
        self.hash_prev = hash;
    }
}

impl Sha256Hash for Block {
    open spec fn hash_spec(&self) -> Seq<u8> {
        block_hash(*self)
    }

    fn hash(&self) -> (r: Vec<u8>) {
        proof {
            reveal(block_hash_with_prev);
        }
        let mut buf = u64_to_be_bytes(self.id);
        let nb = u64_to_be_bytes(self.nounce.nounce);
        append_bytes(&mut buf, &nb);
        append_bytes(&mut buf, &self.hash_prev);
        let mh = self.miner.hash();
        append_bytes(&mut buf, &mh);
        let ghost pre = buf@;
        let mut i: usize = 0;
        while i < self.transactions.len()
            invariant
                0 <= i <= self.transactions@.len(),
                buf@ == pre + tx_hashes(self.transactions@.take(i as int)),
            decreases self.transactions@.len() - i,
        {
            let th = self.transactions[i].hash();
            append_bytes(&mut buf, &th);
            proof {
                assert(self.transactions@.take(i + 1).drop_last() =~= self.transactions@.take(
                    i as int,
                ));
                assert(self.transactions@.take(i + 1).last() == self.transactions@[i as int]);
            }
            i = i + 1;
        }
        proof {
            assert(self.transactions@.take(self.transactions@.len() as int)
                =~= self.transactions@);
        }
        sha256(&buf)
    }

    fn hash_str(&self) -> (r: String) {
        bytes_to_hex(&self.hash())
    }
}

} // verus!
