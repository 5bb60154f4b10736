//! The append-only chain of blocks.
//!
//! The chain is kept in causal order, genesis first.  Every stored block
//! passed verification at insertion time: its hash satisfies the naive
//! proof-of-work rule (the hex rendering starts with `000`), every
//! transaction carries a signature that verifies against its input
//! identity, and no transaction pays out more than its input value.

use vstd::prelude::*;
use std::collections::HashMap;
use crate::block::{
    block_eqv, block_hash, block_hash_with_prev, is_genesis, lemma_block_eqv_of_fields,
    lemma_block_hash_congruent, Block,
};
use crate::crypto::{bytes_eq, copy_bytes, hex_of, rsa_verify_ok, Sha256Hash};
use crate::transaction::{tx_hash, tx_nosig_hash, Transaction, Transactor};

verus! {

/// Why a block was rejected.  The signature and overdraft variants carry
/// the content hash of the offending transaction.
#[derive(Debug)]
pub enum ValidationError {
    /// The block's hash does not start with the required prefix.
    InvalidProof,
    /// A transaction carries no signature.
    MissingSignature(Vec<u8>),
    /// A transaction's signature does not verify against its input
    /// identity.
    InvalidSignature(Vec<u8>),
    /// A transaction pays out more than its input value.
    Overdraft(Vec<u8>),
}

/// Why a chain could not be assembled from a block set.
#[derive(Debug)]
pub enum StructuralError {
    /// More than one block has an empty previous-hash.
    MultipleGenesis,
    /// No block has an empty previous-hash.
    NoGenesis,
    /// A block on the chain failed verification while being appended.
    Invalid(ValidationError),
}

/// The sum of the output share values.
pub open spec fn out_sum(s: Seq<Transactor>) -> int
    decreases s.len(),
{
    if s.len() == 0 {
        0
    } else {
        out_sum(s.drop_last()) + s.last().value
    }
}

/// Whether the attached signature verifies against the input identity
/// over the signature-exempt hash.
pub open spec fn tx_sig_ok(t: Transaction) -> bool {
    t.signature matches Some(s) && rsa_verify_ok(
        t.input.addr.key_n@,
        t.input.addr.key_e@,
        tx_nosig_hash(t),
        s@,
    )
}

/// Whether a transaction passes verification: a signature is attached, it
/// verifies, and the outputs do not exceed the input value.
pub open spec fn tx_valid(t: Transaction) -> bool {
    &&& t.signature is Some
    &&& tx_sig_ok(t)
    &&& out_sum(t.output.addrs@) <= t.input.value
}

/// The index of the first transaction failing verification, or -1 when
/// all pass.
pub open spec fn first_invalid(s: Seq<Transaction>) -> int
    decreases s.len(),
{
    if s.len() == 0 {
        -1
    } else if !tx_valid(s[0]) {
        0
    } else {
        let r = first_invalid(s.drop_first());
        if r < 0 {
            -1
        } else {
            r + 1
        }
    }
}

pub proof fn lemma_first_invalid(s: Seq<Transaction>)
    ensures
        first_invalid(s) == -1 <==> forall|i: int| 0 <= i < s.len() ==> tx_valid(#[trigger] s[i]),
        first_invalid(s) != -1 ==> {
            &&& 0 <= first_invalid(s) < s.len()
            &&& !tx_valid(s[first_invalid(s)])
            &&& forall|j: int| 0 <= j < first_invalid(s) ==> tx_valid(#[trigger] s[j])
        },
    decreases s.len(),
{
    if s.len() > 0 {
        lemma_first_invalid(s.drop_first());
        assert forall|i: int| 0 < i < s.len() implies #[trigger] s[i] == s.drop_first()[i - 1]
        by {}
    }
}

/// Whether the hash satisfies the naive proof-of-work rule: its hex
/// rendering starts with `000`.
pub open spec fn pow_ok(h: Seq<u8>) -> bool {
    &&& hex_of(h).len() >= 3
    &&& hex_of(h)[0] == '0'
    &&& hex_of(h)[1] == '0'
    &&& hex_of(h)[2] == '0'
}

/// Whether a block passes verification as it stands.
pub open spec fn block_valid(b: Block) -> bool {
    &&& pow_ok(block_hash(b))
    &&& forall|i: int| 0 <= i < b.transactions@.len() ==> tx_valid(#[trigger] b.transactions@[i])
}

/// Whether a block would pass verification with `prev` as previous-hash.
pub open spec fn block_valid_with_prev(b: Block, prev: Seq<u8>) -> bool {
    &&& pow_ok(block_hash_with_prev(b, prev))
    &&& forall|i: int| 0 <= i < b.transactions@.len() ==> tx_valid(#[trigger] b.transactions@[i])
}

/// The chain links up: the first block is a genesis, and every later
/// block's previous-hash is the hash of the block before it.
pub open spec fn linked(c: Seq<Block>) -> bool {
    &&& c.len() > 0 ==> is_genesis(c[0])
    &&& forall|i: int|
        0 < i < c.len() ==> (#[trigger] c[i].hash_prev@) == block_hash(c[i - 1])
            && c[i].hash_prev@.len() == 32
}

/// The newest stored block with content hash `h`, if any.
pub open spec fn lookup_spec(c: Seq<Block>, h: Seq<u8>) -> Option<Block>
    decreases c.len(),
{
    if c.len() == 0 {
        None
    } else if block_hash(c.last()) == h {
        Some(c.last())
    } else {
        lookup_spec(c.drop_last(), h)
    }
}

/// The block store: the chain in causal order, genesis first, and its
/// length.
pub struct Blockchain {
    length: u64,
    blocks: Vec<Block>,
}

impl Blockchain {
    /// The stored chain, genesis first.
    pub closed spec fn spec_blocks(&self) -> Seq<Block> {
        self.blocks@
    }

    /// The stored length.
    pub closed spec fn spec_len(&self) -> u64 {
        self.length
    }

    /// The chain invariant: length matches, the blocks link up from a
    /// unique genesis, and every stored block passed verification.
    pub open spec fn wf(&self) -> bool {
        &&& self.spec_len() == self.spec_blocks().len()
        &&& linked(self.spec_blocks())
        &&& forall|i: int|
            0 <= i < self.spec_blocks().len() ==> block_valid(#[trigger] self.spec_blocks()[i])
    }

    /// An empty chain.
    pub fn new() -> (r: Blockchain)
        ensures
            r.wf(),
            r.spec_blocks().len() == 0,
            r.spec_len() == 0,
    {
        Blockchain { length: 0, blocks: Vec::new() }
    }

    /// The newest block, if the chain is not empty.
    pub fn head(&self) -> (r: Option<&Block>)
        ensures
            r is Some <==> self.spec_blocks().len() > 0,
            r matches Some(b) ==> *b == self.spec_blocks().last(),
    {
        if self.blocks.len() == 0 {
            None
        } else {
            Some(&self.blocks[self.blocks.len() - 1])
        }
    }

    /// The stored chain in causal order, genesis first.
    pub fn get_blocks(&self) -> (r: &Vec<Block>)
        ensures
            r@ == self.spec_blocks(),
    {
        &self.blocks
    }

    pub fn len(&self) -> (r: u64)
        ensures
            r == self.spec_len(),
    {
        self.length
    }

    /// Looks a block up by its content hash; of blocks sharing a hash the
    /// newest is returned.
    pub fn get_block(&self, hash: &Vec<u8>) -> (r: Option<&Block>)
        ensures
            r is Some <==> lookup_spec(self.spec_blocks(), hash@) is Some,
            r matches Some(b) ==> lookup_spec(self.spec_blocks(), hash@) == Some(*b),
    {
        let mut i: usize = self.blocks.len();
        proof {
            assert(self.blocks@.take(self.blocks@.len() as int) =~= self.blocks@);
        }
        while i > 0
            invariant
                0 <= i <= self.blocks@.len(),
                lookup_spec(self.blocks@, hash@) == lookup_spec(
                    self.blocks@.take(i as int),
                    hash@,
                ),
            decreases i,
        {
            i = i - 1;
            let h = self.blocks[i].hash();
            if bytes_eq(&h, hash) {
                proof {
                    assert(self.blocks@.take(i + 1).last() == self.blocks@[i as int]);
                }
                return Some(&self.blocks[i]);
            }
            proof {
                assert(self.blocks@.take(i + 1).drop_last() =~= self.blocks@.take(i as int));
                assert(self.blocks@.take(i + 1).last() == self.blocks@[i as int]);
            }
        }
        proof {
            assert(self.blocks@.take(0) =~= Seq::<Block>::empty());
        }
        None
    }

    /// Verifies a block as it stands: proof-of-work first, then each
    /// transaction in order, stopping at the first failure.
    pub fn verify(&self, block: &Block) -> (r: Result<(), ValidationError>)
        ensures
            r is Ok <==> block_valid(*block),
            r == Err::<(), ValidationError>(ValidationError::InvalidProof) <==> !pow_ok(
                block_hash(*block),
            ),
            r matches Err(e) && !(e is InvalidProof) ==> {
                &&& pow_ok(block_hash(*block))
                &&& 0 <= first_invalid(block.transactions@) < block.transactions@.len()
            },
            r matches Err(ValidationError::MissingSignature(h)) ==> {
                let t = block.transactions@[first_invalid(block.transactions@)];
                t.signature is None && h@ == tx_hash(t)
            },
            r matches Err(ValidationError::InvalidSignature(h)) ==> {
                let t = block.transactions@[first_invalid(block.transactions@)];
                t.signature is Some && !tx_sig_ok(t) && h@ == tx_hash(t)
            },
            r matches Err(ValidationError::Overdraft(h)) ==> {
                let t = block.transactions@[first_invalid(block.transactions@)];
                tx_sig_ok(t) && out_sum(t.output.addrs@) > t.input.value && h@ == tx_hash(t)
            },
    {
        proof {
            lemma_first_invalid(block.transactions@);
        }
        let h = block.hash();
        let prefix_ok: bool = h.len() >= 2 && h[0] == 0u8 && (h[1] >> 4) == 0u8;
        proof {
            crate::crypto::lemma_hex_len(h@);
            if h@.len() >= 2 {
                crate::crypto::lemma_hex_index(h@, 0);
                crate::crypto::lemma_hex_index(h@, 1);
                let b0 = h@[0];
                assert((b0 >> 4 == 0 && b0 & 0xf == 0) <==> b0 == 0) by (bit_vector);
            }
        }
        if !prefix_ok {
            return Err(ValidationError::InvalidProof);
        }
        let txs = &block.transactions;
        let mut i: usize = 0;
        while i < txs.len()
            invariant
                0 <= i <= txs@.len(),
                txs@ == block.transactions@,
                forall|j: int| 0 <= j < i ==> tx_valid(#[trigger] txs@[j]),
                pow_ok(block_hash(*block)),
                first_invalid(block.transactions@) == -1 || first_invalid(block.transactions@)
                    >= i,
            decreases txs@.len() - i,
        {
            let t = &txs[i];
            let sig = match &t.signature {
                Some(s) => s,
                None => {
                    proof {
                        lemma_first_invalid_at(block.transactions@, i as int);
                    }
                    return Err(ValidationError::MissingSignature(t.hash()));
                },
            };
            let digest = t.hash_ignore_sig();
            if t.input.addr.verify_data(digest.as_slice(), sig.as_slice()).is_err() {
                proof {
                    lemma_first_invalid_at(block.transactions@, i as int);
                }
                return Err(ValidationError::InvalidSignature(t.hash()));
            }
            let shares = &t.output.addrs;
            let mut sum: u128 = 0;
            let mut k: usize = 0;
            while k < shares.len()
                invariant
                    0 <= k <= shares@.len(),
                    shares@ == t.output.addrs@,
                    sum == out_sum(shares@.take(k as int)),
                    sum <= k * (u64::MAX as int),
                decreases shares@.len() - k,
            {
                proof {
                    assert(shares@.take(k + 1).drop_last() =~= shares@.take(k as int));
                    assert(shares@.take(k + 1).last() == shares@[k as int]);
                    assert((k + 1) * (u64::MAX as int) == k * (u64::MAX as int) + u64::MAX);
                    assert(k * (u64::MAX as int) <= (usize::MAX as int) * (u64::MAX as int))
                        by (nonlinear_arith)
                        requires
                            0 <= k <= usize::MAX,
                    ;
                }
                sum = sum + shares[k].value as u128;
                k = k + 1;
            }
            proof {
                assert(shares@.take(shares@.len() as int) =~= shares@);
            }
            if sum > t.input.value as u128 {
                proof {
                    lemma_first_invalid_at(block.transactions@, i as int);
                }
                return Err(ValidationError::Overdraft(t.hash()));
            }
            proof {
                assert(tx_valid(txs@[i as int]));
                lemma_first_invalid(txs@);
            }
            i = i + 1;
        }
        Ok(())
    }
}

impl Blockchain {
    /// Appends a block.  Its previous-hash is first set to the current
    /// head's hash (empty when the chain is empty); the block is then
    /// verified, and on success stored under its content hash, which is
    /// returned.  On failure the error is returned together with the
    /// block, unmodified and unstored.
    pub fn append_block(&mut self, block: Block) -> (r: Result<Vec<u8>, (ValidationError, Block)>)
        requires
            old(self).wf(),
            old(self).spec_len() < u64::MAX,
        ensures
            final(self).wf(),
            ({
                let prevh = if old(self).spec_blocks().len() == 0 {
                    Seq::<u8>::empty()
                } else {
                    block_hash(old(self).spec_blocks().last())
                };
                &&& (r is Ok <==> block_valid_with_prev(block, prevh))
                &&& (r matches Ok(h) ==> {
                    let nb = final(self).spec_blocks().last();
                    &&& final(self).spec_blocks().len() == old(self).spec_blocks().len() + 1
                    &&& final(self).spec_blocks().drop_last() == old(self).spec_blocks()
                    &&& final(self).spec_len() == old(self).spec_len() + 1
                    &&& nb.id == block.id
                    &&& nb.nounce == block.nounce
                    &&& nb.miner == block.miner
                    &&& nb.transactions == block.transactions
                    &&& nb.hash_prev@ == prevh
                    &&& h@ == block_hash(nb)
                    &&& lookup_spec(final(self).spec_blocks(), h@) == Some(nb)
                })
                &&& (r matches Err((e, b)) ==> {
                    &&& final(self).spec_blocks() == old(self).spec_blocks()
                    &&& final(self).spec_len() == old(self).spec_len()
                    &&& b.id == block.id
                    &&& b.nounce == block.nounce
                    &&& b.miner == block.miner
                    &&& b.transactions == block.transactions
                    &&& b.hash_prev@ == block.hash_prev@
                    &&& (e is InvalidProof <==> !pow_ok(block_hash_with_prev(block, prevh)))
                    &&& (!(e is InvalidProof) ==> pow_ok(block_hash_with_prev(block, prevh)) && 0
                        <= first_invalid(block.transactions@) < block.transactions@.len())
                    &&& (e matches ValidationError::MissingSignature(hh) ==> {
                        let t = block.transactions@[first_invalid(block.transactions@)];
                        t.signature is None && hh@ == tx_hash(t)
                    })
                    &&& (e matches ValidationError::InvalidSignature(hh) ==> {
                        let t = block.transactions@[first_invalid(block.transactions@)];
                        t.signature is Some && !tx_sig_ok(t) && hh@ == tx_hash(t)
                    })
                    &&& (e matches ValidationError::Overdraft(hh) ==> {
                        let t = block.transactions@[first_invalid(block.transactions@)];
                        tx_sig_ok(t) && out_sum(t.output.addrs@) > t.input.value && hh@ == tx_hash(
                            t,
                        )
                    })
                })
            }),
    {
        proof {
            reveal(crate::block::block_hash_with_prev);
        }
        let prev: Vec<u8> = if self.blocks.len() == 0 {
            Vec::new()
        } else {
            let n = self.blocks.len();
            proof {
                assert(self.blocks@[n - 1] == self.blocks@.last());
            }
            self.blocks[n - 1].hash()
        };
        let saved = copy_bytes(&block.hash_prev);
        let mut b = block;
        b.hash_prev = prev;
        match self.verify(&b) {
            Err(e) => {
                b.hash_prev = saved;
                Err((e, b))
            },
            Ok(()) => {
                let h = b.hash();
                let ghost gb = b;
                proof {
                    assert(self.blocks@.push(gb).drop_last() =~= self.blocks@);
                }
                self.blocks.push(b);
                self.length = self.length + 1;
                proof {
                    let c = old(self).spec_blocks();
                    let c2 = self.blocks@;
                    assert(c2 == c.push(gb));
                    assert forall|i: int|
                        0 < i < c2.len() implies (#[trigger] c2[i].hash_prev@) == block_hash(
                        c2[i - 1],
                    ) && c2[i].hash_prev@.len() == 32 by {
                        if i < c.len() {
                            assert(c2[i] == c[i]);
                            assert(c2[i - 1] == c[i - 1]);
                        } else {
                            assert(c2[i] == gb);
                            assert(c2[i - 1] == c[i - 1]);
                            assert(c[i - 1] == c.last());
                        }
                    }
                    assert forall|i: int| 0 <= i < c2.len() implies block_valid(
                        #[trigger] c2[i],
                    ) by {
                        if i < c.len() {
                            assert(c2[i] == c[i]);
                        } else {
                            assert(c2[i] == gb);
                        }
                    }
                }
                Ok(h)
            },
        }
    }
}

/// The index of a block whose previous-hash equals `hh`, if any.  The
/// hash index is only a hint: a hit is checked before it is used, and a
/// full scan settles the cases the index cannot.
fn find_successor(rest: &Vec<Block>, hh: &Vec<u8>, index: &HashMap<Vec<u8>, usize>) -> (r: Option<
    usize,
>)
    ensures
        r matches Some(j) ==> 0 <= j < rest@.len() && rest@[j as int].hash_prev@ == hh@,
        r is None ==> forall|k: int| 0 <= k < rest@.len() ==> (#[trigger] rest@[k].hash_prev@)
            != hh@,
{
    match index.get(hh) {
        Some(hint) => {
            let i = *hint;
            if i < rest.len() && bytes_eq(&rest[i].hash_prev, hh) {
                return Some(i);
            }
        },
        None => {},
    }
    let mut j: usize = 0;
    while j < rest.len()
        invariant
            0 <= j <= rest@.len(),
            forall|k: int| 0 <= k < j ==> (#[trigger] rest@[k].hash_prev@) != hh@,
        decreases rest@.len() - j,
    {
        if bytes_eq(&rest[j].hash_prev, hh) {
            return Some(j);
        }
        j = j + 1;
    }
    None
}

/// How many blocks of a set are genesis candidates (empty previous-hash).
pub open spec fn count_genesis(s: Seq<Block>) -> int
    decreases s.len(),
{
    if s.len() == 0 {
        0
    } else {
        count_genesis(s.drop_last()) + if is_genesis(s.last()) {
            1int
        } else {
            0int
        }
    }
}

/// Whether a block with this content appears in the sequence.
pub open spec fn chain_member(c: Seq<Block>, b: Block) -> bool {
    exists|i: int| 0 <= i < c.len() && block_eqv(#[trigger] c[i], b)
}

/// What assembling guarantees of its result: the chain links up from a
/// genesis, every chain block comes from the input set, and no input
/// block extends the head (leftover blocks never link to it).
pub open spec fn assemble_result(m: Seq<Block>, c: Seq<Block>) -> bool {
    &&& linked(c)
    &&& c.len() >= 1
    &&& is_genesis(c[0])
    &&& forall|k: int| 0 <= k < c.len() ==> chain_member(m, #[trigger] c[k])
    &&& forall|j: int|
        0 <= j < m.len() && (#[trigger] m[j].hash_prev@) == block_hash(c.last())
            ==> chain_member(c, m[j])
}

proof fn lemma_count_genesis_take_step(s: Seq<Block>, i: int)
    requires
        0 <= i < s.len(),
    ensures
        count_genesis(s.take(i + 1)) == count_genesis(s.take(i)) + if is_genesis(s[i]) {
            1int
        } else {
            0int
        },
{
    assert(s.take(i + 1).drop_last() =~= s.take(i));
    assert(s.take(i + 1).last() == s[i]);
}

/// Whether input block `j` is accounted for: `place[j]` points either at
/// a chain position holding an equivalent block, or (encoded as
/// `-(k + 1)`) at a leftover position still holding it.
pub open spec fn covered(place: Seq<int>, j: int, c: Seq<Block>, rest: Seq<Block>, m: Seq<Block>) -> bool {
    ||| (0 <= place[j] < c.len() && block_eqv(c[place[j]], m[j]))
    ||| (0 <= -place[j] - 1 < rest.len() && rest[-place[j] - 1] == m[j])
}

impl Blockchain {
    /// Rebuilds a chain from an unordered set of blocks.
    ///
    /// The set must hold exactly one genesis candidate (empty
    /// previous-hash); from it the chain is extended with the block whose
    /// previous-hash matches the current head's hash, re-verifying each
    /// block through the normal append path, until no successor is found.
    /// The successor search goes through a hash index over the leftover
    /// blocks, so assembly is linear in the block count; every answer the
    /// index gives is checked before it is used.  Leftover unlinked
    /// blocks are dropped silently.
    #[verifier::rlimit(100)]
    pub fn try_from(blks: Vec<Block>) -> (r: Result<Blockchain, StructuralError>)
        ensures
            r == Err::<Blockchain, StructuralError>(StructuralError::NoGenesis) <==> count_genesis(
                blks@,
            ) == 0,
            r == Err::<Blockchain, StructuralError>(StructuralError::MultipleGenesis)
                <==> count_genesis(blks@) >= 2,
            count_genesis(blks@) == 1 && (forall|i: int|
                0 <= i < blks@.len() ==> block_valid(#[trigger] blks@[i])) ==> r is Ok,
            r matches Err(StructuralError::Invalid(e)) ==> count_genesis(blks@) == 1 && (exists|
                i: int,
            |
                0 <= i < blks@.len() && !block_valid(#[trigger] blks@[i])),
            r matches Ok(bc) ==> {
                &&& bc.wf()
                &&& bc.spec_len() == bc.spec_blocks().len()
                &&& bc.spec_blocks().len() <= blks@.len()
                &&& assemble_result(blks@, bc.spec_blocks())
            },
    {
        proof {
            lemma_count_genesis_nonneg(blks@);
        }
        let mut rest = blks;
        let ghost m = rest@;

        // Count the genesis candidates and remember where the one sits.
        let mut gcount: usize = 0;
        let mut gidx: usize = 0;
        let mut i: usize = 0;
        while i < rest.len()
            invariant
                rest@ == m,
                0 <= i <= m.len(),
                gcount == count_genesis(m.take(i as int)),
                gcount <= i,
                gcount >= 1 ==> 0 <= gidx < i && is_genesis(m[gidx as int]),
            decreases m.len() - i,
        {
            if rest[i].hash_prev.len() == 0 {
                proof {
                    lemma_count_genesis_take_step(m, i as int);
                    lemma_count_genesis_rest(m, i + 1);
                }
                gcount = gcount + 1;
                gidx = i;
            } else {
                proof {
                    lemma_count_genesis_take_step(m, i as int);
                }
            }
            i = i + 1;
        }
        proof {
            assert(m.take(m.len() as int) =~= m);
        }
        if gcount == 0 {
            return Err(StructuralError::NoGenesis);
        }
        if gcount >= 2 {
            return Err(StructuralError::MultipleGenesis);
        }

        let mut chain = Blockchain::new();
        let genesis = rest.remove(gidx);
        proof {
            assert(rest@ == m.remove(gidx as int));
        }
        match append_for_assembly(&mut chain, genesis) {
            Err(e) => {
                proof {
                    assert(!block_valid(m[gidx as int]));
                }
                return Err(StructuralError::Invalid(e));
            },
            Ok(_) => {},
        }

        // A hash index over the leftover blocks, keyed by previous-hash.
        // It only accelerates the successor search; every answer it gives
        // is checked, so nothing is proved about it.
        let mut index: HashMap<Vec<u8>, usize> = HashMap::new();
        let mut bi: usize = 0;
        while bi < rest.len()
            invariant
                0 <= bi <= rest@.len(),
            decreases rest@.len() - bi,
        {
            index.insert(copy_bytes(&rest[bi].hash_prev), bi);
            bi = bi + 1;
        }

        // Ghost bookkeeping: where each input block sits right now.
        let ghost mut orig: Seq<int> = seq![gidx as int];
        let ghost mut rorig: Seq<int> = Seq::new(
            (m.len() - 1) as nat,
            |k: int| if k < gidx { k } else { k + 1 },
        );
        let ghost mut place: Seq<int> = Seq::new(
            m.len(),
            |j: int|
                if j == gidx {
                    0int
                } else if j < gidx {
                    -(j + 1)
                } else {
                    -j
                },
        );
        proof {
            assert forall|k: int| 0 <= k < rorig.len() implies 0 <= #[trigger] rorig[k] < m.len()
                && rest@[k] == m[rorig[k]] by {
                if k < gidx {
                    assert(rest@[k] == m[k]);
                } else {
                    assert(rest@[k] == m[k + 1]);
                }
            }
            assert forall|j: int| 0 <= j < m.len() implies #[trigger] covered(
                place,
                j,
                chain.spec_blocks(),
                rest@,
                m,
            ) by {
                if j == gidx {
                    assert(block_eqv(chain.spec_blocks()[0], m[j]));
                } else if j < gidx {
                    assert(rest@[j] == m[j]);
                } else {
                    assert(rest@[j - 1] == m[j]);
                }
            }
        }

        loop
            invariant
                m == blks@,
                m.len() <= usize::MAX,
                chain.wf(),
                1 <= chain.spec_blocks().len(),
                chain.spec_blocks().len() + rest@.len() <= m.len(),
                count_genesis(m) == 1,
                orig.len() == chain.spec_blocks().len(),
                forall|k: int|
                    0 <= k < orig.len() ==> 0 <= #[trigger] orig[k] < m.len() && block_eqv(
                        chain.spec_blocks()[k],
                        m[orig[k]],
                    ),
                rorig.len() == rest@.len(),
                forall|k: int|
                    0 <= k < rorig.len() ==> 0 <= #[trigger] rorig[k] < m.len() && rest@[k]
                        == m[rorig[k]],
                place.len() == m.len(),
                forall|j: int|
                    0 <= j < m.len() ==> #[trigger] covered(
                        place,
                        j,
                        chain.spec_blocks(),
                        rest@,
                        m,
                    ),
            decreases rest@.len(),
        {
            let hh: Vec<u8> = match chain.head() {
                Some(hb) => hb.hash(),
                None => {
                    proof {
                        assert(false);
                    }
                    Vec::new()
                },
            };

            // Look for the block whose previous-hash matches the head.
            let found_opt = find_successor(&rest, &hh, &index);
            if found_opt.is_none() {
                // No successor: the chain is complete.
                proof {
                    let c = chain.spec_blocks();
                    assert forall|k: int| 0 <= k < c.len() implies chain_member(
                        m,
                        #[trigger] c[k],
                    ) by {
                        lemma_block_eqv_symm(c[k], m[orig[k]]);
                    }
                    assert forall|j: int|
                        0 <= j < m.len() && (#[trigger] m[j].hash_prev@) == block_hash(
                            c.last(),
                        ) implies chain_member(c, m[j]) by {
                        assert(covered(place, j, c, rest@, m));
                        if !(0 <= place[j] < c.len() && block_eqv(c[place[j]], m[j])) {
                            let k = -place[j] - 1;
                            assert(rest@[k] == m[j]);
                            assert(rest@[k].hash_prev@ != hh@);
                        }
                    }
                }
                return Ok(chain);
            }
            let found = match found_opt {
                Some(f) => f,
                None => {
                    proof {
                        assert(false);
                    }
                    0
                },
            };

            let ghost old_rest = rest@;
            let ghost old_chain = chain.spec_blocks();
            // the consumed entry leaves the index; the block swapped into
            // its slot gets its entry re-pointed
            index.remove(&rest[found].hash_prev);
            let nxt = rest.swap_remove(found);
            if found < rest.len() {
                index.insert(copy_bytes(&rest[found].hash_prev), found);
            }
            let ghost gnxt = nxt;
            proof {
                assert(rest@ == old_rest.update(found as int, old_rest.last()).drop_last());
                assert(gnxt.hash_prev@ == hh@);
            }
            match append_for_assembly(&mut chain, nxt) {
                Err(e) => {
                    proof {
                        assert(old_rest[found as int] == m[rorig[found as int]]);
                        assert(!block_valid(m[rorig[found as int]]));
                    }
                    return Err(StructuralError::Invalid(e));
                },
                Ok(_) => {
                    proof {
                        let c2 = chain.spec_blocks();
                        let newpos = old_chain.len() as int;
                        let f = found as int;
                        let lst = old_rest.len() - 1;
                        let old_orig = orig;
                        let old_rorig = rorig;
                        let old_place = place;
                        orig = orig.push(rorig[f]);
                        rorig = rorig.update(f, old_rorig[lst]).drop_last();
                        place = Seq::new(
                            m.len(),
                            |j: int|
                                if old_place[j] == -(f + 1) {
                                    newpos
                                } else if old_place[j] == -(lst + 1) {
                                    -(f + 1)
                                } else {
                                    old_place[j]
                                },
                        );
                        assert(c2.drop_last() == old_chain);
                        assert(gnxt == m[old_rorig[f]]);
                        assert(block_eqv(c2.last(), m[old_rorig[f]]));
                        assert forall|k: int| 0 <= k < orig.len() implies 0 <= #[trigger] orig[k]
                            < m.len() && block_eqv(c2[k], m[orig[k]]) by {
                            if k < old_chain.len() {
                                assert(orig[k] == old_orig[k]);
                                assert(c2[k] == old_chain[k]);
                            } else {
                                assert(orig[k] == old_rorig[f]);
                                assert(c2[k] == c2.last());
                            }
                        }
                        assert forall|k: int| 0 <= k < rorig.len() implies 0 <= #[trigger]
                            rorig[k] < m.len() && rest@[k] == m[rorig[k]] by {
                            if k == f {
                                assert(rorig[k] == old_rorig[lst]);
                                assert(rest@[k] == old_rest[lst]);
                            } else {
                                assert(rorig[k] == old_rorig[k]);
                                assert(rest@[k] == old_rest[k]);
                            }
                        }
                        assert forall|j: int| 0 <= j < m.len() implies #[trigger] covered(
                            place,
                            j,
                            c2,
                            rest@,
                            m,
                        ) by {
                            assert(covered(old_place, j, old_chain, old_rest, m));
                            if 0 <= old_place[j] < old_chain.len() && block_eqv(
                                old_chain[old_place[j]],
                                m[j],
                            ) {
                                assert(place[j] == old_place[j]);
                                assert(c2[place[j]] == old_chain[old_place[j]]);
                            } else {
                                let k = -old_place[j] - 1;
                                assert(old_rest[k] == m[j]);
                                if k == f {
                                    assert(place[j] == newpos);
                                    assert(block_eqv(c2[newpos], m[j]));
                                } else if k == lst {
                                    assert(place[j] == -(f + 1));
                                    assert(rest@[f] == old_rest[lst]);
                                } else {
                                    assert(place[j] == old_place[j]);
                                    assert(rest@[k] == old_rest[k]);
                                }
                            }
                        }
                    }
                },
            }
        }
    }
}


/// Appends a block whose previous-hash already matches the head (or is
/// empty on an empty chain), keeping the contract small for the assembly
/// proofs.
fn append_for_assembly(chain: &mut Blockchain, b: Block) -> (r: Result<(), ValidationError>)
    requires
        old(chain).wf(),
        old(chain).spec_blocks().len() < u64::MAX,
        old(chain).spec_blocks().len() > 0 ==> b.hash_prev@ == block_hash(
            old(chain).spec_blocks().last(),
        ),
        old(chain).spec_blocks().len() == 0 ==> b.hash_prev@.len() == 0,
    ensures
        r is Ok <==> block_valid(b),
        r is Ok ==> {
            &&& final(chain).wf()
            &&& final(chain).spec_blocks().len() == old(chain).spec_blocks().len() + 1
            &&& final(chain).spec_blocks().drop_last() == old(chain).spec_blocks()
            &&& block_eqv(final(chain).spec_blocks().last(), b)
        },
        r is Err ==> final(chain).spec_blocks() == old(chain).spec_blocks()
            && final(chain).spec_len() == old(chain).spec_len(),
{
    let ghost gb = b;
    proof {
        if old(chain).spec_blocks().len() == 0 {
            assert(gb.hash_prev@ =~= Seq::<u8>::empty());
        }
    }
    match chain.append_block(b) {
        Err((e, _)) => Err(e),
        Ok(_) => {
            proof {
                lemma_block_eqv_of_fields(chain.spec_blocks().last(), gb);
            }
            Ok(())
        },
    }
}

/// Block equivalence is symmetric.
proof fn lemma_block_eqv_symm(a: Block, b: Block)
    requires
        block_eqv(a, b),
    ensures
        block_eqv(b, a),
{
    assert forall|i: int| 0 <= i < b.transactions@.len() implies crate::transaction::tx_eqv(
        #[trigger] b.transactions@[i],
        a.transactions@[i],
    ) by {
        assert(crate::transaction::tx_eqv(a.transactions@[i], b.transactions@[i]));
    }
}


/// A single non-branching linear chain's worth of blocks: pairwise
/// distinct, exactly one genesis candidate, no two blocks naming the same
/// predecessor, and no two blocks sharing a content hash.
pub open spec fn linear_block_set(m: Seq<Block>) -> bool {
    &&& forall|i: int, j: int|
        0 <= i < m.len() && 0 <= j < m.len() && i != j ==> !block_eqv(
            #[trigger] m[i],
            #[trigger] m[j],
        )
    &&& forall|i: int, j: int|
        #![trigger m[i], m[j]]
        0 <= i < m.len() && 0 <= j < m.len() && is_genesis(m[i]) && is_genesis(m[j]) ==> i == j
    &&& forall|i: int, j: int|
        #![trigger m[i], m[j]]
        0 <= i < m.len() && 0 <= j < m.len() && i != j ==> m[i].hash_prev@ != m[j].hash_prev@
    &&& forall|i: int, j: int|
        #![trigger m[i], m[j]]
        0 <= i < m.len() && 0 <= j < m.len() && i != j ==> block_hash(m[i]) != block_hash(m[j])
}

/// Block equivalence is transitive.
proof fn lemma_block_eqv_trans(a: Block, b: Block, c: Block)
    requires
        block_eqv(a, b),
        block_eqv(b, c),
    ensures
        block_eqv(a, c),
{
    assert forall|i: int| 0 <= i < a.transactions@.len() implies crate::transaction::tx_eqv(
        #[trigger] a.transactions@[i],
        c.transactions@[i],
    ) by {
        assert(crate::transaction::tx_eqv(a.transactions@[i], b.transactions@[i]));
        assert(crate::transaction::tx_eqv(b.transactions@[i], c.transactions@[i]));
    }
}

/// In a linear set, two members with the same content hash are the same
/// block.
proof fn lemma_member_hash_inj(m: Seq<Block>, a: Block, b: Block)
    requires
        linear_block_set(m),
        chain_member(m, a),
        chain_member(m, b),
        block_hash(a) == block_hash(b),
    ensures
        block_eqv(a, b),
{
    let u = choose|u: int| 0 <= u < m.len() && block_eqv(#[trigger] m[u], a);
    let v = choose|v: int| 0 <= v < m.len() && block_eqv(#[trigger] m[v], b);
    lemma_block_hash_congruent(m[u], a);
    lemma_block_hash_congruent(m[v], b);
    assert(u == v);
    lemma_block_eqv_symm(m[u], a);
    lemma_block_eqv_trans(a, m[u], b);
}

/// In a linear set, two members naming the same predecessor are the same
/// block.
proof fn lemma_member_prev_inj(m: Seq<Block>, a: Block, b: Block)
    requires
        linear_block_set(m),
        chain_member(m, a),
        chain_member(m, b),
        a.hash_prev@ == b.hash_prev@,
    ensures
        block_eqv(a, b),
{
    let u = choose|u: int| 0 <= u < m.len() && block_eqv(#[trigger] m[u], a);
    let v = choose|v: int| 0 <= v < m.len() && block_eqv(#[trigger] m[v], b);
    assert(m[u].hash_prev@ == a.hash_prev@);
    assert(m[v].hash_prev@ == b.hash_prev@);
    assert(u == v);
    lemma_block_eqv_symm(m[u], a);
    lemma_block_eqv_trans(a, m[u], b);
}

/// In a linear set, two genesis members are the same block.
proof fn lemma_member_genesis_inj(m: Seq<Block>, a: Block, b: Block)
    requires
        linear_block_set(m),
        chain_member(m, a),
        chain_member(m, b),
        is_genesis(a),
        is_genesis(b),
    ensures
        block_eqv(a, b),
{
    let u = choose|u: int| 0 <= u < m.len() && block_eqv(#[trigger] m[u], a);
    let v = choose|v: int| 0 <= v < m.len() && block_eqv(#[trigger] m[v], b);
    assert(is_genesis(m[u]) && is_genesis(m[v]));
    assert(u == v);
    lemma_block_eqv_symm(m[u], a);
    lemma_block_eqv_trans(a, m[u], b);
}

/// A linked chain over a linear set never repeats a block.
proof fn lemma_chain_distinct(m: Seq<Block>, c: Seq<Block>, p: int, q: int)
    requires
        linear_block_set(m),
        linked(c),
        forall|k: int| 0 <= k < c.len() ==> chain_member(m, #[trigger] c[k]),
        0 <= p < q < c.len(),
    ensures
        !block_eqv(c[p], c[q]),
    decreases p,
{
    if block_eqv(c[p], c[q]) {
        if p == 0 {
            assert(c[q].hash_prev@.len() == 32);
            assert(c[p].hash_prev@.len() == 0);
        } else {
            assert(c[p].hash_prev@ == block_hash(c[p - 1]));
            assert(c[q].hash_prev@ == block_hash(c[q - 1]));
            lemma_member_hash_inj(m, c[p - 1], c[q - 1]);
            lemma_chain_distinct(m, c, p - 1, q - 1);
        }
    }
}

/// The two assembled chains agree position by position up to `k`.
proof fn lemma_assemble_prefix(
    m1: Seq<Block>,
    m2: Seq<Block>,
    c1: Seq<Block>,
    c2: Seq<Block>,
    k: int,
)
    requires
        linear_block_set(m1),
        forall|b: Block| #[trigger] chain_member(m1, b) <==> chain_member(m2, b),
        assemble_result(m1, c1),
        assemble_result(m2, c2),
        0 <= k < c1.len(),
        k < c2.len(),
    ensures
        block_eqv(c1[k], c2[k]),
    decreases k,
{
    assert(chain_member(m2, c2[k]));
    assert(chain_member(m1, c2[k]));
    if k == 0 {
        lemma_member_genesis_inj(m1, c1[0], c2[0]);
    } else {
        lemma_assemble_prefix(m1, m2, c1, c2, k - 1);
        lemma_block_hash_congruent(c1[k - 1], c2[k - 1]);
        assert(c1[k].hash_prev@ == block_hash(c1[k - 1]));
        assert(c2[k].hash_prev@ == block_hash(c2[k - 1]));
        lemma_member_prev_inj(m1, c1[k], c2[k]);
    }
}

/// The shorter of the two assembled chains cannot be a strict prefix of
/// the longer one.
proof fn lemma_assemble_no_shorter(
    m1: Seq<Block>,
    m2: Seq<Block>,
    c1: Seq<Block>,
    c2: Seq<Block>,
)
    requires
        linear_block_set(m1),
        forall|b: Block| #[trigger] chain_member(m1, b) <==> chain_member(m2, b),
        assemble_result(m1, c1),
        assemble_result(m2, c2),
    ensures
        c1.len() >= c2.len(),
{
    if c1.len() < c2.len() {
        let n = c1.len() as int;
        let x = c2[n];
        lemma_assemble_prefix(m1, m2, c1, c2, n - 1);
        lemma_block_hash_congruent(c2[n - 1], c1[n - 1]);
        assert(x.hash_prev@ == block_hash(c2[n - 1]));
        assert(x.hash_prev@ == block_hash(c1.last()));
        // x comes from the set, so c1's maximality places it on c1
        assert(chain_member(m1, x));
        let j = choose|j: int| 0 <= j < m1.len() && block_eqv(#[trigger] m1[j], x);
        assert(m1[j].hash_prev@ == block_hash(c1.last()));
        assert(chain_member(c1, m1[j]));
        let t = choose|t: int| 0 <= t < c1.len() && block_eqv(#[trigger] c1[t], m1[j]);
        lemma_block_eqv_symm(m1[j], x);
        lemma_block_eqv_trans(c1[t], m1[j], x);
        if t == 0 {
            assert(c1[0].hash_prev@.len() == 0);
            assert(x.hash_prev@.len() == 32);
        } else {
            assert(c1[t].hash_prev@ == block_hash(c1[t - 1]));
            assert(block_hash(c1[t - 1]) == block_hash(c1[n - 1]));
            lemma_member_hash_inj(m1, c1[t - 1], c1[n - 1]);
            if t - 1 < n - 1 {
                lemma_chain_distinct(m1, c1, t - 1, n - 1);
            }
        }
    }
}

/// Chain assembly is order-independent: from any two arrangements of the
/// same single non-branching linear block set, any two chains meeting the
/// assembly guarantees are the same chain — equal lengths, equal blocks
/// position by position, and in particular the same head hash.
pub proof fn lemma_assemble_order_independent(
    m1: Seq<Block>,
    m2: Seq<Block>,
    c1: Seq<Block>,
    c2: Seq<Block>,
)
    requires
        linear_block_set(m1),
        linear_block_set(m2),
        forall|b: Block| #[trigger] chain_member(m1, b) <==> chain_member(m2, b),
        assemble_result(m1, c1),
        assemble_result(m2, c2),
    ensures
        c1.len() == c2.len(),
        forall|k: int| 0 <= k < c1.len() ==> block_eqv(#[trigger] c1[k], c2[k]),
        block_hash(c1.last()) == block_hash(c2.last()),
{
    lemma_assemble_no_shorter(m1, m2, c1, c2);
    lemma_assemble_no_shorter(m2, m1, c2, c1);
    assert forall|k: int| 0 <= k < c1.len() implies block_eqv(#[trigger] c1[k], c2[k]) by {
        lemma_assemble_prefix(m1, m2, c1, c2, k);
    }
    assert(block_eqv(c1.last(), c2.last()));
    lemma_block_hash_congruent(c1.last(), c2.last());
}

proof fn lemma_count_genesis_nonneg(s: Seq<Block>)
    ensures
        count_genesis(s) >= 0,
    decreases s.len(),
{
    if s.len() > 0 {
        lemma_count_genesis_nonneg(s.drop_last());
    }
}

/// A genesis member forces a positive count.
proof fn lemma_count_genesis_member(s: Seq<Block>, i: int)
    requires
        0 <= i < s.len(),
        is_genesis(s[i]),
    ensures
        count_genesis(s) >= 1,
    decreases s.len(),
{
    lemma_count_genesis_nonneg(s.drop_last());
    if i < s.len() - 1 {
        lemma_count_genesis_member(s.drop_last(), i);
    }
}

/// Counting a prefix never exceeds counting the whole.
proof fn lemma_count_genesis_rest(s: Seq<Block>, i: int)
    requires
        0 <= i <= s.len(),
    ensures
        count_genesis(s) >= count_genesis(s.take(i)),
    decreases s.len() - i,
{
    if i < s.len() {
        lemma_count_genesis_take_step(s, i);
        lemma_count_genesis_rest(s, i + 1);
    } else {
        assert(s.take(i) =~= s);
    }
}

/// If every transaction before `i` passes and `i` fails, then `i` is the
/// first failing index.
proof fn lemma_first_invalid_at(s: Seq<Transaction>, i: int)
    requires
        0 <= i < s.len(),
        !tx_valid(s[i]),
        forall|j: int| 0 <= j < i ==> tx_valid(#[trigger] s[j]),
    ensures
        first_invalid(s) == i,
    decreases s.len(),
{
    if i > 0 {
        lemma_first_invalid_at(s.drop_first(), i - 1);
        assert forall|j: int| 0 <= j < i - 1 implies tx_valid(#[trigger] s.drop_first()[j]) by {
            assert(s.drop_first()[j] == s[j + 1]);
        }
    }
}

} // verus!
