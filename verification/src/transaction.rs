//! Value-transfer transactions.
//!
//! A transaction moves value from one input `Transactor` to an ordered
//! list of output shares.  The sum of the output values may not exceed the
//! input value; the surplus is the change implicitly credited to the miner
//! of the containing block.  The content hash covers input, output and the
//! signature when one is attached; the signature-exempt hash covers only
//! input and output and is what gets signed.

use vstd::prelude::*;
use crate::address::{addr_eqv, addr_hash, Address};
use crate::crypto::{append_bytes, bytes_to_hex, sha256, sha256_of, u64_be, u64_to_be_bytes,
    hex_of, Sha256Hash};

verus! {

/// An (identity, value) pair: a transaction input or one output share.
#[derive(Clone, Debug)]
pub struct Transactor {
    pub addr: Address,
    pub value: u64,
}

/// Two transactors carry the same identity and value.
pub open spec fn transactor_eqv(a: Transactor, b: Transactor) -> bool {
    addr_eqv(a.addr, b.addr) && a.value == b.value
}

/// The content hash of a transactor: SHA-256 over the big-endian value
/// bytes followed by the address hash.
pub open spec fn transactor_hash(t: Transactor) -> Seq<u8> {
    sha256_of(u64_be(t.value) + addr_hash(t.addr))
}

impl Transactor {
    pub fn new(addr: Address, value: u64) -> (r: Transactor)
        ensures
            r.addr == addr,
            r.value == value,
    {
        Transactor { addr, value }
    }

    pub fn get_addr(&self) -> (r: &Address)
        ensures
            r == &self.addr,
    {
        &self.addr
    }

    pub fn get_value(&self) -> (r: u64)
        ensures
            r == self.value,
    {
        self.value
    }
}

impl Sha256Hash for Transactor {
    open spec fn hash_spec(&self) -> Seq<u8> {
        transactor_hash(*self)
    }

    fn hash(&self) -> (r: Vec<u8>) {
        let mut buf = u64_to_be_bytes(self.value);
        let ah = self.addr.hash();
        append_bytes(&mut buf, &ah);
        sha256(&buf)
    }

    fn hash_str(&self) -> (r: String) {
        bytes_to_hex(&self.hash())
    }
}

/// A transaction input is a transactor.
pub type Input = Transactor;

/// The most output shares a single transaction may carry.
pub const MAX_OUT_ADDRESSES: usize = 100;

/// The ordered output shares of a transaction.
#[derive(Clone, Debug)]
pub struct Output {
    pub addrs: Vec<Transactor>,
}

/// Two outputs carry the same shares in the same order.
pub open spec fn output_eqv(a: Output, b: Output) -> bool {
    &&& a.addrs@.len() == b.addrs@.len()
    &&& forall|i: int|
        0 <= i < a.addrs@.len() ==> transactor_eqv(#[trigger] a.addrs@[i], b.addrs@[i])
}

/// The hash preimage of a share list: for each share in order, the address
/// hash followed by the big-endian value bytes.
pub open spec fn output_preimage(s: Seq<Transactor>) -> Seq<u8>
    decreases s.len(),
{
    if s.len() == 0 {
        Seq::empty()
    } else {
        output_preimage(s.drop_last()) + addr_hash(s.last().addr) + u64_be(s.last().value)
    }
}

/// The content hash of an output list.
pub open spec fn output_hash(o: Output) -> Seq<u8> {
    sha256_of(output_preimage(o.addrs@))
}

/// Share lists with pairwise equivalent shares have the same preimage.
pub proof fn lemma_output_preimage_congruent(s1: Seq<Transactor>, s2: Seq<Transactor>)
    requires
        s1.len() == s2.len(),
        forall|i: int| 0 <= i < s1.len() ==> transactor_eqv(#[trigger] s1[i], s2[i]),
    ensures
        output_preimage(s1) == output_preimage(s2),
    decreases s1.len(),
{
    if s1.len() > 0 {
        lemma_output_preimage_congruent(s1.drop_last(), s2.drop_last());
        assert(transactor_eqv(s1.last(), s2.last()));
    }
}

impl Output {
    /// An output with no shares.
    pub fn new() -> (r: Output)
        ensures
            r.addrs@.len() == 0,
    {
        Output { addrs: Vec::new() }
    }

    /// Builds an output from (address, value) pairs; rejects a list with
    /// more than `MAX_OUT_ADDRESSES` entries.
    pub fn with_addrs(addrs: Vec<(Address, u64)>) -> (r: Result<Output, &'static str>)
        ensures
            r is Ok <==> addrs@.len() <= MAX_OUT_ADDRESSES,
            r matches Err(m) ==> m@ == "too many addresses!"@,
            r matches Ok(o) ==> {
                &&& o.addrs@.len() == addrs@.len()
                &&& forall|i: int|
                    0 <= i < addrs@.len() ==> #[trigger] o.addrs@[i] == (Transactor {
                        addr: addrs@[i].0,
                        value: addrs@[i].1,
                    })
            },
    {
        if addrs.len() > MAX_OUT_ADDRESSES {
            Err("too many addresses!")
        } else {
            let ghost orig = addrs@;
            let mut rest = addrs;
            let mut v: Vec<Transactor> = Vec::new();
            while rest.len() > 0
                invariant
                    v@.len() + rest@.len() == orig.len(),
                    rest@ == orig.skip(v@.len() as int),
                    forall|i: int|
                        0 <= i < v@.len() ==> #[trigger] v@[i] == (Transactor {
                            addr: orig[i].0,
                            value: orig[i].1,
                        }),
                decreases rest@.len(),
            {
                let (addr, val) = rest.remove(0);
                v.push(Transactor::new(addr, val));
                proof {
                    assert(rest@ =~= orig.skip(v@.len() as int));
                }
            }
            Ok(Output { addrs: v })
        }
    }

    pub fn transactors(&self) -> (r: &Vec<Transactor>)
        ensures
            r == &self.addrs,
    {
        &self.addrs
    }
}

impl Sha256Hash for Output {
    open spec fn hash_spec(&self) -> Seq<u8> {
        output_hash(*self)
    }

    fn hash(&self) -> (r: Vec<u8>) {
        let mut buf: Vec<u8> = Vec::new();
        let mut i: usize = 0;
        while i < self.addrs.len()
            invariant
                0 <= i <= self.addrs@.len(),
                buf@ == output_preimage(self.addrs@.take(i as int)),
            decreases self.addrs@.len() - i,
        {
            let ah = self.addrs[i].addr.hash();
            append_bytes(&mut buf, &ah);
            let vb = u64_to_be_bytes(self.addrs[i].value);
            append_bytes(&mut buf, &vb);
            proof {
                assert(self.addrs@.take(i + 1).drop_last() =~= self.addrs@.take(i as int));
                assert(self.addrs@.take(i + 1).last() == self.addrs@[i as int]);
            }
            i = i + 1;
        }
        proof {
            assert(self.addrs@.take(self.addrs@.len() as int) =~= self.addrs@);
        }
        sha256(&buf)
    }

    fn hash_str(&self) -> (r: String) {
        bytes_to_hex(&self.hash())
    }
}

/// A signed (or not yet signed) value transfer.
#[derive(Clone, Debug)]
pub struct Transaction {
    pub input: Input,
    pub output: Output,
    pub signature: Option<Vec<u8>>,
}

/// The signature bytes a transaction's content hash covers: the attached
/// signature, or nothing.
pub open spec fn tx_sig_bytes(t: Transaction) -> Seq<u8> {
    match t.signature {
        Some(s) => s@,
        None => Seq::empty(),
    }
}

/// Two transactions carry the same input, output and signature.
pub open spec fn tx_eqv(a: Transaction, b: Transaction) -> bool {
    &&& transactor_eqv(a.input, b.input)
    &&& output_eqv(a.output, b.output)
    &&& a.signature is Some <==> b.signature is Some
    &&& tx_sig_bytes(a) == tx_sig_bytes(b)
}

/// The content hash of a transaction: SHA-256 over the input hash, the
/// output hash, and the signature bytes if a signature is attached.
pub open spec fn tx_hash(t: Transaction) -> Seq<u8> {
    sha256_of(transactor_hash(t.input) + output_hash(t.output) + tx_sig_bytes(t))
}

/// The signature-exempt content hash: what gets signed.
pub open spec fn tx_nosig_hash(t: Transaction) -> Seq<u8> {
    sha256_of(transactor_hash(t.input) + output_hash(t.output))
}

impl Transaction {
    /// An unsigned transaction.
    pub fn new(input: Input, output: Output) -> (r: Transaction)
        ensures
            r.input == input,
            r.output == output,
            r.signature is None,
    {
        Transaction { input, output, signature: None }
    }

    /// A transaction with a signature already attached.
    pub fn with_signature(input: Input, output: Output, signature: Vec<u8>) -> (r: Transaction)
        ensures
            r.input == input,
            r.output == output,
            r.signature == Some(signature),
    {
        Transaction { input, output, signature: Some(signature) }
    }

    /// The hash of the transaction without taking a possibly attached
    /// signature into account.
    pub fn hash_ignore_sig(&self) -> (r: Vec<u8>)
        ensures
            r@ == tx_nosig_hash(*self),
    {
        let mut buf = self.input.hash();
        let oh = self.output.hash();
        append_bytes(&mut buf, &oh);
        sha256(&buf)
    }

    pub fn input(&self) -> (r: &Input)
        ensures
            r == &self.input,
    {
        &self.input
    }

    pub fn output(&self) -> (r: &Output)
        ensures
            r == &self.output,
    {
        &self.output
    }

    /// Attaches (or replaces) the signature.
    pub fn set_signature(&mut self, sig: Vec<u8>)
        ensures
            final(self).input == old(self).input,
            final(self).output == old(self).output,
            final(self).signature == Some(sig),
    {
        self.signature = Some(sig);
    }

    pub fn signature(&self) -> (r: Option<&Vec<u8>>)
        ensures
            r is Some <==> self.signature is Some,
            r matches Some(v) ==> self.signature matches Some(s) && v@ == s@,
    {
        match &self.signature {
            Some(a) => Some(a),
            None => None,
        }
    }
}

impl Sha256Hash for Transaction {
    open spec fn hash_spec(&self) -> Seq<u8> {
        tx_hash(*self)
    }

    fn hash(&self) -> (r: Vec<u8>) {
        let mut buf = self.input.hash();
        let oh = self.output.hash();
        append_bytes(&mut buf, &oh);
        match &self.signature {
            Some(sig) => {
                append_bytes(&mut buf, sig);
            },
            None => {
                proof {
                    assert(buf@ + tx_sig_bytes(*self) =~= buf@);
                }
            },
        }
        sha256(&buf)
    }

    fn hash_str(&self) -> (r: String) {
        bytes_to_hex(&self.hash())
    }
}

/// The content hash is determined by input, output and signature: two
/// transactions that agree on those three agree on both hashes.
pub proof fn lemma_tx_hash_determined(t1: Transaction, t2: Transaction)
    requires
        tx_eqv(t1, t2),
    ensures
        tx_hash(t1) == tx_hash(t2),
        tx_nosig_hash(t1) == tx_nosig_hash(t2),
{
    lemma_output_preimage_congruent(t1.output.addrs@, t2.output.addrs@);
}

/// The signature-exempt hash is stable across signature attachment,
/// replacement and removal: it agrees between any two transactions with
/// the same input and output, whatever their signatures.
pub proof fn lemma_nosig_hash_stable(t1: Transaction, t2: Transaction)
    requires
        transactor_eqv(t1.input, t2.input),
        output_eqv(t1.output, t2.output),
    ensures
        tx_nosig_hash(t1) == tx_nosig_hash(t2),
{
    lemma_output_preimage_congruent(t1.output.addrs@, t2.output.addrs@);
}

} // verus!
