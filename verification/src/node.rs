//! The node's shared state and the gossip decision logic.
//!
//! A node owns one `State`: the balance cache, the queue of freestanding
//! transactions, the blockchain, its own peer descriptor and the peer
//! registry.  The handlers here are the decisions behind each gossip
//! message kind; decoding bodies and performing network sends stay with
//! the caller, which hands in plain values and carries the returned
//! replies out.

pub mod communication;

use vstd::prelude::*;
use std::collections::VecDeque;
use crate::address::Address;
use crate::block::{block_hash, Block};
use crate::blockchain::{block_valid, block_valid_with_prev, lookup_spec, out_sum, tx_valid,
    Blockchain, ValidationError};
use crate::crypto::{bytes_eq, Sha256Hash};
use crate::network::peer::{peer_eq, peer_eqv, Ipv4Addr, Peer, PeerType};
use crate::transaction::{tx_hash, Transaction, Transactor};
use vstd::pervasive::VecAdditionalExecFns;

verus! {

/// Startup configuration.
pub struct Config {
    /// Path to the block disk store.
    pub blkpath: String,
    /// Build the balance cache at startup.
    pub build_cache: bool,
    /// Compute hashes to advance the blockchain.
    pub mine: bool,
    pub count_chain_workers: usize,
    /// Listen for and process network communication.
    pub listen_communication: bool,
    pub count_comm_workers: usize,
    /// The known peers.
    pub peers: Vec<Peer>,
    /// This node's own descriptor.
    pub peer: Peer,
}

impl Config {
    pub fn new(
        blkpath: String,
        build_cache: bool,
        mine: bool,
        count_chain_workers: usize,
        listen_communication: bool,
        count_comm_workers: usize,
        peers: Vec<Peer>,
        peer: Peer,
    ) -> (r: Config)
        ensures
            r.blkpath == blkpath,
            r.build_cache == build_cache,
            r.mine == mine,
            r.count_chain_workers == count_chain_workers,
            r.listen_communication == listen_communication,
            r.count_comm_workers == count_comm_workers,
            r.peers == peers,
            r.peer == peer,
    {
        Config {
            blkpath,
            build_cache,
            mine,
            listen_communication,
            count_comm_workers,
            count_chain_workers,
            peers,
            peer,
        }
    }

    /// The default setup: one bootstrap peer, all workers on.
    pub fn with_default() -> (r: Config)
        ensures
            r.blkpath@ == "etc/blocks/"@,
            r.build_cache,
            r.mine,
            r.listen_communication,
            r.count_comm_workers == 4,
            r.count_chain_workers == 1,
            r.peers@.len() == 1,
            r.peers@[0].id == 1 && r.peers@[0].ptype == PeerType::FullNode && r.peers@[0].address
                == (Ipv4Addr { a: 192, b: 168, c: 208, d: 115 }),
            r.peer.id == 0 && r.peer.ptype == PeerType::FullNode && r.peer.address == (Ipv4Addr {
                a: 127,
                b: 0,
                c: 0,
                d: 1,
            }),
    {
        let slf = Peer::new(0, PeerType::FullNode, Ipv4Addr::new(127, 0, 0, 1));
        let p = Peer::new(1, PeerType::FullNode, Ipv4Addr::new(192, 168, 208, 115));
        let mut peers: Vec<Peer> = Vec::new();
        peers.push(p);
        Config {
            blkpath: "etc/blocks/".to_owned(),
            build_cache: true,
            mine: true,
            listen_communication: true,
            count_comm_workers: 4,
            count_chain_workers: 1,
            peers,
            peer: slf,
        }
    }
}

/// No two registry entries carry the same descriptor.
pub open spec fn registry_nodup(s: Seq<Peer>) -> bool {
    forall|i: int, j: int| 0 <= i < j < s.len() ==> !peer_eqv(#[trigger] s[i], #[trigger] s[j])
}

/// Whether a descriptor with these values is registered.
pub open spec fn registry_contains(s: Seq<Peer>, p: Peer) -> bool {
    exists|i: int| 0 <= i < s.len() && peer_eqv(#[trigger] s[i], p)
}

/// The descriptor `peer` as it is taken up: with its self-reported
/// address overwritten by the observed source address.
pub open spec fn registered_form(q: Peer, peer: Peer, src: Ipv4Addr) -> bool {
    &&& q.id == peer.id
    &&& q.ptype == peer.ptype
    &&& q.address == src
    &&& q.connected_nodes@ == peer.connected_nodes@
}

/// The node's shared state.
pub struct State {
    /// The balance cache: one signed balance per touched account.
    pub economy: Vec<(Address, i128)>,
    /// Freestanding transactions, deduplicated by content hash.
    pub trx_queue: VecDeque<Transaction>,
    pub chain: Blockchain,
    /// This node's own descriptor.
    pub peer: Peer,
    /// The deduplicated peer registry.
    pub peers: Vec<Peer>,
}

impl State {
    /// The state invariant: the registry is deduplicated and the chain
    /// well formed.
    pub open spec fn wf(&self) -> bool {
        &&& registry_nodup(self.peers@)
        &&& self.chain.wf()
    }

    /// A fresh state over this node's descriptor and bootstrap peers.
    pub fn new(peer: Peer, peers: Vec<Peer>) -> (r: State)
        requires
            registry_nodup(peers@),
        ensures
            r.wf(),
            r.economy@.len() == 0,
            r.trx_queue@.len() == 0,
            r.chain.spec_blocks().len() == 0,
            r.peer == peer,
            r.peers == peers,
    {
        State {
            economy: Vec::new(),
            trx_queue: VecDeque::new(),
            chain: Blockchain::new(),
            peer,
            peers,
        }
    }

    /// Handles a register request: takes the descriptor with its address
    /// overwritten by the observed source address, inserts it unless an
    /// equal one is already registered, and returns the full current peer
    /// list — including the newly registered peer — to send back.  An
    /// already-registered descriptor changes nothing and gets no reply.
    pub fn handle_register(&mut self, peer: Peer, src: Ipv4Addr) -> (r: Option<Vec<Peer>>)
        requires
            old(self).wf(),
        ensures
            final(self).wf(),
            final(self).economy == old(self).economy,
            final(self).trx_queue == old(self).trx_queue,
            final(self).chain == old(self).chain,
            final(self).peer == old(self).peer,
            (exists|i: int|
                0 <= i < old(self).peers@.len() && registered_form(
                    #[trigger] old(self).peers@[i],
                    peer,
                    src,
                )) ==> r is None && final(self).peers == old(self).peers,
            !(exists|i: int|
                0 <= i < old(self).peers@.len() && registered_form(
                    #[trigger] old(self).peers@[i],
                    peer,
                    src,
                )) ==> {
                &&& final(self).peers@.len() == old(self).peers@.len() + 1
                &&& final(self).peers@.drop_last() == old(self).peers@
                &&& registered_form(final(self).peers@.last(), peer, src)
                &&& (r matches Some(lst) && lst@.len() == final(self).peers@.len() && forall|
                    i: int,
                |
                    0 <= i < lst@.len() ==> peer_eqv(#[trigger] lst@[i], final(self).peers@[i]))
            },
    {
        let mut p = peer;
        p.set_address(src);
        if contains_peer(&self.peers, &p) {
            None
        } else {
            let ghost oldpeers = self.peers@;
            self.peers.push(p);
            proof {
                assert(self.peers@.drop_last() =~= oldpeers);
                assert forall|i: int, j: int|
                    0 <= i < j < self.peers@.len() implies !peer_eqv(
                    #[trigger] self.peers@[i],
                    #[trigger] self.peers@[j],
                ) by {
                    if j == self.peers@.len() - 1 {
                        assert(!peer_eqv(oldpeers[i], self.peers@[j]));
                    }
                }
            }
            let snapshot = copy_peers(&self.peers);
            Some(snapshot)
        }
    }

    /// Keeps, in order, the broadcast peers that are not yet registered:
    /// the ones worth attempting a registration against.
    pub fn filter_unknown(&self, new_peers: Vec<Peer>) -> (r: Vec<Peer>)
        ensures
            r@ == unknown_filter(new_peers@, self.peers@),
    {
        let ghost orig = new_peers@;
        let mut rest = new_peers;
        let mut out: Vec<Peer> = Vec::new();
        proof {
            assert(orig.skip(0) =~= orig);
        }
        while rest.len() > 0
            invariant
                rest@.len() <= orig.len(),
                rest@ == orig.skip(orig.len() - rest@.len()),
                out@ == unknown_filter(orig.take(orig.len() - rest@.len()), self.peers@),
            decreases rest@.len(),
        {
            let ghost consumed = orig.len() - rest@.len();
            let ghost before = rest@;
            let p = rest.remove(0);
            proof {
                assert(p == before[0]);
                assert(before[0] == orig.skip(consumed)[0]);
                assert(orig.skip(consumed)[0] == orig[consumed]);
                assert(rest@ =~= before.drop_first());
                assert(before.drop_first() =~= orig.skip(consumed + 1));
                assert(orig.take(consumed + 1).drop_last() =~= orig.take(consumed));
                assert(orig.take(consumed + 1).last() == orig[consumed]);
            }
            let known = contains_peer(&self.peers, &p);
            if !known {
                out.push(p);
            }
        }
        proof {
            assert(orig.take(orig.len() as int) =~= orig);
        }
        out
    }

    /// Adds the peers that accepted a registration, re-checking each
    /// against the registry so no duplicate ever enters.
    pub fn confirm_peers(&mut self, good: Vec<Peer>)
        requires
            old(self).wf(),
        ensures
            final(self).wf(),
            final(self).economy == old(self).economy,
            final(self).trx_queue == old(self).trx_queue,
            final(self).chain == old(self).chain,
            final(self).peer == old(self).peer,
            old(self).peers@.len() <= final(self).peers@.len(),
            forall|k: int|
                0 <= k < old(self).peers@.len() ==> final(self).peers@[k] == old(
                    self,
                ).peers@[k],
            forall|k: int|
                old(self).peers@.len() <= k < final(self).peers@.len() ==> registry_contains(
                    good@,
                    #[trigger] final(self).peers@[k],
                ),
            forall|i: int|
                0 <= i < good@.len() ==> registry_contains(
                    final(self).peers@,
                    #[trigger] good@[i],
                ),
    {
        let ghost orig = good@;
        let mut rest = good;
        proof {
            assert(orig.skip(0) =~= orig);
        }
        while rest.len() > 0
            invariant
                old(self).wf(),
                self.wf(),
                self.economy == old(self).economy,
                self.trx_queue == old(self).trx_queue,
                self.chain == old(self).chain,
                self.peer == old(self).peer,
                rest@.len() <= orig.len(),
                rest@ == orig.skip(orig.len() - rest@.len()),
                old(self).peers@.len() <= self.peers@.len(),
                forall|k: int|
                    0 <= k < old(self).peers@.len() ==> self.peers@[k] == old(self).peers@[k],
                forall|k: int|
                    old(self).peers@.len() <= k < self.peers@.len() ==> registry_contains(
                        orig,
                        #[trigger] self.peers@[k],
                    ),
                forall|i: int|
                    0 <= i < orig.len() - rest@.len() ==> registry_contains(
                        self.peers@,
                        #[trigger] orig[i],
                    ),
            decreases rest@.len(),
        {
            let ghost consumed = orig.len() - rest@.len();
            let ghost prev = self.peers@;
            let ghost before = rest@;
            let p = rest.remove(0);
            proof {
                assert(p == before[0]);
                assert(before[0] == orig.skip(consumed)[0]);
                assert(orig.skip(consumed)[0] == orig[consumed]);
                assert(rest@ =~= before.drop_first());
                assert(before.drop_first() =~= orig.skip(consumed + 1));
            }
            if !contains_peer(&self.peers, &p) {
                self.peers.push(p);
                proof {
                    assert forall|i: int, j: int|
                        0 <= i < j < self.peers@.len() implies !peer_eqv(
                        #[trigger] self.peers@[i],
                        #[trigger] self.peers@[j],
                    ) by {
                        if j == self.peers@.len() - 1 {
                            assert(!peer_eqv(prev[i], self.peers@[j]));
                        }
                    }
                    assert(peer_eqv(orig[consumed], self.peers@.last()));
                }
            }
            proof {
                assert forall|i: int|
                    0 <= i < orig.len() - rest@.len() implies registry_contains(
                    self.peers@,
                    #[trigger] orig[i],
                ) by {
                    if i < consumed {
                        let w = choose|w: int| 0 <= w < prev.len() && peer_eqv(prev[w], orig[i]);
                        assert(self.peers@[w] == prev[w]);
                    }
                }
            }
        }
    }

    /// The current peer list, copied out to be sent.
    pub fn handle_request_peers(&self) -> (r: Vec<Peer>)
        ensures
            r@.len() == self.peers@.len(),
            forall|i: int| 0 <= i < r@.len() ==> peer_eqv(#[trigger] r@[i], self.peers@[i]),
    {
        copy_peers(&self.peers)
    }

    /// Handles a deregister request: removes the first registered peer
    /// with the requester's address, if any (the last entry takes its
    /// slot).  A miss changes nothing.
    pub fn handle_deregister(&mut self, src: Ipv4Addr) -> (found: bool)
        requires
            old(self).wf(),
        ensures
            final(self).wf(),
            final(self).economy == old(self).economy,
            final(self).trx_queue == old(self).trx_queue,
            final(self).chain == old(self).chain,
            final(self).peer == old(self).peer,
            found <==> exists|i: int|
                0 <= i < old(self).peers@.len() && (#[trigger] old(self).peers@[i]).address
                    == src,
            !found ==> final(self).peers == old(self).peers,
            found ==> {
                let i = first_with_addr(old(self).peers@, src);
                &&& 0 <= i < old(self).peers@.len()
                &&& old(self).peers@[i].address == src
                &&& final(self).peers@ == old(self).peers@.update(
                    i,
                    old(self).peers@.last(),
                ).drop_last()
            },
    {
        proof {
            lemma_first_with_addr(self.peers@, src);
        }
        let found_at = find_addr(&self.peers, src);
        match found_at {
            None => false,
            Some(i) => {
                proof {
                    lemma_first_with_addr_at(self.peers@, src, i as int);
                }
                let ghost prev = self.peers@;
                self.peers.swap_remove(i);
                proof {
                    assert forall|a: int, b: int|
                        0 <= a < b < self.peers@.len() implies !peer_eqv(
                        #[trigger] self.peers@[a],
                        #[trigger] self.peers@[b],
                    ) by {
                        let pa: int = if a == i {
                            prev.len() - 1
                        } else {
                            a
                        };
                        let pb: int = if b == i {
                            prev.len() - 1
                        } else {
                            b
                        };
                        assert(self.peers@[a] == prev[pa]);
                        assert(self.peers@[b] == prev[pb]);
                    }
                }
                true
            },
        }
    }

    /// Queues a freestanding transaction unless one with the same content
    /// hash is already pending.  Returns whether it was queued.
    pub fn handle_new_transaction(&mut self, trx: Transaction) -> (queued: bool)
        requires
            old(self).wf(),
        ensures
            final(self).wf(),
            final(self).economy == old(self).economy,
            final(self).chain == old(self).chain,
            final(self).peer == old(self).peer,
            final(self).peers == old(self).peers,
            queued <==> !(exists|i: int|
                0 <= i < old(self).trx_queue@.len() && tx_hash(
                    #[trigger] old(self).trx_queue@[i],
                ) == tx_hash(trx)),
            queued ==> final(self).trx_queue@ == old(self).trx_queue@.push(trx),
            !queued ==> final(self).trx_queue == old(self).trx_queue,
    {
        let h = trx.hash();
        let mut i: usize = 0;
        while i < self.trx_queue.len()
            invariant
                old(self).wf(),
                *self == *old(self),
                0 <= i <= self.trx_queue@.len(),
                forall|k: int|
                    0 <= k < i ==> tx_hash(#[trigger] self.trx_queue@[k]) != tx_hash(trx),
                h@ == tx_hash(trx),
            decreases self.trx_queue@.len() - i,
        {
            let qh = self.trx_queue[i].hash();
            if bytes_eq(&qh, &h) {
                return false;
            }
            i = i + 1;
        }
        self.trx_queue.push_back(trx);
        true
    }

    /// Hands a broadcast block to the append path.
    pub fn handle_new_block(&mut self, blk: Block) -> (r: Result<Vec<u8>, (ValidationError, Block)>)
        requires
            old(self).wf(),
            old(self).chain.spec_len() < u64::MAX,
        ensures
            final(self).wf(),
            final(self).economy == old(self).economy,
            final(self).trx_queue == old(self).trx_queue,
            final(self).peer == old(self).peer,
            final(self).peers == old(self).peers,
            ({
                let prevh = if old(self).chain.spec_blocks().len() == 0 {
                    Seq::<u8>::empty()
                } else {
                    block_hash(old(self).chain.spec_blocks().last())
                };
                &&& (r is Ok <==> block_valid_with_prev(blk, prevh))
                &&& (r matches Ok(h) ==> {
                    let nb = final(self).chain.spec_blocks().last();
                    &&& final(self).chain.spec_blocks().len() == old(self).chain.spec_blocks().len()
                        + 1
                    &&& final(self).chain.spec_blocks().drop_last() == old(
                        self,
                    ).chain.spec_blocks()
                    &&& nb.hash_prev@ == prevh
                    &&& h@ == block_hash(nb)
                    &&& lookup_spec(final(self).chain.spec_blocks(), h@) == Some(nb)
                })
                &&& (r is Err ==> final(self).chain.spec_blocks() == old(
                    self,
                ).chain.spec_blocks())
            }),
    {
        self.chain.append_block(blk)
    }
}


/// The spec-level key of an account: its modulus and exponent bytes.
pub open spec fn addr_key(a: Address) -> (Seq<u8>, Seq<u8>) {
    (a.key_n@, a.key_e@)
}

/// The fixed reward credited to a block's miner.
pub const MINER_REWARD: u64 = 10;

/// The credit events of an output list: each share's value to its
/// address, in order.
pub open spec fn out_events(s: Seq<Transactor>) -> Seq<((Seq<u8>, Seq<u8>), int)>
    decreases s.len(),
{
    if s.len() == 0 {
        Seq::empty()
    } else {
        out_events(s.drop_last()) + seq![(addr_key(s.last().addr), s.last().value as int)]
    }
}

/// The balance events of one transaction: debit the input, credit each
/// output share, credit the miner the leftover change.
pub open spec fn tx_events(t: Transaction, miner: Address) -> Seq<((Seq<u8>, Seq<u8>), int)> {
    seq![(addr_key(t.input.addr), -(t.input.value as int))] + out_events(t.output.addrs@)
        + seq![(addr_key(miner), t.input.value - out_sum(t.output.addrs@))]
}

/// The balance events of a transaction list, in order.
pub open spec fn txs_events(s: Seq<Transaction>, miner: Address) -> Seq<((Seq<u8>, Seq<u8>), int)>
    decreases s.len(),
{
    if s.len() == 0 {
        Seq::empty()
    } else {
        txs_events(s.drop_last(), miner) + tx_events(s.last(), miner)
    }
}

/// The balance events of one block: the miner reward, then every
/// transaction's events.
pub open spec fn block_events(b: Block) -> Seq<((Seq<u8>, Seq<u8>), int)> {
    seq![(addr_key(b.miner), MINER_REWARD as int)] + txs_events(b.transactions@, b.miner)
}

/// The balance events of the whole chain in causal order, genesis first.
pub open spec fn chain_events(c: Seq<Block>) -> Seq<((Seq<u8>, Seq<u8>), int)>
    decreases c.len(),
{
    if c.len() == 0 {
        Seq::empty()
    } else {
        chain_events(c.drop_last()) + block_events(c.last())
    }
}

/// Whether a balance is representable.
pub open spec fn bal_fits(x: int) -> bool {
    i128::MIN <= x <= i128::MAX
}

/// The balance of account `k`, zero when untouched.
pub open spec fn bal_get(mm: Map<(Seq<u8>, Seq<u8>), int>, k: (Seq<u8>, Seq<u8>)) -> int {
    if mm.contains_key(k) {
        mm[k]
    } else {
        0
    }
}

/// Applies credit events left to right; `None` as soon as a balance
/// leaves the representable range.
pub open spec fn apply_events(
    mm: Map<(Seq<u8>, Seq<u8>), int>,
    s: Seq<((Seq<u8>, Seq<u8>), int)>,
) -> Option<Map<(Seq<u8>, Seq<u8>), int>>
    decreases s.len(),
{
    if s.len() == 0 {
        Some(mm)
    } else {
        match apply_events(mm, s.drop_last()) {
            None => None,
            Some(m1) => {
                let k = s.last().0;
                let amt = s.last().1;
                if bal_fits(bal_get(m1, k) + amt) {
                    Some(m1.insert(k, bal_get(m1, k) + amt))
                } else {
                    None
                }
            },
        }
    }
}

/// The balance cache a chain replays to, or `None` when some balance
/// leaves the representable range along the way.
pub open spec fn replay(c: Seq<Block>) -> Option<Map<(Seq<u8>, Seq<u8>), int>> {
    apply_events(Map::empty(), chain_events(c))
}

/// No two cache entries belong to the same account.
pub open spec fn econ_nodup(v: Seq<(Address, i128)>) -> bool {
    forall|i: int, j: int|
        0 <= i < j < v.len() ==> addr_key(#[trigger] v[i].0) != addr_key(#[trigger] v[j].0)
}

/// The mapping a cache vector denotes.
pub open spec fn econ_map(v: Seq<(Address, i128)>) -> Map<(Seq<u8>, Seq<u8>), int>
    decreases v.len(),
{
    if v.len() == 0 {
        Map::empty()
    } else {
        econ_map(v.drop_last()).insert(addr_key(v.last().0), v.last().1 as int)
    }
}

/// The abstract view of an event vector.
pub open spec fn abs_evs(v: Seq<(Address, i128)>) -> Seq<((Seq<u8>, Seq<u8>), int)> {
    Seq::new(v.len(), |i: int| (addr_key(v[i].0), v[i].1 as int))
}

proof fn lemma_econ_map_dom(v: Seq<(Address, i128)>, k: (Seq<u8>, Seq<u8>))
    ensures
        econ_map(v).contains_key(k) <==> exists|i: int|
            0 <= i < v.len() && addr_key(#[trigger] v[i].0) == k,
    decreases v.len(),
{
    if v.len() > 0 {
        lemma_econ_map_dom(v.drop_last(), k);
        if econ_map(v).contains_key(k) && addr_key(v.last().0) != k {
            let i = choose|i: int|
                0 <= i < v.drop_last().len() && addr_key(#[trigger] v.drop_last()[i].0) == k;
            assert(addr_key(v[i].0) == k);
        }
        if exists|i: int| 0 <= i < v.len() && addr_key(#[trigger] v[i].0) == k {
            let i = choose|i: int| 0 <= i < v.len() && addr_key(#[trigger] v[i].0) == k;
            if i < v.len() - 1 {
                assert(addr_key(v.drop_last()[i].0) == k);
            }
        }
    }
}

proof fn lemma_econ_map_at(v: Seq<(Address, i128)>, i: int)
    requires
        econ_nodup(v),
        0 <= i < v.len(),
    ensures
        econ_map(v).contains_key(addr_key(v[i].0)),
        econ_map(v)[addr_key(v[i].0)] == v[i].1 as int,
    decreases v.len(),
{
    if i < v.len() - 1 {
        lemma_econ_map_at(v.drop_last(), i);
        assert(v.drop_last()[i] == v[i]);
        assert(addr_key(v[i].0) != addr_key(v.last().0));
    }
}

/// Updating one entry's balance updates the denoted mapping at its key.
proof fn lemma_econ_map_update(v: Seq<(Address, i128)>, i: int, a: Address, nv: i128)
    requires
        econ_nodup(v),
        0 <= i < v.len(),
        addr_key(a) == addr_key(v[i].0),
    ensures
        econ_map(v.update(i, (a, nv))) =~= econ_map(v).insert(addr_key(v[i].0), nv as int),
        econ_nodup(v.update(i, (a, nv))),
    decreases v.len(),
{
    let u = v.update(i, (a, nv));
    assert forall|x: int, y: int| 0 <= x < y < u.len() implies addr_key(
        #[trigger] u[x].0,
    ) != addr_key(#[trigger] u[y].0) by {
        assert(addr_key(u[x].0) == addr_key(v[x].0));
        assert(addr_key(u[y].0) == addr_key(v[y].0));
    }
    if i == v.len() - 1 {
        assert(u.drop_last() =~= v.drop_last());
    } else {
        assert(u.drop_last() =~= v.drop_last().update(i, (a, nv)));
        assert(u.last() == v.last());
        lemma_econ_map_update(v.drop_last(), i, a, nv);
        assert(addr_key(v[i].0) != addr_key(v.last().0));
    }
}

/// Once applying the events has failed, appending more never recovers.
proof fn lemma_apply_none_persists(
    mm: Map<(Seq<u8>, Seq<u8>), int>,
    s: Seq<((Seq<u8>, Seq<u8>), int)>,
    k: int,
)
    requires
        0 <= k <= s.len(),
        apply_events(mm, s.take(k)) is None,
    ensures
        apply_events(mm, s) is None,
    decreases s.len() - k,
{
    if k < s.len() {
        assert(s.take(k + 1).drop_last() =~= s.take(k));
        lemma_apply_none_persists(mm, s, k + 1);
    } else {
        assert(s.take(k) =~= s);
    }
}

/// A prefix of the output shares never sums to more than all of them.
proof fn lemma_out_sum_take(s: Seq<Transactor>, k: int)
    requires
        0 <= k <= s.len(),
    ensures
        out_sum(s.take(k)) <= out_sum(s),
        out_sum(s.take(k)) >= 0,
    decreases s.len() - k,
{
    lemma_out_sum_nonneg(s.take(k));
    if k < s.len() {
        assert(s.take(k + 1).drop_last() =~= s.take(k));
        assert(s.take(k + 1).last() == s[k]);
        lemma_out_sum_take(s, k + 1);
    } else {
        assert(s.take(k) =~= s);
    }
}

proof fn lemma_out_sum_nonneg(s: Seq<Transactor>)
    ensures
        out_sum(s) >= 0,
    decreases s.len(),
{
    if s.len() > 0 {
        lemma_out_sum_nonneg(s.drop_last());
    }
}

/// Pushing an event extends the abstract view by its abstraction.
proof fn lemma_abs_push(v: Seq<(Address, i128)>, e: (Address, i128))
    ensures
        abs_evs(v.push(e)) =~= abs_evs(v).push((addr_key(e.0), e.1 as int)),
{
    assert forall|x: int| 0 <= x < v.len() implies abs_evs(v.push(e))[x] == abs_evs(v)[x] by {
        assert(v.push(e)[x] == v[x]);
    }
}

/// The first cache entry of this account, if any.
fn econ_find(v: &Vec<(Address, i128)>, a: &Address) -> (r: Option<usize>)
    ensures
        r matches Some(i) ==> 0 <= i < v@.len() && addr_key(v@[i as int].0) == addr_key(*a),
        r is None ==> forall|i: int| 0 <= i < v@.len() ==> addr_key(#[trigger] v@[i].0)
            != addr_key(*a),
{
    let mut i: usize = 0;
    while i < v.len()
        invariant
            0 <= i <= v@.len(),
            forall|k: int| 0 <= k < i ==> addr_key(#[trigger] v@[k].0) != addr_key(*a),
        decreases v@.len() - i,
    {
        if bytes_eq(&v[i].0.key_n, &a.key_n) && bytes_eq(&v[i].0.key_e, &a.key_e) {
            return Some(i);
        }
        i = i + 1;
    }
    None
}

/// Credits `amt` to the account of `a`, creating the entry if absent.
/// Fails exactly when the new balance would not be representable.
fn credit(econ: &mut Vec<(Address, i128)>, a: &Address, amt: i128) -> (r: bool)
    requires
        econ_nodup(old(econ)@),
    ensures
        econ_nodup(final(econ)@),
        r <==> bal_fits(bal_get(econ_map(old(econ)@), addr_key(*a)) + amt),
        r ==> econ_map(final(econ)@) == econ_map(old(econ)@).insert(
            addr_key(*a),
            bal_get(econ_map(old(econ)@), addr_key(*a)) + amt,
        ),
        !r ==> final(econ)@ == old(econ)@,
{
    proof {
        lemma_econ_map_dom(econ@, addr_key(*a));
    }
    match econ_find(econ, a) {
        Some(i) => {
            proof {
                lemma_econ_map_at(econ@, i as int);
            }
            let cur = econ[i].1;
            let ok: bool = if amt >= 0 {
                cur <= i128::MAX - amt
            } else {
                cur >= i128::MIN - amt
            };
            if !ok {
                return false;
            }
            let nv = cur + amt;
            let aa = a.duplicate();
            proof {
                lemma_econ_map_update(econ@, i as int, aa, nv);
            }
            econ.set(i, (aa, nv));
            true
        },
        None => {
            let ghost prev = econ@;
            econ.push((a.duplicate(), amt));
            proof {
                assert(econ@.drop_last() =~= prev);
                assert(addr_key(econ@.last().0) == addr_key(*a));
                assert forall|x: int, y: int| 0 <= x < y < econ@.len() implies addr_key(
                    #[trigger] econ@[x].0,
                ) != addr_key(#[trigger] econ@[y].0) by {
                    if y == econ@.len() - 1 {
                        assert(addr_key(econ@[x].0) == addr_key(prev[x].0));
                    }
                }
            }
            true
        },
    }
}

impl State {
    /// Rebuilds the balance cache by replaying the whole chain in causal
    /// order, genesis first: every block credits its miner the fixed
    /// reward; every transaction debits its input identity, credits each
    /// output share, and credits the miner the leftover change.  Returns
    /// `false`, leaving the cache empty, exactly when some balance leaves
    /// the representable range along the way.
    #[verifier::rlimit(100)]
    pub fn build_cache(&mut self) -> (r: bool)
        requires
            old(self).wf(),
        ensures
            final(self).wf(),
            final(self).trx_queue == old(self).trx_queue,
            final(self).chain == old(self).chain,
            final(self).peer == old(self).peer,
            final(self).peers == old(self).peers,
            r <==> replay(old(self).chain.spec_blocks()) is Some,
            r ==> econ_nodup(final(self).economy@) && Some(econ_map(final(self).economy@))
                == replay(old(self).chain.spec_blocks()),
            !r ==> final(self).economy@.len() == 0,
    {
        let ghost c = self.chain.spec_blocks();
        let mut events: Vec<(Address, i128)> = Vec::new();
        let n = self.chain.get_blocks().len();
        proof {
            assert(abs_evs(events@) =~= chain_events(c.take(0)));
        }
        let mut i: usize = 0;
        while i < n
            invariant
                old(self).wf(),
                *self == *old(self),
                c == self.chain.spec_blocks(),
                n == c.len(),
                0 <= i <= n,
                abs_evs(events@) == chain_events(c.take(i as int)),
            decreases n - i,
        {
            let blocks = self.chain.get_blocks();
            let b = &blocks[i];
            proof {
                assert(*b == c[i as int]);
                assert(block_valid(c[i as int]));
            }
            let ghost base = chain_events(c.take(i as int));

            let ghost prev_events = events@;
            events.push((b.miner.duplicate(), MINER_REWARD as i128));
            proof {
                lemma_abs_push(prev_events, events@.last());
                assert(abs_evs(events@) =~= base + seq![
                    (addr_key(b.miner), MINER_REWARD as int),
                ]);
            }
            let ghost rw = seq![(addr_key(b.miner), MINER_REWARD as int)];

            let mut j: usize = 0;
            proof {
                assert(base + rw + txs_events(b.transactions@.take(0), b.miner) =~= base + rw);
            }
            while j < b.transactions.len()
                invariant
                    block_valid(*b),
                    rw == seq![(addr_key(b.miner), MINER_REWARD as int)],
                    0 <= j <= b.transactions@.len(),
                    abs_evs(events@) == base + rw + txs_events(
                        b.transactions@.take(j as int),
                        b.miner,
                    ),
                decreases b.transactions@.len() - j,
            {
                let t = &b.transactions[j];
                proof {
                    assert(*t == b.transactions@[j as int]);
                    assert(tx_valid(*t));
                }
                let ghost txbase = base + rw + txs_events(b.transactions@.take(j as int), b.miner);

                let ghost prev_events = events@;
                events.push((t.input.addr.duplicate(), -(t.input.value as i128)));
                let ghost debit = seq![(addr_key(t.input.addr), -(t.input.value as int))];
                proof {
                    lemma_abs_push(prev_events, events@.last());
                    assert(abs_evs(events@) =~= txbase + debit);
                    assert(txbase + debit + out_events(t.output.addrs@.take(0)) =~= txbase
                        + debit);
                }

                let shares = &t.output.addrs;
                let mut sum: u64 = 0;
                let mut k: usize = 0;
                while k < shares.len()
                    invariant
                        tx_valid(*t),
                        shares == &t.output.addrs,
                        0 <= k <= shares@.len(),
                        sum == out_sum(shares@.take(k as int)),
                        sum <= t.input.value,
                        abs_evs(events@) == txbase + debit + out_events(
                            shares@.take(k as int),
                        ),
                    decreases shares@.len() - k,
                {
                    proof {
                        assert(shares@.take(k + 1).drop_last() =~= shares@.take(k as int));
                        assert(shares@.take(k + 1).last() == shares@[k as int]);
                        lemma_out_sum_take(shares@, k + 1);
                    }
                    let ghost prev_events = events@;
                    events.push((shares[k].addr.duplicate(), shares[k].value as i128));
                    proof {
                        let item = (addr_key(shares@[k as int].addr), shares@[k as int].value
                            as int);
                        lemma_abs_push(prev_events, events@.last());
                        assert(abs_evs(events@) =~= (txbase + debit + out_events(
                            shares@.take(k as int),
                        )).push(item));
                        assert(out_events(shares@.take(k + 1)) =~= out_events(
                            shares@.take(k as int),
                        ).push(item));
                        assert(abs_evs(events@) =~= txbase + debit + out_events(
                            shares@.take(k + 1),
                        ));
                    }
                    sum = sum + shares[k].value;
                    k = k + 1;
                }
                proof {
                    assert(shares@.take(shares@.len() as int) =~= shares@);
                }

                let change = t.input.value - sum;
                let ghost prev_events = events@;
                events.push((b.miner.duplicate(), change as i128));
                proof {
                    let item = (addr_key(b.miner), t.input.value - out_sum(shares@));
                    lemma_abs_push(prev_events, events@.last());
                    assert(abs_evs(events@) =~= (txbase + debit + out_events(shares@)).push(
                        item,
                    ));
                    assert(tx_events(*t, b.miner) =~= debit + out_events(shares@) + seq![item]);
                    assert(abs_evs(events@) =~= txbase + tx_events(*t, b.miner));
                    assert(b.transactions@.take(j + 1).drop_last() =~= b.transactions@.take(
                        j as int,
                    ));
                    assert(b.transactions@.take(j + 1).last() == b.transactions@[j as int]);
                    assert(abs_evs(events@) =~= base + rw + txs_events(
                        b.transactions@.take(j + 1),
                        b.miner,
                    ));
                }
                j = j + 1;
            }
            proof {
                assert(b.transactions@.take(b.transactions@.len() as int)
                    =~= b.transactions@);
                assert(c.take(i + 1).drop_last() =~= c.take(i as int));
                assert(c.take(i + 1).last() == c[i as int]);
                assert(abs_evs(events@) =~= chain_events(c.take(i + 1)));
            }
            i = i + 1;
        }
        proof {
            assert(c.take(n as int) =~= c);
        }

        // Fold the events into the cache.
        let mut econ: Vec<(Address, i128)> = Vec::new();
        proof {
            assert(abs_evs(events@).take(0) =~= Seq::<((Seq<u8>, Seq<u8>), int)>::empty());
        }
        let mut idx: usize = 0;
        while idx < events.len()
            invariant
                old(self).wf(),
                *self == *old(self),
                c == self.chain.spec_blocks(),
                abs_evs(events@) == chain_events(c),
                0 <= idx <= events@.len(),
                econ_nodup(econ@),
                apply_events(Map::empty(), abs_evs(events@).take(idx as int)) == Some(
                    econ_map(econ@),
                ),
            decreases events@.len() - idx,
        {
            let amt = events[idx].1;
            let ok = credit(&mut econ, &events[idx].0, amt);
            proof {
                let evs = abs_evs(events@);
                assert(evs.take(idx + 1).drop_last() =~= evs.take(idx as int));
                assert(evs.take(idx + 1).last() == evs[idx as int]);
                assert(evs[idx as int] == (addr_key(events@[idx as int].0), events@[idx as int].1
                    as int));
            }
            if !ok {
                proof {
                    lemma_apply_none_persists(Map::empty(), abs_evs(events@), idx + 1);
                }
                self.economy = Vec::new();
                return false;
            }
            idx = idx + 1;
        }
        proof {
            assert(abs_evs(events@).take(events@.len() as int) =~= abs_evs(events@));
        }
        self.economy = econ;
        true
    }
}

/// In order, the broadcast peers not yet known to the registry.
pub open spec fn unknown_filter(s: Seq<Peer>, known: Seq<Peer>) -> Seq<Peer>
    decreases s.len(),
{
    if s.len() == 0 {
        Seq::empty()
    } else {
        let rest = unknown_filter(s.drop_last(), known);
        if registry_contains(known, s.last()) {
            rest
        } else {
            rest.push(s.last())
        }
    }
}

/// The first registry index holding `src`, or -1.
pub open spec fn first_with_addr(s: Seq<Peer>, src: Ipv4Addr) -> int
    decreases s.len(),
{
    if s.len() == 0 {
        -1
    } else if s[0].address == src {
        0
    } else {
        let r = first_with_addr(s.drop_first(), src);
        if r < 0 {
            -1
        } else {
            r + 1
        }
    }
}

proof fn lemma_first_with_addr(s: Seq<Peer>, src: Ipv4Addr)
    ensures
        first_with_addr(s, src) == -1 <==> forall|i: int|
            0 <= i < s.len() ==> (#[trigger] s[i]).address != src,
        first_with_addr(s, src) != -1 ==> {
            &&& 0 <= first_with_addr(s, src) < s.len()
            &&& s[first_with_addr(s, src)].address == src
        },
    decreases s.len(),
{
    if s.len() > 0 {
        lemma_first_with_addr(s.drop_first(), src);
        assert forall|i: int| 0 < i < s.len() implies #[trigger] s[i] == s.drop_first()[i - 1]
        by {}
    }
}

proof fn lemma_first_with_addr_at(s: Seq<Peer>, src: Ipv4Addr, i: int)
    requires
        0 <= i < s.len(),
        s[i].address == src,
        forall|k: int| 0 <= k < i ==> (#[trigger] s[k]).address != src,
    ensures
        first_with_addr(s, src) == i,
    decreases s.len(),
{
    if i > 0 {
        lemma_first_with_addr_at(s.drop_first(), src, i - 1);
        assert forall|k: int| 0 <= k < i - 1 implies (#[trigger] s.drop_first()[k]).address
            != src by {
            assert(s.drop_first()[k] == s[k + 1]);
        }
    }
}

/// The first registry index whose peer has address `src`, if any.
fn find_addr(v: &Vec<Peer>, src: Ipv4Addr) -> (r: Option<usize>)
    ensures
        r matches Some(i) ==> 0 <= i < v@.len() && v@[i as int].address == src && (forall|k: int|
            0 <= k < i ==> (#[trigger] v@[k]).address != src),
        r is None ==> forall|k: int| 0 <= k < v@.len() ==> (#[trigger] v@[k]).address != src,
{
    let mut i: usize = 0;
    while i < v.len()
        invariant
            0 <= i <= v@.len(),
            forall|k: int| 0 <= k < i ==> (#[trigger] v@[k]).address != src,
        decreases v@.len() - i,
    {
        if v[i].address == src {
            return Some(i);
        }
        i = i + 1;
    }
    None
}

/// Whether the registry holds a peer equal to `p`.
fn contains_peer(v: &Vec<Peer>, p: &Peer) -> (r: bool)
    ensures
        r == registry_contains(v@, *p),
{
    let mut i: usize = 0;
    while i < v.len()
        invariant
            0 <= i <= v@.len(),
            forall|k: int| 0 <= k < i ==> !peer_eqv(#[trigger] v@[k], *p),
        decreases v@.len() - i,
    {
        if peer_eq(&v[i], p) {
            return true;
        }
        i = i + 1;
    }
    false
}

/// A fresh copy of the whole registry.
fn copy_peers(v: &Vec<Peer>) -> (r: Vec<Peer>)
    ensures
        r@.len() == v@.len(),
        forall|i: int| 0 <= i < r@.len() ==> peer_eqv(#[trigger] r@[i], v@[i]),
{
    let mut out: Vec<Peer> = Vec::new();
    let mut i: usize = 0;
    while i < v.len()
        invariant
            0 <= i <= v@.len(),
            out@.len() == i,
            forall|k: int| 0 <= k < i ==> peer_eqv(#[trigger] out@[k], v@[k]),
        decreases v@.len() - i,
    {
        out.push(v[i].duplicate());
        i = i + 1;
    }
    out
}

} // verus!
