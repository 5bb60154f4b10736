//! Peer descriptors.
//!
//! A peer is identified by id, kind, network address and the list of nodes
//! it is known to connect to.  The registry deduplicates peers by full
//! value equality.

use vstd::prelude::*;

verus! {

/// An IPv4 network address as its four octets.
#[derive(Clone, Copy, Debug, PartialEq, Eq, Structural)]
pub struct Ipv4Addr {
    pub a: u8,
    pub b: u8,
    pub c: u8,
    pub d: u8,
}

impl Ipv4Addr {
    pub fn new(a: u8, b: u8, c: u8, d: u8) -> (r: Ipv4Addr)
        ensures
            r == (Ipv4Addr { a, b, c, d }),
    {
        Ipv4Addr { a, b, c, d }
    }
}

/// What role a peer plays in the network.
#[derive(Clone, Copy, Debug, PartialEq, Eq, Structural)]
pub enum PeerType {
    FullNode,
    LightNode,
}

/// A peer descriptor.
#[derive(Clone, Debug)]
pub struct Peer {
    pub id: u64,
    pub ptype: PeerType,
    pub address: Ipv4Addr,
    pub connected_nodes: Vec<(u64, Ipv4Addr)>,
}

/// Two descriptors carry the same values throughout.
pub open spec fn peer_eqv(a: Peer, b: Peer) -> bool {
    &&& a.id == b.id
    &&& a.ptype == b.ptype
    &&& a.address == b.address
    &&& a.connected_nodes@ == b.connected_nodes@
}

impl Peer {
    pub fn new(id: u64, ptype: PeerType, address: Ipv4Addr) -> (r: Peer)
        ensures
            r.id == id,
            r.ptype == ptype,
            r.address == address,
            r.connected_nodes@ == Seq::<(u64, Ipv4Addr)>::empty(),
    {
        Peer { id, ptype, address, connected_nodes: Vec::new() }
    }

    pub fn with_nodes(id: u64, ptype: PeerType, address: Ipv4Addr, nodes: Vec<(u64, Ipv4Addr)>)
        -> (r: Peer)
        ensures
            r.id == id,
            r.ptype == ptype,
            r.address == address,
            r.connected_nodes == nodes,
    {
        Peer { id, ptype, address, connected_nodes: nodes }
    }

    /// Records that `node` is reachable from this peer.
    pub fn connect_node(&mut self, node: Peer)
        ensures
            final(self).connected_nodes@ == old(self).connected_nodes@.push(
                (node.id, node.address),
            ),
            final(self).id == old(self).id,
            final(self).ptype == old(self).ptype,
            final(self).address == old(self).address,
    {
        self.connected_nodes.push((node.id, node.address));
    }

    pub fn id(&self) -> (r: u64)
        ensures
            r == self.id,
    {
        self.id
    }

    pub fn set_address(&mut self, new_addr: Ipv4Addr)
        ensures
            final(self).address == new_addr,
            final(self).id == old(self).id,
            final(self).ptype == old(self).ptype,
            final(self).connected_nodes == old(self).connected_nodes,
    {
        self.address = new_addr;
    }

    pub fn ptype(&self) -> (r: PeerType)
        ensures
            r == self.ptype,
    {
        self.ptype
    }

    pub fn address(&self) -> (r: &Ipv4Addr)
        ensures
            r == &self.address,
    {
        &self.address
    }

    pub fn connected_nodes(&self) -> (r: &Vec<(u64, Ipv4Addr)>)
        ensures
            r == &self.connected_nodes,
    {
        &self.connected_nodes
    }

    /// A fresh descriptor with the same values.
    pub fn duplicate(&self) -> (r: Peer)
        ensures
            peer_eqv(r, *self),
    {
        let mut nodes: Vec<(u64, Ipv4Addr)> = Vec::new();
        let mut i: usize = 0;
        while i < self.connected_nodes.len()
            invariant
                0 <= i <= self.connected_nodes@.len(),
                nodes@ == self.connected_nodes@.take(i as int),
            decreases self.connected_nodes@.len() - i,
        {
            nodes.push(self.connected_nodes[i]);
            proof {
                assert(self.connected_nodes@.take(i + 1) =~= self.connected_nodes@.take(
                    i as int,
                ).push(self.connected_nodes@[i as int]));
            }
            i = i + 1;
        }
        proof {
            assert(self.connected_nodes@.take(self.connected_nodes@.len() as int)
                =~= self.connected_nodes@);
        }
        Peer { id: self.id, ptype: self.ptype, address: self.address, connected_nodes: nodes }
    }
}

/// Compares two descriptors by full value equality.
pub fn peer_eq(a: &Peer, b: &Peer) -> (r: bool)
    ensures
        r == peer_eqv(*a, *b),
{
    if a.id != b.id || !matches_ptype(a.ptype, b.ptype) || a.address != b.address {
        return false;
    }
    if a.connected_nodes.len() != b.connected_nodes.len() {
        return false;
    }
    let mut i: usize = 0;
    while i < a.connected_nodes.len()
        invariant
            a.connected_nodes@.len() == b.connected_nodes@.len(),
            0 <= i <= a.connected_nodes@.len(),
            forall|j: int| 0 <= j < i ==> a.connected_nodes@[j] == b.connected_nodes@[j],
        decreases a.connected_nodes@.len() - i,
    {
        let x = a.connected_nodes[i];
        let y = b.connected_nodes[i];
        if x.0 != y.0 || x.1 != y.1 {
            return false;
        }
        i = i + 1;
    }
    proof {
        assert(a.connected_nodes@ =~= b.connected_nodes@);
    }
    true
}

/// Compares two peer kinds.
fn matches_ptype(a: PeerType, b: PeerType) -> (r: bool)
    ensures
        r == (a == b),
{
    a == b
}

} // verus!
