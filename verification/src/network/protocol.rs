//! The gossip message envelope.
//!
//! Every message is a header naming the kind and a self-describing encoded
//! body whose schema depends on the header: an encoded transaction, an
//! encoded block, or an encoded peer list; empty for pure control headers.

use vstd::prelude::*;

verus! {

/// The kind of a gossip message.
#[derive(Clone, Copy, Debug, PartialEq, Eq, Structural)]
pub enum Header {
    /// Broadcast a transaction.
    BroadcastTransaction,
    /// Broadcast a block.
    BroadcastBlock,
    /// Request a block.
    RequestBlock,
    /// Broadcast all known peers.
    BroadcastPeers,
    /// Request the known peers.
    RequestPeers,
    /// Register into the peer-to-peer network.
    Register,
    /// Deregister from the peer-to-peer network.
    Deregister,
    /// Generic acknowledgement.
    OK,
    /// Generic error acknowledgement.
    ERR,
}

/// A message: a header and an encoded body.
#[derive(Clone, Debug)]
pub struct Message {
    pub header: Header,
    pub body: String,
}

/// Two messages carry the same header and body.
pub open spec fn message_eqv(a: Message, b: Message) -> bool {
    a.header == b.header && a.body@ == b.body@
}

impl Message {
    /// A plain acknowledgement with an empty body.
    pub fn new() -> (r: Message)
        ensures
            r.header == Header::OK,
            r.body@ == Seq::<char>::empty(),
    {
        proof {
            reveal_strlit("");
            assert(""@ =~= Seq::<char>::empty());
        }
        Message::with_data(Header::OK, "")
    }

    /// A message with the given header and body.
    pub fn with_data(header: Header, body: &str) -> (r: Message)
        ensures
            r.header == header,
            r.body@ == body@,
    {
        Message { header, body: body.to_owned() }
    }
}

} // verus!
