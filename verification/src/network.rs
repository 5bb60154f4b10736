//! Gossip networking: the message protocol and the peer descriptors.

pub mod peer;
pub mod protocol;

pub use protocol::{Header, Message};
pub use peer::{Ipv4Addr, Peer, PeerType};
