use vstd::prelude::*;

use crate::channel::Channel;
use crate::connections::Connections;
use crate::peer::PeerAddress;
use crate::peer_book::PeerBook;

verus! {

/// The process-wide aggregate: the local node's address, the peer book, and
/// the connection map.
///
/// The three fields are independent; connection-lifecycle management mutates
/// the book and the map, a broadcast only reads the book and writes frames
/// through the map's channels. The book and the map are kept consistent by
/// that lifecycle management, not by this type: a broadcast tolerates a
/// connected peer without a channel by skipping it.
pub struct Context {
    pub local_address: PeerAddress,
    pub peer_book: PeerBook,
    pub connections: Connections,
}

impl Context {
    /// Both registries hold each address at most once.
    pub open spec fn wf(self) -> bool {
        self.peer_book.wf() && self.connections.wf()
    }

    /// A context for a node with no peers yet.
    pub fn new(local_address: PeerAddress) -> (r: Context)
        ensures
            r.wf(),
            r.local_address == local_address,
            forall|a: PeerAddress| !(#[trigger] r.peer_book.is_connected(a)),
            forall|a: PeerAddress| !(#[trigger] r.peer_book.is_known(a)),
            r.connections.channel_seq() == Seq::<Channel>::empty(),
    {
        Context {
            local_address,
            peer_book: PeerBook::new(),
            connections: Connections::new(),
        }
    }

    /// Whether `wf` holds, checked executably.
    pub fn check_wf(&self) -> (r: bool)
        ensures
            r == self.wf(),
    {
        self.peer_book.check_wf() && self.connections.check_wf()
    }
}

} // verus!
