//! What the node records of its peers.

use vstd::prelude::*;

verus! {

/// How far the connection to a peer has come.
#[derive(Clone, Copy, Debug, PartialEq, Eq, Structural)]
pub enum Connectivity {
    Dialing,
    Connected,
    Disconnecting,
    Disconnected,
}

/// What the node records of a peer.
#[derive(Clone, Copy, Debug, PartialEq, Eq, Structural)]
pub struct Peer {
    pub connectivity: Connectivity,
}

impl Peer {
    /// Whether the connection to the peer stands.
    pub open spec fn connected(self) -> bool {
        self.connectivity == Connectivity::Connected
    }

    /// Whether the connection to the peer stands.
    pub fn is_connected(&self) -> (connected: bool)
        ensures
            connected == self.connected(),
    {
        match self.connectivity {
            Connectivity::Connected => true,
            _ => false,
        }
    }
}

/// The peers among `peers` to which a connection stands, in the same
/// order.
pub fn connected_peers(peers: Vec<(libp2p::PeerId, Peer)>) -> (connected: Vec<(libp2p::PeerId, Peer)>)
    ensures
        connected@ == peers@.filter(|entry: (libp2p::PeerId, Peer)| entry.1.connected()),
{
    let ghost keep = |entry: (libp2p::PeerId, Peer)| entry.1.connected();
    let mut connected: Vec<(libp2p::PeerId, Peer)> = Vec::new();
    let mut i: usize = 0;
    proof {
        reveal(Seq::filter);
        assert(peers@.take(0) =~= Seq::<(libp2p::PeerId, Peer)>::empty());
    }
    while i < peers.len()
        invariant
            i <= peers@.len(),
            keep == |entry: (libp2p::PeerId, Peer)| entry.1.connected(),
            connected@ == peers@.take(i as int).filter(keep),
        decreases peers@.len() - i,
    {
        let entry = peers[i];
        proof {
            reveal(Seq::filter);
            assert(peers@.take(i + 1).drop_last() =~= peers@.take(i as int));
            assert(peers@.take(i + 1).last() == entry);
        }
        if entry.1.is_connected() {
            connected.push(entry);
        }
        i += 1;
    }
    proof {
        assert(peers@.take(peers@.len() as int) =~= peers@);
    }
    connected
}

} // verus!
