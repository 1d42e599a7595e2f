//! Peer identities and the attribution of data and failures to peers.

use vstd::prelude::*;

use crate::error::SyncError2;

verus! {

/// `libp2p::PeerId`, the identity of a network participant, declared as an
/// opaque type: the pipeline never looks inside one, it only carries it
/// along with the data that the peer supplied.
#[verifier::external_type_specification]
#[verifier::external_body]
pub struct ExPeerId(libp2p::PeerId);

/// `PeerId` derives `Clone` and `Copy`: a clone is the same identity.
pub assume_specification[ <libp2p::PeerId as Clone>::clone ](peer: &libp2p::PeerId) -> (copy:
    libp2p::PeerId)
    ensures
        copy == *peer,
;

/// A value together with the peer that supplied it.
#[derive(Clone, Copy, Debug, PartialEq, Eq)]
pub struct PeerData<T> {
    pub peer: libp2p::PeerId,
    pub data: T,
}

impl<T> PeerData<T> {
    /// Tags `data` with `peer`.
    pub fn new(peer: libp2p::PeerId, data: T) -> (tagged: Self)
        ensures
            tagged.peer == peer,
            tagged.data == data,
    {
        PeerData { peer, data }
    }
}

/// Draws a fresh identity with `libp2p::PeerId::random`, which reads the
/// thread's random number generator; nothing is claimed about the value.
#[verifier::external_body]
fn random_peer() -> libp2p::PeerId {
    libp2p::PeerId::random()
}

/// The failure of a local resource, attributed to `peer`.
pub fn connection_failure(peer: libp2p::PeerId) -> (failure: PeerData<SyncError2>)
    ensures
        failure.peer == peer,
        failure.data == SyncError2::ConnectionFailure,
{
    PeerData { peer, data: SyncError2::ConnectionFailure }
}

/// The failure to report when a local resource fails before any peer has
/// supplied data: a connection failure under a freshly drawn identity.
pub fn unattributed_connection_failure() -> (failure: PeerData<SyncError2>)
    ensures
        failure.data == SyncError2::ConnectionFailure,
{
    connection_failure(random_peer())
}

} // verus!
