use chain_sync::peers::{connected_peers, Connectivity, Peer};
use libp2p::PeerId;

fn peer(connectivity: Connectivity) -> Peer {
    Peer { connectivity }
}

#[test]
fn only_a_standing_connection_counts_as_connected() {
    assert!(peer(Connectivity::Connected).is_connected());
    assert!(!peer(Connectivity::Dialing).is_connected());
    assert!(!peer(Connectivity::Disconnecting).is_connected());
    assert!(!peer(Connectivity::Disconnected).is_connected());
}

#[test]
fn the_connected_peers_are_kept_in_order() {
    let ids: Vec<PeerId> = (0..5).map(|_| PeerId::random()).collect();
    let peers = vec![
        (ids[0], peer(Connectivity::Connected)),
        (ids[1], peer(Connectivity::Dialing)),
        (ids[2], peer(Connectivity::Connected)),
        (ids[3], peer(Connectivity::Disconnected)),
        (ids[4], peer(Connectivity::Connected)),
    ];
    let connected = connected_peers(peers);
    assert_eq!(
        connected,
        vec![
            (ids[0], peer(Connectivity::Connected)),
            (ids[2], peer(Connectivity::Connected)),
            (ids[4], peer(Connectivity::Connected)),
        ]
    );
}

#[test]
fn no_peers_or_none_connected_give_nothing() {
    assert!(connected_peers(vec![]).is_empty());
    let peers = vec![
        (PeerId::random(), peer(Connectivity::Dialing)),
        (PeerId::random(), peer(Connectivity::Disconnecting)),
    ];
    assert!(connected_peers(peers).is_empty());
}
