//! Heartbeats: the peer count, unhealthy peers, sync committee subnets and score metrics.

use peer_manager::event::PeerManagerEvent;
use peer_manager::heartbeat::{score_distribution, ScoreQuantile};
use peer_manager::manager::{NetworkGlobals, PeerManager};
use peer_manager::peerdb::{PeerClass, PeerDB};
use peer_manager::{
    Client, ClientKind, GoodbyeReason, IpAddr, Multiaddr, NetworkConfig, PeerId, Score, ScoreState,
    Subnet, SyncState,
};
use std::collections::HashMap;

const MIN_SCORE_BEFORE_DISCONNECT: f64 = -20.0;
const MIN_SCORE_BEFORE_BAN: f64 = -50.0;
const GOSSIPSUB_GREYLIST_THRESHOLD: f64 = -16000.0;
const GOSSIPSUB_NEGATIVE_SCORE_WEIGHT: f64 =
    (MIN_SCORE_BEFORE_DISCONNECT + 1.0) / GOSSIPSUB_GREYLIST_THRESHOLD;

/// The scores of the peers, kept as the scoring formula has them.
struct ScoreBook {
    base: HashMap<PeerId, f64>,
    gossipsub: HashMap<PeerId, f64>,
}

impl ScoreBook {
    fn new() -> ScoreBook {
        ScoreBook { base: HashMap::new(), gossipsub: HashMap::new() }
    }

    fn score(&self, value: f64) -> Score {
        Score {
            rank: (value * 1_000_000_000.0) as i64,
            state: if value <= MIN_SCORE_BEFORE_BAN {
                ScoreState::Banned
            } else if value <= MIN_SCORE_BEFORE_DISCONNECT {
                ScoreState::Disconnected
            } else {
                ScoreState::Healthy
            },
            good_gossipsub: true,
        }
    }

    /// Adds to a peer's own score.
    fn add_to_score(&mut self, manager: &mut PeerManager, id: PeerId, value: f64) {
        let base = self.base.entry(id).or_insert(0.0);
        *base += value;
        let score = *base;
        assert!(manager.network_globals.peers.set_score(id, self.score(score)));
    }

    /// Sets a peer's gossipsub score, which counts from the next update on.
    fn set_gossipsub_score(&mut self, id: PeerId, value: f64) {
        self.gossipsub.insert(id, value);
    }

    /// What an update of the scores makes of them.
    fn updates(&self, manager: &PeerManager) -> Vec<(PeerId, Score)> {
        let mut updates = Vec::new();
        for id in manager.network_globals.peers.peer_ids() {
            let base = *self.base.get(&id).unwrap_or(&0.0);
            let gossipsub = *self.gossipsub.get(&id).unwrap_or(&0.0);
            let total = if gossipsub < 0.0 {
                base + gossipsub * GOSSIPSUB_NEGATIVE_SCORE_WEIGHT
            } else {
                base
            };
            updates.push((id, self.score(total)));
        }
        updates
    }

    fn heartbeat(&self, manager: &mut PeerManager) {
        let updates = self.updates(manager);
        manager.heartbeat(0, &updates);
    }
}

fn build_peer_manager(target: usize) -> PeerManager {
    let config = NetworkConfig {
        target_peers: target,
        disable_discovery: false,
        target_subnet_peers: 2,
    };
    PeerManager::new(
        &config,
        NetworkGlobals {
            peers: PeerDB::new(5),
            sync_state: SyncState::Stalled,
            local_udp_port: Some(9000),
        },
    )
}

/// The address `/ip4/0.0.0.0`.
fn any_address() -> Multiaddr {
    Multiaddr { bytes: vec![4, 0, 0, 0, 0], ip: Some(IpAddr::V4(0)) }
}

fn connected_or_dialing_peers(manager: &PeerManager) -> usize {
    manager.network_globals.peers.count(PeerClass::ConnectedOrDialing)
}

fn drain(manager: &mut PeerManager) -> Vec<PeerManagerEvent> {
    let mut events = Vec::new();
    while let Some(event) = manager.events.pop() {
        events.push(event);
    }
    events
}

#[test]
fn test_peer_manager_disconnects_correctly_during_heartbeat() {
    let mut peer_manager = build_peer_manager(3);
    let mut scores = ScoreBook::new();

    // Create 5 peers to connect to.
    // 2 will be outbound-only, and have the lowest score.
    let peer0 = 10;
    let peer1 = 11;
    let peer2 = 12;
    let outbound_only_peer1 = 13;
    let outbound_only_peer2 = 14;

    peer_manager.inject_connect_ingoing(peer0, any_address(), None);
    peer_manager.inject_connect_ingoing(peer1, any_address(), None);
    peer_manager.inject_connect_ingoing(peer2, any_address(), None);
    peer_manager.inject_connect_outgoing(outbound_only_peer1, any_address(), None);
    peer_manager.inject_connect_outgoing(outbound_only_peer2, any_address(), None);

    // Set the outbound-only peers to have the lowest score.
    scores.add_to_score(&mut peer_manager, outbound_only_peer1, -1.0);
    scores.add_to_score(&mut peer_manager, outbound_only_peer2, -2.0);

    // Check initial connected peers.
    assert_eq!(connected_or_dialing_peers(&peer_manager), 5);

    scores.heartbeat(&mut peer_manager);

    // Check that we disconnected from two peers.
    // Check that one outbound-only peer was removed because it had the worst score
    // and that we did not disconnect the other outbound peer due to the minimum outbound quota.
    assert_eq!(connected_or_dialing_peers(&peer_manager), 3);
    assert!(peer_manager.is_connected(outbound_only_peer1));
    assert!(!peer_manager.is_connected(outbound_only_peer2));

    scores.heartbeat(&mut peer_manager);

    // Check that if we are at target number of peers, we do not disconnect any.
    assert_eq!(connected_or_dialing_peers(&peer_manager), 3);
}

#[test]
fn test_peer_manager_not_enough_outbound_peers_no_panic_during_heartbeat() {
    let mut peer_manager = build_peer_manager(20);
    let mut scores = ScoreBook::new();

    // Connect to 20 ingoing-only peers.
    for i in 0..19 {
        peer_manager.inject_connect_ingoing(100 + i, any_address(), None);
    }

    // Connect an outbound-only peer.
    // Give it the lowest score so that it is evaluated first in the disconnect list iterator.
    let outbound_only_peer = 50;
    peer_manager.inject_connect_ingoing(outbound_only_peer, any_address(), None);
    scores.add_to_score(&mut peer_manager, outbound_only_peer, -1.0);
    // After heartbeat, we will have removed one peer.
    // Having less outbound-only peers than minimum won't cause panic when the outbound-only peer is being considered for disconnection.
    scores.heartbeat(&mut peer_manager);
    assert_eq!(connected_or_dialing_peers(&peer_manager), 20);
}

#[test]
fn test_peer_manager_removes_unhealthy_peers_during_heartbeat() {
    let mut peer_manager = build_peer_manager(3);
    let mut scores = ScoreBook::new();

    // Create 3 peers to connect to.
    let peer0 = 10;
    let inbound_only_peer1 = 11;
    let outbound_only_peer1 = 12;

    peer_manager.inject_connect_ingoing(peer0, any_address(), None);
    peer_manager.inject_connect_outgoing(peer0, any_address(), None);

    // Connect to two peers that are on the threshold of being disconnected.
    peer_manager.inject_connect_ingoing(inbound_only_peer1, any_address(), None);
    peer_manager.inject_connect_outgoing(outbound_only_peer1, any_address(), None);
    scores.add_to_score(&mut peer_manager, inbound_only_peer1, -19.9);
    scores.add_to_score(&mut peer_manager, outbound_only_peer1, -19.9);
    // Update the gossipsub scores to induce connection downgrade
    // during the heartbeat, update_peer_scores will downgrade the score from -19.9 to at least -20, this will then trigger a disconnection.
    // If we changed the peer scores to -20 before the heartbeat, update_peer_scores will mark the previous score status as disconnected,
    // then handle_state_transitions will not change the connection status to disconnected because the score state has not changed.
    scores.set_gossipsub_score(inbound_only_peer1, -85.0);
    scores.set_gossipsub_score(outbound_only_peer1, -85.0);

    scores.heartbeat(&mut peer_manager);

    assert_eq!(connected_or_dialing_peers(&peer_manager), 1);
}

#[test]
fn test_peer_manager_remove_unhealthy_peers_brings_peers_below_target() {
    let mut peer_manager = build_peer_manager(3);
    let mut scores = ScoreBook::new();

    // Create 4 peers to connect to.
    // One pair will be unhealthy inbound only and outbound only peers.
    let peer0 = 10;
    let peer1 = 11;
    let inbound_only_peer1 = 12;
    let outbound_only_peer1 = 13;

    peer_manager.inject_connect_ingoing(peer0, any_address(), None);
    peer_manager.inject_connect_ingoing(peer1, any_address(), None);

    // Connect to two peers that are on the threshold of being disconnected.
    peer_manager.inject_connect_ingoing(inbound_only_peer1, any_address(), None);
    peer_manager.inject_connect_outgoing(outbound_only_peer1, any_address(), None);
    scores.add_to_score(&mut peer_manager, inbound_only_peer1, -19.9);
    scores.add_to_score(&mut peer_manager, outbound_only_peer1, -19.9);
    scores.set_gossipsub_score(inbound_only_peer1, -85.0);
    scores.set_gossipsub_score(outbound_only_peer1, -85.0);
    scores.heartbeat(&mut peer_manager);
    // Tests that when we are over the target peer limit, after disconnecting two unhealthy peers,
    // the loop to check for disconnecting peers will stop because we have removed enough peers (only needed to remove 1 to reach target).
    assert_eq!(connected_or_dialing_peers(&peer_manager), 2);
}

#[test]
fn test_peer_manager_removes_enough_peers_when_one_is_unhealthy() {
    let mut peer_manager = build_peer_manager(3);
    let mut scores = ScoreBook::new();

    // Create 5 peers to connect to.
    // One will be unhealthy inbound only and outbound only peers.
    let peer0 = 10;
    let peer1 = 11;
    let peer2 = 12;
    let inbound_only_peer1 = 13;
    let outbound_only_peer1 = 14;

    peer_manager.inject_connect_ingoing(peer0, any_address(), None);
    peer_manager.inject_connect_ingoing(peer1, any_address(), None);
    peer_manager.inject_connect_ingoing(peer2, any_address(), None);
    peer_manager.inject_connect_outgoing(outbound_only_peer1, any_address(), None);
    // Have one peer be on the verge of disconnection.
    peer_manager.inject_connect_ingoing(inbound_only_peer1, any_address(), None);
    scores.add_to_score(&mut peer_manager, inbound_only_peer1, -19.9);
    scores.set_gossipsub_score(inbound_only_peer1, -85.0);

    scores.heartbeat(&mut peer_manager);
    // Tests that when we are over the target peer limit, after disconnecting an unhealthy peer,
    // the number of connected peers updates and we will not remove too many peers.
    assert_eq!(connected_or_dialing_peers(&peer_manager), 3);
}

#[test]
fn peers_with_duties_are_not_let_go() {
    let mut manager = build_peer_manager(2);
    let scores = ScoreBook::new();
    for id in 1..6 {
        manager.inject_connect_ingoing(id, any_address(), None);
    }
    // Needed until now, until later, until earlier.
    manager.network_globals.peers.update_min_ttl(1, 100);
    manager.network_globals.peers.update_min_ttl(2, 200);
    manager.network_globals.peers.update_min_ttl(3, 99);
    // A shorter need does not replace a longer one.
    manager.network_globals.peers.update_min_ttl(2, 50);
    let updates = scores.updates(&manager);
    manager.heartbeat(100, &updates);
    assert!(manager.is_connected(1));
    assert!(manager.is_connected(2));
    assert!(!manager.is_connected(3));
    assert!(!manager.is_connected(4));
    assert!(!manager.is_connected(5));
    // Fewer peers than wanted can be let go.
    let mut manager = build_peer_manager(1);
    for id in 1..4 {
        manager.inject_connect_ingoing(id, any_address(), None);
        manager.network_globals.peers.update_min_ttl(id, 1000);
    }
    let updates = scores.updates(&manager);
    manager.heartbeat(100, &updates);
    assert_eq!(manager.network_globals.peers.count(PeerClass::Connected), 3);
}

#[test]
fn the_worst_peers_are_let_go_first() {
    let mut manager = build_peer_manager(2);
    let mut scores = ScoreBook::new();
    for id in 1..6 {
        manager.inject_connect_ingoing(id, any_address(), None);
    }
    scores.add_to_score(&mut manager, 1, 5.0);
    scores.add_to_score(&mut manager, 2, -7.0);
    scores.add_to_score(&mut manager, 3, 0.5);
    scores.add_to_score(&mut manager, 4, -3.0);
    scores.add_to_score(&mut manager, 5, 4.0);
    assert_eq!(manager.network_globals.peers.worst_connected_peers(), vec![2, 4, 3, 5, 1]);
    assert_eq!(manager.excess_peers(&vec![2, 4, 3, 5, 1], 0), vec![2, 4, 3]);
    scores.heartbeat(&mut manager);
    assert!(manager.is_connected(1) && manager.is_connected(5));
    assert_eq!(
        drain(&mut manager),
        vec![
            // There are enough peers, but none of them is outbound-only.
            PeerManagerEvent::DiscoverPeers,
            PeerManagerEvent::DisconnectPeer(2, GoodbyeReason::TooManyPeers),
            PeerManagerEvent::DisconnectPeer(4, GoodbyeReason::TooManyPeers),
            PeerManagerEvent::DisconnectPeer(3, GoodbyeReason::TooManyPeers),
        ]
    );
}

#[test]
fn heartbeats_look_for_peers_only_where_they_lack() {
    let mut manager = build_peer_manager(3);
    let scores = ScoreBook::new();
    scores.heartbeat(&mut manager);
    assert_eq!(drain(&mut manager), vec![PeerManagerEvent::DiscoverPeers]);

    // Dialed peers count, and one outbound-only peer is enough.
    manager.inject_dialing(1, None);
    manager.inject_connect_ingoing(2, any_address(), None);
    manager.inject_connect_outgoing(3, any_address(), None);
    scores.heartbeat(&mut manager);
    assert_eq!(drain(&mut manager), vec![]);

    manager.discovery_enabled = false;
    manager.inject_disconnect(2);
    scores.heartbeat(&mut manager);
    assert_eq!(drain(&mut manager), vec![]);
}

#[test]
fn sync_committee_subnets_are_maintained() {
    let mut manager = build_peer_manager(3);
    manager.add_sync_subnet(7, 500);
    manager.add_sync_subnet(8, 600);
    manager.add_sync_subnet(9, 100);
    // Of two times the later one counts.
    manager.add_sync_subnet(7, 400);
    manager.add_sync_subnet(8, 700);
    // Two good peers on subnet 8.
    for id in 1..3 {
        manager.inject_connect_ingoing(id, any_address(), None);
        manager.add_subscription(id, Subnet::SyncCommittee(8));
    }
    // On subnet 7, one peer with a bad gossipsub score and one that is not connected.
    manager.inject_connect_ingoing(3, any_address(), None);
    manager.add_subscription(3, Subnet::SyncCommittee(7));
    manager.network_globals.peers.set_score(
        3,
        Score { rank: 0, state: ScoreState::Healthy, good_gossipsub: false },
    );
    manager.inject_dialing(4, None);
    manager.add_subscription(4, Subnet::SyncCommittee(7));

    manager.maintain_sync_committee_peers(100);
    let events = drain(&mut manager);
    assert_eq!(events.len(), 1);
    match &events[0] {
        PeerManagerEvent::DiscoverSubnetPeers(requests) => {
            assert_eq!(requests.len(), 1);
            assert_eq!(requests[0].subnet, Subnet::SyncCommittee(7));
            assert_eq!(requests[0].min_ttl, Some(500));
        }
        other => panic!("unexpected event: {:?}", other),
    }
    assert_eq!(manager.sync_committee_subnets.get(&8), Some(&700));
    assert_eq!(manager.sync_committee_subnets.get(&9), None);

    // Nothing is needed any more.
    manager.maintain_sync_committee_peers(700);
    assert_eq!(drain(&mut manager), vec![]);
    assert!(manager.sync_committee_subnets.is_empty());
}

#[test]
fn score_metrics_name_places_and_clients() {
    assert_eq!(score_distribution(&vec![]), vec![]);
    assert_eq!(score_distribution(&vec![9]), vec![(ScoreQuantile::First, 9)]);
    assert_eq!(
        score_distribution(&vec![9, 8]),
        vec![(ScoreQuantile::First, 9), (ScoreQuantile::Last, 8)]
    );
    assert_eq!(
        score_distribution(&vec![1, 2, 3, 4]),
        vec![
            (ScoreQuantile::First, 1),
            (ScoreQuantile::Half, 2),
            (ScoreQuantile::ThreeQuarters, 3),
            (ScoreQuantile::Last, 4),
        ]
    );
    assert_eq!(
        score_distribution(&vec![1, 2, 3, 4, 5, 6, 7, 8, 9, 10, 11, 12]),
        vec![
            (ScoreQuantile::First, 1),
            (ScoreQuantile::Quarter, 3),
            (ScoreQuantile::Half, 6),
            (ScoreQuantile::ThreeQuarters, 9),
            (ScoreQuantile::Last, 12),
        ]
    );

    let mut manager = build_peer_manager(10);
    let mut scores = ScoreBook::new();
    for id in 1..5 {
        manager.inject_connect_ingoing(id, any_address(), None);
        scores.add_to_score(&mut manager, id, id as f64);
    }
    let teku = Client { kind: ClientKind::Teku, agent_version: "teku/21".to_string() };
    manager.identify(2, teku.clone(), vec![any_address()]);
    manager.identify(3, teku, vec![any_address()]);
    let metrics = manager.update_peer_score_metrics();
    assert_eq!(
        metrics.distribution,
        vec![
            (ScoreQuantile::First, 4),
            (ScoreQuantile::Half, 3),
            (ScoreQuantile::ThreeQuarters, 2),
            (ScoreQuantile::Last, 1),
        ]
    );
    assert_eq!(metrics.per_client.len(), 2);
    for group in &metrics.per_client {
        match group.kind {
            ClientKind::Teku => assert_eq!(group.peers, vec![3, 2]),
            ClientKind::Unknown => assert_eq!(group.peers, vec![4, 1]),
            other => panic!("unexpected client: {:?}", other),
        }
    }
    let updates = scores.updates(&manager);
    let metrics = manager.heartbeat(0, &updates);
    assert_eq!(metrics.distribution.len(), 4);
}
