//! Dialing discovered peers, and the order in which a poll looks at things.

use peer_manager::event::{PeerManagerEvent, TimerCommand};
use peer_manager::manager::{NetworkGlobals, PeerManager};
use peer_manager::peerdb::PeerDB;
use peer_manager::poll::{PeerTimer, PollStep, Polled, TimerPoll};
use peer_manager::{
    GoodbyeReason, Multiaddr, NetworkConfig, ReportSource, Score, ScoreState, SyncState,
};

fn manager(target: usize) -> PeerManager {
    PeerManager::new(
        &NetworkConfig { target_peers: target, disable_discovery: false, target_subnet_peers: 2 },
        NetworkGlobals {
            peers: PeerDB::new(5),
            sync_state: SyncState::Synced,
            local_udp_port: None,
        },
    )
}

fn address() -> Multiaddr {
    Multiaddr { bytes: vec![], ip: None }
}

fn drain(manager: &mut PeerManager) -> Vec<PeerManagerEvent> {
    let mut events = Vec::new();
    while let Some(event) = manager.events.pop() {
        events.push(event);
    }
    events
}

#[test]
fn dialing_keeps_to_the_usual_limit() {
    // Up to eleven peers, and up to twelve for duties.
    let mut m = manager(10);
    for id in 1..10 {
        m.inject_connect_outgoing(id, address(), None);
    }
    let results = vec![(20, None), (21, None), (22, None), (23, Some(500)), (24, Some(600))];
    assert_eq!(m.peers_discovered(&results), vec![20, 21, 23]);
    // Those to be dialed are counted, so that no more are needed.
    assert_eq!(drain(&mut m), vec![]);
    let noted = m.network_globals.peers.peer_info(23).unwrap();
    assert_eq!(noted.min_ttl, Some(500));
    assert!(m.network_globals.peers.peer_info(20).is_none());
    assert!(m.network_globals.peers.peer_info(24).is_none());
}

#[test]
fn only_suitable_peers_are_dialed() {
    let mut m = manager(10);
    m.inject_connect_ingoing(1, address(), None);
    m.inject_dialing(2, None);
    m.goodbye_peer(3, GoodbyeReason::Fault, ReportSource::RPC);
    m.inject_connect_ingoing(4, address(), None);
    m.inject_disconnect(4);
    m.inject_connect_ingoing(5, address(), None);
    m.inject_disconnect(5);
    let low = Score { rank: -30, state: ScoreState::Disconnected, good_gossipsub: true };
    m.network_globals.peers.set_score(5, low);
    drain(&mut m);
    let results = vec![(1, Some(9)), (2, None), (3, Some(9)), (4, None), (5, None), (6, None)];
    assert_eq!(m.peers_discovered(&results), vec![4, 6]);
    // There are too few still.
    assert_eq!(drain(&mut m), vec![PeerManagerEvent::DiscoverPeers]);
    assert_eq!(m.network_globals.peers.peer_info(1).unwrap().min_ttl, None);
    m.discovery_enabled = false;
    assert_eq!(m.peers_discovered(&vec![]), vec![]);
    assert_eq!(drain(&mut m), vec![]);
}

#[test]
fn too_few_outbound_peers_keep_discovery_going() {
    let mut m = manager(3);
    for id in 1..4 {
        m.inject_connect_ingoing(id, address(), None);
    }
    assert!(m.lacks_peers(3));
    assert_eq!(m.peers_discovered(&vec![]), vec![]);
    assert_eq!(drain(&mut m), vec![PeerManagerEvent::DiscoverPeers]);
    m.inject_connect_outgoing(4, address(), None);
    assert!(!m.lacks_peers(4));
    assert!(m.lacks_peers(5));
    assert_eq!(m.peers_discovered(&vec![]), vec![]);
    assert_eq!(drain(&mut m), vec![]);
}

#[test]
fn polls_go_from_heartbeat_to_event() {
    let mut m = manager(3);
    assert!(matches!(m.poll_next(Polled::Heartbeat(true)), PollStep::RunHeartbeat));
    let idle = TimerPoll::Idle;
    assert!(matches!(
        m.poll_next(Polled::Heartbeat(false)),
        PollStep::PollTimer(PeerTimer::InboundPing)
    ));
    assert!(matches!(
        m.poll_next(Polled::Timer(PeerTimer::InboundPing, TimerPoll::Expired(1))),
        PollStep::PollTimer(PeerTimer::InboundPing)
    ));
    assert!(matches!(
        m.poll_next(Polled::Timer(PeerTimer::InboundPing, TimerPoll::Failed)),
        PollStep::PollTimer(PeerTimer::InboundPing)
    ));
    assert!(matches!(
        m.poll_next(Polled::Timer(PeerTimer::InboundPing, idle)),
        PollStep::PollTimer(PeerTimer::OutboundPing)
    ));
    assert!(matches!(
        m.poll_next(Polled::Timer(PeerTimer::OutboundPing, TimerPoll::Expired(2))),
        PollStep::PollTimer(PeerTimer::OutboundPing)
    ));
    assert!(matches!(
        m.poll_next(Polled::Timer(PeerTimer::OutboundPing, idle)),
        PollStep::PollTimer(PeerTimer::Status)
    ));
    assert!(matches!(
        m.poll_next(Polled::Timer(PeerTimer::Status, TimerPoll::Expired(3))),
        PollStep::PollTimer(PeerTimer::Status)
    ));
    assert_eq!(m.inbound_ping_peers.take_commands(), vec![TimerCommand::Start(1)]);
    assert_eq!(m.outbound_ping_peers.take_commands(), vec![TimerCommand::Start(2)]);
    assert_eq!(m.status_peers.take_commands(), vec![TimerCommand::Start(3)]);
    for expected in [
        PeerManagerEvent::Ping(1),
        PeerManagerEvent::Ping(2),
        PeerManagerEvent::Status(3),
    ] {
        match m.poll_next(Polled::Timer(PeerTimer::Status, idle)) {
            PollStep::Ready(event) => assert_eq!(event, expected),
            other => panic!("unexpected step: {:?}", other),
        }
    }
    assert!(matches!(m.poll_next(Polled::Timer(PeerTimer::Status, idle)), PollStep::Pending));
}

#[test]
fn no_status_is_sent_during_a_sync() {
    let idle = Polled::Timer(PeerTimer::OutboundPing, TimerPoll::Idle);
    for (state, syncing) in [
        (SyncState::SyncingFinalized, true),
        (SyncState::SyncingHead, true),
        (SyncState::SyncTransition, false),
        (SyncState::Synced, false),
        (SyncState::Stalled, false),
    ] {
        let mut m = manager(3);
        m.network_globals.sync_state = state;
        match m.poll_next(idle) {
            PollStep::Pending => assert!(syncing),
            PollStep::PollTimer(PeerTimer::Status) => assert!(!syncing),
            other => panic!("unexpected step: {:?}", other),
        }
        m.events.push(PeerManagerEvent::DiscoverPeers);
        match m.poll_next(idle) {
            PollStep::Ready(event) => assert!(syncing && event == PeerManagerEvent::DiscoverPeers),
            PollStep::PollTimer(PeerTimer::Status) => assert!(!syncing),
            other => panic!("unexpected step: {:?}", other),
        }
    }
}
