//! Reports, score updates, bans and gossipsub scores.

use peer_manager::event::{MetricUpdate, PeerManagerEvent};
use peer_manager::gossip::GossipsubScore;
use peer_manager::manager::{NetworkGlobals, PeerManager};
use peer_manager::peer_info::PeerConnectionStatus;
use peer_manager::peerdb::{BanResult, PeerDB, UnbanError};
use peer_manager::{
    ClientKind, ConnectionDirection, GoodbyeReason, IpAddr, Multiaddr, NetworkConfig, PeerAction,
    PeerId, Protocol, RPCError, RPCResponseErrorCode, ReportSource, Score, ScoreOutlook,
    ScoreState, SyncState,
};

fn manager(target: usize) -> PeerManager {
    PeerManager::new(
        &NetworkConfig { target_peers: target, disable_discovery: true, target_subnet_peers: 2 },
        NetworkGlobals {
            peers: PeerDB::new(5),
            sync_state: SyncState::Synced,
            local_udp_port: None,
        },
    )
}

fn address() -> Multiaddr {
    Multiaddr { bytes: vec![1], ip: Some(IpAddr::V6(1)) }
}

fn score(rank: i64, state: ScoreState) -> Score {
    Score { rank, state, good_gossipsub: true }
}

const HEALTHY: ScoreState = ScoreState::Healthy;
const DISCONNECTED: ScoreState = ScoreState::Disconnected;
const BANNED: ScoreState = ScoreState::Banned;

fn outlook() -> ScoreOutlook {
    ScoreOutlook {
        low_tolerance: score(-60, BANNED),
        mid_tolerance: score(-30, DISCONNECTED),
        high_tolerance: score(-1, HEALTHY),
    }
}

fn drain(manager: &mut PeerManager) -> Vec<PeerManagerEvent> {
    let mut events = Vec::new();
    while let Some(event) = manager.events.pop() {
        events.push(event);
    }
    events
}

fn status(manager: &PeerManager, id: PeerId) -> PeerConnectionStatus {
    manager.network_globals.peers.peer_info(id).unwrap().connection_status
}

fn score_of(manager: &PeerManager, id: PeerId) -> Score {
    manager.network_globals.peers.peer_info(id).unwrap().score
}

#[test]
fn reports_change_scores() {
    let mut m = manager(10);
    m.inject_connect_ingoing(1, address(), None);
    m.report_peer(1, PeerAction::HighToleranceError, ReportSource::Gossipsub, &outlook());
    assert_eq!(score_of(&m, 1), score(-1, HEALTHY));
    assert_eq!(drain(&mut m), vec![]);
    assert_eq!(
        m.take_metrics(),
        vec![MetricUpdate::PeerAction(
            ClientKind::Unknown,
            PeerAction::HighToleranceError,
            ReportSource::Gossipsub
        )]
    );
    m.report_peer(1, PeerAction::MidToleranceError, ReportSource::SyncService, &outlook());
    assert_eq!(score_of(&m, 1), score(-30, DISCONNECTED));
    assert_eq!(drain(&mut m), vec![PeerManagerEvent::DisconnectPeer(1, GoodbyeReason::BadScore)]);
    assert_eq!(status(&m, 1), PeerConnectionStatus::Disconnecting { to_ban: false });
    m.report_peer(1, PeerAction::LowToleranceError, ReportSource::RPC, &outlook());
    assert_eq!(score_of(&m, 1), score(-60, BANNED));
    assert_eq!(status(&m, 1), PeerConnectionStatus::Disconnecting { to_ban: true });
    assert_eq!(drain(&mut m), vec![]);
    m.inject_disconnect(1);
    assert_eq!(drain(&mut m), vec![PeerManagerEvent::Banned(1, vec![])]);
}

#[test]
fn fatal_reports_ban() {
    let mut m = manager(10);
    m.inject_connect_ingoing(1, address(), None);
    m.report_peer(1, PeerAction::Fatal, ReportSource::RPC, &outlook());
    assert_eq!(m.ban_status(1), BanResult::BadScore);
    assert_eq!(score_of(&m, 1).rank, i64::MIN);
    assert_eq!(drain(&mut m), vec![PeerManagerEvent::DisconnectPeer(1, GoodbyeReason::BadScore)]);
}

#[test]
fn reports_of_unknown_peers_put_them_down() {
    let mut m = manager(10);
    m.report_peer(1, PeerAction::Fatal, ReportSource::RPC, &outlook());
    assert_eq!(status(&m, 1), PeerConnectionStatus::Unknown);
    assert_eq!(score_of(&m, 1), Score::neutral());
    assert_eq!(m.ban_status(1), BanResult::NotBanned);
    assert_eq!(drain(&mut m), vec![]);
    assert_eq!(m.take_metrics(), vec![]);
}

#[test]
fn failed_requests_are_weighed() {
    let protocols = [
        Protocol::Status,
        Protocol::Goodbye,
        Protocol::BlocksByRange,
        Protocol::BlocksByRoot,
        Protocol::Ping,
        Protocol::MetaData,
    ];
    let low = Some(PeerAction::LowToleranceError);
    let mid = Some(PeerAction::MidToleranceError);
    let high = Some(PeerAction::HighToleranceError);
    let fatal = Some(PeerAction::Fatal);
    let directions = [ConnectionDirection::Incoming, ConnectionDirection::Outgoing];
    // The same for all protocols.
    for protocol in protocols {
        for direction in directions {
            let action = |err| PeerManager::rpc_error_action(protocol, err, direction);
            assert_eq!(action(RPCError::IncompleteStream), mid);
            assert_eq!(action(RPCError::InternalError), None);
            assert_eq!(action(RPCError::HandlerRejected), None);
            assert_eq!(action(RPCError::InvalidData), fatal);
            assert_eq!(action(RPCError::SSZDecodeError), fatal);
            assert_eq!(action(RPCError::IoError), high);
            assert_eq!(action(RPCError::NegotiationTimeout), low);
            assert_eq!(action(RPCError::Disconnected), None);
            let response = |code| action(RPCError::ErrorResponse(code));
            assert_eq!(response(RPCResponseErrorCode::Unknown), high);
            assert_eq!(response(RPCResponseErrorCode::ResourceUnavailable), fatal);
            assert_eq!(response(RPCResponseErrorCode::ServerError), mid);
            assert_eq!(response(RPCResponseErrorCode::InvalidRequest), low);
        }
    }
    // Different ones: status, goodbye, blocks by range, blocks by root, ping, metadata.
    let rate_limited = RPCError::ErrorResponse(RPCResponseErrorCode::RateLimited);
    let table = [
        (rate_limited, [low, low, mid, mid, mid, low]),
        (RPCError::UnsupportedProtocol, [low, None, None, None, fatal, low]),
        (RPCError::StreamTimeout, [None, None, mid, mid, low, None]),
    ];
    for (err, row) in table {
        for (i, protocol) in protocols.iter().enumerate() {
            assert_eq!(
                PeerManager::rpc_error_action(*protocol, err, ConnectionDirection::Outgoing),
                row[i]
            );
        }
    }
    for protocol in protocols {
        assert_eq!(
            PeerManager::rpc_error_action(
                protocol,
                RPCError::StreamTimeout,
                ConnectionDirection::Incoming
            ),
            None
        );
    }
}

#[test]
fn failed_requests_are_reported() {
    let mut m = manager(10);
    m.inject_connect_outgoing(1, address(), None);
    let action = m.handle_rpc_error(
        1,
        Protocol::Ping,
        RPCError::Disconnected,
        ConnectionDirection::Outgoing,
        &outlook(),
    );
    assert_eq!(action, None);
    assert_eq!(score_of(&m, 1), Score::neutral());
    let action = m.handle_rpc_error(
        1,
        Protocol::Ping,
        RPCError::IncompleteStream,
        ConnectionDirection::Outgoing,
        &outlook(),
    );
    assert_eq!(action, Some(PeerAction::MidToleranceError));
    assert_eq!(score_of(&m, 1), score(-30, DISCONNECTED));
    assert_eq!(
        m.take_metrics(),
        vec![
            MetricUpdate::RpcError(
                ClientKind::Unknown,
                RPCError::Disconnected,
                ConnectionDirection::Outgoing
            ),
            MetricUpdate::RpcError(
                ClientKind::Unknown,
                RPCError::IncompleteStream,
                ConnectionDirection::Outgoing
            ),
            MetricUpdate::PeerAction(
                ClientKind::Unknown,
                PeerAction::MidToleranceError,
                ReportSource::RPC
            ),
        ]
    );
}

#[test]
fn score_updates_drop_ban_and_unban() {
    let mut m = manager(10);
    for id in 1..6 {
        m.inject_connect_ingoing(id, address(), None);
    }
    // Peer 4 is banned by now, and gone; peer 5 is gone.
    m.goodbye_peer(4, GoodbyeReason::Fault, ReportSource::RPC);
    m.inject_disconnect(4);
    m.inject_disconnect(5);
    drain(&mut m);
    m.update_peer_scores(&vec![
        (1, score(-30, DISCONNECTED)),
        (2, score(-60, BANNED)),
        (3, score(2, HEALTHY)),
        (4, score(-25, DISCONNECTED)),
        (5, score(-70, BANNED)),
        (77, score(-70, BANNED)),
    ]);
    assert_eq!(
        drain(&mut m),
        vec![
            PeerManagerEvent::DisconnectPeer(1, GoodbyeReason::BadScore),
            PeerManagerEvent::DisconnectPeer(2, GoodbyeReason::BadScore),
            PeerManagerEvent::Banned(5, vec![]),
            PeerManagerEvent::UnBanned(4, vec![IpAddr::V6(1)]),
        ]
    );
    assert!(!m.is_connected(1) && !m.is_connected(2) && m.is_connected(3));
    assert_eq!(status(&m, 4), PeerConnectionStatus::Disconnected);
    assert_eq!(status(&m, 5), PeerConnectionStatus::Banned);
    assert!(m.network_globals.peers.peer_info(77).is_none());
    // A score that recovers further has no effect but on itself.
    m.update_peer_scores(&vec![(4, score(-2, HEALTHY))]);
    assert_eq!(drain(&mut m), vec![]);
    assert_eq!(status(&m, 4), PeerConnectionStatus::Disconnected);
    // A ban that heals at once.
    m.update_peer_scores(&vec![(5, score(0, HEALTHY))]);
    assert_eq!(drain(&mut m), vec![PeerManagerEvent::UnBanned(5, vec![IpAddr::V6(1)])]);
}

#[test]
fn dialed_peers_are_dropped_too() {
    let mut m = manager(10);
    m.inject_dialing(1, None);
    m.update_peer_scores(&vec![(1, score(-30, DISCONNECTED))]);
    assert_eq!(drain(&mut m), vec![PeerManagerEvent::DisconnectPeer(1, GoodbyeReason::BadScore)]);
    // In the same state as before, nothing more happens.
    m.update_peer_scores(&vec![(1, score(-31, DISCONNECTED))]);
    assert_eq!(drain(&mut m), vec![]);
}

#[test]
fn unbanning_asks_for_a_ban_and_a_better_score() {
    let mut m = manager(10);
    assert_eq!(m.unban_peer(1), Err(UnbanError::NotBanned));
    m.inject_connect_ingoing(1, address(), None);
    assert_eq!(m.unban_peer(1), Err(UnbanError::NotBanned));
    m.goodbye_peer(1, GoodbyeReason::Fault, ReportSource::RPC);
    assert_eq!(m.unban_peer(1), Err(UnbanError::NotBanned));
    m.inject_disconnect(1);
    assert_eq!(m.unban_peer(1), Err(UnbanError::BadScore));
    assert_eq!(status(&m, 1), PeerConnectionStatus::Banned);
    drain(&mut m);
    m.network_globals.peers.set_score(1, score(-20, DISCONNECTED));
    assert_eq!(m.unban_peer(1), Ok(()));
    assert_eq!(drain(&mut m), vec![PeerManagerEvent::UnBanned(1, vec![IpAddr::V6(1)])]);
    assert_eq!(status(&m, 1), PeerConnectionStatus::Disconnected);
    // What cannot be unbanned is passed over.
    m.ban_and_unban_peers(&vec![2], &vec![1, 2]);
    assert_eq!(drain(&mut m), vec![PeerManagerEvent::Banned(2, vec![])]);
}

fn gossip(peer_id: PeerId, value: i64) -> GossipsubScore {
    GossipsubScore {
        peer_id,
        value,
        counted: if value < 0 { score(value, DISCONNECTED) } else { score(value, HEALTHY) },
        ignored: score(0, HEALTHY),
    }
}

#[test]
fn the_best_negative_gossipsub_scores_are_let_pass() {
    // Of a target of twenty, two may be negative.
    let mut m = manager(20);
    for id in 1..6 {
        m.inject_connect_ingoing(id, address(), None);
    }
    let let_pass = m.update_gossipsub_scores(&vec![
        gossip(1, -40),
        gossip(2, 7),
        gossip(3, -10),
        gossip(4, -30),
        gossip(5, -20),
        gossip(99, -5),
    ]);
    assert_eq!(let_pass, vec![3, 5]);
    assert_eq!(score_of(&m, 2), score(7, HEALTHY));
    assert_eq!(score_of(&m, 3), score(0, HEALTHY));
    assert_eq!(score_of(&m, 5), score(0, HEALTHY));
    assert_eq!(score_of(&m, 4), score(-30, DISCONNECTED));
    assert_eq!(score_of(&m, 1), score(-40, DISCONNECTED));
    assert!(m.network_globals.peers.peer_info(99).is_none());
    assert_eq!(
        drain(&mut m),
        vec![
            PeerManagerEvent::DisconnectPeer(4, GoodbyeReason::BadScore),
            PeerManagerEvent::DisconnectPeer(1, GoodbyeReason::BadScore),
        ]
    );
    let scores = vec![gossip(1, 3), gossip(2, -1)];
    let (updates, let_pass) = PeerManager::ignore_best_negatives(&scores, 0);
    assert_eq!(updates, vec![(1, score(3, HEALTHY)), (2, score(-1, DISCONNECTED))]);
    assert_eq!(let_pass, vec![]);
    // The last score is let pass too, if it is among the first negative ones.
    let (updates, let_pass) = PeerManager::ignore_best_negatives(&scores, 7);
    assert_eq!(updates, vec![(1, score(3, HEALTHY)), (2, score(0, HEALTHY))]);
    assert_eq!(let_pass, vec![2]);
    let (_, let_pass) = PeerManager::ignore_best_negatives(&vec![gossip(4, -9)], 1);
    assert_eq!(let_pass, vec![4]);
}

#[test]
fn reports_and_bans_leave_others_alone() {
    let mut m = manager(10);
    for id in 1..4 {
        m.inject_connect_ingoing(id, address(), None);
    }
    m.report_peer(1, PeerAction::LowToleranceError, ReportSource::RPC, &outlook());
    m.ban_peer(2, GoodbyeReason::Fault);
    assert!(m.is_connected(3));
    assert_eq!(score_of(&m, 3), Score::neutral());
    assert_eq!(m.ban_status(3), BanResult::NotBanned);
}

#[test]
fn bans_go_with_scores() {
    let mut m = manager(10);
    for id in 1..6 {
        m.inject_connect_ingoing(id, address(), None);
        m.inject_connect_ingoing(id, address(), None);
        m.goodbye_peer(id, GoodbyeReason::Fault, ReportSource::RPC);
        m.inject_disconnect(id);
    }
    // One peer more than once.
    m.update_peer_scores(&vec![
        (1, score(0, HEALTHY)),
        (1, score(-60, BANNED)),
        (2, score(-60, BANNED)),
        (2, score(0, HEALTHY)),
        (3, score(-30, DISCONNECTED)),
        (3, score(0, HEALTHY)),
        (4, score(-99, BANNED)),
    ]);
    for id in 1..6 {
        let info = m.network_globals.peers.peer_info(id).unwrap();
        assert_eq!(info.is_banned(), info.score.state == BANNED);
        assert_eq!(info.seen_addresses, vec![IpAddr::V6(1)]);
    }
    assert_eq!(status(&m, 1), PeerConnectionStatus::Banned);
    assert_eq!(status(&m, 2), PeerConnectionStatus::Disconnected);
    assert_eq!(status(&m, 3), PeerConnectionStatus::Disconnected);
}
