//! Connections, identities, pings and announcements.

use peer_manager::event::{MetricUpdate, PeerManagerEvent, TimerCommand};
use peer_manager::manager::{
    ConnectingType, NetworkGlobals, PeerManager, HEARTBEAT_INTERVAL, PING_INTERVAL_INBOUND,
    PING_INTERVAL_OUTBOUND, STATUS_INTERVAL,
};
use peer_manager::peer_info::PeerConnectionStatus;
use peer_manager::peerdb::{BanResult, PeerClass, PeerDB};
use peer_manager::{
    Client, ClientKind, ConnectedPoint, ConnectionDirection, Enr, GoodbyeReason, IpAddr, MetaData,
    Multiaddr, NetworkConfig, PeerAction, PeerId, PeerSyncStatus, ReportSource, Score, ScoreState,
    Subnet, SyncState,
};

fn manager(target: usize, banned_peers_per_ip: usize) -> PeerManager {
    PeerManager::new(
        &NetworkConfig { target_peers: target, disable_discovery: false, target_subnet_peers: 2 },
        NetworkGlobals {
            peers: PeerDB::new(banned_peers_per_ip),
            sync_state: SyncState::Synced,
            local_udp_port: None,
        },
    )
}

fn address(last: u8) -> Multiaddr {
    Multiaddr {
        bytes: vec![4, 10, 0, 0, last],
        ip: Some(IpAddr::V4(u32::from_be_bytes([10, 0, 0, last]))),
    }
}

fn listener(last: u8) -> ConnectedPoint {
    ConnectedPoint::Listener { send_back_addr: address(last) }
}

fn dialer(last: u8) -> ConnectedPoint {
    ConnectedPoint::Dialer { address: address(last) }
}

fn drain(manager: &mut PeerManager) -> Vec<PeerManagerEvent> {
    let mut events = Vec::new();
    while let Some(event) = manager.events.pop() {
        events.push(event);
    }
    events
}

fn status(manager: &PeerManager, id: PeerId) -> PeerConnectionStatus {
    manager.network_globals.peers.peer_info(id).unwrap().connection_status
}

fn score(rank: i64, state: ScoreState) -> Score {
    Score { rank, state, good_gossipsub: true }
}

#[test]
fn a_manager_starts_empty() {
    let mut m = PeerManager::new(
        &NetworkConfig { target_peers: 7, disable_discovery: true, target_subnet_peers: 4 },
        NetworkGlobals {
            peers: PeerDB::new(5),
            sync_state: SyncState::SyncingHead,
            local_udp_port: Some(1),
        },
    );
    assert_eq!(m.target_peers, 7);
    assert_eq!(m.target_subnet_peers, 4);
    assert!(!m.discovery_enabled);
    assert_eq!(m.max_peers(), 8);
    assert_eq!(m.max_priority_peers(), 9);
    assert_eq!(m.inbound_ping_peers.interval, 20);
    assert_eq!(m.outbound_ping_peers.interval, 15);
    assert_eq!(m.status_peers.interval, 300);
    assert_eq!(PING_INTERVAL_INBOUND, 20);
    assert_eq!(PING_INTERVAL_OUTBOUND, 15);
    assert_eq!(STATUS_INTERVAL, 300);
    assert_eq!(HEARTBEAT_INTERVAL, 30);
    assert_eq!(drain(&mut m), vec![]);
    assert_eq!(m.take_metrics(), vec![]);
    assert!(!m.is_connected(1));
    assert_eq!(m.ban_status(1), BanResult::NotBanned);
}

#[test]
fn first_connections_are_made_known() {
    let mut m = manager(10, 5);
    m.network_globals.local_udp_port = Some(9000);
    m.inject_connection_established(1, listener(1), 1, None, 0);
    m.inject_connection_established(2, dialer(2), 1, Some(Enr { text: "enr:-x".to_string() }), 0);
    m.inject_connection_established(1, dialer(1), 2, None, 0);
    assert_eq!(
        drain(&mut m),
        vec![
            PeerManagerEvent::PeerConnectedIncoming(1),
            PeerManagerEvent::PeerConnectedOutgoing(2),
        ]
    );
    assert_eq!(status(&m, 1), PeerConnectionStatus::Connected { n_in: 1, n_out: 1 });
    assert_eq!(status(&m, 2), PeerConnectionStatus::Connected { n_in: 0, n_out: 1 });
    let info = m.network_globals.peers.peer_info(1).unwrap();
    assert_eq!(info.connection_direction, Some(ConnectionDirection::Incoming));
    assert_eq!(info.seen_addresses, vec![IpAddr::V4(0x0a00_0001)]);
    assert_eq!(m.network_globals.peers.peer_info(2).unwrap().enr.as_ref().unwrap().text, "enr:-x");
    assert_eq!(m.network_globals.peers.count(PeerClass::OutboundOnly), 1);
    assert_eq!(
        m.take_metrics(),
        vec![
            MetricUpdate::CheckNat,
            MetricUpdate::InboundOpened,
            MetricUpdate::ClientConnected(ClientKind::Unknown),
            MetricUpdate::PeerConnectEvent,
            MetricUpdate::PeersConnected(1),
            MetricUpdate::CheckNat,
            MetricUpdate::OutboundOpened,
            MetricUpdate::ClientConnected(ClientKind::Unknown),
            MetricUpdate::PeerConnectEvent,
            MetricUpdate::PeersConnected(2),
            MetricUpdate::CheckNat,
            MetricUpdate::OutboundOpened,
            MetricUpdate::ClientConnected(ClientKind::Unknown),
        ]
    );
    assert_eq!(m.take_metrics(), vec![]);
    assert_eq!(m.inbound_ping_peers.take_commands(), vec![TimerCommand::Start(1)]);
    assert_eq!(
        m.outbound_ping_peers.take_commands(),
        vec![TimerCommand::Start(2), TimerCommand::Start(1)]
    );
    assert_eq!(m.outbound_ping_peers.take_commands(), vec![]);
    assert!(m.status_peers.waiting.contains(&1) && m.status_peers.waiting.contains(&2));
}

#[test]
fn peers_beyond_the_limit_are_turned_away() {
    let mut m = manager(2, 5);
    for id in 1..4 {
        assert!(!m.peer_limit_reached());
        m.inject_connection_established(id, listener(id as u8), 1, None, 0);
    }
    assert!(m.peer_limit_reached());
    drain(&mut m);
    m.inject_connection_established(4, listener(4), 1, None, 0);
    assert_eq!(
        drain(&mut m),
        vec![PeerManagerEvent::DisconnectPeer(4, GoodbyeReason::TooManyPeers)]
    );
    assert_eq!(status(&m, 4), PeerConnectionStatus::Disconnecting { to_ban: false });
    // Once gone it is remembered.
    m.inject_connection_closed(4, listener(4), 0);
    assert_eq!(drain(&mut m), vec![PeerManagerEvent::PeerDisconnected(4)]);
    assert_eq!(status(&m, 4), PeerConnectionStatus::Disconnected);
    // A duty opens the door.
    m.network_globals.peers.update_min_ttl(4, 50);
    m.inject_connection_established(4, dialer(4), 1, None, 50);
    assert!(m.is_connected(4));
    m.inject_connection_closed(4, dialer(4), 0);
    drain(&mut m);
    m.inject_connection_established(4, dialer(4), 1, None, 51);
    assert!(!m.is_connected(4));
}

#[test]
fn closed_connections_end_what_they_began() {
    let mut m = manager(10, 5);
    m.inject_connection_established(1, listener(1), 1, None, 0);
    m.inject_connection_established(1, listener(1), 2, None, 0);
    m.add_subscription(1, Subnet::Attestation(3));
    m.add_subscription(1, Subnet::SyncCommittee(3));
    drain(&mut m);
    m.take_metrics();
    m.inject_connection_closed(1, listener(1), 1);
    assert!(m.is_connected(1));
    assert_eq!(m.network_globals.peers.peer_info(1).unwrap().subnets.len(), 2);
    assert_eq!(drain(&mut m), vec![]);
    m.inject_connection_closed(1, listener(1), 0);
    assert_eq!(drain(&mut m), vec![PeerManagerEvent::PeerDisconnected(1)]);
    assert_eq!(
        m.take_metrics(),
        vec![
            MetricUpdate::ClientDisconnected(ClientKind::Unknown),
            MetricUpdate::PeerDisconnectEvent,
            MetricUpdate::PeersConnected(0),
            MetricUpdate::InboundClosed,
        ]
    );
    let info = m.network_globals.peers.peer_info(1).unwrap();
    assert_eq!(info.connection_status, PeerConnectionStatus::Disconnected);
    assert!(info.subnets.is_empty());
    assert!(m.inbound_ping_peers.waiting.is_empty());
    assert!(m.outbound_ping_peers.waiting.is_empty());
    assert!(m.status_peers.waiting.is_empty());
    assert_eq!(m.status_peers.take_commands().last(), Some(&TimerCommand::Stop(1)));
    // Of a peer that was never known, nothing is told, but it is put down.
    m.inject_connection_closed(9, dialer(9), 0);
    assert_eq!(drain(&mut m), vec![]);
    assert_eq!(status(&m, 9), PeerConnectionStatus::Disconnected);
    assert_eq!(m.take_metrics().last(), Some(&MetricUpdate::OutboundClosed));
}

#[test]
fn subscriptions_come_and_go() {
    let mut m = manager(10, 5);
    m.add_subscription(1, Subnet::Attestation(1));
    assert!(m.network_globals.peers.peer_info(1).is_none());
    m.inject_dialing(1, None);
    m.add_subscription(1, Subnet::Attestation(1));
    m.add_subscription(1, Subnet::Attestation(1));
    m.add_subscription(1, Subnet::SyncCommittee(1));
    m.remove_subscription(1, Subnet::Attestation(1));
    m.remove_subscription(1, Subnet::Attestation(2));
    let info = m.network_globals.peers.peer_info(1).unwrap();
    assert!(info.on_subnet(Subnet::SyncCommittee(1)));
    assert!(!info.on_subnet(Subnet::Attestation(1)));
    m.remove_all_subscriptions(1);
    assert!(m.network_globals.peers.peer_info(1).unwrap().subnets.is_empty());
    m.remove_subscription(2, Subnet::Attestation(1));
    m.remove_all_subscriptions(2);
    assert!(m.network_globals.peers.peer_info(2).is_none());
}

#[test]
fn failed_dials_leave_connected_peers_alone() {
    let mut m = manager(10, 5);
    m.inject_dialing(1, None);
    assert_eq!(status(&m, 1), PeerConnectionStatus::Dialing);
    m.inject_dial_failure(1);
    assert_eq!(status(&m, 1), PeerConnectionStatus::Disconnected);
    m.inject_dialing(2, None);
    m.inject_connection_established(2, listener(2), 1, None, 0);
    m.inject_dial_failure(2);
    assert!(m.is_connected(2));
    assert!(m.status_peers.waiting.contains(&2));
    // Dialing a connected peer leaves it connected.
    m.inject_dialing(2, None);
    assert!(m.is_connected(2));
}

#[test]
fn goodbyes_ban() {
    let mut m = manager(10, 0);
    m.inject_connection_established(1, listener(1), 1, None, 0);
    drain(&mut m);
    m.take_metrics();
    m.goodbye_peer(1, GoodbyeReason::IrrelevantNetwork, ReportSource::Processor);
    assert_eq!(
        drain(&mut m),
        vec![PeerManagerEvent::DisconnectPeer(1, GoodbyeReason::IrrelevantNetwork)]
    );
    assert_eq!(
        m.take_metrics(),
        vec![MetricUpdate::PeerAction(
            ClientKind::Unknown,
            PeerAction::Fatal,
            ReportSource::Processor
        )]
    );
    assert_eq!(status(&m, 1), PeerConnectionStatus::Disconnecting { to_ban: true });
    assert_eq!(
        m.network_globals.peers.peer_info(1).unwrap().sync_status,
        PeerSyncStatus::IrrelevantPeer
    );
    assert_eq!(m.ban_status(1), BanResult::BadScore);
    // A second goodbye has nothing to add.
    m.goodbye_peer(1, GoodbyeReason::Fault, ReportSource::RPC);
    assert_eq!(drain(&mut m), vec![]);
    m.inject_connection_closed(1, listener(1), 0);
    assert_eq!(status(&m, 1), PeerConnectionStatus::Banned);
    assert_eq!(
        drain(&mut m),
        vec![
            PeerManagerEvent::PeerDisconnected(1),
            PeerManagerEvent::Banned(1, vec![IpAddr::V4(0x0a00_0001)]),
        ]
    );
    // A peer that is not connected is banned at once.
    m.goodbye_peer(5, GoodbyeReason::Fault, ReportSource::RPC);
    assert_eq!(drain(&mut m), vec![PeerManagerEvent::Banned(5, vec![])]);
    // The score of a peer that was not told goodbye is left alone.
    m.inject_connection_established(6, listener(6), 1, None, 0);
    assert_eq!(m.network_globals.peers.peer_info(6).unwrap().score, Score::neutral());
}

#[test]
fn banned_peers_are_not_let_in() {
    let mut m = manager(10, 5);
    m.goodbye_peer(1, GoodbyeReason::Fault, ReportSource::RPC);
    drain(&mut m);
    assert!(!m.inject_connect_ingoing(1, address(1), None));
    assert!(!m.inject_connect_outgoing(1, address(1), None));
    assert_eq!(status(&m, 1), PeerConnectionStatus::Banned);
    assert!(m.status_peers.waiting.is_empty());
    m.inject_connection_established(1, listener(1), 1, None, 0);
    assert_eq!(drain(&mut m), vec![PeerManagerEvent::Banned(1, vec![])]);
    assert!(!m.is_connected(1));
    assert!(m.inject_connect_ingoing(2, address(2), None));
    assert!(m.inject_peer_connection(3, ConnectingType::Dialing, None));
}

#[test]
fn banned_peers_can_be_dialed() {
    let mut m = manager(10, 5);
    for id in 1..3 {
        m.goodbye_peer(id, GoodbyeReason::Fault, ReportSource::RPC);
    }
    drain(&mut m);
    assert!(m.inject_peer_connection(1, ConnectingType::Dialing, None));
    m.inject_dialing(2, Some(Enr { text: "enr:-y".to_string() }));
    for id in 1..3 {
        assert_eq!(status(&m, id), PeerConnectionStatus::Dialing);
        assert_eq!(m.ban_status(id), BanResult::BadScore);
    }
    assert_eq!(m.network_globals.peers.peer_info(2).unwrap().enr.as_ref().unwrap().text, "enr:-y");
    assert!(m.status_peers.waiting.is_empty());
    assert_eq!(drain(&mut m), vec![]);
    // Once it connects it is told to go again.
    m.inject_connection_established(1, dialer(1), 1, None, 0);
    assert_eq!(drain(&mut m), vec![PeerManagerEvent::DisconnectPeer(1, GoodbyeReason::Banned)]);
}

#[test]
fn banned_addresses_ban_those_who_return() {
    // An address is banned once more than one banned peer was seen on it.
    let mut m = manager(10, 1);
    for id in 1..4 {
        m.inject_connection_established(id, listener(7), 1, None, 0);
    }
    for id in 1..3 {
        assert_eq!(m.ban_status(3), BanResult::NotBanned);
        m.goodbye_peer(id, GoodbyeReason::Fault, ReportSource::RPC);
        m.inject_connection_closed(id, listener(7), 0);
    }
    let ip = IpAddr::V4(0x0a00_0007);
    assert_eq!(m.network_globals.peers.count(PeerClass::BannedOn(ip)), 2);
    assert_eq!(m.ban_status(3), BanResult::BannedIp(ip));
    // It keeps its connection.
    assert!(m.is_connected(3));
    m.inject_connection_closed(3, listener(7), 0);
    drain(&mut m);
    m.take_metrics();
    m.inject_connection_established(3, listener(7), 1, None, 0);
    assert_eq!(m.ban_status(3), BanResult::BadScore);
    assert_eq!(drain(&mut m), vec![PeerManagerEvent::Banned(3, vec![ip])]);
    assert_eq!(
        m.take_metrics().last(),
        Some(&MetricUpdate::PeerAction(
            ClientKind::Unknown,
            PeerAction::Fatal,
            ReportSource::PeerManager
        ))
    );
    // While it is connected, it is told why it has to go.
    m.inject_connection_established(4, listener(8), 1, None, 0);
    m.inject_connect_ingoing(4, address(7), None);
    drain(&mut m);
    m.inject_connection_established(4, listener(7), 2, None, 0);
    assert_eq!(
        drain(&mut m),
        vec![PeerManagerEvent::DisconnectPeer(4, GoodbyeReason::BannedIP)]
    );
}

#[test]
fn identities_are_noted() {
    let mut m = manager(10, 5);
    let teku = Client { kind: ClientKind::Teku, agent_version: "teku/21".to_string() };
    m.identify(1, teku.clone(), vec![]);
    assert!(m.network_globals.peers.peer_info(1).is_none());
    m.inject_connection_established(1, listener(1), 1, None, 0);
    m.take_metrics();
    m.identify(1, teku.clone(), vec![address(1)]);
    let info = m.network_globals.peers.peer_info(1).unwrap();
    assert_eq!(info.client.kind, ClientKind::Teku);
    assert_eq!(info.client.agent_version, "teku/21");
    assert_eq!(info.listening_addresses.len(), 1);
    assert_eq!(
        m.take_metrics(),
        vec![
            MetricUpdate::ClientConnected(ClientKind::Teku),
            MetricUpdate::ClientDisconnected(ClientKind::Unknown),
        ]
    );
    // No news.
    m.identify(1, teku.clone(), vec![address(1)]);
    assert_eq!(m.take_metrics(), vec![]);
    // Another address.
    m.identify(1, teku.clone(), vec![address(2)]);
    assert_eq!(m.take_metrics().len(), 2);
    // News of a peer that is not connected.
    m.inject_connection_closed(1, listener(1), 0);
    m.take_metrics();
    m.identify(1, Client { kind: ClientKind::Prysm, ..teku }, vec![address(2)]);
    assert_eq!(m.take_metrics(), vec![]);
    assert_eq!(m.network_globals.peers.peer_info(1).unwrap().client.kind, ClientKind::Prysm);
}

#[test]
fn announcements_are_asked_for_when_they_are_news() {
    let mut m = manager(10, 5);
    m.ping_request(1, 5);
    m.pong_response(1, 5);
    m.meta_data_response(1, MetaData::V1 { seq_number: 1, attnets: vec![] });
    assert_eq!(drain(&mut m), vec![]);
    assert!(m.network_globals.peers.peer_info(1).is_none());

    m.inject_connection_established(1, listener(1), 1, None, 0);
    m.inject_connection_established(2, dialer(2), 1, None, 0);
    drain(&mut m);
    m.inbound_ping_peers.take_commands();
    m.outbound_ping_peers.take_commands();
    m.ping_request(1, 0);
    m.ping_request(2, 0);
    m.pong_response(2, 0);
    assert_eq!(
        drain(&mut m),
        vec![
            PeerManagerEvent::MetaData(1),
            PeerManagerEvent::MetaData(2),
            PeerManagerEvent::MetaData(2),
        ]
    );
    assert_eq!(m.inbound_ping_peers.take_commands(), vec![TimerCommand::Start(1)]);
    assert_eq!(m.outbound_ping_peers.take_commands(), vec![TimerCommand::Start(2)]);

    m.meta_data_response(1, MetaData::V2 { seq_number: 4, attnets: vec![1], syncnets: vec![2] });
    m.ping_request(1, 4);
    m.pong_response(1, 3);
    assert_eq!(drain(&mut m), vec![]);
    m.pong_response(1, 5);
    assert_eq!(drain(&mut m), vec![PeerManagerEvent::MetaData(1)]);
    // An older announcement is taken too.
    m.meta_data_response(1, MetaData::V1 { seq_number: 2, attnets: vec![9] });
    let known = m.network_globals.peers.peer_info(1).unwrap().meta_data.as_ref().unwrap();
    assert_eq!(known.seq_number(), 2);
    m.ping_request(1, 3);
    assert_eq!(drain(&mut m), vec![PeerManagerEvent::MetaData(1)]);

    // A peer of unknown direction is still asked, with no clock to reset.
    m.inject_dialing(3, None);
    m.inbound_ping_peers.take_commands();
    m.outbound_ping_peers.take_commands();
    m.ping_request(3, 1);
    assert_eq!(drain(&mut m), vec![PeerManagerEvent::MetaData(3)]);
    assert_eq!(m.inbound_ping_peers.take_commands(), vec![]);
    assert_eq!(m.outbound_ping_peers.take_commands(), vec![]);
}

#[test]
fn status_messages_reset_the_clock() {
    let mut m = manager(10, 5);
    m.peer_statusd(4);
    assert!(m.status_peers.waiting.contains(&4));
    assert_eq!(m.status_peers.take_commands(), vec![TimerCommand::Start(4)]);
}

#[test]
fn queues_hand_out_many_events_in_order() {
    let mut m = manager(10, 5);
    for id in 0..40 {
        m.events.push(PeerManagerEvent::Ping(id));
    }
    let expected: Vec<PeerManagerEvent> = (0..40).map(PeerManagerEvent::Ping).collect();
    assert_eq!(drain(&mut m), expected);
    assert_eq!(m.events.pop(), None);
    m.events.push(PeerManagerEvent::DiscoverPeers);
    assert_eq!(m.events.pop(), Some(PeerManagerEvent::DiscoverPeers));
}

#[test]
fn disconnecting_is_no_ban() {
    let mut m = manager(10, 5);
    m.inject_connection_established(1, listener(1), 1, None, 0);
    drain(&mut m);
    m.disconnect_peer(1, GoodbyeReason::ClientShutdown);
    assert_eq!(
        drain(&mut m),
        vec![PeerManagerEvent::DisconnectPeer(1, GoodbyeReason::ClientShutdown)]
    );
    m.inject_disconnect(1);
    assert_eq!(drain(&mut m), vec![]);
    assert_eq!(status(&m, 1), PeerConnectionStatus::Disconnected);
    assert_eq!(m.ban_status(1), BanResult::NotBanned);
    // Being told to go twice, once for good, ends in a ban.
    m.inject_connection_established(1, listener(1), 1, None, 0);
    m.disconnect_peer(1, GoodbyeReason::ClientShutdown);
    m.ban_peer(1, GoodbyeReason::BadScore);
    drain(&mut m);
    m.inject_disconnect(1);
    assert_eq!(drain(&mut m), vec![PeerManagerEvent::Banned(1, vec![])]);
    // Another score does not undo a ban by itself.
    m.network_globals.peers.set_score(1, score(0, ScoreState::Healthy));
    assert_eq!(status(&m, 1), PeerConnectionStatus::Banned);
}
