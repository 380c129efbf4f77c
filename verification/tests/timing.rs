//! The clocks of the peers: who waits, and when pings are sent.

use peer_manager::event::{PeerManagerEvent, PeerTimers, TimerCommand};
use peer_manager::manager::{NetworkGlobals, PeerManager};
use peer_manager::peerdb::PeerDB;
use peer_manager::poll::{PeerTimer, PollStep, Polled, TimerPoll};
use peer_manager::network::NANOS_PER_SECOND;
use peer_manager::{
    MetaData, Multiaddr, NetworkConfig, PeerAction, PeerId, ReportSource, Score, ScoreOutlook,
    ScoreState, Subnet, SyncState,
};
use std::collections::{HashMap, HashSet};

fn manager() -> PeerManager {
    PeerManager::new(
        &NetworkConfig { target_peers: 10, disable_discovery: true, target_subnet_peers: 2 },
        NetworkGlobals {
            peers: PeerDB::new(5),
            sync_state: SyncState::Synced,
            local_udp_port: None,
        },
    )
}

const GOOD: Score = Score { rank: 0, state: ScoreState::Healthy, good_gossipsub: true };

const OUTLOOK: ScoreOutlook =
    ScoreOutlook { low_tolerance: GOOD, mid_tolerance: GOOD, high_tolerance: GOOD };

/// Clocks that do as they are told, on a time in seconds that the test sets.
struct Clocks {
    deadlines: HashMap<PeerId, u64>,
}

impl Clocks {
    fn carry_out(&mut self, timers: &mut PeerTimers, now: u64) {
        for command in timers.take_commands() {
            match command {
                TimerCommand::Start(id) => {
                    self.deadlines.insert(id, now + timers.interval);
                }
                TimerCommand::Stop(id) => {
                    self.deadlines.remove(&id);
                }
            }
        }
        let running: HashSet<PeerId> = self.deadlines.keys().copied().collect();
        assert_eq!(running, timers.waiting);
    }

    fn poll(&self, now: u64) -> TimerPoll {
        match self.deadlines.iter().find(|(_, deadline)| **deadline <= now) {
            Some((id, _)) => TimerPoll::Expired(*id),
            None => TimerPoll::Idle,
        }
    }
}

/// The events that come out of the manager at a time.
fn events_at(
    m: &mut PeerManager,
    inbound: &mut Clocks,
    outbound: &mut Clocks,
    now: u64,
) -> Vec<PeerManagerEvent> {
    let mut events = Vec::new();
    let mut polled = Polled::Heartbeat(false);
    loop {
        let step = m.poll_next(polled);
        inbound.carry_out(&mut m.inbound_ping_peers, now);
        outbound.carry_out(&mut m.outbound_ping_peers, now);
        polled = match step {
            PollStep::PollTimer(PeerTimer::InboundPing) => {
                Polled::Timer(PeerTimer::InboundPing, inbound.poll(now))
            }
            PollStep::PollTimer(PeerTimer::OutboundPing) => {
                Polled::Timer(PeerTimer::OutboundPing, outbound.poll(now))
            }
            PollStep::PollTimer(PeerTimer::Status) => {
                Polled::Timer(PeerTimer::Status, TimerPoll::Idle)
            }
            PollStep::Ready(event) => {
                events.push(event);
                Polled::Heartbeat(false)
            }
            PollStep::Pending => return events,
            PollStep::RunHeartbeat => panic!("no heartbeat is due"),
        };
    }
}

#[test]
fn peers_that_ping_are_not_pinged_within_the_interval() {
    let mut m = manager();
    let mut inbound = Clocks { deadlines: HashMap::new() };
    let mut outbound = Clocks { deadlines: HashMap::new() };
    let address = Multiaddr { bytes: vec![], ip: None };
    m.inject_connect_ingoing(1, address.clone(), None);
    m.inject_connect_outgoing(2, address, None);
    for id in 1..3 {
        m.meta_data_response(id, MetaData::V1 { seq_number: 1, attnets: vec![] });
    }
    assert_eq!(events_at(&mut m, &mut inbound, &mut outbound, 0), vec![]);
    // Both ping us at ten seconds.
    m.ping_request(1, 1);
    m.ping_request(2, 1);
    assert_eq!(events_at(&mut m, &mut inbound, &mut outbound, 10), vec![]);
    for now in 11..25 {
        // Other calls do not bring a ping nearer.
        m.heartbeat(now * NANOS_PER_SECOND, &vec![]);
        m.pong_response(1, 1);
        m.peer_statusd(2);
        m.add_subscription(1, Subnet::Attestation(now));
        m.inject_dial_failure(1);
        m.report_peer(2, PeerAction::HighToleranceError, ReportSource::RPC, &OUTLOOK);
        assert_eq!(events_at(&mut m, &mut inbound, &mut outbound, now), vec![]);
    }
    assert_eq!(
        events_at(&mut m, &mut inbound, &mut outbound, 25),
        vec![PeerManagerEvent::Ping(2)]
    );
    for now in 26..30 {
        assert_eq!(events_at(&mut m, &mut inbound, &mut outbound, now), vec![]);
    }
    assert_eq!(
        events_at(&mut m, &mut inbound, &mut outbound, 30),
        vec![PeerManagerEvent::Ping(1)]
    );
}

#[test]
fn commands_tell_whose_clocks_run() {
    let mut timers = PeerTimers::new(5);
    let mut clocks = Clocks { deadlines: HashMap::new() };
    timers.insert(1);
    timers.insert(2);
    timers.remove(1);
    timers.remove(9);
    timers.insert(2);
    clocks.carry_out(&mut timers, 0);
    timers.insert(1);
    clocks.carry_out(&mut timers, 1);
    assert_eq!(clocks.deadlines.len(), 2);
    timers.remove(2);
    timers.remove(1);
    clocks.carry_out(&mut timers, 2);
    assert!(clocks.deadlines.is_empty());
}
