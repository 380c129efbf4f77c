//! The peer manager: its state, and what it does to single peers.

use crate::event::{
    EventQueue, EventView, MetricUpdate, PeerManagerEvent, PeerTimers, PeerTimersView,
};
use crate::limits;
use crate::network::{
    enr_view, ConnectionDirection, Enr, GoodbyeReason, Instant, Multiaddr, NetworkConfig,
    PeerId, PeerSyncStatus, Subnet, SyncState, SyncSubnetId,
};
use crate::peer_info::{PeerConnectionStatus, PeerInfoView};
use crate::peerdb::{BanOperation, BanResult, PeerClass, PeerDB, PeerDBView, UnbanError};
use crate::score::{PeerAction, ReportSource};
use std::collections::HashMap;
use vstd::prelude::*;

verus! {

broadcast use vstd::std_specs::hash::group_hash_axioms;

/// The time in seconds between re-status's peers.
pub const STATUS_INTERVAL: u64 = 300;

/// The time in seconds between PING events on connections that we opened. No ping is sent to a peer
/// that has pinged us within this time. It differs from the time on other connections to avoid
/// simultaneous pings.
pub const PING_INTERVAL_OUTBOUND: u64 = 15;

/// The time in seconds between PING events on connections that the peer opened.
pub const PING_INTERVAL_INBOUND: u64 = 20;

/// The time in seconds between heartbeats, which do regular updates such as updating reputations
/// and performing discovery requests.
pub const HEARTBEAT_INTERVAL: u64 = 30;

/// What the peer manager shares with the rest of the node.
#[derive(Debug)]
pub struct NetworkGlobals {
    /// The known peers.
    pub peers: PeerDB,
    /// What the node's own sync is doing.
    pub sync_state: SyncState,
    /// The UDP port in our own node record.
    pub local_udp_port: Option<u16>,
}

/// The main struct that handles peers' reputation and connection status.
pub struct PeerManager {
    /// What is shared with the rest of the node, the known peers among it.
    pub network_globals: NetworkGlobals,
    /// The events that wait to be produced.
    pub events: EventQueue,
    /// Peers that connected to us and wait to be pinged.
    pub inbound_ping_peers: PeerTimers,
    /// Peers that we connected to and that wait to be pinged.
    pub outbound_ping_peers: PeerTimers,
    /// Peers that wait to be sent our status.
    pub status_peers: PeerTimers,
    /// The number of peers we would like to be connected to.
    pub target_peers: usize,
    /// The number of peers we would like to have on each sync committee subnet that we need.
    pub target_subnet_peers: usize,
    /// The sync committee subnets that we need peers on, and until when. These are needed for long,
    /// so that peers are looked for again whenever they get too few.
    pub sync_committee_subnets: HashMap<SyncSubnetId, Instant>,
    /// Discovery queries may be made.
    pub discovery_enabled: bool,
    /// The metric updates that were not carried out yet, oldest first.
    pub metrics: Vec<MetricUpdate>,
}

/// The value of a [`PeerManager`].
pub struct ManagerView {
    pub db: PeerDBView,
    pub sync_state: SyncState,
    pub local_udp_port: Option<u16>,
    pub events: Seq<EventView>,
    pub inbound_ping: PeerTimersView,
    pub outbound_ping: PeerTimersView,
    pub status: PeerTimersView,
    pub target_peers: usize,
    pub target_subnet_peers: usize,
    pub sync_committee_subnets: Map<SyncSubnetId, Instant>,
    pub discovery_enabled: bool,
    pub metrics: Seq<MetricUpdate>,
}

impl View for PeerManager {
    type V = ManagerView;

    open spec fn view(&self) -> ManagerView {
        ManagerView {
            db: self.network_globals.peers@,
            sync_state: self.network_globals.sync_state,
            local_udp_port: self.network_globals.local_udp_port,
            events: self.events@,
            inbound_ping: self.inbound_ping_peers@,
            outbound_ping: self.outbound_ping_peers@,
            status: self.status_peers@,
            target_peers: self.target_peers,
            target_subnet_peers: self.target_subnet_peers,
            sync_committee_subnets: self.sync_committee_subnets@,
            discovery_enabled: self.discovery_enabled,
            metrics: self.metrics@,
        }
    }
}

/// How a peer gets connected.
#[derive(Debug)]
pub enum ConnectingType {
    /// We are in the process of dialing this peer.
    Dialing,
    /// A peer has dialed us.
    IngoingConnected {
        /// The address the peer connected to us from.
        multiaddr: Multiaddr,
    },
    /// We have successfully dialed a peer.
    OutgoingConnected {
        /// The address we dialed to reach the peer.
        multiaddr: Multiaddr,
    },
}

impl ManagerView {
    /// The manager at its start.
    pub open spec fn initial(config: NetworkConfig, globals: NetworkGlobals) -> ManagerView {
        ManagerView {
            db: globals.peers@,
            sync_state: globals.sync_state,
            local_udp_port: globals.local_udp_port,
            events: Seq::empty(),
            inbound_ping: PeerTimersView {
                waiting: Set::empty(),
                commands: Seq::empty(),
                interval: PING_INTERVAL_INBOUND,
            },
            outbound_ping: PeerTimersView {
                waiting: Set::empty(),
                commands: Seq::empty(),
                interval: PING_INTERVAL_OUTBOUND,
            },
            status: PeerTimersView {
                waiting: Set::empty(),
                commands: Seq::empty(),
                interval: STATUS_INTERVAL,
            },
            target_peers: config.target_peers,
            target_subnet_peers: config.target_subnet_peers,
            sync_committee_subnets: Map::empty(),
            discovery_enabled: !config.disable_discovery,
            metrics: Seq::empty(),
        }
    }

    /// One more event waits.
    pub open spec fn push(self, event: EventView) -> ManagerView {
        ManagerView { events: self.events.push(event), ..self }
    }

    /// One more metric update waits.
    pub open spec fn meter(self, update: MetricUpdate) -> ManagerView {
        ManagerView { metrics: self.metrics.push(update), ..self }
    }

    /// The same, but for one peer.
    pub open spec fn with_info(self, id: PeerId, info: PeerInfoView) -> ManagerView {
        ManagerView { db: self.db.with_info(id, info), ..self }
    }

    /// As many peers are connected or being dialed as may be.
    pub open spec fn peer_limit_reached(self) -> bool {
        self.db.count(PeerClass::ConnectedOrDialing) >= limits::spec_max_peers(self.target_peers)
    }

    /// A peer is banned, or told to go first.
    pub open spec fn ban_peer(self, id: PeerId, reason: GoodbyeReason) -> ManagerView {
        let banned = ManagerView { db: self.db.disconnect_and_ban(id), ..self };
        match self.db.ban_operation(id) {
            BanOperation::DisconnectThePeer => banned.push(EventView::DisconnectPeer(id, reason)),
            BanOperation::PeerDisconnecting => banned,
            BanOperation::ReadyToBan => banned.push(
                EventView::Banned(id, banned.db.banned_ips(banned.db.info(id).seen_addresses)),
            ),
        }
    }

    /// A peer is unbanned if its score allows it.
    pub open spec fn unban_peer(self, id: PeerId) -> ManagerView {
        if self.db.unban_refusal(id) is Some {
            self
        } else {
            self.with_info(
                id,
                self.db.peers[id].with_status(PeerConnectionStatus::Disconnected),
            ).push(EventView::UnBanned(id, self.db.peers[id].seen_addresses))
        }
    }

    /// A peer is told to go, without being banned.
    pub open spec fn disconnect_peer(self, id: PeerId, reason: GoodbyeReason) -> ManagerView {
        ManagerView { db: self.db.notify_disconnecting(id, false), ..self }.push(
            EventView::DisconnectPeer(id, reason),
        )
    }

    /// A known peer's score becomes the worst there is, for `reason`.
    pub open spec fn condemn(
        self,
        id: PeerId,
        reason: GoodbyeReason,
        source: ReportSource,
    ) -> ManagerView {
        if self.db.knows(id) {
            let info = self.db.peers[id];
            self.with_info(
                id,
                PeerInfoView {
                    sync_status: if reason is IrrelevantNetwork {
                        PeerSyncStatus::IrrelevantPeer
                    } else {
                        info.sync_status
                    },
                    score: info.score.spec_fatal(),
                    ..info
                },
            ).meter(MetricUpdate::PeerAction(info.client.kind, PeerAction::Fatal, source))
        } else {
            self
        }
    }

    /// A peer is told to go for good.
    pub open spec fn goodbye_peer(
        self,
        id: PeerId,
        reason: GoodbyeReason,
        source: ReportSource,
    ) -> ManagerView {
        self.condemn(id, reason, source).ban_peer(id, reason)
    }

    /// The peer's reputation allows it to be connected.
    pub open spec fn accepts(self, id: PeerId) -> bool {
        self.db.ban_status(id) is NotBanned
    }

    /// A peer gets connected unless it is banned, or is dialed.
    pub open spec fn inject_peer_connection(
        self,
        id: PeerId,
        connection: ConnectingType,
        enr: Option<Seq<char>>,
    ) -> ManagerView {
        if connection is Dialing || self.accepts(id) {
            self.register_peer(id, connection, enr)
        } else {
            self
        }
    }

    /// A peer gets connected, or is dialed.
    pub open spec fn register_peer(
        self,
        id: PeerId,
        connection: ConnectingType,
        enr: Option<Seq<char>>,
    ) -> ManagerView {
        match connection {
            ConnectingType::Dialing => ManagerView { db: self.db.dialing_peer(id, enr), ..self },
            ConnectingType::IngoingConnected { multiaddr } => ManagerView {
                db: self.db.connected_peer(
                    id,
                    ConnectionDirection::Incoming,
                    multiaddr.ip,
                    enr,
                ),
                inbound_ping: self.inbound_ping.insert(id),
                status: self.status.insert(id),
                ..self
            },
            ConnectingType::OutgoingConnected { multiaddr } => ManagerView {
                db: self.db.connected_peer(
                    id,
                    ConnectionDirection::Outgoing,
                    multiaddr.ip,
                    enr,
                ),
                outbound_ping: self.outbound_ping.insert(id),
                status: self.status.insert(id),
                ..self
            },
        }
    }

    /// A known peer subscribes to a subnet.
    pub open spec fn with_subscription(self, id: PeerId, subnet: Subnet) -> ManagerView {
        if self.db.knows(id) {
            let info = self.db.peers[id];
            self.with_info(id, PeerInfoView { subnets: info.subnets.insert(subnet), ..info })
        } else {
            self
        }
    }

    /// A known peer is not subscribed to a subnet any more.
    pub open spec fn without_subscription(self, id: PeerId, subnet: Subnet) -> ManagerView {
        if self.db.knows(id) {
            let info = self.db.peers[id];
            self.with_info(id, PeerInfoView { subnets: info.subnets.remove(subnet), ..info })
        } else {
            self
        }
    }

    /// A known peer has no subscriptions any more.
    pub open spec fn without_subscriptions(self, id: PeerId) -> ManagerView {
        if self.db.knows(id) {
            self.with_info(id, PeerInfoView { subnets: Set::empty(), ..self.db.peers[id] })
        } else {
            self
        }
    }

    /// A peer's connection ended. If it was to be banned, it is; in any case it waits for nothing
    /// any more.
    pub open spec fn inject_disconnect(self, id: PeerId) -> ManagerView {
        let gone = ManagerView { db: self.db.disconnected_peer(id), ..self };
        let settled = if self.db.info(id).awaits_ban() {
            gone.ban_peer(id, GoodbyeReason::BadScore)
        } else {
            gone
        };
        ManagerView {
            inbound_ping: settled.inbound_ping.remove(id),
            outbound_ping: settled.outbound_ping.remove(id),
            status: settled.status.remove(id),
            ..settled
        }
    }
}

impl PeerManager {
    /// The manager at its start.
    pub fn new(config: &NetworkConfig, network_globals: NetworkGlobals) -> (manager: PeerManager)
        ensures
            manager@ == ManagerView::initial(*config, network_globals),
    {
        let manager = PeerManager {
            network_globals,
            events: EventQueue::new(),
            inbound_ping_peers: PeerTimers::new(PING_INTERVAL_INBOUND),
            outbound_ping_peers: PeerTimers::new(PING_INTERVAL_OUTBOUND),
            status_peers: PeerTimers::new(STATUS_INTERVAL),
            target_peers: config.target_peers,
            target_subnet_peers: config.target_subnet_peers,
            sync_committee_subnets: HashMap::new(),
            discovery_enabled: !config.disable_discovery,
            metrics: Vec::new(),
        };
        assert(manager@.events =~= Seq::empty());
        manager
    }

    /// The application layer wants to disconnect from a peer for a particular reason.
    ///
    /// All instant disconnections are fatal and we ban the associated peer.
    ///
    /// This will send a goodbye and disconnect the peer if it is connected or dialing.
    pub fn goodbye_peer(&mut self, peer_id: PeerId, reason: GoodbyeReason, source: ReportSource)
        ensures
            final(self)@ == old(self)@.goodbye_peer(peer_id, reason, source),
    {
        if self.network_globals.peers.peer_info(peer_id).is_some() {
            let mut info = self.network_globals.peers.take_info(peer_id);
            if reason == GoodbyeReason::IrrelevantNetwork {
                info.sync_status = PeerSyncStatus::IrrelevantPeer;
            }
            // Goodbyes are fatal.
            info.score = info.score.fatal();
            self.metrics.push(
                MetricUpdate::PeerAction(info.client.kind, PeerAction::Fatal, source),
            );
            self.network_globals.peers.put_info(peer_id, info);
            assert(self@.db.peers =~= old(self)@.condemn(peer_id, reason, source).db.peers);
        }
        self.ban_peer(peer_id, reason);
    }

    /// A STATUS message has been received from a peer. This resets the status timer.
    pub fn peer_statusd(&mut self, peer_id: PeerId)
        ensures
            final(self)@ == (ManagerView {
                status: old(self)@.status.insert(peer_id),
                ..old(self)@
            }),
    {
        self.status_peers.insert(peer_id);
    }

    /// Adds a gossipsub subscription to a peer.
    pub fn add_subscription(&mut self, peer_id: PeerId, subnet: Subnet)
        ensures
            final(self)@ == old(self)@.with_subscription(peer_id, subnet),
    {
        if self.network_globals.peers.peer_info(peer_id).is_some() {
            let mut info = self.network_globals.peers.take_info(peer_id);
            info.insert_subnet(subnet);
            self.network_globals.peers.put_info(peer_id, info);
            assert(self@.db.peers =~= old(self)@.db.peers.insert(peer_id, info@));
        }
    }

    /// Removes a gossipsub subscription from a peer.
    pub fn remove_subscription(&mut self, peer_id: PeerId, subnet: Subnet)
        ensures
            final(self)@ == old(self)@.without_subscription(peer_id, subnet),
    {
        if self.network_globals.peers.peer_info(peer_id).is_some() {
            let mut info = self.network_globals.peers.take_info(peer_id);
            info.remove_subnet(subnet);
            self.network_globals.peers.put_info(peer_id, info);
            assert(self@.db.peers =~= old(self)@.db.peers.insert(peer_id, info@));
        }
    }

    /// Removes all gossipsub subscriptions from a peer.
    pub fn remove_all_subscriptions(&mut self, peer_id: PeerId)
        ensures
            final(self)@ == old(self)@.without_subscriptions(peer_id),
    {
        if self.network_globals.peers.peer_info(peer_id).is_some() {
            let mut info = self.network_globals.peers.take_info(peer_id);
            info.clear_subnets();
            self.network_globals.peers.put_info(peer_id, info);
            assert(self@.db.peers =~= old(self)@.db.peers.insert(peer_id, info@));
        }
    }

    /// The maximum number of peers we allow to connect to us: a tenth more than the target.
    pub fn max_peers(&self) -> (count: usize)
        ensures
            count == limits::spec_max_peers(self@.target_peers),
    {
        limits::max_peers(self.target_peers)
    }

    /// The maximum number of peers we allow when dialing a priority peer, that is a peer that is
    /// subscribed to subnets that our validator requires.
    pub fn max_priority_peers(&self) -> (count: usize)
        ensures
            count == limits::spec_max_priority_peers(self@.target_peers),
    {
        limits::max_priority_peers(self.target_peers)
    }

    /// A peer is being dialed, banned or not.
    pub fn inject_dialing(&mut self, peer_id: PeerId, enr: Option<Enr>)
        ensures
            final(self)@ == old(self)@.register_peer(
                peer_id,
                ConnectingType::Dialing,
                enr_view(enr),
            ),
    {
        self.inject_peer_connection(peer_id, ConnectingType::Dialing, enr);
    }

    /// Reports if a peer is banned or not.
    ///
    /// This is used to determine if we should accept incoming connections.
    pub fn ban_status(&self, peer_id: PeerId) -> (result: BanResult)
        ensures
            result == self@.db.ban_status(peer_id),
    {
        self.network_globals.peers.ban_status(peer_id)
    }

    /// The peer is known and connected.
    pub fn is_connected(&self, peer_id: PeerId) -> (r: bool)
        ensures
            r == self@.db.is_connected(peer_id),
    {
        self.network_globals.peers.is_connected(peer_id)
    }

    /// Reports whether the peer limit is reached in which case we stop allowing new incoming
    /// connections.
    pub fn peer_limit_reached(&self) -> (r: bool)
        ensures
            r == self@.peer_limit_reached(),
    {
        self.network_globals.peers.count(PeerClass::ConnectedOrDialing) >= self.max_peers()
    }

    /// Sets a peer that connected to us as connected, as long as its reputation allows it.
    ///
    /// Informs if the peer was accepted.
    pub fn inject_connect_ingoing(
        &mut self,
        peer_id: PeerId,
        multiaddr: Multiaddr,
        enr: Option<Enr>,
    ) -> (accepted: bool)
        ensures
            accepted == old(self)@.accepts(peer_id),
            final(self)@ == old(self)@.inject_peer_connection(
                peer_id,
                ConnectingType::IngoingConnected { multiaddr },
                enr_view(enr),
            ),
    {
        self.inject_peer_connection(peer_id, ConnectingType::IngoingConnected { multiaddr }, enr)
    }

    /// Sets a peer that we connected to as connected, as long as its reputation allows it.
    ///
    /// Informs if the peer was accepted.
    pub fn inject_connect_outgoing(
        &mut self,
        peer_id: PeerId,
        multiaddr: Multiaddr,
        enr: Option<Enr>,
    ) -> (accepted: bool)
        ensures
            accepted == old(self)@.accepts(peer_id),
            final(self)@ == old(self)@.inject_peer_connection(
                peer_id,
                ConnectingType::OutgoingConnected { multiaddr },
                enr_view(enr),
            ),
    {
        self.inject_peer_connection(peer_id, ConnectingType::OutgoingConnected { multiaddr }, enr)
    }

    /// Updates the state of the peer as disconnected.
    ///
    /// This is also called when dialing a peer fails.
    pub fn inject_disconnect(&mut self, peer_id: PeerId)
        ensures
            final(self)@ == old(self)@.inject_disconnect(peer_id),
    {
        if self.network_globals.peers.inject_disconnect(peer_id) {
            // The peer was awaiting a ban, continue to ban the peer.
            self.ban_peer(peer_id, GoodbyeReason::BadScore);
        }
        // Remove the ping and status timer for the peer.
        self.inbound_ping_peers.remove(peer_id);
        self.outbound_ping_peers.remove(peer_id);
        self.status_peers.remove(peer_id);
    }

    /// Registers a peer as connected or being dialed, as `connection` says. A banned peer is not
    /// set as connected.
    ///
    /// Informs if the peer was accepted or not.
    pub fn inject_peer_connection(
        &mut self,
        peer_id: PeerId,
        connection: ConnectingType,
        enr: Option<Enr>,
    ) -> (accepted: bool)
        ensures
            accepted == (connection is Dialing || old(self)@.accepts(peer_id)),
            final(self)@ == old(self)@.inject_peer_connection(peer_id, connection, enr_view(enr)),
    {
        let dialing = matches!(connection, ConnectingType::Dialing);
        if !dialing && self.ban_status(peer_id) != BanResult::NotBanned {
            // Don't connect if the peer is banned.
            return false;
        }
        match connection {
            ConnectingType::Dialing => {
                self.network_globals.peers.dialing_peer(peer_id, enr);
                return true;
            },
            ConnectingType::IngoingConnected { multiaddr } => {
                self.network_globals.peers.connect_ingoing(peer_id, multiaddr.ip, enr);
                // Start a timer to ping inbound peers.
                self.inbound_ping_peers.insert(peer_id);
            },
            ConnectingType::OutgoingConnected { multiaddr } => {
                self.network_globals.peers.connect_outgoing(peer_id, multiaddr.ip, enr);
                // Start a timer to ping outbound peers.
                self.outbound_ping_peers.insert(peer_id);
            },
        }
        // Start a status timer for the peer.
        self.status_peers.insert(peer_id);
        true
    }

    /// Bans a peer.
    ///
    /// When we ban a peer, its IP address can be banned. Other connected peers that use the address
    /// are left alone while they behave. If any of them, or a new one, connects on a banned
    /// address, it is banned and disconnected at once.
    pub fn ban_peer(&mut self, peer_id: PeerId, reason: GoodbyeReason)
        ensures
            final(self)@ == old(self)@.ban_peer(peer_id, reason),
    {
        match self.network_globals.peers.disconnect_and_ban(peer_id) {
            BanOperation::DisconnectThePeer => {
                // The peer was currently connected, so we start a disconnection. Once the peer has
                // disconnected, this function will be called again to ban it.
                self.events.push(PeerManagerEvent::DisconnectPeer(peer_id, reason));
            },
            BanOperation::PeerDisconnecting => {
                // The peer is currently being disconnected and will be banned once the
                // disconnection completes.
            },
            BanOperation::ReadyToBan => {
                // The peer is not currently connected, we can safely ban it.
                let banned = match self.network_globals.peers.peer_info(peer_id) {
                    Some(info) => self.network_globals.peers.banned_ips(&info.seen_addresses),
                    None => Vec::new(),
                };
                self.events.push(PeerManagerEvent::Banned(peer_id, banned));
            },
        }
    }

    /// Unbans a peer whose score allows it.
    pub fn unban_peer(&mut self, peer_id: PeerId) -> (result: Result<(), UnbanError>)
        ensures
            final(self)@ == old(self)@.unban_peer(peer_id),
            match old(self)@.db.unban_refusal(peer_id) {
                Some(error) => result == Err::<(), UnbanError>(error),
                None => result is Ok,
            },
    {
        match self.network_globals.peers.unban(peer_id) {
            Err(error) => Err(error),
            Ok(()) => {
                let seen = match self.network_globals.peers.peer_info(peer_id) {
                    Some(info) => info.copy_seen_addresses(),
                    None => Vec::new(),
                };
                self.events.push(PeerManagerEvent::UnBanned(peer_id, seen));
                Ok(())
            },
        }
    }

    /// Gracefully disconnects a peer without banning them.
    pub fn disconnect_peer(&mut self, peer_id: PeerId, reason: GoodbyeReason)
        ensures
            final(self)@ == old(self)@.disconnect_peer(peer_id, reason),
    {
        self.events.push(PeerManagerEvent::DisconnectPeer(peer_id, reason));
        self.network_globals.peers.notify_disconnecting(peer_id, false);
    }

    /// Hands out the metric updates that were not carried out yet.
    pub fn take_metrics(&mut self) -> (metrics: Vec<MetricUpdate>)
        ensures
            metrics@ == old(self)@.metrics,
            final(self)@ == (ManagerView { metrics: Seq::empty(), ..old(self)@ }),
    {
        let mut metrics: Vec<MetricUpdate> = Vec::new();
        std::mem::swap(&mut metrics, &mut self.metrics);
        metrics
    }
}

} // verus!
