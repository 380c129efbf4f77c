//! What the network tells the peer manager about its peers: connections, identities, pings.

use crate::event::{EventView, MetricUpdate, PeerManagerEvent};
use crate::manager::{ConnectingType, ManagerView, PeerManager};
use crate::network::{
    addresses_view, enr_view, same_addresses, Client, ClientKind, ClientView, ConnectedPoint,
    ConnectionDirection, Enr, GoodbyeReason, Instant, MetaData, MetaDataView, Multiaddr,
    MultiaddrView, PeerId, SyncSubnetId,
};
use crate::peer_info::PeerInfoView;
use crate::peerdb::{BanResult, PeerClass};
use crate::score::ReportSource;
use vstd::prelude::*;

verus! {

broadcast use vstd::std_specs::hash::group_hash_axioms;

impl ManagerView {
    /// A connection is metered, whatever becomes of it.
    pub open spec fn meter_connection(self, id: PeerId, endpoint: ConnectedPoint) -> ManagerView {
        let checked = if self.local_udp_port is Some {
            self.meter(MetricUpdate::CheckNat)
        } else {
            self
        };
        checked.meter(
            if endpoint is Listener {
                MetricUpdate::InboundOpened
            } else {
                MetricUpdate::OutboundOpened
            },
        ).meter(MetricUpdate::ClientConnected(self.db.info(id).client.kind))
    }

    /// The peer may not connect, for the limit is reached and no duty needs it.
    pub open spec fn is_surplus(self, id: PeerId, now: Instant) -> bool {
        self.peer_limit_reached() && !self.db.info(id).has_future_duty(now)
    }

    /// A connection that is let stand is registered. Its first one is made known.
    pub open spec fn register_connection(
        self,
        id: PeerId,
        endpoint: ConnectedPoint,
        num_established: u32,
        enr: Option<Seq<char>>,
    ) -> ManagerView {
        let (registered, event) = match endpoint {
            ConnectedPoint::Listener { send_back_addr } => (
                self.inject_peer_connection(
                    id,
                    ConnectingType::IngoingConnected { multiaddr: send_back_addr },
                    enr,
                ),
                EventView::PeerConnectedIncoming(id),
            ),
            ConnectedPoint::Dialer { address } => (
                self.inject_peer_connection(
                    id,
                    ConnectingType::OutgoingConnected { multiaddr: address },
                    enr,
                ),
                EventView::PeerConnectedOutgoing(id),
            ),
        };
        if num_established == 1 {
            registered.push(event).meter(MetricUpdate::PeerConnectEvent).meter(
                MetricUpdate::PeersConnected(registered.db.count(PeerClass::Connected) as usize),
            )
        } else {
            registered
        }
    }

    /// A connection was opened: it is refused for good to a banned peer, refused to a peer too
    /// many, and registered otherwise.
    pub open spec fn inject_connection_established(
        self,
        id: PeerId,
        endpoint: ConnectedPoint,
        num_established: u32,
        enr: Option<Seq<char>>,
        now: Instant,
    ) -> ManagerView {
        let metered = self.meter_connection(id, endpoint);
        match self.db.ban_status(id) {
            BanResult::BadScore => metered.goodbye_peer(
                id,
                GoodbyeReason::Banned,
                ReportSource::PeerManager,
            ),
            BanResult::BannedIp(_) => metered.goodbye_peer(
                id,
                GoodbyeReason::BannedIP,
                ReportSource::PeerManager,
            ),
            BanResult::NotBanned => if self.is_surplus(id, now) {
                metered.disconnect_peer(id, GoodbyeReason::TooManyPeers)
            } else {
                metered.register_connection(id, endpoint, num_established, enr)
            },
        }
    }

    /// A connection was closed. Nothing happens until it was the peer's last one.
    pub open spec fn inject_connection_closed(
        self,
        id: PeerId,
        endpoint: ConnectedPoint,
        num_established: u32,
    ) -> ManagerView {
        if num_established != 0 {
            self
        } else {
            let unsubscribed = self.without_subscriptions(id);
            let told = if self.db.info(id).is_connected_or_disconnecting() {
                unsubscribed.push(EventView::PeerDisconnected(id))
            } else {
                unsubscribed
            };
            let metered = if self.db.knows(id) {
                told.meter(MetricUpdate::ClientDisconnected(self.db.peers[id].client.kind))
            } else {
                told
            };
            let gone = metered.inject_disconnect(id);
            gone.meter(MetricUpdate::PeerDisconnectEvent).meter(
                MetricUpdate::PeersConnected(gone.db.count(PeerClass::Connected) as usize),
            ).meter(
                if endpoint is Listener {
                    MetricUpdate::InboundClosed
                } else {
                    MetricUpdate::OutboundClosed
                },
            )
        }
    }

    /// A dial attempt has failed. A peer that connected meanwhile is left alone.
    pub open spec fn inject_dial_failure(self, id: PeerId) -> ManagerView {
        if self.db.is_connected(id) {
            self
        } else {
            self.inject_disconnect(id)
        }
    }

    /// A known peer said what it is and where it listens.
    pub open spec fn identify(
        self,
        id: PeerId,
        client: ClientView,
        listen_addrs: Seq<MultiaddrView>,
    ) -> ManagerView {
        if !self.db.knows(id) {
            self
        } else {
            let info = self.db.peers[id];
            let identified = self.with_info(
                id,
                PeerInfoView { client, listening_addresses: listen_addrs, ..info },
            );
            let news = info.client.kind != client.kind || info.listening_addresses != listen_addrs;
            if news && info.is_connected_or_disconnecting() {
                identified.meter(MetricUpdate::ClientConnected(client.kind)).meter(
                    MetricUpdate::ClientDisconnected(info.client.kind),
                )
            } else {
                identified
            }
        }
    }

    /// What the peer announced last is older than number `seq`, or nothing.
    pub open spec fn needs_meta_data(self, id: PeerId, seq: u64) -> bool {
        self.db.peers[id].meta_data matches Some(known) ==> known.seq_number() < seq
    }

    /// A known peer told the number of its latest announcement. It is asked for it if it is news.
    pub open spec fn pong_response(self, id: PeerId, seq: u64) -> ManagerView {
        if self.db.knows(id) && self.needs_meta_data(id, seq) {
            self.push(EventView::MetaData(id))
        } else {
            self
        }
    }

    /// A known peer pinged us, and needs no ping for a while.
    pub open spec fn ping_request(self, id: PeerId, seq: u64) -> ManagerView {
        if !self.db.knows(id) {
            self
        } else {
            let rested = match self.db.peers[id].connection_direction {
                Some(ConnectionDirection::Incoming) => ManagerView {
                    inbound_ping: self.inbound_ping.insert(id),
                    ..self
                },
                Some(ConnectionDirection::Outgoing) => ManagerView {
                    outbound_ping: self.outbound_ping.insert(id),
                    ..self
                },
                None => self,
            };
            rested.pong_response(id, seq)
        }
    }

    /// A known peer sent an announcement, which replaces the one before, older or not.
    pub open spec fn meta_data_response(self, id: PeerId, meta_data: MetaDataView) -> ManagerView {
        if self.db.knows(id) {
            self.with_info(id, PeerInfoView { meta_data: Some(meta_data), ..self.db.peers[id] })
        } else {
            self
        }
    }

    /// A sync committee subnet is needed until `min_ttl` at least.
    pub open spec fn add_sync_subnet(
        self,
        subnet_id: SyncSubnetId,
        min_ttl: Instant,
    ) -> ManagerView {
        let subnets = self.sync_committee_subnets;
        if subnets.contains_key(subnet_id) && subnets[subnet_id] >= min_ttl {
            self
        } else {
            ManagerView { sync_committee_subnets: subnets.insert(subnet_id, min_ttl), ..self }
        }
    }
}

impl PeerManager {
    /// A connection to or from a peer was opened. It has `num_established` of them now.
    pub fn inject_connection_established(
        &mut self,
        peer_id: PeerId,
        endpoint: ConnectedPoint,
        num_established: u32,
        enr: Option<Enr>,
        now: Instant,
    )
        ensures
            final(self)@ == old(self)@.inject_connection_established(
                peer_id,
                endpoint,
                num_established,
                enr_view(enr),
                now,
            ),
    {
        // Update the NAT status if there is a port in the node record.
        if self.network_globals.local_udp_port.is_some() {
            self.metrics.push(MetricUpdate::CheckNat);
        }
        match &endpoint {
            ConnectedPoint::Listener { .. } => {
                self.metrics.push(MetricUpdate::InboundOpened);
            },
            ConnectedPoint::Dialer { .. } => {
                self.metrics.push(MetricUpdate::OutboundOpened);
            },
        }
        // NOTE: This metric can be larger than the number of connected peers temporarily as we
        // register the connection regardless if we are about to drop the connection because of
        // banned peers or because of reaching our connection limit.
        let kind = match self.network_globals.peers.peer_info(peer_id) {
            Some(info) => info.client.kind,
            None => ClientKind::Unknown,
        };
        self.metrics.push(MetricUpdate::ClientConnected(kind));

        // Check to make sure the peer is not supposed to be banned.
        match self.ban_status(peer_id) {
            BanResult::BadScore => {
                // This is a faulty state. Reban the peer.
                self.goodbye_peer(peer_id, GoodbyeReason::Banned, ReportSource::PeerManager);
                return;
            },
            BanResult::BannedIp(_) => {
                // A good peer has connected to us via a banned IP address. We ban the peer and
                // prevent future connections.
                self.goodbye_peer(peer_id, GoodbyeReason::BannedIP, ReportSource::PeerManager);
                return;
            },
            BanResult::NotBanned => {},
        }

        // Check the connection limits.
        let needed = match self.network_globals.peers.peer_info(peer_id) {
            Some(info) => info.has_future_duty(now),
            None => false,
        };
        if self.peer_limit_reached() && !needed {
            // Gracefully disconnect the peer.
            self.disconnect_peer(peer_id, GoodbyeReason::TooManyPeers);
            return;
        }

        // Register the newly connected peer.
        // NOTE: We don't register peers that we are disconnecting immediately. The network service
        // does not need to know about these peers.
        match endpoint {
            ConnectedPoint::Listener { send_back_addr } => {
                self.inject_connect_ingoing(peer_id, send_back_addr, enr);
                if num_established == 1 {
                    self.events.push(PeerManagerEvent::PeerConnectedIncoming(peer_id));
                }
            },
            ConnectedPoint::Dialer { address } => {
                self.inject_connect_outgoing(peer_id, address, enr);
                if num_established == 1 {
                    self.events.push(PeerManagerEvent::PeerConnectedOutgoing(peer_id));
                }
            },
        }
        if num_established == 1 {
            self.metrics.push(MetricUpdate::PeerConnectEvent);
            let connected: usize = self.network_globals.peers.count(PeerClass::Connected);
            self.metrics.push(MetricUpdate::PeersConnected(connected));
        }
    }

    /// A connection to or from a peer was closed. It has `num_established` of them left.
    pub fn inject_connection_closed(
        &mut self,
        peer_id: PeerId,
        endpoint: ConnectedPoint,
        num_established: u32,
    )
        ensures
            final(self)@ == old(self)@.inject_connection_closed(
                peer_id,
                endpoint,
                num_established,
            ),
    {
        if num_established == 0 {
            // There are no more connections.
            self.remove_all_subscriptions(peer_id);
            if self.network_globals.peers.is_connected_or_disconnecting(peer_id) {
                // We are disconnecting the peer or the peer has already been connected. In both
                // cases the peer has been registered before. Inform the application.
                self.events.push(PeerManagerEvent::PeerDisconnected(peer_id));
            }
            if let Some(info) = self.network_globals.peers.peer_info(peer_id) {
                let kind = info.client.kind;
                self.metrics.push(MetricUpdate::ClientDisconnected(kind));
            }
            // NOTE: It may be the case that a rejected node, due to too many peers, is disconnected
            // here and we have no knowledge of its connection. We insert it here for reference so
            // that we can track this peer.
            self.inject_disconnect(peer_id);
            self.metrics.push(MetricUpdate::PeerDisconnectEvent);
            let connected: usize = self.network_globals.peers.count(PeerClass::Connected);
            self.metrics.push(MetricUpdate::PeersConnected(connected));
            match endpoint {
                ConnectedPoint::Listener { .. } => {
                    self.metrics.push(MetricUpdate::InboundClosed);
                },
                ConnectedPoint::Dialer { .. } => {
                    self.metrics.push(MetricUpdate::OutboundClosed);
                },
            }
        }
    }

    /// A dial attempt has failed.
    ///
    /// NOTE: It can be the case that we are dialing a peer and during the dialing process the peer
    /// connects and the dial attempt later fails. To handle this, we only update what is known of
    /// the peer if it is not already connected.
    pub fn inject_dial_failure(&mut self, peer_id: PeerId)
        ensures
            final(self)@ == old(self)@.inject_dial_failure(peer_id),
    {
        if !self.network_globals.peers.is_connected(peer_id) {
            self.inject_disconnect(peer_id);
        }
    }

    /// A peer said what client it runs and which addresses it listens on.
    pub fn identify(&mut self, peer_id: PeerId, client: Client, listen_addrs: Vec<Multiaddr>)
        ensures
            final(self)@ == old(self)@.identify(
                peer_id,
                client@,
                addresses_view(listen_addrs@),
            ),
    {
        if self.network_globals.peers.peer_info(peer_id).is_none() {
            return;
        }
        let mut info = self.network_globals.peers.take_info(peer_id);
        let previous_kind = info.client.kind;
        let kind = client.kind;
        let moved = !same_addresses(&info.listening_addresses, &listen_addrs);
        info.listening_addresses = listen_addrs;
        info.client = client;
        // Update the client metric if the peer is connected.
        if (previous_kind != kind || moved) && info.is_connected_or_disconnecting() {
            self.metrics.push(MetricUpdate::ClientConnected(kind));
            self.metrics.push(MetricUpdate::ClientDisconnected(previous_kind));
        }
        self.network_globals.peers.put_info(peer_id, info);
        assert(self@.db.peers =~= old(self)@.db.peers.insert(peer_id, info@));
    }

    /// A ping request has been received, with the number of the peer's latest announcement.
    pub fn ping_request(&mut self, peer_id: PeerId, seq: u64)
        ensures
            final(self)@ == old(self)@.ping_request(peer_id, seq),
    {
        let direction = match self.network_globals.peers.peer_info(peer_id) {
            Some(info) => info.connection_direction,
            None => None,
        };
        // Reset the to-ping timer for this peer.
        match direction {
            Some(ConnectionDirection::Incoming) => {
                self.inbound_ping_peers.insert(peer_id);
            },
            Some(ConnectionDirection::Outgoing) => {
                self.outbound_ping_peers.insert(peer_id);
            },
            None => {},
        }
        self.pong_response(peer_id, seq);
    }

    /// A PONG has been returned from a peer, with the number of its latest announcement.
    pub fn pong_response(&mut self, peer_id: PeerId, seq: u64)
        ensures
            final(self)@ == old(self)@.pong_response(peer_id, seq),
    {
        // If the sequence number is unknown, request the announcement.
        let request = match self.network_globals.peers.peer_info(peer_id) {
            Some(info) => match &info.meta_data {
                Some(meta_data) => meta_data.seq_number() < seq,
                None => true,
            },
            None => false,
        };
        if request {
            self.events.push(PeerManagerEvent::MetaData(peer_id));
        }
    }

    /// Received a metadata response from a peer.
    pub fn meta_data_response(&mut self, peer_id: PeerId, meta_data: MetaData)
        ensures
            final(self)@ == old(self)@.meta_data_response(peer_id, meta_data@),
    {
        if self.network_globals.peers.peer_info(peer_id).is_some() {
            let mut info = self.network_globals.peers.take_info(peer_id);
            // An older announcement is taken too, to prevent storing incorrect subnets for a peer.
            info.meta_data = Some(meta_data);
            self.network_globals.peers.put_info(peer_id, info);
            assert(self@.db.peers =~= old(self)@.db.peers.insert(peer_id, info@));
        }
    }

    /// Insert the sync subnet into the long lived sync committee subnets that we need to maintain
    /// an adequate number of peers for.
    pub fn add_sync_subnet(&mut self, subnet_id: SyncSubnetId, min_ttl: Instant)
        ensures
            final(self)@ == old(self)@.add_sync_subnet(subnet_id, min_ttl),
    {
        let longer = match self.sync_committee_subnets.get(&subnet_id) {
            Some(known) => *known < min_ttl,
            None => true,
        };
        if longer {
            self.sync_committee_subnets.insert(subnet_id, min_ttl);
        }
    }
}

} // verus!
