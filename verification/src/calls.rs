//! The calls that change the peer manager, as one type.

use crate::event::PeerTimersView;
use crate::gossip::GossipsubScore;
use crate::manager::{ConnectingType, ManagerView};
use crate::network::{
    ClientView, ConnectedPoint, ConnectionDirection, GoodbyeReason, Instant, MetaDataView,
    MultiaddrView, PeerId, Protocol, RPCError, Subnet, SyncState, SyncSubnetId,
};
use crate::poll::{PeerTimer, Polled};
use crate::score::{PeerAction, ReportSource, Score, ScoreOutlook};
use vstd::prelude::*;

verus! {

/// A call that changes the peer manager, with all that its effect depends on. Where a call leaves
/// an order open, the order is part of it.
pub enum Call {
    /// `goodbye_peer`
    Goodbye(PeerId, GoodbyeReason, ReportSource),
    /// `report_peer`
    Report(PeerId, PeerAction, ReportSource, ScoreOutlook),
    /// `handle_rpc_error`
    RpcError(PeerId, Protocol, RPCError, ConnectionDirection, ScoreOutlook),
    /// `update_peer_scores`
    UpdateScores(Seq<(PeerId, Score)>),
    /// `update_gossipsub_scores`, with the scores of known peers in order
    UpdateGossipsubScores(Seq<GossipsubScore>),
    /// `ban_and_unban_peers`
    BanAndUnban(Seq<PeerId>, Seq<PeerId>),
    /// `ban_peer`
    Ban(PeerId, GoodbyeReason),
    /// `unban_peer`
    Unban(PeerId),
    /// `disconnect_peer`
    Disconnect(PeerId, GoodbyeReason),
    /// `peers_discovered`
    Discovered(Seq<(PeerId, Option<Instant>)>),
    /// `inject_dialing`
    Dialing(PeerId, Option<Seq<char>>),
    /// `inject_peer_connection`, `inject_connect_ingoing` or `inject_connect_outgoing`
    Connection(PeerId, ConnectingType, Option<Seq<char>>),
    /// `inject_connection_established`
    Established(PeerId, ConnectedPoint, u32, Option<Seq<char>>, Instant),
    /// `inject_connection_closed`
    Closed(PeerId, ConnectedPoint, u32),
    /// `inject_disconnect`
    Disconnected(PeerId),
    /// `inject_dial_failure`
    DialFailure(PeerId),
    /// `identify`
    Identify(PeerId, ClientView, Seq<MultiaddrView>),
    /// `ping_request`
    Ping(PeerId, u64),
    /// `pong_response`
    Pong(PeerId, u64),
    /// `meta_data_response`
    MetaData(PeerId, MetaDataView),
    /// `peer_statusd`
    Statusd(PeerId),
    /// `add_subscription`
    AddSubscription(PeerId, Subnet),
    /// `remove_subscription`
    RemoveSubscription(PeerId, Subnet),
    /// `remove_all_subscriptions`
    RemoveAllSubscriptions(PeerId),
    /// `add_sync_subnet`
    AddSyncSubnet(SyncSubnetId, Instant),
    /// `maintain_sync_committee_peers`, with the subnets looked for in order
    MaintainSubnets(Instant, Seq<SyncSubnetId>),
    /// `heartbeat`, with the scores, the subnets looked for and the peers by score in order
    Heartbeat(Instant, Seq<(PeerId, Score)>, Seq<SyncSubnetId>, Seq<PeerId>),
    /// `poll_next`
    Poll(Polled),
    /// `take_metrics`
    TakeMetrics,
    /// `take_commands` of a set of clocks
    TakeCommands(PeerTimer),
    /// The node's own sync has come to another state.
    SetSyncState(SyncState),
    /// The port in our own node record has changed.
    SetLocalPort(Option<u16>),
}

impl ManagerView {
    /// A set of clocks.
    pub open spec fn clocks(self, timer: PeerTimer) -> PeerTimersView {
        match timer {
            PeerTimer::InboundPing => self.inbound_ping,
            PeerTimer::OutboundPing => self.outbound_ping,
            PeerTimer::Status => self.status,
        }
    }

    /// The commands of a set of clocks were handed out.
    pub open spec fn without_commands(self, timer: PeerTimer) -> ManagerView {
        let clocks = PeerTimersView { commands: Seq::empty(), ..self.clocks(timer) };
        match timer {
            PeerTimer::InboundPing => ManagerView { inbound_ping: clocks, ..self },
            PeerTimer::OutboundPing => ManagerView { outbound_ping: clocks, ..self },
            PeerTimer::Status => ManagerView { status: clocks, ..self },
        }
    }

    /// The manager after a call on scores.
    #[verifier::opaque]
    pub open spec fn after_score_call(self, call: Call) -> ManagerView {
        match call {
            Call::Report(id, action, source, outlook) => self.report_peer(
                id,
                action,
                source,
                outlook,
            ),
            Call::RpcError(id, protocol, err, direction, outlook) => self.handle_rpc_error(
                id,
                protocol,
                err,
                direction,
                outlook,
            ),
            Call::UpdateScores(updates) => self.update_peer_scores(updates),
            Call::UpdateGossipsubScores(order) => self.update_gossipsub_scores(order),
            Call::BanAndUnban(to_ban, to_unban) => self.ban_all(to_ban).unban_all(to_unban),
            Call::Heartbeat(now, updates, subnets, worst) => self.heartbeat(
                now,
                updates,
                subnets,
                worst,
            ),
            _ => self,
        }
    }

    /// The manager after a call on bans and disconnections.
    #[verifier::opaque]
    pub open spec fn after_ban_call(self, call: Call) -> ManagerView {
        match call {
            Call::Goodbye(id, reason, source) => self.goodbye_peer(id, reason, source),
            Call::Ban(id, reason) => self.ban_peer(id, reason),
            Call::Unban(id) => self.unban_peer(id),
            Call::Disconnect(id, reason) => self.disconnect_peer(id, reason),
            Call::Disconnected(id) => self.inject_disconnect(id),
            Call::DialFailure(id) => self.inject_dial_failure(id),
            _ => self,
        }
    }

    /// The manager after a call on connections.
    #[verifier::opaque]
    pub open spec fn after_connection_call(self, call: Call) -> ManagerView {
        match call {
            Call::Dialing(id, enr) => self.register_peer(id, ConnectingType::Dialing, enr),
            Call::Connection(id, connection, enr) => self.inject_peer_connection(
                id,
                connection,
                enr,
            ),
            Call::Established(
                id,
                endpoint,
                num_established,
                enr,
                now,
            ) => self.inject_connection_established(id, endpoint, num_established, enr, now),
            Call::Closed(id, endpoint, num_established) => self.inject_connection_closed(
                id,
                endpoint,
                num_established,
            ),
            _ => self,
        }
    }

    /// The manager after a call on what a peer tells of itself.
    #[verifier::opaque]
    pub open spec fn after_message_call(self, call: Call) -> ManagerView {
        match call {
            Call::Identify(id, client, listen_addrs) => self.identify(id, client, listen_addrs),
            Call::Ping(id, seq) => self.ping_request(id, seq),
            Call::Pong(id, seq) => self.pong_response(id, seq),
            Call::MetaData(id, meta_data) => self.meta_data_response(id, meta_data),
            Call::AddSubscription(id, subnet) => self.with_subscription(id, subnet),
            Call::RemoveSubscription(id, subnet) => self.without_subscription(id, subnet),
            Call::RemoveAllSubscriptions(id) => self.without_subscriptions(id),
            _ => self,
        }
    }

    /// The manager after a call on all else.
    #[verifier::opaque]
    pub open spec fn after_other_call(self, call: Call) -> ManagerView {
        match call {
            Call::Discovered(results) => self.peers_discovered(results),
            Call::MaintainSubnets(now, subnets) => self.maintain_sync_committee_peers(
                now,
                subnets,
            ),
            Call::Poll(polled) => self.after_poll(polled),
            Call::Statusd(id) => ManagerView { status: self.status.insert(id), ..self },
            Call::AddSyncSubnet(subnet_id, min_ttl) => self.add_sync_subnet(subnet_id, min_ttl),
            Call::TakeMetrics => ManagerView { metrics: Seq::empty(), ..self },
            Call::TakeCommands(timer) => self.without_commands(timer),
            Call::SetSyncState(sync_state) => ManagerView { sync_state, ..self },
            Call::SetLocalPort(local_udp_port) => ManagerView { local_udp_port, ..self },
            _ => self,
        }
    }

    /// The manager after a call.
    pub open spec fn after_call(self, call: Call) -> ManagerView {
        match call {
            Call::Report(..)
            | Call::RpcError(..)
            | Call::UpdateScores(..)
            | Call::UpdateGossipsubScores(..)
            | Call::BanAndUnban(..)
            | Call::Heartbeat(..) => self.after_score_call(call),
            Call::Goodbye(..)
            | Call::Ban(..)
            | Call::Unban(..)
            | Call::Disconnect(..)
            | Call::Disconnected(..)
            | Call::DialFailure(..) => self.after_ban_call(call),
            Call::Dialing(..)
            | Call::Connection(..)
            | Call::Established(..)
            | Call::Closed(..) => self.after_connection_call(call),
            Call::Identify(..)
            | Call::Ping(..)
            | Call::Pong(..)
            | Call::MetaData(..)
            | Call::AddSubscription(..)
            | Call::RemoveSubscription(..)
            | Call::RemoveAllSubscriptions(..) => self.after_message_call(call),
            _ => self.after_other_call(call),
        }
    }

    /// The manager after some calls, one after the other.
    pub open spec fn after_calls(self, calls: Seq<Call>) -> ManagerView
        decreases calls.len(),
    {
        if calls.len() == 0 {
            self
        } else {
            self.after_calls(calls.drop_last()).after_call(calls.last())
        }
    }
}

} // verus!
