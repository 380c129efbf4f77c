//! What each call does: to the peer it is about, to all others, and to what waits to be done.

use crate::event::{EventView, MetricUpdate};
use crate::laws::same_clocks;
use crate::manager::{
    ConnectingType, ManagerView, NetworkGlobals, PING_INTERVAL_INBOUND, PING_INTERVAL_OUTBOUND,
    STATUS_INTERVAL,
};
use crate::meaning::{
    addresses_are_banned_by_peers, bans_go_by_standing, over_limit_among, standing_follows_status,
};
use crate::network::{
    ClientView, ConnectedPoint, ConnectionDirection, GoodbyeReason, Instant, IpAddr, MetaDataView,
    MultiaddrView, NetworkConfig, PeerId, PeerSyncStatus, Subnet, SubnetDiscovery, SyncState,
    SyncSubnetId,
};
use crate::peer_info::{PeerConnectionStatus, PeerInfoView};
use crate::peerdb::{BanResult, PeerClass};
use crate::poll::{PeerTimer, PollStepView, Polled, TimerPoll};
use crate::score::{PeerAction, ReportSource, Score, ScoreState};
use vstd::prelude::*;

verus! {

/// Of all peers but one, what is known is as it was.
pub open spec fn spares_others(before: ManagerView, after: ManagerView, id: PeerId) -> bool {
    &&& forall|other: PeerId|
        other != id ==> #[trigger] after.db.info(other) == before.db.info(other)
            && after.db.knows(other) == before.db.knows(other)
    &&& after.db.banned_peers_per_ip == before.db.banned_peers_per_ip
}

/// What nothing but the node's owner sets, and the sync committee subnets, are as they were.
pub open spec fn same_settings(before: ManagerView, after: ManagerView) -> bool {
    &&& after.sync_state == before.sync_state
    &&& after.local_udp_port == before.local_udp_port
    &&& after.target_peers == before.target_peers
    &&& after.target_subnet_peers == before.target_subnet_peers
    &&& after.discovery_enabled == before.discovery_enabled
    &&& after.sync_committee_subnets == before.sync_committee_subnets
}

/// Nothing changed but what is known of one peer.
pub open spec fn touches_record_only(before: ManagerView, after: ManagerView, id: PeerId) -> bool {
    &&& spares_others(before, after, id)
    &&& same_settings(before, after)
    &&& same_clocks(before, after)
    &&& after.events == before.events
    &&& after.metrics == before.metrics
}

/// Where a ban leaves a peer: on its way out, to be banned then, or banned.
pub open spec fn standing_after_ban(status: PeerConnectionStatus) -> PeerConnectionStatus {
    match status {
        PeerConnectionStatus::Connected { .. } => PeerConnectionStatus::Disconnecting {
            to_ban: true,
        },
        PeerConnectionStatus::Dialing => PeerConnectionStatus::Disconnecting { to_ban: true },
        PeerConnectionStatus::Disconnecting { .. } => PeerConnectionStatus::Disconnecting {
            to_ban: true,
        },
        PeerConnectionStatus::Disconnected => PeerConnectionStatus::Banned,
        PeerConnectionStatus::Banned => PeerConnectionStatus::Banned,
        PeerConnectionStatus::Unknown => PeerConnectionStatus::Banned,
    }
}

/// The score that a fatal action leaves.
pub open spec fn worst_score(score: Score) -> Score {
    Score { rank: i64::MIN, state: ScoreState::Banned, good_gossipsub: score.good_gossipsub }
}

/// What a ban asks for: to disconnect a peer that is with us or being dialed, nothing of one that
/// is on its way out, and to ban any other, with those of its IP addresses that are banned by now.
pub open spec fn asked_by_ban(
    status: PeerConnectionStatus,
    id: PeerId,
    reason: GoodbyeReason,
    banned_ips: Seq<IpAddr>,
) -> Seq<EventView> {
    match status {
        PeerConnectionStatus::Connected { .. } => seq![EventView::DisconnectPeer(id, reason)],
        PeerConnectionStatus::Dialing => seq![EventView::DisconnectPeer(id, reason)],
        PeerConnectionStatus::Disconnecting { .. } => seq![],
        _ => seq![EventView::Banned(id, banned_ips)],
    }
}

/// A manager starts with nothing to do, and with what it was given.
pub proof fn managers_start_idle(config: NetworkConfig, globals: NetworkGlobals)
    ensures
        ({
            let view = ManagerView::initial(config, globals);
            &&& view.db == globals.peers@
            &&& view.sync_state == globals.sync_state
            &&& view.local_udp_port == globals.local_udp_port
            &&& view.events.len() == 0 && view.metrics.len() == 0
            &&& view.inbound_ping.commands.len() == 0 && view.inbound_ping.interval
                == PING_INTERVAL_INBOUND
            &&& view.outbound_ping.commands.len() == 0 && view.outbound_ping.interval
                == PING_INTERVAL_OUTBOUND
            &&& view.status.commands.len() == 0 && view.status.interval == STATUS_INTERVAL
            &&& forall|id: PeerId|
                !view.inbound_ping.waiting.contains(id) && !view.outbound_ping.waiting.contains(id)
                    && !#[trigger] view.status.waiting.contains(id)
            &&& forall|subnet: SyncSubnetId|
                !#[trigger] view.sync_committee_subnets.contains_key(subnet)
            &&& view.target_peers == config.target_peers
            &&& view.target_subnet_peers == config.target_subnet_peers
            &&& view.discovery_enabled == !config.disable_discovery
        }),
{
}

/// What a ban does.
pub proof fn ban_effect(view: ManagerView, id: PeerId, reason: GoodbyeReason)
    ensures
        ({
            let after = view.ban_peer(id, reason);
            let info = view.db.info(id);
            &&& after.db.knows(id)
            &&& after.db.info(id) == (PeerInfoView {
                connection_status: standing_after_ban(info.connection_status),
                score: if info.score.state == ScoreState::Banned {
                    info.score
                } else {
                    worst_score(info.score)
                },
                ..info
            })
            &&& after.events == view.events + asked_by_ban(
                info.connection_status,
                id,
                reason,
                over_limit_among(after.db, info.seen_addresses),
            )
            &&& spares_others(view, after, id)
            &&& same_settings(view, after)
            &&& same_clocks(view, after)
            &&& after.metrics == view.metrics
        }),
{
    let after = view.ban_peer(id, reason);
    let info = view.db.info(id);
    bans_go_by_standing(view.db, id);
    addresses_are_banned_by_peers(after.db, info.seen_addresses, IpAddr::V4(0));
    assert(after.events =~= view.events + asked_by_ban(
        info.connection_status,
        id,
        reason,
        over_limit_among(after.db, info.seen_addresses),
    ));
}

/// What an unban does: nothing, unless the peer is banned and its score is not one that bans.
pub proof fn unban_effect(view: ManagerView, id: PeerId)
    ensures
        ({
            let after = view.unban_peer(id);
            let info = view.db.info(id);
            if info.connection_status == PeerConnectionStatus::Banned && info.score.state
                != ScoreState::Banned {
                &&& after.db.info(id) == (PeerInfoView {
                    connection_status: PeerConnectionStatus::Disconnected,
                    ..info
                })
                &&& after.events == view.events.push(EventView::UnBanned(id, info.seen_addresses))
                &&& spares_others(view, after, id)
                &&& same_settings(view, after)
                &&& same_clocks(view, after)
                &&& after.metrics == view.metrics
            } else {
                after == view
            }
        }),
{
    bans_go_by_standing(view.db, id);
}

/// What telling a peer to go does.
pub proof fn disconnect_effect(view: ManagerView, id: PeerId, reason: GoodbyeReason)
    ensures
        ({
            let after = view.disconnect_peer(id, reason);
            &&& after.db.knows(id)
            &&& after.db.info(id) == (PeerInfoView {
                connection_status: PeerConnectionStatus::Disconnecting { to_ban: false },
                ..view.db.info(id)
            })
            &&& after.events == view.events.push(EventView::DisconnectPeer(id, reason))
            &&& spares_others(view, after, id)
            &&& same_settings(view, after)
            &&& same_clocks(view, after)
            &&& after.metrics == view.metrics
        }),
{
}

/// What a goodbye does: the score becomes the worst, the peer is told to go or banned, and the
/// action is counted if the peer was known.
pub proof fn goodbye_effect(
    view: ManagerView,
    id: PeerId,
    reason: GoodbyeReason,
    source: ReportSource,
)
    ensures
        ({
            let after = view.goodbye_peer(id, reason, source);
            let info = view.db.info(id);
            &&& after.db.knows(id)
            &&& after.db.info(id) == (PeerInfoView {
                connection_status: standing_after_ban(info.connection_status),
                score: worst_score(info.score),
                sync_status: if view.db.knows(id) && reason == GoodbyeReason::IrrelevantNetwork {
                    PeerSyncStatus::IrrelevantPeer
                } else {
                    info.sync_status
                },
                ..info
            })
            &&& after.events == view.events + asked_by_ban(
                info.connection_status,
                id,
                reason,
                over_limit_among(after.db, info.seen_addresses),
            )
            &&& after.metrics == if view.db.knows(id) {
                view.metrics.push(
                    MetricUpdate::PeerAction(info.client.kind, PeerAction::Fatal, source),
                )
            } else {
                view.metrics
            }
            &&& spares_others(view, after, id)
            &&& same_settings(view, after)
            &&& same_clocks(view, after)
        }),
{
    let condemned = view.condemn(id, reason, source);
    ban_effect(condemned, id, reason);
    let after = view.goodbye_peer(id, reason, source);
    assert forall|other: PeerId| other != id implies #[trigger] after.db.info(other)
        == view.db.info(other) && after.db.knows(other) == view.db.knows(other) by {
        assert(after.db.info(other) == condemned.db.info(other));
    }
}

/// One more than a counter of connections, which stops at its end.
pub open spec fn counted_up(n: u32) -> u32 {
    if n == u32::MAX {
        u32::MAX
    } else {
        (n + 1) as u32
    }
}

/// The IP addresses that a peer was seen on, with another one.
pub open spec fn with_address(seen: Seq<IpAddr>, ip: Option<IpAddr>) -> Seq<IpAddr> {
    match ip {
        Some(ip) => if seen.contains(ip) {
            seen
        } else {
            seen.push(ip)
        },
        None => seen,
    }
}

/// What dialing a peer does: it is being dialed from then on, unless it is with us, on its way out
/// or being dialed already.
pub proof fn dialing_effect(view: ManagerView, id: PeerId, enr: Option<Seq<char>>)
    ensures
        ({
            let after = view.register_peer(id, ConnectingType::Dialing, enr);
            let info = view.db.info(id);
            let status = info.connection_status;
            &&& after == view.inject_peer_connection(id, ConnectingType::Dialing, enr)
            &&& after.db.knows(id)
            &&& after.db.info(id) == (PeerInfoView {
                enr,
                connection_status: if status is Connected || status is Disconnecting {
                    status
                } else {
                    PeerConnectionStatus::Dialing
                },
                ..info
            })
            &&& touches_record_only(view, after, id)
        }),
{
}

/// What a connection does that is registered: the peer has one more, of the direction that its
/// first one had, was seen on the address, and waits to be pinged and sent our status.
pub proof fn connection_effect(
    view: ManagerView,
    id: PeerId,
    connection: ConnectingType,
    enr: Option<Seq<char>>,
)
    requires
        !(connection is Dialing),
    ensures
        ({
            let after = view.register_peer(id, connection, enr);
            let info = view.db.info(id);
            let incoming = connection is IngoingConnected;
            let ip = match connection {
                ConnectingType::IngoingConnected { multiaddr } => multiaddr.ip,
                ConnectingType::OutgoingConnected { multiaddr } => multiaddr.ip,
                ConnectingType::Dialing => None,
            };
            &&& view.inject_peer_connection(id, connection, enr) == if view.db.ban_status(
                id,
            ) is NotBanned {
                after
            } else {
                view
            }
            &&& after.db.knows(id)
            &&& after.db.info(id) == (PeerInfoView {
                enr,
                connection_status: match (info.connection_status, incoming) {
                    (PeerConnectionStatus::Connected { n_in, n_out }, true) =>
                        PeerConnectionStatus::Connected { n_in: counted_up(n_in), n_out },
                    (PeerConnectionStatus::Connected { n_in, n_out }, false) =>
                        PeerConnectionStatus::Connected { n_in, n_out: counted_up(n_out) },
                    (_, true) => PeerConnectionStatus::Connected { n_in: 1, n_out: 0 },
                    (_, false) => PeerConnectionStatus::Connected { n_in: 0, n_out: 1 },
                },
                connection_direction: if info.connection_status is Connected {
                    info.connection_direction
                } else if incoming {
                    Some(ConnectionDirection::Incoming)
                } else {
                    Some(ConnectionDirection::Outgoing)
                },
                seen_addresses: with_address(info.seen_addresses, ip),
                ..info
            })
            &&& spares_others(view, after, id)
            &&& same_settings(view, after)
            &&& after.events == view.events
            &&& after.metrics == view.metrics
            &&& after.status == view.status.insert(id)
            &&& after.inbound_ping == if incoming {
                view.inbound_ping.insert(id)
            } else {
                view.inbound_ping
            }
            &&& after.outbound_ping == if incoming {
                view.outbound_ping
            } else {
                view.outbound_ping.insert(id)
            }
        }),
{
}

/// What the end of a peer's connections leaves of it.
pub open spec fn info_after_end(info: PeerInfoView) -> PeerInfoView {
    let to_ban = info.connection_status == (PeerConnectionStatus::Disconnecting { to_ban: true });
    PeerInfoView {
        connection_status: if to_ban || info.connection_status == PeerConnectionStatus::Banned {
            PeerConnectionStatus::Banned
        } else {
            PeerConnectionStatus::Disconnected
        },
        score: if to_ban && info.score.state != ScoreState::Banned {
            worst_score(info.score)
        } else {
            info.score
        },
        ..info
    }
}

/// What the end of a peer's connections does: it is disconnected, or banned if it was to be, which
/// is asked for then, and it waits for nothing. It does so for a failed dial too, unless the peer
/// is connected.
pub proof fn disconnected_effect(view: ManagerView, id: PeerId)
    ensures
        ({
            let after = view.inject_disconnect(id);
            let info = view.db.info(id);
            &&& after.db.knows(id)
            &&& after.db.info(id) == info_after_end(info)
            &&& after.events == if info.connection_status == (PeerConnectionStatus::Disconnecting {
                to_ban: true,
            }) {
                view.events.push(
                    EventView::Banned(id, over_limit_among(after.db, info.seen_addresses)),
                )
            } else {
                view.events
            }
            &&& spares_others(view, after, id)
            &&& same_settings(view, after)
            &&& after.metrics == view.metrics
            &&& after.inbound_ping == view.inbound_ping.remove(id)
            &&& after.outbound_ping == view.outbound_ping.remove(id)
            &&& after.status == view.status.remove(id)
            &&& view.inject_dial_failure(id) == if info.connection_status is Connected {
                view
            } else {
                after
            }
        }),
{
    let after = view.inject_disconnect(id);
    let info = view.db.info(id);
    let gone = ManagerView { db: view.db.disconnected_peer(id), ..view };
    standing_follows_status(info, 0);
    ban_effect(gone, id, GoodbyeReason::BadScore);
    let banned = gone.ban_peer(id, GoodbyeReason::BadScore);
    assert forall|other: PeerId| other != id implies #[trigger] after.db.info(other)
        == view.db.info(other) && after.db.knows(other) == view.db.knows(other) by {
        assert(gone.db.info(other) == view.db.info(other));
        assert(banned.db.info(other) == gone.db.info(other));
    }
    if info.awaits_ban() {
        assert(after.db == banned.db);
        assert(after.events =~= view.events.push(
            EventView::Banned(id, over_limit_among(after.db, info.seen_addresses)),
        ));
    }
}

/// What is metered of a connection, whatever becomes of it.
pub open spec fn metered_at_opening(
    view: ManagerView,
    id: PeerId,
    endpoint: ConnectedPoint,
) -> Seq<MetricUpdate> {
    let checked = if view.local_udp_port is Some {
        view.metrics.push(MetricUpdate::CheckNat)
    } else {
        view.metrics
    };
    checked.push(
        match endpoint {
            ConnectedPoint::Listener { .. } => MetricUpdate::InboundOpened,
            ConnectedPoint::Dialer { .. } => MetricUpdate::OutboundOpened,
        },
    ).push(MetricUpdate::ClientConnected(view.db.info(id).client.kind))
}

/// The connection that an endpoint stands for.
pub open spec fn connection_of(endpoint: ConnectedPoint) -> ConnectingType {
    match endpoint {
        ConnectedPoint::Listener { send_back_addr } => ConnectingType::IngoingConnected {
            multiaddr: send_back_addr,
        },
        ConnectedPoint::Dialer { address } => ConnectingType::OutgoingConnected {
            multiaddr: address,
        },
    }
}

/// What an opened connection does: to a banned peer what a goodbye does, for the reason of the ban;
/// to one too many what telling it to go does; and to any other what registering the connection
/// does. The first one is made known.
pub proof fn established_effect(
    view: ManagerView,
    id: PeerId,
    endpoint: ConnectedPoint,
    num_established: u32,
    enr: Option<Seq<char>>,
    now: Instant,
)
    ensures
        ({
            let after = view.inject_connection_established(id, endpoint, num_established, enr, now);
            let opening = metered_at_opening(view, id, endpoint);
            let surplus = view.peer_limit_reached() && !view.db.info(id).has_future_duty(now);
            match view.db.ban_status(id) {
                BanResult::NotBanned => if surplus {
                    let told = view.disconnect_peer(id, GoodbyeReason::TooManyPeers);
                    after == ManagerView { metrics: opening, ..told }
                } else {
                    let registered = view.register_peer(id, connection_of(endpoint), enr);
                    if num_established == 1 {
                        after == (ManagerView {
                            metrics: opening.push(MetricUpdate::PeerConnectEvent).push(
                                MetricUpdate::PeersConnected(
                                    registered.db.members(PeerClass::Connected).len() as usize,
                                ),
                            ),
                            events: view.events.push(
                                match endpoint {
                                    ConnectedPoint::Listener { .. } =>
                                        EventView::PeerConnectedIncoming(id),
                                    ConnectedPoint::Dialer { .. } =>
                                        EventView::PeerConnectedOutgoing(id),
                                },
                            ),
                            ..registered
                        })
                    } else {
                        after == ManagerView { metrics: opening, ..registered }
                    }
                },
                BanResult::BadScore => {
                    let told = view.goodbye_peer(
                        id,
                        GoodbyeReason::Banned,
                        ReportSource::PeerManager,
                    );
                    after == ManagerView { metrics: opening + told.metrics.skip(
                        view.metrics.len() as int,
                    ), ..told }
                },
                BanResult::BannedIp(_) => {
                    let told = view.goodbye_peer(
                        id,
                        GoodbyeReason::BannedIP,
                        ReportSource::PeerManager,
                    );
                    after == ManagerView { metrics: opening + told.metrics.skip(
                        view.metrics.len() as int,
                    ), ..told }
                },
            }
        }),
{
    let after = view.inject_connection_established(id, endpoint, num_established, enr, now);
    let opening = metered_at_opening(view, id, endpoint);
    let metered = view.meter_connection(id, endpoint);
    assert(metered == ManagerView { metrics: opening, ..view });
    let banned = view.goodbye_peer(id, GoodbyeReason::Banned, ReportSource::PeerManager);
    let banned_ip = view.goodbye_peer(id, GoodbyeReason::BannedIP, ReportSource::PeerManager);
    if view.db.ban_status(id) is BadScore {
        assert(after.metrics =~= opening + banned.metrics.skip(view.metrics.len() as int));
    }
    if view.db.ban_status(id) is BannedIp {
        assert(after.metrics =~= opening + banned_ip.metrics.skip(view.metrics.len() as int));
    }
}

/// What a closed connection does: nothing while others are left. The last one ends the peer's
/// subscriptions and connections. That a peer which was connected, or told to go, is gone is made
/// known just once, whoever opened the connection, and before a ban is asked for.
pub proof fn closed_effect(
    view: ManagerView,
    id: PeerId,
    endpoint: ConnectedPoint,
    num_established: u32,
)
    ensures
        ({
            let after = view.inject_connection_closed(id, endpoint, num_established);
            let info = view.db.info(id);
            let status = info.connection_status;
            if num_established > 0 {
                after == view
            } else {
                &&& after.db.knows(id)
                &&& after.db.info(id) == (PeerInfoView {
                    subnets: Set::empty(),
                    ..info_after_end(info)
                })
                &&& after.events == view.events + (if status is Connected || status
                    is Disconnecting {
                    seq![EventView::PeerDisconnected(id)]
                } else {
                    seq![]
                }) + (if status == (PeerConnectionStatus::Disconnecting { to_ban: true }) {
                    seq![
                        EventView::Banned(id, over_limit_among(after.db, info.seen_addresses)),
                    ]
                } else {
                    seq![]
                })
                &&& after.metrics == view.metrics + (if view.db.knows(id) {
                    seq![MetricUpdate::ClientDisconnected(info.client.kind)]
                } else {
                    seq![]
                }) + seq![
                    MetricUpdate::PeerDisconnectEvent,
                    MetricUpdate::PeersConnected(
                        after.db.members(PeerClass::Connected).len() as usize,
                    ),
                    match endpoint {
                        ConnectedPoint::Listener { .. } => MetricUpdate::InboundClosed,
                        ConnectedPoint::Dialer { .. } => MetricUpdate::OutboundClosed,
                    },
                ]
                &&& spares_others(view, after, id)
                &&& same_settings(view, after)
                &&& after.inbound_ping == view.inbound_ping.remove(id)
                &&& after.outbound_ping == view.outbound_ping.remove(id)
                &&& after.status == view.status.remove(id)
            }
        }),
{
    let after = view.inject_connection_closed(id, endpoint, num_established);
    let info = view.db.info(id);
    let status = info.connection_status;
    if num_established == 0 {
        let unsubscribed = view.without_subscriptions(id);
        assert(unsubscribed.db.info(id) == (PeerInfoView { subnets: Set::empty(), ..info })) by {
            assert(PeerInfoView::unknown().subnets =~= Set::empty());
        }
        let told = if status is Connected || status is Disconnecting {
            unsubscribed.push(EventView::PeerDisconnected(id))
        } else {
            unsubscribed
        };
        let metered = if view.db.knows(id) {
            told.meter(MetricUpdate::ClientDisconnected(info.client.kind))
        } else {
            told
        };
        disconnected_effect(metered, id);
        let gone = metered.inject_disconnect(id);
        assert(after.db == gone.db && after.events == gone.events);
        assert forall|other: PeerId| other != id implies #[trigger] after.db.info(other)
            == view.db.info(other) && after.db.knows(other) == view.db.knows(other) by {
            assert(gone.db.info(other) == metered.db.info(other));
        }
        let banned = EventView::Banned(id, over_limit_among(after.db, info.seen_addresses));
        assert(after.events =~= view.events + (if status is Connected || status is Disconnecting {
            seq![EventView::PeerDisconnected(id)]
        } else {
            seq![]
        }) + (if status == (PeerConnectionStatus::Disconnecting { to_ban: true }) {
            seq![banned]
        } else {
            seq![]
        }));
        assert(after.metrics =~= view.metrics + (if view.db.knows(id) {
            seq![MetricUpdate::ClientDisconnected(info.client.kind)]
        } else {
            seq![]
        }) + seq![
            MetricUpdate::PeerDisconnectEvent,
            MetricUpdate::PeersConnected(after.db.members(PeerClass::Connected).len() as usize),
            match endpoint {
                ConnectedPoint::Listener { .. } => MetricUpdate::InboundClosed,
                ConnectedPoint::Dialer { .. } => MetricUpdate::OutboundClosed,
            },
        ]);
    }
}

/// What an identity does: it is noted of a known peer. Of one that is connected, or on its way out,
/// the count of peers by client moves if the client or the addresses are news.
pub proof fn identify_effect(
    view: ManagerView,
    id: PeerId,
    client: ClientView,
    listen_addrs: Seq<MultiaddrView>,
)
    ensures
        ({
            let after = view.identify(id, client, listen_addrs);
            let info = view.db.info(id);
            let status = info.connection_status;
            if !view.db.knows(id) {
                after == view
            } else {
                &&& after.db.knows(id)
                &&& after.db.info(id) == (PeerInfoView {
                    client,
                    listening_addresses: listen_addrs,
                    ..info
                })
                &&& after.metrics == if (status is Connected || status is Disconnecting) && (
                info.client.kind != client.kind || info.listening_addresses != listen_addrs) {
                    view.metrics.push(MetricUpdate::ClientConnected(client.kind)).push(
                        MetricUpdate::ClientDisconnected(info.client.kind),
                    )
                } else {
                    view.metrics
                }
                &&& spares_others(view, after, id)
                &&& same_settings(view, after)
                &&& same_clocks(view, after)
                &&& after.events == view.events
            }
        }),
{
}

/// What a ping, a pong and an announcement do: a known peer is asked for its announcement if it
/// tells of a later one than is known, or none is; a ping also starts the clock of its direction
/// anew; an announcement replaces the one before.
pub proof fn messages_effect(view: ManagerView, id: PeerId, seq: u64, meta_data: MetaDataView)
    ensures
        ({
            let info = view.db.info(id);
            let ponged = view.pong_response(id, seq);
            let pinged = view.ping_request(id, seq);
            let announced = view.meta_data_response(id, meta_data);
            let news = info.meta_data is None || info.meta_data->0.seq_number() < seq;
            if !view.db.knows(id) {
                ponged == view && pinged == view && announced == view
            } else {
                &&& ponged == if news {
                    ManagerView { events: view.events.push(EventView::MetaData(id)), ..view }
                } else {
                    view
                }
                &&& pinged == (ManagerView {
                    inbound_ping: if info.connection_direction == Some(
                        ConnectionDirection::Incoming,
                    ) {
                        view.inbound_ping.insert(id)
                    } else {
                        view.inbound_ping
                    },
                    outbound_ping: if info.connection_direction == Some(
                        ConnectionDirection::Outgoing,
                    ) {
                        view.outbound_ping.insert(id)
                    } else {
                        view.outbound_ping
                    },
                    ..ponged
                })
                &&& announced.db.knows(id)
                &&& announced.db.info(id) == (PeerInfoView { meta_data: Some(meta_data), ..info })
                &&& touches_record_only(view, announced, id)
            }
        }),
{
}

/// What subscriptions do: they change what a known peer is subscribed to, and nothing else.
pub proof fn subscriptions_effect(view: ManagerView, id: PeerId, subnet: Subnet, other: Subnet)
    ensures
        ({
            let more = view.with_subscription(id, subnet);
            let fewer = view.without_subscription(id, subnet);
            let none = view.without_subscriptions(id);
            let info = view.db.info(id);
            if !view.db.knows(id) {
                more == view && fewer == view && none == view
            } else {
                &&& more.db.info(id).subnets.contains(other) <==> other == subnet
                    || info.subnets.contains(other)
                &&& fewer.db.info(id).subnets.contains(other) <==> other != subnet
                    && info.subnets.contains(other)
                &&& !none.db.info(id).subnets.contains(other)
                &&& more.db.info(id) == (PeerInfoView {
                    subnets: more.db.info(id).subnets,
                    ..info
                })
                &&& fewer.db.info(id) == (PeerInfoView {
                    subnets: fewer.db.info(id).subnets,
                    ..info
                })
                &&& none.db.info(id) == (PeerInfoView {
                    subnets: none.db.info(id).subnets,
                    ..info
                })
                &&& touches_record_only(view, more, id)
                &&& touches_record_only(view, fewer, id)
                &&& touches_record_only(view, none, id)
            }
        }),
{
}

/// What a need for a sync committee subnet does: the subnet is needed until then at least, for as
/// long as it was before, and the others as before.
pub proof fn sync_subnet_effect(
    view: ManagerView,
    subnet: SyncSubnetId,
    min_ttl: Instant,
    other: SyncSubnetId,
)
    ensures
        ({
            let after = view.add_sync_subnet(subnet, min_ttl);
            let before = view.sync_committee_subnets;
            &&& after.sync_committee_subnets.contains_key(other) <==> other == subnet
                || before.contains_key(other)
            &&& other != subnet && before.contains_key(other)
                ==> after.sync_committee_subnets[other] == before[other]
            &&& after.sync_committee_subnets[subnet] == if before.contains_key(subnet)
                && before[subnet] > min_ttl {
                before[subnet]
            } else {
                min_ttl
            }
            &&& after == (ManagerView {
                sync_committee_subnets: after.sync_committee_subnets,
                ..view
            })
        }),
{
}

/// What maintenance does: a subnet stays needed just if it is needed later than now, and as long.
/// Peers are asked for once, on just those needed subnets that fewer good peers are on than wanted,
/// and until when the subnet is needed; for none, nothing is asked.
pub proof fn maintenance_effect(
    view: ManagerView,
    now: Instant,
    subnets: Seq<SyncSubnetId>,
    subnet: SyncSubnetId,
)
    requires
        view.expire_subnets(now).subnets_to_discover(subnets),
    ensures
        ({
            let after = view.maintain_sync_committee_peers(now, subnets);
            let before = view.sync_committee_subnets;
            let needed = before.contains_key(subnet) && before[subnet] > now;
            &&& after.sync_committee_subnets.contains_key(subnet) <==> needed
            &&& needed ==> after.sync_committee_subnets[subnet] == before[subnet]
            &&& after == (ManagerView {
                sync_committee_subnets: after.sync_committee_subnets,
                events: after.events,
                ..view
            })
            &&& subnets.len() == 0 ==> after.events == view.events
            &&& subnets.len() > 0 ==> after.events.len() == view.events.len() + 1
                && after.events.drop_last() == view.events && (after.events.last() matches
                EventView::DiscoverSubnetPeers(requests) && requests.len() == subnets.len()
                && requests.no_duplicates() && (requests.contains(
                SubnetDiscovery {
                    subnet: Subnet::SyncCommittee(subnet),
                    min_ttl: Some(before[subnet]),
                },
            ) <==> needed && view.db.members(
                PeerClass::GoodOnSubnet(Subnet::SyncCommittee(subnet)),
            ).len() < view.target_subnet_peers) && forall|i: int|
                0 <= i < requests.len() ==> (#[trigger] requests[i]).subnet is SyncCommittee)
            &&& needed && view.db.members(
                PeerClass::GoodOnSubnet(Subnet::SyncCommittee(subnet)),
            ).len() < view.target_subnet_peers ==> subnets.len() > 0
        }),
{
    let live = view.expire_subnets(now);
    let after = view.maintain_sync_committee_peers(now, subnets);
    let before = view.sync_committee_subnets;
    let needed = before.contains_key(subnet) && before[subnet] > now;
    let lacks = needed && view.db.members(
        PeerClass::GoodOnSubnet(Subnet::SyncCommittee(subnet)),
    ).len() < view.target_subnet_peers;
    assert(subnets.contains(subnet) <==> live.lacks_subnet_peers(subnet));
    assert(live.lacks_subnet_peers(subnet) <==> lacks);
    if subnets.len() > 0 {
        let requests = subnets.map_values(|subnet: SyncSubnetId| live.subnet_request(subnet));
        let request = SubnetDiscovery {
            subnet: Subnet::SyncCommittee(subnet),
            min_ttl: Some(before[subnet]),
        };
        assert(after.events.drop_last() =~= view.events);
        assert(after.events.last() == EventView::DiscoverSubnetPeers(requests));
        assert(requests.no_duplicates()) by {
            assert forall|i: int, j: int|
                0 <= i < requests.len() && 0 <= j < requests.len() && i != j implies requests[i]
                != requests[j] by {
                assert(subnets[i] != subnets[j]);
            }
        }
        if lacks {
            let i = choose|i: int| 0 <= i < subnets.len() && subnets[i] == subnet;
            assert(requests[i] == request);
        }
        if requests.contains(request) {
            let i = choose|i: int| 0 <= i < requests.len() && requests[i] == request;
            assert(subnets[i] == subnet);
        }
    }
}

/// What a poll does at each step: the heartbeat comes first, then the clocks for pings to peers
/// that connected to us and to those we connected to, each until none has run out, then those for
/// our status unless we sync, then the oldest event, if there is one.
pub proof fn poll_effect(view: ManagerView, timer: PeerTimer, id: PeerId)
    ensures
        ({
            let syncing = view.sync_state == SyncState::SyncingFinalized || view.sync_state
                == SyncState::SyncingHead;
            let expired = Polled::Timer(timer, TimerPoll::Expired(id));
            let failed = Polled::Timer(timer, TimerPoll::Failed);
            let inbound = Polled::Timer(PeerTimer::InboundPing, TimerPoll::Idle);
            let outbound = Polled::Timer(PeerTimer::OutboundPing, TimerPoll::Idle);
            let status = Polled::Timer(PeerTimer::Status, TimerPoll::Idle);
            let emitted = if view.events.len() == 0 {
                view
            } else {
                ManagerView { events: view.events.skip(1), ..view }
            };
            let step = if view.events.len() == 0 {
                PollStepView::Pending
            } else {
                PollStepView::Ready(view.events.first())
            };
            &&& view.next_poll(Polled::Heartbeat(true)) == PollStepView::RunHeartbeat
            &&& view.after_poll(Polled::Heartbeat(true)) == view
            &&& view.next_poll(Polled::Heartbeat(false)) == PollStepView::PollTimer(
                PeerTimer::InboundPing,
            )
            &&& view.after_poll(Polled::Heartbeat(false)) == view
            &&& view.next_poll(failed) == PollStepView::PollTimer(timer)
            &&& view.after_poll(failed) == view
            &&& view.next_poll(expired) == PollStepView::PollTimer(timer)
            &&& view.after_poll(expired) == match timer {
                PeerTimer::InboundPing => ManagerView {
                    inbound_ping: view.inbound_ping.insert(id),
                    events: view.events.push(EventView::Ping(id)),
                    ..view
                },
                PeerTimer::OutboundPing => ManagerView {
                    outbound_ping: view.outbound_ping.insert(id),
                    events: view.events.push(EventView::Ping(id)),
                    ..view
                },
                PeerTimer::Status => ManagerView {
                    status: view.status.insert(id),
                    events: view.events.push(EventView::Status(id)),
                    ..view
                },
            }
            &&& view.next_poll(inbound) == PollStepView::PollTimer(PeerTimer::OutboundPing)
            &&& view.after_poll(inbound) == view
            &&& !syncing ==> view.next_poll(outbound) == PollStepView::PollTimer(PeerTimer::Status)
            &&& !syncing ==> view.after_poll(outbound) == view
            &&& syncing ==> view.next_poll(outbound) == step
            &&& syncing ==> view.after_poll(outbound) == emitted
            &&& view.next_poll(status) == step
            &&& view.after_poll(status) == emitted
        }),
{
    if view.events.len() > 0 {
        assert(view.events.skip(1) =~= view.events.drop_first());
    }
}

} // verus!
