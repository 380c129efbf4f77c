//! What holds of the peer manager after every call.
//!
//! The fields of the manager are open to the caller. Of what can be done to the known peers
//! directly, `PeerDB::set_score` and `PeerDB::put_info` need not keep this: a banned peer can be
//! given a score that does not ban it, or be put down anew.

use crate::calls::Call;
use crate::event::{EventView, MetricUpdate};
use crate::gossip::{gossipsub_updates, GossipsubScore};
use crate::laws::discovery_changes_duties_only;
use crate::limits;
use crate::manager::{
    ConnectingType, ManagerView, NetworkGlobals, PING_INTERVAL_INBOUND, PING_INTERVAL_OUTBOUND,
    STATUS_INTERVAL,
};
use crate::network::{
    ConnectedPoint, ConnectionDirection, GoodbyeReason, Instant, NetworkConfig, PeerId, Protocol,
    RPCError, SyncSubnetId,
};
use crate::peer_info::PeerInfoView;
use crate::poll::Polled;
use crate::pruning::letting_go_spares_others;
use crate::reputation::{rpc_error_penalty, Rescoring};
use crate::score::{PeerAction, ReportSource, Score, ScoreOutlook};
use vstd::prelude::*;

verus! {

impl PeerInfoView {
    /// A peer is banned only while its score bans it, and was seen on each IP address once.
    pub open spec fn valid(self) -> bool {
        &&& self.is_banned() ==> self.score.state is Banned
        &&& self.seen_addresses.no_duplicates()
    }
}

impl ManagerView {
    /// The clocks of the peers run for their set times.
    pub open spec fn intervals_are_set(self) -> bool {
        &&& self.inbound_ping.interval == PING_INTERVAL_INBOUND
        &&& self.outbound_ping.interval == PING_INTERVAL_OUTBOUND
        &&& self.status.interval == STATUS_INTERVAL
    }

    /// All that is known of peers is valid, and their clocks run for their set times.
    pub open spec fn valid(self) -> bool {
        &&& forall|id: PeerId| #[trigger] self.db.knows(id) ==> self.db.peers[id].valid()
        &&& self.intervals_are_set()
    }
}

impl Rescoring {
    /// What is known of a peer is valid, but that it may yet have to be unbanned.
    spec fn nearly_valid_peer(self, id: PeerId) -> bool {
        let info = self.view.db.peers[id];
        info.seen_addresses.no_duplicates() && (info.valid() || self.to_unban.contains(id))
    }

    /// All is valid, but for peers that are yet to be unbanned.
    spec fn nearly_valid(self) -> bool {
        &&& forall|id: PeerId| #[trigger] self.view.db.knows(id) ==> self.nearly_valid_peer(id)
        &&& self.view.intervals_are_set()
    }
}

/// A new manager that knows nobody is valid.
pub proof fn new_managers_are_valid(config: NetworkConfig, globals: NetworkGlobals)
    requires
        globals.peers@.peers == Map::<PeerId, PeerInfoView>::empty(),
    ensures
        ManagerView::initial(config, globals).valid(),
{
}

/// In a valid manager, a peer that is banned by its standing is refused for its score.
pub proof fn bans_are_by_score(view: ManagerView, id: PeerId)
    requires
        view.valid(),
        view.db.info(id).is_banned(),
    ensures
        view.db.ban_status(id) is BadScore,
        !view.accepts(id),
        !view.db.should_dial(id),
{
    assert(view.db.knows(id));
}

/// A change of what is known of one peer to something valid keeps a manager valid.
proof fn lemma_one_peer(view: ManagerView, after: ManagerView, id: PeerId)
    requires
        view.valid(),
        after.intervals_are_set(),
        after.db.peers == view.db.peers.insert(id, after.db.peers[id]),
        view.db.info(id).valid() ==> after.db.peers[id].valid(),
    ensures
        after.valid(),
{
    assert(view.db.knows(id) ==> view.db.peers[id].valid());
    assert forall|other: PeerId| #[trigger] after.db.knows(
        other,
    ) implies after.db.peers[other].valid() by {
        assert(other != id ==> view.db.knows(other));
    }
}

/// Banning, unbanning, disconnecting and goodbyes keep a manager valid.
pub proof fn bans_keep_validity(
    view: ManagerView,
    id: PeerId,
    reason: GoodbyeReason,
    source: ReportSource,
)
    requires
        view.valid(),
    ensures
        view.ban_peer(id, reason).valid(),
        view.unban_peer(id).valid(),
        view.disconnect_peer(id, reason).valid(),
        view.goodbye_peer(id, reason, source).valid(),
        view.inject_disconnect(id).valid(),
        view.inject_dial_failure(id).valid(),
{
    lemma_one_peer(view, view.ban_peer(id, reason), id);
    if view.db.unban_refusal(id) is None {
        lemma_one_peer(view, view.unban_peer(id), id);
    }
    lemma_one_peer(view, view.disconnect_peer(id, reason), id);
    let condemned = view.condemn(id, reason, source);
    if view.db.knows(id) {
        lemma_one_peer(view, condemned, id);
    }
    lemma_one_peer(condemned, condemned.ban_peer(id, reason), id);
    let gone = ManagerView { db: view.db.disconnected_peer(id), ..view };
    lemma_one_peer(view, gone, id);
    lemma_one_peer(gone, gone.ban_peer(id, GoodbyeReason::BadScore), id);
    assert(view.inject_disconnect(id).db == if view.db.info(id).awaits_ban() {
        gone.ban_peer(id, GoodbyeReason::BadScore).db
    } else {
        gone.db
    });
}

proof fn lemma_rescore(before: Rescoring, id: PeerId, score: Score)
    requires
        before.nearly_valid(),
    ensures
        before.rescore(id, score).nearly_valid(),
{
    let after = before.rescore(id, score);
    if before.view.db.knows(id) {
        assert forall|other: PeerId| #[trigger] after.view.db.knows(
            other,
        ) implies after.nearly_valid_peer(other) by {
            assert(before.view.db.knows(other));
            vstd::seq_lib::lemma_seq_contains_after_push(before.to_unban, id, other);
        }
    }
}

proof fn lemma_rescore_all(before: Rescoring, updates: Seq<(PeerId, Score)>)
    requires
        before.nearly_valid(),
    ensures
        before.rescore_all(updates).nearly_valid(),
    decreases updates.len(),
{
    if updates.len() > 0 {
        lemma_rescore_all(before, updates.drop_last());
        lemma_rescore(
            before.rescore_all(updates.drop_last()),
            updates.last().0,
            updates.last().1,
        );
    }
}

proof fn lemma_ban_all(before: Rescoring, ids: Seq<PeerId>)
    requires
        before.nearly_valid(),
    ensures
        (Rescoring { view: before.view.ban_all(ids), ..before }).nearly_valid(),
    decreases ids.len(),
{
    if ids.len() > 0 {
        let rest = ids.drop_last();
        lemma_ban_all(before, rest);
        let view = before.view.ban_all(rest);
        let mid = Rescoring { view, ..before };
        let after = Rescoring { view: before.view.ban_all(ids), ..before };
        let last = ids.last();
        assert(view.db.knows(last) ==> mid.nearly_valid_peer(last));
        assert forall|other: PeerId| #[trigger] after.view.db.knows(
            other,
        ) implies after.nearly_valid_peer(other) by {
            assert(other != last ==> mid.view.db.knows(other));
        }
    }
}

proof fn lemma_unban_all(before: Rescoring, ids: Seq<PeerId>)
    requires
        before.nearly_valid(),
    ensures
        (Rescoring { view: before.view.unban_all(ids), ..before }).nearly_valid(),
        forall|id: PeerId| #[trigger]
            before.view.unban_all(ids).db.knows(id) && ids.contains(id)
                ==> before.view.unban_all(ids).db.peers[id].valid(),
    decreases ids.len(),
{
    if ids.len() > 0 {
        let rest = ids.drop_last();
        let last = ids.last();
        lemma_unban_all(before, rest);
        let mid = Rescoring { view: before.view.unban_all(rest), ..before };
        let after = Rescoring { view: before.view.unban_all(ids), ..before };
        assert(ids =~= rest.push(last));
        assert forall|other: PeerId| #[trigger] after.view.db.knows(
            other,
        ) implies after.nearly_valid_peer(other) && (ids.contains(other)
            ==> after.view.db.peers[other].valid()) by {
            assert(mid.view.db.knows(other));
            vstd::seq_lib::lemma_seq_contains_after_push(rest, last, other);
        }
    }
}

proof fn lemma_settle(rescored: Rescoring)
    requires
        rescored.nearly_valid(),
    ensures
        rescored.settle().valid(),
{
    lemma_ban_all(rescored, rescored.to_ban);
    let banned = Rescoring { view: rescored.view.ban_all(rescored.to_ban), ..rescored };
    lemma_unban_all(banned, rescored.to_unban);
    let after = Rescoring { view: banned.view.unban_all(rescored.to_unban), ..banned };
    assert forall|id: PeerId| #[trigger] rescored.settle().db.knows(
        id,
    ) implies rescored.settle().db.peers[id].valid() by {
        assert(after.view.db.knows(id));
    }
}

/// Updates of scores, in whatever order and however often, keep a manager valid.
pub proof fn score_updates_keep_validity(view: ManagerView, updates: Seq<(PeerId, Score)>)
    requires
        view.valid(),
    ensures
        view.update_peer_scores(updates).valid(),
{
    assert(view.rescoring().nearly_valid());
    lemma_rescore_all(view.rescoring(), updates);
    lemma_settle(view.rescoring().rescore_all(updates));
}

/// Gossipsub scores keep a manager valid.
pub proof fn gossipsub_scores_keep_validity(view: ManagerView, order: Seq<GossipsubScore>)
    requires
        view.valid(),
    ensures
        view.update_gossipsub_scores(order).valid(),
{
    score_updates_keep_validity(
        view,
        gossipsub_updates(order, limits::spec_allowed_negative(view.target_peers)),
    );
}

/// Reports and failed requests keep a manager valid.
pub proof fn reports_keep_validity(
    view: ManagerView,
    id: PeerId,
    action: PeerAction,
    source: ReportSource,
    outlook: ScoreOutlook,
    protocol: Protocol,
    err: RPCError,
    direction: ConnectionDirection,
)
    requires
        view.valid(),
    ensures
        view.report_peer(id, action, source, outlook).valid(),
        view.handle_rpc_error(id, protocol, err, direction, outlook).valid(),
{
    lemma_report(view, id, action, source, outlook);
    let metered = view.meter(
        MetricUpdate::RpcError(view.db.info(id).client.kind, err, direction),
    );
    assert(metered.valid()) by {
        assert(metered.db == view.db);
    }
    if let Some(penalty) = rpc_error_penalty(protocol, err, direction) {
        lemma_report(metered, id, penalty, ReportSource::RPC, outlook);
    }
}

proof fn lemma_report(
    view: ManagerView,
    id: PeerId,
    action: PeerAction,
    source: ReportSource,
    outlook: ScoreOutlook,
)
    requires
        view.valid(),
    ensures
        view.report_peer(id, action, source, outlook).valid(),
{
    if view.db.knows(id) {
        let info = view.db.peers[id];
        let metered = view.meter(
            MetricUpdate::PeerAction(info.client.kind, action, source),
        );
        assert(metered.rescoring().nearly_valid()) by {
            assert(metered.db == view.db);
        }
        let score = outlook.spec_after(info.score, action);
        lemma_rescore(metered.rescoring(), id, score);
        lemma_settle(metered.rescoring().rescore(id, score));
    } else {
        lemma_one_peer(view, view.report_peer(id, action, source, outlook), id);
    }
}

/// Dialing and connecting peers keeps a manager valid.
pub proof fn registering_keeps_validity(
    view: ManagerView,
    id: PeerId,
    connection: ConnectingType,
    enr: Option<Seq<char>>,
)
    requires
        view.valid(),
    ensures
        view.inject_peer_connection(id, connection, enr).valid(),
{
    if connection is Dialing || view.accepts(id) {
        lemma_one_peer(view, view.register_peer(id, connection, enr), id);
    }
}

/// Opened and closed connections keep a manager valid.
pub proof fn connections_keep_validity(
    view: ManagerView,
    id: PeerId,
    endpoint: ConnectedPoint,
    num_established: u32,
    enr: Option<Seq<char>>,
    now: Instant,
)
    requires
        view.valid(),
    ensures
        view.inject_connection_established(id, endpoint, num_established, enr, now).valid(),
        view.inject_connection_closed(id, endpoint, num_established).valid(),
{
    let metered = view.meter_connection(id, endpoint);
    assert(metered.valid()) by {
        assert(metered.db == view.db);
    }
    bans_keep_validity(metered, id, GoodbyeReason::Banned, ReportSource::PeerManager);
    bans_keep_validity(metered, id, GoodbyeReason::BannedIP, ReportSource::PeerManager);
    bans_keep_validity(metered, id, GoodbyeReason::TooManyPeers, ReportSource::PeerManager);
    let connection = match endpoint {
        ConnectedPoint::Listener { send_back_addr } => ConnectingType::IngoingConnected {
            multiaddr: send_back_addr,
        },
        ConnectedPoint::Dialer { address } => ConnectingType::OutgoingConnected {
            multiaddr: address,
        },
    };
    registering_keeps_validity(metered, id, connection, enr);
    let registered = metered.inject_peer_connection(id, connection, enr);
    assert(metered.register_connection(id, endpoint, num_established, enr).db == registered.db);

    let unsubscribed = view.without_subscriptions(id);
    if view.db.knows(id) {
        lemma_one_peer(view, unsubscribed, id);
    }
    bans_keep_validity(unsubscribed, id, GoodbyeReason::BadScore, ReportSource::PeerManager);
    if num_established == 0 {
        assert(view.inject_connection_closed(id, endpoint, num_established).db
            == unsubscribed.inject_disconnect(id).db);
    }
}

/// Discovered peers, and the steps of a poll, keep a manager valid.
pub proof fn discoveries_and_polls_keep_validity(
    view: ManagerView,
    results: Seq<(PeerId, Option<Instant>)>,
    polled: Polled,
)
    requires
        view.valid(),
    ensures
        view.peers_discovered(results).valid(),
        view.after_poll(polled).valid(),
{
    let after = view.peers_discovered(results);
    discovery_changes_duties_only(view, results);
    let db = view.dial_discovered(results).0;
    assert forall|id: PeerId| #[trigger] after.db.knows(id) implies after.db.peers[id].valid() by {
        assert(db.info(id) == (PeerInfoView { min_ttl: db.info(id).min_ttl, ..view.db.info(id) }));
        assert(view.db.knows(id) ==> view.db.peers[id].valid());
    }
    assert(view.after_poll(polled).db == view.db);
}

/// Heartbeats keep a manager valid.
pub proof fn heartbeats_keep_validity(
    view: ManagerView,
    now: Instant,
    updates: Seq<(PeerId, Score)>,
    subnets: Seq<SyncSubnetId>,
    worst: Seq<PeerId>,
)
    requires
        view.valid(),
    ensures
        view.heartbeat(now, updates, subnets, worst).valid(),
{
    let looked = if view.lacks_peers(view.target_peers as int) {
        view.push(EventView::DiscoverPeers)
    } else {
        view
    };
    assert(looked.valid()) by {
        assert(looked.db == view.db);
    }
    score_updates_keep_validity(looked, updates);
    let scored = view.heartbeat_scores(updates);
    let maintained = scored.maintain_sync_committee_peers(now, subnets);
    assert(maintained.db == scored.db);
    let gone = maintained.excess_peers(worst, now);
    letting_go_spares_others(maintained, gone);
    let after = view.heartbeat(now, updates, subnets, worst);
    assert forall|id: PeerId| #[trigger] after.db.knows(id) implies after.db.peers[id].valid() by {
        assert(after.db.info(id) == after.db.peers[id]);
        assert(scored.db.knows(id) ==> scored.db.peers[id].valid());
    }
}

/// Bans and unbans of several peers keep a manager valid.
pub proof fn many_bans_keep_validity(
    view: ManagerView,
    to_ban: Seq<PeerId>,
    to_unban: Seq<PeerId>,
)
    requires
        view.valid(),
    ensures
        view.ban_all(to_ban).unban_all(to_unban).valid(),
{
    lemma_ban_all(view.rescoring(), to_ban);
    let banned = Rescoring { view: view.ban_all(to_ban), ..view.rescoring() };
    lemma_unban_all(banned, to_unban);
    let after = Rescoring { view: banned.view.unban_all(to_unban), ..banned };
    assert forall|id: PeerId| #[trigger] after.view.db.knows(
        id,
    ) implies after.view.db.peers[id].valid() by {
        assert(after.nearly_valid_peer(id));
    }
}

/// Whatever leaves the known peers and the intervals of their clocks alone keeps a manager valid.
proof fn lemma_same_peers(view: ManagerView, after: ManagerView)
    requires
        view.valid(),
        after.db == view.db,
        after.intervals_are_set(),
    ensures
        after.valid(),
{
}

/// Every call keeps a manager valid.
pub proof fn calls_keep_validity(view: ManagerView, call: Call)
    requires
        view.valid(),
    ensures
        view.after_call(call).valid(),
{
    match call {
        Call::Report(..) | Call::RpcError(..) | Call::UpdateScores(_)
        | Call::UpdateGossipsubScores(_) | Call::BanAndUnban(..) | Call::Heartbeat(..)
        | Call::Discovered(_) | Call::Poll(_) => {
            lemma_score_calls(view, call);
        },
        Call::Goodbye(..) | Call::Ban(..) | Call::Unban(_) | Call::Disconnect(..)
        | Call::Disconnected(_) | Call::DialFailure(_) => {
            lemma_ban_calls(view, call);
        },
        Call::Dialing(..) | Call::Connection(..) | Call::Established(..) | Call::Closed(..) => {
            lemma_connection_calls(view, call);
        },
        Call::Identify(..) | Call::Ping(..) | Call::Pong(..) | Call::MetaData(..)
        | Call::AddSubscription(..) | Call::RemoveSubscription(..)
        | Call::RemoveAllSubscriptions(_) => {
            lemma_message_calls(view, call);
        },
        _ => {
            reveal(ManagerView::after_other_call);
            lemma_same_peers(view, view.after_call(call));
        },
    }
}

/// A manager that is valid stays so, whatever calls follow.
pub proof fn validity_lasts(view: ManagerView, calls: Seq<Call>)
    requires
        view.valid(),
    ensures
        view.after_calls(calls).valid(),
    decreases calls.len(),
{
    if calls.len() > 0 {
        validity_lasts(view, calls.drop_last());
        calls_keep_validity(view.after_calls(calls.drop_last()), calls.last());
    }
}

proof fn lemma_score_calls(view: ManagerView, call: Call)
    requires
        view.valid(),
        call is Report || call is RpcError || call is UpdateScores || call is UpdateGossipsubScores
            || call is BanAndUnban || call is Heartbeat || call is Discovered || call is Poll,
    ensures
        view.after_call(call).valid(),
{
    let after = view.after_call(call);
    match call {
        Call::Report(id, action, source, outlook) => {
            assert(after == view.report_peer(id, action, source, outlook)) by {
                reveal(ManagerView::after_score_call);
            }
            lemma_report(view, id, action, source, outlook);
        },
        Call::RpcError(id, protocol, err, direction, outlook) => {
            assert(after == view.handle_rpc_error(id, protocol, err, direction, outlook)) by {
                reveal(ManagerView::after_score_call);
            }
            reports_keep_validity(
                view,
                id,
                PeerAction::Fatal,
                ReportSource::RPC,
                outlook,
                protocol,
                err,
                direction,
            );
        },
        Call::UpdateScores(updates) => {
            assert(after == view.update_peer_scores(updates)) by {
                reveal(ManagerView::after_score_call);
            }
            score_updates_keep_validity(view, updates);
        },
        Call::UpdateGossipsubScores(order) => {
            assert(after == view.update_gossipsub_scores(order)) by {
                reveal(ManagerView::after_score_call);
            }
            gossipsub_scores_keep_validity(view, order);
        },
        Call::BanAndUnban(to_ban, to_unban) => {
            assert(after == view.ban_all(to_ban).unban_all(to_unban)) by {
                reveal(ManagerView::after_score_call);
            }
            many_bans_keep_validity(view, to_ban, to_unban);
        },
        Call::Heartbeat(now, updates, subnets, worst) => {
            assert(after == view.heartbeat(now, updates, subnets, worst)) by {
                reveal(ManagerView::after_score_call);
            }
            heartbeats_keep_validity(view, now, updates, subnets, worst);
        },
        Call::Discovered(results) => {
            assert(after == view.peers_discovered(results)) by {
                reveal(ManagerView::after_other_call);
            }
            discoveries_and_polls_keep_validity(view, results, Polled::Heartbeat(false));
        },
        Call::Poll(polled) => {
            assert(after == view.after_poll(polled)) by {
                reveal(ManagerView::after_other_call);
            }
            discoveries_and_polls_keep_validity(view, Seq::empty(), polled);
        },
        _ => {},
    }
}

proof fn lemma_ban_calls(view: ManagerView, call: Call)
    requires
        view.valid(),
        call is Goodbye || call is Ban || call is Unban || call is Disconnect
            || call is Disconnected || call is DialFailure,
    ensures
        view.after_call(call).valid(),
{
    let after = view.after_call(call);
    match call {
        Call::Goodbye(id, reason, source) => {
            assert(after == view.goodbye_peer(id, reason, source)) by {
                reveal(ManagerView::after_ban_call);
            }
            bans_keep_validity(view, id, reason, source);
        },
        Call::Ban(id, reason) => {
            assert(after == view.ban_peer(id, reason)) by {
                reveal(ManagerView::after_ban_call);
            }
            bans_keep_validity(view, id, reason, ReportSource::PeerManager);
        },
        Call::Disconnect(id, reason) => {
            assert(after == view.disconnect_peer(id, reason)) by {
                reveal(ManagerView::after_ban_call);
            }
            bans_keep_validity(view, id, reason, ReportSource::PeerManager);
        },
        Call::Unban(id) => {
            assert(after == view.unban_peer(id)) by {
                reveal(ManagerView::after_ban_call);
            }
            bans_keep_validity(view, id, GoodbyeReason::BadScore, ReportSource::PeerManager);
        },
        Call::Disconnected(id) => {
            assert(after == view.inject_disconnect(id)) by {
                reveal(ManagerView::after_ban_call);
            }
            bans_keep_validity(view, id, GoodbyeReason::BadScore, ReportSource::PeerManager);
        },
        Call::DialFailure(id) => {
            assert(after == view.inject_dial_failure(id)) by {
                reveal(ManagerView::after_ban_call);
            }
            bans_keep_validity(view, id, GoodbyeReason::BadScore, ReportSource::PeerManager);
        },
        _ => {},
    }
}

proof fn lemma_connection_calls(view: ManagerView, call: Call)
    requires
        view.valid(),
        call is Dialing || call is Connection || call is Established || call is Closed,
    ensures
        view.after_call(call).valid(),
{
    let after = view.after_call(call);
    match call {
        Call::Dialing(id, enr) => {
            assert(after == view.register_peer(id, ConnectingType::Dialing, enr)) by {
                reveal(ManagerView::after_connection_call);
            }
            registering_keeps_validity(view, id, ConnectingType::Dialing, enr);
        },
        Call::Connection(id, connection, enr) => {
            assert(after == view.inject_peer_connection(id, connection, enr)) by {
                reveal(ManagerView::after_connection_call);
            }
            registering_keeps_validity(view, id, connection, enr);
        },
        Call::Established(id, endpoint, num_established, enr, now) => {
            assert(after == view.inject_connection_established(
                id,
                endpoint,
                num_established,
                enr,
                now,
            )) by {
                reveal(ManagerView::after_connection_call);
            }
            connections_keep_validity(view, id, endpoint, num_established, enr, now);
        },
        Call::Closed(id, endpoint, num_established) => {
            assert(after == view.inject_connection_closed(id, endpoint, num_established)) by {
                reveal(ManagerView::after_connection_call);
            }
            connections_keep_validity(view, id, endpoint, num_established, None, 0);
        },
        _ => {},
    }
}

proof fn lemma_message_calls(view: ManagerView, call: Call)
    requires
        view.valid(),
        call is Identify || call is Ping || call is Pong || call is MetaData
            || call is AddSubscription || call is RemoveSubscription
            || call is RemoveAllSubscriptions,
    ensures
        view.after_call(call).valid(),
{
    let after = view.after_call(call);
    match call {
        Call::Ping(id, seq) => {
            assert(after == view.ping_request(id, seq)) by {
                reveal(ManagerView::after_message_call);
            }
            lemma_same_peers(view, after);
        },
        Call::Pong(id, seq) => {
            assert(after == view.pong_response(id, seq)) by {
                reveal(ManagerView::after_message_call);
            }
            lemma_same_peers(view, after);
        },
        Call::Identify(id, client, listen_addrs) => {
            assert(after == view.identify(id, client, listen_addrs)) by {
                reveal(ManagerView::after_message_call);
            }
            if view.db.knows(id) {
                lemma_one_peer(view, after, id);
            }
        },
        Call::MetaData(id, meta_data) => {
            assert(after == view.meta_data_response(id, meta_data)) by {
                reveal(ManagerView::after_message_call);
            }
            if view.db.knows(id) {
                lemma_one_peer(view, after, id);
            }
        },
        Call::AddSubscription(id, subnet) => {
            assert(after == view.with_subscription(id, subnet)) by {
                reveal(ManagerView::after_message_call);
            }
            if view.db.knows(id) {
                lemma_one_peer(view, after, id);
            }
        },
        Call::RemoveSubscription(id, subnet) => {
            assert(after == view.without_subscription(id, subnet)) by {
                reveal(ManagerView::after_message_call);
            }
            if view.db.knows(id) {
                lemma_one_peer(view, after, id);
            }
        },
        Call::RemoveAllSubscriptions(id) => {
            assert(after == view.without_subscriptions(id)) by {
                reveal(ManagerView::after_message_call);
            }
            if view.db.knows(id) {
                lemma_one_peer(view, after, id);
            }
        },
        _ => {},
    }
}

} // verus!
