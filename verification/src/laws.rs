//! What holds of the peer manager over several calls.

use crate::event::{EventView, MetricUpdate};
use crate::gossip::{
    best_first, gossipsub_updates, is_let_pass, negatives, peers_let_pass, places_let_pass,
    GossipsubScore,
};
use crate::limits;
use crate::manager::{ConnectingType, ManagerView};
use crate::network::{
    ConnectedPoint, GoodbyeReason, Instant, IpAddr, MetaDataView, PeerId, Subnet, SyncSubnetId,
};
use crate::peer_info::{PeerConnectionStatus, PeerInfoView};
use crate::peerdb::{PeerClass, PeerDBView};
use crate::poll::PollStepView;
use crate::pruning::{letting_go_spares_others, min};
use crate::reputation::{is_condemned, is_dropped, is_pardoned, Rescoring};
use crate::score::{PeerAction, ReportSource, Score, ScoreOutlook};
use vstd::prelude::*;

verus! {

/// All goodbyes are fatal: the peer is banned, and is not connected any more. Other peers are left
/// alone.
pub proof fn goodbye_bans(
    view: ManagerView,
    id: PeerId,
    reason: GoodbyeReason,
    source: ReportSource,
)
    ensures
        ({
            let after = view.goodbye_peer(id, reason, source);
            &&& after.db.ban_status(id) is BadScore
            &&& !after.db.is_connected(id)
            &&& !after.db.should_dial(id)
            &&& forall|other: PeerId|
                other != id ==> #[trigger] after.db.info(other) == view.db.info(other)
        }),
{
}

/// A goodbye disconnects a peer that is connected or being dialed, for the given reason.
pub proof fn goodbye_disconnects(
    view: ManagerView,
    id: PeerId,
    reason: GoodbyeReason,
    source: ReportSource,
)
    requires
        view.db.info(id).is_connected_or_dialing(),
    ensures
        view.goodbye_peer(id, reason, source).events == view.events.push(
            EventView::DisconnectPeer(id, reason),
        ),
        view.goodbye_peer(id, reason, source).db.info(id).awaits_ban(),
{
}

/// Once a peer that was told goodbye has no connection any more, it is banned. If it had one, this
/// is when the ban is asked for.
pub proof fn goodbye_ends_in_a_ban(
    view: ManagerView,
    id: PeerId,
    reason: GoodbyeReason,
    source: ReportSource,
    endpoint: ConnectedPoint,
)
    ensures
        ({
            let told = view.goodbye_peer(id, reason, source);
            let after = told.inject_connection_closed(id, endpoint, 0);
            &&& after.db.info(id).is_banned()
            &&& after.db.ban_status(id) is BadScore
            &&& view.db.info(id).is_connected_or_dialing()
                || view.db.info(id).is_connected_or_disconnecting() ==> after.events.last()
                == EventView::Banned(id, after.db.banned_ips(after.db.info(id).seen_addresses))
        }),
{
}

/// Banning a peer leaves other peers alone, even those seen on the same IP address.
pub proof fn bans_spare_others(view: ManagerView, id: PeerId, reason: GoodbyeReason, other: PeerId)
    requires
        other != id,
    ensures
        view.ban_peer(id, reason).db.info(other) == view.db.info(other),
        view.ban_peer(id, reason).db.knows(other) == view.db.knows(other),
{
}

/// A peer that connects while it is banned, by its score or by an IP address that it was seen on,
/// is not let in, nor made known as connected: it is banned at once.
pub proof fn banned_peers_stay_out(
    view: ManagerView,
    id: PeerId,
    endpoint: ConnectedPoint,
    num_established: u32,
    enr: Option<Seq<char>>,
    now: Instant,
)
    requires
        !(view.db.ban_status(id) is NotBanned),
    ensures
        ({
            let after = view.inject_connection_established(id, endpoint, num_established, enr, now);
            &&& !after.db.is_connected(id)
            &&& after.db.ban_status(id) is BadScore
            &&& after.inbound_ping == view.inbound_ping
            &&& after.outbound_ping == view.outbound_ping
            &&& after.status == view.status
            &&& !after.events.skip(view.events.len() as int).contains(
                EventView::PeerConnectedIncoming(id),
            )
            &&& !after.events.skip(view.events.len() as int).contains(
                EventView::PeerConnectedOutgoing(id),
            )
        }),
{
    let after = view.inject_connection_established(id, endpoint, num_established, enr, now);
    let metered = view.meter_connection(id, endpoint);
    assert(metered.events == view.events);
    let news = after.events.skip(view.events.len() as int);
    assert(news.len() <= 1);
}

/// A connection that comes once the limit is reached is refused, unless a duty needs the peer.
pub proof fn peers_beyond_the_limit_are_refused(
    view: ManagerView,
    id: PeerId,
    endpoint: ConnectedPoint,
    num_established: u32,
    enr: Option<Seq<char>>,
    now: Instant,
)
    requires
        view.db.ban_status(id) is NotBanned,
        view.peer_limit_reached(),
        !view.db.info(id).has_future_duty(now),
    ensures
        ({
            let after = view.inject_connection_established(id, endpoint, num_established, enr, now);
            &&& !after.db.is_connected(id)
            &&& after.events == view.events.push(
                EventView::DisconnectPeer(id, GoodbyeReason::TooManyPeers),
            )
        }),
{
}

/// A peer that is not banned, and that there is room for or that a duty needs, is connected by a
/// connection, waits to be pinged and to be sent our status, and is made known if the connection is
/// its first.
pub proof fn welcome_peers_are_connected(
    view: ManagerView,
    id: PeerId,
    endpoint: ConnectedPoint,
    num_established: u32,
    enr: Option<Seq<char>>,
    now: Instant,
)
    requires
        view.db.ban_status(id) is NotBanned,
        !view.peer_limit_reached() || view.db.info(id).has_future_duty(now),
    ensures
        ({
            let after = view.inject_connection_established(id, endpoint, num_established, enr, now);
            &&& after.db.is_connected(id)
            &&& after.status.waiting.contains(id)
            &&& endpoint is Listener ==> after.inbound_ping.waiting.contains(id)
            &&& endpoint is Dialer ==> after.outbound_ping.waiting.contains(id)
            &&& num_established != 1 ==> after.events == view.events
            &&& num_established == 1 ==> after.events == view.events.push(
                if endpoint is Listener {
                    EventView::PeerConnectedIncoming(id)
                } else {
                    EventView::PeerConnectedOutgoing(id)
                },
            )
        }),
{
}

/// A peer whose last connection was closed is not connected, has no subscriptions, and waits for
/// nothing. Before that, a closed connection changes nothing.
pub proof fn closed_peers_wait_for_nothing(
    view: ManagerView,
    id: PeerId,
    endpoint: ConnectedPoint,
    num_established: u32,
)
    ensures
        ({
            let after = view.inject_connection_closed(id, endpoint, num_established);
            &&& num_established > 0 ==> after == view
            &&& num_established == 0 ==> !after.db.is_connected(id)
            &&& num_established == 0 ==> after.db.info(id).subnets == Set::<Subnet>::empty()
            &&& num_established == 0 ==> !after.inbound_ping.waiting.contains(id)
            &&& num_established == 0 ==> !after.outbound_ping.waiting.contains(id)
            &&& num_established == 0 ==> !after.status.waiting.contains(id)
        }),
{
    let after = view.inject_connection_closed(id, endpoint, num_established);
    if num_established == 0 {
        assert(after.db.info(id).subnets =~= Set::<Subnet>::empty());
    }
}

/// A peer that was refused for being one too many, and is not known otherwise, is put down as
/// disconnected once its connection is closed, so that it can be dialed later.
pub proof fn refused_peers_are_remembered(
    view: ManagerView,
    id: PeerId,
    endpoint: ConnectedPoint,
    num_established: u32,
    enr: Option<Seq<char>>,
    now: Instant,
)
    requires
        !view.db.knows(id),
        view.peer_limit_reached(),
    ensures
        ({
            let after = view.inject_connection_established(
                id,
                endpoint,
                num_established,
                enr,
                now,
            ).inject_connection_closed(id, endpoint, 0);
            &&& after.db.knows(id)
            &&& after.db.info(id).connection_status is Disconnected
        }),
{
}

/// A fatal action bans a known peer at once, whatever its score was. Nothing changes of others.
pub proof fn fatal_actions_ban(
    view: ManagerView,
    id: PeerId,
    source: ReportSource,
    outlook: ScoreOutlook,
)
    requires
        view.db.knows(id),
    ensures
        ({
            let after = view.report_peer(id, PeerAction::Fatal, source, outlook);
            &&& after.db.ban_status(id) is BadScore
            &&& !(view.db.info(id).score.state is Banned) ==> !after.db.is_connected(id)
            &&& forall|other: PeerId|
                other != id ==> #[trigger] after.db.info(other) == view.db.info(other)
        }),
{
    reveal_with_fuel(ManagerView::ban_all, 2);
    reveal_with_fuel(ManagerView::unban_all, 2);
    let metered = view.meter(
        MetricUpdate::PeerAction(
            view.db.peers[id].client.kind,
            PeerAction::Fatal,
            source,
        ),
    );
    let score = outlook.spec_after(view.db.peers[id].score, PeerAction::Fatal);
    let rescored = metered.rescoring().rescore(id, score);
    assert(rescored.to_unban =~= Seq::empty());
    if view.db.peers[id].score.state is Banned {
        assert(rescored.to_ban =~= Seq::empty());
    } else {
        assert(rescored.to_ban =~= seq![id]);
        assert(rescored.to_ban.drop_last() =~= Seq::empty());
    }
}

/// A peer can be unbanned just when it is banned by its standing and its score bans it no more. It
/// is then disconnected, and its bad score does not count against it.
pub proof fn unbanned_peers_are_free(view: ManagerView, id: PeerId)
    ensures
        ({
            let after = view.unban_peer(id);
            let info = view.db.info(id);
            if info.is_banned() && !(info.score.state is Banned) {
                &&& after.db.info(id).connection_status is Disconnected
                &&& !(after.db.ban_status(id) is BadScore)
                &&& after.events == view.events.push(EventView::UnBanned(id, info.seen_addresses))
            } else {
                after == view
            }
        }),
{
}

/// A report leaves other peers alone.
pub proof fn reports_spare_others(
    view: ManagerView,
    id: PeerId,
    action: PeerAction,
    source: ReportSource,
    outlook: ScoreOutlook,
    other: PeerId,
)
    requires
        other != id,
    ensures
        view.report_peer(id, action, source, outlook).db.info(other) == view.db.info(other),
{
    if view.db.knows(id) {
        let metered = view.meter(
            MetricUpdate::PeerAction(view.db.peers[id].client.kind, action, source),
        );
        let rescored = metered.rescoring().rescore(
            id,
            outlook.spec_after(view.db.peers[id].score, action),
        );
        assert(!rescored.to_ban.contains(other) && !rescored.to_unban.contains(other));
        lemma_ban_all(rescored.view, rescored.to_ban, other);
        lemma_unban_all(rescored.view.ban_all(rescored.to_ban), rescored.to_unban, other);
    }
}

pub(crate) proof fn lemma_ban_all(view: ManagerView, ids: Seq<PeerId>, id: PeerId)
    ensures
        ({
            let after = view.ban_all(ids).db;
            &&& !ids.contains(id) ==> after.info(id) == view.db.info(id)
            &&& after.info(id).score.state is Banned == (view.db.info(id).score.state is Banned
                || ids.contains(id))
            &&& ids.contains(id) ==> !after.info(id).is_connected_or_dialing()
            &&& !view.db.info(id).is_connected_or_dialing() ==> !after.info(
                id,
            ).is_connected_or_dialing()
        }),
    decreases ids.len(),
{
    if ids.len() > 0 {
        let rest = ids.drop_last();
        lemma_ban_all(view, rest, id);
        assert(ids =~= rest.push(ids.last()));
        vstd::seq_lib::lemma_seq_contains_after_push(rest, ids.last(), id);
    }
}

pub(crate) proof fn lemma_unban_all(view: ManagerView, ids: Seq<PeerId>, id: PeerId)
    ensures
        ({
            let after = view.unban_all(ids).db;
            &&& !ids.contains(id) ==> after.info(id) == view.db.info(id)
            &&& after.info(id).score == view.db.info(id).score
            &&& !view.db.info(id).is_connected_or_dialing() ==> !after.info(
                id,
            ).is_connected_or_dialing()
        }),
    decreases ids.len(),
{
    if ids.len() > 0 {
        let rest = ids.drop_last();
        lemma_unban_all(view, rest, id);
        assert(ids =~= rest.push(ids.last()));
        vstd::seq_lib::lemma_seq_contains_after_push(rest, ids.last(), id);
    }
}

/// No peer occurs twice among the updates.
pub open spec fn distinct(updates: Seq<(PeerId, Score)>) -> bool {
    forall|i: int, j: int|
        0 <= i < j < updates.len() ==> (#[trigger] updates[i]).0 != (#[trigger] updates[j]).0
}

pub(crate) proof fn lemma_rescore_all(view: ManagerView, updates: Seq<(PeerId, Score)>, id: PeerId)
    requires
        forall|j: int| 0 <= j < updates.len() ==> (#[trigger] updates[j]).0 != id,
    ensures
        ({
            let after = view.rescoring().rescore_all(updates);
            &&& after.view.db.knows(id) == view.db.knows(id)
            &&& after.view.db.info(id) == view.db.info(id)
            &&& !after.to_ban.contains(id)
            &&& !after.to_unban.contains(id)
        }),
    decreases updates.len(),
{
    if updates.len() > 0 {
        let rest = updates.drop_last();
        assert forall|j: int| 0 <= j < rest.len() implies (#[trigger] rest[j]).0 != id by {
            assert(rest[j] == updates[j]);
        }
        lemma_rescore_all(view, rest, id);
        let before = view.rescoring().rescore_all(rest);
        let last = updates[updates.len() - 1];
        vstd::seq_lib::lemma_seq_contains_after_push(before.to_ban, last.0, id);
        vstd::seq_lib::lemma_seq_contains_after_push(before.to_unban, last.0, id);
    }
}

pub(crate) proof fn lemma_rescored(view: ManagerView, updates: Seq<(PeerId, Score)>, i: int)
    requires
        distinct(updates),
        0 <= i < updates.len(),
        view.db.knows(updates[i].0),
    ensures
        ({
            let id = updates[i].0;
            let score = updates[i].1;
            let previous = view.db.info(id).score.state;
            let after = view.rescoring().rescore_all(updates);
            let info = view.db.info(id).with_score(score);
            &&& after.view.db.info(id) == if is_dropped(previous, score.state, info) {
                info.with_status(PeerConnectionStatus::Disconnecting { to_ban: false })
            } else {
                info
            }
            &&& after.to_ban.contains(id) == is_condemned(previous, score.state)
            &&& after.to_unban.contains(id) == is_pardoned(previous, score.state, info)
        }),
    decreases updates.len(),
{
    let id = updates[i].0;
    let rest = updates.drop_last();
    let before = view.rescoring().rescore_all(rest);
    let last = updates[updates.len() - 1];
    assert(distinct(rest)) by {
        assert forall|a: int, b: int| 0 <= a < b < rest.len() implies (#[trigger] rest[a]).0 != (
        #[trigger] rest[b]).0 by {
            assert(rest[a] == updates[a] && rest[b] == updates[b]);
        }
    }
    vstd::seq_lib::lemma_seq_contains_after_push(before.to_ban, last.0, id);
    vstd::seq_lib::lemma_seq_contains_after_push(before.to_unban, last.0, id);
    if i == updates.len() - 1 {
        assert forall|j: int| 0 <= j < rest.len() implies (#[trigger] rest[j]).0 != id by {
            assert(rest[j] == updates[j]);
            assert(updates[j].0 != updates[i].0);
        }
        lemma_rescore_all(view, rest, id);
    } else {
        assert(rest[i] == updates[i]);
        assert(updates[i].0 != updates[updates.len() - 1].0);
        lemma_rescored(view, rest, i);
    }
}

/// When scores are updated, a known peer gets the new one, unless it is banned by it.
///
/// A peer whose score has become bad enough to be disconnected or banned is neither connected nor
/// being dialed afterwards.
pub proof fn unhealthy_peers_are_removed(view: ManagerView, updates: Seq<(PeerId, Score)>, i: int)
    requires
        distinct(updates),
        0 <= i < updates.len(),
        view.db.knows(updates[i].0),
    ensures
        ({
            let (id, score) = updates[i];
            let after = view.update_peer_scores(updates).db.info(id);
            let previous = view.db.info(id).score.state;
            &&& score.state is Banned == after.score.state is Banned
            &&& !(score.state is Banned) ==> after.score == score
            &&& !(score.state is Healthy) && score.state != previous
                ==> !after.is_connected_or_dialing()
        }),
{
    let id = updates[i].0;
    lemma_rescored(view, updates, i);
    let rescored = view.rescoring().rescore_all(updates);
    lemma_ban_all(rescored.view, rescored.to_ban, id);
    lemma_unban_all(rescored.view.ban_all(rescored.to_ban), rescored.to_unban, id);
}

/// When scores are updated, a peer whose score puts it in the same state as before stays where it
/// stands.
pub proof fn unchanged_states_have_no_effect(
    view: ManagerView,
    updates: Seq<(PeerId, Score)>,
    i: int,
)
    requires
        distinct(updates),
        0 <= i < updates.len(),
        view.db.knows(updates[i].0),
        updates[i].1.state == view.db.info(updates[i].0).score.state,
    ensures
        view.update_peer_scores(updates).db.info(updates[i].0) == view.db.info(
            updates[i].0,
        ).with_score(updates[i].1),
{
    let id = updates[i].0;
    lemma_rescored(view, updates, i);
    let rescored = view.rescoring().rescore_all(updates);
    lemma_ban_all(rescored.view, rescored.to_ban, id);
    lemma_unban_all(rescored.view.ban_all(rescored.to_ban), rescored.to_unban, id);
}

/// When scores are updated, a peer that has none to update is left alone.
pub proof fn updates_spare_others(view: ManagerView, updates: Seq<(PeerId, Score)>, id: PeerId)
    requires
        forall|j: int| 0 <= j < updates.len() ==> (#[trigger] updates[j]).0 != id,
    ensures
        view.update_peer_scores(updates).db.info(id) == view.db.info(id),
{
    lemma_rescore_all(view, updates, id);
    let rescored = view.rescoring().rescore_all(updates);
    lemma_ban_all(rescored.view, rescored.to_ban, id);
    lemma_unban_all(rescored.view.ban_all(rescored.to_ban), rescored.to_unban, id);
}

/// When scores are updated, a banned peer whose score has become good enough is unbanned.
pub proof fn recovered_peers_are_unbanned(view: ManagerView, updates: Seq<(PeerId, Score)>, i: int)
    requires
        distinct(updates),
        0 <= i < updates.len(),
        view.db.knows(updates[i].0),
        view.db.info(updates[i].0).is_banned(),
        view.db.info(updates[i].0).score.state is Banned,
        !(updates[i].1.state is Banned),
    ensures
        view.update_peer_scores(updates).db.info(updates[i].0) == view.db.info(
            updates[i].0,
        ).with_score(updates[i].1).with_status(PeerConnectionStatus::Disconnected),
{
    let id = updates[i].0;
    lemma_rescored(view, updates, i);
    let rescored = view.rescoring().rescore_all(updates);
    lemma_ban_all(rescored.view, rescored.to_ban, id);
    let banned = rescored.view.ban_all(rescored.to_ban);
    lemma_unban_listed(banned, rescored.to_unban, id);
}

pub(crate) proof fn lemma_unban_listed(view: ManagerView, ids: Seq<PeerId>, id: PeerId)
    requires
        ids.contains(id),
        view.db.info(id).is_banned(),
        !(view.db.info(id).score.state is Banned),
    ensures
        view.unban_all(ids).db.info(id) == view.db.info(id).with_status(
            PeerConnectionStatus::Disconnected,
        ),
    decreases ids.len(),
{
    let rest = ids.drop_last();
    assert(ids =~= rest.push(ids.last()));
    vstd::seq_lib::lemma_seq_contains_after_push(rest, ids.last(), id);
    if rest.contains(id) {
        lemma_unban_listed(view, rest, id);
    } else {
        lemma_unban_all(view, rest, id);
    }
}

/// A gossipsub score that is not negative counts, and one that is ignored is negative. With no more
/// negative scores than allowed, all of them are ignored.
pub proof fn only_negatives_are_let_pass(order: Seq<GossipsubScore>, allowed: nat, i: int)
    requires
        0 <= i < order.len(),
    ensures
        ({
            let updates = gossipsub_updates(order, allowed);
            &&& order[i].value >= 0 ==> updates[i] == (order[i].peer_id, order[i].counted)
            &&& order[i].value < 0 && negatives(order) <= allowed ==> updates[i] == (
                order[i].peer_id,
                order[i].ignored,
            )
            &&& is_let_pass(order, allowed, i) ==> order[i].value < 0
        }),
{
    lemma_negatives(order, i, order.len() as int);
    assert(order.take(order.len() as int) =~= order);
}

/// None but the best negative gossipsub scores are let pass: where one is, so is every negative one
/// before it in the order, and where one is not, neither is any after it.
pub proof fn best_negatives_are_let_pass(order: Seq<GossipsubScore>, allowed: nat, i: int, j: int)
    requires
        0 <= i < j < order.len(),
        order[i].value < 0,
        order[j].value < 0,
    ensures
        is_let_pass(order, allowed, j) ==> is_let_pass(order, allowed, i),
        best_first(order) ==> order[i].value >= order[j].value,
{
    lemma_negatives(order, i, j);
}

/// As many negative gossipsub scores are let pass as are allowed, or as there are, whichever is
/// less.
pub proof fn as_many_negatives_are_let_pass(order: Seq<GossipsubScore>, allowed: nat)
    ensures
        peers_let_pass(order, allowed).len() == min(allowed as int, negatives(order) as int),
{
    lemma_places_let_pass(order, allowed, order.len());
    assert(order.take(order.len() as int) =~= order);
}

proof fn lemma_places_let_pass(order: Seq<GossipsubScore>, allowed: nat, n: nat)
    requires
        n <= order.len(),
    ensures
        places_let_pass(order, allowed, n).len() == min(
            allowed as int,
            negatives(order.take(n as int)) as int,
        ),
    decreases n,
{
    reveal(Seq::filter);
    if n == 0 {
        assert(negatives(order.take(0)) == 0);
    } else {
        let i = n - 1;
        lemma_places_let_pass(order, allowed, i as nat);
        let before = Seq::new(i as nat, |k: int| k);
        assert(Seq::new(n, |k: int| k) =~= before.push(i));
        before.lemma_filter_push(i, |k: int| is_let_pass(order, allowed, k));
        assert(order.take(n as int) =~= order.take(i).push(order[i]));
        order.take(i).lemma_filter_push(order[i], |score: GossipsubScore| score.value < 0);
    }
}

proof fn lemma_negatives(order: Seq<GossipsubScore>, i: int, n: int)
    requires
        0 <= i < n <= order.len(),
    ensures
        negatives(order.take(i)) <= negatives(order.take(n)),
        order[i].value < 0 ==> negatives(order.take(i)) < negatives(order.take(n)),
    decreases n,
{
    let last = order[n - 1];
    assert(order.take(n) =~= order.take(n - 1).push(last));
    order.take(n - 1).lemma_filter_push(last, |score: GossipsubScore| score.value < 0);
    if i < n - 1 {
        lemma_negatives(order, i, n - 1);
    }
}

/// The dialing of discovered peers: each is worth dialing, and was discovered.
pub proof fn dialed_peers_are_worth_it(
    view: ManagerView,
    results: Seq<(PeerId, Option<Instant>)>,
    id: PeerId,
)
    requires
        view.dial_discovered(results).1.contains(id),
    ensures
        view.db.should_dial(id),
        exists|i: int| 0 <= i < results.len() && (#[trigger] results[i]).0 == id,
    decreases results.len(),
{
    if results.len() > 0 {
        let rest = results.drop_last();
        let (db, dialed) = view.dial_discovered(rest);
        if dialed.contains(id) {
            dialed_peers_are_worth_it(view, rest, id);
            let i = choose|i: int| 0 <= i < rest.len() && (#[trigger] rest[i]).0 == id;
            assert(results[i].0 == id);
        } else {
            vstd::seq_lib::lemma_seq_contains_after_push(dialed, results.last().0, id);
            assert(results[results.len() - 1].0 == id);
            discovery_changes_duties_only(view, rest);
            lemma_same_bans(view.db, db, id);
        }
    }
}

/// What discovery notes of the peers is until when duties need them, and nothing else.
pub proof fn discovery_changes_duties_only(
    view: ManagerView,
    results: Seq<(PeerId, Option<Instant>)>,
)
    ensures
        ({
            let db = view.dial_discovered(results).0;
            &&& db.banned_peers_per_ip == view.db.banned_peers_per_ip
            &&& forall|id: PeerId| view.db.knows(id) ==> #[trigger] db.knows(id)
            &&& forall|id: PeerId| #[trigger]
                db.info(id) == (PeerInfoView {
                    min_ttl: db.info(id).min_ttl,
                    ..view.db.info(id)
                })
        }),
    decreases results.len(),
{
    if results.len() > 0 {
        let rest = results.drop_last();
        discovery_changes_duties_only(view, rest);
        let before = view.dial_discovered(rest).0;
        let after = view.dial_discovered(results).0;
        assert forall|id: PeerId| view.db.knows(id) implies #[trigger] after.knows(id) by {
            assert(before.knows(id));
        }
        assert forall|id: PeerId| #[trigger] after.info(id) == (PeerInfoView {
            min_ttl: after.info(id).min_ttl,
            ..view.db.info(id)
        }) by {
            assert(before.info(id) == (PeerInfoView {
                min_ttl: before.info(id).min_ttl,
                ..view.db.info(id)
            }));
        }
    }
}

/// Who is banned does not depend on what duties need.
pub(crate) proof fn lemma_same_bans(one: PeerDBView, other: PeerDBView, id: PeerId)
    requires
        one.banned_peers_per_ip == other.banned_peers_per_ip,
        forall|id: PeerId| one.knows(id) ==> #[trigger] other.knows(id),
        forall|id: PeerId| #[trigger]
            other.info(id) == (PeerInfoView { min_ttl: other.info(id).min_ttl, ..one.info(id) }),
    ensures
        one.ban_status(id) == other.ban_status(id),
        one.should_dial(id) == other.should_dial(id),
{
    assert forall|ip: IpAddr| #[trigger] one.ip_banned(ip) == other.ip_banned(ip) by {
        assert forall|id: PeerId| one.members(PeerClass::BannedOn(ip)).contains(
            id,
        ) == #[trigger] other.members(PeerClass::BannedOn(ip)).contains(id) by {
            assert(other.info(id) == (PeerInfoView {
                min_ttl: other.info(id).min_ttl,
                ..one.info(id)
            }));
            assert(one.knows(id) ==> other.knows(id));
        }
        assert(one.members(PeerClass::BannedOn(ip)) =~= other.members(PeerClass::BannedOn(ip)));
    }
    assert((|ip: IpAddr| one.ip_banned(ip)) =~= (|ip: IpAddr| other.ip_banned(ip)));
    assert(other.info(id) == (PeerInfoView { min_ttl: other.info(id).min_ttl, ..one.info(id) }));
    assert(one.knows(id) ==> other.knows(id));
    assert(PeerInfoView::unknown().seen_addresses =~= Seq::empty());
    if !one.knows(id) {
        reveal(Seq::filter);
    }
}

/// No more peers are dialed than there is room for: up to the limit for peers that duties need, or
/// up to the usual limit if there are none of these.
pub proof fn dialing_keeps_to_the_limits(
    view: ManagerView,
    results: Seq<(PeerId, Option<Instant>)>,
)
    ensures
        ({
            let occupied = view.db.count(PeerClass::ConnectedOrDialing) as int;
            let dialed = view.dial_discovered(results).1.len();
            let priority = limits::spec_max_priority_peers(view.target_peers) as int;
            let usual = limits::spec_max_peers(view.target_peers) as int;
            &&& dialed > 0 ==> occupied + dialed <= priority
            &&& dialed > 0 && (forall|i: int|
                0 <= i < results.len() ==> (#[trigger] results[i]).1 is None) ==> occupied + dialed
                <= usual
        }),
    decreases results.len(),
{
    limits::limits_are_ordered(view.target_peers);
    if results.len() > 0 {
        let rest = results.drop_last();
        dialing_keeps_to_the_limits(view, rest);
        assert(results.last() == results[results.len() - 1]);
        if forall|i: int| 0 <= i < results.len() ==> (#[trigger] results[i]).1 is None {
            assert forall|i: int| 0 <= i < rest.len() implies (#[trigger] rest[i]).1 is None by {
                assert(rest[i] == results[i]);
            }
        }
    }
}

/// With room enough for all of them, just those of the discovered peers are dialed that are worth
/// it, in their order.
pub proof fn dialing_takes_all_there_is_room_for(
    view: ManagerView,
    results: Seq<(PeerId, Option<Instant>)>,
)
    requires
        view.db.count(PeerClass::ConnectedOrDialing) + results.len() <= limits::spec_max_peers(
            view.target_peers,
        ),
    ensures
        view.dial_discovered(results).1 == results.map_values(
            |result: (PeerId, Option<Instant>)| result.0,
        ).filter(|id: PeerId| view.db.should_dial(id)),
    decreases results.len(),
{
    let id_of = |result: (PeerId, Option<Instant>)| result.0;
    let worth = |id: PeerId| view.db.should_dial(id);
    reveal(Seq::filter);
    if results.len() > 0 {
        let rest = results.drop_last();
        dialing_takes_all_there_is_room_for(view, rest);
        let (db, dialed) = view.dial_discovered(rest);
        lemma_dialed_at_most(view, rest);
        discovery_changes_duties_only(view, rest);
        lemma_same_bans(view.db, db, results.last().0);
        assert(results.map_values(id_of).drop_last() =~= rest.map_values(id_of));
        assert(results.map_values(id_of).last() == results.last().0);
    } else {
        assert(view.dial_discovered(results).1 =~= results.map_values(id_of).filter(worth));
    }
}

proof fn lemma_dialed_at_most(view: ManagerView, results: Seq<(PeerId, Option<Instant>)>)
    ensures
        view.dial_discovered(results).1.len() <= results.len(),
    decreases results.len(),
{
    if results.len() > 0 {
        lemma_dialed_at_most(view, results.drop_last());
    }
}

/// Of discovered peers that are listed once each, none is dialed twice.
pub proof fn peers_are_dialed_once(view: ManagerView, results: Seq<(PeerId, Option<Instant>)>)
    requires
        forall|i: int, j: int|
            0 <= i < j < results.len() ==> (#[trigger] results[i]).0 != (#[trigger] results[j]).0,
    ensures
        view.dial_discovered(results).1.no_duplicates(),
    decreases results.len(),
{
    if results.len() > 0 {
        let rest = results.drop_last();
        let last = results.last().0;
        assert forall|i: int, j: int| 0 <= i < j < rest.len() implies (#[trigger] rest[i]).0 != (
        #[trigger] rest[j]).0 by {
            assert(rest[i] == results[i] && rest[j] == results[j]);
        }
        peers_are_dialed_once(view, rest);
        if view.dial_discovered(rest).1.contains(last) {
            dialed_peers_are_worth_it(view, rest, last);
            let i = choose|i: int| 0 <= i < rest.len() && (#[trigger] rest[i]).0 == last;
            assert(results[i].0 != results[results.len() - 1].0);
        }
    }
}

/// A subscription holds until it is ended, and ending it undoes it.
pub proof fn subscriptions_hold_until_ended(view: ManagerView, id: PeerId, subnet: Subnet)
    requires
        view.db.knows(id),
    ensures
        view.with_subscription(id, subnet).db.info(id).subnets.contains(subnet),
        !view.without_subscription(id, subnet).db.info(id).subnets.contains(subnet),
        !view.db.info(id).subnets.contains(subnet) ==> view.with_subscription(
            id,
            subnet,
        ).without_subscription(id, subnet) == view,
{
    let back = view.with_subscription(id, subnet).without_subscription(id, subnet);
    if !view.db.info(id).subnets.contains(subnet) {
        assert(back.db.peers[id].subnets =~= view.db.peers[id].subnets);
        assert(back.db.peers =~= view.db.peers);
    }
}

/// While discovery is switched off, neither discovered peers nor a heartbeat have more peers looked
/// for. Peers on subnets that lack them are still looked for.
pub proof fn disabled_discovery_is_quiet(
    view: ManagerView,
    results: Seq<(PeerId, Option<Instant>)>,
    now: Instant,
    updates: Seq<(PeerId, Score)>,
    subnets: Seq<SyncSubnetId>,
    worst: Seq<PeerId>,
)
    requires
        !view.discovery_enabled,
    ensures
        view.peers_discovered(results).events == view.events,
        no_query_added(view.events, view.heartbeat(now, updates, subnets, worst).events),
{
    heartbeats_ask_for_peers(view, now, updates, subnets, worst);
}

/// Events come out in the order in which they were put in: a new one changes nothing of what comes
/// next, unless nothing else waits.
pub proof fn events_keep_their_order(view: ManagerView, event: EventView)
    ensures
        view.events.len() == 0 ==> view.push(event).emission() == PollStepView::Ready(event)
            && view.push(event).emit().events == view.events,
        view.events.len() > 0 ==> view.push(event).emission() == view.emission() && view.push(
            event,
        ).emit() == view.emit().push(event),
{
    if view.events.len() == 0 {
        assert(view.push(event).emit().events =~= view.events);
    } else {
        assert(view.push(event).emit().events =~= view.emit().push(event).events);
    }
}

/// Once a peer's announcement has come, it is not asked for again until the peer tells of a later
/// one.
pub proof fn announcements_are_asked_for_once(
    view: ManagerView,
    id: PeerId,
    meta_data: MetaDataView,
    seq: u64,
)
    requires
        view.db.knows(id),
    ensures
        ({
            let answered = view.meta_data_response(id, meta_data);
            &&& seq <= meta_data.seq_number() ==> answered.pong_response(id, seq) == answered
            &&& seq <= meta_data.seq_number() ==> answered.ping_request(id, seq).events
                == answered.events
            &&& seq > meta_data.seq_number() ==> answered.pong_response(id, seq).events
                == answered.events.push(EventView::MetaData(id))
        }),
{
}

/// Of two times until when a sync committee subnet is needed the later one counts, whichever comes
/// first.
pub proof fn later_need_counts(
    view: ManagerView,
    subnet_id: SyncSubnetId,
    one: Instant,
    other: Instant,
)
    ensures
        view.add_sync_subnet(subnet_id, one).add_sync_subnet(subnet_id, other)
            == view.add_sync_subnet(subnet_id, other).add_sync_subnet(subnet_id, one),
        view.add_sync_subnet(subnet_id, one).add_sync_subnet(
            subnet_id,
            other,
        ).sync_committee_subnets[subnet_id] >= one,
        one >= other ==> view.add_sync_subnet(subnet_id, one).add_sync_subnet(subnet_id, other)
            == view.add_sync_subnet(subnet_id, one),
{
    let ab = view.add_sync_subnet(subnet_id, one).add_sync_subnet(subnet_id, other);
    let ba = view.add_sync_subnet(subnet_id, other).add_sync_subnet(subnet_id, one);
    assert(ab.sync_committee_subnets =~= ba.sync_committee_subnets);
}

/// After maintenance, the sync committee subnets left are those needed later than now, and just
/// those of them with too few good peers are looked for.
pub proof fn maintenance_looks_for_what_lacks(
    view: ManagerView,
    now: Instant,
    subnets: Seq<SyncSubnetId>,
    subnet: SyncSubnetId,
)
    requires
        view.expire_subnets(now).subnets_to_discover(subnets),
    ensures
        ({
            let after = view.maintain_sync_committee_peers(now, subnets);
            let needed = view.sync_committee_subnets.contains_key(subnet)
                && view.sync_committee_subnets[subnet] > now;
            &&& after.sync_committee_subnets.contains_key(subnet) == needed
            &&& subnets.contains(subnet) == (needed && view.db.count(
                PeerClass::GoodOnSubnet(Subnet::SyncCommittee(subnet)),
            ) < view.target_subnet_peers)
            &&& subnets.len() == 0 ==> after.events == view.events
            &&& after.db == view.db
        }),
{
}

/// A dial that fails leaves the peer disconnected, but for one that connected while it was dialed:
/// that one is left alone.
pub proof fn failed_dials_end(
    view: ManagerView,
    id: PeerId,
    enr: Option<Seq<char>>,
    connection: ConnectingType,
)
    requires
        !view.db.info(id).is_connected_or_disconnecting(),
        !(connection is Dialing),
    ensures
        ({
            let dialing = view.register_peer(id, ConnectingType::Dialing, enr);
            let connected = dialing.register_peer(id, connection, enr);
            &&& dialing.db.info(id).connection_status is Dialing
            &&& dialing.inject_dial_failure(id).db.info(id).connection_status is Disconnected
            &&& dialing.inject_dial_failure(id).events == view.events
            &&& connected.db.is_connected(id)
            &&& connected.inject_dial_failure(id) == connected
        }),
{
}

/// A connection of a peer that no duty needs never takes the peers that are connected or being
/// dialed beyond the limit, or beyond where they were.
pub proof fn connections_keep_to_the_limit(
    view: ManagerView,
    id: PeerId,
    endpoint: ConnectedPoint,
    num_established: u32,
    enr: Option<Seq<char>>,
    now: Instant,
)
    requires
        view.db.peers.dom().finite(),
        !view.db.info(id).has_future_duty(now),
    ensures
        ({
            let before = view.db.count(PeerClass::ConnectedOrDialing);
            let after = view.inject_connection_established(
                id,
                endpoint,
                num_established,
                enr,
                now,
            ).db.count(PeerClass::ConnectedOrDialing);
            after <= before || after <= limits::spec_max_peers(view.target_peers)
        }),
{
    let before = view.db.members(PeerClass::ConnectedOrDialing);
    let after = view.inject_connection_established(
        id,
        endpoint,
        num_established,
        enr,
        now,
    ).db.members(PeerClass::ConnectedOrDialing);
    assert(before.subset_of(view.db.peers.dom()));
    vstd::set_lib::lemma_len_subset(before, view.db.peers.dom());
    assert(after.subset_of(before.insert(id)));
    vstd::set_lib::lemma_len_subset(after, before.insert(id));
    if !(view.db.ban_status(id) is NotBanned) || view.peer_limit_reached() {
        assert(after.subset_of(before));
        vstd::set_lib::lemma_len_subset(after, before);
    }
}

/// Events were added to others, and none of them asks for more peers or pings one.
pub open spec fn no_query_added(before: Seq<EventView>, after: Seq<EventView>) -> bool {
    &&& before.len() <= after.len()
    &&& forall|i: int| 0 <= i < before.len() ==> after[i] == #[trigger] before[i]
    &&& forall|i: int|
        before.len() <= i < after.len() ==> !((#[trigger] after[i]) is DiscoverPeers)
            && !(after[i] is Ping)
}

/// The clocks of the peers are as they were.
pub open spec fn same_clocks(before: ManagerView, after: ManagerView) -> bool {
    &&& after.inbound_ping == before.inbound_ping
    &&& after.outbound_ping == before.outbound_ping
    &&& after.status == before.status
}

pub(crate) proof fn lemma_no_query_twice(a: Seq<EventView>, b: Seq<EventView>, c: Seq<EventView>)
    requires
        no_query_added(a, b),
        no_query_added(b, c),
    ensures
        no_query_added(a, c),
{
    assert forall|i: int| 0 <= i < a.len() implies c[i] == #[trigger] a[i] by {
        assert(b[i] == a[i]);
    }
    assert forall|i: int| a.len() <= i < c.len() implies !((#[trigger] c[i]) is DiscoverPeers)
        && !(c[i] is Ping) by {
        if i < b.len() {
            assert(c[i] == b[i]);
        }
    }
}

proof fn lemma_no_query_in_updates(before: Rescoring, updates: Seq<(PeerId, Score)>)
    ensures
        no_query_added(before.view.events, before.rescore_all(updates).view.events),
        same_clocks(before.view, before.rescore_all(updates).view),
    decreases updates.len(),
{
    if updates.len() > 0 {
        lemma_no_query_in_updates(before, updates.drop_last());
    }
}

pub(crate) proof fn lemma_no_query_in_bans(view: ManagerView, ids: Seq<PeerId>)
    ensures
        no_query_added(view.events, view.ban_all(ids).events),
        no_query_added(view.events, view.unban_all(ids).events),
        same_clocks(view, view.ban_all(ids)),
        same_clocks(view, view.unban_all(ids)),
    decreases ids.len(),
{
    if ids.len() > 0 {
        lemma_no_query_in_bans(view, ids.drop_last());
    }
}

/// Bans and unbans ask for no more peers, ping nobody and leave the clocks alone.
pub proof fn bans_ping_nobody(view: ManagerView, to_ban: Seq<PeerId>, to_unban: Seq<PeerId>)
    ensures
        no_query_added(view.events, view.ban_all(to_ban).unban_all(to_unban).events),
        same_clocks(view, view.ban_all(to_ban).unban_all(to_unban)),
{
    let banned = view.ban_all(to_ban);
    lemma_no_query_in_bans(view, to_ban);
    lemma_no_query_in_bans(banned, to_unban);
    lemma_no_query_twice(view.events, banned.events, banned.unban_all(to_unban).events);
}

/// Updates of scores ask for no more peers, ping nobody and leave the clocks alone.
pub proof fn score_updates_ping_nobody(view: ManagerView, updates: Seq<(PeerId, Score)>)
    ensures
        no_query_added(view.events, view.update_peer_scores(updates).events),
        same_clocks(view, view.update_peer_scores(updates)),
{
    let rescored = view.rescoring().rescore_all(updates);
    lemma_no_query_in_updates(view.rescoring(), updates);
    bans_ping_nobody(rescored.view, rescored.to_ban, rescored.to_unban);
    lemma_no_query_twice(
        view.events,
        rescored.view.events,
        view.update_peer_scores(updates).events,
    );
}

/// A heartbeat asks for peers to be discovered just when there are too few, or too few of them
/// outbound-only; then it does so once, and before all else. It pings nobody and leaves the clocks
/// alone. What waited before it still comes first.
pub proof fn heartbeats_ask_for_peers(
    view: ManagerView,
    now: Instant,
    updates: Seq<(PeerId, Score)>,
    subnets: Seq<SyncSubnetId>,
    worst: Seq<PeerId>,
)
    ensures
        ({
            let after = view.heartbeat(now, updates, subnets, worst).events;
            if view.lacks_peers(view.target_peers as int) {
                no_query_added(view.events.push(EventView::DiscoverPeers), after)
            } else {
                no_query_added(view.events, after)
            }
        }),
        same_clocks(view, view.heartbeat(now, updates, subnets, worst)),
{
    let looked = if view.lacks_peers(view.target_peers as int) {
        view.push(EventView::DiscoverPeers)
    } else {
        view
    };
    score_updates_ping_nobody(looked, updates);
    let maintained = view.heartbeat_scores(updates).maintain_sync_committee_peers(now, subnets);
    let gone = maintained.excess_peers(worst, now);
    letting_go_spares_others(maintained, gone);
    let scored = view.heartbeat_scores(updates);
    let after = view.heartbeat(now, updates, subnets, worst);
    lemma_no_query_twice(looked.events, scored.events, maintained.events);
    lemma_no_query_twice(looked.events, maintained.events, after.events);
}

} // verus!
