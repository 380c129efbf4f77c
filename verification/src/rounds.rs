//! What a round of discovery or a heartbeat comes to.

use crate::effects::same_settings;
use crate::event::EventView;
use crate::heartbeat::{distribution, ScoreMetrics, ScoreQuantile};
use crate::laws::{
    discovery_changes_duties_only, distinct, lemma_same_bans, same_clocks,
    score_updates_ping_nobody,
};
use crate::limits;
use crate::manager::ManagerView;
use crate::meaning::orders_by_score_are_complete;
use crate::network::{GoodbyeReason, Instant, PeerId, SyncSubnetId};
use crate::outcomes::{is_near, rescored, updates_reach_each_peer};
use crate::peer_info::{PeerConnectionStatus, PeerInfoView};
use crate::peerdb::{PeerClass, PeerDBView};
use crate::pruning::{farewells, letting_go_spares_others};
use crate::reputation::Rescoring;
use crate::score::{Score, ScoreState};
use vstd::prelude::*;

verus! {

/// How many peers are connected or being dialed.
pub open spec fn occupied(view: ManagerView) -> nat {
    view.db.members(PeerClass::ConnectedOrDialing).len()
}

/// The later of two times until when a peer is needed.
pub open spec fn later(known: Option<Instant>, min_ttl: Instant) -> Option<Instant> {
    match known {
        Some(known) => if known > min_ttl {
            Some(known)
        } else {
            Some(min_ttl)
        },
        None => Some(min_ttl),
    }
}

/// How one more discovered peer matters: it is picked just if it is worth dialing and those that
/// are with us or being dialed, with those picked before it, leave room: up to the usual limit, or
/// up to the higher one if a duty needs it. Passed over peers take no room. Of a picked one that a
/// duty needs, it is noted until when, and of others nothing changes.
pub proof fn discovered_peers_are_picked_in_turn(
    view: ManagerView,
    results: Seq<(PeerId, Option<Instant>)>,
    id: PeerId,
    min_ttl: Option<Instant>,
)
    ensures
        ({
            let before = view.dial_discovered(results);
            let after = view.dial_discovered(results.push((id, min_ttl)));
            let taken = occupied(view) + before.1.len();
            let room = taken < limits::spec_max_peers(view.target_peers) || (min_ttl is Some
                && taken < limits::spec_max_priority_peers(view.target_peers));
            let picked = room && view.db.should_dial(id);
            &&& after.1 == if picked {
                before.1.push(id)
            } else {
                before.1
            }
            &&& after.0.info(id) == if picked && min_ttl is Some {
                PeerInfoView {
                    min_ttl: later(before.0.info(id).min_ttl, min_ttl->0),
                    ..before.0.info(id)
                }
            } else {
                before.0.info(id)
            }
            &&& forall|other: PeerId|
                other != id ==> #[trigger] after.0.info(other) == before.0.info(other)
                    && after.0.knows(other) == before.0.knows(other)
        }),
        view.dial_discovered(Seq::empty()) == (view.db, Seq::<PeerId>::empty()),
{
    let longer = results.push((id, min_ttl));
    assert(longer.drop_last() =~= results);
    discovery_changes_duties_only(view, results);
    lemma_same_bans(view.db, view.dial_discovered(results).0, id);
}

proof fn lemma_picks_grow(
    view: ManagerView,
    results: Seq<(PeerId, Option<Instant>)>,
    n: int,
)
    requires
        0 <= n <= results.len(),
    ensures
        view.dial_discovered(results.take(n)).1.len() <= view.dial_discovered(results).1.len(),
        forall|id: PeerId|
            view.dial_discovered(results.take(n)).1.contains(id)
                ==> #[trigger] view.dial_discovered(results).1.contains(id),
    decreases results.len(),
{
    if n < results.len() {
        let rest = results.drop_last();
        lemma_picks_grow(view, rest, n);
        assert(rest.take(n) =~= results.take(n));
        let dialed = view.dial_discovered(rest).1;
        assert forall|id: PeerId| dialed.contains(id) implies #[trigger] view.dial_discovered(
            results,
        ).1.contains(id) by {
            vstd::seq_lib::lemma_seq_contains_after_push(dialed, results.last().0, id);
        }
    } else {
        assert(results.take(n) =~= results);
    }
}

/// The pick of discovered peers is as large as it can be: where one that is worth dialing is not
/// picked, there is no room left after those that are; not even up to the higher limit, if a duty
/// needs it.
pub proof fn picks_are_as_many_as_can_be(
    view: ManagerView,
    results: Seq<(PeerId, Option<Instant>)>,
    i: int,
)
    requires
        0 <= i < results.len(),
        view.db.should_dial(results[i].0),
        !view.dial_discovered(results).1.contains(results[i].0),
    ensures
        occupied(view) + view.dial_discovered(results).1.len() >= limits::spec_max_peers(
            view.target_peers,
        ),
        results[i].1 is Some ==> occupied(view) + view.dial_discovered(results).1.len()
            >= limits::spec_max_priority_peers(view.target_peers),
{
    let (id, min_ttl) = results[i];
    let before = results.take(i);
    discovered_peers_are_picked_in_turn(view, before, id, min_ttl);
    assert(before.push((id, min_ttl)) =~= results.take(i + 1));
    lemma_picks_grow(view, results, i + 1);
    let picked = view.dial_discovered(before).1;
    if view.dial_discovered(results.take(i + 1)).1 == picked.push(id) {
        vstd::seq_lib::lemma_seq_contains_after_push(picked, id, id);
        assert(view.dial_discovered(results.take(i + 1)).1.contains(id));
        assert(view.dial_discovered(results).1.contains(id));
    }
}

/// What discovered peers do besides: more are looked for just if discovery is on and those that are
/// with us, being dialed or picked do not reach the target, or those by connections only that we
/// opened their required number. Nothing else changes but until when picked peers are needed.
pub proof fn discovery_effect(view: ManagerView, results: Seq<(PeerId, Option<Instant>)>)
    ensures
        ({
            let after = view.peers_discovered(results);
            let (db, picked) = view.dial_discovered(results);
            let lacking = view.discovery_enabled && (occupied(view) + picked.len()
                < view.target_peers || view.db.members(PeerClass::OutboundOnly).len()
                < limits::spec_min_outbound_only(view.target_peers));
            after == (ManagerView {
                db,
                events: if lacking {
                    view.events.push(EventView::DiscoverPeers)
                } else {
                    view.events
                },
                ..view
            })
        }),
{
    let db = view.dial_discovered(results).0;
    discovery_changes_duties_only(view, results);
    lemma_same_members(view.db, db, PeerClass::ConnectedOrDialing);
    lemma_same_members(view.db, db, PeerClass::OutboundOnly);
}

proof fn lemma_same_members(one: PeerDBView, other: PeerDBView, class: PeerClass)
    requires
        class == PeerClass::ConnectedOrDialing || class == PeerClass::OutboundOnly,
        forall|id: PeerId| one.knows(id) ==> #[trigger] other.knows(id),
        forall|id: PeerId| #[trigger]
            other.info(id) == (PeerInfoView { min_ttl: other.info(id).min_ttl, ..one.info(id) }),
    ensures
        one.members(class) == other.members(class),
{
    assert forall|id: PeerId| one.members(class).contains(id) == #[trigger] other.members(
        class,
    ).contains(id) by {
        assert(other.info(id) == (PeerInfoView {
            min_ttl: other.info(id).min_ttl,
            ..one.info(id)
        }));
        assert(one.knows(id) ==> other.knows(id));
    }
    assert(one.members(class) =~= other.members(class));
}

/// One manager is as another, but that the events before a point differ.
spec fn tracks(a: ManagerView, b: ManagerView, prefix: Seq<EventView>, n: int) -> bool {
    &&& a == ManagerView { events: a.events, ..b }
    &&& 0 <= n <= b.events.len()
    &&& a.events == prefix + b.events.skip(n)
}

proof fn lemma_tracks_push(
    a: ManagerView,
    b: ManagerView,
    prefix: Seq<EventView>,
    n: int,
    event: EventView,
)
    requires
        tracks(a, b, prefix, n),
    ensures
        a.events.push(event) == prefix + b.events.push(event).skip(n),
{
    assert(a.events.push(event) =~= prefix + b.events.push(event).skip(n));
}

proof fn lemma_tracks_rescore(
    a: Rescoring,
    b: Rescoring,
    prefix: Seq<EventView>,
    n: int,
    updates: Seq<(PeerId, Score)>,
)
    requires
        tracks(a.view, b.view, prefix, n),
        a.to_ban == b.to_ban,
        a.to_unban == b.to_unban,
    ensures
        tracks(a.rescore_all(updates).view, b.rescore_all(updates).view, prefix, n),
        a.rescore_all(updates).to_ban == b.rescore_all(updates).to_ban,
        a.rescore_all(updates).to_unban == b.rescore_all(updates).to_unban,
    decreases updates.len(),
{
    if updates.len() > 0 {
        let rest = updates.drop_last();
        lemma_tracks_rescore(a, b, prefix, n, rest);
        lemma_tracks_push(
            a.rescore_all(rest).view,
            b.rescore_all(rest).view,
            prefix,
            n,
            EventView::DisconnectPeer(updates.last().0, GoodbyeReason::BadScore),
        );
    }
}

proof fn lemma_tracks_bans(
    a: ManagerView,
    b: ManagerView,
    prefix: Seq<EventView>,
    n: int,
    ids: Seq<PeerId>,
)
    requires
        tracks(a, b, prefix, n),
    ensures
        tracks(a.ban_all(ids), b.ban_all(ids), prefix, n),
        tracks(a.unban_all(ids), b.unban_all(ids), prefix, n),
    decreases ids.len(),
{
    if ids.len() > 0 {
        let rest = ids.drop_last();
        let id = ids.last();
        lemma_tracks_bans(a, b, prefix, n, rest);
        let x = a.ban_all(rest);
        let y = b.ban_all(rest);
        let banned = y.db.disconnect_and_ban(id);
        lemma_tracks_push(
            x,
            y,
            prefix,
            n,
            EventView::DisconnectPeer(id, GoodbyeReason::BadScore),
        );
        lemma_tracks_push(
            x,
            y,
            prefix,
            n,
            EventView::Banned(id, banned.banned_ips(banned.info(id).seen_addresses)),
        );
        let v = a.unban_all(rest);
        let w = b.unban_all(rest);
        lemma_tracks_push(
            v,
            w,
            prefix,
            n,
            EventView::UnBanned(id, w.db.peers[id].seen_addresses),
        );
    }
}

/// The events that were added to those of a manager.
pub open spec fn news(before: ManagerView, after: ManagerView) -> Seq<EventView> {
    after.events.skip(before.events.len() as int)
}

/// Before subnets and the peer count are seen to, a heartbeat does just what an update of the
/// scores does, however many peers there are; and it asks for more peers first where they lack.
pub proof fn heartbeats_update_scores(view: ManagerView, updates: Seq<(PeerId, Score)>)
    ensures
        ({
            let scored = view.update_peer_scores(updates);
            let lacking = view.discovery_enabled && (occupied(view) < view.target_peers
                || view.db.members(PeerClass::OutboundOnly).len() < limits::spec_min_outbound_only(
                view.target_peers,
            ));
            view.heartbeat_scores(updates) == (ManagerView {
                events: view.events + (if lacking {
                    seq![EventView::DiscoverPeers]
                } else {
                    seq![]
                }) + news(view, scored),
                ..scored
            })
        }),
{
    let lacking = view.lacks_peers(view.target_peers as int);
    let prefix = view.events + (if lacking {
        seq![EventView::DiscoverPeers]
    } else {
        seq![]
    });
    let looked = if lacking {
        view.push(EventView::DiscoverPeers)
    } else {
        view
    };
    let n = view.events.len() as int;
    assert(looked.events =~= prefix);
    assert(prefix + view.events.skip(n) =~= prefix);
    assert(tracks(looked, view, prefix, n));
    lemma_tracks_rescore(looked.rescoring(), view.rescoring(), prefix, n, updates);
    let a = looked.rescoring().rescore_all(updates);
    let b = view.rescoring().rescore_all(updates);
    lemma_tracks_bans(a.view, b.view, prefix, n, b.to_ban);
    lemma_tracks_bans(
        a.view.ban_all(b.to_ban),
        b.view.ban_all(b.to_ban),
        prefix,
        n,
        b.to_unban,
    );
}

proof fn lemma_same_excess(a: ManagerView, b: ManagerView, worst: Seq<PeerId>, now: Instant)
    requires
        a.db == b.db,
        a.target_peers == b.target_peers,
    ensures
        a.excess_peers(worst, now) == b.excess_peers(worst, now),
    decreases worst.len(),
{
    if worst.len() > 0 {
        lemma_same_excess(a, b, worst.drop_last(), now);
        assert((|id: PeerId| a.db.info(id).is_outbound_only()) =~= (|id: PeerId|
            b.db.info(id).is_outbound_only()));
    }
}

/// What a heartbeat does: the scores are updated, whatever the peer count; then subnets are
/// maintained; then those peers are told to go, each once, that are too many by the new scores, and
/// all others are as the new scores left them. It asks for all this in that order, for more peers
/// first of all where they lack.
pub proof fn heartbeat_effect(
    view: ManagerView,
    now: Instant,
    updates: Seq<(PeerId, Score)>,
    subnets: Seq<SyncSubnetId>,
    worst: Seq<PeerId>,
    id: PeerId,
)
    ensures
        ({
            let scored = view.update_peer_scores(updates);
            let maintained = scored.maintain_sync_committee_peers(now, subnets);
            let gone = scored.excess_peers(worst, now);
            let after = view.heartbeat(now, updates, subnets, worst);
            let lacking = view.discovery_enabled && (occupied(view) < view.target_peers
                || view.db.members(PeerClass::OutboundOnly).len() < limits::spec_min_outbound_only(
                view.target_peers,
            ));
            &&& after.db.info(id) == if gone.contains(id) {
                PeerInfoView {
                    connection_status: PeerConnectionStatus::Disconnecting { to_ban: false },
                    ..scored.db.info(id)
                }
            } else {
                scored.db.info(id)
            }
            &&& after.events == view.events + (if lacking {
                seq![EventView::DiscoverPeers]
            } else {
                seq![]
            }) + news(view, scored) + news(scored, maintained) + farewells(gone)
            &&& after.sync_committee_subnets == maintained.sync_committee_subnets
            &&& same_clocks(view, after)
            &&& after.metrics == scored.metrics
            &&& after.sync_state == scored.sync_state
            &&& after.local_udp_port == scored.local_udp_port
            &&& after.target_peers == scored.target_peers
            &&& after.target_subnet_peers == scored.target_subnet_peers
            &&& after.discovery_enabled == scored.discovery_enabled
            &&& forall|i: int|
                0 <= i < farewells(gone).len() ==> #[trigger] farewells(gone)[i]
                    == EventView::DisconnectPeer(gone[i], GoodbyeReason::TooManyPeers)
        }),
{
    let scored = view.update_peer_scores(updates);
    let first = view.heartbeat_scores(updates);
    let maintained = scored.maintain_sync_committee_peers(now, subnets);
    let then = first.maintain_sync_committee_peers(now, subnets);
    let gone = scored.excess_peers(worst, now);
    let after = view.heartbeat(now, updates, subnets, worst);
    heartbeats_update_scores(view, updates);
    score_updates_ping_nobody(view, updates);
    assert(then.db == scored.db);
    lemma_same_excess(then, scored, worst, now);
    letting_go_spares_others(then, gone);
    lemma_letting_go_keeps_rest(then, gone);
    assert(first.expire_subnets(now).sync_committee_subnets =~= scored.expire_subnets(
        now,
    ).sync_committee_subnets);
    assert(then.events =~= first.events + news(scored, maintained)) by {
        let live = scored.expire_subnets(now);
        let live_then = first.expire_subnets(now);
        assert((|subnet: SyncSubnetId| live.subnet_request(subnet)) =~= (|subnet: SyncSubnetId|
            live_then.subnet_request(subnet)));
    }
}

proof fn lemma_letting_go_keeps_rest(view: ManagerView, ids: Seq<PeerId>)
    ensures
        same_settings(view, view.disconnect_all(ids)),
        view.disconnect_all(ids).metrics == view.metrics,
    decreases ids.len(),
{
    if ids.len() > 0 {
        lemma_letting_go_keeps_rest(view, ids.drop_last());
    }
}

/// After a heartbeat, however many peers there are, each known peer has the score that it was
/// given, of a list in which none occurs twice; and where the score has come to one by which a peer
/// is disconnected or banned, the peer is neither connected nor being dialed.
pub proof fn heartbeats_give_scores(
    view: ManagerView,
    now: Instant,
    updates: Seq<(PeerId, Score)>,
    subnets: Seq<SyncSubnetId>,
    worst: Seq<PeerId>,
    i: int,
)
    requires
        distinct(updates),
        0 <= i < updates.len(),
        view.db.knows(updates[i].0),
    ensures
        ({
            let (id, score) = updates[i];
            let before = view.db.info(id);
            let after = view.heartbeat(now, updates, subnets, worst).db.info(id);
            &&& after.score == score
            &&& score.state != ScoreState::Healthy && score.state != before.score.state
                ==> !is_near(after.connection_status)
            &&& after == rescored(before, score) || after == (PeerInfoView {
                connection_status: PeerConnectionStatus::Disconnecting { to_ban: false },
                ..rescored(before, score)
            })
        }),
{
    heartbeat_effect(view, now, updates, subnets, worst, updates[i].0);
    updates_reach_each_peer(view, updates, i);
}

/// How one more peer in the order by score matters to whom a heartbeat lets go: it is let go just
/// if fewer are so far than there are beyond the target, no duty needs it, and, if we opened all its
/// connections, there are more such peers left than are required.
pub proof fn peers_are_let_go_in_turn(
    view: ManagerView,
    worst: Seq<PeerId>,
    id: PeerId,
    now: Instant,
)
    ensures
        ({
            let before = view.excess_peers(worst, now);
            let after = view.excess_peers(worst.push(id), now);
            let info = view.db.info(id);
            let outbound = info.connection_status matches PeerConnectionStatus::Connected {
                n_in,
                n_out,
            } && n_in == 0 && n_out > 0;
            let left = view.db.members(PeerClass::OutboundOnly).len() - before.filter(
                |other: PeerId|
                    view.db.info(other).connection_status matches PeerConnectionStatus::Connected {
                        n_in,
                        n_out,
                    } && n_in == 0 && n_out > 0,
            ).len();
            let let_go = before.len() + view.target_peers < view.db.members(
                PeerClass::Connected,
            ).len() && !(info.min_ttl is Some && info.min_ttl->0 >= now) && (outbound ==> left
                > limits::spec_min_outbound_only(view.target_peers));
            after == if let_go {
                before.push(id)
            } else {
                before
            }
        }),
        view.excess_peers(Seq::empty(), now) == Seq::<PeerId>::empty(),
{
    assert(worst.push(id).drop_last() =~= worst);
    assert((|other: PeerId|
        view.db.info(other).connection_status matches PeerConnectionStatus::Connected {
            n_in,
            n_out,
        } && n_in == 0 && n_out > 0) =~= (|other: PeerId| view.db.info(other).is_outbound_only()));
}

/// Which place among `total` has a name, by halves and quarters of the total.
pub open spec fn has_place(quantile: ScoreQuantile, i: int, total: int) -> bool {
    let three_quarters = i == total * 3 / 4 - 1;
    let half = i == total / 2 - 1;
    let quarter = i == total / 4 - 1;
    match quantile {
        ScoreQuantile::First => i == 0,
        ScoreQuantile::ThreeQuarters => i > 0 && three_quarters,
        ScoreQuantile::Half => i > 0 && !three_quarters && half,
        ScoreQuantile::Quarter => i > 0 && !three_quarters && !half && quarter,
        ScoreQuantile::Last => i > 0 && !three_quarters && !half && !quarter && i == total - 1,
    }
}

proof fn lemma_distribution(best: Seq<PeerId>, n: nat, quantile: ScoreQuantile, i: int)
    requires
        best.no_duplicates(),
        n <= best.len(),
        0 <= i < best.len(),
    ensures
        distribution(best, n).contains((quantile, best[i])) <==> i < n && has_place(
            quantile,
            i,
            best.len() as int,
        ),
    decreases n,
{
    if n > 0 {
        let rest = distribution(best, (n - 1) as nat);
        lemma_distribution(best, (n - 1) as nat, quantile, i);
        if let Some(name) = crate::heartbeat::quantile(n - 1, best.len()) {
            vstd::seq_lib::lemma_seq_contains_after_push(
                rest,
                (name, best[n - 1]),
                (quantile, best[i]),
            );
        }
        assert(best[i] == best[n - 1] <==> i == n - 1);
    }
}

/// What the metrics are of: connected peers by score, the best first. A peer stands for a place
/// just if it is at it, and is in the group of its client.
pub proof fn metrics_are_of_connected_peers(
    db: PeerDBView,
    worst: Seq<PeerId>,
    metrics: ScoreMetrics,
    quantile: ScoreQuantile,
    i: int,
)
    requires
        db.measured(worst, metrics),
        0 <= i < worst.len(),
    ensures
        db.worst_first(worst),
        ({
            let id = worst[worst.len() - 1 - i];
            let groups = metrics.per_client@;
            &&& metrics.distribution@.contains((quantile, id)) <==> has_place(
                quantile,
                i,
                worst.len() as int,
            )
            &&& exists|g: int|
                0 <= g < groups.len() && (#[trigger] groups[g]).kind == db.info(id).client.kind
            &&& forall|g: int|
                0 <= g < groups.len() ==> ((#[trigger] groups[g]).peers@.contains(id)
                    <==> groups[g].kind == db.info(id).client.kind)
            &&& forall|g: int, h: int|
                0 <= g < h < groups.len() ==> (#[trigger] groups[g]).kind != (
                #[trigger] groups[h]).kind
        }),
        forall|g: int, other: PeerId|
            0 <= g < metrics.per_client@.len() && #[trigger] metrics.per_client@[g].peers@.contains(
                other,
            ) ==> worst.contains(other),
{
    let best = worst.reverse();
    let groups = metrics.per_client@;
    let id = worst[worst.len() - 1 - i];
    assert(best[i] == id);
    assert(best.no_duplicates());
    lemma_distribution(best, best.len(), quantile, i);
    let kind = db.info(id).client.kind;
    let of_kind = |other: PeerId| db.info(other).client.kind == kind;
    assert(of_kind(best[i]));
    best.lemma_filter_contains(of_kind, i);
    assert(db.of_client(best, kind).len() > 0);
    assert forall|g: int| 0 <= g < groups.len() implies ((#[trigger] groups[g]).peers@.contains(id)
        <==> groups[g].kind == db.info(id).client.kind) by {
        let of_group = |other: PeerId| db.info(other).client.kind == groups[g].kind;
        if groups[g].peers@.contains(id) {
            let k = choose|k: int| 0 <= k < groups[g].peers@.len() && groups[g].peers@[k] == id;
            best.lemma_filter_pred(of_group, k);
            assert(of_group(id));
        }
    }
    assert forall|g: int, other: PeerId|
        0 <= g < groups.len() && #[trigger] groups[g].peers@.contains(
            other,
        ) implies worst.contains(other) by {
        let of_group = |other: PeerId| db.info(other).client.kind == groups[g].kind;
        best.lemma_filter_contains_rev(of_group, other);
        let k = choose|k: int| 0 <= k < best.len() && best[k] == other;
        assert(worst[worst.len() - 1 - k] == other);
    }
}

proof fn lemma_filter_in_order(
    ids: Seq<PeerId>,
    keep: spec_fn(PeerId) -> bool,
    rank: spec_fn(PeerId) -> int,
)
    requires
        ids.no_duplicates(),
        forall|i: int, j: int|
            0 <= i < j < ids.len() ==> rank(#[trigger] ids[i]) >= rank(#[trigger] ids[j]),
    ensures
        ids.filter(keep).no_duplicates(),
        forall|i: int, j: int|
            0 <= i < j < ids.filter(keep).len() ==> rank(#[trigger] ids.filter(keep)[i]) >= rank(
                #[trigger] ids.filter(keep)[j],
            ),
    decreases ids.len(),
{
    reveal(Seq::filter);
    if ids.len() > 0 {
        let rest = ids.drop_last();
        let last = ids.last();
        assert forall|i: int, j: int| 0 <= i < j < rest.len() implies rank(#[trigger] rest[i])
            >= rank(#[trigger] rest[j]) by {
            assert(rest[i] == ids[i] && rest[j] == ids[j]);
        }
        lemma_filter_in_order(rest, keep, rank);
        let kept = rest.filter(keep);
        assert forall|i: int| 0 <= i < kept.len() implies rank(#[trigger] kept[i]) >= rank(last)
            && kept[i] != last by {
            assert(kept.contains(kept[i]));
            rest.lemma_filter_contains_rev(keep, kept[i]);
            let k = choose|k: int| 0 <= k < rest.len() && rest[k] == kept[i];
            assert(ids[k] == kept[i] && ids[ids.len() - 1] == last);
        }
    }
}

/// In each group of the metrics a peer is listed once, and no better one after a worse.
pub proof fn metrics_list_the_best_first(
    db: PeerDBView,
    worst: Seq<PeerId>,
    metrics: ScoreMetrics,
    g: int,
)
    requires
        db.measured(worst, metrics),
        0 <= g < metrics.per_client@.len(),
    ensures
        ({
            let peers = metrics.per_client@[g].peers@;
            &&& peers.len() > 0
            &&& peers.no_duplicates()
            &&& forall|k: int, l: int|
                0 <= k < l < peers.len() ==> db.info(#[trigger] peers[k]).score.rank >= db.info(
                    #[trigger] peers[l],
                ).score.rank
        }),
{
    let best = worst.reverse();
    let kind = metrics.per_client@[g].kind;
    let rank = |id: PeerId| db.info(id).score.rank as int;
    let keep = |id: PeerId| db.info(id).client.kind == kind;
    assert forall|i: int, j: int| 0 <= i < j < best.len() implies rank(#[trigger] best[i]) >= rank(
        #[trigger] best[j],
    ) by {
        orders_by_score_are_complete(db, worst, 0);
        assert(best[i] == worst[worst.len() - 1 - i] && best[j] == worst[worst.len() - 1 - j]);
    }
    assert(best.no_duplicates());
    lemma_filter_in_order(best, keep, rank);
    let peers = metrics.per_client@[g].peers@;
    assert(peers == db.of_client(best, kind));
    assert forall|k: int, l: int| 0 <= k < l < peers.len() implies db.info(
        #[trigger] peers[k],
    ).score.rank >= db.info(#[trigger] peers[l]).score.rank by {
        assert(rank(best.filter(keep)[k]) >= rank(best.filter(keep)[l]));
    }
}

/// The peer that stands for the `k`-th named place is at a place that has that name, after those
/// that stand before it, and is one of those measured.
pub proof fn named_places_are_in_order(best: Seq<PeerId>, n: nat, k: int) -> (i: int)
    requires
        n <= best.len(),
        0 <= k < distribution(best, n).len(),
    ensures
        k <= i < n,
        distribution(best, n)[k].1 == best[i],
        has_place(distribution(best, n)[k].0, i, best.len() as int),
        k == distribution(best, i as nat).len(),
    decreases n,
{
    let rest = distribution(best, (n - 1) as nat);
    lemma_distribution_len(best, (n - 1) as nat);
    if k < rest.len() {
        named_places_are_in_order(best, (n - 1) as nat, k)
    } else {
        n - 1
    }
}

proof fn lemma_distribution_len(best: Seq<PeerId>, n: nat)
    ensures
        distribution(best, n).len() <= n,
    decreases n,
{
    if n > 0 {
        lemma_distribution_len(best, (n - 1) as nat);
    }
}

} // verus!
