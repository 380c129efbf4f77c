//! What holds of every heartbeat: whom it lets go, and whom it never does.

use crate::event::EventView;
use crate::limits;
use crate::manager::ManagerView;
use crate::network::{GoodbyeReason, Instant, PeerId, SyncSubnetId};
use crate::peer_info::PeerConnectionStatus;
use crate::peerdb::{PeerClass, PeerDBView};
use crate::score::Score;
use vstd::prelude::*;

verus! {

/// How many of the peers satisfy a condition.
pub open spec fn how_many(ids: Seq<PeerId>, condition: spec_fn(PeerId) -> bool) -> nat {
    ids.filter(condition).len()
}

pub open spec fn min(a: int, b: int) -> int {
    if a <= b {
        a
    } else {
        b
    }
}

/// The requests to disconnect peers for being too many.
pub open spec fn farewells(ids: Seq<PeerId>) -> Seq<EventView> {
    ids.map_values(|id: PeerId| EventView::DisconnectPeer(id, GoodbyeReason::TooManyPeers))
}

impl ManagerView {
    /// How many peers are connected beyond the target.
    pub open spec fn excess(self) -> int {
        let count = self.db.count(PeerClass::Connected) as int;
        if count > self.target_peers {
            count - self.target_peers
        } else {
            0
        }
    }

    /// How many peers by connections only that we opened there are beyond the required number.
    pub open spec fn outbound_surplus(self) -> int {
        let count = self.db.count(PeerClass::OutboundOnly) as int;
        let required = limits::spec_min_outbound_only(self.target_peers) as int;
        if count > required {
            count - required
        } else {
            0
        }
    }

    /// No duty needs the peer, and it opened a connection itself.
    pub open spec fn is_free_inbound(self, id: PeerId, now: Instant) -> bool {
        !self.db.info(id).has_future_duty(now) && !self.db.info(id).is_outbound_only()
    }

    /// No duty needs the peer, and we opened all its connections.
    pub open spec fn is_free_outbound(self, id: PeerId, now: Instant) -> bool {
        !self.db.info(id).has_future_duty(now) && self.db.info(id).is_outbound_only()
    }

    /// How many of the peers can be let go without falling below what is required of outbound-only
    /// peers, or missing one that a duty needs.
    pub open spec fn dispensable(self, ids: Seq<PeerId>, now: Instant) -> int {
        how_many(ids, |id: PeerId| self.is_free_inbound(id, now)) + min(
            how_many(ids, |id: PeerId| self.is_free_outbound(id, now)) as int,
            self.outbound_surplus(),
        )
    }
}

proof fn lemma_excess(view: ManagerView, worst: Seq<PeerId>, now: Instant)
    ensures
        ({
            let gone = view.excess_peers(worst, now);
            let outbound = view.outbound_only_among(gone);
            let free = how_many(worst, |id: PeerId| view.is_free_outbound(id, now)) as int;
            &&& gone.len() == min(view.excess(), view.dispensable(worst, now))
            &&& outbound <= view.outbound_surplus()
            &&& gone.len() < view.excess() ==> outbound == min(free, view.outbound_surplus())
        }),
    decreases worst.len(),
{
    reveal(Seq::filter);
    if worst.len() > 0 {
        let rest = worst.drop_last();
        let id = worst.last();
        lemma_excess(view, rest, now);
        let before = view.excess_peers(rest, now);
        assert(worst =~= rest.push(id));
        rest.lemma_filter_push(id, |id: PeerId| view.is_free_inbound(id, now));
        rest.lemma_filter_push(id, |id: PeerId| view.is_free_outbound(id, now));
        before.lemma_filter_push(id, |id: PeerId| view.db.info(id).is_outbound_only());
    }
}

proof fn lemma_excess_members(view: ManagerView, worst: Seq<PeerId>, now: Instant, id: PeerId)
    requires
        view.excess_peers(worst, now).contains(id),
    ensures
        worst.contains(id),
        !view.db.info(id).has_future_duty(now),
    decreases worst.len(),
{
    if worst.len() > 0 {
        let rest = worst.drop_last();
        let before = view.excess_peers(rest, now);
        if before.contains(id) {
            lemma_excess_members(view, rest, now, id);
            let i = choose|i: int| 0 <= i < rest.len() && rest[i] == id;
            assert(worst[i] == id);
        } else {
            vstd::seq_lib::lemma_seq_contains_after_push(before, worst.last(), id);
            assert(worst[worst.len() - 1] == id);
        }
    }
}

proof fn lemma_excess_distinct(view: ManagerView, worst: Seq<PeerId>, now: Instant)
    requires
        worst.no_duplicates(),
    ensures
        view.excess_peers(worst, now).no_duplicates(),
    decreases worst.len(),
{
    if worst.len() > 0 {
        let rest = worst.drop_last();
        let before = view.excess_peers(rest, now);
        lemma_excess_distinct(view, rest, now);
        if before.contains(worst.last()) {
            lemma_excess_members(view, rest, now, worst.last());
        }
    }
}

/// Each peer that is let go is being disconnected and asked to be, in order; what is known of all
/// others stays as it is.
pub proof fn letting_go_spares_others(view: ManagerView, ids: Seq<PeerId>)
    ensures
        ({
            let after = view.disconnect_all(ids);
            &&& after.target_peers == view.target_peers
            &&& after.discovery_enabled == view.discovery_enabled
            &&& after.inbound_ping == view.inbound_ping
            &&& after.outbound_ping == view.outbound_ping
            &&& after.status == view.status
            &&& forall|id: PeerId| #[trigger]
                after.db.info(id) == if ids.contains(id) {
                    view.db.info(id).with_status(
                        PeerConnectionStatus::Disconnecting { to_ban: false },
                    )
                } else {
                    view.db.info(id)
                }
            &&& forall|id: PeerId| #[trigger]
                after.db.knows(id) == (view.db.knows(id) || ids.contains(id))
            &&& after.events == view.events + farewells(ids)
        }),
    decreases ids.len(),
{
    if ids.len() > 0 {
        let rest = ids.drop_last();
        let last = ids.last();
        letting_go_spares_others(view, rest);
        assert(ids =~= rest.push(last));
        assert forall|id: PeerId| #[trigger] ids.contains(id) <==> rest.contains(id) || id
            == last by {
            vstd::seq_lib::lemma_seq_contains_after_push(rest, last, id);
        }
        let before = view.disconnect_all(rest);
        let after = view.disconnect_all(ids);
        assert forall|id: PeerId| #[trigger] after.db.info(id) == if ids.contains(id) {
            view.db.info(id).with_status(PeerConnectionStatus::Disconnecting { to_ban: false })
        } else {
            view.db.info(id)
        } by {
            assert(before.db.info(id) == before.db.info(id));
            if id != last {
                assert(after.db.info(id) == before.db.info(id));
            }
        }
        assert forall|id: PeerId| #[trigger] after.db.knows(id) == (view.db.knows(id)
            || ids.contains(id)) by {
            assert(before.db.knows(id) == (view.db.knows(id) || rest.contains(id)));
        }
        assert(after.events =~= view.events + farewells(ids));
    } else {
        assert(view.events + farewells(ids) =~= view.events);
    }
}

/// What is left of the connected peers, and of those by connections only that we opened, after
/// some of the connected peers were told to go.
proof fn lemma_counts(view: ManagerView, ids: Seq<PeerId>)
    requires
        ids.no_duplicates(),
        view.db.members(PeerClass::Connected).finite(),
        view.db.members(PeerClass::OutboundOnly).finite(),
        forall|i: int| 0 <= i < ids.len() ==> view.db.is_connected(#[trigger] ids[i]),
    ensures
        view.disconnect_all(ids).db.members(PeerClass::Connected).finite(),
        view.disconnect_all(ids).db.members(PeerClass::OutboundOnly).finite(),
        view.disconnect_all(ids).db.count(PeerClass::Connected) == view.db.count(
            PeerClass::Connected,
        ) - ids.len(),
        view.disconnect_all(ids).db.count(PeerClass::OutboundOnly) == view.db.count(
            PeerClass::OutboundOnly,
        ) - view.outbound_only_among(ids),
    decreases ids.len(),
{
    reveal(Seq::filter);
    if ids.len() > 0 {
        let rest = ids.drop_last();
        let last = ids.last();
        let before = view.disconnect_all(rest);
        let after = view.disconnect_all(ids);
        assert forall|i: int| 0 <= i < rest.len() implies view.db.is_connected(
            #[trigger] rest[i],
        ) by {
            assert(rest[i] == ids[i]);
        }
        lemma_counts(view, rest);
        letting_go_spares_others(view, rest);
        assert(ids =~= rest.push(last));
        assert(!rest.contains(last));
        assert(view.db.is_connected(ids[ids.len() - 1]));
        assert(before.db.info(last) == view.db.info(last));
        assert(before.db.knows(last));
        rest.lemma_filter_push(last, |id: PeerId| view.db.info(id).is_outbound_only());
        assert(after.db.members(PeerClass::Connected) =~= before.db.members(
            PeerClass::Connected,
        ).remove(last));
        assert(after.db.members(PeerClass::OutboundOnly) =~= before.db.members(
            PeerClass::OutboundOnly,
        ).remove(last));
    }
}

proof fn lemma_connected_are_finite(db: PeerDBView, worst: Seq<PeerId>)
    requires
        db.worst_first(worst),
    ensures
        db.members(PeerClass::Connected).finite(),
        db.members(PeerClass::Connected).len() == worst.len(),
        db.members(PeerClass::OutboundOnly).finite(),
        forall|i: int| 0 <= i < worst.len() ==> db.is_connected(#[trigger] worst[i]),
{
    worst.unique_seq_to_set();
    let connected = db.members(PeerClass::Connected);
    vstd::set_lib::lemma_len_subset(db.members(PeerClass::OutboundOnly), connected);
    assert forall|i: int| 0 <= i < worst.len() implies db.is_connected(#[trigger] worst[i]) by {
        assert(worst.to_set().contains(worst[i]));
    }
}

/// Letting peers go for being too many never takes one that a duty needs, takes connected peers
/// only, and each once.
pub proof fn pruning_spares_duties(view: ManagerView, worst: Seq<PeerId>, now: Instant)
    requires
        view.db.worst_first(worst),
    ensures
        view.excess_peers(worst, now).no_duplicates(),
        forall|id: PeerId| #[trigger]
            view.excess_peers(worst, now).contains(id) ==> view.db.is_connected(id)
                && !view.db.info(id).has_future_duty(now),
{
    lemma_excess_distinct(view, worst, now);
    assert forall|id: PeerId| #[trigger] view.excess_peers(worst, now).contains(
        id,
    ) implies view.db.is_connected(id) && !view.db.info(id).has_future_duty(now) by {
        lemma_excess_members(view, worst, now, id);
        assert(worst.to_set().contains(id));
    }
}

/// As many peers are let go as there are beyond the target, or as can be without touching the
/// required number of outbound-only peers and those that duties need, whichever is less.
pub proof fn pruning_count(view: ManagerView, worst: Seq<PeerId>, now: Instant)
    requires
        view.db.worst_first(worst),
    ensures
        view.excess_peers(worst, now).len() == min(
            view.excess(),
            view.dispensable(worst, now),
        ),
{
    lemma_excess(view, worst, now);
}

/// With no more peers connected than the target, nobody is let go.
pub proof fn pruning_rests_at_target(view: ManagerView, worst: Seq<PeerId>, now: Instant)
    requires
        view.db.count(PeerClass::Connected) <= view.target_peers,
    ensures
        view.excess_peers(worst, now) == Seq::<PeerId>::empty(),
        view.disconnect_all(view.excess_peers(worst, now)) == view,
{
    lemma_excess(view, worst, now);
    assert(view.excess_peers(worst, now) =~= Seq::empty());
}

/// Letting peers go never leaves fewer connected than the target, or than there were. It leaves
/// exactly the target where enough peers are dispensable.
pub proof fn pruning_keeps_target(view: ManagerView, worst: Seq<PeerId>, now: Instant)
    requires
        view.db.worst_first(worst),
    ensures
        ({
            let before = view.db.count(PeerClass::Connected) as int;
            let after = view.disconnect_all(view.excess_peers(worst, now)).db.count(
                PeerClass::Connected,
            ) as int;
            &&& after == before - min(view.excess(), view.dispensable(worst, now))
            &&& after >= min(before, view.target_peers as int)
            &&& before > view.target_peers && view.dispensable(worst, now) >= view.excess()
                ==> after == view.target_peers
        }),
{
    lemma_excess(view, worst, now);
    pruning_spares_duties(view, worst, now);
    lemma_connected_are_finite(view.db, worst);
    let gone = view.excess_peers(worst, now);
    assert forall|i: int| 0 <= i < gone.len() implies view.db.is_connected(#[trigger] gone[i]) by {
        assert(gone.contains(gone[i]));
    }
    lemma_counts(view, gone);
}

/// Letting peers go never takes the outbound-only peers below their required number, or takes none
/// of them where they are below it already.
pub proof fn pruning_keeps_outbound_peers(view: ManagerView, worst: Seq<PeerId>, now: Instant)
    requires
        view.db.worst_first(worst),
    ensures
        view.disconnect_all(view.excess_peers(worst, now)).db.count(PeerClass::OutboundOnly)
            >= min(
            view.db.count(PeerClass::OutboundOnly) as int,
            limits::spec_min_outbound_only(view.target_peers) as int,
        ),
{
    lemma_excess(view, worst, now);
    pruning_spares_duties(view, worst, now);
    lemma_connected_are_finite(view.db, worst);
    let gone = view.excess_peers(worst, now);
    assert forall|i: int| 0 <= i < gone.len() implies view.db.is_connected(#[trigger] gone[i]) by {
        assert(gone.contains(gone[i]));
    }
    lemma_counts(view, gone);
}

proof fn lemma_excess_prefix(view: ManagerView, worst: Seq<PeerId>, now: Instant, n: int)
    requires
        0 <= n <= worst.len(),
    ensures
        view.excess_peers(worst.take(n), now).len() <= view.excess_peers(worst, now).len(),
        forall|id: PeerId|
            view.excess_peers(worst.take(n), now).contains(id) ==> #[trigger] view.excess_peers(
                worst,
                now,
            ).contains(id),
        view.outbound_only_among(view.excess_peers(worst.take(n), now))
            <= view.outbound_only_among(view.excess_peers(worst, now)),
    decreases worst.len(),
{
    if n < worst.len() {
        let rest = worst.drop_last();
        lemma_excess_prefix(view, rest, now, n);
        assert(rest.take(n) =~= worst.take(n));
        let before = view.excess_peers(rest, now);
        before.lemma_filter_push(
            worst.last(),
            |id: PeerId| view.db.info(id).is_outbound_only(),
        );
        assert forall|id: PeerId| before.contains(id) implies #[trigger] view.excess_peers(
            worst,
            now,
        ).contains(id) by {
            vstd::seq_lib::lemma_seq_contains_after_push(before, worst.last(), id);
        }
    } else {
        assert(worst.take(n) =~= worst);
    }
}

/// The place in `worst` at which a peer was let go.
proof fn lemma_excess_place(view: ManagerView, worst: Seq<PeerId>, now: Instant, id: PeerId) -> (n:
    int)
    requires
        view.excess_peers(worst, now).contains(id),
    ensures
        0 <= n < worst.len(),
        worst[n] == id,
        view.may_let_go(view.excess_peers(worst.take(n), now), id, now),
    decreases worst.len(),
{
    let rest = worst.drop_last();
    let before = view.excess_peers(rest, now);
    if before.contains(id) {
        let n = lemma_excess_place(view, rest, now, id);
        assert(rest.take(n) =~= worst.take(n));
        n
    } else {
        vstd::seq_lib::lemma_seq_contains_after_push(before, worst.last(), id);
        assert(worst.take(worst.len() - 1) =~= rest);
        worst.len() - 1
    }
}

/// The worst go first. A peer that was let go scores no better than one that was kept, if no duty
/// needs that one and it opened a connection itself, or if both are outbound-only.
pub proof fn pruning_takes_the_worst(
    view: ManagerView,
    worst: Seq<PeerId>,
    now: Instant,
    gone: PeerId,
    kept: PeerId,
)
    requires
        view.db.worst_first(worst),
        view.excess_peers(worst, now).contains(gone),
        view.db.is_connected(kept),
        !view.excess_peers(worst, now).contains(kept),
        !view.db.info(kept).has_future_duty(now),
        view.db.info(kept).is_outbound_only() ==> view.db.info(gone).is_outbound_only(),
    ensures
        view.db.info(gone).score.rank <= view.db.info(kept).score.rank,
{
    let g = lemma_excess_place(view, worst, now, gone);
    assert(worst.to_set().contains(kept));
    let k = choose|k: int| 0 <= k < worst.len() && worst[k] == kept;
    lemma_connected_are_finite(view.db, worst);
    assert(view.db.is_connected(worst[g]) && view.db.is_connected(worst[k]));
    if k < g {
        // `kept` was looked at first, and was not let go: neither could `gone` be.
        let upto = worst.take(g);
        assert(upto.take(k) =~= worst.take(k));
        assert(upto.take(k + 1) =~= worst.take(k + 1));
        lemma_excess_prefix(view, upto, now, k);
        lemma_excess_prefix(view, worst, now, k + 1);
        assert(worst.take(k + 1).drop_last() =~= worst.take(k));
        assert(worst.take(k + 1).last() == kept);
        let before = view.excess_peers(worst.take(k), now);
        if view.may_let_go(before, kept, now) {
            vstd::seq_lib::lemma_seq_contains_after_push(before, kept, kept);
            assert(view.excess_peers(worst.take(k + 1), now).contains(kept));
            assert(false);
        }
    }
}

/// A heartbeat keeps every peer that a duty needs, as the update of the scores left it.
pub proof fn heartbeat_keeps_duties(
    view: ManagerView,
    now: Instant,
    updates: Seq<(PeerId, Score)>,
    subnets: Seq<SyncSubnetId>,
    worst: Seq<PeerId>,
    id: PeerId,
)
    requires
        view.heartbeat_scores(updates).db.worst_first(worst),
        view.heartbeat_scores(updates).db.info(id).has_future_duty(now),
    ensures
        view.heartbeat(now, updates, subnets, worst).db.info(id) == view.heartbeat_scores(
            updates,
        ).db.info(id),
{
    let maintained = view.heartbeat_scores(updates).maintain_sync_committee_peers(now, subnets);
    pruning_spares_duties(maintained, worst, now);
    letting_go_spares_others(maintained, maintained.excess_peers(worst, now));
    assert(!maintained.excess_peers(worst, now).contains(id));
    let after = view.heartbeat(now, updates, subnets, worst);
    assert(after.db.info(id) == maintained.db.info(id));
}

/// A heartbeat leaves no fewer peers connected than the target, or than the update of the scores
/// left, and leaves exactly the target where enough peers are dispensable. It leaves no fewer
/// outbound-only peers than required, or than the update of the scores left.
pub proof fn heartbeat_keeps_target(
    view: ManagerView,
    now: Instant,
    updates: Seq<(PeerId, Score)>,
    subnets: Seq<SyncSubnetId>,
    worst: Seq<PeerId>,
)
    requires
        view.heartbeat_scores(updates).db.worst_first(worst),
    ensures
        ({
            let scored = view.heartbeat_scores(updates);
            let before = scored.db.count(PeerClass::Connected) as int;
            let after = view.heartbeat(now, updates, subnets, worst).db;
            let target = scored.target_peers;
            &&& after.count(PeerClass::Connected) >= min(before, target as int)
            &&& after.count(PeerClass::Connected) <= before
            &&& before > target && scored.dispensable(worst, now) >= before - target
                ==> after.count(PeerClass::Connected) == target
            &&& after.count(PeerClass::OutboundOnly) >= min(
                scored.db.count(PeerClass::OutboundOnly) as int,
                limits::spec_min_outbound_only(target) as int,
            )
        }),
{
    let scored = view.heartbeat_scores(updates);
    let maintained = scored.maintain_sync_committee_peers(now, subnets);
    pruning_keeps_target(maintained, worst, now);
    pruning_keeps_outbound_peers(maintained, worst, now);
    assert(maintained.db == scored.db);
    assert((|id: PeerId| maintained.is_free_inbound(id, now)) =~= (|id: PeerId|
        scored.is_free_inbound(id, now)));
    assert((|id: PeerId| maintained.is_free_outbound(id, now)) =~= (|id: PeerId|
        scored.is_free_outbound(id, now)));
}

} // verus!
