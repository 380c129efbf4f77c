//! What becomes of the peers whose scores change.

use crate::effects::{
    asked_by_ban, ban_effect, same_settings, spares_others, standing_after_ban, unban_effect,
    worst_score,
};
use crate::event::{EventView, MetricUpdate};
use crate::gossip::{
    gossipsub_updates, is_let_pass, negatives, peers_let_pass, places_let_pass, GossipsubScore,
};
use crate::laws::{
    distinct, lemma_ban_all, lemma_rescore_all, lemma_rescored, lemma_unban_all,
    lemma_unban_listed, same_clocks, score_updates_ping_nobody,
};
use crate::limits;
use crate::manager::ManagerView;
use crate::meaning::over_limit_among;
use crate::network::{ConnectionDirection, GoodbyeReason, IpAddr, PeerId, Protocol, RPCError};
use crate::peer_info::{PeerConnectionStatus, PeerInfoView};
use crate::reputation::{is_pardoned, rpc_error_penalty, Rescoring};
use crate::score::{PeerAction, ReportSource, Score, ScoreOutlook, ScoreState};
use vstd::prelude::*;

verus! {

/// The peer is with us, or we are dialing it.
pub open spec fn is_near(status: PeerConnectionStatus) -> bool {
    status is Connected || status == PeerConnectionStatus::Dialing
}

/// A new score bans a peer that was not banned by its score.
pub open spec fn falls_to_ban(info: PeerInfoView, score: Score) -> bool {
    score.state == ScoreState::Banned && info.score.state != ScoreState::Banned
}

/// A new score has a peer disconnected that is with us or being dialed.
pub open spec fn falls_to_disconnect(info: PeerInfoView, score: Score) -> bool {
    score.state == ScoreState::Disconnected && info.score.state != ScoreState::Disconnected
        && is_near(info.connection_status)
}

/// A new score frees a peer that was banned.
pub open spec fn rises_from_ban(info: PeerInfoView, score: Score) -> bool {
    info.score.state == ScoreState::Banned && score.state != ScoreState::Banned
        && info.connection_status == PeerConnectionStatus::Banned
}

/// What a new score makes of a peer.
pub open spec fn rescored(info: PeerInfoView, score: Score) -> PeerInfoView {
    PeerInfoView {
        score,
        connection_status: if falls_to_ban(info, score) {
            standing_after_ban(info.connection_status)
        } else if falls_to_disconnect(info, score) {
            PeerConnectionStatus::Disconnecting { to_ban: false }
        } else if rises_from_ban(info, score) {
            PeerConnectionStatus::Disconnected
        } else {
            info.connection_status
        },
        ..info
    }
}

/// What a new score of a peer asks for.
pub open spec fn asked_by_score(
    info: PeerInfoView,
    score: Score,
    id: PeerId,
    banned_ips: Seq<IpAddr>,
) -> Seq<EventView> {
    if falls_to_ban(info, score) {
        asked_by_ban(info.connection_status, id, GoodbyeReason::BadScore, banned_ips)
    } else if falls_to_disconnect(info, score) {
        seq![EventView::DisconnectPeer(id, GoodbyeReason::BadScore)]
    } else if rises_from_ban(info, score) {
        seq![EventView::UnBanned(id, info.seen_addresses)]
    } else {
        seq![]
    }
}

/// What a report makes of a known peer's score.
pub open spec fn score_after_action(
    outlook: ScoreOutlook,
    score: Score,
    action: PeerAction,
) -> Score {
    match action {
        PeerAction::Fatal => worst_score(score),
        PeerAction::LowToleranceError => outlook.low_tolerance,
        PeerAction::MidToleranceError => outlook.mid_tolerance,
        PeerAction::HighToleranceError => outlook.high_tolerance,
    }
}

/// What a report does: a known peer gets the score that the action makes of its own, with all that
/// follows, and the action is counted. A peer that was not known is put down, with nothing held
/// against it.
pub proof fn report_effect(
    view: ManagerView,
    id: PeerId,
    action: PeerAction,
    source: ReportSource,
    outlook: ScoreOutlook,
)
    ensures
        ({
            let after = view.report_peer(id, action, source, outlook);
            let info = view.db.info(id);
            let score = score_after_action(outlook, info.score, action);
            &&& after.db.knows(id)
            &&& spares_others(view, after, id)
            &&& same_settings(view, after)
            &&& same_clocks(view, after)
            &&& view.db.knows(id) ==> after.db.info(id) == rescored(info, score)
            &&& view.db.knows(id) ==> after.events == view.events + asked_by_score(
                info,
                score,
                id,
                over_limit_among(after.db, info.seen_addresses),
            )
            &&& view.db.knows(id) ==> after.metrics == view.metrics.push(
                MetricUpdate::PeerAction(info.client.kind, action, source),
            )
            &&& !view.db.knows(id) ==> after.db.info(id) == info && after.events == view.events
                && after.metrics == view.metrics
        }),
{
    reveal_with_fuel(ManagerView::ban_all, 2);
    reveal_with_fuel(ManagerView::unban_all, 2);
    let after = view.report_peer(id, action, source, outlook);
    let info = view.db.info(id);
    if view.db.knows(id) {
        let score = score_after_action(outlook, info.score, action);
        let metered = view.meter(MetricUpdate::PeerAction(info.client.kind, action, source));
        let changed = metered.rescoring().rescore(id, score);
        assert(seq![id].drop_last() =~= Seq::empty());
        if falls_to_ban(info, score) {
            assert(changed.to_ban =~= seq![id]);
            assert(changed.to_unban =~= Seq::empty());
            ban_effect(changed.view, id, GoodbyeReason::BadScore);
            assert(after == changed.view.ban_peer(id, GoodbyeReason::BadScore));
            assert(changed.view.db.info(id) == info.with_score(score));
        } else {
            assert(changed.to_ban =~= Seq::empty());
            if is_pardoned(info.score.state, score.state, info.with_score(score)) {
                assert(changed.to_unban =~= seq![id]);
                unban_effect(changed.view, id);
                assert(after == changed.view.unban_peer(id));
            } else {
                assert(changed.to_unban =~= Seq::empty());
                assert(after == changed.view);
            }
        }
        assert forall|other: PeerId| other != id implies #[trigger] after.db.info(other)
            == view.db.info(other) && after.db.knows(other) == view.db.knows(other) by {
            assert(changed.view.db.info(other) == view.db.info(other));
        }
        assert(after.events =~= view.events + asked_by_score(
            info,
            score,
            id,
            over_limit_among(after.db, info.seen_addresses),
        ));
    }
}

/// What a failed request does: it is counted, and if it has a price the peer is reported for that:
/// a fatal one bans a known peer, and any other gives it the score that the outlook has for it.
pub proof fn rpc_error_effect(
    view: ManagerView,
    id: PeerId,
    protocol: Protocol,
    err: RPCError,
    direction: ConnectionDirection,
    outlook: ScoreOutlook,
)
    ensures
        ({
            let after = view.handle_rpc_error(id, protocol, err, direction, outlook);
            let info = view.db.info(id);
            let counted = view.metrics.push(
                MetricUpdate::RpcError(info.client.kind, err, direction),
            );
            match rpc_error_penalty(protocol, err, direction) {
                None => after == ManagerView { metrics: counted, ..view },
                Some(action) => {
                    let score = score_after_action(outlook, info.score, action);
                    &&& after.db.knows(id)
                    &&& view.db.knows(id) ==> after.db.info(id) == rescored(info, score)
                    &&& view.db.knows(id) ==> after.events == view.events + asked_by_score(
                        info,
                        score,
                        id,
                        over_limit_among(after.db, info.seen_addresses),
                    )
                    &&& view.db.knows(id) ==> after.metrics == counted.push(
                        MetricUpdate::PeerAction(info.client.kind, action, ReportSource::RPC),
                    )
                    &&& view.db.knows(id) && action == PeerAction::Fatal ==> after.db.ban_status(
                        id,
                    ) is BadScore
                    &&& view.db.knows(id) && action == PeerAction::Fatal && info.score.state
                        != ScoreState::Banned ==> !after.db.is_connected(id)
                    &&& !view.db.knows(id) ==> after.db.info(id) == info && after.events
                        == view.events && after.metrics == counted
                    &&& spares_others(view, after, id)
                    &&& same_settings(view, after)
                    &&& same_clocks(view, after)
                },
            }
        }),
{
    let metered = view.meter(
        MetricUpdate::RpcError(view.db.info(id).client.kind, err, direction),
    );
    if let Some(action) = rpc_error_penalty(protocol, err, direction) {
        report_effect(metered, id, action, ReportSource::RPC, outlook);
        let after = view.handle_rpc_error(id, protocol, err, direction, outlook);
        assert forall|other: PeerId| other != id implies #[trigger] after.db.info(other)
            == view.db.info(other) && after.db.knows(other) == view.db.knows(other) by {
            assert(after.db.info(other) == metered.db.info(other));
        }
    }
}

/// What a ban makes of a peer.
pub open spec fn banned_info(info: PeerInfoView) -> PeerInfoView {
    PeerInfoView {
        connection_status: standing_after_ban(info.connection_status),
        score: if info.score.state == ScoreState::Banned {
            info.score
        } else {
            worst_score(info.score)
        },
        ..info
    }
}

proof fn lemma_ban_listed(view: ManagerView, ids: Seq<PeerId>, id: PeerId)
    requires
        ids.contains(id),
    ensures
        view.ban_all(ids).db.info(id) == banned_info(view.db.info(id)),
    decreases ids.len(),
{
    let rest = ids.drop_last();
    assert(ids =~= rest.push(ids.last()));
    vstd::seq_lib::lemma_seq_contains_after_push(rest, ids.last(), id);
    let before = view.ban_all(rest);
    if rest.contains(id) {
        lemma_ban_listed(view, rest, id);
    } else {
        lemma_ban_all(view, rest, id);
    }
    ban_effect(before, ids.last(), GoodbyeReason::BadScore);
    if ids.last() != id {
        assert(before.ban_peer(ids.last(), GoodbyeReason::BadScore).db.info(id) == before.db.info(
            id,
        ));
    }
}

/// What bans and unbans of several peers do to each: one to be banned is, and is not unbanned by
/// the same call; one to be unbanned is if it can be; and any other is left alone. Each peer that is
/// to be banned once is asked about once.
pub proof fn bans_reach_each_peer(
    view: ManagerView,
    to_ban: Seq<PeerId>,
    to_unban: Seq<PeerId>,
    id: PeerId,
)
    requires
        to_ban.no_duplicates(),
    ensures
        ({
            let after = view.ban_all(to_ban).unban_all(to_unban);
            let info = view.db.info(id);
            let freed = to_unban.contains(id) && info.connection_status
                == PeerConnectionStatus::Banned && info.score.state != ScoreState::Banned;
            &&& to_ban.contains(id) ==> after.db.info(id) == banned_info(info)
            &&& to_ban.contains(id) ==> exists|ips: Seq<IpAddr>|
                asked_of(after.events, id) == asked_of(view.events, id) + #[trigger] asked_by_ban(
                    info.connection_status,
                    id,
                    GoodbyeReason::BadScore,
                    ips,
                )
            &&& !to_ban.contains(id) && freed ==> after.db.info(id) == (PeerInfoView {
                connection_status: PeerConnectionStatus::Disconnected,
                ..info
            }) && asked_of(after.events, id) == asked_of(view.events, id).push(
                EventView::UnBanned(id, info.seen_addresses),
            )
            &&& !to_ban.contains(id) && !freed ==> after.db.info(id) == info && asked_of(
                after.events,
                id,
            ) == asked_of(view.events, id)
            &&& asked_otherwise(after.events) == asked_otherwise(view.events)
            &&& same_settings(view, after)
            &&& after.metrics == view.metrics
        }),
{
    let banned = view.ban_all(to_ban);
    lemma_asked_by_bans(view, to_ban, id);
    lemma_asked_by_unbans(banned, to_unban, id);
    if to_ban.contains(id) {
        lemma_ban_listed(view, to_ban, id);
        lemma_unban_refused(banned, to_unban, id);
    } else {
        lemma_ban_all(view, to_ban, id);
        if banned.db.unban_refusal(id) is Some {
            lemma_unban_refused(banned, to_unban, id);
        } else if to_unban.contains(id) {
            lemma_unban_listed(banned, to_unban, id);
        } else {
            lemma_unban_all(banned, to_unban, id);
        }
    }
}

/// Bans and unbans of several peers are those of each, one after the other.
pub proof fn bans_go_one_by_one(view: ManagerView, ids: Seq<PeerId>, id: PeerId)
    ensures
        view.ban_all(ids.push(id)) == view.ban_all(ids).ban_peer(id, GoodbyeReason::BadScore),
        view.unban_all(ids.push(id)) == view.unban_all(ids).unban_peer(id),
        view.ban_all(Seq::empty()) == view,
        view.unban_all(Seq::empty()) == view,
{
    assert(ids.push(id).drop_last() =~= ids);
}

/// With no scores to update, nothing changes.
pub proof fn no_updates_change_nothing(view: ManagerView)
    ensures
        view.update_peer_scores(Seq::empty()) == view,
{
}

proof fn lemma_unban_refused(view: ManagerView, ids: Seq<PeerId>, id: PeerId)
    requires
        view.db.unban_refusal(id) is Some,
    ensures
        view.unban_all(ids).db.info(id) == view.db.info(id),
    decreases ids.len(),
{
    if ids.len() > 0 {
        let before = view.unban_all(ids.drop_last());
        lemma_unban_refused(view, ids.drop_last(), id);
        unban_effect(before, ids.last());
        if ids.last() != id {
            assert(before.unban_peer(ids.last()).db.info(id) == before.db.info(id));
        }
    }
}

/// What an update of scores does to each peer, of a list in which no peer occurs twice: a known one
/// gets its new score with all that follows, whatever happens to others, and one that was not known
/// is not known.
pub proof fn updates_reach_each_peer(view: ManagerView, updates: Seq<(PeerId, Score)>, i: int)
    requires
        distinct(updates),
        0 <= i < updates.len(),
    ensures
        ({
            let (id, score) = updates[i];
            let after = view.update_peer_scores(updates);
            &&& view.db.knows(id) ==> after.db.info(id) == rescored(view.db.info(id), score)
            &&& !view.db.knows(id) ==> after.db.info(id) == view.db.info(id)
        }),
{
    let (id, score) = updates[i];
    let info = view.db.info(id);
    let changed = view.rescoring().rescore_all(updates);
    let banned = changed.view.ban_all(changed.to_ban);
    if view.db.knows(id) {
        lemma_rescored(view, updates, i);
        let now = changed.view.db.info(id);
        if falls_to_ban(info, score) {
            lemma_ban_listed(changed.view, changed.to_ban, id);
            lemma_unban_refused(banned, changed.to_unban, id);
        } else {
            lemma_ban_all(changed.view, changed.to_ban, id);
            if rises_from_ban(info, score) {
                lemma_unban_listed(banned, changed.to_unban, id);
            } else if changed.to_unban.contains(id) {
                lemma_unban_refused(banned, changed.to_unban, id);
            } else {
                lemma_unban_all(banned, changed.to_unban, id);
            }
        }
    } else {
        lemma_unknown(view, updates, id);
        lemma_ban_all(changed.view, changed.to_ban, id);
        lemma_unban_all(banned, changed.to_unban, id);
    }
}

proof fn lemma_unknown(view: ManagerView, updates: Seq<(PeerId, Score)>, id: PeerId)
    requires
        !view.db.knows(id),
    ensures
        ({
            let after = view.rescoring().rescore_all(updates);
            &&& !after.view.db.knows(id)
            &&& !after.to_ban.contains(id)
            &&& !after.to_unban.contains(id)
        }),
    decreases updates.len(),
{
    if updates.len() > 0 {
        let before = view.rescoring().rescore_all(updates.drop_last());
        lemma_unknown(view, updates.drop_last(), id);
        vstd::seq_lib::lemma_seq_contains_after_push(before.to_ban, updates.last().0, id);
        vstd::seq_lib::lemma_seq_contains_after_push(before.to_unban, updates.last().0, id);
    }
}

/// An event asks to disconnect, ban or unban the peer.
pub open spec fn is_about(event: EventView, id: PeerId) -> bool {
    match event {
        EventView::DisconnectPeer(other, _) => other == id,
        EventView::Banned(other, _) => other == id,
        EventView::UnBanned(other, _) => other == id,
        _ => false,
    }
}

/// Those of some events that ask to disconnect, ban or unban the peer.
pub open spec fn asked_of(events: Seq<EventView>, id: PeerId) -> Seq<EventView> {
    events.filter(|event: EventView| is_about(event, id))
}

/// Those of some events that ask for anything but to disconnect, ban or unban a peer.
pub open spec fn asked_otherwise(events: Seq<EventView>) -> Seq<EventView> {
    events.filter(
        |event: EventView|
            !(event is DisconnectPeer) && !(event is Banned) && !(event is UnBanned),
    )
}

proof fn lemma_push_event(events: Seq<EventView>, event: EventView, id: PeerId)
    ensures
        asked_of(events.push(event), id) == if is_about(event, id) {
            asked_of(events, id).push(event)
        } else {
            asked_of(events, id)
        },
        event is DisconnectPeer || event is Banned || event is UnBanned ==> asked_otherwise(
            events.push(event),
        ) == asked_otherwise(events),
{
    events.lemma_filter_push(event, |event: EventView| is_about(event, id));
    events.lemma_filter_push(
        event,
        |event: EventView|
            !(event is DisconnectPeer) && !(event is Banned) && !(event is UnBanned),
    );
}

proof fn lemma_asked_by_rescore(before: Rescoring, other: PeerId, score: Score, id: PeerId)
    ensures
        ({
            let info = before.view.db.info(other);
            let after = before.rescore(other, score);
            &&& asked_of(after.view.events, id) == if other == id && before.view.db.knows(id)
                && falls_to_disconnect(info, score) {
                asked_of(before.view.events, id).push(
                    EventView::DisconnectPeer(id, GoodbyeReason::BadScore),
                )
            } else {
                asked_of(before.view.events, id)
            }
            &&& asked_otherwise(after.view.events) == asked_otherwise(before.view.events)
            &&& same_settings(before.view, after.view)
            &&& after.view.metrics == before.view.metrics
        }),
{
    lemma_push_event(
        before.view.events,
        EventView::DisconnectPeer(other, GoodbyeReason::BadScore),
        id,
    );
}

proof fn lemma_asked_by_rescores(view: ManagerView, updates: Seq<(PeerId, Score)>, id: PeerId)
    requires
        distinct(updates),
    ensures
        ({
            let after = view.rescoring().rescore_all(updates);
            &&& asked_otherwise(after.view.events) == asked_otherwise(view.events)
            &&& same_settings(view, after.view)
            &&& after.view.metrics == view.metrics
            &&& after.to_ban.no_duplicates()
            &&& (forall|j: int| 0 <= j < updates.len() ==> (#[trigger] updates[j]).0 != id)
                || !view.db.knows(id) ==> asked_of(after.view.events, id) == asked_of(
                view.events,
                id,
            )
            &&& forall|i: int|
                0 <= i < updates.len() && (#[trigger] updates[i]).0 == id && view.db.knows(id)
                    ==> asked_of(after.view.events, id) == if falls_to_disconnect(
                    view.db.info(id),
                    updates[i].1,
                ) {
                    asked_of(view.events, id).push(
                        EventView::DisconnectPeer(id, GoodbyeReason::BadScore),
                    )
                } else {
                    asked_of(view.events, id)
                }
        }),
    decreases updates.len(),
{
    if updates.len() > 0 {
        let rest = updates.drop_last();
        let (other, score) = updates.last();
        let before = view.rescoring().rescore_all(rest);
        assert(distinct(rest)) by {
            assert forall|a: int, b: int| 0 <= a < b < rest.len() implies (#[trigger] rest[a]).0
                != (#[trigger] rest[b]).0 by {
                assert(rest[a] == updates[a] && rest[b] == updates[b]);
            }
        }
        assert forall|j: int| 0 <= j < rest.len() implies (#[trigger] rest[j]).0 != other by {
            assert(rest[j] == updates[j]);
            assert(updates[j].0 != updates[updates.len() - 1].0);
        }
        lemma_asked_by_rescores(view, rest, id);
        lemma_rescore_all(view, rest, other);
        lemma_asked_by_rescore(before, other, score, id);
        if !view.db.knows(id) {
            lemma_unknown(view, rest, id);
        }
        if forall|j: int| 0 <= j < updates.len() ==> (#[trigger] updates[j]).0 != id {
            assert forall|j: int| 0 <= j < rest.len() implies (#[trigger] rest[j]).0 != id by {
                assert(rest[j] == updates[j]);
            }
            assert(updates[updates.len() - 1].0 != id);
        }
        assert forall|i: int|
            0 <= i < updates.len() && (#[trigger] updates[i]).0 == id && view.db.knows(
                id,
            ) implies asked_of(before.rescore(other, score).view.events, id)
            == if falls_to_disconnect(view.db.info(id), updates[i].1) {
            asked_of(view.events, id).push(
                EventView::DisconnectPeer(id, GoodbyeReason::BadScore),
            )
        } else {
            asked_of(view.events, id)
        } by {
            if i < rest.len() {
                assert(rest[i] == updates[i]);
                assert(rest[i].0 != other);
            } else {
                assert(other == id);
            }
        }
    }
}

proof fn lemma_asked_by_bans(view: ManagerView, ids: Seq<PeerId>, id: PeerId)
    requires
        ids.no_duplicates(),
    ensures
        ({
            let after = view.ban_all(ids);
            let info = view.db.info(id);
            &&& asked_otherwise(after.events) == asked_otherwise(view.events)
            &&& same_settings(view, after)
            &&& after.metrics == view.metrics
            &&& !ids.contains(id) ==> asked_of(after.events, id) == asked_of(view.events, id)
            &&& ids.contains(id) ==> exists|ips: Seq<IpAddr>|
                asked_of(after.events, id) == asked_of(view.events, id) + #[trigger] asked_by_ban(
                    info.connection_status,
                    id,
                    GoodbyeReason::BadScore,
                    ips,
                )
        }),
    decreases ids.len(),
{
    if ids.len() > 0 {
        let rest = ids.drop_last();
        let last = ids.last();
        let before = view.ban_all(rest);
        let after = view.ban_all(ids);
        lemma_asked_by_bans(view, rest, id);
        assert(ids =~= rest.push(last));
        assert(!rest.contains(last));
        vstd::seq_lib::lemma_seq_contains_after_push(rest, last, id);
        ban_effect(before, last, GoodbyeReason::BadScore);
        let status = before.db.info(last).connection_status;
        let ips = over_limit_among(after.db, before.db.info(last).seen_addresses);
        let asked = asked_by_ban(status, last, GoodbyeReason::BadScore, ips);
        if asked.len() > 0 {
            assert(after.events =~= before.events.push(asked[0]));
            lemma_push_event(before.events, asked[0], id);
        } else {
            assert(after.events =~= before.events);
        }
        if last == id {
            lemma_ban_all(view, rest, id);
            assert(asked_of(after.events, id) =~= asked_of(view.events, id) + asked_by_ban(
                view.db.info(id).connection_status,
                id,
                GoodbyeReason::BadScore,
                ips,
            ));
        }
    }
}

proof fn lemma_asked_by_unbans(view: ManagerView, ids: Seq<PeerId>, id: PeerId)
    ensures
        ({
            let after = view.unban_all(ids);
            let info = view.db.info(id);
            &&& asked_otherwise(after.events) == asked_otherwise(view.events)
            &&& same_settings(view, after)
            &&& after.metrics == view.metrics
            &&& asked_of(after.events, id) == if ids.contains(id) && view.db.unban_refusal(
                id,
            ) is None {
                asked_of(view.events, id).push(EventView::UnBanned(id, info.seen_addresses))
            } else {
                asked_of(view.events, id)
            }
        }),
    decreases ids.len(),
{
    if ids.len() > 0 {
        let rest = ids.drop_last();
        let last = ids.last();
        let before = view.unban_all(rest);
        lemma_asked_by_unbans(view, rest, id);
        assert(ids =~= rest.push(last));
        vstd::seq_lib::lemma_seq_contains_after_push(rest, last, id);
        unban_effect(before, last);
        lemma_push_event(
            before.events,
            EventView::UnBanned(last, before.db.info(last).seen_addresses),
            id,
        );
        if last == id {
            if rest.contains(id) {
                if view.db.unban_refusal(id) is None {
                    lemma_unban_listed(view, rest, id);
                } else {
                    lemma_unban_refused(view, rest, id);
                }
            } else {
                lemma_unban_all(view, rest, id);
            }
        }
    }
}

/// What an update of scores asks for, of a list in which no peer occurs twice: of each known peer
/// just what its own new score asks for, and of one that was not known nothing. It changes nothing
/// but what is known of peers and the queue.
pub proof fn updates_ask_for_each_peer(view: ManagerView, updates: Seq<(PeerId, Score)>, i: int)
    requires
        distinct(updates),
        0 <= i < updates.len(),
    ensures
        ({
            let (id, score) = updates[i];
            let after = view.update_peer_scores(updates);
            &&& view.db.knows(id) ==> exists|ips: Seq<IpAddr>|
                asked_of(after.events, id) == asked_of(view.events, id) + #[trigger] asked_by_score(
                    view.db.info(id),
                    score,
                    id,
                    ips,
                )
            &&& !view.db.knows(id) ==> asked_of(after.events, id) == asked_of(view.events, id)
            &&& asked_otherwise(after.events) == asked_otherwise(view.events)
            &&& same_settings(view, after)
            &&& after.metrics == view.metrics
        }),
{
    let (id, score) = updates[i];
    let info = view.db.info(id);
    let changed = view.rescoring().rescore_all(updates);
    let banned = changed.view.ban_all(changed.to_ban);
    let after = view.update_peer_scores(updates);
    lemma_asked_by_rescores(view, updates, id);
    lemma_asked_by_bans(changed.view, changed.to_ban, id);
    lemma_asked_by_unbans(banned, changed.to_unban, id);
    if view.db.knows(id) {
        lemma_rescored(view, updates, i);
        assert(updates[i].0 == id);
        if falls_to_ban(info, score) {
            lemma_ban_listed(changed.view, changed.to_ban, id);
            let ips = choose|ips: Seq<IpAddr>|
                asked_of(banned.events, id) == asked_of(changed.view.events, id)
                    + #[trigger] asked_by_ban(
                    changed.view.db.info(id).connection_status,
                    id,
                    GoodbyeReason::BadScore,
                    ips,
                );
            assert(asked_of(after.events, id) == asked_of(view.events, id) + asked_by_score(
                info,
                score,
                id,
                ips,
            ));
        } else {
            lemma_ban_all(changed.view, changed.to_ban, id);
            assert(asked_of(after.events, id) =~= asked_of(view.events, id) + asked_by_score(
                info,
                score,
                id,
                Seq::empty(),
            ));
        }
    } else {
        lemma_unknown(view, updates, id);
        lemma_ban_all(changed.view, changed.to_ban, id);
    }
}

/// An update of scores asks for nothing of a peer that is not listed, and leaves it alone.
pub proof fn updates_ask_nothing_of_others(
    view: ManagerView,
    updates: Seq<(PeerId, Score)>,
    id: PeerId,
)
    requires
        distinct(updates),
        forall|j: int| 0 <= j < updates.len() ==> (#[trigger] updates[j]).0 != id,
    ensures
        asked_of(view.update_peer_scores(updates).events, id) == asked_of(view.events, id),
        view.update_peer_scores(updates).db.info(id) == view.db.info(id),
        asked_otherwise(view.update_peer_scores(updates).events) == asked_otherwise(view.events),
        same_settings(view, view.update_peer_scores(updates)),
        view.update_peer_scores(updates).metrics == view.metrics,
{
    let changed = view.rescoring().rescore_all(updates);
    let banned = changed.view.ban_all(changed.to_ban);
    lemma_asked_by_rescores(view, updates, id);
    lemma_rescore_all(view, updates, id);
    lemma_asked_by_bans(changed.view, changed.to_ban, id);
    lemma_ban_all(changed.view, changed.to_ban, id);
    lemma_asked_by_unbans(banned, changed.to_unban, id);
    lemma_unban_all(banned, changed.to_unban, id);
}

/// A known peer got a new score, with all that follows for it, and just what that asks for.
pub open spec fn comes_to(
    before: ManagerView,
    after: ManagerView,
    id: PeerId,
    score: Score,
) -> bool {
    let info = before.db.info(id);
    &&& after.db.info(id) == rescored(info, score)
    &&& exists|ips: Seq<IpAddr>|
        asked_of(after.events, id) == asked_of(before.events, id) + #[trigger] asked_by_score(
            info,
            score,
            id,
            ips,
        )
}

/// No peer occurs twice among the scores.
pub open spec fn one_each(scores: Seq<GossipsubScore>) -> bool {
    forall|i: int, j: int|
        0 <= i < j < scores.len() ==> (#[trigger] scores[i]).peer_id != (
        #[trigger] scores[j]).peer_id
}

proof fn lemma_filter_keeps_distinct(
    scores: Seq<GossipsubScore>,
    keep: spec_fn(GossipsubScore) -> bool,
)
    requires
        scores.no_duplicates(),
    ensures
        scores.filter(keep).no_duplicates(),
    decreases scores.len(),
{
    reveal(Seq::filter);
    if scores.len() > 0 {
        let rest = scores.drop_last();
        lemma_filter_keeps_distinct(rest, keep);
        if rest.filter(keep).contains(scores.last()) {
            rest.lemma_filter_contains_rev(keep, scores.last());
        }
    }
}

/// The order in which gossipsub scores are taken holds just those of known peers, each once, and no
/// lower one before a higher.
pub proof fn gossipsub_order_is_complete(
    view: ManagerView,
    scores: Seq<GossipsubScore>,
    order: Seq<GossipsubScore>,
)
    requires
        view.gossipsub_order(scores, order),
        one_each(scores),
    ensures
        one_each(order),
        forall|score: GossipsubScore| #[trigger]
            order.contains(score) <==> scores.contains(score) && view.db.knows(score.peer_id),
        forall|i: int, j: int|
            0 <= i < j < order.len() ==> (#[trigger] order[i]).value >= (#[trigger] order[j]).value,
{
    broadcast use vstd::seq_lib::group_to_multiset_ensures;

    let known = |score: GossipsubScore| view.db.knows(score.peer_id);
    let kept = scores.filter(known);
    assert(scores.no_duplicates());
    lemma_filter_keeps_distinct(scores, known);
    kept.lemma_multiset_has_no_duplicates();
    order.lemma_multiset_has_no_duplicates_conv();
    assert forall|score: GossipsubScore| #[trigger] order.contains(score) <==> scores.contains(
        score,
    ) && view.db.knows(score.peer_id) by {
        assert(order.contains(score) <==> order.to_multiset().count(score) > 0);
        assert(kept.contains(score) <==> kept.to_multiset().count(score) > 0);
        if kept.contains(score) {
            scores.lemma_filter_contains_rev(known, score);
            let i = choose|i: int| 0 <= i < kept.len() && kept[i] == score;
            scores.lemma_filter_pred(known, i);
            assert(known(score));
        }
        if scores.contains(score) && view.db.knows(score.peer_id) {
            let i = choose|i: int| 0 <= i < scores.len() && scores[i] == score;
            assert(known(scores[i]));
            scores.lemma_filter_contains(known, i);
        }
    }
    assert forall|i: int, j: int| 0 <= i < j < order.len() implies (#[trigger] order[i]).peer_id
        != (#[trigger] order[j]).peer_id by {
        assert(order.contains(order[i]) && order.contains(order[j]));
        assert(order[i] != order[j]);
        let a = choose|a: int| 0 <= a < scores.len() && scores[a] == order[i];
        let b = choose|b: int| 0 <= b < scores.len() && scores[b] == order[j];
        assert(a != b);
        assert(scores[a].peer_id != scores[b].peer_id);
    }
}

/// Fewer negative scores than are let pass come before place `i` in the order.
pub open spec fn has_grace(order: Seq<GossipsubScore>, i: int, target_peers: usize) -> bool {
    order.take(i).filter(|score: GossipsubScore| score.value < 0).len()
        < limits::spec_allowed_negative(target_peers)
}

/// What gossipsub scores do to each peer, of a list in which no peer occurs twice: a known one gets
/// the score in which its gossipsub score counts, whatever those of others are; unless that is
/// negative and fewer negative ones than are let pass come before it, when it gets the score in
/// which it is ignored. All that follows from a new score follows. One that was not known is not
/// known.
pub proof fn gossipsub_scores_reach_each_peer(
    view: ManagerView,
    scores: Seq<GossipsubScore>,
    order: Seq<GossipsubScore>,
    k: int,
)
    requires
        view.gossipsub_order(scores, order),
        one_each(scores),
        0 <= k < scores.len(),
    ensures
        ({
            let given = scores[k];
            let id = given.peer_id;
            let info = view.db.info(id);
            let after = view.update_gossipsub_scores(order);
            &&& view.db.knows(id) ==> exists|i: int|
                0 <= i < order.len() && #[trigger] order[i] == given && comes_to(
                    view,
                    after,
                    id,
                    if given.value < 0 && has_grace(order, i, view.target_peers) {
                        given.ignored
                    } else {
                        given.counted
                    },
                )
            &&& view.db.knows(id) && given.value >= 0 ==> comes_to(view, after, id, given.counted)
            &&& !view.db.knows(id) ==> after.db.info(id) == info && asked_of(after.events, id)
                == asked_of(view.events, id)
        }),
{
    let given = scores[k];
    let id = given.peer_id;
    let allowed = limits::spec_allowed_negative(view.target_peers);
    let updates = gossipsub_updates(order, allowed);
    gossipsub_order_is_complete(view, scores, order);
    assert(scores.contains(given));
    assert forall|a: int, b: int| 0 <= a < b < updates.len() implies (#[trigger] updates[a]).0 != (
    #[trigger] updates[b]).0 by {
        assert(order[a].peer_id != order[b].peer_id);
    }
    if view.db.knows(id) {
        assert(order.contains(given));
        let i = choose|i: int| 0 <= i < order.len() && order[i] == given;
        assert(negatives(order.take(i)) == order.take(i).filter(
            |score: GossipsubScore| score.value < 0,
        ).len());
        updates_reach_each_peer(view, updates, i);
        updates_ask_for_each_peer(view, updates, i);
        let score = if given.value < 0 && has_grace(order, i, view.target_peers) {
            given.ignored
        } else {
            given.counted
        };
        assert(updates[i] == (id, score));
        assert(comes_to(view, view.update_gossipsub_scores(order), id, score));
    } else {
        assert forall|j: int| 0 <= j < updates.len() implies (#[trigger] updates[j]).0 != id by {
            assert(order.contains(order[j]));
        }
        updates_ask_nothing_of_others(view, updates, id);
    }
}

/// Gossipsub scores leave a peer alone that has none, and change nothing but what is known of peers
/// and the queue.
pub proof fn gossipsub_scores_spare_others(
    view: ManagerView,
    scores: Seq<GossipsubScore>,
    order: Seq<GossipsubScore>,
    id: PeerId,
)
    requires
        view.gossipsub_order(scores, order),
        one_each(scores),
        forall|k: int| 0 <= k < scores.len() ==> (#[trigger] scores[k]).peer_id != id,
    ensures
        ({
            let after = view.update_gossipsub_scores(order);
            &&& after.db.info(id) == view.db.info(id)
            &&& asked_of(after.events, id) == asked_of(view.events, id)
            &&& asked_otherwise(after.events) == asked_otherwise(view.events)
            &&& same_settings(view, after)
            &&& same_clocks(view, after)
            &&& after.metrics == view.metrics
        }),
{
    let updates = gossipsub_updates(order, limits::spec_allowed_negative(view.target_peers));
    gossipsub_order_is_complete(view, scores, order);
    assert forall|a: int, b: int| 0 <= a < b < updates.len() implies (#[trigger] updates[a]).0 != (
    #[trigger] updates[b]).0 by {
        assert(order[a].peer_id != order[b].peer_id);
    }
    assert forall|j: int| 0 <= j < updates.len() implies (#[trigger] updates[j]).0 != id by {
        assert(order.contains(order[j]));
        let k = choose|k: int| 0 <= k < scores.len() && scores[k] == order[j];
        assert(scores[k].peer_id != id);
    }
    updates_ask_nothing_of_others(view, updates, id);
    score_updates_ping_nobody(view, updates);
}

/// The peers that are handed out as let pass are just those whose negative score was.
pub proof fn peers_let_pass_are_told(order: Seq<GossipsubScore>, target_peers: usize, i: int)
    requires
        one_each(order),
        0 <= i < order.len(),
    ensures
        peers_let_pass(order, limits::spec_allowed_negative(target_peers)).contains(
            order[i].peer_id,
        ) <==> order[i].value < 0 && has_grace(order, i, target_peers),
{
    let allowed = limits::spec_allowed_negative(target_peers);
    let all = Seq::new(order.len(), |k: int| k);
    let pass = |k: int| is_let_pass(order, allowed, k);
    let places = places_let_pass(order, allowed, order.len());
    let peers = peers_let_pass(order, allowed);
    assert(negatives(order.take(i)) == order.take(i).filter(
        |score: GossipsubScore| score.value < 0,
    ).len());
    if is_let_pass(order, allowed, i) {
        assert(pass(all[i]));
        all.lemma_filter_contains(pass, i);
        let n = choose|n: int| 0 <= n < places.len() && places[n] == i;
        assert(peers[n] == order[i].peer_id);
    }
    if peers.contains(order[i].peer_id) {
        let n = choose|n: int| 0 <= n < peers.len() && peers[n] == order[i].peer_id;
        let j = places[n];
        all.lemma_filter_pred(pass, n);
        assert(pass(j));
        assert(places.contains(j));
        all.lemma_filter_contains_rev(pass, j);
        assert(order[j].peer_id == order[i].peer_id);
        assert(0 <= j < order.len());
        if j < i {
            assert(order[j].peer_id != order[i].peer_id);
        } else if i < j {
            assert(order[i].peer_id != order[j].peer_id);
        }
    }
}

} // verus!
