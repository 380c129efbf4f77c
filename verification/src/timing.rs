//! What the clocks of the peers bring about, and when.

use crate::calls::Call;
use crate::event::{EventView, MetricUpdate, PeerTimersView, TimerCommand};
use crate::gossip::gossipsub_updates;
use crate::laws::{
    bans_ping_nobody, heartbeats_ask_for_peers, lemma_no_query_twice, no_query_added, same_clocks,
    score_updates_ping_nobody,
};
use crate::limits;
use crate::manager::{ConnectingType, ManagerView};
use crate::network::{ConnectedPoint, ConnectionDirection, Instant, PeerId, NANOS_PER_SECOND};
use crate::poll::{PeerTimer, PollStepView, Polled, TimerPoll};
use crate::reputation::rpc_error_penalty;
use crate::score::{PeerAction, ReportSource, ScoreOutlook};
use vstd::prelude::*;

verus! {

/// The peers whose clocks run after some commands were carried out one after the other.
pub open spec fn replay(running: Set<PeerId>, commands: Seq<TimerCommand>) -> Set<PeerId>
    decreases commands.len(),
{
    if commands.len() == 0 {
        running
    } else {
        let before = replay(running, commands.drop_last());
        match commands.last() {
            TimerCommand::Start(id) => before.insert(id),
            TimerCommand::Stop(id) => before.remove(id),
        }
    }
}

impl PeerTimersView {
    /// Carrying out the commands that are left makes the clocks of just those peers run that wait.
    pub open spec fn in_step(self, running: Set<PeerId>) -> bool {
        replay(running, self.commands) == self.waiting
    }
}

/// Whoever carries out the commands, and nothing else, has the clocks of just those peers running
/// that wait: so it is once all commands were handed out and carried out, and so it stays when a
/// peer starts or stops to wait.
pub proof fn commands_tell_who_waits(timers: PeerTimersView, running: Set<PeerId>, id: PeerId)
    requires
        timers.in_step(running),
    ensures
        timers.insert(id).in_step(running),
        timers.remove(id).in_step(running),
        (PeerTimersView { commands: Seq::empty(), ..timers }).in_step(
            replay(running, timers.commands),
        ),
{
    assert(timers.insert(id).commands.drop_last() =~= timers.commands);
    assert(timers.remove(id).commands.drop_last() =~= timers.commands);
}

/// Where nobody waits and no clock runs, there is nothing to carry out.
pub proof fn new_clocks_are_in_step(interval: u64)
    ensures
        (PeerTimersView { waiting: Set::empty(), commands: Seq::empty(), interval }).in_step(
            Set::empty(),
        ),
{
}

/// The set of clocks from which a peer of the direction is pinged.
pub open spec fn ping_timer(direction: ConnectionDirection) -> PeerTimer {
    match direction {
        ConnectionDirection::Incoming => PeerTimer::InboundPing,
        ConnectionDirection::Outgoing => PeerTimer::OutboundPing,
    }
}

/// The clock of a peer in a set of clocks was found to have run out.
pub open spec fn ran_out(call: Call, timer: PeerTimer, id: PeerId) -> bool {
    call == Call::Poll(Polled::Timer(timer, TimerPoll::Expired(id)))
}

/// The clock of a peer in a set of clocks was started.
pub open spec fn started(before: PeerTimersView, after: PeerTimersView, id: PeerId) -> bool {
    after.commands == before.commands.push(TimerCommand::Start(id))
}

impl ManagerView {
    /// A call starts a clock for pinging the peer.
    pub open spec fn starts_ping_clock(self, call: Call, id: PeerId) -> bool {
        let after = self.after_call(call);
        started(self.inbound_ping, after.inbound_ping, id) || started(
            self.outbound_ping,
            after.outbound_ping,
            id,
        )
    }

    /// In the course of the calls, a clock for pinging the peer is started only where one was found
    /// to have run out.
    pub open spec fn starts_no_ping_clock(self, calls: Seq<Call>, id: PeerId) -> bool {
        forall|k: int|
            0 <= k < calls.len() && self.after_calls(calls.take(k)).starts_ping_clock(
                #[trigger] calls[k],
                id,
            ) ==> ran_out(calls[k], PeerTimer::InboundPing, id) || ran_out(
                calls[k],
                PeerTimer::OutboundPing,
                id,
            )
    }

    /// The clocks work: in the course of the calls, none is found to have run out of a peer that
    /// does not wait, and that of `id` in the set `timer`, which was started at `start`, not before
    /// its interval is over.
    pub open spec fn clocks_work(
        self,
        calls: Seq<Call>,
        times: Seq<Instant>,
        timer: PeerTimer,
        id: PeerId,
        start: Instant,
    ) -> bool {
        &&& forall|k: int, t: PeerTimer|
            0 <= k < calls.len() && #[trigger] ran_out(calls[k], t, id) ==> self.after_calls(
                calls.take(k),
            ).clocks(t).waiting.contains(id)
        &&& forall|k: int|
            0 <= k < calls.len() && #[trigger] ran_out(calls[k], timer, id) ==> times[k]
                >= self.interval_end(timer, start)
    }

    /// When a clock of the set that was started at `start` runs out.
    pub open spec fn interval_end(self, timer: PeerTimer, start: Instant) -> int {
        start + NANOS_PER_SECOND * self.clocks(timer).interval
    }
}

/// No ping of the peer came into the queue, and the peer does not wait for one where it did not
/// before.
pub open spec fn no_nearer_ping(before: ManagerView, after: ManagerView, id: PeerId) -> bool {
    let ping = EventView::Ping(id);
    &&& after.events.contains(ping) ==> before.events.contains(ping)
    &&& after.inbound_ping.waiting.contains(id) ==> before.inbound_ping.waiting.contains(id)
    &&& after.outbound_ping.waiting.contains(id) ==> before.outbound_ping.waiting.contains(id)
}

/// A clock that has run out starts anew, and its peer gets a ping or our status.
pub proof fn expired_clocks_start_anew(view: ManagerView, timer: PeerTimer, id: PeerId)
    ensures
        ({
            let after = view.after_poll(Polled::Timer(timer, TimerPoll::Expired(id)));
            &&& after.clocks(timer) == view.clocks(timer).insert(id)
            &&& after.clocks(timer).commands.last() == TimerCommand::Start(id)
            &&& after.events == view.events.push(
                match timer {
                    PeerTimer::Status => EventView::Status(id),
                    _ => EventView::Ping(id),
                },
            )
            &&& after.db == view.db
        }),
{
}

/// While we sync, the clocks for our status are not looked at.
pub proof fn no_status_while_syncing(view: ManagerView, polled: Polled)
    requires
        view.is_syncing(),
        !(polled matches Polled::Timer(PeerTimer::Status, _)),
    ensures
        view.next_poll(polled) != PollStepView::PollTimer(PeerTimer::Status),
        view.after_poll(polled).status == view.status,
{
}

/// A peer is pinged only for a clock of its own that has run out: whatever else a poll finds puts
/// no ping of the peer into the queue.
pub proof fn pings_come_from_clocks(view: ManagerView, polled: Polled, id: PeerId)
    requires
        polled != Polled::Timer(PeerTimer::InboundPing, TimerPoll::Expired(id)),
        polled != Polled::Timer(PeerTimer::OutboundPing, TimerPoll::Expired(id)),
    ensures
        ({
            let after = view.after_poll(polled).events;
            ||| after == view.events
            ||| after == view.emit().events
            ||| after == view.events.push(after.last()) && after.last() != EventView::Ping(id)
        }),
        view.after_poll(polled).events.contains(EventView::Ping(id)) ==> view.events.contains(
            EventView::Ping(id),
        ),
{
    let ping = EventView::Ping(id);
    let after = view.after_poll(polled).events;
    if after.contains(ping) {
        let i = choose|i: int| 0 <= i < after.len() && after[i] == ping;
        if after == view.events {
        } else if after == view.emit().events {
            assert(view.events[i + 1] == ping);
        } else {
            assert(view.events[i] == ping);
        }
    }
}

/// A peer that pings us waits for our ping from the start again, and is not pinged for it.
pub proof fn pings_reset_the_clock(
    view: ManagerView,
    id: PeerId,
    seq: u64,
    direction: ConnectionDirection,
)
    requires
        view.db.knows(id),
        view.db.info(id).connection_direction == Some(direction),
    ensures
        ({
            let after = view.ping_request(id, seq);
            let timer = ping_timer(direction);
            &&& after.clocks(timer) == view.clocks(timer).insert(id)
            &&& after.clocks(timer).commands.last() == TimerCommand::Start(id)
            &&& forall|other: PeerTimer|
                other != timer ==> #[trigger] after.clocks(other) == view.clocks(other)
            &&& after.events.contains(EventView::Ping(id)) ==> view.events.contains(
                EventView::Ping(id),
            )
        }),
{
    let ping = EventView::Ping(id);
    let after = view.ping_request(id, seq).events;
    if after.contains(ping) {
        let i = choose|i: int| 0 <= i < after.len() && after[i] == ping;
        assert(view.events[i] == ping);
    }
}

proof fn lemma_no_ping_added(before: Seq<EventView>, after: Seq<EventView>, id: PeerId)
    requires
        no_query_added(before, after) || no_query_added(
            before.push(EventView::DiscoverPeers),
            after,
        ),
        after.contains(EventView::Ping(id)),
    ensures
        before.contains(EventView::Ping(id)),
{
    let ping = EventView::Ping(id);
    let i = choose|i: int| 0 <= i < after.len() && after[i] == ping;
    if no_query_added(before, after) {
        assert(after[i] == before[i]);
    } else {
        let looked = before.push(EventView::DiscoverPeers);
        if i < looked.len() {
            assert(after[i] == looked[i]);
        }
        assert(before[i] == ping);
    }
}

/// What follows if the clocks were left alone and no ping was put into the queue.
proof fn lemma_quiet(view: ManagerView, after: ManagerView, id: PeerId)
    requires
        same_clocks(view, after),
        no_query_added(view.events, after.events) || no_query_added(
            view.events.push(EventView::DiscoverPeers),
            after.events,
        ),
    ensures
        no_nearer_ping(view, after, id),
{
    if after.events.contains(EventView::Ping(id)) {
        lemma_no_ping_added(view.events, after.events, id);
    }
}

/// A call brings a ping of a peer nearer only by starting a clock of the peer: whatever starts none
/// puts no ping of the peer into the queue, nor makes it wait for one.
pub proof fn pings_need_a_clock(view: ManagerView, call: Call, id: PeerId)
    requires
        !view.starts_ping_clock(call, id),
    ensures
        no_nearer_ping(view, view.after_call(call), id),
{
    match call {
        Call::Report(..) | Call::RpcError(..) | Call::UpdateScores(_)
        | Call::UpdateGossipsubScores(_) | Call::BanAndUnban(..) | Call::Heartbeat(..) => {
            lemma_score_calls(view, call, id);
        },
        Call::Connection(..) | Call::Established(..) | Call::Ping(..) => {
            lemma_starting_calls(view, call, id);
        },
        Call::Closed(..) | Call::Disconnected(_) | Call::DialFailure(_) => {
            lemma_stopping_calls(view, call, id);
        },
        Call::Poll(_) => {
            lemma_poll_calls(view, call, id);
        },
        Call::Goodbye(..) | Call::Ban(..) | Call::Unban(_) | Call::Disconnect(..)
        | Call::Discovered(_) | Call::MaintainSubnets(..) => {
            lemma_asking_calls(view, call, id);
        },
        _ => {
            lemma_other_calls(view, call, id);
        },
    }
}

proof fn lemma_score_calls(view: ManagerView, call: Call, id: PeerId)
    requires
        call is Report || call is RpcError || call is UpdateScores || call is UpdateGossipsubScores
            || call is BanAndUnban || call is Heartbeat,
    ensures
        no_nearer_ping(view, view.after_call(call), id),
{
    let after = view.after_call(call);
    match call {
        Call::Report(other, action, source, outlook) => {
            assert(after == view.report_peer(other, action, source, outlook)) by {
                reveal(ManagerView::after_score_call);
            }
            lemma_report_pings_nobody(view, other, action, source, outlook);
        },
        Call::RpcError(other, protocol, err, direction, outlook) => {
            assert(after == view.handle_rpc_error(
                other,
                protocol,
                err,
                direction,
                outlook,
            )) by {
                reveal(ManagerView::after_score_call);
            }
            let metered = view.meter(
                MetricUpdate::RpcError(view.db.info(other).client.kind, err, direction),
            );
            if let Some(action) = rpc_error_penalty(protocol, err, direction) {
                lemma_report_pings_nobody(metered, other, action, ReportSource::RPC, outlook);
            }
        },
        Call::UpdateScores(updates) => {
            assert(after == view.update_peer_scores(updates)) by {
                reveal(ManagerView::after_score_call);
            }
            score_updates_ping_nobody(view, updates);
        },
        Call::UpdateGossipsubScores(order) => {
            assert(after == view.update_gossipsub_scores(order)) by {
                reveal(ManagerView::after_score_call);
            }
            score_updates_ping_nobody(
                view,
                gossipsub_updates(order, limits::spec_allowed_negative(view.target_peers)),
            );
        },
        Call::BanAndUnban(to_ban, to_unban) => {
            assert(after == view.ban_all(to_ban).unban_all(to_unban)) by {
                reveal(ManagerView::after_score_call);
            }
            bans_ping_nobody(view, to_ban, to_unban);
        },
        Call::Heartbeat(now, updates, subnets, worst) => {
            assert(after == view.heartbeat(now, updates, subnets, worst)) by {
                reveal(ManagerView::after_score_call);
            }
            heartbeats_ask_for_peers(view, now, updates, subnets, worst);
        },
        _ => {},
    }
    lemma_quiet(view, view.after_call(call), id);
}

/// The events and the clocks for pings are as they were.
spec fn same_events_and_pings(before: ManagerView, after: ManagerView) -> bool {
    &&& after.events == before.events
    &&& after.inbound_ping == before.inbound_ping
    &&& after.outbound_ping == before.outbound_ping
}

proof fn lemma_no_ping_in(before: Seq<EventView>, after: Seq<EventView>, id: PeerId)
    requires
        no_query_added(before, after),
    ensures
        after.contains(EventView::Ping(id)) ==> before.contains(EventView::Ping(id)),
{
    if after.contains(EventView::Ping(id)) {
        lemma_no_ping_added(before, after, id);
    }
}

proof fn lemma_starting_calls(view: ManagerView, call: Call, id: PeerId)
    requires
        call is Connection || call is Established || call is Ping,
        !view.starts_ping_clock(call, id),
    ensures
        no_nearer_ping(view, view.after_call(call), id),
{
    let after = view.after_call(call);
    match call {
        Call::Connection(other, connection, enr) => {
            assert(after == view.inject_peer_connection(other, connection, enr)) by {
                reveal(ManagerView::after_connection_call);
            }
            assert(no_query_added(view.events, after.events));
            lemma_no_ping_in(view.events, after.events, id);
        },
        Call::Ping(other, seq) => {
            assert(after == view.ping_request(other, seq)) by {
                reveal(ManagerView::after_message_call);
            }
            assert(no_query_added(view.events, after.events));
            lemma_no_ping_in(view.events, after.events, id);
        },
        Call::Established(other, endpoint, num_established, enr, now) => {
            assert(after == view.inject_connection_established(
                other,
                endpoint,
                num_established,
                enr,
                now,
            )) by {
                reveal(ManagerView::after_connection_call);
            }
            assert(no_query_added(view.events, after.events));
            lemma_no_ping_in(view.events, after.events, id);
        },
        _ => {},
    }
}

proof fn lemma_stopping_calls(view: ManagerView, call: Call, id: PeerId)
    requires
        call is Closed || call is Disconnected || call is DialFailure,
    ensures
        no_nearer_ping(view, view.after_call(call), id),
{
    let after = view.after_call(call);
    match call {
        Call::Closed(other, endpoint, num_established) => {
            assert(after == view.inject_connection_closed(other, endpoint, num_established)) by {
                reveal(ManagerView::after_connection_call);
            }
            lemma_closing_pings_nobody(view, other, endpoint, num_established);
            lemma_no_ping_in(view.events, after.events, id);
        },
        Call::Disconnected(other) => {
            assert(after == view.inject_disconnect(other)) by {
                reveal(ManagerView::after_ban_call);
            }
            assert(no_query_added(view.events, after.events));
            lemma_no_ping_in(view.events, after.events, id);
        },
        Call::DialFailure(other) => {
            assert(after == view.inject_dial_failure(other)) by {
                reveal(ManagerView::after_ban_call);
            }
            assert(no_query_added(view.events, after.events));
            lemma_no_ping_in(view.events, after.events, id);
        },
        _ => {},
    }
}

proof fn lemma_poll_calls(view: ManagerView, call: Call, id: PeerId)
    requires
        call is Poll,
        !view.starts_ping_clock(call, id),
    ensures
        no_nearer_ping(view, view.after_call(call), id),
{
    let after = view.after_call(call);
    if let Call::Poll(polled) = call {
        assert(after == view.after_poll(polled)) by {
            reveal(ManagerView::after_other_call);
        }
        if polled == Polled::Timer(PeerTimer::InboundPing, TimerPoll::Expired(id)) {
            assert(started(view.inbound_ping, after.inbound_ping, id));
        }
        if polled == Polled::Timer(PeerTimer::OutboundPing, TimerPoll::Expired(id)) {
            assert(started(view.outbound_ping, after.outbound_ping, id));
        }
        pings_come_from_clocks(view, polled, id);
    }
}

proof fn lemma_asking_calls(view: ManagerView, call: Call, id: PeerId)
    requires
        call is Goodbye || call is Ban || call is Unban || call is Disconnect || call is Discovered
            || call is MaintainSubnets,
    ensures
        no_nearer_ping(view, view.after_call(call), id),
{
    let after = view.after_call(call);
    match call {
        Call::Goodbye(other, reason, source) => {
            assert(after == view.goodbye_peer(other, reason, source)) by {
                reveal(ManagerView::after_ban_call);
            }
            assert(no_query_added(view.events, after.events));
            lemma_quiet(view, after, id);
        },
        Call::Ban(other, reason) => {
            assert(after == view.ban_peer(other, reason)) by {
                reveal(ManagerView::after_ban_call);
            }
            assert(no_query_added(view.events, after.events));
            lemma_quiet(view, after, id);
        },
        Call::Unban(other) => {
            assert(after == view.unban_peer(other)) by {
                reveal(ManagerView::after_ban_call);
            }
            assert(no_query_added(view.events, after.events));
            lemma_quiet(view, after, id);
        },
        Call::Disconnect(other, reason) => {
            assert(after == view.disconnect_peer(other, reason)) by {
                reveal(ManagerView::after_ban_call);
            }
            assert(no_query_added(view.events, after.events));
            lemma_quiet(view, after, id);
        },
        Call::MaintainSubnets(now, subnets) => {
            assert(after == view.maintain_sync_committee_peers(now, subnets)) by {
                reveal(ManagerView::after_other_call);
            }
            assert(no_query_added(view.events, after.events));
            lemma_quiet(view, after, id);
        },
        Call::Discovered(results) => {
            assert(after == view.peers_discovered(results)) by {
                reveal(ManagerView::after_other_call);
            }
            assert(no_query_added(view.events, after.events) || no_query_added(
                view.events.push(EventView::DiscoverPeers),
                after.events,
            ));
            lemma_quiet(view, after, id);
        },
        _ => {},
    }
}

proof fn lemma_other_calls(view: ManagerView, call: Call, id: PeerId)
    requires
        match call {
            Call::Dialing(..) | Call::Identify(..) | Call::Pong(..) | Call::MetaData(..)
            | Call::Statusd(_) | Call::AddSubscription(..) | Call::RemoveSubscription(..)
            | Call::RemoveAllSubscriptions(_) | Call::AddSyncSubnet(..) | Call::TakeMetrics
            | Call::TakeCommands(_) | Call::SetSyncState(_) | Call::SetLocalPort(_) => true,
            _ => false,
        },
    ensures
        no_nearer_ping(view, view.after_call(call), id),
{
    let after = view.after_call(call);
    match call {
        Call::Pong(other, seq) => {
            assert(after == view.pong_response(other, seq)) by {
                reveal(ManagerView::after_message_call);
            }
            assert(no_query_added(view.events, after.events));
            lemma_quiet(view, after, id);
        },
        Call::Dialing(other, enr) => {
            assert(after == view.register_peer(other, ConnectingType::Dialing, enr)) by {
                reveal(ManagerView::after_connection_call);
            }
        },
        Call::Identify(other, client, listen_addrs) => {
            assert(after == view.identify(other, client, listen_addrs)) by {
                reveal(ManagerView::after_message_call);
            }
        },
        Call::MetaData(other, meta_data) => {
            assert(after == view.meta_data_response(other, meta_data)) by {
                reveal(ManagerView::after_message_call);
            }
        },
        Call::AddSubscription(other, subnet) => {
            assert(after == view.with_subscription(other, subnet)) by {
                reveal(ManagerView::after_message_call);
            }
        },
        Call::RemoveSubscription(other, subnet) => {
            assert(after == view.without_subscription(other, subnet)) by {
                reveal(ManagerView::after_message_call);
            }
        },
        Call::RemoveAllSubscriptions(other) => {
            assert(after == view.without_subscriptions(other)) by {
                reveal(ManagerView::after_message_call);
            }
        },
        Call::AddSyncSubnet(subnet_id, min_ttl) => {
            assert(after == view.add_sync_subnet(subnet_id, min_ttl)) by {
                reveal(ManagerView::after_other_call);
            }
        },
        Call::TakeCommands(timer) => {
            assert(after == view.without_commands(timer)) by {
                reveal(ManagerView::after_other_call);
            }
        },
        _ => {
            assert(same_events_and_pings(view, after)) by {
                reveal(ManagerView::after_other_call);
            }
        },
    }
}

proof fn lemma_report_pings_nobody(
    view: ManagerView,
    id: PeerId,
    action: PeerAction,
    source: ReportSource,
    outlook: ScoreOutlook,
)
    ensures
        no_query_added(view.events, view.report_peer(id, action, source, outlook).events),
        same_clocks(view, view.report_peer(id, action, source, outlook)),
{
    if view.db.knows(id) {
        let info = view.db.peers[id];
        let metered = view.meter(MetricUpdate::PeerAction(info.client.kind, action, source));
        let score = outlook.spec_after(info.score, action);
        let rescored = metered.rescoring().rescore(id, score);
        bans_ping_nobody(rescored.view, rescored.to_ban, rescored.to_unban);
        lemma_no_query_twice(
            view.events,
            rescored.view.events,
            view.report_peer(id, action, source, outlook).events,
        );
    }
}

proof fn lemma_closing_pings_nobody(
    view: ManagerView,
    id: PeerId,
    endpoint: ConnectedPoint,
    num_established: u32,
)
    ensures
        no_query_added(
            view.events,
            view.inject_connection_closed(id, endpoint, num_established).events,
        ),
{
    if num_established == 0 {
        let unsubscribed = view.without_subscriptions(id);
        let told = if view.db.info(id).is_connected_or_disconnecting() {
            unsubscribed.push(EventView::PeerDisconnected(id))
        } else {
            unsubscribed
        };
        let after = view.inject_connection_closed(id, endpoint, num_established);
        assert(no_query_added(view.events, told.events));
        assert(no_query_added(told.events, after.events));
        lemma_no_query_twice(view.events, told.events, after.events);
    }
}

/// A peer that has pinged us is not pinged before the interval of its clocks is over.
///
/// The peer pings us at time `start`, while no ping of it waits to be sent and it waits for a ping
/// at most in the set of clocks of its direction. Whatever calls follow, at times before the
/// interval of that set is over since `start`, but for those that start a clock for pinging the
/// peer: no ping of the peer gets into the queue, and none is produced, as long as the clocks work.
/// In a valid manager the interval is `PING_INTERVAL_INBOUND` or `PING_INTERVAL_OUTBOUND` seconds.
pub proof fn no_ping_within_the_interval(
    view: ManagerView,
    id: PeerId,
    seq: u64,
    direction: ConnectionDirection,
    start: Instant,
    calls: Seq<Call>,
    times: Seq<Instant>,
)
    requires
        view.db.knows(id),
        view.db.info(id).connection_direction == Some(direction),
        direction is Incoming ==> !view.outbound_ping.waiting.contains(id),
        direction is Outgoing ==> !view.inbound_ping.waiting.contains(id),
        !view.events.contains(EventView::Ping(id)),
        calls.len() == times.len(),
        forall|k: int|
            0 <= k < times.len() ==> start <= #[trigger] times[k] < view.interval_end(
                ping_timer(direction),
                start,
            ),
        view.ping_request(id, seq).starts_no_ping_clock(calls, id),
        view.ping_request(id, seq).clocks_work(calls, times, ping_timer(direction), id, start),
    ensures
        !view.ping_request(id, seq).after_calls(calls).events.contains(EventView::Ping(id)),
        forall|k: int, polled: Polled|
            0 <= k < calls.len() && #[trigger] calls[k] == Call::Poll(polled)
                ==> #[trigger] view.ping_request(id, seq).after_calls(calls.take(k)).next_poll(
                polled,
            ) != PollStepView::Ready(EventView::Ping(id)),
{
    let pinged = view.ping_request(id, seq);
    pings_reset_the_clock(view, id, seq, direction);
    assert(calls.take(calls.len() as int) =~= calls);
    lemma_no_ping(pinged, id, direction, start, calls, times, calls.len() as int);
    assert forall|k: int, polled: Polled|
        0 <= k < calls.len() && #[trigger] calls[k] == Call::Poll(
            polled,
        ) implies #[trigger] pinged.after_calls(calls.take(k)).next_poll(polled)
        != PollStepView::Ready(EventView::Ping(id)) by {
        lemma_no_ping(pinged, id, direction, start, calls, times, k);
        let before = pinged.after_calls(calls.take(k));
        if before.events.len() > 0 {
            assert(before.events.contains(before.events[0]));
        }
    }
}

proof fn lemma_no_ping(
    view: ManagerView,
    id: PeerId,
    direction: ConnectionDirection,
    start: Instant,
    calls: Seq<Call>,
    times: Seq<Instant>,
    n: int,
)
    requires
        0 <= n <= calls.len(),
        calls.len() == times.len(),
        direction is Incoming ==> !view.outbound_ping.waiting.contains(id),
        direction is Outgoing ==> !view.inbound_ping.waiting.contains(id),
        !view.events.contains(EventView::Ping(id)),
        forall|k: int|
            0 <= k < times.len() ==> #[trigger] times[k] < view.interval_end(
                ping_timer(direction),
                start,
            ),
        view.starts_no_ping_clock(calls, id),
        view.clocks_work(calls, times, ping_timer(direction), id, start),
    ensures
        ({
            let after = view.after_calls(calls.take(n));
            &&& direction is Incoming ==> !after.outbound_ping.waiting.contains(id)
            &&& direction is Outgoing ==> !after.inbound_ping.waiting.contains(id)
            &&& !after.events.contains(EventView::Ping(id))
        }),
    decreases n,
{
    if n > 0 {
        let k = n - 1;
        let call = calls[k];
        lemma_no_ping(view, id, direction, start, calls, times, k);
        assert(calls.take(n).drop_last() =~= calls.take(k));
        assert(calls.take(n).last() == call);
        let before = view.after_calls(calls.take(k));
        assert(times[k] == times[k]);
        assert(!ran_out(call, PeerTimer::InboundPing, id));
        assert(!ran_out(call, PeerTimer::OutboundPing, id));
        assert(!before.starts_ping_clock(calls[k], id));
        pings_need_a_clock(before, call, id);
    }
}

} // verus!
