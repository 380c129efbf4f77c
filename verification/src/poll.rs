//! What the peer manager does each time the node asks it for an event.

use crate::event::{EventView, PeerManagerEvent};
use crate::manager::{ManagerView, PeerManager};
use crate::network::{PeerId, SyncState};
use vstd::prelude::*;

verus! {

/// A set of clocks, one for each peer that waits.
#[derive(Clone, Copy, Debug, PartialEq, Eq, Structural)]
pub enum PeerTimer {
    /// Those of peers that connected to us and wait to be pinged.
    InboundPing,
    /// Those of peers that we connected to and that wait to be pinged.
    OutboundPing,
    /// Those of peers that wait to be sent our status.
    Status,
}

/// What a set of clocks answered.
#[derive(Clone, Copy, Debug, PartialEq, Eq, Structural)]
pub enum TimerPoll {
    /// The clock of a peer has run out.
    Expired(PeerId),
    /// The clocks could not be read.
    Failed,
    /// No clock has run out.
    Idle,
}

/// What was looked at, and what it answered.
#[derive(Clone, Copy, Debug, PartialEq, Eq, Structural)]
pub enum Polled {
    /// The heartbeat is due, or not.
    Heartbeat(bool),
    /// A set of clocks has answered.
    Timer(PeerTimer, TimerPoll),
}

/// What is to be done next.
#[derive(Debug)]
pub enum PollStep {
    /// Run the heartbeat, then look whether another one is due.
    RunHeartbeat,
    /// Look at a set of clocks.
    PollTimer(PeerTimer),
    /// Produce the event.
    Ready(PeerManagerEvent),
    /// There is nothing to produce.
    Pending,
}

/// The value of a [`PollStep`].
pub enum PollStepView {
    RunHeartbeat,
    PollTimer(PeerTimer),
    Ready(EventView),
    Pending,
}

impl View for PollStep {
    type V = PollStepView;

    open spec fn view(&self) -> PollStepView {
        match self {
            PollStep::RunHeartbeat => PollStepView::RunHeartbeat,
            PollStep::PollTimer(timer) => PollStepView::PollTimer(*timer),
            PollStep::Ready(event) => PollStepView::Ready(event@),
            PollStep::Pending => PollStepView::Pending,
        }
    }
}

impl ManagerView {
    /// We are busy with a sync, and send no status.
    pub open spec fn is_syncing(self) -> bool {
        self.sync_state is SyncingFinalized || self.sync_state is SyncingHead
    }

    /// The clock of a peer has run out: it starts anew, and what the peer waited for happens.
    pub open spec fn timer_expired(self, timer: PeerTimer, id: PeerId) -> ManagerView {
        match timer {
            PeerTimer::InboundPing => ManagerView {
                inbound_ping: self.inbound_ping.insert(id),
                ..self
            }.push(EventView::Ping(id)),
            PeerTimer::OutboundPing => ManagerView {
                outbound_ping: self.outbound_ping.insert(id),
                ..self
            }.push(EventView::Ping(id)),
            PeerTimer::Status => ManagerView { status: self.status.insert(id), ..self }.push(
                EventView::Status(id),
            ),
        }
    }

    /// The oldest event is taken out.
    pub open spec fn emit(self) -> ManagerView {
        if self.events.len() == 0 {
            self
        } else {
            ManagerView { events: self.events.drop_first(), ..self }
        }
    }

    /// The step at which the oldest event is taken out.
    pub open spec fn emission(self) -> PollStepView {
        if self.events.len() == 0 {
            PollStepView::Pending
        } else {
            PollStepView::Ready(self.events[0])
        }
    }

    /// The manager after an answer, in the order: heartbeat, pings, status, event.
    pub open spec fn after_poll(self, polled: Polled) -> ManagerView {
        match polled {
            Polled::Timer(timer, TimerPoll::Expired(id)) => self.timer_expired(timer, id),
            Polled::Timer(PeerTimer::OutboundPing, TimerPoll::Idle) if self.is_syncing() =>
                self.emit(),
            Polled::Timer(PeerTimer::Status, TimerPoll::Idle) => self.emit(),
            _ => self,
        }
    }

    /// What is to be done after an answer. A set of clocks is looked at until none of them has run
    /// out.
    pub open spec fn next_poll(self, polled: Polled) -> PollStepView {
        match polled {
            Polled::Heartbeat(true) => PollStepView::RunHeartbeat,
            Polled::Heartbeat(false) => PollStepView::PollTimer(PeerTimer::InboundPing),
            Polled::Timer(timer, TimerPoll::Expired(_)) => PollStepView::PollTimer(timer),
            Polled::Timer(timer, TimerPoll::Failed) => PollStepView::PollTimer(timer),
            Polled::Timer(PeerTimer::InboundPing, TimerPoll::Idle) => PollStepView::PollTimer(
                PeerTimer::OutboundPing,
            ),
            Polled::Timer(PeerTimer::OutboundPing, TimerPoll::Idle) => if self.is_syncing() {
                self.emission()
            } else {
                PollStepView::PollTimer(PeerTimer::Status)
            },
            Polled::Timer(PeerTimer::Status, TimerPoll::Idle) => self.emission(),
        }
    }
}

impl PeerManager {
    /// One step on the way to the next event. It takes what the heartbeat or a set of clocks has
    /// answered, and says what to do or to look at next. The way starts with the heartbeat.
    pub fn poll_next(&mut self, polled: Polled) -> (step: PollStep)
        ensures
            final(self)@ == old(self)@.after_poll(polled),
            step@ == old(self)@.next_poll(polled),
    {
        match polled {
            Polled::Heartbeat(due) => {
                if due {
                    PollStep::RunHeartbeat
                } else {
                    PollStep::PollTimer(PeerTimer::InboundPing)
                }
            },
            Polled::Timer(timer, TimerPoll::Expired(peer_id)) => {
                match timer {
                    PeerTimer::InboundPing => {
                        self.inbound_ping_peers.insert(peer_id);
                        self.events.push(PeerManagerEvent::Ping(peer_id));
                    },
                    PeerTimer::OutboundPing => {
                        self.outbound_ping_peers.insert(peer_id);
                        self.events.push(PeerManagerEvent::Ping(peer_id));
                    },
                    PeerTimer::Status => {
                        self.status_peers.insert(peer_id);
                        self.events.push(PeerManagerEvent::Status(peer_id));
                    },
                }
                PollStep::PollTimer(timer)
            },
            Polled::Timer(timer, TimerPoll::Failed) => PollStep::PollTimer(timer),
            Polled::Timer(timer, TimerPoll::Idle) => {
                match timer {
                    PeerTimer::InboundPing => PollStep::PollTimer(PeerTimer::OutboundPing),
                    PeerTimer::OutboundPing => {
                        let syncing = match self.network_globals.sync_state {
                            SyncState::SyncingFinalized { .. } => true,
                            SyncState::SyncingHead { .. } => true,
                            _ => false,
                        };
                        if syncing {
                            self.emit_event()
                        } else {
                            PollStep::PollTimer(PeerTimer::Status)
                        }
                    },
                    PeerTimer::Status => self.emit_event(),
                }
            },
        }
    }

    /// Takes out the oldest event, if there is one.
    fn emit_event(&mut self) -> (step: PollStep)
        ensures
            final(self)@ == old(self)@.emit(),
            step@ == old(self)@.emission(),
    {
        match self.events.pop() {
            Some(event) => PollStep::Ready(event),
            None => PollStep::Pending,
        }
    }
}

} // verus!
