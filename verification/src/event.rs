//! What the peer manager asks of the rest of the node: events, timer commands and metric updates.

use crate::network::{
    ClientKind, ConnectionDirection, GoodbyeReason, IpAddr, PeerId, RPCError, SubnetDiscovery,
};
use crate::score::{PeerAction, ReportSource};
use smallvec::SmallVec;
use std::collections::HashSet;
use vstd::prelude::*;

verus! {

broadcast use vstd::std_specs::hash::group_hash_axioms;

/// The events that the peer manager outputs (requests).
#[derive(Clone, Debug, PartialEq, Eq)]
pub enum PeerManagerEvent {
    /// A peer has dialed us.
    PeerConnectedIncoming(PeerId),
    /// A peer has been dialed.
    PeerConnectedOutgoing(PeerId),
    /// A peer has disconnected.
    PeerDisconnected(PeerId),
    /// Sends a STATUS to a peer.
    Status(PeerId),
    /// Sends a PING to a peer.
    Ping(PeerId),
    /// Request METADATA from a peer.
    MetaData(PeerId),
    /// The peer should be disconnected.
    DisconnectPeer(PeerId, GoodbyeReason),
    /// Inform the behaviour to ban this peer and associated ip addresses.
    Banned(PeerId, Vec<IpAddr>),
    /// The peer should be unbanned with the associated ip addresses.
    UnBanned(PeerId, Vec<IpAddr>),
    /// Request the behaviour to discover more peers.
    DiscoverPeers,
    /// Request the behaviour to discover peers on subnets.
    DiscoverSubnetPeers(Vec<SubnetDiscovery>),
}

/// The value of a [`PeerManagerEvent`].
pub enum EventView {
    PeerConnectedIncoming(PeerId),
    PeerConnectedOutgoing(PeerId),
    PeerDisconnected(PeerId),
    Status(PeerId),
    Ping(PeerId),
    MetaData(PeerId),
    DisconnectPeer(PeerId, GoodbyeReason),
    Banned(PeerId, Seq<IpAddr>),
    UnBanned(PeerId, Seq<IpAddr>),
    DiscoverPeers,
    DiscoverSubnetPeers(Seq<SubnetDiscovery>),
}

impl View for PeerManagerEvent {
    type V = EventView;

    open spec fn view(&self) -> EventView {
        match self {
            PeerManagerEvent::PeerConnectedIncoming(id) => EventView::PeerConnectedIncoming(*id),
            PeerManagerEvent::PeerConnectedOutgoing(id) => EventView::PeerConnectedOutgoing(*id),
            PeerManagerEvent::PeerDisconnected(id) => EventView::PeerDisconnected(*id),
            PeerManagerEvent::Status(id) => EventView::Status(*id),
            PeerManagerEvent::Ping(id) => EventView::Ping(*id),
            PeerManagerEvent::MetaData(id) => EventView::MetaData(*id),
            PeerManagerEvent::DisconnectPeer(id, reason) => EventView::DisconnectPeer(*id, *reason),
            PeerManagerEvent::Banned(id, ips) => EventView::Banned(*id, ips@),
            PeerManagerEvent::UnBanned(id, ips) => EventView::UnBanned(*id, ips@),
            PeerManagerEvent::DiscoverPeers => EventView::DiscoverPeers,
            PeerManagerEvent::DiscoverSubnetPeers(subnets) => EventView::DiscoverSubnetPeers(
                subnets@,
            ),
        }
    }
}

/// The events that wait to be produced, oldest first, in a `smallvec::SmallVec`. Of what is inside,
/// `queued_events` is known.
#[verifier::external_body]
pub struct EventQueue {
    queue: SmallVec<[PeerManagerEvent; 16]>,
}

/// The items that the `smallvec::SmallVec` of a queue holds, from the first to the last.
pub uninterp spec fn queued_events(queue: EventQueue) -> Seq<PeerManagerEvent>;

impl View for EventQueue {
    type V = Seq<EventView>;

    open spec fn view(&self) -> Seq<EventView> {
        queued_events(*self).map_values(|event: PeerManagerEvent| event@)
    }
}

impl EventQueue {
    /// Calls `SmallVec::new`, which constructs an empty vector.
    #[verifier::external_body]
    pub(crate) fn new() -> (queue: EventQueue)
        ensures
            queued_events(queue) == Seq::<PeerManagerEvent>::empty(),
    {
        EventQueue { queue: SmallVec::new() }
    }

    /// Calls `SmallVec::push`, which appends an item at the end. As with `Vec::push`, it is not
    /// said what happens where no memory is left.
    #[verifier::external_body]
    fn push_item(&mut self, event: PeerManagerEvent)
        ensures
            queued_events(*final(self)) == queued_events(*old(self)).push(event),
    {
        self.queue.push(event)
    }

    /// Calls `SmallVec::is_empty`, which tells whether the vector holds nothing.
    #[verifier::external_body]
    fn has_none(&self) -> (empty: bool)
        ensures
            empty == (queued_events(*self).len() == 0),
    {
        self.queue.is_empty()
    }

    /// Calls `SmallVec::remove`, which takes out the item at an index and shifts those behind it;
    /// it panics where there is no item at the index.
    #[verifier::external_body]
    fn remove_item(&mut self, index: usize) -> (event: PeerManagerEvent)
        requires
            index < queued_events(*old(self)).len(),
        ensures
            event == queued_events(*old(self))[index as int],
            queued_events(*final(self)) == queued_events(*old(self)).remove(index as int),
    {
        self.queue.remove(index)
    }

    /// Calls `SmallVec::shrink_to_fit`, which gives memory back and leaves the items as they are.
    #[verifier::external_body]
    fn release_memory(&mut self)
        ensures
            queued_events(*final(self)) == queued_events(*old(self)),
    {
        self.queue.shrink_to_fit()
    }

    /// Appends an event.
    pub fn push(&mut self, event: PeerManagerEvent)
        ensures
            final(self)@ == old(self)@.push(event@),
    {
        self.push_item(event);
        assert(self@ =~= old(self)@.push(event@));
    }

    /// Takes out the oldest event, if there is one.
    pub fn pop(&mut self) -> (event: Option<PeerManagerEvent>)
        ensures
            match event {
                Some(event) => old(self)@.len() > 0 && event@ == old(self)@[0] && final(self)@
                    == old(self)@.drop_first(),
                None => old(self)@.len() == 0 && final(self)@ == old(self)@,
            },
    {
        if !self.has_none() {
            let event = self.remove_item(0);
            assert(self@ =~= old(self)@.drop_first());
            Some(event)
        } else {
            self.release_memory();
            None
        }
    }
}

/// What the clock of a peer is to do.
#[derive(Clone, Copy, Debug, PartialEq, Eq, Structural)]
pub enum TimerCommand {
    /// Start the peer's clock, anew if it is running.
    Start(PeerId),
    /// Stop the peer's clock.
    Stop(PeerId),
}

/// Peers that wait for something to happen after an interval.
///
/// The clocks run elsewhere: each change is put down as a command.
#[derive(Debug)]
pub struct PeerTimers {
    /// The peers that wait.
    pub waiting: HashSet<PeerId>,
    /// The commands that were not carried out yet, oldest first.
    pub commands: Vec<TimerCommand>,
    /// The interval in seconds.
    pub interval: u64,
}

/// The value of a [`PeerTimers`].
pub struct PeerTimersView {
    pub waiting: Set<PeerId>,
    pub commands: Seq<TimerCommand>,
    pub interval: u64,
}

impl View for PeerTimers {
    type V = PeerTimersView;

    open spec fn view(&self) -> PeerTimersView {
        PeerTimersView {
            waiting: self.waiting@,
            commands: self.commands@,
            interval: self.interval,
        }
    }
}

impl PeerTimersView {
    /// The peer waits, from now on.
    pub open spec fn insert(self, id: PeerId) -> PeerTimersView {
        PeerTimersView {
            waiting: self.waiting.insert(id),
            commands: self.commands.push(TimerCommand::Start(id)),
            ..self
        }
    }

    /// The peer does not wait any more.
    pub open spec fn remove(self, id: PeerId) -> PeerTimersView {
        PeerTimersView {
            waiting: self.waiting.remove(id),
            commands: self.commands.push(TimerCommand::Stop(id)),
            ..self
        }
    }
}

impl PeerTimers {
    /// Nobody waits.
    pub fn new(interval: u64) -> (timers: PeerTimers)
        ensures
            timers@ == (PeerTimersView {
                waiting: Set::empty(),
                commands: Seq::empty(),
                interval,
            }),
    {
        PeerTimers { waiting: HashSet::new(), commands: Vec::new(), interval }
    }

    /// The peer waits, from now on.
    pub fn insert(&mut self, id: PeerId)
        ensures
            final(self)@ == old(self)@.insert(id),
    {
        self.waiting.insert(id);
        self.commands.push(TimerCommand::Start(id));
    }

    /// The peer does not wait any more.
    pub fn remove(&mut self, id: PeerId)
        ensures
            final(self)@ == old(self)@.remove(id),
    {
        self.waiting.remove(&id);
        self.commands.push(TimerCommand::Stop(id));
    }

    /// Hands out the commands that were not carried out yet.
    pub fn take_commands(&mut self) -> (commands: Vec<TimerCommand>)
        ensures
            commands@ == old(self)@.commands,
            final(self)@ == (PeerTimersView { commands: Seq::empty(), ..old(self)@ }),
    {
        let mut commands: Vec<TimerCommand> = Vec::new();
        std::mem::swap(&mut commands, &mut self.commands);
        commands
    }
}

/// A change to the node's metrics.
#[derive(Clone, Copy, Debug, PartialEq, Eq, Structural)]
pub enum MetricUpdate {
    /// One more action of a peer with such a client was reported.
    PeerAction(ClientKind, PeerAction, ReportSource),
    /// One more request to or from a peer with such a client failed.
    RpcError(ClientKind, RPCError, ConnectionDirection),
    /// Find out whether we can be reached from outside.
    CheckNat,
    /// One more connection was opened by a peer.
    InboundOpened,
    /// A connection that a peer opened is gone.
    InboundClosed,
    /// One more connection was opened by us.
    OutboundOpened,
    /// A connection that we opened is gone.
    OutboundClosed,
    /// One more peer with such a client is connected.
    ClientConnected(ClientKind),
    /// One peer less with such a client is connected.
    ClientDisconnected(ClientKind),
    /// One more peer connected.
    PeerConnectEvent,
    /// One more peer disconnected.
    PeerDisconnectEvent,
    /// So many peers are connected.
    PeersConnected(usize),
}

} // verus!
