//! What follows from changes of peers' scores.

use crate::event::{EventQueue, EventView, MetricUpdate, PeerManagerEvent};
use crate::manager::{ManagerView, PeerManager};
use crate::network::{
    ClientKind, ConnectionDirection, GoodbyeReason, PeerId, Protocol, RPCError,
    RPCResponseErrorCode,
};
use crate::peer_info::{PeerConnectionStatus, PeerInfo, PeerInfoView};
use crate::score::{PeerAction, ReportSource, Score, ScoreOutlook, ScoreState};
use vstd::prelude::*;

verus! {

/// The action that a failed request counts as, if any.
pub open spec fn rpc_error_penalty(
    protocol: Protocol,
    err: RPCError,
    direction: ConnectionDirection,
) -> Option<PeerAction> {
    let serves_blocks = protocol is BlocksByRange || protocol is BlocksByRoot;
    match err {
        // They closed early, this could mean poor connection.
        RPCError::IncompleteStream => Some(PeerAction::MidToleranceError),
        // Our fault.
        RPCError::InternalError | RPCError::HandlerRejected => None,
        // The peer is not complying with the protocol.
        RPCError::InvalidData | RPCError::SSZDecodeError => Some(PeerAction::Fatal),
        // This could be their fault or ours.
        RPCError::IoError => Some(PeerAction::HighToleranceError),
        RPCError::ErrorResponse(RPCResponseErrorCode::Unknown) => Some(
            PeerAction::HighToleranceError,
        ),
        // The peer lacks the blocks we sync by.
        RPCError::ErrorResponse(RPCResponseErrorCode::ResourceUnavailable) => Some(
            PeerAction::Fatal,
        ),
        RPCError::ErrorResponse(RPCResponseErrorCode::ServerError) => Some(
            PeerAction::MidToleranceError,
        ),
        RPCError::ErrorResponse(RPCResponseErrorCode::InvalidRequest) => Some(
            PeerAction::LowToleranceError,
        ),
        RPCError::ErrorResponse(RPCResponseErrorCode::RateLimited) => if serves_blocks
            || protocol is Ping {
            Some(PeerAction::MidToleranceError)
        } else {
            Some(PeerAction::LowToleranceError)
        },
        // No malice, but it can make the peer unfit.
        RPCError::UnsupportedProtocol => if protocol is Ping {
            Some(PeerAction::Fatal)
        } else if serves_blocks || protocol is Goodbye {
            None
        } else {
            Some(PeerAction::LowToleranceError)
        },
        // On their requests it is us who were too slow.
        RPCError::StreamTimeout => if direction is Incoming {
            None
        } else if protocol is Ping {
            Some(PeerAction::LowToleranceError)
        } else if serves_blocks {
            Some(PeerAction::MidToleranceError)
        } else {
            None
        },
        RPCError::NegotiationTimeout => Some(PeerAction::LowToleranceError),
        // No penalty for a graceful disconnection.
        RPCError::Disconnected => None,
    }
}

/// A score fell so low that the peer is to be banned.
pub open spec fn is_condemned(previous: ScoreState, present: ScoreState) -> bool {
    present is Banned && !(previous is Banned)
}

/// A score came to where the peer, being connected or dialed, is to be disconnected.
pub open spec fn is_dropped(previous: ScoreState, present: ScoreState, info: PeerInfoView) -> bool {
    present is Disconnected && !(previous is Disconnected) && info.is_connected_or_dialing()
}

/// A score rose so high that the peer is to be unbanned.
pub open spec fn is_pardoned(
    previous: ScoreState,
    present: ScoreState,
    info: PeerInfoView,
) -> bool {
    previous is Banned && (present is Healthy || (present is Disconnected
        && !info.is_connected_or_dialing()))
}

/// Scores in the course of being changed: the peers that are then to be banned and unbanned.
pub struct Rescoring {
    pub view: ManagerView,
    pub to_ban: Seq<PeerId>,
    pub to_unban: Seq<PeerId>,
}

impl Rescoring {
    /// A peer's score changes.
    pub open spec fn rescore(self, id: PeerId, score: Score) -> Rescoring {
        if !self.view.db.knows(id) {
            self
        } else {
            let info = self.view.db.peers[id].with_score(score);
            let previous = self.view.db.peers[id].score.state;
            Rescoring {
                view: if is_dropped(previous, score.state, info) {
                    self.view.with_info(
                        id,
                        info.with_status(PeerConnectionStatus::Disconnecting { to_ban: false }),
                    ).push(EventView::DisconnectPeer(id, GoodbyeReason::BadScore))
                } else {
                    self.view.with_info(id, info)
                },
                to_ban: if is_condemned(previous, score.state) {
                    self.to_ban.push(id)
                } else {
                    self.to_ban
                },
                to_unban: if is_pardoned(previous, score.state, info) {
                    self.to_unban.push(id)
                } else {
                    self.to_unban
                },
            }
        }
    }

    /// Scores change one after the other.
    pub open spec fn rescore_all(self, updates: Seq<(PeerId, Score)>) -> Rescoring
        decreases updates.len(),
    {
        if updates.len() == 0 {
            self
        } else {
            self.rescore_all(updates.drop_last()).rescore(updates.last().0, updates.last().1)
        }
    }

    /// The peers are banned and unbanned.
    pub open spec fn settle(self) -> ManagerView {
        self.view.ban_all(self.to_ban).unban_all(self.to_unban)
    }
}

impl ManagerView {
    /// No scores have changed yet.
    pub open spec fn rescoring(self) -> Rescoring {
        Rescoring { view: self, to_ban: Seq::empty(), to_unban: Seq::empty() }
    }

    /// Peers are banned for their scores.
    pub open spec fn ban_all(self, ids: Seq<PeerId>) -> ManagerView
        decreases ids.len(),
    {
        if ids.len() == 0 {
            self
        } else {
            self.ban_all(ids.drop_last()).ban_peer(ids.last(), GoodbyeReason::BadScore)
        }
    }

    /// Peers are unbanned as far as their scores allow it.
    pub open spec fn unban_all(self, ids: Seq<PeerId>) -> ManagerView
        decreases ids.len(),
    {
        if ids.len() == 0 {
            self
        } else {
            self.unban_all(ids.drop_last()).unban_peer(ids.last())
        }
    }

    /// Scores change, and the peers are banned and unbanned that this makes so.
    pub open spec fn update_peer_scores(self, updates: Seq<(PeerId, Score)>) -> ManagerView {
        self.rescoring().rescore_all(updates).settle()
    }

    /// A peer did something that bears on its score. Of a peer that was not known, nothing but that
    /// is put down.
    pub open spec fn report_peer(
        self,
        id: PeerId,
        action: PeerAction,
        source: ReportSource,
        outlook: ScoreOutlook,
    ) -> ManagerView {
        if self.db.knows(id) {
            let info = self.db.peers[id];
            self.meter(
                MetricUpdate::PeerAction(info.client.kind, action, source),
            ).rescoring().rescore(id, outlook.spec_after(info.score, action)).settle()
        } else {
            self.with_info(id, PeerInfoView::unknown())
        }
    }

    /// A request to or from a peer failed.
    pub open spec fn handle_rpc_error(
        self,
        id: PeerId,
        protocol: Protocol,
        err: RPCError,
        direction: ConnectionDirection,
        outlook: ScoreOutlook,
    ) -> ManagerView {
        let metered = self.meter(
            MetricUpdate::RpcError(self.db.info(id).client.kind, err, direction),
        );
        match rpc_error_penalty(protocol, err, direction) {
            Some(action) => metered.report_peer(id, action, ReportSource::RPC, outlook),
            None => metered,
        }
    }
}

impl PeerManager {
    /// The action that a failed request counts as, if any.
    pub fn rpc_error_action(
        protocol: Protocol,
        err: RPCError,
        direction: ConnectionDirection,
    ) -> (action: Option<PeerAction>)
        ensures
            action == rpc_error_penalty(protocol, err, direction),
    {
        match err {
            RPCError::IncompleteStream => Some(PeerAction::MidToleranceError),
            RPCError::InternalError | RPCError::HandlerRejected => None,
            RPCError::InvalidData => Some(PeerAction::Fatal),
            RPCError::IoError => Some(PeerAction::HighToleranceError),
            RPCError::ErrorResponse(code) => match code {
                RPCResponseErrorCode::Unknown => Some(PeerAction::HighToleranceError),
                // NOTE: This error only makes sense for the block protocols. If we are syncing,
                // there is no point keeping these peers around and continually failing to request
                // blocks. We instantly ban them and hope that by the time the ban lifts, the peers
                // will have completed their backfill sync.
                RPCResponseErrorCode::ResourceUnavailable => Some(PeerAction::Fatal),
                RPCResponseErrorCode::ServerError => Some(PeerAction::MidToleranceError),
                RPCResponseErrorCode::InvalidRequest => Some(PeerAction::LowToleranceError),
                RPCResponseErrorCode::RateLimited => match protocol {
                    Protocol::Ping => Some(PeerAction::MidToleranceError),
                    Protocol::BlocksByRange => Some(PeerAction::MidToleranceError),
                    Protocol::BlocksByRoot => Some(PeerAction::MidToleranceError),
                    Protocol::Goodbye => Some(PeerAction::LowToleranceError),
                    Protocol::MetaData => Some(PeerAction::LowToleranceError),
                    Protocol::Status => Some(PeerAction::LowToleranceError),
                },
            },
            RPCError::SSZDecodeError => Some(PeerAction::Fatal),
            RPCError::UnsupportedProtocol => match protocol {
                Protocol::Ping => Some(PeerAction::Fatal),
                Protocol::BlocksByRange => None,
                Protocol::BlocksByRoot => None,
                Protocol::Goodbye => None,
                Protocol::MetaData => Some(PeerAction::LowToleranceError),
                Protocol::Status => Some(PeerAction::LowToleranceError),
            },
            RPCError::StreamTimeout => match direction {
                ConnectionDirection::Incoming => None,
                ConnectionDirection::Outgoing => match protocol {
                    Protocol::Ping => Some(PeerAction::LowToleranceError),
                    Protocol::BlocksByRange => Some(PeerAction::MidToleranceError),
                    Protocol::BlocksByRoot => Some(PeerAction::MidToleranceError),
                    Protocol::Goodbye => None,
                    Protocol::MetaData => None,
                    Protocol::Status => None,
                },
            },
            RPCError::NegotiationTimeout => Some(PeerAction::LowToleranceError),
            RPCError::Disconnected => None,
        }
    }

    /// An error has occurred in the RPC.
    ///
    /// This adjusts a peer's score based on the error. Tells which action it was counted as, if
    /// any.
    pub fn handle_rpc_error(
        &mut self,
        peer_id: PeerId,
        protocol: Protocol,
        err: RPCError,
        direction: ConnectionDirection,
        outlook: &ScoreOutlook,
    ) -> (action: Option<PeerAction>)
        ensures
            action == rpc_error_penalty(protocol, err, direction),
            final(self)@ == old(self)@.handle_rpc_error(
                peer_id,
                protocol,
                err,
                direction,
                *outlook,
            ),
    {
        let kind = match self.network_globals.peers.peer_info(peer_id) {
            Some(info) => info.client.kind,
            None => ClientKind::Unknown,
        };
        self.metrics.push(MetricUpdate::RpcError(kind, err, direction));
        let action = Self::rpc_error_action(protocol, err, direction);
        if let Some(action) = action {
            self.report_peer(peer_id, action, ReportSource::RPC, outlook);
        }
        action
    }

    /// Reports a peer for some action. `outlook` is what the action makes of its score.
    ///
    /// If the peer doesn't exist, insert defaults.
    pub fn report_peer(
        &mut self,
        peer_id: PeerId,
        action: PeerAction,
        source: ReportSource,
        outlook: &ScoreOutlook,
    )
        ensures
            final(self)@ == old(self)@.report_peer(peer_id, action, source, *outlook),
    {
        let (kind, score) = match self.network_globals.peers.peer_info(peer_id) {
            Some(info) => (info.client.kind, info.score),
            None => {
                self.network_globals.peers.put_info(peer_id, PeerInfo::unknown());
                return;
            },
        };
        let mut to_ban: Vec<PeerId> = Vec::new();
        let mut to_unban: Vec<PeerId> = Vec::new();
        self.metrics.push(MetricUpdate::PeerAction(kind, action, source));
        self.rescore(peer_id, outlook.after(score, action), &mut to_ban, &mut to_unban);
        self.ban_and_unban_peers(&to_ban, &to_unban);
    }

    /// This handles score transitions between states. It transitions peers' states from
    /// disconnected/banned/connected.
    pub fn handle_score_transitions(
        previous_state: ScoreState,
        peer_id: PeerId,
        info: &mut PeerInfo,
        to_ban_peers: &mut Vec<PeerId>,
        to_unban_peers: &mut Vec<PeerId>,
        events: &mut EventQueue,
    )
        ensures
            final(to_ban_peers)@ == if is_condemned(previous_state, old(info)@.score.state) {
                old(to_ban_peers)@.push(peer_id)
            } else {
                old(to_ban_peers)@
            },
            final(to_unban_peers)@ == if is_pardoned(
                previous_state,
                old(info)@.score.state,
                old(info)@,
            ) {
                old(to_unban_peers)@.push(peer_id)
            } else {
                old(to_unban_peers)@
            },
            is_dropped(previous_state, old(info)@.score.state, old(info)@) ==> final(info)@ == old(
                info,
            )@.with_status(PeerConnectionStatus::Disconnecting { to_ban: false }) && final(events)@
                == old(events)@.push(EventView::DisconnectPeer(peer_id, GoodbyeReason::BadScore)),
            !is_dropped(previous_state, old(info)@.score.state, old(info)@) ==> final(info)@ == old(
                info,
            )@ && final(events)@ == old(events)@,
    {
        match (info.score.state, previous_state) {
            (ScoreState::Banned, ScoreState::Healthy | ScoreState::Disconnected) => {
                to_ban_peers.push(peer_id);
            },
            (ScoreState::Disconnected, ScoreState::Banned | ScoreState::Healthy) => {
                // Disconnect the peer if it's currently connected or dialing.
                if info.is_connected_or_dialing() {
                    // Change the state to inform that we are disconnecting the peer.
                    info.disconnecting(false);
                    events.push(
                        PeerManagerEvent::DisconnectPeer(peer_id, GoodbyeReason::BadScore),
                    );
                } else if previous_state == ScoreState::Banned {
                    to_unban_peers.push(peer_id);
                }
            },
            (ScoreState::Healthy, ScoreState::Disconnected) => {},
            (ScoreState::Healthy, ScoreState::Banned) => {
                // Unban the peer if it was previously banned.
                to_unban_peers.push(peer_id);
            },
            // Explicitly ignore states that haven't transitioned.
            (ScoreState::Healthy, ScoreState::Healthy) => {},
            (ScoreState::Disconnected, ScoreState::Disconnected) => {},
            (ScoreState::Banned, ScoreState::Banned) => {},
        }
    }

    /// Changes a known peer's score.
    fn rescore(
        &mut self,
        peer_id: PeerId,
        score: Score,
        to_ban: &mut Vec<PeerId>,
        to_unban: &mut Vec<PeerId>,
    )
        ensures
            ({
                let before = Rescoring {
                    view: old(self)@,
                    to_ban: old(to_ban)@,
                    to_unban: old(to_unban)@,
                };
                let after = before.rescore(peer_id, score);
                final(self)@ == after.view && final(to_ban)@ == after.to_ban && final(to_unban)@
                    == after.to_unban
            }),
    {
        if self.network_globals.peers.peer_info(peer_id).is_none() {
            return;
        }
        let mut info = self.network_globals.peers.take_info(peer_id);
        let previous_state = info.score.state;
        info.score = score;
        Self::handle_score_transitions(
            previous_state,
            peer_id,
            &mut info,
            to_ban,
            to_unban,
            &mut self.events,
        );
        self.network_globals.peers.put_info(peer_id, info);
        proof {
            let before = Rescoring {
                view: old(self)@,
                to_ban: old(to_ban)@,
                to_unban: old(to_unban)@,
            };
            assert(self@.db.peers =~= before.rescore(peer_id, score).view.db.peers);
        }
    }

    /// Updates the state of banned peers.
    pub fn ban_and_unban_peers(&mut self, to_ban_peers: &Vec<PeerId>, to_unban_peers: &Vec<PeerId>)
        ensures
            final(self)@ == old(self)@.ban_all(to_ban_peers@).unban_all(to_unban_peers@),
    {
        // Process banning peers.
        let mut i: usize = 0;
        while i < to_ban_peers.len()
            invariant
                i <= to_ban_peers.len(),
                self@ == old(self)@.ban_all(to_ban_peers@.take(i as int)),
            decreases to_ban_peers.len() - i,
        {
            assert(to_ban_peers@.take(i + 1).drop_last() =~= to_ban_peers@.take(i as int));
            self.ban_peer(to_ban_peers[i], GoodbyeReason::BadScore);
            i += 1;
        }
        assert(to_ban_peers@.take(i as int) =~= to_ban_peers@);
        let ghost banned = self@;
        // Process unbanning peers.
        let mut j: usize = 0;
        while j < to_unban_peers.len()
            invariant
                j <= to_unban_peers.len(),
                self@ == banned.unban_all(to_unban_peers@.take(j as int)),
            decreases to_unban_peers.len() - j,
        {
            assert(to_unban_peers@.take(j + 1).drop_last() =~= to_unban_peers@.take(j as int));
            let _ = self.unban_peer(to_unban_peers[j]);
            j += 1;
        }
        assert(to_unban_peers@.take(j as int) =~= to_unban_peers@);
    }

    /// Updates the scores of known peers, one after the other.
    ///
    /// `updates` holds what a peer's connection status and the time that has passed have made of
    /// its score.
    pub fn update_peer_scores(&mut self, updates: &Vec<(PeerId, Score)>)
        ensures
            final(self)@ == old(self)@.update_peer_scores(updates@),
    {
        let mut to_ban: Vec<PeerId> = Vec::new();
        let mut to_unban: Vec<PeerId> = Vec::new();
        let mut i: usize = 0;
        while i < updates.len()
            invariant
                i <= updates.len(),
                (Rescoring { view: self@, to_ban: to_ban@, to_unban: to_unban@ }) == old(
                    self,
                )@.rescoring().rescore_all(updates@.take(i as int)),
            decreases updates.len() - i,
        {
            assert(updates@.take(i + 1).drop_last() =~= updates@.take(i as int));
            self.rescore(updates[i].0, updates[i].1, &mut to_ban, &mut to_unban);
            i += 1;
        }
        assert(updates@.take(i as int) =~= updates@);
        self.ban_and_unban_peers(&to_ban, &to_unban);
    }
}

} // verus!
