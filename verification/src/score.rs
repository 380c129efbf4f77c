//! Peer scores, as far as decisions depend on them.

use vstd::prelude::*;

verus! {

/// How much trust a score leaves.
#[derive(Clone, Copy, Debug, PartialEq, Eq, Structural)]
pub enum ScoreState {
    /// The peer may be connected.
    Healthy,
    /// The peer should be disconnected, and may reconnect once its score has recovered.
    Disconnected,
    /// The peer is banned.
    Banned,
}

/// An action of a peer that bears on its score.
#[derive(Clone, Copy, Debug, PartialEq, Eq, Structural)]
pub enum PeerAction {
    /// The peer is banned at once.
    Fatal,
    /// A few of these lead to a ban.
    LowToleranceError,
    /// More of these are tolerated.
    MidToleranceError,
    /// Many of these are tolerated.
    HighToleranceError,
}

/// Which part of the node reports a peer.
#[derive(Clone, Copy, Debug, PartialEq, Eq, Structural)]
pub enum ReportSource {
    Gossipsub,
    RPC,
    Processor,
    SyncService,
    PeerManager,
}

/// A peer's score.
///
/// The scoring formula is the caller's. What is kept of a score is what decisions are made by:
/// where it stands among other scores, and which state it puts the peer in.
#[derive(Clone, Copy, Debug, PartialEq, Eq, Structural)]
pub struct Score {
    /// A higher score has a higher rank, equal scores have equal ranks.
    pub rank: i64,
    /// The state that the score puts the peer in.
    pub state: ScoreState,
    /// The gossipsub part of the score is good.
    pub good_gossipsub: bool,
}

impl Score {
    /// The score of a peer of which nothing is known.
    pub open spec fn spec_neutral() -> Score {
        Score { rank: 0, state: ScoreState::Healthy, good_gossipsub: true }
    }

    /// The score that a fatal action leaves: no score is lower, and the peer is banned.
    pub open spec fn spec_fatal(self) -> Score {
        Score { rank: i64::MIN, state: ScoreState::Banned, good_gossipsub: self.good_gossipsub }
    }

    /// The score of a peer of which nothing is known.
    pub fn neutral() -> (score: Score)
        ensures
            score == Score::spec_neutral(),
    {
        Score { rank: 0, state: ScoreState::Healthy, good_gossipsub: true }
    }

    /// The score that a fatal action leaves: no score is lower, and the peer is banned.
    pub fn fatal(self) -> (score: Score)
        ensures
            score == self.spec_fatal(),
    {
        Score { rank: i64::MIN, state: ScoreState::Banned, good_gossipsub: self.good_gossipsub }
    }
}

/// What the scoring formula makes of a peer's score for each action that is not fatal.
#[derive(Clone, Copy, Debug, PartialEq, Eq, Structural)]
pub struct ScoreOutlook {
    pub low_tolerance: Score,
    pub mid_tolerance: Score,
    pub high_tolerance: Score,
}

impl ScoreOutlook {
    /// What becomes of `score` by `action`.
    pub open spec fn spec_after(self, score: Score, action: PeerAction) -> Score {
        match action {
            PeerAction::Fatal => score.spec_fatal(),
            PeerAction::LowToleranceError => self.low_tolerance,
            PeerAction::MidToleranceError => self.mid_tolerance,
            PeerAction::HighToleranceError => self.high_tolerance,
        }
    }

    /// What becomes of `score` by `action`.
    pub fn after(&self, score: Score, action: PeerAction) -> (result: Score)
        ensures
            result == self.spec_after(score, action),
    {
        match action {
            PeerAction::Fatal => score.fatal(),
            PeerAction::LowToleranceError => self.low_tolerance,
            PeerAction::MidToleranceError => self.mid_tolerance,
            PeerAction::HighToleranceError => self.high_tolerance,
        }
    }
}

} // verus!
