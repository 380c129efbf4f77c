//! How gossipsub scores enter the peers' scores.

use crate::limits;
use crate::manager::{ManagerView, PeerManager};
use crate::network::PeerId;
use crate::score::Score;
use vstd::prelude::*;

verus! {

/// A peer's gossipsub score, and what the peer's score becomes with it.
#[derive(Clone, Copy, Debug, PartialEq, Eq, Structural)]
pub struct GossipsubScore {
    pub peer_id: PeerId,
    /// A higher gossipsub score has a higher value, and a negative one a negative value.
    pub value: i64,
    /// What the peer's score becomes if the gossipsub score counts.
    pub counted: Score,
    /// What the peer's score becomes if the gossipsub score is ignored for being negative.
    pub ignored: Score,
}

/// How many of the scores are negative.
pub open spec fn negatives(scores: Seq<GossipsubScore>) -> nat {
    scores.filter(|score: GossipsubScore| score.value < 0).len()
}

/// No score comes before a higher one.
pub open spec fn best_first(order: Seq<GossipsubScore>) -> bool {
    forall|i: int, j: int|
        0 <= i <= j < order.len() ==> (#[trigger] order[i]).value >= (#[trigger] order[j]).value
}

/// The score at place `i` is one of the first `allowed` negative ones.
pub open spec fn is_let_pass(order: Seq<GossipsubScore>, allowed: nat, i: int) -> bool {
    order[i].value < 0 && negatives(order.take(i)) < allowed
}

/// The places of those of the first `n` scores that are let pass.
pub open spec fn places_let_pass(order: Seq<GossipsubScore>, allowed: nat, n: nat) -> Seq<int> {
    Seq::new(n, |i: int| i).filter(|i: int| is_let_pass(order, allowed, i))
}

/// The peers whose negative gossipsub score is ignored, in their order.
pub open spec fn peers_let_pass(order: Seq<GossipsubScore>, allowed: nat) -> Seq<PeerId> {
    places_let_pass(order, allowed, order.len()).map_values(|i: int| order[i].peer_id)
}

/// What the scores of the peers become: the first `allowed` negative gossipsub scores are ignored,
/// so that these peers can recover without getting disconnected.
pub open spec fn gossipsub_updates(order: Seq<GossipsubScore>, allowed: nat) -> Seq<
    (PeerId, Score),
> {
    Seq::new(
        order.len(),
        |i: int|
            (
                order[i].peer_id,
                if is_let_pass(order, allowed, i) {
                    order[i].ignored
                } else {
                    order[i].counted
                },
            ),
    )
}

impl ManagerView {
    /// `order` lists those of the scores that are of known peers, the best first.
    pub open spec fn gossipsub_order(
        self,
        scores: Seq<GossipsubScore>,
        order: Seq<GossipsubScore>,
    ) -> bool {
        &&& order.to_multiset() == scores.filter(
            |score: GossipsubScore| self.db.knows(score.peer_id),
        ).to_multiset()
        &&& best_first(order)
    }

    /// The gossipsub scores enter the peers' scores in the given order.
    pub open spec fn update_gossipsub_scores(self, order: Seq<GossipsubScore>) -> ManagerView {
        self.update_peer_scores(
            gossipsub_updates(order, limits::spec_allowed_negative(self.target_peers)),
        )
    }
}

impl PeerManager {
    /// Those of the scores that are of known peers, the best first.
    fn sort_gossipsub_scores(&self, scores: &Vec<GossipsubScore>) -> (order: Vec<GossipsubScore>)
        ensures
            self@.gossipsub_order(scores@, order@),
    {
        broadcast use vstd::seq_lib::group_to_multiset_ensures;

        let ghost known = |score: GossipsubScore| self@.db.knows(score.peer_id);
        let mut order: Vec<GossipsubScore> = Vec::new();
        let mut i: usize = 0;
        proof {
            reveal(Seq::filter);
            assert(scores@.take(0).filter(known) =~= order@);
        }
        while i < scores.len()
            invariant
                i <= scores.len(),
                known == (|score: GossipsubScore| self@.db.knows(score.peer_id)),
                order@.to_multiset() == scores@.take(i as int).filter(known).to_multiset(),
                best_first(order@),
            decreases scores.len() - i,
        {
            let score = scores[i];
            proof {
                assert(scores@.take(i + 1) =~= scores@.take(i as int).push(score));
                scores@.take(i as int).lemma_filter_push(score, known);
            }
            if self.network_globals.peers.peer_info(score.peer_id).is_some() {
                let mut at: usize = 0;
                while at < order.len() && order[at].value >= score.value
                    invariant
                        at <= order.len(),
                        forall|a: int|
                            0 <= a < at ==> (#[trigger] order@[a]).value >= score.value,
                    decreases order.len() - at,
                {
                    at += 1;
                }
                let ghost before = order@;
                order.insert(at, score);
                proof {
                    vstd::seq_lib::to_multiset_insert(before, at as int, score);
                    vstd::seq_lib::to_multiset_build(
                        scores@.take(i as int).filter(known),
                        score,
                    );
                }
            }
            i += 1;
        }
        assert(scores@.take(i as int) =~= scores@);
        order
    }

    /// Takes the peers' gossipsub scores into account.
    ///
    /// The negative scores of the best negative peers, a tenth of the target, are ignored. These
    /// peers are handed out.
    pub fn update_gossipsub_scores(&mut self, scores: &Vec<GossipsubScore>) -> (let_pass: Vec<
        PeerId,
    >)
        ensures
            exists|order: Seq<GossipsubScore>|
                {
                    &&& #[trigger] old(self)@.gossipsub_order(scores@, order)
                    &&& final(self)@ == old(self)@.update_gossipsub_scores(order)
                    &&& let_pass@ == peers_let_pass(
                        order,
                        limits::spec_allowed_negative(old(self)@.target_peers),
                    )
                },
    {
        let order = self.sort_gossipsub_scores(scores);
        let allowed: usize = limits::allowed_negative(self.target_peers);
        let (updates, let_pass) = Self::ignore_best_negatives(&order, allowed);
        self.update_peer_scores(&updates);
        let_pass
    }

    /// What the scores of the peers become if the first `allowed` negative gossipsub scores are
    /// ignored, and whose these are.
    pub fn ignore_best_negatives(order: &Vec<GossipsubScore>, allowed: usize) -> (result: (
        Vec<(PeerId, Score)>,
        Vec<PeerId>,
    ))
        ensures
            result.0@ == gossipsub_updates(order@, allowed as nat),
            result.1@ == peers_let_pass(order@, allowed as nat),
    {
        let mut updates: Vec<(PeerId, Score)> = Vec::new();
        let mut let_pass: Vec<PeerId> = Vec::new();
        let ghost peer_at = |i: int| order@[i].peer_id;
        let mut to_ignore: usize = allowed;
        let mut i: usize = 0;
        proof {
            reveal(Seq::filter);
            assert(negatives(order@.take(0)) == 0);
            assert(Seq::new(0, |i: int| i) =~= Seq::empty());
            assert(let_pass@ =~= places_let_pass(order@, allowed as nat, 0).map_values(peer_at));
        }
        while i < order.len()
            invariant
                i <= order.len(),
                updates@.len() == i,
                forall|j: int|
                    0 <= j < i ==> #[trigger] updates@[j] == gossipsub_updates(
                        order@,
                        allowed as nat,
                    )[j],
                peer_at == (|i: int| order@[i].peer_id),
                let_pass@ == places_let_pass(order@, allowed as nat, i as nat).map_values(peer_at),
                to_ignore == if negatives(order@.take(i as int)) < allowed {
                    allowed - negatives(order@.take(i as int))
                } else {
                    0
                },
            decreases order.len() - i,
        {
            let score = order[i];
            proof {
                assert(order@.take(i + 1) =~= order@.take(i as int).push(score));
                order@.take(i as int).lemma_filter_push(score, |s: GossipsubScore| s.value < 0);
                let before = Seq::new(i as nat, |k: int| k);
                assert(Seq::new((i + 1) as nat, |k: int| k) =~= before.push(i as int));
                before.lemma_filter_push(
                    i as int,
                    |k: int| is_let_pass(order@, allowed as nat, k),
                );
                let places = places_let_pass(order@, allowed as nat, i as nat);
                assert(places.push(i as int).map_values(peer_at) =~= places.map_values(
                    peer_at,
                ).push(score.peer_id));
            }
            if score.value < 0 && to_ignore > 0 {
                to_ignore = to_ignore - 1;
                updates.push((score.peer_id, score.ignored));
                let_pass.push(score.peer_id);
            } else {
                updates.push((score.peer_id, score.counted));
            }
            i += 1;
        }
        assert(updates@ =~= gossipsub_updates(order@, allowed as nat));
        (updates, let_pass)
    }
}

} // verus!
