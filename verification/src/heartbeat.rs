//! Routine maintenance: the peer count, the peers' scores and the sync committee subnets.

use crate::event::{EventView, PeerManagerEvent};
use crate::limits;
use crate::manager::{ManagerView, PeerManager};
use crate::network::{
    ClientKind, GoodbyeReason, Instant, PeerId, Subnet, SubnetDiscovery, SyncSubnetId,
};
use crate::peerdb::{PeerClass, PeerDB, PeerDBView};
use crate::score::Score;
use vstd::prelude::*;

verus! {

broadcast use vstd::std_specs::hash::group_hash_axioms;

/// A place in the order of the connected peers by score.
#[derive(Clone, Copy, Debug, PartialEq, Eq, Structural)]
pub enum ScoreQuantile {
    First,
    ThreeQuarters,
    Half,
    Quarter,
    Last,
}

/// The connected peers with a certain client, the best first.
#[derive(Debug)]
pub struct ClientPeers {
    pub kind: ClientKind,
    pub peers: Vec<PeerId>,
}

/// The peers whose scores the node's metrics are set from.
#[derive(Debug)]
pub struct ScoreMetrics {
    /// The peers at certain places in the order by score.
    pub distribution: Vec<(ScoreQuantile, PeerId)>,
    /// The connected peers by client, for the average score of each.
    pub per_client: Vec<ClientPeers>,
}

/// One before a place that is a fraction of `total`, or the first place.
pub open spec fn place(total: nat, numerator: nat, denominator: nat) -> int {
    let before = total * numerator / denominator - 1;
    if before < 0 {
        0
    } else {
        before
    }
}

/// The name of place `i` among `total`, if it has one.
pub open spec fn quantile(i: int, total: nat) -> Option<ScoreQuantile> {
    if i == 0 {
        Some(ScoreQuantile::First)
    } else if i == place(total, 3, 4) {
        Some(ScoreQuantile::ThreeQuarters)
    } else if i == place(total, 1, 2) {
        Some(ScoreQuantile::Half)
    } else if i == place(total, 1, 4) {
        Some(ScoreQuantile::Quarter)
    } else if i == place(total, 1, 1) {
        Some(ScoreQuantile::Last)
    } else {
        None
    }
}

/// The peers at the named ones of the first `n` places.
pub open spec fn distribution(best: Seq<PeerId>, n: nat) -> Seq<(ScoreQuantile, PeerId)>
    decreases n,
{
    if n == 0 {
        Seq::empty()
    } else {
        let rest = distribution(best, (n - 1) as nat);
        match quantile(n - 1, best.len()) {
            Some(quantile) => rest.push((quantile, best[n - 1])),
            None => rest,
        }
    }
}

impl PeerDBView {
    /// Those of the peers that run a certain client.
    pub open spec fn of_client(self, ids: Seq<PeerId>, kind: ClientKind) -> Seq<PeerId> {
        ids.filter(|id: PeerId| self.info(id).client.kind == kind)
    }

    /// The groups are the peers of `best` by client, none empty.
    pub open spec fn grouped_by_client(self, best: Seq<PeerId>, groups: Seq<ClientPeers>) -> bool {
        &&& forall|i: int|
            0 <= i < groups.len() ==> (#[trigger] groups[i]).peers@ == self.of_client(
                best,
                groups[i].kind,
            ) && groups[i].peers@.len() > 0
        &&& forall|i: int, j: int|
            0 <= i < j < groups.len() ==> (#[trigger] groups[i]).kind != (
            #[trigger] groups[j]).kind
        &&& forall|kind: ClientKind|
            #![trigger self.of_client(best, kind)]
            self.of_client(best, kind).len() > 0 ==> exists|i: int|
                0 <= i < groups.len() && (#[trigger] groups[i]).kind == kind
    }

    /// The metrics are those of the connected peers in an order by score.
    pub open spec fn measured(self, worst: Seq<PeerId>, metrics: ScoreMetrics) -> bool {
        let best = worst.reverse();
        &&& self.worst_first(worst)
        &&& metrics.distribution@ == distribution(best, best.len())
        &&& self.grouped_by_client(best, metrics.per_client@)
    }
}

impl ManagerView {
    /// The sync committee subnets that are still needed after `now`.
    pub open spec fn expire_subnets(self, now: Instant) -> ManagerView {
        let subnets = self.sync_committee_subnets;
        ManagerView {
            sync_committee_subnets: Map::new(
                |subnet: SyncSubnetId| subnets.contains_key(subnet) && subnets[subnet] > now,
                |subnet: SyncSubnetId| subnets[subnet],
            ),
            ..self
        }
    }

    /// A needed sync committee subnet has too few good peers.
    pub open spec fn lacks_subnet_peers(self, subnet: SyncSubnetId) -> bool {
        self.sync_committee_subnets.contains_key(subnet) && self.db.count(
            PeerClass::GoodOnSubnet(Subnet::SyncCommittee(subnet)),
        ) < self.target_subnet_peers
    }

    /// `subnets` lists the sync committee subnets with too few good peers, each once.
    pub open spec fn subnets_to_discover(self, subnets: Seq<SyncSubnetId>) -> bool {
        &&& subnets.no_duplicates()
        &&& forall|subnet: SyncSubnetId| #[trigger]
            subnets.contains(subnet) <==> self.lacks_subnet_peers(subnet)
    }

    /// The request to find peers on a needed sync committee subnet.
    pub open spec fn subnet_request(self, subnet: SyncSubnetId) -> SubnetDiscovery {
        SubnetDiscovery {
            subnet: Subnet::SyncCommittee(subnet),
            min_ttl: Some(self.sync_committee_subnets[subnet]),
        }
    }

    /// Subnets that are not needed any more are forgotten, and peers are looked for on `subnets`.
    pub open spec fn maintain_sync_committee_peers(
        self,
        now: Instant,
        subnets: Seq<SyncSubnetId>,
    ) -> ManagerView {
        let live = self.expire_subnets(now);
        if subnets.len() == 0 {
            live
        } else {
            live.push(
                EventView::DiscoverSubnetPeers(
                    subnets.map_values(|subnet: SyncSubnetId| live.subnet_request(subnet)),
                ),
            )
        }
    }

    /// How many of the peers are connected by connections only that we opened.
    pub open spec fn outbound_only_among(self, ids: Seq<PeerId>) -> nat {
        ids.filter(|id: PeerId| self.db.info(id).is_outbound_only()).len()
    }

    /// The peers to let go, of those in `worst` from the front: as many as there are more than the
    /// target, none that a duty needs, and of those by connections only that we opened as many as
    /// leaves the required number.
    pub open spec fn excess_peers(self, worst: Seq<PeerId>, now: Instant) -> Seq<PeerId>
        decreases worst.len(),
    {
        if worst.len() == 0 {
            Seq::empty()
        } else {
            let before = self.excess_peers(worst.drop_last(), now);
            if self.may_let_go(before, worst.last(), now) {
                before.push(worst.last())
            } else {
                before
            }
        }
    }

    /// One more peer may be let go besides those of `before`.
    pub open spec fn may_let_go(self, before: Seq<PeerId>, id: PeerId, now: Instant) -> bool {
        &&& before.len() < self.db.count(PeerClass::Connected) - self.target_peers
        &&& !self.db.info(id).has_future_duty(now)
        &&& self.db.info(id).is_outbound_only() ==> limits::spec_min_outbound_only(
            self.target_peers,
        ) < self.db.count(PeerClass::OutboundOnly) - self.outbound_only_among(before)
    }

    /// Peers are told to go for being too many.
    pub open spec fn disconnect_all(self, ids: Seq<PeerId>) -> ManagerView
        decreases ids.len(),
    {
        if ids.len() == 0 {
            self
        } else {
            self.disconnect_all(ids.drop_last()).disconnect_peer(
                ids.last(),
                GoodbyeReason::TooManyPeers,
            )
        }
    }

    /// More peers are looked for if there are too few, and scores change.
    pub open spec fn heartbeat_scores(self, updates: Seq<(PeerId, Score)>) -> ManagerView {
        let looked = if self.lacks_peers(self.target_peers as int) {
            self.push(EventView::DiscoverPeers)
        } else {
            self
        };
        looked.update_peer_scores(updates)
    }

    /// Then subnets are maintained, and peers that are too many are told to go, those with the
    /// worst scores first.
    pub open spec fn heartbeat(
        self,
        now: Instant,
        updates: Seq<(PeerId, Score)>,
        subnets: Seq<SyncSubnetId>,
        worst: Seq<PeerId>,
    ) -> ManagerView {
        let maintained = self.heartbeat_scores(updates).maintain_sync_committee_peers(
            now,
            subnets,
        );
        maintained.disconnect_all(maintained.excess_peers(worst, now))
    }
}

impl PeerManager {
    /// The sync committee subnets that peers are needed on, in no particular order.
    fn sync_subnets(&self) -> (subnets: Vec<SyncSubnetId>)
        ensures
            subnets@.no_duplicates(),
            subnets@.to_set() == self@.sync_committee_subnets.dom(),
    {
        let mut subnets: Vec<SyncSubnetId> = Vec::new();
        for subnet in it: self.sync_committee_subnets.keys()
            invariant
                subnets@ == it.seq().unref().take(it.index()),
                it.index() == it.seq().len() ==> subnets@ == it.seq().unref(),
                it.seq().no_duplicates(),
                it.seq().unref().to_set() == self.sync_committee_subnets@.dom(),
        {
            subnets.push(*subnet);
        }
        subnets
    }

    /// Forgets the sync committee subnets that are not needed after `now`.
    fn expire_subnets(&mut self, now: Instant)
        ensures
            final(self)@ == old(self)@.expire_subnets(now),
    {
        let subnets = self.sync_subnets();
        let mut i: usize = 0;
        while i < subnets.len()
            invariant
                i <= subnets.len(),
                subnets@.no_duplicates(),
                subnets@.to_set() == old(self)@.sync_committee_subnets.dom(),
                self@ == (ManagerView {
                    sync_committee_subnets: self@.sync_committee_subnets,
                    ..old(self)@
                }),
                forall|subnet: SyncSubnetId| #[trigger]
                    self@.sync_committee_subnets.contains_key(subnet) <==> old(
                        self,
                    )@.sync_committee_subnets.contains_key(subnet) && !(subnets@.take(
                        i as int,
                    ).contains(subnet) && old(self)@.sync_committee_subnets[subnet] <= now),
                forall|subnet: SyncSubnetId| #[trigger]
                    self@.sync_committee_subnets.contains_key(subnet)
                        ==> self@.sync_committee_subnets[subnet] == old(
                        self,
                    )@.sync_committee_subnets[subnet],
            decreases subnets.len() - i,
        {
            let subnet = subnets[i];
            proof {
                assert(subnets@.take(i + 1) =~= subnets@.take(i as int).push(subnet));
                assert(subnets@.to_set().contains(subnet));
                assert forall|other: SyncSubnetId| #[trigger]
                    subnets@.take(i + 1).contains(other) <==> subnets@.take(i as int).contains(
                        other,
                    ) || other == subnet by {
                    vstd::seq_lib::lemma_seq_contains_after_push(
                        subnets@.take(i as int),
                        subnet,
                        other,
                    );
                }
                assert(!subnets@.take(i as int).contains(subnet));
            }
            let expired = match self.sync_committee_subnets.get(&subnet) {
                Some(min_ttl) => *min_ttl <= now,
                None => false,
            };
            if expired {
                self.sync_committee_subnets.remove(&subnet);
            }
            i += 1;
        }
        proof {
            assert(subnets@.take(i as int) =~= subnets@);
            assert forall|subnet: SyncSubnetId|
                old(self)@.sync_committee_subnets.contains_key(subnet) implies subnets@.contains(
                subnet,
            ) by {
                assert(subnets@.to_set().contains(subnet));
            }
            assert(self@.sync_committee_subnets =~= old(self)@.expire_subnets(
                now,
            ).sync_committee_subnets);
        }
    }

    /// Run discovery queries for additional sync committee peers where these are too few.
    pub fn maintain_sync_committee_peers(&mut self, now: Instant)
        ensures
            exists|subnets: Seq<SyncSubnetId>| #[trigger]
                old(self)@.expire_subnets(now).subnets_to_discover(subnets) && final(self)@ == old(
                    self,
                )@.maintain_sync_committee_peers(now, subnets),
    {
        // Remove expired entries.
        self.expire_subnets(now);
        let ghost live = self@;
        let all = self.sync_subnets();
        let mut subnets: Ghost<Seq<SyncSubnetId>> = Ghost(Seq::empty());
        let mut requests: Vec<SubnetDiscovery> = Vec::new();
        let mut i: usize = 0;
        while i < all.len()
            invariant
                i <= all.len(),
                self@ == live,
                all@.no_duplicates(),
                all@.to_set() == live.sync_committee_subnets.dom(),
                subnets@.no_duplicates(),
                forall|subnet: SyncSubnetId| #[trigger]
                    subnets@.contains(subnet) <==> all@.take(i as int).contains(subnet)
                        && live.lacks_subnet_peers(subnet),
                requests@ == subnets@.map_values(
                    |subnet: SyncSubnetId| live.subnet_request(subnet),
                ),
            decreases all.len() - i,
        {
            let subnet = all[i];
            let ghost before = subnets@;
            assert(all@.to_set().contains(subnet));
            let good: usize = self.network_globals.peers.count(
                PeerClass::GoodOnSubnet(Subnet::SyncCommittee(subnet)),
            );
            if good < self.target_subnet_peers {
                if let Some(min_ttl) = self.sync_committee_subnets.get(&subnet) {
                    let min_ttl: Instant = *min_ttl;
                    requests.push(
                        SubnetDiscovery {
                            subnet: Subnet::SyncCommittee(subnet),
                            min_ttl: Some(min_ttl),
                        },
                    );
                    proof {
                        subnets@ = subnets@.push(subnet);
                    }
                }
            }
            proof {
                let seen = all@.take(i as int);
                assert(all@.take(i + 1) =~= seen.push(subnet));
                assert(!seen.contains(subnet));
                assert(!before.contains(subnet));
                assert forall|other: SyncSubnetId| #[trigger]
                    subnets@.contains(other) <==> all@.take(i + 1).contains(other)
                        && live.lacks_subnet_peers(other) by {
                    vstd::seq_lib::lemma_seq_contains_after_push(seen, subnet, other);
                    vstd::seq_lib::lemma_seq_contains_after_push(before, subnet, other);
                    assert(before.contains(other) <==> seen.contains(other)
                        && live.lacks_subnet_peers(other));
                }
            }
            i += 1;
        }
        proof {
            assert(all@.take(i as int) =~= all@);
            assert forall|subnet: SyncSubnetId| live.lacks_subnet_peers(
                subnet,
            ) implies all@.contains(subnet) by {
                assert(all@.to_set().contains(subnet));
            }
            assert(live.subnets_to_discover(subnets@));
        }
        // Request the subnet query from discovery.
        if requests.len() > 0 {
            self.events.push(PeerManagerEvent::DiscoverSubnetPeers(requests));
        }
    }

    /// The peers to let go for being more than the target, of the connected peers in the given
    /// order.
    pub fn excess_peers(&self, worst: &Vec<PeerId>, now: Instant) -> (disconnecting: Vec<PeerId>)
        ensures
            disconnecting@ == self@.excess_peers(worst@, now),
    {
        let mut disconnecting: Vec<PeerId> = Vec::new();
        let connected: usize = self.network_globals.peers.count(PeerClass::Connected);
        if connected <= self.target_peers {
            proof {
                lemma_no_excess(self@, worst@, now);
            }
            return disconnecting;
        }
        let excess: usize = connected - self.target_peers;
        let outbound_only: usize = self.network_globals.peers.count(PeerClass::OutboundOnly);
        let min_outbound_only: usize = limits::min_outbound_only(self.target_peers);
        let mut outbound_removed: usize = 0;
        let mut i: usize = 0;
        proof {
            reveal(Seq::filter);
            assert(self@.outbound_only_among(disconnecting@) == 0);
        }
        while i < worst.len()
            invariant
                i <= worst.len(),
                excess == self@.db.count(PeerClass::Connected) - self@.target_peers,
                outbound_only == self@.db.count(PeerClass::OutboundOnly),
                min_outbound_only == limits::spec_min_outbound_only(self@.target_peers),
                disconnecting@ == self@.excess_peers(worst@.take(i as int), now),
                outbound_removed == self@.outbound_only_among(disconnecting@),
                outbound_removed <= outbound_only,
            decreases worst.len() - i,
        {
            let peer_id = worst[i];
            let ghost before = disconnecting@;
            proof {
                assert(worst@.take(i + 1).drop_last() =~= worst@.take(i as int));
                before.lemma_filter_push(
                    peer_id,
                    |id: PeerId| self@.db.info(id).is_outbound_only(),
                );
            }
            let (needed, outbound) = match self.network_globals.peers.peer_info(peer_id) {
                Some(info) => (info.has_future_duty(now), info.is_outbound_only()),
                None => (false, false),
            };
            if !needed && disconnecting.len() < excess {
                if outbound {
                    if min_outbound_only < outbound_only - outbound_removed {
                        outbound_removed = outbound_removed + 1;
                        disconnecting.push(peer_id);
                    }
                } else {
                    disconnecting.push(peer_id);
                }
            }
            i += 1;
        }
        assert(worst@.take(i as int) =~= worst@);
        disconnecting
    }

    /// The Peer manager's heartbeat maintains the peer count and maintains peer reputations.
    ///
    /// It will request discovery queries if the peer count has not reached the desired number of
    /// overall peers, as well as the desired number of outbound-only peers.
    ///
    /// `updates` holds what time has made of the peers' scores. The peers are handed out whose
    /// scores the metrics are to be set from.
    pub fn heartbeat(&mut self, now: Instant, updates: &Vec<(PeerId, Score)>) -> (metrics:
        ScoreMetrics)
        ensures
            exists|worst: Seq<PeerId>| #[trigger]
                old(self)@.heartbeat_scores(updates@).db.measured(worst, metrics),
            exists|subnets: Seq<SyncSubnetId>, worst: Seq<PeerId>|
                #![trigger old(self)@.heartbeat(now, updates@, subnets, worst)]
                {
                    let scored = old(self)@.heartbeat_scores(updates@);
                    &&& scored.expire_subnets(now).subnets_to_discover(subnets)
                    &&& scored.db.worst_first(worst)
                    &&& final(self)@ == old(self)@.heartbeat(now, updates@, subnets, worst)
                },
    {
        if self.lacks_peers(self.target_peers) {
            // If we need more peers, queue a discovery lookup.
            self.events.push(PeerManagerEvent::DiscoverPeers);
        }
        // Updates peers' scores.
        self.update_peer_scores(updates);
        let ghost scored = self@;

        // Update peer score metrics.
        let metrics = self.update_peer_score_metrics();

        // Maintain minimum count for sync committee peers.
        self.maintain_sync_committee_peers(now);
        let ghost subnets = choose|subnets: Seq<SyncSubnetId>| #[trigger]
            scored.expire_subnets(now).subnets_to_discover(subnets) && self@
                == scored.maintain_sync_committee_peers(now, subnets);
        let ghost maintained = self@;

        // Remove excess peers with the worst scores, but keep subnet peers. Must also ensure that
        // the outbound-only peer count does not go below the minimum threshold.
        let worst = self.network_globals.peers.worst_connected_peers();
        let disconnecting = self.excess_peers(&worst, now);
        let mut i: usize = 0;
        while i < disconnecting.len()
            invariant
                i <= disconnecting.len(),
                self@ == maintained.disconnect_all(disconnecting@.take(i as int)),
            decreases disconnecting.len() - i,
        {
            assert(disconnecting@.take(i + 1).drop_last() =~= disconnecting@.take(i as int));
            self.disconnect_peer(disconnecting[i], GoodbyeReason::TooManyPeers);
            i += 1;
        }
        assert(disconnecting@.take(i as int) =~= disconnecting@);
        assert(self@ == old(self)@.heartbeat(now, updates@, subnets, worst@));
        metrics
    }

    /// The peers whose scores the metrics are to be set from.
    pub fn update_peer_score_metrics(&self) -> (metrics: ScoreMetrics)
        ensures
            exists|worst: Seq<PeerId>| #[trigger] self@.db.measured(worst, metrics),
    {
        let worst = self.network_globals.peers.worst_connected_peers();
        let mut best: Vec<PeerId> = Vec::new();
        let mut i: usize = worst.len();
        while i > 0
            invariant
                i <= worst.len(),
                best@.len() == worst@.len() - i,
                forall|j: int|
                    0 <= j < best@.len() ==> #[trigger] best@[j] == worst@[worst@.len() - 1 - j],
            decreases i,
        {
            i -= 1;
            best.push(worst[i]);
        }
        assert(best@ =~= worst@.reverse());
        let metrics = ScoreMetrics {
            distribution: score_distribution(&best),
            per_client: self.network_globals.peers.group_by_client(&best),
        };
        assert(self@.db.measured(worst@, metrics));
        metrics
    }
}

proof fn lemma_no_excess(view: ManagerView, worst: Seq<PeerId>, now: Instant)
    requires
        view.db.count(PeerClass::Connected) <= view.target_peers,
    ensures
        view.excess_peers(worst, now) == Seq::<PeerId>::empty(),
    decreases worst.len(),
{
    if worst.len() > 0 {
        lemma_no_excess(view, worst.drop_last(), now);
    }
}

fn place_before(total: usize, numerator: u128, denominator: u128) -> (before: usize)
    requires
        1 <= numerator <= denominator <= 4,
    ensures
        before == place(total as nat, numerator as nat, denominator as nat),
{
    let n: u128 = total as u128;
    proof {
        vstd::arithmetic::mul::lemma_mul_inequality(
            numerator as int,
            denominator as int,
            n as int,
        );
        vstd::arithmetic::mul::lemma_mul_inequality(denominator as int, 4, n as int);
        vstd::arithmetic::mul::lemma_mul_is_commutative(n as int, numerator as int);
        vstd::arithmetic::mul::lemma_mul_is_commutative(n as int, denominator as int);
        vstd::arithmetic::div_mod::lemma_div_is_ordered(
            n * numerator,
            n * denominator,
            denominator as int,
        );
        vstd::arithmetic::div_mod::lemma_div_by_multiple(n as int, denominator as int);
    }
    let part: u128 = n * numerator / denominator;
    if part == 0 {
        0
    } else {
        (part - 1) as usize
    }
}

/// The peers at the named places in an order by score, the best first.
pub fn score_distribution(best: &Vec<PeerId>) -> (peers: Vec<(ScoreQuantile, PeerId)>)
    ensures
        peers@ == distribution(best@, best@.len()),
{
    let total: usize = best.len();
    let three_quarters: usize = place_before(total, 3, 4);
    let half: usize = place_before(total, 1, 2);
    let quarter: usize = place_before(total, 1, 4);
    let last: usize = place_before(total, 1, 1);
    let mut peers: Vec<(ScoreQuantile, PeerId)> = Vec::new();
    let mut i: usize = 0;
    while i < total
        invariant
            i <= total,
            total == best@.len(),
            three_quarters == place(total as nat, 3, 4),
            half == place(total as nat, 1, 2),
            quarter == place(total as nat, 1, 4),
            last == place(total as nat, 1, 1),
            peers@ == distribution(best@, i as nat),
        decreases total - i,
    {
        if i == 0 {
            peers.push((ScoreQuantile::First, best[i]));
        } else if i == three_quarters {
            peers.push((ScoreQuantile::ThreeQuarters, best[i]));
        } else if i == half {
            peers.push((ScoreQuantile::Half, best[i]));
        } else if i == quarter {
            peers.push((ScoreQuantile::Quarter, best[i]));
        } else if i == last {
            peers.push((ScoreQuantile::Last, best[i]));
        }
        i += 1;
    }
    peers
}

impl PeerDB {
    fn client_kind(&self, id: PeerId) -> (kind: ClientKind)
        ensures
            kind == self@.info(id).client.kind,
    {
        match self.peer_info(id) {
            Some(info) => info.client.kind,
            None => ClientKind::Unknown,
        }
    }

    /// Those of the peers that run a certain client.
    fn of_client(&self, ids: &Vec<PeerId>, kind: ClientKind) -> (peers: Vec<PeerId>)
        ensures
            peers@ == self@.of_client(ids@, kind),
    {
        let mut peers: Vec<PeerId> = Vec::new();
        let mut i: usize = 0;
        proof {
            reveal(Seq::filter);
            assert(self@.of_client(ids@.take(0), kind) =~= peers@);
        }
        while i < ids.len()
            invariant
                i <= ids.len(),
                peers@ == self@.of_client(ids@.take(i as int), kind),
            decreases ids.len() - i,
        {
            let id = ids[i];
            proof {
                assert(ids@.take(i + 1) =~= ids@.take(i as int).push(id));
                ids@.take(i as int).lemma_filter_push(
                    id,
                    |id: PeerId| self@.info(id).client.kind == kind,
                );
            }
            if self.client_kind(id) == kind {
                peers.push(id);
            }
            i += 1;
        }
        assert(ids@.take(i as int) =~= ids@);
        peers
    }

    /// The peers by client.
    pub fn group_by_client(&self, best: &Vec<PeerId>) -> (groups: Vec<ClientPeers>)
        ensures
            self@.grouped_by_client(best@, groups@),
    {
        let kinds: Vec<ClientKind> = vec![
            ClientKind::Lighthouse,
            ClientKind::Nimbus,
            ClientKind::Teku,
            ClientKind::Prysm,
            ClientKind::Lodestar,
            ClientKind::Unknown,
        ];
        let mut groups: Vec<ClientPeers> = Vec::new();
        let mut i: usize = 0;
        while i < kinds.len()
            invariant
                i <= kinds.len(),
                kinds@ == seq![
                    ClientKind::Lighthouse,
                    ClientKind::Nimbus,
                    ClientKind::Teku,
                    ClientKind::Prysm,
                    ClientKind::Lodestar,
                    ClientKind::Unknown,
                ],
                forall|j: int|
                    0 <= j < groups@.len() ==> (#[trigger] groups@[j]).peers@ == self@.of_client(
                        best@,
                        groups@[j].kind,
                    ) && groups@[j].peers@.len() > 0 && kinds@.take(i as int).contains(
                        groups@[j].kind,
                    ),
                forall|j: int, k: int|
                    0 <= j < k < groups@.len() ==> (#[trigger] groups@[j]).kind != (
                    #[trigger] groups@[k]).kind,
                forall|j: int|
                    0 <= j < i && self@.of_client(best@, #[trigger] kinds@[j]).len() > 0
                        ==> exists|k: int|
                        0 <= k < groups@.len() && (#[trigger] groups@[k]).kind == kinds@[j],
            decreases kinds.len() - i,
        {
            let kind = kinds[i];
            let ghost before = groups@;
            let peers = self.of_client(best, kind);
            if peers.len() > 0 {
                groups.push(ClientPeers { kind, peers });
                assert(groups@[before.len() as int].kind == kind);
            }
            proof {
                let seen = kinds@.take(i as int);
                assert(kinds@.take(i + 1) =~= seen.push(kind));
                assert(!seen.contains(kind));
                let more = kinds@.take(i + 1);
                assert forall|other: ClientKind| seen.contains(
                    other,
                ) implies #[trigger] more.contains(other) by {
                    vstd::seq_lib::lemma_seq_contains_after_push(seen, kind, other);
                }
                vstd::seq_lib::lemma_seq_contains_after_push(seen, kind, kind);
                assert forall|j: int|
                    0 <= j < i + 1 && self@.of_client(
                        best@,
                        #[trigger] kinds@[j],
                    ).len() > 0 implies exists|k: int|
                    0 <= k < groups@.len() && (#[trigger] groups@[k]).kind == kinds@[j] by {
                    if j < i {
                        let k = choose|k: int|
                            0 <= k < before.len() && (#[trigger] before[k]).kind == kinds@[j];
                        assert(groups@[k].kind == kinds@[j]);
                    }
                }
            }
            i += 1;
        }
        assert forall|kind: ClientKind|
            #![trigger self@.of_client(best@, kind)]
            self@.of_client(best@, kind).len() > 0 implies exists|k: int|
            0 <= k < groups@.len() && (#[trigger] groups@[k]).kind == kind by {
            let j: int = match kind {
                ClientKind::Lighthouse => 0,
                ClientKind::Nimbus => 1,
                ClientKind::Teku => 2,
                ClientKind::Prysm => 3,
                ClientKind::Lodestar => 4,
                ClientKind::Unknown => 5,
            };
            assert(kinds@[j] == kind);
        }
        groups
    }
}

} // verus!
