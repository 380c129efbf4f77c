//! Which discovered peers to dial, and when to look for more.

use crate::event::{EventView, PeerManagerEvent};
use crate::limits;
use crate::manager::{ManagerView, PeerManager};
use crate::network::{Instant, PeerId};
use crate::peerdb::{PeerClass, PeerDBView};
use vstd::prelude::*;

verus! {

impl ManagerView {
    /// Discovery is to look for more peers: fewer than `wanted` are connected or being dialed, or
    /// too few by connections only that we opened.
    pub open spec fn lacks_peers(self, wanted: int) -> bool {
        self.discovery_enabled && (self.db.count(PeerClass::ConnectedOrDialing) < wanted
            || self.db.count(PeerClass::OutboundOnly) < limits::spec_min_outbound_only(
            self.target_peers,
        ))
    }

    /// There is room to dial one more peer after `dialed` others: up to the usual limit, and up to
    /// a higher one for a peer that a duty needs.
    pub open spec fn has_room(self, dialed: nat, min_ttl: Option<Instant>) -> bool {
        let occupied = self.db.count(PeerClass::ConnectedOrDialing) + dialed;
        (min_ttl is Some && occupied < limits::spec_max_priority_peers(self.target_peers))
            || occupied < limits::spec_max_peers(self.target_peers)
    }

    /// Which of the discovered peers to dial, in their order, and what is then known of the peers.
    pub open spec fn dial_discovered(self, results: Seq<(PeerId, Option<Instant>)>) -> (
        PeerDBView,
        Seq<PeerId>,
    )
        decreases results.len(),
    {
        if results.len() == 0 {
            (self.db, Seq::empty())
        } else {
            let (db, dialed) = self.dial_discovered(results.drop_last());
            let (id, min_ttl) = results.last();
            if self.has_room(dialed.len(), min_ttl) && db.should_dial(id) {
                (
                    match min_ttl {
                        Some(min_ttl) => db.with_info(id, db.info(id).needed_until(min_ttl)),
                        None => db,
                    },
                    dialed.push(id),
                )
            } else {
                (db, dialed)
            }
        }
    }

    /// The discovered peers that are worth it are to be dialed, and more are looked for if those
    /// are too few.
    pub open spec fn peers_discovered(
        self,
        results: Seq<(PeerId, Option<Instant>)>,
    ) -> ManagerView {
        let (db, dialed) = self.dial_discovered(results);
        let noted = ManagerView { db, ..self };
        if noted.lacks_peers(self.target_peers - dialed.len()) {
            noted.push(EventView::DiscoverPeers)
        } else {
            noted
        }
    }
}

impl PeerManager {
    /// Discovery is to look for more peers.
    pub fn lacks_peers(&self, wanted: usize) -> (r: bool)
        ensures
            r == self@.lacks_peers(wanted as int),
    {
        let peer_count: usize = self.network_globals.peers.count(PeerClass::ConnectedOrDialing);
        let outbound_only: usize = self.network_globals.peers.count(PeerClass::OutboundOnly);
        self.discovery_enabled && (peer_count < wanted || outbound_only
            < limits::min_outbound_only(self.target_peers))
    }

    /// Peers that have been returned by discovery requests that are suitable for dialing are
    /// returned here.
    ///
    /// There are two conditions in deciding whether to dial a peer. Either we are less than our max
    /// connections: discovery queries are executed to reach our target peers, so it is fine to dial
    /// up to our max peers, which will get pruned in the next heartbeat down to our target. Or the
    /// peer is one that our validators require for a specific subnet: some extra slots are
    /// allocated for those.
    pub fn peers_discovered(&mut self, results: &Vec<(PeerId, Option<Instant>)>) -> (to_dial: Vec<
        PeerId,
    >)
        ensures
            to_dial@ == old(self)@.dial_discovered(results@).1,
            final(self)@ == old(self)@.peers_discovered(results@),
    {
        let mut to_dial: Vec<PeerId> = Vec::new();
        let connected_or_dialing: usize = self.network_globals.peers.count(
            PeerClass::ConnectedOrDialing,
        );
        let max_peers: usize = self.max_peers();
        let max_priority_peers: usize = self.max_priority_peers();
        let mut i: usize = 0;
        assert(results@.take(0) =~= Seq::empty());
        while i < results.len()
            invariant
                i <= results.len(),
                connected_or_dialing == old(self)@.db.count(PeerClass::ConnectedOrDialing),
                max_peers == limits::spec_max_peers(old(self)@.target_peers),
                max_priority_peers == limits::spec_max_priority_peers(old(self)@.target_peers),
                connected_or_dialing + to_dial@.len() <= usize::MAX,
                to_dial@ == old(self)@.dial_discovered(results@.take(i as int)).1,
                self@ == (ManagerView {
                    db: old(self)@.dial_discovered(results@.take(i as int)).0,
                    ..old(self)@
                }),
            decreases results.len() - i,
        {
            let (peer_id, min_ttl) = results[i];
            let occupied: usize = connected_or_dialing + to_dial.len();
            assert(results@.take(i + 1).drop_last() =~= results@.take(i as int));
            if ((min_ttl.is_some() && occupied < max_priority_peers) || occupied < max_peers)
                && self.network_globals.peers.should_dial(peer_id) {
                if let Some(min_ttl) = min_ttl {
                    self.network_globals.peers.update_min_ttl(peer_id, min_ttl);
                }
                to_dial.push(peer_id);
            }
            i += 1;
        }
        assert(results@.take(i as int) =~= results@);

        // Queue another discovery if we need to.
        let dialed: usize = to_dial.len();
        let wanted: usize = if dialed <= self.target_peers {
            self.target_peers - dialed
        } else {
            0
        };
        if self.lacks_peers(wanted) {
            self.events.push(PeerManagerEvent::DiscoverPeers);
        }
        to_dial
    }
}

} // verus!
