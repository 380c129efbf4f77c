//! The peers that are known, and which of them are banned.

use crate::network::{enr_view, ConnectionDirection, Enr, Instant, IpAddr, PeerId, Subnet};
use crate::peer_info::{has_ip, PeerConnectionStatus, PeerInfo, PeerInfoView};
use crate::score::{Score, ScoreState};
use std::collections::HashMap;
use vstd::prelude::*;

verus! {

broadcast use vstd::std_specs::hash::group_hash_axioms;

/// A kind of peer that is counted.
#[derive(Clone, Copy, Debug, PartialEq, Eq, Structural)]
pub enum PeerClass {
    /// Connected peers.
    Connected,
    /// Connected peers, and peers that we are dialing.
    ConnectedOrDialing,
    /// Peers connected by connections only that we opened.
    OutboundOnly,
    /// Connected peers with a good gossipsub score that are subscribed to the subnet.
    GoodOnSubnet(Subnet),
    /// Banned peers that were seen on the IP address.
    BannedOn(IpAddr),
}

/// Whether a peer is banned, and why.
#[derive(Clone, Copy, Debug, PartialEq, Eq, Structural)]
pub enum BanResult {
    /// Its score is too bad.
    BadScore,
    /// It was seen on a banned IP address.
    BannedIp(IpAddr),
    /// It is not banned.
    NotBanned,
}

/// What is left to do to ban a peer.
#[derive(Clone, Copy, Debug, PartialEq, Eq, Structural)]
pub enum BanOperation {
    /// The peer is connected and has to be disconnected first.
    DisconnectThePeer,
    /// The peer is being disconnected and will be banned once that is done.
    PeerDisconnecting,
    /// The peer is not connected and can be banned.
    ReadyToBan,
}

/// Why a peer was not unbanned.
#[derive(Clone, Copy, Debug, PartialEq, Eq, Structural)]
pub enum UnbanError {
    /// The peer is not banned.
    NotBanned,
    /// The peer's score still bans it.
    BadScore,
}

/// The known peers.
#[derive(Debug)]
pub struct PeerDB {
    /// What is known of each peer.
    pub peers: HashMap<PeerId, PeerInfo>,
    /// An IP address is banned once more than this many banned peers were seen on it.
    pub banned_peers_per_ip: usize,
}

/// The value of a [`PeerDB`].
pub struct PeerDBView {
    pub peers: Map<PeerId, PeerInfoView>,
    pub banned_peers_per_ip: usize,
}

impl View for PeerDB {
    type V = PeerDBView;

    open spec fn view(&self) -> PeerDBView {
        PeerDBView {
            peers: self.peers@.map_values(|info: PeerInfo| info@),
            banned_peers_per_ip: self.banned_peers_per_ip,
        }
    }
}

/// The peer is of the class.
pub open spec fn belongs(info: PeerInfoView, class: PeerClass) -> bool {
    match class {
        PeerClass::Connected => info.is_connected(),
        PeerClass::ConnectedOrDialing => info.is_connected_or_dialing(),
        PeerClass::OutboundOnly => info.is_outbound_only(),
        PeerClass::GoodOnSubnet(subnet) => info.is_connected() && info.subnets.contains(subnet)
            && info.score.good_gossipsub,
        PeerClass::BannedOn(ip) => info.is_banned() && info.seen_addresses.contains(ip),
    }
}

impl PeerDBView {
    /// The peer is known.
    pub open spec fn knows(self, id: PeerId) -> bool {
        self.peers.contains_key(id)
    }

    /// What is known of a peer, be it nothing.
    pub open spec fn info(self, id: PeerId) -> PeerInfoView {
        if self.knows(id) {
            self.peers[id]
        } else {
            PeerInfoView::unknown()
        }
    }

    /// The same, but for one peer.
    pub open spec fn with_info(self, id: PeerId, info: PeerInfoView) -> PeerDBView {
        PeerDBView { peers: self.peers.insert(id, info), ..self }
    }

    /// The known peers of a class.
    pub open spec fn members(self, class: PeerClass) -> Set<PeerId> {
        Set::new(|id: PeerId| self.knows(id) && belongs(self.peers[id], class))
    }

    /// How many known peers are of a class.
    pub open spec fn count(self, class: PeerClass) -> nat {
        self.members(class).len()
    }

    /// The peer is known and connected.
    pub open spec fn is_connected(self, id: PeerId) -> bool {
        self.knows(id) && self.peers[id].is_connected()
    }

    /// The IP address is banned.
    pub open spec fn ip_banned(self, ip: IpAddr) -> bool {
        self.count(PeerClass::BannedOn(ip)) > self.banned_peers_per_ip
    }

    /// The banned ones of some IP addresses.
    pub open spec fn banned_ips(self, ips: Seq<IpAddr>) -> Seq<IpAddr> {
        ips.filter(|ip: IpAddr| self.ip_banned(ip))
    }

    /// Whether a peer is banned, and why.
    pub open spec fn ban_status(self, id: PeerId) -> BanResult {
        if !self.knows(id) {
            BanResult::NotBanned
        } else if self.peers[id].score.state is Banned {
            BanResult::BadScore
        } else if self.banned_ips(self.peers[id].seen_addresses).len() > 0 {
            BanResult::BannedIp(self.banned_ips(self.peers[id].seen_addresses)[0])
        } else {
            BanResult::NotBanned
        }
    }

    /// The peer is neither with us nor out of favour, so that dialing it makes sense.
    pub open spec fn should_dial(self, id: PeerId) -> bool {
        let status = self.info(id).connection_status;
        &&& status is Disconnected || status is Unknown
        &&& self.info(id).score.state is Healthy
        &&& self.ban_status(id) is NotBanned
    }

    /// We are dialing a peer.
    pub open spec fn dialing_peer(self, id: PeerId, enr: Option<Seq<char>>) -> PeerDBView {
        self.with_info(id, PeerInfoView { enr, ..self.info(id) }.dialing())
    }

    /// A connection to or from a peer was opened.
    pub open spec fn connected_peer(
        self,
        id: PeerId,
        direction: ConnectionDirection,
        ip: Option<IpAddr>,
        enr: Option<Seq<char>>,
    ) -> PeerDBView {
        self.with_info(
            id,
            PeerInfoView { enr, ..self.info(id) }.one_more_connection(direction).seen_on(ip),
        )
    }

    /// A peer is being disconnected, and is to be banned afterwards or not.
    pub open spec fn notify_disconnecting(self, id: PeerId, to_ban: bool) -> PeerDBView {
        self.with_info(
            id,
            self.info(id).with_status(PeerConnectionStatus::Disconnecting { to_ban }),
        )
    }

    /// A peer's connection ended.
    pub open spec fn disconnected_peer(self, id: PeerId) -> PeerDBView {
        self.with_info(id, self.info(id).disconnected())
    }

    /// A peer is to be banned: its score becomes one that bans it, and so does its standing,
    /// once it is not connected.
    pub open spec fn disconnect_and_ban(self, id: PeerId) -> PeerDBView {
        let info = self.info(id);
        let scored = if info.score.state is Banned {
            info
        } else {
            info.with_score(info.score.spec_fatal())
        };
        self.with_info(
            id,
            match self.ban_operation(id) {
                BanOperation::ReadyToBan => scored.with_status(PeerConnectionStatus::Banned),
                _ => scored.with_status(PeerConnectionStatus::Disconnecting { to_ban: true }),
            },
        )
    }

    /// What is left to do to ban a peer.
    pub open spec fn ban_operation(self, id: PeerId) -> BanOperation {
        match self.info(id).connection_status {
            PeerConnectionStatus::Connected { .. }
            | PeerConnectionStatus::Dialing => BanOperation::DisconnectThePeer,
            PeerConnectionStatus::Disconnecting { .. } => BanOperation::PeerDisconnecting,
            _ => BanOperation::ReadyToBan,
        }
    }

    /// Why a peer cannot be unbanned, if so.
    pub open spec fn unban_refusal(self, id: PeerId) -> Option<UnbanError> {
        if !self.info(id).is_banned() {
            Some(UnbanError::NotBanned)
        } else if self.info(id).score.state is Banned {
            Some(UnbanError::BadScore)
        } else {
            None
        }
    }

    /// `order` lists the connected peers, each once, none before one with a lower score.
    pub open spec fn worst_first(self, order: Seq<PeerId>) -> bool {
        &&& order.no_duplicates()
        &&& order.to_set() == self.members(PeerClass::Connected)
        &&& forall|i: int, j: int|
            0 <= i <= j < order.len() ==> self.peers[#[trigger] order[i]].score.rank
                <= self.peers[#[trigger] order[j]].score.rank
    }
}

proof fn lemma_insert(ids: Seq<PeerId>, at: int, id: PeerId)
    requires
        ids.no_duplicates(),
        !ids.contains(id),
        0 <= at <= ids.len(),
    ensures
        ids.insert(at, id).no_duplicates(),
        ids.insert(at, id).to_set() == ids.to_set().insert(id),
{
    let longer = ids.insert(at, id);
    assert(longer[at] == id);
    assert forall|other: PeerId| ids.contains(other) implies longer.contains(other) by {
        let i = choose|i: int| 0 <= i < ids.len() && ids[i] == other;
        assert(longer[if i < at { i } else { i + 1 }] == other);
    }
    assert(longer.to_set() =~= ids.to_set().insert(id));
}

impl PeerDB {
    /// No peers.
    pub fn new(banned_peers_per_ip: usize) -> (db: PeerDB)
        ensures
            db@ == (PeerDBView { peers: Map::empty(), banned_peers_per_ip }),
    {
        let db = PeerDB { peers: HashMap::new(), banned_peers_per_ip };
        assert(db@.peers =~= Map::empty());
        db
    }

    /// What is known of a peer.
    pub fn peer_info(&self, id: PeerId) -> (info: Option<&PeerInfo>)
        ensures
            info is Some == self@.knows(id),
            info is Some ==> info->0@ == self@.peers[id],
    {
        self.peers.get(&id)
    }

    /// Takes out what is known of a peer, be it nothing.
    pub fn take_info(&mut self, id: PeerId) -> (info: PeerInfo)
        ensures
            info@ == old(self)@.info(id),
            final(self)@ == (PeerDBView { peers: old(self)@.peers.remove(id), ..old(self)@ }),
    {
        let taken = self.peers.remove(&id);
        assert(self@.peers =~= old(self)@.peers.remove(id));
        match taken {
            Some(info) => info,
            None => PeerInfo::unknown(),
        }
    }

    /// Puts down what is known of a peer.
    pub fn put_info(&mut self, id: PeerId, info: PeerInfo)
        ensures
            final(self)@ == old(self)@.with_info(id, info@),
    {
        self.peers.insert(id, info);
        assert(self@.peers =~= old(self)@.peers.insert(id, info@));
    }

    /// The known peers, in no particular order.
    pub fn peer_ids(&self) -> (ids: Vec<PeerId>)
        ensures
            ids@.no_duplicates(),
            ids@.to_set() == self@.peers.dom(),
    {
        let mut ids: Vec<PeerId> = Vec::new();
        for id in it: self.peers.keys()
            invariant
                ids@ == it.seq().unref().take(it.index()),
                it.index() == it.seq().len() ==> ids@ == it.seq().unref(),
                it.seq().no_duplicates(),
                it.seq().unref().to_set() == self.peers@.dom(),
        {
            ids.push(*id);
        }
        ids
    }

    /// The peer is of the class.
    fn is_member(&self, id: PeerId, class: PeerClass) -> (r: bool)
        ensures
            r == self@.members(class).contains(id),
    {
        match self.peer_info(id) {
            Some(info) => match class {
                PeerClass::Connected => info.is_connected(),
                PeerClass::ConnectedOrDialing => info.is_connected_or_dialing(),
                PeerClass::OutboundOnly => info.is_outbound_only(),
                PeerClass::GoodOnSubnet(subnet) => info.is_connected() && info.on_subnet(subnet)
                    && info.score.good_gossipsub,
                PeerClass::BannedOn(ip) => info.is_banned() && has_ip(&info.seen_addresses, ip),
            },
            None => false,
        }
    }

    /// The known peers of a class, in no particular order.
    pub fn members_of(&self, class: PeerClass) -> (ids: Vec<PeerId>)
        ensures
            ids@.no_duplicates(),
            ids@.to_set() == self@.members(class),
    {
        let all = self.peer_ids();
        let mut ids: Vec<PeerId> = Vec::new();
        let mut i: usize = 0;
        while i < all.len()
            invariant
                i <= all.len(),
                all@.no_duplicates(),
                ids@.no_duplicates(),
                forall|id: PeerId| #[trigger]
                    ids@.contains(id) <==> all@.take(i as int).contains(id) && self@.members(
                        class,
                    ).contains(id),
            decreases all.len() - i,
        {
            let id = all[i];
            let ghost before = ids@;
            if self.is_member(id, class) {
                ids.push(id);
            }
            proof {
                let seen = all@.take(i as int);
                assert(all@.take(i + 1) =~= seen.push(id));
                assert(!seen.contains(id));
                assert(!before.contains(id));
                assert forall|other: PeerId| #[trigger]
                    ids@.contains(other) <==> all@.take(i + 1).contains(other) && self@.members(
                        class,
                    ).contains(other) by {
                    vstd::seq_lib::lemma_seq_contains_after_push(seen, id, other);
                    vstd::seq_lib::lemma_seq_contains_after_push(before, id, other);
                    assert(before.contains(other) <==> seen.contains(other) && self@.members(
                        class,
                    ).contains(other));
                }
            }
            i += 1;
        }
        proof {
            assert(all@.take(i as int) =~= all@);
            assert forall|id: PeerId| self@.members(class).contains(id) implies all@.contains(
                id,
            ) by {
                assert(all@.to_set().contains(id));
            }
            assert(ids@.to_set() =~= self@.members(class));
        }
        ids
    }

    /// How many known peers are of a class.
    pub fn count(&self, class: PeerClass) -> (n: usize)
        ensures
            n == self@.count(class),
    {
        let ids = self.members_of(class);
        proof {
            ids@.unique_seq_to_set();
        }
        ids.len()
    }

    /// The peer is known and connected.
    pub fn is_connected(&self, id: PeerId) -> (r: bool)
        ensures
            r == self@.is_connected(id),
    {
        match self.peer_info(id) {
            Some(info) => info.is_connected(),
            None => false,
        }
    }

    /// The peer is known, and connected or being disconnected.
    pub fn is_connected_or_disconnecting(&self, id: PeerId) -> (r: bool)
        ensures
            r == (self@.knows(id) && self@.peers[id].is_connected_or_disconnecting()),
    {
        match self.peer_info(id) {
            Some(info) => info.is_connected_or_disconnecting(),
            None => false,
        }
    }

    /// The IP address is banned.
    pub fn is_ip_banned(&self, ip: IpAddr) -> (r: bool)
        ensures
            r == self@.ip_banned(ip),
    {
        self.count(PeerClass::BannedOn(ip)) > self.banned_peers_per_ip
    }

    /// The banned ones of some IP addresses.
    pub fn banned_ips(&self, ips: &Vec<IpAddr>) -> (banned: Vec<IpAddr>)
        ensures
            banned@ == self@.banned_ips(ips@),
    {
        let mut banned: Vec<IpAddr> = Vec::new();
        let mut i: usize = 0;
        proof {
            reveal(Seq::filter);
            assert(self@.banned_ips(ips@.take(0)) =~= banned@);
        }
        while i < ips.len()
            invariant
                i <= ips.len(),
                banned@ == self@.banned_ips(ips@.take(i as int)),
            decreases ips.len() - i,
        {
            let ip = ips[i];
            if self.is_ip_banned(ip) {
                banned.push(ip);
            }
            proof {
                reveal(Seq::filter);
                assert(ips@.take(i + 1).drop_last() =~= ips@.take(i as int));
            }
            i += 1;
        }
        assert(ips@.take(i as int) =~= ips@);
        banned
    }

    /// Whether a peer is banned, and why.
    pub fn ban_status(&self, id: PeerId) -> (result: BanResult)
        ensures
            result == self@.ban_status(id),
    {
        match self.peer_info(id) {
            Some(info) => if info.score.state == ScoreState::Banned {
                BanResult::BadScore
            } else {
                let banned = self.banned_ips(&info.seen_addresses);
                if banned.len() > 0 {
                    BanResult::BannedIp(banned[0])
                } else {
                    BanResult::NotBanned
                }
            },
            None => BanResult::NotBanned,
        }
    }

    /// The peer is neither with us nor out of favour, so that dialing it makes sense.
    pub fn should_dial(&self, id: PeerId) -> (r: bool)
        ensures
            r == self@.should_dial(id),
    {
        match self.peer_info(id) {
            Some(info) => {
                let away = matches!(
                    info.connection_status,
                    PeerConnectionStatus::Disconnected | PeerConnectionStatus::Unknown
                );
                away && info.score.state == ScoreState::Healthy && self.ban_status(id)
                    == BanResult::NotBanned
            },
            None => true,
        }
    }

    /// Gives a known peer another score. Tells whether the peer is known.
    pub fn set_score(&mut self, id: PeerId, score: Score) -> (known: bool)
        ensures
            known == old(self)@.knows(id),
            known ==> final(self)@ == old(self)@.with_info(
                id,
                old(self)@.peers[id].with_score(score),
            ),
            !known ==> final(self)@ == old(self)@,
    {
        if self.peer_info(id).is_none() {
            return false;
        }
        let mut info = self.take_info(id);
        info.score = score;
        self.put_info(id, info);
        assert(self@.peers =~= old(self)@.with_info(
            id,
            old(self)@.peers[id].with_score(score),
        ).peers);
        true
    }

    /// A duty needs a peer until `min_ttl` at least.
    pub fn update_min_ttl(&mut self, id: PeerId, min_ttl: Instant)
        ensures
            final(self)@ == old(self)@.with_info(id, old(self)@.info(id).needed_until(min_ttl)),
    {
        let mut info = self.take_info(id);
        info.update_min_ttl(min_ttl);
        self.put_info(id, info);
        assert(self@.peers =~= old(self)@.peers.insert(
            id,
            old(self)@.info(id).needed_until(min_ttl),
        ));
    }

    /// We are dialing a peer.
    pub fn dialing_peer(&mut self, id: PeerId, enr: Option<Enr>)
        ensures
            final(self)@ == old(self)@.dialing_peer(id, enr_view(enr)),
    {
        let mut info = self.take_info(id);
        info.enr = enr;
        info.dialing_peer();
        self.put_info(id, info);
        assert(self@.peers =~= old(self)@.dialing_peer(id, enr_view(enr)).peers);
    }

    /// A peer opened a connection.
    pub fn connect_ingoing(&mut self, id: PeerId, ip: Option<IpAddr>, enr: Option<Enr>)
        ensures
            final(self)@ == old(self)@.connected_peer(
                id,
                ConnectionDirection::Incoming,
                ip,
                enr_view(enr),
            ),
    {
        let mut info = self.take_info(id);
        info.enr = enr;
        info.connect_ingoing(ip);
        self.put_info(id, info);
        assert(self@.peers =~= old(self)@.connected_peer(
            id,
            ConnectionDirection::Incoming,
            ip,
            enr_view(enr),
        ).peers);
    }

    /// We opened a connection to a peer.
    pub fn connect_outgoing(&mut self, id: PeerId, ip: Option<IpAddr>, enr: Option<Enr>)
        ensures
            final(self)@ == old(self)@.connected_peer(
                id,
                ConnectionDirection::Outgoing,
                ip,
                enr_view(enr),
            ),
    {
        let mut info = self.take_info(id);
        info.enr = enr;
        info.connect_outgoing(ip);
        self.put_info(id, info);
        assert(self@.peers =~= old(self)@.connected_peer(
            id,
            ConnectionDirection::Outgoing,
            ip,
            enr_view(enr),
        ).peers);
    }

    /// A peer is being disconnected, and is to be banned afterwards or not.
    pub fn notify_disconnecting(&mut self, id: PeerId, to_ban: bool)
        ensures
            final(self)@ == old(self)@.notify_disconnecting(id, to_ban),
    {
        let mut info = self.take_info(id);
        info.disconnecting(to_ban);
        self.put_info(id, info);
        assert(self@.peers =~= old(self)@.notify_disconnecting(id, to_ban).peers);
    }

    /// A peer's connection ended. Tells whether the peer is to be banned now.
    pub fn inject_disconnect(&mut self, id: PeerId) -> (to_ban: bool)
        ensures
            final(self)@ == old(self)@.disconnected_peer(id),
            to_ban == old(self)@.info(id).awaits_ban(),
    {
        let mut info = self.take_info(id);
        let to_ban = info.notify_disconnect();
        self.put_info(id, info);
        assert(self@.peers =~= old(self)@.disconnected_peer(id).peers);
        to_ban
    }

    /// A peer is to be banned. Tells what is left to do.
    pub fn disconnect_and_ban(&mut self, id: PeerId) -> (operation: BanOperation)
        ensures
            final(self)@ == old(self)@.disconnect_and_ban(id),
            operation == old(self)@.ban_operation(id),
    {
        let mut info = self.take_info(id);
        if info.score.state != ScoreState::Banned {
            info.score = info.score.fatal();
        }
        let operation = match info.connection_status {
            PeerConnectionStatus::Connected { .. } | PeerConnectionStatus::Dialing => {
                info.disconnecting(true);
                BanOperation::DisconnectThePeer
            },
            PeerConnectionStatus::Disconnecting { .. } => {
                info.disconnecting(true);
                BanOperation::PeerDisconnecting
            },
            _ => {
                info.connection_status = PeerConnectionStatus::Banned;
                BanOperation::ReadyToBan
            },
        };
        self.put_info(id, info);
        assert(self@.peers =~= old(self)@.disconnect_and_ban(id).peers);
        operation
    }

    /// Lifts the ban of a peer whose score allows it: the peer then counts as disconnected.
    pub fn unban(&mut self, id: PeerId) -> (result: Result<(), UnbanError>)
        ensures
            match old(self)@.unban_refusal(id) {
                Some(error) => result == Err::<(), UnbanError>(error) && final(self)@
                    == old(self)@,
                None => result is Ok && final(self)@ == old(self)@.with_info(
                    id,
                    old(self)@.peers[id].with_status(PeerConnectionStatus::Disconnected),
                ),
            },
    {
        let refusal = match self.peer_info(id) {
            Some(info) => if !info.is_banned() {
                Some(UnbanError::NotBanned)
            } else if info.score.state == ScoreState::Banned {
                Some(UnbanError::BadScore)
            } else {
                None
            },
            None => Some(UnbanError::NotBanned),
        };
        if let Some(error) = refusal {
            return Err(error);
        }
        let mut info = self.take_info(id);
        info.connection_status = PeerConnectionStatus::Disconnected;
        self.put_info(id, info);
        assert(self@.peers =~= old(self)@.peers.insert(
            id,
            old(self)@.peers[id].with_status(PeerConnectionStatus::Disconnected),
        ));
        Ok(())
    }

    fn rank(&self, id: PeerId) -> (rank: i64)
        requires
            self@.knows(id),
        ensures
            rank == self@.peers[id].score.rank,
    {
        match self.peer_info(id) {
            Some(info) => info.score.rank,
            None => 0,
        }
    }

    /// The connected peers, those with the lowest scores first.
    pub fn worst_connected_peers(&self) -> (order: Vec<PeerId>)
        ensures
            self@.worst_first(order@),
    {
        let ids = self.members_of(PeerClass::Connected);
        let mut order: Vec<PeerId> = Vec::new();
        let mut i: usize = 0;
        while i < ids.len()
            invariant
                i <= ids.len(),
                ids@.no_duplicates(),
                ids@.to_set() == self@.members(PeerClass::Connected),
                order@.no_duplicates(),
                order@.to_set() == ids@.take(i as int).to_set(),
                forall|a: int, b: int|
                    0 <= a <= b < order@.len() ==> self@.peers[#[trigger] order@[a]].score.rank
                        <= self@.peers[#[trigger] order@[b]].score.rank,
            decreases ids.len() - i,
        {
            let id = ids[i];
            proof {
                let listed = ids@.take(i as int);
                assert(ids@.to_set().contains(id));
                assert(ids@.take(i + 1) =~= listed.push(id));
                listed.lemma_push_to_set_commute(id);
                assert forall|a: int| 0 <= a < order@.len() implies self@.knows(
                    #[trigger] order@[a],
                ) && order@[a] != id by {
                    assert(order@.to_set().contains(order@[a]));
                    let j = choose|j: int| 0 <= j < listed.len() && listed[j] == order@[a];
                    assert(ids@[j] == order@[a]);
                    assert(ids@.to_set().contains(ids@[j]));
                }
                assert(!order@.contains(id));
            }
            let mut at: usize = 0;
            while at < order.len() && self.rank(order[at]) <= self.rank(id)
                invariant
                    at <= order.len(),
                    self@.knows(id),
                    forall|a: int| 0 <= a < order@.len() ==> self@.knows(#[trigger] order@[a]),
                    forall|a: int|
                        0 <= a < at ==> self@.peers[#[trigger] order@[a]].score.rank
                            <= self@.peers[id].score.rank,
                decreases order.len() - at,
            {
                at += 1;
            }
            let ghost before = order@;
            order.insert(at, id);
            proof {
                lemma_insert(before, at as int, id);
            }
            i += 1;
        }
        assert(ids@.take(i as int) =~= ids@);
        order
    }
}

} // verus!
