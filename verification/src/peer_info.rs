//! What is known of one peer.

use crate::network::{
    addresses_view, enr_view, Client, ClientKind, ClientView, ConnectionDirection, Enr, Instant,
    IpAddr, MetaData, MetaDataView, Multiaddr, MultiaddrView, PeerSyncStatus, Subnet,
};
use crate::score::Score;
use vstd::prelude::*;

verus! {

/// Where a peer stands with us.
#[derive(Clone, Copy, Debug, PartialEq, Eq, Structural)]
pub enum PeerConnectionStatus {
    /// The peer is connected, by so many connections that it opened and that we opened.
    Connected { n_in: u32, n_out: u32 },
    /// The peer is being disconnected, and is to be banned afterwards or not.
    Disconnecting { to_ban: bool },
    /// The peer has disconnected.
    Disconnected,
    /// The peer has been banned and is disconnected.
    Banned,
    /// We are dialing the peer.
    Dialing,
    /// The peer has never been connected.
    Unknown,
}

/// One connection more, as far as the counter goes.
pub open spec fn one_more(n: u32) -> u32 {
    if n < u32::MAX {
        (n + 1) as u32
    } else {
        n
    }
}

fn count_up(n: u32) -> (more: u32)
    ensures
        more == one_more(n),
{
    if n < u32::MAX {
        n + 1
    } else {
        n
    }
}

/// What is known of a peer.
#[derive(Debug)]
pub struct PeerInfo {
    /// The client software it runs.
    pub client: Client,
    /// Where it stands with us.
    pub connection_status: PeerConnectionStatus,
    /// Who opened its present or latest connection.
    pub connection_direction: Option<ConnectionDirection>,
    /// The addresses it says it listens on.
    pub listening_addresses: Vec<Multiaddr>,
    /// The IP addresses it was seen on, each once.
    pub seen_addresses: Vec<IpAddr>,
    /// The subnets it is subscribed to.
    pub subnets: Vec<Subnet>,
    /// Where its chain stands.
    pub sync_status: PeerSyncStatus,
    /// What it last announced of itself.
    pub meta_data: Option<MetaData>,
    /// Its node record.
    pub enr: Option<Enr>,
    /// Until when a duty of ours needs it.
    pub min_ttl: Option<Instant>,
    /// Its score.
    pub score: Score,
}

/// The value of a [`PeerInfo`].
pub struct PeerInfoView {
    pub client: ClientView,
    pub connection_status: PeerConnectionStatus,
    pub connection_direction: Option<ConnectionDirection>,
    pub listening_addresses: Seq<MultiaddrView>,
    pub seen_addresses: Seq<IpAddr>,
    pub subnets: Set<Subnet>,
    pub sync_status: PeerSyncStatus,
    pub meta_data: Option<MetaDataView>,
    pub enr: Option<Seq<char>>,
    pub min_ttl: Option<Instant>,
    pub score: Score,
}

/// The value of an optional announcement.
pub open spec fn meta_data_view(meta_data: Option<MetaData>) -> Option<MetaDataView> {
    match meta_data {
        Some(meta_data) => Some(meta_data@),
        None => None,
    }
}

impl View for PeerInfo {
    type V = PeerInfoView;

    open spec fn view(&self) -> PeerInfoView {
        PeerInfoView {
            client: self.client@,
            connection_status: self.connection_status,
            connection_direction: self.connection_direction,
            listening_addresses: addresses_view(self.listening_addresses@),
            seen_addresses: self.seen_addresses@,
            subnets: self.subnets@.to_set(),
            sync_status: self.sync_status,
            meta_data: meta_data_view(self.meta_data),
            enr: enr_view(self.enr),
            min_ttl: self.min_ttl,
            score: self.score,
        }
    }
}

impl PeerInfoView {
    /// A peer of which nothing is known.
    pub open spec fn unknown() -> PeerInfoView {
        PeerInfoView {
            client: ClientView { kind: ClientKind::Unknown, agent_version: Seq::empty() },
            connection_status: PeerConnectionStatus::Unknown,
            connection_direction: None,
            listening_addresses: Seq::empty(),
            seen_addresses: Seq::empty(),
            subnets: Set::empty(),
            sync_status: PeerSyncStatus::Unknown,
            meta_data: None,
            enr: None,
            min_ttl: None,
            score: Score::spec_neutral(),
        }
    }

    /// The peer is connected.
    pub open spec fn is_connected(self) -> bool {
        self.connection_status is Connected
    }

    /// The peer is connected, or we are dialing it.
    pub open spec fn is_connected_or_dialing(self) -> bool {
        self.connection_status is Connected || self.connection_status is Dialing
    }

    /// The peer is connected, or is being disconnected.
    pub open spec fn is_connected_or_disconnecting(self) -> bool {
        self.connection_status is Connected || self.connection_status is Disconnecting
    }

    /// The peer is connected, and by connections only that we opened.
    pub open spec fn is_outbound_only(self) -> bool {
        self.connection_status matches PeerConnectionStatus::Connected { n_in, n_out } && n_in == 0
            && n_out > 0
    }

    /// The peer has been banned and is disconnected.
    pub open spec fn is_banned(self) -> bool {
        self.connection_status is Banned
    }

    /// A duty of ours still needs the peer.
    pub open spec fn has_future_duty(self, now: Instant) -> bool {
        self.min_ttl matches Some(min_ttl) && min_ttl >= now
    }

    /// The same peer, standing differently with us.
    pub open spec fn with_status(self, connection_status: PeerConnectionStatus) -> PeerInfoView {
        PeerInfoView { connection_status, ..self }
    }

    /// The same peer with another score.
    pub open spec fn with_score(self, score: Score) -> PeerInfoView {
        PeerInfoView { score, ..self }
    }

    /// We are dialing the peer. Nothing changes for one that is connected, disconnecting or being
    /// dialed.
    pub open spec fn dialing(self) -> PeerInfoView {
        match self.connection_status {
            PeerConnectionStatus::Disconnected
            | PeerConnectionStatus::Banned
            | PeerConnectionStatus::Unknown => self.with_status(PeerConnectionStatus::Dialing),
            _ => self,
        }
    }

    /// One more connection of the given direction. The first one sets the peer's direction.
    pub open spec fn one_more_connection(self, direction: ConnectionDirection) -> PeerInfoView {
        match (self.connection_status, direction) {
            (PeerConnectionStatus::Connected { n_in, n_out }, ConnectionDirection::Incoming) =>
                self.with_status(
                    PeerConnectionStatus::Connected { n_in: one_more(n_in), n_out },
                ),
            (PeerConnectionStatus::Connected { n_in, n_out }, ConnectionDirection::Outgoing) =>
                self.with_status(
                    PeerConnectionStatus::Connected { n_in, n_out: one_more(n_out) },
                ),
            (_, ConnectionDirection::Incoming) => PeerInfoView {
                connection_direction: Some(direction),
                ..self.with_status(PeerConnectionStatus::Connected { n_in: 1, n_out: 0 })
            },
            (_, ConnectionDirection::Outgoing) => PeerInfoView {
                connection_direction: Some(direction),
                ..self.with_status(PeerConnectionStatus::Connected { n_in: 0, n_out: 1 })
            },
        }
    }

    /// The peer was seen on an IP address.
    pub open spec fn seen_on(self, ip: Option<IpAddr>) -> PeerInfoView {
        match ip {
            Some(ip) if !self.seen_addresses.contains(ip) => PeerInfoView {
                seen_addresses: self.seen_addresses.push(ip),
                ..self
            },
            _ => self,
        }
    }

    /// The peer's connection ended. A banned peer stays banned.
    pub open spec fn disconnected(self) -> PeerInfoView {
        if self.is_banned() {
            self
        } else {
            self.with_status(PeerConnectionStatus::Disconnected)
        }
    }

    /// The peer is to be banned once it has disconnected.
    pub open spec fn awaits_ban(self) -> bool {
        self.connection_status == (PeerConnectionStatus::Disconnecting { to_ban: true })
    }

    /// A duty needs the peer until `min_ttl` at least.
    pub open spec fn needed_until(self, min_ttl: Instant) -> PeerInfoView {
        match self.min_ttl {
            Some(known) if known >= min_ttl => self,
            _ => PeerInfoView { min_ttl: Some(min_ttl), ..self },
        }
    }
}

/// `list` holds `ip`.
pub fn has_ip(list: &Vec<IpAddr>, ip: IpAddr) -> (found: bool)
    ensures
        found == list@.contains(ip),
{
    let mut i: usize = 0;
    while i < list.len()
        invariant
            i <= list.len(),
            forall|j: int| 0 <= j < i ==> list@[j] != ip,
        decreases list.len() - i,
    {
        if list[i] == ip {
            assert(list@[i as int] == ip);
            return true;
        }
        i += 1;
    }
    false
}

impl PeerInfo {
    /// A peer of which nothing is known.
    pub fn unknown() -> (info: PeerInfo)
        ensures
            info@ == PeerInfoView::unknown(),
    {
        let info = PeerInfo {
            client: Client { kind: ClientKind::Unknown, agent_version: String::new() },
            connection_status: PeerConnectionStatus::Unknown,
            connection_direction: None,
            listening_addresses: Vec::new(),
            seen_addresses: Vec::new(),
            subnets: Vec::new(),
            sync_status: PeerSyncStatus::Unknown,
            meta_data: None,
            enr: None,
            min_ttl: None,
            score: Score::neutral(),
        };
        assert(info@.listening_addresses =~= Seq::empty());
        assert(info@.seen_addresses =~= Seq::empty());
        assert(info@.subnets =~= Set::empty());
        assert(info@.client.agent_version =~= Seq::empty());
        info
    }

    /// The peer is connected.
    pub fn is_connected(&self) -> (r: bool)
        ensures
            r == self@.is_connected(),
    {
        matches!(self.connection_status, PeerConnectionStatus::Connected { .. })
    }

    /// The peer is connected, or we are dialing it.
    pub fn is_connected_or_dialing(&self) -> (r: bool)
        ensures
            r == self@.is_connected_or_dialing(),
    {
        matches!(
            self.connection_status,
            PeerConnectionStatus::Connected { .. } | PeerConnectionStatus::Dialing
        )
    }

    /// The peer is connected, or is being disconnected.
    pub fn is_connected_or_disconnecting(&self) -> (r: bool)
        ensures
            r == self@.is_connected_or_disconnecting(),
    {
        matches!(
            self.connection_status,
            PeerConnectionStatus::Connected { .. } | PeerConnectionStatus::Disconnecting { .. }
        )
    }

    /// The peer is connected, and by connections only that we opened.
    pub fn is_outbound_only(&self) -> (r: bool)
        ensures
            r == self@.is_outbound_only(),
    {
        match self.connection_status {
            PeerConnectionStatus::Connected { n_in, n_out } => n_in == 0 && n_out > 0,
            _ => false,
        }
    }

    /// The peer has been banned and is disconnected.
    pub fn is_banned(&self) -> (r: bool)
        ensures
            r == self@.is_banned(),
    {
        matches!(self.connection_status, PeerConnectionStatus::Banned)
    }

    /// A duty of ours still needs the peer.
    pub fn has_future_duty(&self, now: Instant) -> (r: bool)
        ensures
            r == self@.has_future_duty(now),
    {
        match self.min_ttl {
            Some(min_ttl) => min_ttl >= now,
            None => false,
        }
    }

    /// The peer is subscribed to `subnet`.
    pub fn on_subnet(&self, subnet: Subnet) -> (found: bool)
        ensures
            found == self@.subnets.contains(subnet),
    {
        let mut i: usize = 0;
        while i < self.subnets.len()
            invariant
                i <= self.subnets.len(),
                forall|j: int| 0 <= j < i ==> self.subnets@[j] != subnet,
            decreases self.subnets.len() - i,
        {
            if self.subnets[i] == subnet {
                assert(self.subnets@[i as int] == subnet);
                return true;
            }
            i += 1;
        }
        assert(!self.subnets@.contains(subnet));
        false
    }

    /// Subscribes the peer to `subnet`.
    pub fn insert_subnet(&mut self, subnet: Subnet)
        ensures
            final(self)@ == (PeerInfoView {
                subnets: old(self)@.subnets.insert(subnet),
                ..old(self)@
            }),
    {
        if !self.on_subnet(subnet) {
            self.subnets.push(subnet);
            assert(self@.subnets =~= old(self)@.subnets.insert(subnet)) by {
                let after = self.subnets@;
                assert forall|s: Subnet| old(self).subnets@.contains(s) implies after.contains(
                    s,
                ) by {
                    let i = choose|i: int|
                        0 <= i < old(self).subnets@.len() && old(self).subnets@[i] == s;
                    assert(self.subnets@[i] == s);
                }
                assert(self.subnets@[old(self).subnets@.len() as int] == subnet);
            }
        } else {
            assert(self@.subnets =~= old(self)@.subnets.insert(subnet));
        }
    }

    /// Ends the peer's subscription to `subnet`.
    pub fn remove_subnet(&mut self, subnet: Subnet)
        ensures
            final(self)@ == (PeerInfoView {
                subnets: old(self)@.subnets.remove(subnet),
                ..old(self)@
            }),
    {
        let mut kept: Vec<Subnet> = Vec::new();
        let mut i: usize = 0;
        while i < self.subnets.len()
            invariant
                i <= self.subnets.len(),
                *self == *old(self),
                forall|s: Subnet|
                    #[trigger] kept@.contains(s) <==> s != subnet && self.subnets@.take(
                        i as int,
                    ).contains(s),
            decreases self.subnets.len() - i,
        {
            let ghost before = kept@;
            let s = self.subnets[i];
            if s != subnet {
                kept.push(s);
            }
            proof {
                let now = self.subnets@.take(i + 1);
                assert(now =~= self.subnets@.take(i as int).push(s));
                vstd::seq_lib::lemma_seq_contains_after_push(self.subnets@.take(i as int), s, s);
                assert forall|t: Subnet| #[trigger] kept@.contains(t) <==> t != subnet
                    && now.contains(t) by {
                    vstd::seq_lib::lemma_seq_contains_after_push(
                        self.subnets@.take(i as int),
                        s,
                        t,
                    );
                    vstd::seq_lib::lemma_seq_contains_after_push(before, s, t);
                    assert(before.contains(t) <==> t != subnet && self.subnets@.take(
                        i as int,
                    ).contains(t));
                }
            }
            i += 1;
        }
        assert(self.subnets@.take(i as int) =~= self.subnets@);
        self.subnets = kept;
        assert(self@.subnets =~= old(self)@.subnets.remove(subnet));
    }

    /// Ends all subscriptions of the peer.
    pub fn clear_subnets(&mut self)
        ensures
            final(self)@ == (PeerInfoView { subnets: Set::empty(), ..old(self)@ }),
    {
        self.subnets = Vec::new();
        assert(self@.subnets =~= Set::empty());
    }

    /// We are dialing the peer. Nothing changes for one that is connected, disconnecting or being
    /// dialed.
    pub fn dialing_peer(&mut self)
        ensures
            final(self)@ == old(self)@.dialing(),
    {
        match self.connection_status {
            PeerConnectionStatus::Disconnected
            | PeerConnectionStatus::Banned
            | PeerConnectionStatus::Unknown => {
                self.connection_status = PeerConnectionStatus::Dialing;
            },
            _ => {},
        }
    }

    /// The peer opened a connection.
    pub fn connect_ingoing(&mut self, seen_address: Option<IpAddr>)
        ensures
            final(self)@ == old(self)@.one_more_connection(ConnectionDirection::Incoming).seen_on(
                seen_address,
            ),
    {
        match self.connection_status {
            PeerConnectionStatus::Connected { n_in, n_out } => {
                self.connection_status =
                PeerConnectionStatus::Connected { n_in: count_up(n_in), n_out };
            },
            _ => {
                self.connection_status = PeerConnectionStatus::Connected { n_in: 1, n_out: 0 };
                self.connection_direction = Some(ConnectionDirection::Incoming);
            },
        }
        self.add_seen_address(seen_address);
    }

    /// We opened a connection to the peer.
    pub fn connect_outgoing(&mut self, seen_address: Option<IpAddr>)
        ensures
            final(self)@ == old(self)@.one_more_connection(ConnectionDirection::Outgoing).seen_on(
                seen_address,
            ),
    {
        match self.connection_status {
            PeerConnectionStatus::Connected { n_in, n_out } => {
                self.connection_status =
                PeerConnectionStatus::Connected { n_in, n_out: count_up(n_out) };
            },
            _ => {
                self.connection_status = PeerConnectionStatus::Connected { n_in: 0, n_out: 1 };
                self.connection_direction = Some(ConnectionDirection::Outgoing);
            },
        }
        self.add_seen_address(seen_address);
    }

    /// The IP addresses the peer was seen on.
    pub fn copy_seen_addresses(&self) -> (ips: Vec<IpAddr>)
        ensures
            ips@ == self@.seen_addresses,
    {
        let mut ips: Vec<IpAddr> = Vec::new();
        let mut i: usize = 0;
        while i < self.seen_addresses.len()
            invariant
                i <= self.seen_addresses.len(),
                ips@ == self.seen_addresses@.take(i as int),
            decreases self.seen_addresses.len() - i,
        {
            ips.push(self.seen_addresses[i]);
            i += 1;
        }
        ips
    }

    fn add_seen_address(&mut self, ip: Option<IpAddr>)
        ensures
            final(self)@ == old(self)@.seen_on(ip),
    {
        if let Some(ip) = ip {
            if !has_ip(&self.seen_addresses, ip) {
                self.seen_addresses.push(ip);
            }
        }
    }

    /// The peer is being disconnected, and is to be banned afterwards or not.
    pub fn disconnecting(&mut self, to_ban: bool)
        ensures
            final(self)@ == old(self)@.with_status(PeerConnectionStatus::Disconnecting { to_ban }),
    {
        self.connection_status = PeerConnectionStatus::Disconnecting { to_ban };
    }

    /// The peer's connection ended. A banned peer stays banned. Tells whether the peer is to be
    /// banned now.
    pub fn notify_disconnect(&mut self) -> (to_ban: bool)
        ensures
            final(self)@ == old(self)@.disconnected(),
            to_ban == old(self)@.awaits_ban(),
    {
        let to_ban = match self.connection_status {
            PeerConnectionStatus::Disconnecting { to_ban } => to_ban,
            _ => false,
        };
        if !self.is_banned() {
            self.connection_status = PeerConnectionStatus::Disconnected;
        }
        to_ban
    }

    /// A duty needs the peer until `min_ttl` at least.
    pub fn update_min_ttl(&mut self, min_ttl: Instant)
        ensures
            final(self)@ == old(self)@.needed_until(min_ttl),
    {
        let known = match self.min_ttl {
            Some(known) => known >= min_ttl,
            None => false,
        };
        if !known {
            self.min_ttl = Some(min_ttl);
        }
    }
}

} // verus!
