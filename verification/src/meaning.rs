//! What the conditions mean that the peer manager decides by.

use crate::event::{PeerTimersView, TimerCommand};
use crate::limits;
use crate::manager::ManagerView;
use crate::network::{
    ClientKind, ConnectionDirection, Instant, IpAddr, MetaDataView, PeerId, PeerSyncStatus,
    Protocol, RPCError, RPCResponseErrorCode, Subnet,
};
use crate::peer_info::{PeerConnectionStatus, PeerInfoView};
use crate::peerdb::{BanResult, PeerClass, PeerDBView, UnbanError};
use crate::reputation::{is_condemned, is_dropped, is_pardoned, rpc_error_penalty};
use crate::score::{PeerAction, Score, ScoreOutlook, ScoreState};
use vstd::prelude::*;

verus! {

/// The known peers that are banned and were seen on an IP address.
pub open spec fn banned_on(db: PeerDBView, ip: IpAddr) -> Set<PeerId> {
    Set::new(
        |id: PeerId|
            db.peers.contains_key(id) && db.peers[id].connection_status
                == PeerConnectionStatus::Banned && db.peers[id].seen_addresses.contains(ip),
    )
}

/// More banned peers were seen on an IP address than is let pass.
pub open spec fn over_limit(db: PeerDBView, ip: IpAddr) -> bool {
    banned_on(db, ip).len() > db.banned_peers_per_ip
}

/// Those IP addresses of a list that too many banned peers were seen on.
pub open spec fn over_limit_among(db: PeerDBView, ips: Seq<IpAddr>) -> Seq<IpAddr> {
    ips.filter(|ip: IpAddr| over_limit(db, ip))
}

/// A peer's standing is what its connection status says.
pub proof fn standing_follows_status(info: PeerInfoView, now: Instant)
    ensures
        info.is_connected() <==> info.connection_status is Connected,
        info.is_connected_or_dialing() <==> info.connection_status is Connected
            || info.connection_status == PeerConnectionStatus::Dialing,
        info.is_connected_or_disconnecting() <==> info.connection_status is Connected
            || info.connection_status is Disconnecting,
        info.is_banned() <==> info.connection_status == PeerConnectionStatus::Banned,
        info.awaits_ban() <==> info.connection_status == (PeerConnectionStatus::Disconnecting {
            to_ban: true,
        }),
        info.is_outbound_only() <==> exists|n_out: u32|
            n_out >= 1 && info.connection_status == (#[trigger] connected_by(0, n_out)),
        info.has_future_duty(now) <==> exists|min_ttl: Instant|
            now <= min_ttl && #[trigger] needed(min_ttl) == info.min_ttl,
{
    if let PeerConnectionStatus::Connected { n_in, n_out } = info.connection_status {
        assert(info.connection_status == connected_by(n_in, n_out));
    }
    if let Some(min_ttl) = info.min_ttl {
        assert(needed(min_ttl) == info.min_ttl);
    }
}

/// Connected by so many connections that the peer opened and that we opened.
pub open spec fn connected_by(n_in: u32, n_out: u32) -> PeerConnectionStatus {
    PeerConnectionStatus::Connected { n_in, n_out }
}

/// Needed until then.
pub open spec fn needed(min_ttl: Instant) -> Option<Instant> {
    Some(min_ttl)
}

/// Of a peer that was never heard of nothing is known, and nothing is held against it.
pub proof fn unknown_peers_are_blank(db: PeerDBView, id: PeerId)
    requires
        !db.peers.contains_key(id),
    ensures
        ({
            let info = db.info(id);
            &&& info.connection_status == PeerConnectionStatus::Unknown
            &&& info.connection_direction is None
            &&& info.client.kind == ClientKind::Unknown
            &&& info.client.agent_version.len() == 0
            &&& info.listening_addresses.len() == 0
            &&& info.seen_addresses.len() == 0
            &&& forall|subnet: Subnet| !info.subnets.contains(subnet)
            &&& info.sync_status == PeerSyncStatus::Unknown
            &&& info.meta_data is None
            &&& info.enr is None
            &&& info.min_ttl is None
            &&& info.score == (Score {
                rank: 0,
                state: ScoreState::Healthy,
                good_gossipsub: true,
            })
        }),
        !db.knows(id),
{
}

/// Of a known peer, what is on record is known.
pub proof fn known_peers_are_on_record(db: PeerDBView, id: PeerId, info: PeerInfoView)
    requires
        db.peers.contains_key(id),
    ensures
        db.knows(id),
        db.info(id) == db.peers[id],
        db.is_connected(id) <==> db.peers[id].connection_status is Connected,
        db.with_info(id, info).peers == db.peers.insert(id, info),
        db.with_info(id, info).banned_peers_per_ip == db.banned_peers_per_ip,
{
}

/// Who counts as connected.
pub proof fn connected_peers_are_counted(db: PeerDBView, id: PeerId)
    ensures
        db.members(PeerClass::Connected).contains(id) <==> db.peers.contains_key(id)
            && db.peers[id].connection_status is Connected,
        db.members(PeerClass::ConnectedOrDialing).contains(id) <==> db.peers.contains_key(id) && (
        db.peers[id].connection_status is Connected || db.peers[id].connection_status is Dialing),
        db.members(PeerClass::OutboundOnly).contains(id) <==> db.peers.contains_key(id)
            && exists|n_out: u32|
            n_out >= 1 && db.peers[id].connection_status == (#[trigger] connected_by(0, n_out)),
{
    if db.peers.contains_key(id) {
        standing_follows_status(db.peers[id], 0);
    }
}

/// Who counts as a good peer on a subnet, and as a banned one on an IP address, and that counts are
/// of all such peers.
pub proof fn good_and_banned_peers_are_counted(
    db: PeerDBView,
    id: PeerId,
    subnet: Subnet,
    ip: IpAddr,
    class: PeerClass,
)
    ensures
        db.members(PeerClass::GoodOnSubnet(subnet)).contains(id) <==> db.peers.contains_key(id)
            && db.peers[id].connection_status is Connected && db.peers[id].subnets.contains(subnet)
            && db.peers[id].score.good_gossipsub,
        db.members(PeerClass::BannedOn(ip)) == banned_on(db, ip),
        db.count(class) == db.members(class).len(),
{
    assert(db.members(PeerClass::BannedOn(ip)) =~= banned_on(db, ip));
}

/// An IP address is banned just when too many banned peers were seen on it.
pub proof fn addresses_are_banned_by_peers(db: PeerDBView, ips: Seq<IpAddr>, ip: IpAddr)
    ensures
        db.ip_banned(ip) <==> over_limit(db, ip),
        db.banned_ips(ips) == over_limit_among(db, ips),
{
    assert forall|ip: IpAddr| #[trigger] db.ip_banned(ip) == over_limit(db, ip) by {
        good_and_banned_peers_are_counted(db, 0, Subnet::Attestation(0), ip, PeerClass::Connected);
    }
    assert((|ip: IpAddr| db.ip_banned(ip)) =~= (|ip: IpAddr| over_limit(db, ip)));
}

/// A peer is banned for its score just when that bans it; failing that, for the first IP address it
/// was seen on that is banned; and is not banned otherwise. A peer that is not known is not banned.
pub proof fn bans_have_reasons(db: PeerDBView, id: PeerId)
    ensures
        db.ban_status(id) is BadScore <==> db.peers.contains_key(id) && db.peers[id].score.state
            == ScoreState::Banned,
        db.ban_status(id) is NotBanned <==> !db.peers.contains_key(id) || (
        db.peers[id].score.state != ScoreState::Banned && forall|i: int|
            0 <= i < db.peers[id].seen_addresses.len() ==> !over_limit(
                db,
                #[trigger] db.peers[id].seen_addresses[i],
            )),
        db.ban_status(id) matches BanResult::BannedIp(ip) ==> over_limit(db, ip)
            && db.peers[id].seen_addresses.contains(ip) && over_limit_among(
            db,
            db.peers[id].seen_addresses,
        )[0] == ip,
{
    if db.peers.contains_key(id) {
        let seen = db.peers[id].seen_addresses;
        let over = |ip: IpAddr| over_limit(db, ip);
        let banned = over_limit_among(db, seen);
        addresses_are_banned_by_peers(db, seen, IpAddr::V4(0));
        broadcast use vstd::seq_lib::group_filter_ensures;

        if banned.len() > 0 {
            assert(over(banned[0]));
            assert(banned.contains(banned[0]));
            seen.lemma_filter_contains_rev(over, banned[0]);
            let i = choose|i: int| 0 <= i < seen.len() && seen[i] == banned[0];
            assert(over_limit(db, seen[i]));
        } else {
            assert forall|i: int| 0 <= i < seen.len() implies !over_limit(
                db,
                #[trigger] seen[i],
            ) by {
                if over(seen[i]) {
                    assert(banned.contains(seen[i]));
                }
            }
        }
    }
}

/// A peer is worth dialing just when it is neither with us, nor on its way in or out, nor banned,
/// and its score is healthy.
pub proof fn dialing_is_for_the_welcome(db: PeerDBView, id: PeerId)
    ensures
        db.should_dial(id) <==> !db.peers.contains_key(id) || ((db.peers[id].connection_status
            == PeerConnectionStatus::Disconnected || db.peers[id].connection_status
            == PeerConnectionStatus::Unknown) && db.peers[id].score.state == ScoreState::Healthy
            && db.ban_status(id) is NotBanned),
{
}

/// What is left to do to ban a peer goes by where it stands, and so does whether it can be
/// unbanned.
pub proof fn bans_go_by_standing(db: PeerDBView, id: PeerId)
    ensures
        ({
            let status = db.info(id).connection_status;
            &&& db.ban_operation(id) is DisconnectThePeer <==> status is Connected || status
                == PeerConnectionStatus::Dialing
            &&& db.ban_operation(id) is PeerDisconnecting <==> status is Disconnecting
            &&& db.unban_refusal(id) is None <==> status == PeerConnectionStatus::Banned && db.info(
                id,
            ).score.state != ScoreState::Banned
            &&& db.unban_refusal(id) == Some(UnbanError::NotBanned) <==> status
                != PeerConnectionStatus::Banned
        }),
{
}

/// A fatal action leaves a score that bans, and that no score is below; the part of the score that
/// gossipsub has is not touched. Other actions leave what the formula makes of them.
pub proof fn actions_change_scores(outlook: ScoreOutlook, score: Score, other: Score)
    ensures
        ({
            let fatal = outlook.spec_after(score, PeerAction::Fatal);
            &&& fatal == score.spec_fatal()
            &&& fatal.state == ScoreState::Banned
            &&& fatal.rank <= other.rank
            &&& fatal.good_gossipsub == score.good_gossipsub
        }),
        outlook.spec_after(score, PeerAction::LowToleranceError) == outlook.low_tolerance,
        outlook.spec_after(score, PeerAction::MidToleranceError) == outlook.mid_tolerance,
        outlook.spec_after(score, PeerAction::HighToleranceError) == outlook.high_tolerance,
{
}

/// A peer that starts to wait, or stops, is the only one of whom that changes, and its clock is
/// told.
pub proof fn clocks_are_told(timers: PeerTimersView, id: PeerId, other: PeerId)
    ensures
        timers.insert(id).waiting.contains(other) <==> other == id || timers.waiting.contains(
            other,
        ),
        timers.insert(id).commands == timers.commands.push(TimerCommand::Start(id)),
        timers.insert(id).interval == timers.interval,
        timers.remove(id).waiting.contains(other) <==> other != id && timers.waiting.contains(
            other,
        ),
        timers.remove(id).commands == timers.commands.push(TimerCommand::Stop(id)),
        timers.remove(id).interval == timers.interval,
{
}

/// An order by score lists just the connected peers, each once, and no better one before a worse.
pub proof fn orders_by_score_are_complete(db: PeerDBView, worst: Seq<PeerId>, id: PeerId)
    requires
        db.worst_first(worst),
    ensures
        worst.contains(id) <==> db.peers.contains_key(id) && db.peers[id].connection_status
            is Connected,
        worst.no_duplicates(),
        forall|i: int, j: int|
            0 <= i < j < worst.len() ==> db.info(#[trigger] worst[i]).score.rank <= db.info(
                #[trigger] worst[j],
            ).score.rank,
{
    connected_peers_are_counted(db, id);
    assert(worst.to_set().contains(id) <==> worst.contains(id));
    assert forall|i: int, j: int| 0 <= i < j < worst.len() implies db.info(
        #[trigger] worst[i],
    ).score.rank <= db.info(#[trigger] worst[j]).score.rank by {
        assert(worst.to_set().contains(worst[i]));
        assert(worst.to_set().contains(worst[j]));
    }
}

/// Peers are lacking just while discovery is on and fewer than wanted are connected or being
/// dialed, or fewer than required by connections only that we opened. New ones are let in until the
/// limit is reached.
pub proof fn lack_and_limit_are_counts(view: ManagerView, wanted: int)
    ensures
        view.lacks_peers(wanted) <==> view.discovery_enabled && (view.db.members(
            PeerClass::ConnectedOrDialing,
        ).len() < wanted || view.db.members(PeerClass::OutboundOnly).len()
            < limits::spec_min_outbound_only(view.target_peers)),
        view.peer_limit_reached() <==> view.db.members(PeerClass::ConnectedOrDialing).len()
            >= limits::spec_max_peers(view.target_peers),
{
}

/// Whose fault a failed request is depends on who made it only where it ran out of time.
pub proof fn blame_depends_on_direction_for_timeouts_only(protocol: Protocol, err: RPCError)
    ensures
        err != RPCError::StreamTimeout ==> rpc_error_penalty(
            protocol,
            err,
            ConnectionDirection::Incoming,
        ) == rpc_error_penalty(protocol, err, ConnectionDirection::Outgoing),
        rpc_error_penalty(protocol, RPCError::StreamTimeout, ConnectionDirection::Incoming) is None,
{
}

/// Which failed requests are fatal, and which are forgiven.
pub proof fn failed_requests_have_a_price(
    protocol: Protocol,
    err: RPCError,
    direction: ConnectionDirection,
)
    ensures
        ({
            let penalty = rpc_error_penalty(protocol, err, direction);
            let blocks = protocol == Protocol::BlocksByRange || protocol == Protocol::BlocksByRoot;
            let limited = err == RPCError::ErrorResponse(RPCResponseErrorCode::RateLimited);
            let timeout = err == RPCError::StreamTimeout && direction
                == ConnectionDirection::Outgoing;
            let unsupported = err == RPCError::UnsupportedProtocol;
            &&& penalty == Some(PeerAction::Fatal) <==> err == RPCError::InvalidData || err
                == RPCError::SSZDecodeError || err == RPCError::ErrorResponse(
                RPCResponseErrorCode::ResourceUnavailable,
            ) || (unsupported && protocol == Protocol::Ping)
            &&& penalty == Some(PeerAction::HighToleranceError) <==> err == RPCError::IoError || err
                == RPCError::ErrorResponse(RPCResponseErrorCode::Unknown)
            &&& penalty == Some(PeerAction::MidToleranceError) <==> err
                == RPCError::IncompleteStream || err == RPCError::ErrorResponse(
                RPCResponseErrorCode::ServerError,
            ) || (limited && (blocks || protocol == Protocol::Ping)) || (timeout && blocks)
            &&& penalty is None <==> err == RPCError::InternalError || err
                == RPCError::HandlerRejected || err == RPCError::Disconnected || (unsupported && (
            blocks || protocol == Protocol::Goodbye)) || (err == RPCError::StreamTimeout && !(
            timeout && (blocks || protocol == Protocol::Ping)))
        }),
{
}

/// A peer is accepted just when it is not banned.
pub proof fn acceptance_goes_by_bans(view: ManagerView, id: PeerId)
    ensures
        view.accepts(id) <==> view.db.ban_status(id) == BanResult::NotBanned,
{
}

/// An announcement has the number that it was sent with.
pub proof fn announcements_are_numbered(seq_number: u64, attnets: Seq<u8>, syncnets: Seq<u8>)
    ensures
        (MetaDataView::V1 { seq_number, attnets }).seq_number() == seq_number,
        (MetaDataView::V2 { seq_number, attnets, syncnets }).seq_number() == seq_number,
{
}

/// A change of score has a peer banned just when it comes to a ban, disconnected just when it comes
/// to a disconnection of a peer that is with us or being dialed, and freed just when it leaves a
/// ban: for good, or to a disconnection of a peer that is neither.
pub proof fn changes_of_score_have_consequences(
    previous: ScoreState,
    present: ScoreState,
    info: PeerInfoView,
)
    ensures
        ({
            let near = info.connection_status is Connected || info.connection_status
                == PeerConnectionStatus::Dialing;
            &&& is_condemned(previous, present) <==> previous != present && present
                == ScoreState::Banned
            &&& is_dropped(previous, present, info) <==> previous != present && present
                == ScoreState::Disconnected && near
            &&& is_pardoned(previous, present, info) <==> previous == ScoreState::Banned && (
            present == ScoreState::Healthy || (present == ScoreState::Disconnected && !near))
        }),
{
}

} // verus!
