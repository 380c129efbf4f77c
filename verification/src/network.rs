//! What the peer manager reads of the network: peers, addresses, protocols and their errors.

use vstd::prelude::*;

verus! {

/// The number under which the network layer knows a peer. Equal numbers, same peer.
pub type PeerId = u64;

/// Nanoseconds since a fixed start.
pub type Instant = u64;

/// So many of the units of an [`Instant`] make up a second.
pub const NANOS_PER_SECOND: u64 = 1_000_000_000;

/// A sync committee subnet.
pub type SyncSubnetId = u64;

/// An IP address, as the number that its octets spell.
#[derive(Clone, Copy, Debug, PartialEq, Eq, Structural)]
pub enum IpAddr {
    V4(u32),
    V6(u128),
}

/// An address that a peer can be reached on: its encoding, and the IP address in it, if any.
#[derive(Clone, Debug)]
pub struct Multiaddr {
    pub bytes: Vec<u8>,
    pub ip: Option<IpAddr>,
}

/// The value of a [`Multiaddr`].
pub struct MultiaddrView {
    pub bytes: Seq<u8>,
    pub ip: Option<IpAddr>,
}

impl View for Multiaddr {
    type V = MultiaddrView;

    open spec fn view(&self) -> MultiaddrView {
        MultiaddrView { bytes: self.bytes@, ip: self.ip }
    }
}

/// The values of a list of addresses.
pub open spec fn addresses_view(addresses: Seq<Multiaddr>) -> Seq<MultiaddrView> {
    addresses.map_values(|address: Multiaddr| address@)
}

/// Two optional IP addresses are the same.
fn same_ip(a: Option<IpAddr>, b: Option<IpAddr>) -> (same: bool)
    ensures
        same == (a == b),
{
    match (a, b) {
        (Some(x), Some(y)) => x == y,
        (None, None) => true,
        _ => false,
    }
}

/// Two byte strings are the same.
fn same_bytes(a: &Vec<u8>, b: &Vec<u8>) -> (same: bool)
    ensures
        same == (a@ == b@),
{
    if a.len() != b.len() {
        return false;
    }
    let mut i: usize = 0;
    while i < a.len()
        invariant
            i <= a.len(),
            a.len() == b.len(),
            forall|j: int| 0 <= j < i ==> a@[j] == b@[j],
        decreases a.len() - i,
    {
        if a[i] != b[i] {
            assert(a@[i as int] != b@[i as int]);
            return false;
        }
        i += 1;
    }
    assert(a@ =~= b@);
    true
}

/// Two lists hold the same addresses in the same order.
pub fn same_addresses(a: &Vec<Multiaddr>, b: &Vec<Multiaddr>) -> (same: bool)
    ensures
        same == (addresses_view(a@) == addresses_view(b@)),
{
    if a.len() != b.len() {
        assert(addresses_view(a@).len() != addresses_view(b@).len());
        return false;
    }
    let mut i: usize = 0;
    while i < a.len()
        invariant
            i <= a.len(),
            a.len() == b.len(),
            forall|j: int| 0 <= j < i ==> (#[trigger] a@[j])@ == b@[j]@,
        decreases a.len() - i,
    {
        if !same_bytes(&a[i].bytes, &b[i].bytes) || !same_ip(a[i].ip, b[i].ip) {
            assert(addresses_view(a@)[i as int] != addresses_view(b@)[i as int]);
            return false;
        }
        i += 1;
    }
    assert(addresses_view(a@) =~= addresses_view(b@));
    true
}

/// A node record, in its text form.
#[derive(Clone, Debug)]
pub struct Enr {
    pub text: String,
}

impl View for Enr {
    type V = Seq<char>;

    open spec fn view(&self) -> Seq<char> {
        self.text@
    }
}

/// The value of an optional node record.
pub open spec fn enr_view(enr: Option<Enr>) -> Option<Seq<char>> {
    match enr {
        Some(enr) => Some(enr@),
        None => None,
    }
}

/// How a connection came about, and the remote address.
#[derive(Clone, Debug)]
pub enum ConnectedPoint {
    /// We dialed the peer at this address.
    Dialer { address: Multiaddr },
    /// The peer dialed us from this address.
    Listener { send_back_addr: Multiaddr },
}

/// Who opened a connection.
#[derive(Clone, Copy, Debug, PartialEq, Eq, Structural)]
pub enum ConnectionDirection {
    Incoming,
    Outgoing,
}

/// The client software that a peer runs.
#[derive(Clone, Copy, Debug, PartialEq, Eq, Structural)]
pub enum ClientKind {
    Lighthouse,
    Nimbus,
    Teku,
    Prysm,
    Lodestar,
    Unknown,
}

/// What a peer says of its client software.
#[derive(Clone, Debug)]
pub struct Client {
    pub kind: ClientKind,
    pub agent_version: String,
}

/// The value of a [`Client`].
pub struct ClientView {
    pub kind: ClientKind,
    pub agent_version: Seq<char>,
}

impl View for Client {
    type V = ClientView;

    open spec fn view(&self) -> ClientView {
        ClientView { kind: self.kind, agent_version: self.agent_version@ }
    }
}

/// A gossip subnet.
#[derive(Clone, Copy, Debug, PartialEq, Eq, Structural)]
pub enum Subnet {
    Attestation(u64),
    SyncCommittee(SyncSubnetId),
}

/// A request to find peers on a subnet, and until when they are needed.
#[derive(Clone, Copy, Debug, PartialEq, Eq)]
pub struct SubnetDiscovery {
    pub subnet: Subnet,
    pub min_ttl: Option<Instant>,
}

/// What a peer announces of itself: a sequence number, and the subnets it serves as bit fields.
#[derive(Clone, Debug)]
pub enum MetaData {
    V1 { seq_number: u64, attnets: Vec<u8> },
    V2 { seq_number: u64, attnets: Vec<u8>, syncnets: Vec<u8> },
}

/// The value of a [`MetaData`].
pub enum MetaDataView {
    V1 { seq_number: u64, attnets: Seq<u8> },
    V2 { seq_number: u64, attnets: Seq<u8>, syncnets: Seq<u8> },
}

impl MetaDataView {
    /// The sequence number of the announcement.
    pub open spec fn seq_number(self) -> u64 {
        match self {
            MetaDataView::V1 { seq_number, .. } => seq_number,
            MetaDataView::V2 { seq_number, .. } => seq_number,
        }
    }
}

impl View for MetaData {
    type V = MetaDataView;

    open spec fn view(&self) -> MetaDataView {
        match self {
            MetaData::V1 { seq_number, attnets } => MetaDataView::V1 {
                seq_number: *seq_number,
                attnets: attnets@,
            },
            MetaData::V2 { seq_number, attnets, syncnets } => MetaDataView::V2 {
                seq_number: *seq_number,
                attnets: attnets@,
                syncnets: syncnets@,
            },
        }
    }
}

impl MetaData {
    /// The sequence number of the announcement.
    pub fn seq_number(&self) -> (seq_number: u64)
        ensures
            seq_number == self@.seq_number(),
    {
        match self {
            MetaData::V1 { seq_number, .. } => *seq_number,
            MetaData::V2 { seq_number, .. } => *seq_number,
        }
    }
}

/// Where a peer's chain stands against ours.
#[derive(Clone, Copy, Debug, PartialEq, Eq, Structural)]
pub enum PeerSyncStatus {
    Synced,
    Advanced,
    Behind,
    IrrelevantPeer,
    Unknown,
}

/// What the node's own sync is doing.
#[derive(Clone, Copy, Debug, PartialEq, Eq, Structural)]
pub enum SyncState {
    SyncingFinalized,
    SyncingHead,
    SyncTransition,
    Synced,
    Stalled,
}

/// Why a peer is told goodbye.
#[derive(Clone, Copy, Debug, PartialEq, Eq, Structural)]
pub enum GoodbyeReason {
    ClientShutdown,
    IrrelevantNetwork,
    Fault,
    UnableToVerifyNetwork,
    TooManyPeers,
    BadScore,
    Banned,
    BannedIP,
    Unknown,
}

/// A request and response protocol.
#[derive(Clone, Copy, Debug, PartialEq, Eq, Structural)]
pub enum Protocol {
    Status,
    Goodbye,
    BlocksByRange,
    BlocksByRoot,
    Ping,
    MetaData,
}

/// The code in an error response.
#[derive(Clone, Copy, Debug, PartialEq, Eq, Structural)]
pub enum RPCResponseErrorCode {
    RateLimited,
    InvalidRequest,
    ServerError,
    ResourceUnavailable,
    Unknown,
}

/// What went wrong with a request.
#[derive(Clone, Copy, Debug, PartialEq, Eq, Structural)]
pub enum RPCError {
    SSZDecodeError,
    IoError,
    ErrorResponse(RPCResponseErrorCode),
    StreamTimeout,
    UnsupportedProtocol,
    IncompleteStream,
    InvalidData,
    InternalError,
    NegotiationTimeout,
    HandlerRejected,
    Disconnected,
}

/// The settings that the peer manager reads.
#[derive(Clone, Copy, Debug)]
pub struct NetworkConfig {
    /// The number of peers we would like to be connected to.
    pub target_peers: usize,
    /// No discovery queries are to be made.
    pub disable_discovery: bool,
    /// The number of peers we would like to have on each sync committee subnet that we need.
    pub target_subnet_peers: usize,
}

} // verus!
