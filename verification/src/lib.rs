//! Peer management for a beacon node, and the data a light client keeps.
//!
//! [`manager::PeerManager`] decides which peers to dial, keep, disconnect, ban and unban. It holds
//! plain values only: connections, clocks and scoring formulas live with the caller, who tells the
//! manager what happened and carries out the events, timer commands and metric updates that the
//! manager queues.

pub mod calls;
pub mod connection;
pub mod discovery;
pub mod effects;
pub mod event;
pub mod gossip;
pub mod heartbeat;
pub mod laws;
pub mod light_client;
pub mod limits;
pub mod manager;
pub mod meaning;
pub mod network;
pub mod outcomes;
pub mod peer_info;
pub mod peerdb;
pub mod poll;
pub mod pruning;
pub mod reputation;
pub mod rounds;
pub mod score;
pub mod timing;
pub mod validity;

pub use event::{EventQueue, MetricUpdate, PeerManagerEvent, PeerTimers, TimerCommand};
pub use light_client::{
    Hash256, LightClientEvents, LightClientSnapshot, LightClientStore, LightClientUpdate,
    SyncPeriod,
};
pub use manager::{NetworkGlobals, PeerManager};
pub use network::{
    Client, ClientKind, ConnectedPoint, ConnectionDirection, Enr, GoodbyeReason, Instant, IpAddr,
    MetaData, Multiaddr, NetworkConfig, PeerId, PeerSyncStatus, Protocol, RPCError,
    RPCResponseErrorCode, Subnet, SubnetDiscovery, SyncState, SyncSubnetId, NANOS_PER_SECOND,
};
pub use peer_info::{PeerConnectionStatus, PeerInfo};
pub use peerdb::{BanOperation, BanResult, PeerDB, UnbanError};
pub use score::{PeerAction, ReportSource, Score, ScoreOutlook, ScoreState};
