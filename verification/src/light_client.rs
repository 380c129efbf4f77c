//! The data that a light client keeps, receives and reports.

use vstd::prelude::*;

verus! {

/// `ethereum_types::H256`, a hash of thirty-two bytes. It is carried along and never looked into.
#[verifier::external_type_specification]
#[verifier::external_body]
pub struct ExHash256(ethereum_types::H256);

/// A root of a Merkle tree, or a node of one.
pub type Hash256 = ethereum_types::H256;

/// The header of a block of the beacon chain.
pub struct BeaconBlockHeader {
    pub slot: u64,
    pub proposer_index: u64,
    pub parent_root: Hash256,
    pub state_root: Hash256,
    pub body_root: Hash256,
}

/// The validators that sign for light clients during a sync period.
pub struct SyncCommittee {
    /// The public keys, as bytes.
    pub pubkeys: Vec<Vec<u8>>,
    /// The sum of the public keys, as bytes.
    pub aggregate_pubkey: Vec<u8>,
}

/// Which members of a sync committee took part in a signature.
pub struct BitVector {
    pub bits: Vec<bool>,
}

/// The signature of those members of a sync committee that took part, as bytes.
pub struct AggregateSignature {
    pub bytes: Vec<u8>,
}

/// The versions of the chain's rules around an epoch.
pub struct Fork {
    pub previous_version: [u8; 4],
    pub current_version: [u8; 4],
    pub epoch: u64,
}

/// The state that a light client trusts.
pub struct LightClientSnapshot {
    pub header: BeaconBlockHeader,
    pub current_sync_committee: SyncCommittee,
    pub next_sync_committee: SyncCommittee,
}

/// A light client's state, with the updates that it may move on to.
pub struct LightClientStore {
    pub snaphost: LightClientSnapshot,
    pub valid_updates: Vec<LightClientUpdate>,
}

/// A header that a sync committee signed, with what proves the committee after it.
pub struct LightClientUpdate {
    pub header: BeaconBlockHeader,
    pub next_sync_committee: SyncCommittee,
    pub next_sync_committee_branch: Vec<Hash256>,
    pub finality_header: BeaconBlockHeader,
    pub finality_branch: Vec<Hash256>,
    pub sync_committee_bits: BitVector,
    pub sync_committee_signature: AggregateSignature,
    /// Of this, `current_version` may be all that is needed.
    pub fork: Fork,
}

/// The number of a sync period.
#[derive(Clone, Copy, Debug, PartialEq, Eq, Structural)]
pub struct SyncPeriod(u64);

impl View for SyncPeriod {
    type V = u64;

    closed spec fn view(&self) -> u64 {
        self.0
    }
}

impl SyncPeriod {
    /// The sync period of that number.
    pub fn new(period: u64) -> (sync_period: SyncPeriod)
        ensures
            sync_period@ == period,
    {
        SyncPeriod(period)
    }
}

/// What a light client reports.
pub struct LightClientEvents {
    pub new_header: BeaconBlockHeader,
    pub new_sync_period: SyncPeriod,
}

} // verus!
