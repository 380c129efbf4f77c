//! The data that a light client keeps.

use ethereum_types::H256;
use peer_manager::light_client::{
    AggregateSignature, BeaconBlockHeader, BitVector, Fork, Hash256, LightClientEvents,
    LightClientSnapshot, LightClientStore, LightClientUpdate, SyncCommittee, SyncPeriod,
};

fn header(slot: u64) -> BeaconBlockHeader {
    BeaconBlockHeader {
        slot,
        proposer_index: 3,
        parent_root: Hash256::repeat_byte(1),
        state_root: Hash256::repeat_byte(2),
        body_root: Hash256::zero(),
    }
}

fn committee(byte: u8) -> SyncCommittee {
    SyncCommittee { pubkeys: vec![vec![byte; 48]], aggregate_pubkey: vec![byte; 48] }
}

#[test]
fn sync_periods_are_told_apart() {
    assert_eq!(SyncPeriod::new(7), SyncPeriod::new(7));
    assert_ne!(SyncPeriod::new(7), SyncPeriod::new(8));
    assert_eq!(format!("{:?}", SyncPeriod::new(u64::MAX)), "SyncPeriod(18446744073709551615)");
}

#[test]
fn stores_hold_updates() {
    let store = LightClientStore {
        snaphost: LightClientSnapshot {
            header: header(10),
            current_sync_committee: committee(1),
            next_sync_committee: committee(2),
        },
        valid_updates: vec![LightClientUpdate {
            header: header(12),
            next_sync_committee: committee(3),
            next_sync_committee_branch: vec![H256::repeat_byte(9)],
            finality_header: header(11),
            finality_branch: vec![],
            sync_committee_bits: BitVector { bits: vec![true, false] },
            sync_committee_signature: AggregateSignature { bytes: vec![0; 96] },
            fork: Fork { previous_version: [0; 4], current_version: [1, 0, 0, 0], epoch: 5 },
        }],
    };
    assert_eq!(store.snaphost.header.slot, 10);
    assert_eq!(store.valid_updates.len(), 1);
    assert_eq!(store.valid_updates[0].next_sync_committee_branch[0].as_bytes(), &[9u8; 32][..]);
    let events = LightClientEvents { new_header: header(12), new_sync_period: SyncPeriod::new(1) };
    assert_eq!(events.new_header.slot, 12);
    assert_eq!(events.new_sync_period, SyncPeriod::new(1));
}
