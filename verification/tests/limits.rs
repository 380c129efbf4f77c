//! The peer counts that follow from the target, against single precision arithmetic.

use peer_manager::limits::{allowed_negative, max_peers, max_priority_peers, min_outbound_only};

const PEER_EXCESS_FACTOR: f32 = 0.1;
const MIN_OUTBOUND_ONLY_FACTOR: f32 = 0.3;
const PRIORITY_PEER_EXCESS: f32 = 0.05;
const ALLOWED_NEGATIVE_GOSSIPSUB_FACTOR: f32 = 0.1;

fn agrees(target: usize) {
    let t = target as f32;
    assert_eq!(max_peers(target), (t * (1.0 + PEER_EXCESS_FACTOR)).ceil() as usize);
    assert_eq!(
        max_priority_peers(target),
        (t * (1.0 + PEER_EXCESS_FACTOR + PRIORITY_PEER_EXCESS)).ceil() as usize
    );
    assert_eq!(min_outbound_only(target), (t * MIN_OUTBOUND_ONLY_FACTOR).ceil() as usize);
    assert_eq!(
        allowed_negative(target),
        (t * ALLOWED_NEGATIVE_GOSSIPSUB_FACTOR).ceil() as usize
    );
}

#[test]
fn limits_agree_with_single_precision() {
    for target in 0..20_000 {
        agrees(target);
    }
    for shift in 0..64 {
        let power = 1usize << shift;
        agrees(power);
        agrees(power - 1);
        agrees(power.wrapping_add(1));
        agrees(power.wrapping_mul(3));
        agrees(power.wrapping_mul(0x1234_5677));
    }
    agrees(usize::MAX);
    agrees(usize::MAX / 2 + 7);
}

#[test]
fn limits_of_fifty_peers() {
    assert_eq!(max_peers(50), 55);
    assert_eq!(max_priority_peers(50), 58);
    assert_eq!(min_outbound_only(50), 16);
    assert_eq!(allowed_negative(50), 5);
}

#[test]
fn limits_of_few_peers() {
    assert_eq!(max_peers(0), 0);
    assert_eq!(max_priority_peers(0), 0);
    assert_eq!(min_outbound_only(0), 0);
    assert_eq!(allowed_negative(0), 0);
    assert_eq!(max_peers(1), 2);
    assert_eq!(min_outbound_only(1), 1);
    assert_eq!(min_outbound_only(3), 1);
    assert_eq!(max_peers(3), 4);
}
