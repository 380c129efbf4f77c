//! The peer counts that follow from the target.
//!
//! Each is a fraction of the target, rounded up. The fractions are single precision numbers, and
//! so is the product: a count that is not exactly representable is first rounded to the nearest
//! number with 24 significant bits.

use vstd::arithmetic::div_mod::lemma_fundamental_div_mod;
use vstd::prelude::*;

verus! {

/// The distance between the numbers with 24 significant bits around `n`.
pub open spec fn unit(n: nat) -> nat
    decreases n,
{
    if n < 0x100_0000 {
        1
    } else {
        2 * unit(n / 2)
    }
}

/// The number with 24 significant bits that is nearest to `n`; of two, the even multiple.
pub open spec fn nearest(n: nat) -> nat {
    let below = n / unit(n);
    let rest = n % unit(n);
    if 2 * rest < unit(n) || (2 * rest == unit(n) && below % 2 == 0) {
        below * unit(n)
    } else {
        (below + 1) * unit(n)
    }
}

/// `n / d`, rounded up.
pub open spec fn ceiling(n: nat, d: nat) -> nat {
    if n % d == 0 {
        n / d
    } else {
        n / d + 1
    }
}

/// `target * mantissa / denominator` in single precision, rounded up, and at most the largest
/// count.
pub open spec fn scaled(target: usize, mantissa: nat, denominator: nat) -> nat {
    let count = ceiling(nearest(nearest(target as nat) * mantissa), denominator);
    if count <= usize::MAX {
        count
    } else {
        usize::MAX as nat
    }
}

/// The most peers that may be connected: a tenth more than the target.
pub open spec fn spec_max_peers(target_peers: usize) -> nat {
    scaled(target_peers, 9_227_469, 0x80_0000)
}

/// The most peers that may be connected once peers that are needed for duties are dialed: fifteen
/// hundredths more than the target.
pub open spec fn spec_max_priority_peers(target_peers: usize) -> nat {
    scaled(target_peers, 9_646_899, 0x80_0000)
}

/// The least number of peers that should be outbound-only: three tenths of the target.
pub open spec fn spec_min_outbound_only(target_peers: usize) -> nat {
    scaled(target_peers, 10_066_330, 0x200_0000)
}

/// The number of peers whose negative gossipsub score is let pass: a tenth of the target.
pub open spec fn spec_allowed_negative(target_peers: usize) -> nat {
    scaled(target_peers, 13_421_773, 0x800_0000)
}

proof fn lemma_unit(n: nat)
    ensures
        unit(n) >= 1,
        n >= 0x100_0000 ==> 0x80_0000 * unit(n) <= n,
        n < 0x100_0000 ==> unit(n) == 1,
    decreases n,
{
    if n >= 0x100_0000 {
        lemma_unit(n / 2);
    }
}

/// Rounding to 24 significant bits moves a number by at most one part in 2^24.
pub proof fn nearest_is_close(n: nat)
    ensures
        0x100_0000 * nearest(n) <= 0x100_0001 * n,
        0xff_ffff * n <= 0x100_0000 * nearest(n),
        n < 0x100_0000 ==> nearest(n) == n,
{
    lemma_unit(n);
    let u = unit(n) as int;
    lemma_fundamental_div_mod(n as int, u);
    let below = n as int / u;
    let rest = n as int % u;
    assert(n == u * below + rest);
    assert(u * below == below * u) by (nonlinear_arith);
    assert((below + 1) * u == below * u + u) by (nonlinear_arith);
    assert(0 <= rest < u);
    if n < 0x100_0000 {
        assert(rest == 0);
        assert(below * 1 == below) by (nonlinear_arith);
    }
}

fn unit_of(n: u128) -> (u: u128)
    requires
        n < 0x4000_0000_0000_0000_0000_0000,
    ensures
        u == unit(n as nat),
        1 <= u <= 0x1_0000_0000_0000_0000_0000,
{
    let mut m: u128 = n;
    let mut u: u128 = 1;
    proof {
        lemma_unit(n as nat);
    }
    while m >= 0x100_0000
        invariant
            u >= 1,
            m <= n,
            n < 0x4000_0000_0000_0000_0000_0000,
            n >= 0x100_0000 ==> 0x80_0000 * unit(n as nat) <= n,
            n < 0x100_0000 ==> unit(n as nat) == 1,
            u * unit(m as nat) == unit(n as nat),
            unit(n as nat) >= 1,
        decreases m,
    {
        proof {
            lemma_unit(m as nat);
            lemma_unit((m / 2) as nat);
            let half = unit((m / 2) as nat) as int;
            assert(unit(m as nat) == 2 * half);
            assert(u * (2 * half) == (2 * u) * half) by (nonlinear_arith);
            assert(2 * u <= (2 * u) * half) by (nonlinear_arith)
                requires
                    u >= 1,
                    half >= 1,
            ;
        }
        m = m / 2;
        u = 2 * u;
    }
    assert(u * 1 == u) by (nonlinear_arith);
    u
}

fn round_to_nearest(n: u128) -> (r: u128)
    requires
        n < 0x4000_0000_0000_0000_0000_0000,
    ensures
        r == nearest(n as nat),
        r <= 2 * n,
{
    let u: u128 = unit_of(n);
    let below: u128 = n / u;
    let rest: u128 = n % u;
    proof {
        nearest_is_close(n as nat);
        lemma_fundamental_div_mod(n as int, u as int);
        assert(u * below == below * u) by (nonlinear_arith);
        assert((below + 1) * u == below * u + u) by (nonlinear_arith);
    }
    if 2 * rest < u || (2 * rest == u && below % 2 == 0) {
        below * u
    } else {
        (below + 1) * u
    }
}

fn scale(target: usize, mantissa: u128, denominator: u128) -> (count: usize)
    requires
        mantissa < 0x100_0000,
        denominator > 0,
    ensures
        count == scaled(target, mantissa as nat, denominator as nat),
{
    let whole: u128 = round_to_nearest(target as u128);
    assert(whole * mantissa <= 0x2_0000_0000_0000_0000 * 0x100_0000) by (nonlinear_arith)
        requires
            whole <= 0x2_0000_0000_0000_0000,
            mantissa < 0x100_0000,
    ;
    let product: u128 = round_to_nearest(whole * mantissa);
    let mut count: u128 = product / denominator;
    proof {
        lemma_fundamental_div_mod(product as int, denominator as int);
        assert(product / denominator <= product) by (nonlinear_arith)
            requires
                denominator > 0,
        ;
    }
    if product % denominator != 0 {
        count = count + 1;
    }
    if count <= usize::MAX as u128 {
        count as usize
    } else {
        usize::MAX
    }
}

/// The most peers that may be connected.
pub fn max_peers(target_peers: usize) -> (count: usize)
    ensures
        count == spec_max_peers(target_peers),
{
    scale(target_peers, 9_227_469, 0x80_0000)
}

/// The most peers that may be connected once peers that are needed for duties are dialed.
pub fn max_priority_peers(target_peers: usize) -> (count: usize)
    ensures
        count == spec_max_priority_peers(target_peers),
{
    scale(target_peers, 9_646_899, 0x80_0000)
}

/// The least number of peers that should be outbound-only.
pub fn min_outbound_only(target_peers: usize) -> (count: usize)
    ensures
        count == spec_min_outbound_only(target_peers),
{
    scale(target_peers, 10_066_330, 0x200_0000)
}

/// The number of peers whose negative gossipsub score is let pass.
pub fn allowed_negative(target_peers: usize) -> (count: usize)
    ensures
        count == spec_allowed_negative(target_peers),
{
    scale(target_peers, 13_421_773, 0x800_0000)
}

/// The limits are ordered: the target, then what may connect, then what may be dialed for duties.
pub proof fn limits_are_ordered(target_peers: usize)
    ensures
        target_peers <= spec_max_peers(target_peers) <= spec_max_priority_peers(target_peers),
        spec_min_outbound_only(target_peers) <= target_peers,
        spec_allowed_negative(target_peers) <= target_peers,
{
    let t = target_peers as nat;
    let whole = nearest(t);
    nearest_is_close(t);
    nearest_is_close(whole * 9_227_469);
    nearest_is_close(whole * 9_646_899);
    nearest_is_close(whole * 10_066_330);
    nearest_is_close(whole * 13_421_773);
}

/// Up to a hundred thousand target peers, single precision is fine enough: each limit is the least
/// count that is no less than its fraction of the target, or one more where that fraction is a
/// whole number.
pub proof fn limits_follow_their_fractions(target_peers: usize)
    requires
        target_peers <= 100_000,
    ensures
        11 * target_peers <= 10 * spec_max_peers(target_peers) <= 11 * target_peers + 10,
        23 * target_peers <= 20 * spec_max_priority_peers(target_peers) <= 23 * target_peers + 20,
        3 * target_peers <= 10 * spec_min_outbound_only(target_peers) <= 3 * target_peers + 10,
        target_peers <= 10 * spec_allowed_negative(target_peers) <= target_peers + 10,
{
    let whole = nearest(target_peers as nat);
    nearest_is_close(target_peers as nat);
    nearest_is_close(whole * 9_227_469);
    nearest_is_close(whole * 9_646_899);
    nearest_is_close(whole * 10_066_330);
    nearest_is_close(whole * 13_421_773);
}

/// No number with 24 significant bits is nearer to `n` than the one it is rounded to: where that is
/// `k` times the distance between them, no other multiple is, and of two that are as near it is the
/// even one.
pub proof fn nearest_is_nearest(n: nat, k: nat)
    ensures
        ({
            let r = nearest(n) as int;
            let m = (k * unit(n)) as int;
            let off = if r >= n {
                r - n
            } else {
                n - r
            };
            let other = if m >= n {
                m - n
            } else {
                n - m
            };
            &&& off <= other
            &&& off == other && m != r ==> k % 2 == 1
            &&& exists|j: nat| r == #[trigger] (j * unit(n))
        }),
{
    lemma_unit(n);
    let u = unit(n) as int;
    lemma_fundamental_div_mod(n as int, u);
    let below = n as int / u;
    let rest = n as int % u;
    assert(n == u * below + rest);
    assert(u * below == below * u) by (nonlinear_arith);
    assert((below + 1) * u == below * u + u) by (nonlinear_arith);
    assert(0 <= below) by (nonlinear_arith)
        requires
            n == u * below + rest,
            0 <= rest < u,
            n >= 0,
    ;
    assert(0 <= rest < u);
    if k <= below - 1 {
        assert(k * u <= (below - 1) * u) by (nonlinear_arith)
            requires
                k <= below - 1,
                u >= 1,
        ;
        assert((below - 1) * u == below * u - u) by (nonlinear_arith);
    } else if k >= below + 2 {
        assert(k * u >= (below + 2) * u) by (nonlinear_arith)
            requires
                k >= below + 2,
                u >= 1,
        ;
        assert((below + 2) * u == below * u + 2 * u) by (nonlinear_arith);
    }
    assert(below as nat * unit(n) == below * u);
    assert((below + 1) as nat * unit(n) == (below + 1) * u);
}

/// The distance between numbers with 24 significant bits is one up to where they end, and then is
/// such that they have just these bits.
pub proof fn units_leave_significant_bits(n: nat)
    ensures
        n < 0x100_0000 ==> unit(n) == 1,
        n >= 0x100_0000 ==> 0x80_0000 * unit(n) <= n < 0x100_0000 * unit(n),
    decreases n,
{
    if n >= 0x100_0000 {
        units_leave_significant_bits(n / 2);
    }
}

/// `count` is the least number that is no less than a fraction of the target, up to one part in
/// four million, or the largest count there is.
pub open spec fn is_nearly(
    count: nat,
    target: usize,
    numerator: nat,
    denominator: nat,
) -> bool {
    let exact = target * numerator;
    let scaled = count * denominator;
    &&& count == usize::MAX || 4_000_000 * scaled >= 3_999_999 * exact
    &&& 4_000_000 * scaled <= 4_000_001 * exact + 4_000_000 * denominator
}

/// For every target, however large, each limit is its fraction of the target, rounded up, but for
/// the precision of the arithmetic.
pub proof fn limits_are_fractions(target_peers: usize)
    ensures
        is_nearly(spec_max_peers(target_peers), target_peers, 11, 10),
        is_nearly(spec_max_priority_peers(target_peers), target_peers, 115, 100),
        is_nearly(spec_min_outbound_only(target_peers), target_peers, 3, 10),
        is_nearly(spec_allowed_negative(target_peers), target_peers, 1, 10),
{
    let whole = nearest(target_peers as nat);
    nearest_is_close(target_peers as nat);
    nearest_is_close(whole * 9_227_469);
    nearest_is_close(whole * 9_646_899);
    nearest_is_close(whole * 10_066_330);
    nearest_is_close(whole * 13_421_773);
}

} // verus!
