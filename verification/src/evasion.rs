//! Evasion synthesis: one direction blended out of the steps aside that the
//! threats call for, each weighted by the inverse of its distance.
use vstd::prelude::*;
use crate::fixed::{divide, lemma_rounded_between, lemma_rounded_of_multiple, rounded};
use crate::geometry::Direction;
use crate::threat::{closest, lemma_closest_is_attained, lemma_closest_is_least, Threat};

verus! {

/// The share of the closest threat. Shares are what the weights are before
/// they are divided by their sum.
pub const FULL_SHARE: u64 = 0x1_0000_0000;

/// The share of a threat at `distance` when the closest is at `nearest`: the
/// inverse of its distance, in units of the inverse of the closest distance,
/// rounded down. Beside a threat at distance zero any farther one has no
/// share.
pub open spec fn share(distance: nat, nearest: nat) -> nat {
    if distance <= nearest {
        FULL_SHARE as nat
    } else {
        (FULL_SHARE * nearest / (distance as int)) as nat
    }
}

/// The shares of the first `n` threats, added up.
pub open spec fn share_sum(threats: Seq<Threat>, nearest: nat, n: int) -> nat
    decreases n,
{
    if n <= 0 {
        0
    } else {
        share_sum(threats, nearest, n - 1) + share(threats[n - 1].distance as nat, nearest)
    }
}

/// The steps aside of the first `n` threats, each multiplied by its share and
/// added up: the x components.
pub open spec fn pull_x(threats: Seq<Threat>, nearest: nat, n: int) -> int
    decreases n,
{
    if n <= 0 {
        0
    } else {
        pull_x(threats, nearest, n - 1) + share(threats[n - 1].distance as nat, nearest)
            * threats[n - 1].evasion.x
    }
}

/// The steps aside of the first `n` threats, each multiplied by its share and
/// added up: the y components.
pub open spec fn pull_y(threats: Seq<Threat>, nearest: nat, n: int) -> int
    decreases n,
{
    if n <= 0 {
        0
    } else {
        pull_y(threats, nearest, n - 1) + share(threats[n - 1].distance as nat, nearest)
            * threats[n - 1].evasion.y
    }
}

/// The sum of all shares: what the weights are normalised by.
pub open spec fn total_share(threats: Seq<Threat>) -> nat {
    share_sum(threats, closest(threats), threats.len() as int)
}

/// The blend of the steps aside: their sum, each weighted by its share of the
/// total, each component rounded to the nearest millionth. No threats, no
/// movement.
pub open spec fn composite(threats: Seq<Threat>) -> Direction {
    if threats.len() == 0 {
        Direction { x: 0, y: 0 }
    } else {
        let n = threats.len() as int;
        let nearest = closest(threats);
        Direction {
            x: rounded(pull_x(threats, nearest, n), total_share(threats) as int) as i32,
            y: rounded(pull_y(threats, nearest, n), total_share(threats) as int) as i32,
        }
    }
}

/// No share exceeds the full share.
pub proof fn lemma_share_bound(distance: nat, nearest: nat)
    ensures
        share(distance, nearest) <= FULL_SHARE,
{
    if distance > nearest {
        assert(FULL_SHARE * nearest / (distance as int) <= FULL_SHARE) by (nonlinear_arith)
            requires
                0 <= nearest < distance,
                FULL_SHARE == 0x1_0000_0000,
        ;
        assert(0 <= FULL_SHARE * nearest / (distance as int)) by (nonlinear_arith)
            requires
                0 <= nearest < distance,
                FULL_SHARE == 0x1_0000_0000,
        ;
    }
}

/// A threat farther off than the closest has less than the full share.
pub proof fn lemma_share_strict(distance: nat, nearest: nat)
    requires
        nearest < distance,
    ensures
        share(distance, nearest) < FULL_SHARE,
{
    assert(FULL_SHARE * nearest / (distance as int) < FULL_SHARE) by (nonlinear_arith)
        requires
            0 <= nearest < distance,
            FULL_SHARE == 0x1_0000_0000,
    ;
    assert(0 <= FULL_SHARE * nearest / (distance as int)) by (nonlinear_arith)
        requires
            0 <= nearest < distance,
            FULL_SHARE == 0x1_0000_0000,
    ;
}

/// The nearer threat has the larger share, or an equal one.
pub proof fn lemma_share_monotone(nearer: nat, farther: nat, nearest: nat)
    requires
        nearer <= farther,
    ensures
        share(nearer, nearest) >= share(farther, nearest),
{
    lemma_share_bound(farther, nearest);
    if nearer > nearest {
        let whole = FULL_SHARE * nearest;
        assert(whole / (nearer as int) >= whole / (farther as int)) by (nonlinear_arith)
            requires
                0 < nearer <= farther,
                whole >= 0,
        ;
        assert(whole / (farther as int) >= 0) by (nonlinear_arith)
            requires
                0 < farther,
                whole >= 0,
        ;
    }
}

/// A share is the inverse of the distance: multiplied by the distance it
/// gives the same product for every threat beyond the closest, that of the
/// full share and the closest distance, but for what rounding down takes.
pub proof fn lemma_share_is_inverse_distance(distance: nat, nearest: nat)
    requires
        nearest < distance,
    ensures
        share(distance, nearest) * distance <= FULL_SHARE * nearest < (share(distance, nearest)
            + 1) * distance,
{
    let whole = FULL_SHARE * nearest;
    let d = distance as int;
    assert((whole / d) * d <= whole < (whole / d + 1) * d && whole / d >= 0) by (nonlinear_arith)
        requires
            d > 0,
            whole >= 0,
    ;
}

/// The sum of the shares grows with the number of threats counted, and by no
/// more than a full share for each.
pub proof fn lemma_share_sum_grows(threats: Seq<Threat>, nearest: nat, m: int, n: int)
    requires
        0 <= m <= n,
    ensures
        share_sum(threats, nearest, m) <= share_sum(threats, nearest, n),
        share_sum(threats, nearest, n) <= n * FULL_SHARE,
    decreases n,
{
    if n > 0 {
        lemma_share_bound(threats[n - 1].distance as nat, nearest);
        if m < n {
            lemma_share_sum_grows(threats, nearest, m, n - 1);
        } else {
            lemma_share_sum_grows(threats, nearest, n - 1, n - 1);
        }
    }
}

/// Where there is a threat, the shares add up to a full share at least: the
/// weights can be normalised without dividing by zero.
pub proof fn lemma_total_share_positive(threats: Seq<Threat>)
    requires
        threats.len() > 0,
    ensures
        total_share(threats) >= FULL_SHARE,
{
    let nearest = closest(threats);
    let k = lemma_closest_is_attained(threats);
    lemma_share_sum_grows(threats, nearest, 0, k);
    lemma_share_sum_grows(threats, nearest, k + 1, threats.len() as int);
}

/// The weighted sum of the steps aside lies between the bounds that every
/// step keeps, each multiplied by the sum of the shares.
pub proof fn lemma_pull_between(threats: Seq<Threat>, nearest: nat, n: int, lo: int, hi: int)
    requires
        0 <= n <= threats.len(),
        forall|i: int| 0 <= i < n ==> lo <= (#[trigger] threats[i]).evasion.x <= hi,
        forall|i: int| 0 <= i < n ==> lo <= (#[trigger] threats[i]).evasion.y <= hi,
    ensures
        lo * share_sum(threats, nearest, n) <= pull_x(threats, nearest, n) <= hi * share_sum(
            threats,
            nearest,
            n,
        ),
        lo * share_sum(threats, nearest, n) <= pull_y(threats, nearest, n) <= hi * share_sum(
            threats,
            nearest,
            n,
        ),
    decreases n,
{
    if n > 0 {
        lemma_pull_between(threats, nearest, n - 1, lo, hi);
        let s = share(threats[n - 1].distance as nat, nearest) as int;
        let before = share_sum(threats, nearest, n - 1) as int;
        let x = threats[n - 1].evasion.x as int;
        let y = threats[n - 1].evasion.y as int;
        assert(lo * (before + s) == lo * before + lo * s) by (nonlinear_arith);
        assert(hi * (before + s) == hi * before + hi * s) by (nonlinear_arith);
        assert(lo * s <= s * x <= hi * s) by (nonlinear_arith)
            requires
                s >= 0,
                lo <= x <= hi,
        ;
        assert(lo * s <= s * y <= hi * s) by (nonlinear_arith)
            requires
                s >= 0,
                lo <= y <= hi,
        ;
    } else {
        assert(lo * 0 == 0 && hi * 0 == 0);
    }
}

/// The distance of the closest threat.
pub fn closest_distance(threats: &Vec<Threat>) -> (d: u64)
    ensures
        d == closest(threats@),
{
    let mut d: u64 = 0;
    let mut i: usize = 0;
    while i < threats.len()
        invariant
            i <= threats.len(),
            d == closest(threats@.take(i as int)),
        decreases threats.len() - i,
    {
        proof {
            assert(threats@.take(i + 1).drop_last() == threats@.take(i as int));
        }
        if i == 0 || threats[i].distance < d {
            d = threats[i].distance;
        }
        i += 1;
    }
    proof {
        assert(threats@.take(threats.len() as int) == threats@);
    }
    d
}

/// The share of one threat.
pub fn share_of(distance: u64, nearest: u64) -> (s: u64)
    ensures
        s == share(distance as nat, nearest as nat),
        s <= FULL_SHARE,
{
    proof {
        lemma_share_bound(distance as nat, nearest as nat);
    }
    if distance <= nearest {
        FULL_SHARE
    } else {
        assert(FULL_SHARE * nearest <= 0x1_0000_0000_0000_0000_0000_0000) by (nonlinear_arith)
            requires
                FULL_SHARE == 0x1_0000_0000,
                0 <= nearest <= 0xffff_ffff_ffff_ffff,
        ;
        ((FULL_SHARE as u128 * nearest as u128) / distance as u128) as u64
    }
}

/// The shares of the threats, in their order: the inverse distances, before
/// they are normalised by their sum.
pub fn weights(threats: &Vec<Threat>) -> (shares: Vec<u64>)
    ensures
        shares.len() == threats.len(),
        forall|i: int|
            0 <= i < threats.len() ==> shares[i] == share(
                (#[trigger] threats[i]).distance as nat,
                closest(threats@),
            ),
{
    let nearest = closest_distance(threats);
    let mut shares: Vec<u64> = Vec::new();
    let mut i: usize = 0;
    while i < threats.len()
        invariant
            i <= threats.len(),
            nearest == closest(threats@),
            shares.len() == i,
            forall|k: int|
                0 <= k < i ==> shares[k] == share(
                    (#[trigger] threats[k]).distance as nat,
                    nearest as nat,
                ),
        decreases threats.len() - i,
    {
        shares.push(share_of(threats[i].distance, nearest));
        i += 1;
    }
    shares
}

/// Blends the steps aside of the threats into one direction.
pub fn synthesize(threats: &Vec<Threat>) -> (d: Direction)
    ensures
        d == composite(threats@),
{
    if threats.len() == 0 {
        return Direction { x: 0, y: 0 };
    }
    let shares = weights(threats);
    let ghost nearest = closest(threats@);
    let mut total: u128 = 0;
    let mut x: i128 = 0;
    let mut y: i128 = 0;
    let mut i: usize = 0;
    while i < threats.len()
        invariant
            i <= threats.len(),
            shares.len() == threats.len(),
            forall|k: int|
                0 <= k < threats.len() ==> shares[k] == share(
                    (#[trigger] threats[k]).distance as nat,
                    nearest,
                ),
            total == share_sum(threats@, nearest, i as int),
            x == pull_x(threats@, nearest, i as int),
            y == pull_y(threats@, nearest, i as int),
            total <= i * FULL_SHARE,
            -(i * 0x8000_0000_0000_0000) <= x <= i * 0x8000_0000_0000_0000,
            -(i * 0x8000_0000_0000_0000) <= y <= i * 0x8000_0000_0000_0000,
        decreases threats.len() - i,
    {
        let threat = threats[i];
        let s: u64 = shares[i];
        proof {
            lemma_share_bound(threat.distance as nat, nearest);
            assert(threats@[i as int] == threat);
        }
        let vx: i128 = threat.evasion.x as i128;
        let vy: i128 = threat.evasion.y as i128;
        assert(-0x8000_0000_0000_0000 <= s * vx <= 0x8000_0000_0000_0000) by (nonlinear_arith)
            requires
                0 <= s <= 0x1_0000_0000,
                -0x8000_0000 <= vx <= 0x8000_0000,
        ;
        assert(-0x8000_0000_0000_0000 <= s * vy <= 0x8000_0000_0000_0000) by (nonlinear_arith)
            requires
                0 <= s <= 0x1_0000_0000,
                -0x8000_0000 <= vy <= 0x8000_0000,
        ;
        total = total + s as u128;
        x = x + s as i128 * vx;
        y = y + s as i128 * vy;
        i += 1;
    }
    proof {
        lemma_total_share_positive(threats@);
        let n = threats.len() as int;
        lemma_pull_between(threats@, nearest, n, i32::MIN as int, i32::MAX as int);
        lemma_rounded_between(x as int, total as int, i32::MIN as int, i32::MAX as int);
        lemma_rounded_between(y as int, total as int, i32::MIN as int, i32::MAX as int);
    }
    Direction { x: divide(x, total as i128) as i32, y: divide(y, total as i128) as i32 }
}

/// The shares of the threats, in their order.
pub open spec fn shares(threats: Seq<Threat>) -> Seq<nat> {
    Seq::new(threats.len(), |i: int| share(threats[i].distance as nat, closest(threats)))
}

/// The sum of `parts`.
pub open spec fn sum(parts: Seq<nat>) -> nat
    decreases parts.len(),
{
    if parts.len() == 0 {
        0
    } else {
        sum(parts.drop_last()) + parts.last()
    }
}

/// The inner product of two directions, in millionths of millionths.
pub open spec fn dot(a: Direction, b: Direction) -> int {
    a.x * b.x + a.y * b.y
}

proof fn lemma_sum_of_shares(threats: Seq<Threat>, n: int)
    requires
        0 <= n <= threats.len(),
    ensures
        sum(shares(threats).take(n)) == share_sum(threats, closest(threats), n),
    decreases n,
{
    if n > 0 {
        lemma_sum_of_shares(threats, n - 1);
        assert(shares(threats).take(n).drop_last() == shares(threats).take(n - 1));
    }
}

/// The weights add up to one. The weight of a threat is its share divided by
/// `total_share`; where there is a threat, `total_share` is positive and is
/// exactly what the shares add up to.
pub proof fn lemma_weights_sum_to_one(threats: Seq<Threat>)
    requires
        threats.len() > 0,
    ensures
        total_share(threats) > 0,
        sum(shares(threats)) == total_share(threats),
{
    lemma_total_share_positive(threats);
    lemma_sum_of_shares(threats, threats.len() as int);
    assert(shares(threats).take(threats.len() as int) == shares(threats));
}

proof fn lemma_pull_unanimous(threats: Seq<Threat>, nearest: nat, n: int, step: Direction)
    requires
        0 <= n <= threats.len(),
        forall|i: int| 0 <= i < n ==> (#[trigger] threats[i]).evasion == step,
    ensures
        pull_x(threats, nearest, n) == step.x * share_sum(threats, nearest, n),
        pull_y(threats, nearest, n) == step.y * share_sum(threats, nearest, n),
    decreases n,
{
    if n > 0 {
        lemma_pull_unanimous(threats, nearest, n - 1, step);
        let s = share(threats[n - 1].distance as nat, nearest) as int;
        let before = share_sum(threats, nearest, n - 1) as int;
        assert(threats[n - 1].evasion == step);
        assert(step.x * (before + s) == step.x * before + s * step.x) by (nonlinear_arith);
        assert(step.y * (before + s) == step.y * before + s * step.y) by (nonlinear_arith);
    } else {
        assert(step.x * 0 == 0 && step.y * 0 == 0);
    }
}

/// Where every threat calls for the same step aside, the blend is that step,
/// exactly: the weights take nothing from it and add nothing to it.
pub proof fn lemma_unanimous(threats: Seq<Threat>, step: Direction)
    requires
        threats.len() > 0,
        forall|i: int| 0 <= i < threats.len() ==> (#[trigger] threats[i]).evasion == step,
    ensures
        composite(threats) == step,
{
    let n = threats.len() as int;
    let total = total_share(threats) as int;
    lemma_total_share_positive(threats);
    lemma_pull_unanimous(threats, closest(threats), n, step);
    lemma_rounded_of_multiple(step.x as int, total);
    lemma_rounded_of_multiple(step.y as int, total);
}

/// The blend stays within the steps it is made of: bounds that every step
/// keeps, the blend keeps too.
pub proof fn lemma_composite_between(threats: Seq<Threat>, lo: int, hi: int)
    requires
        lo <= 0 <= hi,
        forall|i: int| 0 <= i < threats.len() ==> lo <= (#[trigger] threats[i]).evasion.x <= hi,
        forall|i: int| 0 <= i < threats.len() ==> lo <= (#[trigger] threats[i]).evasion.y <= hi,
    ensures
        lo <= composite(threats).x <= hi,
        lo <= composite(threats).y <= hi,
{
    if threats.len() > 0 {
        let n = threats.len() as int;
        let nearest = closest(threats);
        let total = total_share(threats) as int;
        lemma_total_share_positive(threats);
        lemma_pull_between(threats, nearest, n, i32::MIN as int, i32::MAX as int);
        lemma_rounded_between(pull_x(threats, nearest, n), total, i32::MIN as int, i32::MAX as int);
        lemma_rounded_between(pull_y(threats, nearest, n), total, i32::MIN as int, i32::MAX as int);
        lemma_pull_between(threats, nearest, n, lo, hi);
        lemma_rounded_between(pull_x(threats, nearest, n), total, lo, hi);
        lemma_rounded_between(pull_y(threats, nearest, n), total, lo, hi);
    }
}

/// Two threats at one distance that call for opposite steps cancel: the
/// fighter stays between them.
pub proof fn lemma_opposite_steps_cancel(threats: Seq<Threat>)
    requires
        threats.len() == 2,
        threats[0].distance == threats[1].distance,
        threats[0].evasion.x + threats[1].evasion.x == 0,
        threats[0].evasion.y + threats[1].evasion.y == 0,
    ensures
        composite(threats) == (Direction { x: 0, y: 0 }),
{
    let nearest = closest(threats);
    lemma_closest_is_least(threats, 0);
    let k = lemma_closest_is_attained(threats);
    lemma_total_share_positive(threats);
    assert(pull_x(threats, nearest, 0) == 0);
    assert(pull_y(threats, nearest, 0) == 0);
    assert(pull_x(threats, nearest, 1) == FULL_SHARE * threats[0].evasion.x);
    assert(pull_y(threats, nearest, 1) == FULL_SHARE * threats[0].evasion.y);
    let x = threats[0].evasion.x as int;
    let y = threats[0].evasion.y as int;
    let full = FULL_SHARE as int;
    assert(full * x + full * (-x) == 0) by (nonlinear_arith);
    assert(full * y + full * (-y) == 0) by (nonlinear_arith);
    assert(pull_x(threats, nearest, 2) == 0);
    assert(pull_y(threats, nearest, 2) == 0);
}

/// The closer threat weighs more. Of two threats whose steps aside are at
/// right angles, each step other than zero, the weighted sum of the steps has
/// the larger coefficient on the step of the closer threat. The coefficient
/// on a step is the inner product of the sum with the step, divided by that
/// of the step with itself; the two are compared with the divisions
/// multiplied out. For steps of one length that is to say that the sum
/// reaches farther along the closer threat's step than along the other's.
pub proof fn lemma_closer_weighs_more(threats: Seq<Threat>, near: int, far: int)
    requires
        threats.len() == 2,
        (near == 0 && far == 1) || (near == 1 && far == 0),
        threats[near].distance < threats[far].distance,
        dot(threats[near].evasion, threats[far].evasion) == 0,
        dot(threats[near].evasion, threats[near].evasion) > 0,
        dot(threats[far].evasion, threats[far].evasion) > 0,
    ensures
        ({
            let pull = (
                pull_x(threats, closest(threats), 2),
                pull_y(threats, closest(threats), 2),
            );
            let a = threats[near].evasion;
            let b = threats[far].evasion;
            (pull.0 * a.x + pull.1 * a.y) * dot(b, b) > (pull.0 * b.x + pull.1 * b.y) * dot(a, a)
        }),
        share(threats[near].distance as nat, closest(threats)) > share(
            threats[far].distance as nat,
            closest(threats),
        ),
{
    let nearest = closest(threats);
    let k = lemma_closest_is_attained(threats);
    lemma_closest_is_least(threats, near);
    assert(nearest == threats[near].distance);
    let a = threats[near].evasion;
    let b = threats[far].evasion;
    let sa = share(threats[near].distance as nat, nearest) as int;
    let sb = share(threats[far].distance as nat, nearest) as int;
    lemma_share_strict(threats[far].distance as nat, nearest);
    assert(sa == FULL_SHARE);
    assert(pull_x(threats, nearest, 0) == 0);
    assert(pull_y(threats, nearest, 0) == 0);
    assert(pull_x(threats, nearest, 1) == share(threats[0].distance as nat, nearest)
        * threats[0].evasion.x);
    assert(pull_y(threats, nearest, 1) == share(threats[0].distance as nat, nearest)
        * threats[0].evasion.y);
    let px = pull_x(threats, nearest, 2);
    let py = pull_y(threats, nearest, 2);
    assert(px == sa * a.x + sb * b.x);
    assert(py == sa * a.y + sb * b.y);
    let ax = a.x as int;
    let ay = a.y as int;
    let bx = b.x as int;
    let by = b.y as int;
    let aa = ax * ax + ay * ay;
    let bb = bx * bx + by * by;
    let ab = ax * bx + ay * by;
    assert(px * ax == sa * (ax * ax) + sb * (ax * bx)) by (nonlinear_arith)
        requires
            px == sa * ax + sb * bx,
    ;
    assert(py * ay == sa * (ay * ay) + sb * (ay * by)) by (nonlinear_arith)
        requires
            py == sa * ay + sb * by,
    ;
    assert(sa * (ax * ax) + sa * (ay * ay) == sa * aa) by (nonlinear_arith)
        requires
            aa == ax * ax + ay * ay,
    ;
    assert(sb * (ax * bx) + sb * (ay * by) == sb * ab) by (nonlinear_arith)
        requires
            ab == ax * bx + ay * by,
    ;
    assert(px * bx == sa * (ax * bx) + sb * (bx * bx)) by (nonlinear_arith)
        requires
            px == sa * ax + sb * bx,
    ;
    assert(py * by == sa * (ay * by) + sb * (by * by)) by (nonlinear_arith)
        requires
            py == sa * ay + sb * by,
    ;
    assert(sb * (bx * bx) + sb * (by * by) == sb * bb) by (nonlinear_arith)
        requires
            bb == bx * bx + by * by,
    ;
    assert(sa * (ax * bx) + sa * (ay * by) == sa * ab) by (nonlinear_arith)
        requires
            ab == ax * bx + ay * by,
    ;
    assert(ab == 0);
    assert(sa * ab == 0 && sb * ab == 0) by (nonlinear_arith)
        requires
            ab == 0,
    ;
    assert(px * ax + py * ay == sa * aa);
    assert(px * bx + py * by == sb * bb);
    assert((sa * aa) * bb > (sb * bb) * aa) by (nonlinear_arith)
        requires
            sa > sb,
            sb >= 0,
            aa > 0,
            bb > 0,
    ;
}

} // verus!
