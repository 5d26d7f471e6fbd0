//! Threat classification: which of the projectiles in flight endanger a
//! fighter this tick, how far off each is, and which way to step aside.
use vstd::prelude::*;
use crate::angle::{deviation, lemma_unit_components, wrap, Angle, HALF_TURN};
use crate::fixed::{floor_sqrt, isqrt, MICRO_SQUARED};
use crate::geometry::{gap_squared, squared_gap, Direction, Point};

verus! {

/// How much wider than the danger radius the ring is inside which every
/// hostile projectile counts, whatever its course: fifteen length units.
pub const NEAR_MARGIN: u32 = 15_000;

/// The side a fighter or a projectile belongs to.
#[derive(Clone, Copy, Debug, PartialEq, Eq, Structural)]
pub enum Team {
    Player,
    Enemy,
}

/// One projectile as a fighter sees it at one tick.
#[derive(Clone, Copy, Debug)]
pub struct Sighting {
    /// Where the projectile is.
    pub position: Point,
    /// The angle it travels at; `None` where that angle is not a number, so
    /// that the projectile gives no signal of direction.
    pub travel: Option<Angle>,
    /// The angle of the line from the projectile to the fighter, in millionths
    /// of a radian; `None` where the two are at one place and the line has no
    /// angle.
    pub bearing: Option<i32>,
    /// The side that fired it.
    pub team: Team,
}

/// A projectile judged dangerous: how far off it is, rounded down to whole
/// thousandths, and the step aside that it calls for.
#[derive(Clone, Copy, Debug, PartialEq, Eq, Structural)]
pub struct Threat {
    pub distance: u64,
    pub evasion: Direction,
}

/// The projectile is inside the ring round the fighter: nearer than the danger
/// radius and the margin together.
pub open spec fn near(gap_sq: nat, radius: nat) -> bool {
    gap_sq < (radius + NEAR_MARGIN) * (radius + NEAR_MARGIN)
}

/// The projectile is headed for the fighter: its course turns away from the
/// line to the fighter by less than `radius / sqrt(gap_sq + radius^2)`
/// radians. With `turn` in millionths of a radian, and both sides squared.
pub open spec fn on_course(turn: int, gap_sq: nat, radius: nat) -> bool {
    turn * turn * (gap_sq + radius * radius) < MICRO_SQUARED * (radius * radius)
}

/// By how much the projectile's course turns away from the line to the
/// fighter at `agent`, within half a turn either way; `None` where either
/// angle is missing, and where the projectile is at the very place of the
/// fighter, so that the line has no angle whatever is given for it.
pub open spec fn turn_of(agent: Point, s: Sighting) -> Option<int> {
    match (s.travel, s.bearing) {
        (Some(t), Some(b)) => if gap_squared(agent, s.position) == 0 {
            None
        } else {
            Some(wrap(t.radians() - b))
        },
        _ => None,
    }
}

/// Whether a fighter of `team` at `agent`, with danger radius `radius`, is
/// endangered by the projectile.
///
/// A projectile of the fighter's own side never is, nor one without a course.
/// Any other is if it is near, or headed for the fighter.
pub open spec fn dangerous(team: Team, agent: Point, radius: nat, s: Sighting) -> bool {
    &&& s.team != team
    &&& s.travel is Some
    &&& (near(gap_squared(agent, s.position), radius) || (turn_of(agent, s) matches Some(turn)
        && on_course(turn, gap_squared(agent, s.position), radius)))
}

/// The step aside from a projectile: the sine of its course along x, and
/// along y the cosine, taken with the opposite sign where the course turns
/// away from the line to the fighter by a positive angle. Where that turn is
/// unknown the step is taken as for a turn of zero.
pub open spec fn evasion_of(agent: Point, s: Sighting) -> Direction
    recommends
        s.travel is Some,
{
    let t = s.travel->0;
    Direction {
        x: t.sin(),
        y: if turn_of(agent, s) matches Some(turn) && turn > 0 {
            (0 - t.cos()) as i32
        } else {
            t.cos()
        },
    }
}

/// What is recorded of a dangerous projectile.
pub open spec fn threat_of(agent: Point, s: Sighting) -> Threat
    recommends
        s.travel is Some,
{
    Threat {
        distance: floor_sqrt(gap_squared(agent, s.position)) as u64,
        evasion: evasion_of(agent, s),
    }
}

/// The dangerous ones among `sightings`, in the order sighted.
pub open spec fn sighted(team: Team, agent: Point, radius: nat, sightings: Seq<Sighting>) -> Seq<
    Threat,
>
    decreases sightings.len(),
{
    if sightings.len() == 0 {
        Seq::empty()
    } else {
        let before = sighted(team, agent, radius, sightings.drop_last());
        if dangerous(team, agent, radius, sightings.last()) {
            before.push(threat_of(agent, sightings.last()))
        } else {
            before
        }
    }
}

/// The distance of the closest threat; zero where there is none.
pub open spec fn closest(threats: Seq<Threat>) -> nat
    decreases threats.len(),
{
    if threats.len() == 0 {
        0
    } else if threats.len() == 1 {
        threats[0].distance as nat
    } else {
        let before = closest(threats.drop_last());
        if threats.last().distance < before {
            threats.last().distance as nat
        } else {
            before
        }
    }
}

/// The threats no farther off than `limit`, in order.
pub open spec fn within(threats: Seq<Threat>, limit: nat) -> Seq<Threat>
    decreases threats.len(),
{
    if threats.len() == 0 {
        Seq::empty()
    } else {
        let before = within(threats.drop_last(), limit);
        if threats.last().distance <= limit {
            before.push(threats.last())
        } else {
            before
        }
    }
}

/// The threats that belong to the nearest cluster: those no farther off than
/// twice the closest.
pub open spec fn nearest_cluster(threats: Seq<Threat>) -> Seq<Threat> {
    within(threats, 2 * closest(threats))
}

/// Judges one projectile: the threat it poses, or `None` where it poses none.
pub fn assess(team: Team, agent: Point, radius: u32, s: &Sighting) -> (r: Option<Threat>)
    ensures
        r == (if dangerous(team, agent, radius as nat, *s) {
            Some(threat_of(agent, *s))
        } else {
            None
        }),
{
    if s.team == team {
        return None;
    }
    let travel = match s.travel {
        Some(t) => t,
        None => {
            return None;
        },
    };
    let gap = squared_gap(agent, s.position);
    let r: u128 = radius as u128;
    let reach: u128 = r + NEAR_MARGIN as u128;
    assert(reach * reach <= 0x4_0000_0000_0000_0000) by (nonlinear_arith)
        requires
            0 <= reach <= 0x2_0000_0000,
    ;
    assert(r * r <= 0x1_0000_0000_0000_0000) by (nonlinear_arith)
        requires
            0 <= r <= 0x1_0000_0000,
    ;
    let turn: Option<i32> = match s.bearing {
        Some(b) => if gap == 0 {
            None
        } else {
            Some(deviation(travel.micro_radians(), b))
        },
        None => None,
    };
    let close = gap < reach * reach;
    let aimed = match turn {
        Some(d) => {
            let d: i128 = d as i128;
            assert(0 <= d * d <= 0x1000_0000_0000) by (nonlinear_arith)
                requires
                    -HALF_TURN <= d <= HALF_TURN,
            ;
            let dd: u128 = (d * d) as u128;
            let span: u128 = gap + r * r;
            assert(dd * span <= 0x4000_0000_0000_0000_0000_0000_0000) by (nonlinear_arith)
                requires
                    0 <= dd <= 0x1000_0000_0000,
                    0 <= span <= 0x4_0000_0000_0000_0000,
            ;
            assert(MICRO_SQUARED * (r * r) <= 0x1_0000_0000_0000_0000_0000_0000_0000)
                by (nonlinear_arith)
                requires
                    MICRO_SQUARED == 1_000_000_000_000,
                    0 <= r * r <= 0x1_0000_0000_0000_0000,
            ;
            dd * span < MICRO_SQUARED as u128 * (r * r)
        },
        None => false,
    };
    if !(close || aimed) {
        return None;
    }
    let cos = travel.cosine();
    let sin = travel.sine();
    let away = match turn {
        Some(d) => d > 0,
        None => false,
    };
    let y: i32 = if away {
        -cos
    } else {
        cos
    };
    Some(Threat { distance: isqrt(gap), evasion: Direction { x: sin, y } })
}

/// The threats to a fighter of `team` at `agent` with danger radius `radius`:
/// the dangerous ones among `sightings`, less those more than twice as far
/// off as the closest of them.
pub fn dangerous_bullets(team: Team, agent: Point, radius: u32, sightings: &Vec<Sighting>) -> (r:
    Vec<Threat>)
    ensures
        r@ == nearest_cluster(sighted(team, agent, radius as nat, sightings@)),
{
    let mut found: Vec<Threat> = Vec::new();
    let mut closest_distance: u64 = 0;
    let mut i: usize = 0;
    while i < sightings.len()
        invariant
            i <= sightings.len(),
            found@ == sighted(team, agent, radius as nat, sightings@.take(i as int)),
            closest_distance == closest(found@),
        decreases sightings.len() - i,
    {
        proof {
            assert(sightings@.take(i + 1).drop_last() == sightings@.take(i as int));
        }
        let ghost before = found@;
        match assess(team, agent, radius, &sightings[i]) {
            Some(threat) => {
                if found.len() == 0 || threat.distance < closest_distance {
                    closest_distance = threat.distance;
                }
                found.push(threat);
                proof {
                    assert(found@.drop_last() == before);
                }
            },
            None => {},
        }
        i += 1;
    }
    proof {
        assert(sightings@.take(sightings.len() as int) == sightings@);
    }
    let limit: u128 = 2 * closest_distance as u128;
    let mut kept: Vec<Threat> = Vec::new();
    let mut j: usize = 0;
    while j < found.len()
        invariant
            j <= found.len(),
            limit == 2 * closest(found@),
            kept@ == within(found@.take(j as int), limit as nat),
        decreases found.len() - j,
    {
        proof {
            assert(found@.take(j + 1).drop_last() == found@.take(j as int));
        }
        let threat = found[j];
        if threat.distance as u128 <= limit {
            kept.push(threat);
        }
        j += 1;
    }
    proof {
        assert(found@.take(found.len() as int) == found@);
    }
    kept
}

/// The cone narrows with distance: a course that is headed for the fighter
/// from afar is headed for it from any nearer place too, and so is any
/// course that turns away by less.
pub proof fn lemma_cone_narrows(turn: int, gap_sq: nat, radius: nat, less: int, nearer_sq: nat)
    requires
        on_course(turn, gap_sq, radius),
        nearer_sq <= gap_sq,
        less * less <= turn * turn,
    ensures
        on_course(less, nearer_sq, radius),
{
    let span = gap_sq + radius * radius;
    let nearer_span = nearer_sq + radius * radius;
    let ll = less * less;
    let tt = turn * turn;
    assert(ll >= 0) by (nonlinear_arith)
        requires
            ll == less * less,
    ;
    assert(ll * nearer_span <= tt * span) by (nonlinear_arith)
        requires
            0 <= ll <= tt,
            0 <= nearer_span <= span,
    ;
}

/// The step aside from a projectile is never no step at all.
pub proof fn lemma_step_is_not_zero(agent: Point, s: Sighting)
    requires
        s.travel matches Some(t) && t.well_formed(),
    ensures
        evasion_of(agent, s).x != 0 || evasion_of(agent, s).y != 0,
{
    let t = s.travel->0;
    lemma_unit_components(t.cos() as int, t.sin() as int);
}

/// A fighter is never endangered by a projectile of its own side, wherever
/// that projectile is: even at the very place of the fighter, where it was
/// fired.
pub proof fn lemma_own_fire_is_no_danger(team: Team, agent: Point, radius: nat, s: Sighting)
    requires
        s.team == team,
    ensures
        !dangerous(team, agent, radius, s),
{
}

/// The sightings of projectiles that the other side fired.
pub open spec fn hostile(team: Team, sightings: Seq<Sighting>) -> Seq<Sighting> {
    sightings.filter(|s: Sighting| s.team != team)
}

/// The projectiles of a fighter's own side might as well not be there: the
/// threats are those that the hostile projectiles alone give rise to.
pub proof fn lemma_own_fire_is_ignored(
    team: Team,
    agent: Point,
    radius: nat,
    sightings: Seq<Sighting>,
)
    ensures
        sighted(team, agent, radius, sightings) == sighted(
            team,
            agent,
            radius,
            hostile(team, sightings),
        ),
    decreases sightings.len(),
{
    reveal(Seq::filter);
    if sightings.len() > 0 {
        let before = sightings.drop_last();
        let last = sightings.last();
        lemma_own_fire_is_ignored(team, agent, radius, before);
        if last.team != team {
            let kept = hostile(team, before);
            assert(hostile(team, sightings) == kept.push(last));
            assert(kept.push(last).drop_last() == kept);
        }
    }
}

/// None of the sightings are dangerous exactly if none is recorded as a
/// threat.
pub proof fn lemma_sighted_none(team: Team, agent: Point, radius: nat, sightings: Seq<Sighting>)
    ensures
        sighted(team, agent, radius, sightings).len() == 0 <==> forall|i: int|
            0 <= i < sightings.len() ==> !dangerous(team, agent, radius, #[trigger] sightings[i]),
        sighted(team, agent, radius, sightings).len() <= sightings.len(),
    decreases sightings.len(),
{
    if sightings.len() > 0 {
        let before = sightings.drop_last();
        lemma_sighted_none(team, agent, radius, before);
        if sighted(team, agent, radius, sightings).len() == 0 {
            assert forall|i: int| 0 <= i < sightings.len() implies !dangerous(
                team,
                agent,
                radius,
                #[trigger] sightings[i],
            ) by {
                if i < before.len() {
                    assert(sightings[i] == before[i]);
                }
            }
        } else if forall|i: int|
            0 <= i < sightings.len() ==> !dangerous(team, agent, radius, #[trigger] sightings[i]) {
            assert forall|i: int| 0 <= i < before.len() implies !dangerous(
                team,
                agent,
                radius,
                #[trigger] before[i],
            ) by {
                assert(before[i] == sightings[i]);
            }
            assert(!dangerous(team, agent, radius, sightings[sightings.len() - 1]));
        }
    }
}

/// The closest distance is no greater than any threat's.
pub proof fn lemma_closest_is_least(threats: Seq<Threat>, i: int)
    requires
        0 <= i < threats.len(),
    ensures
        closest(threats) <= threats[i].distance,
    decreases threats.len(),
{
    if threats.len() > 1 {
        if i < threats.len() - 1 {
            lemma_closest_is_least(threats.drop_last(), i);
        }
    }
}

/// Some threat is at the closest distance.
pub proof fn lemma_closest_is_attained(threats: Seq<Threat>) -> (i: int)
    requires
        threats.len() > 0,
    ensures
        0 <= i < threats.len(),
        threats[i].distance == closest(threats),
    decreases threats.len(),
{
    if threats.len() == 1 {
        0
    } else if threats.last().distance < closest(threats.drop_last()) {
        threats.len() - 1
    } else {
        lemma_closest_is_attained(threats.drop_last())
    }
}

/// Where some threat is within the limit, `within` keeps something.
pub proof fn lemma_within_keeps(threats: Seq<Threat>, limit: nat, i: int)
    requires
        0 <= i < threats.len(),
        threats[i].distance <= limit,
    ensures
        within(threats, limit).len() > 0,
    decreases threats.len(),
{
    if i < threats.len() - 1 {
        lemma_within_keeps(threats.drop_last(), limit, i);
    }
}

/// Every threat that `within` keeps is one of those it was given, and is
/// within the limit.
pub proof fn lemma_within_members(threats: Seq<Threat>, limit: nat, k: int) -> (i: int)
    requires
        0 <= k < within(threats, limit).len(),
    ensures
        0 <= i < threats.len(),
        threats[i] == within(threats, limit)[k],
        threats[i].distance <= limit,
    decreases threats.len(),
{
    let before = within(threats.drop_last(), limit);
    if threats.last().distance <= limit && k == before.len() {
        threats.len() - 1
    } else {
        lemma_within_members(threats.drop_last(), limit, k)
    }
}

/// The nearest cluster is empty only where there is no threat at all: the
/// closest threat always belongs to it.
pub proof fn lemma_cluster_keeps_closest(threats: Seq<Threat>)
    ensures
        nearest_cluster(threats).len() == 0 <==> threats.len() == 0,
        closest(nearest_cluster(threats)) == closest(threats),
{
    if threats.len() > 0 {
        let i = lemma_closest_is_attained(threats);
        lemma_within_keeps(threats, 2 * closest(threats), i);
        lemma_within_closest(threats, 2 * closest(threats));
    }
}

/// Where the limit leaves the closest threat in, what `within` keeps has the
/// same closest distance.
pub proof fn lemma_within_closest(threats: Seq<Threat>, limit: nat)
    requires
        threats.len() > 0,
        closest(threats) <= limit,
    ensures
        closest(within(threats, limit)) == closest(threats),
{
    let kept = within(threats, limit);
    let i = lemma_closest_is_attained(threats);
    lemma_within_keeps(threats, limit, i);
    let k = lemma_closest_is_attained(kept);
    let j = lemma_within_members(threats, limit, k);
    lemma_closest_is_least(threats, j);
    lemma_within_has(threats, limit, i);
    let m = choose|m: int| 0 <= m < kept.len() && kept[m] == threats[i];
    lemma_closest_is_least(kept, m);
}

/// Every threat within the limit is among those that `within` keeps.
pub proof fn lemma_within_has(threats: Seq<Threat>, limit: nat, i: int)
    requires
        0 <= i < threats.len(),
        threats[i].distance <= limit,
    ensures
        exists|m: int| 0 <= m < within(threats, limit).len() && within(threats, limit)[m] == threats[i],
    decreases threats.len(),
{
    let kept = within(threats, limit);
    if i == threats.len() - 1 {
        assert(kept[kept.len() - 1] == threats[i]);
    } else {
        lemma_within_has(threats.drop_last(), limit, i);
        let before = within(threats.drop_last(), limit);
        let m = choose|m: int| 0 <= m < before.len() && before[m] == threats.drop_last()[i];
        assert(kept[m] == threats[i]);
    }
}

} // verus!
