//! Contact between fighters and projectiles, and the edge of the window.
use vstd::prelude::*;
use crate::geometry::{gap_squared, squared_gap, Point};

verus! {

/// Something that can be hit: a disc of `radius` thousandths of a length
/// unit.
#[derive(Clone, Copy, Debug, PartialEq, Eq, Structural)]
pub struct Collideable {
    pub radius: u32,
}

/// Something that hits: a disc of `radius` thousandths of a length unit.
#[derive(Clone, Copy, Debug, PartialEq, Eq, Structural)]
pub struct Collider {
    pub radius: u32,
}

/// Something has gone over the edge of the window; `last_x` and `last_y` are
/// where it crossed, as far as the edge crossed tells.
#[derive(Clone, Copy, Debug, PartialEq, Eq, Structural)]
pub struct EntityLeaveWindow {
    pub entity: u64,
    pub last_x: i32,
    pub last_y: i32,
}

/// The two discs overlap: their centres are nearer than their radii together.
pub open spec fn touching(a: Point, target: Collideable, b: Point, hitter: Collider) -> bool {
    gap_squared(a, b) < (target.radius + hitter.radius) * (target.radius + hitter.radius)
}

/// Whether what is at `a` is hit by what is at `b`.
pub fn collide(a: Point, target: &Collideable, b: Point, hitter: &Collider) -> (hit: bool)
    ensures
        hit == touching(a, *target, b, *hitter),
{
    let reach: u128 = target.radius as u128 + hitter.radius as u128;
    assert(reach * reach <= 0x4_0000_0000_0000_0000) by (nonlinear_arith)
        requires
            0 <= reach <= 0x2_0000_0000,
    ;
    squared_gap(a, b) < reach * reach
}

/// Something that can be hit, as it stands in the arena: which entity it is,
/// where, and how large.
#[derive(Clone, Copy, Debug, PartialEq, Eq, Structural)]
pub struct Target {
    pub entity: u64,
    pub at: Point,
    pub shape: Collideable,
}

/// Something that hits, as it stands in the arena: which entity it is, where,
/// and how large.
#[derive(Clone, Copy, Debug, PartialEq, Eq, Structural)]
pub struct Hitter {
    pub entity: u64,
    pub at: Point,
    pub shape: Collider,
}

/// The target is hit by the hitter: they overlap, and are not one and the
/// same entity.
pub open spec fn hit(target: Target, hitter: Hitter) -> bool {
    target.entity != hitter.entity && touching(target.at, target.shape, hitter.at, hitter.shape)
}

/// The hits on one target by the first `n` of `hitters`, in their order, each
/// as the pair of the target and the hitter.
pub open spec fn hits_on(target: Target, hitters: Seq<Hitter>, n: int) -> Seq<(u64, u64)>
    decreases n,
{
    if n <= 0 {
        Seq::empty()
    } else if hit(target, hitters[n - 1]) {
        hits_on(target, hitters, n - 1).push((target.entity, hitters[n - 1].entity))
    } else {
        hits_on(target, hitters, n - 1)
    }
}

/// The hits on the first `n` of `targets` by `hitters`: target after target,
/// and for each target hitter after hitter.
pub open spec fn collisions(targets: Seq<Target>, hitters: Seq<Hitter>, n: int) -> Seq<(u64, u64)>
    decreases n,
{
    if n <= 0 {
        Seq::empty()
    } else {
        collisions(targets, hitters, n - 1) + hits_on(
            targets[n - 1],
            hitters,
            hitters.len() as int,
        )
    }
}

/// Finds every hit: the pairs of a target and a hitter that overlap. Both of
/// a pair are to be taken away.
pub fn collide_system(targets: &Vec<Target>, hitters: &Vec<Hitter>) -> (pairs: Vec<(u64, u64)>)
    ensures
        pairs@ == collisions(targets@, hitters@, targets.len() as int),
{
    let mut pairs: Vec<(u64, u64)> = Vec::new();
    let mut i: usize = 0;
    while i < targets.len()
        invariant
            i <= targets.len(),
            pairs@ == collisions(targets@, hitters@, i as int),
        decreases targets.len() - i,
    {
        let target = targets[i];
        let ghost before = pairs@;
        let mut j: usize = 0;
        while j < hitters.len()
            invariant
                j <= hitters.len(),
                i < targets.len(),
                target == targets[i as int],
                pairs@ == before + hits_on(target, hitters@, j as int),
            decreases hitters.len() - j,
        {
            let hitter = hitters[j];
            if target.entity != hitter.entity && collide(
                target.at,
                &target.shape,
                hitter.at,
                &hitter.shape,
            ) {
                pairs.push((target.entity, hitter.entity));
            }
            j += 1;
        }
        i += 1;
    }
    pairs
}

/// What is reported of something at `at` in a window of `width` by `height`
/// centred on the origin: nothing while it is inside; else the edge it is
/// over, the right one first, then the left, the upper and the lower.
pub open spec fn leaving(entity: u64, at: Point, width: u32, height: u32) -> Option<
    EntityLeaveWindow,
> {
    if 2 * at.x > width {
        Some(EntityLeaveWindow { entity, last_x: (width / 2) as i32, last_y: at.y })
    } else if 2 * at.x < -width {
        Some(EntityLeaveWindow { entity, last_x: (-(width / 2)) as i32, last_y: at.y })
    } else if 2 * at.y > height {
        Some(EntityLeaveWindow { entity, last_x: at.x, last_y: (height / 2) as i32 })
    } else if 2 * at.y < -height {
        Some(EntityLeaveWindow { entity, last_x: at.x, last_y: (-(height / 2)) as i32 })
    } else {
        None
    }
}

/// Reports `entity` where it is over an edge of the window.
pub fn detect_entity_leaving(entity: u64, at: Point, width: u32, height: u32) -> (event: Option<
    EntityLeaveWindow,
>)
    ensures
        event == leaving(entity, at, width, height),
{
    let x: i64 = at.x as i64;
    let y: i64 = at.y as i64;
    let half_width: i32 = (width / 2) as i32;
    let half_height: i32 = (height / 2) as i32;
    if 2 * x > width as i64 {
        Some(EntityLeaveWindow { entity, last_x: half_width, last_y: at.y })
    } else if 2 * x < -(width as i64) {
        Some(EntityLeaveWindow { entity, last_x: -half_width, last_y: at.y })
    } else if 2 * y > height as i64 {
        Some(EntityLeaveWindow { entity, last_x: at.x, last_y: half_height })
    } else if 2 * y < -(height as i64) {
        Some(EntityLeaveWindow { entity, last_x: at.x, last_y: -half_height })
    } else {
        None
    }
}

} // verus!
