//! Projectiles: what one carries, where one starts, and how it flies.
use vstd::prelude::*;
use crate::angle::Angle;
use crate::fixed::{divide, lemma_rounded_between, rounded, MICRO};
use crate::geometry::{Direction, Point};
use crate::motion::{advance, moved, reachable};

verus! {

/// What a projectile keeps for its whole flight: the angle it travels at and
/// its speed, in thousandths of a length unit a second.
#[derive(Clone, Copy, Debug)]
pub struct BulletAttributes {
    pub angle: Angle,
    pub speed: i32,
}

/// How far from the middle of the arena, to the left or the right, a
/// projectile may fly: two thousand length units.
pub const RANGE_X: i32 = 2_000_000;

/// How far from the middle of the arena, up or down, a projectile may fly:
/// fifteen hundred length units.
pub const RANGE_Y: i32 = 1_500_000;

/// How far ahead of whoever fires it a projectile starts: thirty length
/// units.
pub const MUZZLE_DISTANCE: i32 = 30_000;

/// The direction a projectile travels in: the cosine and sine of its angle.
pub open spec fn course(angle: Angle) -> Direction {
    Direction { x: angle.cos(), y: angle.sin() }
}

/// How far along one axis a projectile starts from whoever fires it, for the
/// cosine or sine of its angle along that axis.
pub open spec fn muzzle_offset(component: int) -> int {
    rounded(MUZZLE_DISTANCE * component, MICRO as int)
}

/// The place thirty length units from `from` along `angle` is one that a
/// `Point` can hold.
pub open spec fn launchable(from: Point, angle: Angle) -> bool {
    &&& i32::MIN <= from.x + muzzle_offset(angle.cos() as int) <= i32::MAX
    &&& i32::MIN <= from.y + muzzle_offset(angle.sin() as int) <= i32::MAX
}

/// The place thirty length units from `from` along `angle`.
pub open spec fn launch_point(from: Point, angle: Angle) -> Point {
    Point {
        x: (from.x + muzzle_offset(angle.cos() as int)) as i32,
        y: (from.y + muzzle_offset(angle.sin() as int)) as i32,
    }
}

/// Where a projectile fired from `from` at `angle` starts: thirty length
/// units ahead. `None` where that is beyond the places a `Point` can hold.
pub fn create_bullet(from: Point, angle: &Angle) -> (at: Option<Point>)
    ensures
        at is Some <==> launchable(from, *angle),
        at matches Some(p) ==> p == launch_point(from, *angle),
{
    let cos: i128 = angle.cosine() as i128;
    let sin: i128 = angle.sine() as i128;
    proof {
        lemma_rounded_between(MUZZLE_DISTANCE * cos, MICRO as int, -30_001, 30_001);
        lemma_rounded_between(MUZZLE_DISTANCE * sin, MICRO as int, -30_001, 30_001);
    }
    let x: i128 = from.x as i128 + divide(MUZZLE_DISTANCE as i128 * cos, MICRO as i128);
    let y: i128 = from.y as i128 + divide(MUZZLE_DISTANCE as i128 * sin, MICRO as i128);
    if x < i32::MIN as i128 || x > i32::MAX as i128 || y < i32::MIN as i128 || y > i32::MAX as i128 {
        None
    } else {
        Some(Point { x: x as i32, y: y as i32 })
    }
}

/// The place is beyond where a projectile may fly.
pub open spec fn out_of_range(at: Point) -> bool {
    at.x > RANGE_X || at.x < -RANGE_X || at.y > RANGE_Y || at.y < -RANGE_Y
}

/// Whether a projectile at `at` has flown too far and is to be taken away.
pub fn handle_bullet_leave_window(at: Point) -> (gone: bool)
    ensures
        gone == out_of_range(at),
{
    at.x > RANGE_X || at.x < -RANGE_X || at.y > RANGE_Y || at.y < -RANGE_Y
}

/// One tick of a projectile's flight: from `from`, along its angle at its
/// speed for `nanos` nanoseconds. `None` where that leads beyond the places a
/// `Point` can hold.
pub fn update_bullet(from: Point, attributes: &BulletAttributes, nanos: u64) -> (to: Option<Point>)
    ensures
        to is Some <==> reachable(from, course(attributes.angle), attributes.speed, nanos),
        to matches Some(p) ==> p == moved(from, course(attributes.angle), attributes.speed, nanos),
{
    let along = Direction { x: attributes.angle.cosine(), y: attributes.angle.sine() };
    advance(from, along, attributes.speed, nanos)
}

} // verus!
