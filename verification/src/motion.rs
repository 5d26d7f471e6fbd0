//! The motion step: a place moved along a direction for a time at a speed.
use vstd::prelude::*;
use crate::fixed::{divide, lemma_rounded_between, rounded};
use crate::geometry::{Direction, Point};

verus! {

/// What a product of a direction component, a speed and a time in
/// nanoseconds is divided by to give thousandths of a length unit: the
/// millionths in the component times the nanoseconds in a second.
pub const STEP_SCALE: i64 = 1_000_000_000_000_000;

/// How far a component of `component` millionths carries at `speed`
/// thousandths a second in `nanos` nanoseconds: in thousandths, rounded to
/// the nearest.
pub open spec fn travelled(component: int, speed: int, nanos: int) -> int {
    rounded(component * speed * nanos, STEP_SCALE as int)
}

/// Moving from `from` along `direction` at `speed` for `nanos` stays within
/// the places that a `Point` can hold.
pub open spec fn reachable(from: Point, direction: Direction, speed: i32, nanos: u64) -> bool {
    &&& i32::MIN <= from.x + travelled(direction.x as int, speed as int, nanos as int) <= i32::MAX
    &&& i32::MIN <= from.y + travelled(direction.y as int, speed as int, nanos as int) <= i32::MAX
}

/// Where one is after moving from `from` along `direction` at `speed` for
/// `nanos`.
pub open spec fn moved(from: Point, direction: Direction, speed: i32, nanos: u64) -> Point {
    Point {
        x: (from.x + travelled(direction.x as int, speed as int, nanos as int)) as i32,
        y: (from.y + travelled(direction.y as int, speed as int, nanos as int)) as i32,
    }
}

/// Standing still, at no speed or for no time, one stays where one is.
pub proof fn lemma_no_motion(from: Point, direction: Direction, speed: i32, nanos: u64)
    requires
        (direction.x == 0 && direction.y == 0) || speed == 0 || nanos == 0,
    ensures
        reachable(from, direction, speed, nanos),
        moved(from, direction, speed, nanos) == from,
{
    let x = direction.x as int;
    let y = direction.y as int;
    let s = speed as int;
    let n = nanos as int;
    assert(x * s * n == 0 && y * s * n == 0) by (nonlinear_arith)
        requires
            (x == 0 && y == 0) || s == 0 || n == 0,
    ;
}

/// The distance covered along one axis.
fn carry(component: i32, speed: i32, nanos: u64) -> (d: i128)
    ensures
        d == travelled(component as int, speed as int, nanos as int),
        -0x1_0000_0000_0000_0000_0000_0000 <= d <= 0x1_0000_0000_0000_0000_0000_0000,
{
    let c: i128 = component as i128;
    let s: i128 = speed as i128;
    let n: i128 = nanos as i128;
    assert(-0x4000_0000_0000_0000 <= c * s <= 0x4000_0000_0000_0000) by (nonlinear_arith)
        requires
            -0x8000_0000 <= c <= 0x8000_0000,
            -0x8000_0000 <= s <= 0x8000_0000,
    ;
    let cs: i128 = c * s;
    assert(-0x4000_0000_0000_0000_0000_0000_0000_0000 <= cs * n
        <= 0x4000_0000_0000_0000_0000_0000_0000_0000) by (nonlinear_arith)
        requires
            -0x4000_0000_0000_0000 <= cs <= 0x4000_0000_0000_0000,
            0 <= n <= 0x1_0000_0000_0000_0000,
    ;
    let product: i128 = cs * n;
    proof {
        lemma_rounded_between(
            product as int,
            STEP_SCALE as int,
            -0x1_0000_0000_0000_0000_0000_0000,
            0x1_0000_0000_0000_0000_0000_0000,
        );
    }
    divide(product, STEP_SCALE as i128)
}

/// Moves from `from` along `direction` at `speed` thousandths a second for
/// `nanos` nanoseconds; `None` where that leads beyond the places a `Point`
/// can hold.
pub fn advance(from: Point, direction: Direction, speed: i32, nanos: u64) -> (to: Option<Point>)
    ensures
        to is Some <==> reachable(from, direction, speed, nanos),
        to matches Some(p) ==> p == moved(from, direction, speed, nanos),
{
    let x: i128 = from.x as i128 + carry(direction.x, speed, nanos);
    let y: i128 = from.y as i128 + carry(direction.y, speed, nanos);
    if x < i32::MIN as i128 || x > i32::MAX as i128 || y < i32::MIN as i128 || y > i32::MAX as i128 {
        None
    } else {
        Some(Point { x: x as i32, y: y as i32 })
    }
}

} // verus!
