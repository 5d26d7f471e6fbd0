//! The figures of the game: how fast fighters and projectiles move and how
//! large a fighter is.
use vstd::prelude::*;

verus! {

/// How fast a fighter moves, in thousandths of a length unit a second.
#[derive(Clone, Copy, Debug, PartialEq, Eq, Structural)]
pub struct Speed(pub i32);

/// The speed of a fighter: eighty length units a second.
pub const BASE_SPEED: i32 = 80_000;

/// The radius of a fighter: twenty length units.
pub const BASE_RADIUS: u32 = 20_000;

/// The speed a projectile is launched at: two hundred and fifty length units
/// a second.
pub const BULLET_SPEED: i32 = 250_000;

} // verus!
