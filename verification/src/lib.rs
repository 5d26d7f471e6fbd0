//! Decision and motion core of a computer-steered fighter in a flat arena.
//!
//! Each tick the fighter is shown the projectiles in flight, picks out the ones
//! that threaten it, blends one sideways push out of them and moves by it; a
//! cooldown keeps it from firing without pause.
//!
//! Everything is computed on integers. Lengths are counted in thousandths of a
//! length unit, angles in millionths of a radian, the components of a direction
//! in millionths, and time in nanoseconds. Cosines and sines are not computed
//! here: whoever builds an [`angle::Angle`] supplies them.
pub mod abilities;
pub mod actions;
pub mod angle;
pub mod bullet;
pub mod collide;
pub mod enemy;
pub mod evasion;
pub mod fixed;
pub mod game;
pub mod geometry;
pub mod motion;
pub mod player;
pub mod threat;
