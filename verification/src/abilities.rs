//! What a fighter can do at intervals: the cooldown that spaces an ability
//! out, and the step that runs every cooldown forward.
pub mod cooldown;

pub use cooldown::{tick_cooldowns, Cooldown, Countdown};
