//! What the player asks for: the actions, and the events that the keys held
//! at one tick give rise to.
use vstd::prelude::*;
use crate::angle::Angle;
use crate::fixed::MICRO;
use crate::geometry::Direction;

verus! {

/// The player asks to move in `direction`.
#[derive(Clone, Copy, Debug)]
pub struct MovementEvent {
    pub direction: Direction,
}

/// The player asks to fire at `angle`.
#[derive(Clone, Copy, Debug)]
pub struct ShootEvent {
    pub angle: Angle,
}

/// What the player can ask for.
#[derive(Clone, Copy, Debug, PartialEq, Eq, Hash, Structural)]
pub enum Actions {
    Up,
    Down,
    Left,
    Right,
    Shoot,
}

/// Which of the actions are asked for at one tick.
#[derive(Clone, Copy, Debug, PartialEq, Eq, Structural)]
pub struct Pressed {
    pub up: bool,
    pub down: bool,
    pub left: bool,
    pub right: bool,
    pub shoot: bool,
}

impl Actions {
    /// The direction an action moves in: one along an axis for each of the
    /// four that move, and none for the others.
    pub open spec fn heading(self) -> Direction {
        match self {
            Actions::Up => Direction { x: 0, y: MICRO },
            Actions::Down => Direction { x: 0, y: (0 - MICRO) as i32 },
            Actions::Left => Direction { x: (0 - MICRO) as i32, y: 0 },
            Actions::Right => Direction { x: MICRO, y: 0 },
            Actions::Shoot => Direction { x: 0, y: 0 },
        }
    }

    /// The direction an action moves in.
    pub fn direction(self) -> (d: Direction)
        ensures
            d == self.heading(),
    {
        match self {
            Actions::Up => Direction { x: 0, y: MICRO },
            Actions::Down => Direction { x: 0, y: -MICRO },
            Actions::Left => Direction { x: -MICRO, y: 0 },
            Actions::Right => Direction { x: MICRO, y: 0 },
            _ => Direction { x: 0, y: 0 },
        }
    }
}

/// One where `held`, else nothing.
pub open spec fn count(held: bool) -> int {
    if held {
        1
    } else {
        0
    }
}

/// The directions of the moving actions that are asked for, added up.
pub open spec fn asked_direction(pressed: Pressed) -> Direction {
    Direction {
        x: ((count(pressed.right) - count(pressed.left)) * MICRO) as i32,
        y: ((count(pressed.up) - count(pressed.down)) * MICRO) as i32,
    }
}

/// The movement that the player asks for: the directions of the moving
/// actions asked for, added up; no event where they add up to nothing.
pub fn handle_movement_input(pressed: &Pressed) -> (event: Option<MovementEvent>)
    ensures
        event is Some <==> asked_direction(*pressed) != (Direction { x: 0, y: 0 }),
        event matches Some(e) ==> e.direction == asked_direction(*pressed),
{
    let mut direction = Direction { x: 0, y: 0 };
    if pressed.up {
        let step = Actions::Up.direction();
        direction = Direction { x: direction.x + step.x, y: direction.y + step.y };
    }
    if pressed.down {
        let step = Actions::Down.direction();
        direction = Direction { x: direction.x + step.x, y: direction.y + step.y };
    }
    if pressed.left {
        let step = Actions::Left.direction();
        direction = Direction { x: direction.x + step.x, y: direction.y + step.y };
    }
    if pressed.right {
        let step = Actions::Right.direction();
        direction = Direction { x: direction.x + step.x, y: direction.y + step.y };
    }
    if direction.x != 0 || direction.y != 0 {
        Some(MovementEvent { direction })
    } else {
        None
    }
}

/// The shot that the player asks for: one at `aim` where firing is asked for
/// and there is an angle to aim at.
pub fn handle_shoot_input(pressed: &Pressed, aim: Option<Angle>) -> (event: Option<ShootEvent>)
    ensures
        event is Some <==> pressed.shoot && aim is Some,
        event matches Some(e) ==> aim == Some(e.angle),
{
    if pressed.shoot {
        match aim {
            Some(angle) => Some(ShootEvent { angle }),
            None => None,
        }
    } else {
        None
    }
}

} // verus!
