//! The player's fighter: how it moves and fires as the player asks.
use vstd::prelude::*;
use crate::abilities::cooldown::{Cooldown, Countdown};
use crate::actions::{MovementEvent, ShootEvent};
use crate::bullet::BulletAttributes;
use crate::game::{Speed, BULLET_SPEED};
use crate::geometry::Point;
use crate::motion::{advance, moved, reachable};

verus! {

/// Where the fighter is after moving as each of `events` asks, one after the
/// other, each for `nanos` nanoseconds at `speed`; `None` where one of the
/// moves leads beyond the places a `Point` can hold.
pub open spec fn walked(from: Point, events: Seq<MovementEvent>, speed: i32, nanos: u64) -> Option<
    Point,
>
    decreases events.len(),
{
    if events.len() == 0 {
        Some(from)
    } else {
        match walked(from, events.drop_last(), speed, nanos) {
            Some(p) => if reachable(p, events.last().direction, speed, nanos) {
                Some(moved(p, events.last().direction, speed, nanos))
            } else {
                None
            },
            None => None,
        }
    }
}

/// One tick of the player's movement.
pub fn handle_movement_events(
    position: Point,
    speed: &Speed,
    events: &Vec<MovementEvent>,
    nanos: u64,
) -> (to: Option<Point>)
    ensures
        to == walked(position, events@, speed.0, nanos),
{
    let mut at = position;
    let mut i: usize = 0;
    while i < events.len()
        invariant
            i <= events.len(),
            walked(position, events@.take(i as int), speed.0, nanos) == Some(at),
        decreases events.len() - i,
    {
        proof {
            assert(events@.take(i + 1).drop_last() == events@.take(i as int));
        }
        match advance(at, events[i].direction, speed.0, nanos) {
            Some(next) => {
                at = next;
            },
            None => {
                proof {
                    lemma_walk_stays_lost(position, events@, speed.0, nanos, i + 1);
                }
                return None;
            },
        }
        i += 1;
    }
    proof {
        assert(events@.take(events.len() as int) == events@);
    }
    Some(at)
}

/// Once a move has led beyond the places a `Point` can hold, no later move
/// leads back.
proof fn lemma_walk_stays_lost(
    from: Point,
    events: Seq<MovementEvent>,
    speed: i32,
    nanos: u64,
    n: int,
)
    requires
        0 <= n <= events.len(),
        walked(from, events.take(n), speed, nanos) is None,
    ensures
        walked(from, events, speed, nanos) is None,
    decreases events.len() - n,
{
    if n < events.len() {
        assert(events.take(n + 1).drop_last() == events.take(n));
        lemma_walk_stays_lost(from, events, speed, nanos, n + 1);
    } else {
        assert(events.take(n) == events);
    }
}

/// How many of `asked` shots are fired through a cooldown: none unless it has
/// run out; then the first, which starts it anew, and the others too only
/// where its duration is zero.
pub open spec fn shots_fired(cooldown: Countdown, asked: nat) -> nat {
    if asked == 0 || !cooldown.finished() {
        0
    } else if cooldown.duration == 0 {
        asked
    } else {
        1
    }
}

/// One tick of the player's fire: for each shot asked for, in order, a
/// projectile is launched at its angle and the cooldown started anew, until
/// the cooldown is found not to have run out.
pub fn handle_shoot_events(events: &Vec<ShootEvent>, cooldown: &mut Cooldown) -> (shots: Vec<
    BulletAttributes,
>)
    ensures
        shots.len() == shots_fired(old(cooldown)@, events.len() as nat),
        forall|i: int|
            0 <= i < shots.len() ==> (#[trigger] shots[i]).angle == events[i].angle && shots[i].speed
                == BULLET_SPEED,
        final(cooldown)@ == if shots.len() > 0 {
            old(cooldown)@.start()
        } else {
            old(cooldown)@
        },
{
    let mut shots: Vec<BulletAttributes> = Vec::new();
    let mut i: usize = 0;
    while i < events.len()
        invariant
            i <= events.len(),
            shots.len() == i,
            i == 0 ==> cooldown@ == old(cooldown)@,
            i > 0 ==> old(cooldown)@.finished() && cooldown@ == old(cooldown)@.start(),
            i > 1 ==> old(cooldown)@.duration == 0,
            forall|k: int|
                0 <= k < i ==> (#[trigger] shots[k]).angle == events[k].angle && shots[k].speed
                    == BULLET_SPEED,
        decreases events.len() - i,
    {
        if !cooldown.finished() {
            return shots;
        }
        shots.push(BulletAttributes { angle: events[i].angle, speed: BULLET_SPEED });
        cooldown.start();
        i += 1;
    }
    shots
}

} // verus!
