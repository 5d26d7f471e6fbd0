//! The computer-steered fighter: how it dodges and when it fires.
use vstd::prelude::*;
use crate::abilities::cooldown::Cooldown;
use crate::angle::Angle;
use crate::bullet::BulletAttributes;
use crate::evasion::{
    composite, lemma_weights_sum_to_one, shares, sum, synthesize, total_share,
};
use crate::game::{Speed, BASE_RADIUS, BULLET_SPEED};
use crate::geometry::{Direction, Point};
use crate::motion::{advance, lemma_no_motion, moved, reachable};
use crate::threat::{
    dangerous, dangerous_bullets, lemma_cluster_keeps_closest, lemma_sighted_none,
    nearest_cluster, sighted, Sighting, Team, Threat,
};

verus! {

/// How much wider than the fighter itself its danger radius is: twelve
/// length units.
pub const DANGER_MARGIN: u32 = 12_000;

/// The danger radius of the fighter: its own radius and the margin.
pub const DANGER_RADIUS: u32 = BASE_RADIUS + DANGER_MARGIN;

/// The threats to the fighter at `position` among `sightings`: the nearest
/// cluster of the projectiles that endanger it.
pub open spec fn threats_to(position: Point, sightings: Seq<Sighting>) -> Seq<Threat> {
    nearest_cluster(sighted(Team::Enemy, position, DANGER_RADIUS as nat, sightings))
}

/// The direction the fighter at `position` dodges in.
pub open spec fn dodge(position: Point, sightings: Seq<Sighting>) -> Direction {
    composite(threats_to(position, sightings))
}

/// Where no projectile endangers the fighter it does not move, whatever its
/// speed and however long the tick.
pub proof fn lemma_no_threat_no_move(
    position: Point,
    sightings: Seq<Sighting>,
    speed: i32,
    nanos: u64,
)
    requires
        forall|i: int|
            0 <= i < sightings.len() ==> !dangerous(
                Team::Enemy,
                position,
                DANGER_RADIUS as nat,
                #[trigger] sightings[i],
            ),
    ensures
        threats_to(position, sightings).len() == 0,
        dodge(position, sightings) == (Direction { x: 0, y: 0 }),
        reachable(position, dodge(position, sightings), speed, nanos),
        moved(position, dodge(position, sightings), speed, nanos) == position,
{
    lemma_sighted_none(Team::Enemy, position, DANGER_RADIUS as nat, sightings);
    lemma_no_motion(position, dodge(position, sightings), speed, nanos);
}

/// Where some projectile endangers the fighter, it has a threat to dodge, and
/// the weights that the dodge is blended with add up to one: their shares add
/// up to `total_share`, which is positive.
pub proof fn lemma_dodge_is_normalised(position: Point, sightings: Seq<Sighting>, i: int)
    requires
        0 <= i < sightings.len(),
        dangerous(Team::Enemy, position, DANGER_RADIUS as nat, sightings[i]),
    ensures
        threats_to(position, sightings).len() > 0,
        total_share(threats_to(position, sightings)) > 0,
        sum(shares(threats_to(position, sightings))) == total_share(
            threats_to(position, sightings),
        ),
{
    lemma_sighted_none(Team::Enemy, position, DANGER_RADIUS as nat, sightings);
    lemma_cluster_keeps_closest(sighted(Team::Enemy, position, DANGER_RADIUS as nat, sightings));
    lemma_weights_sum_to_one(threats_to(position, sightings));
}

/// One tick of the fighter's movement: it steps aside from the projectiles
/// that threaten it, for `nanos` nanoseconds at its speed, and stays where it
/// is when none does. `None` where the step leads beyond the places a `Point`
/// can hold.
pub fn move_enemy(position: Point, speed: &Speed, sightings: &Vec<Sighting>, nanos: u64) -> (to:
    Option<Point>)
    ensures
        to is Some <==> reachable(position, dodge(position, sightings@), speed.0, nanos),
        to matches Some(p) ==> p == moved(position, dodge(position, sightings@), speed.0, nanos),
        (forall|i: int|
            0 <= i < sightings.len() ==> !dangerous(
                Team::Enemy,
                position,
                DANGER_RADIUS as nat,
                #[trigger] sightings[i],
            )) ==> to == Some(position),
{
    let threats = dangerous_bullets(Team::Enemy, position, DANGER_RADIUS, sightings);
    let direction = synthesize(&threats);
    proof {
        if forall|i: int|
            0 <= i < sightings.len() ==> !dangerous(
                Team::Enemy,
                position,
                DANGER_RADIUS as nat,
                #[trigger] sightings[i],
            ) {
            lemma_no_threat_no_move(position, sightings@, speed.0, nanos);
        }
    }
    advance(position, direction, speed.0, nanos)
}

/// There is something to fire at: a target, at another place than the fighter,
/// and an angle to fire at.
pub open spec fn can_aim(position: Point, target: Option<Point>, aim: Option<Angle>) -> bool {
    &&& target matches Some(at)
    &&& at != position
    &&& aim is Some
}

/// The fighter's fire. With something to fire at and its cooldown run out,
/// the fighter at `position` launches a projectile at the angle `aim` and
/// starts the cooldown anew; else nothing happens. `target` is where the one
/// fired at is, `None` where there is none; `aim` is the angle of the line to
/// it, `None` where that is not a number.
pub fn shoot_action(
    position: Point,
    target: Option<Point>,
    aim: Option<Angle>,
    cooldown: &mut Cooldown,
) -> (shot: Option<BulletAttributes>)
    ensures
        shot is Some <==> can_aim(position, target, aim) && old(cooldown)@.finished(),
        shot matches Some(b) ==> aim == Some(b.angle) && b.speed == BULLET_SPEED,
        final(cooldown)@ == if shot is Some {
            old(cooldown)@.start()
        } else {
            old(cooldown)@
        },
{
    let at = match target {
        Some(at) => at,
        None => {
            return None;
        },
    };
    if at.x == position.x && at.y == position.y {
        return None;
    }
    match aim {
        Some(angle) => {
            if !cooldown.finished() {
                return None;
            }
            cooldown.start();
            Some(BulletAttributes { angle, speed: BULLET_SPEED })
        },
        None => None,
    }
}

} // verus!
