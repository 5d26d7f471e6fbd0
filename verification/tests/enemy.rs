use shooting_cubes::abilities::cooldown::Cooldown;
use shooting_cubes::angle::Angle;
use shooting_cubes::enemy::{move_enemy, shoot_action, DANGER_RADIUS};
use shooting_cubes::game::{Speed, BASE_SPEED, BULLET_SPEED};
use shooting_cubes::geometry::Point;
use shooting_cubes::threat::{Sighting, Team};

fn angle_of(radians: f64) -> Angle {
    Angle::new(
        (radians * 1e6).round() as i32,
        (radians.cos() * 1e6).round() as i32,
        (radians.sin() * 1e6).round() as i32,
    )
    .unwrap()
}

fn fired_at(agent: Point, x: i32, y: i32, radians: f64, team: Team) -> Sighting {
    let dx = (agent.x - x) as f64;
    let dy = (agent.y - y) as f64;
    Sighting {
        position: Point { x, y },
        travel: Some(angle_of(radians)),
        bearing: if dx == 0.0 && dy == 0.0 { None } else { Some((dy.atan2(dx) * 1e6).round() as i32) },
        team,
    }
}

const ORIGIN: Point = Point { x: 0, y: 0 };

#[test]
fn danger_radius_is_radius_and_margin() {
    assert_eq!(DANGER_RADIUS, 32_000);
}

#[test]
fn head_on_projectile_is_dodged_sideways() {
    let sightings = vec![fired_at(ORIGIN, 100_000, 0, std::f64::consts::PI, Team::Player)];
    let to = move_enemy(ORIGIN, &Speed(BASE_SPEED), &sightings, 100_000_000).unwrap();
    assert_eq!(to.x, 0);
    assert_ne!(to.y, 0);
    assert_eq!(to, Point { x: 0, y: -8_000 });
}

#[test]
fn without_a_threat_the_fighter_stays() {
    let at = Point { x: 350_000, y: 0 };
    assert_eq!(move_enemy(at, &Speed(BASE_SPEED), &Vec::new(), 100_000_000), Some(at));
    let harmless = vec![
        fired_at(at, 0, 0, std::f64::consts::PI, Team::Player),
        fired_at(at, 350_000, 200_000, 0.0, Team::Player),
        fired_at(at, 350_000, 0, 0.0, Team::Enemy),
        fired_at(at, 300_000, 0, 0.0, Team::Enemy),
    ];
    assert_eq!(move_enemy(at, &Speed(BASE_SPEED), &harmless, 100_000_000), Some(at));
    assert_eq!(move_enemy(at, &Speed(i32::MAX), &harmless, u64::MAX), Some(at));
    let corner = Point { x: i32::MAX, y: i32::MIN };
    assert_eq!(move_enemy(corner, &Speed(i32::MAX), &Vec::new(), u64::MAX), Some(corner));
}

#[test]
fn two_threats_are_blended() {
    let pi = std::f64::consts::PI;
    let sightings = vec![
        fired_at(ORIGIN, -50_000, 0, 0.0, Team::Player),
        fired_at(ORIGIN, 0, -80_000, pi / 2.0, Team::Player),
    ];
    // steps (0, 1) at 50 and (1, 0) at 80: 5/13 along x and 8/13 along y
    let to = move_enemy(ORIGIN, &Speed(BASE_SPEED), &sightings, 16_666_667);
    assert_eq!(to, Some(Point { x: 513, y: 821 }));
}

#[test]
fn of_three_near_projectiles_the_far_one_is_not_heeded() {
    let pi = std::f64::consts::PI;
    let sightings = vec![
        fired_at(ORIGIN, 10_000, 0, pi / 2.0, Team::Player),
        fired_at(ORIGIN, 0, 15_000, 0.0, Team::Player),
        fired_at(ORIGIN, 0, -30_000, pi, Team::Player),
    ];
    // steps (1, 0) at 10 and (0, -1) at 15, weighing 0.6 and 0.4; the one at 30 is
    // more than twice as far as the closest
    let to = move_enemy(ORIGIN, &Speed(BASE_SPEED), &sightings, 100_000_000);
    assert_eq!(to, Some(Point { x: 4_800, y: -3_200 }));
}

#[test]
fn a_far_threat_beside_a_near_one_is_not_heeded() {
    let pi = std::f64::consts::PI;
    let near_only = vec![fired_at(ORIGIN, -50_000, 0, 0.0, Team::Player)];
    let with_far = vec![
        fired_at(ORIGIN, -50_000, 0, 0.0, Team::Player),
        fired_at(ORIGIN, 0, -100_001, pi / 2.0, Team::Player),
    ];
    let alone = move_enemy(ORIGIN, &Speed(BASE_SPEED), &near_only, 100_000_000);
    assert_eq!(alone, Some(Point { x: 0, y: 8_000 }));
    assert_eq!(move_enemy(ORIGIN, &Speed(BASE_SPEED), &with_far, 100_000_000), alone);
}

#[test]
fn a_dodge_beyond_the_arena_is_refused() {
    let at = Point { x: 0, y: i32::MIN + 7_999 };
    let sightings = vec![fired_at(at, 100_000, at.y, std::f64::consts::PI, Team::Player)];
    assert_eq!(move_enemy(at, &Speed(BASE_SPEED), &sightings, 100_000_000), None);
    let room = Point { x: 0, y: i32::MIN + 8_000 };
    let sightings = vec![fired_at(room, 100_000, room.y, std::f64::consts::PI, Team::Player)];
    assert_eq!(
        move_enemy(room, &Speed(BASE_SPEED), &sightings, 100_000_000),
        Some(Point { x: 0, y: i32::MIN })
    );
}

const TARGET: Option<Point> = Some(Point { x: -350_000, y: 0 });

#[test]
fn the_fighter_fires_when_its_cooldown_has_run_out() {
    let mut cooldown = Cooldown::new(300_000_000);
    let aim = angle_of(2.5);
    let shot = shoot_action(ORIGIN, TARGET, Some(aim), &mut cooldown).unwrap();
    assert_eq!(shot.angle.micro_radians(), 2_500_000);
    assert_eq!(shot.angle.cosine(), aim.cosine());
    assert_eq!(shot.angle.sine(), aim.sine());
    assert_eq!(shot.speed, BULLET_SPEED);
    assert_eq!(shot.speed, 250_000);
    assert!(!cooldown.finished());
}

#[test]
fn the_fighter_holds_its_fire_while_the_cooldown_runs() {
    let mut cooldown = Cooldown::new(300_000_000);
    assert!(shoot_action(ORIGIN, TARGET, Some(angle_of(0.0)), &mut cooldown).is_some());
    assert!(shoot_action(ORIGIN, TARGET, Some(angle_of(0.0)), &mut cooldown).is_none());
    cooldown.tick(299_999_999);
    assert!(shoot_action(ORIGIN, TARGET, Some(angle_of(0.0)), &mut cooldown).is_none());
    // holding fire does not start the cooldown anew
    cooldown.tick(1);
    assert!(cooldown.finished());
    assert!(shoot_action(ORIGIN, TARGET, Some(angle_of(0.0)), &mut cooldown).is_some());
    assert!(!cooldown.finished());
}

#[test]
fn the_fighter_does_not_fire_without_an_aim() {
    let mut cooldown = Cooldown::new(300_000_000);
    assert!(shoot_action(ORIGIN, TARGET, None, &mut cooldown).is_none());
    assert!(cooldown.finished());
}

#[test]
fn the_fighter_does_not_fire_without_a_target() {
    let mut cooldown = Cooldown::new(300_000_000);
    assert!(shoot_action(ORIGIN, None, Some(angle_of(0.0)), &mut cooldown).is_none());
    assert!(cooldown.finished());
}

#[test]
fn the_fighter_does_not_fire_at_its_own_place() {
    let mut cooldown = Cooldown::new(300_000_000);
    assert!(shoot_action(ORIGIN, Some(ORIGIN), Some(angle_of(0.0)), &mut cooldown).is_none());
    assert!(cooldown.finished());
    let beside = Some(Point { x: 0, y: 1 });
    assert!(shoot_action(ORIGIN, beside, Some(angle_of(1.570796)), &mut cooldown).is_some());
}
