use shooting_cubes::abilities::cooldown::Cooldown;
use shooting_cubes::actions::{
    handle_movement_input, handle_shoot_input, Actions, MovementEvent, Pressed, ShootEvent,
};
use shooting_cubes::angle::Angle;
use shooting_cubes::game::{Speed, BASE_SPEED, BULLET_SPEED};
use shooting_cubes::geometry::{Direction, Point};
use shooting_cubes::player::{handle_movement_events, handle_shoot_events};

const NONE_PRESSED: Pressed =
    Pressed { up: false, down: false, left: false, right: false, shoot: false };

fn shoot_at(radians: i32) -> ShootEvent {
    ShootEvent { angle: Angle::new(radians, 1_000_000, 0).unwrap() }
}

#[test]
fn each_action_has_its_direction() {
    assert_eq!(Actions::Up.direction(), Direction { x: 0, y: 1_000_000 });
    assert_eq!(Actions::Down.direction(), Direction { x: 0, y: -1_000_000 });
    assert_eq!(Actions::Left.direction(), Direction { x: -1_000_000, y: 0 });
    assert_eq!(Actions::Right.direction(), Direction { x: 1_000_000, y: 0 });
    assert_eq!(Actions::Shoot.direction(), Direction { x: 0, y: 0 });
}

#[test]
fn nothing_pressed_no_movement() {
    assert!(handle_movement_input(&NONE_PRESSED).is_none());
    assert!(handle_movement_input(&Pressed { shoot: true, ..NONE_PRESSED }).is_none());
}

#[test]
fn pressed_directions_add_up() {
    let up = handle_movement_input(&Pressed { up: true, ..NONE_PRESSED }).unwrap();
    assert_eq!(up.direction, Direction { x: 0, y: 1_000_000 });
    let down_left =
        handle_movement_input(&Pressed { down: true, left: true, ..NONE_PRESSED }).unwrap();
    assert_eq!(down_left.direction, Direction { x: -1_000_000, y: -1_000_000 });
    let right =
        handle_movement_input(&Pressed { up: true, down: true, right: true, ..NONE_PRESSED })
            .unwrap();
    assert_eq!(right.direction, Direction { x: 1_000_000, y: 0 });
}

#[test]
fn opposite_directions_cancel() {
    assert!(handle_movement_input(&Pressed { up: true, down: true, ..NONE_PRESSED }).is_none());
    assert!(handle_movement_input(&Pressed {
        up: true,
        down: true,
        left: true,
        right: true,
        shoot: false
    })
    .is_none());
}

#[test]
fn a_shot_is_asked_for_with_the_button_and_an_aim() {
    let aim = Angle::new(1_570_796, 0, 1_000_000);
    let event = handle_shoot_input(&Pressed { shoot: true, ..NONE_PRESSED }, aim).unwrap();
    assert_eq!(event.angle.micro_radians(), 1_570_796);
    assert_eq!(event.angle.sine(), 1_000_000);
    assert!(handle_shoot_input(&NONE_PRESSED, aim).is_none());
    assert!(handle_shoot_input(&Pressed { shoot: true, ..NONE_PRESSED }, None).is_none());
    assert!(handle_shoot_input(&Pressed { up: true, ..NONE_PRESSED }, aim).is_none());
}

#[test]
fn the_player_moves_as_asked() {
    let from = Point { x: -350_000, y: 0 };
    let events = vec![MovementEvent { direction: Direction { x: 1_000_000, y: -1_000_000 } }];
    let to = handle_movement_events(from, &Speed(BASE_SPEED), &events, 50_000_000);
    assert_eq!(to, Some(Point { x: -346_000, y: -4_000 }));
}

#[test]
fn the_player_moves_once_for_each_event() {
    let from = Point { x: 0, y: 0 };
    let events = vec![
        MovementEvent { direction: Direction { x: 1_000_000, y: 0 } },
        MovementEvent { direction: Direction { x: 1_000_000, y: 0 } },
        MovementEvent { direction: Direction { x: 0, y: 1_000_000 } },
    ];
    let to = handle_movement_events(from, &Speed(BASE_SPEED), &events, 50_000_000);
    assert_eq!(to, Some(Point { x: 8_000, y: 4_000 }));
    assert_eq!(handle_movement_events(from, &Speed(BASE_SPEED), &Vec::new(), 50_000_000), Some(from));
}

#[test]
fn a_move_beyond_the_arena_is_refused() {
    let from = Point { x: i32::MAX - 4_000, y: 0 };
    let there = vec![MovementEvent { direction: Direction { x: 1_000_000, y: 0 } }];
    assert_eq!(
        handle_movement_events(from, &Speed(BASE_SPEED), &there, 50_000_000),
        Some(Point { x: i32::MAX, y: 0 })
    );
    let there_and_back = vec![
        MovementEvent { direction: Direction { x: 1_000_000, y: 0 } },
        MovementEvent { direction: Direction { x: 1_000_000, y: 0 } },
        MovementEvent { direction: Direction { x: -1_000_000, y: 0 } },
        MovementEvent { direction: Direction { x: -1_000_000, y: 0 } },
    ];
    assert_eq!(handle_movement_events(from, &Speed(BASE_SPEED), &there_and_back, 50_000_000), None);
}

#[test]
fn one_shot_a_tick_through_a_cooldown() {
    let mut cooldown = Cooldown::new(300_000_000);
    let events = vec![shoot_at(1), shoot_at(2), shoot_at(3)];
    let shots = handle_shoot_events(&events, &mut cooldown);
    assert_eq!(shots.len(), 1);
    assert_eq!(shots[0].angle.micro_radians(), 1);
    assert_eq!(shots[0].speed, BULLET_SPEED);
    assert!(!cooldown.finished());
}

#[test]
fn no_shot_while_the_cooldown_runs() {
    let mut cooldown = Cooldown::new(300_000_000);
    cooldown.start();
    cooldown.tick(200_000_000);
    assert!(handle_shoot_events(&vec![shoot_at(1)], &mut cooldown).is_empty());
    // the cooldown has not been started anew
    cooldown.tick(100_000_000);
    assert!(cooldown.finished());
    assert_eq!(handle_shoot_events(&vec![shoot_at(1)], &mut cooldown).len(), 1);
}

#[test]
fn no_shot_asked_for_none_fired() {
    let mut cooldown = Cooldown::new(300_000_000);
    assert!(handle_shoot_events(&Vec::new(), &mut cooldown).is_empty());
    assert!(cooldown.finished());
}

#[test]
fn every_shot_through_a_cooldown_of_no_duration() {
    let mut cooldown = Cooldown::new(0);
    let events = vec![shoot_at(1), shoot_at(2), shoot_at(3)];
    let shots = handle_shoot_events(&events, &mut cooldown);
    let angles: Vec<i32> = shots.iter().map(|s| s.angle.micro_radians()).collect();
    assert_eq!(angles, vec![1, 2, 3]);
    assert!(cooldown.finished());
}
