use shooting_cubes::collide::{
    collide, collide_system, detect_entity_leaving, Collideable, Collider, EntityLeaveWindow,
    Hitter, Target,
};
use shooting_cubes::geometry::Point;

#[test]
fn discs_that_overlap_collide() {
    let target = Collideable { radius: 20_000 };
    let hitter = Collider { radius: 8_000 };
    let at = Point { x: 0, y: 0 };
    assert!(collide(at, &target, Point { x: 27_999, y: 0 }, &hitter));
    assert!(!collide(at, &target, Point { x: 28_000, y: 0 }, &hitter));
    assert!(collide(at, &target, Point { x: 0, y: -27_999 }, &hitter));
    // 19_798^2 * 2 < 28_000^2 <= 19_799^2 * 2
    assert!(collide(at, &target, Point { x: 19_798, y: 19_798 }, &hitter));
    assert!(!collide(at, &target, Point { x: 19_799, y: 19_799 }, &hitter));
    assert!(collide(at, &target, at, &hitter));
}

#[test]
fn discs_of_no_radius_never_collide() {
    let at = Point { x: 5, y: 5 };
    assert!(!collide(at, &Collideable { radius: 0 }, at, &Collider { radius: 0 }));
}

#[test]
fn the_widest_discs_collide() {
    let a = Point { x: i32::MIN, y: i32::MIN };
    let b = Point { x: i32::MAX, y: i32::MAX };
    assert!(collide(a, &Collideable { radius: u32::MAX }, b, &Collider { radius: u32::MAX }));
    assert!(!collide(a, &Collideable { radius: u32::MAX }, b, &Collider { radius: 0 }));
}

#[test]
fn inside_the_window_nothing_is_reported() {
    assert_eq!(detect_entity_leaving(7, Point { x: 0, y: 0 }, 1_280_000, 720_000), None);
    assert_eq!(detect_entity_leaving(7, Point { x: 640_000, y: 360_000 }, 1_280_000, 720_000), None);
    assert_eq!(detect_entity_leaving(7, Point { x: -640_000, y: -360_000 }, 1_280_000, 720_000), None);
}

#[test]
fn each_edge_is_reported() {
    assert_eq!(
        detect_entity_leaving(7, Point { x: 640_001, y: 5 }, 1_280_000, 720_000),
        Some(EntityLeaveWindow { entity: 7, last_x: 640_000, last_y: 5 })
    );
    assert_eq!(
        detect_entity_leaving(8, Point { x: -640_001, y: 5 }, 1_280_000, 720_000),
        Some(EntityLeaveWindow { entity: 8, last_x: -640_000, last_y: 5 })
    );
    assert_eq!(
        detect_entity_leaving(9, Point { x: 5, y: 360_001 }, 1_280_000, 720_000),
        Some(EntityLeaveWindow { entity: 9, last_x: 5, last_y: 360_000 })
    );
    assert_eq!(
        detect_entity_leaving(10, Point { x: 5, y: -360_001 }, 1_280_000, 720_000),
        Some(EntityLeaveWindow { entity: 10, last_x: 5, last_y: -360_000 })
    );
}

#[test]
fn over_a_corner_the_side_edge_is_reported() {
    assert_eq!(
        detect_entity_leaving(1, Point { x: 700_000, y: 400_000 }, 1_280_000, 720_000),
        Some(EntityLeaveWindow { entity: 1, last_x: 640_000, last_y: 400_000 })
    );
    assert_eq!(
        detect_entity_leaving(1, Point { x: -700_000, y: -400_000 }, 1_280_000, 720_000),
        Some(EntityLeaveWindow { entity: 1, last_x: -640_000, last_y: -400_000 })
    );
}

#[test]
fn a_window_of_odd_width_has_its_edge_between_thousandths() {
    assert_eq!(detect_entity_leaving(1, Point { x: 2, y: 0 }, 5, 5), None);
    assert_eq!(
        detect_entity_leaving(1, Point { x: 3, y: 0 }, 5, 5),
        Some(EntityLeaveWindow { entity: 1, last_x: 2, last_y: 0 })
    );
    assert_eq!(detect_entity_leaving(1, Point { x: -2, y: 0 }, 5, 5), None);
    assert_eq!(
        detect_entity_leaving(1, Point { x: 0, y: -3 }, 5, 5),
        Some(EntityLeaveWindow { entity: 1, last_x: 0, last_y: -2 })
    );
}

#[test]
fn the_widest_window_holds_everything() {
    assert_eq!(
        detect_entity_leaving(1, Point { x: i32::MAX, y: i32::MIN + 1 }, u32::MAX, u32::MAX),
        None
    );
    assert_eq!(
        detect_entity_leaving(1, Point { x: 0, y: i32::MIN }, u32::MAX, u32::MAX),
        Some(EntityLeaveWindow { entity: 1, last_x: 0, last_y: -i32::MAX })
    );
    assert_eq!(
        detect_entity_leaving(1, Point { x: 1, y: 0 }, 0, 0),
        Some(EntityLeaveWindow { entity: 1, last_x: 0, last_y: 0 })
    );
    assert_eq!(detect_entity_leaving(1, Point { x: 0, y: 0 }, 0, 0), None);
}

fn target(entity: u64, x: i32, y: i32) -> Target {
    Target { entity, at: Point { x, y }, shape: Collideable { radius: 20_000 } }
}

fn hitter(entity: u64, x: i32, y: i32) -> Hitter {
    Hitter { entity, at: Point { x, y }, shape: Collider { radius: 8_000 } }
}

#[test]
fn every_hit_is_found_in_order() {
    let targets = vec![target(1, -350_000, 0), target(2, 350_000, 0)];
    let hitters = vec![
        hitter(10, 340_000, 10_000),
        hitter(11, 0, 0),
        hitter(12, -350_000, 27_999),
        hitter(13, 350_000, -27_999),
        hitter(14, -350_000, 28_000),
    ];
    assert_eq!(collide_system(&targets, &hitters), vec![(1, 12), (2, 10), (2, 13)]);
}

#[test]
fn nothing_hits_itself() {
    let targets = vec![target(1, 0, 0), target(2, 1_000, 0)];
    let hitters = vec![hitter(1, 0, 0), hitter(2, 1_000, 0)];
    assert_eq!(collide_system(&targets, &hitters), vec![(1, 2), (2, 1)]);
}

#[test]
fn without_targets_or_hitters_there_is_no_hit() {
    assert!(collide_system(&Vec::new(), &vec![hitter(1, 0, 0)]).is_empty());
    assert!(collide_system(&vec![target(1, 0, 0)], &Vec::new()).is_empty());
}
