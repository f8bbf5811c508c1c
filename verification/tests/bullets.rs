use tank_core::bullet::{update_bullet_boom, Bullet};
use tank_core::geometry::{Collider, GameDirection, Moving, Obstacle, Transform};

fn shell(x: i32, y: i32, direction: GameDirection) -> Bullet {
    Bullet::new(Transform::new(x, y), Moving::new(direction, 8))
}

fn wall(x: i32, y: i32, index: usize) -> Obstacle {
    Obstacle { transform: Transform::new(x, y), collider: Collider::new(12, 12, index) }
}

fn field() -> Obstacle {
    let mut collider = Collider::new(312, 312, 0);
    collider.is_container = true;
    Obstacle { transform: Transform::new(0, 0), collider }
}

#[test]
fn bullets_advance_by_their_speed() {
    let mut bullets = vec![
        shell(0, 0, GameDirection::Up),
        shell(100, 0, GameDirection::Down),
        shell(0, 100, GameDirection::Left),
        shell(100, 100, GameDirection::Right),
    ];
    let impacts = update_bullet_boom(&mut bullets, &vec![field()]);
    assert_eq!(bullets[0].transform, Transform::new(0, 8));
    assert_eq!(bullets[1].transform, Transform::new(100, -8));
    assert_eq!(bullets[2].transform, Transform::new(-8, 100));
    assert_eq!(bullets[3].transform, Transform::new(108, 100));
    assert!(bullets.iter().all(|b| !b.boom));
    assert_eq!(impacts.destroyed, vec![false]);
    assert!(!impacts.objective_lost);
}

#[test]
fn bullet_that_crosses_the_arena_edge_is_destroyed() {
    let mut bullets = vec![shell(0, 300, GameDirection::Up), shell(100, 298, GameDirection::Up)];
    update_bullet_boom(&mut bullets, &vec![field()]);
    // 308 + 6 > 312, but 306 + 6 = 312 does not cross.
    assert!(bullets[0].boom);
    assert!(!bullets[1].boom);
}

#[test]
fn bullet_outside_behind_its_trailing_edge_is_not_destroyed() {
    let mut bullets = vec![shell(0, -400, GameDirection::Up)];
    update_bullet_boom(&mut bullets, &vec![field()]);
    assert!(!bullets[0].boom);
}

#[test]
fn bullet_destroys_the_one_obstacle_it_overlaps() {
    let colliders = vec![wall(100, 100, 1), wall(0, 20, 1), wall(-100, 0, 2), field()];
    let mut bullets = vec![shell(0, 0, GameDirection::Up)];
    let impacts = update_bullet_boom(&mut bullets, &colliders);
    assert!(bullets[0].boom);
    assert_eq!(impacts.destroyed, vec![false, true, false, false]);
    assert!(!impacts.objective_lost);
}

#[test]
fn bullet_that_overlaps_two_obstacles_destroys_both() {
    let colliders = vec![wall(-12, 20, 1), wall(12, 20, 1)];
    let mut bullets = vec![shell(0, 0, GameDirection::Up)];
    let impacts = update_bullet_boom(&mut bullets, &colliders);
    assert!(bullets[0].boom);
    assert_eq!(impacts.destroyed, vec![true, true]);
}

#[test]
fn striking_the_objective_signals_the_loss_and_spares_the_collider() {
    let colliders = vec![wall(0, 20, 6)];
    let mut bullets = vec![shell(0, 0, GameDirection::Up)];
    let impacts = update_bullet_boom(&mut bullets, &colliders);
    assert!(bullets[0].boom);
    assert_eq!(impacts.destroyed, vec![false]);
    assert!(impacts.objective_lost);
}

#[test]
fn indestructible_tiles_are_passed_over() {
    let colliders = vec![wall(0, 20, 5)];
    let mut bullets = vec![shell(0, 0, GameDirection::Up)];
    let impacts = update_bullet_boom(&mut bullets, &colliders);
    assert!(!bullets[0].boom);
    assert_eq!(impacts.destroyed, vec![false]);
    assert!(!impacts.objective_lost);
}

#[test]
fn colliders_of_projectiles_are_passed_over() {
    let mut other = wall(0, 20, 1);
    other.collider.is_bullet = true;
    let mut bullets = vec![shell(0, 0, GameDirection::Up)];
    let impacts = update_bullet_boom(&mut bullets, &vec![other]);
    assert!(!bullets[0].boom);
    assert_eq!(impacts.destroyed, vec![false]);
}

#[test]
fn overlapping_bullets_destroy_each_other() {
    // The first advances to (8, 0) and meets the second where it still stands.
    let mut bullets = vec![shell(0, 0, GameDirection::Right), shell(16, 0, GameDirection::Left)];
    let impacts = update_bullet_boom(&mut bullets, &Vec::new());
    assert!(bullets[0].boom);
    assert!(bullets[1].boom);
    assert_eq!(bullets[1].transform, Transform::new(8, 0));
    assert!(impacts.destroyed.is_empty());
}

#[test]
fn bullets_that_merely_touch_survive() {
    let mut bullets = vec![shell(0, 0, GameDirection::Right), shell(20, 0, GameDirection::Right)];
    update_bullet_boom(&mut bullets, &Vec::new());
    // (8, 0) against (20, 0): 14 > 14 fails.
    assert!(!bullets[0].boom);
    assert!(!bullets[1].boom);
}

#[test]
fn destroyed_bullet_still_takes_down_what_it_meets() {
    // The first two annihilate each other; the second, advanced, still meets the third.
    let mut bullets = vec![
        shell(0, 0, GameDirection::Right),
        shell(16, 0, GameDirection::Right),
        shell(34, 0, GameDirection::Right),
    ];
    update_bullet_boom(&mut bullets, &Vec::new());
    assert!(bullets[0].boom);
    assert!(bullets[1].boom);
    assert!(bullets[2].boom);
}

#[test]
fn boom_flag_once_set_stays_set() {
    let mut spent = shell(0, 0, GameDirection::Up);
    spent.boom = true;
    let mut bullets = vec![spent];
    update_bullet_boom(&mut bullets, &vec![field()]);
    assert!(bullets[0].boom);
    assert_eq!(bullets[0].transform, Transform::new(0, 8));
}

#[test]
fn bullet_validity_follows_position_and_speed() {
    assert!(shell(0, 0, GameDirection::Up).is_wf());
    assert!(!shell(0x1000_0001, 0, GameDirection::Up).is_wf());
}
