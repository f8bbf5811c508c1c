use tank_core::geometry::{GameDirection, Moving, Transform};
use tank_core::motion::Player;
use tank_core::shoot::{may_fire, muzzle, update_ui_game_shoot, Shot, COOLDOWN};

const FRAME: u64 = 16_000_000;

struct Gunner {
    player: Player,
    transform: Transform,
    frame: usize,
    moving: Moving,
}

fn gunner(level: u32) -> Gunner {
    let mut player = Player::new(level);
    player.fire = true;
    Gunner {
        player,
        transform: Transform::new(0, 0),
        frame: 0,
        moving: Moving::new(GameDirection::Right, 2),
    }
}

fn tick(g: &mut Gunner, bullet_alive: bool, next_handle: u64, delta: u64) -> Option<Shot> {
    update_ui_game_shoot(
        &mut g.player,
        &mut g.transform,
        &mut g.frame,
        &mut g.moving,
        bullet_alive,
        next_handle,
        delta,
    )
}

#[test]
fn cooldown_gating() {
    let mut g = gunner(1);
    // t = 0: the first shot needs no cooldown.
    let first = tick(&mut g, false, 1, FRAME);
    assert!(first.is_some());
    assert_eq!(g.player.bullet, Some(1));
    assert_eq!(g.player.shoot_time, FRAME);
    // Fire intent held, first bullet alive: no second bullet, whatever time passes.
    for _ in 0..100 {
        assert_eq!(tick(&mut g, true, 2, FRAME), None);
    }
    assert_eq!(g.player.bullet, Some(1));
    assert!(g.player.shoot_time >= COOLDOWN);
    // First bullet destroyed and the cooldown accrued: the second bullet is fired.
    let second = tick(&mut g, false, 2, FRAME);
    assert!(second.is_some());
    assert_eq!(second.unwrap().handle, 2);
    assert_eq!(g.player.bullet, Some(2));
    assert_eq!(g.player.shoot_time, FRAME);
}

#[test]
fn no_second_shot_before_the_cooldown_has_accrued() {
    let mut g = gunner(1);
    assert!(tick(&mut g, false, 1, FRAME).is_some());
    // The bullet is destroyed at once; 600 ms take 38 frames of 16 ms to accrue.
    let mut frames_waited = 0;
    loop {
        let before = g.player.shoot_time;
        match tick(&mut g, false, 2, FRAME) {
            Some(_) => {
                assert!(before >= COOLDOWN);
                break;
            },
            None => {
                assert!(before < COOLDOWN);
                frames_waited += 1;
            },
        }
    }
    assert_eq!(frames_waited, 37);
}

#[test]
fn cooldown_stops_at_the_first_value_that_reaches_the_threshold() {
    let mut g = gunner(1);
    tick(&mut g, false, 1, FRAME);
    for _ in 0..100 {
        tick(&mut g, true, 2, FRAME);
    }
    assert_eq!(g.player.shoot_time, 38 * FRAME);
}

#[test]
fn cooldown_does_not_run_without_a_handle() {
    let mut g = gunner(1);
    g.player.fire = false;
    for _ in 0..10 {
        assert_eq!(tick(&mut g, false, 1, FRAME), None);
    }
    assert_eq!(g.player.shoot_time, 0);
    assert_eq!(g.player.bullet, None);
}

#[test]
fn no_shot_without_the_intent_to_fire() {
    let mut g = gunner(1);
    g.player.fire = false;
    g.player.bullet = Some(4);
    g.player.shoot_time = COOLDOWN;
    assert!(!may_fire(&g.player, false));
    assert_eq!(tick(&mut g, false, 5, FRAME), None);
    assert_eq!(g.player.bullet, Some(4));
    assert_eq!(g.player.shoot_time, COOLDOWN);
}

#[test]
fn stale_handle_counts_as_no_bullet_once_the_cooldown_is_over() {
    let mut player = Player::new(1);
    player.fire = true;
    player.bullet = Some(9);
    player.shoot_time = COOLDOWN - 1;
    assert!(!may_fire(&player, false));
    player.shoot_time = COOLDOWN;
    assert!(may_fire(&player, false));
    assert!(!may_fire(&player, true));
    player.bullet = None;
    player.shoot_time = 0;
    assert!(may_fire(&player, true));
}

#[test]
fn shot_starts_where_the_actor_stood_and_faced_before_it_moved() {
    let mut g = gunner(1);
    g.transform = Transform::new(30, 40);
    g.player.press(GameDirection::Up);
    let shot = tick(&mut g, false, 7, FRAME).unwrap();
    assert_eq!(
        shot,
        Shot {
            handle: 7,
            origin: Transform::new(30, 40),
            start: Transform::new(60, 40),
            moving: Moving::new(GameDirection::Right, 8),
        }
    );
    assert_eq!(g.transform, Transform::new(30, 42));
    assert_eq!(g.moving, Moving::new(GameDirection::Up, 2));
    assert_eq!(g.frame, 1);
}

#[test]
fn higher_levels_fire_faster_bullets() {
    assert_eq!(tick(&mut gunner(0), false, 1, FRAME).unwrap().moving.speed, 8);
    assert_eq!(tick(&mut gunner(1), false, 1, FRAME).unwrap().moving.speed, 8);
    assert_eq!(tick(&mut gunner(2), false, 1, FRAME).unwrap().moving.speed, 16);
    assert_eq!(tick(&mut gunner(3), false, 1, FRAME).unwrap().moving.speed, 16);
}

#[test]
fn projectile_starts_a_tile_and_its_half_extent_ahead_of_the_actor() {
    let origin = Transform::new(-10, 20);
    assert_eq!(muzzle(origin, GameDirection::Up), Transform::new(-10, 50));
    assert_eq!(muzzle(origin, GameDirection::Down), Transform::new(-10, -10));
    assert_eq!(muzzle(origin, GameDirection::Left), Transform::new(-40, 20));
    assert_eq!(muzzle(origin, GameDirection::Right), Transform::new(20, 20));
}

#[test]
fn shot_carries_the_start_of_the_projectile() {
    let mut g = gunner(1);
    g.transform = Transform::new(0, -100);
    g.moving = Moving::new(GameDirection::Down, 2);
    let shot = tick(&mut g, false, 1, FRAME).unwrap();
    assert_eq!(shot.origin, Transform::new(0, -100));
    assert_eq!(shot.start, Transform::new(0, -130));
}
