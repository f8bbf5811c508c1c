use tank_core::geometry::{GameDirection, Moving, Transform};
use tank_core::motion::{snap, update_player, update_ui_game, InputEvents, KeyChange, Player};

fn quiet() -> InputEvents {
    InputEvents {
        up: KeyChange::Unchanged,
        down: KeyChange::Unchanged,
        left: KeyChange::Unchanged,
        right: KeyChange::Unchanged,
        fire: KeyChange::Unchanged,
    }
}

fn walk(player: &mut Player, transform: &mut Transform, frame: &mut usize, speed: i32) -> Moving {
    let mut moving = Moving::new(GameDirection::Up, speed);
    update_player(transform, frame, &mut moving, player);
    moving
}

#[test]
fn direction_stack_release_ordering() {
    let mut player = Player::new(1);
    update_ui_game(&mut player, &InputEvents { up: KeyChange::Pressed, ..quiet() });
    update_ui_game(&mut player, &InputEvents { left: KeyChange::Pressed, ..quiet() });
    assert_eq!(player.direction_stack, vec![GameDirection::Up, GameDirection::Left]);
    update_ui_game(&mut player, &InputEvents { up: KeyChange::Released, ..quiet() });
    assert_eq!(player.direction_stack, vec![GameDirection::Left]);
    assert_eq!(player.active(), Some(GameDirection::Left));
}

#[test]
fn releasing_the_latest_key_falls_back_to_the_one_before() {
    let mut player = Player::new(1);
    player.press(GameDirection::Up);
    player.press(GameDirection::Left);
    player.release(GameDirection::Left);
    assert_eq!(player.active(), Some(GameDirection::Up));
    player.release(GameDirection::Up);
    assert_eq!(player.active(), None);
}

#[test]
fn release_removes_by_value_wherever_the_entry_sits() {
    let mut player = Player::new(1);
    player.direction_stack = vec![
        GameDirection::Up,
        GameDirection::Left,
        GameDirection::Up,
        GameDirection::Right,
    ];
    player.release(GameDirection::Up);
    assert_eq!(player.direction_stack, vec![GameDirection::Left, GameDirection::Right]);
    player.release(GameDirection::Down);
    assert_eq!(player.direction_stack, vec![GameDirection::Left, GameDirection::Right]);
}

#[test]
fn keys_of_one_frame_apply_in_the_order_up_down_left_right() {
    let mut player = Player::new(1);
    let all = InputEvents {
        up: KeyChange::Pressed,
        down: KeyChange::Pressed,
        left: KeyChange::Pressed,
        right: KeyChange::Pressed,
        fire: KeyChange::Unchanged,
    };
    update_ui_game(&mut player, &all);
    assert_eq!(
        player.direction_stack,
        vec![GameDirection::Up, GameDirection::Down, GameDirection::Left, GameDirection::Right]
    );
    let mixed = InputEvents {
        up: KeyChange::Released,
        down: KeyChange::Unchanged,
        left: KeyChange::Pressed,
        right: KeyChange::Released,
        fire: KeyChange::Unchanged,
    };
    update_ui_game(&mut player, &mixed);
    assert_eq!(
        player.direction_stack,
        vec![GameDirection::Down, GameDirection::Left, GameDirection::Left]
    );
}

#[test]
fn fire_key_sets_and_clears_the_intent() {
    let mut player = Player::new(1);
    update_ui_game(&mut player, &quiet());
    assert!(!player.fire);
    update_ui_game(&mut player, &InputEvents { fire: KeyChange::Pressed, ..quiet() });
    assert!(player.fire);
    update_ui_game(&mut player, &quiet());
    assert!(player.fire);
    update_ui_game(&mut player, &InputEvents { fire: KeyChange::Released, ..quiet() });
    assert!(!player.fire);
    assert!(player.direction_stack.is_empty());
}

#[test]
fn nothing_held_means_nothing_moves() {
    let mut player = Player::new(1);
    let mut transform = Transform::new(7, -9);
    let mut frame = 5usize;
    let moving = walk(&mut player, &mut transform, &mut frame, 3);
    assert_eq!(transform, Transform::new(7, -9));
    assert_eq!(frame, 5);
    assert_eq!(moving, Moving::new(GameDirection::Up, 3));
    assert_eq!(player.last_turn_direction, None);
}

#[test]
fn active_direction_displaces_by_the_speed_along_its_axis() {
    for (dir, end) in [
        (GameDirection::Up, Transform::new(10, 23)),
        (GameDirection::Down, Transform::new(10, 17)),
        (GameDirection::Left, Transform::new(7, 20)),
        (GameDirection::Right, Transform::new(13, 20)),
    ] {
        let mut player = Player::new(1);
        player.press(dir);
        let mut transform = Transform::new(10, 20);
        let mut frame = 0usize;
        let moving = walk(&mut player, &mut transform, &mut frame, 3);
        assert_eq!(transform, end);
        assert_eq!(moving, Moving::new(dir, 3));
        assert_eq!(player.last_turn_direction, Some(dir));
    }
}

#[test]
fn last_entry_of_the_stack_is_the_active_one() {
    let mut player = Player::new(1);
    player.direction_stack = vec![GameDirection::Up, GameDirection::Right];
    let mut transform = Transform::new(0, 0);
    let mut frame = 0usize;
    walk(&mut player, &mut transform, &mut frame, 2);
    assert_eq!(transform, Transform::new(2, 0));
}

#[test]
fn walk_cycle_alternates_between_the_two_frames_of_the_direction() {
    for (dir, base) in [
        (GameDirection::Up, 0usize),
        (GameDirection::Down, 2),
        (GameDirection::Left, 4),
        (GameDirection::Right, 6),
    ] {
        let mut player = Player::new(1);
        player.press(dir);
        let mut transform = Transform::new(0, 0);
        let mut frame = 0usize;
        let mut seen = Vec::new();
        for _ in 0..4 {
            walk(&mut player, &mut transform, &mut frame, 1);
            seen.push(frame);
        }
        // From frame 0 the cycle yields base + 1 first; whether the next frame is the
        // first or second of the pair follows from the parity of the frame before.
        let expected: Vec<usize> = if base % 2 == 0 {
            vec![base + 1, base, base + 1, base]
        } else {
            vec![base, base + 1, base, base + 1]
        };
        assert_eq!(seen, expected);
    }
}

#[test]
fn turning_snaps_both_coordinates_to_the_alignment_unit() {
    let mut player = Player::new(1);
    player.last_turn_direction = Some(GameDirection::Up);
    player.press(GameDirection::Left);
    let mut transform = Transform::new(10, 7);
    let mut frame = 0usize;
    walk(&mut player, &mut transform, &mut frame, 2);
    // Moved to (8, 7); 8 has remainder 2 and goes back to 6, 7 has remainder 1 and goes to 6.
    assert_eq!(transform, Transform::new(6, 6));
    assert_eq!(player.last_turn_direction, Some(GameDirection::Left));
}

#[test]
fn remainder_above_half_the_unit_rounds_up() {
    let mut player = Player::new(1);
    player.last_turn_direction = Some(GameDirection::Left);
    player.press(GameDirection::Up);
    let mut transform = Transform::new(11, 2);
    let mut frame = 0usize;
    walk(&mut player, &mut transform, &mut frame, 2);
    // Moved to (11, 4); remainders 5 and 4 both exceed 3.
    assert_eq!(transform, Transform::new(12, 6));
}

#[test]
fn no_snap_without_a_turn() {
    let mut player = Player::new(1);
    player.press(GameDirection::Up);
    let mut transform = Transform::new(10, 7);
    let mut frame = 0usize;
    walk(&mut player, &mut transform, &mut frame, 2);
    assert_eq!(transform, Transform::new(10, 9));
    walk(&mut player, &mut transform, &mut frame, 2);
    assert_eq!(transform, Transform::new(10, 11));
}

#[test]
fn snap_values() {
    assert_eq!(snap(0), 0);
    assert_eq!(snap(1), 0);
    assert_eq!(snap(3), 0);
    assert_eq!(snap(4), 6);
    assert_eq!(snap(5), 6);
    assert_eq!(snap(6), 6);
    assert_eq!(snap(9), 6);
    assert_eq!(snap(10), 12);
    assert_eq!(snap(-1), 0);
    assert_eq!(snap(-2), 0);
    assert_eq!(snap(-3), -6);
    assert_eq!(snap(-4), -6);
    assert_eq!(snap(-5), -6);
    assert_eq!(snap(-6), -6);
    assert_eq!(snap(-7), -6);
    assert_eq!(snap(-8), -6);
    assert_eq!(snap(-9), -12);
    assert_eq!(snap(-11), -12);
}

#[test]
fn snap_goes_to_the_nearest_multiple_on_both_sides_of_the_origin() {
    for v in -200i32..=200 {
        let snapped = snap(v);
        assert_eq!(snapped.rem_euclid(6), 0);
        assert!((snapped - v).abs() <= 3);
        for k in -40..=40 {
            assert!((snapped - v).abs() <= (6 * k - v).abs());
        }
    }
}

#[test]
fn turning_left_of_the_origin_snaps_away_from_it_where_that_is_nearer() {
    let mut player = Player::new(1);
    player.last_turn_direction = Some(GameDirection::Up);
    player.press(GameDirection::Left);
    let mut transform = Transform::new(-4, -10);
    let mut frame = 0usize;
    walk(&mut player, &mut transform, &mut frame, 1);
    // Moved to (-5, -10): the nearest multiples of 6 are -6 and -12.
    assert_eq!(transform, Transform::new(-6, -12));
}

#[test]
fn snap_is_idempotent() {
    for v in -200..=200 {
        let once = snap(v);
        assert_eq!(once % 6, 0);
        assert_eq!(snap(once), once);
    }
}
