//! Fire control: when an actor may fire, what it fires, and how the cooldown accrues.

use vstd::prelude::*;
use crate::bullet::BULLET_HALF_EXTENT;
use crate::geometry::{GameDirection, Moving, Point, Transform};
use crate::grid::TILE_SIZE;
use crate::motion::{aligned_near, next_frame, translated, turns, update_player, Player};

verus! {

/// Nanoseconds that must have accrued before an actor whose projectile is gone fires again.
pub const COOLDOWN: u64 = 600_000_000;

/// Speed of the projectiles of an actor of level 1 or below.
pub const BULLET_SPEED: i32 = 8;

/// Speed of the projectiles of an actor above level 1.
pub const FAST_BULLET_SPEED: i32 = 16;

/// How far ahead of the centre of the firing actor a projectile starts: a tile and the
/// projectile's own half extent, so that the projectile touches the front of an actor two
/// tiles long and does not overlap it.
pub const MUZZLE_REACH: i32 = TILE_SIZE + BULLET_HALF_EXTENT;

/// A request to create a projectile.
#[derive(Clone, Copy, Debug, PartialEq, Eq, Structural)]
pub struct Shot {
    /// The handle under which the projectile is to be registered.
    pub handle: u64,
    /// Where the firing actor stood when it fired.
    pub origin: Transform,
    /// Where the projectile starts.
    pub start: Transform,
    /// Direction and speed of the projectile.
    pub moving: Moving,
}

/// Where a projectile starts that an actor at `origin` fires in direction `dir`:
/// [`MUZZLE_REACH`] ahead of the actor's centre.
pub open spec fn muzzle_point(origin: Point, dir: GameDirection) -> Point {
    origin.moved(dir, MUZZLE_REACH as int)
}

/// The speed of the projectiles of an actor of the given level.
pub open spec fn bullet_speed(level: u32) -> i32 {
    if level > 1 {
        FAST_BULLET_SPEED
    } else {
        BULLET_SPEED
    }
}

/// The actor fires in this frame.
///
/// It wants to fire, and either it holds no handle, or the projectile behind its handle is
/// gone and the cooldown has accrued. `bullet_alive` says whether the projectile behind
/// the handle still exists; it has no meaning where there is no handle.
pub open spec fn fires(player: Player, bullet_alive: bool) -> bool {
    player.fire && (player.bullet.is_none() || (!bullet_alive && player.shoot_time >= COOLDOWN))
}

/// The cooldown after a frame of `delta` nanoseconds, from the value `time` that it had
/// once the shot, if any, was fired: it grows only while a handle is held and only until
/// it has reached the threshold.
pub open spec fn accrued(time: u64, holds_handle: bool, delta: u64) -> int {
    if holds_handle && time < COOLDOWN {
        time + delta
    } else {
        time as int
    }
}

/// Run-time form of [`muzzle_point`].
pub fn muzzle(origin: Transform, dir: GameDirection) -> (start: Transform)
    requires
        origin.in_world(),
    ensures
        start@ == muzzle_point(origin@, dir),
{
    match dir {
        GameDirection::Up => Transform { x: origin.x, y: origin.y + MUZZLE_REACH },
        GameDirection::Down => Transform { x: origin.x, y: origin.y - MUZZLE_REACH },
        GameDirection::Left => Transform { x: origin.x - MUZZLE_REACH, y: origin.y },
        GameDirection::Right => Transform { x: origin.x + MUZZLE_REACH, y: origin.y },
    }
}

/// Run-time test of [`fires`].
pub fn may_fire(player: &Player, bullet_alive: bool) -> (b: bool)
    ensures
        b == fires(*player, bullet_alive),
{
    player.fire && (player.bullet.is_none() || (!bullet_alive && player.shoot_time >= COOLDOWN))
}

/// One frame of an actor: fire if permitted, move, and let the cooldown accrue.
///
/// `bullet_alive` says whether the projectile behind the actor's handle still exists,
/// `next_handle` is the handle that a projectile fired now will be registered under, and
/// `delta` is the length of the frame in nanoseconds. The shot, if any, is fired from where
/// the actor stood and faced before it moved, and starts [`MUZZLE_REACH`] ahead of there.
pub fn update_ui_game_shoot(
    player: &mut Player,
    transform: &mut Transform,
    frame: &mut usize,
    mov: &mut Moving,
    bullet_alive: bool,
    next_handle: u64,
    delta: u64,
) -> (shot: Option<Shot>)
    requires
        old(transform).in_world(),
        old(mov).wf(),
        *old(frame) < usize::MAX,
        delta <= u64::MAX - COOLDOWN,
    ensures
        shot.is_some() == fires(*old(player), bullet_alive),
        shot matches Some(s) ==> {
            &&& s.handle == next_handle
            &&& s.origin == *old(transform)
            &&& s.start@ == muzzle_point(old(transform)@, old(mov).direction)
            &&& s.moving.direction == old(mov).direction
            &&& s.moving.speed == bullet_speed(old(player).level)
        },
        final(player).bullet == (if fires(*old(player), bullet_alive) {
            Some(next_handle)
        } else {
            old(player).bullet
        }),
        final(player).shoot_time == accrued(
            if fires(*old(player), bullet_alive) {
                0
            } else {
                old(player).shoot_time
            },
            final(player).bullet.is_some(),
            delta,
        ),
        final(player).direction_stack@ == old(player).direction_stack@,
        final(player).fire == old(player).fire,
        final(player).level == old(player).level,
        final(mov).speed == old(mov).speed,
        match old(player).active_direction() {
            None => {
                &&& *final(transform) == *old(transform)
                &&& *final(frame) == *old(frame)
                &&& *final(mov) == *old(mov)
                &&& final(player).last_turn_direction == old(player).last_turn_direction
            },
            Some(dir) => {
                &&& final(transform)@ == translated(
                    old(transform)@,
                    dir,
                    old(mov).speed as int,
                    old(player).last_turn_direction,
                )
                &&& turns(old(player).last_turn_direction, dir) ==> aligned_near(
                    old(transform)@.moved(dir, old(mov).speed as int),
                    final(transform)@,
                )
                &&& *final(frame) == next_frame(*old(frame) as int, dir)
                &&& final(mov).direction == dir
                &&& final(player).last_turn_direction == Some(dir)
            },
        },
{
    let mut shot: Option<Shot> = None;
    if may_fire(player, bullet_alive) {
        player.shoot_time = 0;
        let speed: i32 = if player.level > 1 {
            FAST_BULLET_SPEED
        } else {
            BULLET_SPEED
        };
        shot = Some(
            Shot {
                handle: next_handle,
                origin: *transform,
                start: muzzle(*transform, mov.direction),
                moving: Moving { direction: mov.direction, speed },
            },
        );
        player.bullet = Some(next_handle);
    }
    update_player(transform, frame, mov, player);
    if player.bullet.is_some() && player.shoot_time < COOLDOWN {
        player.shoot_time = player.shoot_time + delta;
    }
    shot
}

/// Cooldown gating: an actor whose projectile is still alive does not fire, whatever the
/// cooldown has reached, and an actor whose projectile is gone does not fire before the
/// cooldown has accrued.
pub proof fn lemma_cooldown_gates(player: Player, bullet_alive: bool)
    requires
        player.bullet.is_some(),
        bullet_alive || player.shoot_time < COOLDOWN,
    ensures
        !fires(player, bullet_alive),
{
}

} // verus!
