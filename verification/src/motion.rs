//! From held directions to motion: the direction stack, the per-frame displacement, the
//! walk-cycle frame and the alignment snap on turns.

use vstd::prelude::*;
use crate::geometry::{GameDirection, Moving, Point, Transform, WORLD_LIMIT};

verus! {

/// Positions are put back on multiples of this many world units when an actor turns.
pub const ALIGN_UNIT: i32 = 6;

/// What happened to one key since the previous frame.
#[derive(Clone, Copy, Debug, PartialEq, Eq, Structural)]
pub enum KeyChange {
    Unchanged,
    Pressed,
    Released,
}

/// The key changes of one frame for one actor.
#[derive(Clone, Copy, Debug, PartialEq, Eq, Structural)]
pub struct InputEvents {
    pub up: KeyChange,
    pub down: KeyChange,
    pub left: KeyChange,
    pub right: KeyChange,
    pub fire: KeyChange,
}

/// The state that an actor keeps from frame to frame.
#[derive(Clone, Debug)]
pub struct Player {
    /// The directions held at present, oldest first. The last one is the active one.
    pub direction_stack: Vec<GameDirection>,
    /// The active direction of the last frame in which one was held.
    pub last_turn_direction: Option<GameDirection>,
    /// Whether the actor wants to fire.
    pub fire: bool,
    /// Handle of the projectile fired last. It may refer to a projectile that is gone.
    pub bullet: Option<u64>,
    /// Nanoseconds accrued since the last shot, while a handle is present.
    pub shoot_time: u64,
    /// Upgrade level; projectiles of actors above level 1 fly faster.
    pub level: u32,
}

/// The stack after a release of `dir`: every entry equal to `dir` is taken out, wherever
/// it sits, and the others keep their order.
pub open spec fn released(stack: Seq<GameDirection>, dir: GameDirection) -> Seq<GameDirection> {
    stack.filter(|d: GameDirection| d != dir)
}

/// The stack after one key change for the direction `dir`.
pub open spec fn key_applied(
    stack: Seq<GameDirection>,
    dir: GameDirection,
    change: KeyChange,
) -> Seq<GameDirection> {
    match change {
        KeyChange::Unchanged => stack,
        KeyChange::Pressed => stack.push(dir),
        KeyChange::Released => released(stack, dir),
    }
}

/// The stack after the four direction keys of `input`, taken in the order up, down,
/// left, right.
pub open spec fn input_applied(stack: Seq<GameDirection>, input: InputEvents) -> Seq<GameDirection> {
    key_applied(
        key_applied(
            key_applied(key_applied(stack, GameDirection::Up, input.up), GameDirection::Down, input.down),
            GameDirection::Left,
            input.left,
        ),
        GameDirection::Right,
        input.right,
    )
}

/// The fire intent after one change of the fire key.
pub open spec fn fire_applied(fire: bool, change: KeyChange) -> bool {
    match change {
        KeyChange::Unchanged => fire,
        KeyChange::Pressed => true,
        KeyChange::Released => false,
    }
}

impl Player {
    /// A new actor: nothing held, no shot fired yet.
    pub fn new(level: u32) -> (p: Player)
        ensures
            p.direction_stack@ == Seq::<GameDirection>::empty(),
            p.last_turn_direction.is_none(),
            !p.fire,
            p.bullet.is_none(),
            p.shoot_time == 0,
            p.level == level,
    {
        Player {
            direction_stack: Vec::new(),
            last_turn_direction: None,
            fire: false,
            bullet: None,
            shoot_time: 0,
            level,
        }
    }

    /// The direction that the actor moves in: the last entry of the stack, if any.
    pub open spec fn active_direction(self) -> Option<GameDirection> {
        if self.direction_stack@.len() == 0 {
            None
        } else {
            Some(self.direction_stack@.last())
        }
    }

    /// Run-time form of [`Player::active_direction`].
    pub fn active(&self) -> (d: Option<GameDirection>)
        ensures
            d == self.active_direction(),
    {
        let n: usize = self.direction_stack.len();
        if n == 0 {
            None
        } else {
            Some(self.direction_stack[n - 1])
        }
    }

    /// Records that the key for `dir` went down: `dir` becomes the active direction.
    pub fn press(&mut self, dir: GameDirection)
        ensures
            final(self).direction_stack@ == old(self).direction_stack@.push(dir),
            final(self).active_direction() == Some(dir),
            final(self).last_turn_direction == old(self).last_turn_direction,
            final(self).fire == old(self).fire,
            final(self).bullet == old(self).bullet,
            final(self).shoot_time == old(self).shoot_time,
            final(self).level == old(self).level,
    {
        self.direction_stack.push(dir);
    }

    /// Records that the key for `dir` went up: `dir` leaves the stack wherever it sits.
    pub fn release(&mut self, dir: GameDirection)
        ensures
            final(self).direction_stack@ == released(old(self).direction_stack@, dir),
            !final(self).direction_stack@.contains(dir),
            final(self).last_turn_direction == old(self).last_turn_direction,
            final(self).fire == old(self).fire,
            final(self).bullet == old(self).bullet,
            final(self).shoot_time == old(self).shoot_time,
            final(self).level == old(self).level,
    {
        let ghost before = self.direction_stack@;
        let mut kept: Vec<GameDirection> = Vec::new();
        let n: usize = self.direction_stack.len();
        let mut i: usize = 0;
        proof {
            reveal(Seq::filter);
            assert(before.take(0) == Seq::<GameDirection>::empty());
        }
        while i < n
            invariant
                i <= n,
                n == self.direction_stack.len(),
                self.direction_stack@ == before,
                kept@ == released(before.take(i as int), dir),
            decreases n - i,
        {
            let d = self.direction_stack[i];
            proof {
                reveal(Seq::filter);
                assert(before.take(i + 1).drop_last() == before.take(i as int));
            }
            if d != dir {
                kept.push(d);
            }
            i += 1;
        }
        proof {
            assert(before.take(n as int) == before);
            lemma_released_lacks(before, dir);
        }
        self.direction_stack = kept;
    }
}

/// After a release of `dir` the stack holds no `dir`.
pub proof fn lemma_released_lacks(stack: Seq<GameDirection>, dir: GameDirection)
    ensures
        !released(stack, dir).contains(dir),
{
    let pred = |d: GameDirection| d != dir;
    let out = stack.filter(pred);
    if out.contains(dir) {
        let i = choose|i: int| 0 <= i < out.len() && out[i] == dir;
        stack.lemma_filter_pred(pred, i);
    }
}

/// Release ordering: when `second` is pressed after `first` and `first` is then released,
/// `second` is the active direction, whatever was held before.
pub proof fn lemma_release_keeps_latest(
    stack: Seq<GameDirection>,
    first: GameDirection,
    second: GameDirection,
)
    requires
        first != second,
    ensures
        released(stack.push(first).push(second), first).len() > 0,
        released(stack.push(first).push(second), first).last() == second,
{
    reveal(Seq::filter);
    let s = stack.push(first).push(second);
    assert(s.last() == second);
}

fn apply_key(player: &mut Player, dir: GameDirection, change: KeyChange)
    ensures
        final(player).direction_stack@ == key_applied(old(player).direction_stack@, dir, change),
        final(player).last_turn_direction == old(player).last_turn_direction,
        final(player).fire == old(player).fire,
        final(player).bullet == old(player).bullet,
        final(player).shoot_time == old(player).shoot_time,
        final(player).level == old(player).level,
{
    match change {
        KeyChange::Unchanged => {},
        KeyChange::Pressed => {
            player.press(dir);
        },
        KeyChange::Released => {
            player.release(dir);
        },
    }
}

/// Applies one frame of key changes to an actor: a press appends its direction to the
/// stack, a release takes its direction out of the stack, and the fire key sets or clears
/// the fire intent.
pub fn update_ui_game(player: &mut Player, input: &InputEvents)
    ensures
        final(player).direction_stack@ == input_applied(old(player).direction_stack@, *input),
        final(player).fire == fire_applied(old(player).fire, input.fire),
        final(player).last_turn_direction == old(player).last_turn_direction,
        final(player).bullet == old(player).bullet,
        final(player).shoot_time == old(player).shoot_time,
        final(player).level == old(player).level,
{
    apply_key(player, GameDirection::Up, input.up);
    apply_key(player, GameDirection::Down, input.down);
    apply_key(player, GameDirection::Left, input.left);
    apply_key(player, GameDirection::Right, input.right);
    match input.fire {
        KeyChange::Unchanged => {},
        KeyChange::Pressed => {
            player.fire = true;
        },
        KeyChange::Released => {
            player.fire = false;
        },
    }
}

/// How far `v` lies above the multiple of [`ALIGN_UNIT`] below it: from 0 up to, and not
/// including, the unit, for negative coordinates as for positive ones.
pub open spec fn align_remainder(v: int) -> int {
    v % (ALIGN_UNIT as int)
}

/// The coordinate `v` put on the nearest multiple of [`ALIGN_UNIT`]: up to the next
/// multiple if the remainder exceeds half the unit, else down by the remainder.
pub open spec fn snapped(v: int) -> int {
    let r = align_remainder(v);
    if 2 * r > ALIGN_UNIT {
        v + (ALIGN_UNIT - r)
    } else {
        v - r
    }
}

/// Both coordinates of `p` put on multiples of [`ALIGN_UNIT`].
pub open spec fn snapped_point(p: Point) -> Point {
    Point { x: snapped(p.x), y: snapped(p.y) }
}

/// The first frame of the two-frame walk cycle for `dir`.
pub open spec fn frame_base(dir: GameDirection) -> int {
    match dir {
        GameDirection::Up => 0,
        GameDirection::Down => 2,
        GameDirection::Left => 4,
        GameDirection::Right => 6,
    }
}

/// The sprite frame that follows `frame` for an actor moving in `dir`: the walk cycle of
/// `dir`, at the step that `frame` was not at.
pub open spec fn next_frame(frame: int, dir: GameDirection) -> int {
    frame_base(dir) + (frame + 1) % 2
}

/// The actor turns in this frame: the active direction differs from the recorded one.
pub open spec fn turns(last: Option<GameDirection>, dir: GameDirection) -> bool {
    last matches Some(l) && l != dir
}

/// Where one frame of motion in `dir` takes an actor from `p`: displaced by `speed`, and
/// put on the alignment lattice if the actor turns.
pub open spec fn translated(p: Point, dir: GameDirection, speed: int, last: Option<GameDirection>) -> Point {
    let q = p.moved(dir, speed);
    if turns(last, dir) {
        snapped_point(q)
    } else {
        q
    }
}

/// The point `q` lies on the alignment lattice, and no point of the lattice lies nearer
/// to `p` along either axis: each coordinate of `q` is a multiple of [`ALIGN_UNIT`] at
/// most half a unit from that of `p`.
pub open spec fn aligned_near(p: Point, q: Point) -> bool {
    &&& q.x % (ALIGN_UNIT as int) == 0
    &&& q.y % (ALIGN_UNIT as int) == 0
    &&& -3 <= q.x - p.x <= 2
    &&& -3 <= q.y - p.y <= 2
}

/// Run-time form of [`snapped`].
pub fn snap(v: i32) -> (r: i32)
    requires
        -2 * WORLD_LIMIT <= v <= 2 * WORLD_LIMIT,
    ensures
        r == snapped(v as int),
        r % ALIGN_UNIT == 0,
        -2 <= v - r <= 3,
{
    let m: i32 = v % ALIGN_UNIT;
    let above: i32 = if m < 0 {
        m + ALIGN_UNIT
    } else {
        m
    };
    if above > ALIGN_UNIT / 2 {
        v + (ALIGN_UNIT - above)
    } else {
        v - above
    }
}

/// The snap goes to the nearest multiple of the alignment unit: the snapped coordinate is
/// a multiple of the unit, and no multiple of the unit lies nearer to the coordinate.
pub proof fn lemma_snap_is_nearest(v: int, m: int)
    requires
        m % (ALIGN_UNIT as int) == 0,
    ensures
        snapped(v) % (ALIGN_UNIT as int) == 0,
        -2 <= v - snapped(v) <= 3,
        if snapped(v) >= v {
            snapped(v) - v
        } else {
            v - snapped(v)
        } <= if m >= v {
            m - v
        } else {
            v - m
        },
{
}

/// A turn puts the actor on the point of the alignment lattice nearest to where the
/// displacement took it.
pub proof fn lemma_turn_snaps_to_nearest(
    p: Point,
    dir: GameDirection,
    speed: int,
    last: Option<GameDirection>,
)
    requires
        turns(last, dir),
    ensures
        aligned_near(p.moved(dir, speed), translated(p, dir, speed, last)),
{
}

/// Snap idempotence: a snapped coordinate is a multiple of the alignment unit, and
/// snapping it again leaves it where it is.
pub proof fn lemma_snap_idempotent(v: int)
    ensures
        snapped(v) % (ALIGN_UNIT as int) == 0,
        snapped(snapped(v)) == snapped(v),
{
}

/// Snap idempotence for positions.
pub proof fn lemma_snap_point_idempotent(p: Point)
    ensures
        snapped_point(snapped_point(p)) == snapped_point(p),
{
    lemma_snap_idempotent(p.x);
    lemma_snap_idempotent(p.y);
}

/// Moves an actor by one frame.
///
/// With nothing held, nothing changes. Otherwise the last entry of the direction stack
/// becomes the direction of travel, the actor is displaced by its speed along it, the
/// sprite frame moves on in the walk cycle of that direction, and the direction is
/// recorded; if it differs from the one recorded before, both coordinates are snapped to
/// the nearest multiple of the alignment unit.
pub fn update_player(
    transform: &mut Transform,
    frame: &mut usize,
    tank: &mut Moving,
    player: &mut Player,
)
    requires
        old(transform).in_world(),
        old(tank).wf(),
        *old(frame) < usize::MAX,
    ensures
        final(player).direction_stack@ == old(player).direction_stack@,
        final(player).fire == old(player).fire,
        final(player).bullet == old(player).bullet,
        final(player).shoot_time == old(player).shoot_time,
        final(player).level == old(player).level,
        final(tank).speed == old(tank).speed,
        match old(player).active_direction() {
            None => {
                &&& *final(transform) == *old(transform)
                &&& *final(frame) == *old(frame)
                &&& *final(tank) == *old(tank)
                &&& final(player).last_turn_direction == old(player).last_turn_direction
            },
            Some(dir) => {
                &&& final(transform)@ == translated(
                    old(transform)@,
                    dir,
                    old(tank).speed as int,
                    old(player).last_turn_direction,
                )
                &&& turns(old(player).last_turn_direction, dir) ==> aligned_near(
                    old(transform)@.moved(dir, old(tank).speed as int),
                    final(transform)@,
                )
                &&& *final(frame) == next_frame(*old(frame) as int, dir)
                &&& final(tank).direction == dir
                &&& final(player).last_turn_direction == Some(dir)
            },
        },
{
    let idx: usize = (*frame + 1) % 2;
    match player.active() {
        None => {},
        Some(dir) => {
            tank.direction = dir;
            match dir {
                GameDirection::Up => {
                    *frame = idx;
                    transform.y = transform.y + tank.speed;
                },
                GameDirection::Down => {
                    *frame = 2 + idx;
                    transform.y = transform.y - tank.speed;
                },
                GameDirection::Left => {
                    *frame = 4 + idx;
                    transform.x = transform.x - tank.speed;
                },
                GameDirection::Right => {
                    *frame = 6 + idx;
                    transform.x = transform.x + tank.speed;
                },
            }
            let turned = match player.last_turn_direction {
                Some(last) => last != dir,
                None => false,
            };
            if turned {
                transform.y = snap(transform.y);
                transform.x = snap(transform.x);
            }
            player.last_turn_direction = Some(dir);
        },
    }
}

} // verus!
