//! The enemy director: when an enemy looks for a new route to the objective, and how the
//! first step of the route becomes its direction of travel.

use vstd::prelude::*;
use crate::geometry::{GameDirection, Obstacle, Point, Transform};
use crate::grid::{cols, rows, tile_of, world_to_tile, GridMap, Tile, TILE_SIZE};
use crate::motion::Player;
use crate::pathfinder::{a_star, route};

verus! {

/// An enemy looks for a new route once it has moved this far along either axis from
/// where it last did: the width of a tile.
pub const SEARCH_STRIDE: i32 = TILE_SIZE;

/// What the director remembers of an enemy.
#[derive(Clone, Copy, Debug, PartialEq, Eq, Structural)]
pub struct Enemy {
    /// Where the enemy stood when it last looked for a route.
    pub start_search_pos: Option<Transform>,
}

/// The enemy has no search on record, or has moved a stride or more along an axis since
/// the one on record.
pub open spec fn search_due(enemy: Enemy, pos: Transform) -> bool {
    match enemy.start_search_pos {
        None => true,
        Some(from) => {
            ||| pos.x - from.x >= SEARCH_STRIDE
            ||| from.x - pos.x >= SEARCH_STRIDE
            ||| pos.y - from.y >= SEARCH_STRIDE
            ||| from.y - pos.y >= SEARCH_STRIDE
        },
    }
}

/// Square of the distance between two points.
pub open spec fn distance_squared(a: Point, b: Point) -> int {
    (a.x - b.x) * (a.x - b.x) + (a.y - b.y) * (a.y - b.y)
}

/// Index of the objective nearest to `p` among the first `n` colliders, the first of
/// them where several are equally near; `None` if there is no objective among them.
pub open spec fn nearest_home_among(colliders: Seq<Obstacle>, p: Point, n: nat) -> Option<int>
    decreases n,
{
    if n == 0 {
        None
    } else {
        let before = nearest_home_among(colliders, p, (n - 1) as nat);
        let c = colliders[n - 1];
        if !c.collider.is_home() {
            before
        } else {
            match before {
                None => Some(n - 1),
                Some(b) => if distance_squared(p, c.transform@) < distance_squared(
                    p,
                    colliders[b].transform@,
                ) {
                    Some(n - 1)
                } else {
                    before
                },
            }
        }
    }
}

/// Index of the objective nearest to `p`.
pub open spec fn nearest_home(colliders: Seq<Obstacle>, p: Point) -> Option<int> {
    nearest_home_among(colliders, p, colliders.len())
}

/// The direction of the step from tile `a` to tile `b`, if they share an edge. Row 0 is
/// the top row, so a step to a lower row number goes up.
pub open spec fn step_direction(a: Tile, b: Tile) -> Option<GameDirection> {
    if a.col == b.col && b.row == a.row - 1 {
        Some(GameDirection::Up)
    } else if a.col == b.col && b.row == a.row + 1 {
        Some(GameDirection::Down)
    } else if a.row == b.row && b.col == a.col - 1 {
        Some(GameDirection::Left)
    } else if a.row == b.row && b.col == a.col + 1 {
        Some(GameDirection::Right)
    } else {
        None
    }
}

/// The direction in which a route sets out: that of its first step, if it has one.
pub open spec fn first_step(path: Seq<Tile>) -> Option<GameDirection> {
    if path.len() < 2 {
        None
    } else {
        step_direction(path[0], path[1])
    }
}

/// The direction stack after the director has set `dir`: it becomes the only entry of an
/// empty stack, and replaces the bottom entry of any other.
pub open spec fn steered(stack: Seq<GameDirection>, dir: GameDirection) -> Seq<GameDirection> {
    if stack.len() == 0 {
        seq![dir]
    } else {
        stack.update(0, dir)
    }
}

/// The tile of the world position `pos` on `grid`.
pub open spec fn tile_at(grid: Seq<Seq<usize>>, pos: Transform) -> Tile {
    let t = tile_of(rows(grid), cols(grid), pos@);
    Tile { row: t.0 as i32, col: t.1 as i32 }
}

/// The direction stack after the director has looked for a route from `pos` to `home`.
pub open spec fn redirected(
    stack: Seq<GameDirection>,
    grid: Seq<Seq<usize>>,
    pos: Transform,
    home: Transform,
) -> Seq<GameDirection> {
    match route(grid, tile_at(grid, pos), tile_at(grid, home)) {
        None => stack,
        Some(path) => match first_step(path) {
            None => stack,
            Some(dir) => steered(stack, dir),
        },
    }
}

/// Run-time form of [`first_step`].
pub fn path_to_move_direction(path: &Vec<Tile>) -> (dir: Option<GameDirection>)
    ensures
        dir == first_step(path@),
{
    if path.len() < 2 {
        return None;
    }
    let a = path[0];
    let b = path[1];
    if a.col == b.col && a.row > i32::MIN && b.row == a.row - 1 {
        Some(GameDirection::Up)
    } else if a.col == b.col && a.row < i32::MAX && b.row == a.row + 1 {
        Some(GameDirection::Down)
    } else if a.row == b.row && a.col > i32::MIN && b.col == a.col - 1 {
        Some(GameDirection::Left)
    } else if a.row == b.row && a.col < i32::MAX && b.col == a.col + 1 {
        Some(GameDirection::Right)
    } else {
        None
    }
}

fn dist2(a: Transform, b: Transform) -> (d: i64)
    requires
        a.in_world(),
        b.in_world(),
    ensures
        d == distance_squared(a@, b@),
{
    let dx: i64 = a.x as i64 - b.x as i64;
    let dy: i64 = a.y as i64 - b.y as i64;
    assert(0 <= dx * dx <= 0x2000_0000 * 0x2000_0000) by (nonlinear_arith)
        requires
            -0x2000_0000 <= dx <= 0x2000_0000,
    ;
    assert(0 <= dy * dy <= 0x2000_0000 * 0x2000_0000) by (nonlinear_arith)
        requires
            -0x2000_0000 <= dy <= 0x2000_0000,
    ;
    dx * dx + dy * dy
}

/// Run-time form of [`nearest_home`].
pub fn find_nearest_home(colliders: &Vec<Obstacle>, pos: Transform) -> (found: Option<usize>)
    requires
        pos.in_world(),
        forall|k: int| 0 <= k < colliders.len() ==> (#[trigger] colliders[k]).wf(),
    ensures
        match found {
            Some(i) => nearest_home(colliders@, pos@) == Some(i as int) && i < colliders.len()
                && colliders[i as int].collider.is_home(),
            None => nearest_home(colliders@, pos@).is_none(),
        },
{
    let mut found: Option<usize> = None;
    let mut n: usize = 0;
    while n < colliders.len()
        invariant
            n <= colliders.len(),
            pos.in_world(),
            forall|k: int| 0 <= k < colliders.len() ==> (#[trigger] colliders[k]).wf(),
            match found {
                Some(i) => nearest_home_among(colliders@, pos@, n as nat) == Some(i as int) && i < n
                    && colliders[i as int].collider.is_home(),
                None => nearest_home_among(colliders@, pos@, n as nat).is_none(),
            },
        decreases colliders.len() - n,
    {
        if colliders[n].collider.home() {
            match found {
                None => {
                    found = Some(n);
                },
                Some(b) => {
                    if dist2(pos, colliders[n].transform) < dist2(pos, colliders[b].transform) {
                        found = Some(n);
                    }
                },
            }
        }
        n += 1;
    }
    found
}

/// Run-time test of [`search_due`].
pub fn is_search_due(enemy: &Enemy, pos: Transform) -> (due: bool)
    requires
        pos.in_world(),
        enemy.start_search_pos matches Some(from) ==> from.in_world(),
    ensures
        due == search_due(*enemy, pos),
{
    match enemy.start_search_pos {
        None => true,
        Some(from) => pos.x - from.x >= SEARCH_STRIDE || from.x - pos.x >= SEARCH_STRIDE || pos.y
            - from.y >= SEARCH_STRIDE || from.y - pos.y >= SEARCH_STRIDE,
    }
}

/// One frame of the director for one enemy.
///
/// When a search is due and there is an objective among `colliders`, the enemy's position
/// goes on record, and a route is sought from the enemy's tile to the tile of the nearest
/// objective; if there is a route of two tiles or more, its first step becomes the
/// enemy's direction. In every other case nothing changes.
pub fn update_ui_enemy(
    player: &mut Player,
    enemy: &mut Enemy,
    pos: Transform,
    colliders: &Vec<Obstacle>,
    map: &GridMap,
)
    requires
        map.wf(),
        pos.in_world(),
        old(enemy).start_search_pos matches Some(from) ==> from.in_world(),
        forall|k: int| 0 <= k < colliders.len() ==> (#[trigger] colliders[k]).wf(),
    ensures
        final(player).last_turn_direction == old(player).last_turn_direction,
        final(player).fire == old(player).fire,
        final(player).bullet == old(player).bullet,
        final(player).shoot_time == old(player).shoot_time,
        final(player).level == old(player).level,
        match nearest_home(colliders@, pos@) {
            Some(h) if search_due(*old(enemy), pos) => {
                &&& final(enemy).start_search_pos == Some(pos)
                &&& final(player).direction_stack@ == redirected(
                    old(player).direction_stack@,
                    map@,
                    pos,
                    colliders[h].transform,
                )
            },
            _ => {
                &&& *final(enemy) == *old(enemy)
                &&& final(player).direction_stack@ == old(player).direction_stack@
            },
        },
{
    if !is_search_due(enemy, pos) {
        return ;
    }
    match find_nearest_home(colliders, pos) {
        None => {},
        Some(h) => {
            enemy.start_search_pos = Some(pos);
            let home_tile = world_to_tile(map, colliders[h].transform);
            let enemy_tile = world_to_tile(map, pos);
            match a_star(map, enemy_tile, home_tile) {
                None => {},
                Some(path) => {
                    match path_to_move_direction(&path) {
                        None => {},
                        Some(dir) => {
                            if player.direction_stack.len() == 0 {
                                player.direction_stack.push(dir);
                            } else {
                                player.direction_stack[0] = dir;
                            }
                        },
                    }
                },
            }
        },
    }
}

} // verus!
