//! Positional collision resolution for travelling actors.
//!
//! Once per frame every travelling actor that is not a projectile is corrected in three
//! steps: it is clamped inside each container, pushed back out of each static obstacle that
//! its filter set does not exclude, and pushed back from each actor that comes after it in
//! the list. Every correction moves the actor against its own direction of travel.

use vstd::prelude::*;
use crate::geometry::{
    Collider, GameDirection, Movable, Obstacle, Point, Rect, Transform, WORLD_LIMIT, rects_overlap,
};

verus! {

/// `q` is `p` moved by zero or more units against the direction `dir`.
pub open spec fn behind_or_at(dir: GameDirection, q: Point, p: Point) -> bool {
    match dir {
        GameDirection::Up => q.x == p.x && q.y <= p.y,
        GameDirection::Down => q.x == p.x && q.y >= p.y,
        GameDirection::Left => q.y == p.y && q.x >= p.x,
        GameDirection::Right => q.y == p.y && q.x <= p.x,
    }
}

/// The distance between `p` and a point `q` behind it, along the axis of `dir`.
pub open spec fn step_length(dir: GameDirection, q: Point, p: Point) -> int {
    match dir {
        GameDirection::Up => p.y - q.y,
        GameDirection::Down => q.y - p.y,
        GameDirection::Left => q.x - p.x,
        GameDirection::Right => p.x - q.x,
    }
}

/// The extent of `body` along the axis of `dir`.
pub open spec fn length_along(dir: GameDirection, body: Collider) -> int {
    match dir {
        GameDirection::Up | GameDirection::Down => body.height(),
        GameDirection::Left | GameDirection::Right => body.width(),
    }
}

/// Where an actor at `p` ends up after the check against a container: if its leading edge
/// lies beyond the container's edge, it is put back so that the two edges coincide.
pub open spec fn clamp_inside(p: Point, body: Collider, dir: GameDirection, container: Rect) -> Point {
    let r = body.rect_at(p);
    match dir {
        GameDirection::Up => if r.top() > container.top() {
            Point { x: p.x, y: container.top() - body.half_height }
        } else {
            p
        },
        GameDirection::Down => if r.bottom() < container.bottom() {
            Point { x: p.x, y: container.bottom() + body.half_height }
        } else {
            p
        },
        GameDirection::Left => if r.left() < container.left() {
            Point { x: container.left() + body.half_width, y: p.y }
        } else {
            p
        },
        GameDirection::Right => if r.right() > container.right() {
            Point { x: container.right() - body.half_width, y: p.y }
        } else {
            p
        },
    }
}

/// The position on the actor's line of travel at which its leading edge touches the edge
/// of `other` that it meets first.
pub open spec fn flush_against(p: Point, body: Collider, dir: GameDirection, other: Rect) -> Point {
    match dir {
        GameDirection::Up => Point { x: p.x, y: other.bottom() - body.half_height },
        GameDirection::Down => Point { x: p.x, y: other.top() + body.half_height },
        GameDirection::Left => Point { x: other.right() + body.half_width, y: p.y },
        GameDirection::Right => Point { x: other.left() - body.half_width, y: p.y },
    }
}

/// The static obstacle `s` takes part in the resolution of an actor with collider `body`.
pub open spec fn blocks(body: Collider, s: Obstacle) -> bool {
    !s.collider.is_container && !body.filters(s.collider.index)
}

/// One static collider applied to an actor at `p`.
pub open spec fn resolve_static(p: Point, body: Collider, dir: GameDirection, s: Obstacle) -> Point {
    if s.collider.is_container {
        clamp_inside(p, body, dir, s.rect())
    } else if !body.filters(s.collider.index) && body.rect_at(p).overlaps(s.rect()) {
        flush_against(p, body, dir, s.rect())
    } else {
        p
    }
}

/// All static colliders applied in order, each to the position that the one before left.
pub open spec fn resolve_statics(
    p: Point,
    body: Collider,
    dir: GameDirection,
    statics: Seq<Obstacle>,
) -> Point
    decreases statics.len(),
{
    if statics.len() == 0 {
        p
    } else {
        resolve_static(
            resolve_statics(p, body, dir, statics.drop_last()),
            body,
            dir,
            statics.last(),
        )
    }
}

/// One other travelling actor applied to an actor at `p`. Projectiles block nobody.
pub open spec fn resolve_movable(p: Point, body: Collider, dir: GameDirection, other: Movable) -> Point {
    if !other.collider.is_bullet && body.rect_at(p).overlaps(other.rect()) {
        flush_against(p, body, dir, other.rect())
    } else {
        p
    }
}

/// The travelling actors `others` applied in order.
pub open spec fn resolve_movables(
    p: Point,
    body: Collider,
    dir: GameDirection,
    others: Seq<Movable>,
) -> Point
    decreases others.len(),
{
    if others.len() == 0 {
        p
    } else {
        resolve_movable(
            resolve_movables(p, body, dir, others.drop_last()),
            body,
            dir,
            others.last(),
        )
    }
}

/// The position of actor `i` after static resolution, before it meets the later actors.
pub open spec fn after_statics(movables: Seq<Movable>, statics: Seq<Obstacle>, i: int) -> Point {
    let m = movables[i];
    resolve_statics(m.transform@, m.collider, m.moving.direction, statics)
}

/// The position that resolution gives actor `i`.
///
/// Only the actors after `i` push it back, and they do so from the places they had when
/// resolution began, since each actor is corrected in its own turn only.
pub open spec fn resolved(movables: Seq<Movable>, statics: Seq<Obstacle>, i: int) -> Point {
    let m = movables[i];
    if m.collider.is_bullet {
        m.transform@
    } else {
        resolve_movables(
            after_statics(movables, statics, i),
            m.collider,
            m.moving.direction,
            movables.skip(i + 1),
        )
    }
}

/// Coordinates stay within three times the world limit during resolution.
pub open spec fn in_reach(p: Point) -> bool {
    &&& -3 * WORLD_LIMIT <= p.x <= 3 * WORLD_LIMIT
    &&& -3 * WORLD_LIMIT <= p.y <= 3 * WORLD_LIMIT
}

fn step_static(p: Transform, body: &Collider, dir: GameDirection, s: &Obstacle) -> (q: Transform)
    requires
        in_reach(p@),
        body.wf(),
        s.wf(),
    ensures
        q@ == resolve_static(p@, *body, dir, *s),
        in_reach(q@),
{
    let hw: i32 = body.half_width;
    let hh: i32 = body.half_height;
    let sw: i32 = s.collider.half_width;
    let sh: i32 = s.collider.half_height;
    let sx: i32 = s.transform.x;
    let sy: i32 = s.transform.y;
    if s.collider.is_container {
        match dir {
            GameDirection::Up => if p.y + hh > sy + sh {
                Transform { x: p.x, y: sy + sh - hh }
            } else {
                p
            },
            GameDirection::Down => if p.y - hh < sy - sh {
                Transform { x: p.x, y: sy - sh + hh }
            } else {
                p
            },
            GameDirection::Left => if p.x - hw < sx - sw {
                Transform { x: sx - sw + hw, y: p.y }
            } else {
                p
            },
            GameDirection::Right => if p.x + hw > sx + sw {
                Transform { x: sx + sw - hw, y: p.y }
            } else {
                p
            },
        }
    } else if !body.excludes(s.collider.index) && rects_overlap(p, hw, hh, s.transform, sw, sh) {
        flush(p, hw, hh, dir, s.transform, sw, sh)
    } else {
        p
    }
}

fn flush(
    p: Transform,
    hw: i32,
    hh: i32,
    dir: GameDirection,
    o: Transform,
    ow: i32,
    oh: i32,
) -> (q: Transform)
    requires
        in_reach(p@),
        o.in_world(),
        0 <= hw <= WORLD_LIMIT,
        0 <= hh <= WORLD_LIMIT,
        0 <= ow <= WORLD_LIMIT,
        0 <= oh <= WORLD_LIMIT,
    ensures
        q@ == (match dir {
            GameDirection::Up => Point { x: p.x as int, y: o.y - oh - hh },
            GameDirection::Down => Point { x: p.x as int, y: o.y + oh + hh },
            GameDirection::Left => Point { x: o.x + ow + hw, y: p.y as int },
            GameDirection::Right => Point { x: o.x - ow - hw, y: p.y as int },
        }),
        in_reach(q@),
{
    match dir {
        GameDirection::Up => Transform { x: p.x, y: o.y - oh - hh },
        GameDirection::Down => Transform { x: p.x, y: o.y + oh + hh },
        GameDirection::Left => Transform { x: o.x + ow + hw, y: p.y },
        GameDirection::Right => Transform { x: o.x - ow - hw, y: p.y },
    }
}

fn step_movable(p: Transform, body: &Collider, dir: GameDirection, other: &Movable) -> (q: Transform)
    requires
        in_reach(p@),
        body.wf(),
        other.wf(),
    ensures
        q@ == resolve_movable(p@, *body, dir, *other),
        in_reach(q@),
{
    if !other.collider.is_bullet && rects_overlap(
        p,
        body.half_width,
        body.half_height,
        other.transform,
        other.collider.half_width,
        other.collider.half_height,
    ) {
        flush(
            p,
            body.half_width,
            body.half_height,
            dir,
            other.transform,
            other.collider.half_width,
            other.collider.half_height,
        )
    } else {
        p
    }
}

/// Corrects the position of every travelling actor in place.
///
/// Each actor that is not a projectile is clamped inside the containers among `statics`,
/// pushed back out of the other static colliders that its filter set does not exclude, and
/// then pushed back from each later actor of `movables` that it overlaps. Colliders and
/// motion are left as they were.
///
/// Every correction moves an actor against its own direction of travel. Afterwards the
/// leading edge of every such actor lies within every container, and a static obstacle
/// that an actor still overlaps lay wholly behind the actor to begin with.
pub fn update_check_collision(movables: &mut Vec<Movable>, statics: &Vec<Obstacle>)
    requires
        forall|i: int| 0 <= i < old(movables).len() ==> (#[trigger] old(movables)[i]).wf(),
        forall|k: int| 0 <= k < statics.len() ==> (#[trigger] statics[k]).wf(),
    ensures
        final(movables).len() == old(movables).len(),
        forall|i: int|
            0 <= i < old(movables).len() ==> {
                &&& (#[trigger] final(movables)[i]).collider == old(movables)[i].collider
                &&& final(movables)[i].moving == old(movables)[i].moving
                &&& final(movables)[i].transform@ == resolved(old(movables)@, statics@, i)
                &&& behind_or_at(
                    old(movables)[i].moving.direction,
                    final(movables)[i].transform@,
                    old(movables)[i].transform@,
                )
            },
        forall|i: int, k: int|
            #![trigger final(movables)[i], statics[k]]
            0 <= i < old(movables).len() && 0 <= k < statics.len()
                && !old(movables)[i].collider.is_bullet && statics[k].collider.is_container
                ==> final(movables)[i].rect().leading_edge_within(
                old(movables)[i].moving.direction,
                statics[k].rect(),
            ),
        forall|i: int, k: int|
            #![trigger final(movables)[i], statics[k]]
            0 <= i < old(movables).len() && 0 <= k < statics.len()
                && !old(movables)[i].collider.is_bullet
                && blocks(old(movables)[i].collider, statics[k])
                && final(movables)[i].rect().overlaps(statics[k].rect())
                ==> old(movables)[i].rect().leaves_behind(
                old(movables)[i].moving.direction,
                statics[k].rect(),
            ),
{
    let n: usize = movables.len();
    let mut i: usize = 0;
    while i < n
        invariant
            i <= n,
            n == movables.len(),
            n == old(movables).len(),
            forall|k: int| 0 <= k < statics.len() ==> (#[trigger] statics[k]).wf(),
            forall|j: int| 0 <= j < n ==> (#[trigger] old(movables)[j]).wf(),
            forall|j: int|
                0 <= j < n ==> {
                    &&& (#[trigger] movables[j]).collider == old(movables)[j].collider
                    &&& movables[j].moving == old(movables)[j].moving
                },
            forall|j: int| i <= j < n ==> (#[trigger] movables[j]).transform == old(movables)[j].transform,
            forall|j: int|
                0 <= j < i ==> (#[trigger] movables[j]).transform@ == resolved(
                    old(movables)@,
                    statics@,
                    j,
                ),
        decreases n - i,
    {
        if !movables[i].collider.is_bullet {
            let dir = movables[i].moving.direction;
            let ghost start = movables@[i as int].transform@;
            let ghost body = movables@[i as int].collider;
            let mut pos = movables[i].transform;
            let mut k: usize = 0;
            while k < statics.len()
                invariant
                    k <= statics.len(),
                    i < n,
                    n == movables.len(),
                    body == movables[i as int].collider,
                    body.wf(),
                    forall|k: int| 0 <= k < statics.len() ==> (#[trigger] statics[k]).wf(),
                    in_reach(pos@),
                    pos@ == resolve_statics(start, body, dir, statics@.take(k as int)),
                decreases statics.len() - k,
            {
                proof {
                    assert(statics@.take(k + 1).drop_last() == statics@.take(k as int));
                }
                pos = step_static(pos, &movables[i].collider, dir, &statics[k]);
                k += 1;
            }
            proof {
                assert(statics@.take(k as int) == statics@);
            }
            let mut j: usize = i + 1;
            while j < n
                invariant
                    i < j <= n,
                    n == movables.len(),
                    n == old(movables).len(),
                    body == movables[i as int].collider,
                    body.wf(),
                    forall|j: int| i < j < n ==> (#[trigger] movables[j]).wf(),
                    forall|j: int| i < j < n ==> (#[trigger] movables[j]) == old(movables)[j],
                    in_reach(pos@),
                    pos@ == resolve_movables(
                        resolve_statics(start, body, dir, statics@),
                        body,
                        dir,
                        old(movables)@.subrange(i + 1, j as int),
                    ),
                decreases n - j,
            {
                proof {
                    let ahead = old(movables)@;
                    assert(ahead.subrange(i + 1, j + 1).drop_last() == ahead.subrange(
                        i + 1,
                        j as int,
                    ));
                }
                pos = step_movable(pos, &movables[i].collider, dir, &movables[j]);
                j += 1;
            }
            proof {
                assert(old(movables)@.subrange(i + 1, n as int) == old(movables)@.skip(i + 1));
            }
            movables[i].transform = pos;
        }
        i += 1;
    }
    proof {
        assert forall|i: int| 0 <= i < n implies behind_or_at(
            old(movables)[i].moving.direction,
            (#[trigger] movables[i]).transform@,
            old(movables)[i].transform@,
        ) by {
            lemma_resolution_moves_backward(old(movables)@, statics@, i);
        }
        assert forall|i: int, k: int|
            #![trigger movables[i], statics[k]]
            0 <= i < n && 0 <= k < statics.len() && !old(movables)[i].collider.is_bullet
                && statics[k].collider.is_container implies movables[i].rect().leading_edge_within(
            old(movables)[i].moving.direction,
            statics[k].rect(),
        ) by {
            lemma_boundary_containment(old(movables)@, statics@, i, k);
        }
        assert forall|i: int, k: int|
            #![trigger movables[i], statics[k]]
            0 <= i < n && 0 <= k < statics.len() && !old(movables)[i].collider.is_bullet && blocks(
                old(movables)[i].collider,
                statics[k],
            ) && movables[i].rect().overlaps(statics[k].rect()) implies old(movables)[i].rect().leaves_behind(
            old(movables)[i].moving.direction,
            statics[k].rect(),
        ) by {
            lemma_overlapped_static_was_behind(old(movables)@, statics@, i, k);
        }
    }
}

/// A single check against a static collider moves the actor against its direction of
/// travel or not at all.
pub proof fn lemma_static_step_backward(p: Point, body: Collider, dir: GameDirection, s: Obstacle)
    ensures
        behind_or_at(dir, resolve_static(p, body, dir, s), p),
{
}

/// A single check against another actor moves the actor against its direction of travel
/// or not at all.
pub proof fn lemma_movable_step_backward(p: Point, body: Collider, dir: GameDirection, o: Movable)
    ensures
        behind_or_at(dir, resolve_movable(p, body, dir, o), p),
{
}

/// Static resolution leaves the actor at or behind the place that any prefix of the
/// static colliders left it at.
pub proof fn lemma_statics_backward(
    p: Point,
    body: Collider,
    dir: GameDirection,
    statics: Seq<Obstacle>,
    k: int,
)
    requires
        0 <= k <= statics.len(),
    ensures
        behind_or_at(
            dir,
            resolve_statics(p, body, dir, statics),
            resolve_statics(p, body, dir, statics.take(k)),
        ),
    decreases statics.len(),
{
    if k == statics.len() {
        assert(statics.take(k) == statics);
    } else {
        let prefix = statics.drop_last();
        lemma_statics_backward(p, body, dir, prefix, k);
        assert(prefix.take(k) == statics.take(k));
        lemma_static_step_backward(resolve_statics(p, body, dir, prefix), body, dir, statics.last());
    }
}

/// Resolution against other actors leaves the actor at or behind the place that any
/// prefix of them left it at.
pub proof fn lemma_movables_backward(
    p: Point,
    body: Collider,
    dir: GameDirection,
    others: Seq<Movable>,
    k: int,
)
    requires
        0 <= k <= others.len(),
    ensures
        behind_or_at(
            dir,
            resolve_movables(p, body, dir, others),
            resolve_movables(p, body, dir, others.take(k)),
        ),
    decreases others.len(),
{
    if k == others.len() {
        assert(others.take(k) == others);
    } else {
        let prefix = others.drop_last();
        lemma_movables_backward(p, body, dir, prefix, k);
        assert(prefix.take(k) == others.take(k));
        lemma_movable_step_backward(resolve_movables(p, body, dir, prefix), body, dir, others.last());
    }
}

/// Resolution only ever moves an actor against its own direction of travel.
pub proof fn lemma_resolution_moves_backward(movables: Seq<Movable>, statics: Seq<Obstacle>, i: int)
    requires
        0 <= i < movables.len(),
    ensures
        behind_or_at(
            movables[i].moving.direction,
            resolved(movables, statics, i),
            movables[i].transform@,
        ),
{
    let m = movables[i];
    let dir = m.moving.direction;
    if !m.collider.is_bullet {
        lemma_statics_backward(m.transform@, m.collider, dir, statics, 0);
        assert(statics.take(0) == Seq::<Obstacle>::empty());
        let others = movables.skip(i + 1);
        lemma_movables_backward(after_statics(movables, statics, i), m.collider, dir, others, 0);
        assert(others.take(0) == Seq::<Movable>::empty());
    }
}

/// Boundary containment: after resolution, the edge of an actor that faces its direction
/// of travel does not lie beyond the corresponding edge of any container.
pub proof fn lemma_boundary_containment(
    movables: Seq<Movable>,
    statics: Seq<Obstacle>,
    i: int,
    k: int,
)
    requires
        0 <= i < movables.len(),
        0 <= k < statics.len(),
        !movables[i].collider.is_bullet,
        statics[k].collider.is_container,
    ensures
        movables[i].collider.rect_at(resolved(movables, statics, i)).leading_edge_within(
            movables[i].moving.direction,
            statics[k].rect(),
        ),
{
    let m = movables[i];
    let dir = m.moving.direction;
    let before = resolve_statics(m.transform@, m.collider, dir, statics.take(k));
    let after = resolve_statics(m.transform@, m.collider, dir, statics.take(k + 1));
    assert(statics.take(k + 1).drop_last() == statics.take(k));
    assert(statics.take(k + 1).last() == statics[k]);
    assert(after == resolve_static(before, m.collider, dir, statics[k]));
    assert(m.collider.rect_at(after).leading_edge_within(dir, statics[k].rect()));
    lemma_statics_backward(m.transform@, m.collider, dir, statics, k + 1);
    let others = movables.skip(i + 1);
    lemma_movables_backward(after_statics(movables, statics, i), m.collider, dir, others, 0);
    assert(others.take(0) == Seq::<Movable>::empty());
}

/// A static obstacle that takes part in an actor's resolution and that the actor overlaps
/// afterwards lay wholly behind the actor when resolution began: an actor is never left
/// inside an obstacle that it faced or touched.
pub proof fn lemma_overlapped_static_was_behind(
    movables: Seq<Movable>,
    statics: Seq<Obstacle>,
    i: int,
    k: int,
)
    requires
        0 <= i < movables.len(),
        0 <= k < statics.len(),
        !movables[i].collider.is_bullet,
        blocks(movables[i].collider, statics[k]),
        movables[i].collider.rect_at(resolved(movables, statics, i)).overlaps(statics[k].rect()),
    ensures
        movables[i].rect().leaves_behind(movables[i].moving.direction, statics[k].rect()),
{
    let m = movables[i];
    let dir = m.moving.direction;
    let before = resolve_statics(m.transform@, m.collider, dir, statics.take(k));
    let after = resolve_statics(m.transform@, m.collider, dir, statics.take(k + 1));
    assert(statics.take(k + 1).drop_last() == statics.take(k));
    assert(statics.take(k + 1).last() == statics[k]);
    assert(after == resolve_static(before, m.collider, dir, statics[k]));
    lemma_statics_backward(m.transform@, m.collider, dir, statics.take(k), 0);
    assert(statics.take(k).take(0) == Seq::<Obstacle>::empty());
    assert(behind_or_at(dir, before, m.transform@));
    lemma_statics_backward(m.transform@, m.collider, dir, statics, k + 1);
    let others = movables.skip(i + 1);
    lemma_movables_backward(after_statics(movables, statics, i), m.collider, dir, others, 0);
    assert(others.take(0) == Seq::<Movable>::empty());
    assert(behind_or_at(dir, resolved(movables, statics, i), after));
}

/// The actor with collider `body` could stand at `entry` without breaking a rule: inside
/// every container on its leading side and clear of every static obstacle that takes part.
pub open spec fn clear_of_statics(
    entry: Point,
    body: Collider,
    dir: GameDirection,
    statics: Seq<Obstacle>,
) -> bool {
    &&& forall|k: int|
        0 <= k < statics.len() && (#[trigger] statics[k]).collider.is_container ==> body.rect_at(
            entry,
        ).leading_edge_within(dir, statics[k].rect())
    &&& forall|k: int|
        0 <= k < statics.len() && blocks(body, #[trigger] statics[k]) ==> !body.rect_at(
            entry,
        ).overlaps(statics[k].rect())
}

/// The actor with collider `body` overlaps none of `others` at `entry`, projectiles aside.
pub open spec fn clear_of_movables(entry: Point, body: Collider, others: Seq<Movable>) -> bool {
    forall|j: int|
        0 <= j < others.len() && !(#[trigger] others[j]).collider.is_bullet ==> !body.rect_at(
            entry,
        ).overlaps(others[j].rect())
}

/// Static resolution never throws an actor back beyond a place behind it at which it
/// stood clear.
pub proof fn lemma_statics_stop_at_entry(
    p: Point,
    body: Collider,
    dir: GameDirection,
    statics: Seq<Obstacle>,
    entry: Point,
)
    requires
        behind_or_at(dir, entry, p),
        clear_of_statics(entry, body, dir, statics),
    ensures
        behind_or_at(dir, entry, resolve_statics(p, body, dir, statics)),
    decreases statics.len(),
{
    if statics.len() > 0 {
        let prefix = statics.drop_last();
        assert forall|k: int| 0 <= k < prefix.len() implies #[trigger] prefix[k] == statics[k] by {}
        assert(clear_of_statics(entry, body, dir, prefix));
        lemma_statics_stop_at_entry(p, body, dir, prefix, entry);
        assert(statics.last() == statics[statics.len() - 1]);
    }
}

/// Resolution against other actors never throws an actor back beyond a place behind it
/// at which it stood clear of them.
pub proof fn lemma_movables_stop_at_entry(
    p: Point,
    body: Collider,
    dir: GameDirection,
    others: Seq<Movable>,
    entry: Point,
)
    requires
        behind_or_at(dir, entry, p),
        clear_of_movables(entry, body, others),
    ensures
        behind_or_at(dir, entry, resolve_movables(p, body, dir, others)),
    decreases others.len(),
{
    if others.len() > 0 {
        let prefix = others.drop_last();
        assert forall|j: int| 0 <= j < prefix.len() implies #[trigger] prefix[j] == others[j] by {}
        assert(clear_of_movables(entry, body, prefix));
        lemma_movables_stop_at_entry(p, body, dir, prefix, entry);
        assert(others.last() == others[others.len() - 1]);
    }
}

/// No static penetration: an actor that came from a place where it stood clear, by a step
/// shorter than its own length, overlaps no static obstacle that takes part in its
/// resolution, and is not thrown back beyond that place.
///
/// `entry` is the place the actor came from: on its line of travel, at or behind its
/// present position, inside the containers, clear of the static obstacles and of the
/// later actors.
pub proof fn lemma_no_static_penetration(
    movables: Seq<Movable>,
    statics: Seq<Obstacle>,
    i: int,
    entry: Point,
)
    requires
        0 <= i < movables.len(),
        !movables[i].collider.is_bullet,
        movables[i].collider.wf(),
        forall|k: int| 0 <= k < statics.len() ==> (#[trigger] statics[k]).collider.wf(),
        behind_or_at(movables[i].moving.direction, entry, movables[i].transform@),
        step_length(movables[i].moving.direction, entry, movables[i].transform@) < length_along(
            movables[i].moving.direction,
            movables[i].collider,
        ),
        clear_of_statics(entry, movables[i].collider, movables[i].moving.direction, statics),
        clear_of_movables(entry, movables[i].collider, movables.skip(i + 1)),
    ensures
        behind_or_at(movables[i].moving.direction, entry, resolved(movables, statics, i)),
        forall|k: int|
            0 <= k < statics.len() && blocks(movables[i].collider, #[trigger] statics[k])
                ==> !movables[i].collider.rect_at(resolved(movables, statics, i)).overlaps(
                statics[k].rect(),
            ),
{
    let m = movables[i];
    let dir = m.moving.direction;
    lemma_statics_stop_at_entry(m.transform@, m.collider, dir, statics, entry);
    lemma_movables_stop_at_entry(
        after_statics(movables, statics, i),
        m.collider,
        dir,
        movables.skip(i + 1),
        entry,
    );
    assert forall|k: int|
        0 <= k < statics.len() && blocks(m.collider, #[trigger] statics[k]) implies !m.collider.rect_at(
        resolved(movables, statics, i),
    ).overlaps(statics[k].rect()) by {
        if m.collider.rect_at(resolved(movables, statics, i)).overlaps(statics[k].rect()) {
            lemma_overlapped_static_was_behind(movables, statics, i, k);
            lemma_resolution_moves_backward(movables, statics, i);
        }
    }
}

} // verus!
