//! Projectile lifecycle: advance, impact, destruction.
//!
//! Projectiles are handled one after another in list order. Each one advances, is tested
//! against every collider that is not itself a projectile, and is then tested against every
//! projectile after it in the list, which has not advanced yet. Destruction is recorded in
//! flags; nothing is taken out of a list while the lists are walked, so nothing is
//! destroyed twice.

use vstd::prelude::*;
use crate::geometry::{
    GameDirection, Moving, Obstacle, Point, Rect, Transform, INDESTRUCTIBLE_INDEX, WORLD_LIMIT,
    rects_overlap,
};

verus! {

/// Half of the side of the square that every projectile occupies.
pub const BULLET_HALF_EXTENT: i32 = 6;

/// A projectile in flight.
#[derive(Clone, Copy, Debug, PartialEq, Eq, Structural)]
pub struct Bullet {
    pub transform: Transform,
    pub moving: Moving,
    /// Set once the projectile has been destroyed; it awaits removal.
    pub boom: bool,
}

/// What one frame of projectile flight destroyed besides projectiles.
#[derive(Debug)]
pub struct Impacts {
    /// For each collider handed in, whether it was destroyed.
    pub destroyed: Vec<bool>,
    /// Whether a projectile struck the objective.
    pub objective_lost: bool,
}

/// The square that a projectile centred at `p` occupies.
pub open spec fn bullet_rect(p: Point) -> Rect {
    Rect { center: p, half_width: BULLET_HALF_EXTENT as int, half_height: BULLET_HALF_EXTENT as int }
}

impl Bullet {
    pub open spec fn wf(self) -> bool {
        self.transform.in_world() && self.moving.wf()
    }

    /// Where the projectile stands after this frame's advance.
    pub open spec fn advanced(self) -> Point {
        self.transform@.moved(self.moving.direction, self.moving.speed as int)
    }

    /// The advanced projectile has crossed the edge of the container `c` that lies in its
    /// direction of travel.
    pub open spec fn leaves(self, c: Obstacle) -> bool {
        &&& !c.collider.is_bullet
        &&& c.collider.is_container
        &&& !bullet_rect(self.advanced()).leading_edge_within(self.moving.direction, c.rect())
    }

    /// The advanced projectile overlaps the collider `c`, and `c` is one that projectiles
    /// strike: not a projectile, not a container, not the indestructible tile.
    pub open spec fn strikes(self, c: Obstacle) -> bool {
        &&& !c.collider.is_bullet
        &&& !c.collider.is_container
        &&& c.collider.index != INDESTRUCTIBLE_INDEX
        &&& bullet_rect(self.advanced()).overlaps(c.rect())
    }

    /// The advanced projectile overlaps `later`, a projectile that has not advanced yet.
    pub open spec fn meets(self, later: Bullet) -> bool {
        bullet_rect(self.advanced()).overlaps(bullet_rect(later.transform@))
    }

    pub fn new(transform: Transform, moving: Moving) -> (b: Bullet)
        ensures
            b.transform == transform,
            b.moving == moving,
            !b.boom,
    {
        Bullet { transform, moving, boom: false }
    }

    /// Run-time test of [`Bullet::wf`].
    pub fn is_wf(&self) -> (b: bool)
        ensures
            b == self.wf(),
    {
        self.transform.is_in_world() && self.moving.is_wf()
    }
}

/// Projectile `i` is destroyed during the frame: it leaves a container, strikes a collider,
/// or meets another projectile.
pub open spec fn bullet_destroyed(bullets: Seq<Bullet>, colliders: Seq<Obstacle>, i: int) -> bool {
    ||| exists|k: int|
        0 <= k < colliders.len() && (bullets[i].leaves(#[trigger] colliders[k])
            || bullets[i].strikes(colliders[k]))
    ||| exists|j: int| i < j < bullets.len() && bullets[i].meets(#[trigger] bullets[j])
    ||| exists|j: int| 0 <= j < i && (#[trigger] bullets[j]).meets(bullets[i])
}

/// One of the first `n` projectiles strikes the collider `c`.
pub open spec fn struck_by_first(bullets: Seq<Bullet>, n: int, c: Obstacle) -> bool {
    exists|i: int| 0 <= i < n && (#[trigger] bullets[i]).strikes(c)
}

/// Collider `k` is destroyed during the frame: a projectile strikes it and it is not the
/// objective.
pub open spec fn obstacle_destroyed(bullets: Seq<Bullet>, colliders: Seq<Obstacle>, k: int) -> bool {
    !colliders[k].collider.is_home() && struck_by_first(bullets, bullets.len() as int, colliders[k])
}

/// One of the first `n` projectiles strikes an objective.
pub open spec fn objective_struck_by_first(
    bullets: Seq<Bullet>,
    n: int,
    colliders: Seq<Obstacle>,
) -> bool {
    exists|k: int|
        0 <= k < colliders.len() && (#[trigger] colliders[k]).collider.is_home() && struck_by_first(
            bullets,
            n,
            colliders[k],
        )
}

/// A projectile strikes an objective during the frame.
pub open spec fn objective_destroyed(bullets: Seq<Bullet>, colliders: Seq<Obstacle>) -> bool {
    objective_struck_by_first(bullets, bullets.len() as int, colliders)
}

fn advance(t: Transform, m: Moving) -> (r: Transform)
    requires
        t.in_world(),
        m.wf(),
    ensures
        r@ == t@.moved(m.direction, m.speed as int),
        -2 * WORLD_LIMIT <= r.x <= 2 * WORLD_LIMIT,
        -2 * WORLD_LIMIT <= r.y <= 2 * WORLD_LIMIT,
{
    match m.direction {
        GameDirection::Up => Transform { x: t.x, y: t.y + m.speed },
        GameDirection::Down => Transform { x: t.x, y: t.y - m.speed },
        GameDirection::Left => Transform { x: t.x - m.speed, y: t.y },
        GameDirection::Right => Transform { x: t.x + m.speed, y: t.y },
    }
}

fn crosses_edge(p: Transform, dir: GameDirection, c: &Obstacle) -> (r: bool)
    requires
        -2 * WORLD_LIMIT <= p.x <= 2 * WORLD_LIMIT,
        -2 * WORLD_LIMIT <= p.y <= 2 * WORLD_LIMIT,
        c.wf(),
    ensures
        r == !bullet_rect(p@).leading_edge_within(dir, c.rect()),
{
    match dir {
        GameDirection::Up => p.y + BULLET_HALF_EXTENT > c.transform.y + c.collider.half_height,
        GameDirection::Down => p.y - BULLET_HALF_EXTENT < c.transform.y - c.collider.half_height,
        GameDirection::Left => p.x - BULLET_HALF_EXTENT < c.transform.x - c.collider.half_width,
        GameDirection::Right => p.x + BULLET_HALF_EXTENT > c.transform.x + c.collider.half_width,
    }
}

/// Advances every projectile by one frame and applies the impact rules.
///
/// On return each projectile stands at its advanced position, and its `boom` flag is set
/// if it was set before or the projectile was destroyed during the frame. The result says
/// which colliders were destroyed and whether an objective was struck.
pub fn update_bullet_boom(bullets: &mut Vec<Bullet>, colliders: &Vec<Obstacle>) -> (impacts: Impacts)
    requires
        forall|i: int| 0 <= i < old(bullets).len() ==> (#[trigger] old(bullets)[i]).wf(),
        forall|k: int| 0 <= k < colliders.len() ==> (#[trigger] colliders[k]).wf(),
    ensures
        final(bullets).len() == old(bullets).len(),
        forall|i: int|
            0 <= i < old(bullets).len() ==> {
                &&& (#[trigger] final(bullets)[i]).transform@ == old(bullets)[i].advanced()
                &&& final(bullets)[i].moving == old(bullets)[i].moving
                &&& final(bullets)[i].boom == (old(bullets)[i].boom || bullet_destroyed(
                    old(bullets)@,
                    colliders@,
                    i,
                ))
            },
        impacts.destroyed.len() == colliders.len(),
        forall|k: int|
            0 <= k < colliders.len() ==> (#[trigger] impacts.destroyed[k]) == obstacle_destroyed(
                old(bullets)@,
                colliders@,
                k,
            ),
        impacts.objective_lost == objective_destroyed(old(bullets)@, colliders@),
        forall|i: int, j: int|
            #![trigger final(bullets)[i], final(bullets)[j]]
            0 <= i < j < old(bullets).len() && old(bullets)[i].meets(old(bullets)[j])
                ==> final(bullets)[i].boom && final(bullets)[j].boom,
        forall|i: int, k: int|
            #![trigger final(bullets)[i], colliders[k]]
            0 <= i < old(bullets).len() && 0 <= k < colliders.len() && old(bullets)[i].strikes(
                colliders[k],
            ) ==> final(bullets)[i].boom && (impacts.destroyed[k]
                || colliders[k].collider.is_home()),
{
    let n: usize = bullets.len();
    let m: usize = colliders.len();
    let mut destroyed: Vec<bool> = Vec::new();
    let mut k: usize = 0;
    while k < m
        invariant
            k <= m,
            destroyed.len() == k,
            forall|q: int| 0 <= q < k ==> !(#[trigger] destroyed[q]),
        decreases m - k,
    {
        destroyed.push(false);
        k += 1;
    }
    let mut objective_lost = false;
    let mut i: usize = 0;
    while i < n
        invariant
            i <= n,
            n == bullets.len(),
            n == old(bullets).len(),
            m == colliders.len(),
            m == destroyed.len(),
            forall|j: int| 0 <= j < n ==> (#[trigger] old(bullets)[j]).wf(),
            forall|k: int| 0 <= k < m ==> (#[trigger] colliders[k]).wf(),
            forall|j: int| 0 <= j < n ==> (#[trigger] bullets[j]).moving == old(bullets)[j].moving,
            forall|j: int| 0 <= j < i ==> (#[trigger] bullets[j]).transform@ == old(bullets)[j].advanced(),
            forall|j: int| i <= j < n ==> (#[trigger] bullets[j]).transform == old(bullets)[j].transform,
            forall|j: int|
                0 <= j < i ==> (#[trigger] bullets[j]).boom == (old(bullets)[j].boom
                    || bullet_destroyed(old(bullets)@, colliders@, j)),
            forall|j: int|
                i <= j < n ==> (#[trigger] bullets[j]).boom == (old(bullets)[j].boom || exists|e: int|
                    0 <= e < i && (#[trigger] old(bullets)[e]).meets(old(bullets)[j])),
            forall|k: int|
                0 <= k < m ==> (#[trigger] destroyed[k]) == (!colliders[k].collider.is_home()
                    && struck_by_first(old(bullets)@, i as int, colliders[k])),
            objective_lost == objective_struck_by_first(old(bullets)@, i as int, colliders@),
        decreases n - i,
    {
        let ghost me = old(bullets)[i as int];
        let dir = bullets[i].moving.direction;
        let pos = advance(bullets[i].transform, bullets[i].moving);
        bullets[i].transform = pos;
        let ghost lost_before = objective_lost;
        let ghost destroyed_before = destroyed@;
        let mut hit = false;
        let mut k: usize = 0;
        while k < m
            invariant
                k <= m,
                m == colliders.len(),
                m == destroyed.len(),
                me.wf(),
                pos@ == me.advanced(),
                dir == me.moving.direction,
                -2 * WORLD_LIMIT <= pos.x <= 2 * WORLD_LIMIT,
                -2 * WORLD_LIMIT <= pos.y <= 2 * WORLD_LIMIT,
                forall|k: int| 0 <= k < m ==> (#[trigger] colliders[k]).wf(),
                hit == exists|q: int|
                    0 <= q < k && (me.leaves(#[trigger] colliders[q]) || me.strikes(colliders[q])),
                forall|q: int|
                    0 <= q < k ==> (#[trigger] destroyed[q]) == (destroyed_before[q] || (
                    !colliders[q].collider.is_home() && me.strikes(colliders[q]))),
                forall|q: int| k <= q < m ==> (#[trigger] destroyed[q]) == destroyed_before[q],
                objective_lost == (lost_before || exists|q: int|
                    0 <= q < k && (#[trigger] colliders[q]).collider.is_home() && me.strikes(
                        colliders[q],
                    )),
            decreases m - k,
        {
            let c = &colliders[k];
            if !c.collider.is_bullet {
                if c.collider.is_container {
                    if crosses_edge(pos, dir, c) {
                        hit = true;
                    }
                } else if c.collider.index != INDESTRUCTIBLE_INDEX && rects_overlap(
                    pos,
                    BULLET_HALF_EXTENT,
                    BULLET_HALF_EXTENT,
                    c.transform,
                    c.collider.half_width,
                    c.collider.half_height,
                ) {
                    hit = true;
                    if c.collider.home() {
                        objective_lost = true;
                    } else {
                        destroyed[k] = true;
                    }
                }
            }
            k += 1;
        }
        let ghost boom_before = bullets@;
        let mut j: usize = i + 1;
        let mut met = false;
        while j < n
            invariant
                i < j <= n,
                n == bullets.len(),
                n == old(bullets).len(),
                n == boom_before.len(),
                me.wf(),
                me == old(bullets)[i as int],
                pos@ == me.advanced(),
                -2 * WORLD_LIMIT <= pos.x <= 2 * WORLD_LIMIT,
                -2 * WORLD_LIMIT <= pos.y <= 2 * WORLD_LIMIT,
                forall|q: int| 0 <= q < n ==> (#[trigger] old(bullets)[q]).wf(),
                forall|q: int| 0 <= q < n ==> (#[trigger] bullets[q]).moving == boom_before[q].moving,
                forall|q: int| 0 <= q < n ==> (#[trigger] bullets[q]).transform == boom_before[q].transform,
                forall|q: int| i < q < n ==> (#[trigger] boom_before[q]).transform == old(bullets)[q].transform,
                forall|q: int| 0 <= q <= i || j <= q < n ==> (#[trigger] bullets[q]).boom == boom_before[q].boom,
                forall|q: int|
                    i < q < j ==> (#[trigger] bullets[q]).boom == (boom_before[q].boom || me.meets(
                        old(bullets)[q],
                    )),
                met == exists|q: int| i < q < j && me.meets(#[trigger] old(bullets)[q]),
            decreases n - j,
        {
            if rects_overlap(
                pos,
                BULLET_HALF_EXTENT,
                BULLET_HALF_EXTENT,
                bullets[j].transform,
                BULLET_HALF_EXTENT,
                BULLET_HALF_EXTENT,
            ) {
                met = true;
                bullets[j].boom = true;
            }
            j += 1;
        }
        if hit || met {
            bullets[i].boom = true;
        }
        i += 1;
    }
    Impacts { destroyed, objective_lost }
}

/// Mutual annihilation: when a projectile, having advanced, overlaps a later projectile
/// that has not advanced yet, both are destroyed.
pub proof fn lemma_mutual_annihilation(
    bullets: Seq<Bullet>,
    colliders: Seq<Obstacle>,
    i: int,
    j: int,
)
    requires
        0 <= i < j < bullets.len(),
        bullets[i].meets(bullets[j]),
    ensures
        bullet_destroyed(bullets, colliders, i),
        bullet_destroyed(bullets, colliders, j),
{
}

/// A single impact: when projectile `i` strikes collider `k` and no projectile strikes
/// anything else, projectile `i` is destroyed, collider `k` is the only collider that can
/// be destroyed, and it is destroyed unless it is the objective, in which case the loss of
/// the objective is reported instead.
pub proof fn lemma_single_impact(bullets: Seq<Bullet>, colliders: Seq<Obstacle>, i: int, k: int)
    requires
        0 <= i < bullets.len(),
        0 <= k < colliders.len(),
        bullets[i].strikes(colliders[k]),
        forall|a: int, b: int|
            0 <= a < bullets.len() && 0 <= b < colliders.len() && (#[trigger] bullets[a]).strikes(
                #[trigger] colliders[b],
            ) ==> a == i && b == k,
    ensures
        bullet_destroyed(bullets, colliders, i),
        forall|b: int|
            0 <= b < colliders.len() ==> (#[trigger] obstacle_destroyed(bullets, colliders, b) <==> b
                == k && !colliders[k].collider.is_home()),
        objective_destroyed(bullets, colliders) <==> colliders[k].collider.is_home(),
{
    assert(struck_by_first(bullets, bullets.len() as int, colliders[k]));
}

} // verus!
