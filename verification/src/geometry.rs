//! Directions, positions and axis-aligned rectangles on the integer world lattice.
//!
//! World coordinates are whole world units. The vertical axis points up. Every
//! rectangle is stored by its centre and its half extents, since every rule of the
//! simulation measures from the centre of an actor to one of its edges.

use vstd::prelude::*;

verus! {

/// Largest magnitude of a coordinate, half extent or speed that the simulation accepts.
///
/// Sums of up to four such quantities still fit in an `i32`.
pub const WORLD_LIMIT: i32 = 0x1000_0000;

/// One of the four axis directions an actor can face and travel in.
#[derive(Clone, Copy, Debug, PartialEq, Eq, Structural)]
pub enum GameDirection {
    Up,
    Down,
    Left,
    Right,
}

/// A point of the mathematical plane: the model of a [`Transform`].
pub struct Point {
    pub x: int,
    pub y: int,
}

/// An axis-aligned rectangle of the mathematical plane, by centre and half extents.
pub struct Rect {
    pub center: Point,
    pub half_width: int,
    pub half_height: int,
}

impl Rect {
    pub open spec fn top(self) -> int {
        self.center.y + self.half_height
    }

    pub open spec fn bottom(self) -> int {
        self.center.y - self.half_height
    }

    pub open spec fn left(self) -> int {
        self.center.x - self.half_width
    }

    pub open spec fn right(self) -> int {
        self.center.x + self.half_width
    }

    /// The two rectangles share interior area: each of the four edge comparisons is strict,
    /// so rectangles that merely touch do not overlap.
    pub open spec fn overlaps(self, other: Rect) -> bool {
        &&& self.top() > other.bottom()
        &&& self.bottom() < other.top()
        &&& self.right() > other.left()
        &&& self.left() < other.right()
    }

    /// The edge of `self` that faces the direction of travel does not lie beyond the
    /// corresponding edge of `outer`.
    pub open spec fn leading_edge_within(self, dir: GameDirection, outer: Rect) -> bool {
        match dir {
            GameDirection::Up => self.top() <= outer.top(),
            GameDirection::Down => self.bottom() >= outer.bottom(),
            GameDirection::Left => self.left() >= outer.left(),
            GameDirection::Right => self.right() <= outer.right(),
        }
    }

    /// `other` lies wholly on the trailing side of `self` for an actor travelling in `dir`:
    /// an actor moving forward from `self` only gets further away from it.
    pub open spec fn leaves_behind(self, dir: GameDirection, other: Rect) -> bool {
        match dir {
            GameDirection::Up => other.top() <= self.bottom(),
            GameDirection::Down => other.bottom() >= self.top(),
            GameDirection::Left => other.left() >= self.right(),
            GameDirection::Right => other.right() <= self.left(),
        }
    }
}

impl Point {
    /// The point reached from `self` by `dist` units in direction `dir`.
    pub open spec fn moved(self, dir: GameDirection, dist: int) -> Point {
        match dir {
            GameDirection::Up => Point { x: self.x, y: self.y + dist },
            GameDirection::Down => Point { x: self.x, y: self.y - dist },
            GameDirection::Left => Point { x: self.x - dist, y: self.y },
            GameDirection::Right => Point { x: self.x + dist, y: self.y },
        }
    }
}

/// World position of an actor.
#[derive(Clone, Copy, Debug, PartialEq, Eq, Structural)]
pub struct Transform {
    pub x: i32,
    pub y: i32,
}

impl View for Transform {
    type V = Point;

    open spec fn view(&self) -> Point {
        Point { x: self.x as int, y: self.y as int }
    }
}

impl Transform {
    /// Both coordinates are within [`WORLD_LIMIT`] of the origin.
    pub open spec fn in_world(self) -> bool {
        &&& -WORLD_LIMIT <= self.x <= WORLD_LIMIT
        &&& -WORLD_LIMIT <= self.y <= WORLD_LIMIT
    }

    pub fn new(x: i32, y: i32) -> (t: Transform)
        ensures
            t.x == x,
            t.y == y,
    {
        Transform { x, y }
    }

    /// Run-time test of [`Transform::in_world`].
    pub fn is_in_world(&self) -> (b: bool)
        ensures
            b == self.in_world(),
    {
        -WORLD_LIMIT <= self.x && self.x <= WORLD_LIMIT && -WORLD_LIMIT <= self.y && self.y
            <= WORLD_LIMIT
    }
}

/// Direction of travel and distance covered per frame.
#[derive(Clone, Copy, Debug, PartialEq, Eq, Structural)]
pub struct Moving {
    pub direction: GameDirection,
    pub speed: i32,
}

impl Moving {
    pub open spec fn wf(self) -> bool {
        -WORLD_LIMIT <= self.speed <= WORLD_LIMIT
    }

    pub fn new(direction: GameDirection, speed: i32) -> (m: Moving)
        ensures
            m.direction == direction,
            m.speed == speed,
    {
        Moving { direction, speed }
    }

    /// Run-time test of [`Moving::wf`].
    pub fn is_wf(&self) -> (b: bool)
        ensures
            b == self.wf(),
    {
        -WORLD_LIMIT <= self.speed && self.speed <= WORLD_LIMIT
    }
}

/// Collider type index of the defended objective.
pub const HOME_INDEX: usize = 6;

/// Collider type index of the decorative tile that projectiles pass over.
pub const INDESTRUCTIBLE_INDEX: usize = 5;

/// Axis-aligned rectangle attached to an actor, with the flags that the collision rules read.
#[derive(Clone, Debug)]
pub struct Collider {
    /// Half of the rectangle's width.
    pub half_width: i32,
    /// Half of the rectangle's height.
    pub half_height: i32,
    /// True only for the arena boundary, which keeps actors inside itself.
    pub is_container: bool,
    /// True for projectiles.
    pub is_bullet: bool,
    /// Type index of the actor or tile that owns the collider.
    pub index: usize,
    /// Type indices that this collider never collides with.
    pub filter: Vec<usize>,
}

impl Collider {
    /// The half extents are non-negative and within [`WORLD_LIMIT`].
    pub open spec fn wf(self) -> bool {
        &&& 0 <= self.half_width <= WORLD_LIMIT
        &&& 0 <= self.half_height <= WORLD_LIMIT
    }

    pub open spec fn width(self) -> int {
        2 * self.half_width
    }

    pub open spec fn height(self) -> int {
        2 * self.half_height
    }

    /// The rectangle that the collider covers when its owner stands at `center`.
    pub open spec fn rect_at(self, center: Point) -> Rect {
        Rect {
            center,
            half_width: self.half_width as int,
            half_height: self.half_height as int,
        }
    }

    /// The filter set excludes colliders of type `index`.
    pub open spec fn filters(self, index: usize) -> bool {
        self.filter@.contains(index)
    }

    pub open spec fn is_home(self) -> bool {
        self.index == HOME_INDEX
    }

    /// A plain solid collider: not a container, not a projectile, nothing filtered.
    pub fn new(half_width: i32, half_height: i32, index: usize) -> (c: Collider)
        ensures
            c.half_width == half_width,
            c.half_height == half_height,
            !c.is_container,
            !c.is_bullet,
            c.index == index,
            c.filter@ == Seq::<usize>::empty(),
    {
        Collider {
            half_width,
            half_height,
            is_container: false,
            is_bullet: false,
            index,
            filter: Vec::new(),
        }
    }

    /// Run-time test of [`Collider::wf`].
    pub fn is_wf(&self) -> (b: bool)
        ensures
            b == self.wf(),
    {
        0 <= self.half_width && self.half_width <= WORLD_LIMIT && 0 <= self.half_height
            && self.half_height <= WORLD_LIMIT
    }

    /// Run-time test of [`Collider::filters`].
    pub fn excludes(&self, index: usize) -> (b: bool)
        ensures
            b == self.filters(index),
    {
        let mut i: usize = 0;
        while i < self.filter.len()
            invariant
                i <= self.filter.len(),
                forall|j: int| 0 <= j < i ==> self.filter@[j] != index,
            decreases self.filter.len() - i,
        {
            if self.filter[i] == index {
                return true;
            }
            i += 1;
        }
        false
    }

    /// Run-time test of [`Collider::is_home`].
    pub fn home(&self) -> (b: bool)
        ensures
            b == self.is_home(),
    {
        self.index == HOME_INDEX
    }
}

/// A collider that does not move by itself: a tile, the objective or the arena boundary.
#[derive(Clone, Debug)]
pub struct Obstacle {
    pub transform: Transform,
    pub collider: Collider,
}

impl Obstacle {
    pub open spec fn wf(self) -> bool {
        self.transform.in_world() && self.collider.wf()
    }

    pub open spec fn rect(self) -> Rect {
        self.collider.rect_at(self.transform@)
    }

    /// Run-time test of [`Obstacle::wf`].
    pub fn is_wf(&self) -> (b: bool)
        ensures
            b == self.wf(),
    {
        self.transform.is_in_world() && self.collider.is_wf()
    }
}

/// An actor that travels: position, rectangle and motion.
#[derive(Clone, Debug)]
pub struct Movable {
    pub transform: Transform,
    pub collider: Collider,
    pub moving: Moving,
}

impl Movable {
    pub open spec fn wf(self) -> bool {
        self.transform.in_world() && self.collider.wf()
    }

    pub open spec fn rect(self) -> Rect {
        self.collider.rect_at(self.transform@)
    }

    /// Run-time test of [`Movable::wf`].
    pub fn is_wf(&self) -> (b: bool)
        ensures
            b == self.wf(),
    {
        self.transform.is_in_world() && self.collider.is_wf()
    }
}

/// Run-time form of [`Rect::overlaps`] for two rectangles given by centre and half extents.
pub fn rects_overlap(
    a: Transform,
    a_half_width: i32,
    a_half_height: i32,
    b: Transform,
    b_half_width: i32,
    b_half_height: i32,
) -> (r: bool)
    requires
        -3 * WORLD_LIMIT <= a.x <= 3 * WORLD_LIMIT,
        -3 * WORLD_LIMIT <= a.y <= 3 * WORLD_LIMIT,
        -3 * WORLD_LIMIT <= b.x <= 3 * WORLD_LIMIT,
        -3 * WORLD_LIMIT <= b.y <= 3 * WORLD_LIMIT,
        0 <= a_half_width <= WORLD_LIMIT,
        0 <= a_half_height <= WORLD_LIMIT,
        0 <= b_half_width <= WORLD_LIMIT,
        0 <= b_half_height <= WORLD_LIMIT,
    ensures
        r == (Rect {
            center: a@,
            half_width: a_half_width as int,
            half_height: a_half_height as int,
        }).overlaps(
            Rect { center: b@, half_width: b_half_width as int, half_height: b_half_height as int },
        ),
{
    a.y + a_half_height > b.y - b_half_height && a.y - a_half_height < b.y + b_half_height && a.x
        + a_half_width > b.x - b_half_width && a.x - a_half_width < b.x + b_half_width
}

} // verus!
