//! Shortest routes on the tile grid.
//!
//! The search is A* over the four neighbours of a tile, with unit step cost and the
//! Manhattan distance to the goal as estimate. Discovered tiles wait in a list in the order
//! of their discovery; the next tile to expand is the first one of least priority, so equal
//! inputs give equal routes.

use vstd::prelude::*;
use crate::grid::{
    cols, in_bounds, rectangular, rows, walkable, GridMap, Tile, MAX_DIM, tile_walkable,
};
use crate::search_laws::{
    base_inv, capacity, inv, lemma_expand, lemma_initial_inv,
    lemma_route_is_shortest, lemma_trace_is_path, lemma_unsettled_positive, linked, unsettled,
};

verus! {

/// The two tiles share an edge.
pub open spec fn adjacent(a: Tile, b: Tile) -> bool {
    ||| a.row == b.row && (a.col - b.col == 1 || b.col - a.col == 1)
    ||| a.col == b.col && (a.row - b.row == 1 || b.row - a.row == 1)
}

/// `q` is a walk over walkable tiles from `from` to `to`, each step to a tile that shares
/// an edge with the one before.
pub open spec fn is_path(grid: Seq<Seq<usize>>, q: Seq<Tile>, from: Tile, to: Tile) -> bool {
    &&& q.len() >= 1
    &&& q[0] == from
    &&& q[q.len() - 1] == to
    &&& forall|i: int| 0 <= i < q.len() ==> walkable(grid, #[trigger] q[i])
    &&& forall|i: int| 0 <= i < q.len() - 1 ==> adjacent(#[trigger] q[i], q[i + 1])
}

/// Some path leads from `from` to `to`.
pub open spec fn reachable(grid: Seq<Seq<usize>>, from: Tile, to: Tile) -> bool {
    exists|q: Seq<Tile>| is_path(grid, q, from, to)
}

/// `p` is a path from `from` to `to` and no path between them is shorter.
pub open spec fn is_shortest_path(grid: Seq<Seq<usize>>, p: Seq<Tile>, from: Tile, to: Tile) -> bool {
    &&& is_path(grid, p, from, to)
    &&& forall|q: Seq<Tile>| is_path(grid, q, from, to) ==> p.len() <= q.len()
}

/// Manhattan distance between two tiles.
pub open spec fn estimate(a: Tile, b: Tile) -> int {
    (if a.row >= b.row {
        a.row - b.row
    } else {
        b.row - a.row
    }) + (if a.col >= b.col {
        a.col - b.col
    } else {
        b.col - a.col
    })
}

/// The four tiles around `t`, in the order in which the search visits them: above, below,
/// left, right.
pub open spec fn neighbors(t: Tile) -> Seq<Tile> {
    seq![
        Tile { row: (t.row - 1) as i32, col: t.col },
        Tile { row: (t.row + 1) as i32, col: t.col },
        Tile { row: t.row, col: (t.col - 1) as i32 },
        Tile { row: t.row, col: (t.col + 1) as i32 },
    ]
}

/// How far the search has come with a tile.
#[derive(Clone, Copy, Debug, PartialEq, Eq, Structural)]
pub enum Status {
    /// Not reached yet.
    Unseen,
    /// Reached, waiting to be expanded.
    Open,
    /// Expanded; its cost is final.
    Closed,
}

/// What the search knows of a tile.
pub struct Mark {
    pub status: Status,
    /// Steps of the best walk found so far from the start to the tile.
    pub cost: int,
    /// The tile before this one on that walk.
    pub parent: Tile,
}

/// State of a search: the waiting tiles in order of discovery, and a mark for every tile.
pub struct Search {
    pub open: Seq<Tile>,
    pub marks: Seq<Seq<Mark>>,
}

/// The mark of a tile that the search has not reached.
pub open spec fn unseen_mark() -> Mark {
    Mark { status: Status::Unseen, cost: 0, parent: Tile { row: 0, col: 0 } }
}

impl Search {
    pub open spec fn mark(self, t: Tile) -> Mark {
        self.marks[t.row as int][t.col as int]
    }

    pub open spec fn with_mark(self, t: Tile, m: Mark) -> Search {
        Search {
            open: self.open,
            marks: self.marks.update(
                t.row as int,
                self.marks[t.row as int].update(t.col as int, m),
            ),
        }
    }

    /// Cost so far plus estimate of the rest: the search expands tiles of least priority
    /// first.
    pub open spec fn priority(self, t: Tile, goal: Tile) -> int {
        self.mark(t).cost + estimate(t, goal)
    }

    /// Index of the first tile of least priority among the first `n` waiting tiles.
    pub open spec fn best_among(self, goal: Tile, n: nat) -> int
        decreases n,
    {
        if n <= 1 {
            0
        } else {
            let b = self.best_among(goal, (n - 1) as nat);
            if self.priority(self.open[n - 1], goal) < self.priority(self.open[b], goal) {
                n - 1
            } else {
                b
            }
        }
    }

    /// Index of the waiting tile that is expanded next.
    pub open spec fn best_index(self, goal: Tile) -> int {
        self.best_among(goal, self.open.len())
    }

    /// The state after the waiting tile at index `i` has left the list and been closed.
    pub open spec fn closed(self, i: int) -> Search {
        let cur = self.open[i];
        let m = self.mark(cur);
        Search { open: self.open.remove(i), marks: self.marks }.with_mark(
            cur,
            Mark { status: Status::Closed, cost: m.cost, parent: m.parent },
        )
    }

    /// The state after the step from the closed tile `cur` to its neighbour `n` has been
    /// considered: a walkable tile not reached before joins the end of the list, and a
    /// waiting tile that is reached more cheaply through `cur` takes the new cost and
    /// parent and keeps its place.
    pub open spec fn relaxed(self, grid: Seq<Seq<usize>>, cur: Tile, n: Tile) -> Search {
        if !walkable(grid, n) {
            self
        } else {
            let reached = Mark { status: Status::Open, cost: self.mark(cur).cost + 1, parent: cur };
            match self.mark(n).status {
                Status::Closed => self,
                Status::Unseen => Search { open: self.open.push(n), marks: self.marks }.with_mark(
                    n,
                    reached,
                ),
                Status::Open => if reached.cost < self.mark(n).cost {
                    self.with_mark(n, reached)
                } else {
                    self
                },
            }
        }
    }

    /// The state after the waiting tile at index `i` has been expanded.
    pub open spec fn expanded(self, grid: Seq<Seq<usize>>, i: int) -> Search {
        let cur = self.open[i];
        let around = neighbors(cur);
        self.closed(i).relaxed(grid, cur, around[0]).relaxed(grid, cur, around[1]).relaxed(
            grid,
            cur,
            around[2],
        ).relaxed(grid, cur, around[3])
    }

    /// The walk that the parents record from the start to `t`, for a tile of cost `n`.
    pub open spec fn traced(self, t: Tile, n: nat) -> Seq<Tile>
        decreases n,
    {
        if n == 0 {
            seq![t]
        } else {
            self.traced(self.mark(t).parent, (n - 1) as nat).push(t)
        }
    }

    /// The route that the search finds from this state within `fuel` expansions.
    pub open spec fn searched(self, grid: Seq<Seq<usize>>, goal: Tile, fuel: nat) -> Option<Seq<Tile>>
        decreases fuel,
    {
        if self.open.len() == 0 {
            None
        } else {
            let i = self.best_index(goal);
            let cur = self.open[i];
            if cur == goal {
                Some(self.traced(goal, self.mark(goal).cost as nat))
            } else if fuel == 0 {
                None
            } else {
                self.expanded(grid, i).searched(grid, goal, (fuel - 1) as nat)
            }
        }
    }
}

/// The state in which a search from `start` begins: only `start` is reached, at no cost.
pub open spec fn initial(grid: Seq<Seq<usize>>, start: Tile) -> Search {
    Search {
        open: seq![start],
        marks: Seq::new(grid.len(), |r: int| Seq::new(grid[r].len(), |c: int| unseen_mark())),
    }.with_mark(start, Mark { status: Status::Open, cost: 0, parent: start })
}

/// The route from `start` to `goal` on `grid`, both ends included, or `None` when there
/// is none. A search needs at most one expansion per tile.
pub open spec fn route(grid: Seq<Seq<usize>>, start: Tile, goal: Tile) -> Option<Seq<Tile>> {
    if walkable(grid, start) && walkable(grid, goal) {
        initial(grid, start).searched(grid, goal, (rows(grid) * cols(grid)) as nat)
    } else {
        None
    }
}

/// What the running search stores for a tile.
#[derive(Clone, Copy, Debug, PartialEq, Eq, Structural)]
struct Node {
    status: Status,
    cost: usize,
    parent: Tile,
}

impl View for Node {
    type V = Mark;

    closed spec fn view(&self) -> Mark {
        Mark { status: self.status, cost: self.cost as int, parent: self.parent }
    }
}

/// The marks that a table of nodes stands for.
spec fn marks_of(nodes: Seq<Vec<Node>>) -> Seq<Seq<Mark>> {
    Seq::new(nodes.len(), |r: int| Seq::new(nodes[r]@.len(), |c: int| nodes[r]@[c]@))
}

/// The running search: the waiting tiles and a table of nodes, row by row.
struct Frontier {
    open: Vec<Tile>,
    nodes: Vec<Vec<Node>>,
}

impl View for Frontier {
    type V = Search;

    closed spec fn view(&self) -> Search {
        Search { open: self.open@, marks: marks_of(self.nodes@) }
    }
}

/// Run-time form of [`estimate`].
fn manhattan(a: Tile, b: Tile) -> (d: usize)
    requires
        0 <= a.row <= MAX_DIM,
        0 <= a.col <= MAX_DIM,
        0 <= b.row <= MAX_DIM,
        0 <= b.col <= MAX_DIM,
    ensures
        d == estimate(a, b),
        d <= 2 * MAX_DIM,
{
    let dr: i32 = if a.row >= b.row {
        a.row - b.row
    } else {
        b.row - a.row
    };
    let dc: i32 = if a.col >= b.col {
        a.col - b.col
    } else {
        b.col - a.col
    };
    (dr + dc) as usize
}

impl Frontier {
    /// The table has a node for every tile of the grid.
    spec fn fits(&self, grid: Seq<Seq<usize>>) -> bool {
        &&& self.nodes@.len() == rows(grid)
        &&& forall|r: int| 0 <= r < rows(grid) ==> (#[trigger] self.nodes@[r])@.len() == cols(grid)
    }

    fn get(&self, t: Tile, Ghost(grid): Ghost<Seq<Seq<usize>>>) -> (n: Node)
        requires
            self.fits(grid),
            in_bounds(grid, t),
        ensures
            n@ == self@.mark(t),
    {
        self.nodes[t.row as usize][t.col as usize]
    }

    fn set(&mut self, t: Tile, n: Node, Ghost(grid): Ghost<Seq<Seq<usize>>>)
        requires
            old(self).fits(grid),
            in_bounds(grid, t),
        ensures
            final(self).fits(grid),
            final(self)@ == old(self)@.with_mark(t, n@),
    {
        self.nodes[t.row as usize][t.col as usize] = n;
        assert(self@.marks =~~= old(self)@.with_mark(t, n@).marks);
    }

    /// The state in which a search from `start` begins.
    fn begin(map: &GridMap, start: Tile) -> (f: Frontier)
        requires
            map.wf(),
            in_bounds(map@, start),
        ensures
            f.fits(map@),
            f@ == initial(map@, start),
    {
        let row_count: usize = map.row_count();
        let col_count: usize = map.col_count();
        let blank = Node { status: Status::Unseen, cost: 0, parent: Tile { row: 0, col: 0 } };
        let mut nodes: Vec<Vec<Node>> = Vec::new();
        let mut r: usize = 0;
        while r < row_count
            invariant
                r <= row_count,
                nodes@.len() == r,
                blank@ == unseen_mark(),
                forall|i: int, j: int|
                    0 <= i < r && 0 <= j < col_count ==> (#[trigger] nodes@[i]@[j]) == blank,
                forall|i: int| 0 <= i < r ==> (#[trigger] nodes@[i])@.len() == col_count,
            decreases row_count - r,
        {
            let mut row: Vec<Node> = Vec::new();
            let mut c: usize = 0;
            while c < col_count
                invariant
                    c <= col_count,
                    row@.len() == c,
                    forall|j: int| 0 <= j < c ==> (#[trigger] row@[j]) == blank,
                decreases col_count - c,
            {
                row.push(blank);
                c += 1;
            }
            nodes.push(row);
            r += 1;
        }
        let mut open: Vec<Tile> = Vec::new();
        open.push(start);
        let mut f = Frontier { open, nodes };
        proof {
            assert forall|i: int| 0 <= i < map@.len() implies (#[trigger] map@[i]).len() == cols(
                map@,
            ) by {}
            assert(f@.marks =~~= Seq::new(
                map@.len(),
                |r: int| Seq::new(map@[r].len(), |c: int| unseen_mark()),
            ));
            assert(f@.open =~= seq![start]);
        }
        f.set(start, Node { status: Status::Open, cost: 0, parent: start }, Ghost(map@));
        f
    }
}

/// Largest cost that a search can give a tile: the number of tiles of the largest grid.
const COST_LIMIT: usize = 0x1000_0000;

/// A rectangular grid has at most [`COST_LIMIT`] tiles.
proof fn lemma_capacity_bound(grid: Seq<Seq<usize>>)
    requires
        rectangular(grid),
    ensures
        0 <= capacity(grid) <= COST_LIMIT,
{
    let r = rows(grid);
    let c = cols(grid);
    assert(0 <= r * c <= 0x4000 * 0x4000) by (nonlinear_arith)
        requires
            0 <= r <= 0x4000,
            0 <= c <= 0x4000,
    ;
}

impl Frontier {
    /// The waiting tiles lie on the grid and their costs are within the limit.
    spec fn open_in_reach(&self, grid: Seq<Seq<usize>>) -> bool {
        forall|i: int|
            0 <= i < self.open@.len() ==> in_bounds(grid, #[trigger] self.open@[i]) && self@.mark(
                self.open@[i],
            ).cost <= COST_LIMIT
    }

    /// Index of the waiting tile to expand next.
    fn best(&self, goal: Tile, Ghost(grid): Ghost<Seq<Seq<usize>>>) -> (b: usize)
        requires
            rectangular(grid),
            self.fits(grid),
            self.open_in_reach(grid),
            in_bounds(grid, goal),
            self.open@.len() >= 1,
        ensures
            b == self@.best_index(goal),
            b < self.open@.len(),
    {
        let count: usize = self.open.len();
        let mut b: usize = 0;
        let mut n: usize = 1;
        while n < count
            invariant
                1 <= n <= count,
                count == self.open@.len(),
                b < n,
                b == self@.best_among(goal, n as nat),
                rectangular(grid),
                self.fits(grid),
                self.open_in_reach(grid),
                in_bounds(grid, goal),
            decreases count - n,
        {
            let candidate = self.open[n];
            let leader = self.open[b];
            let p: usize = self.get(candidate, Ghost(grid)).cost + manhattan(candidate, goal);
            let q: usize = self.get(leader, Ghost(grid)).cost + manhattan(leader, goal);
            if p < q {
                b = n;
            }
            n += 1;
        }
        b
    }

    /// Considers the step from `cur` to `n`.
    fn relax(&mut self, map: &GridMap, cur: Tile, n: Tile)
        requires
            map.wf(),
            old(self).fits(map@),
            in_bounds(map@, cur),
            old(self)@.mark(cur).cost < COST_LIMIT,
        ensures
            final(self).fits(map@),
            final(self)@ == old(self)@.relaxed(map@, cur, n),
    {
        if !tile_walkable(map, n.row, n.col) {
            return ;
        }
        let known = self.get(n, Ghost(map@));
        let cost: usize = self.get(cur, Ghost(map@)).cost + 1;
        let reached = Node { status: Status::Open, cost, parent: cur };
        match known.status {
            Status::Closed => {},
            Status::Unseen => {
                self.open.push(n);
                self.set(n, reached, Ghost(map@));
            },
            Status::Open => {
                if cost < known.cost {
                    self.set(n, reached, Ghost(map@));
                }
            },
        }
    }

    /// Expands the waiting tile at index `b`.
    fn expand(&mut self, map: &GridMap, b: usize)
        requires
            map.wf(),
            old(self).fits(map@),
            b < old(self).open@.len(),
            in_bounds(map@, old(self).open@[b as int]),
            old(self)@.mark(old(self).open@[b as int]).cost < COST_LIMIT,
        ensures
            final(self).fits(map@),
            final(self)@ == old(self)@.expanded(map@, b as int),
    {
        let cur = self.open.remove(b);
        let node = self.get(cur, Ghost(map@));
        self.set(
            cur,
            Node { status: Status::Closed, cost: node.cost, parent: node.parent },
            Ghost(map@),
        );
        assert(self@ == old(self)@.closed(b as int));
        let ghost around = neighbors(cur);
        let up = Tile { row: cur.row - 1, col: cur.col };
        let down = Tile { row: cur.row + 1, col: cur.col };
        let left = Tile { row: cur.row, col: cur.col - 1 };
        let right = Tile { row: cur.row, col: cur.col + 1 };
        assert(up == around[0] && down == around[1] && left == around[2] && right == around[3]);
        self.relax(map, cur, up);
        self.relax(map, cur, down);
        self.relax(map, cur, left);
        self.relax(map, cur, right);
    }

    /// The walk that the parents record from the start to `goal`.
    fn trace(
        &self,
        goal: Tile,
        Ghost(grid): Ghost<Seq<Seq<usize>>>,
        Ghost(start): Ghost<Tile>,
        Ghost(target): Ghost<Tile>,
    ) -> (path: Vec<Tile>)
        requires
            self.fits(grid),
            base_inv(grid, start, target, self@),
            in_bounds(grid, goal),
            self@.mark(goal).status != Status::Unseen,
        ensures
            path@ == self@.traced(goal, self@.mark(goal).cost as nat),
    {
        proof {
            lemma_capacity_bound(grid);
            assert(linked(grid, start, self@, goal));
            lemma_trace_is_path(grid, start, target, self@, goal);
        }
        let n: usize = self.get(goal, Ghost(grid)).cost;
        let ghost full = self@.traced(goal, n as nat);
        let mut path: Vec<Tile> = Vec::new();
        let mut i: usize = 0;
        while i <= n
            invariant
                i <= n + 1,
                n <= COST_LIMIT,
                path@.len() == i,
            decreases n + 1 - i,
        {
            path.push(goal);
            i += 1;
        }
        let mut t = goal;
        let mut k: usize = n;
        loop
            invariant
                k <= n,
                n <= COST_LIMIT,
                path@.len() == n + 1,
                full.len() == n + 1,
                self.fits(grid),
                base_inv(grid, start, target, self@),
                in_bounds(grid, t),
                self@.mark(t).status != Status::Unseen,
                self@.mark(t).cost == k,
                full.take(k + 1) == self@.traced(t, k as nat),
                forall|j: int| k < j <= n ==> path@[j] == full[j],
            ensures
                path@ == full,
            decreases k,
        {
            proof {
                assert(linked(grid, start, self@, t));
                lemma_trace_is_path(grid, start, target, self@, t);
                assert(full.take(k + 1)[k as int] == full[k as int]);
            }
            path[k] = t;
            if k == 0 {
                assert(path@ =~= full);
                break ;
            }
            let parent = self.get(t, Ghost(grid)).parent;
            proof {
                let before = self@.traced(parent, (k - 1) as nat);
                assert(self@.traced(t, k as nat) == before.push(t));
                assert(linked(grid, start, self@, parent));
                lemma_trace_is_path(grid, start, target, self@, parent);
                assert(full.take(k as int) =~= full.take(k + 1).take(k as int));
                assert(before.push(t).take(k as int) =~= before);
            }
            t = parent;
            k -= 1;
        }
        path
    }
}

/// Finds a shortest route from `start` to `goal` over walkable tiles, moving between tiles
/// that share an edge.
///
/// The route holds both ends. There is no route when an end is not walkable or lies
/// beyond the map, or when no walk over walkable tiles leads from one to the other. Among
/// the shortest walks the result is the one that [`route`] describes.
pub fn a_star(map: &GridMap, start: Tile, goal: Tile) -> (found: Option<Vec<Tile>>)
    requires
        map.wf(),
    ensures
        found.is_some() <==> reachable(map@, start, goal),
        found matches Some(p) ==> is_shortest_path(map@, p@, start, goal),
        match found {
            Some(p) => route(map@, start, goal) == Some(p@),
            None => route(map@, start, goal).is_none(),
        },
{
    proof {
        lemma_route_is_shortest(map@, start, goal);
        lemma_capacity_bound(map@);
    }
    if !tile_walkable(map, start.row, start.col) || !tile_walkable(map, goal.row, goal.col) {
        return None;
    }
    let mut frontier = Frontier::begin(map, start);
    let ghost mut fuel: nat = capacity(map@) as nat;
    proof {
        lemma_initial_inv(map@, start, goal);
    }
    loop
        invariant
            map.wf(),
            walkable(map@, goal),
            frontier.fits(map@),
            inv(map@, start, goal, frontier@),
            unsettled(frontier@.marks) <= fuel,
            frontier@.searched(map@, goal, fuel) == route(map@, start, goal),
            capacity(map@) <= COST_LIMIT,
            route(map@, start, goal).is_some() <==> reachable(map@, start, goal),
            route(map@, start, goal) matches Some(p) ==> is_shortest_path(map@, p, start, goal),
        decreases fuel,
    {
        if frontier.open.len() == 0 {
            return None;
        }
        proof {
            assert forall|i: int| 0 <= i < frontier.open@.len() implies in_bounds(
                map@,
                #[trigger] frontier.open@[i],
            ) && frontier@.mark(frontier.open@[i]).cost <= COST_LIMIT by {
                assert(frontier@.open[i] == frontier.open@[i]);
                assert(linked(map@, start, frontier@, frontier.open@[i]));
            }
        }
        let b: usize = frontier.best(goal, Ghost(map@));
        let cur = frontier.open[b];
        proof {
            assert(frontier@.open[b as int] == cur);
            assert(linked(map@, start, frontier@, cur));
            lemma_unsettled_positive(frontier@.marks, cur.row as int, cur.col as int);
        }
        if cur == goal {
            let path = frontier.trace(goal, Ghost(map@), Ghost(start), Ghost(goal));
            return Some(path);
        }
        proof {
            lemma_expand(map@, start, goal, frontier@);
        }
        frontier.expand(map, b);
        proof {
            fuel = (fuel - 1) as nat;
        }
    }
}

} // verus!
