//! Why the search is right: the facts that hold of every state it passes through, and
//! what they give for the route it returns.

use vstd::prelude::*;
use crate::grid::{cols, in_bounds, rectangular, rows, walkable, Tile};
use crate::pathfinder::{
    adjacent, estimate, initial, is_path, is_shortest_path, neighbors, reachable, route, unseen_mark,
    Mark, Search, Status,
};

verus! {

/// Number of marks in a row that are not closed.
pub open spec fn unsettled_in_row(row: Seq<Mark>) -> nat
    decreases row.len(),
{
    if row.len() == 0 {
        0
    } else {
        unsettled_in_row(row.drop_last()) + if row.last().status == Status::Closed {
            0nat
        } else {
            1nat
        }
    }
}

/// Number of tiles that the search has not closed.
pub open spec fn unsettled(marks: Seq<Seq<Mark>>) -> nat
    decreases marks.len(),
{
    if marks.len() == 0 {
        0
    } else {
        unsettled(marks.drop_last()) + unsettled_in_row(marks.last())
    }
}

/// 1 for a mark that is not closed, 0 for a closed one.
pub open spec fn weight(m: Mark) -> int {
    if m.status == Status::Closed {
        0
    } else {
        1
    }
}

/// Replacing one mark of a row changes the count by the difference of the weights.
pub proof fn lemma_row_update(row: Seq<Mark>, c: int, m: Mark)
    requires
        0 <= c < row.len(),
    ensures
        unsettled_in_row(row.update(c, m)) == unsettled_in_row(row) - weight(row[c]) + weight(m),
    decreases row.len(),
{
    let after = row.update(c, m);
    if c == row.len() - 1 {
        assert(after.drop_last() == row.drop_last());
    } else {
        lemma_row_update(row.drop_last(), c, m);
        assert(after.drop_last() == row.drop_last().update(c, m));
    }
}

/// Replacing one mark of a grid changes the count by the difference of the weights.
pub proof fn lemma_grid_update(marks: Seq<Seq<Mark>>, r: int, c: int, m: Mark)
    requires
        0 <= r < marks.len(),
        0 <= c < marks[r].len(),
    ensures
        unsettled(marks.update(r, marks[r].update(c, m))) == unsettled(marks) - weight(marks[r][c])
            + weight(m),
    decreases marks.len(),
{
    let after = marks.update(r, marks[r].update(c, m));
    if r == marks.len() - 1 {
        assert(after.drop_last() == marks.drop_last());
        lemma_row_update(marks[r], c, m);
    } else {
        lemma_grid_update(marks.drop_last(), r, c, m);
        assert(after.drop_last() == marks.drop_last().update(r, marks[r].update(c, m)));
    }
}

/// A row holds at most as many unsettled marks as it has marks.
pub proof fn lemma_row_bound(row: Seq<Mark>)
    ensures
        unsettled_in_row(row) <= row.len(),
    decreases row.len(),
{
    if row.len() > 0 {
        lemma_row_bound(row.drop_last());
    }
}

/// A grid of rows of `width` marks holds at most rows times `width` unsettled marks.
pub proof fn lemma_grid_bound(marks: Seq<Seq<Mark>>, width: int)
    requires
        forall|r: int| 0 <= r < marks.len() ==> (#[trigger] marks[r]).len() == width,
    ensures
        unsettled(marks) <= marks.len() * width,
    decreases marks.len(),
{
    if marks.len() > 0 {
        lemma_grid_bound(marks.drop_last(), width);
        lemma_row_bound(marks.last());
        assert(marks.len() * width == (marks.len() - 1) * width + width) by (nonlinear_arith);
    }
}

/// A grid with a mark that is not closed has an unsettled tile.
pub proof fn lemma_unsettled_positive(marks: Seq<Seq<Mark>>, r: int, c: int)
    requires
        0 <= r < marks.len(),
        0 <= c < marks[r].len(),
        marks[r][c].status != Status::Closed,
    ensures
        unsettled(marks) >= 1,
{
    let m = Mark { status: Status::Closed, cost: marks[r][c].cost, parent: marks[r][c].parent };
    lemma_grid_update(marks, r, c, m);
}

/// The marks cover the grid tile by tile.
pub open spec fn shaped(grid: Seq<Seq<usize>>, s: Search) -> bool {
    &&& s.marks.len() == grid.len()
    &&& forall|r: int| 0 <= r < grid.len() ==> (#[trigger] s.marks[r]).len() == grid[r].len()
}

/// Number of tiles of the grid.
pub open spec fn capacity(grid: Seq<Seq<usize>>) -> int {
    rows(grid) * cols(grid)
}

/// The tile lies on the grid and the search has closed it.
pub open spec fn settled(grid: Seq<Seq<usize>>, s: Search, t: Tile) -> bool {
    in_bounds(grid, t) && s.mark(t).status == Status::Closed
}

/// The mark of the reached tile `t` agrees with the grid and with the mark of its parent:
/// the tile is walkable, and unless it is the start, its parent is a closed tile next to
/// it that is one step cheaper.
pub open spec fn linked(grid: Seq<Seq<usize>>, start: Tile, s: Search, t: Tile) -> bool {
    let m = s.mark(t);
    &&& walkable(grid, t)
    &&& m.cost >= 0
    &&& m.cost + unsettled(s.marks) + (1 - weight(m)) <= capacity(grid)
    &&& if t == start {
        m.cost == 0
    } else {
        &&& settled(grid, s, m.parent)
        &&& adjacent(m.parent, t)
        &&& m.cost == s.mark(m.parent).cost + 1
    }
}

/// The waiting list holds exactly the tiles with status open, each once.
pub open spec fn lists_open(grid: Seq<Seq<usize>>, s: Search) -> bool {
    &&& forall|i: int|
        0 <= i < s.open.len() ==> in_bounds(grid, #[trigger] s.open[i]) && s.mark(
            s.open[i],
        ).status == Status::Open
    &&& forall|i: int, j: int| 0 <= i < j < s.open.len() ==> s.open[i] != s.open[j]
    &&& forall|t: Tile|
        in_bounds(grid, t) && (#[trigger] s.mark(t)).status == Status::Open ==> s.open.contains(t)
}

/// What holds of every state of a search from `start` for `goal`, also in the middle of
/// an expansion.
pub open spec fn base_inv(grid: Seq<Seq<usize>>, start: Tile, goal: Tile, s: Search) -> bool {
    &&& rectangular(grid)
    &&& shaped(grid, s)
    &&& walkable(grid, start)
    &&& lists_open(grid, s)
    &&& s.mark(start).status != Status::Unseen
    &&& forall|t: Tile|
        in_bounds(grid, t) && (#[trigger] s.mark(t)).status != Status::Unseen ==> linked(
            grid,
            start,
            s,
            t,
        )
    &&& forall|u: Tile, q: Seq<Tile>|
        settled(grid, s, u) && #[trigger] is_path(grid, q, start, u) ==> s.mark(u).cost + 1
            <= q.len()
    &&& !settled(grid, s, goal)
}

/// The step from `u` to `v` has been taken into account: `v` is reached, at a cost of at
/// most one step more than `u`.
pub open spec fn served(s: Search, u: Tile, v: Tile) -> bool {
    s.mark(v).status != Status::Unseen && s.mark(v).cost <= s.mark(u).cost + 1
}

/// `v` is one of the first `k` neighbours of `cur`.
pub open spec fn among(cur: Tile, v: Tile, k: int) -> bool {
    ||| k > 0 && v == neighbors(cur)[0]
    ||| k > 1 && v == neighbors(cur)[1]
    ||| k > 2 && v == neighbors(cur)[2]
    ||| k > 3 && v == neighbors(cur)[3]
}

/// Every step from a closed tile to a walkable neighbour has been taken into account,
/// but for the steps from `cur` to its neighbours after the first `k`.
pub open spec fn frontier_during(grid: Seq<Seq<usize>>, s: Search, cur: Tile, k: int) -> bool {
    forall|u: Tile, v: Tile|
        settled(grid, s, u) && walkable(grid, v) && #[trigger] adjacent(u, v) && (u == cur
            ==> among(cur, v, k)) ==> served(s, u, v)
}

/// Every step from a closed tile to a walkable neighbour has been taken into account.
pub open spec fn frontier(grid: Seq<Seq<usize>>, s: Search) -> bool {
    forall|u: Tile, v: Tile|
        settled(grid, s, u) && walkable(grid, v) && #[trigger] adjacent(u, v) ==> served(s, u, v)
}

/// What holds of every state of a search between two expansions.
pub open spec fn inv(grid: Seq<Seq<usize>>, start: Tile, goal: Tile, s: Search) -> bool {
    base_inv(grid, start, goal, s) && frontier(grid, s)
}

/// The tile chosen for expansion has the least priority of all waiting tiles.
pub proof fn lemma_best_is_least(s: Search, goal: Tile, n: nat)
    requires
        1 <= n <= s.open.len(),
    ensures
        0 <= s.best_among(goal, n) < n,
        forall|j: int|
            0 <= j < n ==> s.priority(s.open[s.best_among(goal, n)], goal) <= s.priority(
                #[trigger] s.open[j],
                goal,
            ),
    decreases n,
{
    if n > 1 {
        lemma_best_is_least(s, goal, (n - 1) as nat);
    }
}

/// One step changes the estimate by at most one.
pub proof fn lemma_estimate_step(a: Tile, b: Tile, goal: Tile)
    requires
        adjacent(a, b),
    ensures
        estimate(a, goal) <= estimate(b, goal) + 1,
{
}

/// The estimate never exceeds the number of steps that a path still takes to its end,
/// plus the estimate at its end.
pub proof fn lemma_estimate_along(
    grid: Seq<Seq<usize>>,
    q: Seq<Tile>,
    from: Tile,
    to: Tile,
    i: int,
    goal: Tile,
)
    requires
        is_path(grid, q, from, to),
        0 <= i < q.len(),
    ensures
        estimate(q[i], goal) <= estimate(to, goal) + (q.len() - 1 - i),
    decreases q.len() - i,
{
    if i < q.len() - 1 {
        lemma_estimate_along(grid, q, from, to, i + 1, goal);
        lemma_estimate_step(q[i], q[i + 1], goal);
    }
}

/// The start of a path is a path of its own.
pub proof fn lemma_path_prefix(grid: Seq<Seq<usize>>, q: Seq<Tile>, from: Tile, to: Tile, n: int)
    requires
        is_path(grid, q, from, to),
        1 <= n <= q.len(),
    ensures
        is_path(grid, q.take(n), from, q[n - 1]),
{
    let p = q.take(n);
    assert forall|i: int| 0 <= i < p.len() implies walkable(grid, #[trigger] p[i]) by {
        assert(p[i] == q[i]);
    }
    assert forall|i: int| 0 <= i < p.len() - 1 implies adjacent(#[trigger] p[i], p[i + 1]) by {
        assert(p[i] == q[i]);
        assert(p[i + 1] == q[i + 1]);
    }
}

/// A path with one more step to a walkable tile next to its end is a path.
pub proof fn lemma_path_extend(grid: Seq<Seq<usize>>, q: Seq<Tile>, from: Tile, to: Tile, next: Tile)
    requires
        is_path(grid, q, from, to),
        walkable(grid, next),
        adjacent(to, next),
    ensures
        is_path(grid, q.push(next), from, next),
{
    let p = q.push(next);
    assert forall|i: int| 0 <= i < p.len() implies walkable(grid, #[trigger] p[i]) by {
        if i < q.len() {
            assert(p[i] == q[i]);
        }
    }
    assert forall|i: int| 0 <= i < p.len() - 1 implies adjacent(#[trigger] p[i], p[i + 1]) by {
        assert(p[i] == q[i]);
        if i + 1 < q.len() {
            assert(p[i + 1] == q[i + 1]);
        }
    }
}

/// On a path whose end is not closed, the first tile that is not closed.
pub proof fn lemma_first_unsettled(
    grid: Seq<Seq<usize>>,
    s: Search,
    q: Seq<Tile>,
    from: Tile,
    to: Tile,
    k: int,
) -> (i: int)
    requires
        is_path(grid, q, from, to),
        !settled(grid, s, to),
        0 <= k < q.len(),
        forall|j: int| 0 <= j < k ==> settled(grid, s, #[trigger] q[j]),
    ensures
        k <= i < q.len(),
        !settled(grid, s, q[i]),
        forall|j: int| 0 <= j < i ==> settled(grid, s, #[trigger] q[j]),
    decreases q.len() - k,
{
    if !settled(grid, s, q[k]) {
        k
    } else {
        lemma_first_unsettled(grid, s, q, from, to, k + 1)
    }
}

/// Where a path from the start leaves the closed tiles, it does so through a waiting tile
/// whose cost is at most the number of steps that the path has taken.
pub proof fn lemma_path_crosses_open(
    grid: Seq<Seq<usize>>,
    start: Tile,
    goal: Tile,
    s: Search,
    q: Seq<Tile>,
    to: Tile,
) -> (i: int)
    requires
        inv(grid, start, goal, s),
        is_path(grid, q, start, to),
        !settled(grid, s, to),
    ensures
        0 <= i < q.len(),
        s.open.contains(q[i]),
        s.mark(q[i]).cost <= i,
{
    let i = lemma_first_unsettled(grid, s, q, start, to, 0);
    let v = q[i];
    assert(walkable(grid, v));
    if i == 0 {
        assert(linked(grid, start, s, start));
    } else {
        let u = q[i - 1];
        lemma_path_prefix(grid, q, start, to, i);
        assert(settled(grid, s, u));
        assert(adjacent(u, v));
        assert(served(s, u, v));
    }
    i
}

/// A tile chosen for expansion is reached at the least cost that any path allows.
pub proof fn lemma_chosen_is_cheapest(
    grid: Seq<Seq<usize>>,
    start: Tile,
    goal: Tile,
    s: Search,
    q: Seq<Tile>,
)
    requires
        inv(grid, start, goal, s),
        s.open.len() > 0,
        is_path(grid, q, start, s.open[s.best_index(goal)]),
    ensures
        s.mark(s.open[s.best_index(goal)]).cost + 1 <= q.len(),
{
    lemma_best_is_least(s, goal, s.open.len());
    let b = s.best_index(goal);
    let cur = s.open[b];
    let i = lemma_path_crosses_open(grid, start, goal, s, q, cur);
    let v = q[i];
    let j = choose|j: int| 0 <= j < s.open.len() && s.open[j] == v;
    assert(s.priority(cur, goal) <= s.priority(s.open[j], goal));
    lemma_estimate_along(grid, q, start, cur, i, goal);
}

/// The parents of a reached tile record a path from the start to it, with as many steps
/// as its cost.
pub proof fn lemma_trace_is_path(
    grid: Seq<Seq<usize>>,
    start: Tile,
    goal: Tile,
    s: Search,
    t: Tile,
)
    requires
        base_inv(grid, start, goal, s),
        in_bounds(grid, t),
        s.mark(t).status != Status::Unseen,
    ensures
        is_path(grid, s.traced(t, s.mark(t).cost as nat), start, t),
        s.traced(t, s.mark(t).cost as nat).len() == s.mark(t).cost + 1,
    decreases s.mark(t).cost,
{
    assert(linked(grid, start, s, t));
    if t != start {
        let p = s.mark(t).parent;
        assert(linked(grid, start, s, p));
        lemma_trace_is_path(grid, start, goal, s, p);
        lemma_path_extend(grid, s.traced(p, s.mark(p).cost as nat), start, p, t);
    }
}

/// The tiles next to a tile of the grid are its four neighbours.
pub proof fn lemma_adjacent_is_neighbor(grid: Seq<Seq<usize>>, u: Tile, v: Tile)
    requires
        rectangular(grid),
        in_bounds(grid, u),
    ensures
        adjacent(u, v) <==> among(u, v, 4),
{
}

/// A search begins in a state of which the invariant holds.
pub proof fn lemma_initial_inv(grid: Seq<Seq<usize>>, start: Tile, goal: Tile)
    requires
        rectangular(grid),
        walkable(grid, start),
    ensures
        inv(grid, start, goal, initial(grid, start)),
        unsettled(initial(grid, start).marks) <= capacity(grid),
{
    let blank = Seq::new(grid.len(), |r: int| Seq::new(grid[r].len(), |c: int| unseen_mark()));
    let s = initial(grid, start);
    assert forall|r: int| 0 <= r < s.marks.len() implies (#[trigger] s.marks[r]).len() == cols(
        grid,
    ) by {
        assert(grid[r].len() == cols(grid));
    }
    lemma_grid_bound(s.marks, cols(grid));
    assert(s.open[0] == start);
    assert forall|t: Tile|
        in_bounds(grid, t) && (#[trigger] s.mark(t)).status != Status::Unseen implies t == start by {
        if t != start {
            assert(s.mark(t) == blank[t.row as int][t.col as int]);
        }
    }
    assert forall|u: Tile| in_bounds(grid, u) implies (#[trigger] s.mark(u)).status
        != Status::Closed by {
        if u != start {
            assert(s.mark(u) == blank[u.row as int][u.col as int]);
        }
    }
}

/// Closing a waiting tile leaves every other mark as it was.
pub proof fn lemma_close_marks(grid: Seq<Seq<usize>>, s: Search, b: int)
    requires
        rectangular(grid),
        shaped(grid, s),
        0 <= b < s.open.len(),
        in_bounds(grid, s.open[b]),
    ensures
        shaped(grid, s.closed(b)),
        s.closed(b).open == s.open.remove(b),
        s.closed(b).mark(s.open[b]) == (Mark {
            status: Status::Closed,
            cost: s.mark(s.open[b]).cost,
            parent: s.mark(s.open[b]).parent,
        }),
        forall|t: Tile|
            in_bounds(grid, t) && t != s.open[b] ==> #[trigger] s.closed(b).mark(t) == s.mark(t),
        unsettled(s.closed(b).marks) == unsettled(s.marks) - weight(s.mark(s.open[b])),
{
    let cur = s.open[b];
    let m = s.mark(cur);
    lemma_grid_update(
        s.marks,
        cur.row as int,
        cur.col as int,
        Mark { status: Status::Closed, cost: m.cost, parent: m.parent },
    );
}

/// Closing a waiting tile keeps the waiting list in step with the marks.
pub proof fn lemma_close_list(grid: Seq<Seq<usize>>, s: Search, b: int)
    requires
        rectangular(grid),
        shaped(grid, s),
        lists_open(grid, s),
        0 <= b < s.open.len(),
    ensures
        lists_open(grid, s.closed(b)),
{
    let cur = s.open[b];
    let after = s.closed(b);
    lemma_close_marks(grid, s, b);
    assert forall|i: int| 0 <= i < after.open.len() implies in_bounds(
        grid,
        #[trigger] after.open[i],
    ) && after.mark(after.open[i]).status == Status::Open by {
        let ii = if i < b {
            i
        } else {
            i + 1
        };
        assert(after.open[i] == s.open[ii]);
        assert(s.open[ii] != cur);
    }
    assert forall|i: int, j: int| 0 <= i < j < after.open.len() implies after.open[i]
        != after.open[j] by {
        let ii = if i < b {
            i
        } else {
            i + 1
        };
        let jj = if j < b {
            j
        } else {
            j + 1
        };
        assert(after.open[i] == s.open[ii]);
        assert(after.open[j] == s.open[jj]);
    }
    assert forall|t: Tile|
        in_bounds(grid, t) && (#[trigger] after.mark(t)).status
            == Status::Open implies after.open.contains(t) by {
        assert(t != cur);
        assert(s.mark(t).status == Status::Open);
        let k = choose|k: int| 0 <= k < s.open.len() && s.open[k] == t;
        if k < b {
            assert(after.open[k] == t);
        } else {
            assert(after.open[k - 1] == t);
        }
    }
}

/// Closing a waiting tile keeps every reached tile linked to its parent.
pub proof fn lemma_close_linked(grid: Seq<Seq<usize>>, start: Tile, s: Search, b: int, t: Tile)
    requires
        rectangular(grid),
        shaped(grid, s),
        0 <= b < s.open.len(),
        in_bounds(grid, s.open[b]),
        s.mark(s.open[b]).status == Status::Open,
        in_bounds(grid, t),
        s.mark(t).status != Status::Unseen,
        linked(grid, start, s, t),
    ensures
        linked(grid, start, s.closed(b), t),
{
    lemma_close_marks(grid, s, b);
    let after = s.closed(b);
    let cur = s.open[b];
    if t != start {
        let p = s.mark(t).parent;
        assert(after.mark(t).parent == p);
        assert(after.mark(p).cost == s.mark(p).cost);
        assert(after.mark(p).status == Status::Closed);
    }
}

/// Closing the chosen tile keeps the invariant, but for the steps from that tile, and
/// settles one tile more.
pub proof fn lemma_close(grid: Seq<Seq<usize>>, start: Tile, goal: Tile, s: Search)
    requires
        inv(grid, start, goal, s),
        s.open.len() > 0,
        s.open[s.best_index(goal)] != goal,
    ensures
        base_inv(grid, start, goal, s.closed(s.best_index(goal))),
        frontier_during(grid, s.closed(s.best_index(goal)), s.open[s.best_index(goal)], 0),
        settled(grid, s.closed(s.best_index(goal)), s.open[s.best_index(goal)]),
        unsettled(s.closed(s.best_index(goal)).marks) == unsettled(s.marks) - 1,
{
    lemma_best_is_least(s, goal, s.open.len());
    let b = s.best_index(goal);
    let cur = s.open[b];
    let after = s.closed(b);
    lemma_close_marks(grid, s, b);
    lemma_close_list(grid, s, b);
    assert forall|t: Tile|
        in_bounds(grid, t) && (#[trigger] after.mark(t)).status != Status::Unseen implies linked(
        grid,
        start,
        after,
        t,
    ) by {
        assert(s.mark(t).status != Status::Unseen);
        lemma_close_linked(grid, start, s, b, t);
    }
    assert forall|u: Tile, q: Seq<Tile>|
        settled(grid, after, u) && #[trigger] is_path(grid, q, start, u) implies after.mark(u).cost
        + 1 <= q.len() by {
        if u == cur {
            lemma_chosen_is_cheapest(grid, start, goal, s, q);
        } else {
            assert(settled(grid, s, u));
        }
    }
    assert forall|u: Tile, v: Tile|
        settled(grid, after, u) && walkable(grid, v) && #[trigger] adjacent(u, v) && (u == cur
            ==> among(cur, v, 0)) implies served(after, u, v) by {
        assert(u != cur);
        assert(settled(grid, s, u));
        assert(served(s, u, v));
    }
}

/// The step from `cur` to `n` changes the state: `n` is walkable and either new to the
/// search or waiting at a higher cost than the step offers.
pub open spec fn improves(grid: Seq<Seq<usize>>, s: Search, cur: Tile, n: Tile) -> bool {
    &&& walkable(grid, n)
    &&& s.mark(n).status != Status::Closed
    &&& (s.mark(n).status == Status::Unseen || s.mark(cur).cost + 1 < s.mark(n).cost)
}

/// A step that changes the state gives `n` its new mark and leaves every other mark as it
/// was; `n` joins the end of the waiting list if it was new.
pub proof fn lemma_relax_marks(grid: Seq<Seq<usize>>, s: Search, cur: Tile, n: Tile)
    requires
        rectangular(grid),
        shaped(grid, s),
        improves(grid, s, cur, n),
    ensures
        shaped(grid, s.relaxed(grid, cur, n)),
        s.relaxed(grid, cur, n).mark(n) == (Mark {
            status: Status::Open,
            cost: s.mark(cur).cost + 1,
            parent: cur,
        }),
        forall|t: Tile|
            in_bounds(grid, t) && t != n ==> #[trigger] s.relaxed(grid, cur, n).mark(t) == s.mark(t),
        s.relaxed(grid, cur, n).open == (if s.mark(n).status == Status::Unseen {
            s.open.push(n)
        } else {
            s.open
        }),
        unsettled(s.relaxed(grid, cur, n).marks) == unsettled(s.marks),
{
    let reached = Mark { status: Status::Open, cost: s.mark(cur).cost + 1, parent: cur };
    lemma_grid_update(s.marks, n.row as int, n.col as int, reached);
}

/// A step that changes the state keeps the waiting list in step with the marks.
pub proof fn lemma_relax_list(grid: Seq<Seq<usize>>, s: Search, cur: Tile, n: Tile)
    requires
        rectangular(grid),
        shaped(grid, s),
        lists_open(grid, s),
        improves(grid, s, cur, n),
    ensures
        lists_open(grid, s.relaxed(grid, cur, n)),
{
    let after = s.relaxed(grid, cur, n);
    lemma_relax_marks(grid, s, cur, n);
    assert forall|i: int| 0 <= i < after.open.len() implies in_bounds(
        grid,
        #[trigger] after.open[i],
    ) && after.mark(after.open[i]).status == Status::Open by {
        if i < s.open.len() {
            assert(after.open[i] == s.open[i]);
        }
    }
    assert forall|i: int, j: int| 0 <= i < j < after.open.len() implies after.open[i]
        != after.open[j] by {
        assert(after.open[i] == s.open[i]);
        if j < s.open.len() {
            assert(after.open[j] == s.open[j]);
        }
    }
    assert forall|t: Tile|
        in_bounds(grid, t) && (#[trigger] after.mark(t)).status
            == Status::Open implies after.open.contains(t) by {
        if s.mark(t).status == Status::Open {
            let j = choose|j: int| 0 <= j < s.open.len() && s.open[j] == t;
            assert(after.open[j] == t);
        } else {
            assert(t == n);
            assert(after.open[s.open.len() as int] == n);
        }
    }
}

/// A step that changes the state keeps every reached tile linked to its parent.
pub proof fn lemma_relax_linked(
    grid: Seq<Seq<usize>>,
    start: Tile,
    s: Search,
    cur: Tile,
    n: Tile,
    t: Tile,
)
    requires
        rectangular(grid),
        shaped(grid, s),
        improves(grid, s, cur, n),
        settled(grid, s, cur),
        linked(grid, start, s, cur),
        adjacent(cur, n),
        n != start,
        in_bounds(grid, t),
        t == n || (s.mark(t).status != Status::Unseen && linked(grid, start, s, t)),
    ensures
        linked(grid, start, s.relaxed(grid, cur, n), t),
{
    lemma_relax_marks(grid, s, cur, n);
    let after = s.relaxed(grid, cur, n);
    if t != n && t != start {
        let p = s.mark(t).parent;
        assert(p != n);
        assert(after.mark(p) == s.mark(p));
    }
}

/// Considering the step from the tile under expansion to its next neighbour keeps the
/// invariant and takes that step into account.
pub proof fn lemma_relax(
    grid: Seq<Seq<usize>>,
    start: Tile,
    goal: Tile,
    s: Search,
    cur: Tile,
    k: int,
)
    requires
        base_inv(grid, start, goal, s),
        settled(grid, s, cur),
        0 <= k < 4,
        frontier_during(grid, s, cur, k),
    ensures
        base_inv(grid, start, goal, s.relaxed(grid, cur, neighbors(cur)[k])),
        frontier_during(grid, s.relaxed(grid, cur, neighbors(cur)[k]), cur, k + 1),
        settled(grid, s.relaxed(grid, cur, neighbors(cur)[k]), cur),
        unsettled(s.relaxed(grid, cur, neighbors(cur)[k]).marks) == unsettled(s.marks),
{
    let n = neighbors(cur)[k];
    let after = s.relaxed(grid, cur, n);
    assert(linked(grid, start, s, cur));
    if improves(grid, s, cur, n) {
        assert(adjacent(cur, n));
        assert(n != start) by {
            assert(linked(grid, start, s, start));
        }
        lemma_relax_marks(grid, s, cur, n);
        lemma_relax_list(grid, s, cur, n);
        assert forall|t: Tile|
            in_bounds(grid, t) && (#[trigger] after.mark(t)).status != Status::Unseen implies linked(
            grid,
            start,
            after,
            t,
        ) by {
            if t != n {
                assert(s.mark(t).status != Status::Unseen);
            }
            lemma_relax_linked(grid, start, s, cur, n, t);
        }
        assert forall|u: Tile, q: Seq<Tile>|
            settled(grid, after, u) && #[trigger] is_path(grid, q, start, u) implies after.mark(
            u,
        ).cost + 1 <= q.len() by {
            assert(settled(grid, s, u));
        }
        assert forall|u: Tile, v: Tile|
            settled(grid, after, u) && walkable(grid, v) && #[trigger] adjacent(u, v) && (u == cur
                ==> among(cur, v, k + 1)) implies served(after, u, v) by {
            assert(settled(grid, s, u));
            if v != n {
                assert(served(s, u, v));
            } else if u != cur {
                assert(served(s, u, v));
            }
        }
    } else {
        assert(after == s);
        if walkable(grid, n) {
            assert(adjacent(cur, n));
            if s.mark(n).status == Status::Closed {
                lemma_trace_is_path(grid, start, goal, s, cur);
                let p = s.traced(cur, s.mark(cur).cost as nat);
                lemma_path_extend(grid, p, start, cur, n);
                assert(is_path(grid, p.push(n), start, n));
            }
            assert(served(s, cur, n));
        }
        assert forall|u: Tile, v: Tile|
            settled(grid, s, u) && walkable(grid, v) && #[trigger] adjacent(u, v) && (u == cur
                ==> among(cur, v, k + 1)) implies served(s, u, v) by {
            if u == cur && v == n {
            } else {
                assert(u == cur ==> among(cur, v, k));
            }
        }
    }
}

/// Expanding the chosen tile keeps the invariant and settles one tile more.
pub proof fn lemma_expand(grid: Seq<Seq<usize>>, start: Tile, goal: Tile, s: Search)
    requires
        inv(grid, start, goal, s),
        s.open.len() > 0,
        s.open[s.best_index(goal)] != goal,
    ensures
        inv(grid, start, goal, s.expanded(grid, s.best_index(goal))),
        unsettled(s.expanded(grid, s.best_index(goal)).marks) == unsettled(s.marks) - 1,
{
    lemma_best_is_least(s, goal, s.open.len());
    let b = s.best_index(goal);
    let cur = s.open[b];
    let around = neighbors(cur);
    lemma_close(grid, start, goal, s);
    let s0 = s.closed(b);
    lemma_relax(grid, start, goal, s0, cur, 0);
    let s1 = s0.relaxed(grid, cur, around[0]);
    lemma_relax(grid, start, goal, s1, cur, 1);
    let s2 = s1.relaxed(grid, cur, around[1]);
    lemma_relax(grid, start, goal, s2, cur, 2);
    let s3 = s2.relaxed(grid, cur, around[2]);
    lemma_relax(grid, start, goal, s3, cur, 3);
    let s4 = s3.relaxed(grid, cur, around[3]);
    assert(s4 == s.expanded(grid, b));
    assert forall|u: Tile, v: Tile|
        settled(grid, s4, u) && walkable(grid, v) && #[trigger] adjacent(u, v) implies served(
        s4,
        u,
        v,
    ) by {
        lemma_adjacent_is_neighbor(grid, u, v);
    }
}

/// When no tile is waiting, the goal cannot be reached.
pub proof fn lemma_exhausted(grid: Seq<Seq<usize>>, start: Tile, goal: Tile, s: Search)
    requires
        inv(grid, start, goal, s),
        s.open.len() == 0,
    ensures
        !reachable(grid, start, goal),
{
    if reachable(grid, start, goal) {
        let q = choose|q: Seq<Tile>| is_path(grid, q, start, goal);
        let i = lemma_path_crosses_open(grid, start, goal, s, q, goal);
    }
}

/// When the goal is chosen for expansion, its parents record a shortest path to it.
pub proof fn lemma_arrived(grid: Seq<Seq<usize>>, start: Tile, goal: Tile, s: Search)
    requires
        inv(grid, start, goal, s),
        s.open.len() > 0,
        s.open[s.best_index(goal)] == goal,
    ensures
        is_shortest_path(grid, s.traced(goal, s.mark(goal).cost as nat), start, goal),
        s.traced(goal, s.mark(goal).cost as nat).len() == s.mark(goal).cost + 1,
{
    lemma_best_is_least(s, goal, s.open.len());
    lemma_trace_is_path(grid, start, goal, s, goal);
    let p = s.traced(goal, s.mark(goal).cost as nat);
    assert forall|q: Seq<Tile>| is_path(grid, q, start, goal) implies p.len() <= q.len() by {
        lemma_chosen_is_cheapest(grid, start, goal, s, q);
    }
}

/// A search that has an expansion left for every unsettled tile returns a shortest path to
/// the goal if the goal can be reached, and nothing if it cannot.
pub proof fn lemma_searched(grid: Seq<Seq<usize>>, start: Tile, goal: Tile, s: Search, fuel: nat)
    requires
        inv(grid, start, goal, s),
        unsettled(s.marks) <= fuel,
    ensures
        match s.searched(grid, goal, fuel) {
            Some(p) => is_shortest_path(grid, p, start, goal),
            None => !reachable(grid, start, goal),
        },
    decreases fuel,
{
    if s.open.len() == 0 {
        lemma_exhausted(grid, start, goal, s);
    } else {
        lemma_best_is_least(s, goal, s.open.len());
        let b = s.best_index(goal);
        let cur = s.open[b];
        if cur == goal {
            lemma_arrived(grid, start, goal, s);
        } else {
            lemma_unsettled_positive(s.marks, cur.row as int, cur.col as int);
            lemma_expand(grid, start, goal, s);
            lemma_searched(grid, start, goal, s.expanded(grid, b), (fuel - 1) as nat);
        }
    }
}

/// Pathfinder correctness: on a rectangular grid the route is a shortest path from start
/// to goal if any path leads there, and there is no route if none does, as when an end is
/// not walkable or lies beyond the grid, or when obstacles enclose the goal.
pub proof fn lemma_route_is_shortest(grid: Seq<Seq<usize>>, start: Tile, goal: Tile)
    requires
        rectangular(grid),
    ensures
        match route(grid, start, goal) {
            Some(p) => is_shortest_path(grid, p, start, goal),
            None => !reachable(grid, start, goal),
        },
        route(grid, start, goal).is_some() <==> reachable(grid, start, goal),
{
    if walkable(grid, start) && walkable(grid, goal) {
        lemma_initial_inv(grid, start, goal);
        lemma_searched(grid, start, goal, initial(grid, start), capacity(grid) as nat);
    } else {
        assert forall|q: Seq<Tile>| !is_path(grid, q, start, goal) by {
            if is_path(grid, q, start, goal) {
                assert(walkable(grid, q[0]));
                assert(walkable(grid, q[q.len() - 1]));
            }
        }
    }
    match route(grid, start, goal) {
        Some(p) => {
            assert(is_path(grid, p, start, goal));
        },
        None => {},
    }
}

/// A route has one tile more than the shortest path has steps: every path between its
/// ends has at least as many tiles, and a path of as many tiles is a shortest one.
pub proof fn lemma_route_length(grid: Seq<Seq<usize>>, start: Tile, goal: Tile, q: Seq<Tile>)
    requires
        rectangular(grid),
        is_path(grid, q, start, goal),
    ensures
        route(grid, start, goal).is_some(),
        route(grid, start, goal).unwrap().len() <= q.len(),
{
    lemma_route_is_shortest(grid, start, goal);
}

} // verus!
