//! The pathfinder: cheapest walks over the tiles that are not blocked.

use vstd::prelude::*;
use crate::geometry::GridPoint;
use crate::map::GameMap;

verus! {

/// The cost of a step along a row or a column, in hundredths of a tile.
pub const CARDINAL_COST: u32 = 100;

/// The cost of a diagonal step, in hundredths of a tile.
pub const DIAGONAL_COST: u32 = 145;

/// The distance of a tile that the search has not reached.
pub const UNREACHED: u64 = u64::MAX;

/// The eight directions in the order in which exits are listed: west, east,
/// north, south, then the four diagonals.
pub open spec fn direction(d: int) -> (int, int) {
    if d == 0 {
        (-1, 0)
    } else if d == 1 {
        (1, 0)
    } else if d == 2 {
        (0, -1)
    } else if d == 3 {
        (0, 1)
    } else if d == 4 {
        (-1, -1)
    } else if d == 5 {
        (1, -1)
    } else if d == 6 {
        (-1, 1)
    } else {
        (1, 1)
    }
}

/// Whether one step leads from tile `from` to tile `to`: the two are
/// neighbours, diagonals included, and `to` may be entered.
pub open spec fn is_step(map: GameMap, from: int, to: int) -> bool {
    &&& 0 <= from < map.tile_count()
    &&& 0 <= to < map.tile_count()
    &&& from != to
    &&& -1 <= map.x_of(to) - map.x_of(from) <= 1
    &&& -1 <= map.y_of(to) - map.y_of(from) <= 1
    &&& map.exit_valid(map.x_of(to), map.y_of(to))
}

/// The cost of the step from `from` to `to`.
pub open spec fn step_cost(map: GameMap, from: int, to: int) -> int {
    if map.x_of(from) != map.x_of(to) && map.y_of(from) != map.y_of(to) {
        DIAGONAL_COST as int
    } else {
        CARDINAL_COST as int
    }
}

/// Whether every tile of `p` is one step from the tile before it.
pub open spec fn is_path(map: GameMap, p: Seq<usize>) -> bool {
    forall|k: int| 0 <= k < p.len() - 1 ==> is_step(map, #[trigger] p[k] as int, p[k + 1] as int)
}

/// Whether `p` is a walk from `start` to `goal`.
pub open spec fn connects(map: GameMap, p: Seq<usize>, start: int, goal: int) -> bool {
    &&& p.len() > 0
    &&& p[0] == start
    &&& p.last() == goal
    &&& is_path(map, p)
}

/// Whether some walk leads from `start` to `goal`.
pub open spec fn reachable(map: GameMap, start: int, goal: int) -> bool {
    exists|p: Seq<usize>| connects(map, p, start, goal)
}

/// Whether `p` is a walk of least cost from `start` to `goal`.
pub open spec fn is_cheapest_walk(map: GameMap, p: Seq<usize>, start: int, goal: int) -> bool {
    &&& connects(map, p, start, goal)
    &&& forall|q: Seq<usize>|
        connects(map, q, start, goal) ==> path_cost(map, p) <= #[trigger] path_cost(map, q)
}

/// The summed cost of the steps of `p`.
pub open spec fn path_cost(map: GameMap, p: Seq<usize>) -> int
    decreases p.len(),
{
    if p.len() <= 1 {
        0
    } else {
        path_cost(map, p.drop_last()) + step_cost(map, p[p.len() - 2] as int, p.last() as int)
    }
}

/// The exits of tile `idx` in the first `d` directions, each with its cost.
pub open spec fn exits_upto(map: GameMap, idx: int, d: int) -> Seq<(usize, u32)>
    decreases d,
{
    if d <= 0 {
        Seq::empty()
    } else {
        let earlier = exits_upto(map, idx, d - 1);
        let x = map.x_of(idx) + direction(d - 1).0;
        let y = map.y_of(idx) + direction(d - 1).1;
        if map.exit_valid(x, y) {
            earlier.push(
                (
                    map.idx_of(x, y) as usize,
                    if direction(d - 1).0 != 0 && direction(d - 1).1 != 0 {
                        DIAGONAL_COST
                    } else {
                        CARDINAL_COST
                    },
                ),
            )
        } else {
            earlier
        }
    }
}

/// The result of a search.
pub struct NavigationPath {
    pub destination: usize,
    pub success: bool,
    pub steps: Vec<usize>,
}

/// The offsets of direction `d`.
fn offset(d: usize) -> (o: (i32, i32))
    requires
        d < 8,
    ensures
        o.0 == direction(d as int).0,
        o.1 == direction(d as int).1,
{
    if d == 0 {
        (-1, 0)
    } else if d == 1 {
        (1, 0)
    } else if d == 2 {
        (0, -1)
    } else if d == 3 {
        (0, 1)
    } else if d == 4 {
        (-1, -1)
    } else if d == 5 {
        (1, -1)
    } else if d == 6 {
        (-1, 1)
    } else {
        (1, 1)
    }
}

impl GameMap {
    /// Whether cell `(x, y)` may be entered: it lies on the grid and is not
    /// blocked.
    pub open spec fn exit_valid(self, x: int, y: int) -> bool {
        self.in_bounds(x, y) && !self.blocked@[self.idx_of(x, y)]
    }

    /// Whether cell `(x, y)` may be entered.
    pub fn is_exit_valid(&self, x: i32, y: i32) -> (r: bool)
        requires
            self.wf(),
        ensures
            r == self.exit_valid(x as int, y as int),
    {
        if x < 0 || x >= self.width || y < 0 || y >= self.height {
            return false;
        }
        let idx = self.point2d_to_index(GridPoint::new(x, y));
        !self.blocked[idx]
    }

    /// The tiles that can be entered from tile `idx`, each with the cost of
    /// the step: exactly the tiles one step away.
    pub fn get_available_exits(&self, idx: usize) -> (exits: Vec<(usize, u32)>)
        requires
            self.wf(),
            idx < self.tile_count(),
        ensures
            exits@ == exits_upto(*self, idx as int, 8),
            forall|k: int|
                0 <= k < exits@.len() ==> is_step(*self, idx as int, (#[trigger] exits@[k]).0 as int)
                    && exits@[k].1 == step_cost(*self, idx as int, exits@[k].0 as int),
            forall|to: int|
                is_step(*self, idx as int, to) ==> exists|k: int|
                    0 <= k < exits@.len() && (#[trigger] exits@[k]).0 == to,
    {
        let point = self.index_to_point2d(idx);
        let mut exits: Vec<(usize, u32)> = Vec::new();
        let mut d: usize = 0;
        while d < 8
            invariant
                d <= 8,
                self.wf(),
                idx < self.tile_count(),
                point.x == self.x_of(idx as int),
                point.y == self.y_of(idx as int),
                self.in_bounds(point.x as int, point.y as int),
                self.idx_of(point.x as int, point.y as int) == idx,
                exits@ == exits_upto(*self, idx as int, d as int),
                forall|k: int|
                    0 <= k < exits@.len() ==> is_step(
                        *self,
                        idx as int,
                        (#[trigger] exits@[k]).0 as int,
                    ) && exits@[k].1 == step_cost(*self, idx as int, exits@[k].0 as int),
                forall|j: int|
                    0 <= j < d && self.exit_valid(
                        point.x + direction(j).0,
                        point.y + direction(j).1,
                    ) ==> exists|k: int|
                        0 <= k < exits@.len() && (#[trigger] exits@[k]).0 == self.idx_of(
                            point.x + direction(j).0,
                            point.y + direction(j).1,
                        ),
            decreases 8 - d,
        {
            let o = offset(d);
            let x = point.x + o.0;
            let y = point.y + o.1;
            let ghost earlier = exits@;
            if self.is_exit_valid(x, y) {
                let to = self.point2d_to_index(GridPoint::new(x, y));
                let cost = if o.0 != 0 && o.1 != 0 {
                    DIAGONAL_COST
                } else {
                    CARDINAL_COST
                };
                exits.push((to, cost));
                proof {
                    self.lemma_idx_in_range(x as int, y as int);
                    assert(exits@[earlier.len() as int].0 == to);
                }
            }
            proof {
                assert forall|j: int|
                    0 <= j < d + 1 && self.exit_valid(
                        point.x + direction(j).0,
                        point.y + direction(j).1,
                    ) implies exists|k: int|
                    0 <= k < exits@.len() && (#[trigger] exits@[k]).0 == self.idx_of(
                        point.x + direction(j).0,
                        point.y + direction(j).1,
                    ) by {
                    if j < d {
                        let k = choose|k: int|
                            0 <= k < earlier.len() && (#[trigger] earlier[k]).0 == self.idx_of(
                                point.x + direction(j).0,
                                point.y + direction(j).1,
                            );
                        assert(exits@[k] == earlier[k]);
                    } else {
                        assert(exits@[earlier.len() as int].0 == self.idx_of(x as int, y as int));
                    }
                }
            }
            d += 1;
        }
        proof {
            assert forall|to: int| is_step(*self, idx as int, to) implies exists|k: int|
                0 <= k < exits@.len() && (#[trigger] exits@[k]).0 == to by {
                self.lemma_cell_of_idx(to);
                let dx = self.x_of(to) - point.x;
                let dy = self.y_of(to) - point.y;
                let j: int = if dx == -1 && dy == 0 {
                    0
                } else if dx == 1 && dy == 0 {
                    1
                } else if dx == 0 && dy == -1 {
                    2
                } else if dx == 0 && dy == 1 {
                    3
                } else if dx == -1 && dy == -1 {
                    4
                } else if dx == 1 && dy == -1 {
                    5
                } else if dx == -1 && dy == 1 {
                    6
                } else {
                    7
                };
                assert(direction(j).0 == dx && direction(j).1 == dy);
                assert(self.exit_valid(point.x + direction(j).0, point.y + direction(j).1));
            }
        }
        exits
    }
}

/// The working state of a search: for every tile its distance from the
/// start as far as known, the tile that it was reached from, and whether the
/// distance is settled.
struct Search {
    dist: Vec<u64>,
    prev: Vec<usize>,
    done: Vec<bool>,
}

impl Search {
    /// What the search keeps true between rounds. Settled tiles have a known
    /// distance that no open tile undercuts; every step out of a settled tile
    /// but `pending` has been tried; and every reached tile but the start
    /// hangs on a settled tile, one step away, whose distance and the step's
    /// cost make up its own. Known distances are at most `bound`.
    closed spec fn inv(self, map: GameMap, start: int, bound: int, pending: int) -> bool {
        let n = map.tile_count();
        &&& self.dist@.len() == n
        &&& self.prev@.len() == n
        &&& self.done@.len() == n
        &&& 0 <= start < n
        &&& self.dist@[start] == 0
        &&& 0 <= bound
        &&& bound + DIAGONAL_COST < UNREACHED
        &&& forall|v: int| 0 <= v < n && #[trigger] self.dist@[v] < UNREACHED ==> self.dist@[v] <= bound
        &&& forall|u: int| 0 <= u < n && #[trigger] self.done@[u] ==> self.dist@[u] < UNREACHED
        &&& forall|u: int, v: int|
            0 <= u < n && self.done@[u] && u != pending && #[trigger] is_step(map, u, v)
                ==> self.dist@[v] <= self.dist@[u] + step_cost(map, u, v)
        &&& forall|u: int, v: int|
            0 <= u < n && 0 <= v < n && #[trigger] self.done@[u] && !#[trigger] self.done@[v]
                ==> self.dist@[u] <= self.dist@[v]
        &&& forall|v: int|
            0 <= v < n && v != start && self.dist@[v] < UNREACHED ==> {
                let u = #[trigger] self.prev@[v] as int;
                &&& 0 <= u < n
                &&& self.done@[u]
                &&& is_step(map, u, v)
                &&& self.dist@[v] == self.dist@[u] + step_cost(map, u, v)
            }
    }

    /// A search that has reached the start alone.
    fn new(map: &GameMap, start: usize) -> (s: Search)
        requires
            map.wf(),
            start < map.tile_count(),
        ensures
            s.inv(*map, start as int, 0, -1),
            forall|v: int| 0 <= v < map.tile_count() ==> !s.done@[v],
    {
        let n = map.tiles.len();
        let mut dist: Vec<u64> = Vec::new();
        let mut prev: Vec<usize> = Vec::new();
        let mut done: Vec<bool> = Vec::new();
        let mut i: usize = 0;
        while i < n
            invariant
                i <= n,
                dist@.len() == i,
                prev@.len() == i,
                done@.len() == i,
                forall|v: int| 0 <= v < i ==> dist@[v] == UNREACHED,
                forall|v: int| 0 <= v < i ==> !done@[v],
            decreases n - i,
        {
            dist.push(UNREACHED);
            prev.push(0);
            done.push(false);
            i += 1;
        }
        dist[start] = 0;
        Search { dist, prev, done }
    }

    /// The open tile of least known distance, if any open tile is reached.
    fn nearest_open(&self, Ghost(map): Ghost<GameMap>) -> (r: Option<usize>)
        requires
            self.dist@.len() == map.tile_count(),
            self.done@.len() == map.tile_count(),
        ensures
            r matches Some(u) ==> u < map.tile_count() && !self.done@[u as int] && self.dist@[u as int]
                < UNREACHED && forall|v: int|
                0 <= v < map.tile_count() && !self.done@[v] ==> self.dist@[u as int] <= self.dist@[v],
            r is None ==> forall|v: int|
                0 <= v < map.tile_count() && !self.done@[v] ==> self.dist@[v] == UNREACHED,
    {
        let n = self.dist.len();
        let mut best: Option<usize> = None;
        let mut best_dist: u64 = UNREACHED;
        let mut v: usize = 0;
        while v < n
            invariant
                v <= n,
                n == self.dist@.len(),
                n == self.done@.len(),
                best matches Some(u) ==> u < v && !self.done@[u as int] && self.dist@[u as int]
                    == best_dist && best_dist < UNREACHED,
                best is None ==> best_dist == UNREACHED,
                forall|j: int| 0 <= j < v && !self.done@[j] ==> best_dist <= self.dist@[j],
            decreases n - v,
        {
            if !self.done[v] && self.dist[v] < best_dist {
                best = Some(v);
                best_dist = self.dist[v];
            }
            v += 1;
        }
        best
    }

    /// Settles tile `u`, the nearest open tile, and tries every step out of it.
    fn settle(&mut self, map: &GameMap, Ghost(start): Ghost<int>, Ghost(bound): Ghost<int>, u: usize)
        requires
            map.wf(),
            old(self).inv(*map, start, bound, -1),
            bound + 2 * DIAGONAL_COST < UNREACHED,
            u < map.tile_count(),
            !old(self).done@[u as int],
            old(self).dist@[u as int] < UNREACHED,
            forall|v: int|
                0 <= v < map.tile_count() && !old(self).done@[v] ==> old(self).dist@[u as int]
                    <= old(self).dist@[v],
        ensures
            final(self).inv(*map, start, bound + DIAGONAL_COST, -1),
            final(self).done@ == old(self).done@.update(u as int, true),
    {
        let ghost n = map.tile_count();
        self.done[u] = true;
        let exits = map.get_available_exits(u);
        let from = self.dist[u];
        assert(self.inv(*map, start, bound + DIAGONAL_COST, u as int));
        let mut k: usize = 0;
        while k < exits.len()
            invariant
                k <= exits@.len(),
                n == map.tile_count(),
                u < n,
                self.inv(*map, start, bound + DIAGONAL_COST, u as int),
                self.done@ == old(self).done@.update(u as int, true),
                from == self.dist@[u as int],
                from <= bound,
                old(self).done@.len() == n,
                forall|a: int| 0 <= a < n && self.done@[a] ==> self.dist@[a] <= from,
                forall|j: int|
                    0 <= j < exits@.len() ==> is_step(*map, u as int, (#[trigger] exits@[j]).0 as int)
                        && exits@[j].1 == step_cost(*map, u as int, exits@[j].0 as int),
                forall|j: int|
                    0 <= j < k ==> self.dist@[(#[trigger] exits@[j]).0 as int] <= from + exits@[j].1,
            decreases exits@.len() - k,
        {
            let (to, cost) = exits[k];
            let reached = from + cost as u64;
            if reached < self.dist[to] {
                let ghost before = *self;
                self.dist[to] = reached;
                self.prev[to] = u;
                proof {
                    assert(!before.done@[to as int]);
                    assert(to != start);
                    assert forall|a: int, b: int|
                        0 <= a < n && self.done@[a] && a != u && #[trigger] is_step(
                            *map,
                            a,
                            b,
                        ) implies self.dist@[b] <= self.dist@[a] + step_cost(*map, a, b) by {
                        assert(before.dist@[b] <= before.dist@[a] + step_cost(*map, a, b));
                    }
                    assert forall|a: int, b: int|
                        0 <= a < n && 0 <= b < n && #[trigger] self.done@[a] && !#[trigger] self.done@[b] implies self.dist@[a]
                        <= self.dist@[b] by {
                        assert(before.dist@[a] <= from);
                    }
                    assert forall|v: int|
                        0 <= v < n && v != start && self.dist@[v] < UNREACHED implies ({
                        let w = #[trigger] self.prev@[v] as int;
                        &&& 0 <= w < n
                        &&& self.done@[w]
                        &&& is_step(*map, w, v)
                        &&& self.dist@[v] == self.dist@[w] + step_cost(*map, w, v)
                    }) by {
                        if v != to {
                            let w = before.prev@[v] as int;
                            assert(before.done@[w]);
                        }
                    }
                }
            }
            k += 1;
        }
        proof {
            assert forall|a: int, b: int|
                0 <= a < n && self.done@[a] && #[trigger] is_step(*map, a, b) implies self.dist@[b]
                <= self.dist@[a] + step_cost(*map, a, b) by {
                if a == u {
                    let j = choose|j: int| 0 <= j < exits@.len() && (#[trigger] exits@[j]).0 == b;
                    assert(self.dist@[exits@[j].0 as int] <= from + exits@[j].1);
                }
            }
        }
    }

    /// The walk from the start to `goal` along the tiles that each tile was
    /// reached from.
    fn trace_back(&self, map: &GameMap, start: usize, goal: usize, Ghost(bound): Ghost<int>) -> (steps:
        Vec<usize>)
        requires
            map.wf(),
            self.inv(*map, start as int, bound, -1),
            goal < map.tile_count(),
            self.dist@[goal as int] < UNREACHED,
        ensures
            connects(*map, steps@, start as int, goal as int),
            path_cost(*map, steps@) == self.dist@[goal as int],
    {
        let ghost n = map.tile_count();
        let mut back: Vec<usize> = Vec::new();
        back.push(goal);
        let mut cur = goal;
        while cur != start
            invariant
                n == map.tile_count(),
                self.inv(*map, start as int, bound, -1),
                back@.len() >= 1,
                back@[0] == goal,
                back@.last() == cur,
                cur < n,
                self.dist@[cur as int] < UNREACHED,
                forall|j: int| 0 <= j < back@.len() ==> (#[trigger] back@[j]) < n,
                forall|j: int|
                    0 <= j < back@.len() - 1 ==> is_step(
                        *map,
                        back@[j + 1] as int,
                        #[trigger] back@[j] as int,
                    ) && self.dist@[back@[j] as int] == self.dist@[back@[j + 1] as int] + step_cost(
                        *map,
                        back@[j + 1] as int,
                        back@[j] as int,
                    ),
            decreases self.dist@[cur as int],
        {
            let ghost here = cur;
            cur = self.prev[cur];
            back.push(cur);
            assert(self.prev@[here as int] == cur);
        }
        let mut steps: Vec<usize> = Vec::new();
        let len = back.len();
        let mut k: usize = 0;
        while k < len
            invariant
                k <= len,
                len == back@.len(),
                steps@.len() == k,
                forall|j: int| 0 <= j < k ==> steps@[j] == back@[len - 1 - j],
            decreases len - k,
        {
            steps.push(back[len - 1 - k]);
            k += 1;
        }
        proof {
            assert forall|j: int| 0 <= j < steps@.len() - 1 implies is_step(
                *map,
                #[trigger] steps@[j] as int,
                steps@[j + 1] as int,
            ) && self.dist@[steps@[j + 1] as int] == self.dist@[steps@[j] as int] + step_cost(
                *map,
                steps@[j] as int,
                steps@[j + 1] as int,
            ) by {
                let b = len - 2 - j;
                assert(is_step(*map, back@[b + 1] as int, back@[b] as int));
            }
            lemma_cost_adds_up(*map, steps@, self.dist@);
        }
        steps
    }
}

/// Along a walk on which every tile's distance is that of the tile before
/// it and the step's cost, the cost of the walk is the difference of the
/// distances at its ends.
proof fn lemma_cost_adds_up(map: GameMap, p: Seq<usize>, dist: Seq<u64>)
    requires
        p.len() >= 1,
        forall|j: int| 0 <= j < p.len() ==> (#[trigger] p[j]) < dist.len(),
        forall|j: int|
            0 <= j < p.len() - 1 ==> dist[p[j + 1] as int] == dist[#[trigger] p[j] as int]
                + step_cost(map, p[j] as int, p[j + 1] as int),
    ensures
        path_cost(map, p) == dist[p.last() as int] - dist[p[0] as int],
    decreases p.len(),
{
    if p.len() > 1 {
        let q = p.drop_last();
        assert forall|j: int| 0 <= j < q.len() - 1 implies dist[q[j + 1] as int] == dist[#[trigger] q[j] as int]
            + step_cost(map, q[j] as int, q[j + 1] as int) by {
            assert(q[j] == p[j]);
            assert(q[j + 1] == p[j + 1]);
        }
        lemma_cost_adds_up(map, q, dist);
        assert(q.last() == p[p.len() - 2]);
    }
}

/// A walk without its last tile is a walk.
proof fn lemma_shorter_walk(map: GameMap, p: Seq<usize>)
    requires
        p.len() > 1,
        is_path(map, p),
    ensures
        is_path(map, p.drop_last()),
        p.drop_last()[0] == p[0],
        p.drop_last().last() == p[p.len() - 2],
        is_step(map, p[p.len() - 2] as int, p.last() as int),
{
    let q = p.drop_last();
    assert forall|k: int| 0 <= k < q.len() - 1 implies is_step(
        map,
        #[trigger] q[k] as int,
        q[k + 1] as int,
    ) by {
        assert(q[k] == p[k]);
        assert(q[k + 1] == p[k + 1]);
        assert(is_step(map, p[k] as int, p[k + 1] as int));
    }
    assert(is_step(map, p[p.len() - 2] as int, p[p.len() - 2 + 1] as int));
}

impl Search {
    /// No walk from the start is cheaper than the known distance of its last
    /// tile, or than `floor` where that is less: `floor` is a distance that no
    /// settled tile exceeds and no open tile undercuts.
    proof fn lemma_lower_bound(self, map: GameMap, start: int, bound: int, floor: int, q: Seq<usize>)
        requires
            self.inv(map, start, bound, -1),
            forall|u: int| 0 <= u < map.tile_count() && self.done@[u] ==> self.dist@[u] <= floor,
            forall|v: int| 0 <= v < map.tile_count() && !self.done@[v] ==> floor <= self.dist@[v],
            q.len() > 0,
            q[0] == start,
            is_path(map, q),
        ensures
            0 <= q.last() < map.tile_count(),
            self.dist@[q.last() as int] <= path_cost(map, q) || floor <= path_cost(map, q),
        decreases q.len(),
    {
        if q.len() > 1 {
            lemma_shorter_walk(map, q);
            let r = q.drop_last();
            self.lemma_lower_bound(map, start, bound, floor, r);
            let u = r.last() as int;
            let v = q.last() as int;
            assert(is_step(map, u, v));
        }
    }

    /// Once no open tile is reached, every tile on a walk from the start is
    /// settled.
    proof fn lemma_closed(self, map: GameMap, start: int, bound: int, q: Seq<usize>)
        requires
            self.inv(map, start, bound, -1),
            forall|v: int|
                0 <= v < map.tile_count() && !self.done@[v] ==> self.dist@[v] == UNREACHED,
            q.len() > 0,
            q[0] == start,
            is_path(map, q),
        ensures
            0 <= q.last() < map.tile_count(),
            self.done@[q.last() as int],
        decreases q.len(),
    {
        if q.len() > 1 {
            lemma_shorter_walk(map, q);
            let r = q.drop_last();
            self.lemma_closed(map, start, bound, r);
            let u = r.last() as int;
            let v = q.last() as int;
            assert(is_step(map, u, v));
        }
    }
}

/// Whether `path` answers the search from `start` to `goal`: it succeeds if
/// and only if some walk leads there, and then its steps are a walk of least
/// cost, the start first and the goal last. A failed search has no steps.
pub open spec fn is_cheapest_path(map: GameMap, start: int, goal: int, path: NavigationPath) -> bool {
    &&& path.destination == goal
    &&& path.success <==> reachable(map, start, goal)
    &&& path.success ==> is_cheapest_walk(map, path.steps@, start, goal)
    &&& !path.success ==> path.steps@.len() == 0
}

/// Searches the cheapest walk from tile `start` to tile `goal`. Whether the
/// start itself is blocked does not matter: only tiles that are entered have
/// to be free.
pub fn find_path(map: &GameMap, start: usize, goal: usize) -> (path: NavigationPath)
    requires
        map.wf(),
        start < map.tile_count(),
        goal < map.tile_count(),
    ensures
        is_cheapest_path(*map, start as int, goal as int, path),
{
    let n = map.tiles.len();
    let mut search = Search::new(map, start);
    let mut rounds: usize = 0;
    let ghost mut settled: Set<int> = Set::empty();
    while rounds < n
        invariant
            map.wf(),
            n == map.tile_count(),
            start < n,
            goal < n,
            rounds <= n,
            search.inv(*map, start as int, rounds * DIAGONAL_COST, -1),
            settled.finite(),
            settled.len() == rounds,
            forall|v: int| settled.contains(v) <==> 0 <= v < n && search.done@[v],
            !search.done@[goal as int],
        decreases n - rounds,
    {
        let ghost bound = rounds * DIAGONAL_COST;
        assert(rounds * DIAGONAL_COST + 2 * DIAGONAL_COST < UNREACHED) by (nonlinear_arith)
            requires
                rounds <= 0x7fff_ffff,
        ;
        match search.nearest_open(Ghost(*map)) {
            None => {
                proof {
                    assert forall|q: Seq<usize>| !connects(*map, q, start as int, goal as int) by {
                        if connects(*map, q, start as int, goal as int) {
                            search.lemma_closed(*map, start as int, bound, q);
                        }
                    }
                }
                return NavigationPath { destination: goal, success: false, steps: Vec::new() };
            },
            Some(u) => {
                if u == goal {
                    let steps = search.trace_back(map, start, goal, Ghost(bound));
                    proof {
                        let floor = search.dist@[goal as int] as int;
                        assert forall|q: Seq<usize>|
                            connects(*map, q, start as int, goal as int) implies path_cost(
                            *map,
                            steps@,
                        ) <= #[trigger] path_cost(*map, q) by {
                            search.lemma_lower_bound(*map, start as int, bound, floor, q);
                        }
                    }
                    return NavigationPath { destination: goal, success: true, steps };
                }
                proof {
                    vstd::set_lib::lemma_int_range(0, n as int);
                    let all = vstd::set_lib::set_int_range(0, n as int);
                    assert(settled.insert(u as int).subset_of(all));
                    vstd::set_lib::lemma_len_subset(settled.insert(u as int), all);
                    assert((rounds + 1) * DIAGONAL_COST == rounds * DIAGONAL_COST + DIAGONAL_COST)
                        by (nonlinear_arith);
                }
                search.settle(map, Ghost(start as int), Ghost(bound), u);
                proof {
                    settled = settled.insert(u as int);
                }
                rounds += 1;
            },
        }
    }
    proof {
        vstd::set_lib::lemma_int_range(0, n as int);
        let all = vstd::set_lib::set_int_range(0, n as int);
        assert(settled.subset_of(all));
        assert(!settled.contains(goal as int));
        vstd::set_lib::lemma_len_subset(settled.insert(goal as int), all);
    }
    NavigationPath { destination: goal, success: false, steps: Vec::new() }
}

} // verus!
