//! What follows from the pathfinder's contract on particular maps.

use vstd::prelude::*;
use crate::geometry::{abs_diff, chebyshev_spec, distance_squared_spec, Rect};
use crate::map::GameMap;
use crate::pathfinding::{
    connects, is_cheapest_path, is_cheapest_walk, is_path, is_step, path_cost, reachable,
    step_cost, NavigationPath, CARDINAL_COST, DIAGONAL_COST,
};

verus! {

/// Whether `area` is unobstructed floor: a rectangle of cells on the grid,
/// border line included, of which none is blocked.
pub open spec fn is_free_floor(map: GameMap, area: Rect) -> bool {
    &&& 0 <= area.x1 <= area.x2 < map.width
    &&& 0 <= area.y1 <= area.y2 < map.height
    &&& forall|x: int, y: int|
        area.x1 <= x <= area.x2 && area.y1 <= y <= area.y2 ==> !map.blocked@[#[trigger] map.idx_of(
            x,
            y,
        )]
}

/// Whether `area` is unobstructed floor for a walker on tile `from`: a
/// rectangle of cells on the grid of which none but `from`, where the walker
/// itself may be what blocks, is blocked.
pub open spec fn is_free_floor_for(map: GameMap, area: Rect, from: int) -> bool {
    &&& 0 <= area.x1 <= area.x2 < map.width
    &&& 0 <= area.y1 <= area.y2 < map.height
    &&& forall|x: int, y: int|
        area.x1 <= x <= area.x2 && area.y1 <= y <= area.y2 && map.idx_of(x, y) != from
            ==> !map.blocked@[#[trigger] map.idx_of(x, y)]
}

/// Whether tile `idx` lies in `area`, border line included.
pub open spec fn lies_in(map: GameMap, idx: int, area: Rect) -> bool {
    &&& 0 <= idx < map.tile_count()
    &&& area.x1 <= map.x_of(idx) <= area.x2
    &&& area.y1 <= map.y_of(idx) <= area.y2
}

/// Everything inside the outer border of the map.
pub open spec fn interior_of(map: GameMap) -> Rect {
    Rect { x1: 1, x2: (map.width - 2) as i32, y1: 1, y2: (map.height - 2) as i32 }
}

/// The squared Euclidean distance between two tiles.
pub open spec fn tile_distance_squared(map: GameMap, a: int, b: int) -> int {
    distance_squared_spec(map.x_of(a), map.y_of(a), map.x_of(b), map.y_of(b))
}

/// The Chebyshev distance between two tiles.
pub open spec fn tile_distance(map: GameMap, a: int, b: int) -> int {
    chebyshev_spec(map.x_of(a), map.y_of(a), map.x_of(b), map.y_of(b))
}

/// The Manhattan distance between two tiles.
pub open spec fn taxi_distance(map: GameMap, a: int, b: int) -> int {
    abs_diff(map.x_of(a), map.x_of(b)) + abs_diff(map.y_of(a), map.y_of(b))
}

/// Whether every tile next to `goal` is blocked.
pub open spec fn is_walled_off(map: GameMap, goal: int) -> bool {
    forall|t: int|
        0 <= t < map.tile_count() && #[trigger] tile_distance(map, t, goal) == 1 ==> map.blocked@[t]
}

/// The cost of the straight walk between two tiles: diagonal steps as far as
/// both coordinates differ, then steps along the row or column.
pub open spec fn straight_cost(map: GameMap, a: int, b: int) -> int {
    DIAGONAL_COST * (taxi_distance(map, a, b) - tile_distance(map, a, b)) + CARDINAL_COST * (2
        * tile_distance(map, a, b) - taxi_distance(map, a, b))
}

/// A walk has at least as many steps as its ends are apart, and costs at
/// least 55 for each step and 45 for each unit of Manhattan distance between
/// its ends.
proof fn lemma_walk_bounds(map: GameMap, q: Seq<usize>)
    requires
        map.wf(),
        q.len() >= 1,
        q[0] < map.tile_count(),
        is_path(map, q),
    ensures
        q.last() < map.tile_count(),
        q.len() - 1 >= tile_distance(map, q[0] as int, q.last() as int),
        path_cost(map, q) >= 55 * (q.len() - 1) + 45 * taxi_distance(
            map,
            q[0] as int,
            q.last() as int,
        ),
    decreases q.len(),
{
    if q.len() > 1 {
        let r = q.drop_last();
        assert forall|k: int| 0 <= k < r.len() - 1 implies is_step(
            map,
            #[trigger] r[k] as int,
            r[k + 1] as int,
        ) by {
            assert(r[k] == q[k]);
            assert(r[k + 1] == q[k + 1]);
            assert(is_step(map, q[k] as int, q[k + 1] as int));
        }
        lemma_walk_bounds(map, r);
        let u = q[q.len() - 2];
        assert(r.last() == u);
        assert(r[0] == q[0]);
        assert(is_step(map, u as int, q[q.len() - 2 + 1] as int));
    }
}

/// On unobstructed floor, a walk of the straight cost leads from every tile
/// to every other.
proof fn lemma_straight_walk(map: GameMap, area: Rect, a: int, b: int) -> (p: Seq<usize>)
    requires
        map.wf(),
        is_free_floor_for(map, area, a),
        lies_in(map, a, area),
        lies_in(map, b, area),
    ensures
        connects(map, p, a, b),
        path_cost(map, p) == straight_cost(map, a, b),
    decreases tile_distance(map, a, b),
{
    map.lemma_cell_of_idx(a);
    map.lemma_cell_of_idx(b);
    let ax = map.x_of(a);
    let ay = map.y_of(a);
    let bx = map.x_of(b);
    let by = map.y_of(b);
    if ax == bx && ay == by {
        let p = seq![a as usize];
        assert(p[0] == a);
        p
    } else {
        let cx = if bx > ax {
            bx - 1
        } else if bx < ax {
            bx + 1
        } else {
            bx
        };
        let cy = if by > ay {
            by - 1
        } else if by < ay {
            by + 1
        } else {
            by
        };
        let c = map.idx_of(cx, cy);
        map.lemma_idx_in_range(cx, cy);
        let before = lemma_straight_walk(map, area, a, c);
        let p = before.push(b as usize);
        assert(p.drop_last() == before);
        assert(map.idx_of(bx, by) == b && b != a);
        assert(!map.blocked@[map.idx_of(bx, by)]);
        assert(is_step(map, c, b));
        assert forall|k: int| 0 <= k < p.len() - 1 implies is_step(
            map,
            #[trigger] p[k] as int,
            p[k + 1] as int,
        ) by {
            if k < before.len() - 1 {
                assert(p[k] == before[k]);
                assert(p[k + 1] == before[k + 1]);
                assert(is_step(map, before[k] as int, before[k + 1] as int));
            }
        }
        assert(p[p.len() - 2] == c);
        p
    }
}

/// On unobstructed floor, a cheapest walk between two tiles has as many steps
/// as the Chebyshev distance between them, and the straight cost.
pub proof fn lemma_cheapest_walk_on_free_floor(
    map: GameMap,
    area: Rect,
    p: Seq<usize>,
    start: int,
    goal: int,
)
    requires
        map.wf(),
        is_free_floor_for(map, area, start),
        lies_in(map, start, area),
        lies_in(map, goal, area),
        is_cheapest_walk(map, p, start, goal),
    ensures
        p.len() - 1 == tile_distance(map, start, goal),
        path_cost(map, p) == straight_cost(map, start, goal),
{
    let straight = lemma_straight_walk(map, area, start, goal);
    assert(path_cost(map, p) <= path_cost(map, straight));
    lemma_walk_bounds(map, p);
    lemma_walk_bounds(map, straight);
}

/// Between two tiles on unobstructed floor the search succeeds, and the path
/// has as many steps as the Chebyshev distance between them: diagonal moves
/// are used wherever they shorten the way. On a map without obstacles the
/// floor is everything inside the outer border.
pub proof fn lemma_free_floor_path_has_chebyshev_length(
    map: GameMap,
    area: Rect,
    start: int,
    goal: int,
    path: NavigationPath,
)
    requires
        map.wf(),
        is_free_floor_for(map, area, start),
        lies_in(map, start, area),
        lies_in(map, goal, area),
        is_cheapest_path(map, start, goal, path),
    ensures
        path.success,
        path.steps@.len() - 1 == tile_distance(map, start, goal),
        path_cost(map, path.steps@) == straight_cost(map, start, goal),
{
    let straight = lemma_straight_walk(map, area, start, goal);
    assert(reachable(map, start, goal));
    lemma_cheapest_walk_on_free_floor(map, area, path.steps@, start, goal);
}

/// Where every tile next to the goal is blocked and the start is neither the
/// goal nor next to it, the search fails.
pub proof fn lemma_walled_off_goal_is_not_reached(
    map: GameMap,
    start: int,
    goal: int,
    path: NavigationPath,
)
    requires
        map.wf(),
        0 <= start < map.tile_count(),
        0 <= goal < map.tile_count(),
        tile_distance(map, start, goal) > 1,
        is_walled_off(map, goal),
        is_cheapest_path(map, start, goal, path),
    ensures
        !path.success,
        path.steps@.len() == 0,
{
    assert forall|q: Seq<usize>| !connects(map, q, start, goal) by {
        if connects(map, q, start, goal) {
            assert(q.len() >= 2);
            let u = q[q.len() - 2] as int;
            assert(is_step(map, q[q.len() - 2] as int, q[q.len() - 2 + 1] as int));
            map.lemma_cell_of_idx(u);
            map.lemma_cell_of_idx(goal);
            assert(tile_distance(map, u, goal) == 1);
            assert(map.blocked@[u]);
            if q.len() == 2 {
                assert(u == start);
            } else {
                assert(is_step(map, q[q.len() - 3] as int, q[q.len() - 3 + 1] as int));
            }
        }
    }
}

/// A walk that is entered by one more step costs that step more.
proof fn lemma_cost_of_longer_walk(map: GameMap, first: usize, q: Seq<usize>)
    requires
        q.len() >= 1,
    ensures
        path_cost(map, seq![first] + q) == step_cost(map, first as int, q[0] as int) + path_cost(
            map,
            q,
        ),
    decreases q.len(),
{
    let longer = seq![first] + q;
    if q.len() == 1 {
        assert(longer.drop_last() == seq![first]);
        assert(path_cost(map, seq![first]) == 0);
        assert(longer[longer.len() - 2] == first);
    } else {
        assert(longer.drop_last() == seq![first] + q.drop_last());
        lemma_cost_of_longer_walk(map, first, q.drop_last());
        assert(longer[longer.len() - 2] == q[q.len() - 2]);
        assert(q.drop_last()[0] == q[0]);
    }
}

/// The first step of a cheapest walk leads onto a cheapest walk: what is left
/// of the walk after the step is a cheapest walk from there, and costs the
/// step less. A monster that takes the step is that much closer to its goal.
pub proof fn lemma_first_step_stays_on_a_cheapest_walk(
    map: GameMap,
    p: Seq<usize>,
    start: int,
    goal: int,
)
    requires
        is_cheapest_walk(map, p, start, goal),
        p.len() > 1,
    ensures
        is_step(map, start, p[1] as int),
        is_cheapest_walk(map, p.subrange(1, p.len() as int), p[1] as int, goal),
        path_cost(map, p) == step_cost(map, start, p[1] as int) + path_cost(
            map,
            p.subrange(1, p.len() as int),
        ),
{
    let rest = p.subrange(1, p.len() as int);
    assert(p == seq![p[0]] + rest);
    lemma_cost_of_longer_walk(map, p[0], rest);
    assert(is_step(map, p[0int] as int, p[0int + 1] as int));
    assert forall|k: int| 0 <= k < rest.len() - 1 implies is_step(
        map,
        #[trigger] rest[k] as int,
        rest[k + 1] as int,
    ) by {
        assert(is_step(map, p[k + 1] as int, p[k + 1 + 1] as int));
    }
    assert forall|q: Seq<usize>| connects(map, q, p[1] as int, goal) implies path_cost(map, rest)
        <= #[trigger] path_cost(map, q) by {
        let longer = seq![p[0]] + q;
        lemma_cost_of_longer_walk(map, p[0], q);
        assert forall|k: int| 0 <= k < longer.len() - 1 implies is_step(
            map,
            #[trigger] longer[k] as int,
            longer[k + 1] as int,
        ) by {
            if k > 0 {
                assert(is_step(map, q[k - 1] as int, q[k - 1 + 1] as int));
            }
        }
        assert(connects(map, longer, start, goal));
        assert(path_cost(map, p) <= path_cost(map, longer));
    }
}

/// On a map without obstacles, where no tile inside the outer border is
/// blocked, the path between two tiles inside the border has as many steps as
/// the Chebyshev distance between them.
pub proof fn lemma_open_map_path_has_chebyshev_length(
    map: GameMap,
    start: int,
    goal: int,
    path: NavigationPath,
)
    requires
        map.wf(),
        is_free_floor(map, interior_of(map)),
        lies_in(map, start, interior_of(map)),
        lies_in(map, goal, interior_of(map)),
        is_cheapest_path(map, start, goal, path),
    ensures
        path.success,
        path.steps@.len() - 1 == tile_distance(map, start, goal),
{
    lemma_free_floor_path_has_chebyshev_length(map, interior_of(map), start, goal, path);
}

/// A number that is nearer to zero has the smaller square.
proof fn lemma_nearer_to_zero(u: int, v: int)
    requires
        abs_diff(u, 0) <= abs_diff(v, 0),
    ensures
        u * u <= v * v,
        abs_diff(u, 0) < abs_diff(v, 0) ==> u * u < v * v,
{
    assert(u * u <= v * v) by (nonlinear_arith)
        requires
            (-v <= u <= v) || (v <= u <= -v),
    ;
    if abs_diff(u, 0) < abs_diff(v, 0) {
        assert(u * u < v * v) by (nonlinear_arith)
            requires
                (-v < u < v) || (v < u < -v),
        ;
    }
}

/// On unobstructed floor, the first step of a cheapest walk comes closer to
/// the goal: it is one step onto a tile that is not blocked, the Chebyshev
/// distance to the goal drops by one, and the Euclidean distance drops too.
pub proof fn lemma_first_step_on_free_floor_comes_closer(
    map: GameMap,
    area: Rect,
    p: Seq<usize>,
    start: int,
    goal: int,
)
    requires
        map.wf(),
        is_free_floor_for(map, area, start),
        lies_in(map, start, area),
        lies_in(map, goal, area),
        start != goal,
        is_cheapest_walk(map, p, start, goal),
    ensures
        p.len() > 1,
        is_step(map, start, p[1] as int),
        tile_distance(map, start, p[1] as int) == 1,
        tile_distance(map, p[1] as int, goal) == tile_distance(map, start, goal) - 1,
        tile_distance_squared(map, p[1] as int, goal) < tile_distance_squared(map, start, goal),
{
    lemma_cheapest_walk_on_free_floor(map, area, p, start, goal);
    lemma_first_step_stays_on_a_cheapest_walk(map, p, start, goal);
    let next = p[1] as int;
    let rest = p.subrange(1, p.len() as int);
    lemma_walk_bounds(map, rest);
    map.lemma_cell_of_idx(start);
    map.lemma_cell_of_idx(next);
    map.lemma_cell_of_idx(goal);
    let far = tile_distance(map, start, goal);
    let taxi = taxi_distance(map, start, goal);
    assert(rest.len() - 1 == far - 1);
    assert(rest[0] == next && rest.last() == goal);
    assert(path_cost(map, rest) == 55 * far + 45 * taxi - step_cost(map, start, next));
    let a = map.x_of(start) - map.x_of(goal);
    let b = map.y_of(start) - map.y_of(goal);
    let a1 = map.x_of(next) - map.x_of(goal);
    let b1 = map.y_of(next) - map.y_of(goal);
    assert(abs_diff(a1, 0) + abs_diff(b1, 0) == taxi_distance(map, next, goal));
    assert(abs_diff(a, 0) + abs_diff(b, 0) == taxi);
    assert(abs_diff(a1, 0) <= abs_diff(a, 0) && abs_diff(b1, 0) <= abs_diff(b, 0));
    assert(abs_diff(a1, 0) < abs_diff(a, 0) || abs_diff(b1, 0) < abs_diff(b, 0));
    lemma_nearer_to_zero(a1, a);
    lemma_nearer_to_zero(b1, b);
}

} // verus!
