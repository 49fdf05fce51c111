//! The visibility engine: refreshes the viewsheds of entities that have moved
//! and shows the player's view on the map.

use vstd::prelude::*;
use crate::components::{Position, Viewshed};
use crate::fov::{field_of_view, visible_cells};
use crate::geometry::GridPoint;
use crate::map::GameMap;
use crate::world::{Slot, Stage, World};

verus! {

/// Whether `cells` are, each once, the cells of the grid that are in view
/// from `pos` within `range`. The viewer's own cell is one of them.
pub open spec fn is_view_from(cells: Seq<GridPoint>, map: GameMap, pos: Position, range: int) -> bool {
    &&& cells.no_duplicates()
    &&& cells.contains(GridPoint { x: pos.x, y: pos.y })
    &&& forall|p: GridPoint|
        cells.contains(p) <==> map.in_bounds(p.x as int, p.y as int) && visible_cells(
            pos.x as int,
            pos.y as int,
            range,
            map.width as int,
            map.height as int,
            map.tiles@,
        ).contains((p.x as int, p.y as int))
}

/// Whether the entity's view has to be computed: it is alive, stands
/// somewhere, and its viewshed is marked dirty.
pub open spec fn needs_refresh(slot: Slot) -> bool {
    slot.alive && slot.position is Some && slot.viewshed is Some && slot.viewshed->0.dirty
}

/// How one pass of the visibility engine changes a slot. A dirty viewshed
/// holds the entity's view afterwards and is clean; a clean one is not
/// touched, and neither is any other record.
pub open spec fn refreshed(before: Slot, after: Slot, map: GameMap) -> bool {
    &&& after.same_but_viewshed(before)
    &&& if needs_refresh(before) {
        &&& after.viewshed is Some
        &&& !after.viewshed->0.dirty
        &&& after.viewshed->0.range == before.viewshed->0.range
        &&& is_view_from(
            after.viewshed->0.visible_tiles@,
            map,
            before.position->0,
            before.viewshed->0.range as int,
        )
    } else {
        after.viewshed == before.viewshed
    }
}

/// Whether `after` is `before` with the view `cells` shown on it: a tile is
/// visible if and only if its cell is in view, and revealed if and only if it
/// was revealed before or is visible now.
pub open spec fn shows(after: GameMap, before: GameMap, cells: Seq<GridPoint>) -> bool {
    &&& after.same_but_sight(before)
    &&& after.visible_tiles@.len() == before.visible_tiles@.len()
    &&& after.revealed_tiles@.len() == before.revealed_tiles@.len()
    &&& forall|i: int|
        0 <= i < before.tile_count() ==> (#[trigger] after.visible_tiles@[i] <==> cells.contains(
            before.cell_of(i),
        ))
    &&& forall|i: int|
        0 <= i < before.tile_count() ==> (#[trigger] after.revealed_tiles@[i]
            <==> before.revealed_tiles@[i] || cells.contains(before.cell_of(i)))
}

/// The cells of `cells` that lie on the grid.
pub fn clip_to_map(cells: &Vec<GridPoint>, map: &GameMap) -> (kept: Vec<GridPoint>)
    ensures
        kept@ == cells@.filter(|p: GridPoint| map.in_bounds(p.x as int, p.y as int)),
        cells@.no_duplicates() ==> kept@.no_duplicates(),
        forall|p: GridPoint|
            kept@.contains(p) <==> cells@.contains(p) && map.in_bounds(p.x as int, p.y as int),
{
    let mut kept: Vec<GridPoint> = Vec::new();
    let mut i: usize = 0;
    let ghost on_grid = |p: GridPoint| map.in_bounds(p.x as int, p.y as int);
    proof {
        reveal(Seq::filter);
        assert(cells@.take(0) == Seq::<GridPoint>::empty());
    }
    while i < cells.len()
        invariant
            i <= cells@.len(),
            on_grid == |p: GridPoint| map.in_bounds(p.x as int, p.y as int),
            kept@ == cells@.take(i as int).filter(on_grid),
            forall|p: GridPoint|
                kept@.contains(p) <==> (exists|j: int| 0 <= j < i && cells@[j] == p)
                    && map.in_bounds(p.x as int, p.y as int),
            cells@.no_duplicates() ==> kept@.no_duplicates(),
        decreases cells@.len() - i,
    {
        let p = cells[i];
        proof {
            reveal(Seq::filter);
            assert(cells@.take(i as int + 1).drop_last() == cells@.take(i as int));
            assert(cells@.take(i as int + 1).last() == p);
        }
        if p.x >= 0 && p.x < map.width && p.y >= 0 && p.y < map.height {
            let ghost earlier = kept@;
            kept.push(p);
            proof {
                assert forall|q: GridPoint|
                    kept@.contains(q) <==> (exists|j: int| 0 <= j < i + 1 && cells@[j] == q)
                        && map.in_bounds(q.x as int, q.y as int) by {
                    if kept@.contains(q) {
                        let k = choose|k: int| 0 <= k < kept@.len() && kept@[k] == q;
                        if k < earlier.len() {
                            assert(earlier[k] == q);
                            assert(earlier.contains(q));
                            let j = choose|j: int| 0 <= j < i && cells@[j] == q;
                            assert(0 <= j < i + 1 && cells@[j] == q);
                        } else {
                            assert(cells@[i as int] == q);
                        }
                    }
                    if (exists|j: int| 0 <= j < i + 1 && cells@[j] == q) && map.in_bounds(
                        q.x as int,
                        q.y as int,
                    ) {
                        let j = choose|j: int| 0 <= j < i + 1 && cells@[j] == q;
                        if j < i {
                            assert(earlier.contains(q));
                            let k = choose|k: int| 0 <= k < earlier.len() && earlier[k] == q;
                            assert(kept@[k] == q);
                        } else {
                            assert(kept@[earlier.len() as int] == q);
                        }
                    }
                }
                if cells@.no_duplicates() {
                    assert forall|a: int, b: int|
                        0 <= a < kept@.len() && 0 <= b < kept@.len() && a != b implies kept@[a]
                        != kept@[b] by {
                        if a == earlier.len() || b == earlier.len() {
                            let o = if a == earlier.len() { b } else { a };
                            if earlier[o] == p {
                                assert(earlier.contains(p));
                                let j = choose|j: int| 0 <= j < i && cells@[j] == p;
                                assert(cells@[j] == cells@[i as int]);
                            }
                        }
                    }
                }
            }
        } else {
            proof {
                assert forall|q: GridPoint|
                    kept@.contains(q) <==> (exists|j: int| 0 <= j < i + 1 && cells@[j] == q)
                        && map.in_bounds(q.x as int, q.y as int) by {
                    if kept@.contains(q) {
                        let j = choose|j: int| 0 <= j < i && cells@[j] == q;
                        assert(0 <= j < i + 1 && cells@[j] == q);
                    }
                    if (exists|j: int| 0 <= j < i + 1 && cells@[j] == q) && map.in_bounds(
                        q.x as int,
                        q.y as int,
                    ) {
                        let j = choose|j: int| 0 <= j < i + 1 && cells@[j] == q;
                        assert(j < i);
                    }
                }
            }
        }
        i += 1;
    }
    proof {
        assert(cells@.take(i as int) == cells@);
        assert forall|p: GridPoint|
            kept@.contains(p) <==> cells@.contains(p) && map.in_bounds(p.x as int, p.y as int) by {
            if cells@.contains(p) {
                let j = choose|j: int| 0 <= j < cells@.len() && cells@[j] == p;
                assert(0 <= j < i && cells@[j] == p);
            }
        }
    }
    kept
}

/// Shows the player's view on the map: no tile stays visible but those in
/// view, and every tile in view is revealed for good.
pub fn show_to_player(map: &mut GameMap, cells: &Vec<GridPoint>)
    requires
        old(map).wf(),
        forall|k: int|
            0 <= k < cells@.len() ==> old(map).in_bounds(
                (#[trigger] cells@[k]).x as int,
                cells@[k].y as int,
            ),
    ensures
        final(map).wf(),
        shows(*final(map), *old(map), cells@),
{
    let n = map.visible_tiles.len();
    let mut i: usize = 0;
    while i < n
        invariant
            i <= n,
            n == map.tile_count(),
            map.wf(),
            map.same_but_sight(*old(map)),
            map.revealed_tiles == old(map).revealed_tiles,
            forall|j: int| 0 <= j < i ==> !map.visible_tiles@[j],
        decreases n - i,
    {
        map.visible_tiles[i] = false;
        i += 1;
    }
    let mut k: usize = 0;
    while k < cells.len()
        invariant
            k <= cells@.len(),
            n == map.tile_count(),
            map.wf(),
            map.same_but_sight(*old(map)),
            forall|j: int|
                0 <= j < cells@.len() ==> map.in_bounds(
                    (#[trigger] cells@[j]).x as int,
                    cells@[j].y as int,
                ),
            forall|t: int|
                0 <= t < n ==> (#[trigger] map.visible_tiles@[t] <==> exists|j: int|
                    0 <= j < k && cells@[j] == map.cell_of(t)),
            forall|t: int|
                0 <= t < n ==> (#[trigger] map.revealed_tiles@[t] <==> old(map).revealed_tiles@[t]
                    || exists|j: int| 0 <= j < k && cells@[j] == map.cell_of(t)),
        decreases cells@.len() - k,
    {
        let p = cells[k];
        let idx = map.point2d_to_index(p);
        let ghost seen = map.visible_tiles@;
        let ghost known = map.revealed_tiles@;
        map.revealed_tiles[idx] = true;
        map.visible_tiles[idx] = true;
        proof {
            map.lemma_idx_in_range(p.x as int, p.y as int);
            assert(map.cell_of(idx as int) == p);
            assert forall|t: int| 0 <= t < n implies (#[trigger] map.visible_tiles@[t]
                <==> exists|j: int| 0 <= j < k + 1 && cells@[j] == map.cell_of(t)) by {
                map.lemma_cell_of_idx(t);
                if t == idx {
                    assert(cells@[k as int] == map.cell_of(t));
                } else {
                    assert(map.cell_of(t) != p);
                    assert(map.visible_tiles@[t] == seen[t]);
                    if exists|j: int| 0 <= j < k + 1 && cells@[j] == map.cell_of(t) {
                        let j = choose|j: int| 0 <= j < k + 1 && cells@[j] == map.cell_of(t);
                        assert(0 <= j < k && cells@[j] == map.cell_of(t));
                    }
                }
            }
            assert forall|t: int| 0 <= t < n implies (#[trigger] map.revealed_tiles@[t] <==> old(
                map,
            ).revealed_tiles@[t] || exists|j: int| 0 <= j < k + 1 && cells@[j] == map.cell_of(t)) by {
                map.lemma_cell_of_idx(t);
                if t == idx {
                    assert(cells@[k as int] == map.cell_of(t));
                } else {
                    assert(map.cell_of(t) != p);
                    assert(map.revealed_tiles@[t] == known[t]);
                    if exists|j: int| 0 <= j < k + 1 && cells@[j] == map.cell_of(t) {
                        let j = choose|j: int| 0 <= j < k + 1 && cells@[j] == map.cell_of(t);
                        assert(0 <= j < k && cells@[j] == map.cell_of(t));
                    }
                }
            }
        }
        k += 1;
    }
    proof {
        assert forall|t: int| 0 <= t < n implies (#[trigger] map.visible_tiles@[t] <==> cells@.contains(
            old(map).cell_of(t),
        )) by {
            if cells@.contains(map.cell_of(t)) {
                let j = choose|j: int| 0 <= j < cells@.len() && cells@[j] == map.cell_of(t);
                assert(0 <= j < k && cells@[j] == map.cell_of(t));
            }
        }
        assert forall|t: int| 0 <= t < n implies (#[trigger] map.revealed_tiles@[t] <==> old(
            map,
        ).revealed_tiles@[t] || cells@.contains(old(map).cell_of(t))) by {
            if cells@.contains(map.cell_of(t)) {
                let j = choose|j: int| 0 <= j < cells@.len() && cells@[j] == map.cell_of(t);
                assert(0 <= j < k && cells@[j] == map.cell_of(t));
            }
        }
    }
}

/// How the visibility engine changes map and world. Every dirty viewshed is
/// refreshed and no clean one is touched. No revealed tile is forgotten. Where
/// the player's viewshed was refreshed, the map shows the fresh view; where it
/// was not, what is visible and what is revealed stay as they were.
pub open spec fn views_refreshed(before: Stage, after: Stage) -> bool {
    &&& after.map.same_but_sight(before.map)
    &&& after.world.len() == before.world.len()
    &&& after.map.visible_tiles@.len() == before.map.visible_tiles@.len()
    &&& after.map.revealed_tiles@.len() == before.map.revealed_tiles@.len()
    &&& forall|e: int|
        0 <= e < before.world.len() ==> refreshed(
            before.world.slots@[e],
            #[trigger] after.world.slots@[e],
            before.map,
        )
    &&& forall|i: int|
        0 <= i < before.map.tile_count() && before.map.revealed_tiles@[i]
            ==> #[trigger] after.map.revealed_tiles@[i]
    &&& forall|e: int|
        0 <= e < before.world.len() && (#[trigger] before.world.slots@[e]).is_player()
            && needs_refresh(before.world.slots@[e]) ==> shows(
            after.map,
            before.map,
            after.world.slots@[e].viewshed->0.visible_tiles@,
        )
    &&& (forall|e: int|
        0 <= e < before.world.len() ==> !((#[trigger] before.world.slots@[e]).is_player()
            && needs_refresh(before.world.slots@[e]))) ==> after.map.visible_tiles
        == before.map.visible_tiles && after.map.revealed_tiles == before.map.revealed_tiles
}

/// The visibility engine.
pub struct VisibilitySystem {}

impl VisibilitySystem {
    /// Refreshes every dirty viewshed from the entity's position and, where
    /// the entity is the player, shows the fresh view on the map. Clean
    /// viewsheds are not computed again, and a revealed tile stays revealed.
    pub fn run(&self, map: &mut GameMap, world: &mut World)
        requires
            old(map).wf(),
            old(world).wf(*old(map)),
        ensures
            final(map).wf(),
            final(world).wf(*final(map)),
            views_refreshed(
                Stage { map: *old(map), world: *old(world) },
                Stage { map: *final(map), world: *final(world) },
            ),
    {
        let n = world.slots.len();
        let mut i: usize = 0;
        while i < n
            invariant
                i <= n,
                n == world.len(),
                n == old(world).len(),
                old(map).wf(),
                old(world).wf(*old(map)),
                map.wf(),
                map.same_but_sight(*old(map)),
                forall|e: int|
                    0 <= e < i ==> refreshed(
                        old(world).slots@[e],
                        #[trigger] world.slots@[e],
                        *old(map),
                    ),
                forall|e: int| i <= e < n ==> #[trigger] world.slots@[e] == old(world).slots@[e],
                forall|t: int|
                    0 <= t < old(map).tile_count() && old(map).revealed_tiles@[t]
                        ==> #[trigger] map.revealed_tiles@[t],
                forall|e: int|
                    0 <= e < i && (#[trigger] old(world).slots@[e]).is_player() && needs_refresh(
                        old(world).slots@[e],
                    ) ==> shows(*map, *old(map), world.slots@[e].viewshed->0.visible_tiles@),
                (forall|e: int|
                    0 <= e < i ==> !((#[trigger] old(world).slots@[e]).is_player() && needs_refresh(
                        old(world).slots@[e],
                    ))) ==> map.visible_tiles == old(map).visible_tiles && map.revealed_tiles
                    == old(map).revealed_tiles,
            decreases n - i,
        {
            let ghost slots_before = world.slots@;
            let ghost map_before = *map;
            assert(world.slots@[i as int] == old(world).slots@[i as int]);
            assert(old(world).slots@[i as int].fits(*old(map)));
            let mut viewer: Option<(Position, i32)> = None;
            if world.slots[i].alive {
                if let Some(pos) = world.slots[i].position {
                    if let Some(v) = &world.slots[i].viewshed {
                        if v.dirty {
                            viewer = Some((pos, v.range));
                        }
                    }
                }
            }
            if let Some((pos, range)) = viewer {
                let seen = field_of_view(GridPoint::new(pos.x, pos.y), range, map);
                let cells = clip_to_map(&seen, map);
                if world.slots[i].player.is_some() {
                    proof {
                        assert forall|k: int| 0 <= k < cells@.len() implies map.in_bounds(
                            (#[trigger] cells@[k]).x as int,
                            cells@[k].y as int,
                        ) by {
                            assert(cells@.contains(cells@[k]));
                        }
                        assert forall|e: int| 0 <= e < i implies !((#[trigger] old(
                            world,
                        ).slots@[e]).is_player() && needs_refresh(old(world).slots@[e])) by {
                            if old(world).slots@[e].is_player() {
                                assert(old(world).slots@[i as int].is_player());
                            }
                        }
                    }
                    show_to_player(map, &cells);
                }
                world.slots[i].viewshed = Some(Viewshed { visible_tiles: cells, range, dirty: false });
                proof {
                    assert(refreshed(old(world).slots@[i as int], world.slots@[i as int], *old(map)));
                    assert forall|e: int|
                        0 <= e < i + 1 && (#[trigger] old(world).slots@[e]).is_player()
                            && needs_refresh(old(world).slots@[e]) implies shows(
                        *map,
                        *old(map),
                        world.slots@[e].viewshed->0.visible_tiles@,
                    ) by {
                        if e < i {
                            assert(world.slots@[e] == slots_before[e]);
                            if old(world).slots@[i as int].is_player() {
                                assert(false);
                            }
                        }
                    }
                }
            } else {
                assert(!needs_refresh(old(world).slots@[i as int]));
            }
            i += 1;
        }
        proof {
            assert forall|e: int| 0 <= e < world.len() implies (#[trigger] world.slots@[e]).fits(
                *map,
            ) by {
                assert(refreshed(old(world).slots@[e], world.slots@[e], *old(map)));
                assert(old(world).slots@[e].fits(*old(map)));
            }
            assert forall|a: int, b: int|
                0 <= a < world.len() && 0 <= b < world.len() && (#[trigger] world.slots@[a]).is_player()
                    && (#[trigger] world.slots@[b]).is_player() implies a == b by {
                assert(refreshed(old(world).slots@[a], world.slots@[a], *old(map)));
                assert(refreshed(old(world).slots@[b], world.slots@[b], *old(map)));
                assert(old(world).slots@[a].is_player());
                assert(old(world).slots@[b].is_player());
            }
            assert(map.visible_tiles@.len() == old(map).visible_tiles@.len());
            assert(map.revealed_tiles@.len() == old(map).revealed_tiles@.len());
            let before = Stage { map: *old(map), world: *old(world) };
            let after = Stage { map: *map, world: *world };
            assert(after.map.same_but_sight(before.map));
            assert(after.world.len() == before.world.len());
            assert forall|e: int| 0 <= e < before.world.len() implies refreshed(
                before.world.slots@[e],
                #[trigger] after.world.slots@[e],
                before.map,
            ) by {}
            assert forall|i: int|
                0 <= i < before.map.tile_count() && before.map.revealed_tiles@[i]
                    implies #[trigger] after.map.revealed_tiles@[i] by {}
            assert forall|e: int|
                0 <= e < before.world.len() && (#[trigger] before.world.slots@[e]).is_player()
                    && needs_refresh(before.world.slots@[e]) implies shows(
                after.map,
                before.map,
                after.world.slots@[e].viewshed->0.visible_tiles@,
            ) by {}
            assert((forall|e: int|
                0 <= e < before.world.len() ==> !((#[trigger] before.world.slots@[e]).is_player()
                    && needs_refresh(before.world.slots@[e]))) ==> after.map.visible_tiles
                == before.map.visible_tiles && after.map.revealed_tiles == before.map.revealed_tiles);
            assert(views_refreshed(before, after));
        }
    }
}

} // verus!
