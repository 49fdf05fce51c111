//! The spatial index: which tiles are blocked and who stands on each tile.

use vstd::prelude::*;
use crate::components::Entity;
use crate::geometry::GridPoint;
use crate::map::{GameMap, TileType};
use crate::world::{Slot, Stage, World};

verus! {

/// Whether the entity of `slot` stands on tile `idx` of `map`.
pub open spec fn occupies(slot: Slot, map: GameMap, idx: int) -> bool {
    slot.alive && slot.position is Some && map.idx_of(
        slot.position->0.x as int,
        slot.position->0.y as int,
    ) == idx
}

/// Whether one of the first `upto` entities stands on tile `idx` and blocks
/// movement.
pub open spec fn has_blocker(slots: Seq<Slot>, map: GameMap, idx: int, upto: int) -> bool {
    exists|e: int|
        0 <= e < upto && occupies(#[trigger] slots[e], map, idx) && slots[e].blocks_tile is Some
}

/// Those of the first `upto` entities that stand on tile `idx`, in the order
/// of their identities.
pub open spec fn occupants(slots: Seq<Slot>, map: GameMap, idx: int, upto: int) -> Seq<Entity>
    decreases upto,
{
    if upto <= 0 {
        Seq::empty()
    } else {
        let earlier = occupants(slots, map, idx, upto - 1);
        if occupies(slots[upto - 1], map, idx) {
            earlier.push(Entity { id: (upto - 1) as usize })
        } else {
            earlier
        }
    }
}

/// Whether the index of `map` is that of `world`: a tile is blocked if and
/// only if it is a wall or a blocking entity stands on it, and its content
/// lists the entities that stand on it.
pub open spec fn is_indexed(map: GameMap, world: World) -> bool {
    &&& forall|i: int|
        0 <= i < map.tile_count() ==> #[trigger] map.blocked@[i] == (map.tiles@[i]
            == TileType::Wall || has_blocker(world.slots@, map, i, world.len()))
    &&& forall|i: int|
        0 <= i < map.tile_count() ==> (#[trigger] map.tile_content@[i])@ == occupants(
            world.slots@,
            map,
            i,
            world.len(),
        )
}

/// How the spatial index changes a stage: the map is indexed afresh, and
/// nothing else changes.
pub open spec fn reindexed(before: Stage, after: Stage) -> bool {
    &&& after.world == before.world
    &&& after.map.same_but_index(before.map)
    &&& is_indexed(after.map, after.world)
}

/// The spatial index.
pub struct MapIndexingSystem {}

impl MapIndexingSystem {
    /// Rebuilds the index from nothing: earlier blocked flags and contents
    /// leave no trace.
    pub fn run(&self, map: &mut GameMap, world: &World)
        requires
            old(map).wf(),
            world.wf(*old(map)),
        ensures
            final(map).wf(),
            final(map).same_but_index(*old(map)),
            is_indexed(*final(map), *world),
    {
        map.populate_blocked();
        map.clear_content_index();
        let n = world.slots.len();
        let ghost count = map.tile_count();
        let mut e: usize = 0;
        while e < n
            invariant
                e <= n,
                n == world.len(),
                count == map.tile_count(),
                map.wf(),
                world.wf(*old(map)),
                map.same_but_index(*old(map)),
                forall|i: int|
                    0 <= i < count ==> #[trigger] map.blocked@[i] == (map.tiles@[i] == TileType::Wall
                        || has_blocker(world.slots@, *map, i, e as int)),
                forall|i: int|
                    0 <= i < count ==> (#[trigger] map.tile_content@[i])@ == occupants(
                        world.slots@,
                        *map,
                        i,
                        e as int,
                    ),
            decreases n - e,
        {
            let ghost before = *map;
            assert(world.slots@[e as int].fits(*old(map)));
            if world.slots[e].alive {
                if let Some(position) = world.slots[e].position {
                    let idx = map.point2d_to_index(GridPoint::new(position.x, position.y));
                    if world.slots[e].blocks_tile.is_some() {
                        map.blocked[idx] = true;
                    }
                    map.tile_content[idx].push(Entity { id: e });
                }
            }
            proof {
                assert forall|i: int| 0 <= i < count implies #[trigger] map.blocked@[i] == (
                map.tiles@[i] == TileType::Wall || has_blocker(
                    world.slots@,
                    *map,
                    i,
                    e as int + 1,
                )) by {
                    assert(before.blocked@[i] == (before.tiles@[i] == TileType::Wall || has_blocker(
                        world.slots@,
                        before,
                        i,
                        e as int,
                    )));
                    if has_blocker(world.slots@, before, i, e as int) {
                        let b = choose|b: int|
                            0 <= b < e && occupies(#[trigger] world.slots@[b], before, i)
                                && world.slots@[b].blocks_tile is Some;
                        assert(occupies(world.slots@[b], *map, i));
                    }
                    if has_blocker(world.slots@, *map, i, e as int + 1) {
                        let b = choose|b: int|
                            0 <= b < e + 1 && occupies(#[trigger] world.slots@[b], *map, i)
                                && world.slots@[b].blocks_tile is Some;
                        if b < e {
                            assert(occupies(world.slots@[b], before, i));
                        }
                    }
                    if occupies(world.slots@[e as int], *map, i) && world.slots@[e as int].blocks_tile is Some {
                        assert(has_blocker(world.slots@, *map, i, e as int + 1));
                    }
                }
                assert forall|i: int| 0 <= i < count implies (#[trigger] map.tile_content@[i])@
                    == occupants(world.slots@, *map, i, e as int + 1) by {
                    assert(before.tile_content@[i]@ == occupants(world.slots@, before, i, e as int));
                    lemma_occupants_ignore_index(world.slots@, before, *map, i, e as int);
                }
            }
            e += 1;
        }
    }
}

/// Who stands where depends on the width of the map alone.
pub proof fn lemma_occupants_ignore_index(
    slots: Seq<Slot>,
    a: GameMap,
    b: GameMap,
    idx: int,
    upto: int,
)
    requires
        a.width == b.width,
    ensures
        occupants(slots, a, idx, upto) == occupants(slots, b, idx, upto),
    decreases upto,
{
    if upto > 0 {
        lemma_occupants_ignore_index(slots, a, b, idx, upto - 1);
    }
}

} // verus!
