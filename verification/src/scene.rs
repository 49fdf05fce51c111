//! The scene that the core hands to a renderer: the tiles that the player
//! knows and the entities that it sees.

use vstd::prelude::*;
use crate::components::{Entity, Position, Renderable};
use crate::geometry::GridPoint;
use crate::map::{GameMap, TileType};
use crate::world::{Slot, World};

verus! {

/// A revealed tile: where it lies, what it is made of, and whether it is in
/// view now or only remembered.
#[derive(Clone, Copy, Debug, PartialEq, Eq, Structural)]
pub struct TileView {
    pub point: GridPoint,
    pub tile: TileType,
    pub visible: bool,
}

/// An entity in view: where it stands and how it is drawn.
#[derive(Clone, Copy, Debug, PartialEq, Eq, Structural)]
pub struct EntityView {
    pub entity: Entity,
    pub position: Position,
    pub renderable: Renderable,
}

/// The views of the revealed tiles among the first `upto`, in the order of
/// the tiles.
pub open spec fn tiles_drawn(map: GameMap, upto: int) -> Seq<TileView>
    decreases upto,
{
    if upto <= 0 {
        Seq::empty()
    } else {
        let earlier = tiles_drawn(map, upto - 1);
        if map.revealed_tiles@[upto - 1] {
            earlier.push(
                TileView {
                    point: map.cell_of(upto - 1),
                    tile: map.tiles@[upto - 1],
                    visible: map.visible_tiles@[upto - 1],
                },
            )
        } else {
            earlier
        }
    }
}

/// Whether the entity is drawn: it is alive, stands on a visible tile, and
/// has a look.
pub open spec fn is_shown(slot: Slot, map: GameMap) -> bool {
    &&& slot.alive
    &&& slot.position is Some
    &&& slot.renderable is Some
    &&& map.visible_tiles@[map.idx_of(slot.position->0.x as int, slot.position->0.y as int)]
}

/// The views of the entities in view among the first `upto`, in the order of
/// the entities.
pub open spec fn entities_drawn(map: GameMap, slots: Seq<Slot>, upto: int) -> Seq<EntityView>
    decreases upto,
{
    if upto <= 0 {
        Seq::empty()
    } else {
        let earlier = entities_drawn(map, slots, upto - 1);
        if is_shown(slots[upto - 1], map) {
            earlier.push(
                EntityView {
                    entity: Entity { id: (upto - 1) as usize },
                    position: slots[upto - 1].position->0,
                    renderable: slots[upto - 1].renderable->0,
                },
            )
        } else {
            earlier
        }
    }
}

/// The tiles to draw: every tile that the player has ever seen, and no other.
pub fn draw_map(map: &GameMap) -> (views: Vec<TileView>)
    requires
        map.wf(),
    ensures
        views@ == tiles_drawn(*map, map.tile_count()),
{
    let mut views: Vec<TileView> = Vec::new();
    let n = map.tiles.len();
    let mut idx: usize = 0;
    while idx < n
        invariant
            idx <= n,
            n == map.tile_count(),
            map.wf(),
            views@ == tiles_drawn(*map, idx as int),
        decreases n - idx,
    {
        if map.revealed_tiles[idx] {
            views.push(
                TileView {
                    point: map.index_to_point2d(idx),
                    tile: map.tiles[idx],
                    visible: map.visible_tiles[idx],
                },
            );
        }
        idx += 1;
    }
    views
}

/// The entities to draw: every entity with a look that stands on a tile in
/// view, and no other.
pub fn draw_entities(map: &GameMap, world: &World) -> (views: Vec<EntityView>)
    requires
        map.wf(),
        world.wf(*map),
    ensures
        views@ == entities_drawn(*map, world.slots@, world.len()),
{
    let mut views: Vec<EntityView> = Vec::new();
    let n = world.slots.len();
    let mut e: usize = 0;
    while e < n
        invariant
            e <= n,
            n == world.len(),
            map.wf(),
            world.wf(*map),
            views@ == entities_drawn(*map, world.slots@, e as int),
        decreases n - e,
    {
        assert(world.slots@[e as int].fits(*map));
        if world.slots[e].alive {
            if let Some(position) = world.slots[e].position {
                if let Some(renderable) = world.slots[e].renderable {
                    let idx = map.point2d_to_index(GridPoint::new(position.x, position.y));
                    if map.visible_tiles[idx] {
                        views.push(EntityView { entity: Entity { id: e }, position, renderable });
                    }
                }
            }
        }
        e += 1;
    }
    views
}

} // verus!
