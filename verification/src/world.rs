//! The entity store: one slot of optional records per entity.

use vstd::prelude::*;
use crate::components::{
    BlocksTile, CombatStats, Entity, Monster, Name, Player, Position, Renderable, SufferDamage,
    Viewshed, WantsToMelee,
};
use crate::geometry::GridPoint;
use crate::map::GameMap;

verus! {

/// The farthest that a viewshed may look: the field of view squares twice
/// the range in 32-bit arithmetic.
pub const MAX_VIEW_RANGE: i32 = 23170;

/// The records of one entity. An entity has a capability when the record is
/// there.
pub struct Slot {
    pub alive: bool,
    pub position: Option<Position>,
    pub renderable: Option<Renderable>,
    pub viewshed: Option<Viewshed>,
    pub combat_stats: Option<CombatStats>,
    pub wants_to_melee: Option<WantsToMelee>,
    pub suffer_damage: Option<SufferDamage>,
    pub player: Option<Player>,
    pub monster: Option<Monster>,
    pub blocks_tile: Option<BlocksTile>,
    pub name: Option<Name>,
}

impl Slot {
    /// No record is attached.
    pub open spec fn is_bare(self) -> bool {
        &&& self.position is None
        &&& self.renderable is None
        &&& self.viewshed is None
        &&& self.combat_stats is None
        &&& self.wants_to_melee is None
        &&& self.suffer_damage is None
        &&& self.player is None
        &&& self.monster is None
        &&& self.blocks_tile is None
        &&& self.name is None
    }

    /// The slot of a living entity without records.
    pub fn new() -> (slot: Slot)
        ensures
            slot.alive,
            slot.is_bare(),
    {
        Slot {
            alive: true,
            position: None,
            renderable: None,
            viewshed: None,
            combat_stats: None,
            wants_to_melee: None,
            suffer_damage: None,
            player: None,
            monster: None,
            blocks_tile: None,
            name: None,
        }
    }

    /// The slot that a removed entity leaves behind.
    pub fn vacant() -> (slot: Slot)
        ensures
            !slot.alive,
            slot.is_bare(),
    {
        let mut slot = Slot::new();
        slot.alive = false;
        slot
    }

    /// The entity stands on cell `(x, y)`.
    pub open spec fn stands_at(self, x: int, y: int) -> bool {
        self.alive && self.position is Some && self.position->0.x == x && self.position->0.y == y
    }

    /// The entity is a living player.
    pub open spec fn is_player(self) -> bool {
        self.alive && self.player is Some
    }

    /// Everything but the viewshed is the same in `self` and `other`.
    pub open spec fn same_but_viewshed(self, other: Slot) -> bool {
        &&& self.alive == other.alive
        &&& self.position == other.position
        &&& self.renderable == other.renderable
        &&& self.combat_stats == other.combat_stats
        &&& self.wants_to_melee == other.wants_to_melee
        &&& self.suffer_damage == other.suffer_damage
        &&& self.player == other.player
        &&& self.monster == other.monster
        &&& self.blocks_tile == other.blocks_tile
        &&& self.name == other.name
    }

    /// Whether the slot fits `map`.
    pub fn fits_map(&self, map: &GameMap) -> (r: bool)
        ensures
            r == self.fits(*map),
    {
        if let Some(p) = self.position {
            if p.x < 0 || p.x >= map.width || p.y < 0 || p.y >= map.height {
                return false;
            }
        }
        if let Some(v) = &self.viewshed {
            if v.range < 0 || v.range > MAX_VIEW_RANGE {
                return false;
            }
        }
        self.alive || (self.position.is_none() && self.renderable.is_none()
            && self.viewshed.is_none() && self.combat_stats.is_none()
            && self.wants_to_melee.is_none() && self.suffer_damage.is_none()
            && self.player.is_none() && self.monster.is_none() && self.blocks_tile.is_none()
            && self.name.is_none())
    }

    /// What a map asks of a slot: the entity stands on the grid, its viewshed
    /// has a range within the limit, and a removed entity has no records.
    pub open spec fn fits(self, map: GameMap) -> bool {
        &&& self.position matches Some(p) ==> map.in_bounds(p.x as int, p.y as int)
        &&& self.viewshed matches Some(v) ==> 0 <= v.range <= MAX_VIEW_RANGE
        &&& !self.alive ==> self.is_bare()
    }
}

/// All entities and their records.
pub struct World {
    pub slots: Vec<Slot>,
}

impl World {
    /// The number of slots, those of removed entities included.
    pub open spec fn len(self) -> int {
        self.slots@.len() as int
    }

    /// Every slot fits the map, and at most one living entity is a player.
    pub open spec fn wf(self, map: GameMap) -> bool {
        &&& forall|e: int| 0 <= e < self.len() ==> (#[trigger] self.slots@[e]).fits(map)
        &&& forall|a: int, b: int|
            0 <= a < self.len() && 0 <= b < self.len() && (#[trigger] self.slots@[a]).is_player()
                && (#[trigger] self.slots@[b]).is_player() ==> a == b
    }

    /// Whether `e` names a living entity.
    pub open spec fn is_alive(self, e: Entity) -> bool {
        e.id < self.len() && self.slots@[e.id as int].alive
    }

    /// Whether `e` is the player: the first living entity with the player tag.
    pub open spec fn is_the_player(self, e: Entity) -> bool {
        &&& e.id < self.len()
        &&& self.slots@[e.id as int].is_player()
        &&& forall|k: int| 0 <= k < e.id ==> !(#[trigger] self.slots@[k]).is_player()
    }

    /// No living entity carries the player tag.
    pub open spec fn has_no_player(self) -> bool {
        forall|k: int| 0 <= k < self.len() ==> !(#[trigger] self.slots@[k]).is_player()
    }

    /// In a well-formed world that has a player, some entity is the player.
    pub proof fn lemma_the_player_exists(self, map: GameMap) -> (p: Entity)
        requires
            self.wf(map),
            !self.has_no_player(),
        ensures
            self.is_the_player(p),
    {
        let k = choose|k: int| 0 <= k < self.len() && (#[trigger] self.slots@[k]).is_player();
        assert(self.slots.len() == self.slots@.len());
        let p = Entity { id: k as usize };
        assert forall|j: int| 0 <= j < k implies !(#[trigger] self.slots@[j]).is_player() by {
            if self.slots@[j].is_player() {
                assert(j == k);
            }
        }
        p
    }

    /// Whether the world is well formed on `map`.
    pub fn is_well_formed(&self, map: &GameMap) -> (r: bool)
        ensures
            r == self.wf(*map),
    {
        let mut players: usize = 0;
        let ghost mut first: int = -1;
        let mut e: usize = 0;
        while e < self.slots.len()
            invariant
                e <= self.slots@.len(),
                forall|o: int| 0 <= o < e ==> (#[trigger] self.slots@[o]).fits(*map),
                players <= 1,
                players == 0 ==> forall|o: int| 0 <= o < e ==> !(#[trigger] self.slots@[o]).is_player(),
                players == 1 ==> 0 <= first < e && self.slots@[first].is_player() && forall|o: int|
                    0 <= o < e && (#[trigger] self.slots@[o]).is_player() ==> o == first,
            decreases self.slots@.len() - e,
        {
            if !self.slots[e].fits_map(map) {
                assert(!self.slots@[e as int].fits(*map));
                return false;
            }
            if self.slots[e].alive && self.slots[e].player.is_some() {
                if players == 1 {
                    assert(self.slots@[first].is_player() && self.slots@[e as int].is_player());
                    return false;
                }
                players = 1;
                proof {
                    first = e as int;
                }
            }
            e += 1;
        }
        true
    }

    /// A world without entities.
    pub fn new() -> (world: World)
        ensures
            world.len() == 0,
    {
        World { slots: Vec::new() }
    }

    /// Adds an entity with the given records and returns its identity.
    pub fn create_entity(&mut self, slot: Slot) -> (e: Entity)
        ensures
            e.id == old(self).len(),
            final(self).slots@ == old(self).slots@.push(slot),
    {
        let id = self.slots.len();
        self.slots.push(slot);
        Entity { id }
    }

    /// Whether `e` names a living entity.
    pub fn alive(&self, e: Entity) -> (r: bool)
        ensures
            r == self.is_alive(e),
    {
        e.id < self.slots.len() && self.slots[e.id].alive
    }

    /// The living player: the one entity that carries the player tag. Where
    /// several do, in a world that is not well formed, the first of them.
    pub fn player(&self) -> (r: Option<Entity>)
        ensures
            r matches Some(e) ==> self.is_the_player(e),
            r is None ==> self.has_no_player(),
    {
        let mut i: usize = 0;
        while i < self.slots.len()
            invariant
                i <= self.slots@.len(),
                forall|k: int| 0 <= k < i ==> !(#[trigger] self.slots@[k]).is_player(),
            decreases self.slots@.len() - i,
        {
            if self.slots[i].alive && self.slots[i].player.is_some() {
                return Some(Entity { id: i });
            }
            i += 1;
        }
        None
    }

    /// Where the player stands: the position of the entity that carries the
    /// player tag, if there is one and it has a position.
    pub fn player_position(&self) -> (r: Option<GridPoint>)
        ensures
            r matches Some(p) ==> exists|e: Entity|
                #[trigger] self.is_the_player(e) && self.slots@[e.id as int].stands_at(
                    p.x as int,
                    p.y as int,
                ),
            r is None ==> forall|e: Entity|
                #[trigger] self.is_the_player(e) ==> self.slots@[e.id as int].position is None,
    {
        match self.player() {
            Some(e) => match self.slots[e.id].position {
                Some(p) => Some(GridPoint::new(p.x, p.y)),
                None => {
                    assert forall|o: Entity| #[trigger] self.is_the_player(o) implies self.slots@[o.id as int].position is None by {
                        assert(o.id == e.id);
                    }
                    None
                },
            },
            None => None,
        }
    }
}

/// The map and the world at one moment of a tick.
pub ghost struct Stage {
    pub map: GameMap,
    pub world: World,
}

impl Stage {
    /// The map is well formed and the world fits it.
    pub open spec fn wf(self) -> bool {
        self.map.wf() && self.world.wf(self.map)
    }
}

} // verus!
