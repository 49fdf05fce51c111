//! The entities of a new game: the player in the first room and one monster
//! in every other room.

use vstd::prelude::*;
use bracket_lib::prelude::RandomNumberGenerator;
use crate::components::{
    BlocksTile, Color, CombatStats, Monster, Name, Player, Position, Renderable, Viewshed,
};
use crate::generator::{generated, MAX_SIZE};
use crate::map::GameMap;
use crate::rng::{dice_roll, rng_state, roll_dice, seeded_rng, seeded_state};
use crate::state::{RunState, State};
use crate::world::{Slot, World};

verus! {

/// How far the player and the monsters look.
pub const VIEW_RANGE: i32 = 8;

/// The glyph of the player, `@`.
pub const PLAYER_GLYPH: u16 = 64;

/// The glyph of a goblin, `g`.
pub const GOBLIN_GLYPH: u16 = 103;

/// The glyph of an orc, `o`.
pub const ORC_GLYPH: u16 = 111;

/// Whether `slot` is that of a fresh player on cell `(x, y)`.
pub open spec fn is_player_at(slot: Slot, x: int, y: int) -> bool {
    &&& slot.alive
    &&& slot.position == Some(Position { x: x as i32, y: y as i32 })
    &&& slot.renderable == Some(
        Renderable {
            glyph: PLAYER_GLYPH,
            fg: Color { r: 255, g: 255, b: 255 },
            bg: Color { r: 0, g: 0, b: 0 },
        },
    )
    &&& slot.viewshed is Some
    &&& slot.viewshed->0.visible_tiles@.len() == 0
    &&& slot.viewshed->0.range == VIEW_RANGE
    &&& slot.viewshed->0.dirty
    &&& slot.combat_stats == Some(CombatStats { max_hp: 30, hp: 30, defense: 2, power: 5 })
    &&& slot.wants_to_melee is None
    &&& slot.suffer_damage is None
    &&& slot.player is Some
    &&& slot.monster is None
    &&& slot.blocks_tile is None
    &&& slot.name is Some
    &&& slot.name->0.name@ == "Player"@
}

/// Whether `slot` is that of a fresh monster on cell `(x, y)`: a goblin where
/// the die showed one, an orc where it showed two.
pub open spec fn is_monster_at(slot: Slot, x: int, y: int, roll: int) -> bool {
    &&& slot.alive
    &&& slot.position == Some(Position { x: x as i32, y: y as i32 })
    &&& slot.renderable == Some(
        Renderable {
            glyph: if roll == 1 {
                GOBLIN_GLYPH
            } else {
                ORC_GLYPH
            },
            fg: Color { r: 255, g: 0, b: 0 },
            bg: Color { r: 0, g: 0, b: 0 },
        },
    )
    &&& slot.viewshed is Some
    &&& slot.viewshed->0.visible_tiles@.len() == 0
    &&& slot.viewshed->0.range == VIEW_RANGE
    &&& slot.viewshed->0.dirty
    &&& slot.combat_stats == Some(CombatStats { max_hp: 16, hp: 16, defense: 1, power: 4 })
    &&& slot.wants_to_melee is None
    &&& slot.suffer_damage is None
    &&& slot.player is None
    &&& slot.monster is Some
    &&& slot.blocks_tile is Some
    &&& slot.name is Some
    &&& slot.name->0.name@ == if roll == 1 {
        "Goblin"@
    } else {
        "Orc"@
    }
}

/// The state of a generator after `k` rolls of a two-sided die.
pub open spec fn state_after_rolls(state: Seq<u32>, k: nat) -> Seq<u32>
    decreases k,
{
    if k == 0 {
        state
    } else {
        dice_roll(state_after_rolls(state, (k - 1) as nat), 1, 2).1
    }
}

/// Whether `world` is the world of a new game on `map`: the player stands in
/// the center of the first room, and in the center of every other room stands
/// a monster whose kind the rolls of a generator in `state` decide, one roll
/// per room.
pub open spec fn is_populated(world: World, map: GameMap, state: Seq<u32>) -> bool {
    &&& world.len() == map.rooms@.len()
    &&& world.len() >= 1
    &&& is_player_at(world.slots@[0], map.rooms@[0].center_x(), map.rooms@[0].center_y())
    &&& forall|k: int|
        1 <= k < world.len() ==> is_monster_at(
            #[trigger] world.slots@[k],
            map.rooms@[k].center_x(),
            map.rooms@[k].center_y(),
            dice_roll(state_after_rolls(state, (k - 1) as nat), 1, 2).0,
        )
}

/// The slot of a fresh player on cell `(x, y)`.
pub fn player(x: i32, y: i32) -> (slot: Slot)
    ensures
        is_player_at(slot, x as int, y as int),
{
    let mut slot = Slot::new();
    slot.position = Some(Position { x, y });
    slot.renderable = Some(
        Renderable {
            glyph: PLAYER_GLYPH,
            fg: Color { r: 255, g: 255, b: 255 },
            bg: Color { r: 0, g: 0, b: 0 },
        },
    );
    slot.viewshed = Some(Viewshed::new(VIEW_RANGE));
    slot.player = Some(Player {  });
    slot.name = Some(Name { name: "Player".to_owned() });
    slot.combat_stats = Some(CombatStats { max_hp: 30, hp: 30, defense: 2, power: 5 });
    slot
}

/// The slot of a fresh monster on cell `(x, y)`, of the kind that `roll`
/// decides.
pub fn monster(x: i32, y: i32, roll: i32) -> (slot: Slot)
    ensures
        is_monster_at(slot, x as int, y as int, roll as int),
{
    let mut slot = Slot::new();
    slot.position = Some(Position { x, y });
    slot.renderable = Some(
        Renderable {
            glyph: if roll == 1 {
                GOBLIN_GLYPH
            } else {
                ORC_GLYPH
            },
            fg: Color { r: 255, g: 0, b: 0 },
            bg: Color { r: 0, g: 0, b: 0 },
        },
    );
    slot.viewshed = Some(Viewshed::new(VIEW_RANGE));
    slot.monster = Some(Monster {  });
    slot.name = Some(
        Name {
            name: if roll == 1 {
                "Goblin".to_owned()
            } else {
                "Orc".to_owned()
            },
        },
    );
    slot.blocks_tile = Some(BlocksTile {  });
    slot.combat_stats = Some(CombatStats { max_hp: 16, hp: 16, defense: 1, power: 4 });
    slot
}

/// Creates the entities of a new game on a map with at least one room: the
/// player in the first room and a monster in every other.
pub fn spawn_world(map: &GameMap, rng: &mut RandomNumberGenerator) -> (world: World)
    requires
        map.wf(),
        map.rooms@.len() >= 1,
        map.rooms_on_grid(),
    ensures
        world.wf(*map),
        is_populated(world, *map, rng_state(*old(rng))),
        rng_state(*final(rng)) == state_after_rolls(
            rng_state(*old(rng)),
            (map.rooms@.len() - 1) as nat,
        ),
{
    let ghost state0 = rng_state(*rng);
    let mut world = World::new();
    let center = map.rooms[0].center();
    world.create_entity(player(center.x, center.y));
    let mut k: usize = 1;
    while k < map.rooms.len()
        invariant
            1 <= k <= map.rooms@.len(),
            map.wf(),
            map.rooms_on_grid(),
            world.len() == k,
            is_player_at(world.slots@[0], map.rooms@[0].center_x(), map.rooms@[0].center_y()),
            forall|j: int|
                1 <= j < k ==> is_monster_at(
                    #[trigger] world.slots@[j],
                    map.rooms@[j].center_x(),
                    map.rooms@[j].center_y(),
                    dice_roll(state_after_rolls(state0, (j - 1) as nat), 1, 2).0,
                ),
            rng_state(*rng) == state_after_rolls(state0, (k - 1) as nat),
        decreases map.rooms@.len() - k,
    {
        let at = map.rooms[k].center();
        let roll = roll_dice(rng, 1, 2);
        let ghost before = world.slots@;
        world.create_entity(monster(at.x, at.y, roll));
        proof {
            assert forall|j: int| 1 <= j < k + 1 implies is_monster_at(
                #[trigger] world.slots@[j],
                map.rooms@[j].center_x(),
                map.rooms@[j].center_y(),
                dice_roll(state_after_rolls(state0, (j - 1) as nat), 1, 2).0,
            ) by {
                if j < k {
                    assert(world.slots@[j] == before[j]);
                }
            }
            assert(world.slots@[0] == before[0]);
        }
        k += 1;
    }
    proof {
        assert forall|e: int| 0 <= e < world.len() implies (#[trigger] world.slots@[e]).fits(*map) by {
            let room = map.rooms@[e];
            assert(0 <= room.center_x() < map.width && 0 <= room.center_y() < map.height);
        }
    }
    world
}

impl State {
    /// A new game on the dungeon that belongs to `seed`. The map and the
    /// entities are a function of the size and the seed.
    pub fn new_game(width: i32, height: i32, seed: u64) -> (state: State)
        requires
            MAX_SIZE < width,
            MAX_SIZE < height,
            width * height <= i32::MAX,
        ensures
            state.wf(),
            state.runstate == RunState::PreRun,
            state.map.width == width,
            state.map.height == height,
            state.map.is_dungeon(),
            state.map.is_unexplored(),
            state.map.layout() == generated(width as int, height as int, seed),
            is_populated(
                state.world,
                state.map,
                crate::generator::attempts(
                    crate::generator::blank_layout(width as int, height as int),
                    seeded_state(seed),
                    width as int,
                    height as int,
                    crate::generator::MAX_ROOMS as nat,
                ).1,
            ),
    {
        let mut rng = seeded_rng(seed);
        let map = GameMap::new_map_rooms_and_corridors(width, height, &mut rng);
        let world = spawn_world(&map, &mut rng);
        State::new(map, world)
    }
}

} // verus!
