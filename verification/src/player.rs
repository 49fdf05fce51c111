//! The player's action: a command of the input collaborator turned into a
//! move or an attack.

use vstd::prelude::*;
use crate::components::{Entity, Position, WantsToMelee};
use crate::geometry::GridPoint;
use crate::map::GameMap;
use crate::monster_ai_system::{tile_of, with_attack, with_move};
use crate::state::RunState;
use crate::world::{Slot, Stage, World};

verus! {

/// What the input collaborator reports: a move in one of eight directions, or
/// nothing that the game recognises.
#[derive(Clone, Copy, Debug, PartialEq, Eq, Structural)]
pub enum Command {
    MoveNorth,
    MoveSouth,
    MoveEast,
    MoveWest,
    MoveNorthEast,
    MoveNorthWest,
    MoveSouthEast,
    MoveSouthWest,
    Idle,
}

/// A move by `dx` columns and `dy` rows.
#[derive(Clone, Copy, Debug, PartialEq, Eq, Structural)]
pub struct Delta {
    pub dx: i32,
    pub dy: i32,
}

impl Command {
    /// The move that the command asks for. North is up, toward row zero.
    pub open spec fn delta_spec(self) -> Option<Delta> {
        match self {
            Command::MoveNorth => Some(Delta { dx: 0, dy: -1i32 }),
            Command::MoveSouth => Some(Delta { dx: 0, dy: 1 }),
            Command::MoveEast => Some(Delta { dx: 1, dy: 0 }),
            Command::MoveWest => Some(Delta { dx: -1i32, dy: 0 }),
            Command::MoveNorthEast => Some(Delta { dx: 1, dy: -1i32 }),
            Command::MoveNorthWest => Some(Delta { dx: -1i32, dy: -1i32 }),
            Command::MoveSouthEast => Some(Delta { dx: 1, dy: 1 }),
            Command::MoveSouthWest => Some(Delta { dx: -1i32, dy: 1 }),
            Command::Idle => None,
        }
    }

    /// The move that the command asks for.
    pub fn delta(self) -> (d: Option<Delta>)
        ensures
            d == self.delta_spec(),
    {
        match self {
            Command::MoveNorth => Some(Delta { dx: 0, dy: -1 }),
            Command::MoveSouth => Some(Delta { dx: 0, dy: 1 }),
            Command::MoveEast => Some(Delta { dx: 1, dy: 0 }),
            Command::MoveWest => Some(Delta { dx: -1, dy: 0 }),
            Command::MoveNorthEast => Some(Delta { dx: 1, dy: -1 }),
            Command::MoveNorthWest => Some(Delta { dx: -1, dy: -1 }),
            Command::MoveSouthEast => Some(Delta { dx: 1, dy: 1 }),
            Command::MoveSouthWest => Some(Delta { dx: -1, dy: 1 }),
            Command::Idle => None,
        }
    }
}

/// Whether `t` can be attacked: it is alive and has combat stats.
pub open spec fn attackable(slots: Seq<Slot>, t: Entity) -> bool {
    t.id < slots.len() && slots[t.id as int].alive && slots[t.id as int].combat_stats is Some
}

/// The first entity of `content` that can be attacked.
pub open spec fn first_target(content: Seq<Entity>, slots: Seq<Slot>) -> Option<Entity>
    decreases content.len(),
{
    if content.len() == 0 {
        None
    } else if attackable(slots, content[0]) {
        Some(content[0])
    } else {
        first_target(content.drop_first(), slots)
    }
}

/// How the player's slot and the map change when the player, standing on the
/// grid with a viewshed, tries the move to `(x, y)`. Off the grid there is
/// nothing to do. Where someone on the tile can be attacked, the player
/// declares the attack on the first such entity and stays. Else the player
/// enters the tile unless it is blocked, and its viewshed is marked dirty; a
/// player that blocks movement frees the tile it left and blocks the one it
/// entered.
pub open spec fn player_tried(before: Stage, after: Stage, p: Entity, x: int, y: int) -> bool {
    let was = before.world.slots@[p.id as int];
    let is = after.world.slots@[p.id as int];
    let dest = before.map.idx_of(x, y);
    if !before.map.in_bounds(x, y) {
        after == before
    } else {
        match first_target(before.map.tile_content@[dest]@, before.world.slots@) {
            Some(t) => is == with_attack(was, t) && after.map == before.map,
            None => if before.map.blocked@[dest] {
                after == before
            } else {
                &&& is == with_move(was, before.map, dest)
                &&& after.map.blocked@ == if was.blocks_tile is Some {
                    before.map.blocked@.update(tile_of(was, before.map), false).update(dest, true)
                } else {
                    before.map.blocked@
                }
            },
        }
    }
}

/// How a move of the player by `(dx, dy)` changes a stage. Only the player's
/// slot and the blocked flags can change; without a player that stands
/// somewhere and has a viewshed, nothing does.
pub open spec fn player_acted(before: Stage, after: Stage, dx: int, dy: int) -> bool {
    &&& after.world.len() == before.world.len()
    &&& after.map.same_but_blocked(before.map)
    &&& before.world.has_no_player() ==> after == before
    &&& forall|p: Entity| #[trigger]
        before.world.is_the_player(p) ==> {
            let was = before.world.slots@[p.id as int];
            &&& forall|o: int|
                0 <= o < before.world.len() && o != p.id ==> #[trigger] after.world.slots@[o]
                    == before.world.slots@[o]
            &&& if was.position is Some && was.viewshed is Some {
                player_tried(before, after, p, was.position->0.x + dx, was.position->0.y + dy)
            } else {
                after == before
            }
        }
}

/// The first entity on tile `idx` that can be attacked.
fn find_target(map: &GameMap, world: &World, idx: usize) -> (r: Option<Entity>)
    requires
        idx < map.tile_content@.len(),
    ensures
        r == first_target(map.tile_content@[idx as int]@, world.slots@),
{
    let content = &map.tile_content[idx];
    let mut k: usize = 0;
    assert(content@.skip(0) == content@);
    while k < content.len()
        invariant
            k <= content@.len(),
            idx < map.tile_content@.len(),
            content@ == map.tile_content@[idx as int]@,
            first_target(content@, world.slots@) == first_target(content@.skip(k as int), world.slots@),
        decreases content@.len() - k,
    {
        let t = content[k];
        proof {
            assert(content@.skip(k as int)[0] == t);
            assert(content@.skip(k as int).drop_first() == content@.skip(k as int + 1));
        }
        if t.id < world.slots.len() && world.slots[t.id].alive && world.slots[t.id].combat_stats.is_some() {
            assert(attackable(world.slots@, t));
            assert(first_target(content@.skip(k as int), world.slots@) == Some(t));
            return Some(t);
        }
        assert(!attackable(world.slots@, t));
        assert(first_target(content@.skip(k as int), world.slots@) == first_target(
            content@.skip(k as int + 1),
            world.slots@,
        ));
        k += 1;
    }
    assert(content@.skip(k as int).len() == 0);
    None
}

/// Moves the player by `(delta_x, delta_y)`, or has it attack who stands in
/// the way.
pub fn try_move_player(delta_x: i32, delta_y: i32, map: &mut GameMap, world: &mut World)
    requires
        old(map).wf(),
        old(world).wf(*old(map)),
    ensures
        final(map).wf(),
        final(world).wf(*final(map)),
        player_acted(
            Stage { map: *old(map), world: *old(world) },
            Stage { map: *final(map), world: *final(world) },
            delta_x as int,
            delta_y as int,
        ),
{
    let player = match world.player() {
        Some(p) => p,
        None => {
            assert forall|p: Entity| #[trigger] world.is_the_player(p) implies false by {
                assert(world.slots@[p.id as int].is_player());
            }
            return ;
        },
    };
    assert forall|p: Entity| #[trigger] world.is_the_player(p) implies p == player by {
        assert(world.slots@[p.id as int].is_player());
        assert(world.slots@[player.id as int].is_player());
    }
    let ghost before = Stage { map: *map, world: *world };
    let ghost was = world.slots@[player.id as int];
    assert(was.fits(*map));
    let e = player.id;
    let pos = match world.slots[e].position {
        Some(p) => p,
        None => {
            return ;
        },
    };
    if world.slots[e].viewshed.is_none() {
        return ;
    }
    let x: i64 = pos.x as i64 + delta_x as i64;
    let y: i64 = pos.y as i64 + delta_y as i64;
    if x < 0 || x >= map.width as i64 || y < 0 || y >= map.height as i64 {
        return ;
    }
    let from = map.point2d_to_index(GridPoint::new(pos.x, pos.y));
    let to = GridPoint::new(x as i32, y as i32);
    let dest = map.point2d_to_index(to);
    match find_target(map, world, dest) {
        Some(t) => {
            world.slots[e].wants_to_melee = Some(WantsToMelee { target: t });
        },
        None => {
            if map.blocked[dest] {
                return ;
            }
            world.slots[e].position = Some(Position { x: to.x, y: to.y });
            if let Some(v) = &mut world.slots[e].viewshed {
                v.dirty = true;
            }
            if world.slots[e].blocks_tile.is_some() {
                map.blocked[from] = false;
                map.blocked[dest] = true;
            }
            proof {
                map.lemma_idx_in_range(x as int, y as int);
                assert(before.map.cell_of(dest as int) == to);
                assert(world.slots@[e as int] == with_move(was, before.map, dest as int));
            }
        },
    }
    proof {
        let after = Stage { map: *map, world: *world };
        assert(player_tried(before, after, player, x as int, y as int));
        assert forall|a: int| 0 <= a < world.len() implies (#[trigger] world.slots@[a]).fits(*map) by {
            if a != e {
                assert(world.slots@[a] == old(world).slots@[a]);
            }
            assert(old(world).slots@[a].fits(*old(map)));
        }
        assert forall|a: int, b: int|
            0 <= a < world.len() && 0 <= b < world.len() && (#[trigger] world.slots@[a]).is_player() && (
            #[trigger] world.slots@[b]).is_player() implies a == b by {
            assert(old(world).slots@[a].is_player());
            assert(old(world).slots@[b].is_player());
        }
    }
}

/// Applies a command to the player and says whose turn follows: the player's
/// turn after a move command, whatever came of the move, and more waiting
/// after anything else.
pub fn player_input(map: &mut GameMap, world: &mut World, command: Command) -> (next: RunState)
    requires
        old(map).wf(),
        old(world).wf(*old(map)),
    ensures
        final(map).wf(),
        final(world).wf(*final(map)),
        match command.delta_spec() {
            Some(d) => next == RunState::PlayerTurn && player_acted(
                Stage { map: *old(map), world: *old(world) },
                Stage { map: *final(map), world: *final(world) },
                d.dx as int,
                d.dy as int,
            ),
            None => next == RunState::AwaitingInput && *final(map) == *old(map) && *final(world)
                == *old(world),
        },
{
    match command.delta() {
        Some(d) => {
            try_move_player(d.dx, d.dy, map, world);
            RunState::PlayerTurn
        },
        None => RunState::AwaitingInput,
    }
}

} // verus!
