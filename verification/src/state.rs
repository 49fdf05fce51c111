//! The turn coordinator: whose turn it is and which systems run.

use vstd::prelude::*;
use crate::damage_system::{
    damage_applied, dead_removed, delete_the_dead, lemma_damage_keeps_wf, DamageSystem,
};
use crate::map::GameMap;
use crate::map_indexing_system::{reindexed, MapIndexingSystem};
use crate::melee_combat_system::{lemma_melee_keeps_wf, melee_resolved, MeleeCombatSystem};
use crate::monster_ai_system::{monsters_behaved, MonsterAI};
use crate::player::{player_acted, player_input, Command};
use crate::visibility_system::{views_refreshed, VisibilitySystem};
use crate::world::{Stage, World};

verus! {

/// Whose turn it is.
#[derive(Clone, Copy, Debug, PartialEq, Eq, Structural)]
pub enum RunState {
    AwaitingInput,
    PreRun,
    PlayerTurn,
    MonsterTurn,
}

impl RunState {
    /// The state that follows: the first run and the monsters' turn lead to
    /// waiting for input, waiting ends with a move command, and the player's
    /// turn is followed by the monsters'.
    pub open spec fn next(self, command: Command) -> RunState {
        match self {
            RunState::PreRun => RunState::AwaitingInput,
            RunState::AwaitingInput => if command.delta_spec() is Some {
                RunState::PlayerTurn
            } else {
                RunState::AwaitingInput
            },
            RunState::PlayerTurn => RunState::MonsterTurn,
            RunState::MonsterTurn => RunState::AwaitingInput,
        }
    }
}

/// How one pass of the systems changes a stage: the spatial index is rebuilt,
/// then the views are refreshed, then the monsters behave, if it is their turn,
/// and then combat is resolved: all hits land, the damage is taken, and only
/// then the dead are removed.
pub open spec fn systems_ran(before: Stage, after: Stage, runstate: RunState) -> bool {
    exists|indexed: Stage, seen: Stage, moved: Stage, struck: World, hurt: World|
        #![trigger
            reindexed(before, indexed),
            views_refreshed(indexed, seen),
            monsters_behaved(seen, moved, runstate),
            melee_resolved(moved.world, struck),
            damage_applied(struck, hurt)
        ]
        {
            &&& reindexed(before, indexed)
            &&& views_refreshed(indexed, seen)
            &&& monsters_behaved(seen, moved, runstate)
            &&& melee_resolved(moved.world, struck)
            &&& damage_applied(struck, hurt)
            &&& dead_removed(hurt, after.world)
            &&& after.map == moved.map
            &&& indexed.wf()
            &&& seen.wf()
            &&& moved.wf()
        }
}

/// The game: the map, the entities, and whose turn it is.
pub struct State {
    pub map: GameMap,
    pub world: World,
    pub runstate: RunState,
}

/// How one frame changes the game. The state advances. While the game waits
/// for input, a move command acts on the player and anything else changes
/// nothing; in every other state the systems run once.
pub open spec fn ticked(before: State, after: State, command: Command) -> bool {
    &&& after.runstate == before.runstate.next(command)
    &&& match before.runstate {
        RunState::AwaitingInput => match command.delta_spec() {
            Some(d) => player_acted(before.stage(), after.stage(), d.dx as int, d.dy as int),
            None => after.stage() == before.stage(),
        },
        _ => systems_ran(before.stage(), after.stage(), before.runstate),
    }
}

impl State {
    /// The map is well formed and the world fits it.
    pub open spec fn wf(self) -> bool {
        self.map.wf() && self.world.wf(self.map)
    }

    /// Whether the game is well formed.
    pub fn is_well_formed(&self) -> (r: bool)
        ensures
            r == self.wf(),
    {
        self.map.is_well_formed() && self.world.is_well_formed(&self.map)
    }

    /// The map and the world.
    pub open spec fn stage(self) -> Stage {
        Stage { map: self.map, world: self.world }
    }

    /// A game that starts with the first run.
    pub fn new(map: GameMap, world: World) -> (state: State)
        ensures
            state.map == map,
            state.world == world,
            state.runstate == RunState::PreRun,
    {
        State { map, world, runstate: RunState::PreRun }
    }

    /// Runs the systems once, in their fixed order.
    pub fn run_systems(&mut self)
        requires
            old(self).wf(),
        ensures
            final(self).wf(),
            final(self).runstate == old(self).runstate,
            systems_ran(old(self).stage(), final(self).stage(), old(self).runstate),
    {
        let ghost before = self.stage();
        let indexer = MapIndexingSystem {  };
        indexer.run(&mut self.map, &self.world);
        let ghost indexed = self.stage();
        let visibility = VisibilitySystem {  };
        visibility.run(&mut self.map, &mut self.world);
        let ghost seen = self.stage();
        let monsters = MonsterAI {  };
        monsters.run(&mut self.map, &mut self.world, self.runstate);
        let ghost moved = self.stage();
        let melee = MeleeCombatSystem {  };
        melee.run(&mut self.world);
        let ghost struck = self.world;
        let damage = DamageSystem {  };
        damage.run(&mut self.world);
        let ghost hurt = self.world;
        delete_the_dead(&mut self.world);
        proof {
            lemma_melee_keeps_wf(moved.world, struck, moved.map);
            lemma_damage_keeps_wf(struck, hurt, moved.map);
            lemma_damage_keeps_wf(hurt, self.world, moved.map);
            assert(reindexed(before, indexed));
            assert(views_refreshed(indexed, seen));
            assert(monsters_behaved(seen, moved, self.runstate));
            assert(melee_resolved(moved.world, struck));
            assert(damage_applied(struck, hurt));
        }
    }

    /// One frame: in the first run and in the player's and the monsters' turn
    /// the systems run and the state advances; while the game waits for
    /// input, the command is applied to the player and no system runs.
    pub fn tick(&mut self, command: Command)
        requires
            old(self).wf(),
        ensures
            final(self).wf(),
            ticked(*old(self), *final(self), command),
    {
        match self.runstate {
            RunState::PreRun => {
                self.run_systems();
                self.runstate = RunState::AwaitingInput;
            },
            RunState::AwaitingInput => {
                self.runstate = player_input(&mut self.map, &mut self.world, command);
            },
            RunState::PlayerTurn => {
                self.run_systems();
                self.runstate = RunState::MonsterTurn;
            },
            RunState::MonsterTurn => {
                self.run_systems();
                self.runstate = RunState::AwaitingInput;
            },
        }
    }
}

/// Visibility is monotonic: a tile that is revealed before a frame is
/// revealed after it, whatever becomes of what is visible. The tiles
/// themselves and the size of the map never change.
pub proof fn lemma_revealed_stays_revealed(before: State, after: State, command: Command)
    requires
        before.wf(),
        ticked(before, after, command),
    ensures
        after.map.tiles == before.map.tiles,
        after.map.width == before.map.width,
        after.map.height == before.map.height,
        forall|i: int|
            0 <= i < before.map.tile_count() && before.map.revealed_tiles@[i]
                ==> #[trigger] after.map.revealed_tiles@[i],
{
    if before.runstate != RunState::AwaitingInput {
        let (indexed, seen, moved, struck, hurt) = choose|
            indexed: Stage,
            seen: Stage,
            moved: Stage,
            struck: World,
            hurt: World,
        |
            #![trigger
                reindexed(before.stage(), indexed),
                views_refreshed(indexed, seen),
                monsters_behaved(seen, moved, before.runstate),
                melee_resolved(moved.world, struck),
                damage_applied(struck, hurt)
            ]
            {
                &&& reindexed(before.stage(), indexed)
                &&& views_refreshed(indexed, seen)
                &&& monsters_behaved(seen, moved, before.runstate)
                &&& melee_resolved(moved.world, struck)
                &&& damage_applied(struck, hurt)
                &&& dead_removed(hurt, after.world)
                &&& after.map == moved.map
                &&& indexed.wf()
                &&& seen.wf()
                &&& moved.wf()
            };
        assert forall|i: int|
            0 <= i < before.map.tile_count() && before.map.revealed_tiles@[i] implies #[trigger] after.map.revealed_tiles@[i] by {
            assert(indexed.map.revealed_tiles@[i]);
            assert(seen.map.revealed_tiles@[i]);
        }
    }
}

/// The viewshed cache: an entity that lives through a frame without changing
/// its position, and whose viewshed was clean before, has the very same
/// viewshed after the frame. Its view is not computed again and is not marked
/// dirty.
pub proof fn lemma_stationary_viewshed_is_kept(
    before: State,
    after: State,
    command: Command,
    e: int,
)
    requires
        before.wf(),
        ticked(before, after, command),
        0 <= e < before.world.len(),
        before.world.slots@[e].alive,
        before.world.slots@[e].viewshed is Some,
        !before.world.slots@[e].viewshed->0.dirty,
        after.world.slots@[e].alive,
        after.world.slots@[e].position == before.world.slots@[e].position,
    ensures
        after.world.slots@[e].viewshed == before.world.slots@[e].viewshed,
{
    let was = before.world.slots@[e];
    if before.runstate == RunState::AwaitingInput {
        if command.delta_spec() is Some {
            let d = command.delta_spec()->0;
            if !before.world.has_no_player() {
                let p = before.world.lemma_the_player_exists(before.map);
                let k = p.id as int;
                if e == k {
                    let owner = before.world.slots@[k];
                    assert(owner.fits(before.map));
                    if owner.position is Some && owner.viewshed is Some {
                        let x = owner.position->0.x + d.dx;
                        let y = owner.position->0.y + d.dy;
                        if before.map.in_bounds(x, y) {
                            before.map.lemma_idx_in_range(x, y);
                        }
                    }
                } else {
                    assert(after.world.slots@[e] == before.world.slots@[e]);
                }
            }
        }
    } else {
        let (indexed, seen, moved, struck, hurt) = choose|
            indexed: Stage,
            seen: Stage,
            moved: Stage,
            struck: World,
            hurt: World,
        |
            #![trigger
                reindexed(before.stage(), indexed),
                views_refreshed(indexed, seen),
                monsters_behaved(seen, moved, before.runstate),
                melee_resolved(moved.world, struck),
                damage_applied(struck, hurt)
            ]
            {
                &&& reindexed(before.stage(), indexed)
                &&& views_refreshed(indexed, seen)
                &&& monsters_behaved(seen, moved, before.runstate)
                &&& melee_resolved(moved.world, struck)
                &&& damage_applied(struck, hurt)
                &&& dead_removed(hurt, after.world)
                &&& after.map == moved.map
                &&& indexed.wf()
                &&& seen.wf()
                &&& moved.wf()
            };
        let s1 = seen.world.slots@[e];
        assert(crate::visibility_system::refreshed(indexed.world.slots@[e], s1, indexed.map));
        assert(s1.viewshed == was.viewshed && s1.position == was.position);
        let s2 = moved.world.slots@[e];
        let s3 = struck.slots@[e];
        assert(crate::melee_combat_system::same_but_combat(s3, s2));
        let s4 = hurt.slots@[e];
        assert(s4 == crate::damage_system::with_damage_taken(s3));
        assert(after.world.slots@[e] == s4);
        if before.runstate == RunState::MonsterTurn && !seen.world.has_no_player() {
            let p = seen.world.lemma_the_player_exists(seen.map);
            let k = p.id as int;
            let owner = seen.world.slots@[k];
            if owner.position is Some {
                let at = crate::geometry::GridPoint { x: owner.position->0.x, y: owner.position->0.y };
                assert(owner.stands_at(at.x as int, at.y as int));
                assert(crate::monster_ai_system::has_behaved(s1, s2, seen.map, p, at));
            }
        }
    }
}

} // verus!
