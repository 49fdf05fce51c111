//! Monster behaviour: strike the player when next to it, else walk toward it
//! while it is in view.

use vstd::prelude::*;
use crate::components::{Entity, Position, Viewshed, WantsToMelee};
use crate::geometry::{
    chebyshev_spec, distance_squared_spec, in_melee_reach, within_melee_reach, GridPoint, Rect,
};
use crate::path_laws::{is_free_floor_for, lemma_first_step_on_free_floor_comes_closer, lies_in};
use crate::map::GameMap;
use crate::pathfinding::{find_path, is_cheapest_walk, reachable};
use crate::state::RunState;
use crate::world::{Slot, Stage, World};

verus! {

/// Whether the entity takes part in the monsters' turn: it is a living
/// monster that looks and stands somewhere.
pub open spec fn acts(slot: Slot) -> bool {
    slot.alive && slot.monster is Some && slot.viewshed is Some && slot.position is Some
}

/// Whether the monster stands within melee reach of `target`.
pub open spec fn in_reach(slot: Slot, target: GridPoint) -> bool {
    within_melee_reach(
        slot.position->0.x as int,
        slot.position->0.y as int,
        target.x as int,
        target.y as int,
    )
}

/// The tile that the entity stands on.
pub open spec fn tile_of(slot: Slot, map: GameMap) -> int {
    map.idx_of(slot.position->0.x as int, slot.position->0.y as int)
}

/// Whether the monster walks this turn: the target is out of reach, in view,
/// and some walk leads to it.
pub open spec fn walks(slot: Slot, map: GameMap, target: GridPoint) -> bool {
    &&& acts(slot)
    &&& !in_reach(slot, target)
    &&& slot.viewshed->0.sees(target)
    &&& reachable(map, tile_of(slot, map), map.idx_of(target.x as int, target.y as int))
}

/// The slot of a monster that has declared an attack on `target`.
pub open spec fn with_attack(before: Slot, target: Entity) -> Slot {
    Slot { wants_to_melee: Some(WantsToMelee { target }), ..before }
}

/// The slot of a monster that has walked to tile `to`: it stands there, and
/// its viewshed is marked dirty.
pub open spec fn with_move(before: Slot, map: GameMap, to: int) -> Slot {
    Slot {
        position: Some(Position { x: map.cell_of(to).x, y: map.cell_of(to).y }),
        viewshed: Some(Viewshed { dirty: true, ..before.viewshed->0 }),
        ..before
    }
}

/// Whether the monster of `before` has taken the first step of the walk `p`:
/// the tile that it left is free, the tile that it entered is blocked.
pub open spec fn stepped_along(
    before_map: GameMap,
    before: Slot,
    after_map: GameMap,
    after: Slot,
    p: Seq<usize>,
) -> bool {
    &&& p.len() > 1
    &&& after == with_move(before, before_map, p[1] as int)
    &&& after_map.same_but_blocked(before_map)
    &&& after_map.blocked@ == before_map.blocked@.update(tile_of(before, before_map), false).update(
        p[1] as int,
        true,
    )
}

/// How the turn of entity `e` changes map and world. A monster within reach
/// of the target declares an attack on the player and stays. One that sees
/// the target farther off takes the first step of a cheapest walk to it, if
/// there is a walk. In every other case, and for every other entity, nothing
/// changes.
pub open spec fn turn_taken(
    before: Stage,
    after: Stage,
    e: int,
    player: Entity,
    target: GridPoint,
) -> bool {
    let was = before.world.slots@[e];
    let is = after.world.slots@[e];
    let goal = before.map.idx_of(target.x as int, target.y as int);
    &&& after.map.same_but_blocked(before.map)
    &&& after.world.len() == before.world.len()
    &&& forall|o: int|
        0 <= o < before.world.len() && o != e ==> #[trigger] after.world.slots@[o]
            == before.world.slots@[o]
    &&& if acts(was) && in_reach(was, target) {
        is == with_attack(was, player) && after.map == before.map
    } else if walks(was, before.map, target) {
        exists|p: Seq<usize>|
            is_cheapest_walk(before.map, p, tile_of(was, before.map), goal) && stepped_along(
                before.map,
                was,
                after.map,
                is,
                p,
            )
    } else {
        is == was && after.map == before.map
    }
}

/// One monster's turn. A monster within reach of the player declares an
/// attack and stays. One that sees the player farther off takes the first
/// step of a cheapest walk to it, if there is a walk. Every other entity
/// does nothing.
pub fn monster_turn(
    map: &mut GameMap,
    world: &mut World,
    e: usize,
    player: Entity,
    target: GridPoint,
)
    requires
        old(map).wf(),
        old(world).wf(*old(map)),
        e < old(world).len(),
        old(map).in_bounds(target.x as int, target.y as int),
    ensures
        final(map).wf(),
        final(world).wf(*final(map)),
        turn_taken(
            Stage { map: *old(map), world: *old(world) },
            Stage { map: *final(map), world: *final(world) },
            e as int,
            player,
            target,
        ),
{
    let ghost before = world.slots@[e as int];
    assert(before.fits(*map));
    if !world.slots[e].alive || world.slots[e].monster.is_none() {
        return ;
    }
    let pos = match world.slots[e].position {
        Some(p) => GridPoint::new(p.x, p.y),
        None => {
            return ;
        },
    };
    let sees = match &world.slots[e].viewshed {
        Some(v) => v.contains(target),
        None => {
            return ;
        },
    };
    if in_melee_reach(pos, target) {
        world.slots[e].wants_to_melee = Some(WantsToMelee { target: player });
        assert(world.slots@[e as int].fits(*map));
        assert(world.wf(*map)) by {
            assert forall|a: int| 0 <= a < world.len() implies (#[trigger] world.slots@[a]).fits(*map) by {
                if a != e {
                    assert(world.slots@[a] == old(world).slots@[a]);
                }
            }
            assert forall|a: int, b: int|
                0 <= a < world.len() && 0 <= b < world.len() && (#[trigger] world.slots@[a]).is_player()
                    && (#[trigger] world.slots@[b]).is_player() implies a == b by {
                assert(old(world).slots@[a].is_player());
                assert(old(world).slots@[b].is_player());
            }
        }
    } else if sees {
        let from = map.point2d_to_index(pos);
        let goal = map.point2d_to_index(target);
        let path = find_path(map, from, goal);
        if path.success && path.steps.len() > 1 {
            let to = path.steps[1];
            assert(crate::pathfinding::is_step(*map, path.steps@[0] as int, path.steps@[1] as int));
            map.blocked[from] = false;
            let point = map.index_to_point2d(to);
            world.slots[e].position = Some(Position { x: point.x, y: point.y });
            map.blocked[to] = true;
            if let Some(v) = &mut world.slots[e].viewshed {
                v.dirty = true;
            }
            proof {
                assert(world.slots@[e as int] == with_move(before, *old(map), to as int));
                assert(is_cheapest_walk(*old(map), path.steps@, from as int, goal as int));
                assert(stepped_along(
                    *old(map),
                    before,
                    *map,
                    world.slots@[e as int],
                    path.steps@,
                ));
                assert(reachable(*old(map), from as int, goal as int));
                assert(walks(before, *old(map), target));
                assert(!in_reach(before, target));
                let was = Stage { map: *old(map), world: *old(world) };
                let is = Stage { map: *map, world: *world };
                assert(was.world.slots@[e as int] == before);
                assert(tile_of(before, was.map) == from);
                assert(was.map.idx_of(target.x as int, target.y as int) == goal);
                assert(is.map.same_but_blocked(was.map));
                assert(is.world.len() == was.world.len());
                assert forall|o: int| 0 <= o < was.world.len() && o != e implies #[trigger] is.world.slots@[o]
                    == was.world.slots@[o] by {}
                assert(is_cheapest_walk(
                    was.map,
                    path.steps@,
                    tile_of(was.world.slots@[e as int], was.map),
                    was.map.idx_of(target.x as int, target.y as int),
                ) && stepped_along(
                    was.map,
                    was.world.slots@[e as int],
                    is.map,
                    is.world.slots@[e as int],
                    path.steps@,
                ));
                assert(turn_taken(was, is, e as int, player, target));
                assert(world.slots@[e as int].fits(*map));
                assert forall|a: int| 0 <= a < world.len() implies (#[trigger] world.slots@[a]).fits(
                    *map,
                ) by {
                    if a != e {
                        assert(world.slots@[a] == old(world).slots@[a]);
                        assert(old(world).slots@[a].fits(*old(map)));
                    }
                }
                assert forall|a: int, b: int|
                    0 <= a < world.len() && 0 <= b < world.len() && (#[trigger] world.slots@[a]).is_player()
                        && (#[trigger] world.slots@[b]).is_player() implies a == b by {
                    assert(old(world).slots@[a].is_player());
                    assert(old(world).slots@[b].is_player());
                }
            }
        } else {
            proof {
                if path.success {
                    assert(path.steps@.len() == 1);
                    assert(from == goal);
                    map.lemma_idx_in_range(pos.x as int, pos.y as int);
                    map.lemma_idx_in_range(target.x as int, target.y as int);
                    assert(pos.x == target.x && pos.y == target.y);
                    crate::geometry::lemma_melee_reach_is_adjacency(
                        pos.x as int,
                        pos.y as int,
                        target.x as int,
                        target.y as int,
                    );
                    assert(false);
                }
                assert(!walks(before, *old(map), target));
            }
        }
    }
}

/// How the monsters' turn leaves the slot of an entity, given where the
/// player stood. An entity that does not act is untouched. A monster within
/// reach of the player has declared its attack and not moved. Any other
/// monster has declared nothing; it is untouched or has walked to a
/// neighbouring cell, and it is untouched where the player is out of view.
pub open spec fn has_behaved(before: Slot, after: Slot, map: GameMap, player: Entity, at: GridPoint) -> bool {
    if !acts(before) {
        after == before
    } else if in_reach(before, at) {
        after == with_attack(before, player)
    } else {
        ||| after == before
        ||| before.viewshed->0.sees(at) && exists|to: int|
            0 <= to < map.tile_count() && after == with_move(before, map, to)
                && crate::geometry::chebyshev_spec(
                before.position->0.x as int,
                before.position->0.y as int,
                after.position->0.x as int,
                after.position->0.y as int,
            ) == 1
    }
}

/// Whether `trail` records the monsters' turn from `before` to `after`: one
/// stage after each entity's turn, each reached from the one before it.
pub open spec fn is_trail(
    trail: Seq<Stage>,
    before: Stage,
    after: Stage,
    player: Entity,
    at: GridPoint,
) -> bool {
    &&& trail.len() == before.world.len() + 1
    &&& trail[0] == before
    &&& trail.last() == after
    &&& forall|e: int|
        0 <= e < before.world.len() ==> turn_taken(#[trigger] trail[e], trail[e + 1], e, player, at)
}

/// How the monster behaviour changes map and world. Outside the monsters'
/// turn, and where no player stands anywhere, nothing changes. Else every
/// entity takes its turn, in the order of the entities, toward the place
/// where the player stood.
pub open spec fn monsters_behaved(before: Stage, after: Stage, runstate: RunState) -> bool {
    &&& after.map.same_but_blocked(before.map)
    &&& after.world.len() == before.world.len()
    &&& runstate != RunState::MonsterTurn ==> after == before
    &&& before.world.has_no_player() ==> after == before
    &&& forall|p: Entity|
        #[trigger] before.world.is_the_player(p) && before.world.slots@[p.id as int].position is None
            ==> after == before
    &&& forall|p: Entity, at: GridPoint|
        runstate == RunState::MonsterTurn && #[trigger] before.world.is_the_player(p)
            && #[trigger] before.world.slots@[p.id as int].stands_at(at.x as int, at.y as int) ==> {
            &&& forall|e: int|
                0 <= e < before.world.len() ==> has_behaved(
                    before.world.slots@[e],
                    #[trigger] after.world.slots@[e],
                    before.map,
                    p,
                    at,
                )
            &&& exists|trail: Seq<Stage>| is_trail(trail, before, after, p, at)
        }
}

/// Monster behaviour.
pub struct MonsterAI {}

impl MonsterAI {
    /// Lets every monster take its turn, in the order of the entities. Outside
    /// the monsters' turn, and where there is no player to go for, nothing
    /// happens.
    pub fn run(&self, map: &mut GameMap, world: &mut World, runstate: RunState)
        requires
            old(map).wf(),
            old(world).wf(*old(map)),
        ensures
            final(map).wf(),
            final(world).wf(*final(map)),
            monsters_behaved(
                Stage { map: *old(map), world: *old(world) },
                Stage { map: *final(map), world: *final(world) },
                runstate,
            ),
    {
        if runstate != RunState::MonsterTurn {
            return ;
        }
        let player = match world.player() {
            Some(p) => p,
            None => {
                assert forall|p: Entity| #[trigger] world.is_the_player(p) implies false by {
                    assert(world.slots@[p.id as int].is_player());
                }
                return ;
            },
        };
        assert forall|p: Entity| #[trigger] world.is_the_player(p) implies p == player by {
            assert(world.slots@[p.id as int].is_player());
            assert(world.slots@[player.id as int].is_player());
        }
        assert(world.slots@[player.id as int].fits(*map));
        let target = match world.slots[player.id].position {
            Some(p) => GridPoint::new(p.x, p.y),
            None => {
                return ;
            },
        };
        let n = world.slots.len();
        let ghost mut trail: Seq<Stage> = seq![Stage { map: *map, world: *world }];
        let mut e: usize = 0;
        while e < n
            invariant
                e <= n,
                n == old(world).len(),
                n == world.len(),
                map.wf(),
                world.wf(*map),
                map.same_but_blocked(*old(map)),
                map.in_bounds(target.x as int, target.y as int),
                forall|o: int| e <= o < n ==> #[trigger] world.slots@[o] == old(world).slots@[o],
                forall|o: int|
                    0 <= o < e ==> has_behaved(
                        old(world).slots@[o],
                        #[trigger] world.slots@[o],
                        *old(map),
                        player,
                        target,
                    ),
                trail.len() == e + 1,
                trail[0] == (Stage { map: *old(map), world: *old(world) }),
                trail[e as int] == (Stage { map: *map, world: *world }),
                forall|o: int| 0 <= o < e ==> turn_taken(#[trigger] trail[o], trail[o + 1], o, player, target),
            decreases n - e,
        {
            let ghost before = Stage { map: *map, world: *world };
            monster_turn(map, world, e, player, target);
            proof {
                let after = Stage { map: *map, world: *world };
                assert(turn_taken(before, after, e as int, player, target));
                let was = old(world).slots@[e as int];
                assert(before.world.slots@[e as int] == was);
                assert(was.fits(*old(map)));
                if acts(was) && !in_reach(was, target) && walks(was, before.map, target) {
                    let p = choose|p: Seq<usize>|
                        is_cheapest_walk(
                            before.map,
                            p,
                            tile_of(was, before.map),
                            before.map.idx_of(target.x as int, target.y as int),
                        ) && stepped_along(before.map, was, after.map, after.world.slots@[e as int], p);
                    let from = tile_of(was, before.map);
                    let to = p[1] as int;
                    assert(crate::pathfinding::is_step(before.map, p[0] as int, p[1] as int));
                    before.map.lemma_idx_in_range(was.position->0.x as int, was.position->0.y as int);
                    before.map.lemma_cell_of_idx(to);
                    assert(before.map.cell_of(to) == old(map).cell_of(to));
                    assert(world.slots@[e as int] == with_move(was, *old(map), to));
                }
                assert forall|o: int| 0 <= o < e + 1 implies has_behaved(
                    old(world).slots@[o],
                    #[trigger] world.slots@[o],
                    *old(map),
                    player,
                    target,
                ) by {
                    if o < e {
                        assert(world.slots@[o] == before.world.slots@[o]);
                    }
                }
                let longer = trail.push(after);
                assert forall|o: int| 0 <= o < e + 1 implies turn_taken(
                    #[trigger] longer[o],
                    longer[o + 1],
                    o,
                    player,
                    target,
                ) by {
                    if o < e {
                        assert(longer[o] == trail[o]);
                        assert(longer[o + 1] == trail[o + 1]);
                    }
                }
                trail = longer;
            }
            e += 1;
        }
        proof {
            assert forall|p: Entity, at: GridPoint|
                #[trigger] old(world).is_the_player(p) && #[trigger] old(world).slots@[p.id as int].stands_at(
                    at.x as int,
                    at.y as int,
                ) implies p == player && at == target by {}
            assert(trail.last() == (Stage { map: *map, world: *world }));
            assert(is_trail(
                trail,
                Stage { map: *old(map), world: *old(world) },
                Stage { map: *map, world: *world },
                player,
                target,
            ));
        }
    }
}

/// As long as nobody has walked, the map is as it was, and so is every
/// entity whose turn has not come.
proof fn lemma_trail_before_the_first_walk(
    trail: Seq<Stage>,
    before: Stage,
    after: Stage,
    player: Entity,
    at: GridPoint,
    e: int,
    k: int,
)
    requires
        is_trail(trail, before, after, player, at),
        0 <= k <= e < before.world.len(),
        forall|o: int| 0 <= o < e ==> !walks(#[trigger] before.world.slots@[o], before.map, at),
    ensures
        trail[k].map == before.map,
        trail[k].world.len() == before.world.len(),
        forall|o: int|
            k <= o < before.world.len() ==> #[trigger] trail[k].world.slots@[o]
                == before.world.slots@[o],
    decreases k,
{
    if k > 0 {
        lemma_trail_before_the_first_walk(trail, before, after, player, at, e, k - 1);
        assert(turn_taken(trail[k - 1], trail[k - 1 + 1], k - 1, player, at));
        assert(trail[k - 1].world.slots@[k - 1] == before.world.slots@[k - 1]);
        assert(!walks(before.world.slots@[k - 1], before.map, at));
    }
}

/// After its turn, an entity stays as it is for the rest of the monsters'
/// turn.
proof fn lemma_trail_after_the_turn(
    trail: Seq<Stage>,
    before: Stage,
    after: Stage,
    player: Entity,
    at: GridPoint,
    e: int,
    k: int,
)
    requires
        is_trail(trail, before, after, player, at),
        0 <= e < k <= before.world.len(),
    ensures
        trail[k].world.len() == before.world.len(),
        trail[k].world.slots@[e] == trail[e + 1].world.slots@[e],
    decreases k,
{
    if k > e + 1 {
        lemma_trail_after_the_turn(trail, before, after, player, at, e, k - 1);
        assert(turn_taken(trail[k - 1], trail[k - 1 + 1], k - 1, player, at));
    } else {
        lemma_trail_lengths(trail, before, after, player, at, k);
    }
}

/// Every stage of a trail holds as many entities as the first.
proof fn lemma_trail_lengths(
    trail: Seq<Stage>,
    before: Stage,
    after: Stage,
    player: Entity,
    at: GridPoint,
    k: int,
)
    requires
        is_trail(trail, before, after, player, at),
        0 <= k <= before.world.len(),
    ensures
        trail[k].world.len() == before.world.len(),
    decreases k,
{
    if k > 0 {
        lemma_trail_lengths(trail, before, after, player, at, k - 1);
        assert(turn_taken(trail[k - 1], trail[k - 1 + 1], k - 1, player, at));
    }
}

/// The first monster that walks in the monsters' turn takes the first step
/// of a cheapest walk to the player on the map as it was before the turn:
/// one step onto a tile that was not blocked, after which what is left of the
/// way costs that step less. Monsters that strike or stay before it change
/// nothing of that.
pub proof fn lemma_first_walker_steps_along_a_cheapest_walk(
    before: Stage,
    after: Stage,
    player: Entity,
    at: GridPoint,
    e: int,
) -> (walk: Seq<usize>)
    requires
        monsters_behaved(before, after, RunState::MonsterTurn),
        before.world.is_the_player(player),
        before.world.slots@[player.id as int].stands_at(at.x as int, at.y as int),
        0 <= e < before.world.len(),
        walks(before.world.slots@[e], before.map, at),
        forall|o: int| 0 <= o < e ==> !walks(#[trigger] before.world.slots@[o], before.map, at),
    ensures
        is_cheapest_walk(
            before.map,
            walk,
            tile_of(before.world.slots@[e], before.map),
            before.map.idx_of(at.x as int, at.y as int),
        ),
        walk.len() > 1,
        crate::pathfinding::is_step(
            before.map,
            tile_of(before.world.slots@[e], before.map),
            walk[1] as int,
        ),
        after.world.slots@[e] == with_move(before.world.slots@[e], before.map, walk[1] as int),
{
    let trail = choose|trail: Seq<Stage>| is_trail(trail, before, after, player, at);
    lemma_trail_before_the_first_walk(trail, before, after, player, at, e, e);
    lemma_trail_after_the_turn(trail, before, after, player, at, e, before.world.len());
    assert(turn_taken(trail[e], trail[e + 1], e, player, at));
    let was = before.world.slots@[e];
    assert(trail[e].world.slots@[e] == was);
    let goal = before.map.idx_of(at.x as int, at.y as int);
    let walk = choose|p: Seq<usize>|
        is_cheapest_walk(before.map, p, tile_of(was, before.map), goal) && stepped_along(
            before.map,
            was,
            trail[e + 1].map,
            trail[e + 1].world.slots@[e],
            p,
        );
    assert(crate::pathfinding::is_step(before.map, walk[0] as int, walk[0int + 1] as int));
    walk
}

/// On unobstructed floor between it and the player, the first monster that
/// walks has come closer by the end of the monsters' turn: it stands one
/// step from where it stood, on a tile that was not blocked, and both its
/// Chebyshev and its Euclidean distance to the player have dropped.
pub proof fn lemma_first_walker_on_free_floor_comes_closer(
    before: Stage,
    after: Stage,
    player: Entity,
    at: GridPoint,
    e: int,
    area: Rect,
)
    requires
        before.wf(),
        monsters_behaved(before, after, RunState::MonsterTurn),
        before.world.is_the_player(player),
        before.world.slots@[player.id as int].stands_at(at.x as int, at.y as int),
        0 <= e < before.world.len(),
        walks(before.world.slots@[e], before.map, at),
        forall|o: int| 0 <= o < e ==> !walks(#[trigger] before.world.slots@[o], before.map, at),
        is_free_floor_for(before.map, area, tile_of(before.world.slots@[e], before.map)),
        lies_in(before.map, tile_of(before.world.slots@[e], before.map), area),
        lies_in(before.map, before.map.idx_of(at.x as int, at.y as int), area),
    ensures
        after.world.slots@[e].position is Some,
        chebyshev_spec(
            before.world.slots@[e].position->0.x as int,
            before.world.slots@[e].position->0.y as int,
            after.world.slots@[e].position->0.x as int,
            after.world.slots@[e].position->0.y as int,
        ) == 1,
        chebyshev_spec(
            after.world.slots@[e].position->0.x as int,
            after.world.slots@[e].position->0.y as int,
            at.x as int,
            at.y as int,
        ) == chebyshev_spec(
            before.world.slots@[e].position->0.x as int,
            before.world.slots@[e].position->0.y as int,
            at.x as int,
            at.y as int,
        ) - 1,
        distance_squared_spec(
            after.world.slots@[e].position->0.x as int,
            after.world.slots@[e].position->0.y as int,
            at.x as int,
            at.y as int,
        ) < distance_squared_spec(
            before.world.slots@[e].position->0.x as int,
            before.world.slots@[e].position->0.y as int,
            at.x as int,
            at.y as int,
        ),
{
    let was = before.world.slots@[e];
    let map = before.map;
    let from = tile_of(was, map);
    let goal = map.idx_of(at.x as int, at.y as int);
    let walk = lemma_first_walker_steps_along_a_cheapest_walk(before, after, player, at, e);
    assert(was.fits(map));
    assert(before.world.slots@[player.id as int].fits(map));
    map.lemma_idx_in_range(was.position->0.x as int, was.position->0.y as int);
    map.lemma_idx_in_range(at.x as int, at.y as int);
    crate::geometry::lemma_melee_reach_is_adjacency(
        was.position->0.x as int,
        was.position->0.y as int,
        at.x as int,
        at.y as int,
    );
    assert(from != goal);
    lemma_first_step_on_free_floor_comes_closer(map, area, walk, from, goal);
    map.lemma_cell_of_idx(walk[1] as int);
}

} // verus!
