use roguelike::components::{
    melee_damage, BlocksTile, CombatStats, Entity, Monster, Player, Position, SufferDamage,
    Viewshed, WantsToMelee,
};
use roguelike::damage_system::{delete_the_dead, DamageSystem};
use roguelike::geometry::{chebyshev, distance_squared, GridPoint};
use roguelike::map::{GameMap, TileType};
use roguelike::map_indexing_system::MapIndexingSystem;
use roguelike::melee_combat_system::MeleeCombatSystem;
use roguelike::monster_ai_system::{monster_turn, MonsterAI};
use roguelike::pathfinding::find_path;
use roguelike::player::{player_input, try_move_player, Command};
use roguelike::state::{RunState, State};
use roguelike::visibility_system::{clip_to_map, show_to_player, VisibilitySystem};
use roguelike::world::{Slot, World};

fn open_map(width: i32, height: i32) -> GameMap {
    let mut map = GameMap::new(width, height);
    for y in 1..height - 1 {
        for x in 1..width - 1 {
            let idx = map.point2d_to_index(GridPoint::new(x, y));
            map.tiles[idx] = TileType::Floor;
        }
    }
    map.populate_blocked();
    map
}

fn set_wall(map: &mut GameMap, x: i32, y: i32) {
    let idx = map.point2d_to_index(GridPoint::new(x, y));
    map.tiles[idx] = TileType::Wall;
    map.blocked[idx] = true;
}

fn player_slot(x: i32, y: i32) -> Slot {
    let mut slot = Slot::new();
    slot.position = Some(Position { x, y });
    slot.viewshed = Some(Viewshed::new(8));
    slot.player = Some(Player {});
    slot.combat_stats = Some(CombatStats { max_hp: 30, hp: 30, defense: 2, power: 5 });
    slot
}

fn monster_slot(x: i32, y: i32) -> Slot {
    let mut slot = Slot::new();
    slot.position = Some(Position { x, y });
    slot.viewshed = Some(Viewshed::new(8));
    slot.monster = Some(Monster {});
    slot.blocks_tile = Some(BlocksTile {});
    slot.combat_stats = Some(CombatStats { max_hp: 16, hp: 16, defense: 1, power: 4 });
    slot
}

fn position_of(world: &World, e: Entity) -> (i32, i32) {
    let p = world.slots[e.id].position.unwrap();
    (p.x, p.y)
}

fn path_cost(map: &GameMap, steps: &[usize]) -> u32 {
    let mut cost = 0;
    for pair in steps.windows(2) {
        let a = map.index_to_point2d(pair[0]);
        let b = map.index_to_point2d(pair[1]);
        assert_eq!(chebyshev(a, b), 1);
        assert!(!map.blocked[pair[1]]);
        cost += if a.x != b.x && a.y != b.y { 145 } else { 100 };
    }
    cost
}

// ---------------------------------------------------------------- index

#[test]
fn index_lists_occupants_and_blockers() {
    let mut map = open_map(20, 20);
    let mut world = World::new();
    let p = world.create_entity(player_slot(5, 5));
    let m1 = world.create_entity(monster_slot(7, 5));
    let m2 = world.create_entity(monster_slot(5, 5));
    let mut ghost = Slot::new();
    ghost.position = Some(Position { x: 9, y: 9 });
    let g = world.create_entity(ghost);
    map.blocked[3] = false;
    map.tile_content[17].push(Entity { id: 99 });
    MapIndexingSystem {}.run(&mut map, &world);
    for i in 0..map.tiles.len() {
        let at = map.index_to_point2d(i);
        let blocker = (at.x, at.y) == (7, 5) || (at.x, at.y) == (5, 5);
        assert_eq!(map.blocked[i], map.tiles[i] == TileType::Wall || blocker);
    }
    let i55 = map.point2d_to_index(GridPoint::new(5, 5));
    let i75 = map.point2d_to_index(GridPoint::new(7, 5));
    let i99 = map.point2d_to_index(GridPoint::new(9, 9));
    assert!(map.tile_content[i55] == vec![p, m2]);
    assert!(map.tile_content[i75] == vec![m1]);
    assert!(map.tile_content[i99] == vec![g]);
    assert!(!map.blocked[i99]);
    let filled = map.tile_content.iter().filter(|c| !c.is_empty()).count();
    assert_eq!(filled, 3);
}

#[test]
fn index_is_rebuilt_from_nothing_each_time() {
    let mut map = open_map(20, 20);
    let mut world = World::new();
    let m = world.create_entity(monster_slot(7, 5));
    MapIndexingSystem {}.run(&mut map, &world);
    let old = map.point2d_to_index(GridPoint::new(7, 5));
    assert!(map.blocked[old]);
    world.slots[m.id].position = Some(Position { x: 8, y: 6 });
    MapIndexingSystem {}.run(&mut map, &world);
    let new = map.point2d_to_index(GridPoint::new(8, 6));
    assert!(!map.blocked[old]);
    assert!(map.tile_content[old].is_empty());
    assert!(map.blocked[new]);
    assert!(map.tile_content[new] == vec![m]);
}

#[test]
fn dead_entities_are_not_indexed() {
    let mut map = open_map(20, 20);
    let mut world = World::new();
    let m = world.create_entity(monster_slot(7, 5));
    world.slots[m.id] = Slot::vacant();
    MapIndexingSystem {}.run(&mut map, &world);
    assert!(map.tile_content.iter().all(|c| c.is_empty()));
}

// ---------------------------------------------------------------- view

#[test]
fn clip_keeps_cells_on_the_grid() {
    let map = GameMap::new(10, 10);
    let cells = vec![
        GridPoint::new(0, 0),
        GridPoint::new(-1, 3),
        GridPoint::new(9, 9),
        GridPoint::new(10, 2),
        GridPoint::new(3, 10),
        GridPoint::new(4, -2),
        GridPoint::new(5, 5),
    ];
    let kept = clip_to_map(&cells, &map);
    assert!(kept == vec![GridPoint::new(0, 0), GridPoint::new(9, 9), GridPoint::new(5, 5)]);
}

#[test]
fn show_to_player_resets_visible_and_keeps_revealed() {
    let mut map = GameMap::new(10, 10);
    map.visible_tiles[11] = true;
    map.revealed_tiles[11] = true;
    map.revealed_tiles[12] = true;
    show_to_player(&mut map, &vec![GridPoint::new(3, 3), GridPoint::new(4, 3)]);
    for i in 0..100 {
        assert_eq!(map.visible_tiles[i], i == 33 || i == 34);
        assert_eq!(map.revealed_tiles[i], i == 11 || i == 12 || i == 33 || i == 34);
    }
}

#[test]
fn open_room_is_seen_within_range() {
    let mut map = open_map(30, 30);
    let mut world = World::new();
    let p = world.create_entity(player_slot(15, 15));
    VisibilitySystem {}.run(&mut map, &mut world);
    let v = world.slots[p.id].viewshed.as_ref().unwrap();
    assert!(!v.dirty);
    assert_eq!(v.range, 8);
    assert!(v.visible_tiles.len() > 100);
    assert!(v.contains(GridPoint::new(15, 15)));
    assert!(v.contains(GridPoint::new(15, 8)));
    assert!(v.contains(GridPoint::new(22, 15)));
    assert!(!v.contains(GridPoint::new(15, 5)));
    assert!(!v.contains(GridPoint::new(25, 15)));
    for t in v.visible_tiles.iter() {
        assert!(distance_squared(*t, GridPoint::new(15, 15)) <= 81);
    }
    let mut sorted: Vec<(i32, i32)> = v.visible_tiles.iter().map(|p| (p.x, p.y)).collect();
    sorted.sort();
    sorted.dedup();
    assert_eq!(sorted.len(), v.visible_tiles.len());
    for i in 0..map.tiles.len() {
        let at = map.index_to_point2d(i);
        assert_eq!(map.visible_tiles[i], v.contains(at));
        assert_eq!(map.revealed_tiles[i], v.contains(at));
    }
}

#[test]
fn walls_stop_the_view() {
    let mut map = open_map(30, 30);
    for y in 1..29 {
        set_wall(&mut map, 18, y);
    }
    let mut world = World::new();
    let p = world.create_entity(player_slot(15, 15));
    VisibilitySystem {}.run(&mut map, &mut world);
    let v = world.slots[p.id].viewshed.as_ref().unwrap();
    assert!(v.contains(GridPoint::new(17, 15)));
    assert!(v.contains(GridPoint::new(18, 15)));
    assert!(!v.contains(GridPoint::new(19, 15)));
    assert!(!v.contains(GridPoint::new(20, 14)));
}

#[test]
fn view_near_the_edge_stays_on_the_grid() {
    let mut map = open_map(12, 12);
    let mut world = World::new();
    let p = world.create_entity(player_slot(1, 1));
    VisibilitySystem {}.run(&mut map, &mut world);
    let v = world.slots[p.id].viewshed.as_ref().unwrap();
    assert!(!v.visible_tiles.is_empty());
    for t in v.visible_tiles.iter() {
        assert!(t.x >= 0 && t.x < 12 && t.y >= 0 && t.y < 12);
    }
}

#[test]
fn revealed_tiles_stay_revealed() {
    let mut map = open_map(40, 40);
    let mut world = World::new();
    let p = world.create_entity(player_slot(10, 10));
    VisibilitySystem {}.run(&mut map, &mut world);
    let first = map.revealed_tiles.clone();
    let seen_first = map.visible_tiles.clone();
    world.slots[p.id].position = Some(Position { x: 30, y: 30 });
    world.slots[p.id].viewshed.as_mut().unwrap().dirty = true;
    VisibilitySystem {}.run(&mut map, &mut world);
    let far = map.point2d_to_index(GridPoint::new(10, 10));
    assert!(!map.visible_tiles[far]);
    assert!(map.revealed_tiles[far]);
    for i in 0..first.len() {
        if first[i] {
            assert!(map.revealed_tiles[i]);
        }
        assert_eq!(map.revealed_tiles[i], first[i] || map.visible_tiles[i]);
    }
    assert!(seen_first != map.visible_tiles);
}

#[test]
fn clean_viewsheds_are_not_computed_again() {
    let mut map = open_map(30, 30);
    let mut world = World::new();
    let p = world.create_entity(player_slot(15, 15));
    let m = world.create_entity(monster_slot(20, 15));
    VisibilitySystem {}.run(&mut map, &mut world);
    // A marker that a recomputation would wipe out.
    let marker = vec![GridPoint::new(1, 1)];
    world.slots[p.id].viewshed.as_mut().unwrap().visible_tiles = marker.clone();
    world.slots[m.id].viewshed.as_mut().unwrap().visible_tiles = marker.clone();
    let visible = map.visible_tiles.clone();
    for _ in 0..3 {
        VisibilitySystem {}.run(&mut map, &mut world);
        assert!(world.slots[p.id].viewshed.as_ref().unwrap().visible_tiles == marker);
        assert!(world.slots[m.id].viewshed.as_ref().unwrap().visible_tiles == marker);
        assert!(!world.slots[p.id].viewshed.as_ref().unwrap().dirty);
        assert!(map.visible_tiles == visible);
    }
    world.slots[m.id].viewshed.as_mut().unwrap().dirty = true;
    VisibilitySystem {}.run(&mut map, &mut world);
    assert!(world.slots[m.id].viewshed.as_ref().unwrap().visible_tiles != marker);
    assert!(world.slots[p.id].viewshed.as_ref().unwrap().visible_tiles == marker);
    assert!(map.visible_tiles == visible);
}

#[test]
fn monster_views_do_not_touch_the_map() {
    let mut map = open_map(30, 30);
    let mut world = World::new();
    let m = world.create_entity(monster_slot(20, 15));
    VisibilitySystem {}.run(&mut map, &mut world);
    assert!(!world.slots[m.id].viewshed.as_ref().unwrap().visible_tiles.is_empty());
    assert!(map.visible_tiles.iter().all(|b| !*b));
    assert!(map.revealed_tiles.iter().all(|b| !*b));
}

// ---------------------------------------------------------------- paths

#[test]
fn exits_of_an_open_tile() {
    let map = open_map(10, 10);
    let idx = map.point2d_to_index(GridPoint::new(5, 5));
    let exits = map.get_available_exits(idx);
    assert_eq!(
        exits,
        vec![
            (idx - 1, 100),
            (idx + 1, 100),
            (idx - 10, 100),
            (idx + 10, 100),
            (idx - 11, 145),
            (idx - 9, 145),
            (idx + 9, 145),
            (idx + 11, 145),
        ]
    );
}

#[test]
fn exits_leave_out_blocked_tiles_and_what_lies_off_the_grid() {
    let mut map = open_map(10, 10);
    set_wall(&mut map, 2, 1);
    let idx = map.point2d_to_index(GridPoint::new(1, 1));
    // The border is wall and blocked; so is the tile to the east.
    let exits = map.get_available_exits(idx);
    assert_eq!(exits, vec![(idx + 10, 100), (idx + 11, 145)]);
    assert!(!map.is_exit_valid(0, 1));
    assert!(!map.is_exit_valid(2, 1));
    assert!(map.is_exit_valid(1, 2));
    assert!(!map.is_exit_valid(10, 2));
    assert!(!map.is_exit_valid(2, 10));
    assert!(!map.is_exit_valid(-1, -1));
    assert!(!map.is_exit_valid(-1, 2));
    assert!(!map.is_exit_valid(2, -1));
}

#[test]
fn first_row_and_column_are_exits_where_they_are_free() {
    // Nothing is blocked on a map that has not been indexed.
    let map = GameMap::new(10, 10);
    assert!(map.is_exit_valid(0, 0));
    assert!(map.is_exit_valid(0, 5));
    assert!(map.is_exit_valid(5, 0));
    assert!(map.is_exit_valid(9, 9));
    assert!(!map.is_exit_valid(10, 9));
    let idx = map.point2d_to_index(GridPoint::new(1, 1));
    assert_eq!(
        map.get_available_exits(idx),
        vec![
            (idx - 1, 100),
            (idx + 1, 100),
            (idx - 10, 100),
            (idx + 10, 100),
            (idx - 11, 145),
            (idx - 9, 145),
            (idx + 9, 145),
            (idx + 11, 145),
        ]
    );
    assert_eq!(map.get_available_exits(0), vec![(1, 100), (10, 100), (11, 145)]);
    assert_eq!(map.get_available_exits(99), vec![(98, 100), (89, 100), (88, 145)]);
    assert_eq!(
        map.get_available_exits(9),
        vec![(8, 100), (19, 100), (18, 145)]
    );
    let west = map.point2d_to_index(GridPoint::new(0, 4));
    assert_eq!(
        map.get_available_exits(west),
        vec![(west + 1, 100), (west - 10, 100), (west + 10, 100), (west - 9, 145), (west + 11, 145)]
    );
}

#[test]
fn paths_use_the_first_row_and_column() {
    let mut map = GameMap::new(10, 10);
    // A wall across column 1 to 9 of row 3 leaves only column 0 to pass.
    for x in 1..10 {
        let idx = map.point2d_to_index(GridPoint::new(x, 3));
        map.blocked[idx] = true;
    }
    let from = map.point2d_to_index(GridPoint::new(1, 2));
    let goal = map.point2d_to_index(GridPoint::new(1, 4));
    let path = find_path(&map, from, goal);
    assert!(path.success);
    assert_eq!(path.steps, vec![from, 30, goal]);
    let corner = find_path(&map, 0, 9);
    assert!(corner.success);
    assert_eq!(corner.steps.len(), 10);
}

#[test]
fn path_on_open_map_has_chebyshev_many_steps() {
    let map = open_map(30, 25);
    let cases = [
        ((2, 2), (2, 2)),
        ((2, 2), (3, 2)),
        ((2, 2), (3, 3)),
        ((2, 2), (20, 2)),
        ((2, 2), (2, 20)),
        ((2, 2), (20, 20)),
        ((5, 20), (25, 3)),
        ((25, 3), (5, 20)),
        ((28, 23), (1, 1)),
        ((10, 10), (13, 22)),
    ];
    for (a, b) in cases {
        let from = GridPoint::new(a.0, a.1);
        let to = GridPoint::new(b.0, b.1);
        let path = find_path(&map, map.point2d_to_index(from), map.point2d_to_index(to));
        assert!(path.success);
        assert_eq!(path.destination, map.point2d_to_index(to));
        assert_eq!(path.steps.len() as i64 - 1, chebyshev(from, to));
        assert_eq!(path.steps[0], map.point2d_to_index(from));
        assert_eq!(*path.steps.last().unwrap(), map.point2d_to_index(to));
        let dx = (a.0 - b.0).abs() as u32;
        let dy = (a.1 - b.1).abs() as u32;
        let expected = 145 * dx.min(dy) + 100 * (dx.max(dy) - dx.min(dy));
        assert_eq!(path_cost(&map, &path.steps), expected);
    }
}

#[test]
fn walled_off_goal_is_not_reached() {
    let mut map = open_map(20, 20);
    for (dx, dy) in [(-1, -1), (0, -1), (1, -1), (-1, 0), (1, 0), (-1, 1), (0, 1), (1, 1)] {
        set_wall(&mut map, 10 + dx, 10 + dy);
    }
    let from = map.point2d_to_index(GridPoint::new(3, 3));
    let goal = map.point2d_to_index(GridPoint::new(10, 10));
    let path = find_path(&map, from, goal);
    assert!(!path.success);
    assert!(path.steps.is_empty());
    assert_eq!(path.destination, goal);
}

#[test]
fn blocked_goal_is_not_reached() {
    let mut map = open_map(20, 20);
    set_wall(&mut map, 10, 10);
    let from = map.point2d_to_index(GridPoint::new(3, 3));
    let goal = map.point2d_to_index(GridPoint::new(10, 10));
    assert!(!find_path(&map, from, goal).success);
}

#[test]
fn blocked_start_does_not_matter() {
    let mut map = open_map(20, 20);
    let from = map.point2d_to_index(GridPoint::new(3, 3));
    map.blocked[from] = true;
    let goal = map.point2d_to_index(GridPoint::new(6, 3));
    let path = find_path(&map, from, goal);
    assert!(path.success);
    assert_eq!(path.steps, vec![from, from + 1, from + 2, from + 3]);
}

#[test]
fn path_goes_around_a_wall_at_least_cost() {
    let mut map = open_map(20, 20);
    for y in 1..15 {
        set_wall(&mut map, 10, y);
    }
    let from = map.point2d_to_index(GridPoint::new(8, 5));
    let goal = map.point2d_to_index(GridPoint::new(12, 5));
    let path = find_path(&map, from, goal);
    assert!(path.success);
    // Down to the gap below the wall at row 15 and up again: each way two
    // diagonal and eight straight steps.
    assert_eq!(path_cost(&map, &path.steps), 2 * (2 * 145 + 8 * 100));
    assert_eq!(path.steps.len(), 21);
    assert!(path.steps.iter().any(|i| map.index_to_point2d(*i) == GridPoint::new(10, 15)));
}

#[test]
fn start_equal_to_goal_is_a_path_of_one_tile() {
    let map = open_map(10, 10);
    let at = map.point2d_to_index(GridPoint::new(4, 4));
    let path = find_path(&map, at, at);
    assert!(path.success);
    assert_eq!(path.steps, vec![at]);
}

// ---------------------------------------------------------------- combat

#[test]
fn melee_damage_is_power_less_defense_and_never_negative() {
    assert_eq!(melee_damage(5, 2), 3);
    assert_eq!(melee_damage(5, 7), 0);
    assert_eq!(melee_damage(5, 5), 0);
    assert_eq!(melee_damage(i32::MAX, i32::MIN), u32::MAX);
    assert_eq!(melee_damage(i32::MIN, i32::MAX), 0);
}

#[test]
fn hits_are_appended_in_attacker_order_and_intents_removed() {
    let mut world = World::new();
    let target = world.create_entity(player_slot(5, 5));
    let a = world.create_entity(monster_slot(4, 5));
    let b = world.create_entity(monster_slot(6, 5));
    world.slots[b.id].combat_stats.as_mut().unwrap().power = 9;
    world.slots[a.id].wants_to_melee = Some(WantsToMelee { target });
    world.slots[b.id].wants_to_melee = Some(WantsToMelee { target });
    world.slots[target.id].suffer_damage = Some(SufferDamage { amounts: vec![11] });
    MeleeCombatSystem {}.run(&mut world);
    assert!(world.slots[a.id].wants_to_melee.is_none());
    assert!(world.slots[b.id].wants_to_melee.is_none());
    assert_eq!(world.slots[target.id].suffer_damage.as_ref().unwrap().amounts, vec![11, 2, 7]);
    assert!(world.slots[a.id].suffer_damage.is_none());
    assert_eq!(world.slots[target.id].combat_stats.unwrap().hp, 30);
}

#[test]
fn zero_damage_is_recorded_as_a_hit() {
    let mut world = World::new();
    let target = world.create_entity(player_slot(5, 5));
    world.slots[target.id].combat_stats.as_mut().unwrap().defense = 7;
    let a = world.create_entity(monster_slot(4, 5));
    world.slots[a.id].wants_to_melee = Some(WantsToMelee { target });
    MeleeCombatSystem {}.run(&mut world);
    assert_eq!(world.slots[target.id].suffer_damage.as_ref().unwrap().amounts, vec![0]);
    DamageSystem {}.run(&mut world);
    assert_eq!(world.slots[target.id].combat_stats.unwrap().hp, 30);
}

#[test]
fn intent_against_a_missing_entity_is_dropped() {
    let mut world = World::new();
    let a = world.create_entity(monster_slot(4, 5));
    let gone = world.create_entity(monster_slot(5, 5));
    world.slots[gone.id] = Slot::vacant();
    let mut statless = Slot::new();
    statless.position = Some(Position { x: 1, y: 1 });
    let s = world.create_entity(statless);
    let b = world.create_entity(monster_slot(6, 5));
    let c = world.create_entity(monster_slot(7, 5));
    world.slots[a.id].wants_to_melee = Some(WantsToMelee { target: gone });
    world.slots[b.id].wants_to_melee = Some(WantsToMelee { target: Entity { id: 1000 } });
    world.slots[c.id].wants_to_melee = Some(WantsToMelee { target: s });
    MeleeCombatSystem {}.run(&mut world);
    for slot in world.slots.iter() {
        assert!(slot.wants_to_melee.is_none());
        assert!(slot.suffer_damage.is_none());
    }
    assert!(!world.slots[gone.id].alive);
}

#[test]
fn damage_is_summed_taken_from_health_and_cleared() {
    let mut world = World::new();
    let a = world.create_entity(player_slot(5, 5));
    let b = world.create_entity(monster_slot(6, 5));
    world.slots[a.id].suffer_damage = Some(SufferDamage { amounts: vec![3, 4, 5] });
    world.slots[b.id].suffer_damage = Some(SufferDamage { amounts: vec![20] });
    DamageSystem {}.run(&mut world);
    assert_eq!(world.slots[a.id].combat_stats.unwrap().hp, 18);
    assert_eq!(world.slots[a.id].combat_stats.unwrap().max_hp, 30);
    assert_eq!(world.slots[b.id].combat_stats.unwrap().hp, -4);
    assert!(world.slots[a.id].suffer_damage.is_none());
    assert!(world.slots[b.id].suffer_damage.is_none());
    assert!(world.slots[b.id].alive);
}

#[test]
fn health_is_held_at_the_least_value() {
    let mut world = World::new();
    let a = world.create_entity(player_slot(5, 5));
    world.slots[a.id].combat_stats.as_mut().unwrap().hp = i32::MIN + 5;
    world.slots[a.id].suffer_damage = Some(SufferDamage { amounts: vec![u32::MAX, u32::MAX, 7] });
    DamageSystem {}.run(&mut world);
    assert_eq!(world.slots[a.id].combat_stats.unwrap().hp, i32::MIN);
    let b = world.create_entity(player_slot(5, 5));
    world.slots[b.id].combat_stats.as_mut().unwrap().hp = i32::MAX;
    world.slots[b.id].suffer_damage = Some(SufferDamage { amounts: vec![u32::MAX] });
    DamageSystem {}.run(&mut world);
    assert_eq!(world.slots[b.id].combat_stats.unwrap().hp, i32::MIN);
    let c = world.create_entity(player_slot(5, 5));
    world.slots[c.id].combat_stats.as_mut().unwrap().hp = i32::MAX;
    world.slots[c.id].suffer_damage = Some(SufferDamage { amounts: vec![u32::MAX - 1] });
    DamageSystem {}.run(&mut world);
    assert_eq!(world.slots[c.id].combat_stats.unwrap().hp, i32::MIN + 1);
}

#[test]
fn the_dead_are_removed_with_all_records() {
    let mut world = World::new();
    let a = world.create_entity(player_slot(5, 5));
    let b = world.create_entity(monster_slot(6, 5));
    let c = world.create_entity(monster_slot(7, 5));
    world.slots[b.id].combat_stats.as_mut().unwrap().hp = 0;
    world.slots[c.id].combat_stats.as_mut().unwrap().hp = -3;
    delete_the_dead(&mut world);
    assert!(world.slots[a.id].alive);
    assert!(world.alive(a));
    for e in [b, c] {
        let slot = &world.slots[e.id];
        assert!(!world.alive(e));
        assert!(slot.position.is_none() && slot.viewshed.is_none() && slot.combat_stats.is_none());
        assert!(slot.monster.is_none() && slot.blocks_tile.is_none() && slot.name.is_none());
        assert!(slot.wants_to_melee.is_none() && slot.suffer_damage.is_none());
        assert!(slot.renderable.is_none() && slot.player.is_none());
    }
    assert_eq!(world.slots.len(), 3);
}

#[test]
fn two_lethal_attackers_remove_the_target_once() {
    let mut world = World::new();
    let target = world.create_entity(player_slot(5, 5));
    world.slots[target.id].combat_stats = Some(CombatStats { max_hp: 3, hp: 3, defense: 0, power: 1 });
    let a = world.create_entity(monster_slot(4, 5));
    let b = world.create_entity(monster_slot(6, 5));
    world.slots[a.id].wants_to_melee = Some(WantsToMelee { target });
    world.slots[b.id].wants_to_melee = Some(WantsToMelee { target });
    MeleeCombatSystem {}.run(&mut world);
    assert_eq!(world.slots[target.id].suffer_damage.as_ref().unwrap().amounts, vec![4, 4]);
    DamageSystem {}.run(&mut world);
    assert_eq!(world.slots[target.id].combat_stats.unwrap().hp, -5);
    delete_the_dead(&mut world);
    assert!(!world.alive(target));
    assert!(world.alive(a) && world.alive(b));
    assert_eq!(world.slots.iter().filter(|s| !s.alive).count(), 1);
    assert!(world.slots[a.id].wants_to_melee.is_none());
    assert!(world.slots[b.id].wants_to_melee.is_none());
    // A further pass finds nothing left to do.
    MeleeCombatSystem {}.run(&mut world);
    DamageSystem {}.run(&mut world);
    delete_the_dead(&mut world);
    assert_eq!(world.slots.iter().filter(|s| !s.alive).count(), 1);
    assert_eq!(world.slots[a.id].combat_stats.unwrap().hp, 16);
}

// ---------------------------------------------------------------- monsters

#[test]
fn adjacent_monster_attacks_and_stays() {
    let mut state = State::new(open_map(20, 20), World::new());
    let p = state.world.create_entity(player_slot(10, 10));
    let m = state.world.create_entity(monster_slot(11, 10));
    state.runstate = RunState::MonsterTurn;
    state.tick(Command::Idle);
    assert_eq!(state.runstate, RunState::AwaitingInput);
    assert_eq!(position_of(&state.world, m), (11, 10));
    assert_eq!(position_of(&state.world, p), (10, 10));
    // One hit of power 4 against defense 2.
    assert_eq!(state.world.slots[p.id].combat_stats.unwrap().hp, 28);
    assert_eq!(state.world.slots[m.id].combat_stats.unwrap().hp, 16);
    assert!(state.world.slots[p.id].suffer_damage.is_none());
    assert!(state.world.slots[m.id].wants_to_melee.is_none());
}

#[test]
fn adjacent_monster_declares_one_attack() {
    let mut map = open_map(20, 20);
    let mut world = World::new();
    let p = world.create_entity(player_slot(10, 10));
    let m = world.create_entity(monster_slot(11, 11));
    MapIndexingSystem {}.run(&mut map, &world);
    VisibilitySystem {}.run(&mut map, &mut world);
    MonsterAI {}.run(&mut map, &mut world, RunState::MonsterTurn);
    assert!(world.slots[m.id].wants_to_melee == Some(WantsToMelee { target: p }));
    assert!(world.slots[p.id].wants_to_melee.is_none());
    assert_eq!(position_of(&world, m), (11, 11));
    assert!(!world.slots[m.id].viewshed.as_ref().unwrap().dirty);
    MeleeCombatSystem {}.run(&mut world);
    assert_eq!(world.slots[p.id].suffer_damage.as_ref().unwrap().amounts, vec![2]);
}

#[test]
fn monster_in_view_takes_one_step_toward_the_player() {
    let mut map = open_map(30, 30);
    let mut world = World::new();
    let p = world.create_entity(player_slot(10, 10));
    let m = world.create_entity(monster_slot(15, 12));
    MapIndexingSystem {}.run(&mut map, &world);
    VisibilitySystem {}.run(&mut map, &mut world);
    let old = map.point2d_to_index(GridPoint::new(15, 12));
    assert!(map.blocked[old]);
    MonsterAI {}.run(&mut map, &mut world, RunState::MonsterTurn);
    let (x, y) = position_of(&world, m);
    assert_eq!(chebyshev(GridPoint::new(x, y), GridPoint::new(15, 12)), 1);
    assert_eq!(chebyshev(GridPoint::new(x, y), GridPoint::new(10, 10)), 4);
    assert!(distance_squared(GridPoint::new(x, y), GridPoint::new(10, 10)) < 29);
    assert!(world.slots[m.id].viewshed.as_ref().unwrap().dirty);
    assert!(world.slots[m.id].wants_to_melee.is_none());
    assert!(!map.blocked[old]);
    assert!(map.blocked[map.point2d_to_index(GridPoint::new(x, y))]);
    assert_eq!(position_of(&world, p), (10, 10));
}

#[test]
fn monster_that_cannot_see_the_player_stays() {
    let mut map = open_map(40, 40);
    let mut world = World::new();
    let _p = world.create_entity(player_slot(5, 5));
    let m = world.create_entity(monster_slot(30, 30));
    MapIndexingSystem {}.run(&mut map, &world);
    VisibilitySystem {}.run(&mut map, &mut world);
    let blocked = map.blocked.clone();
    MonsterAI {}.run(&mut map, &mut world, RunState::MonsterTurn);
    assert_eq!(position_of(&world, m), (30, 30));
    assert!(!world.slots[m.id].viewshed.as_ref().unwrap().dirty);
    assert!(world.slots[m.id].wants_to_melee.is_none());
    assert!(map.blocked == blocked);
}

#[test]
fn monsters_do_nothing_outside_their_turn() {
    for runstate in [RunState::PreRun, RunState::AwaitingInput, RunState::PlayerTurn] {
        let mut map = open_map(30, 30);
        let mut world = World::new();
        let _p = world.create_entity(player_slot(10, 10));
        let near = world.create_entity(monster_slot(11, 10));
        let far = world.create_entity(monster_slot(15, 12));
        MapIndexingSystem {}.run(&mut map, &world);
        VisibilitySystem {}.run(&mut map, &mut world);
        MonsterAI {}.run(&mut map, &mut world, runstate);
        assert!(world.slots[near.id].wants_to_melee.is_none());
        assert_eq!(position_of(&world, far), (15, 12));
    }
}

#[test]
fn monsters_do_not_walk_into_each_other() {
    let mut map = open_map(30, 30);
    let mut world = World::new();
    let _p = world.create_entity(player_slot(10, 10));
    let a = world.create_entity(monster_slot(13, 10));
    let b = world.create_entity(monster_slot(14, 10));
    MapIndexingSystem {}.run(&mut map, &world);
    VisibilitySystem {}.run(&mut map, &mut world);
    MonsterAI {}.run(&mut map, &mut world, RunState::MonsterTurn);
    assert_eq!(position_of(&world, a), (12, 10));
    let pb = position_of(&world, b);
    assert!(pb != position_of(&world, a));
    assert_eq!(chebyshev(GridPoint::new(pb.0, pb.1), GridPoint::new(14, 10)), 1);
}

#[test]
fn single_monster_turn_with_unreachable_player_changes_nothing() {
    let mut map = open_map(30, 30);
    for (dx, dy) in [(-1, -1), (0, -1), (1, -1), (-1, 0), (1, 0), (-1, 1), (0, 1), (1, 1)] {
        let idx = map.point2d_to_index(GridPoint::new(10 + dx, 10 + dy));
        map.blocked[idx] = true;
    }
    let mut world = World::new();
    let p = world.create_entity(player_slot(10, 10));
    let m = world.create_entity(monster_slot(15, 10));
    VisibilitySystem {}.run(&mut map, &mut world);
    assert!(world.slots[m.id].viewshed.as_ref().unwrap().contains(GridPoint::new(10, 10)));
    let blocked = map.blocked.clone();
    monster_turn(&mut map, &mut world, m.id, p, GridPoint::new(10, 10));
    assert_eq!(position_of(&world, m), (15, 10));
    assert!(map.blocked == blocked);
}

// ---------------------------------------------------------------- player

#[test]
fn player_moves_onto_free_tile_and_marks_view_dirty() {
    let mut map = open_map(20, 20);
    let mut world = World::new();
    let p = world.create_entity(player_slot(10, 10));
    MapIndexingSystem {}.run(&mut map, &world);
    VisibilitySystem {}.run(&mut map, &mut world);
    try_move_player(1, -1, &mut map, &mut world);
    assert_eq!(position_of(&world, p), (11, 9));
    assert!(world.slots[p.id].viewshed.as_ref().unwrap().dirty);
    assert!(world.slots[p.id].wants_to_melee.is_none());
}

#[test]
fn player_does_not_walk_into_walls() {
    let mut map = open_map(20, 20);
    let mut world = World::new();
    let p = world.create_entity(player_slot(1, 1));
    MapIndexingSystem {}.run(&mut map, &world);
    VisibilitySystem {}.run(&mut map, &mut world);
    try_move_player(-1, 0, &mut map, &mut world);
    assert_eq!(position_of(&world, p), (1, 1));
    try_move_player(0, -1, &mut map, &mut world);
    assert_eq!(position_of(&world, p), (1, 1));
    assert!(!world.slots[p.id].viewshed.as_ref().unwrap().dirty);
}

#[test]
fn player_does_not_leave_the_grid() {
    let mut map = GameMap::new(12, 12);
    let mut world = World::new();
    let p = world.create_entity(player_slot(0, 11));
    try_move_player(-1, 0, &mut map, &mut world);
    assert_eq!(position_of(&world, p), (0, 11));
    try_move_player(0, 1, &mut map, &mut world);
    assert_eq!(position_of(&world, p), (0, 11));
    try_move_player(i32::MAX, i32::MIN, &mut map, &mut world);
    assert_eq!(position_of(&world, p), (0, 11));
}

#[test]
fn player_attacks_who_stands_in_the_way() {
    let mut map = open_map(20, 20);
    let mut world = World::new();
    let p = world.create_entity(player_slot(10, 10));
    let m = world.create_entity(monster_slot(11, 10));
    MapIndexingSystem {}.run(&mut map, &world);
    VisibilitySystem {}.run(&mut map, &mut world);
    try_move_player(1, 0, &mut map, &mut world);
    assert_eq!(position_of(&world, p), (10, 10));
    assert!(world.slots[p.id].wants_to_melee == Some(WantsToMelee { target: m }));
    assert!(!world.slots[p.id].viewshed.as_ref().unwrap().dirty);
    MeleeCombatSystem {}.run(&mut world);
    DamageSystem {}.run(&mut world);
    assert_eq!(world.slots[m.id].combat_stats.unwrap().hp, 12);
}

#[test]
fn commands_map_to_the_eight_directions() {
    let cases = [
        (Command::MoveNorth, (0, -1)),
        (Command::MoveSouth, (0, 1)),
        (Command::MoveEast, (1, 0)),
        (Command::MoveWest, (-1, 0)),
        (Command::MoveNorthEast, (1, -1)),
        (Command::MoveNorthWest, (-1, -1)),
        (Command::MoveSouthEast, (1, 1)),
        (Command::MoveSouthWest, (-1, 1)),
    ];
    for (command, (dx, dy)) in cases {
        let d = command.delta().unwrap();
        assert_eq!((d.dx, d.dy), (dx, dy));
        let mut map = open_map(20, 20);
        let mut world = World::new();
        let p = world.create_entity(player_slot(10, 10));
        let next = player_input(&mut map, &mut world, command);
        assert_eq!(next, RunState::PlayerTurn);
        assert_eq!(position_of(&world, p), (10 + dx, 10 + dy));
    }
    assert!(Command::Idle.delta().is_none());
}

#[test]
fn no_command_keeps_waiting() {
    let mut map = open_map(20, 20);
    let mut world = World::new();
    let p = world.create_entity(player_slot(10, 10));
    let next = player_input(&mut map, &mut world, Command::Idle);
    assert_eq!(next, RunState::AwaitingInput);
    assert_eq!(position_of(&world, p), (10, 10));
}

// ---------------------------------------------------------------- turns

#[test]
fn turn_states_follow_each_other() {
    let mut state = State::new(open_map(20, 20), World::new());
    let p = state.world.create_entity(player_slot(10, 10));
    assert_eq!(state.runstate, RunState::PreRun);
    state.tick(Command::MoveEast);
    assert_eq!(state.runstate, RunState::AwaitingInput);
    assert_eq!(position_of(&state.world, p), (10, 10));
    assert!(!state.world.slots[p.id].viewshed.as_ref().unwrap().dirty);
    assert!(state.map.visible_tiles.iter().any(|b| *b));
    state.tick(Command::Idle);
    assert_eq!(state.runstate, RunState::AwaitingInput);
    state.tick(Command::MoveEast);
    assert_eq!(state.runstate, RunState::PlayerTurn);
    assert_eq!(position_of(&state.world, p), (11, 10));
    assert!(state.world.slots[p.id].viewshed.as_ref().unwrap().dirty);
    state.tick(Command::MoveEast);
    assert_eq!(state.runstate, RunState::MonsterTurn);
    assert_eq!(position_of(&state.world, p), (11, 10));
    assert!(!state.world.slots[p.id].viewshed.as_ref().unwrap().dirty);
    state.tick(Command::MoveEast);
    assert_eq!(state.runstate, RunState::AwaitingInput);
    assert_eq!(position_of(&state.world, p), (11, 10));
}

#[test]
fn blocked_move_still_ends_the_wait() {
    let mut state = State::new(open_map(20, 20), World::new());
    let p = state.world.create_entity(player_slot(1, 1));
    state.tick(Command::Idle);
    state.tick(Command::MoveWest);
    assert_eq!(state.runstate, RunState::PlayerTurn);
    assert_eq!(position_of(&state.world, p), (1, 1));
}

#[test]
fn player_kills_a_monster_over_several_rounds() {
    let mut state = State::new(open_map(20, 20), World::new());
    let p = state.world.create_entity(player_slot(10, 10));
    let m = state.world.create_entity(monster_slot(11, 10));
    state.tick(Command::Idle);
    let mut rounds = 0;
    while state.world.alive(m) {
        assert_eq!(state.runstate, RunState::AwaitingInput);
        state.tick(Command::MoveEast);
        state.tick(Command::Idle);
        state.tick(Command::Idle);
        rounds += 1;
        assert!(rounds <= 4);
    }
    // Sixteen health, four per hit.
    assert_eq!(rounds, 4);
    // The monster struck back in three monsters' turns, two per hit.
    assert_eq!(state.world.slots[p.id].combat_stats.unwrap().hp, 24);
    assert_eq!(position_of(&state.world, p), (10, 10));
    state.tick(Command::MoveEast);
    assert_eq!(position_of(&state.world, p), (11, 10));
}
