//! The dungeon generator: rooms placed at random and joined by corridors.

use vstd::prelude::*;
use bracket_lib::prelude::RandomNumberGenerator;
use crate::geometry::{GridPoint, Rect};
use crate::map::{
    with_horizontal_tunnel, with_room, with_vertical_tunnel, GameMap, TileType, GRID_HEIGHT,
    GRID_WIDTH,
};
use crate::rng::{dice_roll, range, range_draw, rng_state, roll_dice, seeded_rng, seeded_state};

verus! {

/// How many rooms the generator tries to place.
pub const MAX_ROOMS: i32 = 30;

/// The smallest side of a room.
pub const MIN_SIZE: i32 = 6;

/// The bound above the sides of a room: a side is below it.
pub const MAX_SIZE: i32 = 10;

/// The part of a map that the generator builds.
pub ghost struct Layout {
    pub tiles: Seq<TileType>,
    pub rooms: Seq<Rect>,
}

/// A grid of walls without rooms.
pub open spec fn blank_layout(width: int, height: int) -> Layout {
    Layout { tiles: Seq::new((width * height) as nat, |i: int| TileType::Wall), rooms: Seq::empty() }
}

/// Whether `room` keeps clear of every room in `rooms`.
pub open spec fn is_separate(rooms: Seq<Rect>, room: Rect) -> bool {
    forall|k: int| 0 <= k < rooms.len() ==> !room.intersects(#[trigger] rooms[k])
}

/// The tiles after the centers of `prev` and `room` have been joined by one
/// horizontal and one vertical run; `coin` decides which comes first.
pub open spec fn with_corridor(
    tiles: Seq<TileType>,
    width: int,
    prev: Rect,
    room: Rect,
    coin: int,
) -> Seq<TileType> {
    if coin == 1 {
        with_vertical_tunnel(
            with_horizontal_tunnel(tiles, width, prev.center_x(), room.center_x(), prev.center_y()),
            width,
            prev.center_y(),
            room.center_y(),
            room.center_x(),
        )
    } else {
        with_horizontal_tunnel(
            with_vertical_tunnel(tiles, width, prev.center_y(), room.center_y(), prev.center_x()),
            width,
            prev.center_x(),
            room.center_x(),
            room.center_y(),
        )
    }
}

/// One attempt to place a room: the layout and the generator's state after it.
/// The sides and the corner are drawn; a room that touches an earlier one is
/// dropped; an accepted room is carved, joined to the room before it, where
/// there is one, by a corridor whose order a further draw decides, and kept.
pub open spec fn attempt(layout: Layout, state: Seq<u32>, width: int, height: int) -> (
    Layout,
    Seq<u32>,
) {
    let w = range_draw(state, MIN_SIZE as int, MAX_SIZE as int);
    let h = range_draw(w.1, MIN_SIZE as int, MAX_SIZE as int);
    let x = dice_roll(h.1, 1, width - 1 - w.0);
    let y = dice_roll(x.1, 1, height - 1 - h.0);
    let room = Rect {
        x1: (x.0 - 1) as i32,
        x2: (x.0 - 1 + w.0) as i32,
        y1: (y.0 - 1) as i32,
        y2: (y.0 - 1 + h.0) as i32,
    };
    if is_separate(layout.rooms, room) {
        let carved = with_room(layout.tiles, width, room);
        if layout.rooms.len() == 0 {
            (Layout { tiles: carved, rooms: layout.rooms.push(room) }, y.1)
        } else {
            let coin = range_draw(y.1, 0, 2);
            (
                Layout {
                    tiles: with_corridor(carved, width, layout.rooms.last(), room, coin.0),
                    rooms: layout.rooms.push(room),
                },
                coin.1,
            )
        }
    } else {
        (layout, y.1)
    }
}

/// The layout and the generator's state after `n` attempts.
pub open spec fn attempts(layout: Layout, state: Seq<u32>, width: int, height: int, n: nat) -> (
    Layout,
    Seq<u32>,
)
    decreases n,
{
    if n == 0 {
        (layout, state)
    } else {
        let before = attempts(layout, state, width, height, (n - 1) as nat);
        attempt(before.0, before.1, width, height)
    }
}

/// The layout that a generator in the given state builds.
pub open spec fn generated_from(width: int, height: int, state: Seq<u32>) -> Layout {
    attempts(blank_layout(width, height), state, width, height, MAX_ROOMS as nat).0
}

/// The layout that belongs to a seed.
pub open spec fn generated(width: int, height: int, seed: u64) -> Layout {
    generated_from(width, height, seeded_state(seed))
}

impl GameMap {
    /// What the generator builds of a map.
    pub open spec fn layout(self) -> Layout {
        Layout { tiles: self.tiles@, rooms: self.rooms@ }
    }

    /// Every tile on the outer border is a wall.
    pub open spec fn border_is_wall(self) -> bool {
        forall|x: int, y: int|
            self.in_bounds(x, y) && (x == 0 || y == 0 || x == self.width - 1 || y == self.height
                - 1) ==> self.tiles@[#[trigger] self.idx_of(x, y)] == TileType::Wall
    }

    /// Every room lies inside the border and has sides of the permitted size.
    pub open spec fn rooms_fit(self) -> bool {
        forall|k: int|
            0 <= k < self.rooms@.len() ==> {
                let r = #[trigger] self.rooms@[k];
                &&& 0 <= r.x1
                &&& r.x1 + MIN_SIZE <= r.x2
                &&& r.x2 < r.x1 + MAX_SIZE
                &&& r.x2 <= self.width - 2
                &&& 0 <= r.y1
                &&& r.y1 + MIN_SIZE <= r.y2
                &&& r.y2 < r.y1 + MAX_SIZE
                &&& r.y2 <= self.height - 2
            }
    }

    /// Every room has its corners on the grid.
    pub open spec fn rooms_on_grid(self) -> bool {
        forall|k: int|
            0 <= k < self.rooms@.len() ==> {
                let r = #[trigger] self.rooms@[k];
                self.in_bounds(r.x1 as int, r.y1 as int) && self.in_bounds(r.x2 as int, r.y2 as int)
            }
    }

    /// Whether every room has its corners on the grid.
    pub fn has_rooms_on_grid(&self) -> (r: bool)
        ensures
            r == self.rooms_on_grid(),
    {
        let mut k: usize = 0;
        while k < self.rooms.len()
            invariant
                k <= self.rooms@.len(),
                forall|j: int|
                    0 <= j < k ==> {
                        let r = #[trigger] self.rooms@[j];
                        self.in_bounds(r.x1 as int, r.y1 as int) && self.in_bounds(
                            r.x2 as int,
                            r.y2 as int,
                        )
                    },
            decreases self.rooms@.len() - k,
        {
            let room = self.rooms[k];
            if room.x1 < 0 || room.x1 >= self.width || room.x2 < 0 || room.x2 >= self.width
                || room.y1 < 0 || room.y1 >= self.height || room.y2 < 0 || room.y2 >= self.height {
                assert(self.rooms@[k as int] == room);
                return false;
            }
            k += 1;
        }
        true
    }

    /// The interior of every room is floor.
    pub open spec fn rooms_are_floor(self) -> bool {
        forall|k: int, x: int, y: int|
            0 <= k < self.rooms@.len() && (#[trigger] self.rooms@[k]).interior_contains(x, y)
                ==> self.tiles@[#[trigger] self.idx_of(x, y)] == TileType::Floor
    }

    /// No two rooms intersect.
    pub open spec fn rooms_are_separate(self) -> bool {
        forall|j: int, k: int|
            0 <= j < k < self.rooms@.len() ==> !(#[trigger] self.rooms@[j]).intersects(
                #[trigger] self.rooms@[k],
            )
    }

    /// Nothing has been seen yet and nothing is indexed.
    pub open spec fn is_unexplored(self) -> bool {
        &&& forall|i: int| 0 <= i < self.tile_count() ==> !self.revealed_tiles@[i]
        &&& forall|i: int| 0 <= i < self.tile_count() ==> !self.visible_tiles@[i]
        &&& forall|i: int| 0 <= i < self.tile_count() ==> !self.blocked@[i]
        &&& forall|i: int|
            0 <= i < self.tile_count() ==> (#[trigger] self.tile_content@[i])@.len() == 0
    }

    /// What holds of every generated dungeon.
    pub open spec fn is_dungeon(self) -> bool {
        &&& self.wf()
        &&& 1 <= self.rooms@.len() <= MAX_ROOMS
        &&& self.rooms_fit()
        &&& self.border_is_wall()
        &&& self.rooms_are_floor()
        &&& self.rooms_are_separate()
    }

    /// Builds a dungeon of the given size from the draws of `rng`: up to
    /// `MAX_ROOMS` rooms that do not touch, each joined to the one before it.
    /// The result is a function of the size and of the generator's state.
    pub fn new_map_rooms_and_corridors(
        width: i32,
        height: i32,
        rng: &mut RandomNumberGenerator,
    ) -> (map: GameMap)
        requires
            MAX_SIZE < width,
            MAX_SIZE < height,
            width * height <= i32::MAX,
        ensures
            map.width == width,
            map.height == height,
            map.is_dungeon(),
            map.is_unexplored(),
            map.layout() == generated_from(width as int, height as int, rng_state(*old(rng))),
            rng_state(*final(rng)) == attempts(
                blank_layout(width as int, height as int),
                rng_state(*old(rng)),
                width as int,
                height as int,
                MAX_ROOMS as nat,
            ).1,
    {
        assert(width < 0x1000_0000 && height < 0x1000_0000) by (nonlinear_arith)
            requires
                10 < width,
                10 < height,
                width * height <= 0x7fff_ffff,
        ;
        let mut map = GameMap::new(width, height);
        let ghost start = blank_layout(width as int, height as int);
        let ghost state0 = rng_state(*rng);
        assert(map.tiles@ =~= start.tiles);
        assert(map.rooms@ =~= start.rooms);
        let mut tries: i32 = 0;
        while tries < MAX_ROOMS
            invariant
                0 <= tries <= MAX_ROOMS,
                MAX_SIZE < width < 0x1000_0000,
                MAX_SIZE < height < 0x1000_0000,
                map.width == width,
                map.height == height,
                map.wf(),
                map.is_unexplored(),
                map.rooms@.len() <= tries,
                tries > 0 ==> map.rooms@.len() >= 1,
                map.rooms_fit(),
                map.rooms_are_separate(),
                carved_inside(map.tiles@, map.rooms@, width as int, height as int),
                (map.layout(), rng_state(*rng)) == attempts(
                    start,
                    state0,
                    width as int,
                    height as int,
                    tries as nat,
                ),
            decreases MAX_ROOMS - tries,
        {
            let ghost before = map.layout();
            let w = range(rng, MIN_SIZE, MAX_SIZE);
            let h = range(rng, MIN_SIZE, MAX_SIZE);
            let x = roll_dice(rng, 1, map.width - 1 - w) - 1;
            let y = roll_dice(rng, 1, map.height - 1 - h) - 1;
            let new_room = Rect::with_size(x, y, w, h);

            let mut separate = true;
            let mut k: usize = 0;
            while k < map.rooms.len()
                invariant
                    k <= map.rooms@.len(),
                    separate == forall|j: int|
                        0 <= j < k ==> !new_room.intersects(#[trigger] map.rooms@[j]),
                decreases map.rooms@.len() - k,
            {
                if new_room.intersect(&map.rooms[k]) {
                    separate = false;
                }
                k += 1;
            }
            assert(separate == is_separate(map.rooms@, new_room));

            if separate {
                let ghost mut coin_drawn: int = 0;
                map.apply_room_to_map(&new_room);
                if map.rooms.len() > 0 {
                    let new_room_center = new_room.center();
                    let prev = map.rooms[map.rooms.len() - 1];
                    let prev_room_center = prev.center();
                    let coin = range(rng, 0, 2);
                    proof {
                        coin_drawn = coin as int;
                    }
                    if coin == 1 {
                        map.apply_horizontal_tunnel(
                            prev_room_center.x,
                            new_room_center.x,
                            prev_room_center.y,
                        );
                        map.apply_vertical_tunnel(
                            prev_room_center.y,
                            new_room_center.y,
                            new_room_center.x,
                        );
                    } else {
                        map.apply_vertical_tunnel(
                            prev_room_center.y,
                            new_room_center.y,
                            prev_room_center.x,
                        );
                        map.apply_horizontal_tunnel(
                            prev_room_center.x,
                            new_room_center.x,
                            new_room_center.y,
                        );
                    }
                }
                proof {
                    lemma_accepted_room_keeps_carving(
                        before,
                        new_room,
                        coin_drawn,
                        width as int,
                        height as int,
                    );
                }
                map.rooms.push(new_room);
            }
            tries += 1;
        }
        proof {
            map.lemma_carved_inside_gives_walls_and_floors();
        }
        map
    }

    /// Builds the dungeon that belongs to `seed`.
    pub fn generate(width: i32, height: i32, seed: u64) -> (map: GameMap)
        requires
            MAX_SIZE < width,
            MAX_SIZE < height,
            width * height <= i32::MAX,
        ensures
            map.width == width,
            map.height == height,
            map.is_dungeon(),
            map.is_unexplored(),
            map.layout() == generated(width as int, height as int, seed),
    {
        let mut rng = seeded_rng(seed);
        GameMap::new_map_rooms_and_corridors(width, height, &mut rng)
    }

    proof fn lemma_carved_inside_gives_walls_and_floors(self)
        requires
            self.wf(),
            self.rooms_fit(),
            carved_inside(self.tiles@, self.rooms@, self.width as int, self.height as int),
        ensures
            self.border_is_wall(),
            self.rooms_are_floor(),
    {
        assert forall|x: int, y: int|
            self.in_bounds(x, y) && (x == 0 || y == 0 || x == self.width - 1 || y == self.height
                - 1) implies self.tiles@[#[trigger] self.idx_of(x, y)] == TileType::Wall by {
            self.lemma_idx_in_range(x, y);
        }
        assert forall|k: int, x: int, y: int|
            0 <= k < self.rooms@.len() && (#[trigger] self.rooms@[k]).interior_contains(
                x,
                y,
            ) implies self.tiles@[#[trigger] self.idx_of(x, y)] == TileType::Floor by {
            self.lemma_idx_in_range(x, y);
        }
    }
}

/// Builds the classic dungeon of 80 by 50 tiles and hands out its rooms and
/// its tiles.
pub fn new_map_rooms_and_corridors(rng: &mut RandomNumberGenerator) -> (built: (Vec<Rect>, Vec<TileType>))
    ensures
        (Layout { tiles: built.1@, rooms: built.0@ }) == generated_from(
            GRID_WIDTH as int,
            GRID_HEIGHT as int,
            rng_state(*old(rng)),
        ),
        exists|map: GameMap|
            map.is_dungeon() && map.width == GRID_WIDTH && map.height == GRID_HEIGHT
                && #[trigger] map.rooms == built.0 && map.tiles == built.1,
{
    let map = GameMap::new_map_rooms_and_corridors(GRID_WIDTH as i32, GRID_HEIGHT as i32, rng);
    assert(map.layout().tiles == map.tiles@);
    (map.rooms, map.tiles)
}

/// Floor is found only off the border, and in the whole interior of every
/// room: the two facts about tiles that each attempt keeps, stated by index.
pub closed spec fn carved_inside(
    tiles: Seq<TileType>,
    rooms: Seq<Rect>,
    width: int,
    height: int,
) -> bool {
    &&& forall|i: int|
        0 <= i < tiles.len() && #[trigger] tiles[i] == TileType::Floor ==> 1 <= i % width <= width
            - 2 && 1 <= i / width <= height - 2
    &&& forall|k: int, i: int|
        0 <= k < rooms.len() && 0 <= i < tiles.len() && (#[trigger] rooms[k]).interior_contains(
            i % width,
            i / width,
        ) ==> #[trigger] tiles[i] == TileType::Floor
}

/// Whether `room` lies inside the border of a grid of the given size.
pub open spec fn fits(room: Rect, width: int, height: int) -> bool {
    &&& 0 <= room.x1
    &&& room.x1 + MIN_SIZE <= room.x2
    &&& room.x2 <= width - 2
    &&& 0 <= room.y1
    &&& room.y1 + MIN_SIZE <= room.y2
    &&& room.y2 <= height - 2
}

/// The tiles after `room` has been accepted into `before`.
pub open spec fn tiles_with_accepted(before: Layout, room: Rect, coin: int, width: int) -> Seq<
    TileType,
> {
    let carved = with_room(before.tiles, width, room);
    if before.rooms.len() == 0 {
        carved
    } else {
        with_corridor(carved, width, before.rooms.last(), room, coin)
    }
}

proof fn lemma_accepted_room_keeps_carving(
    before: Layout,
    room: Rect,
    coin: int,
    width: int,
    height: int,
)
    requires
        width > 0,
        height > 0,
        before.tiles.len() == width * height,
        carved_inside(before.tiles, before.rooms, width, height),
        fits(room, width, height),
        forall|k: int| 0 <= k < before.rooms.len() ==> fits(#[trigger] before.rooms[k], width, height),
    ensures
        carved_inside(
            tiles_with_accepted(before, room, coin, width),
            before.rooms.push(room),
            width,
            height,
        ),
{
    let after = tiles_with_accepted(before, room, coin, width);
    let rooms = before.rooms.push(room);
    assert(0int % width == 0) by (nonlinear_arith)
        requires
            width > 0,
    ;
    let carved = with_room(before.tiles, width, room);
    if before.rooms.len() > 0 {
        assert(fits(before.rooms.last(), width, height));
    }
    assert forall|i: int| 0 <= i < after.len() && #[trigger] after[i] == TileType::Floor implies 1
        <= i % width <= width - 2 && 1 <= i / width <= height - 2 by {
        if before.tiles[i] != TileType::Floor && carved[i] == TileType::Floor {
            assert(room.interior_contains(i % width, i / width));
        }
    }
    assert forall|k: int, i: int|
        0 <= k < rooms.len() && 0 <= i < after.len() && (#[trigger] rooms[k]).interior_contains(
            i % width,
            i / width,
        ) implies #[trigger] after[i] == TileType::Floor by {
        if k < before.rooms.len() {
            assert(rooms[k] == before.rooms[k]);
            assert(before.tiles[i] == TileType::Floor);
        } else {
            assert(rooms[k] == room);
            assert(i % width >= 1);
            assert(i > 0);
        }
        assert(carved[i] == TileType::Floor);
    }
}

/// The generator is deterministic: two maps built for the same size and the
/// same seed have the same tiles and the same rooms.
pub proof fn lemma_generation_is_deterministic(
    first: GameMap,
    second: GameMap,
    width: int,
    height: int,
    seed: u64,
)
    requires
        first.layout() == generated(width, height, seed),
        second.layout() == generated(width, height, seed),
    ensures
        first.tiles@ == second.tiles@,
        first.rooms@ == second.rooms@,
{
}

} // verus!
