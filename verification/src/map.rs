//! The tile grid and what is derived from it each tick.

use vstd::prelude::*;
use crate::components::Entity;
use crate::geometry::{GridPoint, Rect};

verus! {

/// What a tile is made of.
#[derive(Clone, Copy, Debug, PartialEq, Eq, Structural)]
pub enum TileType {
    Wall,
    Floor,
}

/// Width of the classic fixed-size grid.
pub const GRID_WIDTH: usize = 80;

/// Height of the classic fixed-size grid.
pub const GRID_HEIGHT: usize = 50;

/// Index of cell `(x, y)` in the row-major tile array of the classic grid.
pub fn xy_idx(x: i32, y: i32) -> (idx: usize)
    requires
        0 <= x < GRID_WIDTH,
        0 <= y < GRID_HEIGHT,
    ensures
        idx == y * GRID_WIDTH + x,
        idx < GRID_WIDTH * GRID_HEIGHT,
{
    (y as usize * GRID_WIDTH) + x as usize
}

/// The cell `(x, y)` of index `idx` in the classic grid.
pub fn idx_xy(idx: usize) -> (p: (i32, i32))
    requires
        idx < GRID_WIDTH * GRID_HEIGHT,
    ensures
        p.0 == idx % GRID_WIDTH,
        p.1 == idx / GRID_WIDTH,
        0 <= p.0 < GRID_WIDTH,
        0 <= p.1 < GRID_HEIGHT,
        p.1 * GRID_WIDTH + p.0 == idx,
{
    let x = (idx % GRID_WIDTH) as i32;
    let y = (idx / GRID_WIDTH) as i32;
    (x, y)
}

/// Whether `v` lies between `a` and `b`, in either order of the two.
pub open spec fn span_contains(a: int, b: int, v: int) -> bool {
    (a <= v <= b) || (b <= v <= a)
}

/// The tiles with tile `idx` turned into floor, unless `idx` is zero.
pub open spec fn with_floor(tiles: Seq<TileType>, idx: int) -> Seq<TileType> {
    if 0 < idx < tiles.len() {
        tiles.update(idx, TileType::Floor)
    } else {
        tiles
    }
}

/// The tiles of a grid of the given width after the interior of `room` has
/// been carved.
pub open spec fn with_room(tiles: Seq<TileType>, width: int, room: Rect) -> Seq<TileType> {
    Seq::new(
        tiles.len(),
        |i: int|
            if i > 0 && room.interior_contains(i % width, i / width) {
                TileType::Floor
            } else {
                tiles[i]
            },
    )
}

/// The tiles after row `y` has been carved between columns `x1` and `x2`.
pub open spec fn with_horizontal_tunnel(
    tiles: Seq<TileType>,
    width: int,
    x1: int,
    x2: int,
    y: int,
) -> Seq<TileType> {
    Seq::new(
        tiles.len(),
        |i: int|
            if i > 0 && i / width == y && span_contains(x1, x2, i % width) {
                TileType::Floor
            } else {
                tiles[i]
            },
    )
}

/// The tiles after column `x` has been carved between rows `y1` and `y2`.
pub open spec fn with_vertical_tunnel(
    tiles: Seq<TileType>,
    width: int,
    y1: int,
    y2: int,
    x: int,
) -> Seq<TileType> {
    Seq::new(
        tiles.len(),
        |i: int|
            if i > 0 && i % width == x && span_contains(y1, y2, i / width) {
                TileType::Floor
            } else {
                tiles[i]
            },
    )
}

/// The dungeon: its tiles, the rooms it was built from, what the player has
/// seen of it, and the per-tick index of blocked tiles and occupants.
pub struct GameMap {
    pub tiles: Vec<TileType>,
    pub rooms: Vec<Rect>,
    pub width: i32,
    pub height: i32,
    pub revealed_tiles: Vec<bool>,
    pub visible_tiles: Vec<bool>,
    pub blocked: Vec<bool>,
    pub tile_content: Vec<Vec<Entity>>,
}

impl GameMap {
    /// The number of tiles.
    pub open spec fn tile_count(self) -> int {
        self.width * self.height
    }

    /// The grid has a positive size that fits the index type, and every per-tile
    /// array has one entry per tile.
    pub open spec fn wf(self) -> bool {
        &&& self.width > 0
        &&& self.height > 0
        &&& self.width * self.height <= i32::MAX
        &&& self.tiles@.len() == self.tile_count()
        &&& self.revealed_tiles@.len() == self.tile_count()
        &&& self.visible_tiles@.len() == self.tile_count()
        &&& self.blocked@.len() == self.tile_count()
        &&& self.tile_content@.len() == self.tile_count()
    }

    /// Whether the map is well formed.
    pub fn is_well_formed(&self) -> (r: bool)
        ensures
            r == self.wf(),
    {
        if self.width <= 0 || self.height <= 0 {
            return false;
        }
        assert(0 < self.width * self.height <= 0x7fff_ffff * 0x7fff_ffff) by (nonlinear_arith)
            requires
                0 < self.width <= 0x7fff_ffff,
                0 < self.height <= 0x7fff_ffff,
        ;
        let count: i64 = self.width as i64 * self.height as i64;
        if count > i32::MAX as i64 {
            return false;
        }
        let n = count as usize;
        self.tiles.len() == n && self.revealed_tiles.len() == n && self.visible_tiles.len() == n
            && self.blocked.len() == n && self.tile_content.len() == n
    }

    /// Whether `(x, y)` lies on the grid.
    pub open spec fn in_bounds(self, x: int, y: int) -> bool {
        0 <= x < self.width && 0 <= y < self.height
    }

    /// The index of cell `(x, y)`.
    pub open spec fn idx_of(self, x: int, y: int) -> int {
        y * self.width + x
    }

    /// The column of tile `idx`.
    pub open spec fn x_of(self, idx: int) -> int {
        idx % (self.width as int)
    }

    /// The row of tile `idx`.
    pub open spec fn y_of(self, idx: int) -> int {
        idx / (self.width as int)
    }

    /// The cell of tile `idx`.
    pub open spec fn cell_of(self, idx: int) -> GridPoint {
        GridPoint { x: self.x_of(idx) as i32, y: self.y_of(idx) as i32 }
    }

    /// Everything but what the player sees and has seen is the same in `self`
    /// and `other`.
    pub open spec fn same_but_sight(self, other: GameMap) -> bool {
        &&& self.tiles == other.tiles
        &&& self.rooms == other.rooms
        &&& self.width == other.width
        &&& self.height == other.height
        &&& self.blocked == other.blocked
        &&& self.tile_content == other.tile_content
    }

    /// An index that belongs to a cell of the grid is below the tile count,
    /// and the cell is found again from it.
    pub proof fn lemma_idx_in_range(self, x: int, y: int)
        requires
            self.width > 0,
            self.height > 0,
            self.in_bounds(x, y),
        ensures
            0 <= self.idx_of(x, y) < self.tile_count(),
            self.x_of(self.idx_of(x, y)) == x,
            self.y_of(self.idx_of(x, y)) == y,
    {
        let w = self.width as int;
        let h = self.height as int;
        assert(y * w >= 0) by (nonlinear_arith)
            requires
                y >= 0,
                w > 0,
        ;
        assert(y * w + w <= h * w) by (nonlinear_arith)
            requires
                y + 1 <= h,
                w > 0,
        ;
        assert(h * w == w * h) by (nonlinear_arith);
        vstd::arithmetic::div_mod::lemma_fundamental_div_mod_converse(y * w + x, w, y, x);
    }

    /// Every index below the tile count belongs to one cell of the grid.
    pub proof fn lemma_cell_of_idx(self, idx: int)
        requires
            self.width > 0,
            self.height > 0,
            0 <= idx < self.tile_count(),
        ensures
            self.in_bounds(self.x_of(idx), self.y_of(idx)),
            self.idx_of(self.x_of(idx), self.y_of(idx)) == idx,
    {
        let w = self.width as int;
        let h = self.height as int;
        vstd::arithmetic::div_mod::lemma_fundamental_div_mod(idx, w);
        vstd::arithmetic::div_mod::lemma_mod_bound(idx, w);
        let q = idx / w;
        let r = idx % w;
        assert(w * q == q * w) by (nonlinear_arith);
        assert(q >= 0) by (nonlinear_arith)
            requires
                idx >= 0,
                w > 0,
                idx == q * w + r,
                0 <= r < w,
        ;
        assert(q < h) by (nonlinear_arith)
            requires
                idx < w * h,
                w > 0,
                idx == q * w + r,
                0 <= r < w,
        ;
    }

    /// A grid of the given size in which every tile is a wall, nothing has
    /// been seen and nothing is indexed.
    pub fn new(width: i32, height: i32) -> (map: GameMap)
        requires
            width > 0,
            height > 0,
            width * height <= i32::MAX,
        ensures
            map.wf(),
            map.width == width,
            map.height == height,
            map.rooms@.len() == 0,
            forall|i: int| 0 <= i < map.tile_count() ==> map.tiles@[i] == TileType::Wall,
            forall|i: int| 0 <= i < map.tile_count() ==> !map.revealed_tiles@[i],
            forall|i: int| 0 <= i < map.tile_count() ==> !map.visible_tiles@[i],
            forall|i: int| 0 <= i < map.tile_count() ==> !map.blocked@[i],
            forall|i: int| 0 <= i < map.tile_count() ==> (#[trigger] map.tile_content@[i])@.len() == 0,
    {
        assert(0 < width * height) by (nonlinear_arith)
            requires
                width > 0,
                height > 0,
        ;
        let n: usize = (width as usize) * (height as usize);
        let mut tiles: Vec<TileType> = Vec::new();
        let mut revealed_tiles: Vec<bool> = Vec::new();
        let mut visible_tiles: Vec<bool> = Vec::new();
        let mut blocked: Vec<bool> = Vec::new();
        let mut tile_content: Vec<Vec<Entity>> = Vec::new();
        let mut i: usize = 0;
        while i < n
            invariant
                i <= n,
                tiles@.len() == i,
                revealed_tiles@.len() == i,
                visible_tiles@.len() == i,
                blocked@.len() == i,
                tile_content@.len() == i,
                forall|j: int| 0 <= j < i ==> tiles@[j] == TileType::Wall,
                forall|j: int| 0 <= j < i ==> !revealed_tiles@[j],
                forall|j: int| 0 <= j < i ==> !visible_tiles@[j],
                forall|j: int| 0 <= j < i ==> !blocked@[j],
                forall|j: int| 0 <= j < i ==> (#[trigger] tile_content@[j])@.len() == 0,
            decreases n - i,
        {
            tiles.push(TileType::Wall);
            revealed_tiles.push(false);
            visible_tiles.push(false);
            blocked.push(false);
            tile_content.push(Vec::new());
            i += 1;
        }
        GameMap {
            tiles,
            rooms: Vec::new(),
            width,
            height,
            revealed_tiles,
            visible_tiles,
            blocked,
            tile_content,
        }
    }

    /// The index of cell `(x, y)`.
    pub fn point2d_to_index(&self, pt: GridPoint) -> (idx: usize)
        requires
            self.wf(),
            self.in_bounds(pt.x as int, pt.y as int),
        ensures
            idx == self.idx_of(pt.x as int, pt.y as int),
            idx < self.tile_count(),
    {
        proof {
            self.lemma_idx_in_range(pt.x as int, pt.y as int);
            assert(pt.y * self.width <= self.height * self.width) by (nonlinear_arith)
                requires
                    0 <= pt.y < self.height,
                    self.width > 0,
            ;
            assert(self.height * self.width == self.width * self.height) by (nonlinear_arith);
        }
        (pt.y as usize) * (self.width as usize) + (pt.x as usize)
    }

    /// The cell of tile `idx`.
    pub fn index_to_point2d(&self, idx: usize) -> (pt: GridPoint)
        requires
            self.wf(),
            idx < self.tile_count(),
        ensures
            pt.x == self.x_of(idx as int),
            pt.y == self.y_of(idx as int),
            self.in_bounds(pt.x as int, pt.y as int),
            self.idx_of(pt.x as int, pt.y as int) == idx,
    {
        proof {
            self.lemma_cell_of_idx(idx as int);
        }
        let w: usize = self.width as usize;
        GridPoint::new((idx % w) as i32, (idx / w) as i32)
    }

    /// Everything but the tiles is the same in `self` and `other`.
    pub open spec fn same_but_tiles(self, other: GameMap) -> bool {
        &&& self.rooms == other.rooms
        &&& self.width == other.width
        &&& self.height == other.height
        &&& self.revealed_tiles == other.revealed_tiles
        &&& self.visible_tiles == other.visible_tiles
        &&& self.blocked == other.blocked
        &&& self.tile_content == other.tile_content
    }

    /// Turns the tile at `point` into floor. The tile of index zero, the top
    /// left corner, is never carved.
    pub fn fill_floor(&mut self, point: GridPoint)
        requires
            old(self).wf(),
            old(self).in_bounds(point.x as int, point.y as int),
        ensures
            final(self).wf(),
            final(self).same_but_tiles(*old(self)),
            final(self).tiles@ == with_floor(
                old(self).tiles@,
                old(self).idx_of(point.x as int, point.y as int),
            ),
    {
        let idx = self.point2d_to_index(point);
        if idx > 0 && idx < self.tiles.len() {
            self.tiles[idx] = TileType::Floor;
        }
    }

    /// Carves the interior of `room`, row by row. The border line of the
    /// rectangle stays as it is, so that rooms that do not intersect are kept
    /// apart by wall.
    pub fn apply_room_to_map(&mut self, room: &Rect)
        requires
            old(self).wf(),
            old(self).in_bounds(room.x1 as int, room.y1 as int),
            old(self).in_bounds(room.x2 as int, room.y2 as int),
        ensures
            final(self).wf(),
            final(self).same_but_tiles(*old(self)),
            final(self).tiles@ == with_room(old(self).tiles@, old(self).width as int, *room),
    {
        let ghost n = self.tile_count();
        let ghost w = self.width as int;
        let ghost before = self.tiles@;
        let mut y: i32 = room.y1 + 1;
        while y < room.y2
            invariant
                room.y1 + 1 <= y,
                room.y1 + 1 <= room.y2 ==> y <= room.y2,
                self.wf(),
                self.same_but_tiles(*old(self)),
                self.in_bounds(room.x1 as int, room.y1 as int),
                self.in_bounds(room.x2 as int, room.y2 as int),
                n == self.tile_count(),
                w == self.width,
                before == old(self).tiles@,
                forall|i: int|
                    0 <= i < n ==> #[trigger] self.tiles@[i] == if i > 0 && room.interior_contains(
                        i % w,
                        i / w,
                    ) && i / w < y {
                        TileType::Floor
                    } else {
                        before[i]
                    },
            decreases room.y2 - y,
        {
            if room.x1 + 1 <= room.x2 - 1 {
                let ghost row_before = self.tiles@;
                self.apply_horizontal_tunnel(room.x1 + 1, room.x2 - 1, y);
                assert forall|i: int| 0 <= i < n implies #[trigger] self.tiles@[i] == if i > 0
                    && room.interior_contains(i % w, i / w) && i / w < y + 1 {
                    TileType::Floor
                } else {
                    before[i]
                } by {
                    assert(self.tiles@[i] == with_horizontal_tunnel(
                        row_before,
                        w,
                        room.x1 + 1,
                        room.x2 - 1,
                        y as int,
                    )[i]);
                }
            }
            y += 1;
        }
        assert(self.tiles@ =~= with_room(before, w, *room));
    }

    /// Carves the cells of row `y` from column `x1` to column `x2`, in either
    /// order of the two.
    pub fn apply_horizontal_tunnel(&mut self, x1: i32, x2: i32, y: i32)
        requires
            old(self).wf(),
            old(self).in_bounds(x1 as int, y as int),
            old(self).in_bounds(x2 as int, y as int),
        ensures
            final(self).wf(),
            final(self).same_but_tiles(*old(self)),
            final(self).tiles@ == with_horizontal_tunnel(
                old(self).tiles@,
                old(self).width as int,
                x1 as int,
                x2 as int,
                y as int,
            ),
    {
        let lo: i32 = if x1 <= x2 { x1 } else { x2 };
        let hi: i32 = if x1 <= x2 { x2 } else { x1 };
        let ghost n = self.tile_count();
        let ghost w = self.width as int;
        let ghost before = self.tiles@;
        let mut x: i32 = lo;
        while x <= hi
            invariant
                lo <= x <= hi + 1,
                0 <= lo <= hi < self.width,
                0 <= y < self.height,
                self.wf(),
                self.same_but_tiles(*old(self)),
                n == self.tile_count(),
                w == self.width,
                before == old(self).tiles@,
                forall|i: int|
                    0 <= i < n ==> #[trigger] self.tiles@[i] == if i > 0 && i / w == y && lo <= i
                        % w < x {
                        TileType::Floor
                    } else {
                        before[i]
                    },
            decreases hi + 1 - x,
        {
            let ghost step_before = self.tiles@;
            self.fill_floor(GridPoint::new(x, y));
            proof {
                self.lemma_idx_in_range(x as int, y as int);
                let target = self.idx_of(x as int, y as int);
                assert forall|i: int| 0 <= i < n implies #[trigger] self.tiles@[i] == if i > 0 && i
                    / w == y && lo <= i % w < x + 1 {
                    TileType::Floor
                } else {
                    before[i]
                } by {
                    self.lemma_cell_of_idx(i);
                    assert(self.tiles@[i] == with_floor(step_before, target)[i]);
                }
            }
            x += 1;
        }
        assert(self.tiles@ =~= with_horizontal_tunnel(before, w, x1 as int, x2 as int, y as int));
    }

    /// Carves the cells of column `x` from row `y1` to row `y2`, in either
    /// order of the two.
    pub fn apply_vertical_tunnel(&mut self, y1: i32, y2: i32, x: i32)
        requires
            old(self).wf(),
            old(self).in_bounds(x as int, y1 as int),
            old(self).in_bounds(x as int, y2 as int),
        ensures
            final(self).wf(),
            final(self).same_but_tiles(*old(self)),
            final(self).tiles@ == with_vertical_tunnel(
                old(self).tiles@,
                old(self).width as int,
                y1 as int,
                y2 as int,
                x as int,
            ),
    {
        let lo: i32 = if y1 <= y2 { y1 } else { y2 };
        let hi: i32 = if y1 <= y2 { y2 } else { y1 };
        let ghost n = self.tile_count();
        let ghost w = self.width as int;
        let ghost before = self.tiles@;
        let mut y: i32 = lo;
        while y <= hi
            invariant
                lo <= y <= hi + 1,
                0 <= lo <= hi < self.height,
                0 <= x < self.width,
                self.wf(),
                self.same_but_tiles(*old(self)),
                n == self.tile_count(),
                w == self.width,
                before == old(self).tiles@,
                forall|i: int|
                    0 <= i < n ==> #[trigger] self.tiles@[i] == if i > 0 && i % w == x && lo <= i
                        / w < y {
                        TileType::Floor
                    } else {
                        before[i]
                    },
            decreases hi + 1 - y,
        {
            let ghost step_before = self.tiles@;
            self.fill_floor(GridPoint::new(x, y));
            proof {
                self.lemma_idx_in_range(x as int, y as int);
                let target = self.idx_of(x as int, y as int);
                assert forall|i: int| 0 <= i < n implies #[trigger] self.tiles@[i] == if i > 0 && i
                    % w == x && lo <= i / w < y + 1 {
                    TileType::Floor
                } else {
                    before[i]
                } by {
                    self.lemma_cell_of_idx(i);
                    assert(self.tiles@[i] == with_floor(step_before, target)[i]);
                }
            }
            y += 1;
        }
        assert(self.tiles@ =~= with_vertical_tunnel(before, w, y1 as int, y2 as int, x as int));
    }

    /// Everything but the blocked flags is the same in `self` and `other`.
    pub open spec fn same_but_blocked(self, other: GameMap) -> bool {
        &&& self.tiles == other.tiles
        &&& self.rooms == other.rooms
        &&& self.width == other.width
        &&& self.height == other.height
        &&& self.revealed_tiles == other.revealed_tiles
        &&& self.visible_tiles == other.visible_tiles
        &&& self.tile_content == other.tile_content
        &&& self.blocked@.len() == other.blocked@.len()
    }

    /// Everything but the per-tick index is the same in `self` and `other`.
    pub open spec fn same_but_index(self, other: GameMap) -> bool {
        &&& self.tiles == other.tiles
        &&& self.rooms == other.rooms
        &&& self.width == other.width
        &&& self.height == other.height
        &&& self.revealed_tiles == other.revealed_tiles
        &&& self.visible_tiles == other.visible_tiles
    }

    /// Marks every wall as blocked and every other tile as free.
    pub fn populate_blocked(&mut self)
        requires
            old(self).wf(),
        ensures
            final(self).wf(),
            final(self).same_but_index(*old(self)),
            final(self).tile_content == old(self).tile_content,
            forall|i: int|
                0 <= i < old(self).tile_count() ==> #[trigger] final(self).blocked@[i] == (old(
                    self,
                ).tiles@[i] == TileType::Wall),
    {
        let n = self.tiles.len();
        let mut i: usize = 0;
        while i < n
            invariant
                i <= n,
                n == self.tile_count(),
                self.wf(),
                self.same_but_index(*old(self)),
                self.tile_content == old(self).tile_content,
                forall|j: int|
                    0 <= j < i ==> #[trigger] self.blocked@[j] == (self.tiles@[j] == TileType::Wall),
            decreases n - i,
        {
            self.blocked[i] = match self.tiles[i] {
                TileType::Wall => true,
                TileType::Floor => false,
            };
            i += 1;
        }
    }

    /// Empties the list of occupants of every tile.
    pub fn clear_content_index(&mut self)
        requires
            old(self).wf(),
        ensures
            final(self).wf(),
            final(self).same_but_index(*old(self)),
            final(self).blocked == old(self).blocked,
            forall|i: int|
                0 <= i < old(self).tile_count() ==> (#[trigger] final(self).tile_content@[i])@.len()
                    == 0,
    {
        let n = self.tile_content.len();
        let mut i: usize = 0;
        while i < n
            invariant
                i <= n,
                n == self.tile_count(),
                self.wf(),
                self.same_but_index(*old(self)),
                self.blocked == old(self).blocked,
                forall|j: int| 0 <= j < i ==> (#[trigger] self.tile_content@[j])@.len() == 0,
            decreases n - i,
        {
            self.tile_content[i].clear();
            i += 1;
        }
    }

    /// Whether light stops at tile `idx`: walls do, and so does everything off
    /// the grid.
    pub open spec fn opaque_at(self, idx: int) -> bool {
        !(0 <= idx < self.tiles@.len()) || self.tiles@[idx] == TileType::Wall
    }
}

} // verus!
