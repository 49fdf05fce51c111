//! Field of view, computed by `bracket_lib` on the library's map.

use vstd::prelude::*;
use crate::geometry::GridPoint;
use crate::map::{GameMap, TileType};

verus! {

/// The grid coordinate type of `bracket_lib`, carried as an opaque value.
#[verifier::external_type_specification]
#[verifier::external_body]
pub struct ExPoint(bracket_lib::prelude::Point);

/// The cells that `bracket_lib`'s recursive shadow casting finds visible from
/// `(cx, cy)` within `range`, on a grid of the given size whose walls alone
/// stop the light.
pub uninterp spec fn visible_cells(
    cx: int,
    cy: int,
    range: int,
    width: int,
    height: int,
    tiles: Seq<TileType>,
) -> Set<(int, int)>;

impl bracket_lib::prelude::BaseMap for GameMap {
    /// Walls stop the light, and so does everything off the grid.
    fn is_opaque(&self, idx: usize) -> (r: bool)
        ensures
            r == self.opaque_at(idx as int),
    {
        idx >= self.tiles.len() || match self.tiles[idx] {
            TileType::Wall => true,
            TileType::Floor => false,
        }
    }
}

impl bracket_lib::prelude::Algorithm2D for GameMap {
    /// `bracket_lib::prelude::Point::new` on the map's width and height.
    #[verifier::external_body]
    fn dimensions(&self) -> bracket_lib::prelude::Point {
        bracket_lib::prelude::Point::new(self.width, self.height)
    }
}

/// `bracket_lib::prelude::field_of_view` on a map whose dimensions are its
/// width and height and whose opaque tiles are its walls. The outside function
/// collects a hash set, so the cells come without repetition and in no stated
/// order; which cells they are is a function of the viewer, the range, the
/// size and the tiles. The outside function enters the viewer's own cell
/// before anything else and drops only cells off the grid, so that cell is
/// among them. The viewer stands on the grid and the range is within the
/// limit, so that the outside arithmetic stays within `i32`.
#[verifier::external_body]
pub(crate) fn field_of_view(center: GridPoint, range: i32, map: &GameMap) -> (cells: Vec<GridPoint>)
    requires
        map.wf(),
        map.in_bounds(center.x as int, center.y as int),
        0 <= range <= crate::world::MAX_VIEW_RANGE,
    ensures
        cells@.no_duplicates(),
        cells@.contains(center),
        forall|p: GridPoint|
            cells@.contains(p) <==> visible_cells(
                center.x as int,
                center.y as int,
                range as int,
                map.width as int,
                map.height as int,
                map.tiles@,
            ).contains((p.x as int, p.y as int)),
{
    let start = bracket_lib::prelude::Point::new(center.x, center.y);
    bracket_lib::prelude::field_of_view(start, range, map)
        .into_iter()
        .map(|p| GridPoint { x: p.x, y: p.y })
        .collect()
}

} // verus!
