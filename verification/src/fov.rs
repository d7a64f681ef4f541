//! The field of view, which `rltk` computes on the level.

use vstd::prelude::*;
use crate::geometry::Coord;
use crate::map::{GameMap, MapModel};
use crate::world::MAX_RANGE;

verus! {

/// `rltk`'s own point type, which its traits hand about. The library only
/// passes such values on.
#[verifier::external_type_specification]
#[verifier::external_body]
pub struct ExPoint(rltk::Point);

impl rltk::BaseMap for GameMap {
    /// What `rltk` learns of a tile when it asks whether sight stops there:
    /// walls stop it, and so does whatever lies off the level.
    fn is_opaque(&self, idx: usize) -> (r: bool)
        ensures
            r == self@.opaque(idx as int),
    {
        GameMap::is_opaque(self, idx)
    }
}

impl rltk::Algorithm2D for GameMap {
    /// Hands the grid's width and height to `rltk` as one of its points,
    /// built with `rltk::Point::new`.
    #[verifier::external_body]
    fn dimensions(&self) -> rltk::Point {
        rltk::Point::new(self.width, self.height)
    }
}

/// The tiles that `rltk::field_of_view` reports as seen from `(x, y)` out
/// to `range`, on a grid of the given size whose tiles stop sight where
/// `opacity` says so.
pub uninterp spec fn visible_from(
    opacity: Seq<bool>,
    width: int,
    height: int,
    x: int,
    y: int,
    range: int,
) -> Set<Coord>;

/// Whether `tiles` is a field of view as `rltk` computes it for this level,
/// centre and range: those tiles, each listed once, all of them on the
/// level.
pub open spec fn is_field_of_view(map: MapModel, center: Coord, range: i32, tiles: Seq<Coord>) -> bool {
    &&& tiles.to_set() == visible_from(
        map.opacity(),
        map.width as int,
        map.height as int,
        center.x as int,
        center.y as int,
        range as int,
    )
    &&& tiles.no_duplicates()
    &&& forall|i: int| 0 <= i < tiles.len() ==> map.in_bounds(tiles[i].x as int, tiles[i].y as int)
}

/// Calls `rltk::field_of_view` on the level and copies the points it
/// returns. The call reads the level only through `is_opaque` and
/// `dimensions`, so its result is taken to be a function of the tiles'
/// opacity, the grid's size, the centre and the range, up to the order of
/// the list, which comes from a hash set. The function collects into a set
/// and drops whatever lies off the grid before it returns, hence no tile
/// twice and none out of bounds. The centre has to be on the grid, and
/// the range and the grid small enough for the function's 32-bit sums and
/// squares.
#[verifier::external_body]
pub(crate) fn field_of_view(map: &GameMap, center: Coord, range: i32) -> (tiles: Vec<Coord>)
    requires
        map.wf(),
        map@.in_bounds(center.x as int, center.y as int),
        -MAX_RANGE <= range <= MAX_RANGE,
    ensures
        tiles@.to_set() == visible_from(
            map@.opacity(),
            map.width as int,
            map.height as int,
            center.x as int,
            center.y as int,
            range as int,
        ),
        tiles@.no_duplicates(),
        forall|i: int| 0 <= i < tiles@.len() ==> map@.in_bounds(tiles@[i].x as int, tiles@[i].y as int),
{
    rltk::field_of_view(rltk::Point::new(center.x, center.y), range, map)
        .into_iter()
        .map(|p| Coord { x: p.x, y: p.y })
        .collect()
}

} // verus!
