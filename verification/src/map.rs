//! The level: its tiles, what is known of them, and who stands where.

use vstd::prelude::*;
use crate::components::Entity;
use crate::geometry::{Coord, Rect};

verus! {

/// The longest that a side of a level may be. A coordinate on such a level
/// plus a range still fits 32 bits.
pub const MAX_SIDE: i32 = 0x4000_0000;

#[derive(Clone, Copy, Debug, PartialEq, Eq, Structural)]
pub enum TileType {
    Wall,
    Floor,
    DownStairs,
}

/// The dungeon level: a grid of tiles stored row by row, with what the
/// player has seen of it and, per tile, who stands there.
#[derive(Debug)]
pub struct GameMap {
    pub tiles: Vec<TileType>,
    pub rooms: Vec<Rect>,
    pub width: i32,
    pub height: i32,
    pub revealed_tiles: Vec<bool>,
    pub visible_tiles: Vec<bool>,
    pub blocked_tiles: Vec<bool>,
    pub tile_contents: Vec<Vec<Entity>>,
    pub depth: i32,
}

/// The mathematical content of a `GameMap`.
pub struct MapModel {
    pub tiles: Seq<TileType>,
    pub rooms: Seq<Rect>,
    pub width: i32,
    pub height: i32,
    pub revealed_tiles: Seq<bool>,
    pub visible_tiles: Seq<bool>,
    pub blocked_tiles: Seq<bool>,
    pub tile_contents: Seq<Seq<Entity>>,
    pub depth: i32,
}

impl View for GameMap {
    type V = MapModel;

    open spec fn view(&self) -> MapModel {
        MapModel {
            tiles: self.tiles@,
            rooms: self.rooms@,
            width: self.width,
            height: self.height,
            revealed_tiles: self.revealed_tiles@,
            visible_tiles: self.visible_tiles@,
            blocked_tiles: self.blocked_tiles@,
            tile_contents: Seq::new(self.tile_contents@.len(), |i: int| self.tile_contents@[i]@),
            depth: self.depth,
        }
    }
}

impl MapModel {
    /// Number of tiles.
    pub open spec fn area(self) -> int {
        self.width * self.height
    }

    /// The grid has a positive size that fits the index type, and every
    /// per-tile table has one entry per tile.
    pub open spec fn wf(self) -> bool {
        &&& 0 < self.width <= MAX_SIDE
        &&& 0 < self.height <= MAX_SIDE
        &&& self.area() <= i32::MAX
        &&& self.tiles.len() == self.area()
        &&& self.revealed_tiles.len() == self.area()
        &&& self.visible_tiles.len() == self.area()
        &&& self.blocked_tiles.len() == self.area()
        &&& self.tile_contents.len() == self.area()
    }

    pub open spec fn in_bounds(self, x: int, y: int) -> bool {
        0 <= x < self.width && 0 <= y < self.height
    }

    /// Tiles that are in bounds and not on the outermost ring of the grid.
    pub open spec fn strictly_inside(self, x: int, y: int) -> bool {
        0 < x < self.width - 1 && 0 < y < self.height - 1
    }

    /// Position of tile `(x, y)` in the row-by-row tables.
    pub open spec fn idx(self, x: int, y: int) -> int {
        y * self.width + x
    }

    pub open spec fn exit_valid(self, x: int, y: int) -> bool {
        1 <= x <= self.width - 1 && 1 <= y <= self.height - 1 && self.tiles[self.idx(x, y)]
            != TileType::Wall
    }

    pub open spec fn opaque(self, idx: int) -> bool {
        !(0 <= idx < self.tiles.len()) || self.tiles[idx] == TileType::Wall
    }

    /// One flag per tile: can sight pass through it?
    pub open spec fn opacity(self) -> Seq<bool> {
        Seq::new(self.tiles.len(), |i: int| self.tiles[i] == TileType::Wall)
    }

    /// The tiles reachable in one step from tile `idx`: west, east, north
    /// and south, in that order, leaving out walls and the grid's first row
    /// and column.
    pub open spec fn available_exits(self, idx: int) -> Seq<usize> {
        let x = idx % (self.width as int);
        let y = idx / (self.width as int);
        let west = if self.exit_valid(x - 1, y) {
            seq![(idx - 1) as usize]
        } else {
            seq![]
        };
        let east = if self.exit_valid(x + 1, y) {
            seq![(idx + 1) as usize]
        } else {
            seq![]
        };
        let north = if self.exit_valid(x, y - 1) {
            seq![(idx - self.width) as usize]
        } else {
            seq![]
        };
        let south = if self.exit_valid(x, y + 1) {
            seq![(idx + self.width) as usize]
        } else {
            seq![]
        };
        west + east + north + south
    }

    /// The tiles of `tiles` that lie on the grid, in their order; with
    /// `inner` set, only those that are not on the grid's outermost ring.
    pub open spec fn kept(self, tiles: Seq<Coord>, inner: bool) -> Seq<Coord>
        decreases tiles.len(),
    {
        if tiles.len() == 0 {
            Seq::empty()
        } else {
            let rest = self.kept(tiles.drop_last(), inner);
            let t = tiles.last();
            if (if inner {
                self.strictly_inside(t.x as int, t.y as int)
            } else {
                self.in_bounds(t.x as int, t.y as int)
            }) {
                rest.push(t)
            } else {
                rest
            }
        }
    }

    /// Whether one of `tiles` sits at position `k` of the tile tables.
    pub open spec fn marked(self, tiles: Seq<Coord>, k: int) -> bool {
        exists|j: int|
            0 <= j < tiles.len() && self.in_bounds(tiles[j].x as int, tiles[j].y as int)
                && #[trigger] self.idx(tiles[j].x as int, tiles[j].y as int) == k
    }

    /// Blocking as terrain alone gives it: walls block.
    pub open spec fn terrain_blocked(self) -> Seq<bool> {
        Seq::new(self.tiles.len(), |i: int| self.tiles[i] == TileType::Wall)
    }

    /// No tile has an occupant.
    pub open spec fn emptied(self) -> Seq<Seq<Entity>> {
        Seq::new(self.tile_contents.len(), |i: int| Seq::<Entity>::empty())
    }
}

pub proof fn lemma_idx_in_range(m: MapModel, x: int, y: int)
    requires
        m.width > 0,
        m.height > 0,
        m.in_bounds(x, y),
    ensures
        0 <= m.idx(x, y) < m.area(),
        m.idx(x, y) % (m.width as int) == x,
        m.idx(x, y) / (m.width as int) == y,
{
    let w = m.width as int;
    let h = m.height as int;
    assert(0 <= y * w) by (nonlinear_arith)
        requires
            0 <= y,
            0 < w,
    ;
    assert(y * w + x < w * h) by (nonlinear_arith)
        requires
            0 <= y < h,
            0 <= x < w,
    ;
    vstd::arithmetic::div_mod::lemma_fundamental_div_mod_converse(y * w + x, w, y, x);
}

pub proof fn lemma_idx_split(m: MapModel, idx: int)
    requires
        m.width > 0,
        m.height > 0,
        0 <= idx < m.area(),
    ensures
        m.in_bounds(idx % (m.width as int), idx / (m.width as int)),
        m.idx(idx % (m.width as int), idx / (m.width as int)) == idx,
{
    let w = m.width as int;
    let h = m.height as int;
    vstd::arithmetic::div_mod::lemma_fundamental_div_mod(idx, w);
    vstd::arithmetic::div_mod::lemma_mod_bound(idx, w);
    let q = idx / w;
    let r = idx % w;
    assert(w * q == q * w) by (nonlinear_arith);
    assert(q < h) by (nonlinear_arith)
        requires
            idx == w * q + r,
            0 <= r < w,
            idx < w * h,
            0 < w,
    ;
    assert(q >= 0) by (nonlinear_arith)
        requires
            idx == w * q + r,
            0 <= r < w,
            0 <= idx,
            0 < w,
    ;
}

impl GameMap {
    pub open spec fn wf(&self) -> bool {
        self@.wf()
    }

    /// A level of the given size that is solid rock, unseen and unoccupied.
    pub fn new(width: i32, height: i32, depth: i32) -> (map: GameMap)
        requires
            0 < width <= MAX_SIDE,
            0 < height <= MAX_SIDE,
            width * height <= i32::MAX,
        ensures
            map.wf(),
            map.width == width,
            map.height == height,
            map.depth == depth,
            map.rooms@.len() == 0,
            forall|i: int| 0 <= i < width * height ==> map.tiles@[i] == TileType::Wall,
            forall|i: int| 0 <= i < width * height ==> !map.revealed_tiles@[i],
            forall|i: int| 0 <= i < width * height ==> !map.visible_tiles@[i],
            forall|i: int| 0 <= i < width * height ==> !map.blocked_tiles@[i],
            forall|i: int| 0 <= i < width * height ==> map@.tile_contents[i].len() == 0,
    {
        assert(0 < width * height) by (nonlinear_arith)
            requires
                width > 0,
                height > 0,
        ;
        let count: usize = (width as usize) * (height as usize);
        let mut tiles: Vec<TileType> = Vec::new();
        let mut revealed_tiles: Vec<bool> = Vec::new();
        let mut visible_tiles: Vec<bool> = Vec::new();
        let mut blocked_tiles: Vec<bool> = Vec::new();
        let mut tile_contents: Vec<Vec<Entity>> = Vec::new();
        let mut i: usize = 0;
        while i < count
            invariant
                i <= count,
                tiles@.len() == i,
                revealed_tiles@.len() == i,
                visible_tiles@.len() == i,
                blocked_tiles@.len() == i,
                tile_contents@.len() == i,
                forall|j: int| 0 <= j < i ==> tiles@[j] == TileType::Wall,
                forall|j: int| 0 <= j < i ==> !revealed_tiles@[j],
                forall|j: int| 0 <= j < i ==> !visible_tiles@[j],
                forall|j: int| 0 <= j < i ==> !blocked_tiles@[j],
                forall|j: int| 0 <= j < i ==> tile_contents@[j]@.len() == 0,
            decreases count - i,
        {
            tiles.push(TileType::Wall);
            revealed_tiles.push(false);
            visible_tiles.push(false);
            blocked_tiles.push(false);
            tile_contents.push(Vec::new());
            i += 1;
        }
        GameMap {
            tiles,
            rooms: Vec::new(),
            width,
            height,
            revealed_tiles,
            visible_tiles,
            blocked_tiles,
            tile_contents,
            depth,
        }
    }

    /// Decides whether the level is well formed.
    pub fn check(&self) -> (r: bool)
        ensures
            r == self.wf(),
    {
        if self.width <= 0 || self.height <= 0 || self.width > MAX_SIDE || self.height > MAX_SIDE {
            return false;
        }
        assert(0 < self.width * self.height <= 0x7fff_ffff * 0x7fff_ffff) by (nonlinear_arith)
            requires
                0 < self.width <= 0x7fff_ffff,
                0 < self.height <= 0x7fff_ffff,
        ;
        let area: i64 = self.width as i64 * self.height as i64;
        if area > i32::MAX as i64 {
            return false;
        }
        let n = area as usize;
        self.tiles.len() == n && self.revealed_tiles.len() == n && self.visible_tiles.len() == n
            && self.blocked_tiles.len() == n && self.tile_contents.len() == n
    }

    /// Width and height as one point.
    pub fn dimensions(&self) -> (p: Coord)
        ensures
            p == (Coord { x: self.width, y: self.height }),
    {
        Coord { x: self.width, y: self.height }
    }

    #[verifier::when_used_as_spec(spec_in_bounds)]
    pub fn in_bounds(&self, x: i32, y: i32) -> (r: bool)
        ensures
            r == self@.in_bounds(x as int, y as int),
    {
        0 <= x && x < self.width && 0 <= y && y < self.height
    }

    pub open spec fn spec_in_bounds(&self, x: i32, y: i32) -> bool {
        self@.in_bounds(x as int, y as int)
    }

    /// Position of tile `(x, y)` in the tile tables: rows follow one
    /// another, each `width` tiles long.
    pub fn xy_idx(&self, x: i32, y: i32) -> (idx: usize)
        requires
            self.wf(),
            self@.in_bounds(x as int, y as int),
        ensures
            idx == self@.idx(x as int, y as int),
            idx < self@.area(),
    {
        proof {
            lemma_idx_in_range(self@, x as int, y as int);
            assert(0 <= y * self.width) by (nonlinear_arith)
                requires
                    0 <= y,
                    0 < self.width,
            ;
        }
        (y as usize * self.width as usize) + x as usize
    }

    /// The coordinates of the tile at position `idx` of the tile tables.
    pub fn idx_xy(&self, idx: usize) -> (p: Coord)
        requires
            self.wf(),
            idx < self@.area(),
        ensures
            p.x == idx as int % (self.width as int),
            p.y == idx as int / (self.width as int),
            self@.in_bounds(p.x as int, p.y as int),
            self@.idx(p.x as int, p.y as int) == idx,
    {
        proof {
            lemma_idx_split(self@, idx as int);
        }
        let w: usize = self.width as usize;
        Coord { x: (idx % w) as i32, y: (idx / w) as i32 }
    }

    /// Copies the tiles that lie on the grid, or with `inner` set those off
    /// its outermost ring, keeping their order.
    pub fn retain_tiles(&self, tiles: &Vec<Coord>, inner: bool) -> (kept: Vec<Coord>)
        ensures
            kept@ == self@.kept(tiles@, inner),
            forall|i: int|
                0 <= i < kept@.len() ==> self@.in_bounds(kept@[i].x as int, kept@[i].y as int),
    {
        let mut kept: Vec<Coord> = Vec::new();
        let mut i: usize = 0;
        while i < tiles.len()
            invariant
                i <= tiles@.len(),
                kept@ == self@.kept(tiles@.take(i as int), inner),
                forall|j: int|
                    0 <= j < kept@.len() ==> self@.in_bounds(kept@[j].x as int, kept@[j].y as int),
            decreases tiles@.len() - i,
        {
            let t = tiles[i];
            proof {
                assert(tiles@.take(i + 1).drop_last() =~= tiles@.take(i as int));
            }
            let keep = if inner {
                0 < t.x && (t.x as i64) < self.width as i64 - 1 && 0 < t.y && (t.y as i64)
                    < self.height as i64 - 1
            } else {
                self.in_bounds(t.x, t.y)
            };
            if keep {
                kept.push(t);
            }
            i += 1;
        }
        proof {
            assert(tiles@.take(i as int) =~= tiles@);
        }
        kept
    }

    /// Whether a step onto `(x, y)` is possible as far as terrain goes.
    pub fn is_exit_valid(&self, x: i32, y: i32) -> (r: bool)
        requires
            self.wf(),
        ensures
            r == self@.exit_valid(x as int, y as int),
    {
        if x < 1 || x > self.width - 1 || y < 1 || y > self.height - 1 {
            return false;
        }
        let index = self.xy_idx(x, y);
        self.tiles[index] != TileType::Wall
    }

    /// Whether sight stops at tile `idx`. Positions outside the grid count
    /// as opaque.
    pub fn is_opaque(&self, idx: usize) -> (r: bool)
        ensures
            r == self@.opaque(idx as int),
    {
        idx >= self.tiles.len() || self.tiles[idx] == TileType::Wall
    }

    /// The neighbours of tile `idx` that can be stepped onto.
    pub fn get_available_exits(&self, idx: usize) -> (exits: Vec<usize>)
        requires
            self.wf(),
            idx < self@.area(),
        ensures
            exits@ == self@.available_exits(idx as int),
    {
        let mut exits: Vec<usize> = Vec::new();
        let p = self.idx_xy(idx);
        let w: usize = self.width as usize;
        proof {
            assert(self@.idx(p.x as int, p.y as int) == idx);
            assert(forall|x: int, y: int| #[trigger]
                self@.exit_valid(x, y) ==> self@.in_bounds(x, y));
            if self@.exit_valid(p.x - 1, p.y as int) {
                lemma_idx_in_range(self@, p.x - 1, p.y as int);
            }
            if self@.exit_valid(p.x + 1, p.y as int) {
                lemma_idx_in_range(self@, p.x + 1, p.y as int);
            }
            if self@.exit_valid(p.x as int, p.y - 1) {
                lemma_idx_in_range(self@, p.x as int, p.y - 1);
                assert((p.y - 1) * self.width == p.y * self.width - self.width)
                    by (nonlinear_arith);
            }
            if self@.exit_valid(p.x as int, p.y + 1) {
                lemma_idx_in_range(self@, p.x as int, p.y + 1);
                assert((p.y + 1) * self.width == p.y * self.width + self.width)
                    by (nonlinear_arith);
            }
        }
        if p.x > i32::MIN && self.is_exit_valid(p.x - 1, p.y) {
            exits.push(idx - 1);
        }
        if p.x < i32::MAX && self.is_exit_valid(p.x + 1, p.y) {
            exits.push(idx + 1);
        }
        if p.y > i32::MIN && self.is_exit_valid(p.x, p.y - 1) {
            exits.push(idx - w);
        }
        if p.y < i32::MAX && self.is_exit_valid(p.x, p.y + 1) {
            exits.push(idx + w);
        }
        proof {
            assert(exits@ =~= self@.available_exits(idx as int));
        }
        exits
    }

    /// Resets the blocked table to what terrain alone gives: walls block,
    /// everything else is free.
    pub fn calculate_blocked_tiles(&mut self)
        requires
            old(self).wf(),
        ensures
            final(self)@ == (MapModel {
                blocked_tiles: old(self)@.terrain_blocked(),
                ..old(self)@
            }),
    {
        let n = self.tiles.len();
        let mut i: usize = 0;
        while i < n
            invariant
                i <= n,
                n == self.tiles@.len(),
                self.blocked_tiles@.len() == n,
                self.tiles == old(self).tiles,
                self.rooms == old(self).rooms,
                self.width == old(self).width,
                self.height == old(self).height,
                self.depth == old(self).depth,
                self.revealed_tiles == old(self).revealed_tiles,
                self.visible_tiles == old(self).visible_tiles,
                self.tile_contents == old(self).tile_contents,
                forall|j: int|
                    0 <= j < i ==> self.blocked_tiles@[j] == (self.tiles@[j] == TileType::Wall),
            decreases n - i,
        {
            let wall = self.tiles[i] == TileType::Wall;
            self.blocked_tiles[i] = wall;
            i += 1;
        }
        proof {
            assert(self.blocked_tiles@ =~= old(self)@.terrain_blocked());
            assert(self@.tile_contents =~= old(self)@.tile_contents);
        }
    }

    /// Empties every tile's occupant list.
    pub fn clear_all_tiles_contents(&mut self)
        ensures
            final(self)@ == (MapModel { tile_contents: old(self)@.emptied(), ..old(self)@ }),
    {
        let n = self.tile_contents.len();
        let mut i: usize = 0;
        while i < n
            invariant
                i <= n,
                n == self.tile_contents@.len(),
                n == old(self).tile_contents@.len(),
                self.tiles == old(self).tiles,
                self.rooms == old(self).rooms,
                self.width == old(self).width,
                self.height == old(self).height,
                self.depth == old(self).depth,
                self.revealed_tiles == old(self).revealed_tiles,
                self.visible_tiles == old(self).visible_tiles,
                self.blocked_tiles == old(self).blocked_tiles,
                forall|j: int| 0 <= j < i ==> self.tile_contents@[j]@.len() == 0,
            decreases n - i,
        {
            self.tile_contents[i].clear();
            i += 1;
        }
        proof {
            assert forall|j: int| 0 <= j < n implies self@.tile_contents[j]
                =~= Seq::<Entity>::empty() by {
                assert(self.tile_contents@[j]@.len() == 0);
            }
            assert(self@.tile_contents =~= old(self)@.emptied());
        }
    }
}

} // verus!
