//! Digging rooms and corridors into a level, and building a level at random.

use vstd::prelude::*;
use crate::geometry::Rect;
use crate::map::{lemma_idx_in_range, lemma_idx_split, GameMap, MapModel, TileType};
use crate::random::{new_generator, range, roll_dice};

verus! {

/// Whether tile `(x, y)` is part of the floor of `room`: the room without
/// its left column and top row, which stay wall.
pub open spec fn in_room(room: Rect, x: int, y: int) -> bool {
    room.x1 < x <= room.x2 && room.y1 < y <= room.y2
}

/// The tiles after the floor of `room` has been dug out.
pub open spec fn room_carved(tiles: Seq<TileType>, width: int, room: Rect) -> Seq<TileType> {
    Seq::new(
        tiles.len(),
        |k: int|
            if in_room(room, k % width, k / width) {
                TileType::Floor
            } else {
                tiles[k]
            },
    )
}

pub open spec fn lower(a: int, b: int) -> int {
    if a <= b {
        a
    } else {
        b
    }
}

pub open spec fn higher(a: int, b: int) -> int {
    if a <= b {
        b
    } else {
        a
    }
}

/// The tiles after a corridor has been dug along row `y` between columns
/// `x1` and `x2`. The very first tile of the level is never dug.
pub open spec fn row_carved(tiles: Seq<TileType>, width: int, x1: int, x2: int, y: int) -> Seq<
    TileType,
> {
    Seq::new(
        tiles.len(),
        |k: int|
            if k > 0 && y * width + lower(x1, x2) <= k <= y * width + higher(x1, x2) {
                TileType::Floor
            } else {
                tiles[k]
            },
    )
}

/// The tiles after a corridor has been dug along column `x` between rows
/// `y1` and `y2`. The very first tile of the level is never dug.
pub open spec fn column_carved(
    tiles: Seq<TileType>,
    width: int,
    y1: int,
    y2: int,
    x: int,
) -> Seq<TileType> {
    Seq::new(
        tiles.len(),
        |k: int|
            if k > 0 && (k - x) % width == 0 && lower(y1, y2) <= (k - x) / width <= higher(y1, y2) {
                TileType::Floor
            } else {
                tiles[k]
            },
    )
}

/// Whether `room` lies on the level.
pub open spec fn room_fits(map: MapModel, room: Rect) -> bool {
    0 <= room.x1 <= room.x2 < map.width && 0 <= room.y1 <= room.y2 < map.height
}

/// Whether the floor of `room` lies on the level. A room without floor
/// does, wherever it is.
pub open spec fn floor_fits(map: MapModel, room: Rect) -> bool {
    room.x1 >= room.x2 || room.y1 >= room.y2 || (-1 <= room.x1 && room.x2 < map.width && -1
        <= room.y1 && room.y2 < map.height)
}

pub open spec fn rooms_fit(map: MapModel) -> bool {
    forall|i: int| 0 <= i < map.rooms.len() ==> room_fits(map, #[trigger] map.rooms[i])
}

/// Whether `room` overlaps one of the first `n` rooms of the level.
pub open spec fn overlaps_any(map: MapModel, room: Rect, n: int) -> bool {
    exists|i: int| 0 <= i < n && room.spec_intersects(&#[trigger] map.rooms[i])
}

/// The tiles after `room` has been joined to the room before it by two
/// corridors that meet at a corner.
pub open spec fn joined(
    tiles: Seq<TileType>,
    width: int,
    previous: Rect,
    room: Rect,
    horizontal_first: bool,
) -> Seq<TileType> {
    let (new_x, new_y) = room.spec_center();
    let (prev_x, prev_y) = previous.spec_center();
    if horizontal_first {
        column_carved(
            row_carved(tiles, width, prev_x, new_x, prev_y),
            width,
            prev_y,
            new_y,
            new_x,
        )
    } else {
        row_carved(
            column_carved(tiles, width, prev_y, new_y, prev_x),
            width,
            prev_x,
            new_x,
            new_y,
        )
    }
}

/// The level after the attempt to add `room`. A room that overlaps an
/// earlier one is not added. Otherwise its floor is dug out, it is joined
/// to the room added last, and it becomes the last room.
pub open spec fn with_room(map: MapModel, room: Rect, horizontal_first: bool) -> MapModel {
    if overlaps_any(map, room, map.rooms.len() as int) {
        map
    } else {
        let dug = room_carved(map.tiles, map.width as int, room);
        MapModel {
            tiles: if map.rooms.len() == 0 {
                dug
            } else {
                joined(dug, map.width as int, map.rooms.last(), room, horizontal_first)
            },
            rooms: map.rooms.push(room),
            ..map
        }
    }
}

/// Whether every tile of every room's floor is open.
pub open spec fn rooms_open(map: MapModel) -> bool {
    forall|i: int, k: int|
        0 <= i < map.rooms.len() && 0 <= k < map.tiles.len() && #[trigger] in_room(
            map.rooms[i],
            k % (map.width as int),
            k / (map.width as int),
        ) ==> map.tiles[k] != TileType::Wall
}

/// Whether no two rooms of the level overlap.
pub open spec fn rooms_apart(map: MapModel) -> bool {
    forall|i: int, j: int|
        #![trigger map.rooms[j], map.rooms[i]]
        0 <= i < j < map.rooms.len() ==> !map.rooms[j].spec_intersects(&map.rooms[i])
}

impl GameMap {
    /// Digs out the floor of `room`.
    pub fn apply_room_to_map(&mut self, room: &Rect)
        requires
            old(self).wf(),
            floor_fits(old(self)@, *room),
        ensures
            final(self)@ == (MapModel {
                tiles: room_carved(old(self)@.tiles, old(self).width as int, *room),
                ..old(self)@
            }),
    {
        let ghost w = self.width as int;
        let ghost start = self@.tiles;
        if room.x1 >= room.x2 || room.y1 >= room.y2 {
            proof {
                assert(self@.tiles =~= room_carved(start, w, *room));
            }
            return ;
        }
        let mut y: i32 = room.y1 + 1;
        while y <= room.y2
            invariant
                room.y1 + 1 <= y <= room.y2 + 1,
                room.x1 < room.x2,
                room.y2 < i32::MAX,
                self.wf(),
                floor_fits(old(self)@, *room),
                w == self.width,
                start == old(self)@.tiles,
                self@.tiles.len() == start.len(),
                self@ == (MapModel { tiles: self@.tiles, ..old(self)@ }),
                forall|k: int|
                    0 <= k < start.len() ==> self@.tiles[k] == (if in_room(*room, k % w, k / w)
                        && k / w < y {
                        TileType::Floor
                    } else {
                        start[k]
                    }),
            decreases room.y2 + 1 - y,
        {
            let mut x: i32 = room.x1 + 1;
            while x <= room.x2
                invariant
                    room.x1 + 1 <= x <= room.x2 + 1,
                    room.y1 + 1 <= y <= room.y2,
                    room.x1 < room.x2,
                    room.y1 < room.y2 < i32::MAX,
                    self.wf(),
                    floor_fits(old(self)@, *room),
                    w == self.width,
                    start == old(self)@.tiles,
                    self@.tiles.len() == start.len(),
                    self@ == (MapModel { tiles: self@.tiles, ..old(self)@ }),
                    forall|k: int|
                        0 <= k < start.len() ==> self@.tiles[k] == (if in_room(
                            *room,
                            k % w,
                            k / w,
                        ) && (k / w < y || (k / w == y && k % w < x)) {
                            TileType::Floor
                        } else {
                            start[k]
                        }),
                decreases room.x2 + 1 - x,
            {
                let idx = self.xy_idx(x, y);
                let ghost before = self@;
                self.tiles[idx] = TileType::Floor;
                proof {
                    lemma_idx_in_range(before, x as int, y as int);
                    assert(self@.tile_contents =~= before.tile_contents);
                    assert forall|k: int| 0 <= k < start.len() implies #[trigger] self@.tiles[k] == (
                    if in_room(*room, k % w, k / w) && (k / w < y || (k / w == y && k % w < x + 1)) {
                        TileType::Floor
                    } else {
                        start[k]
                    }) by {
                        if k != idx {
                            lemma_idx_split(before, k);
                        } else {
                            lemma_idx_in_range(before, x as int, y as int);
                        }
                    }
                }
                x += 1;
            }
            y += 1;
        }
        proof {
            assert(self@.tiles =~= room_carved(start, w, *room));
        }
    }

    /// Digs a corridor along row `y` between columns `x1` and `x2`.
    pub fn apply_horizontal_corridor(&mut self, x1: i32, x2: i32, y: i32)
        requires
            old(self).wf(),
            0 <= x1,
            0 <= x2,
            0 <= y,
        ensures
            final(self)@ == (MapModel {
                tiles: row_carved(
                    old(self)@.tiles,
                    old(self).width as int,
                    x1 as int,
                    x2 as int,
                    y as int,
                ),
                ..old(self)@
            }),
    {
        let ghost w = self.width as int;
        let ghost start = self@.tiles;
        let area: i64 = self.tiles.len() as i64;
        assert(0 <= y * w <= 0x7fff_ffff * 0x7fff_ffff) by (nonlinear_arith)
            requires
                0 <= y <= 0x7fff_ffff,
                0 < w <= 0x7fff_ffff,
        ;
        let base: i64 = y as i64 * self.width as i64;
        let first: i64 = base + (if x1 <= x2 {
            x1
        } else {
            x2
        }) as i64;
        let last: i64 = base + (if x1 <= x2 {
            x2
        } else {
            x1
        }) as i64;
        let mut k: i64 = if first < 1 {
            1
        } else {
            first
        };
        let ghost from = k as int;
        while k <= last && k < area
            invariant
                from <= k,
                1 <= from,
                from == higher(1, first as int),
                first == y * w + lower(x1 as int, x2 as int),
                last == y * w + higher(x1 as int, x2 as int),
                area == start.len(),
                self.tiles@.len() == area,
                self.wf(),
                w == self.width,
                start == old(self)@.tiles,
                self@ == (MapModel { tiles: self@.tiles, ..old(self)@ }),
                forall|j: int|
                    0 <= j < start.len() ==> self@.tiles[j] == (if from <= j < k && j <= last {
                        TileType::Floor
                    } else {
                        start[j]
                    }),
            decreases area - k,
        {
            let ghost before = self@;
            self.tiles[k as usize] = TileType::Floor;
            proof {
                assert(self@.tile_contents =~= before.tile_contents);
            }
            k += 1;
        }
        proof {
            assert(self@.tiles =~= row_carved(start, w, x1 as int, x2 as int, y as int));
        }
    }

    /// Digs a corridor along column `x` between rows `y1` and `y2`.
    pub fn apply_vertical_corridor(&mut self, y1: i32, y2: i32, x: i32)
        requires
            old(self).wf(),
            0 <= y1,
            0 <= y2,
            0 <= x,
        ensures
            final(self)@ == (MapModel {
                tiles: column_carved(
                    old(self)@.tiles,
                    old(self).width as int,
                    y1 as int,
                    y2 as int,
                    x as int,
                ),
                ..old(self)@
            }),
    {
        let ghost w = self.width as int;
        let ghost start = self@.tiles;
        let area: i64 = self.tiles.len() as i64;
        let lo: i32 = if y1 <= y2 {
            y1
        } else {
            y2
        };
        let hi: i32 = if y1 <= y2 {
            y2
        } else {
            y1
        };
        let mut y: i64 = lo as i64;
        while y <= hi as i64
            invariant
                lo <= y <= hi + 1,
                0 <= lo,
                lo == lower(y1 as int, y2 as int),
                hi == higher(y1 as int, y2 as int),
                0 <= x,
                area == start.len(),
                self.tiles@.len() == area,
                self.wf(),
                w == self.width,
                start == old(self)@.tiles,
                self@ == (MapModel { tiles: self@.tiles, ..old(self)@ }),
                forall|j: int|
                    0 <= j < start.len() ==> self@.tiles[j] == (if j > 0 && (j - x) % w == 0 && lo
                        <= (j - x) / w < y {
                        TileType::Floor
                    } else {
                        start[j]
                    }),
            decreases hi + 1 - y,
        {
            assert(0 <= y * w <= 0x7fff_ffff * 0x7fff_ffff) by (nonlinear_arith)
                requires
                    0 <= y <= 0x7fff_ffff,
                    0 < w <= 0x7fff_ffff,
            ;
            let k: i64 = y * self.width as i64 + x as i64;
            proof {
                vstd::arithmetic::div_mod::lemma_fundamental_div_mod_converse(k - x, w, y as int, 0);
                assert forall|j: int| 0 <= j < start.len() && j != k implies #[trigger] start[j]
                    == start[j] && !((j - x) % w == 0 && (j - x) / w == y) by {
                    if (j - x) % w == 0 && (j - x) / w == y {
                        vstd::arithmetic::div_mod::lemma_fundamental_div_mod(j - x, w);
                        assert(w * y == y * w) by (nonlinear_arith);
                    }
                }
            }
            if k < area {
                if k > 0 {
                    let ghost before = self@;
                    self.tiles[k as usize] = TileType::Floor;
                    proof {
                        assert(self@.tile_contents =~= before.tile_contents);
                    }
                }
            }
            y += 1;
        }
        proof {
            assert(self@.tiles =~= column_carved(start, w, y1 as int, y2 as int, x as int));
        }
    }

    fn overlaps(&self, room: &Rect) -> (r: bool)
        ensures
            r == overlaps_any(self@, *room, self@.rooms.len() as int),
    {
        let mut i: usize = 0;
        while i < self.rooms.len()
            invariant
                i <= self.rooms@.len(),
                !overlaps_any(self@, *room, i as int),
            decreases self.rooms@.len() - i,
        {
            if room.intersects(&self.rooms[i]) {
                return true;
            }
            i += 1;
        }
        false
    }

    /// Tries to add `new_room` to the level and says whether it was added.
    /// With `horizontal_first` the corridor to the previous room leaves
    /// that room sideways and turns towards the new room; without it, the
    /// other way round.
    pub fn add_room(&mut self, new_room: Rect, horizontal_first: bool) -> (added: bool)
        requires
            old(self).wf(),
            rooms_fit(old(self)@),
            room_fits(old(self)@, new_room),
        ensures
            final(self)@ == with_room(old(self)@, new_room, horizontal_first),
            added == !overlaps_any(old(self)@, new_room, old(self)@.rooms.len() as int),
            final(self).wf(),
            rooms_fit(final(self)@),
    {
        if self.overlaps(&new_room) {
            return false;
        }
        self.apply_room_to_map(&new_room);
        if self.rooms.len() > 0 {
            let previous = self.rooms[self.rooms.len() - 1];
            proof {
                assert(room_fits(old(self)@, old(self)@.rooms[old(self)@.rooms.len() - 1]));
            }
            let (new_x, new_y) = new_room.center();
            let (prev_x, prev_y) = previous.center();
            if horizontal_first {
                self.apply_horizontal_corridor(prev_x, new_x, prev_y);
                self.apply_vertical_corridor(prev_y, new_y, new_x);
            } else {
                self.apply_vertical_corridor(prev_y, new_y, prev_x);
                self.apply_horizontal_corridor(prev_x, new_x, new_y);
            }
        }
        self.rooms.push(new_room);
        proof {
            let m = with_room(old(self)@, new_room, horizontal_first);
            assert(self@.tile_contents =~= m.tile_contents);
            assert(self@.rooms =~= m.rooms);
            assert forall|i: int| 0 <= i < self@.rooms.len() implies room_fits(
                self@,
                #[trigger] self@.rooms[i],
            ) by {
                if i < old(self)@.rooms.len() {
                    assert(room_fits(old(self)@, old(self)@.rooms[i]));
                }
            }
        }
        true
    }

    /// Builds a level of 80 by 50 tiles out of up to thirty rooms of random
    /// size and place, each joined to the one before it, with stairs down
    /// in the middle of the last.
    pub fn new_map_rooms_and_corridors() -> (map: GameMap)
        ensures
            map.wf(),
            map.width == 80,
            map.height == 50,
            map.depth == 1,
            map@.rooms.len() <= 30,
            rooms_fit(map@),
            rooms_apart(map@),
            rooms_open(map@),
            map@.rooms.len() > 0 ==> map@.tiles[map@.idx(
                map@.rooms.last().spec_center().0,
                map@.rooms.last().spec_center().1,
            )] == TileType::DownStairs,
            forall|k: int| 0 <= k < map@.area() ==> !map@.revealed_tiles[k] && !map@.visible_tiles[k],
    {
        let mut map = GameMap::new(80, 50, 1);
        let mut rng = new_generator();
        let mut count: i32 = 0;
        while count < 30
            invariant
                0 <= count <= 30,
                map.wf(),
                map.width == 80,
                map.height == 50,
                map.depth == 1,
                map@.rooms.len() <= count,
                rooms_fit(map@),
                rooms_apart(map@),
                rooms_open(map@),
                forall|k: int| 0 <= k < 4000 ==> map@.tiles[k] != TileType::DownStairs,
                forall|k: int| 0 <= k < 4000 ==> !map@.revealed_tiles[k] && !map@.visible_tiles[k],
            decreases 30 - count,
        {
            let w = range(&mut rng, 6, 10);
            let h = range(&mut rng, 6, 10);
            let x = roll_dice(&mut rng, 1, 80 - w - 1) - 1;
            let y = roll_dice(&mut rng, 1, 50 - h - 1) - 1;
            let new_room = Rect::new(x, y, w, h);
            let horizontal_first = range(&mut rng, 0, 2) == 1;
            let ghost before = map@;
            let added = map.add_room(new_room, horizontal_first);
            proof {
                if added {
                    lemma_room_added(before, new_room, horizontal_first);
                }
            }
            count += 1;
        }
        if map.rooms.len() > 0 {
            let last = map.rooms[map.rooms.len() - 1];
            proof {
                assert(room_fits(map@, map@.rooms[map@.rooms.len() - 1]));
            }
            let (cx, cy) = last.center();
            let idx = map.xy_idx(cx, cy);
            let ghost before = map@;
            map.tiles[idx] = TileType::DownStairs;
            proof {
                assert(map@.tile_contents =~= before.tile_contents);
                assert forall|i: int| 0 <= i < map@.rooms.len() implies room_fits(
                    map@,
                    #[trigger] map@.rooms[i],
                ) by {
                    assert(room_fits(before, before.rooms[i]));
                }
                assert forall|i: int, k: int|
                    0 <= i < map@.rooms.len() && 0 <= k < map@.tiles.len() && #[trigger] in_room(
                        map@.rooms[i],
                        k % (map@.width as int),
                        k / (map@.width as int),
                    ) implies map@.tiles[k] != TileType::Wall by {
                    assert(in_room(
                        before.rooms[i],
                        k % (before.width as int),
                        k / (before.width as int),
                    ));
                }
            }
        }
        map
    }
}

/// Adding a room keeps earlier floors open, opens the new one, and keeps
/// the rooms apart; and digging never makes stairs.
pub proof fn lemma_room_added(map: MapModel, room: Rect, horizontal_first: bool)
    requires
        map.wf(),
        rooms_apart(map),
        rooms_open(map),
        !overlaps_any(map, room, map.rooms.len() as int),
    ensures
        rooms_apart(with_room(map, room, horizontal_first)),
        rooms_open(with_room(map, room, horizontal_first)),
        forall|k: int|
            0 <= k < map.tiles.len() && with_room(map, room, horizontal_first).tiles[k]
                == TileType::DownStairs ==> map.tiles[k] == TileType::DownStairs,
{
    let m = with_room(map, room, horizontal_first);
    assert forall|i: int, j: int|
        #![trigger m.rooms[j], m.rooms[i]]
        0 <= i < j < m.rooms.len() implies !m.rooms[j].spec_intersects(&m.rooms[i]) by {
        if j < map.rooms.len() {
            assert(!map.rooms[j].spec_intersects(&map.rooms[i]));
        } else {
            assert(!room.spec_intersects(&map.rooms[i]));
        }
    }
    assert forall|i: int, k: int|
        0 <= i < m.rooms.len() && 0 <= k < m.tiles.len() && #[trigger] in_room(
            m.rooms[i],
            k % (m.width as int),
            k / (m.width as int),
        ) implies m.tiles[k] != TileType::Wall by {
        if i < map.rooms.len() {
            assert(in_room(map.rooms[i], k % (map.width as int), k / (map.width as int)));
        }
    }
}

} // verus!
