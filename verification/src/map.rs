use vstd::prelude::*;
use crate::components::Entity;
use crate::random;
use crate::rect::{Rect, rects_intersect};

verus! {

/// What a map cell is made of.
#[derive(Clone, Copy, PartialEq, Eq, Structural, Debug)]
pub enum TileType {
    Wall,
    Floor,
}

/// The dungeon level: a `width` x `height` grid of tiles stored row by row,
/// the rooms carved into it, and per-tile layers kept by the systems.
pub struct GameMap {
    pub tiles: Vec<TileType>,
    pub rooms: Vec<Rect>,
    pub width: i32,
    pub height: i32,
    pub revealed_tiles: Vec<bool>,
    pub visible_tiles: Vec<bool>,
    pub blocked_tiles: Vec<bool>,
    pub tile_contents: Vec<Vec<Entity>>,
}

/// Number of rooms the generator tries to place.
pub const MAX_ROOMS: i32 = 30;
/// Smallest room side (inclusive).
pub const MIN_SIZE: i32 = 6;
/// Largest room side (exclusive).
pub const MAX_SIZE: i32 = 10;

/// Cost of a straight step, in hundredths.
pub const STRAIGHT_COST: u32 = 100;
/// Cost of a diagonal step, in hundredths.
pub const DIAGONAL_COST: u32 = 145;

/// A revealed cell as it is to be drawn.
#[derive(Clone, Copy, PartialEq, Eq, Structural, Debug)]
pub struct CellView {
    pub x: i32,
    pub y: i32,
    pub tile: TileType,
    pub visible: bool,
}

impl TileType {
    /// The character a tile is drawn with.
    pub fn glyph(&self) -> (c: char)
        ensures
            c == if *self == TileType::Floor { '.' } else { '#' },
    {
        match self {
            TileType::Floor => '.',
            TileType::Wall => '#',
        }
    }
}

/// Row-major index of the cell `(x, y)` in a grid `width` cells wide.
pub open spec fn idx_of(width: int, x: int, y: int) -> int {
    y * width + x
}

/// The tile at `(x, y)`.
pub open spec fn tile_at(tiles: Seq<TileType>, width: int, x: int, y: int) -> TileType {
    tiles[idx_of(width, x, y)]
}

/// `v` lies between `a` and `b`, whichever is the smaller.
pub open spec fn between(v: int, a: int, b: int) -> bool {
    (a <= v && v <= b) || (b <= v && v <= a)
}

/// The cells a room opens up: all but its top row and left column.
pub open spec fn in_room_interior(r: Rect, x: int, y: int) -> bool {
    r.x1 < x <= r.x2 && r.y1 < y <= r.y2
}

/// The L-shaped corridor from the centre of `from` to the centre of `to`:
/// along `from`'s row then `to`'s column, or along `from`'s column then
/// `to`'s row.
pub open spec fn on_corridor(from: Rect, to: Rect, horizontal_first: bool, x: int, y: int) -> bool {
    let ax = from.spec_center().0;
    let ay = from.spec_center().1;
    let bx = to.spec_center().0;
    let by = to.spec_center().1;
    if horizontal_first {
        (y == ay && between(x, ax, bx)) || (x == bx && between(y, ay, by))
    } else {
        (x == ax && between(y, ay, by)) || (y == by && between(x, ax, bx))
    }
}

/// A room the generator can place in a `w` x `h` map: its sides are within
/// the generator's size range and it keeps off the map's last row and column.
pub open spec fn room_fits(r: Rect, w: int, h: int) -> bool {
    &&& 0 <= r.x1 && r.x2 <= w - 2
    &&& 0 <= r.y1 && r.y2 <= h - 2
    &&& MIN_SIZE <= r.x2 - r.x1 < MAX_SIZE
    &&& MIN_SIZE <= r.y2 - r.y1 < MAX_SIZE
}

/// Every cell of the corridor from `a` to `b` (taken one way or the other)
/// is floor.
pub open spec fn rooms_connected(tiles: Seq<TileType>, w: int, a: Rect, b: Rect) -> bool {
    ||| forall|x: int, y: int| #[trigger] on_corridor(a, b, true, x, y) ==> tile_at(tiles, w, x, y) == TileType::Floor
    ||| forall|x: int, y: int| #[trigger] on_corridor(a, b, false, x, y) ==> tile_at(tiles, w, x, y) == TileType::Floor
}

/// Cell `(x, y)` is opened up by room `i` of `rooms`: it lies in the room's
/// interior, or on the corridor (taken either way) from the room before it.
pub open spec fn opened_by(rooms: Seq<Rect>, i: int, x: int, y: int) -> bool {
    ||| in_room_interior(rooms[i], x, y)
    ||| (i >= 1 && (on_corridor(rooms[i - 1], rooms[i], true, x, y) || on_corridor(rooms[i - 1], rooms[i], false, x, y)))
}

/// The `k`-th of the eight directions as `(dx, dy)`, in the order exits are
/// offered: west, east, north, south, north-west, north-east, south-west,
/// south-east.
pub open spec fn direction(k: int) -> (int, int) {
    if k == 0 {
        (-1, 0)
    } else if k == 1 {
        (1, 0)
    } else if k == 2 {
        (0, -1)
    } else if k == 3 {
        (0, 1)
    } else if k == 4 {
        (-1, -1)
    } else if k == 5 {
        (1, -1)
    } else if k == 6 {
        (-1, 1)
    } else {
        (1, 1)
    }
}

/// The direction opposite to the `k`-th one.
pub open spec fn opposite(k: int) -> int {
    if k == 0 {
        1
    } else if k == 1 {
        0
    } else if k == 2 {
        3
    } else if k == 3 {
        2
    } else if k == 4 {
        7
    } else if k == 5 {
        6
    } else if k == 6 {
        5
    } else {
        4
    }
}

/// The room a try of the generator proposes for side lengths `w` and `h` and
/// the rolls `x_roll` and `y_roll`: its corner lies one cell up and to the
/// left of the rolled position.
pub open spec fn candidate_room(w: i32, h: i32, x_roll: i32, y_roll: i32) -> Rect {
    Rect { x1: (x_roll - 1) as i32, y1: (y_roll - 1) as i32, x2: (x_roll - 1 + w) as i32, y2: (y_roll - 1 + h) as i32 }
}

/// The index of a cell of the grid lies within the grid.
pub proof fn lemma_idx_bounds(w: int, h: int, x: int, y: int)
    requires
        0 <= x < w,
        0 <= y < h,
    ensures
        0 <= idx_of(w, x, y) < w * h,
{
    assert(0 <= y * w + x < w * h) by (nonlinear_arith)
        requires
            0 <= x < w,
            0 <= y < h,
    ;
}

/// Distinct cells of a row-major grid have distinct indices.
pub proof fn lemma_idx_injective(w: int, x1: int, y1: int, x2: int, y2: int)
    requires
        0 <= x1 < w,
        0 <= x2 < w,
        idx_of(w, x1, y1) == idx_of(w, x2, y2),
    ensures
        x1 == x2,
        y1 == y2,
{
    if y1 < y2 {
        assert(y1 * w + w <= y2 * w) by (nonlinear_arith)
            requires
                y1 < y2,
                0 < w,
        ;
    } else if y2 < y1 {
        assert(y2 * w + w <= y1 * w) by (nonlinear_arith)
            requires
                y2 < y1,
                0 < w,
        ;
    }
}

/// `after` is `before` with floor laid on every cell whose index is that of
/// some point of `area`.
pub open spec fn floored(before: Seq<TileType>, after: Seq<TileType>, w: int, area: spec_fn(int, int) -> bool) -> bool {
    &&& after.len() == before.len()
    &&& forall|i: int|
        0 <= i < before.len() ==> #[trigger] after[i] == if exists|x: int, y: int| #[trigger] area(x, y) && idx_of(w, x, y) == i {
            TileType::Floor
        } else {
            before[i]
        }
}

/// Every point of `area` has an index, and a row offset, that fit an `i32`.
pub open spec fn indices_fit(w: int, area: spec_fn(int, int) -> bool) -> bool {
    forall|x: int, y: int| #[trigger] area(x, y) ==> i32::MIN <= y * w <= i32::MAX && i32::MIN <= idx_of(w, x, y) <= i32::MAX
}

/// Laying floor on no cell leaves the tiles as they are.
proof fn lemma_floored_nothing(tiles: Seq<TileType>, w: int)
    ensures
        floored(tiles, tiles, w, |x: int, y: int| false),
{
}

/// Only the points of an area matter, not how the area is written.
proof fn lemma_floored_same_area(
    before: Seq<TileType>,
    after: Seq<TileType>,
    w: int,
    a: spec_fn(int, int) -> bool,
    b: spec_fn(int, int) -> bool,
)
    requires
        floored(before, after, w, a),
        forall|x: int, y: int| #[trigger] a(x, y) == b(x, y),
    ensures
        floored(before, after, w, b),
{
    assert forall|i: int| 0 <= i < before.len() implies #[trigger] after[i] == if exists|x: int, y: int|
        #[trigger] b(x, y) && idx_of(w, x, y) == i {
        TileType::Floor
    } else {
        before[i]
    } by {
        if exists|x: int, y: int| #[trigger] a(x, y) && idx_of(w, x, y) == i {
            let (x, y) = choose|x: int, y: int| #[trigger] a(x, y) && idx_of(w, x, y) == i;
            assert(b(x, y));
        }
        if exists|x: int, y: int| #[trigger] b(x, y) && idx_of(w, x, y) == i {
            let (x, y) = choose|x: int, y: int| #[trigger] b(x, y) && idx_of(w, x, y) == i;
            assert(a(x, y));
        }
    }
}

/// Laying floor on `a` and then on `b` lays floor on `u`, the union of both.
proof fn lemma_floored_union(
    first: Seq<TileType>,
    mid: Seq<TileType>,
    last: Seq<TileType>,
    w: int,
    a: spec_fn(int, int) -> bool,
    b: spec_fn(int, int) -> bool,
    u: spec_fn(int, int) -> bool,
)
    requires
        floored(first, mid, w, a),
        floored(mid, last, w, b),
        forall|x: int, y: int| #[trigger] u(x, y) == (a(x, y) || b(x, y)),
    ensures
        floored(first, last, w, u),
{
    assert forall|i: int| 0 <= i < first.len() implies #[trigger] last[i] == if exists|x: int, y: int|
        #[trigger] u(x, y) && idx_of(w, x, y) == i {
        TileType::Floor
    } else {
        first[i]
    } by {
        assert(mid[i] == if exists|x: int, y: int| #[trigger] a(x, y) && idx_of(w, x, y) == i {
            TileType::Floor
        } else {
            first[i]
        });
        if exists|x: int, y: int| #[trigger] a(x, y) && idx_of(w, x, y) == i {
            let (x, y) = choose|x: int, y: int| #[trigger] a(x, y) && idx_of(w, x, y) == i;
            assert(u(x, y));
        }
        if exists|x: int, y: int| #[trigger] b(x, y) && idx_of(w, x, y) == i {
            let (x, y) = choose|x: int, y: int| #[trigger] b(x, y) && idx_of(w, x, y) == i;
            assert(u(x, y));
        }
        if exists|x: int, y: int| #[trigger] u(x, y) && idx_of(w, x, y) == i {
            let (x, y) = choose|x: int, y: int| #[trigger] u(x, y) && idx_of(w, x, y) == i;
            if a(x, y) {
                assert(exists|x: int, y: int| #[trigger] a(x, y) && idx_of(w, x, y) == i);
            } else {
                assert(exists|x: int, y: int| #[trigger] b(x, y) && idx_of(w, x, y) == i);
            }
        }
    }
}

/// Points on the grid have indices, and row offsets, that fit an `i32`.
proof fn lemma_inside_fits(w: int, h: int, area: spec_fn(int, int) -> bool)
    requires
        1 <= w,
        1 <= h,
        w * h <= i32::MAX,
        forall|x: int, y: int| #[trigger] area(x, y) ==> 0 <= x < w && 0 <= y < h,
    ensures
        indices_fit(w, area),
{
    assert forall|x: int, y: int| #[trigger] area(x, y) implies i32::MIN <= y * w <= i32::MAX && i32::MIN <= idx_of(w, x, y)
        <= i32::MAX by {
        lemma_idx_bounds(w, h, x, y);
        assert(0 <= y * w <= w * h) by (nonlinear_arith)
            requires
                0 <= y < h,
                1 <= w,
        ;
    }
}

impl GameMap {
    /// Number of cells.
    pub open spec fn size(self) -> int {
        self.width * self.height
    }

    /// `(x, y)` is a cell of the map.
    pub open spec fn in_bounds(self, x: int, y: int) -> bool {
        0 <= x < self.width && 0 <= y < self.height
    }

    /// The dimensions are positive, the cell count fits an `i32`, and every
    /// per-cell layer has one entry per cell.
    pub open spec fn wf(self) -> bool {
        &&& 1 <= self.width
        &&& 1 <= self.height
        &&& self.width * self.height <= i32::MAX
        &&& self.tiles@.len() == self.size()
        &&& self.revealed_tiles@.len() == self.size()
        &&& self.visible_tiles@.len() == self.size()
        &&& self.blocked_tiles@.len() == self.size()
        &&& self.tile_contents@.len() == self.size()
    }

    /// The tile at `(x, y)`.
    pub open spec fn tile(self, x: int, y: int) -> TileType {
        tile_at(self.tiles@, self.width as int, x, y)
    }

    /// The rooms and the corridors between them, as the generator leaves them:
    /// every room fits the map and no two rooms overlap, every room's interior
    /// is floor, each room is joined to the one placed before it by a corridor
    /// of floor, every floor cell was opened up by some room, and the
    /// outermost ring of cells is wall.
    pub open spec fn layout_ok(self) -> bool {
        let w = self.width as int;
        let h = self.height as int;
        &&& forall|i: int| 0 <= i < self.rooms@.len() ==> room_fits(#[trigger] self.rooms@[i], w, h)
        &&& forall|i: int, j: int|
            0 <= i < j < self.rooms@.len() ==> !rects_intersect(#[trigger] self.rooms@[i], #[trigger] self.rooms@[j])
        &&& forall|i: int, x: int, y: int|
            0 <= i < self.rooms@.len() && #[trigger] in_room_interior(self.rooms@[i], x, y)
                ==> self.tile(x, y) == TileType::Floor
        &&& forall|i: int|
            1 <= i < self.rooms@.len() ==> rooms_connected(self.tiles@, w, self.rooms@[i - 1], #[trigger] self.rooms@[i])
        &&& forall|x: int, y: int|
            #![trigger self.tile(x, y)]
            self.in_bounds(x, y) && self.tile(x, y) == TileType::Floor ==> exists|i: int|
                0 <= i < self.rooms@.len() && #[trigger] opened_by(self.rooms@, i, x, y)
        &&& forall|x: int, y: int|
            #![trigger self.tile(x, y)]
            self.in_bounds(x, y) && !(1 <= x <= w - 2 && 1 <= y <= h - 2) ==> self.tile(x, y) == TileType::Wall
    }

    /// The layers that the systems fill in later are all cleared.
    pub open spec fn layers_clear(self) -> bool {
        &&& forall|i: int| 0 <= i < self.size() ==> !(#[trigger] self.revealed_tiles@[i])
        &&& forall|i: int| 0 <= i < self.size() ==> !(#[trigger] self.visible_tiles@[i])
        &&& forall|i: int| 0 <= i < self.size() ==> !(#[trigger] self.blocked_tiles@[i])
        &&& forall|i: int| 0 <= i < self.size() ==> (#[trigger] self.tile_contents@[i])@.len() == 0
    }

    /// All fields but the tiles are those of `other`.
    pub open spec fn same_but_tiles(self, other: GameMap) -> bool {
        &&& self.rooms == other.rooms
        &&& self.width == other.width
        &&& self.height == other.height
        &&& self.revealed_tiles == other.revealed_tiles
        &&& self.visible_tiles == other.visible_tiles
        &&& self.blocked_tiles == other.blocked_tiles
        &&& self.tile_contents == other.tile_contents
        &&& self.tiles@.len() == other.tiles@.len()
    }

    /// A fresh level of `width` x `height` cells: `MAX_ROOMS` times, a room
    /// size and position are drawn and `try_room` places that room when it
    /// overlaps no room placed before it, joined to the previous room by a
    /// corridor that turns at a corner picked by a coin. What holds of
    /// every outcome is stated: the layout properties of `layout_ok`, at least
    /// one room (the first one tried always fits), and cleared visibility,
    /// blocking and content layers.
    pub fn new(width: i32, height: i32) -> (map: GameMap)
        requires
            11 <= width,
            11 <= height,
            width * height <= i32::MAX,
        ensures
            map.width == width,
            map.height == height,
            map.wf(),
            map.layers_clear(),
            map.layout_ok(),
            1 <= map.rooms@.len() <= MAX_ROOMS,
    {
        let n = (width * height) as usize;
        let mut map = GameMap {
            tiles: filled_tiles(n, TileType::Wall),
            rooms: Vec::new(),
            width,
            height,
            revealed_tiles: filled_flags(n, false),
            visible_tiles: filled_flags(n, false),
            blocked_tiles: filled_flags(n, false),
            tile_contents: empty_contents(n),
        };
        proof {
            assert forall|x: int, y: int| #![trigger map.tile(x, y)] map.in_bounds(x, y) implies map.tile(x, y)
                == TileType::Wall by {
                lemma_idx_bounds(width as int, height as int, x, y);
            }
        }
        let mut rng = random::new_rng();
        let mut tries: i32 = 0;
        while tries < MAX_ROOMS
            invariant
                map.width == width,
                map.height == height,
                11 <= width,
                11 <= height,
                map.wf(),
                map.layers_clear(),
                map.layout_ok(),
                0 <= tries <= MAX_ROOMS,
                map.rooms@.len() <= tries,
                tries > 0 ==> map.rooms@.len() >= 1,
            decreases MAX_ROOMS - tries,
        {
            let w = random::range(&mut rng, MIN_SIZE, MAX_SIZE);
            let h = random::range(&mut rng, MIN_SIZE, MAX_SIZE);
            let x_roll = random::roll_dice(&mut rng, 1, (map.width - 1) - w);
            let y_roll = random::roll_dice(&mut rng, 1, (map.height - 1) - h);
            let candidate = Rect::new(x_roll - 1, y_roll - 1, w, h);
            let horizontal_first = if map.rooms.len() > 0 && map.room_is_free(&candidate) {
                random::range(&mut rng, 0, 2) == 1
            } else {
                false
            };
            map.try_room(w, h, x_roll, y_roll, horizontal_first);
            tries = tries + 1;
        }
        map
    }

    /// One try of the generator, given what it drew: side lengths `w` and `h`,
    /// the rolls `x_roll` and `y_roll` for the position, and the coin that
    /// picks the corridor's corner. The room `candidate_room` proposes is
    /// placed, as `add_room` places it, exactly when it overlaps no room placed
    /// before; otherwise the map is left as it is. Returns whether the room
    /// was placed.
    pub fn try_room(&mut self, w: i32, h: i32, x_roll: i32, y_roll: i32, horizontal_first: bool) -> (placed: bool)
        requires
            old(self).wf(),
            old(self).layout_ok(),
            MIN_SIZE <= w < MAX_SIZE,
            MIN_SIZE <= h < MAX_SIZE,
            1 <= x_roll <= (old(self).width - 1) - w,
            1 <= y_roll <= (old(self).height - 1) - h,
        ensures
            placed == old(self).spec_room_is_free(candidate_room(w, h, x_roll, y_roll)),
            final(self).rooms@ == if placed {
                old(self).rooms@.push(candidate_room(w, h, x_roll, y_roll))
            } else {
                old(self).rooms@
            },
            !placed ==> *final(self) == *old(self),
            final(self).wf(),
            final(self).layout_ok(),
            final(self).width == old(self).width,
            final(self).height == old(self).height,
            final(self).revealed_tiles == old(self).revealed_tiles,
            final(self).visible_tiles == old(self).visible_tiles,
            final(self).blocked_tiles == old(self).blocked_tiles,
            final(self).tile_contents == old(self).tile_contents,
            forall|x: int, y: int|
                #![trigger final(self).tile(x, y)]
                old(self).in_bounds(x, y) ==> final(self).tile(x, y) == if placed && old(self).carved_by(
                    candidate_room(w, h, x_roll, y_roll),
                    horizontal_first,
                    x,
                    y,
                ) {
                    TileType::Floor
                } else {
                    old(self).tile(x, y)
                },
    {
        let candidate = Rect::new(x_roll - 1, y_roll - 1, w, h);
        if self.room_is_free(&candidate) {
            proof {
                if self.rooms@.len() > 0 {
                    assert(room_fits(self.rooms@[self.rooms@.len() - 1], self.width as int, self.height as int));
                }
            }
            self.add_room(candidate, horizontal_first);
            true
        } else {
            false
        }
    }

    /// Marks exactly the wall tiles as blocked.
    pub fn init_blocked_tiles(&mut self)
        requires
            old(self).wf(),
        ensures
            final(self).wf(),
            final(self).tiles == old(self).tiles,
            final(self).rooms == old(self).rooms,
            final(self).width == old(self).width,
            final(self).height == old(self).height,
            final(self).revealed_tiles == old(self).revealed_tiles,
            final(self).visible_tiles == old(self).visible_tiles,
            final(self).tile_contents == old(self).tile_contents,
            forall|i: int|
                0 <= i < final(self).size() ==> #[trigger] final(self).blocked_tiles@[i] == (old(self).tiles@[i]
                    == TileType::Wall),
    {
        let mut idx: usize = 0;
        while idx < self.tiles.len()
            invariant
                self.wf(),
                self.tiles == old(self).tiles,
                self.rooms == old(self).rooms,
                self.width == old(self).width,
                self.height == old(self).height,
                self.revealed_tiles == old(self).revealed_tiles,
                self.visible_tiles == old(self).visible_tiles,
                self.tile_contents == old(self).tile_contents,
                0 <= idx <= self.size(),
                forall|i: int| 0 <= i < idx ==> #[trigger] self.blocked_tiles@[i] == (self.tiles@[i] == TileType::Wall),
            decreases self.size() - idx,
        {
            let wall = self.tiles[idx] == TileType::Wall;
            self.blocked_tiles.set(idx, wall);
            idx = idx + 1;
        }
    }

    /// Empties the entity list of every cell.
    pub fn clear_tile_contents(&mut self)
        requires
            old(self).wf(),
        ensures
            final(self).wf(),
            final(self).tiles == old(self).tiles,
            final(self).rooms == old(self).rooms,
            final(self).width == old(self).width,
            final(self).height == old(self).height,
            final(self).revealed_tiles == old(self).revealed_tiles,
            final(self).visible_tiles == old(self).visible_tiles,
            final(self).blocked_tiles == old(self).blocked_tiles,
            forall|i: int| 0 <= i < final(self).size() ==> (#[trigger] final(self).tile_contents@[i])@.len() == 0,
    {
        let mut idx: usize = 0;
        while idx < self.tile_contents.len()
            invariant
                self.wf(),
                self.tiles == old(self).tiles,
                self.rooms == old(self).rooms,
                self.width == old(self).width,
                self.height == old(self).height,
                self.revealed_tiles == old(self).revealed_tiles,
                self.visible_tiles == old(self).visible_tiles,
                self.blocked_tiles == old(self).blocked_tiles,
                0 <= idx <= self.size(),
                forall|i: int| 0 <= i < idx ==> (#[trigger] self.tile_contents@[i])@.len() == 0,
            decreases self.size() - idx,
        {
            self.tile_contents.set(idx, Vec::new());
            idx = idx + 1;
        }
    }

    /// Whether a move may end on `(x, y)`: it is off the top row and left
    /// column, within the map, and not blocked.
    pub open spec fn spec_is_exit_valid(self, x: int, y: int) -> bool {
        if x < 1 || x > self.width - 1 || y < 1 || y > self.height - 1 {
            false
        } else {
            !self.blocked_tiles@[idx_of(self.width as int, x, y)]
        }
    }

    fn is_exit_valid(&self, x: i32, y: i32) -> (valid: bool)
        requires
            self.wf(),
        ensures
            valid == self.spec_is_exit_valid(x as int, y as int),
    {
        if x < 1 || x > self.width - 1 || y < 1 || y > self.height - 1 {
            return false;
        }
        proof {
            lemma_idx_bounds(self.width as int, self.height as int, x as int, y as int);
            assert(y * self.width <= i32::MAX) by (nonlinear_arith)
                requires
                    0 <= y < self.height,
                    1 <= self.width,
                    self.width * self.height <= i32::MAX,
            ;
        }
        let idx = self.xy_idx(x, y);
        !self.blocked_tiles[idx]
    }

    /// The grid's dimensions, as `(width, height)`.
    pub fn dimensions(&self) -> (d: (i32, i32))
        ensures
            d == (self.width, self.height),
    {
        (self.width, self.height)
    }

    /// Whether the cell at `idx` blocks sight: walls do.
    pub fn is_opaque(&self, idx: usize) -> (opaque: bool)
        requires
            idx < self.tiles@.len(),
        ensures
            opaque == (self.tiles@[idx as int] == TileType::Wall),
    {
        self.tiles[idx] == TileType::Wall
    }

    /// The exits from cell `idx` in the order they are offered: west, east,
    /// north, south, then north-west, north-east, south-west, south-east; each
    /// kept when `spec_is_exit_valid` holds of the neighbour, and paired with
    /// its cost in hundredths (a straight step costs 100, a diagonal one 145).
    pub open spec fn spec_available_exits(self, idx: int) -> Seq<(usize, u32)> {
        let w = self.width as int;
        let x = idx % w;
        let y = idx / w;
        let s0 = Seq::<(usize, u32)>::empty();
        let s1 = if self.spec_is_exit_valid(x - 1, y) { s0.push(((idx - 1) as usize, STRAIGHT_COST)) } else { s0 };
        let s2 = if self.spec_is_exit_valid(x + 1, y) { s1.push(((idx + 1) as usize, STRAIGHT_COST)) } else { s1 };
        let s3 = if self.spec_is_exit_valid(x, y - 1) { s2.push(((idx - w) as usize, STRAIGHT_COST)) } else { s2 };
        let s4 = if self.spec_is_exit_valid(x, y + 1) { s3.push(((idx + w) as usize, STRAIGHT_COST)) } else { s3 };
        let s5 = if self.spec_is_exit_valid(x - 1, y - 1) { s4.push(((idx - w - 1) as usize, DIAGONAL_COST)) } else { s4 };
        let s6 = if self.spec_is_exit_valid(x + 1, y - 1) { s5.push(((idx - w + 1) as usize, DIAGONAL_COST)) } else { s5 };
        let s7 = if self.spec_is_exit_valid(x - 1, y + 1) { s6.push(((idx + w - 1) as usize, DIAGONAL_COST)) } else { s6 };
        if self.spec_is_exit_valid(x + 1, y + 1) { s7.push(((idx + w + 1) as usize, DIAGONAL_COST)) } else { s7 }
    }

    /// The exit from cell `idx` in direction `k` (see `direction`), when a
    /// move may end on that neighbour: its index and the step's cost in
    /// hundredths.
    pub open spec fn exit_towards(self, idx: int, k: int) -> Option<(usize, u32)> {
        let w = self.width as int;
        let d = direction(k);
        if self.spec_is_exit_valid(idx % w + d.0, idx / w + d.1) {
            Some(((idx + d.1 * w + d.0) as usize, if d.0 == 0 || d.1 == 0 { STRAIGHT_COST } else { DIAGONAL_COST }))
        } else {
            None
        }
    }

    /// The exits from cell `idx` in the first `n` directions, in order.
    pub open spec fn exits_from(self, idx: int, n: int) -> Seq<(usize, u32)>
        decreases n,
    {
        if n <= 0 {
            Seq::empty()
        } else {
            match self.exit_towards(idx, n - 1) {
                Some(e) => self.exits_from(idx, n - 1).push(e),
                None => self.exits_from(idx, n - 1),
            }
        }
    }

    /// The cells reachable in one step from cell `idx`, with their costs in
    /// hundredths, for path finding.
    pub fn get_available_exits(&self, idx: usize) -> (exits: Vec<(usize, u32)>)
        requires
            self.wf(),
            idx < i32::MAX,
        ensures
            exits@ == self.spec_available_exits(idx as int),
            forall|k: int| 0 <= k < exits@.len() ==> (#[trigger] exits@[k]).0 < self.size(),
    {
        let ghost w = self.width as int;
        let ghost h = self.height as int;
        proof {
            let i = idx as int;
            assert(0 <= i % w < w && i / w <= i && i / w >= 0 && i == (i / w) * w + i % w) by (nonlinear_arith)
                requires
                    0 <= i < i32::MAX,
                    1 <= w,
                    1 <= h,
            ;
        }
        let mut exits: Vec<(usize, u32)> = Vec::new();
        let x = idx as i32 % self.width;
        let y = idx as i32 / self.width;
        let width = self.width as usize;
        proof {
            let xi = x as int;
            let yi = y as int;
            assert(idx as int == yi * w + xi);
            assert(idx_of(w, xi - 1, yi - 1) == idx - w - 1 && idx_of(w, xi + 1, yi - 1) == idx - w + 1
                && idx_of(w, xi - 1, yi + 1) == idx + w - 1 && idx_of(w, xi + 1, yi + 1) == idx + w + 1
                && idx_of(w, xi, yi - 1) == idx - w && idx_of(w, xi, yi + 1) == idx + w
                && idx_of(w, xi - 1, yi) == idx - 1 && idx_of(w, xi + 1, yi) == idx + 1) by (nonlinear_arith)
                requires
                    idx as int == yi * w + xi,
            ;
            assert forall|xx: int, yy: int| 0 <= xx < w && 0 <= yy < h implies 0 <= #[trigger] idx_of(w, xx, yy) < w * h by {
                lemma_idx_bounds(w, h, xx, yy);
            }
        }
        if self.is_exit_valid(x - 1, y) {
            exits.push((idx - 1, STRAIGHT_COST));
        }
        if self.is_exit_valid(x + 1, y) {
            exits.push((idx + 1, STRAIGHT_COST));
        }
        if self.is_exit_valid(x, y - 1) {
            exits.push((idx - width, STRAIGHT_COST));
        }
        if self.is_exit_valid(x, y + 1) {
            exits.push((idx + width, STRAIGHT_COST));
        }
        if self.is_exit_valid(x - 1, y - 1) {
            exits.push((idx - width - 1, DIAGONAL_COST));
        }
        if self.is_exit_valid(x + 1, y - 1) {
            exits.push((idx - width + 1, DIAGONAL_COST));
        }
        if self.is_exit_valid(x - 1, y + 1) {
            exits.push((idx + width - 1, DIAGONAL_COST));
        }
        if self.is_exit_valid(x + 1, y + 1) {
            exits.push((idx + width + 1, DIAGONAL_COST));
        }
        exits
    }

    /// How a revealed cell is to be drawn.
    pub open spec fn cell_view(self, idx: int) -> CellView {
        CellView {
            x: (idx % (self.width as int)) as i32,
            y: (idx / (self.width as int)) as i32,
            tile: self.tiles@[idx],
            visible: self.visible_tiles@[idx],
        }
    }

    /// The views of the revealed cells among the first `k`, in index order.
    pub open spec fn revealed_views(self, k: int) -> Seq<CellView>
        decreases k,
    {
        if k <= 0 {
            Seq::empty()
        } else if self.revealed_tiles@[k - 1] {
            self.revealed_views(k - 1).push(self.cell_view(k - 1))
        } else {
            self.revealed_views(k - 1)
        }
    }

    /// The cells to draw: every revealed cell in index order, with its
    /// position, its tile, and whether it is in view now (cells out of view
    /// are drawn greyed).
    pub fn draw(&self) -> (cells: Vec<CellView>)
        requires
            self.wf(),
        ensures
            cells@ == self.revealed_views(self.size()),
    {
        let mut cells: Vec<CellView> = Vec::new();
        let mut idx: usize = 0;
        let ghost w = self.width as int;
        while idx < self.tiles.len()
            invariant
                self.wf(),
                w == self.width,
                0 <= idx <= self.size(),
                cells@ == self.revealed_views(idx as int),
            decreases self.size() - idx,
        {
            if self.revealed_tiles[idx] {
                proof {
                    let i = idx as int;
                    assert(0 <= i % w < w && 0 <= i / w <= i) by (nonlinear_arith)
                        requires
                            0 <= i,
                            1 <= w,
                    ;
                }
                let width = self.width as usize;
                let cell = CellView {
                    x: (idx % width) as i32,
                    y: (idx / width) as i32,
                    tile: self.tiles[idx],
                    visible: self.visible_tiles[idx],
                };
                cells.push(cell);
            }
            idx = idx + 1;
        }
        cells
    }

    /// Index of the cell `(x, y)`: `y * width + x` taken as a `usize`, so that
    /// a negative value lands past every cell of the map.
    pub fn xy_idx(&self, x: i32, y: i32) -> (idx: usize)
        requires
            i32::MIN <= y * self.width <= i32::MAX,
            i32::MIN <= idx_of(self.width as int, x as int, y as int) <= i32::MAX,
        ensures
            idx == idx_of(self.width as int, x as int, y as int) as usize,
            0 <= idx_of(self.width as int, x as int, y as int) ==> idx == idx_of(self.width as int, x as int, y as int),
            idx_of(self.width as int, x as int, y as int) < 0 ==> idx > i32::MAX,
    {
        let v = y * self.width + x;
        proof {
            assert(v < 0 ==> (v as usize) > 0x7fff_ffffusize) by (bit_vector);
        }
        v as usize
    }

    /// Lays floor on the cell whose index `(x, y)` has, when that index is one
    /// of the map's; a point off the grid is skipped.
    fn floor_cell(&mut self, x: i32, y: i32)
        requires
            old(self).wf(),
            i32::MIN <= y * old(self).width <= i32::MAX,
            i32::MIN <= idx_of(old(self).width as int, x as int, y as int) <= i32::MAX,
        ensures
            final(self).wf(),
            final(self).same_but_tiles(*old(self)),
            floored(old(self).tiles@, final(self).tiles@, old(self).width as int, |xx: int, yy: int| xx == x && yy == y),
    {
        let ghost w = self.width as int;
        let idx = self.xy_idx(x, y);
        if idx < self.tiles.len() {
            self.tiles.set(idx, TileType::Floor);
        }
        proof {
            let area = |xx: int, yy: int| xx == x && yy == y;
            assert forall|i: int| 0 <= i < old(self).tiles@.len() implies #[trigger] self.tiles@[i] == if exists|xx: int, yy: int|
                #[trigger] area(xx, yy) && idx_of(w, xx, yy) == i {
                TileType::Floor
            } else {
                old(self).tiles@[i]
            } by {
                if i == idx_of(w, x as int, y as int) {
                    assert(area(x as int, y as int));
                }
            }
        }
    }

    /// Lays floor on the cells of the interior of `room`, skipping any whose
    /// index is not one of the map's.
    fn apply_room_to_map(&mut self, room: &Rect)
        requires
            old(self).wf(),
            room.y1 < i32::MAX,
            room.y1 < room.y2 ==> room.x1 < i32::MAX,
            indices_fit(old(self).width as int, |x: int, y: int| in_room_interior(*room, x, y)),
        ensures
            final(self).wf(),
            final(self).same_but_tiles(*old(self)),
            floored(old(self).tiles@, final(self).tiles@, old(self).width as int, |x: int, y: int| in_room_interior(*room, x, y)),
            0 <= room.x1 <= room.x2 < old(self).width && 0 <= room.y1 <= room.y2 < old(self).height ==> forall|x: int, y: int|
                #![trigger final(self).tile(x, y)]
                old(self).in_bounds(x, y) ==> final(self).tile(x, y) == if in_room_interior(*room, x, y) {
                    TileType::Floor
                } else {
                    old(self).tile(x, y)
                },
    {
        let ghost w = self.width as int;
        let ghost r = *room;
        proof {
            lemma_floored_nothing(self.tiles@, w);
            lemma_floored_same_area(self.tiles@, self.tiles@, w, |xx: int, yy: int| false,
                |xx: int, yy: int| r.x1 < xx <= r.x2 && r.y1 < yy < r.y1 + 1);
        }
        let mut y: i64 = room.y1 as i64 + 1;
        while y <= room.y2 as i64
            invariant
                self.wf(),
                self.same_but_tiles(*old(self)),
                w == self.width,
                r == *room,
                room.y1 < room.y2 ==> room.x1 < i32::MAX,
                indices_fit(w, |x: int, y: int| in_room_interior(r, x, y)),
                room.y1 + 1 <= y,
                y <= room.y2 + 1 || y == room.y1 + 1,
                floored(old(self).tiles@, self.tiles@, w, |xx: int, yy: int| r.x1 < xx <= r.x2 && r.y1 < yy < y),
            decreases room.y2 + 1 - y,
        {
            let ghost row = y;
            proof {
                lemma_floored_same_area(old(self).tiles@, self.tiles@, w,
                    |xx: int, yy: int| r.x1 < xx <= r.x2 && r.y1 < yy < row,
                    |xx: int, yy: int| (r.x1 < xx <= r.x2 && r.y1 < yy < row) || (yy == row && r.x1 < xx < r.x1 + 1));
            }
            let mut x: i64 = room.x1 as i64 + 1;
            while x <= room.x2 as i64
                invariant
                    self.wf(),
                    self.same_but_tiles(*old(self)),
                    w == self.width,
                    r == *room,
                    row == y,
                    indices_fit(w, |x: int, y: int| in_room_interior(r, x, y)),
                    room.y1 + 1 <= y <= room.y2,
                    room.x1 + 1 <= x,
                    x <= room.x2 + 1 || x == room.x1 + 1,
                    floored(old(self).tiles@, self.tiles@, w,
                        |xx: int, yy: int| (r.x1 < xx <= r.x2 && r.y1 < yy < row) || (yy == row && r.x1 < xx < x)),
                decreases room.x2 + 1 - x,
            {
                let ghost col = x;
                let ghost before = self.tiles@;
                proof {
                    let interior = |xx: int, yy: int| in_room_interior(r, xx, yy);
                    assert(interior(x as int, y as int));
                }
                self.floor_cell(x as i32, y as i32);
                proof {
                    lemma_floored_union(old(self).tiles@, before, self.tiles@, w,
                        |xx: int, yy: int| (r.x1 < xx <= r.x2 && r.y1 < yy < row) || (yy == row && r.x1 < xx < col),
                        |xx: int, yy: int| xx == col && yy == row,
                        |xx: int, yy: int| (r.x1 < xx <= r.x2 && r.y1 < yy < row) || (yy == row && r.x1 < xx < col + 1));
                }
                x = x + 1;
            }
            proof {
                lemma_floored_same_area(old(self).tiles@, self.tiles@, w,
                    |xx: int, yy: int| (r.x1 < xx <= r.x2 && r.y1 < yy < row) || (yy == row && r.x1 < xx < x),
                    |xx: int, yy: int| r.x1 < xx <= r.x2 && r.y1 < yy < row + 1);
            }
            y = y + 1;
        }
        proof {
            lemma_floored_same_area(old(self).tiles@, self.tiles@, w,
                |xx: int, yy: int| r.x1 < xx <= r.x2 && r.y1 < yy < y,
                |xx: int, yy: int| in_room_interior(r, xx, yy));
            if 0 <= room.x1 <= room.x2 < old(self).width && 0 <= room.y1 <= room.y2 < old(self).height {
                lemma_floored_cells(*old(self), *self, |xx: int, yy: int| in_room_interior(r, xx, yy));
            }
        }
    }

    /// Lays floor on row `y` from column `x1` to column `x2`, skipping any cell
    /// whose index is not one of the map's.
    fn apply_horizontal_tunnel(&mut self, x1: i32, x2: i32, y: i32)
        requires
            old(self).wf(),
            indices_fit(old(self).width as int, |xx: int, yy: int| yy == y && between(xx, x1 as int, x2 as int)),
        ensures
            final(self).wf(),
            final(self).same_but_tiles(*old(self)),
            floored(old(self).tiles@, final(self).tiles@, old(self).width as int,
                |xx: int, yy: int| yy == y && between(xx, x1 as int, x2 as int)),
            0 <= x1 < old(self).width && 0 <= x2 < old(self).width && 0 <= y < old(self).height ==> forall|xx: int, yy: int|
                #![trigger final(self).tile(xx, yy)]
                old(self).in_bounds(xx, yy) ==> final(self).tile(xx, yy) == if yy == y && between(xx, x1 as int, x2 as int) {
                    TileType::Floor
                } else {
                    old(self).tile(xx, yy)
                },
    {
        let ghost w = self.width as int;
        let lo = if x1 < x2 { x1 } else { x2 };
        let hi = if x1 < x2 { x2 } else { x1 };
        proof {
            lemma_floored_nothing(self.tiles@, w);
            lemma_floored_same_area(self.tiles@, self.tiles@, w, |xx: int, yy: int| false,
                |xx: int, yy: int| yy == y && lo <= xx < lo);
        }
        let mut x: i64 = lo as i64;
        while x <= hi as i64
            invariant
                self.wf(),
                self.same_but_tiles(*old(self)),
                w == self.width,
                lo <= x1 && lo <= x2 && x1 <= hi && x2 <= hi,
                lo == x1 || lo == x2,
                hi == x1 || hi == x2,
                indices_fit(w, |xx: int, yy: int| yy == y && between(xx, x1 as int, x2 as int)),
                lo <= x <= hi + 1,
                floored(old(self).tiles@, self.tiles@, w, |xx: int, yy: int| yy == y && lo <= xx < x),
            decreases hi + 1 - x,
        {
            let ghost col = x;
            let ghost before = self.tiles@;
            proof {
                let path = |xx: int, yy: int| yy == y && between(xx, x1 as int, x2 as int);
                assert(path(x as int, y as int));
            }
            self.floor_cell(x as i32, y);
            proof {
                lemma_floored_union(old(self).tiles@, before, self.tiles@, w,
                    |xx: int, yy: int| yy == y && lo <= xx < col,
                    |xx: int, yy: int| xx == col && yy == y,
                    |xx: int, yy: int| yy == y && lo <= xx < col + 1);
            }
            x = x + 1;
        }
        proof {
            lemma_floored_same_area(old(self).tiles@, self.tiles@, w,
                |xx: int, yy: int| yy == y && lo <= xx < x,
                |xx: int, yy: int| yy == y && between(xx, x1 as int, x2 as int));
            if 0 <= x1 < old(self).width && 0 <= x2 < old(self).width && 0 <= y < old(self).height {
                lemma_floored_cells(*old(self), *self, |xx: int, yy: int| yy == y && between(xx, x1 as int, x2 as int));
            }
        }
    }

    /// Lays floor on column `x` from row `y1` to row `y2`, skipping any cell
    /// whose index is not one of the map's.
    fn apply_vertical_tunnel(&mut self, y1: i32, y2: i32, x: i32)
        requires
            old(self).wf(),
            indices_fit(old(self).width as int, |xx: int, yy: int| xx == x && between(yy, y1 as int, y2 as int)),
        ensures
            final(self).wf(),
            final(self).same_but_tiles(*old(self)),
            floored(old(self).tiles@, final(self).tiles@, old(self).width as int,
                |xx: int, yy: int| xx == x && between(yy, y1 as int, y2 as int)),
            0 <= y1 < old(self).height && 0 <= y2 < old(self).height && 0 <= x < old(self).width ==> forall|xx: int, yy: int|
                #![trigger final(self).tile(xx, yy)]
                old(self).in_bounds(xx, yy) ==> final(self).tile(xx, yy) == if xx == x && between(yy, y1 as int, y2 as int) {
                    TileType::Floor
                } else {
                    old(self).tile(xx, yy)
                },
    {
        let ghost w = self.width as int;
        let lo = if y1 < y2 { y1 } else { y2 };
        let hi = if y1 < y2 { y2 } else { y1 };
        proof {
            lemma_floored_nothing(self.tiles@, w);
            lemma_floored_same_area(self.tiles@, self.tiles@, w, |xx: int, yy: int| false,
                |xx: int, yy: int| xx == x && lo <= yy < lo);
        }
        let mut y: i64 = lo as i64;
        while y <= hi as i64
            invariant
                self.wf(),
                self.same_but_tiles(*old(self)),
                w == self.width,
                lo <= y1 && lo <= y2 && y1 <= hi && y2 <= hi,
                lo == y1 || lo == y2,
                hi == y1 || hi == y2,
                indices_fit(w, |xx: int, yy: int| xx == x && between(yy, y1 as int, y2 as int)),
                lo <= y <= hi + 1,
                floored(old(self).tiles@, self.tiles@, w, |xx: int, yy: int| xx == x && lo <= yy < y),
            decreases hi + 1 - y,
        {
            let ghost row = y;
            let ghost before = self.tiles@;
            proof {
                let path = |xx: int, yy: int| xx == x && between(yy, y1 as int, y2 as int);
                assert(path(x as int, y as int));
            }
            self.floor_cell(x, y as i32);
            proof {
                lemma_floored_union(old(self).tiles@, before, self.tiles@, w,
                    |xx: int, yy: int| xx == x && lo <= yy < row,
                    |xx: int, yy: int| xx == x && yy == row,
                    |xx: int, yy: int| xx == x && lo <= yy < row + 1);
            }
            y = y + 1;
        }
        proof {
            lemma_floored_same_area(old(self).tiles@, self.tiles@, w,
                |xx: int, yy: int| xx == x && lo <= yy < y,
                |xx: int, yy: int| xx == x && between(yy, y1 as int, y2 as int));
            if 0 <= y1 < old(self).height && 0 <= y2 < old(self).height && 0 <= x < old(self).width {
                lemma_floored_cells(*old(self), *self, |xx: int, yy: int| xx == x && between(yy, y1 as int, y2 as int));
            }
        }
    }
    /// No room of the map overlaps `room`.
    pub open spec fn spec_room_is_free(self, room: Rect) -> bool {
        forall|i: int| 0 <= i < self.rooms@.len() ==> !rects_intersect(#[trigger] self.rooms@[i], room)
    }

    /// Whether `room` overlaps none of the rooms already placed.
    pub fn room_is_free(&self, room: &Rect) -> (free: bool)
        ensures
            free == self.spec_room_is_free(*room),
    {
        let mut i: usize = 0;
        while i < self.rooms.len()
            invariant
                0 <= i <= self.rooms@.len(),
                forall|j: int| 0 <= j < i ==> !rects_intersect(#[trigger] self.rooms@[j], *room),
            decreases self.rooms@.len() - i,
        {
            if self.rooms[i].intersect(room) {
                return false;
            }
            i = i + 1;
        }
        true
    }

    /// The cells that placing `room` turns into floor: its interior and, when
    /// a room was placed before it, the corridor from that room to `room`.
    pub open spec fn carved_by(self, room: Rect, horizontal_first: bool, x: int, y: int) -> bool {
        ||| in_room_interior(room, x, y)
        ||| (self.rooms@.len() > 0 && on_corridor(self.rooms@.last(), room, horizontal_first, x, y))
    }

    /// Places `new_room`: carves its interior, joins it to the previously
    /// placed room by an L-shaped corridor (along the previous room's row first
    /// when `horizontal_first`, along its column first otherwise), and records it.
    pub fn add_room(&mut self, new_room: Rect, horizontal_first: bool)
        requires
            old(self).wf(),
            room_fits(new_room, old(self).width as int, old(self).height as int),
            old(self).rooms@.len() > 0 ==> room_fits(old(self).rooms@.last(), old(self).width as int, old(self).height as int),
        ensures
            final(self).rooms@ == old(self).rooms@.push(new_room),
            final(self).width == old(self).width,
            final(self).height == old(self).height,
            final(self).revealed_tiles == old(self).revealed_tiles,
            final(self).visible_tiles == old(self).visible_tiles,
            final(self).blocked_tiles == old(self).blocked_tiles,
            final(self).tile_contents == old(self).tile_contents,
            final(self).tiles@.len() == old(self).tiles@.len(),
            forall|x: int, y: int|
                #![trigger final(self).tile(x, y)]
                old(self).in_bounds(x, y) ==> final(self).tile(x, y) == if old(self).carved_by(new_room, horizontal_first, x, y) {
                    TileType::Floor
                } else {
                    old(self).tile(x, y)
                },
            old(self).layout_ok() && old(self).spec_room_is_free(new_room) ==> final(self).layout_ok(),
    {
        let ghost start = *self;
        let ghost w = self.width as int;
        let ghost h = self.height as int;
        proof {
            assert(w * 8 <= w * h) by (nonlinear_arith)
                requires
                    1 <= w,
                    8 <= h,
            ;
            assert(8 * h <= w * h) by (nonlinear_arith)
                requires
                    8 <= w,
                    1 <= h,
            ;
        }
        proof {
            lemma_inside_fits(w, h, |x: int, y: int| in_room_interior(new_room, x, y));
        }
        self.apply_room_to_map(&new_room);
        let ghost s1 = *self;
        if self.rooms.len() > 0 {
            let (new_x, new_y) = new_room.center();
            let last = self.rooms.len() - 1;
            let (prev_x, prev_y) = self.rooms[last].center();
            let ghost prev = self.rooms@[last as int];
            assert(prev == start.rooms@.last());
            proof {
                lemma_center_inside(new_room, w, h);
                lemma_center_inside(prev, w, h);
                lemma_inside_fits(w, h, |xx: int, yy: int| yy == prev_y && between(xx, prev_x as int, new_x as int));
                lemma_inside_fits(w, h, |xx: int, yy: int| xx == new_x && between(yy, prev_y as int, new_y as int));
                lemma_inside_fits(w, h, |xx: int, yy: int| xx == prev_x && between(yy, prev_y as int, new_y as int));
                lemma_inside_fits(w, h, |xx: int, yy: int| yy == new_y && between(xx, prev_x as int, new_x as int));
            }
            if horizontal_first {
                self.apply_horizontal_tunnel(prev_x, new_x, prev_y);
                let ghost s2 = *self;
                self.apply_vertical_tunnel(prev_y, new_y, new_x);
                proof {
                    assert forall|x: int, y: int| #![trigger self.tile(x, y)] start.in_bounds(x, y) implies self.tile(x, y)
                        == if start.carved_by(new_room, horizontal_first, x, y) { TileType::Floor } else { start.tile(x, y) } by {
                        assert(self.tile(x, y) == if x == new_x && between(y, prev_y as int, new_y as int) {
                            TileType::Floor } else { s2.tile(x, y) });
                        assert(s2.tile(x, y) == if y == prev_y && between(x, prev_x as int, new_x as int) {
                            TileType::Floor } else { s1.tile(x, y) });
                        assert(s1.tile(x, y) == if in_room_interior(new_room, x, y) {
                            TileType::Floor } else { start.tile(x, y) });
                    }
                }
            } else {
                self.apply_vertical_tunnel(prev_y, new_y, prev_x);
                let ghost s2 = *self;
                self.apply_horizontal_tunnel(prev_x, new_x, new_y);
                proof {
                    assert forall|x: int, y: int| #![trigger self.tile(x, y)] start.in_bounds(x, y) implies self.tile(x, y)
                        == if start.carved_by(new_room, horizontal_first, x, y) { TileType::Floor } else { start.tile(x, y) } by {
                        assert(self.tile(x, y) == if y == new_y && between(x, prev_x as int, new_x as int) {
                            TileType::Floor } else { s2.tile(x, y) });
                        assert(s2.tile(x, y) == if x == prev_x && between(y, prev_y as int, new_y as int) {
                            TileType::Floor } else { s1.tile(x, y) });
                        assert(s1.tile(x, y) == if in_room_interior(new_room, x, y) {
                            TileType::Floor } else { start.tile(x, y) });
                    }
                }
            }
        }
        let ghost s3 = *self;
        self.rooms.push(new_room);
        proof {
            assert forall|x: int, y: int| #![trigger self.tile(x, y)] start.in_bounds(x, y) implies self.tile(x, y)
                == if start.carved_by(new_room, horizontal_first, x, y) { TileType::Floor } else { start.tile(x, y) } by {
                assert(self.tile(x, y) == s3.tile(x, y));
                if start.rooms@.len() == 0 {
                    assert(s1.tile(x, y) == if in_room_interior(new_room, x, y) {
                        TileType::Floor } else { start.tile(x, y) });
                }
            }
            if start.layout_ok() && start.spec_room_is_free(new_room) {
                lemma_add_room_layout(start, *self, new_room, horizontal_first);
            }
        }
    }
}

/// `n` copies of `tile`.
fn filled_tiles(n: usize, tile: TileType) -> (v: Vec<TileType>)
    ensures
        v@.len() == n,
        forall|i: int| 0 <= i < n ==> #[trigger] v@[i] == tile,
{
    let mut v: Vec<TileType> = Vec::new();
    while v.len() < n
        invariant
            v@.len() <= n,
            forall|i: int| 0 <= i < v@.len() ==> #[trigger] v@[i] == tile,
        decreases n - v@.len(),
    {
        v.push(tile);
    }
    v
}

/// `n` copies of `flag`.
fn filled_flags(n: usize, flag: bool) -> (v: Vec<bool>)
    ensures
        v@.len() == n,
        forall|i: int| 0 <= i < n ==> #[trigger] v@[i] == flag,
{
    let mut v: Vec<bool> = Vec::new();
    while v.len() < n
        invariant
            v@.len() <= n,
            forall|i: int| 0 <= i < v@.len() ==> #[trigger] v@[i] == flag,
        decreases n - v@.len(),
    {
        v.push(flag);
    }
    v
}

/// `n` empty cell lists.
fn empty_contents(n: usize) -> (v: Vec<Vec<Entity>>)
    ensures
        v@.len() == n,
        forall|i: int| 0 <= i < n ==> (#[trigger] v@[i])@.len() == 0,
{
    let mut v: Vec<Vec<Entity>> = Vec::new();
    while v.len() < n
        invariant
            v@.len() <= n,
            forall|i: int| 0 <= i < v@.len() ==> (#[trigger] v@[i])@.len() == 0,
        decreases n - v@.len(),
    {
        v.push(Vec::new());
    }
    v
}

/// When every point of `area` is a cell of the map, laying floor on the
/// indices of `area` lays floor on exactly the cells of `area`.
proof fn lemma_floored_cells(before: GameMap, after: GameMap, area: spec_fn(int, int) -> bool)
    requires
        before.wf(),
        after.width == before.width,
        floored(before.tiles@, after.tiles@, before.width as int, area),
        forall|x: int, y: int| #[trigger] area(x, y) ==> before.in_bounds(x, y),
    ensures
        forall|x: int, y: int|
            #![trigger after.tile(x, y)]
            before.in_bounds(x, y) ==> after.tile(x, y) == if area(x, y) { TileType::Floor } else { before.tile(x, y) },
{
    let w = before.width as int;
    let h = before.height as int;
    assert forall|x: int, y: int| #![trigger after.tile(x, y)] before.in_bounds(x, y) implies after.tile(x, y) == if area(x, y) {
        TileType::Floor
    } else {
        before.tile(x, y)
    } by {
        lemma_idx_bounds(w, h, x, y);
        let i = idx_of(w, x, y);
        assert(after.tiles@[i] == if exists|xx: int, yy: int| #[trigger] area(xx, yy) && idx_of(w, xx, yy) == i {
            TileType::Floor
        } else {
            before.tiles@[i]
        });
        if exists|xx: int, yy: int| #[trigger] area(xx, yy) && idx_of(w, xx, yy) == i {
            let (xx, yy) = choose|xx: int, yy: int| #[trigger] area(xx, yy) && idx_of(w, xx, yy) == i;
            lemma_idx_injective(w, xx, yy, x, y);
        }
        if area(x, y) {
            assert(exists|xx: int, yy: int| #[trigger] area(xx, yy) && idx_of(w, xx, yy) == i);
        }
    }
}

/// The exits of a cell are those of the eight directions, in order.
proof fn lemma_exits_in_order(m: GameMap, idx: int)
    requires
        m.wf(),
    ensures
        m.spec_available_exits(idx) == m.exits_from(idx, 8),
{
    reveal_with_fuel(GameMap::exits_from, 9);
    let w = m.width as int;
    assert(idx + 0 * w + (-1) == idx - 1 && idx + 0 * w + 1 == idx + 1 && idx + (-1) * w + 0 == idx - w && idx + 1 * w
        + 0 == idx + w && idx + (-1) * w + (-1) == idx - w - 1 && idx + (-1) * w + 1 == idx - w + 1 && idx + 1 * w + (-1)
        == idx + w - 1 && idx + 1 * w + 1 == idx + w + 1);
    assert(m.spec_available_exits(idx) =~= m.exits_from(idx, 8));
}

/// An exit lies among the exits of the first `n` directions exactly when it
/// is the exit towards one of them.
proof fn lemma_exits_from_contains(m: GameMap, idx: int, n: int, e: (usize, u32))
    requires
        0 <= n <= 8,
    ensures
        m.exits_from(idx, n).contains(e) <==> exists|k: int| 0 <= k < n && #[trigger] m.exit_towards(idx, k) == Some(e),
    decreases n,
{
    if n > 0 {
        lemma_exits_from_contains(m, idx, n - 1, e);
        let prev = m.exits_from(idx, n - 1);
        match m.exit_towards(idx, n - 1) {
            Some(a) => {
                let cur = prev.push(a);
                if cur.contains(e) {
                    let t = choose|t: int| 0 <= t < cur.len() && cur[t] == e;
                    if t < prev.len() {
                        assert(prev[t] == e);
                    } else {
                        assert(m.exit_towards(idx, n - 1) == Some(e));
                    }
                }
                if exists|k: int| 0 <= k < n && #[trigger] m.exit_towards(idx, k) == Some(e) {
                    let k = choose|k: int| 0 <= k < n && #[trigger] m.exit_towards(idx, k) == Some(e);
                    if k < n - 1 {
                        let t = choose|t: int| 0 <= t < prev.len() && prev[t] == e;
                        assert(cur[t] == e);
                    } else {
                        assert(cur[prev.len() as int] == e);
                    }
                }
            },
            None => {
                if exists|k: int| 0 <= k < n && #[trigger] m.exit_towards(idx, k) == Some(e) {
                    let k = choose|k: int| 0 <= k < n && #[trigger] m.exit_towards(idx, k) == Some(e);
                    assert(k < n - 1);
                }
            },
        }
    }
}

/// Moves between cells go both ways: when `j` is an exit of a cell `i` that
/// a move may end on (it is off the top row and the left column, and not
/// blocked), then `i` is an exit of `j`, at the same cost.
#[verifier::spinoff_prover]
pub proof fn lemma_exits_symmetric(m: GameMap, i: int, j: usize, c: u32)
    requires
        m.wf(),
        0 <= i < m.size(),
        !m.blocked_tiles@[i],
        i % (m.width as int) >= 1,
        i / (m.width as int) >= 1,
        m.spec_available_exits(i).contains((j, c)),
    ensures
        m.spec_available_exits(j as int).contains((i as usize, c)),
{
    let w = m.width as int;
    let h = m.height as int;
    lemma_exits_in_order(m, i);
    lemma_exits_in_order(m, j as int);
    lemma_exits_from_contains(m, i, 8, (j, c));
    let k = choose|k: int| 0 <= k < 8 && #[trigger] m.exit_towards(i, k) == Some((j, c));
    let d = direction(k);
    let x = i % w;
    let y = i / w;
    vstd::arithmetic::div_mod::lemma_fundamental_div_mod(i, w);
    assert(y <= h - 1) by (nonlinear_arith)
        requires
            i == w * y + x,
            0 <= x,
            i < w * h,
            1 <= w,
    ;
    assert(m.spec_is_exit_valid(x + d.0, y + d.1));
    let j_int = i + d.1 * w + d.0;
    assert(j_int == (y + d.1) * w + (x + d.0)) by (nonlinear_arith)
        requires
            j_int == i + d.1 * w + d.0,
            i == w * y + x,
    ;
    assert(1 <= x + d.0 <= w - 1 && 1 <= y + d.1 <= h - 1);
    assert(0 < j_int < w * h) by (nonlinear_arith)
        requires
            j_int == (y + d.1) * w + (x + d.0),
            1 <= x + d.0 <= w - 1,
            1 <= y + d.1 <= h - 1,
    ;
    assert(j as int == j_int);
    vstd::arithmetic::div_mod::lemma_fundamental_div_mod_converse(j_int, w, y + d.1, x + d.0);
    let o = opposite(k);
    assert(direction(o) == (-d.0, -d.1));
    assert(idx_of(w, x, y) == i) by (nonlinear_arith)
        requires
            i == w * y + x,
    ;
    assert(m.spec_is_exit_valid(x, y));
    assert(j_int + (-d.1) * w + (-d.0) == i) by (nonlinear_arith)
        requires
            j_int == i + d.1 * w + d.0,
    ;
    assert(m.exit_towards(j as int, o) == Some((i as usize, c)));
    lemma_exits_from_contains(m, j as int, 8, (i as usize, c));
}

/// The centre of a fitting room lies in its interior, off the outermost ring
/// of cells.
pub proof fn lemma_center_inside(r: Rect, w: int, h: int)
    requires
        room_fits(r, w, h),
    ensures
        r.x1 < r.spec_center().0 <= r.x2,
        r.y1 < r.spec_center().1 <= r.y2,
        1 <= r.spec_center().0 <= w - 2,
        1 <= r.spec_center().1 <= h - 2,
{
}

/// A corridor between two fitting rooms stays off the outermost ring of cells.
proof fn lemma_corridor_inside(a: Rect, b: Rect, horizontal_first: bool, w: int, h: int, x: int, y: int)
    requires
        room_fits(a, w, h),
        room_fits(b, w, h),
        on_corridor(a, b, horizontal_first, x, y),
    ensures
        1 <= x <= w - 2,
        1 <= y <= h - 2,
{
    lemma_center_inside(a, w, h);
    lemma_center_inside(b, w, h);
}

/// Placing a free, fitting room keeps the generator's layout properties.
proof fn lemma_add_room_layout(before: GameMap, after: GameMap, room: Rect, horizontal_first: bool)
    requires
        before.wf(),
        before.layout_ok(),
        before.spec_room_is_free(room),
        room_fits(room, before.width as int, before.height as int),
        after.rooms@ == before.rooms@.push(room),
        after.width == before.width,
        after.height == before.height,
        after.tiles@.len() == before.tiles@.len(),
        forall|x: int, y: int|
            #![trigger after.tile(x, y)]
            before.in_bounds(x, y) ==> after.tile(x, y) == if before.carved_by(room, horizontal_first, x, y) {
                TileType::Floor
            } else {
                before.tile(x, y)
            },
    ensures
        after.layout_ok(),
{
    let w = before.width as int;
    let h = before.height as int;
    let n = before.rooms@.len();
    assert forall|i: int| 0 <= i < after.rooms@.len() implies room_fits(#[trigger] after.rooms@[i], w, h) by {
        if i < n {
            assert(after.rooms@[i] == before.rooms@[i]);
        }
    }
    assert forall|i: int, j: int| 0 <= i < j < after.rooms@.len() implies !rects_intersect(
        #[trigger] after.rooms@[i],
        #[trigger] after.rooms@[j],
    ) by {
        assert(after.rooms@[i] == before.rooms@[i]);
        if j < n {
            assert(after.rooms@[j] == before.rooms@[j]);
        }
    }
    assert forall|i: int, x: int, y: int|
        0 <= i < after.rooms@.len() && #[trigger] in_room_interior(after.rooms@[i], x, y) implies after.tile(x, y)
        == TileType::Floor by {
        if i < n {
            assert(after.rooms@[i] == before.rooms@[i]);
            assert(room_fits(before.rooms@[i], w, h));
            assert(before.tile(x, y) == TileType::Floor);
        }
    }
    assert forall|i: int| 1 <= i < after.rooms@.len() implies rooms_connected(
        after.tiles@,
        w,
        after.rooms@[i - 1],
        #[trigger] after.rooms@[i],
    ) by {
        let a = after.rooms@[i - 1];
        let b = after.rooms@[i];
        assert(a == before.rooms@[i - 1]);
        assert(room_fits(a, w, h));
        assert(room_fits(b, w, h)) by {
            if i < n {
                assert(b == before.rooms@[i]);
            }
        }
        if i < n {
            assert(b == before.rooms@[i]);
            assert(rooms_connected(before.tiles@, w, a, b));
            if forall|x: int, y: int| #[trigger] on_corridor(a, b, true, x, y) ==> tile_at(before.tiles@, w, x, y) == TileType::Floor {
                assert forall|x: int, y: int| #[trigger] on_corridor(a, b, true, x, y) implies tile_at(after.tiles@, w, x, y) == TileType::Floor by {
                    lemma_corridor_inside(a, b, true, w, h, x, y);
                    assert(tile_at(before.tiles@, w, x, y) == TileType::Floor);
                    assert(before.in_bounds(x, y));
                    assert(after.tile(x, y) == TileType::Floor);
                }
            } else {
                assert forall|x: int, y: int| #[trigger] on_corridor(a, b, false, x, y) implies tile_at(after.tiles@, w, x, y) == TileType::Floor by {
                    lemma_corridor_inside(a, b, false, w, h, x, y);
                    assert(tile_at(before.tiles@, w, x, y) == TileType::Floor);
                    assert(before.in_bounds(x, y));
                    assert(after.tile(x, y) == TileType::Floor);
                }
            }
        } else {
            assert(a == before.rooms@.last());
            assert(b == room);
            if horizontal_first {
                assert forall|x: int, y: int| #[trigger] on_corridor(a, b, true, x, y) implies tile_at(after.tiles@, w, x, y) == TileType::Floor by {
                    lemma_corridor_inside(a, b, true, w, h, x, y);
                    assert(before.in_bounds(x, y));
                    assert(before.carved_by(room, horizontal_first, x, y));
                    assert(after.tile(x, y) == TileType::Floor);
                }
            } else {
                assert forall|x: int, y: int| #[trigger] on_corridor(a, b, false, x, y) implies tile_at(after.tiles@, w, x, y) == TileType::Floor by {
                    lemma_corridor_inside(a, b, false, w, h, x, y);
                    assert(before.in_bounds(x, y));
                    assert(before.carved_by(room, horizontal_first, x, y));
                    assert(after.tile(x, y) == TileType::Floor);
                }
            }
        }
    }
    assert forall|x: int, y: int|
        #![trigger after.tile(x, y)]
        after.in_bounds(x, y) && after.tile(x, y) == TileType::Floor implies exists|i: int|
            0 <= i < after.rooms@.len() && #[trigger] opened_by(after.rooms@, i, x, y) by {
        if before.carved_by(room, horizontal_first, x, y) {
            assert(after.rooms@[n as int] == room);
            if n > 0 {
                assert(after.rooms@[n - 1] == before.rooms@.last());
            }
            assert(opened_by(after.rooms@, n as int, x, y));
        } else {
            assert(before.tile(x, y) == TileType::Floor);
            let i = choose|i: int| 0 <= i < before.rooms@.len() && #[trigger] opened_by(before.rooms@, i, x, y);
            assert(after.rooms@[i] == before.rooms@[i]);
            if i >= 1 {
                assert(after.rooms@[i - 1] == before.rooms@[i - 1]);
            }
            assert(opened_by(after.rooms@, i, x, y));
        }
    }
    assert forall|x: int, y: int|
        #![trigger after.tile(x, y)]
        after.in_bounds(x, y) && !(1 <= x <= w - 2 && 1 <= y <= h - 2) implies after.tile(x, y) == TileType::Wall by {
        assert(before.tile(x, y) == TileType::Wall);
        if n > 0 {
            assert(room_fits(before.rooms@[n - 1], w, h));
            if on_corridor(before.rooms@.last(), room, horizontal_first, x, y) {
                lemma_corridor_inside(before.rooms@.last(), room, horizontal_first, w, h, x, y);
            }
        }
        assert(!before.carved_by(room, horizontal_first, x, y));
    }
}

/// Every cell is drawn at its own coordinates: the view of cell `idx` lies
/// on the map, at the point whose index is `idx`, with that cell's tile and
/// visibility.
pub proof fn lemma_cell_view_at_its_cell(m: GameMap, idx: int)
    requires
        m.wf(),
        0 <= idx < m.size(),
    ensures
        0 <= m.cell_view(idx).x < m.width,
        0 <= m.cell_view(idx).y < m.height,
        idx_of(m.width as int, m.cell_view(idx).x as int, m.cell_view(idx).y as int) == idx,
        m.cell_view(idx).tile == m.tiles@[idx],
        m.cell_view(idx).visible == m.visible_tiles@[idx],
{
    let w = m.width as int;
    let h = m.height as int;
    vstd::arithmetic::div_mod::lemma_fundamental_div_mod(idx, w);
    assert(0 <= idx % w < w && 0 <= idx / w < h) by (nonlinear_arith)
        requires
            0 <= idx < w * h,
            1 <= w,
            idx == w * (idx / w) + idx % w,
            0 <= idx % w < w,
    ;
    assert(idx_of(w, idx % w, idx / w) == idx) by (nonlinear_arith)
        requires
            idx == w * (idx / w) + idx % w,
    ;
}

/// The cells drawn are exactly the revealed ones: every view listed among
/// the first `k` cells is that of a revealed cell, reported at its own
/// coordinates with its tile and visibility, and every revealed cell among
/// them is listed.
pub proof fn lemma_drawn_cells_are_the_revealed_ones(m: GameMap, k: int)
    requires
        m.wf(),
        0 <= k <= m.size(),
    ensures
        forall|j: int|
            0 <= j < m.revealed_views(k).len() ==> {
                let v = #[trigger] m.revealed_views(k)[j];
                let i = idx_of(m.width as int, v.x as int, v.y as int);
                &&& m.in_bounds(v.x as int, v.y as int)
                &&& 0 <= i < k
                &&& m.revealed_tiles@[i]
                &&& v.tile == m.tiles@[i]
                &&& v.visible == m.visible_tiles@[i]
            },
        forall|i: int|
            0 <= i < k && #[trigger] m.revealed_tiles@[i] ==> exists|j: int|
                0 <= j < m.revealed_views(k).len() && #[trigger] m.revealed_views(k)[j] == m.cell_view(i),
    decreases k,
{
    if k > 0 {
        lemma_drawn_cells_are_the_revealed_ones(m, k - 1);
        lemma_cell_view_at_its_cell(m, k - 1);
        let prev = m.revealed_views(k - 1);
        let cur = m.revealed_views(k);
        assert forall|j: int| 0 <= j < cur.len() implies {
            let v = #[trigger] cur[j];
            let i = idx_of(m.width as int, v.x as int, v.y as int);
            &&& m.in_bounds(v.x as int, v.y as int)
            &&& 0 <= i < k
            &&& m.revealed_tiles@[i]
            &&& v.tile == m.tiles@[i]
            &&& v.visible == m.visible_tiles@[i]
        } by {
            if j < prev.len() {
                assert(cur[j] == prev[j]);
            }
        }
        assert forall|i: int| 0 <= i < k && #[trigger] m.revealed_tiles@[i] implies exists|j: int|
            0 <= j < cur.len() && #[trigger] cur[j] == m.cell_view(i) by {
            if i < k - 1 {
                let j = choose|j: int| 0 <= j < prev.len() && #[trigger] prev[j] == m.cell_view(i);
                assert(cur[j] == prev[j]);
            } else {
                assert(cur[prev.len() as int] == m.cell_view(i));
            }
        }
    }
}

/// Cells are numbered row by row: the top-left cell is cell zero, one
/// column to the right is the next index, and one row down is `width`
/// indices further.
pub proof fn lemma_cells_row_by_row(w: int, x: int, y: int)
    ensures
        idx_of(w, 0, 0) == 0,
        idx_of(w, x + 1, y) == idx_of(w, x, y) + 1,
        idx_of(w, x, y + 1) == idx_of(w, x, y) + w,
{
    assert(idx_of(w, x, y + 1) == idx_of(w, x, y) + w) by (nonlinear_arith);
}

} // verus!
