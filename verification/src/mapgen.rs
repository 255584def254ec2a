use vstd::math::{max, min};
use vstd::prelude::*;

use crate::components::Position;
use crate::map::{GameMap, TileType};
use crate::rng::rng_range;
use bracket_random::prelude::RandomNumberGenerator;

verus! {

pub const MIN_WIDTH: i32 = 3;

pub const MAX_WIDTH: i32 = 15;

pub const MIN_HEIGHT: i32 = 3;

pub const MAX_HEIGHT: i32 = 12;

pub const ROOM_COUNT: usize = 20;

/// How many candidate rectangles a placement pass may sample before
/// giving up; room placement is rejection sampling and needs a bound
/// to terminate.
pub const PLACEMENT_BUDGET: usize = 100000;

/// An axis-aligned room with corner convention `x2 = x1 + width`;
/// its tiles are `[x1, x2) × [y1, y2)`.
#[derive(Debug, Clone, Copy, PartialEq, Eq, Structural)]
pub struct Room {
    pub x1: i32,
    pub y1: i32,
    pub x2: i32,
    pub y2: i32,
}

impl Room {
    pub open spec fn wf(self) -> bool {
        0 <= self.x1 <= self.x2 && 0 <= self.y1 <= self.y2
    }

    pub open spec fn spec_center(self) -> Position {
        Position { x: ((self.x1 + self.x2) / 2) as i32, y: ((self.y1 + self.y2) / 2) as i32 }
    }

    /// Inclusive-corner overlap test: rooms that merely touch count
    /// as intersecting, so accepted rooms never share an edge.
    pub open spec fn spec_intersect(self, o: Room) -> bool {
        self.x1 <= o.x2 && self.x2 >= o.x1 && self.y1 <= o.y2 && self.y2 >= o.y1
    }

    pub open spec fn contains_tile(self, x: int, y: int) -> bool {
        self.x1 <= x < self.x2 && self.y1 <= y < self.y2
    }

    pub fn with_size(x: i32, y: i32, w: i32, h: i32) -> (r: Room)
        requires
            0 <= x,
            0 <= y,
            0 <= w,
            0 <= h,
            x + w <= i32::MAX,
            y + h <= i32::MAX,
        ensures
            r.x1 == x,
            r.y1 == y,
            r.x2 == x + w,
            r.y2 == y + h,
            r.wf(),
    {
        Room { x1: x, y1: y, x2: x + w, y2: y + h }
    }

    pub fn center(&self) -> (r: Position)
        requires
            self.wf(),
            self.x1 + self.x2 <= i32::MAX,
            self.y1 + self.y2 <= i32::MAX,
        ensures
            r == self.spec_center(),
    {
        Position { x: (self.x1 + self.x2) / 2, y: (self.y1 + self.y2) / 2 }
    }

    pub fn intersect(&self, other: &Room) -> (r: bool)
        ensures
            r == self.spec_intersect(*other),
    {
        self.x1 <= other.x2 && self.x2 >= other.x1 && self.y1 <= other.y2 && self.y2 >= other.y1
    }
}

/// All rooms of a placement result lie inside the grid with at least
/// the minimum extent, and no two of them overlap or touch.
pub open spec fn rooms_ok(rooms: Seq<Room>, width: i32, height: i32) -> bool {
    &&& forall|i: int|
        0 <= i < rooms.len() ==> {
            &&& (#[trigger] rooms[i]).wf()
            &&& rooms[i].x1 + MIN_WIDTH <= rooms[i].x2
            &&& rooms[i].y1 + MIN_HEIGHT <= rooms[i].y2
            &&& rooms[i].x2 < rooms[i].x1 + MAX_WIDTH
            &&& rooms[i].y2 < rooms[i].y1 + MAX_HEIGHT
            &&& rooms[i].x2 < width
            &&& rooms[i].y2 < height
        }
    &&& forall|i: int, j: int|
        0 <= i < j < rooms.len() ==> !(#[trigger] rooms[i]).spec_intersect(#[trigger] rooms[j])
}

/// A fully carved horizontal corridor leg `[x_lo, x_hi) × {y}`.
pub open spec fn row_clear(m: GameMap, x_lo: int, x_hi: int, y: int) -> bool {
    forall|x: int| x_lo <= x < x_hi ==> m.tiles@[#[trigger] (x + y * m.width)] == TileType::Floor
}

/// A fully carved vertical corridor leg `{x} × [y_lo, y_hi)`.
pub open spec fn col_clear(m: GameMap, x: int, y_lo: int, y_hi: int) -> bool {
    forall|y: int| y_lo <= y < y_hi ==> m.tiles@[#[trigger] (x + y * m.width)] == TileType::Floor
}

/// Two room centers joined by one of the two elbow shapes, both legs
/// fully carved: horizontal at `b`'s row with vertical at `a`'s
/// column, or horizontal at `a`'s row with vertical at `b`'s column.
pub open spec fn elbow_connected(m: GameMap, a: Position, b: Position) -> bool {
    ||| (row_clear(m, min(a.x as int, b.x as int), max(a.x as int, b.x as int), b.y as int)
        && col_clear(m, a.x as int, min(a.y as int, b.y as int), max(a.y as int, b.y as int)))
    ||| (row_clear(m, min(a.x as int, b.x as int), max(a.x as int, b.x as int), a.y as int)
        && col_clear(m, b.x as int, min(a.y as int, b.y as int), max(a.y as int, b.y as int)))
}

/// The cells that either elbow shape between two centers may carve.
pub open spec fn on_elbow_zone(a: Position, b: Position, x: int, y: int) -> bool {
    ||| (min(a.x as int, b.x as int) <= x < max(a.x as int, b.x as int) && (y == a.y || y == b.y))
    ||| (min(a.y as int, b.y as int) <= y < max(a.y as int, b.y as int) && (x == a.x || x == b.x))
}

pub open spec fn in_some_room(rooms: Seq<Room>, x: int, y: int) -> bool {
    exists|k: int| 0 <= k < rooms.len() && (#[trigger] rooms[k]).contains_tile(x, y)
}

/// The cell lies on the corridor zone of one of the first `upto - 1`
/// consecutive room pairs.
pub open spec fn on_some_corridor(rooms: Seq<Room>, x: int, y: int, upto: int) -> bool {
    exists|k: int|
        1 <= k < upto && on_elbow_zone(
            (#[trigger] rooms[k - 1]).spec_center(),
            rooms[k].spec_center(),
            x,
            y,
        )
}

/// The disk radius the round strategy derives from a room's shorter
/// side.
pub open spec fn room_radius(r: Room) -> int {
    2 + min(r.x2 - r.x1, r.y2 - r.y1) / 2
}

/// The cells the round strategy carves around center `c`: inside the
/// bounding box and the squared-distance disk, on the map, and not
/// the guarded first or last grid cell.
pub open spec fn in_disk_region(m: GameMap, c: Position, rad: int, x: int, y: int) -> bool {
    &&& c.x - rad <= x < c.x + rad
    &&& c.y - rad <= y < c.y + rad
    &&& 0 <= x < m.width
    &&& 0 <= y < m.height
    &&& 0 < x + y * m.width
    &&& x + y * m.width < m.width * m.height - 1
    &&& (x - c.x) * (x - c.x) + (y - c.y) * (y - c.y) <= rad * rad
}

pub open spec fn in_some_disk(m: GameMap, rooms: Seq<Room>, x: int, y: int) -> bool {
    exists|k: int|
        0 <= k < rooms.len() && in_disk_region(
            m,
            (#[trigger] rooms[k]).spec_center(),
            room_radius(rooms[k]),
            x,
            y,
        )
}

/// The full output contract of the rectangular strategy: exactly the
/// placed rooms, every room tile Floor, consecutive room centers
/// elbow-connected, the spawn at the first room's center, and no
/// Floor outside the rooms and corridor zones — everything else is
/// still Wall.
pub open spec fn rect_level(m: GameMap, rooms: Seq<Room>, width: i32, height: i32) -> bool {
    &&& rooms.len() == ROOM_COUNT
    &&& rooms_ok(rooms, width, height)
    &&& m.spec_start() == rooms[0].spec_center()
    &&& rooms[0].contains_tile(m.spec_start().x as int, m.spec_start().y as int)
    &&& forall|k: int, x: int, y: int|
        0 <= k < rooms.len() && #[trigger] rooms[k].contains_tile(x, y) ==> m.tiles@[x + y
            * m.width] == TileType::Floor
    &&& forall|k: int|
        1 <= k < rooms.len() ==> elbow_connected(
            m,
            (#[trigger] rooms[k - 1]).spec_center(),
            rooms[k].spec_center(),
        )
    &&& forall|x: int, y: int|
        0 <= x < m.width && 0 <= y < m.height && m.tiles@[#[trigger] (x + y * m.width)]
            == TileType::Floor ==> in_some_room(rooms, x, y) || on_some_corridor(
            rooms,
            x,
            y,
            rooms.len() as int,
        )
}

/// The full output contract of the round strategy: every cell of each
/// room's disk is Floor, consecutive centers are elbow-connected, the
/// spawn is the first room's center, and no Floor lies outside the
/// disks and corridor zones.
pub open spec fn round_level(m: GameMap, rooms: Seq<Room>, width: i32, height: i32) -> bool {
    &&& rooms.len() == ROOM_COUNT
    &&& rooms_ok(rooms, width, height)
    &&& m.spec_start() == rooms[0].spec_center()
    &&& forall|k: int, x: int, y: int|
        0 <= k < rooms.len() && #[trigger] in_disk_region(
            m,
            rooms[k].spec_center(),
            room_radius(rooms[k]),
            x,
            y,
        ) ==> m.tiles@[x + y * m.width] == TileType::Floor
    &&& forall|k: int|
        1 <= k < rooms.len() ==> elbow_connected(
            m,
            (#[trigger] rooms[k - 1]).spec_center(),
            rooms[k].spec_center(),
        )
    &&& forall|x: int, y: int|
        0 <= x < m.width && 0 <= y < m.height && m.tiles@[#[trigger] (x + y * m.width)]
            == TileType::Floor ==> in_some_disk(m, rooms, x, y) || on_some_corridor(
            rooms,
            x,
            y,
            rooms.len() as int,
        )
}

/// Everything stated of the map's shape by the level contracts reads
/// only tiles and dimensions, so carving more Floor elsewhere keeps a
/// pair of centers connected.
proof fn lemma_elbow_preserved(m1: GameMap, m2: GameMap, a: Position, b: Position)
    requires
        elbow_connected(m1, a, b),
        m2.width == m1.width,
        m2.tiles@.len() == m1.tiles@.len(),
        forall|i: int|
            0 <= i < m1.tiles@.len() && m1.tiles@[i] == TileType::Floor ==> m2.tiles@[i]
                == TileType::Floor,
        m1.wf(),
        0 <= a.x < m1.width,
        0 <= a.y < m1.height,
        0 <= b.x < m1.width,
        0 <= b.y < m1.height,
    ensures
        elbow_connected(m2, a, b),
{
    let x_lo = min(a.x as int, b.x as int);
    let x_hi = max(a.x as int, b.x as int);
    let y_lo = min(a.y as int, b.y as int);
    let y_hi = max(a.y as int, b.y as int);
    if row_clear(m1, x_lo, x_hi, b.y as int) && col_clear(m1, a.x as int, y_lo, y_hi) {
        assert forall|x: int| x_lo <= x < x_hi implies m2.tiles@[#[trigger] (x + b.y * m2.width)]
            == TileType::Floor by {
            m1.lemma_idx_bounds(Position { x: x as i32, y: b.y });
            assert(m1.tiles@[x + b.y * m1.width] == TileType::Floor);
        }
        assert forall|y: int| y_lo <= y < y_hi implies m2.tiles@[#[trigger] (a.x + y * m2.width)]
            == TileType::Floor by {
            m1.lemma_idx_bounds(Position { x: a.x, y: y as i32 });
            assert(m1.tiles@[a.x + y * m1.width] == TileType::Floor);
        }
    } else {
        assert forall|x: int| x_lo <= x < x_hi implies m2.tiles@[#[trigger] (x + a.y * m2.width)]
            == TileType::Floor by {
            m1.lemma_idx_bounds(Position { x: x as i32, y: a.y });
            assert(m1.tiles@[x + a.y * m1.width] == TileType::Floor);
        }
        assert forall|y: int| y_lo <= y < y_hi implies m2.tiles@[#[trigger] (b.x + y * m2.width)]
            == TileType::Floor by {
            m1.lemma_idx_bounds(Position { x: b.x, y: y as i32 });
            assert(m1.tiles@[b.x + y * m1.width] == TileType::Floor);
        }
    }
}

/// Rejection-sample candidate rectangles until `ROOM_COUNT` pairwise
/// non-overlapping rooms are placed. Placement is drawn from the
/// random stream, so success cannot be promised; if the sampling
/// budget runs out first — the placement analogue of exhausting the
/// random stream, fatal to level generation — the pass returns
/// `None` rather than a short room list.
pub fn non_overlapping_rooms(rng: &mut RandomNumberGenerator, width: i32, height: i32) -> (rooms:
    Option<Vec<Room>>)
    requires
        MAX_WIDTH < width,
        MAX_HEIGHT < height,
    ensures
        rooms is Some ==> rooms->0@.len() == ROOM_COUNT && rooms_ok(rooms->0@, width, height),
{
    let mut rooms: Vec<Room> = Vec::new();
    let mut attempts: usize = 0;
    while rooms.len() < ROOM_COUNT && attempts < PLACEMENT_BUDGET
        invariant
            MAX_WIDTH < width,
            MAX_HEIGHT < height,
            rooms@.len() <= ROOM_COUNT,
            attempts <= PLACEMENT_BUDGET,
            rooms_ok(rooms@, width, height),
        decreases PLACEMENT_BUDGET - attempts,
    {
        let x1 = rng_range(rng, 0, width - MAX_WIDTH);
        let y1 = rng_range(rng, 0, height - MAX_HEIGHT);
        let w = MIN_WIDTH + rng_range(rng, 0, MAX_WIDTH - MIN_WIDTH);
        let h = MIN_HEIGHT + rng_range(rng, 0, MAX_HEIGHT - MIN_HEIGHT);
        let new_r = Room::with_size(x1, y1, w, h);
        let mut overlaps = false;
        let mut i: usize = 0;
        while i < rooms.len()
            invariant
                i <= rooms@.len(),
                overlaps ==> exists|j: int|
                    0 <= j < rooms@.len() && (#[trigger] rooms@[j]).spec_intersect(new_r),
                !overlaps ==> forall|j: int|
                    0 <= j < i ==> !(#[trigger] rooms@[j]).spec_intersect(new_r),
            decreases rooms@.len() - i,
        {
            if new_r.intersect(&rooms[i]) {
                overlaps = true;
            }
            i = i + 1;
        }
        if !overlaps {
            proof {
                assert forall|a: int, b: int|
                    0 <= a < b < rooms@.len() + 1 implies !(#[trigger] rooms@.push(new_r)[a]).spec_intersect(
                    #[trigger] rooms@.push(new_r)[b],
                ) by {
                    if b < rooms@.len() {
                        assert(rooms@.push(new_r)[a] == rooms@[a]);
                        assert(rooms@.push(new_r)[b] == rooms@[b]);
                    } else {
                        assert(rooms@.push(new_r)[b] == new_r);
                        assert(rooms@.push(new_r)[a] == rooms@[a]);
                        assert(!rooms@[a].spec_intersect(new_r));
                        assert(rooms@[a].x1 <= new_r.x2 && rooms@[a].x2 >= new_r.x1
                            && rooms@[a].y1 <= new_r.y2 && rooms@[a].y2 >= new_r.y1
                            ==> new_r.spec_intersect(rooms@[a]) && rooms@[a].spec_intersect(new_r));
                    }
                }
            }
            rooms.push(new_r);
        }
        attempts = attempts + 1;
    }
    if rooms.len() == ROOM_COUNT {
        Some(rooms)
    } else {
        None
    }
}

/// A freshly generated level: well-formed, of the requested size,
/// unoccupied and unexplored, with a Floor tile at its spawn point.
pub open spec fn fresh_level(m: GameMap, width: i32, height: i32) -> bool {
    &&& m.wf()
    &&& m.width == width
    &&& m.height == height
    &&& m.valid_pos(m.spec_start())
    &&& m.is_floor(m.spec_start())
    &&& forall|i: int| 0 <= i < m.occupancy@.len() ==> (#[trigger] m.occ_at(i)).len() == 0
    &&& forall|i: int| 0 <= i < m.memory@.len() ==> m.memory@[i] == false
}

/// A room-placement strategy: given the shared random stream and the
/// requested size, produce a fresh level whose entire shape is
/// accounted for by one strategy's placed rooms — or `None` when room
/// placement exhausts its sampling budget, which is fatal to level
/// generation.
pub trait MapGenerator {
    fn generate(&self, rng: &mut RandomNumberGenerator, width: i32, height: i32) -> (m: Option<
        GameMap,
    >)
        requires
            MAX_WIDTH < width,
            MAX_HEIGHT < height,
            width * height <= i32::MAX,
        ensures
            m is Some ==> fresh_level(m->0, width, height),
            m is Some ==> exists|rooms: Seq<Room>|
                #![trigger rect_level(m->0, rooms, width, height)]
                #![trigger round_level(m->0, rooms, width, height)]
                rect_level(m->0, rooms, width, height) || round_level(m->0, rooms, width, height),
    ;
}

/// Carves rectangular rooms joined by elbow corridors.
pub struct RectRoomMapGenerator;

/// Carves round rooms joined by elbow corridors.
pub struct RoundRoomMapGenerator;

/// Carving never touches the occupancy lists or the explored bitmap;
/// an empty, unexplored grid stays that way.
proof fn lemma_carving_keeps_empty(a: GameMap, b: GameMap)
    requires
        b.occupancy == a.occupancy,
        b.memory == a.memory,
        forall|i: int| 0 <= i < a.occupancy@.len() ==> (#[trigger] a.occ_at(i)).len() == 0,
        forall|i: int| 0 <= i < a.memory@.len() ==> a.memory@[i] == false,
    ensures
        forall|i: int| 0 <= i < b.occupancy@.len() ==> (#[trigger] b.occ_at(i)).len() == 0,
        forall|i: int| 0 <= i < b.memory@.len() ==> b.memory@[i] == false,
{
    assert(b.occupancy@ == a.occupancy@);
    assert(b.memory@ == a.memory@);
    assert forall|i: int| 0 <= i < b.occupancy@.len() implies (#[trigger] b.occ_at(i)).len()
        == 0 by {
        assert(b.occ_at(i) == a.occ_at(i));
    }
}

/// Set one tile to Floor. Tiles only ever turn from Wall to Floor
/// during generation, so carving is monotone.
fn carve_tile(map: &mut GameMap, x: i32, y: i32)
    requires
        old(map).wf(),
        0 <= x < old(map).width,
        0 <= y < old(map).height,
    ensures
        final(map).wf(),
        final(map).tiles@.len() == old(map).tiles@.len(),
        final(map).tiles@[x + y * old(map).width] == TileType::Floor,
        forall|i: int|
            0 <= i < old(map).tiles@.len() && i != x + y * old(map).width ==> final(map).tiles@[i]
                == old(map).tiles@[i],
        final(map).memory == old(map).memory,
        final(map).occupancy == old(map).occupancy,
        final(map).width == old(map).width,
        final(map).height == old(map).height,
        final(map).spec_start() == old(map).spec_start(),
{
    let idx = map.pos_to_idx(&Position { x, y });
    map.tiles.set(idx, TileType::Floor);
}

/// Carve the horizontal corridor leg `[x_lo, x_hi) × {y}`.
fn carve_row(map: &mut GameMap, x_lo: i32, x_hi: i32, y: i32)
    requires
        old(map).wf(),
        0 <= x_lo,
        x_hi <= old(map).width,
        0 <= y < old(map).height,
    ensures
        final(map).wf(),
        final(map).tiles@.len() == old(map).tiles@.len(),
        forall|i: int|
            0 <= i < old(map).tiles@.len() ==> final(map).tiles@[i] == old(map).tiles@[i]
                || final(map).tiles@[i] == TileType::Floor,
        forall|x: int|
            x_lo <= x < x_hi ==> final(map).tiles@[#[trigger] (x + y * old(map).width)]
                == TileType::Floor,
        forall|i: int|
            0 <= i < old(map).tiles@.len() && old(map).tiles@[i] == TileType::Floor
                ==> final(map).tiles@[i] == TileType::Floor,
        forall|i: int|
            0 <= i < old(map).tiles@.len() && #[trigger] final(map).tiles@[i] != old(map).tiles@[i]
                ==> exists|x: int| x_lo <= x < x_hi && i == #[trigger] (x + y * old(map).width),
        final(map).memory == old(map).memory,
        final(map).occupancy == old(map).occupancy,
        final(map).width == old(map).width,
        final(map).height == old(map).height,
        final(map).spec_start() == old(map).spec_start(),
{
    if x_lo >= x_hi {
        return ;
    }
    let mut x = x_lo;
    while x < x_hi
        invariant
            x_lo <= x <= x_hi,
            map.wf(),
            map.width == old(map).width,
            map.height == old(map).height,
            map.spec_start() == old(map).spec_start(),
            map.memory == old(map).memory,
            map.occupancy == old(map).occupancy,
            map.tiles@.len() == old(map).tiles@.len(),
            0 <= x_lo,
            x_hi <= map.width,
            0 <= y < map.height,
            forall|i: int|
                0 <= i < old(map).tiles@.len() ==> map.tiles@[i] == old(map).tiles@[i]
                    || map.tiles@[i] == TileType::Floor,
            forall|x2: int|
                x_lo <= x2 < x ==> map.tiles@[#[trigger] (x2 + y * old(map).width)]
                    == TileType::Floor,
            forall|i: int|
                0 <= i < old(map).tiles@.len() && old(map).tiles@[i] == TileType::Floor
                    ==> map.tiles@[i] == TileType::Floor,
            forall|i: int|
                0 <= i < old(map).tiles@.len() && #[trigger] map.tiles@[i] != old(map).tiles@[i]
                    ==> exists|x2: int| x_lo <= x2 < x && i == #[trigger] (x2 + y * old(map).width),
        decreases x_hi - x,
    {
        proof {
            map.lemma_idx_bounds(Position { x, y });
        }
        let ghost msnap = *map;
        carve_tile(map, x, y);
        proof {
            assert forall|x2: int|
                x_lo <= x2 < x + 1 implies map.tiles@[#[trigger] (x2 + y * old(map).width)]
                == TileType::Floor by {
                if x2 < x {
                    msnap.lemma_idx_bounds(Position { x: x2 as i32, y });
                    assert(msnap.tiles@[x2 + y * old(map).width] == TileType::Floor);
                }
            }
            assert forall|i: int|
                0 <= i < old(map).tiles@.len() && #[trigger] map.tiles@[i] != old(map).tiles@[i]
                implies exists|x2: int| x_lo <= x2 < x + 1 && i == #[trigger] (x2 + y * old(map).width) by {
                if map.tiles@[i] == msnap.tiles@[i] {
                    let x2 = choose|x2: int| x_lo <= x2 < x && i == #[trigger] (x2 + y * old(map).width);
                    assert(x_lo <= x2 < x + 1 && i == #[trigger] (x2 + y * old(map).width));
                } else {
                    assert(i == x + y * old(map).width);
                }
            }
        }
        x = x + 1;
    }
}

/// Carve the vertical corridor leg `{x} × [y_lo, y_hi)`.
fn carve_col(map: &mut GameMap, x: i32, y_lo: i32, y_hi: i32)
    requires
        old(map).wf(),
        0 <= y_lo,
        y_hi <= old(map).height,
        0 <= x < old(map).width,
    ensures
        final(map).wf(),
        final(map).tiles@.len() == old(map).tiles@.len(),
        forall|i: int|
            0 <= i < old(map).tiles@.len() ==> final(map).tiles@[i] == old(map).tiles@[i]
                || final(map).tiles@[i] == TileType::Floor,
        forall|y: int|
            y_lo <= y < y_hi ==> final(map).tiles@[#[trigger] (x + y * old(map).width)]
                == TileType::Floor,
        forall|i: int|
            0 <= i < old(map).tiles@.len() && old(map).tiles@[i] == TileType::Floor
                ==> final(map).tiles@[i] == TileType::Floor,
        forall|i: int|
            0 <= i < old(map).tiles@.len() && #[trigger] final(map).tiles@[i] != old(map).tiles@[i]
                ==> exists|y: int| y_lo <= y < y_hi && i == #[trigger] (x + y * old(map).width),
        final(map).memory == old(map).memory,
        final(map).occupancy == old(map).occupancy,
        final(map).width == old(map).width,
        final(map).height == old(map).height,
        final(map).spec_start() == old(map).spec_start(),
{
    if y_lo >= y_hi {
        return ;
    }
    let mut y = y_lo;
    while y < y_hi
        invariant
            y_lo <= y <= y_hi,
            map.wf(),
            map.width == old(map).width,
            map.height == old(map).height,
            map.spec_start() == old(map).spec_start(),
            map.memory == old(map).memory,
            map.occupancy == old(map).occupancy,
            map.tiles@.len() == old(map).tiles@.len(),
            0 <= y_lo,
            y_hi <= map.height,
            0 <= x < map.width,
            forall|i: int|
                0 <= i < old(map).tiles@.len() ==> map.tiles@[i] == old(map).tiles@[i]
                    || map.tiles@[i] == TileType::Floor,
            forall|y2: int|
                y_lo <= y2 < y ==> map.tiles@[#[trigger] (x + y2 * old(map).width)]
                    == TileType::Floor,
            forall|i: int|
                0 <= i < old(map).tiles@.len() && old(map).tiles@[i] == TileType::Floor
                    ==> map.tiles@[i] == TileType::Floor,
            forall|i: int|
                0 <= i < old(map).tiles@.len() && #[trigger] map.tiles@[i] != old(map).tiles@[i]
                    ==> exists|y2: int| y_lo <= y2 < y && i == #[trigger] (x + y2 * old(map).width),
        decreases y_hi - y,
    {
        proof {
            map.lemma_idx_bounds(Position { x, y });
        }
        let ghost msnap = *map;
        carve_tile(map, x, y);
        proof {
            assert forall|y2: int|
                y_lo <= y2 < y + 1 implies map.tiles@[#[trigger] (x + y2 * old(map).width)]
                == TileType::Floor by {
                if y2 < y {
                    let w = old(map).width as int;
                    assert(x + y2 * w != x + y * w) by (nonlinear_arith)
                        requires
                            y2 < y,
                            w >= 1,
                    ;
                    msnap.lemma_idx_bounds(Position { x: x as i32, y: y2 as i32 });
                    assert(msnap.tiles@[x + y2 * old(map).width] == TileType::Floor);
                }
            }
            assert forall|i: int|
                0 <= i < old(map).tiles@.len() && #[trigger] map.tiles@[i] != old(map).tiles@[i]
                implies exists|y2: int| y_lo <= y2 < y + 1 && i == #[trigger] (x + y2 * old(map).width) by {
                if map.tiles@[i] == msnap.tiles@[i] {
                    let y2 = choose|y2: int| y_lo <= y2 < y && i == #[trigger] (x + y2 * old(map).width);
                    assert(y_lo <= y2 < y + 1 && i == #[trigger] (x + y2 * old(map).width));
                } else {
                    assert(i == x + y * old(map).width);
                }
            }
        }
        y = y + 1;
    }
}

/// Carve one elbow corridor between two room centers, choosing the
/// horizontal-first or vertical-first shape from the random stream.
/// Whichever shape is drawn, afterwards the two centers are
/// elbow-connected, and only cells of the corridor zone changed.
fn carve_elbow(
    map: &mut GameMap,
    rng: &mut RandomNumberGenerator,
    prev: Position,
    cur: Position,
)
    requires
        old(map).wf(),
        old(map).valid_pos(prev),
        old(map).valid_pos(cur),
    ensures
        final(map).wf(),
        final(map).tiles@.len() == old(map).tiles@.len(),
        forall|i: int|
            0 <= i < old(map).tiles@.len() ==> final(map).tiles@[i] == old(map).tiles@[i]
                || final(map).tiles@[i] == TileType::Floor,
        forall|i: int|
            0 <= i < old(map).tiles@.len() && old(map).tiles@[i] == TileType::Floor
                ==> final(map).tiles@[i] == TileType::Floor,
        elbow_connected(*final(map), prev, cur),
        forall|i: int|
            0 <= i < old(map).tiles@.len() && #[trigger] final(map).tiles@[i] != old(map).tiles@[i]
                ==> exists|x: int, y: int|
                0 <= x < old(map).width && 0 <= y < old(map).height && i == #[trigger] (x + y * old(
                    map,
                ).width) && on_elbow_zone(prev, cur, x, y),
        final(map).memory == old(map).memory,
        final(map).occupancy == old(map).occupancy,
        final(map).width == old(map).width,
        final(map).height == old(map).height,
        final(map).spec_start() == old(map).spec_start(),
{
    let x_lo = if prev.x < cur.x {
        prev.x
    } else {
        cur.x
    };
    let x_hi = if prev.x < cur.x {
        cur.x
    } else {
        prev.x
    };
    let y_lo = if prev.y < cur.y {
        prev.y
    } else {
        cur.y
    };
    let y_hi = if prev.y < cur.y {
        cur.y
    } else {
        prev.y
    };
    let ghost m0 = *map;
    if rng_range(rng, 0, 2) == 0 {
        carve_row(map, x_lo, x_hi, cur.y);
        let ghost m1 = *map;
        carve_col(map, prev.x, y_lo, y_hi);
        proof {
            assert forall|x: int| x_lo <= x < x_hi implies map.tiles@[#[trigger] (x + cur.y
                * map.width)] == TileType::Floor by {
                m0.lemma_idx_bounds(Position { x: x as i32, y: cur.y });
                assert(m1.tiles@[x + cur.y * m0.width] == TileType::Floor);
            }
            assert(row_clear(*map, x_lo as int, x_hi as int, cur.y as int));
            assert(col_clear(*map, prev.x as int, y_lo as int, y_hi as int));
            lemma_elbow_zone_of_legs(m0, *map, m1, prev, cur, x_lo, x_hi, cur.y, prev.x, y_lo, y_hi);
        }
    } else {
        carve_row(map, x_lo, x_hi, prev.y);
        let ghost m1 = *map;
        carve_col(map, cur.x, y_lo, y_hi);
        proof {
            assert forall|x: int| x_lo <= x < x_hi implies map.tiles@[#[trigger] (x + prev.y
                * map.width)] == TileType::Floor by {
                m0.lemma_idx_bounds(Position { x: x as i32, y: prev.y });
                assert(m1.tiles@[x + prev.y * m0.width] == TileType::Floor);
            }
            assert(row_clear(*map, x_lo as int, x_hi as int, prev.y as int));
            assert(col_clear(*map, cur.x as int, y_lo as int, y_hi as int));
            lemma_elbow_zone_of_legs(m0, *map, m1, prev, cur, x_lo, x_hi, prev.y, cur.x, y_lo, y_hi);
        }
    }
}

/// Any cell an elbow's two legs changed lies on the corridor zone of
/// its pair of centers.
proof fn lemma_elbow_zone_of_legs(
    m0: GameMap,
    m2: GameMap,
    m1: GameMap,
    prev: Position,
    cur: Position,
    x_lo: i32,
    x_hi: i32,
    row_y: i32,
    col_x: i32,
    y_lo: i32,
    y_hi: i32,
)
    requires
        m0.wf(),
        m0.valid_pos(prev),
        m0.valid_pos(cur),
        m1.width == m0.width,
        m2.width == m0.width,
        m1.tiles@.len() == m0.tiles@.len(),
        m2.tiles@.len() == m0.tiles@.len(),
        x_lo == min(prev.x as int, cur.x as int),
        x_hi == max(prev.x as int, cur.x as int),
        y_lo == min(prev.y as int, cur.y as int),
        y_hi == max(prev.y as int, cur.y as int),
        row_y == prev.y || row_y == cur.y,
        col_x == prev.x || col_x == cur.x,
        forall|i: int|
            0 <= i < m0.tiles@.len() && #[trigger] m1.tiles@[i] != m0.tiles@[i] ==> exists|x: int|
                x_lo <= x < x_hi && i == #[trigger] (x + row_y * m0.width),
        forall|i: int|
            0 <= i < m0.tiles@.len() && #[trigger] m2.tiles@[i] != m1.tiles@[i] ==> exists|y: int|
                y_lo <= y < y_hi && i == #[trigger] (col_x + y * m0.width),
    ensures
        forall|i: int|
            0 <= i < m0.tiles@.len() && #[trigger] m2.tiles@[i] != m0.tiles@[i] ==> exists|
                x: int,
                y: int,
            |
                0 <= x < m0.width && 0 <= y < m0.height && i == #[trigger] (x + y * m0.width)
                    && on_elbow_zone(prev, cur, x, y),
{
    assert forall|i: int|
        0 <= i < m0.tiles@.len() && #[trigger] m2.tiles@[i] != m0.tiles@[i] implies exists|
        x: int,
        y: int,
    |
        0 <= x < m0.width && 0 <= y < m0.height && i == #[trigger] (x + y * m0.width)
            && on_elbow_zone(prev, cur, x, y) by {
        if m1.tiles@[i] != m0.tiles@[i] {
            let x = choose|x: int| x_lo <= x < x_hi && i == #[trigger] (x + row_y * m0.width);
            assert(0 <= x < m0.width && 0 <= row_y < m0.height && i == x + row_y * m0.width
                && on_elbow_zone(prev, cur, x, row_y as int));
        } else {
            let y = choose|y: int| y_lo <= y < y_hi && i == #[trigger] (col_x + y * m0.width);
            assert(0 <= col_x < m0.width && 0 <= y < m0.height && i == col_x + y * m0.width
                && on_elbow_zone(prev, cur, col_x as int, y));
        }
    }
}

/// Carve every tile of `room` as Floor.
fn carve_room(map: &mut GameMap, room: &Room)
    requires
        old(map).wf(),
        room.wf(),
        room.x2 < old(map).width,
        room.y2 < old(map).height,
    ensures
        final(map).wf(),
        final(map).tiles@.len() == old(map).tiles@.len(),
        forall|i: int|
            0 <= i < old(map).tiles@.len() ==> final(map).tiles@[i] == old(map).tiles@[i]
                || final(map).tiles@[i] == TileType::Floor,
        forall|x: int, y: int|
            room.contains_tile(x, y) ==> final(map).tiles@[x + y * old(map).width]
                == TileType::Floor,
        forall|i: int|
            0 <= i < old(map).tiles@.len() && old(map).tiles@[i] == TileType::Floor
                ==> final(map).tiles@[i] == TileType::Floor,
        forall|i: int|
            0 <= i < old(map).tiles@.len() && #[trigger] final(map).tiles@[i] != old(map).tiles@[i]
                ==> exists|x: int, y: int|
                room.contains_tile(x, y) && i == #[trigger] (x + y * old(map).width),
        final(map).memory == old(map).memory,
        final(map).occupancy == old(map).occupancy,
        final(map).width == old(map).width,
        final(map).height == old(map).height,
        final(map).spec_start() == old(map).spec_start(),
{
    let mut y = room.y1;
    while y < room.y2
        invariant
            room.y1 <= y <= room.y2,
            map.wf(),
            room.wf(),
            room.x2 < map.width,
            room.y2 < map.height,
            map.width == old(map).width,
            map.height == old(map).height,
            map.spec_start() == old(map).spec_start(),
            map.memory == old(map).memory,
            map.occupancy == old(map).occupancy,
            map.tiles@.len() == old(map).tiles@.len(),
            forall|i: int|
                0 <= i < old(map).tiles@.len() ==> map.tiles@[i] == old(map).tiles@[i]
                    || map.tiles@[i] == TileType::Floor,
            forall|x2: int, y2: int|
                room.contains_tile(x2, y2) && y2 < y ==> map.tiles@[x2 + y2 * old(map).width]
                    == TileType::Floor,
            forall|i: int|
                0 <= i < old(map).tiles@.len() && old(map).tiles@[i] == TileType::Floor
                    ==> map.tiles@[i] == TileType::Floor,
            forall|i: int|
                0 <= i < old(map).tiles@.len() && #[trigger] map.tiles@[i] != old(map).tiles@[i]
                    ==> exists|x2: int, y2: int|
                    room.contains_tile(x2, y2) && i == #[trigger] (x2 + y2 * old(map).width),
        decreases room.y2 - y,
    {
        let ghost msnap = *map;
        carve_row(map, room.x1, room.x2, y);
        proof {
            assert forall|x2: int, y2: int|
                room.contains_tile(x2, y2) && y2 < y + 1 implies map.tiles@[x2 + y2 * old(
                map,
            ).width] == TileType::Floor by {
                if y2 < y {
                    msnap.lemma_idx_bounds(Position { x: x2 as i32, y: y2 as i32 });
                    assert(msnap.tiles@[x2 + y2 * old(map).width] == TileType::Floor);
                } else {
                    assert(map.tiles@[#[trigger] (x2 + y * old(map).width)] == TileType::Floor);
                }
            }
            assert forall|i: int|
                0 <= i < old(map).tiles@.len() && #[trigger] map.tiles@[i] != old(map).tiles@[i]
                implies exists|x2: int, y2: int|
                room.contains_tile(x2, y2) && i == #[trigger] (x2 + y2 * old(map).width) by {
                if map.tiles@[i] == msnap.tiles@[i] {
                    let (x2, y2) = choose|x2: int, y2: int|
                        room.contains_tile(x2, y2) && i == #[trigger] (x2 + y2 * old(map).width);
                    assert(room.contains_tile(x2, y2) && i == x2 + y2 * old(map).width);
                } else {
                    let x2 = choose|x2: int|
                        room.x1 <= x2 < room.x2 && i == #[trigger] (x2 + y * old(map).width);
                    assert(room.contains_tile(x2, y as int) && i == x2 + y * old(map).width);
                }
            }
        }
        y = y + 1;
    }
}

impl MapGenerator for RectRoomMapGenerator {
    /// Beyond the trait's contract, this strategy pins its shape: a
    /// successful level satisfies the rectangular predicate.
    #[verifier::rlimit(100)]
    fn generate(&self, rng: &mut RandomNumberGenerator, width: i32, height: i32) -> (m: Option<
        GameMap,
    >)
        ensures
            m is Some ==> exists|rooms: Seq<Room>| #[trigger] rect_level(
                m->0,
                rooms,
                width,
                height,
            ),
    {
        proof {
            assert(2 * width <= i32::MAX && 2 * height <= i32::MAX) by (nonlinear_arith)
                requires
                    15 < width,
                    12 < height,
                    width * height <= i32::MAX,
            ;
        }
        let rooms = match non_overlapping_rooms(rng, width, height) {
            Some(r) => r,
            None => {
                return None;
            },
        };
        let center = rooms[0].center();
        let mut map = GameMap::new(width, height, center.x, center.y);
        proof {
            assert forall|k: int| 0 <= k < rooms@.len() implies {
                let r = #[trigger] rooms@[k];
                r.x1 + 1 <= (r.x1 + r.x2) / 2 && (r.x1 + r.x2) / 2 < r.x2 && r.y1 + 1 <= (r.y1
                    + r.y2) / 2 && (r.y1 + r.y2) / 2 < r.y2
            } by {
                let r = rooms@[k];
                assert(r.x1 + 1 <= (r.x1 + r.x2) / 2 && (r.x1 + r.x2) / 2 < r.x2)
                    by (nonlinear_arith)
                    requires
                        0 <= r.x1,
                        r.x1 + MIN_WIDTH <= r.x2,
                ;
                assert(r.y1 + 1 <= (r.y1 + r.y2) / 2 && (r.y1 + r.y2) / 2 < r.y2)
                    by (nonlinear_arith)
                    requires
                        0 <= r.y1,
                        r.y1 + MIN_HEIGHT <= r.y2,
                ;
            }
            assert forall|x: int, y: int|
                0 <= x < width && 0 <= y < height && map.tiles@[#[trigger] (x + y * width)]
                    == TileType::Floor implies on_some_corridor(rooms@, x, y, 1) by {
                map.lemma_idx_bounds(Position { x: x as i32, y: y as i32 });
                assert(map.tiles@[x + y * width] == TileType::Wall);
            }
        }
        let mut i: usize = 1;
        while i < rooms.len()
            invariant
                1 <= i <= rooms@.len(),
                map.wf(),
                map.width == width,
                map.height == height,
                map.spec_start() == (Position { x: center.x, y: center.y }),
                2 * width <= i32::MAX,
                2 * height <= i32::MAX,
                rooms_ok(rooms@, width, height),
                map.tiles@.len() == width * height,
                forall|k: int| 0 <= k < map.occupancy@.len() ==> (#[trigger] map.occ_at(k)).len() == 0,
                forall|k: int| 0 <= k < map.memory@.len() ==> map.memory@[k] == false,
                forall|k: int|
                    0 <= k < rooms@.len() ==> {
                        let r = #[trigger] rooms@[k];
                        r.x1 + 1 <= (r.x1 + r.x2) / 2 && (r.x1 + r.x2) / 2 < r.x2 && r.y1 + 1 <= (
                        r.y1 + r.y2) / 2 && (r.y1 + r.y2) / 2 < r.y2
                    },
                forall|k: int|
                    1 <= k < i ==> elbow_connected(
                        map,
                        (#[trigger] rooms@[k - 1]).spec_center(),
                        rooms@[k].spec_center(),
                    ),
                forall|x: int, y: int|
                    0 <= x < width && 0 <= y < height && map.tiles@[#[trigger] (x + y * width)]
                        == TileType::Floor ==> on_some_corridor(rooms@, x, y, i as int),
            decreases rooms@.len() - i,
        {
            let prev = rooms[i - 1].center();
            let cur = rooms[i].center();
            let ghost msnap = map;
            carve_elbow(&mut map, rng, prev, cur);
            proof {
                lemma_carving_keeps_empty(msnap, map);
                assert forall|k: int|
                    1 <= k < i + 1 implies elbow_connected(
                    map,
                    (#[trigger] rooms@[k - 1]).spec_center(),
                    rooms@[k].spec_center(),
                ) by {
                    if k < i {
                        lemma_elbow_preserved(
                            msnap,
                            map,
                            rooms@[k - 1].spec_center(),
                            rooms@[k].spec_center(),
                        );
                    }
                }
                assert forall|x: int, y: int|
                    0 <= x < width && 0 <= y < height && map.tiles@[#[trigger] (x + y * width)]
                        == TileType::Floor implies on_some_corridor(rooms@, x, y, i + 1) by {
                    msnap.lemma_idx_bounds(Position { x: x as i32, y: y as i32 });
                    if map.tiles@[x + y * width] == msnap.tiles@[x + y * width] {
                        let k = choose|k: int|
                            1 <= k < i && on_elbow_zone(
                                (#[trigger] rooms@[k - 1]).spec_center(),
                                rooms@[k].spec_center(),
                                x,
                                y,
                            );
                        assert(1 <= k < i + 1 && on_elbow_zone(
                            rooms@[k - 1].spec_center(),
                            rooms@[k].spec_center(),
                            x,
                            y,
                        ));
                    } else {
                        let (x2, y2) = choose|x2: int, y2: int|
                            0 <= x2 < msnap.width && 0 <= y2 < msnap.height && x + y * width
                                == #[trigger] (x2 + y2 * msnap.width) && on_elbow_zone(
                                prev,
                                cur,
                                x2,
                                y2,
                            );
                        msnap.lemma_idx_injective(
                            Position { x: x2 as i32, y: y2 as i32 },
                            Position { x: x as i32, y: y as i32 },
                        );
                        assert(1 <= i < i + 1 && on_elbow_zone(
                            rooms@[i as int - 1].spec_center(),
                            rooms@[i as int].spec_center(),
                            x,
                            y,
                        ));
                    }
                }
            }
            i = i + 1;
        }
        let mut j: usize = 0;
        while j < rooms.len()
            invariant
                0 <= j <= rooms@.len(),
                1 <= rooms@.len(),
                map.wf(),
                map.width == width,
                map.height == height,
                map.spec_start() == (Position { x: center.x, y: center.y }),
                2 * width <= i32::MAX,
                2 * height <= i32::MAX,
                rooms_ok(rooms@, width, height),
                map.tiles@.len() == width * height,
                forall|k: int| 0 <= k < map.occupancy@.len() ==> (#[trigger] map.occ_at(k)).len() == 0,
                forall|k: int| 0 <= k < map.memory@.len() ==> map.memory@[k] == false,
                forall|k: int|
                    0 <= k < rooms@.len() ==> {
                        let r = #[trigger] rooms@[k];
                        r.x1 + 1 <= (r.x1 + r.x2) / 2 && (r.x1 + r.x2) / 2 < r.x2 && r.y1 + 1 <= (
                        r.y1 + r.y2) / 2 && (r.y1 + r.y2) / 2 < r.y2
                    },
                forall|k: int|
                    1 <= k < rooms@.len() ==> elbow_connected(
                        map,
                        (#[trigger] rooms@[k - 1]).spec_center(),
                        rooms@[k].spec_center(),
                    ),
                forall|k: int, x: int, y: int|
                    0 <= k < j && #[trigger] rooms@[k].contains_tile(x, y) ==> map.tiles@[x + y
                        * width] == TileType::Floor,
                forall|x: int, y: int|
                    0 <= x < width && 0 <= y < height && map.tiles@[#[trigger] (x + y * width)]
                        == TileType::Floor ==> (exists|k: int|
                        0 <= k < j && (#[trigger] rooms@[k]).contains_tile(x, y))
                        || on_some_corridor(rooms@, x, y, rooms@.len() as int),
            decreases rooms@.len() - j,
        {
            let ghost msnap = map;
            carve_room(&mut map, &rooms[j]);
            proof {
                lemma_carving_keeps_empty(msnap, map);
                assert forall|k: int, x: int, y: int|
                    0 <= k < j + 1 && #[trigger] rooms@[k].contains_tile(x, y) implies
                    map.tiles@[x + y * width] == TileType::Floor by {
                    if k < j {
                        msnap.lemma_idx_bounds(Position { x: x as i32, y: y as i32 });
                        assert(msnap.tiles@[x + y * width] == TileType::Floor);
                    } else {
                        assert(map.tiles@[x + y * msnap.width] == TileType::Floor);
                    }
                }
                assert forall|k: int|
                    1 <= k < rooms@.len() implies elbow_connected(
                    map,
                    (#[trigger] rooms@[k - 1]).spec_center(),
                    rooms@[k].spec_center(),
                ) by {
                    lemma_elbow_preserved(
                        msnap,
                        map,
                        rooms@[k - 1].spec_center(),
                        rooms@[k].spec_center(),
                    );
                }
                assert forall|x: int, y: int|
                    0 <= x < width && 0 <= y < height && map.tiles@[#[trigger] (x + y * width)]
                        == TileType::Floor implies (exists|k: int|
                    0 <= k < j + 1 && (#[trigger] rooms@[k]).contains_tile(x, y))
                    || on_some_corridor(rooms@, x, y, rooms@.len() as int) by {
                    msnap.lemma_idx_bounds(Position { x: x as i32, y: y as i32 });
                    if map.tiles@[x + y * width] == msnap.tiles@[x + y * width] {
                        if exists|k: int| 0 <= k < j && (#[trigger] rooms@[k]).contains_tile(x, y) {
                            let k = choose|k: int|
                                0 <= k < j && (#[trigger] rooms@[k]).contains_tile(x, y);
                            assert(0 <= k < j + 1 && rooms@[k].contains_tile(x, y));
                        }
                    } else {
                        let (x2, y2) = choose|x2: int, y2: int|
                            rooms@[j as int].contains_tile(x2, y2) && x + y * width == #[trigger] (
                            x2 + y2 * msnap.width);
                        msnap.lemma_idx_injective(
                            Position { x: x2 as i32, y: y2 as i32 },
                            Position { x: x as i32, y: y as i32 },
                        );
                        assert(0 <= j < j + 1 && rooms@[j as int].contains_tile(x, y));
                    }
                }
            }
            j = j + 1;
        }
        proof {
            let r = rooms@[0];
            assert(r.contains_tile(map.spec_start().x as int, map.spec_start().y as int));
            map.lemma_idx_bounds(map.spec_start());
            assert(rect_level(map, rooms@, width, height));
        }
        let ghost gm = map;
        let result = Some(map);
        proof {
            assert(result->0 == gm);
            assert(rect_level(result->0, rooms@, width, height));
        }
        result
    }
}

/// Carve the disk of the given radius around `c`, with a
/// squared-distance inclusion test; the first and last grid cells
/// are guarded and never carved. Afterwards every cell of the disk
/// region is Floor, and nothing outside it changed.
#[verifier::rlimit(60)]
fn carve_disk(map: &mut GameMap, c: Position, radius: i32)
    requires
        old(map).wf(),
        1 <= radius <= MAX_WIDTH,
        old(map).width + MAX_WIDTH <= i32::MAX,
        old(map).height + MAX_WIDTH <= i32::MAX,
        1 <= c.x < old(map).width - 1,
        1 <= c.y < old(map).height - 1,
    ensures
        final(map).wf(),
        final(map).tiles@.len() == old(map).tiles@.len(),
        forall|i: int|
            0 <= i < old(map).tiles@.len() ==> final(map).tiles@[i] == old(map).tiles@[i]
                || final(map).tiles@[i] == TileType::Floor,
        forall|i: int|
            0 <= i < old(map).tiles@.len() && old(map).tiles@[i] == TileType::Floor
                ==> final(map).tiles@[i] == TileType::Floor,
        forall|x: int, y: int|
            #[trigger] in_disk_region(*old(map), c, radius as int, x, y) ==> final(map).tiles@[x + y
                * old(map).width] == TileType::Floor,
        forall|i: int|
            0 <= i < old(map).tiles@.len() && #[trigger] final(map).tiles@[i] != old(map).tiles@[i]
                ==> exists|x: int, y: int|
                in_disk_region(*old(map), c, radius as int, x, y) && i == #[trigger] (x + y * old(
                    map,
                ).width),
        final(map).tiles@[c.x + c.y * old(map).width] == TileType::Floor,
        final(map).memory == old(map).memory,
        final(map).occupancy == old(map).occupancy,
        final(map).width == old(map).width,
        final(map).height == old(map).height,
        final(map).spec_start() == old(map).spec_start(),
{
    let y_start = c.y - radius;
    let y_end = c.y + radius;
    let mut y = y_start;
    while y < y_end
        invariant
            y_start <= y <= y_end,
            map.wf(),
            map.width == old(map).width,
            map.height == old(map).height,
            map.spec_start() == old(map).spec_start(),
            map.memory == old(map).memory,
            map.occupancy == old(map).occupancy,
            map.tiles@.len() == old(map).tiles@.len(),
            1 <= radius <= MAX_WIDTH,
            map.width + MAX_WIDTH <= i32::MAX,
            map.height + MAX_WIDTH <= i32::MAX,
            1 <= c.x < map.width - 1,
            1 <= c.y < map.height - 1,
            y_start == c.y - radius,
            y_end == c.y + radius,
            forall|i: int|
                0 <= i < old(map).tiles@.len() ==> map.tiles@[i] == old(map).tiles@[i]
                    || map.tiles@[i] == TileType::Floor,
            forall|i: int|
                0 <= i < old(map).tiles@.len() && old(map).tiles@[i] == TileType::Floor
                    ==> map.tiles@[i] == TileType::Floor,
            forall|x2: int, y2: int|
                #[trigger] in_disk_region(*old(map), c, radius as int, x2, y2) && y2 < y
                    ==> map.tiles@[x2 + y2 * old(map).width] == TileType::Floor,
            forall|i: int|
                0 <= i < old(map).tiles@.len() && #[trigger] map.tiles@[i] != old(map).tiles@[i]
                    ==> exists|x2: int, y2: int|
                    in_disk_region(*old(map), c, radius as int, x2, y2) && i == #[trigger] (x2 + y2
                        * old(map).width),
        decreases y_end - y,
    {
        let x_start = c.x - radius;
        let x_end = c.x + radius;
        let mut x = x_start;
        while x < x_end
            invariant
                x_start <= x <= x_end,
                map.wf(),
                map.width == old(map).width,
                map.height == old(map).height,
                map.spec_start() == old(map).spec_start(),
                map.memory == old(map).memory,
                map.occupancy == old(map).occupancy,
                map.tiles@.len() == old(map).tiles@.len(),
                1 <= radius <= MAX_WIDTH,
                map.width + MAX_WIDTH <= i32::MAX,
                map.height + MAX_WIDTH <= i32::MAX,
                1 <= c.x < map.width - 1,
                1 <= c.y < map.height - 1,
                x_start == c.x - radius,
                x_end == c.x + radius,
                y_start == c.y - radius,
                y_end == c.y + radius,
                y_start <= y < y_end,
                forall|i: int|
                    0 <= i < old(map).tiles@.len() ==> map.tiles@[i] == old(map).tiles@[i]
                        || map.tiles@[i] == TileType::Floor,
                forall|i: int|
                    0 <= i < old(map).tiles@.len() && old(map).tiles@[i] == TileType::Floor
                        ==> map.tiles@[i] == TileType::Floor,
                forall|x2: int, y2: int|
                    #[trigger] in_disk_region(*old(map), c, radius as int, x2, y2) && (y2 < y || (
                    y2 == y && x2 < x)) ==> map.tiles@[x2 + y2 * old(map).width]
                        == TileType::Floor,
                forall|i: int|
                    0 <= i < old(map).tiles@.len() && #[trigger] map.tiles@[i] != old(map).tiles@[i]
                        ==> exists|x2: int, y2: int|
                        in_disk_region(*old(map), c, radius as int, x2, y2) && i == #[trigger] (x2
                            + y2 * old(map).width),
            decreases x_end - x,
        {
            let ghost mpre = *map;
            let mut carved = false;
            if x >= 0 && x < map.width && y >= 0 && y < map.height {
                let idx = map.pos_to_idx(&Position { x, y });
                let dx = (x - c.x) as i64;
                let dy = (y - c.y) as i64;
                proof {
                    assert(0 <= dx * dx <= 256 && 0 <= dy * dy <= 256) by (nonlinear_arith)
                        requires
                            -16 <= dx <= 16,
                            -16 <= dy <= 16,
                    ;
                    assert(map.width * map.height >= 1) by (nonlinear_arith)
                        requires
                            1 <= map.width,
                            1 <= map.height,
                    ;
                }
                let dist2 = dx * dx + dy * dy;
                let r64 = radius as i64;
                proof {
                    assert(0 <= r64 * r64 <= 256) by (nonlinear_arith)
                        requires
                            1 <= r64 <= 16,
                    ;
                }
                if idx > 0 && idx < map.tiles.len() - 1 && dist2 <= r64 * r64 {
                    proof {
                        map.lemma_idx_bounds(Position { x, y });
                    }
                    carve_tile(map, x, y);
                    carved = true;
                }
            }
            proof {
                if carved {
                    assert(in_disk_region(*old(map), c, radius as int, x as int, y as int));
                } else {
                    assert(!in_disk_region(*old(map), c, radius as int, x as int, y as int));
                }
                assert forall|x2: int, y2: int|
                    #[trigger] in_disk_region(*old(map), c, radius as int, x2, y2) && (y2 < y || (
                    y2 == y && x2 < x + 1)) implies map.tiles@[x2 + y2 * old(map).width]
                    == TileType::Floor by {
                    mpre.lemma_idx_bounds(Position { x: x2 as i32, y: y2 as i32 });
                    if y2 < y || (y2 == y && x2 < x) {
                        assert(mpre.tiles@[x2 + y2 * old(map).width] == TileType::Floor);
                    } else {
                        assert(x2 == x && y2 == y);
                    }
                }
                assert forall|i: int|
                    0 <= i < old(map).tiles@.len() && #[trigger] map.tiles@[i] != old(map).tiles@[i]
                    implies exists|x2: int, y2: int|
                    in_disk_region(*old(map), c, radius as int, x2, y2) && i == #[trigger] (x2 + y2
                        * old(map).width) by {
                    if map.tiles@[i] == mpre.tiles@[i] {
                        let (x2, y2) = choose|x2: int, y2: int|
                            in_disk_region(*old(map), c, radius as int, x2, y2) && i == #[trigger] (
                            x2 + y2 * old(map).width);
                        assert(in_disk_region(*old(map), c, radius as int, x2, y2) && i == x2 + y2
                            * old(map).width);
                    } else {
                        assert(i == x + y * old(map).width);
                        assert(in_disk_region(*old(map), c, radius as int, x as int, y as int) && i
                            == x + y * old(map).width);
                    }
                }
            }
            x = x + 1;
        }
        y = y + 1;
    }
    proof {
        let w0 = old(map).width as int;
        let h0 = old(map).height as int;
        assert(in_disk_region(*old(map), c, radius as int, c.x as int, c.y as int)) by {
            assert(c.x + c.y * w0 > 0) by (nonlinear_arith)
                requires
                    1 <= c.x,
                    1 <= c.y,
                    1 <= w0,
            ;
            assert(c.x + c.y * w0 < w0 * h0 - 1) by (nonlinear_arith)
                requires
                    c.x < w0 - 1,
                    c.y < h0 - 1,
                    1 <= w0,
                    1 <= h0,
            ;
            assert(0 <= (c.x - c.x) * (c.x - c.x) + (c.y - c.y) * (c.y - c.y) <= radius * radius)
                by (nonlinear_arith)
                requires
                    1 <= radius,
            ;
        }
    }
}

impl MapGenerator for RoundRoomMapGenerator {
    /// Beyond the trait's contract, this strategy pins its shape: a
    /// successful level satisfies the round predicate.
    #[verifier::rlimit(100)]
    fn generate(&self, rng: &mut RandomNumberGenerator, width: i32, height: i32) -> (m: Option<
        GameMap,
    >)
        ensures
            m is Some ==> exists|rooms: Seq<Room>| #[trigger] round_level(
                m->0,
                rooms,
                width,
                height,
            ),
    {
        proof {
            assert(2 * width <= i32::MAX && 2 * height <= i32::MAX) by (nonlinear_arith)
                requires
                    15 < width,
                    12 < height,
                    width * height <= i32::MAX,
            ;
        }
        let rooms = match non_overlapping_rooms(rng, width, height) {
            Some(r) => r,
            None => {
                return None;
            },
        };
        let center = rooms[0].center();
        proof {
            assert forall|k: int| 0 <= k < rooms@.len() implies {
                let r = #[trigger] rooms@[k];
                r.x1 + 1 <= (r.x1 + r.x2) / 2 && (r.x1 + r.x2) / 2 < r.x2 && r.y1 + 1 <= (r.y1
                    + r.y2) / 2 && (r.y1 + r.y2) / 2 < r.y2
            } by {
                let r = rooms@[k];
                assert(r.x1 + 1 <= (r.x1 + r.x2) / 2 && (r.x1 + r.x2) / 2 < r.x2)
                    by (nonlinear_arith)
                    requires
                        0 <= r.x1,
                        r.x1 + MIN_WIDTH <= r.x2,
                ;
                assert(r.y1 + 1 <= (r.y1 + r.y2) / 2 && (r.y1 + r.y2) / 2 < r.y2)
                    by (nonlinear_arith)
                    requires
                        0 <= r.y1,
                        r.y1 + MIN_HEIGHT <= r.y2,
                ;
            }
        }
        let mut map = GameMap::new(width, height, center.x, center.y);
        proof {
            assert forall|x: int, y: int|
                0 <= x < width && 0 <= y < height && map.tiles@[#[trigger] (x + y * width)]
                    == TileType::Floor implies in_some_disk(map, rooms@, x, y) by {
                map.lemma_idx_bounds(Position { x: x as i32, y: y as i32 });
                assert(map.tiles@[x + y * width] == TileType::Wall);
            }
        }
        let mut j: usize = 0;
        while j < rooms.len()
            invariant
                0 <= j <= rooms@.len(),
                1 <= rooms@.len(),
                map.wf(),
                map.width == width,
                map.height == height,
                map.spec_start() == (Position { x: center.x, y: center.y }),
                2 * width <= i32::MAX,
                2 * height <= i32::MAX,
                rooms_ok(rooms@, width, height),
                center == rooms@[0].spec_center(),
                map.tiles@.len() == width * height,
                forall|k: int| 0 <= k < map.occupancy@.len() ==> (#[trigger] map.occ_at(k)).len() == 0,
                forall|k: int| 0 <= k < map.memory@.len() ==> map.memory@[k] == false,
                forall|k: int|
                    0 <= k < rooms@.len() ==> {
                        let r = #[trigger] rooms@[k];
                        r.x1 + 1 <= (r.x1 + r.x2) / 2 && (r.x1 + r.x2) / 2 < r.x2 && r.y1 + 1 <= (
                        r.y1 + r.y2) / 2 && (r.y1 + r.y2) / 2 < r.y2
                    },
                map.valid_pos(map.spec_start()),
                j > 0 ==> map.is_floor(map.spec_start()),
                forall|k: int, x: int, y: int|
                    0 <= k < j && #[trigger] in_disk_region(
                        map,
                        rooms@[k].spec_center(),
                        room_radius(rooms@[k]),
                        x,
                        y,
                    ) ==> map.tiles@[x + y * width] == TileType::Floor,
                forall|x: int, y: int|
                    0 <= x < width && 0 <= y < height && map.tiles@[#[trigger] (x + y * width)]
                        == TileType::Floor ==> in_some_disk(map, rooms@, x, y),
            decreases rooms@.len() - j,
        {
            let room = rooms[j];
            let dw = room.x2 - room.x1;
            let dh = room.y2 - room.y1;
            let short = if dw < dh {
                dw
            } else {
                dh
            };
            let radius = 2 + short / 2;
            let c = room.center();
            proof {
                assert(radius as int == room_radius(rooms@[j as int]));
            }
            let ghost msnap = map;
            carve_disk(&mut map, c, radius);
            proof {
                lemma_carving_keeps_empty(msnap, map);
                msnap.lemma_idx_bounds(msnap.spec_start());
                if j > 0 {
                    assert(msnap.is_floor(msnap.spec_start()));
                    assert(map.tiles@[msnap.idx_of(msnap.spec_start())] == TileType::Floor);
                } else {
                    assert(c == msnap.spec_start());
                    assert(map.tiles@[c.x + c.y * msnap.width] == TileType::Floor);
                }
                assert(map.is_floor(map.spec_start()));
                assert forall|k: int, x: int, y: int|
                    0 <= k < j + 1 && #[trigger] in_disk_region(
                        map,
                        rooms@[k].spec_center(),
                        room_radius(rooms@[k]),
                        x,
                        y,
                    ) implies map.tiles@[x + y * width] == TileType::Floor by {
                    assert(in_disk_region(
                        msnap,
                        rooms@[k].spec_center(),
                        room_radius(rooms@[k]),
                        x,
                        y,
                    ));
                    msnap.lemma_idx_bounds(Position { x: x as i32, y: y as i32 });
                    if k < j {
                        assert(msnap.tiles@[x + y * width] == TileType::Floor);
                    } else {
                        assert(map.tiles@[x + y * msnap.width] == TileType::Floor);
                    }
                }
                assert forall|x: int, y: int|
                    0 <= x < width && 0 <= y < height && map.tiles@[#[trigger] (x + y * width)]
                        == TileType::Floor implies in_some_disk(map, rooms@, x, y) by {
                    msnap.lemma_idx_bounds(Position { x: x as i32, y: y as i32 });
                    if map.tiles@[x + y * width] == msnap.tiles@[x + y * width] {
                        let k = choose|k: int|
                            0 <= k < rooms@.len() && in_disk_region(
                                msnap,
                                (#[trigger] rooms@[k]).spec_center(),
                                room_radius(rooms@[k]),
                                x,
                                y,
                            );
                        assert(in_disk_region(
                            map,
                            rooms@[k].spec_center(),
                            room_radius(rooms@[k]),
                            x,
                            y,
                        ));
                    } else {
                        let (x2, y2) = choose|x2: int, y2: int|
                            in_disk_region(msnap, c, radius as int, x2, y2) && x + y * width
                                == #[trigger] (x2 + y2 * msnap.width);
                        msnap.lemma_idx_injective(
                            Position { x: x2 as i32, y: y2 as i32 },
                            Position { x: x as i32, y: y as i32 },
                        );
                        assert(in_disk_region(
                            map,
                            rooms@[j as int].spec_center(),
                            room_radius(rooms@[j as int]),
                            x,
                            y,
                        ));
                    }
                }
            }
            j = j + 1;
        }
        let mut i: usize = 1;
        while i < rooms.len()
            invariant
                1 <= i <= rooms@.len(),
                1 <= rooms@.len(),
                map.wf(),
                map.width == width,
                map.height == height,
                map.spec_start() == (Position { x: center.x, y: center.y }),
                2 * width <= i32::MAX,
                2 * height <= i32::MAX,
                rooms_ok(rooms@, width, height),
                center == rooms@[0].spec_center(),
                map.tiles@.len() == width * height,
                forall|k: int| 0 <= k < map.occupancy@.len() ==> (#[trigger] map.occ_at(k)).len() == 0,
                forall|k: int| 0 <= k < map.memory@.len() ==> map.memory@[k] == false,
                forall|k: int|
                    0 <= k < rooms@.len() ==> {
                        let r = #[trigger] rooms@[k];
                        r.x1 + 1 <= (r.x1 + r.x2) / 2 && (r.x1 + r.x2) / 2 < r.x2 && r.y1 + 1 <= (
                        r.y1 + r.y2) / 2 && (r.y1 + r.y2) / 2 < r.y2
                    },
                map.valid_pos(map.spec_start()),
                map.is_floor(map.spec_start()),
                forall|k: int, x: int, y: int|
                    0 <= k < rooms@.len() && #[trigger] in_disk_region(
                        map,
                        rooms@[k].spec_center(),
                        room_radius(rooms@[k]),
                        x,
                        y,
                    ) ==> map.tiles@[x + y * width] == TileType::Floor,
                forall|k: int|
                    1 <= k < i ==> elbow_connected(
                        map,
                        (#[trigger] rooms@[k - 1]).spec_center(),
                        rooms@[k].spec_center(),
                    ),
                forall|x: int, y: int|
                    0 <= x < width && 0 <= y < height && map.tiles@[#[trigger] (x + y * width)]
                        == TileType::Floor ==> in_some_disk(map, rooms@, x, y) || on_some_corridor(
                        rooms@,
                        x,
                        y,
                        i as int,
                    ),
            decreases rooms@.len() - i,
        {
            let prev = rooms[i - 1].center();
            let cur = rooms[i].center();
            let ghost msnap = map;
            carve_elbow(&mut map, rng, prev, cur);
            proof {
                lemma_carving_keeps_empty(msnap, map);
                msnap.lemma_idx_bounds(msnap.spec_start());
                assert(msnap.is_floor(msnap.spec_start()));
                assert(map.tiles@[msnap.idx_of(msnap.spec_start())] == TileType::Floor);
                assert(map.is_floor(map.spec_start()));
                assert forall|k: int, x: int, y: int|
                    0 <= k < rooms@.len() && #[trigger] in_disk_region(
                        map,
                        rooms@[k].spec_center(),
                        room_radius(rooms@[k]),
                        x,
                        y,
                    ) implies map.tiles@[x + y * width] == TileType::Floor by {
                    assert(in_disk_region(
                        msnap,
                        rooms@[k].spec_center(),
                        room_radius(rooms@[k]),
                        x,
                        y,
                    ));
                    msnap.lemma_idx_bounds(Position { x: x as i32, y: y as i32 });
                    assert(msnap.tiles@[x + y * width] == TileType::Floor);
                }
                assert forall|k: int|
                    1 <= k < i + 1 implies elbow_connected(
                    map,
                    (#[trigger] rooms@[k - 1]).spec_center(),
                    rooms@[k].spec_center(),
                ) by {
                    if k < i {
                        lemma_elbow_preserved(
                            msnap,
                            map,
                            rooms@[k - 1].spec_center(),
                            rooms@[k].spec_center(),
                        );
                    }
                }
                assert forall|x: int, y: int|
                    0 <= x < width && 0 <= y < height && map.tiles@[#[trigger] (x + y * width)]
                        == TileType::Floor implies in_some_disk(map, rooms@, x, y)
                    || on_some_corridor(rooms@, x, y, i + 1) by {
                    msnap.lemma_idx_bounds(Position { x: x as i32, y: y as i32 });
                    if map.tiles@[x + y * width] == msnap.tiles@[x + y * width] {
                        if in_some_disk(msnap, rooms@, x, y) {
                            let k = choose|k: int|
                                0 <= k < rooms@.len() && in_disk_region(
                                    msnap,
                                    (#[trigger] rooms@[k]).spec_center(),
                                    room_radius(rooms@[k]),
                                    x,
                                    y,
                                );
                            assert(in_disk_region(
                                map,
                                rooms@[k].spec_center(),
                                room_radius(rooms@[k]),
                                x,
                                y,
                            ));
                        } else {
                            let k = choose|k: int|
                                1 <= k < i && on_elbow_zone(
                                    (#[trigger] rooms@[k - 1]).spec_center(),
                                    rooms@[k].spec_center(),
                                    x,
                                    y,
                                );
                            assert(1 <= k < i + 1 && on_elbow_zone(
                                rooms@[k - 1].spec_center(),
                                rooms@[k].spec_center(),
                                x,
                                y,
                            ));
                        }
                    } else {
                        let (x2, y2) = choose|x2: int, y2: int|
                            0 <= x2 < msnap.width && 0 <= y2 < msnap.height && x + y * width
                                == #[trigger] (x2 + y2 * msnap.width) && on_elbow_zone(
                                prev,
                                cur,
                                x2,
                                y2,
                            );
                        msnap.lemma_idx_injective(
                            Position { x: x2 as i32, y: y2 as i32 },
                            Position { x: x as i32, y: y as i32 },
                        );
                        assert(1 <= i < i + 1 && on_elbow_zone(
                            rooms@[i as int - 1].spec_center(),
                            rooms@[i as int].spec_center(),
                            x,
                            y,
                        ));
                    }
                }
            }
            i = i + 1;
        }
        proof {
            map.lemma_idx_bounds(map.spec_start());
            assert(round_level(map, rooms@, width, height));
        }
        let ghost gm = map;
        let result = Some(map);
        proof {
            assert(result->0 == gm);
            assert(round_level(result->0, rooms@, width, height));
        }
        result
    }
}

/// Which strategies a factory can hold.
pub enum BuilderKind {
    Rect(RectRoomMapGenerator),
    Round(RoundRoomMapGenerator),
}

/// Picks one of its registered strategies uniformly at random per
/// level.
pub struct MapFactory {
    pub builders: Vec<BuilderKind>,
}

impl MapFactory {
    pub fn new() -> (r: MapFactory)
        ensures
            r.builders@.len() == 0,
    {
        MapFactory { builders: Vec::new() }
    }

    pub fn add_builder(&mut self, builder: BuilderKind)
        ensures
            final(self).builders@ == old(self).builders@.push(builder),
    {
        self.builders.push(builder);
    }

    /// Generate a fresh level with a strategy drawn from the random
    /// stream; `None` only when room placement exhausts its budget,
    /// which is fatal to level generation. The level's shape is the
    /// one a registered builder produces: a factory holding only
    /// rectangular builders yields a rectangular level.
    pub fn create_map(
        &self,
        rng: &mut RandomNumberGenerator,
        width: i32,
        height: i32,
    ) -> (m: Option<GameMap>)
        requires
            1 <= self.builders@.len() <= i32::MAX,
            MAX_WIDTH < width,
            MAX_HEIGHT < height,
            width * height <= i32::MAX,
        ensures
            m is Some ==> fresh_level(m->0, width, height),
            m is Some ==> exists|i: int|
                0 <= i < self.builders@.len() && (match #[trigger] self.builders@[i] {
                    BuilderKind::Rect(_) => exists|rooms: Seq<Room>| #[trigger] rect_level(
                        m->0,
                        rooms,
                        width,
                        height,
                    ),
                    BuilderKind::Round(_) => exists|rooms: Seq<Room>| #[trigger] round_level(
                        m->0,
                        rooms,
                        width,
                        height,
                    ),
                }),
    {
        let room_type = rng_range(rng, 0, self.builders.len() as i32) as usize;
        let ghost rt = room_type as int;
        let result = match &self.builders[room_type] {
            BuilderKind::Rect(g) => g.generate(rng, width, height),
            BuilderKind::Round(g) => g.generate(rng, width, height),
        };
        proof {
            if result is Some {
                assert(0 <= rt < self.builders@.len());
                match self.builders@[rt] {
                    BuilderKind::Rect(_) => {
                        assert(exists|rooms: Seq<Room>| #[trigger] rect_level(
                            result->0,
                            rooms,
                            width,
                            height,
                        ));
                    },
                    BuilderKind::Round(_) => {
                        assert(exists|rooms: Seq<Room>| #[trigger] round_level(
                            result->0,
                            rooms,
                            width,
                            height,
                        ));
                    },
                }
            }
        }
        result
    }
}

} // verus!
