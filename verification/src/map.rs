use vstd::prelude::*;

use crate::components::{Entity, Point, Position};

verus! {

/// One step of the eight-way compass.
#[derive(Debug, Clone, Copy)]
pub enum Direction {
    North,
    South,
    East,
    West,
    NorthWest,
    NorthEast,
    SouthWest,
    SouthEast,
}

/// What a grid cell is made of. `Wall` blocks walking and sight.
#[derive(Debug, Clone, Copy, PartialEq, Eq, Structural)]
pub enum TileType {
    Floor,
    Wall,
}

/// The tile grid together with the per-tile occupancy lists and the
/// "remembered" bitmap of tiles the player has explored.
///
/// Tiles are stored row-major: the cell `(x, y)` lives at index
/// `x + y * width`. `occupancy[i]` lists the entities standing on cell
/// `i`; keeping those lists in step with the entities' `Position`
/// components is the occupancy invariant, stated in
/// [`crate::world::occupancy_ok`].
pub struct GameMap {
    pub tiles: Vec<TileType>,
    pub memory: Vec<bool>,
    pub occupancy: Vec<Vec<Entity>>,
    pub width: i32,
    pub height: i32,
    pub start_x: i32,
    pub start_y: i32,
}

/// Filtering a sequence whose elements all satisfy the predicate
/// changes nothing.
pub proof fn lemma_filter_fixed<A>(s: Seq<A>, pred: spec_fn(A) -> bool)
    requires
        forall|i: int| 0 <= i < s.len() ==> pred(#[trigger] s[i]),
    ensures
        s.filter(pred) == s,
    decreases s.len(),
{
    reveal(Seq::filter);
    if s.len() == 0 {
        assert(s.filter(pred) =~= s);
    } else {
        lemma_filter_fixed(s.drop_last(), pred);
        assert(s.drop_last().push(s.last()) =~= s);
    }
}

/// What `push` does to membership.
pub proof fn lemma_push_contains<A>(s: Seq<A>, x: A)
    ensures
        s.push(x).contains(x),
        forall|y: A| s.contains(y) ==> #[trigger] s.push(x).contains(y),
        forall|y: A| #[trigger] s.push(x).contains(y) ==> s.contains(y) || y == x,
{
    assert(s.push(x)[s.len() as int] == x);
    assert forall|y: A| s.contains(y) implies #[trigger] s.push(x).contains(y) by {
        let i = choose|i: int| 0 <= i < s.len() && s[i] == y;
        assert(s.push(x)[i] == y);
    }
    assert forall|y: A| #[trigger] s.push(x).contains(y) implies s.contains(y) || y == x by {
        let i = choose|i: int| 0 <= i < s.push(x).len() && s.push(x)[i] == y;
        if i < s.len() {
            assert(s[i] == y);
        }
    }
}

/// Pushing a fresh element keeps a sequence duplicate-free.
pub proof fn lemma_push_no_dup<A>(s: Seq<A>, x: A)
    requires
        s.no_duplicates(),
        !s.contains(x),
    ensures
        s.push(x).no_duplicates(),
{
    assert forall|i: int, j: int|
        0 <= i < s.push(x).len() && 0 <= j < s.push(x).len() && i != j implies s.push(x)[i]
        != s.push(x)[j] by {
        if i < s.len() && j < s.len() {
        } else if i < s.len() {
            assert(s[i] == s.push(x)[i]);
        } else if j < s.len() {
            assert(s[j] == s.push(x)[j]);
        }
    }
}

/// `filter` keeps a sequence duplicate-free.
pub proof fn lemma_filter_no_dup<A>(s: Seq<A>, pred: spec_fn(A) -> bool)
    requires
        s.no_duplicates(),
    ensures
        s.filter(pred).no_duplicates(),
    decreases s.len(),
{
    reveal(Seq::filter);
    if s.len() == 0 {
    } else {
        let rest = s.drop_last();
        assert(rest.no_duplicates());
        lemma_filter_no_dup(rest, pred);
        if pred(s.last()) {
            if rest.filter(pred).contains(s.last()) {
                rest.lemma_filter_contains_rev(pred, s.last());
                let i = choose|i: int| 0 <= i < rest.len() && rest[i] == s.last();
                assert(s[i] == s[s.len() - 1]);
                assert(false);
            }
            lemma_push_no_dup(rest.filter(pred), s.last());
        }
    }
}

impl GameMap {
    /// The designated spawn point (the first room's center).
    pub open spec fn spec_start(self) -> Position {
        Position { x: self.start_x, y: self.start_y }
    }

    pub open spec fn valid_pos(self, p: Position) -> bool {
        0 <= p.x < self.width && 0 <= p.y < self.height
    }

    pub open spec fn valid_point(self, p: Point) -> bool {
        0 <= p.x < self.width && 0 <= p.y < self.height
    }

    pub open spec fn idx_of(self, p: Position) -> int {
        p.x + p.y * self.width
    }

    pub open spec fn idx_of_point(self, p: Point) -> int {
        p.x + p.y * self.width
    }

    /// Shape well-formedness: positive dimensions, a grid that fits in
    /// `i32` index arithmetic, and all three per-tile columns of the
    /// same length.
    pub open spec fn wf(self) -> bool {
        &&& 1 <= self.width
        &&& 1 <= self.height
        &&& self.width * self.height <= i32::MAX
        &&& self.tiles@.len() == self.width * self.height
        &&& self.memory@.len() == self.width * self.height
        &&& self.occupancy@.len() == self.width * self.height
    }

    pub open spec fn is_floor(self, p: Position) -> bool {
        self.tiles@[self.idx_of(p)] == TileType::Floor
    }

    /// The entities standing on cell `i`.
    pub open spec fn occ_at(self, i: int) -> Seq<Entity> {
        self.occupancy@[i]@
    }

    /// A valid position's index lies inside the grid.
    pub proof fn lemma_idx_bounds(self, p: Position)
        requires
            self.wf(),
            self.valid_pos(p),
        ensures
            0 <= self.idx_of(p) < self.width * self.height,
    {
        assert(p.x + p.y * self.width < self.width * self.height) by (nonlinear_arith)
            requires
                0 <= p.x < self.width,
                0 <= p.y < self.height,
        ;
        assert(0 <= p.x + p.y * self.width) by (nonlinear_arith)
            requires
                0 <= p.x,
                0 <= p.y,
                1 <= self.width,
        ;
    }

    /// Same, for a `Point`.
    pub proof fn lemma_point_idx_bounds(self, p: Point)
        requires
            self.wf(),
            self.valid_point(p),
        ensures
            0 <= self.idx_of_point(p) < self.width * self.height,
    {
        self.lemma_idx_bounds(Position { x: p.x, y: p.y });
    }

    /// Row-major indexing is injective on valid positions.
    pub proof fn lemma_idx_injective(self, p: Position, q: Position)
        requires
            self.wf(),
            self.valid_pos(p),
            self.valid_pos(q),
            self.idx_of(p) == self.idx_of(q),
        ensures
            p == q,
    {
        assert(p.y == q.y && p.x == q.x) by (nonlinear_arith)
            requires
                0 <= p.x < self.width,
                0 <= q.x < self.width,
                p.x + p.y * self.width == q.x + q.y * self.width,
        ;
    }

    /// A fully-walled, unexplored, unoccupied grid with the given
    /// spawn point.
    pub fn new(width: i32, height: i32, start_x: i32, start_y: i32) -> (m: GameMap)
        requires
            1 <= width,
            1 <= height,
            width * height <= i32::MAX,
        ensures
            m.wf(),
            m.width == width,
            m.height == height,
            m.spec_start() == (Position { x: start_x, y: start_y }),
            forall|i: int| 0 <= i < m.tiles@.len() ==> m.tiles@[i] == TileType::Wall,
            forall|i: int| 0 <= i < m.memory@.len() ==> m.memory@[i] == false,
            forall|i: int| 0 <= i < m.occupancy@.len() ==> m.occ_at(i).len() == 0,
    {
        let n: usize = (width * height) as usize;
        let mut tiles: Vec<TileType> = Vec::new();
        let mut memory: Vec<bool> = Vec::new();
        let mut occupancy: Vec<Vec<Entity>> = Vec::new();
        let mut i: usize = 0;
        while i < n
            invariant
                i <= n,
                tiles@.len() == i,
                memory@.len() == i,
                occupancy@.len() == i,
                forall|j: int| 0 <= j < i ==> tiles@[j] == TileType::Wall,
                forall|j: int| 0 <= j < i ==> memory@[j] == false,
                forall|j: int| 0 <= j < i ==> occupancy@[j]@.len() == 0,
            decreases n - i,
        {
            tiles.push(TileType::Wall);
            memory.push(false);
            occupancy.push(Vec::new());
            i = i + 1;
        }
        GameMap { tiles, memory, occupancy, width, height, start_x, start_y }
    }

    /// Step one tile in `dir` from `old_position`, clamped to the grid.
    pub fn new_position(&self, dir: Direction, old_position: &Position) -> (r: Position)
        requires
            self.wf(),
            self.valid_pos(*old_position),
        ensures
            self.valid_pos(r),
            r.x as int == match dir {
                Direction::West | Direction::NorthWest | Direction::SouthWest =>
                    if old_position.x == 0 { 0int } else { old_position.x - 1 },
                Direction::East | Direction::NorthEast | Direction::SouthEast =>
                    if old_position.x == self.width - 1 { self.width - 1 } else { old_position.x + 1 },
                _ => old_position.x as int,
            },
            r.y as int == match dir {
                Direction::North | Direction::NorthWest | Direction::NorthEast =>
                    if old_position.y == 0 { 0int } else { old_position.y - 1 },
                Direction::South | Direction::SouthWest | Direction::SouthEast =>
                    if old_position.y == self.height - 1 { self.height - 1 } else { old_position.y + 1 },
                _ => old_position.y as int,
            },
    {
        let mut newpos = *old_position;
        match dir {
            Direction::North => {
                newpos.y = if newpos.y == 0 { 0 } else { newpos.y - 1 };
            },
            Direction::South => {
                newpos.y = if newpos.y == self.height - 1 { self.height - 1 } else { newpos.y + 1 };
            },
            Direction::East => {
                newpos.x = if newpos.x == self.width - 1 { self.width - 1 } else { newpos.x + 1 };
            },
            Direction::West => {
                newpos.x = if newpos.x == 0 { 0 } else { newpos.x - 1 };
            },
            Direction::NorthWest => {
                newpos.y = if newpos.y == 0 { 0 } else { newpos.y - 1 };
                newpos.x = if newpos.x == 0 { 0 } else { newpos.x - 1 };
            },
            Direction::NorthEast => {
                newpos.y = if newpos.y == 0 { 0 } else { newpos.y - 1 };
                newpos.x = if newpos.x == self.width - 1 { self.width - 1 } else { newpos.x + 1 };
            },
            Direction::SouthWest => {
                newpos.y = if newpos.y == self.height - 1 { self.height - 1 } else { newpos.y + 1 };
                newpos.x = if newpos.x == 0 { 0 } else { newpos.x - 1 };
            },
            Direction::SouthEast => {
                newpos.y = if newpos.y == self.height - 1 { self.height - 1 } else { newpos.y + 1 };
                newpos.x = if newpos.x == self.width - 1 { self.width - 1 } else { newpos.x + 1 };
            },
        }
        newpos
    }

    pub fn pos_to_idx(&self, p: &Position) -> (r: usize)
        requires
            self.wf(),
            self.valid_pos(*p),
        ensures
            r == self.idx_of(*p),
            r < self.tiles@.len(),
    {
        proof {
            self.lemma_idx_bounds(*p);
            assert(p.y * self.width <= (self.height - 1) * self.width) by (nonlinear_arith)
                requires
                    p.y < self.height,
                    0 <= self.width,
            ;
            assert((self.height - 1) * self.width == self.width * self.height - self.width)
                by (nonlinear_arith);
            assert(0 <= p.y * self.width) by (nonlinear_arith)
                requires
                    0 <= p.y,
                    0 <= self.width,
            ;
        }
        (p.x + p.y * self.width) as usize
    }

    /// Index a `Point`, or `None` when it lies off the grid.
    pub fn point_to_idx(&self, p: &Point) -> (r: Option<usize>)
        requires
            self.wf(),
        ensures
            self.valid_point(*p) ==> r == Some((self.idx_of_point(*p)) as usize),
            !self.valid_point(*p) ==> r is None,
            r is Some ==> r->0 < self.tiles@.len(),
    {
        if p.x < 0 || p.x >= self.width || p.y < 0 || p.y >= self.height {
            None
        } else {
            Some(self.pos_to_idx(&Position { x: p.x, y: p.y }))
        }
    }

    pub fn walkable(&self, pos: &Position) -> (r: bool)
        requires
            self.wf(),
            self.valid_pos(*pos),
        ensures
            r == self.is_floor(*pos),
    {
        let idx = self.pos_to_idx(pos);
        self.tiles[idx] == TileType::Floor
    }

    /// Whether the cell at `idx` blocks sight.
    pub fn is_opaque(&self, idx: usize) -> (r: bool)
        requires
            self.wf(),
            idx < self.tiles@.len(),
        ensures
            r == (self.tiles@[idx as int] != TileType::Floor),
    {
        self.tiles[idx] != TileType::Floor
    }

    pub fn xy_is_opaque(&self, p: &Point) -> (r: bool)
        requires
            self.wf(),
            self.valid_point(*p),
        ensures
            r == (self.tiles@[self.idx_of_point(*p)] != TileType::Floor),
    {
        let idx = self.pos_to_idx(&Position { x: p.x, y: p.y });
        self.is_opaque(idx)
    }

    pub fn idx_to_xy_point(&self, idx: usize) -> (r: Point)
        requires
            self.wf(),
            idx < self.tiles@.len(),
        ensures
            self.valid_point(r),
            self.idx_of_point(r) == idx,
    {
        proof {
            assert(self.width * self.height <= i32::MAX);
            let w = self.width as int;
            let h = self.height as int;
            let i = idx as int;
            assert(i % w + (i / w) * w == i && 0 <= i % w < w) by (nonlinear_arith)
                requires
                    1 <= w,
                    0 <= i,
            ;
            assert(0 <= i / w && i / w < h) by (nonlinear_arith)
                requires
                    1 <= w,
                    0 <= i,
                    i < w * h,
            ;
        }
        let x = (idx as i32) % self.width;
        let y = (idx as i32) / self.width;
        Point { x, y }
    }

    /// Permanently mark the tile at `p` as explored.
    pub fn remember(&mut self, p: &Point)
        requires
            old(self).wf(),
            old(self).valid_point(*p),
        ensures
            final(self).wf(),
            final(self).memory@ == old(self).memory@.update(old(self).idx_of_point(*p), true),
            final(self).tiles == old(self).tiles,
            final(self).occupancy == old(self).occupancy,
            final(self).width == old(self).width,
            final(self).height == old(self).height,
            final(self).spec_start() == old(self).spec_start(),
    {
        let idx = self.pos_to_idx(&Position { x: p.x, y: p.y });
        self.memory.set(idx, true);
    }

    pub fn center_of(&self) -> (r: Position)
        ensures
            r == self.spec_start(),
    {
        Position { x: self.start_x, y: self.start_y }
    }

    pub fn width(&self) -> (r: i32)
        ensures
            r == self.width,
    {
        self.width
    }

    pub fn height(&self) -> (r: i32)
        ensures
            r == self.height,
    {
        self.height
    }

    pub fn dimensions(&self) -> (r: Point)
        ensures
            r.x == self.width,
            r.y == self.height,
    {
        Point { x: self.width, y: self.height }
    }

    /// Record that `id` stands on `p`.
    pub fn add_entity(&mut self, p: &Position, id: Entity)
        requires
            old(self).wf(),
            old(self).valid_pos(*p),
        ensures
            final(self).wf(),
            final(self).occupancy@ == old(self).occupancy@.update(
                old(self).idx_of(*p),
                final(self).occupancy@[old(self).idx_of(*p)],
            ),
            final(self).occ_at(old(self).idx_of(*p)) == old(self).occ_at(old(self).idx_of(*p)).push(id),
            final(self).tiles == old(self).tiles,
            final(self).memory == old(self).memory,
            final(self).width == old(self).width,
            final(self).height == old(self).height,
            final(self).spec_start() == old(self).spec_start(),
    {
        let idx = self.pos_to_idx(p);
        let list = &mut self.occupancy[idx];
        list.push(id);
    }

    /// Drop every entry equal to `id` from the list on `p`.
    pub fn remove_entity(&mut self, p: &Position, id: Entity)
        requires
            old(self).wf(),
            old(self).valid_pos(*p),
        ensures
            final(self).wf(),
            final(self).occupancy@ == old(self).occupancy@.update(
                old(self).idx_of(*p),
                final(self).occupancy@[old(self).idx_of(*p)],
            ),
            final(self).occ_at(old(self).idx_of(*p)) == old(self).occ_at(old(self).idx_of(*p)).filter(
                |x: Entity| x != id,
            ),
            final(self).tiles == old(self).tiles,
            final(self).memory == old(self).memory,
            final(self).width == old(self).width,
            final(self).height == old(self).height,
            final(self).spec_start() == old(self).spec_start(),
    {
        let idx = self.pos_to_idx(p);
        let ghost old_list = self.occupancy@[idx as int]@;
        let list = &mut self.occupancy[idx];
        let mut kept: Vec<Entity> = Vec::new();
        let mut i: usize = 0;
        while i < list.len()
            invariant
                i <= list.len(),
                list@ == old_list,
                kept@ == old_list.take(i as int).filter(|x: Entity| x != id),
            decreases list.len() - i,
        {
            proof {
                assert(old_list.take(i + 1).drop_last() == old_list.take(i as int));
                assert(old_list.take(i + 1).last() == old_list[i as int]);
                reveal_with_fuel(Seq::filter, 2);
            }
            let e = list[i];
            if !(e == id) {
                kept.push(e);
            }
            i = i + 1;
        }
        proof {
            assert(old_list.take(old_list.len() as int) == old_list);
        }
        *list = kept;
    }

    /// Move `id` from the list on `old_pos` to the list on `new_pos`.
    pub fn move_entity(&mut self, old_pos: &Position, new_pos: &Position, id: Entity)
        requires
            old(self).wf(),
            old(self).valid_pos(*old_pos),
            old(self).valid_pos(*new_pos),
        ensures
            final(self).wf(),
            final(self).occ_at(old(self).idx_of(*new_pos)) == old(self).occ_at(
                old(self).idx_of(*new_pos),
            ).filter(|x: Entity| x != id).push(id),
            old(self).idx_of(*old_pos) != old(self).idx_of(*new_pos) ==> final(self).occ_at(
                old(self).idx_of(*old_pos),
            ) == old(self).occ_at(old(self).idx_of(*old_pos)).filter(|x: Entity| x != id),
            forall|i: int|
                0 <= i < old(self).occupancy@.len() && i != old(self).idx_of(*old_pos) && i
                    != old(self).idx_of(*new_pos) ==> final(self).occ_at(i) == old(self).occ_at(i),
            final(self).occupancy@.len() == old(self).occupancy@.len(),
            final(self).tiles == old(self).tiles,
            final(self).memory == old(self).memory,
            final(self).width == old(self).width,
            final(self).height == old(self).height,
            final(self).spec_start() == old(self).spec_start(),
    {
        let ghost io = old(self).idx_of(*old_pos);
        let ghost inw = old(self).idx_of(*new_pos);
        let ghost m0 = *self;
        self.remove_entity(old_pos, id);
        let ghost m1 = *self;
        self.remove_entity(new_pos, id);
        let ghost m2 = *self;
        proof {
            m0.lemma_idx_bounds(*old_pos);
            m0.lemma_idx_bounds(*new_pos);
            if io == inw {
                let pred = |x: Entity| x != id;
                assert forall|t: int| 0 <= t < m0.occ_at(io).filter(pred).len() implies pred(
                    #[trigger] m0.occ_at(io).filter(pred)[t],
                ) by {
                    m0.occ_at(io).lemma_filter_pred(pred, t);
                }
                lemma_filter_fixed(m0.occ_at(io).filter(pred), pred);
                assert(m2.occ_at(inw) == m0.occ_at(inw).filter(pred));
            } else {
                assert(m1.occ_at(inw) == m0.occ_at(inw));
                assert(m2.occ_at(io) == m1.occ_at(io));
            }
        }
        self.add_entity(new_pos, id);
    }

    /// The topmost occupant of `p`, if any.
    pub fn try_walk(&self, p: &Position) -> (r: Option<Entity>)
        requires
            self.wf(),
            self.valid_pos(*p),
        ensures
            self.occ_at(self.idx_of(*p)).len() == 0 ==> r is None,
            self.occ_at(self.idx_of(*p)).len() > 0 ==> r == Some(
                self.occ_at(self.idx_of(*p)).last(),
            ),
    {
        let idx = self.pos_to_idx(p);
        let list = &self.occupancy[idx];
        if list.len() == 0 {
            None
        } else {
            Some(list[list.len() - 1])
        }
    }
}

} // verus!
