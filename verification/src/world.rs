use vstd::prelude::*;

use crate::components::{Entity, Mob, Name, Position, Stats};
use crate::map::{lemma_filter_no_dup, lemma_push_contains, lemma_push_no_dup, GameMap};
use crate::visibility::Viewshed;

verus! {

/// The entity store: parallel component columns indexed by entity id.
///
/// An entity owns a component when its column holds `Some`; a
/// despawned entity keeps its id but every column holds `None`. The
/// single controlled entity is the `player` field, which tags exactly
/// one entity for the lifetime of the store.
pub struct World {
    pub live: Vec<bool>,
    pub positions: Vec<Option<Position>>,
    pub stats: Vec<Option<Stats>>,
    pub names: Vec<Option<Name>>,
    pub mobs: Vec<Option<Mob>>,
    pub viewsheds: Vec<Option<Viewshed>>,
    pub player: Entity,
}

impl World {
    /// Number of entity slots ever created.
    pub open spec fn n(self) -> int {
        self.live@.len() as int
    }

    /// Columns of equal length, a valid player id, and no components
    /// left on despawned entities.
    pub open spec fn wf(self) -> bool {
        &&& self.positions@.len() == self.n()
        &&& self.stats@.len() == self.n()
        &&& self.names@.len() == self.n()
        &&& self.mobs@.len() == self.n()
        &&& self.viewsheds@.len() == self.n()
        &&& self.player.id < self.n()
        &&& self.mobs@[self.player.id as int] is None
        &&& forall|i: int|
            0 <= i < self.n() && !self.live@[i] ==> {
                &&& (#[trigger] self.positions@[i]) is None
                &&& self.stats@[i] is None
                &&& self.names@[i] is None
                &&& self.mobs@[i] is None
                &&& self.viewsheds@[i] is None
            }
    }

    pub open spec fn is_live(self, e: Entity) -> bool {
        e.id < self.n() && self.live@[e.id as int]
    }

    pub open spec fn has_pos(self, e: Entity) -> bool {
        e.id < self.n() && self.positions@[e.id as int] is Some
    }

    pub open spec fn is_mob(self, e: Entity) -> bool {
        e.id < self.n() && self.mobs@[e.id as int] is Some
    }

    pub fn entity_is_live(&self, e: Entity) -> (r: bool)
        ensures
            r == self.is_live(e),
    {
        e.id < self.live.len() && self.live[e.id]
    }

    pub fn entity_is_mob(&self, e: Entity) -> (r: bool)
        requires
            self.wf(),
        ensures
            r == self.is_mob(e),
    {
        e.id < self.mobs.len() && self.mobs[e.id].is_some()
    }

    pub fn get_position(&self, e: Entity) -> (r: Option<Position>)
        requires
            self.wf(),
            e.id < self.n(),
        ensures
            r == self.positions@[e.id as int],
    {
        self.positions[e.id]
    }

    pub fn get_stats(&self, e: Entity) -> (r: Option<Stats>)
        requires
            self.wf(),
            e.id < self.n(),
        ensures
            r == self.stats@[e.id as int],
    {
        self.stats[e.id]
    }

    /// A clone of the entity's display name, if it has one.
    pub fn get_name(&self, e: Entity) -> (r: Option<String>)
        requires
            self.wf(),
            e.id < self.n(),
        ensures
            r is Some <==> self.names@[e.id as int] is Some,
            r is Some ==> r->0@ == self.names@[e.id as int]->0.name@,
    {
        match &self.names[e.id] {
            Some(n) => Some(n.name.clone()),
            None => None,
        }
    }

    pub fn set_stats(&mut self, e: Entity, s: Stats)
        requires
            old(self).wf(),
            old(self).is_live(e),
        ensures
            final(self).wf(),
            final(self).stats@ == old(self).stats@.update(e.id as int, Some(s)),
            final(self).live == old(self).live,
            final(self).positions == old(self).positions,
            final(self).names == old(self).names,
            final(self).mobs == old(self).mobs,
            final(self).viewsheds == old(self).viewsheds,
            final(self).player == old(self).player,
    {
        self.stats.set(e.id, Some(s));
    }

    pub fn set_viewshed(&mut self, e: Entity, v: Viewshed)
        requires
            old(self).wf(),
            old(self).is_live(e),
        ensures
            final(self).wf(),
            final(self).viewsheds@ == old(self).viewsheds@.update(e.id as int, Some(v)),
            final(self).live == old(self).live,
            final(self).positions == old(self).positions,
            final(self).names == old(self).names,
            final(self).mobs == old(self).mobs,
            final(self).stats == old(self).stats,
            final(self).player == old(self).player,
    {
        self.viewsheds.set(e.id, Some(v));
    }
}

/// Every listed occupant is live, has a position, and that position
/// maps back to the cell it is listed on.
pub open spec fn occ_entry_ok(m: GameMap, w: World, i: int, e: Entity) -> bool {
    &&& w.is_live(e)
    &&& w.positions@[e.id as int] is Some
    &&& m.valid_pos(w.positions@[e.id as int]->0)
    &&& m.idx_of(w.positions@[e.id as int]->0) == i
}

/// Every live positioned entity is listed on the cell its position
/// maps to.
pub open spec fn pos_listed(m: GameMap, w: World, j: int) -> bool {
    &&& m.valid_pos(w.positions@[j]->0)
    &&& m.occ_at(m.idx_of(w.positions@[j]->0)).contains(Entity { id: j as usize })
}

/// The occupancy invariant: for every cell, `occupancy[i]` holds
/// exactly the entities whose `Position` maps to `i`, each at most
/// once.
pub open spec fn occupancy_ok(m: GameMap, w: World) -> bool {
    &&& forall|i: int, k: int|
        0 <= i < m.occupancy@.len() && 0 <= k < m.occ_at(i).len() ==> occ_entry_ok(
            m,
            w,
            i,
            #[trigger] m.occ_at(i)[k],
        )
    &&& forall|j: int|
        0 <= j < w.n() && w.live@[j] && (#[trigger] w.positions@[j]) is Some ==> pos_listed(
            m,
            w,
            j,
        )
    &&& forall|i: int| 0 <= i < m.occupancy@.len() ==> (#[trigger] m.occ_at(i)).no_duplicates()
}

/// The occupancy invariant reads only liveness and positions, so any
/// store that agrees on those keeps it.
pub proof fn lemma_occupancy_same(m: GameMap, w0: World, w1: World)
    requires
        occupancy_ok(m, w0),
        w1.live@ == w0.live@,
        w1.positions@ == w0.positions@,
    ensures
        occupancy_ok(m, w1),
{
    assert forall|i: int, k: int|
        0 <= i < m.occupancy@.len() && 0 <= k < m.occ_at(i).len() implies occ_entry_ok(
        m,
        w1,
        i,
        #[trigger] m.occ_at(i)[k],
    ) by {
        assert(occ_entry_ok(m, w0, i, m.occ_at(i)[k]));
    }
    assert forall|j: int|
        0 <= j < w1.n() && w1.live@[j] && (#[trigger] w1.positions@[j]) is Some implies pos_listed(
        m,
        w1,
        j,
    ) by {
        assert(pos_listed(m, w0, j));
    }
}

/// Likewise, the invariant reads only the occupancy lists and the
/// grid geometry of the map, not its tiles or explored bitmap.
pub proof fn lemma_occupancy_same_map(m0: GameMap, m1: GameMap, w: World)
    requires
        occupancy_ok(m0, w),
        m1.occupancy == m0.occupancy,
        m1.width == m0.width,
        m1.height == m0.height,
    ensures
        occupancy_ok(m1, w),
{
    assert(m1.occupancy@ == m0.occupancy@);
    assert forall|i: int, k: int|
        0 <= i < m1.occupancy@.len() && 0 <= k < m1.occ_at(i).len() implies occ_entry_ok(
        m1,
        w,
        i,
        #[trigger] m1.occ_at(i)[k],
    ) by {
        assert(m1.occ_at(i) == m0.occ_at(i));
        assert(occ_entry_ok(m0, w, i, m0.occ_at(i)[k]));
    }
    assert forall|j: int|
        0 <= j < w.n() && w.live@[j] && (#[trigger] w.positions@[j]) is Some implies pos_listed(
        m1,
        w,
        j,
    ) by {
        assert(pos_listed(m0, w, j));
        assert(m1.occ_at(m0.idx_of(w.positions@[j]->0)) == m0.occ_at(
            m0.idx_of(w.positions@[j]->0),
        ));
    }
    assert forall|i: int| 0 <= i < m1.occupancy@.len() implies (#[trigger] m1.occ_at(
        i,
    )).no_duplicates() by {
        assert(m1.occ_at(i) == m0.occ_at(i));
    }
}

impl World {
    /// A fresh store holding only the player, standing on
    /// `player_pos` of `map`; establishes the occupancy invariant.
    pub fn new(
        map: &mut GameMap,
        player_pos: Position,
        player_stats: Stats,
        player_name: Name,
        player_view: Viewshed,
    ) -> (w: World)
        requires
            old(map).wf(),
            old(map).valid_pos(player_pos),
            forall|i: int| 0 <= i < old(map).occupancy@.len() ==> (#[trigger] old(map).occ_at(i)).len() == 0,
        ensures
            w.wf(),
            final(map).wf(),
            occupancy_ok(*final(map), w),
            w.n() == 1,
            w.player == (Entity { id: 0 }),
            w.is_live(w.player),
            w.positions@[0] == Some(player_pos),
            w.stats@[0] == Some(player_stats),
            w.names@[0] == Some(player_name),
            w.mobs@[0] is None,
            w.viewsheds@[0] == Some(player_view),
            final(map).tiles == old(map).tiles,
            final(map).memory == old(map).memory,
            final(map).width == old(map).width,
            final(map).height == old(map).height,
            final(map).spec_start() == old(map).spec_start(),
    {
        let e0 = Entity { id: 0 };
        let mut live: Vec<bool> = Vec::new();
        let mut positions: Vec<Option<Position>> = Vec::new();
        let mut stats: Vec<Option<Stats>> = Vec::new();
        let mut names: Vec<Option<Name>> = Vec::new();
        let mut mobs: Vec<Option<Mob>> = Vec::new();
        let mut viewsheds: Vec<Option<Viewshed>> = Vec::new();
        live.push(true);
        positions.push(Some(player_pos));
        stats.push(Some(player_stats));
        names.push(Some(player_name));
        mobs.push(None);
        viewsheds.push(Some(player_view));
        map.add_entity(&player_pos, e0);
        let w = World { live, positions, stats, names, mobs, viewsheds, player: e0 };
        proof {
            let m1 = *map;
            let io = old(map).idx_of(player_pos);
            old(map).lemma_idx_bounds(player_pos);
            assert(m1.occ_at(io) == old(map).occ_at(io).push(e0));
            assert forall|i: int, k: int|
                0 <= i < m1.occupancy@.len() && 0 <= k < m1.occ_at(i).len() implies occ_entry_ok(
                m1,
                w,
                i,
                #[trigger] m1.occ_at(i)[k],
            ) by {
                if i != io {
                    assert(m1.occ_at(i) == old(map).occ_at(i));
                    assert(false);
                } else {
                    assert(m1.occ_at(i)[k] == e0);
                }
            }
            assert forall|j: int|
                0 <= j < w.n() && w.live@[j] && (#[trigger] w.positions@[j]) is Some implies
                pos_listed(m1, w, j) by {
                assert(j == 0);
                assert(w.live.len() == w.live@.len());
                lemma_push_contains(old(map).occ_at(io), e0);
            }
            assert forall|i: int| 0 <= i < m1.occupancy@.len() implies (#[trigger] m1.occ_at(
                i,
            )).no_duplicates() by {
                if i == io {
                    assert(m1.occ_at(i).len() == 1);
                } else {
                    assert(m1.occ_at(i) == old(map).occ_at(i));
                }
            }
        }
        w
    }

    /// Spawn a fresh entity with the given components, standing on
    /// `pos` of `map`; preserves the occupancy invariant.
    pub fn spawn_at(
        &mut self,
        map: &mut GameMap,
        pos: Position,
        stats: Option<Stats>,
        name: Option<Name>,
        mob: Option<Mob>,
        viewshed: Option<Viewshed>,
    ) -> (e: Entity)
        requires
            old(self).wf(),
            old(map).wf(),
            occupancy_ok(*old(map), *old(self)),
            old(map).valid_pos(pos),
        ensures
            final(self).wf(),
            final(map).wf(),
            occupancy_ok(*final(map), *final(self)),
            e.id == old(self).n(),
            final(self).n() == old(self).n() + 1,
            final(self).is_live(e),
            final(self).live@ == old(self).live@.push(true),
            final(self).positions@ == old(self).positions@.push(Some(pos)),
            final(self).stats@ == old(self).stats@.push(stats),
            final(self).names@ == old(self).names@.push(name),
            final(self).mobs@ == old(self).mobs@.push(mob),
            final(self).viewsheds@ == old(self).viewsheds@.push(viewshed),
            final(self).player == old(self).player,
            final(map).occ_at(old(map).idx_of(pos)) == old(map).occ_at(old(map).idx_of(pos)).push(
                e,
            ),
            forall|i: int|
                0 <= i < old(map).occupancy@.len() && i != old(map).idx_of(pos)
                    ==> final(map).occ_at(i) == old(map).occ_at(i),
            final(map).occupancy@.len() == old(map).occupancy@.len(),
            final(map).tiles == old(map).tiles,
            final(map).memory == old(map).memory,
            final(map).width == old(map).width,
            final(map).height == old(map).height,
            final(map).spec_start() == old(map).spec_start(),
    {
        let e = Entity { id: self.live.len() };
        self.live.push(true);
        self.positions.push(Some(pos));
        self.stats.push(stats);
        self.names.push(name);
        self.mobs.push(mob);
        self.viewsheds.push(viewshed);
        map.add_entity(&pos, e);
        proof {
            let m0 = *old(map);
            let m1 = *map;
            let w0 = *old(self);
            let w1 = *self;
            let io = m0.idx_of(pos);
            m0.lemma_idx_bounds(pos);
            assert forall|i: int, k: int|
                0 <= i < m1.occupancy@.len() && 0 <= k < m1.occ_at(i).len() implies occ_entry_ok(
                m1,
                w1,
                i,
                #[trigger] m1.occ_at(i)[k],
            ) by {
                let x = m1.occ_at(i)[k];
                if i == io && k == m1.occ_at(i).len() - 1 {
                    assert(x == e);
                } else {
                    assert(x == m0.occ_at(i)[k]);
                    assert(occ_entry_ok(m0, w0, i, x));
                }
            }
            assert forall|j: int|
                0 <= j < w1.n() && w1.live@[j] && (#[trigger] w1.positions@[j]) is Some implies
                pos_listed(m1, w1, j) by {
                assert(w1.live.len() == w1.live@.len());
                let ej = Entity { id: j as usize };
                assert(ej.id as int == j);
                if j == w0.n() {
                    assert(ej == e);
                    lemma_push_contains(m0.occ_at(io), e);
                } else {
                    assert(w0.live@[j] && w0.positions@[j] is Some);
                    assert(pos_listed(m0, w0, j));
                    let pj = w0.positions@[j]->0;
                    m0.lemma_idx_bounds(pj);
                    if m0.idx_of(pj) == io {
                        lemma_push_contains(m0.occ_at(io), e);
                    }
                }
            }
            assert forall|i: int| 0 <= i < m1.occupancy@.len() implies (#[trigger] m1.occ_at(
                i,
            )).no_duplicates() by {
                if i == io {
                    if m0.occ_at(io).contains(e) {
                        let k = choose|k: int|
                            0 <= k < m0.occ_at(io).len() && m0.occ_at(io)[k] == e;
                        assert(occ_entry_ok(m0, w0, io, m0.occ_at(io)[k]));
                        assert(false);
                    }
                    lemma_push_no_dup(m0.occ_at(io), e);
                }
            }
        }
        e
    }

    /// Remove every component of `e`, pruning its occupancy entry.
    pub fn despawn(&mut self, map: &mut GameMap, e: Entity)
        requires
            old(self).wf(),
            old(map).wf(),
            occupancy_ok(*old(map), *old(self)),
            e.id < old(self).n(),
        ensures
            final(self).wf(),
            final(map).wf(),
            occupancy_ok(*final(map), *final(self)),
            final(self).n() == old(self).n(),
            final(self).live@ == old(self).live@.update(e.id as int, false),
            final(self).positions@ == old(self).positions@.update(e.id as int, None),
            final(self).stats@ == old(self).stats@.update(e.id as int, None),
            final(self).names@ == old(self).names@.update(e.id as int, None),
            final(self).mobs@ == old(self).mobs@.update(e.id as int, None),
            final(self).viewsheds@ == old(self).viewsheds@.update(e.id as int, None),
            final(self).player == old(self).player,
            final(map).occupancy@.len() == old(map).occupancy@.len(),
            old(self).is_live(e) && old(self).positions@[e.id as int] is Some ==> {
                let p = old(self).positions@[e.id as int]->0;
                &&& final(map).occ_at(old(map).idx_of(p)) == old(map).occ_at(
                    old(map).idx_of(p),
                ).filter(|x: Entity| x != e)
                &&& forall|i: int|
                    0 <= i < old(map).occupancy@.len() && i != old(map).idx_of(p)
                        ==> final(map).occ_at(i) == old(map).occ_at(i)
            },
            !(old(self).is_live(e) && old(self).positions@[e.id as int] is Some)
                ==> final(map).occupancy == old(map).occupancy,
            final(map).tiles == old(map).tiles,
            final(map).memory == old(map).memory,
            final(map).width == old(map).width,
            final(map).height == old(map).height,
            final(map).spec_start() == old(map).spec_start(),
    {
        let is_live_now = self.live[e.id];
        let opos = self.positions[e.id];
        if is_live_now {
            match opos {
                Some(p) => {
                    proof {
                        assert(pos_listed(*old(map), *old(self), e.id as int));
                    }
                    map.remove_entity(&p, e);
                },
                None => {},
            }
        }
        self.live.set(e.id, false);
        self.positions.set(e.id, None);
        self.stats.set(e.id, None);
        self.names.set(e.id, None);
        self.mobs.set(e.id, None);
        self.viewsheds.set(e.id, None);
        proof {
            let m0 = *old(map);
            let m1 = *map;
            let w0 = *old(self);
            let w1 = *self;
            let pred = |x: Entity| x != e;
            if w0.is_live(e) && w0.positions@[e.id as int] is Some {
                let p = w0.positions@[e.id as int]->0;
                let io = m0.idx_of(p);
                m0.lemma_idx_bounds(p);
                assert(m1.occ_at(io) == m0.occ_at(io).filter(pred));
                assert forall|i: int, k: int|
                    0 <= i < m1.occupancy@.len() && 0 <= k < m1.occ_at(i).len() implies
                    occ_entry_ok(m1, w1, i, #[trigger] m1.occ_at(i)[k]) by {
                    let x = m1.occ_at(i)[k];
                    if i == io {
                        m0.occ_at(io).lemma_filter_pred(pred, k);
                        m0.occ_at(io).lemma_filter_contains_rev(pred, x);
                        let k0 = choose|k0: int|
                            0 <= k0 < m0.occ_at(io).len() && m0.occ_at(io)[k0] == x;
                        assert(occ_entry_ok(m0, w0, io, m0.occ_at(io)[k0]));
                    } else {
                        assert(x == m0.occ_at(i)[k]);
                        assert(occ_entry_ok(m0, w0, i, x));
                        if x == e {
                            assert(m0.idx_of(w0.positions@[e.id as int]->0) == i);
                            assert(false);
                        }
                    }
                }
                assert forall|j: int|
                    0 <= j < w1.n() && w1.live@[j] && (#[trigger] w1.positions@[j]) is Some implies
                    pos_listed(m1, w1, j) by {
                    assert(j != e.id);
                    assert(w1.live.len() == w1.live@.len());
                    let ej = Entity { id: j as usize };
                    assert(ej.id as int == j);
                    assert(ej != e);
                    assert(pos_listed(m0, w0, j));
                    let pj = w0.positions@[j]->0;
                    m0.lemma_idx_bounds(pj);
                    if m0.idx_of(pj) == io {
                        let k0 = m0.occ_at(io).lemma_contains_to_index(ej);
                        m0.occ_at(io).lemma_filter_contains(pred, k0);
                    }
                }
                assert forall|i: int| 0 <= i < m1.occupancy@.len() implies (#[trigger] m1.occ_at(
                    i,
                )).no_duplicates() by {
                    if i == io {
                        lemma_filter_no_dup(m0.occ_at(io), pred);
                    }
                }
            } else {
                assert(m1 == m0);
                assert forall|i: int, k: int|
                    0 <= i < m1.occupancy@.len() && 0 <= k < m1.occ_at(i).len() implies
                    occ_entry_ok(m1, w1, i, #[trigger] m1.occ_at(i)[k]) by {
                    let x = m1.occ_at(i)[k];
                    assert(occ_entry_ok(m0, w0, i, x));
                    assert(x != e);
                }
                assert forall|j: int|
                    0 <= j < w1.n() && w1.live@[j] && (#[trigger] w1.positions@[j]) is Some implies
                    pos_listed(m1, w1, j) by {
                    assert(j != e.id);
                    assert(pos_listed(m0, w0, j));
                }
            }
        }
    }

    /// Change `e`'s position to `newp`, keeping its occupancy entry
    /// in step: the sole way a position is ever written.
    pub fn move_to(&mut self, map: &mut GameMap, e: Entity, newp: Position)
        requires
            old(self).wf(),
            old(map).wf(),
            occupancy_ok(*old(map), *old(self)),
            old(self).is_live(e),
            old(self).positions@[e.id as int] is Some,
            old(map).valid_pos(newp),
        ensures
            final(self).wf(),
            final(map).wf(),
            occupancy_ok(*final(map), *final(self)),
            final(self).positions@ == old(self).positions@.update(e.id as int, Some(newp)),
            final(self).live == old(self).live,
            final(self).stats == old(self).stats,
            final(self).names == old(self).names,
            final(self).mobs == old(self).mobs,
            final(self).viewsheds == old(self).viewsheds,
            final(self).player == old(self).player,
            final(map).occupancy@.len() == old(map).occupancy@.len(),
            final(map).tiles == old(map).tiles,
            final(map).memory == old(map).memory,
            final(map).width == old(map).width,
            final(map).height == old(map).height,
            final(map).spec_start() == old(map).spec_start(),
    {
        proof {
            assert(pos_listed(*old(map), *old(self), e.id as int));
        }
        let p = self.positions[e.id].unwrap();
        map.move_entity(&p, &newp, e);
        self.positions.set(e.id, Some(newp));
        proof {
            let m0 = *old(map);
            let m1 = *map;
            let w0 = *old(self);
            let w1 = *self;
            let pred = |x: Entity| x != e;
            let io = m0.idx_of(p);
            let inw = m0.idx_of(newp);
            m0.lemma_idx_bounds(p);
            m0.lemma_idx_bounds(newp);
            assert forall|i: int, k: int|
                0 <= i < m1.occupancy@.len() && 0 <= k < m1.occ_at(i).len() implies occ_entry_ok(
                m1,
                w1,
                i,
                #[trigger] m1.occ_at(i)[k],
            ) by {
                let x = m1.occ_at(i)[k];
                if i == inw {
                    let base = m0.occ_at(inw).filter(pred);
                    if k == base.len() {
                        assert(x == e);
                    } else {
                        assert(x == base[k]);
                        m0.occ_at(inw).lemma_filter_pred(pred, k);
                        m0.occ_at(inw).lemma_filter_contains_rev(pred, x);
                        let k0 = choose|k0: int|
                            0 <= k0 < m0.occ_at(inw).len() && m0.occ_at(inw)[k0] == x;
                        assert(occ_entry_ok(m0, w0, inw, m0.occ_at(inw)[k0]));
                        assert(x != e);
                    }
                } else if i == io {
                    assert(m1.occ_at(io) == m0.occ_at(io).filter(pred));
                    m0.occ_at(io).lemma_filter_pred(pred, k);
                    m0.occ_at(io).lemma_filter_contains_rev(pred, x);
                    let k0 = choose|k0: int| 0 <= k0 < m0.occ_at(io).len() && m0.occ_at(io)[k0] == x;
                    assert(occ_entry_ok(m0, w0, io, m0.occ_at(io)[k0]));
                    assert(x != e);
                } else {
                    assert(x == m0.occ_at(i)[k]);
                    assert(occ_entry_ok(m0, w0, i, x));
                    if x == e {
                        assert(m0.idx_of(w0.positions@[e.id as int]->0) == i);
                        assert(false);
                    }
                }
            }
            assert forall|j: int|
                0 <= j < w1.n() && w1.live@[j] && (#[trigger] w1.positions@[j]) is Some implies
                pos_listed(m1, w1, j) by {
                let ej = Entity { id: j as usize };
                if j == e.id {
                    assert(ej == e);
                    lemma_push_contains(m0.occ_at(inw).filter(pred), e);
                } else {
                    assert(w1.live.len() == w1.live@.len());
                    assert(ej.id as int == j);
                    assert(ej != e);
                    assert(w0.live@[j] && w0.positions@[j] is Some);
                    assert(pos_listed(m0, w0, j));
                    let pj = w0.positions@[j]->0;
                    m0.lemma_idx_bounds(pj);
                    let ij = m0.idx_of(pj);
                    if ij == inw {
                        let k0 = m0.occ_at(inw).lemma_contains_to_index(ej);
                        m0.occ_at(inw).lemma_filter_contains(pred, k0);
                        lemma_push_contains(m0.occ_at(inw).filter(pred), e);
                    } else if ij == io {
                        let k0 = m0.occ_at(io).lemma_contains_to_index(ej);
                        m0.occ_at(io).lemma_filter_contains(pred, k0);
                    }
                }
            }
            assert forall|i: int| 0 <= i < m1.occupancy@.len() implies (#[trigger] m1.occ_at(
                i,
            )).no_duplicates() by {
                if i == inw {
                    lemma_filter_no_dup(m0.occ_at(inw), pred);
                    let base = m0.occ_at(inw).filter(pred);
                    if base.contains(e) {
                        let k0 = choose|k0: int| 0 <= k0 < base.len() && base[k0] == e;
                        m0.occ_at(inw).lemma_filter_pred(pred, k0);
                        assert(false);
                    }
                    lemma_push_no_dup(base, e);
                } else if i == io {
                    lemma_filter_no_dup(m0.occ_at(io), pred);
                }
            }
        }
    }
}

} // verus!
