use vstd::prelude::*;

use crate::components::{Entity, Position, WantsToMove};
use crate::map::GameMap;
use crate::world::{occupancy_ok, World};

verus! {

/// Destination check for a deferred move: in bounds, Floor, and not
/// occupied by a mob.
impl GameMap {
    pub open spec fn can_move_spec(self, w: World, p: Position) -> bool {
        &&& self.valid_pos(p)
        &&& self.is_floor(p)
        &&& forall|k: int|
            0 <= k < self.occ_at(self.idx_of(p)).len() ==> !w.is_mob(
                #[trigger] self.occ_at(self.idx_of(p))[k],
            )
    }

    pub fn can_move_mob(&self, world: &World, new_pos: &Position) -> (r: bool)
        requires
            self.wf(),
            world.wf(),
        ensures
            r == self.can_move_spec(*world, *new_pos),
    {
        if new_pos.x < 0 || new_pos.x >= self.width || new_pos.y < 0 || new_pos.y >= self.height {
            return false;
        }
        if !self.walkable(new_pos) {
            return false;
        }
        let idx = self.pos_to_idx(new_pos);
        let list = &self.occupancy[idx];
        let mut k: usize = 0;
        while k < list.len()
            invariant
                k <= list.len(),
                world.wf(),
                list@ == self.occ_at(self.idx_of(*new_pos)),
                forall|j: int| 0 <= j < k ==> !world.is_mob(#[trigger] list@[j]),
            decreases list.len() - k,
        {
            if world.entity_is_mob(list[k]) {
                return false;
            }
            k = k + 1;
        }
        true
    }
}

/// Whether intent `k` is accepted: its entity is live and placed, the
/// destination is open in the pre-pass state, and no earlier accepted
/// intent claimed the same destination — first claim wins.
#[verifier::opaque]
pub open spec fn move_accepted(
    w: World,
    m: GameMap,
    intents: Seq<(Entity, WantsToMove)>,
    k: int,
) -> bool
    decreases k,
{
    &&& w.is_live(intents[k].0)
    &&& w.positions@[intents[k].0.id as int] is Some
    &&& m.can_move_spec(w, intents[k].1.location)
    &&& forall|j: int|
        0 <= j < k ==> !(move_accepted(w, m, intents, j) && (#[trigger] intents[j]).1.location
            == intents[k].1.location)
}

/// First claim wins: of two intents on the same destination tile in
/// one resolution pass, the earlier-processed one is accepted and the
/// later one is rejected, regardless of entity identity.
pub proof fn lemma_first_claim_wins(
    w: World,
    m: GameMap,
    intents: Seq<(Entity, WantsToMove)>,
    i: int,
    j: int,
)
    requires
        0 <= i < j < intents.len(),
        intents[i].1.location == intents[j].1.location,
        move_accepted(w, m, intents, i),
    ensures
        !move_accepted(w, m, intents, j),
{
    reveal(move_accepted);
    if move_accepted(w, m, intents, j) {
        assert(!(move_accepted(w, m, intents, i) && intents[i].1.location
            == intents[j].1.location));
        assert(false);
    }
}

/// What acceptance of intent `k` says about the entity and its
/// destination.
pub proof fn lemma_move_accepted_fields(
    w: World,
    m: GameMap,
    intents: Seq<(Entity, WantsToMove)>,
    k: int,
)
    requires
        0 <= k < intents.len(),
        move_accepted(w, m, intents, k),
    ensures
        w.is_live(intents[k].0),
        w.positions@[intents[k].0.id as int] is Some,
        m.can_move_spec(w, intents[k].1.location),
{
    reveal(move_accepted);
}

/// Acceptance of intent `k`, phrased against the set of destinations
/// already claimed by earlier accepted intents.
proof fn lemma_move_accepted_iff(
    w: World,
    m: GameMap,
    intents: Seq<(Entity, WantsToMove)>,
    k: int,
    claimed: Seq<Position>,
)
    requires
        0 <= k < intents.len(),
        forall|p: Position|
            #[trigger] claimed.contains(p) <==> exists|j: int|
                0 <= j < k && #[trigger] move_accepted(w, m, intents, j) && intents[j].1.location
                    == p,
    ensures
        move_accepted(w, m, intents, k) <==> {
            &&& w.is_live(intents[k].0)
            &&& w.positions@[intents[k].0.id as int] is Some
            &&& m.can_move_spec(w, intents[k].1.location)
            &&& !claimed.contains(intents[k].1.location)
        },
{
    reveal(move_accepted);
    let dest = intents[k].1.location;
    if claimed.contains(dest) {
        let j = choose|j: int|
            0 <= j < k && #[trigger] move_accepted(w, m, intents, j) && intents[j].1.location
                == dest;
        if move_accepted(w, m, intents, k) {
            assert(!(move_accepted(w, m, intents, j) && intents[j].1.location == dest));
            assert(false);
        }
    } else {
        assert forall|j: int|
            0 <= j < k implies !(move_accepted(w, m, intents, j)
            && (#[trigger] intents[j]).1.location == dest) by {
            if move_accepted(w, m, intents, j) && intents[j].1.location == dest {
                assert(claimed.contains(dest));
            }
        }
    }
}

/// At most one intent per entity: each entity carries at most one
/// `WantsToMove` component per tick.
pub open spec fn distinct_entities(intents: Seq<(Entity, WantsToMove)>) -> bool {
    forall|i: int, j: int|
        0 <= i < j < intents.len() ==> (#[trigger] intents[i]).0 != (#[trigger] intents[j]).0
}

/// The positions column after applying the first `t` accepted moves.
pub open spec fn apply_moves(
    p: Seq<Option<Position>>,
    al: Seq<(Entity, Position)>,
    t: int,
) -> Seq<Option<Position>>
    decreases t,
{
    if t <= 0 {
        p
    } else {
        apply_moves(p, al, t - 1).update(al[t - 1].0.id as int, Some(al[t - 1].1))
    }
}

proof fn lemma_apply_moves_index(
    p: Seq<Option<Position>>,
    al: Seq<(Entity, Position)>,
    t: int,
    i: int,
)
    requires
        0 <= t <= al.len(),
        0 <= i < p.len(),
        forall|s: int| 0 <= s < al.len() ==> 0 <= (#[trigger] al[s]).0.id < p.len(),
    ensures
        (forall|s: int| 0 <= s < t ==> (#[trigger] al[s]).0.id != i) ==> apply_moves(p, al, t)[i]
            == p[i],
        forall|s: int|
            0 <= s < t && (#[trigger] al[s]).0.id == i && (forall|s2: int|
                s < s2 < t ==> (#[trigger] al[s2]).0.id != i) ==> apply_moves(p, al, t)[i] == Some(
                al[s].1,
            ),
        apply_moves(p, al, t).len() == p.len(),
    decreases t,
{
    if t > 0 {
        lemma_apply_moves_index(p, al, t - 1, i);
    }
}

/// First pass of the resolver: walk the intents in order and collect
/// the accepted ones as `(entity, destination)` pairs, judging each
/// against the unchanged pre-pass state.
fn select_moves(world: &World, map: &GameMap, intents: &Vec<(Entity, WantsToMove)>) -> (r: (
    Vec<(Entity, Position)>,
    Ghost<Seq<int>>,
))
    requires
        world.wf(),
        map.wf(),
    ensures
        r.0@.len() == r.1@.len(),
        forall|s: int| 0 <= s < r.1@.len() ==> 0 <= #[trigger] r.1@[s] < intents@.len(),
        forall|s: int, s2: int| 0 <= s < s2 < r.1@.len() ==> r.1@[s] < r.1@[s2],
        forall|s: int|
            #![trigger r.1@[s]]
            0 <= s < r.1@.len() ==> {
                &&& move_accepted(*world, *map, intents@, r.1@[s])
                &&& r.0@[s] == (intents@[r.1@[s]].0, intents@[r.1@[s]].1.location)
            },
        forall|j: int|
            0 <= j < intents@.len() && #[trigger] move_accepted(*world, *map, intents@, j)
                ==> r.1@.contains(j),
{
    let mut accepted: Vec<(Entity, Position)> = Vec::new();
    let mut claimed: Vec<Position> = Vec::new();
    let ghost mut idxs: Seq<int> = Seq::empty();
    let mut k: usize = 0;
    while k < intents.len()
        invariant
            k <= intents@.len(),
            world.wf(),
            map.wf(),
            accepted@.len() == idxs.len(),
            claimed@.len() == idxs.len(),
            forall|s: int| 0 <= s < idxs.len() ==> 0 <= #[trigger] idxs[s] < k,
            forall|s: int, s2: int| 0 <= s < s2 < idxs.len() ==> idxs[s] < idxs[s2],
            forall|s: int|
                #![trigger idxs[s]]
                0 <= s < idxs.len() ==> {
                    &&& move_accepted(*world, *map, intents@, idxs[s])
                    &&& accepted@[s] == (intents@[idxs[s]].0, intents@[idxs[s]].1.location)
                    &&& claimed@[s] == intents@[idxs[s]].1.location
                },
            forall|j: int|
                0 <= j < k && #[trigger] move_accepted(*world, *map, intents@, j) ==> idxs.contains(j),
        decreases intents@.len() - k,
    {
        let (e, intent) = intents[k];
        let dest = intent.location;
        let ok = world.entity_is_live(e) && world.get_position(e).is_some() && map.can_move_mob(
            world,
            &dest,
        ) && !contains_pos(&claimed, &dest);
        proof {
            lemma_select_step(*world, *map, intents@, k as int, claimed@, idxs);
            assert(ok == move_accepted(*world, *map, intents@, k as int));
        }
        let ghost idxs0 = idxs;
        if ok {
            accepted.push((e, dest));
            claimed.push(dest);
            proof {
                idxs = idxs0.push(k as int);
                assert forall|j: int|
                    0 <= j < k + 1 && #[trigger] move_accepted(*world, *map, intents@, j) implies
                    idxs.contains(j) by {
                    if j < k {
                        let s = choose|s: int| 0 <= s < idxs0.len() && idxs0[s] == j;
                        assert(idxs[s] == j);
                    } else {
                        assert(idxs[idxs0.len() as int] == j);
                    }
                }
            }
        } else {
            proof {
                assert forall|j: int|
                    0 <= j < k + 1 && #[trigger] move_accepted(*world, *map, intents@, j) implies
                    idxs.contains(j) by {
                    assert(j != k);
                }
            }
        }
        k = k + 1;
    }
    (accepted, Ghost(idxs))
}

/// In the select pass, intent `k` is accepted exactly when it is
/// valid, its destination is open, and no destination in `claimed`
/// matches it.
proof fn lemma_select_step(
    w: World,
    m: GameMap,
    intents: Seq<(Entity, WantsToMove)>,
    k: int,
    claimed: Seq<Position>,
    idxs: Seq<int>,
)
    requires
        0 <= k < intents.len(),
        claimed.len() == idxs.len(),
        forall|s: int| 0 <= s < idxs.len() ==> 0 <= #[trigger] idxs[s] < k,
        forall|s: int|
            #![trigger idxs[s]]
            0 <= s < idxs.len() ==> move_accepted(w, m, intents, idxs[s]) && claimed[s]
                == intents[idxs[s]].1.location,
        forall|j: int|
            0 <= j < k && #[trigger] move_accepted(w, m, intents, j) ==> idxs.contains(j),
    ensures
        move_accepted(w, m, intents, k) <==> {
            &&& w.is_live(intents[k].0)
            &&& w.positions@[intents[k].0.id as int] is Some
            &&& m.can_move_spec(w, intents[k].1.location)
            &&& !claimed.contains(intents[k].1.location)
        },
{
    reveal(move_accepted);
    let dest = intents[k].1.location;
    if claimed.contains(dest) {
        let s = choose|s: int| 0 <= s < claimed.len() && claimed[s] == dest;
        let j = idxs[s];
        assert(move_accepted(w, m, intents, j) && intents[j].1.location == dest);
        if move_accepted(w, m, intents, k) {
            assert(!(move_accepted(w, m, intents, j) && intents[j].1.location == dest));
            assert(false);
        }
    } else {
        assert forall|j: int|
            0 <= j < k implies !(move_accepted(w, m, intents, j) && (#[trigger] intents[j]).1.location
            == dest) by {
            if move_accepted(w, m, intents, j) && intents[j].1.location == dest {
                let s = choose|s: int| 0 <= s < idxs.len() && idxs[s] == j;
                assert(claimed[s] == dest);
            }
        }
    }
}

/// Second pass of the resolver: commit a list of distinct-entity
/// moves, updating each position and its occupancy entry in step.
fn commit_moves(world: &mut World, map: &mut GameMap, moves: &Vec<(Entity, Position)>)
    requires
        old(world).wf(),
        old(map).wf(),
        occupancy_ok(*old(map), *old(world)),
        forall|s: int|
            0 <= s < moves@.len() ==> old(world).is_live((#[trigger] moves@[s]).0) && old(
                world,
            ).positions@[moves@[s].0.id as int] is Some && old(map).valid_pos(moves@[s].1),
        forall|s: int, s2: int|
            0 <= s < s2 < moves@.len() ==> (#[trigger] moves@[s]).0 != (#[trigger] moves@[s2]).0,
    ensures
        final(world).wf(),
        final(map).wf(),
        occupancy_ok(*final(map), *final(world)),
        final(world).positions@ == apply_moves(old(world).positions@, moves@, moves@.len() as int),
        final(world).live == old(world).live,
        final(world).stats == old(world).stats,
        final(world).names == old(world).names,
        final(world).mobs == old(world).mobs,
        final(world).viewsheds == old(world).viewsheds,
        final(world).player == old(world).player,
        final(map).tiles == old(map).tiles,
        final(map).memory == old(map).memory,
        final(map).width == old(map).width,
        final(map).height == old(map).height,
        final(map).spec_start() == old(map).spec_start(),
        final(map).occupancy@.len() == old(map).occupancy@.len(),
{
    let ghost w0 = *old(world);
    let ghost m0 = *old(map);
    let ghost al = moves@;
    let mut t: usize = 0;
    while t < moves.len()
        invariant
            t <= al.len(),
            moves@ == al,
            w0.wf(),
            m0.wf(),
            world.wf(),
            map.wf(),
            occupancy_ok(*map, *world),
            world.positions@ == apply_moves(w0.positions@, al, t as int),
            world.positions@.len() == w0.positions@.len(),
            world.live == w0.live,
            world.stats == w0.stats,
            world.names == w0.names,
            world.mobs == w0.mobs,
            world.viewsheds == w0.viewsheds,
            world.player == w0.player,
            map.tiles == m0.tiles,
            map.memory == m0.memory,
            map.width == m0.width,
            map.height == m0.height,
            map.spec_start() == m0.spec_start(),
            map.occupancy@.len() == m0.occupancy@.len(),
            forall|s: int|
                0 <= s < al.len() ==> w0.is_live((#[trigger] al[s]).0) && w0.positions@[al[s].0.id
                    as int] is Some && m0.valid_pos(al[s].1),
            forall|s: int, s2: int| 0 <= s < s2 < al.len() ==> (#[trigger] al[s]).0 != (
            #[trigger] al[s2]).0,
            forall|s: int|
                (t as int) <= s < al.len() ==> world.positions@[(#[trigger] al[s]).0.id as int]
                    == w0.positions@[al[s].0.id as int],
        decreases al.len() - t,
    {
        let (e, dest) = moves[t];
        world.move_to(map, e, dest);
        proof {
            assert forall|s: int|
                (t + 1) <= s < al.len() implies world.positions@[(#[trigger] al[s]).0.id as int]
                == w0.positions@[al[s].0.id as int] by {
                assert(al[s].0 != al[t as int].0);
            }
        }
        t = t + 1;
    }
}

/// Reconcile all pending movement intents against the map in one
/// atomic pass. An intent is committed exactly when `move_accepted`
/// holds of the pre-pass state: the destination must be open and not
/// claimed by an earlier accepted intent (first claim wins). Rejected
/// intents leave their entity untouched, and the occupancy invariant
/// holds again when the pass is done — not just eventually.
#[verifier::rlimit(60)]
pub fn resolve_movement(world: &mut World, map: &mut GameMap, intents: &Vec<(Entity, WantsToMove)>)
    requires
        old(world).wf(),
        old(map).wf(),
        occupancy_ok(*old(map), *old(world)),
        distinct_entities(intents@),
    ensures
        final(world).wf(),
        final(map).wf(),
        occupancy_ok(*final(map), *final(world)),
        forall|k: int|
            0 <= k < intents@.len() && #[trigger] move_accepted(
                *old(world),
                *old(map),
                intents@,
                k,
            ) ==> final(world).positions@[intents@[k].0.id as int] == Some(intents@[k].1.location),
        forall|k: int|
            0 <= k < intents@.len() && intents@[k].0.id < old(world).n() && !move_accepted(
                *old(world),
                *old(map),
                intents@,
                k,
            ) ==> final(world).positions@[(#[trigger] intents@[k]).0.id as int]
                == old(world).positions@[intents@[k].0.id as int],
        forall|i: int|
            0 <= i < old(world).n() && (forall|k: int|
                0 <= k < intents@.len() ==> (#[trigger] intents@[k]).0.id != i)
                ==> final(world).positions@[i] == old(world).positions@[i],
        final(world).n() == old(world).n(),
        final(world).live == old(world).live,
        final(world).stats == old(world).stats,
        final(world).names == old(world).names,
        final(world).mobs == old(world).mobs,
        final(world).viewsheds == old(world).viewsheds,
        final(world).player == old(world).player,
        final(map).tiles == old(map).tiles,
        final(map).memory == old(map).memory,
        final(map).width == old(map).width,
        final(map).height == old(map).height,
        final(map).spec_start() == old(map).spec_start(),
        final(map).occupancy@.len() == old(map).occupancy@.len(),
{
    let ghost w0 = *old(world);
    let ghost m0 = *old(map);
    let (moves, idxs_g) = select_moves(world, map, intents);
    let ghost idxs = idxs_g@;
    let ghost al = moves@;
    proof {
        assert forall|s: int| 0 <= s < al.len() implies w0.is_live((#[trigger] al[s]).0)
            && w0.positions@[al[s].0.id as int] is Some && m0.valid_pos(al[s].1) by {
            let j = idxs[s];
            lemma_move_accepted_fields(w0, m0, intents@, j);
        }
        assert forall|s: int, s2: int| 0 <= s < s2 < al.len() implies (#[trigger] al[s]).0 != (
            #[trigger] al[s2]).0 by {
            assert(idxs[s] < idxs[s2]);
            assert(intents@[idxs[s]].0 != intents@[idxs[s2]].0);
        }
    }
    commit_moves(world, map, &moves);
    proof {
        assert forall|s: int| 0 <= s < al.len() implies 0 <= (#[trigger] al[s]).0.id
            < w0.positions@.len() by {
            let j = idxs[s];
            lemma_move_accepted_fields(w0, m0, intents@, j);
        }
        assert forall|k2: int|
            0 <= k2 < intents@.len() && #[trigger] move_accepted(w0, m0, intents@, k2) implies
            world.positions@[intents@[k2].0.id as int] == Some(intents@[k2].1.location) by {
            let s = choose|s: int| 0 <= s < idxs.len() && idxs[s] == k2;
            assert(al[s] == (intents@[k2].0, intents@[k2].1.location));
            assert forall|s2: int| s < s2 < al.len() implies (#[trigger] al[s2]).0.id
                != al[s].0.id by {
                assert(idxs[s] < idxs[s2]);
                assert(intents@[idxs[s2]].0 != intents@[idxs[s]].0);
            }
            lemma_apply_moves_index(w0.positions@, al, al.len() as int, al[s].0.id as int);
        }
        assert forall|k2: int|
            0 <= k2 < intents@.len() && intents@[k2].0.id < w0.n() && !move_accepted(
                w0,
                m0,
                intents@,
                k2,
            ) implies world.positions@[(#[trigger] intents@[k2]).0.id as int]
            == w0.positions@[intents@[k2].0.id as int] by {
            let e = intents@[k2].0;
            assert forall|s: int| 0 <= s < al.len() implies (#[trigger] al[s]).0.id != e.id by {
                if al[s].0.id == e.id {
                    let j = idxs[s];
                    assert(al[s] == (intents@[j].0, intents@[j].1.location));
                    if j != k2 {
                        assert(intents@[j].0 != intents@[k2].0);
                        assert(false);
                    } else {
                        assert(move_accepted(w0, m0, intents@, k2));
                        assert(false);
                    }
                }
            }
            lemma_apply_moves_index(w0.positions@, al, al.len() as int, e.id as int);
        }
        assert forall|i: int|
            0 <= i < w0.n() && (forall|k2: int|
                0 <= k2 < intents@.len() ==> (#[trigger] intents@[k2]).0.id != i) implies
            world.positions@[i] == w0.positions@[i] by {
            assert forall|s: int| 0 <= s < al.len() implies (#[trigger] al[s]).0.id != i by {
                let j = idxs[s];
                assert(al[s] == (intents@[j].0, intents@[j].1.location));
                assert(intents@[j].0.id != i);
            }
            lemma_apply_moves_index(w0.positions@, al, al.len() as int, i);
        }
    }
}

fn contains_pos(v: &Vec<Position>, p: &Position) -> (r: bool)
    ensures
        r == v@.contains(*p),
{
    let mut i: usize = 0;
    while i < v.len()
        invariant
            i <= v@.len(),
            forall|j: int| 0 <= j < i ==> v@[j] != *p,
        decreases v@.len() - i,
    {
        if v[i] == *p {
            return true;
        }
        i = i + 1;
    }
    false
}

} // verus!
