use vstd::prelude::*;
use vstd::string::StringExecFns;

use crate::components::{Entity, Position, WantsToMove};
use crate::keyboard::MeleeEvent;
use crate::map::GameMap;
use crate::messages::Messages;
use crate::movement::distinct_entities;
use crate::rng::rng_range;
use crate::world::World;
use bracket_random::prelude::RandomNumberGenerator;

verus! {

/// Where a mob wants to step for one random roll: one tile along a
/// cardinal direction, or nowhere when that would leave the grid.
/// Mobs wander blindly; walls stop them later, in the resolver.
pub open spec fn spec_mob_step(m: GameMap, pos: Position, roll: int) -> Option<Position> {
    if roll == 0 {
        if pos.x > 0 {
            Some(Position { x: (pos.x - 1) as i32, y: pos.y })
        } else {
            None
        }
    } else if roll == 1 {
        if pos.x < m.width - 1 {
            Some(Position { x: (pos.x + 1) as i32, y: pos.y })
        } else {
            None
        }
    } else if roll == 2 {
        if pos.y > 0 {
            Some(Position { x: pos.x, y: (pos.y - 1) as i32 })
        } else {
            None
        }
    } else {
        if pos.y < m.height - 1 {
            Some(Position { x: pos.x, y: (pos.y + 1) as i32 })
        } else {
            None
        }
    }
}

/// The candidate step for one roll of the AI die.
pub fn mob_step(map: &GameMap, pos: Position, roll: i32) -> (r: Option<Position>)
    requires
        map.wf(),
        map.valid_pos(pos),
        0 <= roll < 4,
    ensures
        r == spec_mob_step(*map, pos, roll as int),
        r is Some ==> map.valid_pos(r->0),
{
    if roll == 0 {
        if pos.x > 0 {
            Some(Position { x: pos.x - 1, y: pos.y })
        } else {
            None
        }
    } else if roll == 1 {
        if pos.x < map.width - 1 {
            Some(Position { x: pos.x + 1, y: pos.y })
        } else {
            None
        }
    } else if roll == 2 {
        if pos.y > 0 {
            Some(Position { x: pos.x, y: pos.y - 1 })
        } else {
            None
        }
    } else {
        if pos.y < map.height - 1 {
            Some(Position { x: pos.x, y: pos.y + 1 })
        } else {
            None
        }
    }
}

/// A mob ready to act this tick: live, Mob-tagged, named, and
/// standing on the map.
pub open spec fn mob_eligible(w: World, m: GameMap, j: int) -> bool {
    &&& 0 <= j < w.n()
    &&& w.live@[j]
    &&& w.mobs@[j] is Some
    &&& w.names@[j] is Some
    &&& w.positions@[j] is Some
    &&& m.valid_pos(w.positions@[j]->0)
}

/// Slot `j` produced no action at all: no melee event past
/// `melee_lo` and no movement intent carries its id.
pub open spec fn mob_idle(
    j: int,
    melee: Seq<MeleeEvent>,
    melee_lo: int,
    intents: Seq<(Entity, WantsToMove)>,
) -> bool {
    &&& forall|t: int| melee_lo <= t < melee.len() ==> (#[trigger] melee[t]).source.id != j
    &&& forall|t: int| 0 <= t < intents.len() ==> (#[trigger] intents[t]).0.id != j
}

/// What slot `j` does for one drawn roll: nothing when the step
/// would leave the grid, one melee event against the player and no
/// intent when the step is the player's tile, and one movement
/// intent and no melee otherwise — never both.
pub open spec fn mob_outcome(
    w: World,
    m: GameMap,
    player_pos: Position,
    j: int,
    roll: int,
    melee: Seq<MeleeEvent>,
    melee_lo: int,
    intents: Seq<(Entity, WantsToMove)>,
) -> bool {
    match spec_mob_step(m, w.positions@[j]->0, roll) {
        Option::None => mob_idle(j, melee, melee_lo, intents),
        Option::Some(dest) => if dest == player_pos {
            &&& exists|t: int|
                melee_lo <= t < melee.len() && #[trigger] melee[t] == (MeleeEvent {
                    source: Entity { id: j as usize },
                    target: w.player,
                })
            &&& forall|t: int| 0 <= t < intents.len() ==> (#[trigger] intents[t]).0.id != j
        } else {
            &&& exists|t: int|
                0 <= t < intents.len() && #[trigger] intents[t] == (
                    Entity { id: j as usize },
                    WantsToMove { location: dest },
                )
            &&& forall|t: int| melee_lo <= t < melee.len() ==> (#[trigger] melee[t]).source.id != j
        },
    }
}

/// A step onto the player's tile yields an attack, never a move:
/// whatever roll an eligible mob draws, if its step lands on the
/// player then the pass records one melee event against the player
/// and no movement intent for that mob, so the resolver never sees a
/// move for it and its position stays put.
pub proof fn lemma_attack_instead_of_move(
    w: World,
    m: GameMap,
    player_pos: Position,
    j: int,
    roll: int,
    melee: Seq<MeleeEvent>,
    melee_lo: int,
    intents: Seq<(Entity, WantsToMove)>,
)
    requires
        mob_outcome(w, m, player_pos, j, roll, melee, melee_lo, intents),
        spec_mob_step(m, w.positions@[j]->0, roll) == Some(player_pos),
    ensures
        exists|t: int|
            melee_lo <= t < melee.len() && #[trigger] melee[t] == (MeleeEvent {
                source: Entity { id: j as usize },
                target: w.player,
            }),
        forall|t: int| 0 <= t < intents.len() ==> (#[trigger] intents[t]).0.id != j,
{
}

/// A recorded outcome survives later appends, as long as everything
/// appended belongs to other mobs.
proof fn lemma_outcome_grows(
    w: World,
    m: GameMap,
    player_pos: Position,
    j: int,
    roll: int,
    melee0: Seq<MeleeEvent>,
    melee1: Seq<MeleeEvent>,
    melee_lo: int,
    intents0: Seq<(Entity, WantsToMove)>,
    intents1: Seq<(Entity, WantsToMove)>,
)
    requires
        mob_outcome(w, m, player_pos, j, roll, melee0, melee_lo, intents0),
        0 <= melee_lo,
        melee0.len() <= melee1.len(),
        forall|t: int| 0 <= t < melee0.len() ==> #[trigger] melee1[t] == melee0[t],
        forall|t: int| melee0.len() <= t < melee1.len() ==> (#[trigger] melee1[t]).source.id != j,
        intents0.len() <= intents1.len(),
        forall|t: int| 0 <= t < intents0.len() ==> #[trigger] intents1[t] == intents0[t],
        forall|t: int| intents0.len() <= t < intents1.len() ==> (#[trigger] intents1[t]).0.id != j,
    ensures
        mob_outcome(w, m, player_pos, j, roll, melee1, melee_lo, intents1),
{
    match spec_mob_step(m, w.positions@[j]->0, roll) {
        Option::None => {
            assert forall|t: int| melee_lo <= t < melee1.len() implies (#[trigger] melee1[t]).source.id
                != j by {
                if t < melee0.len() {
                    assert(melee1[t] == melee0[t]);
                }
            }
            assert forall|t: int| 0 <= t < intents1.len() implies (#[trigger] intents1[t]).0.id
                != j by {
                if t < intents0.len() {
                    assert(intents1[t] == intents0[t]);
                }
            }
        },
        Option::Some(dest) => {
            if dest == player_pos {
                let t0 = choose|t: int|
                    melee_lo <= t < melee0.len() && #[trigger] melee0[t] == (MeleeEvent {
                        source: Entity { id: j as usize },
                        target: w.player,
                    });
                assert(melee1[t0] == melee0[t0]);
                assert forall|t: int| 0 <= t < intents1.len() implies (#[trigger] intents1[t]).0.id
                    != j by {
                    if t < intents0.len() {
                        assert(intents1[t] == intents0[t]);
                    }
                }
            } else {
                let t0 = choose|t: int|
                    0 <= t < intents0.len() && #[trigger] intents0[t] == (
                        Entity { id: j as usize },
                        WantsToMove { location: dest },
                    );
                assert(intents1[t0] == intents0[t0]);
                assert forall|t: int| melee_lo <= t < melee1.len() implies (
                #[trigger] melee1[t]).source.id != j by {
                    if t < melee0.len() {
                        assert(melee1[t] == melee0[t]);
                    }
                }
            }
        },
    }
}

/// Let every mob pick a random step. A step onto the player's tile
/// becomes a melee event — never a movement intent — so a mob can
/// only attack, not displace the player; any other step becomes a
/// deferred movement intent for the resolver.
pub fn move_mobs(
    world: &World,
    map: &GameMap,
    rng: &mut RandomNumberGenerator,
    melee: &mut Vec<MeleeEvent>,
    messages: &mut Messages,
    intents: &mut Vec<(Entity, WantsToMove)>,
)
    requires
        world.wf(),
        map.wf(),
        world.is_live(world.player),
        world.positions@[world.player.id as int] is Some,
        old(intents)@.len() == 0,
    ensures
        distinct_entities(final(intents)@),
        forall|t: int|
            #![trigger final(intents)@[t]]
            0 <= t < final(intents)@.len() ==> {
                let e = final(intents)@[t].0;
                let dest = final(intents)@[t].1.location;
                &&& world.is_live(e)
                &&& world.is_mob(e)
                &&& world.positions@[e.id as int] is Some
                &&& map.valid_pos(dest)
                &&& dest != world.positions@[world.player.id as int]->0
                &&& exists|roll: int|
                    0 <= roll < 4 && spec_mob_step(*map, world.positions@[e.id as int]->0, roll)
                        == Some(dest)
            },
        forall|t: int|
            old(melee)@.len() <= t < final(melee)@.len() ==> {
                &&& (#[trigger] final(melee)@[t]).target == world.player
                &&& world.is_mob(final(melee)@[t].source)
                &&& world.is_live(final(melee)@[t].source)
                &&& world.names@[final(melee)@[t].source.id as int] is Some
            },
        forall|t: int|
            0 <= t < old(melee)@.len() ==> #[trigger] final(melee)@[t] == old(melee)@[t],
        final(melee)@.len() >= old(melee)@.len(),
        forall|t: int|
            0 <= t < old(messages)@.len() ==> #[trigger] final(messages)@[t] == old(messages)@[t],
        // one log line per attack, naming the attacker
        final(messages)@.len() == old(messages)@.len() + final(melee)@.len() - old(melee)@.len(),
        forall|t: int|
            old(melee)@.len() <= t < final(melee)@.len()
                ==> #[trigger] final(messages)@[old(messages)@.len() + t - old(melee)@.len()] == (
                world.names@[final(melee)@[t].source.id as int]->0.name@ + " attacks!"@,
                false,
            ),
        // every eligible mob acts on exactly its one drawn step
        forall|j: int|
            #[trigger] mob_eligible(*world, *map, j) ==> exists|roll: int|
                0 <= roll < 4 && mob_outcome(
                    *world,
                    *map,
                    world.positions@[world.player.id as int]->0,
                    j,
                    roll,
                    final(melee)@,
                    old(melee)@.len() as int,
                    final(intents)@,
                ),
        // a slot that is no ready mob contributes nothing
        forall|j: int|
            0 <= j < world.n() && !(#[trigger] mob_eligible(*world, *map, j)) ==> mob_idle(
                j,
                final(melee)@,
                old(melee)@.len() as int,
                final(intents)@,
            ),
        // at most one melee event per attacker
        forall|t: int, t2: int|
            old(melee)@.len() <= t < t2 < final(melee)@.len() ==> (#[trigger] final(melee)@[t]).source != (#[trigger] final(melee)@[t2]).source,
{
    let player_pos = match world.get_position(world.player) {
        Some(p) => p,
        None => {
            return ;
        },
    };
    let n = world.live.len();
    let mut i: usize = 0;
    while i < n
        invariant
            i <= n,
            n == world.n(),
            world.wf(),
            map.wf(),
            world.is_live(world.player),
            world.positions@[world.player.id as int] is Some,
            player_pos == world.positions@[world.player.id as int]->0,
            forall|t: int|
                #![trigger intents@[t]]
                0 <= t < intents@.len() ==> {
                    let e = intents@[t].0;
                    let dest = intents@[t].1.location;
                    &&& world.is_live(e)
                    &&& world.is_mob(e)
                    &&& world.positions@[e.id as int] is Some
                    &&& map.valid_pos(dest)
                    &&& dest != player_pos
                    &&& e.id < i
                    &&& exists|roll: int|
                        0 <= roll < 4 && spec_mob_step(*map, world.positions@[e.id as int]->0, roll)
                            == Some(dest)
                },
            forall|t: int, t2: int|
                0 <= t < t2 < intents@.len() ==> (#[trigger] intents@[t]).0.id < (
                #[trigger] intents@[t2]).0.id,
            forall|t: int|
                old(melee)@.len() <= t < melee@.len() ==> {
                    &&& (#[trigger] melee@[t]).target == world.player
                    &&& world.is_mob(melee@[t].source)
                    &&& world.is_live(melee@[t].source)
                    &&& world.names@[melee@[t].source.id as int] is Some
                    &&& melee@[t].source.id < i
                },
            forall|t: int, t2: int|
                old(melee)@.len() <= t < t2 < melee@.len() ==> (#[trigger] melee@[t]).source.id < (
                #[trigger] melee@[t2]).source.id,
            forall|j: int|
                #[trigger] mob_eligible(*world, *map, j) && j < i ==> exists|roll: int|
                    0 <= roll < 4 && mob_outcome(
                        *world,
                        *map,
                        player_pos,
                        j,
                        roll,
                        melee@,
                        old(melee)@.len() as int,
                        intents@,
                    ),
            forall|j: int|
                0 <= j < i && !(#[trigger] mob_eligible(*world, *map, j)) ==> mob_idle(
                    j,
                    melee@,
                    old(melee)@.len() as int,
                    intents@,
                ),
            forall|t: int| 0 <= t < old(melee)@.len() ==> #[trigger] melee@[t] == old(melee)@[t],
            melee@.len() >= old(melee)@.len(),
            forall|t: int|
                0 <= t < old(messages)@.len() ==> #[trigger] messages@[t] == old(messages)@[t],
            messages@.len() == old(messages)@.len() + melee@.len() - old(melee)@.len(),
            forall|t: int|
                old(melee)@.len() <= t < melee@.len()
                    ==> #[trigger] messages@[old(messages)@.len() + t - old(melee)@.len()] == (
                    world.names@[melee@[t].source.id as int]->0.name@ + " attacks!"@,
                    false,
                ),
        decreases n - i,
    {
        let e = Entity { id: i };
        let ghost melee0 = melee@;
        let ghost intents0 = intents@;
        let ghost mut roll_g: int = 0;
        let ghost mut pushed_melee = false;
        let ghost mut pushed_intent = false;
        let is_mob_here = world.entity_is_live(e) && world.entity_is_mob(e) && world.get_name(
            e,
        ).is_some();
        let pos_opt = if is_mob_here {
            world.get_position(e)
        } else {
            None
        };
        match pos_opt {
            Some(pos) => {
                if pos.x >= 0 && pos.x < map.width && pos.y >= 0 && pos.y < map.height {
                    let roll = rng_range(rng, 0, 4);
                    proof {
                        roll_g = roll as int;
                    }
                    match mob_step(map, pos, roll) {
                        Some(new_pos) => {
                            if new_pos == player_pos {
                                melee.push(MeleeEvent { source: e, target: world.player });
                                proof {
                                    pushed_melee = true;
                                }
                                let mut line = match world.get_name(e) {
                                    Some(nm) => nm,
                                    None => String::new(),
                                };
                                line.append(" attacks!");
                                let ghost mpre = messages@;
                                let ghost lview = line@;
                                messages.add(line);
                                proof {
                                    assert(messages@ == mpre.push((lview, false)));
                                    assert forall|t: int|
                                        0 <= t < old(messages)@.len() implies #[trigger] messages@[t]
                                        == old(messages)@[t] by {
                                        assert(messages@[t] == mpre[t]);
                                    }
                                    assert forall|t: int|
                                        old(melee)@.len() <= t < melee@.len() implies
                                        #[trigger] messages@[old(messages)@.len() + t - old(
                                            melee,
                                        )@.len()] == (
                                        world.names@[melee@[t].source.id as int]->0.name@
                                            + " attacks!"@,
                                        false,
                                    ) by {
                                        if t < melee@.len() - 1 {
                                            assert(melee@[t] == melee@.drop_last()[t]);
                                            assert(messages@[old(messages)@.len() + t - old(
                                                melee,
                                            )@.len()] == mpre[old(messages)@.len() + t - old(
                                                melee,
                                            )@.len()]);
                                        } else {
                                            assert(melee@[t] == (MeleeEvent {
                                                source: e,
                                                target: world.player,
                                            }));
                                            assert(lview == world.names@[e.id as int]->0.name@
                                                + " attacks!"@);
                                        }
                                    }
                                }
                            } else {
                                intents.push((e, WantsToMove { location: new_pos }));
                                proof {
                                    pushed_intent = true;
                                }
                            }
                        },
                        None => {},
                    }
                }
            },
            None => {},
        }
        proof {
            assert(world.live.len() == world.live@.len());
            if pushed_melee {
                assert(melee@ == melee0.push(MeleeEvent { source: e, target: world.player }));
            } else {
                assert(melee@ == melee0);
            }
            if pushed_intent {
                assert(intents@.len() == intents0.len() + 1);
                assert(forall|t: int| 0 <= t < intents0.len() ==> #[trigger] intents@[t] == intents0[t]);
                assert(intents@.last().0 == e);
            } else {
                assert(intents@ == intents0);
            }
            let lo = old(melee)@.len() as int;
            assert forall|j: int|
                #[trigger] mob_eligible(*world, *map, j) && j < i + 1 implies exists|roll2: int|
                0 <= roll2 < 4 && mob_outcome(
                    *world,
                    *map,
                    player_pos,
                    j,
                    roll2,
                    melee@,
                    lo,
                    intents@,
                ) by {
                if j < i {
                    let r0 = choose|r0: int|
                        0 <= r0 < 4 && mob_outcome(*world, *map, player_pos, j, r0, melee0, lo, intents0);
                    lemma_outcome_grows(
                        *world,
                        *map,
                        player_pos,
                        j,
                        r0,
                        melee0,
                        melee@,
                        lo,
                        intents0,
                        intents@,
                    );
                } else {
                    assert(j == i);
                    assert(0 <= roll_g < 4);
                    match spec_mob_step(*map, world.positions@[j]->0, roll_g) {
                        Option::None => {
                            assert forall|t: int| lo <= t < melee@.len() implies (
                            #[trigger] melee@[t]).source.id != j by {
                                assert(melee@[t] == melee0[t]);
                            }
                            assert forall|t: int| 0 <= t < intents@.len() implies (
                            #[trigger] intents@[t]).0.id != j by {
                                assert(intents@[t] == intents0[t]);
                            }
                        },
                        Option::Some(dest) => {
                            if dest == player_pos {
                                assert(melee@.last() == (MeleeEvent {
                                    source: Entity { id: j as usize },
                                    target: world.player,
                                }));
                                assert forall|t: int| 0 <= t < intents@.len() implies (
                                #[trigger] intents@[t]).0.id != j by {
                                    assert(intents@[t] == intents0[t]);
                                }
                            } else {
                                assert(intents@.last() == (
                                    Entity { id: j as usize },
                                    WantsToMove { location: dest },
                                ));
                                assert forall|t: int| lo <= t < melee@.len() implies (
                                #[trigger] melee@[t]).source.id != j by {
                                    assert(melee@[t] == melee0[t]);
                                }
                            }
                        },
                    }
                    assert(mob_outcome(*world, *map, player_pos, j, roll_g, melee@, lo, intents@));
                }
            }
            assert forall|j: int|
                0 <= j < i + 1 && !(#[trigger] mob_eligible(*world, *map, j)) implies mob_idle(
                j,
                melee@,
                lo,
                intents@,
            ) by {
                if j < i {
                    assert forall|t: int| lo <= t < melee@.len() implies (
                    #[trigger] melee@[t]).source.id != j by {
                        if t < melee0.len() {
                            assert(melee@[t] == melee0[t]);
                        }
                    }
                    assert forall|t: int| 0 <= t < intents@.len() implies (
                    #[trigger] intents@[t]).0.id != j by {
                        if t < intents0.len() {
                            assert(intents@[t] == intents0[t]);
                        }
                    }
                } else {
                    assert(j == i);
                    assert(!pushed_melee && !pushed_intent);
                    assert forall|t: int| lo <= t < melee@.len() implies (
                    #[trigger] melee@[t]).source.id != j by {
                        assert(melee@[t] == melee0[t]);
                    }
                    assert forall|t: int| 0 <= t < intents@.len() implies (
                    #[trigger] intents@[t]).0.id != j by {
                        assert(intents@[t] == intents0[t]);
                    }
                }
            }
        }
        i = i + 1;
    }
    proof {
        assert forall|t: int, t2: int|
            0 <= t < t2 < intents@.len() implies (#[trigger] intents@[t]).0 != (
        #[trigger] intents@[t2]).0 by {
            assert(intents@[t].0.id < intents@[t2].0.id);
        }
    }
}

} // verus!
