use vstd::prelude::*;
use vstd::string::StringExecFns;

use crate::components::{Entity, Stat, Stats};
use crate::keyboard::MeleeEvent;
use crate::map::GameMap;
use crate::messages::Messages;
use crate::text::{dec_digits, decimal_string};
use crate::world::{lemma_occupancy_same, occupancy_ok, World};

verus! {

/// A damage order derived from one melee event: who hits whom, the
/// attacker's display name for the log line, and the amount.
pub struct DealDamage {
    pub source: Entity,
    pub target: Entity,
    pub name: String,
    pub amount: i32,
}

/// Flat damage per hit: the policy chosen for melee.
pub const HIT_DAMAGE: i32 = 1;

/// A melee event turns into damage only when both parties still exist
/// as combatants; a stale reference is silently absorbed.
pub open spec fn melee_eligible(w: World, ev: MeleeEvent) -> bool {
    &&& w.is_live(ev.source)
    &&& w.is_live(ev.target)
    &&& w.stats@[ev.source.id as int] is Some
    &&& w.stats@[ev.target.id as int] is Some
    &&& w.names@[ev.source.id as int] is Some
    &&& w.names@[ev.target.id as int] is Some
}

/// The damage orders that the first `k` melee events produce, as
/// `(source, target, attacker name, amount)` views.
pub open spec fn expected_damage(w: World, evs: Seq<MeleeEvent>, k: int) -> Seq<
    (Entity, Entity, Seq<char>, int),
>
    decreases k,
{
    if k <= 0 {
        Seq::empty()
    } else {
        let rest = expected_damage(w, evs, k - 1);
        if melee_eligible(w, evs[k - 1]) {
            rest.push(
                (
                    evs[k - 1].source,
                    evs[k - 1].target,
                    w.names@[evs[k - 1].source.id as int]->0.name@,
                    HIT_DAMAGE as int,
                ),
            )
        } else {
            rest
        }
    }
}

pub open spec fn damage_view(d: DealDamage) -> (Entity, Entity, Seq<char>, int) {
    (d.source, d.target, d.name@, d.amount as int)
}

/// Phase one of combat: drain the melee events and emit one damage
/// order per eligible event, carrying the attacker's name and the
/// flat per-hit amount. Stale events are dropped, not faulted.
pub fn resolve_combat(world: &World, melee: &Vec<MeleeEvent>, damage: &mut Vec<DealDamage>)
    requires
        world.wf(),
    ensures
        final(damage)@.map_values(|d: DealDamage| damage_view(d)) == old(damage)@.map_values(
            |d: DealDamage| damage_view(d),
        ) + expected_damage(*world, melee@, melee@.len() as int),
        forall|i: int|
            old(damage)@.len() <= i < final(damage)@.len() ==> (#[trigger] final(damage)@[i]).amount >= 0,
{
    let mut i: usize = 0;
    while i < melee.len()
        invariant
            i <= melee@.len(),
            world.wf(),
            damage@.map_values(|d: DealDamage| damage_view(d)) == old(damage)@.map_values(
                |d: DealDamage| damage_view(d),
            ) + expected_damage(*world, melee@, i as int),
            forall|t: int|
                old(damage)@.len() <= t < damage@.len() ==> (#[trigger] damage@[t]).amount >= 0,
            forall|t: int|
                0 <= t < old(damage)@.len() ==> #[trigger] damage@[t] == old(damage)@[t],
            damage@.len() >= old(damage)@.len(),
        decreases melee@.len() - i,
    {
        let ev = melee[i];
        let src_ok = world.entity_is_live(ev.source) && world.get_stats(ev.source).is_some()
            && world.get_name(ev.source).is_some();
        let tgt_ok = world.entity_is_live(ev.target) && world.get_stats(ev.target).is_some()
            && world.get_name(ev.target).is_some();
        let ghost pre = damage@;
        if src_ok && tgt_ok {
            let name = match world.get_name(ev.source) {
                Some(n) => n,
                None => String::new(),
            };
            damage.push(
                DealDamage { source: ev.source, target: ev.target, name, amount: HIT_DAMAGE },
            );
            proof {
                assert(damage@.map_values(|d: DealDamage| damage_view(d)) =~= pre.map_values(
                    |d: DealDamage| damage_view(d),
                ).push(damage_view(damage@.last())));
                assert(damage@.map_values(|d: DealDamage| damage_view(d)) =~= old(damage)@.map_values(|d: DealDamage| damage_view(d)) + expected_damage(
                    *world,
                    melee@,
                    i + 1,
                ));
            }
        } else {
            proof {
                assert(!melee_eligible(*world, melee@[i as int]));
                assert(expected_damage(*world, melee@, i + 1) == expected_damage(
                    *world,
                    melee@,
                    i as int,
                ));
            }
        }
        i = i + 1;
    }
}

/// Saturating damage application: `cur` drops by `amt`, not below the
/// integer floor. Current health may go negative; death cleanup runs
/// afterwards.
pub open spec fn sat_sub(cur: int, amt: int) -> int {
    if cur - amt >= i32::MIN {
        cur - amt
    } else {
        i32::MIN as int
    }
}

/// The current health of the entity in slot `tid` after the first
/// `k` damage orders.
pub open spec fn hp_after(w: World, evs: Seq<DealDamage>, tid: int, k: int) -> int
    decreases k,
{
    if k <= 0 {
        w.stats@[tid]->0.hp.cur as int
    } else {
        let prev = hp_after(w, evs, tid, k - 1);
        if evs[k - 1].target.id == tid && damage_applicable(w, evs[k - 1]) {
            sat_sub(prev, evs[k - 1].amount as int)
        } else {
            prev
        }
    }
}

/// A damage order lands only on a live combatant with stats and a
/// name; anything else is a no-op.
pub open spec fn damage_applicable(w: World, ev: DealDamage) -> bool {
    &&& w.is_live(ev.target)
    &&& w.stats@[ev.target.id as int] is Some
    &&& w.names@[ev.target.id as int] is Some
}

/// The combat-log line for one applied damage order: second person
/// when the player struck the blow, third person otherwise.
pub open spec fn hit_line(w: World, ev: DealDamage) -> Seq<char> {
    let tname = w.names@[ev.target.id as int]->0.name@;
    if ev.source == w.player {
        "You hit "@ + tname + " for "@ + dec_digits(ev.amount as nat) + " points"@
    } else {
        ev.name@ + " hits "@ + tname + " for "@ + dec_digits(ev.amount as nat) + " points"@
    }
}

/// The log lines of the first `k` damage orders, applied ones only.
pub open spec fn hit_log(w: World, evs: Seq<DealDamage>, k: int) -> Seq<(Seq<char>, bool)>
    decreases k,
{
    if k <= 0 {
        Seq::empty()
    } else {
        let rest = hit_log(w, evs, k - 1);
        if damage_applicable(w, evs[k - 1]) {
            rest.push((hit_line(w, evs[k - 1]), false))
        } else {
            rest
        }
    }
}

/// Whether entity slot `j` dies this tick: it was a combatant and the
/// queued damage drives its health strictly below zero. At exactly
/// zero it stays alive.
pub open spec fn dies(w: World, evs: Seq<DealDamage>, j: int) -> bool {
    &&& w.live@[j]
    &&& w.stats@[j] is Some
    &&& w.names@[j] is Some
    &&& hp_after(w, evs, j, evs.len() as int) < 0
}

/// The death log lines for the first `j` entity slots.
pub open spec fn kill_log(w: World, evs: Seq<DealDamage>, j: int) -> Seq<(Seq<char>, bool)>
    decreases j,
{
    if j <= 0 {
        Seq::empty()
    } else {
        let rest = kill_log(w, evs, j - 1);
        if dies(w, evs, j - 1) {
            rest.push(("You killed it!"@, false))
        } else {
            rest
        }
    }
}

/// Phase two of combat: drain the damage orders, subtract each amount
/// from its target's current health with a combat-log line, then
/// despawn every combatant whose health fell strictly below zero,
/// pruning its occupancy entry and logging a kill. Health driven to
/// exactly zero leaves the entity alive.
#[verifier::rlimit(60)]
pub fn deal_damage(
    world: &mut World,
    map: &mut GameMap,
    messages: &mut Messages,
    events: &Vec<DealDamage>,
)
    requires
        old(world).wf(),
        old(map).wf(),
        occupancy_ok(*old(map), *old(world)),
        forall|i: int| 0 <= i < events@.len() ==> (#[trigger] events@[i]).amount >= 0,
    ensures
        final(world).wf(),
        final(map).wf(),
        occupancy_ok(*final(map), *final(world)),
        final(world).n() == old(world).n(),
        final(world).player == old(world).player,
        final(world).names@.len() == old(world).names@.len(),
        forall|j: int|
            #![trigger final(world).live@[j]]
            0 <= j < old(world).n() ==> {
                if dies(*old(world), events@, j) {
                    &&& !final(world).live@[j]
                    &&& final(world).stats@[j] is None
                    &&& final(world).positions@[j] is None
                } else {
                    &&& final(world).live@[j] == old(world).live@[j]
                    &&& final(world).positions@[j] == old(world).positions@[j]
                    &&& final(world).names@[j] == old(world).names@[j]
                    &&& final(world).mobs@[j] == old(world).mobs@[j]
                    &&& final(world).viewsheds@[j] == old(world).viewsheds@[j]
                    &&& (old(world).live@[j] && old(world).stats@[j] is Some && old(world).names@[j] is Some ==> final(world).stats@[j] is Some && final(world).stats@[j]->0.hp.cur as int == hp_after(
                        *old(world),
                        events@,
                        j,
                        events@.len() as int,
                    ) && final(world).stats@[j]->0.hp.max == old(world).stats@[j]->0.hp.max
                        && final(world).stats@[j]->0.mp == old(world).stats@[j]->0.mp)
                    &&& (!(old(world).live@[j] && old(world).stats@[j] is Some && old(world).names@[j] is Some) ==> final(world).stats@[j] == old(world).stats@[j])
                }
            },
        final(map).tiles == old(map).tiles,
        final(map).memory == old(map).memory,
        final(map).width == old(map).width,
        final(map).height == old(map).height,
        final(map).spec_start() == old(map).spec_start(),
        final(map).occupancy@.len() == old(map).occupancy@.len(),
        final(messages)@ == old(messages)@ + hit_log(*old(world), events@, events@.len() as int)
            + kill_log(*old(world), events@, old(world).n()),
        // no damage orders and no combatant already below zero:
        // health and liveness are untouched
        (events@.len() == 0 && (forall|j: int|
            0 <= j < old(world).n() && old(world).live@[j] && (#[trigger] old(world).stats@[j])
                is Some && old(world).names@[j] is Some ==> old(world).stats@[j]->0.hp.cur >= 0))
            ==> final(world).stats@ == old(world).stats@ && final(world).live@ == old(world).live@,
{
    let ghost w0 = *old(world);
    let ghost m0 = *old(map);
    let n_events = events.len();
    let mut i: usize = 0;
    while i < n_events
        invariant
            i <= n_events,
            n_events == events@.len(),
            w0.wf(),
            world.wf(),
            map.wf(),
            *map == m0,
            occupancy_ok(*map, *world),
            forall|t: int| 0 <= t < events@.len() ==> (#[trigger] events@[t]).amount >= 0,
            world.n() == w0.n(),
            world.live == w0.live,
            world.positions == w0.positions,
            world.names == w0.names,
            world.mobs == w0.mobs,
            world.viewsheds == w0.viewsheds,
            world.player == w0.player,
            world.stats@.len() == w0.stats@.len(),
            forall|j: int|
                #![trigger world.stats@[j]]
                0 <= j < w0.n() ==> {
                    if w0.live@[j] && w0.stats@[j] is Some && w0.names@[j] is Some {
                        &&& world.stats@[j] is Some
                        &&& world.stats@[j]->0.hp.cur as int == hp_after(
                            w0,
                            events@,
                            j,
                            i as int,
                        )
                        &&& world.stats@[j]->0.hp.max == w0.stats@[j]->0.hp.max
                        &&& world.stats@[j]->0.mp == w0.stats@[j]->0.mp
                    } else {
                        world.stats@[j] == w0.stats@[j]
                    }
                },
            messages@ == old(messages)@ + hit_log(w0, events@, i as int),
        decreases n_events - i,
    {
        let tgt = events[i].target;
        let tgt_ok = world.entity_is_live(tgt) && world.get_stats(tgt).is_some()
            && world.get_name(tgt).is_some();
        proof {
            assert(tgt_ok == damage_applicable(w0, events@[i as int]));
        }
        if tgt_ok {
            let st = match world.get_stats(tgt) {
                Some(s) => s,
                None => Stats::new(0, 0),
            };
            let amt = events[i].amount;
            let cur = st.hp.cur;
            let newcur = if cur >= i32::MIN + amt {
                cur - amt
            } else {
                i32::MIN
            };
            let ghost wpre = *world;
            world.set_stats(
                tgt,
                Stats { hp: Stat { max: st.hp.max, cur: newcur }, mp: st.mp },
            );
            proof {
                lemma_occupancy_same(*map, wpre, *world);
                assert forall|j: int|
                    #![trigger world.stats@[j]]
                    0 <= j < w0.n() implies {
                    if w0.live@[j] && w0.stats@[j] is Some && w0.names@[j] is Some {
                        &&& world.stats@[j] is Some
                        &&& world.stats@[j]->0.hp.cur as int == hp_after(w0, events@, j, i + 1)
                        &&& world.stats@[j]->0.hp.max == w0.stats@[j]->0.hp.max
                        &&& world.stats@[j]->0.mp == w0.stats@[j]->0.mp
                    } else {
                        world.stats@[j] == w0.stats@[j]
                    }
                } by {
                    if j == tgt.id as int {
                        assert(newcur as int == sat_sub(
                            hp_after(w0, events@, j, i as int),
                            events@[i as int].amount as int,
                        ));
                    } else {
                        assert(world.stats@[j] == wpre.stats@[j]);
                    }
                }
            }
            let tname = match world.get_name(tgt) {
                Some(n) => n,
                None => String::new(),
            };
            let mut line: String;
            if events[i].source.id == world.player.id {
                line = String::from_str("You hit ");
            } else {
                line = events[i].name.clone();
                line.append(" hits ");
            }
            line.append(tname.as_str());
            line.append(" for ");
            let amount_digits = decimal_string(amt as u32);
            line.append(amount_digits.as_str());
            line.append(" points");
            messages.add(line);
            proof {
                assert(messages@ =~= old(messages)@ + hit_log(w0, events@, i + 1));
            }
        } else {
            proof {
                assert(hit_log(w0, events@, i + 1) == hit_log(w0, events@, i as int));
                assert forall|j: int|
                    #![trigger world.stats@[j]]
                    0 <= j < w0.n() implies {
                    if w0.live@[j] && w0.stats@[j] is Some && w0.names@[j] is Some {
                        &&& world.stats@[j] is Some
                        &&& world.stats@[j]->0.hp.cur as int == hp_after(w0, events@, j, i + 1)
                        &&& world.stats@[j]->0.hp.max == w0.stats@[j]->0.hp.max
                        &&& world.stats@[j]->0.mp == w0.stats@[j]->0.mp
                    } else {
                        world.stats@[j] == w0.stats@[j]
                    }
                } by {
                    assert(hp_after(w0, events@, j, i + 1) == hp_after(w0, events@, j, i as int));
                }
            }
        }
        i = i + 1;
    }
    let n_entities = world.live.len();
    let mut j: usize = 0;
    while j < n_entities
        invariant
            j <= n_entities,
            n_entities == w0.n(),
            w0.wf(),
            world.wf(),
            map.wf(),
            occupancy_ok(*map, *world),
            world.n() == w0.n(),
            world.player == w0.player,
            world.names@.len() == w0.names@.len(),
            map.tiles == m0.tiles,
            map.memory == m0.memory,
            map.width == m0.width,
            map.height == m0.height,
            map.spec_start() == m0.spec_start(),
            map.occupancy@.len() == m0.occupancy@.len(),
            forall|t: int|
                #![trigger world.live@[t]]
                0 <= t < w0.n() ==> {
                    if t < j && dies(w0, events@, t) {
                        &&& !world.live@[t]
                        &&& world.stats@[t] is None
                        &&& world.positions@[t] is None
                    } else {
                        &&& world.live@[t] == w0.live@[t]
                        &&& world.positions@[t] == w0.positions@[t]
                        &&& world.names@[t] == w0.names@[t]
                        &&& world.mobs@[t] == w0.mobs@[t]
                        &&& world.viewsheds@[t] == w0.viewsheds@[t]
                        &&& (w0.live@[t] && w0.stats@[t] is Some && w0.names@[t] is Some
                            ==> world.stats@[t] is Some && world.stats@[t]->0.hp.cur as int
                            == hp_after(w0, events@, t, events@.len() as int)
                            && world.stats@[t]->0.hp.max == w0.stats@[t]->0.hp.max
                            && world.stats@[t]->0.mp == w0.stats@[t]->0.mp)
                        &&& (!(w0.live@[t] && w0.stats@[t] is Some && w0.names@[t] is Some)
                            ==> world.stats@[t] == w0.stats@[t])
                    }
                },
            messages@ == old(messages)@ + hit_log(w0, events@, events@.len() as int) + kill_log(
                w0,
                events@,
                j as int,
            ),
        decreases n_entities - j,
    {
        let e = Entity { id: j };
        let is_combatant = world.entity_is_live(e) && world.get_stats(e).is_some()
            && world.get_name(e).is_some();
        let mut dead = false;
        if is_combatant {
            match world.get_stats(e) {
                Some(st) => {
                    if st.hp.cur < 0 {
                        dead = true;
                    }
                },
                None => {},
            }
        }
        proof {
            assert(dead == dies(w0, events@, j as int));
        }
        if dead {
            world.despawn(map, e);
            messages.add(String::from_str("You killed it!"));
            proof {
                reveal_strlit("You killed it!");
                assert(messages@ =~= old(messages)@ + hit_log(w0, events@, events@.len() as int)
                    + kill_log(w0, events@, j + 1));
            }
        } else {
            proof {
                assert(kill_log(w0, events@, j + 1) == kill_log(w0, events@, j as int));
            }
        }
        j = j + 1;
    }
    proof {
        if events@.len() == 0 && (forall|j2: int|
            0 <= j2 < w0.n() && w0.live@[j2] && (#[trigger] w0.stats@[j2]) is Some
                && w0.names@[j2] is Some ==> w0.stats@[j2]->0.hp.cur >= 0) {
            assert forall|j2: int|
                0 <= j2 < w0.n() implies #[trigger] world.stats@[j2] == w0.stats@[j2]
                && world.live@[j2] == w0.live@[j2] by {
                assert(!dies(w0, events@, j2));
                if w0.live@[j2] && w0.stats@[j2] is Some && w0.names@[j2] is Some {
                    assert(world.live@[j2] == w0.live@[j2]);
                    assert(world.stats@[j2] is Some);
                    let st = w0.stats@[j2]->0;
                    let st2 = world.stats@[j2]->0;
                    assert(hp_after(w0, events@, j2, 0) == w0.stats@[j2]->0.hp.cur as int);
                    assert(st2.hp.cur as int == hp_after(w0, events@, j2, events@.len() as int));
                    assert(st2.hp.cur == st.hp.cur);
                    assert(st2.hp == st.hp);
                    assert(st2 == st);
                    assert(world.stats@[j2] == Some(st2));
                    assert(w0.stats@[j2] == Some(st));
                } else {
                    assert(world.live@[j2] == w0.live@[j2]);
                    assert(!(w0.live@[j2] && w0.stats@[j2] is Some && w0.names@[j2] is Some));
                    assert(world.stats@[j2] == w0.stats@[j2]);
                }
            }
            assert(world.stats@ =~= w0.stats@);
            assert(world.live@ =~= w0.live@);
        }
    }
}

} // verus!
