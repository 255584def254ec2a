use vstd::prelude::*;

use crate::ai::move_mobs;
use crate::combat::{deal_damage, resolve_combat, DealDamage};
use crate::components::{Entity, Position, WantsToMove};
use crate::drawable::{
    draw_map, draw_mobs, lemma_mem_draw_priority, lemma_mob_draw_priority,
    lemma_vis_draw_priority, sorted_by_priority, DrawList,
};
use crate::keyboard::{handle_key, key_delta, key_candidate, player_ready, Key, KeyboardEvent, MeleeEvent};
use crate::map::GameMap;
use crate::messages::Messages;
use crate::movement::resolve_movement;
use crate::components::Point;
use crate::drawable::{mem_draw_seq, mob_draw_seq, vis_draw_seq};
use crate::visibility::{fov_seq, lemma_fov_seq_same, map_update_system, opaque_at, visibility_system};
use crate::world::{occupancy_ok, World};
use bracket_random::prelude::RandomNumberGenerator;

verus! {

/// Process-wide gate for the per-tick pipeline: set when input
/// produced an action, cleared at the end of every tick.
pub struct RunSystems {
    pub run_systems: bool,
}

/// The coarse session state: a welcome screen, then the game proper.
/// `StartGame` is terminal; there is no way back.
#[derive(Debug, Clone, Copy, PartialEq, Eq, Structural)]
pub enum RunState {
    WelcomeScreen,
    StartGame,
}

/// The whole game: the entity store, the level, the shared random
/// stream, the per-tick event queues, and the staged scheduler that
/// drives them once per accepted input.
pub struct State {
    pub world: World,
    pub map: GameMap,
    pub messages: Messages,
    pub runner: RunSystems,
    pub display: RunState,
    pub rng: RandomNumberGenerator,
    pub melee: Vec<MeleeEvent>,
    pub damage: Vec<DealDamage>,
    pub intents: Vec<(Entity, WantsToMove)>,
    pub draw_list: DrawList,
    pub screen_width: i32,
    pub screen_height: i32,
}

/// Whether this tick's gated stages run: the pipeline was already
/// armed when the tick began, or this key arms it.
pub open spec fn tick_armed(s: State, key: Option<Key>) -> bool {
    s.runner.run_systems || (match key {
        Option::None => false,
        Option::Some(k) => s.messages@.len() == 0 && player_ready(s.world) && (key_delta(k)
            is Some || k == Key::Numpad5),
    })
}

/// Where the input stage leaves the player: stepped to the key's
/// candidate tile exactly when that tile is open Floor and nothing
/// else held the key back.
pub open spec fn player_pos_after_input(s: State, key: Option<Key>) -> Position {
    let p = s.world.positions@[s.world.player.id as int]->0;
    match key {
        Option::None => p,
        Option::Some(k) => {
            if s.messages@.len() > 0 || key_delta(k) is None {
                p
            } else {
                let c = key_candidate(s.world, key_delta(k)->0);
                if s.map.valid_pos(c) && s.map.is_floor(c) && s.map.occ_at(s.map.idx_of(c)).len()
                    == 0 {
                    c
                } else {
                    p
                }
            }
        },
    }
}

impl State {
    /// The standing state invariant: well-formed store and level, and
    /// the occupancy lists exactly mirroring positions.
    pub open spec fn wf(self) -> bool {
        &&& self.world.wf()
        &&& self.map.wf()
        &&& occupancy_ok(self.map, self.world)
    }

    pub fn new(
        world: World,
        map: GameMap,
        messages: Messages,
        rng: RandomNumberGenerator,
        display: RunState,
        screen_width: i32,
        screen_height: i32,
    ) -> (r: State)
        requires
            world.wf(),
            map.wf(),
            occupancy_ok(map, world),
        ensures
            r.wf(),
            r.world == world,
            r.map == map,
            r.messages == messages,
            r.display == display,
            r.screen_width == screen_width,
            r.screen_height == screen_height,
            r.runner.run_systems == true,
            r.melee@.len() == 0,
            r.damage@.len() == 0,
            r.intents@.len() == 0,
            r.draw_list.items@.len() == 0,
    {
        State {
            world,
            map,
            messages,
            runner: RunSystems { run_systems: true },
            display,
            rng,
            melee: Vec::new(),
            damage: Vec::new(),
            intents: Vec::new(),
            draw_list: DrawList { items: Vec::new() },
            screen_width,
            screen_height,
        }
    }

    /// Column and row that center a line of the given length on the
    /// screen; the renderer prints there.
    pub fn center_at_row(&self, row: i32, message: &String) -> (r: (i32, i32))
        requires
            message@.len() <= i32::MAX,
            0 <= self.screen_width,
        ensures
            r.0 == self.screen_width / 2 - (message@.len() as i32) / 2,
            r.1 == row,
    {
        let len = message.as_str().unicode_len();
        let col = self.screen_width / 2 - (len as i32) / 2;
        (col, row)
    }

    /// One full turn of the staged pipeline, driven by at most one
    /// raw key. Stages run in declared order — input, visibility, AI,
    /// movement resolution, combat, draw-list assembly — with the
    /// expensive stages gated on an action having happened, and the
    /// gate cleared unconditionally at the end: one accepted action,
    /// one simulation step.
    #[verifier::rlimit(60)]
    pub fn tick(&mut self, key: Option<Key>)
        requires
            old(self).wf(),
        ensures
            final(self).wf(),
            final(self).runner.run_systems == false,
            final(self).screen_width == old(self).screen_width,
            final(self).screen_height == old(self).screen_height,
            // the session state only ever advances from the welcome
            // screen into the game
            final(self).display == (if old(self).display == RunState::WelcomeScreen {
                if key == Some(Key::Return) {
                    RunState::StartGame
                } else {
                    RunState::WelcomeScreen
                }
            } else {
                RunState::StartGame
            }),
            // the welcome screen runs no simulation
            old(self).display == RunState::WelcomeScreen ==> final(self).world == old(self).world
                && final(self).map == old(self).map && final(self).messages@ == old(self).messages@,
            // explored tiles stay explored across every tick
            final(self).map.width == old(self).map.width,
            final(self).map.height == old(self).map.height,
            final(self).map.memory@.len() == old(self).map.memory@.len(),
            forall|i: int|
                0 <= i < old(self).map.memory@.len() && old(self).map.memory@[i] ==> final(self).map.memory@[i],
            // the renderer receives the draw list already ordered:
            // terrain first, mobs on top
            final(self).draw_list.items == old(self).draw_list.items || sorted_by_priority(
                final(self).draw_list.items@,
            ),
            // message gating: with unacknowledged messages and no
            // pre-armed pipeline, a non-acknowledge key moves nothing
            // and hurts nobody
            (old(self).display == RunState::StartGame && old(self).messages@.len() > 0 && old(self).runner.run_systems == false && (key is Some ==> key->0 != Key::Space)) ==> final(self).world.positions@ == old(self).world.positions@ && final(self).world.stats@ == old(self).world.stats@,
            // tiles never change during a tick
            final(self).map.tiles == old(self).map.tiles,
            // the input stage's outcome survives the tick for a
            // surviving player: stepped or stopped exactly as
            // `player_pos_after_input` says
            (old(self).display == RunState::StartGame && player_ready(old(self).world) && final(self).world.live@[old(self).world.player.id as int]) ==> final(self).world.positions@[old(self).world.player.id as int] == Some(player_pos_after_input(*old(self), key)),
            // an armed tick recomputes the surviving player's viewshed
            // from its post-input position and remembers every wall it
            // sees
            (old(self).display == RunState::StartGame && tick_armed(*old(self), key) && player_ready(old(self).world) && old(self).world.viewsheds@[old(self).world.player.id as int] is Some && old(self).world.viewsheds@[old(self).world.player.id as int]->0.range >= 0 && old(self).map.valid_pos(player_pos_after_input(*old(self), key)) && final(self).world.live@[old(self).world.player.id as int]) ==> ({
                let pid = old(self).world.player.id as int;
                let pos = player_pos_after_input(*old(self), key);
                let range = old(self).world.viewsheds@[pid]->0.range;
                &&& final(self).world.viewsheds@[pid] is Some
                &&& final(self).world.viewsheds@[pid]->0.range == range
                &&& final(self).world.viewsheds@[pid]->0.visible_tiles@ == fov_seq(final(self).map, Point { x: pos.x, y: pos.y }, range)
                &&& forall|t: int| 0 <= t < final(self).world.viewsheds@[pid]->0.visible_tiles@.len() && final(self).map.valid_point(#[trigger] final(self).world.viewsheds@[pid]->0.visible_tiles@[t]) && opaque_at(final(self).map, final(self).world.viewsheds@[pid]->0.visible_tiles@[t]) ==> final(self).map.memory@[final(self).map.idx_of_point(final(self).world.viewsheds@[pid]->0.visible_tiles@[t])]
            }),
            // an armed tick assembles the draw list from the final
            // state: seen terrain, remembered terrain, then mobs
            (old(self).display == RunState::StartGame && tick_armed(*old(self), key)) ==> ({
                let pid = final(self).world.player.id as int;
                if final(self).world.viewsheds@[pid] is Some {
                    final(self).draw_list.items@ == vis_draw_seq(final(self).map, final(self).world.viewsheds@[pid]->0.visible_tiles@, final(self).world.viewsheds@[pid]->0.visible_tiles@.len() as int) + mem_draw_seq(final(self).map, final(self).map.memory@.len() as int) + mob_draw_seq(final(self).world, final(self).world.viewsheds@[pid]->0.visible_tiles@, final(self).world.n())
                } else {
                    final(self).draw_list.items@ == mem_draw_seq(final(self).map, final(self).map.memory@.len() as int)
                }
            }),
            (old(self).display == RunState::StartGame && !tick_armed(*old(self), key)) ==> final(self).draw_list.items == old(self).draw_list.items,
            // without melee events and with healthy combatants, stats
            // and liveness are untouched
            (old(self).display == RunState::StartGame && final(self).melee@.len() == 0 && (forall|j: int| 0 <= j < old(self).world.n() && old(self).world.live@[j] && (#[trigger] old(self).world.stats@[j]) is Some && old(self).world.names@[j] is Some ==> old(self).world.stats@[j]->0.hp.cur >= 0)) ==> final(self).world.stats@ == old(self).world.stats@ && final(self).world.live@ == old(self).world.live@,
    {
        match self.display {
            RunState::WelcomeScreen => {
                if key == Some(Key::Return) {
                    self.display = RunState::StartGame;
                }
                self.runner.run_systems = false;
            },
            RunState::StartGame => {
                self.melee.clear();
                self.damage.clear();
                self.intents.clear();
                match key {
                    Some(k) => {
                        let ev = KeyboardEvent(k);
                        handle_key(
                            &ev,
                            &mut self.world,
                            &mut self.map,
                            &mut self.messages,
                            &mut self.runner,
                            &mut self.melee,
                        );
                    },
                    None => {},
                }
                let ghost w_in = self.world;
                let ghost m_in = self.map;
                let ghost pid = old(self).world.player.id as int;
                let ghost pos_after = player_pos_after_input(*old(self), key);
                proof {
                    assert(self.runner.run_systems == tick_armed(*old(self), key));
                    if player_ready(old(self).world) {
                        assert(self.world.positions@[pid] == Some(pos_after));
                    }
                }
                if self.runner.run_systems {
                    visibility_system(&self.map, &mut self.world);
                    proof {
                        crate::world::lemma_occupancy_same(self.map, w_in, self.world);
                    }
                    let ghost w_v = self.world;
                    let ghost m_v = self.map;
                    map_update_system(&mut self.map, &self.world);
                    proof {
                        crate::world::lemma_occupancy_same_map(m_v, self.map, self.world);
                    }
                    crate::drawable::clear_screen(&mut self.draw_list);
                    let player = self.world.player;
                    if self.world.entity_is_live(player) && self.world.get_position(
                        player,
                    ).is_some() {
                        move_mobs(
                            &self.world,
                            &self.map,
                            &mut self.rng,
                            &mut self.melee,
                            &mut self.messages,
                            &mut self.intents,
                        );
                    }
                }
                let ghost w_ai = self.world;
                let ghost m_ai = self.map;
                proof {
                    assert forall|k2: int|
                        0 <= k2 < self.intents@.len() implies (#[trigger] self.intents@[k2]).0.id
                        != w_ai.player.id by {
                        assert(w_ai.is_mob(self.intents@[k2].0));
                        assert(w_ai.mobs@[w_ai.player.id as int] is None);
                    }
                }
                resolve_movement(&mut self.world, &mut self.map, &self.intents);
                proof {
                    assert(self.world.positions@[w_ai.player.id as int]
                        == w_ai.positions@[w_ai.player.id as int]);
                }
                let ghost w_mv = self.world;
                if self.runner.run_systems {
                    resolve_combat(&self.world, &self.melee, &mut self.damage);
                    deal_damage(&mut self.world, &mut self.map, &mut self.messages, &self.damage);
                    draw_map(&mut self.draw_list, &self.map, &self.world);
                    let ghost terrain = self.draw_list.items@;
                    draw_mobs(&mut self.draw_list, &self.world);
                    proof {
                        let w = self.world;
                        let m = self.map;
                        if w.viewsheds@[w.player.id as int] is Some {
                            let vtiles = w.viewsheds@[w.player.id as int]->0.visible_tiles@;
                            lemma_vis_draw_priority(m, vtiles, vtiles.len() as int);
                            lemma_mem_draw_priority(m, m.memory@.len() as int);
                            lemma_mob_draw_priority(w, vtiles, w.n());
                            assert forall|t: int| 0 <= t < terrain.len() implies (
                            #[trigger] terrain[t]).priority == 0 by {}
                            assert(sorted_by_priority(self.draw_list.items@));
                        } else {
                            lemma_mem_draw_priority(m, m.memory@.len() as int);
                            assert(sorted_by_priority(self.draw_list.items@));
                        }
                    }
                }
                self.runner.run_systems = false;
                proof {
                    if old(self).messages@.len() > 0 && old(self).runner.run_systems == false && (
                    key is Some ==> key->0 != Key::Space) {
                        assert(self.world.positions@ =~= old(self).world.positions@);
                    }
                    let armed = tick_armed(*old(self), key);
                    // the surviving player ends the tick where input left it
                    if player_ready(old(self).world) && self.world.live@[pid] {
                        assert(self.world.positions@[pid] == Some(pos_after));
                    }
                    // the armed tick's viewshed and memory guarantees
                    if armed && player_ready(old(self).world) && old(self).world.viewsheds@[pid]
                        is Some && old(self).world.viewsheds@[pid]->0.range >= 0 && old(
                        self,
                    ).map.valid_pos(pos_after) && self.world.live@[pid] {
                        let range = old(self).world.viewsheds@[pid]->0.range;
                        let origin = Point { x: pos_after.x, y: pos_after.y };
                        assert(w_ai.viewsheds@[pid] is Some);
                        assert(w_ai.viewsheds@[pid]->0.range == range);
                        assert(w_ai.viewsheds@[pid]->0.visible_tiles@ == fov_seq(
                            m_in,
                            origin,
                            range,
                        ));
                        assert(self.world.viewsheds@[pid] == w_ai.viewsheds@[pid]);
                        lemma_fov_seq_same(m_in, self.map, origin, range);
                        assert(self.world.viewsheds@[pid]->0.visible_tiles@ == fov_seq(
                            self.map,
                            origin,
                            range,
                        ));
                        let vt = self.world.viewsheds@[pid]->0.visible_tiles@;
                        assert forall|t: int|
                            0 <= t < vt.len() && self.map.valid_point(#[trigger] vt[t])
                                && opaque_at(self.map, vt[t]) implies self.map.memory@[self.map.idx_of_point(
                            vt[t],
                        )] by {
                            assert(m_ai.valid_point(vt[t]));
                            assert(opaque_at(m_ai, vt[t]));
                            assert(m_ai.memory@[m_ai.idx_of_point(vt[t])]);
                        }
                    }
                    // stats and liveness without melee events
                    if self.melee@.len() == 0 && (forall|j: int|
                        0 <= j < old(self).world.n() && old(self).world.live@[j] && (
                        #[trigger] old(self).world.stats@[j]) is Some && old(
                            self,
                        ).world.names@[j] is Some ==> old(self).world.stats@[j]->0.hp.cur >= 0) {
                        if armed {
                            assert(self.damage@.len() == 0) by {
                                assert(self.damage@.map_values(
                                    |d: crate::combat::DealDamage| crate::combat::damage_view(d),
                                ).len() == self.damage@.len());
                            }
                        }
                        assert(self.world.stats@ =~= old(self).world.stats@);
                        assert(self.world.live@ =~= old(self).world.live@);
                    }
                }
                        },
        }
    }
}

} // verus!
