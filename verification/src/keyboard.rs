use vstd::prelude::*;
use vstd::string::StringExecFns;

use crate::components::{Entity, Position};
use crate::game_state::RunSystems;
use crate::map::GameMap;
use crate::messages::Messages;
use crate::world::{occupancy_ok, World};

verus! {

/// The discrete keys the game reacts to: the eight compass moves with
/// their numeric-pad aliases, the pass key, the acknowledge key, the
/// start key, and everything else.
#[derive(Debug, Clone, Copy, PartialEq, Eq, Structural)]
pub enum Key {
    H,
    J,
    K,
    L,
    Y,
    U,
    B,
    N,
    Numpad1,
    Numpad2,
    Numpad3,
    Numpad4,
    Numpad5,
    Numpad6,
    Numpad7,
    Numpad8,
    Numpad9,
    Space,
    Return,
    Other,
}

/// One raw key event, at most one per tick.
#[derive(Debug, Clone, Copy, PartialEq, Eq, Structural)]
pub struct KeyboardEvent(pub Key);

/// A one-shot melee event, queued by input or AI and drained once by
/// the combat resolver.
#[derive(Debug, Clone, Copy, PartialEq, Eq, Structural)]
pub struct MeleeEvent {
    pub source: Entity,
    pub target: Entity,
}

/// The one-tile step each movement key asks for.
pub open spec fn key_delta(k: Key) -> Option<(int, int)> {
    match k {
        Key::H | Key::Numpad4 => Some((-1int, 0int)),
        Key::L | Key::Numpad6 => Some((1int, 0int)),
        Key::J | Key::Numpad2 => Some((0int, 1int)),
        Key::K | Key::Numpad8 => Some((0int, -1int)),
        Key::Y | Key::Numpad7 => Some((-1int, -1int)),
        Key::U | Key::Numpad9 => Some((1int, -1int)),
        Key::B | Key::Numpad1 => Some((-1int, 1int)),
        Key::N | Key::Numpad3 => Some((1int, 1int)),
        _ => None,
    }
}

/// The controlled entity is alive and placed.
pub open spec fn player_ready(w: World) -> bool {
    w.is_live(w.player) && w.positions@[w.player.id as int] is Some
}

/// The tile one step in the key's direction from the player.
pub open spec fn key_candidate(w: World, d: (int, int)) -> Position {
    let p = w.positions@[w.player.id as int]->0;
    Position { x: (p.x + d.0) as i32, y: (p.y + d.1) as i32 }
}

/// Consume one raw key event. While the message queue is non-empty,
/// only the acknowledge key acts, and it pops the queue head. A
/// movement key steps the player, or turns into a melee event when
/// the destination tile is occupied; either way it counts as an
/// action and arms the per-tick pipeline.
pub fn handle_key(
    event: &KeyboardEvent,
    world: &mut World,
    map: &mut GameMap,
    messages: &mut Messages,
    runner: &mut RunSystems,
    melee: &mut Vec<MeleeEvent>,
)
    requires
        old(world).wf(),
        old(map).wf(),
        occupancy_ok(*old(map), *old(world)),
    ensures
        final(world).wf(),
        final(map).wf(),
        occupancy_ok(*final(map), *final(world)),
        final(world).live == old(world).live,
        final(world).stats == old(world).stats,
        final(world).names == old(world).names,
        final(world).mobs == old(world).mobs,
        final(world).viewsheds == old(world).viewsheds,
        final(world).player == old(world).player,
        final(map).tiles == old(map).tiles,
        final(map).memory == old(map).memory,
        final(map).width == old(map).width,
        final(map).height == old(map).height,
        final(map).spec_start() == old(map).spec_start(),
        final(map).occupancy@.len() == old(map).occupancy@.len(),
        // message gating: with unacknowledged messages, a non-acknowledge
        // key changes nothing at all
        old(messages)@.len() > 0 && event.0 != Key::Space ==> *final(world) == *old(world) && *final(map) == *old(map) && final(messages)@ == old(messages)@ && *final(runner) == *old(runner)
            && final(melee)@ == old(melee)@,
        // the acknowledge key pops the queue head and does nothing else
        event.0 == Key::Space ==> *final(world) == *old(world) && *final(map) == *old(map) && *final(runner) == *old(runner) && final(melee)@ == old(melee)@ && final(messages)@ == (
        if old(messages)@.len() > 0 {
            old(messages)@.drop_first()
        } else {
            old(messages)@
        }),
        // without a live, placed player nothing happens
        old(messages)@.len() == 0 && event.0 != Key::Space && !player_ready(*old(world)) ==> *final(world) == *old(world) && *final(map) == *old(map) && final(messages)@ == old(messages)@ && *final(runner) == *old(runner) && final(melee)@ == old(melee)@,
        // a key with no meaning changes nothing
        old(messages)@.len() == 0 && event.0 != Key::Space && key_delta(event.0) is None && event.0
            != Key::Numpad5 ==> *final(world) == *old(world) && *final(map) == *old(map) && final(messages)@ == old(messages)@ && *final(runner) == *old(runner) && final(melee)@ == old(melee)@,
        // the pass key acts without moving
        old(messages)@.len() == 0 && event.0 == Key::Numpad5 && player_ready(*old(world)) ==> *final(world) == *old(world) && *final(map) == *old(map) && final(messages)@ == old(messages)@ && final(melee)@ == old(melee)@ && final(runner).run_systems == true,
        // a movement key: blocked, stepped, or turned into melee
        old(messages)@.len() == 0 && key_delta(event.0) is Some && player_ready(*old(world)) ==> ({
            let c = key_candidate(*old(world), key_delta(event.0)->0);
            &&& final(runner).run_systems == true
            &&& (!(old(map).valid_pos(c) && old(map).is_floor(c)) ==> *final(world) == *old(world)
                && *final(map) == *old(map) && final(messages)@ == old(messages)@ && final(melee)@
                == old(melee)@)
            &&& (old(map).valid_pos(c) && old(map).is_floor(c) && old(map).occ_at(
                old(map).idx_of(c),
            ).len() == 0 ==> final(world).positions@ == old(world).positions@.update(
                old(world).player.id as int,
                Some(c),
            ) && final(messages)@ == old(messages)@ && final(melee)@ == old(melee)@)
            &&& (old(map).valid_pos(c) && old(map).is_floor(c) && old(map).occ_at(
                old(map).idx_of(c),
            ).len() > 0 ==> final(world).positions == old(world).positions && *final(map)
                == *old(map) && final(melee)@ == old(melee)@.push(
                MeleeEvent {
                    source: old(world).player,
                    target: old(map).occ_at(old(map).idx_of(c)).last(),
                },
            ) && final(messages)@ == old(messages)@.push(("You attack!"@, false)))
        }),
{
    let k = event.0;
    let gated = !messages.is_empty();
    if gated && !(k == Key::Space) {
        return ;
    }
    if k == Key::Space {
        messages.advance();
        return ;
    }
    let player = world.player;
    if !world.entity_is_live(player) {
        return ;
    }
    let pos_opt = world.get_position(player);
    let p = match pos_opt {
        Some(p) => p,
        None => {
            return ;
        },
    };
    let delta: Option<(i32, i32)> = match k {
        Key::H | Key::Numpad4 => Some((-1, 0)),
        Key::L | Key::Numpad6 => Some((1, 0)),
        Key::J | Key::Numpad2 => Some((0, 1)),
        Key::K | Key::Numpad8 => Some((0, -1)),
        Key::Y | Key::Numpad7 => Some((-1, -1)),
        Key::U | Key::Numpad9 => Some((1, -1)),
        Key::B | Key::Numpad1 => Some((-1, 1)),
        Key::N | Key::Numpad3 => Some((1, 1)),
        _ => None,
    };
    match delta {
        None => {
            if k == Key::Numpad5 {
                runner.run_systems = true;
            }
        },
        Some((dx, dy)) => {
            runner.run_systems = true;
            proof {
                assert(crate::world::pos_listed(*old(map), *old(world), player.id as int));
            }
            let c = Position { x: p.x + dx, y: p.y + dy };
            if c.x < 0 || c.x >= map.width || c.y < 0 || c.y >= map.height {
                return ;
            }
            if !map.walkable(&c) {
                return ;
            }
            match map.try_walk(&c) {
                Some(target) => {
                    melee.push(MeleeEvent { source: player, target });
                    messages.add(String::from_str("You attack!"));
                },
                None => {
                    world.move_to(map, player, c);
                },
            }
        },
    }
}

} // verus!
