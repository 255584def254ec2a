use bracket_random::prelude::RandomNumberGenerator;

use progrog::ai::move_mobs;
use progrog::combat::{deal_damage, resolve_combat, DealDamage};
use progrog::components::{Entity, Mob, Name, Position, Stats};
use progrog::drawable::{draw_map, DrawList, Drawable};
use progrog::game_state::{RunState, RunSystems, State};
use progrog::keyboard::{handle_key, Key, KeyboardEvent, MeleeEvent};
use progrog::map::{Direction, GameMap, TileType};
use progrog::mapgen::{
    non_overlapping_rooms, BuilderKind, MapFactory, MapGenerator, RectRoomMapGenerator,
    RoundRoomMapGenerator,
};
use progrog::messages::Messages;
use progrog::movement::resolve_movement;
use progrog::text::decimal_string;
use progrog::visibility::{field_of_view_tiles, map_update_system, Viewshed};
use progrog::components::Point;
use progrog::world::World;

fn floor_map(width: i32, height: i32) -> GameMap {
    let mut map = GameMap::new(width, height, 1, 1);
    for i in 0..map.tiles.len() {
        map.tiles[i] = TileType::Floor;
    }
    map
}

fn basic_world(map: &mut GameMap) -> World {
    World::new(
        map,
        Position { x: 1, y: 1 },
        Stats::new(10, 10),
        Name { name: "you".to_string() },
        Viewshed::new(5),
    )
}

#[test]
fn rect_strategy_places_twenty_rooms() {
    let mut rng = RandomNumberGenerator::seeded(7);
    let rooms = non_overlapping_rooms(&mut rng, 80, 50).unwrap();
    assert_eq!(rooms.len(), 20);
    for i in 0..rooms.len() {
        for j in (i + 1)..rooms.len() {
            assert!(!rooms[i].intersect(&rooms[j]));
        }
    }
    let mut rng2 = RandomNumberGenerator::seeded(7);
    let generator = RectRoomMapGenerator;
    let map = generator.generate(&mut rng2, 80, 50).unwrap();
    let spawn = map.center_of();
    assert!(map.walkable(&spawn));
}

#[test]
fn round_strategy_spawn_is_floor() {
    let mut rng = RandomNumberGenerator::seeded(11);
    let generator = RoundRoomMapGenerator;
    let map = generator.generate(&mut rng, 80, 50).unwrap();
    let spawn = map.center_of();
    assert!(map.walkable(&spawn));
}

#[test]
fn factory_picks_a_strategy() {
    let mut factory = MapFactory::new();
    factory.add_builder(BuilderKind::Rect(RectRoomMapGenerator));
    factory.add_builder(BuilderKind::Round(RoundRoomMapGenerator));
    let mut rng = RandomNumberGenerator::seeded(3);
    let map = factory.create_map(&mut rng, 80, 50).unwrap();
    assert_eq!(map.width(), 80);
    assert_eq!(map.height(), 50);
    assert!(map.walkable(&map.center_of()));
}

#[test]
fn melee_one_point_per_hit_then_death() {
    let mut map = floor_map(5, 5);
    let mut world = basic_world(&mut map);
    let player = world.player;
    let mob = world.spawn_at(
        &mut map,
        Position { x: 2, y: 1 },
        Some(Stats::new(2, 2)),
        Some(Name { name: "Rat".to_string() }),
        Some(Mob { glyph: 'r' }),
        None,
    );
    let mut messages = Messages::default();
    let melee = vec![MeleeEvent { source: player, target: mob }];

    // first hit: 2 -> 1
    let mut damage: Vec<DealDamage> = Vec::new();
    resolve_combat(&world, &melee, &mut damage);
    assert_eq!(damage.len(), 1);
    assert_eq!(damage[0].amount, 1);
    deal_damage(&mut world, &mut map, &mut messages, &damage);
    assert_eq!(world.get_stats(mob).unwrap().hp.cur, 1);
    assert!(world.entity_is_live(mob));

    // second hit: 1 -> 0, still alive at exactly zero
    let mut damage2: Vec<DealDamage> = Vec::new();
    resolve_combat(&world, &melee, &mut damage2);
    deal_damage(&mut world, &mut map, &mut messages, &damage2);
    assert_eq!(world.get_stats(mob).unwrap().hp.cur, 0);
    assert!(world.entity_is_live(mob));

    // third hit: 0 -> -1, despawned with a kill message
    let mut damage3: Vec<DealDamage> = Vec::new();
    resolve_combat(&world, &melee, &mut damage3);
    deal_damage(&mut world, &mut map, &mut messages, &damage3);
    assert!(!world.entity_is_live(mob));
    assert!(world.get_stats(mob).is_none());
    let mut saw_kill = false;
    while !messages.is_empty() {
        if let Some(line) = messages.current() {
            if line.contains("You killed it!") {
                saw_kill = true;
            }
        }
        messages.advance();
    }
    assert!(saw_kill);
}

#[test]
fn hit_message_names_target_and_amount() {
    let mut map = floor_map(5, 5);
    let mut world = basic_world(&mut map);
    let player = world.player;
    let mob = world.spawn_at(
        &mut map,
        Position { x: 2, y: 1 },
        Some(Stats::new(5, 5)),
        Some(Name { name: "Rat".to_string() }),
        Some(Mob { glyph: 'r' }),
        None,
    );
    let mut messages = Messages::default();
    let melee = vec![MeleeEvent { source: player, target: mob }];
    let mut damage: Vec<DealDamage> = Vec::new();
    resolve_combat(&world, &melee, &mut damage);
    deal_damage(&mut world, &mut map, &mut messages, &damage);
    let line = messages.current().unwrap();
    assert_eq!(line, "You hit Rat for 1 points");
}

#[test]
fn stale_melee_event_is_absorbed() {
    let mut map = floor_map(5, 5);
    let world = basic_world(&mut map);
    let ghost_entity = Entity { id: 99 };
    let melee = vec![MeleeEvent { source: ghost_entity, target: world.player }];
    let mut damage: Vec<DealDamage> = Vec::new();
    resolve_combat(&world, &melee, &mut damage);
    assert_eq!(damage.len(), 0);
}

#[test]
fn first_claim_wins_in_resolution() {
    let mut map = floor_map(7, 5);
    let mut world = basic_world(&mut map);
    let a = world.spawn_at(
        &mut map,
        Position { x: 1, y: 2 },
        None,
        Some(Name { name: "a".to_string() }),
        Some(Mob { glyph: 'a' }),
        None,
    );
    let b = world.spawn_at(
        &mut map,
        Position { x: 5, y: 2 },
        None,
        Some(Name { name: "b".to_string() }),
        Some(Mob { glyph: 'b' }),
        None,
    );
    let dest = Position { x: 3, y: 2 };
    let intents = vec![
        (a, progrog::components::WantsToMove { location: dest }),
        (b, progrog::components::WantsToMove { location: dest }),
    ];
    resolve_movement(&mut world, &mut map, &intents);
    assert_eq!(world.get_position(a), Some(dest));
    assert_eq!(world.get_position(b), Some(Position { x: 5, y: 2 }));
    // occupancy reflects the outcome exactly
    assert_eq!(map.try_walk(&dest), Some(a));
    assert_eq!(map.try_walk(&Position { x: 5, y: 2 }), Some(b));
    assert_eq!(map.try_walk(&Position { x: 1, y: 2 }), None);
}

#[test]
fn blocked_destination_rejects_move() {
    let mut map = floor_map(5, 5);
    let mut world = basic_world(&mut map);
    let a = world.spawn_at(
        &mut map,
        Position { x: 1, y: 2 },
        None,
        None,
        Some(Mob { glyph: 'a' }),
        None,
    );
    // wall at the destination
    let wall = Position { x: 2, y: 2 };
    let idx = map.pos_to_idx(&wall);
    map.tiles[idx] = TileType::Wall;
    let intents = vec![(a, progrog::components::WantsToMove { location: wall })];
    resolve_movement(&mut world, &mut map, &intents);
    assert_eq!(world.get_position(a), Some(Position { x: 1, y: 2 }));
}

#[test]
fn visibility_is_idempotent() {
    let mut map = floor_map(9, 9);
    let wall = Position { x: 4, y: 4 };
    let idx = map.pos_to_idx(&wall);
    map.tiles[idx] = TileType::Wall;
    let origin = Point { x: 2, y: 4 };
    let first = field_of_view_tiles(&map, origin, 5);
    let second = field_of_view_tiles(&map, origin, 5);
    assert_eq!(first, second);
    assert!(!first.is_empty());
}

#[test]
fn walls_block_sight() {
    let mut map = floor_map(9, 3);
    // a wall between the viewer and the far end of the corridor
    let wall = Position { x: 4, y: 1 };
    let idx = map.pos_to_idx(&wall);
    map.tiles[idx] = TileType::Wall;
    let origin = Point { x: 2, y: 1 };
    let seen = field_of_view_tiles(&map, origin, 6);
    assert!(seen.contains(&Point { x: 4, y: 1 }));
    assert!(!seen.contains(&Point { x: 6, y: 1 }));
}

#[test]
fn memory_is_monotone() {
    let mut map = floor_map(9, 9);
    let wall = Position { x: 4, y: 4 };
    let idx = map.pos_to_idx(&wall);
    map.tiles[idx] = TileType::Wall;
    let mut world = basic_world(&mut map);
    let player = world.player;
    let tiles = field_of_view_tiles(&map, Point { x: 2, y: 4 }, 5);
    world.set_viewshed(player, Viewshed { visible_tiles: tiles, range: 5 });
    map_update_system(&mut map, &world);
    assert!(map.memory[idx]);
    // a later pass that sees nothing never un-marks the tile
    world.set_viewshed(player, Viewshed { visible_tiles: Vec::new(), range: 5 });
    map_update_system(&mut map, &world);
    assert!(map.memory[idx]);
}

#[test]
fn message_gating_blocks_gameplay_keys() {
    let mut map = floor_map(5, 5);
    let mut world = basic_world(&mut map);
    let player = world.player;
    let mut messages = Messages::default();
    messages.add("something happened".to_string());
    let mut runner = RunSystems { run_systems: false };
    let mut melee: Vec<MeleeEvent> = Vec::new();
    let before = world.get_position(player);
    handle_key(
        &KeyboardEvent(Key::L),
        &mut world,
        &mut map,
        &mut messages,
        &mut runner,
        &mut melee,
    );
    assert_eq!(world.get_position(player), before);
    assert!(!runner.run_systems);
    assert!(melee.is_empty());
    assert!(!messages.is_empty());
    // the acknowledge key pops the head instead
    handle_key(
        &KeyboardEvent(Key::Space),
        &mut world,
        &mut map,
        &mut messages,
        &mut runner,
        &mut melee,
    );
    assert!(messages.is_empty());
    assert_eq!(world.get_position(player), before);
}

#[test]
fn movement_key_steps_the_player() {
    let mut map = floor_map(5, 5);
    let mut world = basic_world(&mut map);
    let player = world.player;
    let mut messages = Messages::default();
    let mut runner = RunSystems { run_systems: false };
    let mut melee: Vec<MeleeEvent> = Vec::new();
    handle_key(
        &KeyboardEvent(Key::L),
        &mut world,
        &mut map,
        &mut messages,
        &mut runner,
        &mut melee,
    );
    assert_eq!(world.get_position(player), Some(Position { x: 2, y: 1 }));
    assert!(runner.run_systems);
    assert_eq!(map.try_walk(&Position { x: 2, y: 1 }), Some(player));
}

#[test]
fn movement_key_into_occupied_tile_attacks() {
    let mut map = floor_map(5, 5);
    let mut world = basic_world(&mut map);
    let player = world.player;
    let mob = world.spawn_at(
        &mut map,
        Position { x: 2, y: 1 },
        Some(Stats::new(2, 2)),
        Some(Name { name: "Rat".to_string() }),
        Some(Mob { glyph: 'r' }),
        None,
    );
    let mut messages = Messages::default();
    let mut runner = RunSystems { run_systems: false };
    let mut melee: Vec<MeleeEvent> = Vec::new();
    handle_key(
        &KeyboardEvent(Key::L),
        &mut world,
        &mut map,
        &mut messages,
        &mut runner,
        &mut melee,
    );
    // melee instead of movement: mutually exclusive outcomes of one key
    assert_eq!(world.get_position(player), Some(Position { x: 1, y: 1 }));
    assert_eq!(melee.len(), 1);
    assert_eq!(melee[0].source, player);
    assert_eq!(melee[0].target, mob);
    assert!(runner.run_systems);
    assert_eq!(messages.current().unwrap(), "You attack!");
}

#[test]
fn wall_blocks_the_player_but_counts_as_acting() {
    let mut map = floor_map(5, 5);
    let mut world = basic_world(&mut map);
    let player = world.player;
    let wall = Position { x: 2, y: 1 };
    let idx = map.pos_to_idx(&wall);
    map.tiles[idx] = TileType::Wall;
    let mut messages = Messages::default();
    let mut runner = RunSystems { run_systems: false };
    let mut melee: Vec<MeleeEvent> = Vec::new();
    handle_key(
        &KeyboardEvent(Key::L),
        &mut world,
        &mut map,
        &mut messages,
        &mut runner,
        &mut melee,
    );
    assert_eq!(world.get_position(player), Some(Position { x: 1, y: 1 }));
    assert!(runner.run_systems);
    assert!(melee.is_empty());
}

#[test]
fn mob_next_to_player_attacks_instead_of_moving() {
    // a one-column corridor: the only open step from the mob's tile
    // is the player's tile
    let mut map = floor_map(1, 2);
    let mut world = World::new(
        &mut map,
        Position { x: 0, y: 1 },
        Stats::new(10, 10),
        Name { name: "you".to_string() },
        Viewshed::new(5),
    );
    let mob = world.spawn_at(
        &mut map,
        Position { x: 0, y: 0 },
        Some(Stats::new(2, 2)),
        Some(Name { name: "Rat".to_string() }),
        Some(Mob { glyph: 'r' }),
        None,
    );
    let mut rng = RandomNumberGenerator::seeded(5);
    let mut messages = Messages::default();
    let mut melee: Vec<MeleeEvent> = Vec::new();
    let mut saw_attack = false;
    for _ in 0..64 {
        let mut intents: Vec<(Entity, progrog::components::WantsToMove)> = Vec::new();
        move_mobs(&world, &map, &mut rng, &mut melee, &mut messages, &mut intents);
        // never a movement intent onto the player's tile
        assert!(intents.is_empty());
        resolve_movement(&mut world, &mut map, &intents);
        assert_eq!(world.get_position(mob), Some(Position { x: 0, y: 0 }));
        if !melee.is_empty() {
            saw_attack = true;
            break;
        }
    }
    assert!(saw_attack);
    assert_eq!(melee[0].source, mob);
    assert_eq!(melee[0].target, world.player);
}

#[test]
fn messages_queue_shows_head_with_more_marker() {
    let mut messages = Messages::default();
    assert!(messages.is_empty());
    assert!(messages.current().is_none());
    messages.add("first".to_string());
    messages.add("second".to_string());
    assert_eq!(messages.current().unwrap(), "first -More-");
    assert!(messages.is_seen());
    messages.advance();
    assert_eq!(messages.current().unwrap(), "second");
    messages.advance();
    assert!(messages.is_empty());
    messages.advance();
    assert!(messages.is_empty());
}

#[test]
fn decimal_rendering() {
    assert_eq!(decimal_string(0), "0");
    assert_eq!(decimal_string(7), "7");
    assert_eq!(decimal_string(10), "10");
    assert_eq!(decimal_string(1234), "1234");
}

#[test]
fn new_position_clamps_to_the_grid() {
    let map = floor_map(5, 5);
    let origin = Position { x: 0, y: 0 };
    assert_eq!(map.new_position(Direction::North, &origin), Position { x: 0, y: 0 });
    assert_eq!(map.new_position(Direction::West, &origin), Position { x: 0, y: 0 });
    assert_eq!(map.new_position(Direction::SouthEast, &origin), Position { x: 1, y: 1 });
    let corner = Position { x: 4, y: 4 };
    assert_eq!(map.new_position(Direction::SouthEast, &corner), Position { x: 4, y: 4 });
    assert_eq!(map.new_position(Direction::North, &corner), Position { x: 4, y: 3 });
}

#[test]
fn draw_list_shows_seen_terrain() {
    let mut map = floor_map(3, 3);
    let wall = Position { x: 1, y: 1 };
    let idx = map.pos_to_idx(&wall);
    map.tiles[idx] = TileType::Wall;
    let mut world = basic_world(&mut map);
    let player = world.player;
    let tiles = field_of_view_tiles(&map, Point { x: 0, y: 0 }, 4);
    world.set_viewshed(player, Viewshed { visible_tiles: tiles, range: 4 });
    let mut dl = DrawList { items: Vec::new() };
    draw_map(&mut dl, &map, &world);
    assert!(dl.items.contains(&Drawable { pos: Point { x: 1, y: 1 }, glyph: '#', priority: 0 }));
    assert!(dl.items.contains(&Drawable { pos: Point { x: 0, y: 0 }, glyph: '.', priority: 0 }));
}

#[test]
fn tick_welcome_screen_starts_game_on_return() {
    let mut map = floor_map(5, 5);
    let world = basic_world(&mut map);
    let state_rng = RandomNumberGenerator::seeded(1);
    let mut state = State::new(
        world,
        map,
        Messages::default(),
        state_rng,
        RunState::WelcomeScreen,
        40,
        25,
    );
    state.tick(Some(Key::H));
    assert_eq!(state.display, RunState::WelcomeScreen);
    state.tick(Some(Key::Return));
    assert_eq!(state.display, RunState::StartGame);
    assert!(!state.runner.run_systems);
}

#[test]
fn tick_runs_one_step_per_action() {
    let mut map = floor_map(5, 5);
    let world = basic_world(&mut map);
    let state_rng = RandomNumberGenerator::seeded(1);
    let mut state = State::new(
        world,
        map,
        Messages::default(),
        state_rng,
        RunState::StartGame,
        40,
        25,
    );
    let player = state.world.player;
    state.tick(Some(Key::L));
    assert_eq!(state.world.get_position(player), Some(Position { x: 2, y: 1 }));
    assert!(!state.runner.run_systems);
    // the draw list was assembled, terrain before mobs
    let mut last_priority = 0;
    for d in &state.draw_list.items {
        assert!(d.priority >= last_priority);
        last_priority = d.priority;
    }
}
