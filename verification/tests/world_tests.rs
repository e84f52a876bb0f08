use rogue::components::{
    CombatStats, DamageDealer, DamageTaker, NamedColor, Point, Position, Renderable, TileBlocking,
};
use rogue::damage_system::{remove_corpses, DamageSystem};
use rogue::map::{GameMap, TileType};
use rogue::map_indexing_system::MapIndexingSystem;
use rogue::melee_combat_system::{MeleeCombatSystem, MeleeEvent};
use rogue::monster_ai_system::{MonsterAI, MonsterPlan, NavPath};
use rogue::player::{handle_player_input, Key, PlayerPosition};
use rogue::rect::Rect;
use rogue::spawner::MonsterKind;
use rogue::state::{RunState, State, SystemsPhase, SystemsRequest, SystemsRun};
use rogue::visibility_system::VisibilitySystem;
use rogue::world::World;

fn blank_map(width: i32, height: i32) -> GameMap {
    let n = (width * height) as usize;
    GameMap {
        tiles: vec![TileType::Wall; n],
        rooms: Vec::new(),
        width,
        height,
        revealed_tiles: vec![false; n],
        visible_tiles: vec![false; n],
        blocked_tiles: vec![false; n],
        tile_contents: vec![Vec::new(); n],
    }
}

/// Two rooms joined along row 14: the player starts at (14, 14), the monster
/// at (34, 14).
fn two_room_world() -> World {
    let mut map = blank_map(80, 50);
    map.add_room(Rect::new(10, 10, 8, 8), false);
    map.add_room(Rect::new(30, 10, 8, 8), true);
    World::new(map)
}

fn idx(world: &World, x: i32, y: i32) -> usize {
    world.map.xy_idx(x, y)
}

#[test]
fn new_world_places_player_and_monsters() {
    let world = two_room_world();
    assert_eq!(world.entity_count(), 2);
    assert_eq!(world.player_entity, 0);
    assert_eq!(world.run_state, RunState::PreRun);
    assert_eq!(world.player_position, PlayerPosition { x: 14, y: 14 });
    assert_eq!(world.positions[0], Some(Position { x: 14, y: 14 }));
    assert_eq!(
        world.renderables[0],
        Some(Renderable { glyph: 64, fg: NamedColor::Yellow, bg: NamedColor::Black })
    );
    assert_eq!(world.names[0].as_ref().unwrap().0, "Player");
    assert_eq!(world.combat_stats[0], Some(CombatStats { max_hp: 30, hp: 30, defense: 2, power: 5 }));
    assert!(world.players[0].is_some());
    assert!(world.monsters[0].is_none());
    let viewshed = world.viewsheds[0].as_ref().unwrap();
    assert!(viewshed.dirty && viewshed.range == 8 && viewshed.visible_tiles.is_empty());

    assert_eq!(world.positions[1], Some(Position { x: 34, y: 14 }));
    let name = &world.names[1].as_ref().unwrap().0;
    let glyph = world.renderables[1].unwrap().glyph;
    assert!((name == "Goblin #0" && glyph == 103) || (name == "Orc #0" && glyph == 111));
    assert_eq!(world.renderables[1].unwrap().fg, NamedColor::Red);
    assert_eq!(world.combat_stats[1], Some(CombatStats { max_hp: 16, hp: 16, defense: 1, power: 4 }));
    assert!(world.monsters[1].is_some());
    assert!(world.players[1].is_none());
    assert!(world.tile_blockings[1].is_some());
    assert_eq!(world.chasings[1].unwrap().target, None);
}

#[test]
fn generated_world_puts_one_monster_per_extra_room() {
    let map = GameMap::new(80, 50);
    let rooms = map.rooms.clone();
    let world = World::new(map);
    assert_eq!(world.entity_count(), rooms.len());
    for (k, room) in rooms.iter().enumerate() {
        let (x, y) = room.center();
        assert_eq!(world.positions[k], Some(Position { x, y }));
    }
}

#[test]
fn monster_names_count_from_zero() {
    assert_eq!(MonsterKind::Goblin.name(12), "Goblin #12");
    assert_eq!(MonsterKind::Orc.name(0), "Orc #0");
    assert_eq!(MonsterKind::Orc.name(305), "Orc #305");
}

#[test]
fn named_colors_have_their_values() {
    assert_eq!(NamedColor::Yellow.rgb(), (255, 255, 0));
    assert_eq!(NamedColor::Red.rgb(), (255, 0, 0));
    assert_eq!(NamedColor::Black.rgb(), (0, 0, 0));
}

#[test]
fn take_damage_starts_and_extends_the_record() {
    let mut world = two_room_world();
    DamageTaker::take_damage(&mut world, 1, 5);
    assert!(world.damage_takers[0].is_none());
    assert_eq!(world.damage_takers[1].as_ref().unwrap().amount, vec![5]);
    DamageTaker::take_damage(&mut world, 1, 3);
    assert_eq!(world.damage_takers[1].as_ref().unwrap().amount, vec![5, 3]);
    assert_eq!(world.combat_stats[1].unwrap().hp, 16);
}

#[test]
fn populate_follows_the_rolls() {
    let mut map = blank_map(80, 50);
    map.add_room(Rect::new(10, 10, 8, 8), false);
    map.add_room(Rect::new(30, 10, 8, 8), true);
    map.add_room(Rect::new(50, 10, 8, 8), true);
    let world = World::populate(map, &vec![2, 1]);
    assert_eq!(world.entity_count(), 3);
    assert_eq!(world.names[1].as_ref().unwrap().0, "Orc #0");
    assert_eq!(world.renderables[1].unwrap().glyph, 111);
    assert_eq!(world.names[2].as_ref().unwrap().0, "Goblin #1");
    assert_eq!(world.renderables[2].unwrap().glyph, 103);
    assert_eq!(world.positions[2], Some(Position { x: 54, y: 14 }));
}

#[test]
fn a_roll_of_one_makes_a_goblin() {
    assert_eq!(MonsterKind::from_roll(1), MonsterKind::Goblin);
    assert_eq!(MonsterKind::from_roll(2), MonsterKind::Orc);
}

#[test]
fn no_key_keeps_waiting() {
    let mut world = two_room_world();
    assert_eq!(handle_player_input(&mut world, None), RunState::AwaitingInput);
    assert_eq!(handle_player_input(&mut world, Some(Key::Other)), RunState::AwaitingInput);
    assert_eq!(world.player_position, PlayerPosition { x: 14, y: 14 });
}

#[test]
fn movement_keys_step_the_player() {
    let mut world = two_room_world();
    world.viewsheds[0].as_mut().unwrap().dirty = false;
    assert_eq!(handle_player_input(&mut world, Some(Key::Right)), RunState::PlayerTurn);
    assert_eq!(world.positions[0], Some(Position { x: 15, y: 14 }));
    assert_eq!(world.player_position, PlayerPosition { x: 15, y: 14 });
    assert!(world.viewsheds[0].as_ref().unwrap().dirty);
    handle_player_input(&mut world, Some(Key::Y));
    assert_eq!(world.player_position, PlayerPosition { x: 16, y: 13 });
    handle_player_input(&mut world, Some(Key::Numpad1));
    assert_eq!(world.player_position, PlayerPosition { x: 15, y: 14 });
    handle_player_input(&mut world, Some(Key::H));
    handle_player_input(&mut world, Some(Key::K));
    assert_eq!(world.player_position, PlayerPosition { x: 14, y: 13 });
}

#[test]
fn blocked_cells_stop_the_player() {
    let mut world = two_room_world();
    MapIndexingSystem.run(&mut world);
    // (14, 10) is the room's wall; walk up to (14, 11) then try once more
    for _ in 0..3 {
        handle_player_input(&mut world, Some(Key::Up));
    }
    assert_eq!(world.player_position, PlayerPosition { x: 14, y: 11 });
    assert_eq!(handle_player_input(&mut world, Some(Key::Up)), RunState::PlayerTurn);
    assert_eq!(world.player_position, PlayerPosition { x: 14, y: 11 });
}

#[test]
fn stepping_onto_a_fighter_attacks_instead() {
    let mut world = two_room_world();
    world.positions[1] = Some(Position { x: 15, y: 14 });
    MapIndexingSystem.run(&mut world);
    assert_eq!(handle_player_input(&mut world, Some(Key::Right)), RunState::PlayerTurn);
    assert_eq!(world.damage_dealers[0], Some(DamageDealer { target: 1 }));
    assert_eq!(world.player_position, PlayerPosition { x: 14, y: 14 });
}

#[test]
fn map_indexing_blocks_and_lists_entities() {
    let mut world = two_room_world();
    MapIndexingSystem.run(&mut world);
    let monster_cell = idx(&world, 34, 14);
    let player_cell = idx(&world, 14, 14);
    assert!(world.map.blocked_tiles[monster_cell]);
    assert!(!world.map.blocked_tiles[player_cell]);
    assert!(world.map.blocked_tiles[0]);
    assert_eq!(world.map.tile_contents[monster_cell], vec![1]);
    assert_eq!(world.map.tile_contents[player_cell], vec![0]);
    assert!(world.map.tile_contents[idx(&world, 20, 14)].is_empty());
}

#[test]
fn melee_records_hits_and_clears_intents() {
    let mut world = two_room_world();
    world.damage_dealers[0] = Some(DamageDealer { target: 1 });
    world.damage_dealers[1] = Some(DamageDealer { target: 0 });
    assert!(MeleeCombatSystem::resolvable(&world));
    let events = MeleeCombatSystem.run(&mut world);
    assert_eq!(
        events,
        vec![
            MeleeEvent { attacker: 0, target: 1, damage: 4 },
            MeleeEvent { attacker: 1, target: 0, damage: 2 },
        ]
    );
    assert_eq!(world.damage_takers[1].as_ref().unwrap().amount, vec![4]);
    assert_eq!(world.damage_takers[0].as_ref().unwrap().amount, vec![2]);
    assert!(world.damage_dealers.iter().all(|d| d.is_none()));
}

#[test]
fn melee_without_harm_records_nothing() {
    let mut world = two_room_world();
    world.combat_stats[1] = Some(CombatStats { max_hp: 16, hp: 16, defense: 9, power: 4 });
    world.damage_dealers[0] = Some(DamageDealer { target: 1 });
    let events = MeleeCombatSystem.run(&mut world);
    assert_eq!(events, vec![MeleeEvent { attacker: 0, target: 1, damage: 0 }]);
    assert!(world.damage_takers[1].is_none());
}

#[test]
fn the_dead_neither_hit_nor_get_hit() {
    let mut world = two_room_world();
    world.combat_stats[1] = Some(CombatStats { max_hp: 16, hp: 0, defense: 1, power: 4 });
    world.damage_dealers[0] = Some(DamageDealer { target: 1 });
    world.damage_dealers[1] = Some(DamageDealer { target: 0 });
    let events = MeleeCombatSystem.run(&mut world);
    assert!(events.is_empty());
    assert!(world.damage_takers.iter().all(|d| d.is_none()));
}

#[test]
fn attacks_on_entities_without_stats_are_not_resolvable() {
    let mut world = two_room_world();
    world.combat_stats[1] = None;
    world.damage_dealers[0] = Some(DamageDealer { target: 1 });
    assert!(!MeleeCombatSystem::resolvable(&world));
}

#[test]
fn damage_lowers_hit_points_by_the_sum() {
    let mut world = two_room_world();
    DamageTaker::take_damage(&mut world, 1, 4);
    DamageTaker::take_damage(&mut world, 1, 7);
    assert!(DamageSystem::applicable(&world));
    DamageSystem.run(&mut world);
    assert_eq!(world.combat_stats[1].unwrap().hp, 5);
    assert_eq!(world.combat_stats[0].unwrap().hp, 30);
    assert!(world.damage_takers.iter().all(|d| d.is_none()));
}

#[test]
fn overflowing_damage_is_not_applicable() {
    let mut world = two_room_world();
    DamageTaker::take_damage(&mut world, 1, i32::MAX);
    DamageTaker::take_damage(&mut world, 1, 1);
    assert!(!DamageSystem::applicable(&world));
}

#[test]
fn corpses_are_removed_but_not_the_player() {
    let mut world = two_room_world();
    world.combat_stats[1] = Some(CombatStats { max_hp: 16, hp: -2, defense: 1, power: 4 });
    assert!(!remove_corpses(&mut world));
    assert!(world.positions[1].is_none());
    assert!(world.names[1].is_none());
    assert!(world.combat_stats[1].is_none());
    world.combat_stats[0] = Some(CombatStats { max_hp: 30, hp: 0, defense: 2, power: 5 });
    assert!(remove_corpses(&mut world));
    assert!(world.positions[0].is_some());
}

#[test]
fn visibility_installs_the_view_on_the_map() {
    let mut world = two_room_world();
    let vis = VisibilitySystem;
    assert_eq!(vis.pending(&world, 0), Some((Point { x: 14, y: 14 }, 8)));
    let mut sys = VisibilitySystem;
    let fov = vec![Point { x: 14, y: 14 }, Point { x: -1, y: 3 }, Point { x: 15, y: 14 }, Point { x: 80, y: 0 }];
    sys.update(&mut world, 0, fov);
    let viewshed = world.viewsheds[0].as_ref().unwrap();
    assert!(!viewshed.dirty);
    assert_eq!(viewshed.visible_tiles, vec![Point { x: 14, y: 14 }, Point { x: 15, y: 14 }]);
    assert_eq!(vis.pending(&world, 0), None);
    let a = idx(&world, 14, 14);
    let b = idx(&world, 15, 14);
    for i in 0..world.map.visible_tiles.len() {
        assert_eq!(world.map.visible_tiles[i], i == a || i == b);
        assert_eq!(world.map.revealed_tiles[i], i == a || i == b);
    }
    // a second view replaces what is visible but keeps what was revealed
    world.viewsheds[0].as_mut().unwrap().dirty = true;
    sys.update(&mut world, 0, vec![Point { x: 16, y: 14 }]);
    let c = idx(&world, 16, 14);
    assert!(world.map.visible_tiles[c] && !world.map.visible_tiles[a]);
    assert!(world.map.revealed_tiles[a] && world.map.revealed_tiles[c]);
}

#[test]
fn monster_views_leave_the_map_alone() {
    let mut world = two_room_world();
    let mut sys = VisibilitySystem;
    sys.update(&mut world, 1, vec![Point { x: 34, y: 14 }]);
    assert_eq!(world.viewsheds[1].as_ref().unwrap().visible_tiles, vec![Point { x: 34, y: 14 }]);
    assert!(world.map.visible_tiles.iter().all(|v| !v));
}

#[test]
fn monsters_wait_for_their_turn() {
    let mut world = two_room_world();
    world.run_state = RunState::PlayerTurn;
    world.positions[1] = Some(Position { x: 15, y: 15 });
    let ai = MonsterAI;
    assert_eq!(ai.plan(&world, 1), MonsterPlan::Stay);
    world.run_state = RunState::MonsterTurn;
    assert_eq!(ai.plan(&world, 1), MonsterPlan::Attack);
    assert_eq!(ai.plan(&world, 0), MonsterPlan::Stay);
}

#[test]
fn adjacent_monster_attacks_the_player() {
    let mut world = two_room_world();
    world.run_state = RunState::MonsterTurn;
    world.positions[1] = Some(Position { x: 13, y: 13 });
    let mut ai = MonsterAI;
    ai.act(&mut world, 1, None);
    assert_eq!(world.damage_dealers[1], Some(DamageDealer { target: 0 }));
    assert_eq!(world.positions[1], Some(Position { x: 13, y: 13 }));
}

#[test]
fn monster_that_sees_the_player_follows_the_path() {
    let mut world = two_room_world();
    world.run_state = RunState::MonsterTurn;
    MapIndexingSystem.run(&mut world);
    world.viewsheds[1].as_mut().unwrap().visible_tiles = vec![Point { x: 14, y: 14 }];
    world.viewsheds[1].as_mut().unwrap().dirty = false;
    let mut ai = MonsterAI;
    let start = idx(&world, 34, 14);
    let goal = idx(&world, 14, 14);
    assert_eq!(ai.plan(&world, 1), MonsterPlan::SeekPath { start, goal });
    let next = idx(&world, 33, 14);
    ai.act(&mut world, 1, Some(NavPath { success: true, steps: vec![start, next, goal] }));
    assert_eq!(world.positions[1], Some(Position { x: 33, y: 14 }));
    assert!(!world.map.blocked_tiles[start]);
    assert!(world.map.blocked_tiles[next]);
    assert!(world.viewsheds[1].as_ref().unwrap().dirty);
}

#[test]
fn failed_paths_leave_the_monster_in_place() {
    let mut world = two_room_world();
    world.run_state = RunState::MonsterTurn;
    world.viewsheds[1].as_mut().unwrap().visible_tiles = vec![Point { x: 14, y: 14 }];
    let start = idx(&world, 34, 14);
    let mut ai = MonsterAI;
    ai.act(&mut world, 1, Some(NavPath { success: false, steps: vec![start, start + 1] }));
    assert_eq!(world.positions[1], Some(Position { x: 34, y: 14 }));
    ai.act(&mut world, 1, Some(NavPath { success: true, steps: vec![start] }));
    assert_eq!(world.positions[1], Some(Position { x: 34, y: 14 }));
}

#[test]
fn ticks_cycle_through_the_run_states() {
    let mut state = State { ecs: two_room_world() };
    assert!(state.systems_due());
    assert!(!state.end_tick(None));
    assert_eq!(state.ecs.run_state, RunState::AwaitingInput);
    assert!(!state.systems_due());
    state.end_tick(None);
    assert_eq!(state.ecs.run_state, RunState::AwaitingInput);
    state.end_tick(Some(Key::Numpad6));
    assert_eq!(state.ecs.run_state, RunState::PlayerTurn);
    assert_eq!(state.ecs.player_position, PlayerPosition { x: 15, y: 14 });
    state.end_tick(Some(Key::Left));
    assert_eq!(state.ecs.run_state, RunState::MonsterTurn);
    assert_eq!(state.ecs.player_position, PlayerPosition { x: 15, y: 14 });
    state.end_tick(None);
    assert_eq!(state.ecs.run_state, RunState::AwaitingInput);
}

#[test]
fn end_of_tick_reports_a_dead_player_and_clears_corpses() {
    let mut state = State { ecs: two_room_world() };
    state.ecs.combat_stats[1] = Some(CombatStats { max_hp: 16, hp: 0, defense: 1, power: 4 });
    state.ecs.combat_stats[0] = Some(CombatStats { max_hp: 30, hp: -1, defense: 2, power: 5 });
    assert!(state.end_tick(None));
    assert!(state.ecs.combat_stats[1].is_none());
    assert!(state.ecs.combat_stats[0].is_some());
}

#[test]
fn only_entities_in_view_are_drawn() {
    let mut state = State { ecs: two_room_world() };
    let mut sys = VisibilitySystem;
    sys.update(&mut state.ecs, 0, vec![Point { x: 14, y: 14 }]);
    let drawn = state.drawn_entities();
    assert_eq!(drawn.len(), 1);
    assert_eq!(drawn[0].0, Position { x: 14, y: 14 });
    assert_eq!(drawn[0].1.glyph, 64);
}

#[test]
fn a_deleted_entity_keeps_no_component() {
    let mut world = two_room_world();
    world.delete_entity(1);
    assert!(world.positions[1].is_none());
    assert!(world.tile_blockings[1].is_none());
    assert!(world.monsters[1].is_none());
    assert_eq!(world.entity_count(), 2);
    let _ = TileBlocking;
}

#[test]
fn a_run_of_the_systems_asks_for_views_then_monster_turns() {
    let mut state = State { ecs: two_room_world() };
    state.ecs.run_state = RunState::MonsterTurn;
    state.ecs.positions[1] = Some(Position { x: 15, y: 15 });
    let mut run = SystemsRun::new();
    match state.next_request(&mut run) {
        SystemsRequest::FieldOfView { entity, origin, range } => {
            assert_eq!((entity, origin, range), (0, Point { x: 14, y: 14 }, 8));
        }
        _ => panic!("expected a field of view"),
    }
    VisibilitySystem.update(&mut state.ecs, 0, vec![Point { x: 14, y: 14 }, Point { x: 15, y: 15 }]);
    match state.next_request(&mut run) {
        SystemsRequest::FieldOfView { entity, .. } => assert_eq!(entity, 1),
        _ => panic!("expected a field of view"),
    }
    VisibilitySystem.update(&mut state.ecs, 1, vec![Point { x: 14, y: 14 }]);
    match state.next_request(&mut run) {
        SystemsRequest::MonsterTurn { entity, plan } => {
            assert_eq!((entity, plan), (1, MonsterPlan::Attack));
        }
        _ => panic!("expected a monster turn"),
    }
    MonsterAI.act(&mut state.ecs, 1, None);
    match state.next_request(&mut run) {
        SystemsRequest::Done { events } => {
            assert_eq!(events, vec![MeleeEvent { attacker: 1, target: 0, damage: 2 }]);
        }
        _ => panic!("expected the end of the run"),
    }
    assert_eq!(run.phase, SystemsPhase::Finished);
    assert_eq!(state.ecs.combat_stats[0].unwrap().hp, 28);
    assert!(state.ecs.damage_dealers.iter().all(|d| d.is_none()));
    assert!(state.ecs.map.blocked_tiles[state.ecs.map.xy_idx(15, 15)]);
}

#[test]
fn a_run_stops_on_an_unresolvable_attack() {
    let mut state = State { ecs: two_room_world() };
    state.ecs.viewsheds[0].as_mut().unwrap().dirty = false;
    state.ecs.viewsheds[1].as_mut().unwrap().dirty = false;
    state.ecs.combat_stats[1] = None;
    state.ecs.damage_dealers[0] = Some(DamageDealer { target: 1 });
    let mut run = SystemsRun::new();
    assert!(matches!(state.next_request(&mut run), SystemsRequest::Failed));
}

#[test]
fn a_new_game_fills_the_console_and_waits_to_start() {
    let state = State::new_game();
    assert_eq!(state.ecs.map.width, 80);
    assert_eq!(state.ecs.map.height, 50);
    assert_eq!(state.ecs.run_state, RunState::PreRun);
    assert_eq!(state.ecs.entity_count(), state.ecs.map.rooms.len());
    let (x, y) = state.ecs.map.rooms[0].center();
    assert_eq!(state.ecs.player_position, PlayerPosition { x, y });
    assert!(state.ecs.players[0].is_some());
}
