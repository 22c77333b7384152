//! The game engines driven end to end: loading, movement, rewind, the
//! plate/door reaction, spikes, budgets and the game-over observer.

use snake_rewind::grid::{BottomTileType, GameEvent, GameMap, GridPos, Tile, TopTileType};
use snake_rewind::input::Key;
use snake_rewind::level::parse_map;
use snake_rewind::movement::Direction;
use snake_rewind::snake::{Game, GameOverState};

fn chars(s: &str) -> Vec<char> {
    s.chars().collect()
}

fn load(s: &str, total: isize, individual: isize) -> Game {
    Game::load(parse_map(&chars(s)).unwrap(), total, individual).unwrap()
}

#[test]
fn load_places_single_head() {
    let game = load("%.|", 2, 5);
    assert_eq!(game.segments.len(), 1);
    assert_eq!(game.segments[0].sequence_index, 0);
    assert_eq!(game.segments[0].pos, GridPos { x: 0, y: 0 });
    assert!(game.segments[0].movable);
    assert_eq!(game.rewinds.total, 2);
    assert_eq!(game.rewinds.individual, 5);
}

#[test]
fn load_rejects_two_snake_cells() {
    let m = parse_map(&chars("%%")).unwrap();
    assert!(Game::load(m, 1, 1).is_none());
}

#[test]
fn load_without_snake_is_immediate_death() {
    let game = load("##", 1, 1);
    assert_eq!(game.segments.len(), 0);
    assert!(game.check_for_death());
    assert_eq!(game.check_game_over(), GameOverState::Death);
}

#[test]
fn accepted_move_grows_chain() {
    let mut game = load("%..", 1, 1);
    let outcome = game.move_snake(Direction::Right);
    assert!(outcome.moved);
    assert!(outcome.events.is_empty());
    assert_eq!(game.segments.len(), 2);
    // The old head is frozen history; the new head carries the next index.
    assert!(!game.segments[0].movable);
    assert_eq!(game.segments[1].sequence_index, 1);
    assert_eq!(game.segments[1].pos, GridPos { x: 1, y: 0 });
    assert!(game.segments[1].movable);
    // Both cells are now occupied.
    assert!(game.grid.get(GridPos { x: 0, y: 0 }).unwrap().is_occupied());
    assert!(game.grid.get(GridPos { x: 1, y: 0 }).unwrap().is_occupied());
}

#[test]
fn move_into_wall_changes_nothing() {
    let mut game = load("%#", 1, 1);
    let before_segments = game.segments.clone();
    let outcome = game.move_snake(Direction::Right);
    assert!(!outcome.moved);
    assert!(outcome.events.is_empty());
    assert_eq!(game.segments, before_segments);
    assert_eq!(game.grid.get(GridPos { x: 1, y: 0 }).unwrap().top, TopTileType::Wall);
}

#[test]
fn move_off_the_grid_changes_nothing() {
    let mut game = load("%", 1, 1);
    for dir in [Direction::Up, Direction::Down, Direction::Left, Direction::Right] {
        let outcome = game.move_snake(dir);
        assert!(!outcome.moved);
        assert_eq!(game.segments.len(), 1);
    }
}

#[test]
fn move_into_own_body_is_rejected() {
    let mut game = load("%.", 1, 1);
    assert!(game.move_snake(Direction::Right).moved);
    // Moving back onto the trailing segment is a plain rejection.
    assert!(!game.move_snake(Direction::Left).moved);
    assert_eq!(game.segments.len(), 2);
}

#[test]
fn headless_chain_ignores_moves() {
    let mut game = load("##", 1, 1);
    let outcome = game.move_snake(Direction::Right);
    assert!(!outcome.moved);
    assert_eq!(game.segments.len(), 0);
}

#[test]
fn move_then_rewind_restores_chain_and_tile() {
    let mut game = load("%..", 3, 5);
    assert!(game.move_snake(Direction::Right).moved);
    assert_eq!(game.segments.len(), 2);
    game.cycle_snake(1);
    assert_eq!(game.segments.len(), 1);
    // The vacated tile is empty again and the old head is movable again.
    assert!(!game.grid.get(GridPos { x: 1, y: 0 }).unwrap().is_occupied());
    assert_eq!(game.segments[0].pos, GridPos { x: 0, y: 0 });
    assert!(game.segments[0].movable);
}

#[test]
fn rewind_spends_budgets_unconditionally() {
    // One living segment, yet a rewind of 3 spends 3 individual steps.
    let mut game = load("%", 10, 10);
    game.cycle_snake(3);
    assert_eq!(game.rewinds.total, 9);
    assert_eq!(game.rewinds.individual, 7);
    // The whole chain is gone and nothing is movable.
    assert_eq!(game.segments.len(), 0);
    assert!(game.check_for_death());
}

#[test]
fn rewind_of_zero_only_spends_a_rewind() {
    let mut game = load("%.", 10, 10);
    game.cycle_snake(0);
    assert_eq!(game.rewinds.total, 9);
    assert_eq!(game.rewinds.individual, 10);
    assert_eq!(game.segments.len(), 1);
    assert!(game.segments[0].movable);
}

#[test]
fn rewind_past_chain_end_leaves_no_head() {
    let mut game = load("%...", 10, 10);
    assert!(game.move_snake(Direction::Right).moved);
    assert!(game.move_snake(Direction::Right).moved);
    assert_eq!(game.segments.len(), 3);
    game.cycle_snake(5);
    assert_eq!(game.segments.len(), 0);
    assert_eq!(game.rewinds.individual, 5);
    assert!(game.check_for_death());
    // All three tiles are free again.
    for x in 0..3 {
        assert!(!game.grid.get(GridPos { x, y: 0 }).unwrap().is_occupied());
    }
}

#[test]
fn negative_budget_is_game_over() {
    let mut game = load("%.", 0, 10);
    game.cycle_snake(0);
    assert_eq!(game.rewinds.total, -1);
    assert!(game.check_for_rewinds_left());
    assert_eq!(game.check_game_over(), GameOverState::Death);
}

#[test]
fn plate_opens_doors_and_promotes_anti_doors() {
    let mut game = load("%zZA", 5, 5);
    let outcome = game.move_snake(Direction::Right);
    assert!(outcome.moved);
    assert_eq!(
        outcome.events,
        vec![GameEvent::PressurePlateActivated('Z', GridPos { x: 1, y: 0 })]
    );
    // The door opened; the anti-door became a solid door.
    let door_tile = game.grid.get(GridPos { x: 2, y: 0 }).unwrap();
    assert_eq!(door_tile.top, TopTileType::Nothing);
    let anti_tile = game.grid.get(GridPos { x: 3, y: 0 }).unwrap();
    assert_eq!(anti_tile.top, TopTileType::Door('Z'));
    assert_eq!(anti_tile.bottom, BottomTileType::Nothing);
    assert_eq!(game.latched, vec![GridPos { x: 1, y: 0 }]);
}

#[test]
fn plate_activation_is_idempotent() {
    let mut game = load("%zZA", 5, 5);
    assert!(game.move_snake(Direction::Right).moved);
    let latched_after_once = game.latched.clone();
    let segments_after_once = game.segments.clone();
    let door_after_once = game.grid.get(GridPos { x: 2, y: 0 }).unwrap().clone();
    let anti_after_once = game.grid.get(GridPos { x: 3, y: 0 }).unwrap().clone();
    // A second activation of the same plate position is a no-op.
    game.on_plate_activated('Z', GridPos { x: 1, y: 0 });
    assert_eq!(game.latched, latched_after_once);
    assert_eq!(game.segments, segments_after_once);
    assert_eq!(game.grid.get(GridPos { x: 2, y: 0 }).unwrap(), &door_after_once);
    assert_eq!(game.grid.get(GridPos { x: 3, y: 0 }).unwrap(), &anti_after_once);
}

#[test]
fn activation_of_a_non_plate_position_is_ignored() {
    let mut game = load("%zZA", 5, 5);
    let segments_before = game.segments.clone();
    game.on_plate_activated('Z', GridPos { x: 0, y: 0 });
    game.on_plate_activated('X', GridPos { x: 1, y: 0 });
    game.on_plate_activated('Z', GridPos { x: 9, y: 9 });
    assert_eq!(game.segments, segments_before);
    assert_eq!(game.latched.len(), 0);
    assert_eq!(game.grid.get(GridPos { x: 2, y: 0 }).unwrap().top, TopTileType::Door('Z'));
}

#[test]
fn door_materialising_on_a_segment_kills_it() {
    // The head walks over the anti-door, then onto the plate; the door
    // then materialises on the trailing segment and kills it.
    let mut game = load("%A.z", 5, 5);
    assert!(game.move_snake(Direction::Right).moved);
    assert!(game.move_snake(Direction::Right).moved);
    let outcome = game.move_snake(Direction::Right);
    assert!(outcome.moved);
    assert_eq!(game.segments.len(), 3);
    let positions: Vec<GridPos> = game.segments.iter().map(|s| s.pos).collect();
    assert!(!positions.contains(&GridPos { x: 1, y: 0 }));
    assert_eq!(game.grid.get(GridPos { x: 1, y: 0 }).unwrap().top, TopTileType::Door('Z'));
    // The head survived on the plate tile.
    assert!(game.segments[2].movable);
    assert_eq!(game.segments[2].pos, GridPos { x: 3, y: 0 });
}

#[test]
fn spike_strike_kills_segments_on_spikes() {
    let mut game = load("%$.", 5, 5);
    assert!(game.move_snake(Direction::Right).moved);
    // The head stands on the spike tile when the spikes come out.
    let killed = game.activate_spike();
    assert_eq!(killed, 1);
    assert_eq!(game.segments.len(), 1);
    assert_eq!(game.segments[0].pos, GridPos { x: 0, y: 0 });
    assert!(!game.grid.get(GridPos { x: 1, y: 0 }).unwrap().is_occupied());
    assert!(game.check_for_death());
}

#[test]
fn spike_strike_spares_everyone_else() {
    let mut game = load("%.$", 5, 5);
    assert!(game.move_snake(Direction::Right).moved);
    let killed = game.activate_spike();
    assert_eq!(killed, 0);
    assert_eq!(game.segments.len(), 2);
}

#[test]
fn key_buffer_drives_a_rewind() {
    let mut game = load("%..", 5, 5);
    assert!(game.move_snake(Direction::Right).moved);
    let mut buffer = vec![Key::KeyC, Key::Digit1, Key::Enter];
    let steps = game.handle_key_buffer(&mut buffer);
    assert_eq!(steps, Some(1));
    assert!(buffer.is_empty());
    assert_eq!(game.segments.len(), 1);
    assert_eq!(game.rewinds.total, 4);
    assert_eq!(game.rewinds.individual, 4);
}

#[test]
fn incomplete_key_buffer_waits() {
    let mut game = load("%..", 5, 5);
    let mut buffer = vec![Key::KeyC, Key::Digit1];
    assert_eq!(game.handle_key_buffer(&mut buffer), None);
    assert_eq!(buffer.len(), 2);
    assert_eq!(game.rewinds.total, 5);
}

#[test]
fn invalid_key_buffer_is_discarded_without_effect() {
    let mut game = load("%..", 5, 5);
    let mut buffer = vec![Key::KeyW, Key::KeyU, Key::Enter];
    assert_eq!(game.handle_key_buffer(&mut buffer), None);
    assert!(buffer.is_empty());
    assert_eq!(game.rewinds.total, 5);
    assert_eq!(game.segments.len(), 1);
}

#[test]
fn exit_emits_one_win_trigger() {
    // Load the 3-by-1 map and move right twice; the second move enters
    // the exit tile and emits exactly one win trigger over the whole run.
    let mut game = load("%.|", 2, 1);
    let first = game.move_snake(Direction::Right);
    assert!(first.moved);
    let second = game.move_snake(Direction::Right);
    assert!(second.moved);
    let wins = first
        .events
        .iter()
        .chain(second.events.iter())
        .filter(|e| matches!(e, GameEvent::GameWinTrigger))
        .count();
    assert_eq!(wins, 1);
    // No further move is possible from the exit cell of this map.
    assert!(!game.move_snake(Direction::Right).moved);
}

fn movable_count(game: &Game) -> usize {
    game.segments.iter().filter(|s| s.movable).count()
}

#[test]
fn at_most_one_segment_is_ever_movable() {
    let mut game = load("%A.z", 9, 99);
    assert_eq!(movable_count(&game), 1);
    for dir in [Direction::Right, Direction::Right, Direction::Right, Direction::Up] {
        game.move_snake(dir);
        assert!(movable_count(&game) <= 1);
    }
    game.activate_spike();
    assert!(movable_count(&game) <= 1);
    game.cycle_snake(2);
    assert!(movable_count(&game) <= 1);
    game.cycle_snake(9);
    assert!(movable_count(&game) <= 1);
}

#[test]
fn sequence_indices_grow_from_tail_to_head() {
    let mut game = load("%...", 9, 99);
    game.move_snake(Direction::Right);
    game.move_snake(Direction::Right);
    game.move_snake(Direction::Right);
    let indices: Vec<usize> = game.segments.iter().map(|s| s.sequence_index).collect();
    assert_eq!(indices, vec![0, 1, 2, 3]);
    // A rewind and a fresh move keep the order strict.
    game.cycle_snake(2);
    game.move_snake(Direction::Right);
    let indices: Vec<usize> = game.segments.iter().map(|s| s.sequence_index).collect();
    assert_eq!(indices, vec![0, 1, 2]);
}

#[test]
fn no_tile_is_both_door_and_anti_door() {
    let mut game = load("%zZA\n.zAZ", 9, 99);
    game.move_snake(Direction::Right);
    game.move_snake(Direction::Up);
    for x in 0..game.grid.width() {
        for y in 0..game.grid.height() {
            let t = game.grid.get(GridPos { x, y }).unwrap();
            let door = matches!(t.top, TopTileType::Door(_));
            let anti = matches!(t.bottom, BottomTileType::AntiDoor(_));
            assert!(!(door && anti));
        }
    }
}

#[test]
fn tile_transitions() {
    let mut tile = Tile::new(None, Some(BottomTileType::PressurePlate('Z')));
    assert!(!tile.is_occupied());
    let events = tile.snake_passes(GridPos { x: 4, y: 2 });
    assert_eq!(tile.top, TopTileType::Snake);
    assert_eq!(
        events,
        vec![GameEvent::PressurePlateActivated('Z', GridPos { x: 4, y: 2 })]
    );
    tile.top_removed();
    assert_eq!(tile.top, TopTileType::Nothing);
    assert_eq!(tile.bottom, BottomTileType::PressurePlate('Z'));
    tile.upgrade_to_door('Z');
    assert_eq!(tile.top, TopTileType::Door('Z'));
    assert_eq!(tile.bottom, BottomTileType::Nothing);
    assert!(tile.is_occupied());
}

#[test]
fn exit_tile_emits_win_on_entry() {
    let mut tile = Tile::new(None, Some(BottomTileType::Exit));
    let events = tile.snake_passes(GridPos { x: 0, y: 0 });
    assert_eq!(events, vec![GameEvent::GameWinTrigger]);
}

#[test]
fn game_map_rejects_ragged_matrices() {
    let column = vec![Tile::new(None, None)];
    let ragged = vec![column.clone(), vec![]];
    assert!(GameMap::new(ragged).is_none());
    assert!(GameMap::new(Vec::new()).is_none());
    let ok = GameMap::new(vec![column.clone(), column]).unwrap();
    assert_eq!(ok.width(), 2);
    assert_eq!(ok.height(), 1);
}
