use starless_tactics::board::Dimension;
use starless_tactics::entity::{Team, UnitKind};
use starless_tactics::game::{read_input, FrameAction, Game, PlayerState, SpawnData};
use starless_tactics::input::{ButtonState, Input, KeyCode, Mouse, MouseButton};
use starless_tactics::menu::{MenuBuilder, MenuResult};
use starless_tactics::position::Position;

fn game_with_red_tank() -> Game {
    let mut game = Game::new(Dimension::new(10, 10), Team::Red);
    game.spawn(SpawnData::new(UnitKind::Tank, Team::Red, Position::new(4, 4))).unwrap();
    game
}

fn point_at(input: &mut Input, p: Position) {
    // The board is drawn at the console origin here, so the cell under
    // the pointer is the board cell.
    input.apply_mouse_move(p, p, Dimension::new(10, 10), Position::new(0, 0));
}

#[test]
fn key_edges_are_detected_per_frame() {
    let mut input = Input::new();
    assert!(!input.key(KeyCode::O).down);
    input.begin_frame();
    input.apply_key_press(KeyCode::O);
    input.end_frame();
    assert!(input.key(KeyCode::O).down);
    assert!(!input.key(KeyCode::O).held);
    assert_eq!(input.any_key_down(), Some(KeyCode::O));
    // Next frame, still held: no longer a fresh press.
    input.begin_frame();
    input.apply_key_press(KeyCode::O);
    input.end_frame();
    assert!(!input.key(KeyCode::O).down);
    assert!(input.key(KeyCode::O).held);
    assert_eq!(input.any_key_down(), None);
    // Release.
    input.begin_frame();
    input.apply_key_release(KeyCode::O);
    input.end_frame();
    assert!(input.key(KeyCode::O).up);
}

#[test]
fn mouse_buttons_and_default_states() {
    let mut input = Input::new();
    input.begin_frame();
    input.apply_mouse_press(MouseButton::Left);
    assert!(input.button(MouseButton::Left).down);
    assert!(!input.button(MouseButton::Right).down);
    assert_eq!(ButtonState::default(), ButtonState { down: false, up: false, held: false });
    let m = Mouse::default();
    assert_eq!(m.world_pos, Position::new(0, 0));
    assert_eq!(KeyCode::default(), KeyCode::Unknown);
    assert_eq!(MouseButton::default(), MouseButton::Unknown);
}

#[test]
fn right_click_opens_the_spawn_menu() {
    let mut game = game_with_red_tank();
    let mut input = Input::new();
    input.begin_frame();
    point_at(&mut input, Position::new(3, 3));
    input.apply_mouse_press(MouseButton::Right);
    input.end_frame();
    let action = read_input(&mut game, &input);
    assert_eq!(action, FrameAction::OpenSpawnMenu(Position::new(3, 3)));
}

#[test]
fn left_click_on_own_unit_selects_it() {
    let mut game = game_with_red_tank();
    let h = game.board.entity_at(Position::new(4, 4)).unwrap();
    let mut input = Input::new();
    input.begin_frame();
    point_at(&mut input, Position::new(4, 4));
    input.apply_mouse_press(MouseButton::Left);
    input.end_frame();
    let action = read_input(&mut game, &input);
    assert_eq!(action, FrameAction::Idle);
    assert_eq!(game.player_state, PlayerState::Controlling(h));
}

#[test]
fn turn_key_advances_the_turn() {
    let mut game = game_with_red_tank();
    game.player = Team::White;
    let mut input = Input::new();
    input.begin_frame();
    input.apply_key_press(KeyCode::O);
    input.end_frame();
    read_input(&mut game, &input);
    assert_eq!(game.player, Team::Red);
    assert_eq!(game.player_state, PlayerState::Selecting);
}

#[test]
fn turn_key_with_no_units_ends_the_game() {
    let mut game = Game::new(Dimension::new(10, 10), Team::Red);
    let mut input = Input::new();
    input.begin_frame();
    input.apply_key_press(KeyCode::O);
    input.end_frame();
    let action = read_input(&mut game, &input);
    assert_eq!(action, FrameAction::Idle);
    assert_eq!(game.player_state, PlayerState::GameOver);
}

#[test]
fn game_over_ignores_clicks() {
    let mut game = Game::new(Dimension::new(10, 10), Team::Red);
    game.player_state = PlayerState::GameOver;
    let mut input = Input::new();
    input.begin_frame();
    point_at(&mut input, Position::new(4, 4));
    input.apply_mouse_press(MouseButton::Left);
    input.end_frame();
    read_input(&mut game, &input);
    assert_eq!(game.player_state, PlayerState::GameOver);
}

#[test]
fn menu_selection_follows_digit_keys() {
    let menu = MenuBuilder::new()
        .with_prompt("Spawn/Unit".to_string())
        .with_option("Engineer".to_string(), UnitKind::Engineer)
        .with_option("Tank".to_string(), UnitKind::Tank)
        .build();
    assert_eq!(menu.selection(Some(KeyCode::A1)), MenuResult::Selected(UnitKind::Engineer));
    assert_eq!(menu.selection(Some(KeyCode::A2)), MenuResult::Selected(UnitKind::Tank));
    assert_eq!(menu.selection(Some(KeyCode::A3)), MenuResult::NoResponse);
    assert_eq!(menu.selection(Some(KeyCode::Escape)), MenuResult::Cancel);
    assert_eq!(menu.selection(Some(KeyCode::Q)), MenuResult::NoResponse);
    assert_eq!(menu.selection(None), MenuResult::NoResponse);
}

#[test]
fn delete_key_queues_debug_damage_at_the_pointer() {
    let mut game = game_with_red_tank();
    let mut input = Input::new();
    input.begin_frame();
    point_at(&mut input, Position::new(4, 4));
    input.apply_key_press(KeyCode::Delete);
    input.end_frame();
    read_input(&mut game, &input);
    assert_eq!(game.damage_queue.len(), 1);
    assert_eq!(game.damage_queue[0].at, Position::new(4, 4));
    assert_eq!(game.damage_queue[0].amount, 100);
}

#[test]
fn escape_cancels_back_to_selection() {
    let mut game = game_with_red_tank();
    let h = game.board.entity_at(Position::new(4, 4)).unwrap();
    game.player_state = PlayerState::Moving(h);
    let mut input = Input::new();
    input.begin_frame();
    input.apply_key_press(KeyCode::Escape);
    input.end_frame();
    read_input(&mut game, &input);
    assert_eq!(game.player_state, PlayerState::Selecting);
}

#[test]
fn move_click_spends_actions_and_deselects_when_spent() {
    let mut game = game_with_red_tank();
    let h = game.board.entity_at(Position::new(4, 4)).unwrap();
    game.player_state = PlayerState::Moving(h);
    let mut input = Input::new();
    input.begin_frame();
    point_at(&mut input, Position::new(4, 6));
    input.apply_mouse_press(MouseButton::Left);
    input.end_frame();
    read_input(&mut game, &input);
    // Two steps spend both actions; control drops back to selection.
    assert_eq!(game.units.get(h).unwrap().position, Position::new(4, 6));
    assert_eq!(game.units.get(h).unwrap().actions, 0);
    assert_eq!(game.player_state, PlayerState::Selecting);
}

#[test]
fn failed_move_keeps_the_moving_state_for_retry() {
    let mut game = game_with_red_tank();
    let h = game.board.entity_at(Position::new(4, 4)).unwrap();
    game.player_state = PlayerState::Moving(h);
    let mut input = Input::new();
    input.begin_frame();
    point_at(&mut input, Position::new(9, 9));
    input.apply_mouse_press(MouseButton::Left);
    input.end_frame();
    read_input(&mut game, &input);
    // The destination is unreachable: the unit is untouched and the
    // state is kept so the player can retry with another cell.
    assert_eq!(game.player_state, PlayerState::Moving(h));
    assert_eq!(game.units.get(h).unwrap().position, Position::new(4, 4));
    assert_eq!(game.units.get(h).unwrap().actions, 2);
}

#[test]
fn exhausted_unit_move_click_drops_to_selection() {
    let mut game = game_with_red_tank();
    let h = game.board.entity_at(Position::new(4, 4)).unwrap();
    let mut u = game.units.get(h).unwrap();
    u.actions = 0;
    game.units.update_unit(h, u);
    game.player_state = PlayerState::Moving(h);
    let mut input = Input::new();
    input.begin_frame();
    point_at(&mut input, Position::new(4, 5));
    input.apply_mouse_press(MouseButton::Left);
    input.end_frame();
    read_input(&mut game, &input);
    assert_eq!(game.player_state, PlayerState::Selecting);
}

#[test]
fn failed_attack_keeps_the_attacking_state_for_retry() {
    let mut game = game_with_red_tank();
    let h = game.board.entity_at(Position::new(4, 4)).unwrap();
    game.spawn(SpawnData::new(UnitKind::Infantry, Team::Red, Position::new(4, 5))).unwrap();
    game.player_state = PlayerState::Attacking(h);
    let mut input = Input::new();
    input.begin_frame();
    point_at(&mut input, Position::new(4, 5));
    input.apply_mouse_press(MouseButton::Left);
    input.end_frame();
    read_input(&mut game, &input);
    // A friendly target is refused and the state is kept for a retry.
    assert_eq!(game.player_state, PlayerState::Attacking(h));
    assert!(game.damage_queue.is_empty());
}

#[test]
fn mode_keys_switch_sub_states() {
    let mut game = game_with_red_tank();
    let h = game.board.entity_at(Position::new(4, 4)).unwrap();
    game.player_state = PlayerState::Controlling(h);
    let mut input = Input::new();
    input.begin_frame();
    input.apply_key_press(KeyCode::M);
    input.end_frame();
    read_input(&mut game, &input);
    assert_eq!(game.player_state, PlayerState::Moving(h));
    input.begin_frame();
    input.apply_key_release(KeyCode::M);
    input.end_frame();
    input.begin_frame();
    input.apply_key_press(KeyCode::A);
    input.end_frame();
    read_input(&mut game, &input);
    assert_eq!(game.player_state, PlayerState::Attacking(h));
    input.begin_frame();
    input.apply_key_release(KeyCode::A);
    input.end_frame();
    input.begin_frame();
    input.apply_key_press(KeyCode::B);
    input.end_frame();
    read_input(&mut game, &input);
    assert_eq!(game.player_state, PlayerState::Building(h));
}
