use starless_tactics::board::{Dimension, Tile, TileKind};
use starless_tactics::entity::{Team, UnitKind};
use starless_tactics::game::{
    attack_with_unit, bring_out_your_dead, move_unit, AttackError, Game, IntentToAttack,
    IntentToMove, MoveError, PlayerState, SpawnData, SpawnError,
};
use starless_tactics::position::Position;
use starless_tactics::store::EntityIndex;

fn fresh_game() -> Game {
    Game::new(Dimension::new(10, 10), Team::White)
}

#[test]
fn spawn_success_places_unit_on_board() {
    let mut game = fresh_game();
    let h = game
        .spawn(SpawnData::new(UnitKind::Tank, Team::Red, Position::new(4, 4)))
        .unwrap();
    assert_eq!(game.board.entity_at(Position::new(4, 4)), Some(h));
    let u = game.units.get(h).unwrap();
    assert_eq!(u.kind, UnitKind::Tank);
    assert_eq!(u.team, Team::Red);
    assert_eq!(u.position, Position::new(4, 4));
}

#[test]
fn spawn_out_of_bounds_fails() {
    let mut game = fresh_game();
    let r = game.spawn(SpawnData::new(UnitKind::Flag, Team::Red, Position::new(10, 3)));
    assert_eq!(r.unwrap_err(), SpawnError::PositionOutOfBounds);
}

#[test]
fn spawn_into_occupied_cell_fails() {
    let mut game = fresh_game();
    game.spawn(SpawnData::new(UnitKind::Tank, Team::Red, Position::new(4, 4))).unwrap();
    let r = game.spawn(SpawnData::new(UnitKind::Flag, Team::Blue, Position::new(4, 4)));
    assert_eq!(r.unwrap_err(), SpawnError::PositionOccupied);
}

#[test]
fn move_decrements_actions_by_exact_path_cost() {
    let mut game = fresh_game();
    let h = game
        .spawn(SpawnData::new(UnitKind::Tank, Team::Red, Position::new(4, 4)))
        .unwrap();
    // One step: cost 1 of 2 actions.
    move_unit(&mut game, IntentToMove { entity: h, to: Position::new(4, 5) }).unwrap();
    let u = game.units.get(h).unwrap();
    assert_eq!(u.position, Position::new(4, 5));
    assert_eq!(u.actions, 1);
    assert!(game.board.entity_at(Position::new(4, 4)).is_none());
    assert_eq!(game.board.entity_at(Position::new(4, 5)), Some(h));
    // A second single step spends the last action.
    move_unit(&mut game, IntentToMove { entity: h, to: Position::new(5, 5) }).unwrap();
    assert_eq!(game.units.get(h).unwrap().actions, 0);
    // Exhausted now.
    let r = move_unit(&mut game, IntentToMove { entity: h, to: Position::new(5, 6) });
    assert_eq!(r.unwrap_err(), MoveError::UnitExhausted);
}

#[test]
fn move_two_steps_at_once_costs_two() {
    let mut game = fresh_game();
    let h = game
        .spawn(SpawnData::new(UnitKind::Tank, Team::Red, Position::new(4, 4)))
        .unwrap();
    move_unit(&mut game, IntentToMove { entity: h, to: Position::new(4, 6) }).unwrap();
    assert_eq!(game.units.get(h).unwrap().actions, 0);
}

#[test]
fn move_rejects_invalid_handle() {
    let mut game = fresh_game();
    let bogus = EntityIndex { slot: 9, generation: 3 };
    let r = move_unit(&mut game, IntentToMove { entity: bogus, to: Position::new(4, 4) });
    assert_eq!(r.unwrap_err(), MoveError::UnitInvalid);
}

#[test]
fn move_rejects_occupied_destination() {
    let mut game = fresh_game();
    let h = game
        .spawn(SpawnData::new(UnitKind::Tank, Team::Red, Position::new(4, 4)))
        .unwrap();
    game.spawn(SpawnData::new(UnitKind::Flag, Team::Blue, Position::new(4, 5))).unwrap();
    let r = move_unit(&mut game, IntentToMove { entity: h, to: Position::new(4, 5) });
    assert_eq!(r.unwrap_err(), MoveError::DestinationOccupied);
}

#[test]
fn tank_cannot_reach_far_corner_with_two_actions() {
    // The end-to-end scenario: walled 10x10 board, a Tank at (4,4);
    // (9,9) is ten steps away by Manhattan distance alone.
    let mut game = fresh_game();
    let h = game
        .spawn(SpawnData::new(UnitKind::Tank, Team::Red, Position::new(4, 4)))
        .unwrap();
    let r = move_unit(&mut game, IntentToMove { entity: h, to: Position::new(9, 9) });
    assert_eq!(r.unwrap_err(), MoveError::DestinationUnreachable);
    // Nothing changed.
    assert_eq!(game.units.get(h).unwrap().actions, 2);
    assert_eq!(game.units.get(h).unwrap().position, Position::new(4, 4));
}

#[test]
fn tank_attacks_infantry_two_cells_away() {
    // The end-to-end scenario: Tank (range 3) at (4,4), enemy Infantry at
    // (4,6), nothing between them.
    let mut game = fresh_game();
    let tank = game
        .spawn(SpawnData::new(UnitKind::Tank, Team::Yellow, Position::new(4, 4)))
        .unwrap();
    let infantry = game
        .spawn(SpawnData::new(UnitKind::Infantry, Team::Blue, Position::new(4, 6)))
        .unwrap();
    attack_with_unit(&mut game, IntentToAttack { entity: tank, target_entity: infantry })
        .unwrap();
    let tank_damage = game.units.get(tank).unwrap().damage;
    assert_eq!(game.damage_queue.len(), 1);
    assert_eq!(game.damage_queue[0].at, Position::new(4, 6));
    assert_eq!(game.damage_queue[0].amount, tank_damage);
    // The attack spends the whole turn.
    assert_eq!(game.units.get(tank).unwrap().actions, 0);
    // The queued damage lands at resolution time.
    bring_out_your_dead(&mut game);
    assert!(game.units.get(infantry).is_none());
    assert!(game.board.entity_at(Position::new(4, 6)).is_none());
    assert!(game.damage_queue.is_empty());
}

#[test]
fn attack_rejects_self_and_friends() {
    let mut game = fresh_game();
    let a = game
        .spawn(SpawnData::new(UnitKind::Tank, Team::Red, Position::new(4, 4)))
        .unwrap();
    let b = game
        .spawn(SpawnData::new(UnitKind::Infantry, Team::Red, Position::new(4, 5)))
        .unwrap();
    let self_hit = attack_with_unit(&mut game, IntentToAttack { entity: a, target_entity: a });
    assert_eq!(self_hit.unwrap_err(), AttackError::TargetFriendly);
    let friendly = attack_with_unit(&mut game, IntentToAttack { entity: a, target_entity: b });
    assert_eq!(friendly.unwrap_err(), AttackError::TargetFriendly);
}

#[test]
fn attack_rejects_out_of_range_target() {
    let mut game = fresh_game();
    let a = game
        .spawn(SpawnData::new(UnitKind::Infantry, Team::Red, Position::new(1, 1)))
        .unwrap();
    let b = game
        .spawn(SpawnData::new(UnitKind::Infantry, Team::Blue, Position::new(8, 8)))
        .unwrap();
    let r = attack_with_unit(&mut game, IntentToAttack { entity: a, target_entity: b });
    assert_eq!(r.unwrap_err(), AttackError::TargetOutOfRange);
}

#[test]
fn attack_rejects_invalid_handles() {
    let mut game = fresh_game();
    let a = game
        .spawn(SpawnData::new(UnitKind::Tank, Team::Red, Position::new(4, 4)))
        .unwrap();
    let bogus = EntityIndex { slot: 40, generation: 1 };
    let r = attack_with_unit(&mut game, IntentToAttack { entity: bogus, target_entity: a });
    assert_eq!(r.unwrap_err(), AttackError::UnitInvalid);
    let r2 = attack_with_unit(&mut game, IntentToAttack { entity: a, target_entity: bogus });
    assert_eq!(r2.unwrap_err(), AttackError::TargetInvalid);
}

#[test]
fn exhausted_attacker_is_rejected() {
    let mut game = fresh_game();
    let a = game
        .spawn(SpawnData::new(UnitKind::Tank, Team::Red, Position::new(4, 4)))
        .unwrap();
    let b = game
        .spawn(SpawnData::new(UnitKind::Infantry, Team::Blue, Position::new(4, 5)))
        .unwrap();
    attack_with_unit(&mut game, IntentToAttack { entity: a, target_entity: b }).unwrap();
    game.damage_queue.clear();
    let again = attack_with_unit(&mut game, IntentToAttack { entity: a, target_entity: b });
    assert_eq!(again.unwrap_err(), AttackError::UnitExhausted);
}

#[test]
fn missile_attack_zeroes_itself_and_queues_splash() {
    let mut game = fresh_game();
    let missile = game
        .spawn(SpawnData::new(UnitKind::Missile, Team::Red, Position::new(2, 2)))
        .unwrap();
    let target = game
        .spawn(SpawnData::new(UnitKind::Infantry, Team::Blue, Position::new(4, 2)))
        .unwrap();
    attack_with_unit(&mut game, IntentToAttack { entity: missile, target_entity: target })
        .unwrap();
    // The missile's own health drops to zero at once.
    let m = game.units.get(missile).unwrap();
    assert_eq!(m.health, 0);
    assert_eq!(m.actions, 0);
    // One record on the target cell plus one on each cell within
    // Manhattan distance 2 of it.
    assert_eq!(game.damage_queue.len(), 1 + 12);
    assert_eq!(game.damage_queue[0].at, Position::new(4, 2));
    for rec in game.damage_queue.iter() {
        assert_eq!(rec.amount, 10);
        let d = (rec.at.x - 4).abs() + (rec.at.y - 2).abs();
        assert!(d <= 2);
    }
    for dx in -2i32..=2 {
        for dy in -2i32..=2 {
            let d = dx.abs() + dy.abs();
            if d >= 1 && d <= 2 {
                let p = Position::new(4 + dx, 2 + dy);
                assert!(game.damage_queue.iter().any(|r| r.at == p));
            }
        }
    }
    // Resolution removes the spent missile too, even though no record
    // fell on its own cell.
    bring_out_your_dead(&mut game);
    assert!(game.units.get(missile).is_none());
    assert!(game.board.entity_at(Position::new(2, 2)).is_none());
}

#[test]
fn double_hit_in_one_batch_never_goes_negative() {
    let mut game = fresh_game();
    let victim = game
        .spawn(SpawnData::new(UnitKind::Infantry, Team::Blue, Position::new(4, 4)))
        .unwrap();
    // Two hits of 1 against 2 health: dies exactly at zero.
    game.damage_queue.push(starless_tactics::game::DamageAtPos::new(Position::new(4, 4), 1));
    game.damage_queue.push(starless_tactics::game::DamageAtPos::new(Position::new(4, 4), 1));
    bring_out_your_dead(&mut game);
    assert!(game.units.get(victim).is_none());
    assert!(game.board.entity_at(Position::new(4, 4)).is_none());
    assert!(game.damage_queue.is_empty());
}

#[test]
fn overkill_is_floored_and_partial_damage_sticks() {
    let mut game = fresh_game();
    let tough = game
        .spawn(SpawnData::new(UnitKind::Humvee, Team::Blue, Position::new(3, 3)))
        .unwrap();
    game.damage_queue.push(starless_tactics::game::DamageAtPos::new(Position::new(3, 3), 1));
    bring_out_your_dead(&mut game);
    assert_eq!(game.units.get(tough).unwrap().health, 2);
    game.damage_queue.push(starless_tactics::game::DamageAtPos::new(Position::new(3, 3), 100));
    bring_out_your_dead(&mut game);
    assert!(game.units.get(tough).is_none());
}

#[test]
fn damage_on_empty_cell_is_silently_dropped() {
    let mut game = fresh_game();
    game.damage_queue.push(starless_tactics::game::DamageAtPos::new(Position::new(5, 5), 7));
    bring_out_your_dead(&mut game);
    assert!(game.damage_queue.is_empty());
}

#[test]
fn next_turn_single_team_comes_back_and_resets_actions() {
    let mut game = fresh_game();
    game.player = Team::Red;
    let h = game
        .spawn(SpawnData::new(UnitKind::Tank, Team::Red, Position::new(4, 4)))
        .unwrap();
    move_unit(&mut game, IntentToMove { entity: h, to: Position::new(4, 6) }).unwrap();
    assert_eq!(game.units.get(h).unwrap().actions, 0);
    // Only Red has units: a full cycle lands on Red again.
    assert!(game.next_turn());
    assert_eq!(game.player, Team::Red);
    assert_eq!(game.player_state, PlayerState::Selecting);
    assert_eq!(game.units.get(h).unwrap().actions, 2);
}

#[test]
fn next_turn_skips_teams_without_units() {
    let mut game = fresh_game();
    game.player = Team::Red;
    game.spawn(SpawnData::new(UnitKind::Tank, Team::Red, Position::new(4, 4))).unwrap();
    game.spawn(SpawnData::new(UnitKind::Tank, Team::Yellow, Position::new(6, 6))).unwrap();
    // Blue and Green are empty; Yellow is next with units.
    assert!(game.next_turn());
    assert_eq!(game.player, Team::Yellow);
}

#[test]
fn next_turn_with_no_units_is_game_over() {
    let mut game = fresh_game();
    assert!(!game.next_turn());
    assert_eq!(game.player_state, PlayerState::GameOver);
    assert_eq!(game.player, Team::White);
}

#[test]
fn ground_unit_cannot_move_onto_water() {
    let mut game = fresh_game();
    let h = game
        .spawn(SpawnData::new(UnitKind::Tank, Team::Red, Position::new(4, 4)))
        .unwrap();
    game.board.set_tile(Position::new(4, 5), Tile::new(TileKind::Ocean));
    let r = move_unit(&mut game, IntentToMove { entity: h, to: Position::new(4, 5) });
    assert_eq!(r.unwrap_err(), MoveError::DestinationUnreachable);
}

#[test]
fn freed_cell_can_be_spawned_on_and_old_handle_stays_dead() {
    let mut game = fresh_game();
    let tank = game
        .spawn(SpawnData::new(UnitKind::Tank, Team::Yellow, Position::new(4, 4)))
        .unwrap();
    let infantry = game
        .spawn(SpawnData::new(UnitKind::Infantry, Team::Blue, Position::new(4, 6)))
        .unwrap();
    attack_with_unit(&mut game, IntentToAttack { entity: tank, target_entity: infantry })
        .unwrap();
    bring_out_your_dead(&mut game);
    assert!(game.units.get(infantry).is_none());
    let replacement = game
        .spawn(SpawnData::new(UnitKind::Flag, Team::Green, Position::new(4, 6)))
        .unwrap();
    assert_ne!(replacement, infantry);
    assert!(game.units.get(infantry).is_none());
    assert_eq!(game.units.get(replacement).unwrap().kind, UnitKind::Flag);
}
