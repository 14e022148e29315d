use vstd::prelude::*;
use crate::position::{Position, spec_manhattan};
use crate::board::{Board, Dimension, spec_in_bounds, spec_index,
    lemma_index_in_range, lemma_index_injective};
use crate::entity::{Team, UnitKind, Unit, spec_base_unit, spec_next_team, get_next_team};
use crate::store::{EntityIndex, EntityStore, spec_team_alive};
use crate::circle::{ActionCircle, spec_circle_contains, spec_dist_is, spec_passable,
    lemma_dist_pred};
use crate::input::{Input, KeyCode, MouseButton};

verus! {

/// What the player is doing this frame; at most one unit is ever under
/// control, and GameOver is terminal.
#[derive(Debug, PartialEq, Eq, Structural, Copy, Clone)]
pub enum PlayerState {
    Selecting,
    Controlling(EntityIndex),
    Moving(EntityIndex),
    Attacking(EntityIndex),
    Building(EntityIndex),
    GameOver,
}

/// A queued hit: damage aimed at a cell, resolved against whoever
/// occupies the cell when the end-of-tick pass runs.
#[derive(Debug, PartialEq, Eq, Structural, Copy, Clone)]
pub struct DamageAtPos {
    pub at: Position,
    pub amount: u32,
}

impl DamageAtPos {
    pub fn new(at: Position, amount: u32) -> (r: Self)
        ensures
            r.at == at,
            r.amount == amount,
    {
        DamageAtPos { at, amount }
    }
}

/// The whole world state: whose turn it is, what the player is doing,
/// the board, the units, and the damage waiting to be resolved.
#[derive(Debug)]
pub struct Game {
    pub player_state: PlayerState,
    pub player: Team,
    pub board: Board,
    pub units: EntityStore,
    pub damage_queue: Vec<DamageAtPos>,
}

impl Game {
    /// The occupancy invariant: a cell's entry is populated exactly when
    /// a live unit stands there, and every live unit stands on the cell
    /// its position names. At most one unit per cell follows.
    pub open spec fn wf(self) -> bool {
        &&& self.board.wf()
        &&& forall|i: int| 0 <= i < self.board.entities@.len()
            ==> match #[trigger] self.board.entities@[i] {
                Some(h) => self.units.spec_contains(h)
                    && spec_in_bounds(self.board.size, self.units.spec_unit(h).position)
                    && spec_index(self.board.size, self.units.spec_unit(h).position) == i,
                None => true,
            }
        &&& forall|h: EntityIndex| #[trigger] self.units.spec_contains(h)
            ==> spec_in_bounds(self.board.size, self.units.spec_unit(h).position)
                && self.board.entities@[
                    spec_index(self.board.size, self.units.spec_unit(h).position)]
                    == Some(h)
    }

    /// A fresh world: an empty walled board, no units, an empty damage
    /// queue, and the selection state for the given starting team.
    pub fn new(size: Dimension, player: Team) -> (r: Self)
        requires
            size.valid(),
        ensures
            r.wf(),
            r.player_state == PlayerState::Selecting,
            r.player == player,
            r.board.size == size,
            forall|h: EntityIndex| !r.units.spec_contains(h),
            r.damage_queue@.len() == 0,
            forall|p: Position| spec_in_bounds(size, p)
                ==> r.board.spec_tile_at(p)
                    == crate::board::spec_initial_tile(size, p),
    {
        Game {
            player_state: PlayerState::Selecting,
            player,
            board: Board::new(size),
            units: EntityStore::new(),
            damage_queue: Vec::new(),
        }
    }
}

#[derive(Debug, PartialEq, Eq, Structural, Copy, Clone)]
pub struct SpawnData {
    pub kind: UnitKind,
    pub team: Team,
    pub position: Position,
}

impl SpawnData {
    pub fn new(kind: UnitKind, team: Team, position: Position) -> (r: Self)
        ensures
            r.kind == kind,
            r.team == team,
            r.position == position,
    {
        SpawnData { kind, team, position }
    }
}

#[derive(Debug, PartialEq, Eq, Structural, Copy, Clone)]
pub enum SpawnError {
    PositionOutOfBounds,
    PositionOccupied,
}

impl Game {
    /// Creates a unit of the kind's base stats at the given cell: fails
    /// when the cell is off the board or already holds a unit, and
    /// otherwise inserts the unit and marks the cell occupied.
    pub fn spawn(&mut self, data: SpawnData) -> (r: Result<EntityIndex, SpawnError>)
        requires
            old(self).wf(),
            data.kind != UnitKind::Unknown,
        ensures
            final(self).wf(),
            final(self).player_state == old(self).player_state,
            final(self).player == old(self).player,
            final(self).damage_queue == old(self).damage_queue,
            final(self).board.size == old(self).board.size,
            final(self).board.tiles == old(self).board.tiles,
            match r {
                Ok(h) => {
                    &&& spec_in_bounds(old(self).board.size, data.position)
                    &&& old(self).board.spec_entity_at(data.position) is None
                    &&& !old(self).units.spec_contains(h)
                    &&& final(self).units.spec_contains(h)
                    &&& final(self).units.spec_unit(h)
                        == spec_base_unit(data.kind, data.team, data.position)
                    &&& forall|g: EntityIndex| g != h
                        ==> final(self).units.spec_contains(g)
                            == old(self).units.spec_contains(g)
                    &&& forall|g: EntityIndex| g != h && old(self).units.spec_contains(g)
                        ==> final(self).units.spec_unit(g) == old(self).units.spec_unit(g)
                    &&& final(self).board.entities@ == old(self).board.entities@.update(
                        spec_index(old(self).board.size, data.position), Some(h))
                },
                Err(SpawnError::PositionOutOfBounds) => {
                    &&& !spec_in_bounds(old(self).board.size, data.position)
                    &&& *final(self) == *old(self)
                },
                Err(SpawnError::PositionOccupied) => {
                    &&& spec_in_bounds(old(self).board.size, data.position)
                    &&& old(self).board.spec_entity_at(data.position) is Some
                    &&& *final(self) == *old(self)
                },
            },
    {
        if !self.board.in_bounds(data.position) {
            return Err(SpawnError::PositionOutOfBounds);
        }
        if self.board.entity_at(data.position).is_some() {
            return Err(SpawnError::PositionOccupied);
        }
        let unit = Unit::new(data.kind, data.team, data.position);
        let entity = self.units.insert(unit);
        self.board.place(data.position, entity);
        proof {
            let dim = self.board.size;
            let pos = data.position;
            lemma_index_in_range(dim, pos);
            assert forall|i: int| 0 <= i < self.board.entities@.len()
                implies match #[trigger] self.board.entities@[i] {
                    Some(g) => self.units.spec_contains(g)
                        && spec_in_bounds(dim, self.units.spec_unit(g).position)
                        && spec_index(dim, self.units.spec_unit(g).position) == i,
                    None => true,
                } by {
                if i != spec_index(dim, pos) {
                    assert(self.board.entities@[i] == old(self).board.entities@[i]);
                    if old(self).board.entities@[i] is Some {
                        let g = old(self).board.entities@[i]->Some_0;
                        assert(old(self).units.spec_contains(g));
                        assert(g != entity);
                    }
                }
            }
            assert forall|g: EntityIndex| #[trigger] self.units.spec_contains(g)
                implies spec_in_bounds(dim, self.units.spec_unit(g).position)
                    && self.board.entities@[
                        spec_index(dim, self.units.spec_unit(g).position)] == Some(g) by {
                if g != entity {
                    assert(old(self).units.spec_contains(g));
                    let gp = old(self).units.spec_unit(g).position;
                    lemma_index_in_range(dim, gp);
                    assert(old(self).board.entities@[spec_index(dim, gp)] == Some(g));
                    assert(spec_index(dim, gp) != spec_index(dim, pos));
                }
            }
        }
        Ok(entity)
    }
}


#[derive(Debug, PartialEq, Eq, Structural, Copy, Clone)]
pub struct IntentToMove {
    pub entity: EntityIndex,
    pub to: Position,
}

#[derive(Debug, PartialEq, Eq, Structural, Copy, Clone)]
pub enum MoveError {
    UnitInvalid,
    UnitExhausted,
    TerrainIncompatible,
    DestinationOccupied,
    DestinationUnreachable,
}

/// Whether a Move of `e` to `to` passes every validation step: the
/// unit resolves, has actions left, the destination cell is free, and
/// the cell lies inside the unit's movement circle. Exactly when this
/// holds, `move_unit` succeeds.
pub open spec fn spec_move_allowed(
    board: Board, units: EntityStore, e: EntityIndex, to: Position,
) -> bool {
    &&& units.spec_contains(e)
    &&& units.spec_unit(e).actions > 0
    &&& !(spec_in_bounds(board.size, to) && board.spec_entity_at(to) is Some)
    &&& spec_circle_contains(board, Some(units.spec_unit(e).space),
        units.spec_unit(e).position, to, units.spec_unit(e).actions as nat)
}

/// The change a committed Move makes to the world `post`: the unit now
/// stands at `to` having paid exactly the path cost, every other unit is
/// untouched, and the occupancy entry moves with it.
pub open spec fn spec_move_effect(
    board: Board, units: EntityStore, post: Game, e: EntityIndex, to: Position,
) -> bool {
    &&& post.units.spec_contains(e)
    &&& (exists|c: nat|
        1 <= c <= units.spec_unit(e).actions
        && #[trigger] spec_dist_is(board, Some(units.spec_unit(e).space),
            units.spec_unit(e).position, to, c)
        && post.units.spec_unit(e)
            == (Unit {
                position: to,
                actions: (units.spec_unit(e).actions - c) as u32,
                ..units.spec_unit(e)
            }))
    &&& forall|g: EntityIndex| g != e
        ==> post.units.spec_contains(g) == units.spec_contains(g)
    &&& forall|g: EntityIndex| g != e && units.spec_contains(g)
        ==> post.units.spec_unit(g) == units.spec_unit(g)
    &&& post.board.entities@ == board.entities@
        .update(spec_index(board.size, units.spec_unit(e).position), None::<EntityIndex>)
        .update(spec_index(board.size, to), Some(e))
}

/// Validates and commits a Move intent: the unit walks to a free,
/// reachable cell and pays exactly the path cost the Action Circle
/// reports, never a flat amount. Nothing is changed on failure.
pub fn move_unit(game: &mut Game, intent: IntentToMove) -> (r: Result<(), MoveError>)
    requires
        old(game).wf(),
    ensures
        final(game).wf(),
        final(game).player_state == old(game).player_state,
        final(game).player == old(game).player,
        final(game).damage_queue == old(game).damage_queue,
        final(game).board.size == old(game).board.size,
        final(game).board.tiles == old(game).board.tiles,
        match r {
            Ok(()) => {
                &&& spec_move_allowed(old(game).board, old(game).units,
                    intent.entity, intent.to)
                &&& spec_move_effect(old(game).board, old(game).units, *final(game),
                    intent.entity, intent.to)
            },
            Err(MoveError::UnitInvalid) => {
                &&& !old(game).units.spec_contains(intent.entity)
                &&& *final(game) == *old(game)
            },
            Err(MoveError::UnitExhausted) => {
                &&& old(game).units.spec_contains(intent.entity)
                &&& old(game).units.spec_unit(intent.entity).actions == 0
                &&& *final(game) == *old(game)
            },
            Err(MoveError::DestinationOccupied) => {
                &&& old(game).units.spec_contains(intent.entity)
                &&& old(game).units.spec_unit(intent.entity).actions > 0
                &&& spec_in_bounds(old(game).board.size, intent.to)
                &&& old(game).board.spec_entity_at(intent.to) is Some
                &&& *final(game) == *old(game)
            },
            Err(MoveError::DestinationUnreachable) => {
                &&& old(game).units.spec_contains(intent.entity)
                &&& old(game).units.spec_unit(intent.entity).actions > 0
                &&& !(spec_in_bounds(old(game).board.size, intent.to)
                    && old(game).board.spec_entity_at(intent.to) is Some)
                &&& !spec_circle_contains(old(game).board,
                    Some(old(game).units.spec_unit(intent.entity).space),
                    old(game).units.spec_unit(intent.entity).position,
                    intent.to,
                    old(game).units.spec_unit(intent.entity).actions as nat)
                &&& *final(game) == *old(game)
            },
            // The circle is built from the same compatibility matrix the
            // defensive terrain re-check uses, so that check never fires.
            Err(MoveError::TerrainIncompatible) => false,
        },
{
    let entity = intent.entity;
    let u = match game.units.get(entity) {
        Some(u) => u,
        None => {
            return Err(MoveError::UnitInvalid);
        },
    };
    if u.actions == 0 {
        return Err(MoveError::UnitExhausted);
    }
    if game.board.entity_at(intent.to).is_some() {
        return Err(MoveError::DestinationOccupied);
    }
    let action_circle = ActionCircle::new(u.position, u.actions, Some(u.space), &game.board);
    let cost = match action_circle.cost_to(intent.to) {
        Some(cost) => cost,
        None => {
            proof {
                assert(!action_circle.spec_contains(intent.to));
            }
            return Err(MoveError::DestinationUnreachable);
        },
    };
    let tile = match game.board.tile_at(intent.to) {
        Some(tile) => tile,
        None => {
            // The circle only holds on-board cells.
            proof {
                assert(action_circle.spec_contains(intent.to));
                assert(false);
            }
            return Err(MoveError::DestinationUnreachable);
        },
    };
    if !u.space.can_traverse(tile.traverse()) {
        proof {
            // A cell inside the circle has a positive exact cost, so it
            // is passable, which is this very compatibility test.
            assert(spec_dist_is(game.board, Some(u.space), u.position, intent.to,
                cost as nat));
            lemma_dist_pred(game.board, Some(u.space), u.position, intent.to, cost as nat);
            assert(spec_passable(game.board, Some(u.space), intent.to));
            assert(false);
        }
        return Err(MoveError::TerrainIncompatible);
    }
    let from = u.position;
    game.board.clear(from);
    game.board.place(intent.to, entity);
    let moved = Unit { position: intent.to, actions: u.actions - cost, ..u };
    game.units.update_unit(entity, moved);
    proof {
        let dim = game.board.size;
        let to = intent.to;
        lemma_index_in_range(dim, from);
        lemma_index_in_range(dim, to);
        assert(u == old(game).units.spec_unit(entity));
        assert(action_circle.spec_contains(to));
        assert(spec_circle_contains(old(game).board, Some(u.space), u.position, to,
            u.actions as nat));
        assert(spec_in_bounds(dim, to));
        assert(old(game).board.spec_entity_at(to) is None);
        assert(1 <= cost as nat <= old(game).units.spec_unit(intent.entity).actions
            && spec_dist_is(old(game).board,
                Some(old(game).units.spec_unit(intent.entity).space),
                old(game).units.spec_unit(intent.entity).position, intent.to, cost as nat)
            && game.units.spec_unit(intent.entity)
                == (Unit {
                    position: intent.to,
                    actions: (old(game).units.spec_unit(intent.entity).actions
                        - cost as nat) as u32,
                    ..old(game).units.spec_unit(intent.entity)
                }));
        assert forall|i: int| 0 <= i < game.board.entities@.len()
            implies match #[trigger] game.board.entities@[i] {
                Some(g) => game.units.spec_contains(g)
                    && spec_in_bounds(dim, game.units.spec_unit(g).position)
                    && spec_index(dim, game.units.spec_unit(g).position) == i,
                None => true,
            } by {
            if i != spec_index(dim, from) && i != spec_index(dim, to) {
                assert(game.board.entities@[i] == old(game).board.entities@[i]);
                if old(game).board.entities@[i] is Some {
                    let g = old(game).board.entities@[i]->Some_0;
                    assert(old(game).units.spec_contains(g));
                    assert(spec_index(dim, old(game).units.spec_unit(g).position) == i);
                    assert(g != entity);
                }
            }
        }
        assert forall|g: EntityIndex| #[trigger] game.units.spec_contains(g)
            implies spec_in_bounds(dim, game.units.spec_unit(g).position)
                && game.board.entities@[
                    spec_index(dim, game.units.spec_unit(g).position)] == Some(g) by {
            if g == entity {
            } else {
                assert(old(game).units.spec_contains(g));
                let gp = old(game).units.spec_unit(g).position;
                lemma_index_in_range(dim, gp);
                assert(old(game).board.entities@[spec_index(dim, gp)] == Some(g));
                assert(spec_index(dim, gp) != spec_index(dim, from));
                assert(spec_index(dim, gp) != spec_index(dim, to));
            }
        }
    }
    Ok(())
}


#[derive(Debug, PartialEq, Eq, Structural, Copy, Clone)]
pub struct IntentToAttack {
    pub entity: EntityIndex,
    pub target_entity: EntityIndex,
}

#[derive(Debug, PartialEq, Eq, Structural, Copy, Clone)]
pub enum AttackError {
    UnitInvalid,
    UnitExhausted,
    TargetInvalid,
    TargetFriendly,
    TargetOutOfRange,
}

/// Whether an Attack by `e` on `t` passes every validation step, in the
/// order the engine checks them: distinct handles, both resolving, the
/// target inside the attacker's range circle, hostile, and the attacker
/// with actions left. Exactly when this holds, `attack_with_unit`
/// succeeds.
pub open spec fn spec_attack_allowed(
    board: Board, units: EntityStore, e: EntityIndex, t: EntityIndex,
) -> bool {
    &&& e != t
    &&& units.spec_contains(e)
    &&& units.spec_contains(t)
    &&& spec_circle_contains(board, Some(units.spec_unit(e).space),
        units.spec_unit(e).position, units.spec_unit(t).position,
        units.spec_unit(e).range as nat)
    &&& units.spec_unit(e).team != units.spec_unit(t).team
    &&& units.spec_unit(e).actions > 0
}

/// The change a committed Attack makes to the world `post`, given the
/// damage queue `queue` it started from: the attacker's turn ends (and a
/// missile-type attacker zeroes its own health at once), every other
/// unit and the board are untouched, and the queue grows by one record
/// on the target's cell — plus, for a missile, one record on each
/// distinct cell within Manhattan distance 2 of the target.
pub open spec fn spec_attack_effect(
    board: Board, units: EntityStore, queue: Seq<DamageAtPos>, post: Game,
    e: EntityIndex, t: EntityIndex,
) -> bool {
    &&& post.units.spec_contains(e)
    &&& (units.spec_unit(e).kind == UnitKind::Missile
        ==> post.units.spec_unit(e)
            == (Unit { health: 0, actions: 0, ..units.spec_unit(e) }))
    &&& (units.spec_unit(e).kind != UnitKind::Missile
        ==> post.units.spec_unit(e) == (Unit { actions: 0, ..units.spec_unit(e) }))
    &&& forall|g: EntityIndex| g != e
        ==> post.units.spec_contains(g) == units.spec_contains(g)
    &&& forall|g: EntityIndex| g != e && units.spec_contains(g)
        ==> post.units.spec_unit(g) == units.spec_unit(g)
    &&& post.board == board
    &&& post.damage_queue@.len() >= queue.len() + 1
    &&& forall|j: int| 0 <= j < queue.len() ==> post.damage_queue@[j] == queue[j]
    &&& post.damage_queue@[queue.len() as int]
        == (DamageAtPos {
            at: units.spec_unit(t).position,
            amount: units.spec_unit(e).damage,
        })
    &&& (units.spec_unit(e).kind != UnitKind::Missile
        ==> post.damage_queue@.len() == queue.len() + 1)
    &&& (forall|k: int| queue.len() + 1 <= k < post.damage_queue@.len()
        ==> (#[trigger] post.damage_queue@[k]).amount == units.spec_unit(e).damage
            && 1 <= spec_manhattan(units.spec_unit(t).position,
                post.damage_queue@[k].at) <= 2)
    &&& (units.spec_unit(e).kind == UnitKind::Missile
        ==> forall|p: Position|
            1 <= #[trigger] spec_manhattan(units.spec_unit(t).position, p) <= 2
            ==> exists|k: int| queue.len() + 1 <= k < post.damage_queue@.len()
                && (#[trigger] post.damage_queue@[k]).at == p)
    &&& (forall|k1: int, k2: int|
        queue.len() + 1 <= k1 < k2 < post.damage_queue@.len()
        ==> (#[trigger] post.damage_queue@[k1]).at
            != (#[trigger] post.damage_queue@[k2]).at)
}

/// Validates and commits an Attack intent. Damage is queued at the
/// target's cell rather than applied: the end-of-tick pass resolves it
/// against whoever stands there then. A missile-type attacker zeroes its
/// own health at once and queues splash damage on every cell within
/// Manhattan distance 2 of the target. An attack always ends the
/// attacker's turn. Nothing is changed on failure.
#[verifier::rlimit(100)]
#[verifier::spinoff_prover]
pub fn attack_with_unit(game: &mut Game, intent: IntentToAttack) -> (r: Result<(), AttackError>)
    requires
        old(game).wf(),
    ensures
        final(game).wf(),
        final(game).player_state == old(game).player_state,
        final(game).player == old(game).player,
        final(game).board == old(game).board,
        match r {
            Ok(()) => {
                &&& spec_attack_allowed(old(game).board, old(game).units,
                    intent.entity, intent.target_entity)
                &&& spec_attack_effect(old(game).board, old(game).units,
                    old(game).damage_queue@, *final(game),
                    intent.entity, intent.target_entity)
            },
            Err(AttackError::TargetFriendly) => {
                &&& (intent.entity == intent.target_entity
                    || (old(game).units.spec_contains(intent.entity)
                        && old(game).units.spec_contains(intent.target_entity)
                        && spec_circle_contains(old(game).board,
                            Some(old(game).units.spec_unit(intent.entity).space),
                            old(game).units.spec_unit(intent.entity).position,
                            old(game).units.spec_unit(intent.target_entity).position,
                            old(game).units.spec_unit(intent.entity).range as nat)
                        && old(game).units.spec_unit(intent.entity).team
                            == old(game).units.spec_unit(intent.target_entity).team))
                &&& *final(game) == *old(game)
            },
            Err(AttackError::UnitInvalid) => {
                &&& intent.entity != intent.target_entity
                &&& !old(game).units.spec_contains(intent.entity)
                &&& *final(game) == *old(game)
            },
            Err(AttackError::TargetInvalid) => {
                &&& intent.entity != intent.target_entity
                &&& old(game).units.spec_contains(intent.entity)
                &&& !old(game).units.spec_contains(intent.target_entity)
                &&& *final(game) == *old(game)
            },
            Err(AttackError::TargetOutOfRange) => {
                &&& intent.entity != intent.target_entity
                &&& old(game).units.spec_contains(intent.entity)
                &&& old(game).units.spec_contains(intent.target_entity)
                &&& !spec_circle_contains(old(game).board,
                    Some(old(game).units.spec_unit(intent.entity).space),
                    old(game).units.spec_unit(intent.entity).position,
                    old(game).units.spec_unit(intent.target_entity).position,
                    old(game).units.spec_unit(intent.entity).range as nat)
                &&& *final(game) == *old(game)
            },
            Err(AttackError::UnitExhausted) => {
                &&& intent.entity != intent.target_entity
                &&& old(game).units.spec_contains(intent.entity)
                &&& old(game).units.spec_contains(intent.target_entity)
                &&& spec_circle_contains(old(game).board,
                    Some(old(game).units.spec_unit(intent.entity).space),
                    old(game).units.spec_unit(intent.entity).position,
                    old(game).units.spec_unit(intent.target_entity).position,
                    old(game).units.spec_unit(intent.entity).range as nat)
                &&& old(game).units.spec_unit(intent.entity).team
                    != old(game).units.spec_unit(intent.target_entity).team
                &&& old(game).units.spec_unit(intent.entity).actions == 0
                &&& *final(game) == *old(game)
            },
        },
{
    if intent.entity == intent.target_entity {
        return Err(AttackError::TargetFriendly);
    }
    let (unit_opt, target_opt) = game.units.get2(intent.entity, intent.target_entity);
    let unit = match unit_opt {
        Some(u) => u,
        None => {
            return Err(AttackError::UnitInvalid);
        },
    };
    let target = match target_opt {
        Some(t) => t,
        None => {
            return Err(AttackError::TargetInvalid);
        },
    };
    let position = unit.position;
    let target_position = target.position;
    let action_circle = ActionCircle::new(position, unit.range, Some(unit.space),
        &game.board);
    if !action_circle.contains(target_position) {
        proof {
            assert(!action_circle.spec_contains(target_position));
        }
        return Err(AttackError::TargetOutOfRange);
    }
    if unit.team == target.team {
        return Err(AttackError::TargetFriendly);
    }
    if unit.actions == 0 {
        return Err(AttackError::UnitExhausted);
    }
    let ghost oq = game.damage_queue@;
    game.damage_queue.push(DamageAtPos::new(target_position, unit.damage));
    let ghost base = oq.len() + 1;
    let mut updated = unit;
    if unit.kind == UnitKind::Missile {
        updated.health = 0;
        proof {
            let dim = game.board.size;
            assert(dim.width <= 0x4000_0000 && dim.height <= 0x4000_0000)
                by (nonlinear_arith)
                requires
                    1 <= dim.width,
                    1 <= dim.height,
                    dim.width * dim.height <= 0x4000_0000,
            {
            }
            assert(spec_in_bounds(dim, target_position));
        }
        let explosion_radius = target_position.radius(2);
        let mut i: usize = 0;
        while i < explosion_radius.len()
            invariant
                game.units == old(game).units,
                game.board == old(game).board,
                game.player_state == old(game).player_state,
                game.player == old(game).player,
                base == oq.len() + 1,
                i <= explosion_radius@.len(),
                game.damage_queue@.len() == base + i,
                forall|j: int| 0 <= j < base ==> game.damage_queue@[j]
                    == oq.push(DamageAtPos { at: target_position, amount: unit.damage })[j],
                forall|k: int| base <= k < base + i
                    ==> #[trigger] game.damage_queue@[k]
                        == (DamageAtPos { at: explosion_radius@[k - base],
                            amount: unit.damage }),
                forall|q: Position| explosion_radius@.contains(q)
                    <==> 1 <= spec_manhattan(target_position, q) <= 2,
                forall|i1: int, i2: int| 0 <= i1 < i2 < explosion_radius@.len()
                    ==> explosion_radius@[i1] != explosion_radius@[i2],
            decreases explosion_radius@.len() - i,
        {
            game.damage_queue.push(DamageAtPos::new(explosion_radius[i], unit.damage));
            i = i + 1;
        }
        proof {
            let nq = game.damage_queue@;
            assert forall|p: Position| 1 <= #[trigger] spec_manhattan(target_position, p) <= 2
                implies exists|k: int| base <= k < nq.len()
                    && (#[trigger] nq[k]).at == p by {
                assert(explosion_radius@.contains(p));
                let j = choose|j: int| 0 <= j < explosion_radius@.len()
                    && explosion_radius@[j] == p;
                assert(nq[base + j].at == p);
            }
            assert forall|k: int| base <= k < nq.len()
                implies (#[trigger] nq[k]).amount == unit.damage
                    && 1 <= spec_manhattan(target_position, nq[k].at) <= 2 by {
                assert(nq[k].at == explosion_radius@[k - base]);
                assert(explosion_radius@.contains(explosion_radius@[k - base]));
            }
            assert forall|k1: int, k2: int| base <= k1 < k2 < nq.len()
                implies (#[trigger] nq[k1]).at != (#[trigger] nq[k2]).at by {
                assert(nq[k1].at == explosion_radius@[k1 - base]);
                assert(nq[k2].at == explosion_radius@[k2 - base]);
                assert(explosion_radius@[k1 - base] != explosion_radius@[k2 - base]);
            }
        }
    }
    updated.actions = 0;
    game.units.update_unit(intent.entity, updated);
    proof {
        let dim = game.board.size;
        assert forall|i: int| 0 <= i < game.board.entities@.len()
            implies match #[trigger] game.board.entities@[i] {
                Some(g) => game.units.spec_contains(g)
                    && spec_in_bounds(dim, game.units.spec_unit(g).position)
                    && spec_index(dim, game.units.spec_unit(g).position) == i,
                None => true,
            } by {
            if game.board.entities@[i] is Some {
                let g = game.board.entities@[i]->Some_0;
                assert(old(game).units.spec_contains(g));
                if g == intent.entity {
                    assert(game.units.spec_unit(g).position
                        == old(game).units.spec_unit(g).position);
                }
            }
        }
        assert forall|g: EntityIndex| #[trigger] game.units.spec_contains(g)
            implies spec_in_bounds(dim, game.units.spec_unit(g).position)
                && game.board.entities@[
                    spec_index(dim, game.units.spec_unit(g).position)] == Some(g) by {
            assert(old(game).units.spec_contains(g));
            if g == intent.entity {
                assert(game.units.spec_unit(g).position
                    == old(game).units.spec_unit(g).position);
            }
            lemma_index_in_range(dim, game.units.spec_unit(g).position);
        }
    }
    Ok(())
}


/// Total damage the queue aims at cell `p`.
pub open spec fn spec_damage_sum(q: Seq<DamageAtPos>, p: Position) -> int
    decreases q.len(),
{
    if q.len() == 0 {
        0
    } else {
        spec_damage_sum(q.drop_last(), p)
            + if q.last().at == p { q.last().amount as int } else { 0 }
    }
}

/// How many queued records aim at cell `p`.
spec fn spec_hit_count(q: Seq<DamageAtPos>, p: Position) -> int
    decreases q.len(),
{
    if q.len() == 0 {
        0
    } else {
        spec_hit_count(q.drop_last(), p) + if q.last().at == p { 1int } else { 0 }
    }
}

proof fn lemma_damage_sum_nonneg(q: Seq<DamageAtPos>, p: Position)
    ensures
        spec_damage_sum(q, p) >= 0,
        spec_hit_count(q, p) >= 0,
        spec_hit_count(q, p) == 0 ==> spec_damage_sum(q, p) == 0,
    decreases q.len(),
{
    if q.len() > 0 {
        lemma_damage_sum_nonneg(q.drop_last(), p);
    }
}

proof fn lemma_damage_sum_take(q: Seq<DamageAtPos>, p: Position, i: int)
    requires
        0 <= i < q.len(),
    ensures
        spec_damage_sum(q.take(i + 1), p) == spec_damage_sum(q.take(i), p)
            + (if q[i].at == p { q[i].amount as int } else { 0 }),
        spec_hit_count(q.take(i + 1), p) == spec_hit_count(q.take(i), p)
            + (if q[i].at == p { 1int } else { 0 }),
{
    assert(q.take(i + 1).drop_last() =~= q.take(i));
    assert(q.take(i + 1).last() == q[i]);
}

/// The end-of-tick pass: resolves each queued damage record against the
/// occupant of its cell at resolution time, floors health at zero, and
/// removes every unit whose health has reached zero from both the board
/// and the store. The queue is cleared unconditionally; records aimed at
/// empty cells are dropped silently.
pub fn bring_out_your_dead(game: &mut Game)
    requires
        old(game).wf(),
    ensures
        final(game).wf(),
        final(game).player_state == old(game).player_state,
        final(game).player == old(game).player,
        final(game).board.size == old(game).board.size,
        final(game).board.tiles == old(game).board.tiles,
        final(game).damage_queue@.len() == 0,
        forall|h: EntityIndex| #[trigger] final(game).units.spec_contains(h)
            <==> (old(game).units.spec_contains(h)
                && old(game).units.spec_unit(h).health > spec_damage_sum(
                    old(game).damage_queue@, old(game).units.spec_unit(h).position)),
        forall|h: EntityIndex| #[trigger] final(game).units.spec_contains(h)
            ==> final(game).units.spec_unit(h) == (Unit {
                health: (old(game).units.spec_unit(h).health - spec_damage_sum(
                    old(game).damage_queue@,
                    old(game).units.spec_unit(h).position)) as u32,
                ..old(game).units.spec_unit(h)
            }),
{
    let ghost oq = old(game).damage_queue@;
    let qlen = game.damage_queue.len();
    let mut di: usize = 0;
    while di < qlen
        invariant
            game.wf(),
            qlen == oq.len(),
            di <= qlen,
            game.damage_queue@ == oq,
            game.player_state == old(game).player_state,
            game.player == old(game).player,
            game.board.size == old(game).board.size,
            game.board.tiles == old(game).board.tiles,
            forall|h: EntityIndex| #[trigger] game.units.spec_contains(h)
                ==> old(game).units.spec_contains(h),
            forall|h: EntityIndex| #[trigger] old(game).units.spec_contains(h)
                ==> (game.units.spec_contains(h) <==>
                    (old(game).units.spec_unit(h).health > spec_damage_sum(
                        oq.take(di as int), old(game).units.spec_unit(h).position)
                    || (old(game).units.spec_unit(h).health == 0
                        && spec_hit_count(oq.take(di as int),
                            old(game).units.spec_unit(h).position) == 0))),
            forall|h: EntityIndex| #[trigger] game.units.spec_contains(h)
                ==> game.units.spec_unit(h) == (Unit {
                    health: (old(game).units.spec_unit(h).health - spec_damage_sum(
                        oq.take(di as int),
                        old(game).units.spec_unit(h).position)) as u32,
                    ..old(game).units.spec_unit(h)
                }),
        decreases qlen - di,
    {
        let rec = game.damage_queue[di];
        proof {
            assert(oq.take(di as int + 1) == oq.take(di as int + 1));
        }
        let ghost pre_units = game.units;
        let occupant = game.board.entity_at(rec.at);
        match occupant {
            Some(h) => {
                let u = match game.units.get(h) {
                    Some(u) => u,
                    None => {
                        proof {
                            let dim = game.board.size;
                            lemma_index_in_range(dim, rec.at);
                            assert(game.board.entities@[spec_index(dim, rec.at)]
                                == Some(h));
                            assert(false);
                        }
                        return;
                    },
                };
                proof {
                    let dim = game.board.size;
                    lemma_index_in_range(dim, rec.at);
                    lemma_index_in_range(dim, u.position);
                    lemma_index_injective(dim, u.position, rec.at);
                    assert(u.position == rec.at);
                }
                let dec = if rec.amount < u.health { rec.amount } else { u.health };
                let nh = u.health - dec;
                if nh == 0 {
                    game.board.clear(u.position);
                    game.units.remove(h);
                    proof {
                        let dim = game.board.size;
                        assert forall|i: int| 0 <= i < game.board.entities@.len()
                            implies match #[trigger] game.board.entities@[i] {
                                Some(g) => game.units.spec_contains(g)
                                    && spec_in_bounds(dim,
                                        game.units.spec_unit(g).position)
                                    && spec_index(dim,
                                        game.units.spec_unit(g).position) == i,
                                None => true,
                            } by {
                            if i != spec_index(dim, rec.at)
                                && game.board.entities@[i] is Some {
                                let g = game.board.entities@[i]->Some_0;
                                assert(pre_units.spec_contains(g));
                                assert(g != h);
                            }
                        }
                        assert forall|g: EntityIndex| #[trigger] game.units.spec_contains(g)
                            implies spec_in_bounds(dim, game.units.spec_unit(g).position)
                                && game.board.entities@[spec_index(dim,
                                    game.units.spec_unit(g).position)] == Some(g) by {
                            assert(g != h);
                            assert(pre_units.spec_contains(g));
                            let gp = game.units.spec_unit(g).position;
                            lemma_index_in_range(dim, gp);
                            assert(spec_index(dim, gp) != spec_index(dim, rec.at));
                        }
                    }
                } else {
                    let nu = Unit { health: nh, ..u };
                    game.units.update_unit(h, nu);
                    proof {
                        let dim = game.board.size;
                        assert forall|i: int| 0 <= i < game.board.entities@.len()
                            implies match #[trigger] game.board.entities@[i] {
                                Some(g) => game.units.spec_contains(g)
                                    && spec_in_bounds(dim,
                                        game.units.spec_unit(g).position)
                                    && spec_index(dim,
                                        game.units.spec_unit(g).position) == i,
                                None => true,
                            } by {
                            if game.board.entities@[i] is Some {
                                let g = game.board.entities@[i]->Some_0;
                                assert(pre_units.spec_contains(g));
                                if g == h {
                                    assert(game.units.spec_unit(g).position == u.position);
                                }
                            }
                        }
                        assert forall|g: EntityIndex| #[trigger] game.units.spec_contains(g)
                            implies spec_in_bounds(dim, game.units.spec_unit(g).position)
                                && game.board.entities@[spec_index(dim,
                                    game.units.spec_unit(g).position)] == Some(g) by {
                            assert(pre_units.spec_contains(g));
                            if g == h {
                                assert(game.units.spec_unit(g).position == u.position);
                            }
                        }
                    }
                }
                proof {
                    assert forall|g: EntityIndex| #[trigger] old(game).units.spec_contains(g)
                        implies (game.units.spec_contains(g) <==>
                            (old(game).units.spec_unit(g).health > spec_damage_sum(
                                oq.take(di as int + 1),
                                old(game).units.spec_unit(g).position)
                            || (old(game).units.spec_unit(g).health == 0
                                && spec_hit_count(oq.take(di as int + 1),
                                    old(game).units.spec_unit(g).position) == 0))) by {
                        let gp = old(game).units.spec_unit(g).position;
                        lemma_damage_sum_take(oq, gp, di as int);
                        lemma_damage_sum_nonneg(oq.take(di as int), gp);
                        if pre_units.spec_contains(g) {
                            if g == h {
                                assert(gp == rec.at);
                            } else {
                                assert(gp == pre_units.spec_unit(g).position);
                                if gp == rec.at {
                                    assert(old(game).board.size == game.board.size);
                                    assert(false);
                                }
                            }
                        }
                    }
                    assert forall|g: EntityIndex| #[trigger] game.units.spec_contains(g)
                        implies game.units.spec_unit(g) == (Unit {
                            health: (old(game).units.spec_unit(g).health - spec_damage_sum(
                                oq.take(di as int + 1),
                                old(game).units.spec_unit(g).position)) as u32,
                            ..old(game).units.spec_unit(g)
                        }) by {
                        let gp = old(game).units.spec_unit(g).position;
                        assert(old(game).units.spec_contains(g));
                        lemma_damage_sum_take(oq, gp, di as int);
                        lemma_damage_sum_nonneg(oq.take(di as int), gp);
                        lemma_damage_sum_nonneg(oq.take(di as int + 1), gp);
                        if g == h {
                            assert(pre_units.spec_contains(g));
                        } else {
                            assert(pre_units.spec_contains(g));
                            assert(gp == pre_units.spec_unit(g).position);
                            if gp == rec.at {
                                assert(false);
                            }
                        }
                    }
                }
            },
            None => {
                proof {
                    assert forall|g: EntityIndex| #[trigger] old(game).units.spec_contains(g)
                        implies (game.units.spec_contains(g) <==>
                            (old(game).units.spec_unit(g).health > spec_damage_sum(
                                oq.take(di as int + 1),
                                old(game).units.spec_unit(g).position)
                            || (old(game).units.spec_unit(g).health == 0
                                && spec_hit_count(oq.take(di as int + 1),
                                    old(game).units.spec_unit(g).position) == 0))) by {
                        let gp = old(game).units.spec_unit(g).position;
                        lemma_damage_sum_take(oq, gp, di as int);
                        lemma_damage_sum_nonneg(oq.take(di as int), gp);
                        if game.units.spec_contains(g) && gp == rec.at {
                            let dim = game.board.size;
                            lemma_index_in_range(dim, gp);
                            assert(game.board.entities@[spec_index(dim, gp)] == Some(g));
                            assert(false);
                        }
                    }
                    assert forall|g: EntityIndex| #[trigger] game.units.spec_contains(g)
                        implies game.units.spec_unit(g) == (Unit {
                            health: (old(game).units.spec_unit(g).health - spec_damage_sum(
                                oq.take(di as int + 1),
                                old(game).units.spec_unit(g).position)) as u32,
                            ..old(game).units.spec_unit(g)
                        }) by {
                        let gp = old(game).units.spec_unit(g).position;
                        assert(old(game).units.spec_contains(g));
                        lemma_damage_sum_take(oq, gp, di as int);
                        lemma_damage_sum_nonneg(oq.take(di as int), gp);
                        lemma_damage_sum_nonneg(oq.take(di as int + 1), gp);
                        if gp == rec.at {
                            let dim = game.board.size;
                            lemma_index_in_range(dim, gp);
                            assert(game.board.entities@[spec_index(dim, gp)] == Some(g));
                            assert(false);
                        }
                    }
                }
            },
        }
        di = di + 1;
    }
    // Any unit whose health has reached zero without a record landing on
    // its cell this pass, such as a spent missile, is swept out as well.
    let ghost mid = game.units;
    let slot_count = game.units.slots.len();
    let mut si: usize = 0;
    while si < slot_count
        invariant
            game.wf(),
            game.damage_queue@ == oq,
            game.player_state == old(game).player_state,
            game.player == old(game).player,
            game.board.size == old(game).board.size,
            game.board.tiles == old(game).board.tiles,
            slot_count == game.units.slots@.len(),
            si <= slot_count,
            forall|h: EntityIndex| #[trigger] game.units.spec_contains(h)
                ==> mid.spec_contains(h)
                    && game.units.spec_unit(h) == mid.spec_unit(h),
            forall|h: EntityIndex| #[trigger] mid.spec_contains(h)
                ==> (game.units.spec_contains(h)
                    <==> (mid.spec_unit(h).health > 0 || h.slot >= si)),
        decreases slot_count - si,
    {
        if game.units.slots[si].live && game.units.slots[si].unit.health == 0 {
            let generation = game.units.slots[si].generation;
            let h = EntityIndex { slot: si, generation };
            let u = match game.units.get(h) {
                Some(u) => u,
                None => {
                    proof {
                        assert(false);
                    }
                    return;
                },
            };
            let ghost pre_units = game.units;
            game.board.clear(u.position);
            game.units.remove(h);
            proof {
                let dim = game.board.size;
                lemma_index_in_range(dim, u.position);
                assert(!game.units.spec_contains(h));
                assert forall|i: int| 0 <= i < game.board.entities@.len()
                    implies match #[trigger] game.board.entities@[i] {
                        Some(g) => game.units.spec_contains(g)
                            && spec_in_bounds(dim, game.units.spec_unit(g).position)
                            && spec_index(dim, game.units.spec_unit(g).position) == i,
                        None => true,
                    } by {
                    if i != spec_index(dim, u.position)
                        && game.board.entities@[i] is Some {
                        let g = game.board.entities@[i]->Some_0;
                        assert(pre_units.spec_contains(g));
                        assert(g != h);
                    }
                }
                assert forall|g: EntityIndex| #[trigger] game.units.spec_contains(g)
                    implies spec_in_bounds(dim, game.units.spec_unit(g).position)
                        && game.board.entities@[spec_index(dim,
                            game.units.spec_unit(g).position)] == Some(g) by {
                    assert(g != h);
                    assert(pre_units.spec_contains(g));
                    let gp = game.units.spec_unit(g).position;
                    lemma_index_in_range(dim, gp);
                    assert(spec_index(dim, gp) != spec_index(dim, u.position));
                }
                assert forall|g: EntityIndex| #[trigger] mid.spec_contains(g)
                    implies (game.units.spec_contains(g)
                        <==> (mid.spec_unit(g).health > 0 || g.slot >= si + 1)) by {
                    if g.slot == si {
                        if g == h {
                        } else {
                            assert(!pre_units.spec_contains(g));
                        }
                    }
                }
            }
        } else {
            proof {
                assert forall|g: EntityIndex| #[trigger] mid.spec_contains(g)
                    implies (game.units.spec_contains(g)
                        <==> (mid.spec_unit(g).health > 0 || g.slot >= si + 1)) by {
                    if g.slot == si && game.units.spec_contains(g) {
                        assert(game.units.spec_unit(g).health
                            == game.units.slots@[si as int].unit.health);
                    }
                }
            }
        }
        si = si + 1;
    }
    game.damage_queue.clear();
    proof {
        assert(oq.take(oq.len() as int) =~= oq);
        assert forall|h: EntityIndex| #[trigger] game.units.spec_contains(h)
            <==> (old(game).units.spec_contains(h)
                && old(game).units.spec_unit(h).health > spec_damage_sum(
                    oq, old(game).units.spec_unit(h).position)) by {
            let gp = old(game).units.spec_unit(h).position;
            lemma_damage_sum_nonneg(oq, gp);
            if game.units.spec_contains(h) {
                assert(mid.spec_contains(h));
                assert(mid.spec_unit(h).health > 0);
            } else {
                if old(game).units.spec_contains(h)
                    && old(game).units.spec_unit(h).health > spec_damage_sum(oq, gp) {
                    assert(mid.spec_contains(h));
                    assert(mid.spec_unit(h).health > 0);
                    assert(false);
                }
            }
        }
    }
}


/// The first team with surviving units among the next `n` teams in
/// cyclic order after `from`; None when none of them has any.
pub open spec fn spec_scan_team(store: EntityStore, from: Team, n: nat) -> Option<Team>
    decreases n,
{
    if n == 0 {
        None
    } else if spec_team_alive(store, spec_next_team(from)) {
        Some(spec_next_team(from))
    } else {
        spec_scan_team(store, spec_next_team(from), (n - 1) as nat)
    }
}

impl Game {
    /// Advances to the next team in cyclic order that still has units,
    /// skipping empty teams; a full cycle may come back to the same team.
    /// The new team's units get their action points back and play returns
    /// to selection. When no team has units left the game is over, the
    /// cycle halts, and false is returned.
    pub fn next_turn(&mut self) -> (r: bool)
        requires
            old(self).wf(),
        ensures
            final(self).wf(),
            final(self).board == old(self).board,
            final(self).damage_queue == old(self).damage_queue,
            match spec_scan_team(old(self).units, old(self).player, 8) {
                Some(t) => {
                    &&& r
                    &&& final(self).player == t
                    &&& final(self).player_state == PlayerState::Selecting
                    &&& forall|g: EntityIndex| final(self).units.spec_contains(g)
                        == old(self).units.spec_contains(g)
                    &&& forall|g: EntityIndex| old(self).units.spec_contains(g)
                        ==> final(self).units.spec_unit(g)
                            == if old(self).units.spec_unit(g).team == t {
                                Unit {
                                    actions: old(self).units.spec_unit(g).actions_max,
                                    ..old(self).units.spec_unit(g)
                                }
                            } else {
                                old(self).units.spec_unit(g)
                            }
                },
                None => {
                    &&& !r
                    &&& final(self).player == old(self).player
                    &&& final(self).player_state == PlayerState::GameOver
                    &&& final(self).units == old(self).units
                },
            },
    {
        let mut t = self.player;
        let mut j: u32 = 0;
        let mut found = false;
        while j < 8 && !found
            invariant
                *self == *old(self),
                j <= 8,
                !found ==> spec_scan_team(self.units, self.player, 8)
                    == spec_scan_team(self.units, t, (8 - j) as nat),
                found ==> spec_scan_team(self.units, self.player, 8) == Some(t),
            decreases 8 - j,
        {
            t = get_next_team(t);
            if self.units.team_has_units(t) {
                found = true;
            }
            j = j + 1;
        }
        if found {
            self.player = t;
            self.player_state = PlayerState::Selecting;
            let ghost pre_units = self.units;
            self.units.reset_actions_for_team(t);
            proof {
                let dim = self.board.size;
                assert forall|i: int| 0 <= i < self.board.entities@.len()
                    implies match #[trigger] self.board.entities@[i] {
                        Some(g) => self.units.spec_contains(g)
                            && spec_in_bounds(dim, self.units.spec_unit(g).position)
                            && spec_index(dim, self.units.spec_unit(g).position) == i,
                        None => true,
                    } by {
                    if self.board.entities@[i] is Some {
                        let g = self.board.entities@[i]->Some_0;
                        assert(pre_units.spec_contains(g));
                        assert(self.units.spec_unit(g).position
                            == pre_units.spec_unit(g).position);
                    }
                }
                assert forall|g: EntityIndex| #[trigger] self.units.spec_contains(g)
                    implies spec_in_bounds(dim, self.units.spec_unit(g).position)
                        && self.board.entities@[spec_index(dim,
                            self.units.spec_unit(g).position)] == Some(g) by {
                    assert(pre_units.spec_contains(g));
                    assert(self.units.spec_unit(g).position
                        == pre_units.spec_unit(g).position);
                }
            }
            true
        } else {
            self.player_state = PlayerState::GameOver;
            false
        }
    }
}


/// The state the cancel and mode keys select this frame from a state
/// with a unit under control, if any: Escape drops back to selection,
/// and the keys for the other sub-states switch to them carrying the
/// same unit. Selection and Game Over answer to no such key.
pub open spec fn spec_mode_key_target(input: Input, s: PlayerState) -> Option<PlayerState> {
    match s {
        PlayerState::Controlling(e) => if input.spec_key_down(KeyCode::Escape) {
            Some(PlayerState::Selecting)
        } else if input.spec_key_down(KeyCode::M) {
            Some(PlayerState::Moving(e))
        } else if input.spec_key_down(KeyCode::A) {
            Some(PlayerState::Attacking(e))
        } else if input.spec_key_down(KeyCode::B) {
            Some(PlayerState::Building(e))
        } else {
            None
        },
        PlayerState::Moving(e) => if input.spec_key_down(KeyCode::Escape) {
            Some(PlayerState::Selecting)
        } else if input.spec_key_down(KeyCode::A) {
            Some(PlayerState::Attacking(e))
        } else if input.spec_key_down(KeyCode::B) {
            Some(PlayerState::Building(e))
        } else {
            None
        },
        PlayerState::Attacking(e) => if input.spec_key_down(KeyCode::Escape) {
            Some(PlayerState::Selecting)
        } else if input.spec_key_down(KeyCode::M) {
            Some(PlayerState::Moving(e))
        } else if input.spec_key_down(KeyCode::B) {
            Some(PlayerState::Building(e))
        } else {
            None
        },
        PlayerState::Building(e) => if input.spec_key_down(KeyCode::Escape) {
            Some(PlayerState::Selecting)
        } else if input.spec_key_down(KeyCode::M) {
            Some(PlayerState::Moving(e))
        } else if input.spec_key_down(KeyCode::A) {
            Some(PlayerState::Attacking(e))
        } else {
            None
        },
        PlayerState::Selecting => None,
        PlayerState::GameOver => None,
    }
}

/// Where a left click in selection leads: to control of the clicked
/// unit when the cell under the pointer holds a unit of the acting
/// team, and back to selection otherwise.
pub open spec fn spec_selection_outcome(
    board: Board, units: EntityStore, player: Team, input: Input,
) -> PlayerState {
    if input.spec_button_down(MouseButton::Left)
        && spec_in_bounds(board.size, input.mouse.world_pos)
        && board.spec_entity_at(input.mouse.world_pos) is Some
        && units.spec_unit(board.spec_entity_at(input.mouse.world_pos)->Some_0).team
            == player {
        PlayerState::Controlling(board.spec_entity_at(input.mouse.world_pos)->Some_0)
    } else {
        PlayerState::Selecting
    }
}

/// The damage queue after the debug key's check: one flat record of 100
/// on the pointed-at cell when Delete went down, else unchanged.
pub open spec fn spec_queue_after_delete(
    queue: Seq<DamageAtPos>, input: Input,
) -> Seq<DamageAtPos> {
    if input.spec_key_down(KeyCode::Delete) {
        queue.push(DamageAtPos { at: input.mouse.world_pos, amount: 100 })
    } else {
        queue
    }
}

/// What the caller must do after a frame's dispatch: nothing, or open
/// the spawn menu at a cell.
#[derive(Debug, PartialEq, Eq, Structural, Copy, Clone)]
pub enum FrameAction {
    Idle,
    OpenSpawnMenu(Position),
}

/// One frame of the player state machine: advances the turn on its key,
/// queues debug damage, reports a right click as a request to open the
/// spawn menu, and otherwise routes clicks and keys through the current
/// player state, issuing at most one command. A command failure that
/// means the controlled unit is gone or spent drops back to selection;
/// other failures leave the state for a retry.
#[verifier::rlimit(100)]
#[verifier::spinoff_prover]
pub fn read_input(game: &mut Game, input: &Input) -> (r: FrameAction)
    requires
        old(game).wf(),
        input.wf(),
    ensures
        final(game).wf(),
        final(game).board.size == old(game).board.size,
        final(game).board.tiles == old(game).board.tiles,
        forall|h: EntityIndex| final(game).units.spec_contains(h)
            == old(game).units.spec_contains(h),
        r == if input.spec_button_down(MouseButton::Right)
            && !(input.spec_key_down(KeyCode::O)
                && spec_scan_team(old(game).units, old(game).player, 8) is None) {
            FrameAction::OpenSpawnMenu(input.mouse.world_pos)
        } else {
            FrameAction::Idle
        },
        // A turn advance with nobody left ends the game and the frame
        // at once.
        input.spec_key_down(KeyCode::O)
            && spec_scan_team(old(game).units, old(game).player, 8) is None
            ==> final(game).player_state == PlayerState::GameOver
                && final(game).player == old(game).player
                && final(game).units == old(game).units
                && final(game).damage_queue == old(game).damage_queue,
        !input.spec_key_down(KeyCode::O) ==> final(game).player == old(game).player,
        // A turn advance with a team left installs it and refills its
        // action points; dispatch then starts from selection, which
        // issues no command, so nothing later this frame touches a unit.
        input.spec_key_down(KeyCode::O)
            ==> match spec_scan_team(old(game).units, old(game).player, 8) {
                Some(t) => final(game).player == t
                    && (forall|g: EntityIndex| old(game).units.spec_contains(g)
                        ==> final(game).units.spec_unit(g)
                            == if old(game).units.spec_unit(g).team == t {
                                Unit {
                                    actions: old(game).units.spec_unit(g).actions_max,
                                    ..old(game).units.spec_unit(g)
                                }
                            } else {
                                old(game).units.spec_unit(g)
                            }),
                None => true,
            },
        // A right click hands the spawn-menu request back before any
        // command is issued; only the turn advance and the debug damage
        // key have acted.
        input.spec_button_down(MouseButton::Right)
            && !(input.spec_key_down(KeyCode::O)
                && spec_scan_team(old(game).units, old(game).player, 8) is None)
            ==> final(game).player_state == (if input.spec_key_down(KeyCode::O) {
                    PlayerState::Selecting
                } else {
                    old(game).player_state
                })
                && final(game).damage_queue@
                    == spec_queue_after_delete(old(game).damage_queue@, *input)
                && final(game).board == old(game).board
                && (!input.spec_key_down(KeyCode::O)
                    ==> final(game).units == old(game).units),
        // The dispatch through the player state the frame starts from:
        // after a successful turn advance that is selection, otherwise
        // the state carried in.
        !(input.spec_key_down(KeyCode::O)
            && spec_scan_team(old(game).units, old(game).player, 8) is None)
            && !input.spec_button_down(MouseButton::Right)
            ==> match (if input.spec_key_down(KeyCode::O) {
                PlayerState::Selecting
            } else {
                old(game).player_state
            }) {
                PlayerState::Selecting => {
                    &&& final(game).player_state == spec_selection_outcome(
                        old(game).board, old(game).units, final(game).player, *input)
                    &&& final(game).damage_queue@
                        == spec_queue_after_delete(old(game).damage_queue@, *input)
                    &&& final(game).board == old(game).board
                    &&& (!input.spec_key_down(KeyCode::O)
                        ==> final(game).units == old(game).units)
                },
                PlayerState::Controlling(e) => {
                    &&& final(game).player_state == match spec_mode_key_target(
                        *input, PlayerState::Controlling(e)) {
                        Some(s2) => s2,
                        None => PlayerState::Controlling(e),
                    }
                    &&& final(game).damage_queue@
                        == spec_queue_after_delete(old(game).damage_queue@, *input)
                    &&& final(game).board == old(game).board
                    &&& final(game).units == old(game).units
                },
                PlayerState::Moving(e) => {
                    &&& final(game).damage_queue@
                        == spec_queue_after_delete(old(game).damage_queue@, *input)
                    &&& match spec_mode_key_target(*input, PlayerState::Moving(e)) {
                        Some(s2) => final(game).player_state == s2
                            && final(game).units == old(game).units
                            && final(game).board == old(game).board,
                        None => if input.spec_button_down(MouseButton::Left) {
                            // The click issues the Move command; a gone
                            // or spent unit, or a success that spends
                            // it, drops back to selection; the other
                            // failures leave the state for a retry.
                            &&& final(game).player_state == (
                                if !old(game).units.spec_contains(e) {
                                    PlayerState::Selecting
                                } else if old(game).units.spec_unit(e).actions == 0 {
                                    PlayerState::Selecting
                                } else if spec_move_allowed(old(game).board,
                                        old(game).units, e, input.mouse.world_pos)
                                    && final(game).units.spec_unit(e).actions == 0 {
                                    PlayerState::Selecting
                                } else {
                                    PlayerState::Moving(e)
                                })
                            &&& (spec_move_allowed(old(game).board, old(game).units,
                                    e, input.mouse.world_pos)
                                ==> spec_move_effect(old(game).board, old(game).units,
                                    *final(game), e, input.mouse.world_pos))
                            &&& (!spec_move_allowed(old(game).board, old(game).units,
                                    e, input.mouse.world_pos)
                                ==> final(game).units == old(game).units
                                    && final(game).board == old(game).board)
                        } else {
                            &&& final(game).player_state == PlayerState::Moving(e)
                            &&& final(game).units == old(game).units
                            &&& final(game).board == old(game).board
                        },
                    }
                },
                PlayerState::Attacking(e) => {
                    match spec_mode_key_target(*input, PlayerState::Attacking(e)) {
                        Some(s2) => final(game).player_state == s2
                            && final(game).units == old(game).units
                            && final(game).board == old(game).board
                            && final(game).damage_queue@
                                == spec_queue_after_delete(old(game).damage_queue@, *input),
                        None => if input.spec_button_down(MouseButton::Left)
                            && spec_in_bounds(old(game).board.size, input.mouse.world_pos)
                            && old(game).board.spec_entity_at(input.mouse.world_pos)
                                is Some {
                            // The click issues the Attack command on the
                            // clicked occupant; a gone or spent attacker,
                            // or a success (which always spends it),
                            // drops back to selection; the other failures
                            // leave the state for a retry.
                            &&& final(game).player_state == (
                                if e == old(game).board.spec_entity_at(
                                        input.mouse.world_pos)->Some_0 {
                                    PlayerState::Attacking(e)
                                } else if !old(game).units.spec_contains(e) {
                                    PlayerState::Selecting
                                } else if !old(game).units.spec_contains(
                                        old(game).board.spec_entity_at(
                                            input.mouse.world_pos)->Some_0) {
                                    PlayerState::Attacking(e)
                                } else if !spec_circle_contains(old(game).board,
                                        Some(old(game).units.spec_unit(e).space),
                                        old(game).units.spec_unit(e).position,
                                        old(game).units.spec_unit(
                                            old(game).board.spec_entity_at(
                                                input.mouse.world_pos)->Some_0).position,
                                        old(game).units.spec_unit(e).range as nat) {
                                    PlayerState::Attacking(e)
                                } else if old(game).units.spec_unit(e).team
                                    == old(game).units.spec_unit(
                                        old(game).board.spec_entity_at(
                                            input.mouse.world_pos)->Some_0).team {
                                    PlayerState::Attacking(e)
                                } else {
                                    PlayerState::Selecting
                                })
                            &&& (spec_attack_allowed(old(game).board, old(game).units,
                                    e, old(game).board.spec_entity_at(
                                        input.mouse.world_pos)->Some_0)
                                ==> spec_attack_effect(old(game).board, old(game).units,
                                    spec_queue_after_delete(old(game).damage_queue@,
                                        *input),
                                    *final(game), e,
                                    old(game).board.spec_entity_at(
                                        input.mouse.world_pos)->Some_0))
                            &&& (!spec_attack_allowed(old(game).board, old(game).units,
                                    e, old(game).board.spec_entity_at(
                                        input.mouse.world_pos)->Some_0)
                                ==> final(game).units == old(game).units
                                    && final(game).damage_queue@
                                        == spec_queue_after_delete(
                                            old(game).damage_queue@, *input))
                            &&& final(game).board == old(game).board
                        } else {
                            &&& final(game).player_state == PlayerState::Attacking(e)
                            &&& final(game).units == old(game).units
                            &&& final(game).board == old(game).board
                            &&& final(game).damage_queue@
                                == spec_queue_after_delete(old(game).damage_queue@, *input)
                        },
                    }
                },
                PlayerState::Building(e) => {
                    &&& final(game).damage_queue@
                        == spec_queue_after_delete(old(game).damage_queue@, *input)
                    &&& final(game).units == old(game).units
                    &&& final(game).board == old(game).board
                    &&& final(game).player_state == match spec_mode_key_target(
                        *input, PlayerState::Building(e)) {
                        Some(s2) => s2,
                        None => if input.spec_button_down(MouseButton::Left) {
                            PlayerState::Selecting
                        } else {
                            PlayerState::Building(e)
                        },
                    }
                },
                PlayerState::GameOver => {
                    &&& final(game).player_state == PlayerState::GameOver
                    &&& final(game).units == old(game).units
                    &&& final(game).board == old(game).board
                    &&& final(game).damage_queue@
                        == spec_queue_after_delete(old(game).damage_queue@, *input)
                },
            },
{
    let world_pos = input.mouse().world_pos;

    if input.key(KeyCode::O).down {
        if !game.next_turn() {
            return FrameAction::Idle;
        }
    }

    if input.key(KeyCode::Delete).down {
        game.damage_queue.push(DamageAtPos::new(world_pos, 100));
    }

    if input.button(MouseButton::Right).down {
        return FrameAction::OpenSpawnMenu(world_pos);
    }

    match game.player_state {
        PlayerState::Selecting => {
            if input.button(MouseButton::Left).down {
                match game.board.entity_at(world_pos) {
                    Some(entity) => {
                        let unit = match game.units.get(entity) {
                            Some(u) => u,
                            None => {
                                proof {
                                    let dim = game.board.size;
                                    lemma_index_in_range(dim, world_pos);
                                    assert(game.board.entities@[
                                        spec_index(dim, world_pos)] == Some(entity));
                                    assert(false);
                                }
                                return FrameAction::Idle;
                            },
                        };
                        proof {
                            let dim = game.board.size;
                            lemma_index_in_range(dim, world_pos);
                            assert(game.board.entities@[spec_index(dim, world_pos)]
                                == Some(entity));
                            assert(old(game).board.entities@
                                == game.board.entities@);
                            assert(old(game).units.spec_contains(entity));
                            assert(game.units.spec_unit(entity).team
                                == old(game).units.spec_unit(entity).team);
                        }
                        if unit.team == game.player {
                            game.player_state = PlayerState::Controlling(entity);
                        }
                    },
                    None => {},
                }
            }
        },
        PlayerState::Controlling(entity) => {
            if input.key(KeyCode::Escape).down {
                game.player_state = PlayerState::Selecting;
                return FrameAction::Idle;
            }
            if input.key(KeyCode::M).down {
                game.player_state = PlayerState::Moving(entity);
                return FrameAction::Idle;
            }
            if input.key(KeyCode::A).down {
                game.player_state = PlayerState::Attacking(entity);
                return FrameAction::Idle;
            }
            if input.key(KeyCode::B).down {
                game.player_state = PlayerState::Building(entity);
                return FrameAction::Idle;
            }
        },
        PlayerState::Moving(entity) => {
            if input.key(KeyCode::Escape).down {
                game.player_state = PlayerState::Selecting;
                return FrameAction::Idle;
            }
            if input.key(KeyCode::A).down {
                game.player_state = PlayerState::Attacking(entity);
                return FrameAction::Idle;
            }
            if input.key(KeyCode::B).down {
                game.player_state = PlayerState::Building(entity);
                return FrameAction::Idle;
            }
            if input.button(MouseButton::Left).down {
                let intent = IntentToMove { entity, to: world_pos };
                let result = move_unit(game, intent);
                match result {
                    Ok(()) => {
                        let unit = match game.units.get(entity) {
                            Some(u) => u,
                            None => {
                                proof {
                                    assert(false);
                                }
                                return FrameAction::Idle;
                            },
                        };
                        if unit.actions == 0 {
                            game.player_state = PlayerState::Selecting;
                        }
                        proof {
                            assert(spec_move_allowed(old(game).board, old(game).units,
                                entity, world_pos));
                            assert(spec_move_effect(old(game).board, old(game).units,
                                *game, entity, world_pos));
                        }
                    },
                    Err(error) => {
                        match error {
                            MoveError::UnitInvalid | MoveError::UnitExhausted => {
                                game.player_state = PlayerState::Selecting;
                            },
                            _ => {},
                        }
                        proof {
                            assert(!spec_move_allowed(old(game).board, old(game).units,
                                entity, world_pos));
                        }
                    },
                }
            }
        },
        PlayerState::Attacking(entity) => {
            if input.key(KeyCode::Escape).down {
                game.player_state = PlayerState::Selecting;
                return FrameAction::Idle;
            }
            if input.key(KeyCode::M).down {
                game.player_state = PlayerState::Moving(entity);
                return FrameAction::Idle;
            }
            if input.key(KeyCode::B).down {
                game.player_state = PlayerState::Building(entity);
                return FrameAction::Idle;
            }
            if input.button(MouseButton::Left).down {
                match game.board.entity_at(world_pos) {
                    Some(target_entity) => {
                        proof {
                            let dim = game.board.size;
                            lemma_index_in_range(dim, world_pos);
                            assert(old(game).board.spec_entity_at(world_pos)
                                == Some(target_entity));
                        }
                        let intent = IntentToAttack { entity, target_entity };
                        let result = attack_with_unit(game, intent);
                        match result {
                            Ok(()) => {
                                let unit = match game.units.get(entity) {
                                    Some(u) => u,
                                    None => {
                                        proof {
                                            assert(false);
                                        }
                                        return FrameAction::Idle;
                                    },
                                };
                                if unit.actions == 0 {
                                    game.player_state = PlayerState::Selecting;
                                }
                                proof {
                                    assert(spec_attack_allowed(old(game).board,
                                        old(game).units, entity, target_entity));
                                    assert(spec_attack_effect(old(game).board,
                                        old(game).units,
                                        spec_queue_after_delete(
                                            old(game).damage_queue@, *input),
                                        *game, entity, target_entity));
                                }
                            },
                            Err(error) => {
                                match error {
                                    AttackError::UnitInvalid
                                    | AttackError::UnitExhausted => {
                                        game.player_state = PlayerState::Selecting;
                                    },
                                    _ => {},
                                }
                                proof {
                                    assert(!spec_attack_allowed(old(game).board,
                                        old(game).units, entity, target_entity));
                                }
                            },
                        }
                    },
                    None => {},
                }
            }
        },
        PlayerState::Building(entity) => {
            if input.key(KeyCode::Escape).down {
                game.player_state = PlayerState::Selecting;
                return FrameAction::Idle;
            }
            if input.key(KeyCode::M).down {
                game.player_state = PlayerState::Moving(entity);
                return FrameAction::Idle;
            }
            if input.key(KeyCode::A).down {
                game.player_state = PlayerState::Attacking(entity);
                return FrameAction::Idle;
            }
            if input.button(MouseButton::Left).down {
                game.player_state = PlayerState::Selecting;
            }
        },
        PlayerState::GameOver => {},
    }
    FrameAction::Idle
}


/// With units on only one team, the turn scan comes back to that team
/// from anywhere in the cycle: a full cycle of eight steps always
/// reaches it, so `next_turn` then succeeds and resets that team's
/// action points rather than ending the game.
#[verifier::rlimit(100)]
pub proof fn lemma_scan_single_team(store: EntityStore, from: Team, t: Team)
    requires
        spec_team_alive(store, t),
        forall|u: Team| u != t ==> !spec_team_alive(store, u),
    ensures
        spec_scan_team(store, from, 8) == Some(t),
{
    reveal_with_fuel(spec_scan_team, 9);
}

/// With no units left on any team, the turn scan finds nothing and
/// `next_turn` ends the game.
pub proof fn lemma_scan_no_team(store: EntityStore, from: Team)
    requires
        forall|u: Team| !spec_team_alive(store, u),
    ensures
        spec_scan_team(store, from, 8) is None,
{
    reveal_with_fuel(spec_scan_team, 9);
}

} // verus!
