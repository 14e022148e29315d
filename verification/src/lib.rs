//! Rules engine for a grid-based, turn-based tactics game: a tile board,
//! team-owned units held in a generational store, a cost-limited
//! reachability query ("action circle"), and a validate-then-commit
//! command engine with deferred damage resolution.

pub mod board;
pub mod circle;
pub mod entity;
pub mod game;
pub mod input;
pub mod menu;
pub mod position;
pub mod store;

pub use board::{Board, Dimension, NavMask, Tile, TileKind, Traverse};
pub use circle::ActionCircle;
pub use entity::{Space, Team, Unit, UnitKind, get_next_team};
pub use game::{
    AttackError, DamageAtPos, FrameAction, Game, IntentToAttack, IntentToMove, MoveError,
    PlayerState, SpawnData, SpawnError, attack_with_unit, bring_out_your_dead, move_unit,
    read_input,
};
pub use input::{ButtonState, Input, KeyCode, Mouse, MouseButton};
pub use menu::{Menu, MenuBuilder, MenuOption, MenuResult};
pub use position::{Position, spec_manhattan};
pub use store::{EntityIndex, EntityStore};
