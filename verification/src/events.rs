//! The event vocabulary the core produces and consumes: player input,
//! phase-completion signals, and informational notifications for the
//! surrounding application.

use crate::tiles::MapDirection;
use crate::turn::GamePhase;
use vstd::prelude::*;

verus! {

/// One unit of player intent for the current turn.
#[derive(Clone, Copy, Debug, PartialEq, Eq, Structural)]
pub enum InputEvent {
    MoveDirection(MapDirection),
    TurnDirection(MapDirection),
    Wait,
    Power,
    Hook,
}

/// The player's power was fired this turn.
#[derive(Clone, Copy, Debug, PartialEq, Eq, Structural)]
pub enum PowerEvent {
    PowerFired,
}

/// Events that drive state transitions in the surrounding application.
#[derive(Clone, Copy, Debug, PartialEq, Eq, Structural)]
pub enum GameEvent {
    PhaseComplete(GamePhase),
    PlayerDied,
    PlayerHooked,
    HookCompleted,
    PlayerEnteredVortex,
    VortexCompleted,
}

/// Purely informational events: feedback and bookkeeping, never control.
#[derive(Clone, Copy, Debug, PartialEq, Eq, Structural)]
pub enum InfoEvent {
    EnemyKilled,
    PlayerHurt,
    PlayerMoved,
    PlayerKilled,
    PlayerPickedUpSnail,
    JellyLightningFired,
    VortexSpawned,
}

} // verus!
