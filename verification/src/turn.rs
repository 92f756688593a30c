//! Phase-gated turn scheduling: a strictly cyclic five-phase state machine
//! with a global turn counter that advances once per full cycle, plus the
//! per-system local counters that give each consuming system exactly one
//! action per phase instance.

use vstd::prelude::*;

verus! {

/// The five ordered slots of one global turn.
#[derive(Clone, Copy, Debug, PartialEq, Eq, Structural)]
pub enum GamePhase {
    PlayerMovement,
    PlayerPowerEffect,
    PreEnemyMovement,
    EnemyPowerEffect,
    EnemyMovement,
}

impl GamePhase {
    /// The phase that follows `self` in the fixed cycle.
    pub open spec fn next_spec(self) -> GamePhase {
        match self {
            GamePhase::PlayerMovement => GamePhase::PlayerPowerEffect,
            GamePhase::PlayerPowerEffect => GamePhase::PreEnemyMovement,
            GamePhase::PreEnemyMovement => GamePhase::EnemyPowerEffect,
            GamePhase::EnemyPowerEffect => GamePhase::EnemyMovement,
            GamePhase::EnemyMovement => GamePhase::PlayerMovement,
        }
    }

    /// Whether `self` is the terminal phase of the cycle.
    pub open spec fn is_last(self) -> bool {
        self == GamePhase::EnemyMovement
    }

    pub fn next(&self) -> (r: GamePhase)
        ensures
            r == self.next_spec(),
    {
        match self {
            GamePhase::PlayerMovement => GamePhase::PlayerPowerEffect,
            GamePhase::PlayerPowerEffect => GamePhase::PreEnemyMovement,
            GamePhase::PreEnemyMovement => GamePhase::EnemyPowerEffect,
            GamePhase::EnemyPowerEffect => GamePhase::EnemyMovement,
            GamePhase::EnemyMovement => GamePhase::PlayerMovement,
        }
    }

    pub fn last(&self) -> (r: bool)
        ensures
            r == self.is_last(),
    {
        match self {
            GamePhase::EnemyMovement => true,
            _ => false,
        }
    }
}

/// A system-private "last acted turn" marker: prevents a system from acting
/// twice within one phase instance.
#[derive(Debug)]
pub struct TurnCounter(pub usize);

impl TurnCounter {
    pub fn incr(&mut self)
        requires
            old(self).0 < usize::MAX,
        ensures
            final(self).0 == old(self).0 + 1,
    {
        self.0 += 1;
    }

    pub fn reset(&mut self)
        ensures
            final(self).0 == 0,
    {
        self.0 = 0;
    }
}

impl Default for TurnCounter {
    fn default() -> (r: Self)
        ensures
            r.0 == 0,
    {
        Self(0)
    }
}

/// The turn count and phase that `GlobalTurnCounter::step` moves to when a
/// completion signal for phase `from` arrives in state `(turn, phase)`.
/// A signal for a non-current phase leaves the state unchanged; the count
/// rises exactly at the transition out of the terminal phase.
pub open spec fn step_result(turn: int, phase: GamePhase, from: GamePhase) -> (int, GamePhase) {
    if from == phase {
        (turn + if phase.is_last() { 1int } else { 0int }, phase.next_spec())
    } else {
        (turn, phase)
    }
}

/// Global scheduler state: the current turn number (always at least 1) and
/// the phase now in progress.
#[derive(Debug)]
pub struct GlobalTurnCounter {
    pub turn_count: usize,
    pub current_phase: GamePhase,
}

impl Default for GlobalTurnCounter {
    fn default() -> (r: Self)
        ensures
            r.turn_count == 1,
            r.current_phase == GamePhase::PlayerMovement,
    {
        Self { turn_count: 1, current_phase: GamePhase::PlayerMovement }
    }
}

impl GlobalTurnCounter {
    /// Advance out of `from_phase` if it is current; otherwise ignore the
    /// (stale) signal and leave the state unchanged.
    pub fn step(&mut self, from_phase: &GamePhase)
        requires
            old(self).turn_count < usize::MAX,
        ensures
            (final(self).turn_count as int, final(self).current_phase) == step_result(
                old(self).turn_count as int,
                old(self).current_phase,
                *from_phase,
            ),
    {
        if *from_phase == self.current_phase {
            if self.current_phase.last() {
                self.turn_count += 1;
            }
            self.current_phase = self.current_phase.next();
        }
    }

    /// A system may take its turn iff its local counter is behind the global
    /// count and the asked-for phase is current. The query is pure and
    /// mutates nothing; a local counter left over from an earlier level is
    /// brought back by an explicit reset at the level transition.
    pub fn can_take_turn(&self, local_count: &TurnCounter, phase: GamePhase) -> (r: bool)
        ensures
            r == (local_count.0 < self.turn_count && phase == self.current_phase),
    {
        local_count.0 < self.turn_count && phase == self.current_phase
    }

    /// Return to the initial state: turn 1, player movement phase.
    pub fn reset(&mut self)
        ensures
            final(self).turn_count == 1,
            final(self).current_phase == GamePhase::PlayerMovement,
    {
        self.turn_count = 1;
        self.current_phase = GamePhase::PlayerMovement;
    }
}

/// Turn cycle completeness: stepping five times, each time out of the phase
/// that is then current, raises the turn count by exactly one and brings the
/// phase back to where it started — whatever phase the cycle starts in.
pub proof fn lemma_turn_cycle(turn: int, phase: GamePhase)
    ensures
        ({
            let (t1, p1) = step_result(turn, phase, phase);
            let (t2, p2) = step_result(t1, p1, p1);
            let (t3, p3) = step_result(t2, p2, p2);
            let (t4, p4) = step_result(t3, p3, p3);
            let (t5, p5) = step_result(t4, p4, p4);
            t5 == turn + 1 && p5 == phase
        }),
{
}

/// Monotonically increasing level number, starting at 1.
pub struct GlobalLevelCounter {
    level_count: usize,
}

impl GlobalLevelCounter {
    /// The current level number.
    pub closed spec fn spec_level(&self) -> usize {
        self.level_count
    }

    pub fn increment(&mut self)
        requires
            old(self).spec_level() < usize::MAX,
        ensures
            final(self).spec_level() == old(self).spec_level() + 1,
    {
        self.level_count += 1;
    }

    pub fn level(&self) -> (r: usize)
        ensures
            r == self.spec_level(),
    {
        self.level_count
    }

    pub fn reset(&mut self)
        ensures
            final(self).spec_level() == 1,
    {
        self.level_count = 1;
    }
}

impl Default for GlobalLevelCounter {
    fn default() -> (r: Self)
        ensures
            r.spec_level() == 1,
    {
        Self { level_count: 1 }
    }
}


/// One poll of an effect-watcher system: when the watched phase is current
/// and this watcher has not acted in it, an empty effect set seen for two
/// consecutive polls completes the phase (spawn commands land a frame
/// late, hence the delay); a non-empty set resets the delay. Returns
/// whether a phase-completion signal is to be sent.
pub fn phase_watcher_step(
    global: &GlobalTurnCounter,
    local: &mut TurnCounter,
    phase: GamePhase,
    effects_empty: bool,
    frame_delay: &mut usize,
) -> (signal: bool)
    requires
        old(local).0 < usize::MAX,
        *old(frame_delay) < usize::MAX,
    ensures
        ({
            let may_act = old(local).0 < global.turn_count && phase == global.current_phase;
            &&& signal == (may_act && effects_empty && *old(frame_delay) > 1)
            &&& final(local).0 == (if signal {
                old(local).0 + 1
            } else {
                old(local).0 as int
            })
            &&& *final(frame_delay) == (if !may_act {
                *old(frame_delay) as int
            } else if !effects_empty {
                0int
            } else if signal {
                *old(frame_delay) as int
            } else {
                *old(frame_delay) + 1
            })
        }),
{
    if global.can_take_turn(local, phase) {
        if effects_empty {
            if *frame_delay > 1 {
                local.incr();
                return true;
            } else {
                *frame_delay = *frame_delay + 1;
            }
        } else {
            *frame_delay = 0;
        }
    }
    false
}

} // verus!
