use haddock_core::turn::GamePhase;
use haddock_core::turn::GlobalLevelCounter;
use haddock_core::turn::GlobalTurnCounter;
use haddock_core::turn::TurnCounter;
use haddock_core::turn::phase_watcher_step;

#[test]
fn turn_cycle_increments_once_per_five_steps() {
    let mut global = GlobalTurnCounter::default();
    assert_eq!(global.turn_count, 1);
    assert_eq!(global.current_phase, GamePhase::PlayerMovement);

    let phases = [
        GamePhase::PlayerMovement,
        GamePhase::PlayerPowerEffect,
        GamePhase::PreEnemyMovement,
        GamePhase::EnemyPowerEffect,
        GamePhase::EnemyMovement,
    ];
    for round in 0..3 {
        for phase in phases.iter() {
            assert_eq!(global.current_phase, *phase);
            assert_eq!(global.turn_count, 1 + round);
            global.step(phase);
        }
        assert_eq!(global.turn_count, 2 + round);
        assert_eq!(global.current_phase, GamePhase::PlayerMovement);
    }
}

#[test]
fn step_from_non_current_phase_is_ignored() {
    let mut global = GlobalTurnCounter::default();
    global.step(&GamePhase::EnemyMovement);
    assert_eq!(global.turn_count, 1);
    assert_eq!(global.current_phase, GamePhase::PlayerMovement);
}

#[test]
fn can_take_turn_gates_on_phase_and_count() {
    let global = GlobalTurnCounter::default();
    let mut local = TurnCounter::default();
    assert!(global.can_take_turn(&local, GamePhase::PlayerMovement));
    assert!(!global.can_take_turn(&local, GamePhase::EnemyMovement));
    local.incr();
    assert!(!global.can_take_turn(&local, GamePhase::PlayerMovement));
}

#[test]
fn can_take_turn_is_pure() {
    // The query mutates nothing: a stale local counter keeps its value and
    // simply reports that no turn is due; level transitions reset it
    // explicitly.
    let mut global = GlobalTurnCounter::default();
    let mut local = TurnCounter(7);
    global.reset();
    assert!(!global.can_take_turn(&local, GamePhase::PlayerMovement));
    assert_eq!(local.0, 7);
    local.reset();
    assert!(global.can_take_turn(&local, GamePhase::PlayerMovement));
    assert_eq!(local.0, 0);
}

#[test]
fn global_counter_reset_restores_initial_state() {
    let mut global = GlobalTurnCounter::default();
    for phase in [
        GamePhase::PlayerMovement,
        GamePhase::PlayerPowerEffect,
        GamePhase::PreEnemyMovement,
        GamePhase::EnemyPowerEffect,
        GamePhase::EnemyMovement,
    ] {
        global.step(&phase);
    }
    assert_eq!(global.turn_count, 2);
    global.reset();
    assert_eq!(global.turn_count, 1);
    assert_eq!(global.current_phase, GamePhase::PlayerMovement);
}

#[test]
fn level_counter_counts_and_resets() {
    let mut level = GlobalLevelCounter::default();
    assert_eq!(level.level(), 1);
    level.increment();
    level.increment();
    assert_eq!(level.level(), 3);
    level.reset();
    assert_eq!(level.level(), 1);
}

#[test]
fn phase_watcher_signals_after_two_empty_polls() {
    let global = GlobalTurnCounter::default();
    let mut local = TurnCounter::default();
    let mut frame_delay: usize = 0;

    // Effects still alive: the delay resets and nothing is signalled.
    assert!(!phase_watcher_step(&global, &mut local, GamePhase::PlayerMovement, false, &mut frame_delay));
    assert_eq!(frame_delay, 0);

    // Two empty polls build the delay; the third signals completion.
    assert!(!phase_watcher_step(&global, &mut local, GamePhase::PlayerMovement, true, &mut frame_delay));
    assert!(!phase_watcher_step(&global, &mut local, GamePhase::PlayerMovement, true, &mut frame_delay));
    assert!(phase_watcher_step(&global, &mut local, GamePhase::PlayerMovement, true, &mut frame_delay));

    // Having acted, the watcher stays quiet for this turn.
    assert!(!phase_watcher_step(&global, &mut local, GamePhase::PlayerMovement, true, &mut frame_delay));
}

#[test]
fn watcher_ignores_other_phases() {
    let global = GlobalTurnCounter::default();
    let mut local = TurnCounter::default();
    let mut frame_delay: usize = 5;
    assert!(!phase_watcher_step(&global, &mut local, GamePhase::EnemyMovement, true, &mut frame_delay));
    assert_eq!(frame_delay, 5);
}
