use haddock_core::projectile::Jellyfish;
use haddock_core::projectile::JellyfishState;
use haddock_core::projectile::ProjectileFate;
use haddock_core::projectile::RECHARGE_TURNS;
use haddock_core::projectile::jelly_lightning_projection;
use haddock_core::projectile::jellyfish_turn;
use haddock_core::projectile::scan_to_endpoint;
use haddock_core::rng::seeded_rng;
use haddock_core::tiles::MapDirection;
use haddock_core::tiles::TileGrid;
use haddock_core::tiles::TileType;

fn column_corridor() -> TileGrid {
    // Water straight up from (2,2) to (2,7); a wall at (2,8).
    let mut tiles = TileGrid::new();
    for y in 3..8 {
        tiles.set((2, y), TileType::WATER);
    }
    tiles.set((2, 8), TileType::WALL);
    tiles
}

#[test]
fn scan_hits_target_early_when_asked() {
    let tiles = column_corridor();
    let candidates = vec![(42u64, (2, 6))];
    let fate = scan_to_endpoint(&(2, 2), &MapDirection::Up, &candidates, &tiles, true).unwrap();
    assert_eq!(fate, ProjectileFate::EndHitTarget(((2, 6), 42)));
}

#[test]
fn scan_remembers_target_until_the_wall() {
    let tiles = column_corridor();
    let candidates = vec![(42u64, (2, 6))];
    let fate = scan_to_endpoint(&(2, 2), &MapDirection::Up, &candidates, &tiles, false).unwrap();
    assert_eq!(fate, ProjectileFate::EndHitTarget(((2, 6), 42)));
}

#[test]
fn scan_without_target_ends_at_the_last_free_tile() {
    let tiles = column_corridor();
    let candidates: Vec<(u64, (i32, i32))> = Vec::new();
    let fate = scan_to_endpoint(&(2, 2), &MapDirection::Up, &candidates, &tiles, false).unwrap();
    assert_eq!(fate, ProjectileFate::EndNoTarget((2, 7)));
}

#[test]
fn scan_ignores_candidates_off_the_axis() {
    let tiles = column_corridor();
    let candidates = vec![(9u64, (3, 5))];
    let fate = scan_to_endpoint(&(2, 2), &MapDirection::Up, &candidates, &tiles, true).unwrap();
    assert_eq!(fate, ProjectileFate::EndNoTarget((2, 7)));
}

#[test]
fn scan_gives_up_without_a_wall_within_the_cap() {
    let mut tiles = TileGrid::new();
    for x in 1..200 {
        tiles.set((x, 0), TileType::WATER);
    }
    let candidates: Vec<(u64, (i32, i32))> = Vec::new();
    let fate = scan_to_endpoint(&(0, 0), &MapDirection::Right, &candidates, &tiles, false);
    assert_eq!(fate, None);
}

#[test]
fn lightning_projection_covers_the_corridor_and_reports_the_hit() {
    // The bolt renders through the whole corridor up to the wall — five
    // tiles here — even though it strikes the target part way along.
    let tiles = column_corridor();
    let player = vec![(7u64, (2, 6))];
    let (len, hit) = jelly_lightning_projection(&(2, 2), &MapDirection::Up, &player, &tiles)
        .unwrap();
    assert_eq!(len, 5);
    assert_eq!(hit, Some(7));

    let nobody: Vec<(u64, (i32, i32))> = Vec::new();
    let (len2, hit2) = jelly_lightning_projection(&(2, 2), &MapDirection::Up, &nobody, &tiles)
        .unwrap();
    assert_eq!(len2, 5);
    assert_eq!(hit2, None);
}

#[test]
fn scan_remembers_the_first_of_two_targets() {
    let tiles = column_corridor();
    let candidates = vec![(8u64, (2, 5)), (9u64, (2, 7))];
    let fate = scan_to_endpoint(&(2, 2), &MapDirection::Up, &candidates, &tiles, false).unwrap();
    assert_eq!(fate, ProjectileFate::EndHitTarget(((2, 5), 8)));
}

#[test]
fn jellyfish_discharges_then_recharges_then_wakes() {
    let tiles = column_corridor();
    let player = vec![(7u64, (2, 6))];
    let mut rng = seeded_rng(1);

    let (state, bolt, hit) = jellyfish_turn(
        &JellyfishState::Charging(MapDirection::Up),
        &(2, 2),
        &player,
        &tiles,
        &mut rng,
    )
    .unwrap();
    assert_eq!(state, JellyfishState::Recharging(RECHARGE_TURNS));
    let bolt = bolt.unwrap();
    assert_eq!(bolt.start, (2, 3));
    assert_eq!(bolt.length, 5);
    assert_eq!(bolt.direction, MapDirection::Up);
    assert_eq!(hit, Some(7));

    let (state2, bolt2, hit2) =
        jellyfish_turn(&state, &(2, 2), &player, &tiles, &mut rng).unwrap();
    assert_eq!(state2, JellyfishState::Normal);
    assert!(bolt2.is_none());
    assert!(hit2.is_none());
}

#[test]
fn jellyfish_movement_gate_follows_its_state() {
    assert!(Jellyfish { state: JellyfishState::Normal }.can_move());
    assert!(!Jellyfish { state: JellyfishState::Charging(MapDirection::Up) }.can_move());
    assert!(!Jellyfish { state: JellyfishState::Recharging(1) }.can_move());
}
