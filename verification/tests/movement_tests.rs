use haddock_core::movement::ActorState;
use haddock_core::movement::ActorStore;
use haddock_core::movement::AttackCriteria;
use haddock_core::movement::MoveDecision;
use haddock_core::movement::Occupant;
use haddock_core::movement::Role;
use haddock_core::movement::decide_move;
use haddock_core::tiles::MapDirection;
use haddock_core::tiles::TileGrid;
use haddock_core::tiles::TileType;

fn water_row(tiles: &mut TileGrid, y: i32, xs: &[i32]) {
    for x in xs.iter() {
        tiles.set((*x, y), TileType::WATER);
    }
}

#[test]
fn move_into_wall_turns_in_place() {
    let mut tiles = TileGrid::new();
    tiles.set((6, 5), TileType::WALL);
    let occupants: Vec<Occupant> = Vec::new();
    let blocked: Vec<(i32, i32)> = Vec::new();
    let d = decide_move(
        &(5, 5),
        &MapDirection::Right,
        1,
        &AttackCriteria::for_player(),
        &occupants,
        &tiles,
        &blocked,
    );
    assert_eq!(d, MoveDecision::Turn(MapDirection::Right));
}

#[test]
fn multi_tile_move_stops_before_the_wall() {
    let mut tiles = TileGrid::new();
    water_row(&mut tiles, 5, &[6, 7]);
    tiles.set((8, 5), TileType::WALL);
    let occupants: Vec<Occupant> = Vec::new();
    let blocked: Vec<(i32, i32)> = Vec::new();
    let d = decide_move(
        &(5, 5),
        &MapDirection::Right,
        3,
        &AttackCriteria::for_enemy(true),
        &occupants,
        &tiles,
        &blocked,
    );
    assert_eq!(d, MoveDecision::Move(((7, 5), MapDirection::Right)));
}

#[test]
fn player_kills_adjacent_enemy_and_advances() {
    let mut tiles = TileGrid::new();
    water_row(&mut tiles, 0, &[0, 1]);
    let occupants = vec![
        Occupant { id: 1, pos: (0, 0), role: Role::PlayerActor },
        Occupant { id: 2, pos: (1, 0), role: Role::EnemyActor },
    ];
    let blocked: Vec<(i32, i32)> = Vec::new();
    let d = decide_move(
        &(0, 0),
        &MapDirection::Right,
        1,
        &AttackCriteria::for_player(),
        &occupants,
        &tiles,
        &blocked,
    );
    match d {
        MoveDecision::AttackAndMaybeMove(a) => {
            assert_eq!(a.attack_target_pos, (1, 0));
            assert_eq!(a.attack_target_entity, 2);
            assert_eq!(a.direction, MapDirection::Right);
            assert_eq!(a.position_before_enemy, None);
        },
        other => panic!("unexpected decision: {:?}", other),
    }

    let mut store = ActorStore::new(vec![
        ActorState { id: 1, pos: (0, 0), facing: MapDirection::Left, hp: 3 },
        ActorState { id: 2, pos: (1, 0), facing: MapDirection::Left, hp: 1 },
    ]);
    store.apply_move_single(1, &d);
    let player = store.get(1).unwrap();
    let enemy = store.get(2).unwrap();
    assert_eq!(enemy.hp, 0);
    assert_eq!(player.pos, (1, 0));
    assert_eq!(player.facing, MapDirection::Right);
}

#[test]
fn enemy_bumping_into_enemy_only_turns() {
    let mut tiles = TileGrid::new();
    water_row(&mut tiles, 0, &[0, 1]);
    let occupants = vec![
        Occupant { id: 10, pos: (0, 0), role: Role::EnemyActor },
        Occupant { id: 11, pos: (1, 0), role: Role::EnemyActor },
    ];
    let blocked: Vec<(i32, i32)> = Vec::new();
    let d = decide_move(
        &(0, 0),
        &MapDirection::Right,
        1,
        &AttackCriteria::for_enemy(true),
        &occupants,
        &tiles,
        &blocked,
    );
    assert_eq!(d, MoveDecision::Turn(MapDirection::Right));

    let mut store = ActorStore::new(vec![
        ActorState { id: 10, pos: (0, 0), facing: MapDirection::Left, hp: 1 },
        ActorState { id: 11, pos: (1, 0), facing: MapDirection::Left, hp: 1 },
    ]);
    store.apply_move_single(10, &d);
    assert_eq!(store.get(10).unwrap().hp, 1);
    assert_eq!(store.get(11).unwrap().hp, 1);
    assert_eq!(store.get(10).unwrap().pos, (0, 0));
    assert_eq!(store.get(10).unwrap().facing, MapDirection::Right);
}

#[test]
fn enemy_survivor_keeps_its_tile_when_attacker_was_adjacent() {
    // An adjacent enemy attack on a 2 hp player: damage lands, nobody moves.
    let mut tiles = TileGrid::new();
    water_row(&mut tiles, 0, &[0, 1]);
    let occupants = vec![
        Occupant { id: 1, pos: (1, 0), role: Role::PlayerActor },
        Occupant { id: 2, pos: (0, 0), role: Role::EnemyActor },
    ];
    let blocked: Vec<(i32, i32)> = Vec::new();
    let d = decide_move(
        &(0, 0),
        &MapDirection::Right,
        1,
        &AttackCriteria::for_enemy(true),
        &occupants,
        &tiles,
        &blocked,
    );
    assert_eq!(d, MoveDecision::AttackAndDontMove((1, MapDirection::Right)));

    let mut store = ActorStore::new(vec![
        ActorState { id: 1, pos: (1, 0), facing: MapDirection::Left, hp: 2 },
        ActorState { id: 2, pos: (0, 0), facing: MapDirection::Left, hp: 1 },
    ]);
    store.apply_move_single(2, &d);
    assert_eq!(store.get(1).unwrap().hp, 1);
    assert_eq!(store.get(2).unwrap().pos, (0, 0));
}

#[test]
fn multi_tile_attacker_lands_next_to_a_surviving_target() {
    // A two-tile mover reaches the player's tile on its second step; the
    // player survives, so the mover ends on the free tile it had passed.
    let mut tiles = TileGrid::new();
    water_row(&mut tiles, 0, &[0, 1, 2]);
    let occupants = vec![
        Occupant { id: 1, pos: (2, 0), role: Role::PlayerActor },
        Occupant { id: 2, pos: (0, 0), role: Role::EnemyActor },
    ];
    let blocked: Vec<(i32, i32)> = Vec::new();
    let d = decide_move(
        &(0, 0),
        &MapDirection::Right,
        2,
        &AttackCriteria::for_enemy(true),
        &occupants,
        &tiles,
        &blocked,
    );
    match d {
        MoveDecision::AttackAndMaybeMove(a) => {
            assert_eq!(a.attack_target_pos, (2, 0));
            assert_eq!(a.position_before_enemy, Some((1, 0)));
        },
        other => panic!("unexpected decision: {:?}", other),
    }
    let mut store = ActorStore::new(vec![
        ActorState { id: 1, pos: (2, 0), facing: MapDirection::Left, hp: 2 },
        ActorState { id: 2, pos: (0, 0), facing: MapDirection::Left, hp: 1 },
    ]);
    store.apply_move_single(2, &d);
    assert_eq!(store.get(1).unwrap().hp, 1);
    assert_eq!(store.get(2).unwrap().pos, (1, 0));
}

#[test]
fn blocked_list_stops_the_walk() {
    let mut tiles = TileGrid::new();
    water_row(&mut tiles, 0, &[1, 2]);
    let occupants: Vec<Occupant> = Vec::new();
    let blocked = vec![(2, 0)];
    let d = decide_move(
        &(0, 0),
        &MapDirection::Right,
        2,
        &AttackCriteria::for_enemy(true),
        &occupants,
        &tiles,
        &blocked,
    );
    assert_eq!(d, MoveDecision::Move(((1, 0), MapDirection::Right)));
}

#[test]
fn mutual_attacks_apply_in_batch_order() {
    // Two one-hit-point actors strike each other in the same phase. The
    // batch applies in the order given, so both blows land: decisions were
    // made against the pre-phase snapshot, and striking a dead target is
    // still a strike.
    let mut store = ActorStore::new(vec![
        ActorState { id: 1, pos: (0, 0), facing: MapDirection::Right, hp: 1 },
        ActorState { id: 2, pos: (1, 0), facing: MapDirection::Left, hp: 1 },
    ]);
    let decisions = vec![
        (1u64, MoveDecision::AttackAndDontMove((2, MapDirection::Right))),
        (2u64, MoveDecision::AttackAndDontMove((1, MapDirection::Left))),
    ];
    store.apply_move(&decisions);
    assert_eq!(store.get(1).unwrap().hp, 0);
    assert_eq!(store.get(2).unwrap().hp, 0);
}
