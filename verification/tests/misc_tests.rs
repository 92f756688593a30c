use haddock_core::assets::AssetClass;
use haddock_core::assets::AudioAsset;
use haddock_core::assets::ImageAsset;
use haddock_core::assets::TextureAtlasAsset;
use haddock_core::components::Health;
use haddock_core::components::PowerCharges;
use haddock_core::events::InputEvent;
use haddock_core::movement::AttackCriteria;
use haddock_core::movement::CanMoveDistance;
use haddock_core::movement::EnemyTurnInput;
use haddock_core::movement::MoveDecision;
use haddock_core::movement::MoveWeighting;
use haddock_core::movement::Occupant;
use haddock_core::movement::PlayerAction;
use haddock_core::movement::Role;
use haddock_core::movement::decide_enemy_moves;
use haddock_core::movement::resolve_player_input;
use haddock_core::profile::HaddockVariant;
use haddock_core::profile::LoadedUserProfile;
use haddock_core::profile::UserProfile;
use haddock_core::rng::seeded_rng;
use haddock_core::tiles::MapDirection;
use haddock_core::tiles::TileGrid;
use haddock_core::tiles::TileType;

#[test]
fn asset_grids_and_filenames() {
    assert_eq!(TextureAtlasAsset::HaddockSpritesheet.columns(), 5);
    assert_eq!(TextureAtlasAsset::JellyLightning.columns(), 3);
    assert_eq!(TextureAtlasAsset::SnailSpritesheet.columns(), 4);
    assert_eq!(TextureAtlasAsset::SharkSpritesheet.rows(), 4);
    assert_eq!(TextureAtlasAsset::CrabSpritesheet.rows(), 1);
    assert_eq!(
        TextureAtlasAsset::CrabSpritesheet.to_image_asset(),
        ImageAsset::CrabSpritesheet
    );
    assert!(ImageAsset::TileMapSpritesheet.is_for_tilemap());
    assert!(!ImageAsset::Background.is_for_tilemap());
    assert_eq!(ImageAsset::HaddockSprite.to_filename(), "sprites/haddock.png");
    assert_eq!(AudioAsset::Chomp.to_filename(), "audio/carrotnom.wav");
}

#[test]
fn profile_caps_follow_the_level() {
    let mut p = UserProfile::default();
    assert_eq!(p.max_power_charges(), 3);
    assert_eq!(p.max_health(), 3);
    p.level = 5;
    assert_eq!(p.max_power_charges(), 4);
    assert_eq!(p.max_health(), 4);
    p.level = 15;
    assert_eq!(p.max_power_charges(), 6);
    assert_eq!(p.max_health(), 6);
    p.level = 30;
    assert_eq!(p.max_power_charges(), 7);
    assert_eq!(p.max_health(), 7);

    let loaded = LoadedUserProfile::new(p, 2);
    assert_eq!(loaded.file_index, 2);
    assert_eq!(loaded.user_profile.level, 30);
    assert_eq!(
        HaddockVariant::Whale.to_image_asset(),
        ImageAsset::WhaleSprite
    );
}

#[test]
fn health_floors_at_zero_and_charges_deplete() {
    let mut h = Health { hp: 2 };
    h.decr_by(1);
    assert_eq!(h.hp, 1);
    h.decr_by(5);
    assert_eq!(h.hp, 0);

    let mut c = PowerCharges::new(1);
    assert!(c.use_charge());
    assert!(!c.use_charge());
    assert_eq!(c.charges, 0);
}

#[test]
fn player_input_resolves_to_actions() {
    let mut tiles = TileGrid::new();
    tiles.set((1, 0), TileType::WATER);
    let occupants: Vec<Occupant> = Vec::new();

    let moved = resolve_player_input(
        &InputEvent::MoveDirection(MapDirection::Right),
        &(0, 0),
        &occupants,
        &tiles,
        1,
    );
    assert_eq!(
        moved,
        PlayerAction::Moved(MoveDecision::Move(((1, 0), MapDirection::Right)))
    );

    let turned = resolve_player_input(
        &InputEvent::TurnDirection(MapDirection::Up),
        &(0, 0),
        &occupants,
        &tiles,
        1,
    );
    assert_eq!(turned, PlayerAction::Moved(MoveDecision::Turn(MapDirection::Up)));

    assert_eq!(
        resolve_player_input(&InputEvent::Wait, &(0, 0), &occupants, &tiles, 1),
        PlayerAction::Waited
    );
    assert_eq!(
        resolve_player_input(&InputEvent::Power, &(0, 0), &occupants, &tiles, 2),
        PlayerAction::FiredPower
    );
    assert_eq!(
        resolve_player_input(&InputEvent::Power, &(0, 0), &occupants, &tiles, 0),
        PlayerAction::NoAction
    );
}

#[test]
fn enemy_batch_respects_forced_direction_and_avoids_collisions() {
    // Two enemies on one corridor, drawn along its axis towards the same
    // target: whatever directions they draw, no two decisions may move
    // onto the same tile.
    let mut tiles = TileGrid::new();
    for x in 0..6 {
        tiles.set((x, 0), TileType::WATER);
        tiles.set((x, 1), TileType::WATER);
    }
    let horizontal = MoveWeighting::updown_leftright(0, 1000);
    let enemies = vec![
        EnemyTurnInput {
            id: 1,
            pos: (0, 0),
            can_attack_directly: true,
            can_move: true,
            move_distance: CanMoveDistance::all(1),
            move_weights: horizontal,
        },
        EnemyTurnInput {
            id: 2,
            pos: (2, 0),
            can_attack_directly: true,
            can_move: true,
            move_distance: CanMoveDistance::all(1),
            move_weights: horizontal,
        },
    ];
    let occupants = vec![
        Occupant { id: 1, pos: (0, 0), role: Role::EnemyActor },
        Occupant { id: 2, pos: (2, 0), role: Role::EnemyActor },
        Occupant { id: 9, pos: (5, 1), role: Role::PlayerActor },
    ];
    let mut rng = seeded_rng(5);
    let decisions = decide_enemy_moves(&enemies, &(5, 0), &occupants, &tiles, &mut rng);
    assert_eq!(decisions.len(), 2);
    let mut targets: Vec<(i32, i32)> = Vec::new();
    for (_, d) in decisions.iter() {
        if let Some(p) = d.to_move_position() {
            assert!(!targets.contains(&p));
            targets.push(p);
        }
    }
}

#[test]
fn skipped_enemies_contribute_no_decision() {
    let tiles = TileGrid::new();
    let enemies = vec![EnemyTurnInput {
        id: 1,
        pos: (0, 0),
        can_attack_directly: false,
        can_move: false,
        move_distance: CanMoveDistance::all(1),
        move_weights: MoveWeighting::all(1000),
    }];
    let occupants: Vec<Occupant> = Vec::new();
    let mut rng = seeded_rng(5);
    let decisions = decide_enemy_moves(&enemies, &(3, 3), &occupants, &tiles, &mut rng);
    assert!(decisions.is_empty());
}

#[test]
fn criteria_constructors_match_their_roles() {
    let p = AttackCriteria::for_player();
    assert!(p.can_attack_enemy && !p.can_attack_player && p.move_on_attack);
    let e = AttackCriteria::for_enemy(true);
    assert!(!e.can_attack_enemy && e.can_attack_player && !e.move_on_attack);
    let e2 = AttackCriteria::for_enemy(false);
    assert!(!e2.can_attack_player);
}
