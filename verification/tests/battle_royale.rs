use kami_engine::battle_royale::{pick_up_weapon, BRPlayer, MaterialType, PlayerStatus, MAX_PLAYERS};

#[test]
fn player_damage_shield_first() {
    let mut player = BRPlayer::new(1, "did:test:1", "TestPlayer");
    player.status = PlayerStatus::Alive;
    player.shield = 50;

    let dealt = player.take_damage(75, 2);
    assert_eq!(dealt, 75);
    assert_eq!(player.shield, 0);
    assert_eq!(player.hp, 75); // 100 - (75-50)
}

#[test]
fn player_elimination() {
    let mut player = BRPlayer::new(1, "did:test:1", "TestPlayer");
    player.status = PlayerStatus::Alive;
    player.hp = 30;
    player.shield = 0;

    player.take_damage(30, 2);
    assert_eq!(player.status, PlayerStatus::Eliminated);
    assert_eq!(player.eliminated_by, Some(2));
}

#[test]
fn material_harvesting() {
    let mut player = BRPlayer::new(1, "did:test:1", "TestPlayer");
    player.harvest(MaterialType::Wood, 100);
    player.harvest(MaterialType::Brick, 50);
    player.harvest(MaterialType::Metal, 30);
    assert_eq!(player.wood, 100);
    assert_eq!(player.brick, 50);
    assert_eq!(player.metal, 30);

    assert!(player.can_build(MaterialType::Wood));
    assert!(player.spend_material(MaterialType::Wood));
    assert_eq!(player.wood, 90);
}

#[test]
fn material_table() {
    assert_eq!(MaterialType::Wood.initial_hp(), 90);
    assert_eq!(MaterialType::Brick.initial_hp(), 100);
    assert_eq!(MaterialType::Metal.initial_hp(), 110);
    assert_eq!(MaterialType::Wood.max_hp(), 150);
    assert_eq!(MaterialType::Brick.max_hp(), 300);
    assert_eq!(MaterialType::Metal.max_hp(), 500);
    assert_eq!(MaterialType::Metal.cost(), 10);
    assert_eq!(MAX_PLAYERS, 100);
}

#[test]
fn players_not_in_play_take_no_damage() {
    let mut player = BRPlayer::new(1, "did", "P");
    assert_eq!(player.status, PlayerStatus::InLobby);
    assert_eq!(player.take_damage(40, 9), 0);
    assert_eq!(player.hp, 100);
    player.status = PlayerStatus::Gliding;
    assert_eq!(player.take_damage(40, 9), 0);
    assert!(player.is_alive());
}

#[test]
fn overkill_deals_only_what_the_player_has() {
    let mut player = BRPlayer::new(1, "did", "P");
    player.status = PlayerStatus::DBNO;
    player.hp = 20;
    player.shield = 5;
    assert_eq!(player.effective_hp(), 25);
    assert_eq!(player.take_damage(200, 4), 25);
    assert_eq!(player.hp, 0);
    assert_eq!(player.status, PlayerStatus::Eliminated);
    assert_eq!(player.eliminated_by, Some(4));
    assert!(!player.is_alive());
}

#[test]
fn heal_and_shield_are_capped() {
    let mut player = BRPlayer::new(1, "did", "P");
    player.hp = 60;
    player.heal(30, 75);
    assert_eq!(player.hp, 75);
    player.heal(100, 200);
    assert_eq!(player.hp, 100);
    player.add_shield(25, 50);
    player.add_shield(25, 50);
    player.add_shield(25, 50);
    assert_eq!(player.shield, 50);
    player.add_shield(80, 200);
    assert_eq!(player.shield, 100);
}

#[test]
fn materials_are_capped_and_spending_needs_stock() {
    let mut player = BRPlayer::new(1, "did", "P");
    assert!(!player.can_build(MaterialType::Brick));
    assert!(!player.spend_material(MaterialType::Brick));
    player.harvest(MaterialType::Brick, 900);
    player.harvest(MaterialType::Brick, 900);
    assert_eq!(player.brick, 999);
    player.harvest(MaterialType::Metal, 9);
    assert!(!player.can_build(MaterialType::Metal));
    assert!(!player.spend_material(MaterialType::Metal));
    assert_eq!(player.metal, 9);
}

use kami_engine::battle_royale::{BRMatchState, BuildPiece, BuildStructure, MatchPhase};

#[test]
fn match_lifecycle() {
    let mut m = BRMatchState::new("match-001", 42);
    for i in 0..10 {
        assert!(m.add_player(i, &format!("did:test:{}", i), &format!("Player{}", i)));
    }
    assert_eq!(m.players.len(), 10);
    assert_eq!(m.phase, MatchPhase::Warmup);

    m.start_match();
    assert_eq!(m.phase, MatchPhase::BattleBus);
    assert_eq!(m.alive_count, 10);
    assert!(!m.add_player(99, "late", "Late")); // no joining after warm-up

    for i in 0..5 {
        m.player_jump(i);
    }
    assert!(m.players[0].status == PlayerStatus::Gliding);
    assert!(m.players[5].status == PlayerStatus::OnBus);

    m.on_bus_finished();
    assert_eq!(m.phase, MatchPhase::EarlyGame);
    for p in &m.players {
        assert!(!matches!(p.status, PlayerStatus::OnBus));
        assert!(p.bus_jumped);
    }
    m.on_storm_phase_changed(4);
    assert_eq!(m.phase, MatchPhase::MidGame);
    m.on_storm_phase_changed(7);
    assert_eq!(m.phase, MatchPhase::EndGame);
}

#[test]
fn lobby_is_capped_at_max_players() {
    let mut m = BRMatchState::new("full", 1);
    for i in 0..MAX_PLAYERS {
        assert!(m.add_player(i, "d", "n"));
    }
    assert!(!m.add_player(1000, "d", "n"));
    assert_eq!(m.players.len(), MAX_PLAYERS as usize);
}

#[test]
fn match_combat_and_victory() {
    let mut m = BRMatchState::new("match-002", 99);
    m.add_player(1, "did:test:1", "Alice");
    m.add_player(2, "did:test:2", "Bob");
    m.start_match();

    // Force land both
    for i in 1..=2 {
        m.player_jump(i);
        m.player_land(i);
    }
    m.phase = MatchPhase::EarlyGame;

    // Alice kills Bob
    m.process_hit(1, 2, 200, "SCAR", false);
    assert_eq!(m.players[1].status, PlayerStatus::Eliminated);
    assert_eq!(m.players[1].eliminated_by, Some(1));
    assert_eq!(m.players[1].placement, 2);
    assert_eq!(m.players[0].kills, 1);
    assert_eq!(m.players[0].damage_dealt, 100);
    assert_eq!(m.alive_count, 1);

    // One in-game tick: both stand inside the first circle, nobody is
    // down, no structures; then the victory check.
    m.on_storm_damage(&vec![None, None]);
    m.on_dbno_tick(1, &vec![false, false]);
    m.remove_destroyed_structures();
    m.check_victory();
    assert_eq!(m.phase, MatchPhase::Victory);
    assert_eq!(m.winner_id, Some(1));
    assert_eq!(m.players[0].placement, 1);
    assert_eq!(m.kill_feed.len(), 1);
    assert!(m.kill_feed[0].eliminator_name == "Alice");
    assert!(m.kill_feed[0].victim_name == "Bob");
    assert!(m.kill_feed[0].weapon_name == "SCAR");
}

#[test]
fn hit_on_missing_victim_changes_nothing() {
    let mut m = BRMatchState::new("m", 5);
    m.add_player(1, "d1", "A");
    m.process_hit(1, 42, 50, "Pistol", true);
    assert_eq!(m.kill_feed.len(), 0);
    assert_eq!(m.players[0].damage_dealt, 0);
}

#[test]
fn victory_placements_count_down() {
    let mut m = BRMatchState::new("m", 5);
    for i in 0..4 {
        m.add_player(i, "d", "p");
    }
    m.players[0].status = PlayerStatus::Eliminated;
    m.players[1].status = PlayerStatus::Alive;
    m.players[2].status = PlayerStatus::Eliminated;
    m.players[3].status = PlayerStatus::Eliminated;
    m.players[3].placement = 3; // already placed
    m.update_alive_count();
    assert_eq!(m.alive_count, 1);
    m.check_victory();
    assert_eq!(m.winner_id, Some(1));
    assert_eq!(m.players[0].placement, 4);
    assert_eq!(m.players[1].placement, 1);
    assert_eq!(m.players[2].placement, 3);
    assert_eq!(m.players[3].placement, 3);
    // a second check does nothing
    m.check_victory();
    assert_eq!(m.players[0].placement, 4);
}

#[test]
fn kill_feed_keeps_the_newest_fifty() {
    let mut m = BRMatchState::new("m", 5);
    m.add_player(0, "d", "Shooter");
    m.players[0].status = PlayerStatus::Alive;
    for i in 1..=60u32 {
        m.players.push(BRPlayer::new(i, "d", "Target"));
        let last = m.players.len() - 1;
        m.players[last].status = PlayerStatus::Alive;
        m.process_hit(0, i, 500, "Rocket", false);
    }
    assert_eq!(m.kill_feed.len(), 50);
    assert_eq!(m.kill_feed[0].victim_id, 11);
    assert_eq!(m.kill_feed[49].victim_id, 60);
    assert_eq!(m.players[0].kills, 60);
}

#[test]
fn building_needs_materials_and_an_alive_builder() {
    let mut m = BRMatchState::new("m", 5);
    m.add_player(1, "d", "Builder");
    assert_eq!(m.player_build(1, BuildPiece::Wall, MaterialType::Wood), None); // in lobby
    m.players[0].status = PlayerStatus::Alive;
    assert_eq!(m.player_build(1, BuildPiece::Wall, MaterialType::Wood), None); // no wood
    m.players[0].harvest(MaterialType::Wood, 25);
    assert_eq!(m.player_build(1, BuildPiece::Wall, MaterialType::Wood), Some(1));
    assert_eq!(m.player_build(1, BuildPiece::Ramp, MaterialType::Wood), Some(2));
    assert_eq!(m.player_build(1, BuildPiece::Ramp, MaterialType::Wood), None);
    assert_eq!(m.players[0].wood, 5);
    assert_eq!(m.structures.len(), 2);
    assert_eq!(m.structures[0].current_hp, 90);
    assert_eq!(m.next_structure_id, 3);
    assert!(!m.damage_structure(1, 60));
    assert!(m.damage_structure(1, 60));
    assert_eq!(m.structures[0].current_hp, 0);
    assert!(!m.damage_structure(77, 10));
}

#[test]
fn structure_damage_saturates() {
    let mut s = BuildStructure::new(1, BuildPiece::Wall, MaterialType::Wood, 1);
    assert!(s.building);
    assert_eq!(s.current_hp, 90);
    assert_eq!(s.max_hp, 150);
    assert!(!s.take_damage(50));
    assert_eq!(s.current_hp, 40);
    assert!(s.take_damage(50));
    assert_eq!(s.current_hp, 0);
}

#[test]
fn weapon_pickup_swap() {
    let player = BRPlayer::new(1, "did:test:1", "TestPlayer");
    let mut slots: [Option<u32>; 5] = [None, None, None, None, None];
    let weapons: Vec<u32> = (0..6).collect();

    // Fill all 5 slots
    for w in weapons.iter().take(5) {
        assert!(pick_up_weapon(&mut slots, player.active_slot, *w).is_none());
    }

    // 6th weapon swaps active slot
    let dropped = pick_up_weapon(&mut slots, player.active_slot, weapons[5]);
    assert!(dropped.is_some());
}

#[test]
fn pickup_fills_the_first_empty_slot_then_swaps_the_active_one() {
    let mut slots: [Option<u32>; 5] = [Some(10), None, Some(12), None, None];
    assert_eq!(pick_up_weapon(&mut slots, 0, 20), None);
    assert_eq!(slots, [Some(10), Some(20), Some(12), None, None]);
    let mut full: [Option<u32>; 5] = [Some(1), Some(2), Some(3), Some(4), Some(5)];
    assert_eq!(pick_up_weapon(&mut full, 2, 9), Some(3));
    assert_eq!(full, [Some(1), Some(2), Some(9), Some(4), Some(5)]);
}

#[test]
fn storm_damages_only_players_alive_on_the_ground() {
    let mut m = BRMatchState::new("storm", 3);
    for i in 0..4 {
        m.add_player(i, "d", "p");
    }
    m.players[0].status = PlayerStatus::Alive;
    m.players[1].status = PlayerStatus::Alive;
    m.players[2].status = PlayerStatus::Gliding;
    m.players[3].status = PlayerStatus::Alive;
    m.players[3].hp = 4;
    m.on_storm_damage(&vec![Some(5), None, Some(5), Some(5)]);
    assert_eq!(m.players[0].hp, 95);
    assert_eq!(m.players[1].hp, 100);
    assert_eq!(m.players[2].hp, 100);
    assert_eq!(m.players[3].hp, 0);
    assert_eq!(m.players[3].status, PlayerStatus::Eliminated);
    assert_eq!(m.players[3].eliminated_by, Some(0));
    assert_eq!(m.alive_count, 3);
}

#[test]
fn downed_players_bleed_out_or_expire() {
    let mut m = BRMatchState::new("dbno", 3);
    for i in 0..4 {
        m.add_player(i, "d", "p");
    }
    for p in m.players.iter_mut() {
        p.status = PlayerStatus::DBNO;
        p.hp = 10;
    }
    m.players[1].hp = 3;
    m.players[3].status = PlayerStatus::Alive;
    m.on_dbno_tick(4, &vec![false, false, true, true]);
    assert_eq!(m.players[0].hp, 6);
    assert_eq!(m.players[0].status, PlayerStatus::DBNO);
    assert_eq!(m.players[1].hp, 0);
    assert_eq!(m.players[1].status, PlayerStatus::Eliminated);
    assert_eq!(m.players[2].hp, 6);
    assert_eq!(m.players[2].status, PlayerStatus::Eliminated);
    assert_eq!(m.players[3].hp, 10);
    assert_eq!(m.players[3].status, PlayerStatus::Alive);
    assert_eq!(m.alive_count, 2);
}

#[test]
fn building_progress_raises_hit_points_until_complete() {
    let mut s = BuildStructure::new(7, BuildPiece::Floor, MaterialType::Brick, 2);
    assert_eq!(s.current_hp, 100);
    assert!(!s.on_build_progress(false, 180));
    assert_eq!(s.current_hp, 180);
    assert!(s.building);
    assert!(s.on_build_progress(true, 0));
    assert!(!s.building);
    assert_eq!(s.current_hp, 300);
    assert!(!s.on_build_progress(true, 5));
    assert_eq!(s.current_hp, 300);
}

#[test]
fn destroyed_structures_are_cleared_in_order() {
    let mut m = BRMatchState::new("m", 5);
    for id in 1..=4 {
        m.structures.push(BuildStructure::new(id, BuildPiece::Wall, MaterialType::Wood, 1));
    }
    m.structures[0].current_hp = 0;
    m.structures[2].current_hp = 0;
    m.remove_destroyed_structures();
    let ids: Vec<u32> = m.structures.iter().map(|s| s.id).collect();
    assert_eq!(ids, vec![2, 4]);
}

#[test]
fn eliminated_players_stay_eliminated() {
    let mut m = BRMatchState::new("m", 5);
    m.add_player(1, "d", "Gone");
    m.add_player(2, "d", "Shooter");
    m.players[0].status = PlayerStatus::Eliminated;
    m.players[0].hp = 0;
    m.players[1].status = PlayerStatus::Alive;
    m.on_storm_damage(&vec![Some(30), None]);
    m.on_dbno_tick(10, &vec![true, false]);
    m.process_hit(2, 1, 50, "SMG", false);
    assert_eq!(m.players[0].status, PlayerStatus::Eliminated);
    assert_eq!(m.players[0].hp, 0);
    assert_eq!(m.players[1].damage_dealt, 0);
}

#[test]
fn building_system() {
    let mut s = BuildStructure::new(1, BuildPiece::Wall, MaterialType::Wood, 1);
    assert!(s.building);
    assert_eq!(s.current_hp, 90); // wood initial

    // Build over time: wood takes 4 s, hit points follow the progress
    let mut progress: f32 = 0.0;
    let mut tick = |s: &mut BuildStructure| {
        if !s.building {
            s.on_build_progress(true, 0);
            return;
        }
        progress += (1.0 / 60.0) / 4.0;
        let complete = progress >= 1.0;
        if complete {
            progress = 1.0;
        }
        let target = (90.0 + (150.0 - 90.0) * progress) as u16;
        s.on_build_progress(complete, target);
    };
    for _ in 0..240 {
        tick(&mut s);
    }
    assert!(s.current_hp > 90);

    // Complete build
    for _ in 0..600 {
        tick(&mut s);
    }
    assert!(!s.building);
    assert_eq!(s.current_hp, 150); // wood max

    // Damage
    assert!(!s.take_damage(100));
    assert_eq!(s.current_hp, 50);
    assert!(s.take_damage(50));
    assert_eq!(s.current_hp, 0);
}
