use kami_engine::ketsu::{wave_bananas, GorillaState, GoriketsuState, KetsuEvent, Phase};

fn chasing(mut g: GoriketsuState) -> GoriketsuState {
    g.apply(KetsuEvent::Slap { in_range: true });
    g.apply(KetsuEvent::WakeDone);
    g
}

#[test]
fn new_game_initializes() {
    let g = GoriketsuState::new();
    assert_eq!(g.phase, Phase::Sneak);
    assert_eq!(g.wave, 0);
    assert_eq!(g.gorilla_state, GorillaState::Sleeping);
    assert_eq!(g.score, 0);
    assert_eq!(g.catches_remaining(), 5);
}

#[test]
fn slap_in_range_triggers_alert() {
    let mut g = GoriketsuState::new();
    g.apply(KetsuEvent::Slap { in_range: true });
    assert_eq!(g.phase, Phase::Alert);
    assert_eq!(g.gorilla_state, GorillaState::Waking);
    assert!(g.score >= 100);
    assert_eq!(g.score, 100);
    assert_eq!(g.hit_stop_frames, 6);
    assert!(g.bananas_needed > 0);
    assert_eq!(g.bananas_needed, 4);
    assert!(g.hit_stop());
    assert_eq!(g.hit_stop_frames, 5);
    g.apply(KetsuEvent::WakeDone);
    assert_eq!(g.phase, Phase::Chase);
    assert_eq!(g.gorilla_state, GorillaState::Chasing);
}

#[test]
fn slap_out_of_range_stays_sneak() {
    let mut g = GoriketsuState::new();
    g.apply(KetsuEvent::Slap { in_range: false });
    assert_eq!(g.phase, Phase::Sneak);
    assert_eq!(g, GoriketsuState::new());
}

#[test]
fn banana_collection_increases_score() {
    let mut g = GoriketsuState::new();
    g.phase = Phase::Chase;
    g.gorilla_state = GorillaState::Chasing;
    g.bananas_needed = 1;
    let score_before = g.score;
    g.apply(KetsuEvent::BananaCollected { golden: false });
    assert_eq!(g.bananas_collected, 1);
    assert!(g.score > score_before);
}

#[test]
fn wave_clear_advances() {
    let mut g = GoriketsuState::new();
    g.phase = Phase::Chase;
    g.gorilla_state = GorillaState::Chasing;
    g.bananas_needed = 1;
    g.bananas_collected = 1;
    g.apply(KetsuEvent::WaveCheck);
    assert!(g.phase == Phase::Rest || g.phase == Phase::Victory);
    assert_eq!(g.phase, Phase::Rest);
}

#[test]
fn catches_are_not_immediate_game_over() {
    let mut g = GoriketsuState::new();
    g.phase = Phase::Chase;
    g.gorilla_state = GorillaState::Chasing;
    g.bananas_needed = 99;
    g.apply(KetsuEvent::Caught);
    g.apply(KetsuEvent::WaveCheck);
    assert_eq!(g.phase, Phase::Chase);
    assert_eq!(g.catches_taken, 1);
}

#[test]
fn peace_path_triggers_after_wait() {
    let mut g = GoriketsuState::new();
    g.apply(KetsuEvent::PeaceWaitOver);
    assert!(g.peace_path);
    assert!(
        g.gorilla_state == GorillaState::WakingPeace || g.gorilla_state == GorillaState::Friendly
    );
}

#[test]
fn banana_combo_multiplies_and_golden_triples() {
    let mut g = chasing(GoriketsuState::new());
    g.apply(KetsuEvent::BananaCollected { golden: false });
    assert_eq!(g.score, 110);
    g.apply(KetsuEvent::BananaCollected { golden: false });
    assert_eq!(g.score, 130);
    g.apply(KetsuEvent::BananaCollected { golden: true });
    assert_eq!(g.score, 220);
    assert_eq!(g.combo, 3);
    assert_eq!(g.bananas_collected, 3);
    g.apply(KetsuEvent::ComboExpired);
    g.apply(KetsuEvent::BananaCollected { golden: false });
    assert_eq!(g.score, 230);
}

#[test]
fn near_misses_score_more_each_time() {
    let mut g = chasing(GoriketsuState::new());
    g.apply(KetsuEvent::NearMiss);
    g.apply(KetsuEvent::NearMiss);
    assert_eq!(g.score, 100 + 25 + 50);
}

#[test]
fn five_catches_end_the_game() {
    let mut g = chasing(GoriketsuState::new());
    for i in 1..5 {
        g.apply(KetsuEvent::Caught);
        assert_eq!(g.catches_taken, i);
        assert_eq!(g.phase, Phase::Chase);
    }
    assert_eq!(g.score, 0);
    g.apply(KetsuEvent::Caught);
    assert_eq!(g.phase, Phase::GameOver);
    assert_eq!(g.gorilla_state, GorillaState::Caught);
    assert_eq!(g.catches_remaining(), 0);
    // a finished game ignores further events
    let before = g;
    g.apply(KetsuEvent::BananaCollected { golden: true });
    g.apply(KetsuEvent::RestOver);
    assert_eq!(g, before);
}

#[test]
fn clearing_every_wave_wins() {
    let mut g = GoriketsuState::new();
    for wave in 0..3usize {
        g = chasing(g);
        let (b, gold) = wave_bananas(wave);
        assert_eq!(g.bananas_needed, b + gold);
        for _ in 0..(b + gold) {
            g.apply(KetsuEvent::BananaCollected { golden: false });
        }
        g.apply(KetsuEvent::Caught);
        g.apply(KetsuEvent::WaveCheck);
        if wave < 2 {
            assert_eq!(g.phase, Phase::Rest);
            assert_eq!(g.catches_taken, 0);
            g.apply(KetsuEvent::RestOver);
            assert_eq!(g.phase, Phase::Sneak);
            assert_eq!(g.wave, wave + 1);
        }
    }
    assert_eq!(g.phase, Phase::Victory);
    assert_eq!(g.hi_score, g.score);
}

#[test]
fn waiting_in_peace_befriends_the_gorilla() {
    let mut g = GoriketsuState::new();
    g.apply(KetsuEvent::PeaceWaitOver);
    assert!(g.peace_path);
    assert_eq!(g.gorilla_state, GorillaState::WakingPeace);
    g.apply(KetsuEvent::WakeDone);
    assert_eq!(g.phase, Phase::PeaceVictory);
    assert_eq!(g.score, 2000);
    assert_eq!(g.hi_score, 2000);
}

#[test]
fn wave_table() {
    assert_eq!(wave_bananas(0), (4, 0));
    assert_eq!(wave_bananas(1), (6, 1));
    assert_eq!(wave_bananas(2), (5, 1));
    assert_eq!(wave_bananas(9), (5, 1));
}

#[test]
fn overflowing_events_are_refused() {
    let mut g = GoriketsuState::new();
    assert!(g.can_apply(KetsuEvent::Slap { in_range: true }));
    g.score = i32::MAX - 20;
    assert!(!g.can_apply(KetsuEvent::Slap { in_range: true }));
    assert!(g.can_apply(KetsuEvent::Slap { in_range: false }));
    g.phase = Phase::Chase;
    assert!(g.can_apply(KetsuEvent::BananaCollected { golden: false }));
    assert!(!g.can_apply(KetsuEvent::BananaCollected { golden: true }));
    g.phase = Phase::GameOver;
    assert!(g.can_apply(KetsuEvent::BananaCollected { golden: true }));
}
