use kami_engine::addons::{
    gacha_draw, DailyBonus, EnergySystem, GameEvent, Leaderboard, Mission, TelemetryBuffer,
};

#[test]
fn leaderboard_ranking() {
    let mut lb = Leaderboard::new();
    lb.submit("a", "Alice", 100);
    lb.submit("b", "Bob", 200);
    lb.submit("c", "Carol", 150);
    let top = lb.top(3);
    assert_eq!(top[0].user_id, "b");
    assert_eq!(top[0].rank, 1);
    assert_eq!(top[1].user_id, "c");
    assert_eq!(top[2].user_id, "a");
}

#[test]
fn daily_bonus_streak() {
    let mut bonus = DailyBonus::new();
    assert_eq!(bonus.claim("2026-03-21"), 10);
    assert_eq!(bonus.claim("2026-03-21"), 0); // no double claim
    assert_eq!(bonus.claim("2026-03-22"), 15);
    assert_eq!(bonus.day_streak, 2);
}

#[test]
fn mission_progress() {
    let mut m = Mission {
        id: "kill-10".into(),
        title: "Kill 10".into(),
        progress: 0,
        target: 10,
        reward_gems: 50,
        completed: false,
    };
    assert!(!m.advance(5));
    assert!(m.advance(5));
    assert!(!m.advance(1)); // already completed
}

#[test]
fn energy_system() {
    let mut e = EnergySystem::new(100);
    assert!(e.spend(30));
    assert_eq!(e.current, 70);
    assert!(!e.spend(80)); // not enough
    e.recover(10);
    assert_eq!(e.current, 80);
}

#[test]
fn gacha_draw_rates() {
    let results = gacha_draw("test-banner", 100);
    assert_eq!(results.len(), 100);
    let legendary_count = results.iter().filter(|r| r.rarity == "legendary").count();
    assert!(legendary_count < 10); // ~3%
}

#[test]
fn leaderboard_keeps_best_score_and_one_row_per_user() {
    let mut lb = Leaderboard::new();
    lb.submit("a", "Alice", 100);
    lb.submit("b", "Bob", 50);
    lb.submit("a", "Alice", 40); // lower score: kept at 100
    assert_eq!(lb.entries.len(), 2);
    assert_eq!(lb.entries[0].user_id, "a");
    assert_eq!(lb.entries[0].score, 100);
    lb.submit("b", "Bob", 300); // higher score: moves up
    assert_eq!(lb.entries[0].user_id, "b");
    assert_eq!(lb.entries[0].score, 300);
    assert_eq!(lb.entries[0].rank, 1);
    assert_eq!(lb.entries[1].user_id, "a");
    assert_eq!(lb.entries[1].rank, 2);
}

#[test]
fn leaderboard_ties_keep_submission_order() {
    let mut lb = Leaderboard::new();
    lb.submit("x", "X", 10);
    lb.submit("y", "Y", 10);
    lb.submit("z", "Z", 10);
    let ids: Vec<&str> = lb.entries.iter().map(|e| e.user_id.as_str()).collect();
    assert_eq!(ids, vec!["x", "y", "z"]);
    let ranks: Vec<u32> = lb.entries.iter().map(|e| e.rank).collect();
    assert_eq!(ranks, vec![1, 2, 3]);
}

#[test]
fn leaderboard_resubmission_changes_nothing() {
    let mut lb = Leaderboard::new();
    lb.submit("a", "Alice", 7);
    lb.submit("b", "Bob", 9);
    lb.submit("b", "Bob", 9);
    assert_eq!(lb.entries.len(), 2);
    assert_eq!(lb.entries[0].user_id, "b");
    assert_eq!(lb.entries[1].user_id, "a");
}

#[test]
fn leaderboard_top_is_capped_at_the_board_size() {
    let mut lb = Leaderboard::new();
    lb.submit("a", "Alice", 1);
    assert_eq!(lb.top(5).len(), 1);
    assert_eq!(lb.top(0).len(), 0);
}

#[test]
fn daily_bonus_reward_grows_by_five() {
    let mut bonus = DailyBonus::new();
    assert_eq!(bonus.claim("d1"), 10);
    assert_eq!(bonus.claim("d2"), 15);
    assert_eq!(bonus.claim("d3"), 20);
    assert_eq!(bonus.claim("d4"), 25);
    assert_eq!(bonus.gems_reward, 25);
    assert_eq!(bonus.last_claim_date, "d4");
}

#[test]
fn mission_progress_is_capped_at_target() {
    let mut m = Mission {
        id: "m".into(),
        title: "M".into(),
        progress: 3,
        target: 10,
        reward_gems: 5,
        completed: false,
    };
    assert!(m.advance(50));
    assert_eq!(m.progress, 10);
    assert!(m.completed);
    assert!(!m.advance(1));
    assert_eq!(m.progress, 10);
}

#[test]
fn energy_recovery_stops_at_maximum() {
    let mut e = EnergySystem::new(20);
    assert!(e.spend(20));
    assert_eq!(e.current, 0);
    e.recovery_rate = 3;
    e.recover(4);
    assert_eq!(e.current, 12);
    e.recover(100);
    assert_eq!(e.current, 20);
}

#[test]
fn gacha_draw_is_deterministic_and_prefix_stable() {
    let a = gacha_draw("banner-x", 20);
    let b = gacha_draw("banner-x", 5);
    for i in 0..5 {
        assert_eq!(a[i].item_id, b[i].item_id);
        assert_eq!(a[i].rarity, b[i].rarity);
    }
    assert!(gacha_draw("anything", 0).is_empty());
}

#[test]
fn gacha_draw_exact_items() {
    // "a" hashes to 97; roll of draw i is 97 * (i + 1) mod 100.
    let r = gacha_draw("a", 4);
    // rolls 97, 94, 91, 88: all common
    for g in &r {
        assert_eq!(g.rarity, "common");
        assert_eq!(g.item_id, "potion-hp");
        assert_eq!(g.item_name, "Health Potion");
    }
    // "\u{1}" hashes to 1: rolls 1, 2, 3, ..., 15, 16, ..., 35, 36
    let r = gacha_draw("\u{1}", 36);
    assert_eq!(r[0].rarity, "legendary");
    assert_eq!(r[0].item_id, "sword-legendary");
    assert_eq!(r[1].rarity, "legendary");
    assert_eq!(r[2].rarity, "epic"); // roll 3
    assert_eq!(r[2].item_name, "Epic Armor");
    assert_eq!(r[13].rarity, "epic"); // roll 14
    assert_eq!(r[14].rarity, "rare"); // roll 15
    assert_eq!(r[14].item_id, "gem-blue");
    assert_eq!(r[34].rarity, "common"); // roll 35
}

fn event(n: u32) -> GameEvent {
    GameEvent {
        event_type: "hit".into(),
        entity_id: format!("e{}", n),
        payload: String::new(),
        tick: n,
    }
}

#[test]
fn telemetry_keeps_the_newest_events() {
    let mut t = TelemetryBuffer::new(3);
    for n in 0..5 {
        t.track(event(n));
        assert!(t.len() <= 3);
    }
    assert_eq!(t.len(), 3);
    let drained = t.drain();
    let ticks: Vec<u32> = drained.iter().map(|e| e.tick).collect();
    assert_eq!(ticks, vec![2, 3, 4]);
    assert_eq!(t.len(), 0);
}

#[test]
fn drain_after_many_tracks_returns_the_newest_in_order() {
    for k in 0..8u32 {
        let mut t = TelemetryBuffer::new(3);
        for n in 1..=k {
            t.track(event(n));
        }
        let ticks: Vec<u32> = t.drain().iter().map(|e| e.tick).collect();
        let expected: Vec<u32> = (k.saturating_sub(3) + 1..=k).collect();
        assert_eq!(ticks, expected);
        assert_eq!(t.len(), 0);
        assert!(t.drain().is_empty());
    }
}

#[test]
fn equal_scores_keep_their_submission_order() {
    let mut lb = Leaderboard::new();
    lb.submit("a", "A", 50);
    lb.submit("b", "B", 70);
    lb.submit("c", "C", 50);
    lb.submit("d", "D", 50);
    let order: Vec<&str> = lb.entries.iter().map(|e| e.user_id.as_str()).collect();
    assert_eq!(order, vec!["b", "a", "c", "d"]);
    let ranks: Vec<u32> = lb.entries.iter().map(|e| e.rank).collect();
    assert_eq!(ranks, vec![1, 2, 3, 4]);
}
