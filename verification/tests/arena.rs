use kami_engine::arena::ScoreBoard;

#[test]
fn scoreboard() {
    let mut sb = ScoreBoard::default();
    sb.add_kill(1);
    sb.add_kill(1);
    sb.add_kill(2);
    sb.add_gem(2);
    let lb = sb.leaderboard();
    assert_eq!(lb[0].0, 1); // player 1 has 2 kills
    assert_eq!(lb[0].1.kills, 2);
}

#[test]
fn scoreboard_credits_only_the_named_player() {
    let mut sb = ScoreBoard::default();
    sb.add_damage(7, 40);
    sb.add_death(3);
    sb.add_damage(7, 2);
    assert_eq!(sb.scores.len(), 2);
    assert_eq!(sb.scores[0].0, 7);
    assert_eq!(sb.scores[0].1.damage_dealt, 42);
    assert_eq!(sb.scores[0].1.deaths, 0);
    assert_eq!(sb.scores[1].0, 3);
    assert_eq!(sb.scores[1].1.deaths, 1);
    assert_eq!(sb.scores[1].1.damage_dealt, 0);
}

#[test]
fn scoreboard_ranking_is_stable_on_ties() {
    let mut sb = ScoreBoard::default();
    sb.add_gem(5);
    sb.add_kill(6);
    sb.add_gem(7);
    sb.add_kill(8);
    let lb = sb.leaderboard();
    let ids: Vec<u32> = lb.iter().map(|(id, _)| *id).collect();
    assert_eq!(ids, vec![6, 8, 5, 7]);
}
