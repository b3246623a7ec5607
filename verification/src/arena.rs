//! Arena scoring: per-player tallies and the kill ranking.

use vstd::prelude::*;
use crate::search::{
    first_match, lemma_first_match, lemma_first_match_step, lemma_first_match_prefix,
    lemma_first_match_same_hits,
};
use crate::ranking::{
    count_key_ge, sort_desc, sorted_desc, lemma_count_bounded, lemma_sort_len, lemma_sort_sorted,
    lemma_sort_permutes, lemma_sort_stable, key_is,
};

verus! {

/// One player's tallies.
#[derive(Debug, Clone)]
pub struct PlayerScore {
    pub kills: u32,
    pub deaths: u32,
    pub gems: u32,
    pub damage_dealt: u32,
}

impl Default for PlayerScore {
    fn default() -> (r: Self)
        ensures
            r == zero_score(),
    {
        PlayerScore { kills: 0, deaths: 0, gems: 0, damage_dealt: 0 }
    }
}

/// The tallies of a player who has not scored yet.
pub open spec fn zero_score() -> PlayerScore {
    PlayerScore { kills: 0, deaths: 0, gems: 0, damage_dealt: 0 }
}

/// Tallies per player, keyed by client id, in order of first appearance.
#[derive(Debug, Clone)]
pub struct ScoreBoard {
    pub scores: Vec<(u32, PlayerScore)>,
}

impl Default for ScoreBoard {
    fn default() -> (r: Self)
        ensures
            r.scores@.len() == 0,
    {
        ScoreBoard { scores: Vec::new() }
    }
}

/// The row of client `client_id`.
pub open spec fn client_is(client_id: u32) -> spec_fn((u32, PlayerScore)) -> bool {
    |e: (u32, PlayerScore)| e.0 == client_id
}

/// Index of the first row of `client_id`, or -1 when it has none.
pub open spec fn first_slot(s: Seq<(u32, PlayerScore)>, client_id: u32) -> int {
    first_match(s, client_is(client_id))
}

/// The rows with `client_id` given a zero row at the end when it has none.
pub open spec fn with_player(s: Seq<(u32, PlayerScore)>, client_id: u32) -> Seq<(u32, PlayerScore)> {
    if first_slot(s, client_id) >= 0 {
        s
    } else {
        s.push((client_id, zero_score()))
    }
}

/// The row that holds `client_id`'s tallies in `with_player(s, client_id)`.
pub open spec fn player_slot(s: Seq<(u32, PlayerScore)>, client_id: u32) -> int {
    if first_slot(s, client_id) >= 0 {
        first_slot(s, client_id)
    } else {
        s.len() as int
    }
}

/// A player's tallies (zero for a player without a row).
pub open spec fn score_of(s: Seq<(u32, PlayerScore)>, client_id: u32) -> PlayerScore {
    with_player(s, client_id)[player_slot(s, client_id)].1
}

/// The rows with `client_id`'s tallies replaced by `p`.
pub open spec fn with_score(s: Seq<(u32, PlayerScore)>, client_id: u32, p: PlayerScore) -> Seq<
    (u32, PlayerScore),
> {
    with_player(s, client_id).update(player_slot(s, client_id), (client_id, p))
}

/// Rows are ranked by kills.
pub open spec fn kills_key() -> spec_fn((u32, PlayerScore)) -> int {
    |e: (u32, PlayerScore)| e.1.kills as int
}

/// Crediting a player sets that player's tallies and leaves every other
/// player's tallies as they were.
pub proof fn lemma_credit_is_local(
    s: Seq<(u32, PlayerScore)>,
    client_id: u32,
    p: PlayerScore,
    other: u32,
)
    ensures
        score_of(with_score(s, client_id, p), client_id) == p,
        other != client_id ==> score_of(with_score(s, client_id, p), other) == score_of(s, other),
{
    let w = with_player(s, client_id);
    let k = player_slot(s, client_id);
    let u = with_score(s, client_id, p);
    lemma_first_match(s, client_is(client_id));
    lemma_first_match(s, client_is(other));
    lemma_first_match(w, client_is(client_id));
    lemma_first_match(w, client_is(other));
    if first_slot(s, client_id) < 0 {
        assert(w.drop_last() =~= s);
    }
    assert(first_slot(w, client_id) == k);
    assert forall|j: int| 0 <= j < u.len() implies client_is(client_id)(#[trigger] u[j]) == client_is(client_id)(w[j]) by {}
    assert forall|j: int| 0 <= j < u.len() implies client_is(other)(#[trigger] u[j]) == client_is(other)(w[j]) by {}
    lemma_first_match_same_hits(u, w, client_is(client_id));
    lemma_first_match_same_hits(u, w, client_is(other));
    if other != client_id {
        if first_slot(s, client_id) < 0 {
            assert(w.drop_last() =~= s);
            assert(first_slot(w, other) == first_slot(s, other));
        }
        let f = first_slot(s, other);
        if f >= 0 {
            assert(w[f].0 == other);
            assert(f != k);
            assert(u[f] == s[f]);
        }
    }
}

/// Rows with `k` kills.
pub open spec fn kills_are(k: int) -> spec_fn((u32, PlayerScore)) -> bool {
    |e: (u32, PlayerScore)| e.1.kills == k
}

/// The kill ranking is ordered by kills, most first, holds every row
/// exactly as often as the board does, and keeps rows with equal kills in
/// board order.
pub proof fn lemma_kill_ranking_orders(s: Seq<(u32, PlayerScore)>)
    ensures
        sorted_desc(sort_desc(s, kills_key()), kills_key()),
        sort_desc(s, kills_key()).to_multiset() =~= s.to_multiset(),
        sort_desc(s, kills_key()).len() == s.len(),
        forall|i: int, j: int|
            0 <= i <= j < s.len() ==> (#[trigger] sort_desc(s, kills_key())[i]).1.kills >= (
            #[trigger] sort_desc(s, kills_key())[j]).1.kills,
        forall|k: int| #[trigger] sort_desc(s, kills_key()).filter(kills_are(k)) =~= s.filter(kills_are(k)),
{
    lemma_sort_sorted(s, kills_key());
    lemma_sort_len(s, kills_key());
    assert forall|k: int| #[trigger] sort_desc(s, kills_key()).filter(kills_are(k)) =~= s.filter(kills_are(k)) by {
        lemma_sort_stable(s, kills_key(), k);
        assert(key_is(kills_key(), k) =~= kills_are(k));
    }
    lemma_sort_permutes(s, kills_key());
    lemma_sort_len(s, kills_key());
}

/// The board after a kill is credited to `client_id`.
pub open spec fn after_kill(s: Seq<(u32, PlayerScore)>, client_id: u32) -> Seq<(u32, PlayerScore)> {
    with_score(s, client_id, PlayerScore { kills: (score_of(s, client_id).kills + 1) as u32, ..score_of(s, client_id) })
}

/// The board after a death is credited to `client_id`.
pub open spec fn after_death(s: Seq<(u32, PlayerScore)>, client_id: u32) -> Seq<(u32, PlayerScore)> {
    with_score(s, client_id, PlayerScore { deaths: (score_of(s, client_id).deaths + 1) as u32, ..score_of(s, client_id) })
}

/// The board after a gem is credited to `client_id`.
pub open spec fn after_gem(s: Seq<(u32, PlayerScore)>, client_id: u32) -> Seq<(u32, PlayerScore)> {
    with_score(s, client_id, PlayerScore { gems: (score_of(s, client_id).gems + 1) as u32, ..score_of(s, client_id) })
}

/// The board after `amount` damage is credited to `client_id`.
pub open spec fn after_damage(s: Seq<(u32, PlayerScore)>, client_id: u32, amount: u32) -> Seq<(u32, PlayerScore)> {
    with_score(
        s,
        client_id,
        PlayerScore { damage_dealt: (score_of(s, client_id).damage_dealt + amount) as u32, ..score_of(s, client_id) },
    )
}

/// Each credit raises exactly one tally of exactly one player: a kill,
/// a death or a gem by one, damage by the amount; the player's other
/// tallies and every other player's tallies stay as they were.  A player
/// not on the board starts from zero.
pub proof fn lemma_credits_raise_one_tally(s: Seq<(u32, PlayerScore)>, c: u32, other: u32, amount: u32)
    requires
        score_of(s, c).kills < u32::MAX,
        score_of(s, c).deaths < u32::MAX,
        score_of(s, c).gems < u32::MAX,
        score_of(s, c).damage_dealt + amount <= u32::MAX,
        other != c,
    ensures
        score_of(after_kill(s, c), c).kills == score_of(s, c).kills + 1,
        score_of(after_kill(s, c), c).deaths == score_of(s, c).deaths,
        score_of(after_kill(s, c), c).gems == score_of(s, c).gems,
        score_of(after_kill(s, c), c).damage_dealt == score_of(s, c).damage_dealt,
        score_of(after_death(s, c), c).deaths == score_of(s, c).deaths + 1,
        score_of(after_death(s, c), c).kills == score_of(s, c).kills,
        score_of(after_death(s, c), c).gems == score_of(s, c).gems,
        score_of(after_death(s, c), c).damage_dealt == score_of(s, c).damage_dealt,
        score_of(after_gem(s, c), c).gems == score_of(s, c).gems + 1,
        score_of(after_gem(s, c), c).kills == score_of(s, c).kills,
        score_of(after_gem(s, c), c).deaths == score_of(s, c).deaths,
        score_of(after_gem(s, c), c).damage_dealt == score_of(s, c).damage_dealt,
        score_of(after_damage(s, c, amount), c).damage_dealt == score_of(s, c).damage_dealt + amount,
        score_of(after_damage(s, c, amount), c).kills == score_of(s, c).kills,
        score_of(after_damage(s, c, amount), c).deaths == score_of(s, c).deaths,
        score_of(after_damage(s, c, amount), c).gems == score_of(s, c).gems,
        score_of(after_kill(s, c), other) == score_of(s, other),
        score_of(after_death(s, c), other) == score_of(s, other),
        score_of(after_gem(s, c), other) == score_of(s, other),
        score_of(after_damage(s, c, amount), other) == score_of(s, other),
        first_slot(s, c) < 0 ==> score_of(s, c) == (PlayerScore { kills: 0, deaths: 0, gems: 0, damage_dealt: 0 }),
{
    let k = PlayerScore { kills: (score_of(s, c).kills + 1) as u32, ..score_of(s, c) };
    let d = PlayerScore { deaths: (score_of(s, c).deaths + 1) as u32, ..score_of(s, c) };
    let g = PlayerScore { gems: (score_of(s, c).gems + 1) as u32, ..score_of(s, c) };
    let m = PlayerScore { damage_dealt: (score_of(s, c).damage_dealt + amount) as u32, ..score_of(s, c) };
    lemma_credit_is_local(s, c, k, other);
    lemma_credit_is_local(s, c, d, other);
    lemma_credit_is_local(s, c, g, other);
    lemma_credit_is_local(s, c, m, other);
}

impl ScoreBoard {
    /// Credit a kill.
    pub fn add_kill(&mut self, client_id: u32)
        requires
            score_of(old(self).scores@, client_id).kills < u32::MAX,
        ensures
            final(self).scores@ == after_kill(old(self).scores@, client_id),
    {
        let pos = self.ensure(client_id);
        let p = PlayerScore {
            kills: self.scores[pos].1.kills + 1,
            deaths: self.scores[pos].1.deaths,
            gems: self.scores[pos].1.gems,
            damage_dealt: self.scores[pos].1.damage_dealt,
        };
        self.scores.set(pos, (client_id, p));
    }

    /// Credit a death.
    pub fn add_death(&mut self, client_id: u32)
        requires
            score_of(old(self).scores@, client_id).deaths < u32::MAX,
        ensures
            final(self).scores@ == after_death(old(self).scores@, client_id),
    {
        let pos = self.ensure(client_id);
        let p = PlayerScore {
            kills: self.scores[pos].1.kills,
            deaths: self.scores[pos].1.deaths + 1,
            gems: self.scores[pos].1.gems,
            damage_dealt: self.scores[pos].1.damage_dealt,
        };
        self.scores.set(pos, (client_id, p));
    }

    /// Credit a collected gem.
    pub fn add_gem(&mut self, client_id: u32)
        requires
            score_of(old(self).scores@, client_id).gems < u32::MAX,
        ensures
            final(self).scores@ == after_gem(old(self).scores@, client_id),
    {
        let pos = self.ensure(client_id);
        let p = PlayerScore {
            kills: self.scores[pos].1.kills,
            deaths: self.scores[pos].1.deaths,
            gems: self.scores[pos].1.gems + 1,
            damage_dealt: self.scores[pos].1.damage_dealt,
        };
        self.scores.set(pos, (client_id, p));
    }

    /// Credit damage dealt.
    pub fn add_damage(&mut self, client_id: u32, amount: u32)
        requires
            score_of(old(self).scores@, client_id).damage_dealt + amount <= u32::MAX,
        ensures
            final(self).scores@ == after_damage(old(self).scores@, client_id, amount),
    {
        let pos = self.ensure(client_id);
        let p = PlayerScore {
            kills: self.scores[pos].1.kills,
            deaths: self.scores[pos].1.deaths,
            gems: self.scores[pos].1.gems,
            damage_dealt: self.scores[pos].1.damage_dealt + amount,
        };
        self.scores.set(pos, (client_id, p));
    }

    /// The row of `client_id`, appended with zero tallies when missing.
    fn ensure(&mut self, client_id: u32) -> (pos: usize)
        ensures
            final(self).scores@ == with_player(old(self).scores@, client_id),
            pos == player_slot(old(self).scores@, client_id),
            pos < final(self).scores@.len(),
    {
        let ghost s = self.scores@;
        proof { lemma_first_match(s, client_is(client_id)); }
        let mut j: usize = 0;
        while j < self.scores.len()
            invariant
                j <= self.scores.len(),
                self.scores@ == s,
                first_slot(s.take(j as int), client_id) == -1,
            decreases self.scores.len() - j,
        {
            proof { lemma_first_match_step(s, client_is(client_id), j as int); }
            if self.scores[j].0 == client_id {
                proof { lemma_first_match_prefix(s, client_is(client_id), j + 1); }
                return j;
            }
            j = j + 1;
        }
        assert(s.take(j as int) =~= s);
        self.scores.push((client_id, PlayerScore { kills: 0, deaths: 0, gems: 0, damage_dealt: 0 }));
        j
    }

    /// The players ordered by kills, most first; players with equal kills
    /// keep the order of their rows.
    pub fn leaderboard(&self) -> (r: Vec<(u32, &PlayerScore)>)
        ensures
            r@.len() == self.scores@.len(),
            forall|i: int| 0 <= i < r@.len() ==> {
                &&& (#[trigger] r@[i]).0 == sort_desc(self.scores@, kills_key())[i].0
                &&& *r@[i].1 == sort_desc(self.scores@, kills_key())[i].1
            },
    {
        let ghost orig = self.scores@;
        let mut out: Vec<(u32, &PlayerScore)> = Vec::new();
        let mut i: usize = 0;
        proof { lemma_sort_len(orig.take(0), kills_key()); }
        while i < self.scores.len()
            invariant
                i <= self.scores.len(),
                self.scores@ == orig,
                out@.len() == i,
                forall|j: int| 0 <= j < i ==> {
                    &&& (#[trigger] out@[j]).0 == sort_desc(orig.take(i as int), kills_key())[j].0
                    &&& *out@[j].1 == sort_desc(orig.take(i as int), kills_key())[j].1
                },
            decreases self.scores.len() - i,
        {
            let ghost sorted_before = sort_desc(orig.take(i as int), kills_key());
            let ghost before = out@;
            let id = self.scores[i].0;
            let p: &PlayerScore = &self.scores[i].1;
            proof { lemma_sort_len(orig.take(i as int), kills_key()); }
            // position behind every row with at least as many kills
            let mut k: usize = 0;
            let mut m: usize = 0;
            while m < out.len()
                invariant
                    m <= out.len(),
                    out@ == before,
                    out@.len() == sorted_before.len(),
                    k <= m,
                    k == count_key_ge(sorted_before.take(m as int), kills_key(), p.kills as int),
                    forall|j: int| 0 <= j < out@.len() ==> (#[trigger] out@[j]).1.kills == sorted_before[j].1.kills,
                decreases out.len() - m,
            {
                assert(sorted_before.take(m + 1).drop_last() =~= sorted_before.take(m as int));
                if out[m].1.kills >= p.kills {
                    k = k + 1;
                }
                m = m + 1;
            }
            assert(sorted_before.take(m as int) =~= sorted_before);
            proof {
                lemma_count_bounded(sorted_before, kills_key(), p.kills as int);
                lemma_sort_len(orig.take(i as int), kills_key());
            }
            out.insert(k, (id, p));
            proof {
                assert(orig.take(i + 1).drop_last() =~= orig.take(i as int));
                assert(orig.take(i + 1).last() == orig[i as int]);
                let after = sort_desc(orig.take(i + 1), kills_key());
                assert(after == sorted_before.insert(k as int, orig[i as int]));
                sorted_before.insert_ensures(k as int, orig[i as int]);
                before.insert_ensures(k as int, (id, p));
                assert forall|j: int| 0 <= j < i + 1 implies {
                    &&& (#[trigger] out@[j]).0 == after[j].0
                    &&& *out@[j].1 == after[j].1
                } by {
                    if j < k {
                    } else if j == k {
                    } else {
                        assert(out@[j] == before[j - 1]);
                        assert(after[j] == sorted_before[j - 1]);
                    }
                }
            }
            i = i + 1;
        }
        assert(orig.take(i as int) =~= orig);
        out
    }
}

} // verus!
