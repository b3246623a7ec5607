//! Platform services of an island: presence, chat, leaderboard, daily
//! bonus, missions, gacha, energy and telemetry.

use vstd::prelude::*;
use vstd::string::StringSliceAdditionalSpecFns;
use crate::search::{first_match, lemma_first_match, lemma_first_match_step, lemma_first_match_prefix};
use crate::ranking::{
    count_key_ge, sort_desc, sorted_desc, unique_by, lemma_count_bounded, lemma_sort_len,
    lemma_sort_sorted, lemma_sort_permutes, lemma_sort_contains, lemma_sort_unique,
    lemma_sort_of_sorted, lemma_sort_stable, key_is,
};

verus! {

// ── Social ──

/// Online presence of a user.
#[derive(Debug, Clone, Copy, PartialEq, Eq, Structural)]
pub enum PresenceState {
    Online,
    Away,
    InGame,
    Offline,
}

/// Presence of a user and the island they are on.
#[derive(Debug, Clone)]
pub struct PresenceStatus {
    pub user_id: String,
    pub status: PresenceState,
    pub island_id: Option<String>,
}

/// One chat line.
#[derive(Debug, Clone)]
pub struct ChatMessage {
    pub sender_id: String,
    pub channel: String,
    pub content: String,
    pub tick: u32,
}

// ── Leaderboard ──

/// One row of a leaderboard.
#[derive(Debug)]
pub struct LeaderboardEntry {
    pub user_id: String,
    pub display_name: String,
    pub score: i64,
    pub rank: u32,
}

/// A leaderboard row as plain values.
pub struct EntryView {
    pub user_id: Seq<char>,
    pub display_name: Seq<char>,
    pub score: i64,
    pub rank: u32,
}

impl View for LeaderboardEntry {
    type V = EntryView;

    open spec fn view(&self) -> EntryView {
        EntryView {
            user_id: self.user_id@,
            display_name: self.display_name@,
            score: self.score,
            rank: self.rank,
        }
    }
}

/// The rows of a leaderboard as plain values.
pub open spec fn entry_views(s: Seq<LeaderboardEntry>) -> Seq<EntryView> {
    s.map_values(|e: LeaderboardEntry| e@)
}

/// Rows are ranked by score.
pub open spec fn score_key() -> spec_fn(EntryView) -> int {
    |e: EntryView| e.score as int
}

/// The rows of user `user_id`.
pub open spec fn user_is(user_id: Seq<char>) -> spec_fn(EntryView) -> bool {
    |e: EntryView| e.user_id == user_id
}

/// Index of the first row of `user_id`, or -1 when it has none.
pub open spec fn first_row_of(s: Seq<EntryView>, user_id: Seq<char>) -> int {
    first_match(s, user_is(user_id))
}

/// The rows after a submission and before they are re-ranked: a user's
/// best score is kept, an unknown user gets a new row at the end.
pub open spec fn submitted(
    s: Seq<EntryView>,
    user_id: Seq<char>,
    display_name: Seq<char>,
    score: i64,
) -> Seq<EntryView> {
    let i = first_row_of(s, user_id);
    if i >= 0 {
        if score > s[i].score {
            s.update(i, EntryView { score: score, ..s[i] })
        } else {
            s
        }
    } else {
        s.push(EntryView { user_id: user_id, display_name: display_name, score: score, rank: 0 })
    }
}

/// Rows numbered 1, 2, 3, ... in their order.
pub open spec fn ranked(s: Seq<EntryView>) -> Seq<EntryView> {
    Seq::new(s.len(), |i: int| EntryView { rank: (i + 1) as u32, ..s[i] })
}

/// What a leaderboard holds after a submission.
pub open spec fn after_submit(
    s: Seq<EntryView>,
    user_id: Seq<char>,
    display_name: Seq<char>,
    score: i64,
) -> Seq<EntryView> {
    ranked(sort_desc(submitted(s, user_id, display_name, score), score_key()))
}

/// A ranked leaderboard: ordered by score, highest first, and numbered
/// 1, 2, 3, ... in that order.
pub open spec fn is_ranked(s: Seq<EntryView>) -> bool {
    &&& sorted_desc(s, score_key())
    &&& forall|i: int| 0 <= i < s.len() ==> (#[trigger] s[i]).rank == i + 1
}

/// The user of a row.
pub open spec fn user_of() -> spec_fn(EntryView) -> Seq<char> {
    |e: EntryView| e.user_id
}

/// After any submission the board is ordered by score, highest first, and
/// ranked 1, 2, 3, ... in that order.
pub proof fn lemma_submit_ranks(
    s: Seq<EntryView>,
    user_id: Seq<char>,
    display_name: Seq<char>,
    score: i64,
)
    requires
        s.len() < u32::MAX,
    ensures
        is_ranked(after_submit(s, user_id, display_name, score)),
{
    let x = submitted(s, user_id, display_name, score);
    let t = sort_desc(x, score_key());
    lemma_sort_sorted(x, score_key());
    lemma_sort_len(x, score_key());
    lemma_first_match(s, user_is(user_id));
    assert(x.len() <= s.len() + 1);
    let a = after_submit(s, user_id, display_name, score);
    assert forall|i: int, j: int| 0 <= i <= j < a.len() implies score_key()(a[i]) >= score_key()(a[j]) by {
        assert(a[i].score == t[i].score && a[j].score == t[j].score);
    }
    assert forall|i: int| 0 <= i < a.len() implies (#[trigger] a[i]).rank == i + 1 by {
        assert(i + 1 <= u32::MAX);
    }
}

/// A submission only reorders and renumbers rows: the board is the
/// submitted rows, each occurring as often as before, sorted and ranked.
pub proof fn lemma_submit_rearranges(
    s: Seq<EntryView>,
    user_id: Seq<char>,
    display_name: Seq<char>,
    score: i64,
)
    ensures
        after_submit(s, user_id, display_name, score) == ranked(
            sort_desc(submitted(s, user_id, display_name, score), score_key()),
        ),
        sort_desc(submitted(s, user_id, display_name, score), score_key()).to_multiset()
            =~= submitted(s, user_id, display_name, score).to_multiset(),
        sorted_desc(sort_desc(submitted(s, user_id, display_name, score), score_key()), score_key()),
{
    lemma_sort_permutes(submitted(s, user_id, display_name, score), score_key());
    lemma_sort_sorted(submitted(s, user_id, display_name, score), score_key());
}

/// A board where each user has one row keeps one row per user.
pub proof fn lemma_submit_keeps_users_unique(
    s: Seq<EntryView>,
    user_id: Seq<char>,
    display_name: Seq<char>,
    score: i64,
)
    requires
        unique_by(s, user_of()),
    ensures
        unique_by(after_submit(s, user_id, display_name, score), user_of()),
{
    let x = submitted(s, user_id, display_name, score);
    lemma_first_match(s, user_is(user_id));
    assert(unique_by(x, user_of())) by {
        let i = first_row_of(s, user_id);
        if i < 0 {
            assert forall|a: int, b: int| 0 <= a < b < x.len() implies user_of()(#[trigger] x[a]) != user_of()(#[trigger] x[b]) by {
                if b == s.len() {
                    assert(s[a].user_id != user_id);
                } else {
                    assert(x[a] == s[a] && x[b] == s[b]);
                }
            }
        } else {
            assert forall|a: int, b: int| 0 <= a < b < x.len() implies user_of()(#[trigger] x[a]) != user_of()(#[trigger] x[b]) by {
                assert(x[a].user_id == s[a].user_id && x[b].user_id == s[b].user_id);
            }
        }
    }
    lemma_sort_unique(x, score_key(), user_of());
    let t = sort_desc(x, score_key());
    let a = after_submit(s, user_id, display_name, score);
    assert forall|i: int, j: int| 0 <= i < j < a.len() implies user_of()(#[trigger] a[i]) != user_of()(#[trigger] a[j]) by {
        assert(a[i].user_id == t[i].user_id && a[j].user_id == t[j].user_id);
    }
}

/// On a board with one row per user, submitting the same score twice has
/// the effect of submitting it once.
pub proof fn lemma_resubmit_is_idempotent(
    s: Seq<EntryView>,
    user_id: Seq<char>,
    display_name: Seq<char>,
    score: i64,
)
    requires
        s.len() < u32::MAX,
        unique_by(s, user_of()),
    ensures
        after_submit(after_submit(s, user_id, display_name, score), user_id, display_name, score)
            == after_submit(s, user_id, display_name, score),
{
    let x = submitted(s, user_id, display_name, score);
    let t = sort_desc(x, score_key());
    let a = after_submit(s, user_id, display_name, score);
    lemma_first_match(s, user_is(user_id));
    lemma_sort_len(x, score_key());
    // the submitting user's row in `x`
    let w_idx: int = if first_row_of(s, user_id) >= 0 { first_row_of(s, user_id) } else { s.len() as int };
    let w = x[w_idx];
    assert(w.user_id == user_id && w.score >= score);
    assert(x.contains(w));
    lemma_sort_contains(x, score_key(), w);
    let m = choose|m: int| 0 <= m < t.len() && t[m] == w;
    assert(a[m].user_id == user_id && a[m].score >= score);
    lemma_submit_keeps_users_unique(s, user_id, display_name, score);
    lemma_first_match(a, user_is(user_id));
    let f = first_row_of(a, user_id);
    assert(f >= 0);
    if f != m {
        if f < m {
            assert(user_of()(a[f]) != user_of()(a[m]));
        } else {
            assert(a[m].user_id != user_id);
        }
    }
    assert(submitted(a, user_id, display_name, score) == a);
    lemma_submit_ranks(s, user_id, display_name, score);
    lemma_sort_of_sorted(a, score_key());
    assert(ranked(a) =~= a);
}

/// After a submission the board runs from the highest score down, rows
/// are ranked 1, 2, 3, ... in that order, rows with equal scores keep
/// the order they had (a new row after the old ones), and the submitting
/// user holds a row with the better of their old and new score (the new
/// score for a user not yet on the board).
pub proof fn lemma_submit_keeps_the_best_score(
    s: Seq<EntryView>,
    user_id: Seq<char>,
    display_name: Seq<char>,
    score: i64,
)
    requires
        s.len() < u32::MAX,
    ensures
        ({
            let a = after_submit(s, user_id, display_name, score);
            let i = first_row_of(s, user_id);
            &&& forall|p: int, q: int| 0 <= p <= q < a.len() ==> (#[trigger] a[p]).score >= (#[trigger] a[q]).score
            &&& forall|p: int| 0 <= p < a.len() ==> (#[trigger] a[p]).rank == p + 1
            &&& exists|m: int|
                0 <= m < a.len() && (#[trigger] a[m]).user_id == user_id && a[m].score == if i >= 0 {
                    if score > s[i].score {
                        score
                    } else {
                        s[i].score
                    }
                } else {
                    score
                }
            &&& i < 0 ==> a.len() == s.len() + 1
            &&& i >= 0 ==> a.len() == s.len()
        }),
{
    let x = submitted(s, user_id, display_name, score);
    let t = sort_desc(x, score_key());
    let a = after_submit(s, user_id, display_name, score);
    lemma_first_match(s, user_is(user_id));
    lemma_sort_len(x, score_key());
    lemma_submit_ranks(s, user_id, display_name, score);
    assert forall|p: int, q: int| 0 <= p <= q < a.len() implies (#[trigger] a[p]).score >= (#[trigger] a[q]).score by {
        assert(score_key()(a[p]) >= score_key()(a[q]));
    }
    let i = first_row_of(s, user_id);
    let w_idx: int = if i >= 0 { i } else { s.len() as int };
    let w = x[w_idx];
    assert(x.contains(w));
    lemma_sort_contains(x, score_key(), w);
    let m = choose|m: int| 0 <= m < t.len() && t[m] == w;
    assert(a[m].user_id == w.user_id && a[m].score == w.score);
}

/// Submitting keeps scores of equal value in the order they had: for
/// every score `k`, the rows scoring `k`, ranks aside, come in the order of
/// the board with the submission applied.
pub proof fn lemma_submit_is_stable(
    s: Seq<EntryView>,
    user_id: Seq<char>,
    display_name: Seq<char>,
    score: i64,
    k: int,
)
    ensures
        sort_desc(submitted(s, user_id, display_name, score), score_key()).filter(scores_are(k))
            =~= submitted(s, user_id, display_name, score).filter(scores_are(k)),
        after_submit(s, user_id, display_name, score) == ranked(
            sort_desc(submitted(s, user_id, display_name, score), score_key()),
        ),
{
    lemma_sort_stable(submitted(s, user_id, display_name, score), score_key(), k);
    assert(key_is(score_key(), k) =~= scores_are(k));
}

/// Rows scoring `k`.
pub open spec fn scores_are(k: int) -> spec_fn(EntryView) -> bool {
    |e: EntryView| e.score == k
}

/// A ranked leaderboard of users who occur once each.
pub struct Leaderboard {
    pub entries: Vec<LeaderboardEntry>,
}

/// Index of the first row of `user_id`.
fn find_row(entries: &Vec<LeaderboardEntry>, user_id: &String) -> (r: Option<usize>)
    ensures
        r matches Some(i) ==> i == first_row_of(entry_views(entries@), user_id@),
        r is None ==> first_row_of(entry_views(entries@), user_id@) == -1,
{
    let ghost s = entry_views(entries@);
    let mut j: usize = 0;
    while j < entries.len()
        invariant
            j <= entries.len(),
            s == entry_views(entries@),
            first_row_of(s.take(j as int), user_id@) == -1,
        decreases entries.len() - j,
    {
        proof { lemma_first_match_step(s, user_is(user_id@), j as int); }
        if entries[j].user_id == *user_id {
            proof {
                lemma_first_match_prefix(s, user_is(user_id@), j + 1);
            }
            return Some(j);
        }
        j = j + 1;
    }
    assert(s.take(j as int) =~= s);
    None
}

/// Number of rows whose score is at least `score`.
fn count_score_at_least(entries: &Vec<LeaderboardEntry>, score: i64) -> (k: usize)
    ensures
        k == count_key_ge(entry_views(entries@), score_key(), score as int),
{
    let ghost s = entry_views(entries@);
    let mut k: usize = 0;
    let mut j: usize = 0;
    while j < entries.len()
        invariant
            j <= entries.len(),
            s == entry_views(entries@),
            k <= j,
            k == count_key_ge(s.take(j as int), score_key(), score as int),
        decreases entries.len() - j,
    {
        assert(s.take(j + 1).drop_last() =~= s.take(j as int));
        if entries[j].score >= score {
            k = k + 1;
        }
        j = j + 1;
    }
    assert(s.take(j as int) =~= s);
    k
}

/// The rows in stable descending order of score.
fn sort_by_score(rows: Vec<LeaderboardEntry>) -> (r: Vec<LeaderboardEntry>)
    ensures
        entry_views(r@) == sort_desc(entry_views(rows@), score_key()),
{
    let ghost orig = entry_views(rows@);
    let mut src = rows;
    let mut out: Vec<LeaderboardEntry> = Vec::new();
    let ghost mut i: int = 0;
    assert(orig.take(0) =~= Seq::<EntryView>::empty());
    assert(orig.skip(0) =~= orig);
    while src.len() > 0
        invariant
            0 <= i <= orig.len(),
            entry_views(src@) =~= orig.skip(i),
            entry_views(out@) == sort_desc(orig.take(i), score_key()),
        decreases src.len(),
    {
        let ghost before = out@;
        let ghost src_before = src@;
        assert(orig.skip(i).len() > 0);
        let x = src.remove(0);
        assert(entry_views(src_before)[0] == x@);
        assert(x@ == orig[i]);
        assert forall|j: int| 0 <= j < src@.len() implies #[trigger] entry_views(src@)[j] == orig.skip(i + 1)[j] by {
            assert(src@[j] == src_before[j + 1]);
            assert(entry_views(src_before)[j + 1] == orig.skip(i)[j + 1]);
        }
        assert(entry_views(src@) =~= orig.skip(i + 1));
        let k = count_score_at_least(&out, x.score);
        proof {
            lemma_count_bounded(entry_views(out@), score_key(), x.score as int);
        }
        out.insert(k, x);
        proof {
            assert(entry_views(out@) =~= entry_views(before).insert(k as int, x@));
            assert(orig.take(i + 1).drop_last() =~= orig.take(i));
            i = i + 1;
        }
    }
    assert(orig.take(i) =~= orig);
    out
}

/// Number the rows 1, 2, 3, ... in their order.
fn assign_ranks(rows: &mut Vec<LeaderboardEntry>)
    requires
        old(rows).len() <= u32::MAX,
    ensures
        entry_views(final(rows)@) == ranked(entry_views(old(rows)@)),
{
    let ghost s = entry_views(rows@);
    let mut i: usize = 0;
    while i < rows.len()
        invariant
            i <= rows.len(),
            rows.len() == s.len(),
            rows.len() <= u32::MAX,
            forall|j: int| 0 <= j < i ==> (#[trigger] entry_views(rows@)[j]) == (EntryView { rank: (j + 1) as u32, ..s[j] }),
            forall|j: int| i <= j < rows.len() ==> (#[trigger] entry_views(rows@)[j]) == s[j],
        decreases rows.len() - i,
    {
        let ghost prev = rows@;
        rows[i].rank = (i as u32) + 1;
        assert(rows@ =~= prev.update(i as int, LeaderboardEntry { rank: (i + 1) as u32, ..prev[i as int] }));
        assert forall|j: int| 0 <= j < rows.len() implies #[trigger] entry_views(rows@)[j] == if j == i {
            EntryView { rank: (j + 1) as u32, ..entry_views(prev)[j] }
        } else {
            entry_views(prev)[j]
        } by {}
        i = i + 1;
    }
    assert(entry_views(rows@) =~= ranked(s));
}

impl Leaderboard {
    /// An empty leaderboard.
    pub fn new() -> (r: Self)
        ensures
            r.entries@.len() == 0,
    {
        Self { entries: Vec::new() }
    }

    /// Record `score` for a user: a known user keeps the higher of the old
    /// and the new score, an unknown one joins; then all rows are ordered
    /// by score, highest first (ties keep their order), and ranked 1, 2, ...
    pub fn submit(&mut self, user_id: &str, display_name: &str, score: i64)
        requires
            old(self).entries.len() < u32::MAX,
        ensures
            entry_views(final(self).entries@) == after_submit(
                entry_views(old(self).entries@),
                user_id@,
                display_name@,
                score,
            ),
    {
        let ghost s0 = entry_views(self.entries@);
        let uid = user_id.to_owned();
        match find_row(&self.entries, &uid) {
            Some(i) => {
                proof { lemma_first_match(s0, user_is(uid@)); }
                if score > self.entries[i].score {
                    self.entries[i].score = score;
                    assert(entry_views(self.entries@) =~= submitted(s0, user_id@, display_name@, score));
                } else {
                    assert(entry_views(self.entries@) =~= submitted(s0, user_id@, display_name@, score));
                }
            },
            None => {
                self.entries.push(
                    LeaderboardEntry {
                        user_id: uid,
                        display_name: display_name.to_owned(),
                        score,
                        rank: 0,
                    },
                );
                assert(entry_views(self.entries@) =~= submitted(s0, user_id@, display_name@, score));
            },
        }
        let mut rows: Vec<LeaderboardEntry> = Vec::new();
        std::mem::swap(&mut rows, &mut self.entries);
        let mut sorted = sort_by_score(rows);
        proof {
            lemma_sort_len(submitted(s0, user_id@, display_name@, score), score_key());
        }
        assign_ranks(&mut sorted);
        self.entries = sorted;
    }

    /// The first `n` rows (all of them when there are fewer).
    pub fn top(&self, n: usize) -> (r: &[LeaderboardEntry])
        ensures
            r@ == self.entries@.take(if n < self.entries@.len() { n as int } else { self.entries@.len() as int }),
    {
        let k = if n < self.entries.len() { n } else { self.entries.len() };
        vstd::slice::slice_subrange(self.entries.as_slice(), 0, k)
    }
}

// ── Engagement ──

/// A login streak and the gems its next claim pays.
#[derive(Debug, Clone)]
pub struct DailyBonus {
    pub day_streak: u32,
    pub last_claim_date: String,
    pub gems_reward: i64,
}

/// Gems paid on the `streak`-th consecutive claim: 10, 15, 20, 25, ...
pub open spec fn streak_reward(streak: int) -> int {
    10 + (streak - 1) * 5
}

impl DailyBonus {
    /// No streak yet; a first claim pays 10 gems.
    pub fn new() -> (r: Self)
        ensures
            r.day_streak == 0,
            r.last_claim_date@.len() == 0,
            r.gems_reward == 10,
    {
        Self { day_streak: 0, last_claim_date: String::new(), gems_reward: 10 }
    }

    /// Claim the bonus of day `today`: nothing on a day already claimed,
    /// otherwise the streak grows by one and its reward is paid.
    pub fn claim(&mut self, today: &str) -> (paid: i64)
        requires
            old(self).last_claim_date@ != today@ ==> old(self).day_streak < u32::MAX,
        ensures
            old(self).last_claim_date@ == today@ ==> {
                &&& paid == 0
                &&& *final(self) == *old(self)
            },
            old(self).last_claim_date@ != today@ ==> {
                &&& final(self).day_streak == old(self).day_streak + 1
                &&& final(self).last_claim_date@ == today@
                &&& final(self).gems_reward == streak_reward(final(self).day_streak as int)
                &&& paid == final(self).gems_reward
            },
    {
        let day = today.to_owned();
        if self.last_claim_date == day {
            return 0;
        }
        self.day_streak = self.day_streak + 1;
        self.last_claim_date = day;
        self.gems_reward = 10 + (self.day_streak as i64 - 1) * 5;
        self.gems_reward
    }
}

/// The daily reward grows without end: the first claim of a streak pays
/// 10 gems and each further day of the streak pays exactly 5 more than the
/// day before.
pub proof fn lemma_streak_reward_grows(streak: int)
    requires
        streak >= 1,
    ensures
        streak_reward(1) == 10,
        streak_reward(streak + 1) == streak_reward(streak) + 5,
        streak_reward(streak) >= 10,
{
}

/// Claims on two new days in a row: the second extends the streak by one
/// and pays 5 gems more than the first.
pub proof fn lemma_next_day_pays_five_more(b0: DailyBonus, b1: DailyBonus, b2: DailyBonus, d1: Seq<char>, d2: Seq<char>)
    requires
        b0.last_claim_date@ != d1,
        d1 != d2,
        b1.day_streak == b0.day_streak + 1 && b1.last_claim_date@ == d1 && b1.gems_reward
            == streak_reward(b1.day_streak as int),
        b2.day_streak == b1.day_streak + 1 && b2.last_claim_date@ == d2 && b2.gems_reward
            == streak_reward(b2.day_streak as int),
    ensures
        b2.gems_reward == b1.gems_reward + 5,
        b1.gems_reward == 10 + 5 * b0.day_streak,
{
}

/// A mission: progress towards a target, paid once completed.
#[derive(Debug, Clone)]
pub struct Mission {
    pub id: String,
    pub title: String,
    pub progress: u32,
    pub target: u32,
    pub reward_gems: i64,
    pub completed: bool,
}

/// A mission after `amount` more progress: a completed one is unchanged;
/// otherwise progress grows, capped at the target, and the mission
/// completes when progress reaches the target.
pub open spec fn advanced(m: Mission, amount: u32) -> Mission {
    if m.completed {
        m
    } else {
        let p = if m.progress + amount < m.target {
            (m.progress + amount) as u32
        } else {
            m.target
        };
        Mission { progress: p, completed: p >= m.target, ..m }
    }
}

/// Progress never passes the target and never falls; a mission completes
/// exactly when its progress reaches the target, it gains exactly the
/// amount while short of the target, and once completed it stays as it is.
pub proof fn lemma_mission_progress(m: Mission, amount: u32)
    requires
        !m.completed ==> m.progress + amount <= u32::MAX,
    ensures
        m.completed ==> advanced(m, amount) == m,
        !m.completed ==> {
            let r = advanced(m, amount);
            &&& r.progress <= m.target
            &&& m.progress <= m.target ==> r.progress >= m.progress
            &&& m.progress + amount < m.target ==> r.progress == m.progress + amount
            &&& m.progress + amount >= m.target ==> r.progress == m.target
            &&& r.completed <==> r.progress >= m.target
            &&& r.target == m.target && r.reward_gems == m.reward_gems && r.id == m.id
        },
{
}

impl Mission {
    /// Add `amount` of progress, capped at the target; the mission
    /// completes when the target is reached.  Returns whether it is
    /// completed; a completed mission takes no more progress and returns false.
    pub fn advance(&mut self, amount: u32) -> (done: bool)
        requires
            !old(self).completed ==> old(self).progress + amount <= u32::MAX,
        ensures
            *final(self) == advanced(*old(self), amount),
            done == (!old(self).completed && final(self).completed),
    {
        if self.completed {
            return false;
        }
        let sum = self.progress + amount;
        self.progress = if sum < self.target { sum } else { self.target };
        if self.progress >= self.target {
            self.completed = true;
        }
        self.completed
    }
}

// ── Gacha ──

/// One item drawn from a banner.
#[derive(Debug, Clone)]
pub struct GachaResult {
    pub item_id: String,
    pub item_name: String,
    pub rarity: String,
}

/// A drawn item as plain values.
pub struct GachaView {
    pub item_id: Seq<char>,
    pub item_name: Seq<char>,
    pub rarity: Seq<char>,
}

impl View for GachaResult {
    type V = GachaView;

    open spec fn view(&self) -> GachaView {
        GachaView { item_id: self.item_id@, item_name: self.item_name@, rarity: self.rarity@ }
    }
}

/// Drawn items as plain values.
pub open spec fn gacha_views(s: Seq<GachaResult>) -> Seq<GachaView> {
    s.map_values(|g: GachaResult| g@)
}

/// The hash of a banner's name: acc * 31 + byte over its bytes, wrapping.
pub open spec fn banner_seed(bytes: Seq<u8>) -> u64
    decreases bytes.len(),
{
    if bytes.len() == 0 {
        0
    } else {
        vstd::wrapping::u64_specs::wrapping_add(
            vstd::wrapping::u64_specs::wrapping_mul(banner_seed(bytes.drop_last()), 31),
            bytes.last() as u64,
        )
    }
}

/// The roll, 0 to 99, of the `i`-th draw (counting from 0) under `seed`.
pub open spec fn gacha_roll(seed: u64, i: int) -> u64 {
    (vstd::wrapping::u64_specs::wrapping_mul(seed, (i + 1) as u64) % 100) as u64
}

/// The item a roll gives: legendary below 3, epic below 15, rare below 35,
/// common otherwise.
pub open spec fn gacha_item(roll: u64) -> GachaView {
    if roll < 3 {
        GachaView { item_id: "sword-legendary"@, item_name: "Legendary Blade"@, rarity: "legendary"@ }
    } else if roll < 15 {
        GachaView { item_id: "armor-epic"@, item_name: "Epic Armor"@, rarity: "epic"@ }
    } else if roll < 35 {
        GachaView { item_id: "gem-blue"@, item_name: "Blue Gem"@, rarity: "rare"@ }
    } else {
        GachaView { item_id: "potion-hp"@, item_name: "Health Potion"@, rarity: "common"@ }
    }
}

/// The `count` items drawn from the banner whose name has UTF-8 `bytes`.
pub open spec fn gacha_draws(bytes: Seq<u8>, count: nat) -> Seq<GachaView> {
    Seq::new(count, |i: int| gacha_item(gacha_roll(banner_seed(bytes), i)))
}

/// Drawing fewer items from a banner gives the first of the items that
/// drawing more would give.
pub proof fn lemma_gacha_draws_prefix(bytes: Seq<u8>, n: nat, m: nat)
    requires
        n <= m,
    ensures
        gacha_draws(bytes, n) =~= gacha_draws(bytes, m).take(n as int),
{
}

/// The banner hash reads the name's bytes in order: appending a byte
/// multiplies the hash by 31 and adds the byte, modulo 2^64; the empty name
/// hashes to 0.  The roll of the i-th draw is the hash times i + 1, modulo
/// 2^64, then modulo 100.
pub proof fn lemma_gacha_hash_and_roll(bytes: Seq<u8>, b: u8, seed: u64, i: nat)
    requires
        i < u64::MAX,
    ensures
        banner_seed(Seq::empty()) == 0,
        banner_seed(bytes.push(b)) as int == (banner_seed(bytes) * 31 + b) % 0x1_0000_0000_0000_0000,
        gacha_roll(seed, i as int) as int == ((seed * (i + 1)) % 0x1_0000_0000_0000_0000) % 100,
        gacha_roll(seed, i as int) < 100,
{
    assert(bytes.push(b).drop_last() =~= bytes);
    let h = banner_seed(bytes);
    let m = vstd::wrapping::u64_specs::wrapping_mul(h, 31);
    assert(m as int == (h * 31) % 0x1_0000_0000_0000_0000) by {
        reveal(vstd::wrapping::u64_specs::wrapping_mul);
    }
    assert(vstd::wrapping::u64_specs::wrapping_add(m, b as u64) as int == (m + b) % 0x1_0000_0000_0000_0000) by {
        reveal(vstd::wrapping::u64_specs::wrapping_add);
    }
    assert((((h * 31) % 0x1_0000_0000_0000_0000) + b) % 0x1_0000_0000_0000_0000 == (h * 31 + b)
        % 0x1_0000_0000_0000_0000) by (nonlinear_arith);
    assert(vstd::wrapping::u64_specs::wrapping_mul(seed, (i + 1) as u64) as int == (seed * (i + 1))
        % 0x1_0000_0000_0000_0000) by {
        reveal(vstd::wrapping::u64_specs::wrapping_mul);
    }
}

/// A roll below 3 draws the legendary blade, below 15 the epic armor, below
/// 35 the blue gem, anything else the health potion: rates of 3, 12, 20 and
/// 65 in 100.
pub proof fn lemma_gacha_rarities(roll: u64)
    ensures
        roll < 3 ==> gacha_item(roll).rarity == "legendary"@ && gacha_item(roll).item_id == "sword-legendary"@,
        3 <= roll < 15 ==> gacha_item(roll).rarity == "epic"@ && gacha_item(roll).item_id == "armor-epic"@,
        15 <= roll < 35 ==> gacha_item(roll).rarity == "rare"@ && gacha_item(roll).item_id == "gem-blue"@,
        35 <= roll ==> gacha_item(roll).rarity == "common"@ && gacha_item(roll).item_id == "potion-hp"@,
{
}

fn gacha_pick(roll: u64) -> (r: GachaResult)
    ensures
        r@ == gacha_item(roll),
{
    if roll < 3 {
        GachaResult {
            item_id: "sword-legendary".to_owned(),
            item_name: "Legendary Blade".to_owned(),
            rarity: "legendary".to_owned(),
        }
    } else if roll < 15 {
        GachaResult {
            item_id: "armor-epic".to_owned(),
            item_name: "Epic Armor".to_owned(),
            rarity: "epic".to_owned(),
        }
    } else if roll < 35 {
        GachaResult {
            item_id: "gem-blue".to_owned(),
            item_name: "Blue Gem".to_owned(),
            rarity: "rare".to_owned(),
        }
    } else {
        GachaResult {
            item_id: "potion-hp".to_owned(),
            item_name: "Health Potion".to_owned(),
            rarity: "common".to_owned(),
        }
    }
}

/// Draw `count` items from a banner.  The draws are a deterministic
/// function of the banner's name and the count.
pub fn gacha_draw(banner: &str, count: u32) -> (r: Vec<GachaResult>)
    ensures
        gacha_views(r@) == gacha_draws(banner.spec_bytes(), count as nat),
{
    let bytes = banner.as_bytes();
    let mut seed: u64 = 0;
    let mut j: usize = 0;
    while j < bytes.len()
        invariant
            j <= bytes@.len(),
            bytes@ == banner.spec_bytes(),
            seed == banner_seed(bytes@.take(j as int)),
        decreases bytes@.len() - j,
    {
        assert(bytes@.take(j + 1).drop_last() =~= bytes@.take(j as int));
        seed = seed.wrapping_mul(31).wrapping_add(bytes[j] as u64);
        j = j + 1;
    }
    assert(bytes@.take(j as int) =~= bytes@);
    let mut out: Vec<GachaResult> = Vec::new();
    let mut i: u32 = 0;
    while i < count
        invariant
            i <= count,
            seed == banner_seed(banner.spec_bytes()),
            gacha_views(out@) =~= gacha_draws(banner.spec_bytes(), i as nat),
        decreases count - i,
    {
        let roll = seed.wrapping_mul(i as u64 + 1) % 100;
        let item = gacha_pick(roll);
        let ghost before = out@;
        out.push(item);
        assert(gacha_views(out@) =~= gacha_views(before).push(item@));
        i = i + 1;
    }
    out
}

// ── Energy ──

/// Energy spent by actions and recovered over time.
#[derive(Debug, Clone)]
pub struct EnergySystem {
    pub current: u32,
    pub maximum: u32,
    /// Energy recovered per minute.
    pub recovery_rate: u32,
}

/// Energy after trying to spend `amount`: spent when there is that much.
pub open spec fn after_spend(e: EnergySystem, amount: u32) -> EnergySystem {
    if e.current >= amount {
        EnergySystem { current: (e.current - amount) as u32, ..e }
    } else {
        e
    }
}

/// Energy after `minutes` of recovery at its rate, up to its maximum.
pub open spec fn after_recover(e: EnergySystem, minutes: u32) -> EnergySystem {
    EnergySystem {
        current: if e.current + minutes * e.recovery_rate < e.maximum {
            (e.current + minutes * e.recovery_rate) as u32
        } else {
            e.maximum
        },
        ..e
    }
}

/// Spending takes exactly the amount when there is enough and nothing
/// otherwise; recovering adds the rate for each minute, stops at the
/// maximum, and never loses energy that is within it.  Neither changes the
/// maximum or the rate.
pub proof fn lemma_energy_spend_and_recover(e: EnergySystem, amount: u32, minutes: u32)
    requires
        e.current + minutes * e.recovery_rate <= u32::MAX,
    ensures
        e.current >= amount ==> after_spend(e, amount).current + amount == e.current,
        e.current < amount ==> after_spend(e, amount) == e,
        after_spend(e, amount).maximum == e.maximum,
        after_recover(e, minutes).current <= e.current + minutes * e.recovery_rate,
        e.current <= e.maximum ==> after_recover(e, minutes).current <= e.maximum,
        e.current <= e.maximum ==> after_recover(e, minutes).current >= e.current,
        e.current + minutes * e.recovery_rate <= e.maximum ==> after_recover(e, minutes).current
            == e.current + minutes * e.recovery_rate,
        e.current + minutes * e.recovery_rate >= e.maximum ==> after_recover(e, minutes).current
            == e.maximum,
        after_recover(e, minutes).maximum == e.maximum && after_recover(e, minutes).recovery_rate
            == e.recovery_rate,
{
    vstd::arithmetic::mul::lemma_mul_nonnegative(minutes as int, e.recovery_rate as int);
}

impl EnergySystem {
    /// Full energy `max`, recovering 1 per minute.
    pub fn new(max: u32) -> (r: Self)
        ensures
            r.current == max,
            r.maximum == max,
            r.recovery_rate == 1,
    {
        Self { current: max, maximum: max, recovery_rate: 1 }
    }

    /// Spend `amount` when there is that much; returns whether it was spent.
    pub fn spend(&mut self, amount: u32) -> (ok: bool)
        ensures
            ok == (old(self).current >= amount),
            *final(self) == after_spend(*old(self), amount),
    {
        if self.current < amount {
            return false;
        }
        self.current = self.current - amount;
        true
    }

    /// Recover over `minutes_elapsed` minutes, up to the maximum.
    pub fn recover(&mut self, minutes_elapsed: u32)
        requires
            old(self).current + minutes_elapsed * old(self).recovery_rate <= u32::MAX,
        ensures
            *final(self) == after_recover(*old(self), minutes_elapsed),
    {
        proof {
            vstd::arithmetic::mul::lemma_mul_nonnegative(minutes_elapsed as int, self.recovery_rate as int);
        }
        let gained = minutes_elapsed * self.recovery_rate;
        let total = self.current + gained;
        self.current = if total < self.maximum { total } else { self.maximum };
    }
}

/// Recovery never lifts energy above the maximum, and energy at most the
/// maximum stays so whatever is spent.
pub proof fn lemma_energy_within_maximum(current: u32, maximum: u32, gained: nat, spent: u32)
    ensures
        (if current + gained < maximum { current + gained } else { maximum as int }) <= maximum,
        current <= maximum && current >= spent ==> current - spent <= maximum,
{
}

// ── Telemetry ──

/// One recorded game event.
#[derive(Debug, Clone)]
pub struct GameEvent {
    pub event_type: String,
    pub entity_id: String,
    pub payload: String,
    pub tick: u32,
}

/// The most recent events, at most `max_buffer` of them.
pub struct TelemetryBuffer {
    events: Vec<GameEvent>,
    max_buffer: usize,
}

/// The events kept after `e` is tracked with `kept` held and room for `cap`:
/// the oldest event gives way when the buffer is full.
pub open spec fn window_after_track(kept: Seq<GameEvent>, cap: nat, e: GameEvent) -> Seq<GameEvent> {
    if kept.len() >= cap {
        kept.skip(1).push(e)
    } else {
        kept.push(e)
    }
}

impl TelemetryBuffer {
    #[verifier::type_invariant]
    spec fn within_capacity(self) -> bool {
        self.events.len() <= self.max_buffer
    }

    /// The buffered events, oldest first.
    pub closed spec fn events(self) -> Seq<GameEvent> {
        self.events@
    }

    /// How many events the buffer keeps.
    pub closed spec fn capacity(self) -> nat {
        self.max_buffer as nat
    }

    /// An empty buffer keeping at most `max_buffer` events.
    pub fn new(max_buffer: usize) -> (r: Self)
        ensures
            r.events() == Seq::<GameEvent>::empty(),
            r.capacity() == max_buffer,
    {
        Self { events: Vec::new(), max_buffer }
    }

    /// Record an event, dropping the oldest one when the buffer is full.
    pub fn track(&mut self, event: GameEvent)
        requires
            old(self).capacity() > 0,
        ensures
            final(self).events() == window_after_track(old(self).events(), old(self).capacity(), event),
            final(self).capacity() == old(self).capacity(),
            final(self).events().len() <= final(self).capacity(),
    {
        proof { use_type_invariant(&*self); }
        let mut events: Vec<GameEvent> = Vec::new();
        std::mem::swap(&mut events, &mut self.events);
        if events.len() >= self.max_buffer {
            let ghost before = events@;
            events.remove(0);
            assert(events@ =~= before.skip(1));
        }
        events.push(event);
        self.events = events;
    }

    /// Take all buffered events, oldest first, leaving the buffer empty.
    pub fn drain(&mut self) -> (r: Vec<GameEvent>)
        ensures
            r@ == old(self).events(),
            final(self).events() == Seq::<GameEvent>::empty(),
            final(self).capacity() == old(self).capacity(),
    {
        let mut out: Vec<GameEvent> = Vec::new();
        std::mem::swap(&mut out, &mut self.events);
        out
    }

    /// Number of buffered events; never more than the capacity.
    pub fn len(&self) -> (r: usize)
        ensures
            r == self.events().len(),
            r <= self.capacity(),
    {
        proof { use_type_invariant(self); }
        self.events.len()
    }
}

/// Tracking keeps the newest events: after tracking `e` the buffer holds
/// the last `capacity` events of what it held followed by `e`.
pub proof fn lemma_track_keeps_newest(kept: Seq<GameEvent>, cap: nat, e: GameEvent)
    requires
        0 < cap,
        kept.len() <= cap,
    ensures
        window_after_track(kept, cap, e).len() <= cap,
        window_after_track(kept, cap, e) =~= kept.push(e).skip(
            kept.push(e).len() - (if kept.push(e).len() < cap { kept.push(e).len() as int } else { cap as int }),
        ),
        window_after_track(kept, cap, e).last() == e,
{
}


/// The events kept after tracking each of `es` in turn, starting from `kept`.
pub open spec fn window_after_tracks(kept: Seq<GameEvent>, cap: nat, es: Seq<GameEvent>) -> Seq<
    GameEvent,
>
    decreases es.len(),
{
    if es.len() == 0 {
        kept
    } else {
        window_after_track(window_after_tracks(kept, cap, es.drop_last()), cap, es.last())
    }
}

/// The last `cap` items of `s`, oldest first (all of them when there are fewer).
pub open spec fn newest(s: Seq<GameEvent>, cap: nat) -> Seq<GameEvent> {
    if s.len() <= cap {
        s
    } else {
        s.skip(s.len() - cap)
    }
}

/// Over any run of tracks the buffer holds the newest `capacity` events of
/// what it held followed by everything tracked, oldest first.
pub proof fn lemma_tracks_keep_newest(kept: Seq<GameEvent>, cap: nat, es: Seq<GameEvent>)
    requires
        0 < cap,
        kept.len() <= cap,
    ensures
        window_after_tracks(kept, cap, es) =~= newest(kept + es, cap),
        window_after_tracks(kept, cap, es).len() <= cap,
    decreases es.len(),
{
    if es.len() > 0 {
        let es0 = es.drop_last();
        let e = es.last();
        lemma_tracks_keep_newest(kept, cap, es0);
        let all0 = kept + es0;
        let all = kept + es;
        assert(all =~= all0.push(e));
        let w = window_after_tracks(kept, cap, es0);
        if w.len() >= cap {
            assert(all0.len() >= cap);
            assert(w.skip(1).push(e) =~= all.skip(all.len() - cap));
        } else {
            assert(w =~= all0);
        }
    } else {
        assert(kept + es =~= kept);
    }
}

/// From an empty buffer of capacity `cap`, tracking `es` one after another
/// leaves exactly the last min(|es|, cap) of them, oldest first: what a
/// drain then returns.
pub proof fn lemma_drain_after_tracks(cap: nat, es: Seq<GameEvent>)
    requires
        0 < cap,
    ensures
        window_after_tracks(Seq::empty(), cap, es) =~= newest(es, cap),
        window_after_tracks(Seq::empty(), cap, es).len() == if es.len() < cap {
            es.len()
        } else {
            cap
        },
{
    lemma_tracks_keep_newest(Seq::empty(), cap, es);
    assert(Seq::<GameEvent>::empty() + es =~= es);
}
} // verus!
