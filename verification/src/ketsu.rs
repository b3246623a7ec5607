//! The gorilla-sneaking game: its phases, the gorilla's moods, and the
//! integer rules of a round (score, combo, catches, waves, high score) as
//! a state machine driven by the events a frame reports.

use vstd::prelude::*;

verus! {

/// Phases of a round.
#[derive(Debug, Clone, Copy, PartialEq, Eq, Structural)]
pub enum Phase {
    Title,
    Sneak,
    Alert,
    Chase,
    Rest,
    Victory,
    PeaceVictory,
    GameOver,
}

/// States of the gorilla.
#[derive(Debug, Clone, Copy, PartialEq, Eq, Structural)]
pub enum GorillaState {
    Sleeping,
    Waking,
    WakingPeace,
    Chasing,
    Friendly,
    Resting,
    Caught,
}

/// The name a phase is reported under.
pub open spec fn phase_name(p: Phase) -> Seq<char> {
    match p {
        Phase::Title => "Title"@,
        Phase::Sneak => "Sneak"@,
        Phase::Alert => "Alert"@,
        Phase::Chase => "Chase"@,
        Phase::Rest => "Rest"@,
        Phase::Victory => "Victory"@,
        Phase::PeaceVictory => "PeaceVictory"@,
        Phase::GameOver => "GameOver"@,
    }
}

impl Phase {
    /// The phase's name.
    pub fn as_str(self) -> (r: &'static str)
        ensures
            r@ == phase_name(self),
    {
        match self {
            Self::Title => "Title",
            Self::Sneak => "Sneak",
            Self::Alert => "Alert",
            Self::Chase => "Chase",
            Self::Rest => "Rest",
            Self::Victory => "Victory",
            Self::PeaceVictory => "PeaceVictory",
            Self::GameOver => "GameOver",
        }
    }
}

/// Different phases have different names, so a name identifies its phase.
pub proof fn lemma_phase_names_distinct(a: Phase, b: Phase)
    ensures
        phase_name(a) == phase_name(b) ==> a == b,
{
    reveal_strlit("Title");
    reveal_strlit("Sneak");
    reveal_strlit("Alert");
    reveal_strlit("Chase");
    reveal_strlit("Rest");
    reveal_strlit("Victory");
    reveal_strlit("PeaceVictory");
    reveal_strlit("GameOver");
    if phase_name(a) == phase_name(b) && a != b {
        assert(phase_name(a).len() != phase_name(b).len() || exists|i: int|
            0 <= i < phase_name(a).len() && phase_name(a)[i] != phase_name(b)[i]) by {
            if phase_name(a).len() == phase_name(b).len() {
                assert(phase_name(a)[0] != phase_name(b)[0] || phase_name(a)[1] != phase_name(b)[1]
                    || phase_name(a)[2] != phase_name(b)[2]);
            }
        }
    }
}


// ── Rules of a round ──

/// Catches a wave tolerates before the game is over.
pub const MAX_CATCHES_PER_WAVE: u32 = 5;

/// Waves in a game.
pub const WAVE_COUNT: usize = 3;

/// Ordinary and golden bananas wave `w` scatters; waves past the last use
/// the last wave's numbers.
pub open spec fn spec_wave_bananas(w: usize) -> (usize, usize) {
    if w == 0 {
        (4, 0)
    } else if w == 1 {
        (6, 1)
    } else {
        (5, 1)
    }
}

/// Ordinary and golden bananas wave `wave` scatters.
pub fn wave_bananas(wave: usize) -> (r: (usize, usize))
    ensures
        r == spec_wave_bananas(wave),
{
    if wave == 0 {
        (4, 0)
    } else if wave == 1 {
        (6, 1)
    } else {
        (5, 1)
    }
}

/// The integer state of a round: phase, the gorilla's mood, wave, score
/// and the counters the score is made of.  Positions, timers and stamina
/// are real-valued and kept by the caller, which reports what happens as
/// events.
#[derive(Debug, Clone, Copy, PartialEq, Eq, Structural)]
pub struct GoriketsuState {
    pub phase: Phase,
    pub gorilla_state: GorillaState,
    pub tick: u64,
    pub score: i32,
    pub hi_score: i32,
    pub wave: usize,
    pub catches_taken: u32,
    pub bananas_needed: usize,
    pub bananas_collected: usize,
    pub combo: u32,
    pub near_miss_count: u32,
    pub peace_path: bool,
    pub hit_stop_frames: u32,
}

/// What a frame of play can report.
#[derive(Debug, Clone, Copy, PartialEq, Eq, Structural)]
pub enum KetsuEvent {
    /// The player slapped, close enough to the gorilla or not.
    Slap { in_range: bool },
    /// The player waited long enough without slapping.
    PeaceWaitOver,
    /// The player picked up a banana.
    BananaCollected { golden: bool },
    /// Too long since the last banana: the combo lapses.
    ComboExpired,
    /// The gorilla has finished waking up.
    WakeDone,
    /// The gorilla came close without catching the player.
    NearMiss,
    /// The gorilla caught the player.
    Caught,
    /// End-of-frame check whether the wave is cleared.
    WaveCheck,
    /// The rest between waves is over.
    RestOver,
}

/// Phases in which a frame is played.
pub open spec fn running(p: Phase) -> bool {
    p == Phase::Sneak || p == Phase::Alert || p == Phase::Chase
}

/// Phases that end a game.
pub open spec fn finished(p: Phase) -> bool {
    p == Phase::Victory || p == Phase::PeaceVictory || p == Phase::GameOver
}

/// `s` with the high score raised to the score if that is higher.
pub open spec fn with_hi(s: GoriketsuState) -> GoriketsuState {
    GoriketsuState {
        hi_score: if s.score > s.hi_score {
            s.score
        } else {
            s.hi_score
        },
        ..s
    }
}

/// Points a banana is worth: ten per banana in the current combo, three
/// times that for a golden one.
pub open spec fn banana_bonus(combo: u32, golden: bool) -> int {
    10 * (combo + 1) * if golden {
        3int
    } else {
        1int
    }
}

/// Points for the last wave cleared, wave `w` counted from 0.
pub open spec fn clear_bonus(w: usize) -> int {
    500 * (w + 1)
}

/// The arithmetic of event `e` stays within the integer types (the round
/// would otherwise overflow).
pub open spec fn fits(s: GoriketsuState, e: KetsuEvent) -> bool {
    match e {
        KetsuEvent::Slap { in_range } => running(s.phase) && s.phase == Phase::Sneak && in_range
            ==> s.score + 100 <= i32::MAX,
        KetsuEvent::BananaCollected { golden } => running(s.phase) ==> {
            &&& s.combo < u32::MAX
            &&& s.bananas_collected < usize::MAX
            &&& banana_bonus(s.combo, golden) <= i32::MAX
            &&& s.score + banana_bonus(s.combo, golden) <= i32::MAX
        },
        KetsuEvent::NearMiss => running(s.phase) ==> {
            &&& s.near_miss_count < u32::MAX
            &&& 25 * (s.near_miss_count + 1) <= i32::MAX
            &&& s.score + 25 * (s.near_miss_count + 1) <= i32::MAX
        },
        KetsuEvent::Caught => running(s.phase) ==> s.catches_taken < u32::MAX && s.score - 50
            >= i32::MIN,
        KetsuEvent::WakeDone => running(s.phase) && s.gorilla_state == GorillaState::WakingPeace
            ==> s.score + 2000 <= i32::MAX,
        KetsuEvent::WaveCheck => running(s.phase) && s.phase == Phase::Chase && s.bananas_collected
            >= s.bananas_needed && s.wave >= WAVE_COUNT - 1 ==> clear_bonus(s.wave) <= i32::MAX
            && s.score + clear_bonus(s.wave) <= i32::MAX,
        KetsuEvent::RestOver => s.phase == Phase::Rest ==> s.wave < usize::MAX && (s.wave + 1
            >= WAVE_COUNT ==> clear_bonus(s.wave) <= i32::MAX && s.score + clear_bonus(s.wave)
            <= i32::MAX),
        _ => true,
    }
}

/// The round after event `e`.  Outside a played frame only the end of a
/// rest does anything.
pub open spec fn step(s: GoriketsuState, e: KetsuEvent) -> GoriketsuState {
    match e {
        KetsuEvent::RestOver => if s.phase != Phase::Rest {
            s
        } else if s.wave + 1 >= WAVE_COUNT {
            with_hi(
                GoriketsuState {
                    wave: (s.wave + 1) as usize,
                    phase: Phase::Victory,
                    score: (s.score + clear_bonus(s.wave)) as i32,
                    ..s
                },
            )
        } else {
            GoriketsuState {
                wave: (s.wave + 1) as usize,
                gorilla_state: GorillaState::Sleeping,
                phase: Phase::Sneak,
                ..s
            }
        },
        _ => if !running(s.phase) {
            s
        } else {
            match e {
                KetsuEvent::Slap { in_range } => if s.phase == Phase::Sneak && in_range {
                    let (b, g) = spec_wave_bananas(s.wave);
                    GoriketsuState {
                        phase: Phase::Alert,
                        gorilla_state: GorillaState::Waking,
                        score: (s.score + 100) as i32,
                        hit_stop_frames: 6,
                        bananas_collected: 0,
                        bananas_needed: (b + g) as usize,
                        ..s
                    }
                } else {
                    s
                },
                KetsuEvent::PeaceWaitOver => if s.phase == Phase::Sneak && !s.peace_path {
                    GoriketsuState { peace_path: true, gorilla_state: GorillaState::WakingPeace, ..s }
                } else {
                    s
                },
                KetsuEvent::BananaCollected { golden } => GoriketsuState {
                    bananas_collected: (s.bananas_collected + 1) as usize,
                    combo: (s.combo + 1) as u32,
                    score: (s.score + banana_bonus(s.combo, golden)) as i32,
                    ..s
                },
                KetsuEvent::ComboExpired => GoriketsuState { combo: 0, ..s },
                KetsuEvent::WakeDone => if s.gorilla_state == GorillaState::Waking {
                    GoriketsuState { gorilla_state: GorillaState::Chasing, phase: Phase::Chase, ..s }
                } else if s.gorilla_state == GorillaState::WakingPeace {
                    with_hi(
                        GoriketsuState {
                            gorilla_state: GorillaState::Friendly,
                            phase: Phase::PeaceVictory,
                            score: (s.score + 2000) as i32,
                            ..s
                        },
                    )
                } else {
                    s
                },
                KetsuEvent::NearMiss => GoriketsuState {
                    near_miss_count: (s.near_miss_count + 1) as u32,
                    score: (s.score + 25 * (s.near_miss_count + 1)) as i32,
                    ..s
                },
                KetsuEvent::Caught => {
                    let t = GoriketsuState {
                        score: if s.score - 50 > 0 {
                            (s.score - 50) as i32
                        } else {
                            0
                        },
                        catches_taken: (s.catches_taken + 1) as u32,
                        hit_stop_frames: 8,
                        ..s
                    };
                    if t.catches_taken >= MAX_CATCHES_PER_WAVE {
                        with_hi(
                            GoriketsuState {
                                phase: Phase::GameOver,
                                gorilla_state: GorillaState::Caught,
                                ..t
                            },
                        )
                    } else {
                        t
                    }
                },
                KetsuEvent::WaveCheck => if s.phase == Phase::Chase && s.bananas_collected
                    >= s.bananas_needed {
                    if s.wave >= WAVE_COUNT - 1 {
                        with_hi(
                            GoriketsuState {
                                phase: Phase::Victory,
                                score: (s.score + clear_bonus(s.wave)) as i32,
                                ..s
                            },
                        )
                    } else {
                        GoriketsuState {
                            phase: Phase::Rest,
                            gorilla_state: GorillaState::Resting,
                            catches_taken: 0,
                            ..s
                        }
                    }
                } else {
                    s
                },
                KetsuEvent::RestOver => s,
            }
        },
    }
}


/// A finished game (won, won in peace, or lost) ignores every event.
pub proof fn lemma_finished_game_ignores_events(s: GoriketsuState, e: KetsuEvent)
    requires
        finished(s.phase),
    ensures
        step(s, e) == s,
{
}

/// Whoever has been caught the limit number of times in a wave has lost:
/// every event keeps that so.
pub proof fn lemma_catch_limit_ends_the_game(s: GoriketsuState, e: KetsuEvent)
    requires
        s.catches_taken >= MAX_CATCHES_PER_WAVE ==> s.phase == Phase::GameOver,
    ensures
        step(s, e).catches_taken >= MAX_CATCHES_PER_WAVE ==> step(s, e).phase == Phase::GameOver,
{
}

/// The high score never falls, and a game that ends records its score
/// as the high score when it beats it.
pub proof fn lemma_high_score_is_kept(s: GoriketsuState, e: KetsuEvent)
    ensures
        step(s, e).hi_score >= s.hi_score,
        finished(step(s, e).phase) && !finished(s.phase) ==> step(s, e).hi_score >= step(s, e).score,
{
}

/// The score never goes below 0: being caught costs points, but never
/// more than there are.
pub proof fn lemma_score_never_negative(s: GoriketsuState, e: KetsuEvent)
    requires
        fits(s, e),
        s.score >= 0,
    ensures
        step(s, e).score >= 0,
{
}

/// What each event pays, in a frame that is played: a landed slap 100, a
/// banana ten times the combo it makes (three times that for a golden
/// one), a near miss 25 times the near misses so far, befriending the
/// gorilla 2000, clearing the last wave 500 times the waves played; a catch
/// costs 50, never taking the score below 0.  Clearing the last wave, or
/// finishing the rest after it, wins.
pub proof fn lemma_what_events_pay(s: GoriketsuState, e: KetsuEvent)
    requires
        fits(s, e),
    ensures
        running(s.phase) && s.phase == Phase::Sneak && e == (KetsuEvent::Slap { in_range: true })
            ==> step(s, e).score == s.score + 100 && step(s, e).phase == Phase::Alert,
        running(s.phase) && e == (KetsuEvent::BananaCollected { golden: false }) ==> {
            &&& step(s, e).score == s.score + 10 * (s.combo + 1)
            &&& step(s, e).combo == s.combo + 1
            &&& step(s, e).bananas_collected == s.bananas_collected + 1
        },
        running(s.phase) && e == (KetsuEvent::BananaCollected { golden: true }) ==> {
            &&& step(s, e).score == s.score + 30 * (s.combo + 1)
            &&& step(s, e).combo == s.combo + 1
            &&& step(s, e).bananas_collected == s.bananas_collected + 1
        },
        running(s.phase) && e == KetsuEvent::NearMiss ==> step(s, e).score == s.score + 25 * (
        s.near_miss_count + 1) && step(s, e).near_miss_count == s.near_miss_count + 1,
        running(s.phase) && e == KetsuEvent::Caught ==> {
            &&& step(s, e).score == if s.score >= 50 {
                s.score - 50
            } else {
                0
            }
            &&& step(s, e).catches_taken == s.catches_taken + 1
            &&& (step(s, e).phase == Phase::GameOver <==> s.catches_taken + 1 >= 5)
        },
        running(s.phase) && s.gorilla_state == GorillaState::WakingPeace && e == KetsuEvent::WakeDone
            ==> step(s, e).score == s.score + 2000 && step(s, e).phase == Phase::PeaceVictory,
        running(s.phase) && s.phase == Phase::Chase && s.bananas_collected >= s.bananas_needed && e
            == KetsuEvent::WaveCheck ==> if s.wave >= 2 {
            &&& step(s, e).phase == Phase::Victory
            &&& step(s, e).score == s.score + 500 * (s.wave + 1)
            &&& step(s, e).hi_score >= step(s, e).score
        } else {
            &&& step(s, e).phase == Phase::Rest
            &&& step(s, e).score == s.score
            &&& step(s, e).catches_taken == 0
        },
        running(s.phase) && s.phase == Phase::Chase && s.bananas_collected < s.bananas_needed && e
            == KetsuEvent::WaveCheck ==> step(s, e) == s,
        s.phase == Phase::Rest && e == KetsuEvent::RestOver ==> {
            &&& step(s, e).wave == s.wave + 1
            &&& if s.wave + 1 >= 3 {
                &&& step(s, e).phase == Phase::Victory
                &&& step(s, e).score == s.score + 500 * (s.wave + 1)
            } else {
                &&& step(s, e).phase == Phase::Sneak
                &&& step(s, e).score == s.score
            }
        },
{
}

/// A landed slap scatters the wave's bananas: 4 in the first wave, 6 and a
/// golden one in the second, 5 and a golden one from the third on; the
/// count of bananas collected starts again from 0.  A slap out of range
/// changes nothing, and a combo that lapses drops to 0.
pub proof fn lemma_slap_scatters_the_wave(s: GoriketsuState)
    requires
        fits(s, KetsuEvent::Slap { in_range: true }),
        s.phase == Phase::Sneak,
    ensures
        step(s, KetsuEvent::Slap { in_range: true }).bananas_needed == if s.wave == 0 {
            4int
        } else if s.wave == 1 {
            7int
        } else {
            6int
        },
        step(s, KetsuEvent::Slap { in_range: true }).bananas_collected == 0,
        step(s, KetsuEvent::Slap { in_range: true }).gorilla_state == GorillaState::Waking,
        step(s, KetsuEvent::Slap { in_range: false }) == s,
        step(s, KetsuEvent::ComboExpired).combo == 0,
        step(s, KetsuEvent::ComboExpired).score == s.score,
{
}

impl GoriketsuState {
    /// A fresh game: sneaking up on a sleeping gorilla in the first wave,
    /// with nothing scored.
    pub fn new() -> (r: Self)
        ensures
            r == (GoriketsuState {
                phase: Phase::Sneak,
                gorilla_state: GorillaState::Sleeping,
                tick: 0,
                score: 0,
                hi_score: 0,
                wave: 0,
                catches_taken: 0,
                bananas_needed: 0,
                bananas_collected: 0,
                combo: 0,
                near_miss_count: 0,
                peace_path: false,
                hit_stop_frames: 0,
            }),
    {
        GoriketsuState {
            phase: Phase::Sneak,
            gorilla_state: GorillaState::Sleeping,
            tick: 0,
            score: 0,
            hi_score: 0,
            wave: 0,
            catches_taken: 0,
            bananas_needed: 0,
            bananas_collected: 0,
            combo: 0,
            near_miss_count: 0,
            peace_path: false,
            hit_stop_frames: 0,
        }
    }

    /// Spend one frame of hit stop, if any is left; returns whether the
    /// frame is frozen.
    pub fn hit_stop(&mut self) -> (frozen: bool)
        ensures
            frozen == (old(self).hit_stop_frames > 0),
            *final(self) == (GoriketsuState {
                hit_stop_frames: if frozen {
                    (old(self).hit_stop_frames - 1) as u32
                } else {
                    0
                },
                ..*old(self)
            }),
    {
        if self.hit_stop_frames > 0 {
            self.hit_stop_frames = self.hit_stop_frames - 1;
            true
        } else {
            false
        }
    }

    /// Whether frames are played in the current phase.
    pub fn is_running(&self) -> (r: bool)
        ensures
            r == running(self.phase),
    {
        match self.phase {
            Phase::Sneak | Phase::Alert | Phase::Chase => true,
            _ => false,
        }
    }

    /// Count a played frame.
    pub fn advance_tick(&mut self)
        requires
            old(self).tick < u64::MAX,
        ensures
            *final(self) == (GoriketsuState { tick: (old(self).tick + 1) as u64, ..*old(self) }),
    {
        self.tick = self.tick + 1;
    }

    /// Catches the player can still take this wave.
    pub fn catches_remaining(&self) -> (r: u32)
        ensures
            r == if self.catches_taken < MAX_CATCHES_PER_WAVE {
                (MAX_CATCHES_PER_WAVE - self.catches_taken) as u32
            } else {
                0
            },
    {
        MAX_CATCHES_PER_WAVE.saturating_sub(self.catches_taken)
    }

    fn raise_hi_score(&mut self)
        ensures
            *final(self) == with_hi(*old(self)),
    {
        if self.score > self.hi_score {
            self.hi_score = self.score;
        }
    }

    /// Whether the arithmetic of event `e` stays within the integer types.
    pub fn can_apply(&self, e: KetsuEvent) -> (r: bool)
        ensures
            r == fits(*self, e),
    {
        let score = self.score as i64;
        match e {
            KetsuEvent::Slap { in_range } => !(self.is_running() && self.phase == Phase::Sneak
                && in_range) || score + 100 <= i32::MAX as i64,
            KetsuEvent::BananaCollected { golden } => {
                if !self.is_running() {
                    return true;
                }
                if self.combo == u32::MAX || self.bananas_collected == usize::MAX {
                    return false;
                }
                let mult: i64 = if golden {
                    3
                } else {
                    1
                };
                let bonus = 10 * (self.combo as i64 + 1) * mult;
                bonus <= i32::MAX as i64 && score + bonus <= i32::MAX as i64
            },
            KetsuEvent::NearMiss => {
                if !self.is_running() {
                    return true;
                }
                if self.near_miss_count == u32::MAX {
                    return false;
                }
                let bonus = 25 * (self.near_miss_count as i64 + 1);
                bonus <= i32::MAX as i64 && score + bonus <= i32::MAX as i64
            },
            KetsuEvent::Caught => !self.is_running() || (self.catches_taken < u32::MAX && score
                - 50 >= i32::MIN as i64),
            KetsuEvent::WakeDone => !(self.is_running() && self.gorilla_state
                == GorillaState::WakingPeace) || score + 2000 <= i32::MAX as i64,
            KetsuEvent::WaveCheck => {
                if !(self.is_running() && self.phase == Phase::Chase && self.bananas_collected
                    >= self.bananas_needed && self.wave >= WAVE_COUNT - 1) {
                    return true;
                }
                if self.wave >= 4294967 {
                    return false;
                }
                let bonus = 500 * (self.wave as i64 + 1);
                bonus <= i32::MAX as i64 && score + bonus <= i32::MAX as i64
            },
            KetsuEvent::RestOver => {
                match self.phase {
                    Phase::Rest => {},
                    _ => {
                        return true;
                    },
                }
                if self.wave == usize::MAX {
                    return false;
                }
                if self.wave + 1 < WAVE_COUNT {
                    return true;
                }
                if self.wave >= 4294967 {
                    return false;
                }
                let bonus = 500 * (self.wave as i64 + 1);
                bonus <= i32::MAX as i64 && score + bonus <= i32::MAX as i64
            },
            _ => true,
        }
    }

    /// Play event `e`.
    pub fn apply(&mut self, e: KetsuEvent)
        requires
            fits(*old(self), e),
        ensures
            *final(self) == step(*old(self), e),
    {
        match e {
            KetsuEvent::RestOver => {
                match self.phase {
                    Phase::Rest => {},
                    _ => {
                        return;
                    },
                }
                self.wave = self.wave + 1;
                if self.wave >= WAVE_COUNT {
                    self.phase = Phase::Victory;
                    self.score = self.score + 500 * self.wave as i32;
                    self.raise_hi_score();
                } else {
                    self.gorilla_state = GorillaState::Sleeping;
                    self.phase = Phase::Sneak;
                }
                return;
            },
            _ => {},
        }
        if !self.is_running() {
            return;
        }
        match e {
            KetsuEvent::Slap { in_range } => {
                if self.phase == Phase::Sneak && in_range {
                    self.phase = Phase::Alert;
                    self.gorilla_state = GorillaState::Waking;
                    self.score = self.score + 100;
                    self.hit_stop_frames = 6;
                    let (b, g) = wave_bananas(self.wave);
                    self.bananas_collected = 0;
                    self.bananas_needed = b + g;
                }
            },
            KetsuEvent::PeaceWaitOver => {
                if self.phase == Phase::Sneak && !self.peace_path {
                    self.peace_path = true;
                    self.gorilla_state = GorillaState::WakingPeace;
                }
            },
            KetsuEvent::BananaCollected { golden } => {
                self.bananas_collected = self.bananas_collected + 1;
                self.combo = self.combo + 1;
                let mult: i32 = if golden {
                    3
                } else {
                    1
                };
                let bonus = 10 * self.combo as i32 * mult;
                self.score = self.score + bonus;
            },
            KetsuEvent::ComboExpired => {
                self.combo = 0;
            },
            KetsuEvent::WakeDone => {
                match self.gorilla_state {
                    GorillaState::Waking => {
                        self.gorilla_state = GorillaState::Chasing;
                        self.phase = Phase::Chase;
                    },
                    GorillaState::WakingPeace => {
                        self.gorilla_state = GorillaState::Friendly;
                        self.phase = Phase::PeaceVictory;
                        self.score = self.score + 2000;
                        self.raise_hi_score();
                    },
                    _ => {},
                }
            },
            KetsuEvent::NearMiss => {
                self.near_miss_count = self.near_miss_count + 1;
                self.score = self.score + 25 * self.near_miss_count as i32;
            },
            KetsuEvent::Caught => {
                let lowered = self.score - 50;
                self.score = if lowered > 0 {
                    lowered
                } else {
                    0
                };
                self.catches_taken = self.catches_taken + 1;
                self.hit_stop_frames = 8;
                if self.catches_taken >= MAX_CATCHES_PER_WAVE {
                    self.phase = Phase::GameOver;
                    self.gorilla_state = GorillaState::Caught;
                    self.raise_hi_score();
                }
            },
            KetsuEvent::WaveCheck => {
                if self.phase == Phase::Chase && self.bananas_collected >= self.bananas_needed {
                    if self.wave >= WAVE_COUNT - 1 {
                        self.phase = Phase::Victory;
                        self.score = self.score + 500 * (self.wave as i32 + 1);
                        self.raise_hi_score();
                    } else {
                        self.phase = Phase::Rest;
                        self.gorilla_state = GorillaState::Resting;
                        self.catches_taken = 0;
                    }
                }
            },
            KetsuEvent::RestOver => {},
        }
    }
}

} // verus!
