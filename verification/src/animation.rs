//! The integer parts of animation clips: the head-bob phase cycle and the
//! glitch clip's pseudo-random seed.

use vstd::prelude::*;

verus! {

/// Phases of the head-bob clip: rise, hold, drop, then wait.
#[derive(Debug, Clone, Copy, PartialEq, Eq, Structural)]
pub enum HeadBobPhase {
    Rise,
    Hold,
    Drop,
    Wait,
}

/// The phase that follows `p` once its time is up.
pub open spec fn spec_next_phase(p: HeadBobPhase) -> HeadBobPhase {
    match p {
        HeadBobPhase::Rise => HeadBobPhase::Hold,
        HeadBobPhase::Hold => HeadBobPhase::Drop,
        HeadBobPhase::Drop => HeadBobPhase::Wait,
        HeadBobPhase::Wait => HeadBobPhase::Rise,
    }
}

impl HeadBobPhase {
    /// The phase that follows this one once its time is up.
    pub fn next(self) -> (r: Self)
        ensures
            r == spec_next_phase(self),
    {
        match self {
            HeadBobPhase::Rise => HeadBobPhase::Hold,
            HeadBobPhase::Hold => HeadBobPhase::Drop,
            HeadBobPhase::Drop => HeadBobPhase::Wait,
            HeadBobPhase::Wait => HeadBobPhase::Rise,
        }
    }
}

/// The head bob goes through all four phases and comes back: every phase
/// moves on, and four moves return to the start.
pub proof fn lemma_head_bob_cycles(p: HeadBobPhase)
    ensures
        spec_next_phase(p) != p,
        spec_next_phase(spec_next_phase(p)) != p,
        spec_next_phase(spec_next_phase(spec_next_phase(p))) != p,
        spec_next_phase(spec_next_phase(spec_next_phase(spec_next_phase(p)))) == p,
{
}

/// The head bob rises, holds at the top, drops back, then waits before
/// rising again.
pub proof fn lemma_head_bob_order()
    ensures
        spec_next_phase(HeadBobPhase::Rise) == HeadBobPhase::Hold,
        spec_next_phase(HeadBobPhase::Hold) == HeadBobPhase::Drop,
        spec_next_phase(HeadBobPhase::Drop) == HeadBobPhase::Wait,
        spec_next_phase(HeadBobPhase::Wait) == HeadBobPhase::Rise,
{
}

/// The glitch clip's seed after it jumps: one step of the linear
/// congruential generator `seed * 1103515245 + 12345`, modulo 2^32.
pub open spec fn spec_glitch_seed(seed: u32) -> u32 {
    ((seed * 1103515245 + 12345) % 0x1_0000_0000) as u32
}

/// The glitch seed steps like `seed.wrapping_mul(1103515245)
/// .wrapping_add(12345)` on u32: 0 goes to 12345 and 1 to 1103527590.
pub proof fn lemma_glitch_seed_wraps(seed: u32)
    ensures
        spec_glitch_seed(seed) == vstd::wrapping::u32_specs::wrapping_add(
            vstd::wrapping::u32_specs::wrapping_mul(seed, 1103515245),
            12345,
        ),
        spec_glitch_seed(0) == 12345,
        spec_glitch_seed(1) == 1103527590,
{
    let m = vstd::wrapping::u32_specs::wrapping_mul(seed, 1103515245);
    assert(m as int == (seed * 1103515245) % 0x1_0000_0000) by {
        reveal(vstd::wrapping::u32_specs::wrapping_mul);
    }
    assert(vstd::wrapping::u32_specs::wrapping_add(m, 12345) as int == (m + 12345) % 0x1_0000_0000) by {
        reveal(vstd::wrapping::u32_specs::wrapping_add);
    }
    assert(((seed * 1103515245) % 0x1_0000_0000 + 12345) % 0x1_0000_0000 == (seed * 1103515245
        + 12345) % 0x1_0000_0000) by (nonlinear_arith);
}

/// The seed the glitch clip moves on to.
pub fn glitch_next_seed(seed: u32) -> (r: u32)
    ensures
        r == spec_glitch_seed(seed),
{
    let wide: u64 = seed as u64 * 1103515245u64 + 12345u64;
    (wide % 0x1_0000_0000u64) as u32
}

/// The three low bytes of a glitch seed, which set the jitter on the x, y
/// and z axes.
pub fn glitch_jitter_bytes(seed: u32) -> (r: (u8, u8, u8))
    ensures
        r.0 == seed % 256,
        r.1 == (seed / 256) % 256,
        r.2 == (seed / 65536) % 256,
{
    ((seed % 256) as u8, ((seed / 256) % 256) as u8, ((seed / 65536) % 256) as u8)
}

} // verus!
