use kami_engine::animation::{glitch_jitter_bytes, glitch_next_seed, HeadBobPhase};

#[test]
fn head_bob_cycles_through_four_phases() {
    let mut p = HeadBobPhase::Rise;
    let mut seen = vec![p];
    for _ in 0..4 {
        p = p.next();
        seen.push(p);
    }
    assert_eq!(
        seen,
        vec![
            HeadBobPhase::Rise,
            HeadBobPhase::Hold,
            HeadBobPhase::Drop,
            HeadBobPhase::Wait,
            HeadBobPhase::Rise
        ]
    );
}

#[test]
fn glitch_seed_is_the_wrapping_generator_step() {
    for seed in [0u32, 1, 42, 12345, 0xDEAD_BEEF, u32::MAX] {
        assert_eq!(glitch_next_seed(seed), seed.wrapping_mul(1103515245).wrapping_add(12345));
    }
    assert_eq!(glitch_next_seed(0), 12345);
    assert_eq!(glitch_next_seed(1), 1103527590);
}

#[test]
fn glitch_jitter_takes_the_low_three_bytes() {
    assert_eq!(glitch_jitter_bytes(0x12_34_56_78), (0x78, 0x56, 0x34));
    assert_eq!(glitch_jitter_bytes(0xFF), (0xFF, 0, 0));
}
