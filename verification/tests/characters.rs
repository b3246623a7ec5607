use kami_engine::brainrot::BrainrotCharacter;
use kami_engine::ketsu::Phase;

#[test]
fn brainrot_character_max_stages() {
    assert_eq!(BrainrotCharacter::Skibidi.max_stage(), 3);
    assert_eq!(BrainrotCharacter::Sigma.max_stage(), 4);
    assert_eq!(BrainrotCharacter::Ohio.max_stage(), 2);
    assert_eq!(BrainrotCharacter::Grimace.max_stage(), 3);
    assert_eq!(BrainrotCharacter::Rizz.max_stage(), 2);
    assert_eq!(BrainrotCharacter::Fanum.max_stage(), 3);
}

#[test]
fn brainrot_stage_names() {
    assert_eq!(BrainrotCharacter::Skibidi.stage_name(0), "Mini Toilet");
    assert_eq!(BrainrotCharacter::Skibidi.stage_name(3), "Skibidi Titan");
    assert_eq!(BrainrotCharacter::Sigma.stage_name(4), "Sigma Ascended");
    assert_eq!(BrainrotCharacter::Ohio.stage_name(2), "Ohio Eldritch");
    assert_eq!(
        BrainrotCharacter::Grimace.stage_name(3),
        "Grimace Singularity"
    );
    assert_eq!(BrainrotCharacter::Rizz.stage_name(2), "Rizz Sensei");
    assert_eq!(BrainrotCharacter::Fanum.stage_name(3), "Fanum Mogul");
}

#[test]
fn stages_past_the_last_are_unknown() {
    let all = [
        BrainrotCharacter::Skibidi,
        BrainrotCharacter::Sigma,
        BrainrotCharacter::Ohio,
        BrainrotCharacter::Grimace,
        BrainrotCharacter::Rizz,
        BrainrotCharacter::Fanum,
    ];
    for c in all {
        for s in 0..=c.max_stage() {
            assert_ne!(c.stage_name(s), "Unknown");
        }
        assert_eq!(c.stage_name(c.max_stage() + 1), "Unknown");
        assert_eq!(c.stage_name(255), "Unknown");
    }
}

#[test]
fn phase_names() {
    assert_eq!(Phase::Title.as_str(), "Title");
    assert_eq!(Phase::PeaceVictory.as_str(), "PeaceVictory");
    assert_eq!(Phase::GameOver.as_str(), "GameOver");
}
