//! Evolution stages of the brainrot characters.

use vstd::prelude::*;

verus! {

/// Characters that evolve through named stages.
#[derive(Debug, Clone, Copy, PartialEq, Eq, Structural)]
pub enum BrainrotCharacter {
    Skibidi,
    Sigma,
    Ohio,
    Grimace,
    Rizz,
    Fanum,
}

pub open spec fn spec_max_stage(c: BrainrotCharacter) -> u8 {
    match c {
        BrainrotCharacter::Skibidi => 3,
        BrainrotCharacter::Sigma => 4,
        BrainrotCharacter::Ohio => 2,
        BrainrotCharacter::Grimace => 3,
        BrainrotCharacter::Rizz => 2,
        BrainrotCharacter::Fanum => 3,
    }
}

/// The names of a character's stages, first stage first.
pub open spec fn stage_names(c: BrainrotCharacter) -> Seq<Seq<char>> {
    match c {
        BrainrotCharacter::Skibidi => seq![
            "Mini Toilet"@,
            "Skibidi Soldier"@,
            "Skibidi Tank"@,
            "Skibidi Titan"@,
        ],
        BrainrotCharacter::Sigma => seq![
            "Scrawny Kid"@,
            "Gym Bro"@,
            "Sigma Male"@,
            "Gigachad"@,
            "Sigma Ascended"@,
        ],
        BrainrotCharacter::Ohio => seq!["Ohio Anomaly"@, "Ohio Nightmare"@, "Ohio Eldritch"@],
        BrainrotCharacter::Grimace => seq![
            "Purple Puddle"@,
            "Grimace Blob"@,
            "Grimace Tide"@,
            "Grimace Singularity"@,
        ],
        BrainrotCharacter::Rizz => seq!["Awkward Kid"@, "Rizz Master"@, "Rizz Sensei"@],
        BrainrotCharacter::Fanum => seq![
            "Street Kid"@,
            "Tax Collector"@,
            "Tax Baron"@,
            "Fanum Mogul"@,
        ],
    }
}

/// The name of a stage, "Unknown" past the last one.
pub open spec fn spec_stage_name(c: BrainrotCharacter, stage: u8) -> Seq<char> {
    if (stage as int) < stage_names(c).len() {
        stage_names(c)[stage as int]
    } else {
        "Unknown"@
    }
}

impl BrainrotCharacter {
    /// The last stage a character reaches, counting from 0.
    pub fn max_stage(self) -> (r: u8)
        ensures
            r == spec_max_stage(self),
    {
        match self {
            Self::Skibidi => 3,
            Self::Sigma => 4,
            Self::Ohio => 2,
            Self::Grimace => 3,
            Self::Rizz => 2,
            Self::Fanum => 3,
        }
    }

    /// The name of a stage; "Unknown" for a stage the character never reaches.
    pub fn stage_name(self, stage: u8) -> (r: &'static str)
        ensures
            r@ == spec_stage_name(self, stage),
    {
        match (self, stage) {
            (Self::Skibidi, 0) => "Mini Toilet",
            (Self::Skibidi, 1) => "Skibidi Soldier",
            (Self::Skibidi, 2) => "Skibidi Tank",
            (Self::Skibidi, 3) => "Skibidi Titan",
            (Self::Sigma, 0) => "Scrawny Kid",
            (Self::Sigma, 1) => "Gym Bro",
            (Self::Sigma, 2) => "Sigma Male",
            (Self::Sigma, 3) => "Gigachad",
            (Self::Sigma, 4) => "Sigma Ascended",
            (Self::Ohio, 0) => "Ohio Anomaly",
            (Self::Ohio, 1) => "Ohio Nightmare",
            (Self::Ohio, 2) => "Ohio Eldritch",
            (Self::Grimace, 0) => "Purple Puddle",
            (Self::Grimace, 1) => "Grimace Blob",
            (Self::Grimace, 2) => "Grimace Tide",
            (Self::Grimace, 3) => "Grimace Singularity",
            (Self::Rizz, 0) => "Awkward Kid",
            (Self::Rizz, 1) => "Rizz Master",
            (Self::Rizz, 2) => "Rizz Sensei",
            (Self::Fanum, 0) => "Street Kid",
            (Self::Fanum, 1) => "Tax Collector",
            (Self::Fanum, 2) => "Tax Baron",
            (Self::Fanum, 3) => "Fanum Mogul",
            _ => "Unknown",
        }
    }
}

/// Every stage up to a character's last stage has a name of its own, and
/// every stage past it is "Unknown".
pub proof fn lemma_named_stages_are_the_reachable_ones(c: BrainrotCharacter, stage: u8)
    ensures
        stage <= spec_max_stage(c) ==> spec_stage_name(c, stage) != "Unknown"@,
        stage > spec_max_stage(c) ==> spec_stage_name(c, stage) == "Unknown"@,
{
    reveal_strlit("Unknown");
    reveal_strlit("Mini Toilet");
    reveal_strlit("Skibidi Soldier");
    reveal_strlit("Skibidi Tank");
    reveal_strlit("Skibidi Titan");
    reveal_strlit("Scrawny Kid");
    reveal_strlit("Gym Bro");
    reveal_strlit("Sigma Male");
    reveal_strlit("Gigachad");
    reveal_strlit("Sigma Ascended");
    reveal_strlit("Ohio Anomaly");
    reveal_strlit("Ohio Nightmare");
    reveal_strlit("Ohio Eldritch");
    reveal_strlit("Purple Puddle");
    reveal_strlit("Grimace Blob");
    reveal_strlit("Grimace Tide");
    reveal_strlit("Grimace Singularity");
    reveal_strlit("Awkward Kid");
    reveal_strlit("Rizz Master");
    reveal_strlit("Rizz Sensei");
    reveal_strlit("Street Kid");
    reveal_strlit("Tax Collector");
    reveal_strlit("Tax Baron");
    reveal_strlit("Fanum Mogul");
    if stage <= spec_max_stage(c) {
        let n = spec_stage_name(c, stage);
        assert(stage_names(c).len() == spec_max_stage(c) + 1);
        if stage == 0 {
            assert(n == stage_names(c)[0]);
        } else if stage == 1 {
            assert(n == stage_names(c)[1]);
        } else if stage == 2 {
            assert(n == stage_names(c)[2]);
        } else if stage == 3 {
            assert(n == stage_names(c)[3]);
        } else {
            assert(n == stage_names(c)[4]);
        }
        assert(n[0] != 'U');
        assert("Unknown"@[0] == 'U');
    }
}

} // verus!
