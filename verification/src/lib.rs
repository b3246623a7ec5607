//! The exact-arithmetic core of the Kami engine: island services
//! (leaderboard, daily bonus, missions, gacha, energy, telemetry), arena
//! scoring, battle-royale rules and match bookkeeping, the round rules of
//! the gorilla-sneaking game, character evolution stages, voxel
//! down-sampling, face masks and greedy face merging, and the articulation
//! degree-of-freedom table and link order.  Every function here carries a
//! contract that Verus proves.

use vstd::prelude::*;

pub mod search;
pub mod ranking;
pub mod addons;
pub mod arena;
pub mod battle_royale;
pub mod brainrot;
pub mod ketsu;
pub mod scene;
pub mod animation;
pub mod quarry_scene;
pub mod voxel;
pub mod genesis;
