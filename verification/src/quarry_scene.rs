//! Camera of the quarry scene.

use vstd::prelude::*;

verus! {

/// Camera placement relative to the player.
#[derive(Debug, Clone, Copy, PartialEq, Eq, Structural)]
pub enum CameraMode {
    ThirdPerson,
    FirstPerson,
}

} // verus!
