//! Island scene description: defaults of the shadow settings.

use vstd::prelude::*;

verus! {

/// Cascade count of cascaded shadow maps when a scene gives none.
pub fn default_cascade_count() -> (r: u32)
    ensures
        r == 2,
{
    2
}

} // verus!
