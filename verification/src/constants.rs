//! Physical constants.

use vstd::prelude::*;

verus! {

/// The speed of light in vacuum in metres per second, an integer by the
/// definition of the metre.
pub const LIGHT_SPEED: u64 = 299_792_458;

/// The speed of light in vacuum, in metres per second.
pub fn light_speed() -> (c: u64)
    ensures
        c == LIGHT_SPEED,
        c == 299_792_458,
{
    LIGHT_SPEED
}

} // verus!
