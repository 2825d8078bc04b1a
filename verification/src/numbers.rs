//! Small arithmetic helpers used by the example programs.

use vstd::prelude::*;

verus! {

/// The constant five.
pub fn five() -> (r: u32)
    ensures
        r == 5,
{
    5
}

/// One more than `x`.
pub fn plus_one(x: u32) -> (r: u32)
    requires
        x < u32::MAX,
    ensures
        r == x + 1,
{
    x + 1
}

/// Twice `x`.
pub fn double(x: u32) -> (r: u32)
    requires
        x <= u32::MAX / 2,
    ensures
        r == 2 * x,
{
    x * 2
}

} // verus!
