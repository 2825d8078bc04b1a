//! A dining-room view of the restaurant example: the same waitlist entry
//! point, called through a shorter path.

use vstd::prelude::*;

verus! {

/// Put a party on the waitlist.  It has no observable effect of its own.
pub fn add_to_waitlist() {
}

/// Seat a party of three: each guest goes on the waitlist.
pub fn eat_at_restaurant() {
    add_to_waitlist();
    add_to_waitlist();
    add_to_waitlist();
}

} // verus!
