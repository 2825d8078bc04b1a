//! The front-of-house hosting station of the restaurant example.

use vstd::prelude::*;

verus! {

/// Put a party on the waitlist.  It has no observable effect of its own.
pub fn add_to_waitlist() {
}

/// Seat a party at a table.  It has no observable effect of its own.
pub fn seat_at_table() {
}

} // verus!
