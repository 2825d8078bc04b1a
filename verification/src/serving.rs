//! The front-of-house serving station of the restaurant example.

use vstd::prelude::*;

verus! {

/// Take a customer's order.  It has no observable effect of its own.
pub fn take_order() {
}

/// Bring an order out.  It has no observable effect of its own.
pub fn server_order() {
}

/// Settle the bill.  It has no observable effect of its own.
pub fn take_payment() {
}

} // verus!
