//! A dynamic ownership-and-borrow validation engine.
//!
//! The engine tracks which binding owns each value, enforces move semantics
//! (a Move-kind value has at most one live owner), validates borrows (one
//! mutable borrow or any number of shared borrows, never both), and performs
//! RAII-style destruction when a scope is popped.  Every rejected operation
//! comes back as a typed diagnostic; nothing panics.
//!
//! Around the engine stand a few small client modules that exercise plain
//! language features (functions, enums, structs, module paths); they are kept
//! as examples of code the engine's rules describe.

use vstd::prelude::*;

pub mod accounts;
pub mod back_of_house;
pub mod coins;
pub mod diag;
pub mod dining;
pub mod engine;
pub mod hosting;
pub mod laws;
pub mod model;
pub mod numbers;
pub mod payload;
pub mod serving;
pub mod words;

verus! {

/// Deliver an order to a table.  Part of the restaurant example; it has no
/// observable effect of its own.
pub fn serve_order() {
}

/// Redo an order that came out wrong, reached along the long way round.
pub fn fix_incorrect_order() {
    crate::back_of_house::fix_incorrect_order();
    back_of_house::fix_incorrect_order();
}

} // verus!
