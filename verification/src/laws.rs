//! The engine's guiding laws, stated and proved once for every well-formed
//! engine state.  Since every operation requires and re-establishes
//! [`Engine::wf`], each law holds at every point of every operation sequence.

use vstd::prelude::*;

use crate::diag::ErrorKind;
use crate::engine::{Engine, Target};
use crate::model::{active_borrows, last_owner, live_owners, scope_reaches, BorrowKind, BorrowState, ValueKind};

verus! {

/// Law: a Move-kind value has at most one live binding at any point in any
/// operation sequence.
pub proof fn lemma_move_kind_single_owner(e: Engine, v: int)
    requires
        e.wf(),
        0 <= v < e.values@.len(),
        e.values@[v].kind == ValueKind::Move,
    ensures
        live_owners(e.bindings@, v) <= 1,
{
    assert(e.value_ok(v));
}

/// Law: the per-value borrow state stays within `Unborrowed`,
/// `Shared(n >= 1)` and `Mutable`, and a mutable borrow is never concurrent
/// with a shared borrow or with a second mutable borrow.
pub proof fn lemma_borrow_state_exclusive(e: Engine, v: int)
    requires
        e.wf(),
        0 <= v < e.values@.len(),
    ensures
        e.values@[v].state matches BorrowState::Shared(n) ==> n >= 1,
        active_borrows(e.borrows@, v, BorrowKind::Mutable) <= 1,
        active_borrows(e.borrows@, v, BorrowKind::Mutable) == 1 ==> active_borrows(
            e.borrows@,
            v,
            BorrowKind::Shared,
        ) == 0,
{
    assert(e.value_ok(v));
}

/// Law: once a value is dropped, every read, write, or borrow that reaches
/// it is rejected with `NotFound`.
pub proof fn lemma_dropped_value_rejected(e: Engine, v: usize)
    requires
        e.wf(),
        (v as int) < e.values@.len(),
        !e.values@[v as int].live,
    ensures
        e.read_check(Target::Value(v)) == Some(ErrorKind::NotFound),
        e.write_check(Target::Value(v)) == Some(ErrorKind::NotFound),
        forall|k: BorrowKind, s: int| #[trigger]
            e.borrow_check(v as int, k, s) == Some(ErrorKind::NotFound),
        forall|b: usize|
            (b as int) < e.bindings@.len() && e.bindings@[b as int].value == v && (
            #[trigger] e.bindings@[b as int]).state == crate::model::BindingState::Live
                ==> e.read_check(Target::Binding(b)) == Some(ErrorKind::NotFound),
{
}

/// Law: a borrow requested for a scope that would outlive the scope owning
/// the value's current binding is always rejected with `Dangling`.
pub proof fn lemma_outliving_borrow_dangles(e: Engine, v: int, k: BorrowKind, s: int)
    requires
        e.wf(),
        0 <= v < e.values@.len(),
        e.values@[v].live,
        0 <= s < e.scopes@.len(),
        e.scopes@[s].live,
        last_owner(e.bindings@, v) is Some,
        !scope_reaches(e.scopes@, s, e.bindings@[last_owner(e.bindings@, v).unwrap()].scope as int),
    ensures
        e.borrow_check(v, k, s) == Some(ErrorKind::Dangling),
{
}

/// Law: a value with no active borrow record is in the `Unborrowed` state —
/// in particular after a scope pop released the last borrow of the value.
pub proof fn lemma_unborrowed_when_no_active(e: Engine, v: int)
    requires
        e.wf(),
        0 <= v < e.values@.len(),
        forall|j: int|
            0 <= j < e.borrows@.len() ==> !((#[trigger] e.borrows@[j]).active
                && e.borrows@[j].value == v),
    ensures
        e.values@[v].state == BorrowState::Unborrowed,
{
    crate::model::lemma_active_borrows_zero_iff(e.borrows@, v, BorrowKind::Shared);
    crate::model::lemma_active_borrows_zero_iff(e.borrows@, v, BorrowKind::Mutable);
    assert(e.value_ok(v));
}

/// Law: a borrow request is owed success — `borrow_check` admits it — when
/// the value is live and owned, the requested scope is live and does not
/// outlive the owner's scope, and the value is unborrowed.
pub proof fn lemma_borrow_owed(e: Engine, v: int, k: BorrowKind, s: int)
    requires
        e.wf(),
        0 <= v < e.values@.len(),
        e.values@[v].live,
        0 <= s < e.scopes@.len(),
        e.scopes@[s].live,
        last_owner(e.bindings@, v) is Some,
        scope_reaches(e.scopes@, s, e.bindings@[last_owner(e.bindings@, v).unwrap()].scope as int),
        e.values@[v].state == BorrowState::Unborrowed,
    ensures
        e.borrow_check(v, k, s) is None,
{
}

} // verus!
