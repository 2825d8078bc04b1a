//! The ownership-and-borrow validation engine.
//!
//! One `Engine` holds an isolated value store, scope stack, and borrow
//! ledger.  Every operation either applies and returns an identifier, or
//! rejects and returns a [`Diagnostic`]; the engine itself never fails.

use vstd::prelude::*;

use crate::diag::{Diagnostic, ErrorKind};
use crate::model::{
    active_borrows, counts_borrow, last_owner, lemma_reverse_cons, live_owners, owned_from, owns,
    scope_reaches, BindingRec, BindingState, BorrowKind, BorrowRec, BorrowState, ScopeRec,
    ValueKind, ValueRec,
};
use crate::model::{
    lemma_active_borrows_le_len, lemma_active_borrows_push, lemma_active_borrows_update,
    lemma_active_borrows_zero_iff, lemma_last_owner_props, lemma_live_owners_push,
    lemma_live_owners_update, lemma_live_owners_zero_iff,
};
use crate::payload::Payload;

verus! {

/// An access path for a read or a write: through an owning binding, through
/// a held borrow, or directly at the value store.
#[derive(Clone, Copy, Debug, PartialEq, Eq, Structural)]
pub enum Target {
    Binding(usize),
    Borrow(usize),
    Value(usize),
}

/// An isolated ownership-tracking instance: a value store, the bindings and
/// borrows over it, and a stack of open scopes.
pub struct Engine {
    pub values: Vec<ValueRec>,
    pub bindings: Vec<BindingRec>,
    pub scopes: Vec<ScopeRec>,
    pub borrows: Vec<BorrowRec>,
    /// The open scopes, outermost first; the last entry is the current scope.
    pub stack: Vec<usize>,
}

impl Engine {
    /// Bindings and borrows point into the stores they index.
    pub open spec fn refs_ok(self) -> bool {
        &&& forall|i: int|
            0 <= i < self.bindings@.len() ==> (#[trigger] self.bindings@[i]).value
                < self.values@.len() && self.bindings@[i].scope < self.scopes@.len()
        &&& forall|i: int|
            0 <= i < self.borrows@.len() ==> (#[trigger] self.borrows@[i]).value
                < self.values@.len() && self.borrows@[i].scope < self.scopes@.len()
    }

    /// Parent links only point at earlier scopes, so walking up terminates.
    pub open spec fn scopes_ok(self) -> bool {
        forall|s: int|
            0 <= s < self.scopes@.len() ==> match (#[trigger] self.scopes@[s]).parent {
                Some(p) => p < s,
                None => true,
            }
    }

    /// Stack entries are live scopes in strictly increasing order.
    pub open spec fn stack_ok(self) -> bool {
        &&& forall|i: int|
            0 <= i < self.stack@.len() ==> (#[trigger] self.stack@[i]) < self.scopes@.len()
                && self.scopes@[self.stack@[i] as int].live
        &&& forall|i: int, j: int|
            0 <= i < j < self.stack@.len() ==> #[trigger] self.stack@[i] < #[trigger] self.stack@[j]
    }

    /// The cached borrow state of value `v` agrees with the borrow records,
    /// and a Move-kind value has at most one live owner.
    pub open spec fn value_ok(self, v: int) -> bool {
        let val = self.values@[v];
        &&& match val.state {
            BorrowState::Unborrowed => active_borrows(self.borrows@, v, BorrowKind::Shared) == 0
                && active_borrows(self.borrows@, v, BorrowKind::Mutable) == 0,
            BorrowState::Shared(n) => n >= 1 && val.live && active_borrows(
                self.borrows@,
                v,
                BorrowKind::Shared,
            ) == n && active_borrows(self.borrows@, v, BorrowKind::Mutable) == 0,
            BorrowState::Mutable => val.live && active_borrows(
                self.borrows@,
                v,
                BorrowKind::Shared,
            ) == 0 && active_borrows(self.borrows@, v, BorrowKind::Mutable) == 1,
        }
        &&& val.kind == ValueKind::Move ==> live_owners(self.bindings@, v) <= 1
    }

    /// The engine's invariant: every operation requires and re-establishes it.
    pub open spec fn wf(self) -> bool {
        &&& self.refs_ok()
        &&& self.scopes_ok()
        &&& self.stack_ok()
        &&& forall|v: int| 0 <= v < self.values@.len() ==> #[trigger] self.value_ok(v)
    }

    /// The scope new bindings are registered in: the innermost open one.
    pub open spec fn spec_current_scope(self) -> Option<usize> {
        if self.stack@.len() == 0 {
            None
        } else {
            Some(self.stack@.last())
        }
    }

    /// The identity of the current scope, if one is open.
    pub fn current_scope(&self) -> (r: Option<usize>)
        ensures
            r == self.spec_current_scope(),
    {
        if self.stack.len() == 0 {
            None
        } else {
            Some(self.stack[self.stack.len() - 1])
        }
    }

    /// A fresh engine: one open root scope and empty stores.
    pub fn new() -> (r: Engine)
        ensures
            r.wf(),
            r.values@.len() == 0,
            r.bindings@.len() == 0,
            r.borrows@.len() == 0,
            r.scopes@.len() == 1,
            r.scopes@[0] == (ScopeRec { parent: None::<usize>, live: true }),
            r.stack@ == seq![0usize],
    {
        let mut scopes: Vec<ScopeRec> = Vec::new();
        scopes.push(ScopeRec { parent: None, live: true });
        let mut stack: Vec<usize> = Vec::new();
        stack.push(0);
        Engine { values: Vec::new(), bindings: Vec::new(), scopes, borrows: Vec::new(), stack }
    }

    /// Store a fresh value of the given kind.  The value starts live,
    /// unborrowed, and unowned; `bind` gives it its first owner.
    pub fn create(&mut self, kind: ValueKind, payload: Payload) -> (r: usize)
        requires
            old(self).wf(),
        ensures
            final(self).wf(),
            r == old(self).values@.len(),
            final(self).values@ == old(self).values@.push(
                ValueRec { kind, payload, live: true, state: BorrowState::Unborrowed },
            ),
            final(self).bindings@ == old(self).bindings@,
            final(self).scopes@ == old(self).scopes@,
            final(self).borrows@ == old(self).borrows@,
            final(self).stack@ == old(self).stack@,
    {
        let id = self.values.len();
        self.values.push(ValueRec { kind, payload, live: true, state: BorrowState::Unborrowed });
        proof {
            assert(self.value_ok(id as int)) by {
                lemma_active_borrows_zero_iff(self.borrows@, id as int, BorrowKind::Shared);
                lemma_active_borrows_zero_iff(self.borrows@, id as int, BorrowKind::Mutable);
                lemma_live_owners_zero_iff(self.bindings@, id as int);
                assert(forall|j: int|
                    0 <= j < self.bindings@.len() ==> !owns(#[trigger] self.bindings@[j], id as int));
                assert(forall|j: int|
                    0 <= j < self.borrows@.len() ==> !counts_borrow(
                        #[trigger] self.borrows@[j],
                        id as int,
                        BorrowKind::Shared,
                    ) && !counts_borrow(self.borrows@[j], id as int, BorrowKind::Mutable));
            }
            assert(forall|v: int|
                0 <= v < old(self).values@.len() && old(self).value_ok(v)
                    ==> #[trigger] self.value_ok(v));
        }
        id
    }

    /// Open a child of the current scope and make it current.
    pub fn push_scope(&mut self) -> (r: usize)
        requires
            old(self).wf(),
        ensures
            final(self).wf(),
            r == old(self).scopes@.len(),
            final(self).scopes@ == old(self).scopes@.push(
                ScopeRec { parent: old(self).spec_current_scope(), live: true },
            ),
            final(self).stack@ == old(self).stack@.push(r as usize),
            final(self).values@ == old(self).values@,
            final(self).bindings@ == old(self).bindings@,
            final(self).borrows@ == old(self).borrows@,
    {
        let id = self.scopes.len();
        let parent = if self.stack.len() == 0 {
            None
        } else {
            Some(self.stack[self.stack.len() - 1])
        };
        self.scopes.push(ScopeRec { parent, live: true });
        self.stack.push(id);
        proof {
            assert(forall|v: int|
                0 <= v < self.values@.len() ==> old(self).value_ok(v) ==> #[trigger] self.value_ok(
                    v,
                ));
        }
        id
    }

    /// What `bind` decides for value `v` in the engine's current state:
    /// `None` when the binding is admitted, otherwise the error returned.
    pub open spec fn bind_check(self, v: int) -> Option<ErrorKind> {
        if self.spec_current_scope() is None {
            Some(ErrorKind::NotFound)
        } else if !(0 <= v < self.values@.len() && self.values@[v].live) {
            Some(ErrorKind::NotFound)
        } else if self.values@[v].kind == ValueKind::Move && live_owners(self.bindings@, v) >= 1 {
            Some(ErrorKind::AlreadyOwned)
        } else {
            None
        }
    }

    /// Register a binding named `name` for `value_id` in the current scope.
    ///
    /// Rejected with `NotFound` when no scope is open or the value does not
    /// exist or is dropped, and with `AlreadyOwned` when the value is
    /// Move-kind and already has a live owner.  A rejected call leaves the
    /// engine unchanged.
    pub fn bind(&mut self, name: String, value_id: usize, mutable: bool) -> (r: Result<
        usize,
        Diagnostic,
    >)
        requires
            old(self).wf(),
        ensures
            final(self).wf(),
            match r {
                Ok(bid) => {
                    &&& old(self).bind_check(value_id as int) is None
                    &&& bid == old(self).bindings@.len()
                    &&& final(self).bindings@ == old(self).bindings@.push(
                        BindingRec {
                            name,
                            value: value_id,
                            scope: old(self).spec_current_scope().unwrap(),
                            mutable,
                            state: BindingState::Live,
                        },
                    )
                    &&& final(self).values@ == old(self).values@
                    &&& final(self).scopes@ == old(self).scopes@
                    &&& final(self).borrows@ == old(self).borrows@
                    &&& final(self).stack@ == old(self).stack@
                },
                Err(d) => {
                    &&& old(self).bind_check(value_id as int) == Some(d.kind)
                    &&& *final(self) == *old(self)
                    &&& d.value == Some(value_id)
                    &&& d.scope == old(self).spec_current_scope()
                },
            },
    {
        if self.stack.len() == 0 {
            return Err(Diagnostic::new(ErrorKind::NotFound, Some(value_id), None));
        }
        let cur = self.stack[self.stack.len() - 1];
        if value_id >= self.values.len() || !self.values[value_id].live {
            return Err(Diagnostic::new(ErrorKind::NotFound, Some(value_id), Some(cur)));
        }
        if self.values[value_id].kind == ValueKind::Move {
            proof {
                lemma_last_owner_props(self.bindings@, value_id as int);
                lemma_live_owners_zero_iff(self.bindings@, value_id as int);
            }
            if let Some(_owner) = find_owner(&self.bindings, value_id) {
                return Err(Diagnostic::new(ErrorKind::AlreadyOwned, Some(value_id), Some(cur)));
            }
        }
        let bid = self.bindings.len();
        let rec = BindingRec {
            name,
            value: value_id,
            scope: cur,
            mutable,
            state: BindingState::Live,
        };
        let ghost pre = *self;
        self.bindings.push(rec);
        proof {
            assert forall|v: int| 0 <= v < self.values@.len() implies #[trigger] self.value_ok(
                v,
            ) by {
                lemma_live_owners_push(pre.bindings@, rec, v);
                if pre.values@[v].kind == ValueKind::Move && v == value_id as int {
                    lemma_live_owners_zero_iff(pre.bindings@, v);
                    lemma_last_owner_props(pre.bindings@, v);
                }
                assert(pre.value_ok(v));
            }
        }
        Ok(bid)
    }

    /// What `request_borrow` decides for value `v`, kind `k`, owning scope
    /// `s`: `None` when the borrow is granted, otherwise the error returned.
    pub open spec fn borrow_check(self, v: int, k: BorrowKind, s: int) -> Option<ErrorKind> {
        if !(0 <= v < self.values@.len() && self.values@[v].live) {
            Some(ErrorKind::NotFound)
        } else if !(0 <= s < self.scopes@.len() && self.scopes@[s].live) {
            Some(ErrorKind::NotFound)
        } else {
            match last_owner(self.bindings@, v) {
                None => Some(ErrorKind::NotFound),
                Some(ob) => if !scope_reaches(self.scopes@, s, self.bindings@[ob].scope as int) {
                    Some(ErrorKind::Dangling)
                } else {
                    match self.values@[v].state {
                        BorrowState::Unborrowed => None,
                        BorrowState::Shared(_) => if k == BorrowKind::Shared {
                            None
                        } else {
                            Some(ErrorKind::BorrowConflict)
                        },
                        BorrowState::Mutable => if k == BorrowKind::Shared {
                            Some(ErrorKind::BorrowConflict)
                        } else {
                            Some(ErrorKind::DoubleMutableBorrow)
                        },
                    }
                },
            }
        }
    }

    /// The borrow state after granting a borrow of kind `k` from state `st`.
    pub open spec fn granted_state(st: BorrowState, k: BorrowKind) -> BorrowState {
        match st {
            BorrowState::Unborrowed => if k == BorrowKind::Shared {
                BorrowState::Shared(1)
            } else {
                BorrowState::Mutable
            },
            BorrowState::Shared(n) => BorrowState::Shared((n + 1) as usize),
            BorrowState::Mutable => BorrowState::Mutable,
        }
    }

    /// Request a borrow of `value_id` whose lifetime is tied to `scope_id`.
    ///
    /// Rejected with `NotFound` when the value is gone or unowned or the
    /// scope is gone; with `Dangling` when `scope_id` would outlive the scope
    /// owning the value's current binding; with `BorrowConflict` or
    /// `DoubleMutableBorrow` when the borrow state forbids it.  A rejected
    /// call leaves the engine unchanged.
    pub fn request_borrow(&mut self, value_id: usize, kind: BorrowKind, scope_id: usize) -> (r:
        Result<usize, Diagnostic>)
        requires
            old(self).wf(),
        ensures
            final(self).wf(),
            match r {
                Ok(wid) => {
                    &&& old(self).borrow_check(value_id as int, kind, scope_id as int) is None
                    &&& wid == old(self).borrows@.len()
                    &&& final(self).borrows@ == old(self).borrows@.push(
                        BorrowRec { value: value_id, kind, scope: scope_id, active: true },
                    )
                    &&& final(self).values@ == old(self).values@.update(
                        value_id as int,
                        (ValueRec {
                            state: Self::granted_state(old(self).values@[value_id as int].state, kind),
                            ..old(self).values@[value_id as int]
                        }),
                    )
                    &&& final(self).bindings@ == old(self).bindings@
                    &&& final(self).scopes@ == old(self).scopes@
                    &&& final(self).stack@ == old(self).stack@
                },
                Err(d) => {
                    &&& old(self).borrow_check(value_id as int, kind, scope_id as int) == Some(
                        d.kind,
                    )
                    &&& *final(self) == *old(self)
                    &&& d.value == Some(value_id)
                    &&& d.scope == Some(scope_id)
                },
            },
    {
        if value_id >= self.values.len() || !self.values[value_id].live {
            return Err(Diagnostic::new(ErrorKind::NotFound, Some(value_id), Some(scope_id)));
        }
        if scope_id >= self.scopes.len() || !self.scopes[scope_id].live {
            return Err(Diagnostic::new(ErrorKind::NotFound, Some(value_id), Some(scope_id)));
        }
        let owner = match find_owner(&self.bindings, value_id) {
            None => {
                return Err(Diagnostic::new(ErrorKind::NotFound, Some(value_id), Some(scope_id)));
            },
            Some(i) => i,
        };
        proof {
            lemma_last_owner_props(self.bindings@, value_id as int);
        }
        let owner_scope = self.bindings[owner].scope;
        if !scope_descends(&self.scopes, scope_id, owner_scope) {
            return Err(Diagnostic::new(ErrorKind::Dangling, Some(value_id), Some(scope_id)));
        }
        let st = self.values[value_id].state;
        match st {
            BorrowState::Mutable => {
                let k = if kind == BorrowKind::Shared {
                    ErrorKind::BorrowConflict
                } else {
                    ErrorKind::DoubleMutableBorrow
                };
                return Err(Diagnostic::new(k, Some(value_id), Some(scope_id)));
            },
            BorrowState::Shared(_) => {
                if kind == BorrowKind::Mutable {
                    return Err(
                        Diagnostic::new(ErrorKind::BorrowConflict, Some(value_id), Some(scope_id)),
                    );
                }
            },
            BorrowState::Unborrowed => {},
        }
        let wid = self.borrows.len();
        let rec = BorrowRec { value: value_id, kind, scope: scope_id, active: true };
        let ghost pre = *self;
        self.borrows.push(rec);
        let fresh_len = self.borrows.len();
        let next = match st {
            BorrowState::Unborrowed => Self::initial_borrow_state(kind),
            BorrowState::Shared(n) => {
                proof {
                    lemma_active_borrows_push(pre.borrows@, rec, value_id as int, BorrowKind::Shared);
                    lemma_active_borrows_le_len(self.borrows@, value_id as int, BorrowKind::Shared);
                    assert(pre.value_ok(value_id as int));
                }
                BorrowState::Shared(n + 1)
            },
            BorrowState::Mutable => BorrowState::Mutable,
        };
        self.values[value_id].state = next;
        proof {
            assert forall|v: int| 0 <= v < self.values@.len() implies #[trigger] self.value_ok(
                v,
            ) by {
                lemma_active_borrows_push(pre.borrows@, rec, v, BorrowKind::Shared);
                lemma_active_borrows_push(pre.borrows@, rec, v, BorrowKind::Mutable);
                assert(pre.value_ok(v));
            }
        }
        Ok(wid)
    }

    /// The state a fresh borrow of kind `k` puts an unborrowed value in.
    pub open spec fn initial_borrow_state_spec(k: BorrowKind) -> BorrowState {
        if k == BorrowKind::Shared {
            BorrowState::Shared(1)
        } else {
            BorrowState::Mutable
        }
    }

    #[verifier::when_used_as_spec(initial_borrow_state_spec)]
    fn initial_borrow_state(k: BorrowKind) -> (r: BorrowState)
        ensures
            r == Self::initial_borrow_state_spec(k),
    {
        if k == BorrowKind::Shared {
            BorrowState::Shared(1)
        } else {
            BorrowState::Mutable
        }
    }

    /// What `release` decides for borrow `w`: `None` when the borrow is
    /// active and is released, otherwise the error returned.
    pub open spec fn release_check(self, w: int) -> Option<ErrorKind> {
        if !(0 <= w < self.borrows@.len() && self.borrows@[w].active) {
            Some(ErrorKind::NotFound)
        } else {
            None
        }
    }

    /// The borrow state after one borrow of kind `k` leaves state `st`.
    pub open spec fn released_state(st: BorrowState) -> BorrowState {
        match st {
            BorrowState::Unborrowed => BorrowState::Unborrowed,
            BorrowState::Shared(n) => if n <= 1 {
                BorrowState::Unborrowed
            } else {
                BorrowState::Shared((n - 1) as usize)
            },
            BorrowState::Mutable => BorrowState::Unborrowed,
        }
    }

    /// Release an active borrow.  Rejected with `NotFound` when no active
    /// borrow has this identity; a rejected call leaves the engine unchanged.
    pub fn release(&mut self, borrow_id: usize) -> (r: Result<(), Diagnostic>)
        requires
            old(self).wf(),
        ensures
            final(self).wf(),
            match r {
                Ok(()) => {
                    &&& old(self).release_check(borrow_id as int) is None
                    &&& final(self).borrows@ == old(self).borrows@.update(
                        borrow_id as int,
                        (BorrowRec { active: false, ..old(self).borrows@[borrow_id as int] }),
                    )
                    &&& final(self).values@ == old(self).values@.update(
                        old(self).borrows@[borrow_id as int].value as int,
                        (ValueRec {
                            state: Self::released_state(
                                old(self).values@[old(self).borrows@[borrow_id as int].value as int].state,
                            ),
                            ..old(self).values@[old(self).borrows@[borrow_id as int].value as int]
                        }),
                    )
                    &&& final(self).bindings@ == old(self).bindings@
                    &&& final(self).scopes@ == old(self).scopes@
                    &&& final(self).stack@ == old(self).stack@
                },
                Err(d) => {
                    &&& old(self).release_check(borrow_id as int) == Some(d.kind)
                    &&& *final(self) == *old(self)
                    &&& d.kind == ErrorKind::NotFound
                },
            },
    {
        if borrow_id >= self.borrows.len() || !self.borrows[borrow_id].active {
            return Err(Diagnostic::new(ErrorKind::NotFound, None, None));
        }
        let v = self.borrows[borrow_id].value;
        let k = self.borrows[borrow_id].kind;
        let ghost pre = *self;
        proof {
            lemma_active_borrows_zero_iff(pre.borrows@, v as int, k);
            assert(counts_borrow(pre.borrows@[borrow_id as int], v as int, k));
        }
        let next = match self.values[v].state {
            BorrowState::Unborrowed => BorrowState::Unborrowed,
            BorrowState::Shared(n) => {
                if n <= 1 {
                    BorrowState::Unborrowed
                } else {
                    BorrowState::Shared(n - 1)
                }
            },
            BorrowState::Mutable => BorrowState::Unborrowed,
        };
        self.borrows[borrow_id].active = false;
        self.values[v].state = next;
        proof {
            let nb = BorrowRec { active: false, ..pre.borrows@[borrow_id as int] };
            assert forall|w: int| 0 <= w < self.values@.len() implies #[trigger] self.value_ok(
                w,
            ) by {
                lemma_active_borrows_update(pre.borrows@, borrow_id as int, nb, w, BorrowKind::Shared);
                lemma_active_borrows_update(pre.borrows@, borrow_id as int, nb, w, BorrowKind::Mutable);
                assert(pre.value_ok(w));
            }
        }
        Ok(())
    }

    /// The value a read or write target resolves to, where it resolves.
    pub open spec fn spec_target_value(self, t: Target) -> Option<usize> {
        match t {
            Target::Binding(b) => if (b as int) < self.bindings@.len() {
                Some(self.bindings@[b as int].value)
            } else {
                None
            },
            Target::Borrow(w) => if (w as int) < self.borrows@.len() {
                Some(self.borrows@[w as int].value)
            } else {
                None
            },
            Target::Value(v) => if (v as int) < self.values@.len() {
                Some(v)
            } else {
                None
            },
        }
    }

    /// The scope a diagnostic about the target names, where one applies.
    pub open spec fn spec_target_scope(self, t: Target) -> Option<usize> {
        match t {
            Target::Binding(b) => if (b as int) < self.bindings@.len() {
                Some(self.bindings@[b as int].scope)
            } else {
                None
            },
            Target::Borrow(w) => if (w as int) < self.borrows@.len() {
                Some(self.borrows@[w as int].scope)
            } else {
                None
            },
            Target::Value(_) => None,
        }
    }

    /// What `read` decides for the target: `None` when the payload is
    /// handed out, otherwise the error returned.
    pub open spec fn read_check(self, t: Target) -> Option<ErrorKind> {
        match t {
            Target::Binding(b) => if !((b as int) < self.bindings@.len()) {
                Some(ErrorKind::NotFound)
            } else {
                match self.bindings@[b as int].state {
                    BindingState::Moved => Some(ErrorKind::UseAfterMove),
                    BindingState::Dropped => Some(ErrorKind::NotFound),
                    BindingState::Live => if !self.values@[self.bindings@[b as int].value as int].live {
                        Some(ErrorKind::NotFound)
                    } else {
                        None
                    },
                }
            },
            Target::Borrow(w) => if !((w as int) < self.borrows@.len()
                && self.borrows@[w as int].active) {
                Some(ErrorKind::NotFound)
            } else {
                None
            },
            Target::Value(v) => if !((v as int) < self.values@.len()
                && self.values@[v as int].live) {
                Some(ErrorKind::NotFound)
            } else {
                None
            },
        }
    }

    /// Read the payload the target resolves to.
    ///
    /// Rejected with `UseAfterMove` when the binding was invalidated by a
    /// move, and with `NotFound` when the target does not exist, the binding
    /// or borrow is no longer usable, or the value is dropped.
    pub fn read(&self, target: Target) -> (r: Result<&Payload, Diagnostic>)
        requires
            self.wf(),
        ensures
            match r {
                Ok(p) => self.read_check(target) is None && self.spec_target_value(target) is Some
                    && *p == self.values@[self.spec_target_value(target).unwrap() as int].payload,
                Err(d) => {
                    &&& self.read_check(target) == Some(d.kind)
                    &&& d.value == self.spec_target_value(target)
                    &&& d.scope == self.spec_target_scope(target)
                },
            },
    {
        match target {
            Target::Binding(b) => {
                if b >= self.bindings.len() {
                    return Err(Diagnostic::new(ErrorKind::NotFound, None, None));
                }
                let v = self.bindings[b].value;
                let sc = self.bindings[b].scope;
                match self.bindings[b].state {
                    BindingState::Moved => Err(
                        Diagnostic::new(ErrorKind::UseAfterMove, Some(v), Some(sc)),
                    ),
                    BindingState::Dropped => Err(
                        Diagnostic::new(ErrorKind::NotFound, Some(v), Some(sc)),
                    ),
                    BindingState::Live => {
                        if !self.values[v].live {
                            Err(Diagnostic::new(ErrorKind::NotFound, Some(v), Some(sc)))
                        } else {
                            Ok(&self.values[v].payload)
                        }
                    },
                }
            },
            Target::Borrow(w) => {
                if w >= self.borrows.len() {
                    return Err(Diagnostic::new(ErrorKind::NotFound, None, None));
                }
                let v = self.borrows[w].value;
                let sc = self.borrows[w].scope;
                if !self.borrows[w].active {
                    Err(Diagnostic::new(ErrorKind::NotFound, Some(v), Some(sc)))
                } else {
                    Ok(&self.values[v].payload)
                }
            },
            Target::Value(v) => {
                if v >= self.values.len() || !self.values[v].live {
                    let known = if v < self.values.len() {
                        Some(v)
                    } else {
                        None
                    };
                    Err(Diagnostic::new(ErrorKind::NotFound, known, None))
                } else {
                    Ok(&self.values[v].payload)
                }
            },
        }
    }

    /// What `write` decides for the target: `None` when the payload is
    /// replaced, otherwise the error returned.
    pub open spec fn write_check(self, t: Target) -> Option<ErrorKind> {
        match t {
            Target::Binding(b) => if !((b as int) < self.bindings@.len()) {
                Some(ErrorKind::NotFound)
            } else {
                match self.bindings@[b as int].state {
                    BindingState::Moved => Some(ErrorKind::UseAfterMove),
                    BindingState::Dropped => Some(ErrorKind::NotFound),
                    BindingState::Live => {
                        let v = self.bindings@[b as int].value as int;
                        if !self.values@[v].live {
                            Some(ErrorKind::NotFound)
                        } else if self.values@[v].state != BorrowState::Unborrowed {
                            Some(ErrorKind::BorrowWriteConflict)
                        } else {
                            None
                        }
                    },
                }
            },
            Target::Borrow(w) => if !((w as int) < self.borrows@.len()
                && self.borrows@[w as int].active) {
                Some(ErrorKind::NotFound)
            } else if self.borrows@[w as int].kind == BorrowKind::Shared {
                Some(ErrorKind::BorrowWriteConflict)
            } else {
                None
            },
            Target::Value(v) => if !((v as int) < self.values@.len()
                && self.values@[v as int].live) {
                Some(ErrorKind::NotFound)
            } else if self.values@[v as int].state != BorrowState::Unborrowed {
                Some(ErrorKind::BorrowWriteConflict)
            } else {
                None
            },
        }
    }

    /// Replace the payload the target resolves to.
    ///
    /// A write needs exclusive access: through the owner or the store it
    /// requires the value to be unborrowed, through a borrow it requires the
    /// borrow to be the active mutable one; otherwise the call is rejected
    /// with `BorrowWriteConflict`.  `UseAfterMove` and `NotFound` are as for
    /// `read`.  A rejected call leaves the engine unchanged.
    pub fn write(&mut self, target: Target, payload: Payload) -> (r: Result<(), Diagnostic>)
        requires
            old(self).wf(),
        ensures
            final(self).wf(),
            match r {
                Ok(()) => {
                    &&& old(self).write_check(target) is None
                    &&& old(self).spec_target_value(target) is Some
                    &&& final(self).values@ == old(self).values@.update(
                        old(self).spec_target_value(target).unwrap() as int,
                        (ValueRec {
                            payload,
                            ..old(self).values@[old(self).spec_target_value(target).unwrap() as int]
                        }),
                    )
                    &&& final(self).bindings@ == old(self).bindings@
                    &&& final(self).scopes@ == old(self).scopes@
                    &&& final(self).borrows@ == old(self).borrows@
                    &&& final(self).stack@ == old(self).stack@
                },
                Err(d) => {
                    &&& old(self).write_check(target) == Some(d.kind)
                    &&& *final(self) == *old(self)
                    &&& d.value == old(self).spec_target_value(target)
                    &&& d.scope == old(self).spec_target_scope(target)
                },
            },
    {
        let v = match target {
            Target::Binding(b) => {
                if b >= self.bindings.len() {
                    return Err(Diagnostic::new(ErrorKind::NotFound, None, None));
                }
                let v = self.bindings[b].value;
                let sc = self.bindings[b].scope;
                match self.bindings[b].state {
                    BindingState::Moved => {
                        return Err(Diagnostic::new(ErrorKind::UseAfterMove, Some(v), Some(sc)));
                    },
                    BindingState::Dropped => {
                        return Err(Diagnostic::new(ErrorKind::NotFound, Some(v), Some(sc)));
                    },
                    BindingState::Live => {},
                }
                if !self.values[v].live {
                    return Err(Diagnostic::new(ErrorKind::NotFound, Some(v), Some(sc)));
                }
                if self.values[v].state != BorrowState::Unborrowed {
                    return Err(
                        Diagnostic::new(ErrorKind::BorrowWriteConflict, Some(v), Some(sc)),
                    );
                }
                v
            },
            Target::Borrow(w) => {
                if w >= self.borrows.len() {
                    return Err(Diagnostic::new(ErrorKind::NotFound, None, None));
                }
                let v = self.borrows[w].value;
                let sc = self.borrows[w].scope;
                if !self.borrows[w].active {
                    return Err(Diagnostic::new(ErrorKind::NotFound, Some(v), Some(sc)));
                }
                if self.borrows[w].kind == BorrowKind::Shared {
                    return Err(
                        Diagnostic::new(ErrorKind::BorrowWriteConflict, Some(v), Some(sc)),
                    );
                }
                v
            },
            Target::Value(v) => {
                if v >= self.values.len() || !self.values[v].live {
                    let known = if v < self.values.len() {
                        Some(v)
                    } else {
                        None
                    };
                    return Err(Diagnostic::new(ErrorKind::NotFound, known, None));
                }
                if self.values[v].state != BorrowState::Unborrowed {
                    return Err(Diagnostic::new(ErrorKind::BorrowWriteConflict, Some(v), None));
                }
                v
            },
        };
        let ghost pre = *self;
        self.values[v].payload = payload;
        proof {
            assert forall|w: int| 0 <= w < self.values@.len() implies #[trigger] self.value_ok(
                w,
            ) by {
                assert(pre.value_ok(w));
            }
        }
        Ok(())
    }

    /// What `move_value` decides for source binding `b`: `None` when the
    /// move or copy is performed, otherwise the error returned.
    pub open spec fn move_check(self, b: int) -> Option<ErrorKind> {
        if self.spec_current_scope() is None {
            Some(ErrorKind::NotFound)
        } else if !(0 <= b < self.bindings@.len()) {
            Some(ErrorKind::NotFound)
        } else {
            match self.bindings@[b].state {
                BindingState::Moved => Some(ErrorKind::UseAfterMove),
                BindingState::Dropped => Some(ErrorKind::NotFound),
                BindingState::Live => {
                    let v = self.bindings@[b].value as int;
                    if !self.values@[v].live {
                        Some(ErrorKind::NotFound)
                    } else if self.values@[v].state != BorrowState::Unborrowed {
                        Some(ErrorKind::BorrowWriteConflict)
                    } else {
                        None
                    }
                },
            }
        }
    }

    /// Assign the value held by binding `from` to a new binding named `name`
    /// in the current scope.
    ///
    /// For a Move-kind value the source binding is invalidated — any later
    /// access to it fails with `UseAfterMove` — and the new binding owns the
    /// same value.  For a Copy-kind value a fresh value is allocated with a
    /// duplicate of the payload and the source binding stays fully valid.
    /// Like a write, a move requires the value to be unborrowed, and fails
    /// with `BorrowWriteConflict` while any borrow is active.  A rejected
    /// call leaves the engine unchanged.
    pub fn move_value(&mut self, from: usize, name: String, mutable: bool) -> (r: Result<
        usize,
        Diagnostic,
    >)
        requires
            old(self).wf(),
        ensures
            final(self).wf(),
            match r {
                Ok(nb) => {
                    &&& old(self).move_check(from as int) is None
                    &&& nb == old(self).bindings@.len()
                    &&& if old(self).values@[old(self).bindings@[from as int].value as int].kind
                        == ValueKind::Move {
                        &&& final(self).bindings@ == old(self).bindings@.update(
                            from as int,
                            (BindingRec {
                                state: BindingState::Moved,
                                ..old(self).bindings@[from as int]
                            }),
                        ).push(
                            BindingRec {
                                name,
                                value: old(self).bindings@[from as int].value,
                                scope: old(self).spec_current_scope().unwrap(),
                                mutable,
                                state: BindingState::Live,
                            },
                        )
                        &&& final(self).values@ == old(self).values@
                    } else {
                        &&& final(self).bindings@ == old(self).bindings@.push(
                            BindingRec {
                                name,
                                value: old(self).values@.len() as usize,
                                scope: old(self).spec_current_scope().unwrap(),
                                mutable,
                                state: BindingState::Live,
                            },
                        )
                        &&& final(self).values@ == old(self).values@.push(
                            ValueRec {
                                kind: ValueKind::Copy,
                                payload: old(self).values@[old(self).bindings@[from as int].value as int].payload,
                                live: true,
                                state: BorrowState::Unborrowed,
                            },
                        )
                    }
                    &&& final(self).scopes@ == old(self).scopes@
                    &&& final(self).borrows@ == old(self).borrows@
                    &&& final(self).stack@ == old(self).stack@
                },
                Err(d) => {
                    &&& old(self).move_check(from as int) == Some(d.kind)
                    &&& *final(self) == *old(self)
                },
            },
    {
        if self.stack.len() == 0 {
            return Err(Diagnostic::new(ErrorKind::NotFound, None, None));
        }
        let cur = self.stack[self.stack.len() - 1];
        if from >= self.bindings.len() {
            return Err(Diagnostic::new(ErrorKind::NotFound, None, Some(cur)));
        }
        let v = self.bindings[from].value;
        match self.bindings[from].state {
            BindingState::Moved => {
                return Err(Diagnostic::new(ErrorKind::UseAfterMove, Some(v), Some(cur)));
            },
            BindingState::Dropped => {
                return Err(Diagnostic::new(ErrorKind::NotFound, Some(v), Some(cur)));
            },
            BindingState::Live => {},
        }
        if !self.values[v].live {
            return Err(Diagnostic::new(ErrorKind::NotFound, Some(v), Some(cur)));
        }
        if self.values[v].state != BorrowState::Unborrowed {
            return Err(Diagnostic::new(ErrorKind::BorrowWriteConflict, Some(v), Some(cur)));
        }
        let nb = self.bindings.len();
        let ghost pre = *self;
        if self.values[v].kind == ValueKind::Move {
            self.bindings[from].state = BindingState::Moved;
            let ghost moved_rec = BindingRec {
                state: BindingState::Moved,
                ..pre.bindings@[from as int]
            };
            let ghost mid = *self;
            let new_rec = BindingRec {
                name,
                value: v,
                scope: cur,
                mutable,
                state: BindingState::Live,
            };
            self.bindings.push(new_rec);
            proof {
                assert forall|w: int| 0 <= w < self.values@.len() implies #[trigger] self.value_ok(
                    w,
                ) by {
                    lemma_live_owners_update(pre.bindings@, from as int, moved_rec, w);
                    lemma_live_owners_push(mid.bindings@, new_rec, w);
                    assert(pre.value_ok(w));
                }
            }
            Ok(nb)
        } else {
            let dup = self.values[v].payload.duplicate();
            let nv = self.values.len();
            let new_val = ValueRec {
                kind: ValueKind::Copy,
                payload: dup,
                live: true,
                state: BorrowState::Unborrowed,
            };
            self.values.push(new_val);
            let ghost mid = *self;
            let new_rec = BindingRec {
                name,
                value: nv,
                scope: cur,
                mutable,
                state: BindingState::Live,
            };
            self.bindings.push(new_rec);
            proof {
                assert forall|w: int| 0 <= w < self.values@.len() implies #[trigger] self.value_ok(
                    w,
                ) by {
                    lemma_live_owners_push(pre.bindings@, new_rec, w);
                    if w < pre.values@.len() {
                        assert(pre.value_ok(w));
                        assert(!owns(new_rec, w));
                    } else {
                        lemma_live_owners_zero_iff(pre.bindings@, w);
                        lemma_active_borrows_zero_iff(pre.borrows@, w, BorrowKind::Shared);
                        lemma_active_borrows_zero_iff(pre.borrows@, w, BorrowKind::Mutable);
                        assert(forall|j: int|
                            0 <= j < pre.bindings@.len() ==> !owns(
                                #[trigger] pre.bindings@[j],
                                w,
                            ));
                        assert(forall|j: int|
                            0 <= j < pre.borrows@.len() ==> !counts_borrow(
                                #[trigger] pre.borrows@[j],
                                w,
                                BorrowKind::Shared,
                            ) && !counts_borrow(pre.borrows@[j], w, BorrowKind::Mutable));
                    }
                }
            }
            Ok(nb)
        }
    }

    /// Deactivate every active borrow of value `v`, stepping its borrow
    /// state down to `Unborrowed`.  Used when the value is dropped.
    fn release_for_value(&mut self, v: usize)
        requires
            old(self).wf(),
            v < old(self).values@.len(),
        ensures
            final(self).wf(),
            final(self).borrows@.len() == old(self).borrows@.len(),
            forall|j: int|
                0 <= j < old(self).borrows@.len() ==> {
                    &&& (#[trigger] final(self).borrows@[j]).value == old(self).borrows@[j].value
                    &&& final(self).borrows@[j].kind == old(self).borrows@[j].kind
                    &&& final(self).borrows@[j].scope == old(self).borrows@[j].scope
                    &&& final(self).borrows@[j].active == (old(self).borrows@[j].active && old(
                        self,
                    ).borrows@[j].value != v)
                },
            final(self).values@ == old(self).values@.update(
                v as int,
                (ValueRec { state: BorrowState::Unborrowed, ..old(self).values@[v as int] }),
            ),
            final(self).bindings@ == old(self).bindings@,
            final(self).scopes@ == old(self).scopes@,
            final(self).stack@ == old(self).stack@,
    {
        let ghost orig = *self;
        let mut j: usize = 0;
        while j < self.borrows.len()
            invariant
                self.wf(),
                v < self.values@.len(),
                j <= self.borrows@.len(),
                self.borrows@.len() == orig.borrows@.len(),
                forall|jj: int|
                    0 <= jj < j ==> {
                        &&& (#[trigger] self.borrows@[jj]).value == orig.borrows@[jj].value
                        &&& self.borrows@[jj].kind == orig.borrows@[jj].kind
                        &&& self.borrows@[jj].scope == orig.borrows@[jj].scope
                        &&& self.borrows@[jj].active == (orig.borrows@[jj].active
                            && orig.borrows@[jj].value != v)
                    },
                forall|jj: int|
                    j <= jj < self.borrows@.len() ==> #[trigger] self.borrows@[jj]
                        == orig.borrows@[jj],
                self.values@.len() == orig.values@.len(),
                forall|w: int|
                    0 <= w < self.values@.len() && w != v ==> #[trigger] self.values@[w]
                        == orig.values@[w],
                self.values@[v as int].kind == orig.values@[v as int].kind,
                self.values@[v as int].payload == orig.values@[v as int].payload,
                self.values@[v as int].live == orig.values@[v as int].live,
                self.bindings@ == orig.bindings@,
                self.scopes@ == orig.scopes@,
                self.stack@ == orig.stack@,
            decreases self.borrows@.len() - j,
        {
            if self.borrows[j].active && self.borrows[j].value == v {
                let k = self.borrows[j].kind;
                let ghost pre = *self;
                proof {
                    lemma_active_borrows_zero_iff(pre.borrows@, v as int, k);
                    assert(counts_borrow(pre.borrows@[j as int], v as int, k));
                }
                let next = match self.values[v].state {
                    BorrowState::Unborrowed => BorrowState::Unborrowed,
                    BorrowState::Shared(n) => {
                        if n <= 1 {
                            BorrowState::Unborrowed
                        } else {
                            BorrowState::Shared(n - 1)
                        }
                    },
                    BorrowState::Mutable => BorrowState::Unborrowed,
                };
                self.borrows[j].active = false;
                self.values[v].state = next;
                proof {
                    let nbr = BorrowRec { active: false, ..pre.borrows@[j as int] };
                    assert forall|w: int|
                        0 <= w < self.values@.len() implies #[trigger] self.value_ok(w) by {
                        lemma_active_borrows_update(
                            pre.borrows@,
                            j as int,
                            nbr,
                            w,
                            BorrowKind::Shared,
                        );
                        lemma_active_borrows_update(
                            pre.borrows@,
                            j as int,
                            nbr,
                            w,
                            BorrowKind::Mutable,
                        );
                        assert(pre.value_ok(w));
                    }
                }
            }
            j = j + 1;
        }
        proof {
            lemma_active_borrows_zero_iff(self.borrows@, v as int, BorrowKind::Shared);
            lemma_active_borrows_zero_iff(self.borrows@, v as int, BorrowKind::Mutable);
            assert(self.value_ok(v as int));
            assert(self.values@[v as int].state == BorrowState::Unborrowed);
            assert(self.values@ =~= orig.values@.update(
                v as int,
                (ValueRec { state: BorrowState::Unborrowed, ..orig.values@[v as int] }),
            ));
        }
    }

    /// What `drop_value` decides for value `v`: `None` when the value is
    /// destroyed, otherwise the error returned.
    pub open spec fn drop_check(self, v: int) -> Option<ErrorKind> {
        if !(0 <= v < self.values@.len() && self.values@[v].live) {
            Some(ErrorKind::NotFound)
        } else {
            None
        }
    }

    /// Destroy a value explicitly: mark it `Dropped` and release any of its
    /// active borrows.  Every later access through any path fails with
    /// `NotFound`.  Rejected with `NotFound` when the value does not exist
    /// or is already dropped; a rejected call leaves the engine unchanged.
    pub fn drop_value(&mut self, value_id: usize) -> (r: Result<(), Diagnostic>)
        requires
            old(self).wf(),
        ensures
            final(self).wf(),
            match r {
                Ok(()) => {
                    &&& old(self).drop_check(value_id as int) is None
                    &&& final(self).values@ == old(self).values@.update(
                        value_id as int,
                        (ValueRec {
                            live: false,
                            state: BorrowState::Unborrowed,
                            ..old(self).values@[value_id as int]
                        }),
                    )
                    &&& final(self).borrows@.len() == old(self).borrows@.len()
                    &&& forall|j: int|
                        0 <= j < old(self).borrows@.len() ==> {
                            &&& (#[trigger] final(self).borrows@[j]).value == old(
                                self,
                            ).borrows@[j].value
                            &&& final(self).borrows@[j].kind == old(self).borrows@[j].kind
                            &&& final(self).borrows@[j].scope == old(self).borrows@[j].scope
                            &&& final(self).borrows@[j].active == (old(self).borrows@[j].active
                                && old(self).borrows@[j].value != value_id)
                        }
                    &&& final(self).bindings@ == old(self).bindings@
                    &&& final(self).scopes@ == old(self).scopes@
                    &&& final(self).stack@ == old(self).stack@
                },
                Err(d) => {
                    &&& old(self).drop_check(value_id as int) == Some(d.kind)
                    &&& *final(self) == *old(self)
                    &&& d.kind == ErrorKind::NotFound
                },
            },
    {
        if value_id >= self.values.len() || !self.values[value_id].live {
            let known = if value_id < self.values.len() {
                Some(value_id)
            } else {
                None
            };
            return Err(Diagnostic::new(ErrorKind::NotFound, known, None));
        }
        self.release_for_value(value_id);
        let ghost mid = *self;
        self.values[value_id].live = false;
        proof {
            assert forall|w: int| 0 <= w < self.values@.len() implies #[trigger] self.value_ok(
                w,
            ) by {
                assert(mid.value_ok(w));
            }
        }
        Ok(())
    }

    /// Force-release every active borrow whose lifetime is tied to scope `s`,
    /// stepping each borrowed value's state down accordingly.  Used on scope
    /// exit, before the scope's bindings are dropped.
    fn release_for_scope(&mut self, s: usize)
        requires
            old(self).wf(),
        ensures
            final(self).wf(),
            final(self).borrows@.len() == old(self).borrows@.len(),
            forall|j: int|
                0 <= j < old(self).borrows@.len() ==> {
                    &&& (#[trigger] final(self).borrows@[j]).value == old(self).borrows@[j].value
                    &&& final(self).borrows@[j].kind == old(self).borrows@[j].kind
                    &&& final(self).borrows@[j].scope == old(self).borrows@[j].scope
                    &&& final(self).borrows@[j].active == (old(self).borrows@[j].active && old(
                        self,
                    ).borrows@[j].scope != s)
                },
            final(self).values@.len() == old(self).values@.len(),
            forall|v: int|
                0 <= v < old(self).values@.len() ==> {
                    &&& (#[trigger] final(self).values@[v]).kind == old(self).values@[v].kind
                    &&& final(self).values@[v].payload == old(self).values@[v].payload
                    &&& final(self).values@[v].live == old(self).values@[v].live
                },
            final(self).bindings@ == old(self).bindings@,
            final(self).scopes@ == old(self).scopes@,
            final(self).stack@ == old(self).stack@,
    {
        let ghost orig = *self;
        let mut j: usize = 0;
        while j < self.borrows.len()
            invariant
                self.wf(),
                j <= self.borrows@.len(),
                self.borrows@.len() == orig.borrows@.len(),
                forall|jj: int|
                    0 <= jj < j ==> {
                        &&& (#[trigger] self.borrows@[jj]).value == orig.borrows@[jj].value
                        &&& self.borrows@[jj].kind == orig.borrows@[jj].kind
                        &&& self.borrows@[jj].scope == orig.borrows@[jj].scope
                        &&& self.borrows@[jj].active == (orig.borrows@[jj].active
                            && orig.borrows@[jj].scope != s)
                    },
                forall|jj: int|
                    j <= jj < self.borrows@.len() ==> #[trigger] self.borrows@[jj]
                        == orig.borrows@[jj],
                self.values@.len() == orig.values@.len(),
                forall|w: int|
                    0 <= w < self.values@.len() ==> {
                        &&& (#[trigger] self.values@[w]).kind == orig.values@[w].kind
                        &&& self.values@[w].payload == orig.values@[w].payload
                        &&& self.values@[w].live == orig.values@[w].live
                    },
                self.bindings@ == orig.bindings@,
                self.scopes@ == orig.scopes@,
                self.stack@ == orig.stack@,
            decreases self.borrows@.len() - j,
        {
            if self.borrows[j].active && self.borrows[j].scope == s {
                let v = self.borrows[j].value;
                let k = self.borrows[j].kind;
                let ghost pre = *self;
                proof {
                    lemma_active_borrows_zero_iff(pre.borrows@, v as int, k);
                    assert(counts_borrow(pre.borrows@[j as int], v as int, k));
                }
                let next = match self.values[v].state {
                    BorrowState::Unborrowed => BorrowState::Unborrowed,
                    BorrowState::Shared(n) => {
                        if n <= 1 {
                            BorrowState::Unborrowed
                        } else {
                            BorrowState::Shared(n - 1)
                        }
                    },
                    BorrowState::Mutable => BorrowState::Unborrowed,
                };
                self.borrows[j].active = false;
                self.values[v].state = next;
                proof {
                    let nbr = BorrowRec { active: false, ..pre.borrows@[j as int] };
                    assert forall|w: int|
                        0 <= w < self.values@.len() implies #[trigger] self.value_ok(w) by {
                        lemma_active_borrows_update(
                            pre.borrows@,
                            j as int,
                            nbr,
                            w,
                            BorrowKind::Shared,
                        );
                        lemma_active_borrows_update(
                            pre.borrows@,
                            j as int,
                            nbr,
                            w,
                            BorrowKind::Mutable,
                        );
                        assert(pre.value_ok(w));
                    }
                }
            }
            j = j + 1;
        }
    }

    /// What `pop_scope` decides: `None` when a scope is open and is popped,
    /// otherwise the error returned.
    pub open spec fn pop_check(self) -> Option<ErrorKind> {
        if self.stack@.len() == 0 {
            Some(ErrorKind::NotFound)
        } else {
            None
        }
    }

    /// Close the current scope.
    ///
    /// Its borrows are force-released first; its live bindings are then
    /// dropped in reverse creation order — the returned vector lists them in
    /// that order.  A value whose last live binding is dropped here becomes
    /// `Dropped` and its remaining borrows are released.  Finally the scope
    /// record is retired and its parent becomes current.  Rejected with
    /// `NotFound` when no scope is open; a rejected call leaves the engine
    /// unchanged.
    pub fn pop_scope(&mut self) -> (r: Result<Vec<usize>, Diagnostic>)
        requires
            old(self).wf(),
        ensures
            final(self).wf(),
            match r {
                Ok(log) => {
                    &&& old(self).pop_check() is None
                    &&& log@ == owned_from(
                        old(self).bindings@,
                        old(self).stack@.last() as int,
                        0,
                    ).reverse()
                    &&& final(self).bindings@.len() == old(self).bindings@.len()
                    &&& forall|i: int|
                        0 <= i < old(self).bindings@.len() ==> #[trigger] final(self).bindings@[i]
                            == (if old(self).bindings@[i].scope == old(self).stack@.last() && old(
                            self,
                        ).bindings@[i].state == BindingState::Live {
                            BindingRec { state: BindingState::Dropped, ..old(self).bindings@[i] }
                        } else {
                            old(self).bindings@[i]
                        })
                    &&& final(self).values@.len() == old(self).values@.len()
                    &&& forall|v: int|
                        0 <= v < old(self).values@.len() ==> {
                            &&& (#[trigger] final(self).values@[v]).kind == old(
                                self,
                            ).values@[v].kind
                            &&& final(self).values@[v].payload == old(self).values@[v].payload
                            &&& final(self).values@[v].live == (old(self).values@[v].live && !(
                            live_owners(old(self).bindings@, v) >= 1 && live_owners(
                                final(self).bindings@,
                                v,
                            ) == 0))
                        }
                    &&& final(self).borrows@.len() == old(self).borrows@.len()
                    &&& forall|j: int|
                        0 <= j < old(self).borrows@.len() ==> {
                            &&& (#[trigger] final(self).borrows@[j]).value == old(
                                self,
                            ).borrows@[j].value
                            &&& final(self).borrows@[j].kind == old(self).borrows@[j].kind
                            &&& final(self).borrows@[j].scope == old(self).borrows@[j].scope
                            &&& final(self).borrows@[j].active == (old(self).borrows@[j].active
                                && old(self).borrows@[j].scope != old(self).stack@.last()
                                && final(self).values@[old(self).borrows@[j].value as int].live)
                        }
                    &&& final(self).scopes@ == old(self).scopes@.update(
                        old(self).stack@.last() as int,
                        (ScopeRec {
                            live: false,
                            ..old(self).scopes@[old(self).stack@.last() as int]
                        }),
                    )
                    &&& final(self).stack@ == old(self).stack@.drop_last()
                },
                Err(d) => {
                    &&& old(self).pop_check() == Some(d.kind)
                    &&& *final(self) == *old(self)
                    &&& d.kind == ErrorKind::NotFound
                },
            },
    {
        if self.stack.len() == 0 {
            return Err(Diagnostic::new(ErrorKind::NotFound, None, None));
        }
        let s = self.stack[self.stack.len() - 1];
        self.release_for_scope(s);
        let ghost mid = *self;
        let mut log: Vec<usize> = Vec::new();
        let mut i = self.bindings.len();
        proof {
            assert(log@ =~= owned_from(mid.bindings@, s as int, i as int).reverse());
            assert forall|j: int|
                0 <= j < mid.borrows@.len() && mid.borrows@[j].active implies mid.values@[(
            #[trigger] mid.borrows@[j]).value as int].live by {
                let b = mid.borrows@[j];
                lemma_active_borrows_zero_iff(mid.borrows@, b.value as int, b.kind);
                assert(counts_borrow(b, b.value as int, b.kind));
                assert(mid.value_ok(b.value as int));
            }
        }
        while i > 0
            invariant
                self.wf(),
                s < self.scopes@.len(),
                i <= self.bindings@.len(),
                self.bindings@.len() == mid.bindings@.len(),
                forall|j: int| 0 <= j < i ==> #[trigger] self.bindings@[j] == mid.bindings@[j],
                forall|j: int|
                    i <= j < self.bindings@.len() ==> #[trigger] self.bindings@[j] == (if
                    mid.bindings@[j].scope == s && mid.bindings@[j].state == BindingState::Live {
                        BindingRec { state: BindingState::Dropped, ..mid.bindings@[j] }
                    } else {
                        mid.bindings@[j]
                    }),
                log@ == owned_from(mid.bindings@, s as int, i as int).reverse(),
                self.values@.len() == mid.values@.len(),
                forall|v: int|
                    0 <= v < self.values@.len() ==> {
                        &&& (#[trigger] self.values@[v]).kind == mid.values@[v].kind
                        &&& self.values@[v].payload == mid.values@[v].payload
                        &&& self.values@[v].live == (mid.values@[v].live && !(live_owners(
                            mid.bindings@,
                            v,
                        ) >= 1 && live_owners(self.bindings@, v) == 0))
                    },
                self.borrows@.len() == mid.borrows@.len(),
                forall|j: int|
                    0 <= j < self.borrows@.len() ==> {
                        &&& (#[trigger] self.borrows@[j]).value == mid.borrows@[j].value
                        &&& self.borrows@[j].kind == mid.borrows@[j].kind
                        &&& self.borrows@[j].scope == mid.borrows@[j].scope
                        &&& self.borrows@[j].active == (mid.borrows@[j].active
                            && self.values@[mid.borrows@[j].value as int].live)
                    },
                self.scopes@ == mid.scopes@,
                self.stack@ == mid.stack@,
            decreases i,
        {
            i = i - 1;
            let ghost i_spec = i as int;
            if self.bindings[i].scope == s && self.bindings[i].state == BindingState::Live {
                let v = self.bindings[i].value;
                let ghost pre = *self;
                self.bindings[i].state = BindingState::Dropped;
                proof {
                    let drec = BindingRec {
                        state: BindingState::Dropped,
                        ..pre.bindings@[i_spec]
                    };
                    assert forall|w: int|
                        0 <= w < self.values@.len() implies #[trigger] self.value_ok(w) by {
                        lemma_live_owners_update(pre.bindings@, i_spec, drec, w);
                        assert(pre.value_ok(w));
                    }
                    assert(owns(pre.bindings@[i_spec], v as int));
                    lemma_live_owners_zero_iff(mid.bindings@, v as int);
                    assert(owns(mid.bindings@[i_spec], v as int));
                }
                let ghost after_drop = *self;
                let remaining = find_owner(&self.bindings, v);
                match remaining {
                    None => {
                        proof {
                            lemma_last_owner_props(after_drop.bindings@, v as int);
                            lemma_live_owners_zero_iff(after_drop.bindings@, v as int);
                        }
                        self.release_for_value(v);
                        let ghost rel = *self;
                        self.values[v].live = false;
                        proof {
                            assert forall|w: int|
                                0 <= w < self.values@.len() implies #[trigger] self.value_ok(
                                w,
                            ) by {
                                assert(rel.value_ok(w));
                            }
                        }
                    },
                    Some(_) => {
                        proof {
                            lemma_last_owner_props(after_drop.bindings@, v as int);
                            lemma_live_owners_zero_iff(after_drop.bindings@, v as int);
                        }
                    },
                }
                log.push(i);
                proof {
                    let drec = BindingRec {
                        state: BindingState::Dropped,
                        ..pre.bindings@[i_spec]
                    };
                    assert forall|w: int|
                        0 <= w < self.values@.len() implies live_owners(self.bindings@, w)
                            == live_owners(pre.bindings@, w) - (if w == v as int {
                            1int
                        } else {
                            0int
                        }) by {
                        lemma_live_owners_update(pre.bindings@, i_spec, drec, w);
                    }
                    assert(owned_from(mid.bindings@, s as int, i_spec) == seq![i as usize]
                        + owned_from(mid.bindings@, s as int, i_spec + 1));
                    lemma_reverse_cons(i, owned_from(mid.bindings@, s as int, i_spec + 1));
                }
            } else {
                proof {
                    assert(owned_from(mid.bindings@, s as int, i_spec) == owned_from(
                        mid.bindings@,
                        s as int,
                        i_spec + 1,
                    ));
                }
            }
        }
        let ghost done = *self;
        self.stack.pop();
        self.scopes[s].live = false;
        proof {
            assert(self.scopes@ =~= mid.scopes@.update(
                s as int,
                (ScopeRec { live: false, ..mid.scopes@[s as int] }),
            ));
            assert(self.stack@ =~= old(self).stack@.drop_last());
            assert forall|idx: int|
                0 <= idx < self.stack@.len() implies (#[trigger] self.stack@[idx])
                    < self.scopes@.len() && self.scopes@[self.stack@[idx] as int].live by {
                assert(old(self).stack@[idx] == self.stack@[idx]);
                assert(self.stack@[idx] < old(self).stack@[old(self).stack@.len() - 1]);
            }
            assert forall|w: int| 0 <= w < self.values@.len() implies #[trigger] self.value_ok(
                w,
            ) by {
                assert(done.value_ok(w));
            }
        }
        Ok(log)
    }
}

/// The most recent live binding of `v`, scanning from the newest backwards.
fn find_owner(bindings: &Vec<BindingRec>, v: usize) -> (r: Option<usize>)
    ensures
        match r {
            Some(i) => last_owner(bindings@, v as int) == Some(i as int),
            None => last_owner(bindings@, v as int) is None,
        },
{
    let mut i = bindings.len();
    proof {
        assert(bindings@.take(bindings@.len() as int) =~= bindings@);
    }
    while i > 0
        invariant
            i <= bindings@.len(),
            last_owner(bindings@, v as int) == last_owner(bindings@.take(i as int), v as int),
        decreases i,
    {
        i = i - 1;
        proof {
            assert(bindings@.take(i + 1).drop_last() =~= bindings@.take(i as int));
            assert(bindings@.take(i + 1).last() == bindings@[i as int]);
        }
        if bindings[i].state == BindingState::Live && bindings[i].value == v {
            return Some(i);
        }
    }
    proof {
        assert(bindings@.take(0).len() == 0);
    }
    None
}

/// Walk the parent links upward from `from`, looking for `to`.
fn scope_descends(scopes: &Vec<ScopeRec>, from: usize, to: usize) -> (r: bool)
    requires
        forall|s: int|
            0 <= s < scopes@.len() ==> match (#[trigger] scopes@[s]).parent {
                Some(p) => p < s,
                None => true,
            },
        from < scopes@.len(),
    ensures
        r == scope_reaches(scopes@, from as int, to as int),
{
    let mut cur = from;
    loop
        invariant
            cur < scopes@.len(),
            scope_reaches(scopes@, from as int, to as int) == scope_reaches(
                scopes@,
                cur as int,
                to as int,
            ),
            forall|s: int|
                0 <= s < scopes@.len() ==> match (#[trigger] scopes@[s]).parent {
                    Some(p) => p < s,
                    None => true,
                },
        decreases cur,
    {
        if cur == to {
            return true;
        }
        match scopes[cur].parent {
            Some(p) => {
                cur = p;
            },
            None => {
                return false;
            },
        }
    }
}

} // verus!
