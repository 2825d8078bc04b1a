//! The engine's data model: values, bindings, scopes and borrows, together
//! with the spec-level counting functions the engine's invariants are stated
//! over, and the lemmas that track those counts through updates.

use vstd::prelude::*;

use crate::payload::Payload;

verus! {

/// Whether assignment of a value transfers ownership (Move) or duplicates
/// the payload (Copy).
#[derive(Clone, Copy, Debug, PartialEq, Eq, Structural)]
pub enum ValueKind {
    Move,
    Copy,
}

/// The two flavours of borrow: read-only and many, or exclusive and single.
#[derive(Clone, Copy, Debug, PartialEq, Eq, Structural)]
pub enum BorrowKind {
    Shared,
    Mutable,
}

/// The per-value borrow state machine.  `Shared(n)` always has `n >= 1`;
/// `Mutable` excludes every other active borrow.
#[derive(Clone, Copy, Debug, PartialEq, Eq, Structural)]
pub enum BorrowState {
    Unborrowed,
    Shared(usize),
    Mutable,
}

/// The lifecycle of a binding: usable, invalidated by a move, or destroyed
/// at scope exit.
#[derive(Clone, Copy, Debug, PartialEq, Eq, Structural)]
pub enum BindingState {
    Live,
    Moved,
    Dropped,
}

/// A stored value: its kind tag, payload, and liveness, plus the cached
/// borrow state the invariant ties to the borrow records.
pub struct ValueRec {
    pub kind: ValueKind,
    pub payload: Payload,
    pub live: bool,
    pub state: BorrowState,
}

/// A binding: a named owner of a value, registered in one scope.
pub struct BindingRec {
    pub name: String,
    pub value: usize,
    pub scope: usize,
    pub mutable: bool,
    pub state: BindingState,
}

/// A lexical scope: its parent link and whether it is still open.
#[derive(Clone, Copy, Debug, PartialEq, Eq)]
pub struct ScopeRec {
    pub parent: Option<usize>,
    pub live: bool,
}

/// A borrow record: which value, which flavour, which scope its lifetime is
/// tied to, and whether it is still active.
#[derive(Clone, Copy, Debug, PartialEq, Eq, Structural)]
pub struct BorrowRec {
    pub value: usize,
    pub kind: BorrowKind,
    pub scope: usize,
    pub active: bool,
}

/// Whether binding `b` is a live owner of value `v`.
pub open spec fn owns(b: BindingRec, v: int) -> bool {
    b.state == BindingState::Live && b.value == v
}

/// How many live bindings own value `v`.
pub open spec fn live_owners(bs: Seq<BindingRec>, v: int) -> nat
    decreases bs.len(),
{
    if bs.len() == 0 {
        0
    } else {
        live_owners(bs.drop_last(), v) + if owns(bs.last(), v) {
            1nat
        } else {
            0nat
        }
    }
}

/// Whether borrow record `b` is an active borrow of value `v` with kind `k`.
pub open spec fn counts_borrow(b: BorrowRec, v: int, k: BorrowKind) -> bool {
    b.active && b.value == v && b.kind == k
}

/// How many active borrows of kind `k` value `v` has.
pub open spec fn active_borrows(bws: Seq<BorrowRec>, v: int, k: BorrowKind) -> nat
    decreases bws.len(),
{
    if bws.len() == 0 {
        0
    } else {
        active_borrows(bws.drop_last(), v, k) + if counts_borrow(bws.last(), v, k) {
            1nat
        } else {
            0nat
        }
    }
}

/// The most recent live binding of value `v`, if any.
pub open spec fn last_owner(bs: Seq<BindingRec>, v: int) -> Option<int>
    decreases bs.len(),
{
    if bs.len() == 0 {
        None
    } else if owns(bs.last(), v) {
        Some(bs.len() - 1)
    } else {
        last_owner(bs.drop_last(), v)
    }
}

/// Whether scope `from` is `to` itself or a descendant of `to` through the
/// parent links.
pub open spec fn scope_reaches(scopes: Seq<ScopeRec>, from: int, to: int) -> bool
    decreases from,
{
    if from == to {
        true
    } else if 0 <= from < scopes.len() {
        match scopes[from].parent {
            Some(p) => p < from && scope_reaches(scopes, p as int, to),
            None => false,
        }
    } else {
        false
    }
}

/// The indices, in creation order, of the live bindings registered in scope
/// `s` at positions `lo` and beyond.
pub open spec fn owned_from(bs: Seq<BindingRec>, s: int, lo: int) -> Seq<usize>
    decreases bs.len() - lo,
{
    if lo < 0 || lo >= bs.len() {
        Seq::empty()
    } else {
        let rest = owned_from(bs, s, lo + 1);
        if bs[lo].state == BindingState::Live && bs[lo].scope == s {
            seq![lo as usize] + rest
        } else {
            rest
        }
    }
}

/// Reversing a sequence turns prepending into appending.
pub proof fn lemma_reverse_cons(x: usize, rest: Seq<usize>)
    ensures
        (seq![x] + rest).reverse() == rest.reverse().push(x),
{
    assert((seq![x] + rest).reverse() =~= rest.reverse().push(x));
}

pub proof fn lemma_live_owners_push(bs: Seq<BindingRec>, b: BindingRec, v: int)
    ensures
        live_owners(bs.push(b), v) == live_owners(bs, v) + if owns(b, v) {
            1nat
        } else {
            0nat
        },
{
    assert(bs.push(b).drop_last() =~= bs);
}

pub proof fn lemma_live_owners_update(bs: Seq<BindingRec>, i: int, b: BindingRec, v: int)
    requires
        0 <= i < bs.len(),
    ensures
        live_owners(bs.update(i, b), v) + if owns(bs[i], v) {
            1nat
        } else {
            0nat
        } == live_owners(bs, v) + if owns(b, v) {
            1nat
        } else {
            0nat
        },
    decreases bs.len(),
{
    if i == bs.len() - 1 {
        assert(bs.update(i, b).drop_last() =~= bs.drop_last());
    } else {
        assert(bs.update(i, b).drop_last() =~= bs.drop_last().update(i, b));
        lemma_live_owners_update(bs.drop_last(), i, b, v);
    }
}

pub proof fn lemma_live_owners_zero_iff(bs: Seq<BindingRec>, v: int)
    ensures
        live_owners(bs, v) == 0 <==> (forall|j: int| 0 <= j < bs.len() ==> !owns(#[trigger] bs[j], v)),
    decreases bs.len(),
{
    if bs.len() > 0 {
        lemma_live_owners_zero_iff(bs.drop_last(), v);
        assert(forall|j: int|
            0 <= j < bs.len() - 1 ==> bs.drop_last()[j] == #[trigger] bs[j]);
    }
}

pub proof fn lemma_last_owner_props(bs: Seq<BindingRec>, v: int)
    ensures
        match last_owner(bs, v) {
            Some(i) => 0 <= i < bs.len() && owns(bs[i], v) && (forall|j: int|
                i < j < bs.len() ==> !owns(#[trigger] bs[j], v)),
            None => forall|j: int| 0 <= j < bs.len() ==> !owns(#[trigger] bs[j], v),
        },
    decreases bs.len(),
{
    if bs.len() > 0 {
        lemma_last_owner_props(bs.drop_last(), v);
        assert(forall|j: int|
            0 <= j < bs.len() - 1 ==> bs.drop_last()[j] == #[trigger] bs[j]);
    }
}

pub proof fn lemma_active_borrows_push(bws: Seq<BorrowRec>, b: BorrowRec, v: int, k: BorrowKind)
    ensures
        active_borrows(bws.push(b), v, k) == active_borrows(bws, v, k) + if counts_borrow(b, v, k) {
            1nat
        } else {
            0nat
        },
{
    assert(bws.push(b).drop_last() =~= bws);
}

pub proof fn lemma_active_borrows_update(bws: Seq<BorrowRec>, i: int, b: BorrowRec, v: int, k: BorrowKind)
    requires
        0 <= i < bws.len(),
    ensures
        active_borrows(bws.update(i, b), v, k) + if counts_borrow(bws[i], v, k) {
            1nat
        } else {
            0nat
        } == active_borrows(bws, v, k) + if counts_borrow(b, v, k) {
            1nat
        } else {
            0nat
        },
    decreases bws.len(),
{
    if i == bws.len() - 1 {
        assert(bws.update(i, b).drop_last() =~= bws.drop_last());
    } else {
        assert(bws.update(i, b).drop_last() =~= bws.drop_last().update(i, b));
        lemma_active_borrows_update(bws.drop_last(), i, b, v, k);
    }
}

pub proof fn lemma_active_borrows_le_len(bws: Seq<BorrowRec>, v: int, k: BorrowKind)
    ensures
        active_borrows(bws, v, k) <= bws.len(),
    decreases bws.len(),
{
    if bws.len() > 0 {
        lemma_active_borrows_le_len(bws.drop_last(), v, k);
    }
}

pub proof fn lemma_active_borrows_zero_iff(bws: Seq<BorrowRec>, v: int, k: BorrowKind)
    ensures
        active_borrows(bws, v, k) == 0 <==> (forall|j: int|
            0 <= j < bws.len() ==> !counts_borrow(#[trigger] bws[j], v, k)),
    decreases bws.len(),
{
    if bws.len() > 0 {
        lemma_active_borrows_zero_iff(bws.drop_last(), v, k);
        assert(forall|j: int|
            0 <= j < bws.len() - 1 ==> bws.drop_last()[j] == #[trigger] bws[j]);
    }
}

} // verus!
