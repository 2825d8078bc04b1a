use ownership::diag::ErrorKind;
use ownership::engine::{Engine, Target};
use ownership::model::{BorrowKind, ValueKind};
use ownership::payload::Payload;

/// A Move-kind value moves: the source binding dies, the target reads the
/// same payload.
#[test]
fn move_invalidates_source_binding() {
    let mut e = Engine::new();
    let v1 = e.create(ValueKind::Move, Payload::Text(String::from("hello")));
    let b1 = e.bind(String::from("v1"), v1, false).unwrap();
    let b2 = e.move_value(b1, String::from("v2"), false).unwrap();

    let err = e.read(Target::Binding(b1)).unwrap_err();
    assert_eq!(err.kind, ErrorKind::UseAfterMove);
    assert_eq!(err.value, Some(v1));
    assert_eq!(err.scope, Some(0));
    assert_eq!(err.message, "binding was invalidated by a move");

    let got = e.read(Target::Binding(b2)).unwrap();
    assert_eq!(*got, Payload::Text(String::from("hello")));
}

/// Two shared borrows block a mutable borrow; releasing both unblocks it.
#[test]
fn shared_borrows_block_mutable() {
    let mut e = Engine::new();
    let v = e.create(ValueKind::Move, Payload::Int(10));
    e.bind(String::from("v"), v, false).unwrap();

    let w1 = e.request_borrow(v, BorrowKind::Shared, 0).unwrap();
    let w2 = e.request_borrow(v, BorrowKind::Shared, 0).unwrap();

    let err = e.request_borrow(v, BorrowKind::Mutable, 0).unwrap_err();
    assert_eq!(err.kind, ErrorKind::BorrowConflict);

    e.release(w1).unwrap();
    e.release(w2).unwrap();
    assert!(e.request_borrow(v, BorrowKind::Mutable, 0).is_ok());
}

/// A mutable borrow blocks a shared borrow.
#[test]
fn mutable_borrow_blocks_shared() {
    let mut e = Engine::new();
    let v = e.create(ValueKind::Move, Payload::Int(10));
    e.bind(String::from("v"), v, false).unwrap();

    e.request_borrow(v, BorrowKind::Mutable, 0).unwrap();
    let err = e.request_borrow(v, BorrowKind::Shared, 0).unwrap_err();
    assert_eq!(err.kind, ErrorKind::BorrowConflict);
}

/// A second mutable borrow is its own, more specific, conflict.
#[test]
fn second_mutable_borrow_is_double() {
    let mut e = Engine::new();
    let v = e.create(ValueKind::Move, Payload::Int(10));
    e.bind(String::from("v"), v, false).unwrap();

    e.request_borrow(v, BorrowKind::Mutable, 0).unwrap();
    let err = e.request_borrow(v, BorrowKind::Mutable, 0).unwrap_err();
    assert_eq!(err.kind, ErrorKind::DoubleMutableBorrow);
}

/// A borrow whose lifetime would outlive the owner's scope is dangling.
#[test]
fn borrow_outliving_owner_scope_dangles() {
    let mut e = Engine::new();
    let s1 = e.push_scope();
    let v = e.create(ValueKind::Move, Payload::Int(1));
    e.bind(String::from("v"), v, false).unwrap();
    let _s2 = e.push_scope();

    // the root scope outlives s1, where the value is bound
    let err = e.request_borrow(v, BorrowKind::Shared, 0).unwrap_err();
    assert_eq!(err.kind, ErrorKind::Dangling);
    assert_eq!(err.value, Some(v));
    assert_eq!(err.scope, Some(0));

    // a borrow scoped to s1 itself, or to the inner scope, is fine
    assert!(e.request_borrow(v, BorrowKind::Shared, s1).is_ok());
}

/// Copy-kind assignment duplicates the payload: writing the copy leaves the
/// original untouched.
#[test]
fn copy_assignment_leaves_source_valid() {
    let mut e = Engine::new();
    let va = e.create(ValueKind::Copy, Payload::Int(5));
    let a = e.bind(String::from("a"), va, false).unwrap();

    // copy-assign a into b: a fresh value with a duplicated payload
    let b = e.move_value(a, String::from("b"), true).unwrap();
    e.write(Target::Binding(b), Payload::Int(6)).unwrap();

    assert_eq!(*e.read(Target::Binding(a)).unwrap(), Payload::Int(5));
    assert_eq!(*e.read(Target::Binding(b)).unwrap(), Payload::Int(6));
}

/// Popping a scope that holds a mutable borrow of a parent-owned value
/// releases the borrow, and the parent can write again.
#[test]
fn pop_releases_borrows_of_exiting_scope() {
    let mut e = Engine::new();
    let v = e.create(ValueKind::Move, Payload::Int(3));
    let b = e.bind(String::from("owner"), v, true).unwrap();
    let s1 = e.push_scope();

    e.request_borrow(v, BorrowKind::Mutable, s1).unwrap();
    let err = e.write(Target::Binding(b), Payload::Int(4)).unwrap_err();
    assert_eq!(err.kind, ErrorKind::BorrowWriteConflict);

    e.pop_scope().unwrap();
    e.write(Target::Binding(b), Payload::Int(4)).unwrap();
    assert_eq!(*e.read(Target::Binding(b)).unwrap(), Payload::Int(4));
}

/// Scope exit drops bindings in reverse creation order and drops the values
/// they solely own; the dropped value is then not found.
#[test]
fn pop_drops_in_reverse_order_and_kills_values() {
    let mut e = Engine::new();
    let s1 = e.push_scope();
    let v1 = e.create(ValueKind::Move, Payload::Int(1));
    let v2 = e.create(ValueKind::Move, Payload::Int(2));
    let v3 = e.create(ValueKind::Move, Payload::Int(3));
    let b1 = e.bind(String::from("x"), v1, false).unwrap();
    let b2 = e.bind(String::from("y"), v2, false).unwrap();
    let b3 = e.bind(String::from("z"), v3, false).unwrap();
    assert_eq!(s1, 1);

    let log = e.pop_scope().unwrap();
    assert_eq!(log, vec![b3, b2, b1]);

    for (v, b) in [(v1, b1), (v2, b2), (v3, b3)] {
        let err = e.read(Target::Value(v)).unwrap_err();
        assert_eq!(err.kind, ErrorKind::NotFound);
        let err = e.read(Target::Binding(b)).unwrap_err();
        assert_eq!(err.kind, ErrorKind::NotFound);
        let err = e.request_borrow(v, BorrowKind::Shared, 0).unwrap_err();
        assert_eq!(err.kind, ErrorKind::NotFound);
    }
}

/// In a deeper chain, only the owner's scope and its descendants may hold
/// the borrow.
#[test]
fn borrow_scopes_along_a_chain() {
    let mut e = Engine::new();
    let s1 = e.push_scope();
    let s2 = e.push_scope();
    let v = e.create(ValueKind::Move, Payload::Int(8));
    e.bind(String::from("v"), v, false).unwrap();

    // the value is bound in s2: s1 and the root outlive it
    assert_eq!(
        e.request_borrow(v, BorrowKind::Shared, s1).unwrap_err().kind,
        ErrorKind::Dangling
    );
    assert_eq!(
        e.request_borrow(v, BorrowKind::Shared, 0).unwrap_err().kind,
        ErrorKind::Dangling
    );
    // s2 itself, and a child of s2, are fine
    let w = e.request_borrow(v, BorrowKind::Shared, s2).unwrap();
    e.release(w).unwrap();
    let s3 = e.push_scope();
    assert!(e.request_borrow(v, BorrowKind::Shared, s3).is_ok());
}

/// Binding a Move-kind value that already has a live owner is rejected.
#[test]
fn rebinding_owned_move_value_rejected() {
    let mut e = Engine::new();
    let v = e.create(ValueKind::Move, Payload::Int(9));
    e.bind(String::from("first"), v, false).unwrap();
    let err = e.bind(String::from("second"), v, false).unwrap_err();
    assert_eq!(err.kind, ErrorKind::AlreadyOwned);

    // a Copy-kind value may gain any number of bindings
    let c = e.create(ValueKind::Copy, Payload::Int(1));
    e.bind(String::from("c1"), c, false).unwrap();
    assert!(e.bind(String::from("c2"), c, false).is_ok());
}

/// Writes go through: the owner when unborrowed, the mutable borrow while it
/// is active, and never a shared borrow.
#[test]
fn write_access_paths() {
    let mut e = Engine::new();
    let v = e.create(ValueKind::Move, Payload::Int(0));
    let b = e.bind(String::from("v"), v, true).unwrap();

    e.write(Target::Binding(b), Payload::Int(1)).unwrap();
    assert_eq!(*e.read(Target::Value(v)).unwrap(), Payload::Int(1));

    let w = e.request_borrow(v, BorrowKind::Mutable, 0).unwrap();
    e.write(Target::Borrow(w), Payload::Int(2)).unwrap();
    assert_eq!(*e.read(Target::Borrow(w)).unwrap(), Payload::Int(2));
    e.release(w).unwrap();

    let w = e.request_borrow(v, BorrowKind::Shared, 0).unwrap();
    let err = e.write(Target::Borrow(w), Payload::Int(3)).unwrap_err();
    assert_eq!(err.kind, ErrorKind::BorrowWriteConflict);
    let err = e.write(Target::Binding(b), Payload::Int(3)).unwrap_err();
    assert_eq!(err.kind, ErrorKind::BorrowWriteConflict);
}

/// A move is gated like a write: it is rejected while a borrow is active.
#[test]
fn move_rejected_while_borrowed() {
    let mut e = Engine::new();
    let v = e.create(ValueKind::Move, Payload::Int(7));
    let b = e.bind(String::from("v"), v, false).unwrap();
    e.request_borrow(v, BorrowKind::Shared, 0).unwrap();
    let err = e.move_value(b, String::from("w"), false).unwrap_err();
    assert_eq!(err.kind, ErrorKind::BorrowWriteConflict);
}

/// Explicitly dropping a value releases its borrows and every later access
/// fails with NotFound.
#[test]
fn explicit_drop_is_final() {
    let mut e = Engine::new();
    let v = e.create(ValueKind::Move, Payload::Int(11));
    let b = e.bind(String::from("v"), v, false).unwrap();
    let w = e.request_borrow(v, BorrowKind::Shared, 0).unwrap();

    e.drop_value(v).unwrap();

    assert_eq!(e.read(Target::Value(v)).unwrap_err().kind, ErrorKind::NotFound);
    assert_eq!(e.read(Target::Binding(b)).unwrap_err().kind, ErrorKind::NotFound);
    assert_eq!(e.read(Target::Borrow(w)).unwrap_err().kind, ErrorKind::NotFound);
    assert_eq!(e.write(Target::Value(v), Payload::Int(0)).unwrap_err().kind, ErrorKind::NotFound);
    assert_eq!(e.drop_value(v).unwrap_err().kind, ErrorKind::NotFound);
}

/// Unknown identities and stale handles surface as NotFound, never a panic.
#[test]
fn invalid_ids_are_not_found() {
    let mut e = Engine::new();
    assert_eq!(e.read(Target::Value(42)).unwrap_err().kind, ErrorKind::NotFound);
    assert_eq!(e.read(Target::Binding(42)).unwrap_err().kind, ErrorKind::NotFound);
    assert_eq!(e.read(Target::Borrow(42)).unwrap_err().kind, ErrorKind::NotFound);
    assert_eq!(e.bind(String::from("x"), 42, false).unwrap_err().kind, ErrorKind::NotFound);
    assert_eq!(e.release(42).unwrap_err().kind, ErrorKind::NotFound);
    assert_eq!(e.move_value(42, String::from("x"), false).unwrap_err().kind, ErrorKind::NotFound);
    assert_eq!(
        e.request_borrow(42, BorrowKind::Shared, 0).unwrap_err().kind,
        ErrorKind::NotFound
    );
}

/// Releasing the same borrow twice fails the second time.
#[test]
fn double_release_rejected() {
    let mut e = Engine::new();
    let v = e.create(ValueKind::Move, Payload::Int(1));
    e.bind(String::from("v"), v, false).unwrap();
    let w = e.request_borrow(v, BorrowKind::Shared, 0).unwrap();
    e.release(w).unwrap();
    assert_eq!(e.release(w).unwrap_err().kind, ErrorKind::NotFound);
}

/// Popping with no scope open is rejected; diagnostics carry their message.
#[test]
fn pop_on_empty_stack_rejected() {
    let mut e = Engine::new();
    assert!(e.pop_scope().is_ok());
    let err = e.pop_scope().unwrap_err();
    assert_eq!(err.kind, ErrorKind::NotFound);
    assert_eq!(err.message, "no live target with this identity");
}
