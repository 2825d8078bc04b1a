//! Typed diagnostics: every rejected operation is reported as data.

use vstd::prelude::*;

verus! {

/// The kind of rule violation that made the engine reject an operation.
#[derive(Clone, Copy, Debug, PartialEq, Eq, Structural)]
pub enum ErrorKind {
    /// A binding was read, written, or moved after its value moved away.
    UseAfterMove,
    /// A Move-kind value that already has a live owner was bound again.
    AlreadyOwned,
    /// A borrow request conflicted with the value's current borrow state.
    BorrowConflict,
    /// A second mutable borrow was requested while one is already active.
    DoubleMutableBorrow,
    /// A write or move was attempted while the value is borrowed.
    BorrowWriteConflict,
    /// A borrow was requested from a scope that would outlive the value.
    Dangling,
    /// The target does not exist, is dropped, or is otherwise gone.
    NotFound,
}

/// What a diagnostic of each kind says in words.
pub open spec fn spec_message(kind: ErrorKind) -> Seq<char> {
    match kind {
        ErrorKind::UseAfterMove => "binding was invalidated by a move"@,
        ErrorKind::AlreadyOwned => "value already has a live owner"@,
        ErrorKind::BorrowConflict => "borrow conflicts with an active borrow"@,
        ErrorKind::DoubleMutableBorrow => "value is already mutably borrowed"@,
        ErrorKind::BorrowWriteConflict => "value is borrowed and cannot be mutated"@,
        ErrorKind::Dangling => "borrow would outlive the value's owning scope"@,
        ErrorKind::NotFound => "no live target with this identity"@,
    }
}

/// The message text for a diagnostic of the given kind.
pub fn message_of(kind: ErrorKind) -> (r: String)
    ensures
        r@ == spec_message(kind),
{
    match kind {
        ErrorKind::UseAfterMove => "binding was invalidated by a move".to_owned(),
        ErrorKind::AlreadyOwned => "value already has a live owner".to_owned(),
        ErrorKind::BorrowConflict => "borrow conflicts with an active borrow".to_owned(),
        ErrorKind::DoubleMutableBorrow => "value is already mutably borrowed".to_owned(),
        ErrorKind::BorrowWriteConflict => "value is borrowed and cannot be mutated".to_owned(),
        ErrorKind::Dangling => "borrow would outlive the value's owning scope".to_owned(),
        ErrorKind::NotFound => "no live target with this identity".to_owned(),
    }
}

/// A rejected operation, reported to the caller as a value.
#[derive(Debug)]
pub struct Diagnostic {
    /// Which rule was violated.
    pub kind: ErrorKind,
    /// The value the operation was about, where one applies.
    pub value: Option<usize>,
    /// The offending scope, where one applies.
    pub scope: Option<usize>,
    /// An explanatory message, fixed by the kind.
    pub message: String,
}

impl Diagnostic {
    /// Build the diagnostic for a violation of `kind` at the given value and
    /// scope.
    pub fn new(kind: ErrorKind, value: Option<usize>, scope: Option<usize>) -> (r: Diagnostic)
        ensures
            r.kind == kind,
            r.value == value,
            r.scope == scope,
            r.message@ == spec_message(kind),
    {
        Diagnostic { kind, value, scope, message: message_of(kind) }
    }
}

} // verus!
