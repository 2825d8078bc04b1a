//! The data carried by a value in the store.

use vstd::prelude::*;

verus! {

/// A payload held by the value store: either a machine integer or a piece of
/// text.  Integers stand for stack-like data, text for heap-like data.
#[derive(Debug, PartialEq, Eq)]
pub enum Payload {
    Int(i64),
    Text(String),
}

impl Payload {
    /// A deep copy of the payload, as copy-assignment of a Copy-kind value
    /// performs it.
    pub fn duplicate(&self) -> (r: Payload)
        ensures
            r == *self,
    {
        match self {
            Payload::Int(i) => Payload::Int(*i),
            Payload::Text(s) => Payload::Text(s.clone()),
        }
    }
}

} // verus!
