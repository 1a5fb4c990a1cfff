//! The request id: null, a non-negative number, or a string.  A
//! response answers with the id of the request it belongs to.

use vstd::prelude::*;
use vstd::std_specs::cmp::PartialEqSpec;

verus! {

/// A request id.  `Null` is reserved for responses to requests whose
/// id could not be read at all (a parse failure).
#[derive(Debug)]
pub enum Id {
    /// Null id.
    Null,
    /// Numeric id.
    Number(u64),
    /// String id.
    Str(String),
}

impl Id {
    /// An owned copy of the id.
    pub fn duplicate(&self) -> (r: Id)
        ensures
            r.eq_spec(self),
    {
        match self {
            Id::Null => Id::Null,
            Id::Number(n) => Id::Number(*n),
            Id::Str(s) => Id::Str(s.clone()),
        }
    }
}

impl PartialEq for Id {
    fn eq(&self, other: &Self) -> (r: bool) {
        match (self, other) {
            (Id::Null, Id::Null) => true,
            (Id::Number(a), Id::Number(b)) => *a == *b,
            (Id::Str(a), Id::Str(b)) => *a == *b,
            _ => false,
        }
    }
}

impl vstd::std_specs::cmp::PartialEqSpecImpl for Id {
    open spec fn obeys_eq_spec() -> bool {
        true
    }

    open spec fn eq_spec(&self, other: &Id) -> bool {
        match (self, other) {
            (Id::Null, Id::Null) => true,
            (Id::Number(a), Id::Number(b)) => a == b,
            (Id::Str(a), Id::Str(b)) => a@ == b@,
            _ => false,
        }
    }
}

} // verus!
