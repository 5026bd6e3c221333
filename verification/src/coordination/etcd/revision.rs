//! Revisions of the key-value store.
use crate::coordination::etcd::error::{CoordinationError, CoordinationFault};
use crate::ordered::{Duplicate, Key};
use vstd::prelude::*;

verus! {

/// A key-value-store revision, distinct from a participant SessionId.
#[derive(Clone, Copy, Debug, PartialEq, Eq, Structural, PartialOrd, Ord, Hash)]
pub struct Revision(i64);

impl View for Revision {
    type V = i64;

    closed spec fn view(&self) -> i64 {
        self.0
    }
}

impl DeepView for Revision {
    type V = i64;

    open spec fn deep_view(&self) -> i64 {
        self@
    }
}

impl Revision {
    #[verifier::type_invariant]
    spec fn inv(self) -> bool {
        self.0 > 0
    }

    /// Construct a positive revision for an explicit historical read/watch.
    pub fn new(value: i64) -> (r: Result<Revision, CoordinationError>)
        ensures
            match r {
                Ok(revision) => value > 0 && revision@ == value,
                Err(error) => value <= 0 && error@ == CoordinationFault::InvalidRevision(value),
            },
    {
        if value <= 0 {
            return Err(CoordinationError::InvalidRevision(value));
        }
        Ok(Revision(value))
    }

    /// Return the revision value.
    pub fn value(self) -> (r: i64)
        ensures
            r == self@,
            r > 0,
    {
        proof {
            use_type_invariant(&self);
        }
        self.0
    }

    /// Return the next revision, or an error if the revision space is exhausted.
    pub fn next(self) -> (r: Result<Revision, CoordinationError>)
        ensures
            match r {
                Ok(revision) => self@ < i64::MAX && revision@ == self@ + 1,
                Err(error) => self@ == i64::MAX && error@ == CoordinationFault::RevisionExhausted,
            },
    {
        proof {
            use_type_invariant(&self);
        }
        match self.0.checked_add(1) {
            Some(value) => Ok(Revision(value)),
            None => Err(CoordinationError::RevisionExhausted),
        }
    }

    /// The later of two revisions.
    pub fn later(self, other: Revision) -> (r: Revision)
        ensures
            r@ == if self@ >= other@ {
                self@
            } else {
                other@
            },
    {
        if self.0 >= other.0 {
            self
        } else {
            other
        }
    }
}

impl Duplicate for Revision {
    fn duplicate(&self) -> (r: Self) {
        *self
    }
}

impl Key for Revision {
    open spec fn before(a: i64, b: i64) -> bool {
        a < b
    }

    proof fn before_irreflexive(a: i64) {
    }

    proof fn before_transitive(a: i64, b: i64, c: i64) {
    }

    proof fn before_total(a: i64, b: i64) {
    }

    fn is_before(&self, other: &Self) -> (r: bool) {
        self.0 < other.0
    }

    fn same(&self, other: &Self) -> (r: bool) {
        self.0 == other.0
    }
}

} // verus!
