//! Errors of the controller election.
use crate::coordination::etcd::error::CoordinationFault;
use crate::coordination::etcd::CoordinationError;
use vstd::prelude::*;
use vstd::string::*;

verus! {

/// What went wrong in the election.
pub enum ElectionFault {
    Coordination(CoordinationFault),
    ClusterMismatch,
    InvalidControllerId,
    InvalidLeaseTtl,
    LeaseExpired,
}

/// Errors raised while campaigning for controller authority.
#[derive(Debug, PartialEq, Eq)]
pub enum ElectionError {
    Coordination(CoordinationError),
    ClusterMismatch,
    InvalidControllerId,
    InvalidLeaseTtl,
    LeaseExpired,
}

impl View for ElectionError {
    type V = ElectionFault;

    open spec fn view(&self) -> ElectionFault {
        match self {
            ElectionError::Coordination(error) => ElectionFault::Coordination(error@),
            ElectionError::ClusterMismatch => ElectionFault::ClusterMismatch,
            ElectionError::InvalidControllerId => ElectionFault::InvalidControllerId,
            ElectionError::InvalidLeaseTtl => ElectionFault::InvalidLeaseTtl,
            ElectionError::LeaseExpired => ElectionFault::LeaseExpired,
        }
    }
}

impl ElectionFault {
    /// The operator-facing message.
    pub open spec fn text(self) -> Seq<char> {
        match self {
            ElectionFault::Coordination(fault) => fault.text(),
            ElectionFault::ClusterMismatch => "election cluster does not match coordination"@,
            ElectionFault::InvalidControllerId => "controller id must not be empty"@,
            ElectionFault::InvalidLeaseTtl => "controller lease TTL must be at least one second"@,
            ElectionFault::LeaseExpired => "controller election lease expired"@,
        }
    }

    /// Retrying may succeed after the backend returns.
    pub open spec fn transient(self) -> bool {
        self matches ElectionFault::Coordination(fault) && fault.transient()
    }
}

impl From<CoordinationError> for ElectionError {
    fn from(error: CoordinationError) -> (r: ElectionError)
        ensures
            r == ElectionError::Coordination(error),
    {
        ElectionError::Coordination(error)
    }
}

impl vstd::std_specs::convert::FromSpecImpl<CoordinationError> for ElectionError {
    open spec fn obeys_from_spec() -> bool {
        true
    }

    open spec fn from_spec(error: CoordinationError) -> ElectionError {
        ElectionError::Coordination(error)
    }
}

impl ElectionError {
    /// Whether retrying may succeed after the backend returns.
    pub fn is_transient(&self) -> (r: bool)
        ensures
            r == self@.transient(),
    {
        match self {
            ElectionError::Coordination(error) => error.is_transient(),
            _ => false,
        }
    }

    /// Return the operator-facing message.
    pub fn to_string(&self) -> (r: String)
        ensures
            r@ == self@.text(),
    {
        match self {
            ElectionError::Coordination(error) => error.to_string(),
            ElectionError::ClusterMismatch => "election cluster does not match coordination".to_owned(),
            ElectionError::InvalidControllerId => "controller id must not be empty".to_owned(),
            ElectionError::InvalidLeaseTtl => "controller lease TTL must be at least one second".to_owned(),
            ElectionError::LeaseExpired => "controller election lease expired".to_owned(),
        }
    }
}

} // verus!
