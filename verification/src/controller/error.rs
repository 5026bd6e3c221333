//! Errors of the controller runtime.
use crate::coordination::etcd::error::CoordinationFault;
use crate::coordination::etcd::watch::WatchFault;
use crate::coordination::etcd::{CoordinationError, WatchError};
use crate::text;
use vstd::prelude::*;
use vstd::string::*;

verus! {

/// What went wrong in the controller runtime.
#[verifier::ext_equal]
pub struct RuntimeFault {
    pub message: Seq<char>,
    pub transient: bool,
}

/// Errors raised while decoding or running the controller runtime.
#[derive(Debug)]
pub struct ControllerRuntimeError {
    message: String,
    transient: bool,
}

impl View for ControllerRuntimeError {
    type V = RuntimeFault;

    closed spec fn view(&self) -> RuntimeFault {
        RuntimeFault { message: self.message@, transient: self.transient }
    }
}

impl RuntimeFault {
    /// A fault that no retry mends.
    pub open spec fn of_message(message: Seq<char>) -> RuntimeFault {
        RuntimeFault { message, transient: false }
    }

    /// A fault of the coordination backend.
    pub open spec fn of_coordination(fault: CoordinationFault) -> RuntimeFault {
        RuntimeFault { message: fault.text(), transient: fault.transient() }
    }

    /// A fault of a watch.
    pub open spec fn of_watch(fault: WatchFault) -> RuntimeFault {
        RuntimeFault { message: fault.text(), transient: fault.transient() }
    }

    /// The fault says that the controller lost its authority, or that its
    /// input is no longer current.
    pub open spec fn is_leadership_loss(self) -> bool {
        self.message == CoordinationFault::StaleController.text() || self.message
            == CoordinationFault::StaleRevision.text()
    }
}

impl ControllerRuntimeError {
    /// An error that no retry mends.
    pub fn message(message: String) -> (r: ControllerRuntimeError)
        ensures
            r@ == RuntimeFault::of_message(message@),
    {
        ControllerRuntimeError { message, transient: false }
    }

    /// An error of the coordination backend.
    pub fn coordination(error: &CoordinationError) -> (r: ControllerRuntimeError)
        ensures
            r@ == RuntimeFault::of_coordination(error@),
    {
        ControllerRuntimeError { message: error.to_string(), transient: error.is_transient() }
    }

    /// An error of a watch.
    pub fn watch(error: &WatchError) -> (r: ControllerRuntimeError)
        ensures
            r@ == RuntimeFault::of_watch(error@),
    {
        ControllerRuntimeError { message: error.to_string(), transient: error.is_transient() }
    }

    /// Whether retrying may succeed after the backend returns.
    pub fn is_transient(&self) -> (r: bool)
        ensures
            r == self@.transient,
    {
        self.transient
    }

    /// Return the operator-facing message.
    pub fn to_string(&self) -> (r: String)
        ensures
            r@ == self@.message,
    {
        self.message.clone()
    }
}

/// Whether the error says that the controller lost its authority, or that its
/// input is no longer current.
pub fn is_leadership_loss(error: &ControllerRuntimeError) -> (r: bool)
    ensures
        r == error@.is_leadership_loss(),
{
    text::text_eq(
        error.message.as_str(),
        CoordinationError::StaleController.to_string().as_str(),
    ) || text::text_eq(
        error.message.as_str(),
        CoordinationError::StaleRevision.to_string().as_str(),
    )
}

} // verus!
