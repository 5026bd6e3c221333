//! Errors of the participant runtime.
use crate::coordination::etcd::error::CoordinationFault;
use crate::coordination::etcd::watch::WatchFault;
use crate::coordination::etcd::{CoordinationError, WatchError};
use vstd::prelude::*;
use vstd::string::*;

verus! {

/// Errors raised while running a participant.
#[derive(Debug)]
pub enum ParticipantRuntimeError {
    Coordination(CoordinationError),
    Watch(WatchError),
    Io(String),
    InvalidMessage,
    HandlerJoin(String),
    WorkerJoin(String),
    ProgressContention,
}

/// What went wrong in a participant.
pub enum ParticipantFault {
    Coordination(CoordinationFault),
    Watch(WatchFault),
    Io(Seq<char>),
    InvalidMessage,
    HandlerJoin(Seq<char>),
    WorkerJoin(Seq<char>),
    ProgressContention,
}

impl View for ParticipantRuntimeError {
    type V = ParticipantFault;

    open spec fn view(&self) -> ParticipantFault {
        match self {
            ParticipantRuntimeError::Coordination(error) => ParticipantFault::Coordination(error@),
            ParticipantRuntimeError::Watch(error) => ParticipantFault::Watch(error@),
            ParticipantRuntimeError::Io(error) => ParticipantFault::Io(error@),
            ParticipantRuntimeError::InvalidMessage => ParticipantFault::InvalidMessage,
            ParticipantRuntimeError::HandlerJoin(error) => ParticipantFault::HandlerJoin(error@),
            ParticipantRuntimeError::WorkerJoin(error) => ParticipantFault::WorkerJoin(error@),
            ParticipantRuntimeError::ProgressContention => ParticipantFault::ProgressContention,
        }
    }
}

impl ParticipantFault {
    /// The operator-facing message.
    pub open spec fn text(self) -> Seq<char> {
        match self {
            ParticipantFault::Coordination(fault) => fault.text(),
            ParticipantFault::Watch(fault) => fault.text(),
            ParticipantFault::Io(error) => error,
            ParticipantFault::InvalidMessage => "invalid participant transition message"@,
            ParticipantFault::HandlerJoin(error) => "transition handler task failed: "@ + error,
            ParticipantFault::WorkerJoin(error) => "participant worker task failed: "@ + error,
            ParticipantFault::ProgressContention =>
                "participant progress contention exceeded retry bound"@,
        }
    }

    /// The store could not be reached: the participant may try again.
    pub open spec fn transient(self) -> bool {
        self matches ParticipantFault::Coordination(fault) && fault.transient()
    }

    /// The fault comes from the store or from a watch of it.
    pub open spec fn has_source(self) -> bool {
        self is Coordination || self is Watch
    }
}

impl ParticipantRuntimeError {
    /// Return the operator-facing message.
    pub fn to_string(&self) -> (r: String)
        ensures
            r@ == self@.text(),
    {
        match self {
            ParticipantRuntimeError::Coordination(error) => error.to_string(),
            ParticipantRuntimeError::Watch(error) => error.to_string(),
            ParticipantRuntimeError::Io(error) => error.clone(),
            ParticipantRuntimeError::InvalidMessage =>
                "invalid participant transition message".to_owned(),
            ParticipantRuntimeError::HandlerJoin(error) =>
                "transition handler task failed: ".to_owned().concat(error.as_str()),
            ParticipantRuntimeError::WorkerJoin(error) =>
                "participant worker task failed: ".to_owned().concat(error.as_str()),
            ParticipantRuntimeError::ProgressContention =>
                "participant progress contention exceeded retry bound".to_owned(),
        }
    }

    /// Whether the store could not be reached, so that the participant may try
    /// again.
    pub fn is_transient(&self) -> (r: bool)
        ensures
            r == self@.transient(),
    {
        match self {
            ParticipantRuntimeError::Coordination(error) => error.is_transient(),
            _ => false,
        }
    }

    /// Whether the error comes from the store or from a watch of it.
    pub fn has_source(&self) -> (r: bool)
        ensures
            r == self@.has_source(),
    {
        match self {
            ParticipantRuntimeError::Coordination(_) => true,
            ParticipantRuntimeError::Watch(_) => true,
            _ => false,
        }
    }
}

impl From<CoordinationError> for ParticipantRuntimeError {
    fn from(error: CoordinationError) -> (r: ParticipantRuntimeError)
        ensures
            r == ParticipantRuntimeError::Coordination(error),
    {
        ParticipantRuntimeError::Coordination(error)
    }
}

impl vstd::std_specs::convert::FromSpecImpl<CoordinationError> for ParticipantRuntimeError {
    open spec fn obeys_from_spec() -> bool {
        true
    }

    open spec fn from_spec(error: CoordinationError) -> ParticipantRuntimeError {
        ParticipantRuntimeError::Coordination(error)
    }
}

impl From<WatchError> for ParticipantRuntimeError {
    fn from(error: WatchError) -> (r: ParticipantRuntimeError)
        ensures
            r == ParticipantRuntimeError::Watch(error),
    {
        ParticipantRuntimeError::Watch(error)
    }
}

impl vstd::std_specs::convert::FromSpecImpl<WatchError> for ParticipantRuntimeError {
    open spec fn obeys_from_spec() -> bool {
        true
    }

    open spec fn from_spec(error: WatchError) -> ParticipantRuntimeError {
        ParticipantRuntimeError::Watch(error)
    }
}

} // verus!
