//! Errors of the application facade.
use crate::coordination::etcd::error::CoordinationFault;
use crate::coordination::etcd::CoordinationError;
use crate::observe::wait::{WaitError, WaitFault};
use crate::participant::error::{ParticipantFault, ParticipantRuntimeError};
use crate::routing::RoutingError;
use crate::Error;
use vstd::prelude::*;
use vstd::string::*;

verus! {

/// Errors raised while loading or validating application configuration.
#[derive(Clone, Debug, PartialEq, Eq)]
pub enum ConfigError {
    Missing(String),
    Invalid(String),
}

/// What is wrong with application configuration.
pub enum ConfigFault {
    Missing(Seq<char>),
    Invalid(Seq<char>),
}

impl View for ConfigError {
    type V = ConfigFault;

    open spec fn view(&self) -> ConfigFault {
        match self {
            ConfigError::Missing(name) => ConfigFault::Missing(name@),
            ConfigError::Invalid(message) => ConfigFault::Invalid(message@),
        }
    }
}

impl ConfigFault {
    /// The operator-facing message.
    pub open spec fn text(self) -> Seq<char> {
        match self {
            ConfigFault::Missing(name) => "missing configuration value "@ + name,
            ConfigFault::Invalid(message) => message,
        }
    }
}

impl ConfigError {
    /// Return the operator-facing message.
    pub fn to_string(&self) -> (r: String)
        ensures
            r@ == self@.text(),
    {
        match self {
            ConfigError::Missing(name) => "missing configuration value ".to_owned().concat(
                name.as_str(),
            ),
            ConfigError::Invalid(message) => message.clone(),
        }
    }
}

/// Errors raised by the application facade. A failed callback and a signal
/// handler that could not be set up carry their own messages.
#[derive(Debug)]
pub enum ApplicationError {
    Config(ConfigError),
    Coordination(CoordinationError),
    Runtime(Error),
    Spec(String),
    Participant(ParticipantRuntimeError),
    Controller(Error),
    Callback(String),
    Signal(String),
    Routing(RoutingError),
    Wait(WaitError),
}

/// What went wrong in an application.
pub enum ApplicationFault {
    Config(ConfigFault),
    Coordination(CoordinationFault),
    Runtime(Seq<char>),
    Spec(Seq<char>),
    Participant(ParticipantFault),
    Controller(Seq<char>),
    Callback(Seq<char>),
    Signal(Seq<char>),
    Routing(RoutingError),
    Wait(WaitFault),
}

impl View for ApplicationError {
    type V = ApplicationFault;

    open spec fn view(&self) -> ApplicationFault {
        match self {
            ApplicationError::Config(error) => ApplicationFault::Config(error@),
            ApplicationError::Coordination(error) => ApplicationFault::Coordination(error@),
            ApplicationError::Runtime(error) => ApplicationFault::Runtime(error@),
            ApplicationError::Spec(error) => ApplicationFault::Spec(error@),
            ApplicationError::Participant(error) => ApplicationFault::Participant(error@),
            ApplicationError::Controller(error) => ApplicationFault::Controller(error@),
            ApplicationError::Callback(error) => ApplicationFault::Callback(error@),
            ApplicationError::Signal(error) => ApplicationFault::Signal(error@),
            ApplicationError::Routing(error) => ApplicationFault::Routing(*error),
            ApplicationError::Wait(error) => ApplicationFault::Wait(error@),
        }
    }
}

impl ApplicationFault {
    /// The operator-facing message.
    pub open spec fn text(self) -> Seq<char> {
        match self {
            ApplicationFault::Config(fault) => fault.text(),
            ApplicationFault::Coordination(fault) => fault.text(),
            ApplicationFault::Runtime(message) => message,
            ApplicationFault::Spec(message) => message,
            ApplicationFault::Participant(fault) => "participant runtime error: "@ + fault.text(),
            ApplicationFault::Controller(message) => "controller runtime error: "@ + message,
            ApplicationFault::Callback(message) => "application callback failed: "@ + message,
            ApplicationFault::Signal(message) => "signal handler setup failed: "@ + message,
            ApplicationFault::Routing(error) => error.text(),
            ApplicationFault::Wait(fault) => fault.text(),
        }
    }
}

impl ApplicationError {
    /// Return the operator-facing message.
    pub fn to_string(&self) -> (r: String)
        ensures
            r@ == self@.text(),
    {
        match self {
            ApplicationError::Config(error) => error.to_string(),
            ApplicationError::Coordination(error) => error.to_string(),
            ApplicationError::Runtime(error) => error.to_string(),
            ApplicationError::Spec(error) => error.clone(),
            ApplicationError::Participant(error) => "participant runtime error: ".to_owned().concat(
                error.to_string().as_str(),
            ),
            ApplicationError::Controller(error) => "controller runtime error: ".to_owned().concat(
                error.to_string().as_str(),
            ),
            ApplicationError::Callback(error) => "application callback failed: ".to_owned().concat(
                error.as_str(),
            ),
            ApplicationError::Signal(error) => "signal handler setup failed: ".to_owned().concat(
                error.as_str(),
            ),
            ApplicationError::Routing(error) => error.to_string(),
            ApplicationError::Wait(error) => error.to_string(),
        }
    }

    /// Whether the error comes from another one: all but a specification's own.
    pub fn has_source(&self) -> (r: bool)
        ensures
            r == (self@ !is Spec),
    {
        match self {
            ApplicationError::Spec(_) => false,
            _ => true,
        }
    }
}

impl From<ConfigError> for ApplicationError {
    fn from(error: ConfigError) -> (r: ApplicationError)
        ensures
            r == ApplicationError::Config(error),
    {
        ApplicationError::Config(error)
    }
}

impl vstd::std_specs::convert::FromSpecImpl<ConfigError> for ApplicationError {
    open spec fn obeys_from_spec() -> bool {
        true
    }

    open spec fn from_spec(error: ConfigError) -> ApplicationError {
        ApplicationError::Config(error)
    }
}

impl From<CoordinationError> for ApplicationError {
    fn from(error: CoordinationError) -> (r: ApplicationError)
        ensures
            r == ApplicationError::Coordination(error),
    {
        ApplicationError::Coordination(error)
    }
}

impl vstd::std_specs::convert::FromSpecImpl<CoordinationError> for ApplicationError {
    open spec fn obeys_from_spec() -> bool {
        true
    }

    open spec fn from_spec(error: CoordinationError) -> ApplicationError {
        ApplicationError::Coordination(error)
    }
}

impl From<Error> for ApplicationError {
    fn from(error: Error) -> (r: ApplicationError)
        ensures
            r == ApplicationError::Runtime(error),
    {
        ApplicationError::Runtime(error)
    }
}

impl vstd::std_specs::convert::FromSpecImpl<Error> for ApplicationError {
    open spec fn obeys_from_spec() -> bool {
        true
    }

    open spec fn from_spec(error: Error) -> ApplicationError {
        ApplicationError::Runtime(error)
    }
}

impl From<ParticipantRuntimeError> for ApplicationError {
    fn from(error: ParticipantRuntimeError) -> (r: ApplicationError)
        ensures
            r == ApplicationError::Participant(error),
    {
        ApplicationError::Participant(error)
    }
}

impl vstd::std_specs::convert::FromSpecImpl<ParticipantRuntimeError> for ApplicationError {
    open spec fn obeys_from_spec() -> bool {
        true
    }

    open spec fn from_spec(error: ParticipantRuntimeError) -> ApplicationError {
        ApplicationError::Participant(error)
    }
}

impl From<RoutingError> for ApplicationError {
    fn from(error: RoutingError) -> (r: ApplicationError)
        ensures
            r == ApplicationError::Routing(error),
    {
        ApplicationError::Routing(error)
    }
}

impl vstd::std_specs::convert::FromSpecImpl<RoutingError> for ApplicationError {
    open spec fn obeys_from_spec() -> bool {
        true
    }

    open spec fn from_spec(error: RoutingError) -> ApplicationError {
        ApplicationError::Routing(error)
    }
}

impl From<WaitError> for ApplicationError {
    fn from(error: WaitError) -> (r: ApplicationError)
        ensures
            r == ApplicationError::Wait(error),
    {
        ApplicationError::Wait(error)
    }
}

impl vstd::std_specs::convert::FromSpecImpl<WaitError> for ApplicationError {
    open spec fn obeys_from_spec() -> bool {
        true
    }

    open spec fn from_spec(error: WaitError) -> ApplicationError {
        ApplicationError::Wait(error)
    }
}

} // verus!
