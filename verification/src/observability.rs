//! Stable runtime signals for metrics, logs, and health endpoints.
use vstd::prelude::*;

verus! {

/// Events emitted by controller, participant, and observer runtime layers.
///
/// The events describe control-plane behavior rather than key names.
/// Applications can map them to counters, structured logs, and readiness or
/// liveness state without coupling themselves to the storage layout.
#[derive(Clone, Debug, PartialEq, Eq)]
pub enum RuntimeEvent {
    /// A controller acquired the fenced authority for its identity.
    AuthorityAcquired { identity: String },
    /// A controller observed that it no longer owns the fenced authority.
    AuthorityLost { identity: String },
    /// A participant lease expired or became unavailable and recovery began.
    LeaseRecovery { identity: String },
    /// A participant successfully registered a replacement session.
    LeaseReregistered { identity: String, session_id: u64 },
    /// A coordination operation is waiting before a transient retry.
    CoordinationRetry { operation: String },
    /// A computed publication was rejected by a fencing or revision check.
    PublicationRejected { reason: String },
    /// The runtime stopped because an unrecoverable error occurred.
    FatalRuntimeError { identity: String, message: String },
    /// The application requested an orderly shutdown.
    GracefulShutdown { identity: String },
}

/// What a runtime event says.
pub enum RuntimeSignal {
    AuthorityAcquired { identity: Seq<char> },
    AuthorityLost { identity: Seq<char> },
    LeaseRecovery { identity: Seq<char> },
    LeaseReregistered { identity: Seq<char>, session_id: u64 },
    CoordinationRetry { operation: Seq<char> },
    PublicationRejected { reason: Seq<char> },
    FatalRuntimeError { identity: Seq<char>, message: Seq<char> },
    GracefulShutdown { identity: Seq<char> },
}

impl View for RuntimeEvent {
    type V = RuntimeSignal;

    open spec fn view(&self) -> RuntimeSignal {
        match self {
            RuntimeEvent::AuthorityAcquired { identity } => RuntimeSignal::AuthorityAcquired {
                identity: identity@,
            },
            RuntimeEvent::AuthorityLost { identity } => RuntimeSignal::AuthorityLost {
                identity: identity@,
            },
            RuntimeEvent::LeaseRecovery { identity } => RuntimeSignal::LeaseRecovery {
                identity: identity@,
            },
            RuntimeEvent::LeaseReregistered {
                identity,
                session_id,
            } => RuntimeSignal::LeaseReregistered { identity: identity@, session_id: *session_id },
            RuntimeEvent::CoordinationRetry { operation } => RuntimeSignal::CoordinationRetry {
                operation: operation@,
            },
            RuntimeEvent::PublicationRejected { reason } => RuntimeSignal::PublicationRejected {
                reason: reason@,
            },
            RuntimeEvent::FatalRuntimeError {
                identity,
                message,
            } => RuntimeSignal::FatalRuntimeError { identity: identity@, message: message@ },
            RuntimeEvent::GracefulShutdown { identity } => RuntimeSignal::GracefulShutdown {
                identity: identity@,
            },
        }
    }
}

impl DeepView for RuntimeEvent {
    type V = RuntimeSignal;

    open spec fn deep_view(&self) -> RuntimeSignal {
        self@
    }
}

} // verus!
