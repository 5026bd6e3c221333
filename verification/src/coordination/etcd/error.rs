//! Errors of the coordination backend.
use crate::model::{InstanceId, SessionId};
use crate::ordered::Duplicate;
use crate::text;
use vstd::prelude::*;
use vstd::string::*;

verus! {

/// What went wrong in coordination.
pub enum CoordinationFault {
    Etcd(Seq<char>),
    InvalidConnectionOptions(Seq<char>),
    InvalidPrefix,
    InvalidCluster,
    InvalidKey,
    InvalidValue,
    InvalidLeaseTtl,
    LeaseExpired,
    InvalidRevision(i64),
    RevisionExhausted,
    MissingRevision,
    OutsidePrefix,
    InvalidSession,
    UnknownSession(u64),
    RegistrationLost,
    Contention,
    StaleSession(Seq<char>),
    DuplicateMessage(Seq<char>),
    StaleController,
    StaleRevision,
    InstanceStillLive(Seq<char>),
    ResourceDeletionDisabled,
}

/// Errors returned by the coordination backend. A failure of the store itself
/// carries the message of its client.
#[derive(Clone, Debug, PartialEq, Eq)]
pub enum CoordinationError {
    Etcd(String),
    InvalidConnectionOptions(String),
    InvalidPrefix,
    InvalidCluster,
    InvalidKey,
    InvalidValue,
    InvalidLeaseTtl,
    LeaseExpired,
    InvalidRevision(i64),
    RevisionExhausted,
    MissingRevision,
    OutsidePrefix,
    InvalidSession,
    UnknownSession(SessionId),
    RegistrationLost,
    Contention,
    StaleSession(InstanceId),
    DuplicateMessage(String),
    StaleController,
    StaleRevision,
    InstanceStillLive(InstanceId),
    ResourceDeletionDisabled,
}

impl View for CoordinationError {
    type V = CoordinationFault;

    open spec fn view(&self) -> CoordinationFault {
        match self {
            CoordinationError::Etcd(message) => CoordinationFault::Etcd(message@),
            CoordinationError::InvalidConnectionOptions(message) => CoordinationFault::InvalidConnectionOptions(message@),
            CoordinationError::InvalidPrefix => CoordinationFault::InvalidPrefix,
            CoordinationError::InvalidCluster => CoordinationFault::InvalidCluster,
            CoordinationError::InvalidKey => CoordinationFault::InvalidKey,
            CoordinationError::InvalidValue => CoordinationFault::InvalidValue,
            CoordinationError::InvalidLeaseTtl => CoordinationFault::InvalidLeaseTtl,
            CoordinationError::LeaseExpired => CoordinationFault::LeaseExpired,
            CoordinationError::InvalidRevision(revision) => CoordinationFault::InvalidRevision(*revision),
            CoordinationError::RevisionExhausted => CoordinationFault::RevisionExhausted,
            CoordinationError::MissingRevision => CoordinationFault::MissingRevision,
            CoordinationError::OutsidePrefix => CoordinationFault::OutsidePrefix,
            CoordinationError::InvalidSession => CoordinationFault::InvalidSession,
            CoordinationError::UnknownSession(session) => CoordinationFault::UnknownSession(session@),
            CoordinationError::RegistrationLost => CoordinationFault::RegistrationLost,
            CoordinationError::Contention => CoordinationFault::Contention,
            CoordinationError::StaleSession(instance) => CoordinationFault::StaleSession(instance@),
            CoordinationError::DuplicateMessage(message) => CoordinationFault::DuplicateMessage(message@),
            CoordinationError::StaleController => CoordinationFault::StaleController,
            CoordinationError::StaleRevision => CoordinationFault::StaleRevision,
            CoordinationError::InstanceStillLive(instance) => CoordinationFault::InstanceStillLive(instance@),
            CoordinationError::ResourceDeletionDisabled => CoordinationFault::ResourceDeletionDisabled,
        }
    }
}

impl DeepView for CoordinationError {
    type V = CoordinationFault;

    open spec fn deep_view(&self) -> CoordinationFault {
        self@
    }
}

impl CoordinationFault {
    /// The operator-facing message.
    pub open spec fn text(self) -> Seq<char> {
        match self {
            CoordinationFault::Etcd(message) => message,
            CoordinationFault::InvalidConnectionOptions(message) => message,
            CoordinationFault::InvalidPrefix => "coordination prefix must not be empty"@,
            CoordinationFault::InvalidCluster => "coordination cluster must not be empty"@,
            CoordinationFault::InvalidKey => "coordination key is invalid"@,
            CoordinationFault::InvalidValue => "coordination value is invalid UTF-8"@,
            CoordinationFault::InvalidLeaseTtl => "lease TTL must be positive"@,
            CoordinationFault::LeaseExpired => "lease expired before keepalive completed"@,
            CoordinationFault::InvalidRevision(revision) => "invalid revision "@ + text::signed_decimal(revision as int),
            CoordinationFault::RevisionExhausted => "revision space exhausted"@,
            CoordinationFault::MissingRevision => "etcd response did not include a revision"@,
            CoordinationFault::OutsidePrefix => "key is outside the coordination prefix"@,
            CoordinationFault::InvalidSession => "invalid persisted session identifier"@,
            CoordinationFault::UnknownSession(session) => "unknown session SessionId("@ + text::decimal(session as nat) + ")"@,
            CoordinationFault::RegistrationLost => "participant registration lost the race"@,
            CoordinationFault::Contention => "coordination CAS contention exceeded retry bound"@,
            CoordinationFault::StaleSession(instance) => "session is not live for "@ + instance,
            CoordinationFault::DuplicateMessage(message) => "duplicate message: "@ + message,
            CoordinationFault::StaleController => "controller authority is no longer current"@,
            CoordinationFault::StaleRevision => "controller input revision is stale"@,
            CoordinationFault::InstanceStillLive(instance) => "instance is still live: "@ + instance,
            CoordinationFault::ResourceDeletionDisabled => "resource deletion is disabled"@,
        }
    }

    /// Retrying the operation may succeed after the backend returns.
    pub open spec fn transient(self) -> bool {
        self is Etcd
    }
}

impl CoordinationError {
    /// Whether retrying the operation may succeed after the backend returns.
    pub fn is_transient(&self) -> (r: bool)
        ensures
            r == self@.transient(),
    {
        match self {
            CoordinationError::Etcd(_) => true,
            _ => false,
        }
    }

    /// Return the operator-facing message.
    pub fn to_string(&self) -> (r: String)
        ensures
            r@ == self@.text(),
    {
        match self {
            CoordinationError::Etcd(message) => message.clone(),
            CoordinationError::InvalidConnectionOptions(message) => message.clone(),
            CoordinationError::InvalidPrefix => "coordination prefix must not be empty".to_owned(),
            CoordinationError::InvalidCluster => "coordination cluster must not be empty".to_owned(),
            CoordinationError::InvalidKey => "coordination key is invalid".to_owned(),
            CoordinationError::InvalidValue => "coordination value is invalid UTF-8".to_owned(),
            CoordinationError::InvalidLeaseTtl => "lease TTL must be positive".to_owned(),
            CoordinationError::LeaseExpired => "lease expired before keepalive completed".to_owned(),
            CoordinationError::InvalidRevision(revision) => "invalid revision ".to_owned().concat(text::signed_decimal_of(*revision).as_str()),
            CoordinationError::RevisionExhausted => "revision space exhausted".to_owned(),
            CoordinationError::MissingRevision => "etcd response did not include a revision".to_owned(),
            CoordinationError::OutsidePrefix => "key is outside the coordination prefix".to_owned(),
            CoordinationError::InvalidSession => "invalid persisted session identifier".to_owned(),
            CoordinationError::UnknownSession(session) => "unknown session SessionId(".to_owned().concat(text::decimal_of(session.sequence()).as_str()).concat(")"),
            CoordinationError::RegistrationLost => "participant registration lost the race".to_owned(),
            CoordinationError::Contention => "coordination CAS contention exceeded retry bound".to_owned(),
            CoordinationError::StaleSession(instance) => "session is not live for ".to_owned().concat(instance.as_str()),
            CoordinationError::DuplicateMessage(message) => "duplicate message: ".to_owned().concat(message.as_str()),
            CoordinationError::StaleController => "controller authority is no longer current".to_owned(),
            CoordinationError::StaleRevision => "controller input revision is stale".to_owned(),
            CoordinationError::InstanceStillLive(instance) => "instance is still live: ".to_owned().concat(instance.as_str()),
            CoordinationError::ResourceDeletionDisabled => "resource deletion is disabled".to_owned(),
        }
    }
}

impl Duplicate for CoordinationError {
    fn duplicate(&self) -> (r: Self) {
        match self {
            CoordinationError::Etcd(message) => CoordinationError::Etcd(message.clone()),
            CoordinationError::InvalidConnectionOptions(message) => CoordinationError::InvalidConnectionOptions(message.clone()),
            CoordinationError::InvalidPrefix => CoordinationError::InvalidPrefix,
            CoordinationError::InvalidCluster => CoordinationError::InvalidCluster,
            CoordinationError::InvalidKey => CoordinationError::InvalidKey,
            CoordinationError::InvalidValue => CoordinationError::InvalidValue,
            CoordinationError::InvalidLeaseTtl => CoordinationError::InvalidLeaseTtl,
            CoordinationError::LeaseExpired => CoordinationError::LeaseExpired,
            CoordinationError::InvalidRevision(revision) => CoordinationError::InvalidRevision(*revision),
            CoordinationError::RevisionExhausted => CoordinationError::RevisionExhausted,
            CoordinationError::MissingRevision => CoordinationError::MissingRevision,
            CoordinationError::OutsidePrefix => CoordinationError::OutsidePrefix,
            CoordinationError::InvalidSession => CoordinationError::InvalidSession,
            CoordinationError::UnknownSession(session) => CoordinationError::UnknownSession(*session),
            CoordinationError::RegistrationLost => CoordinationError::RegistrationLost,
            CoordinationError::Contention => CoordinationError::Contention,
            CoordinationError::StaleSession(instance) => CoordinationError::StaleSession(instance.duplicate()),
            CoordinationError::DuplicateMessage(message) => CoordinationError::DuplicateMessage(message.clone()),
            CoordinationError::StaleController => CoordinationError::StaleController,
            CoordinationError::StaleRevision => CoordinationError::StaleRevision,
            CoordinationError::InstanceStillLive(instance) => CoordinationError::InstanceStillLive(instance.duplicate()),
            CoordinationError::ResourceDeletionDisabled => CoordinationError::ResourceDeletionDisabled,
        }
    }
}

} // verus!
