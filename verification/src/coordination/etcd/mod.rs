//! The etcd coordination protocol: keys, snapshots, fences, and transactions.
pub mod commit_laws;
pub mod driver_laws;
pub mod error;
pub mod key_laws;
pub mod keys;
pub mod metadata;
pub mod options;
pub mod publication;
pub mod queue;
pub mod queue_laws;
pub mod read_laws;
pub mod registration;
pub mod revision;
pub mod session;
pub mod snapshot;
pub mod states;
pub mod store;
pub mod subscription;
pub mod watch;
pub mod write_laws;

pub use error::CoordinationError;
pub use keys::{decode_segment, encode_segment, EtcdNamespace};
pub use metadata::{CasResult, MetadataEntry, MetadataWatermark, PENDING_TRANSITIONS_KEY};
pub use options::{EtcdConnectionOptions, EtcdCoordinationConfig};
pub use publication::{pending_revision_compare, LeaseExpiryRecord, OutputPublication};
pub use queue::{
    parse_pending_messages, CompletionResult, MessageClaim, MessageCompletion, MessageInjection,
    ParticipantCompletionFence, QueueAction, QueueEntry, ResourcePurge, TransitionClaim,
};
pub use registration::{
    EtcdParticipantSession, ParticipantRegistration, RegistrationAction, RegistrationOptions,
};
pub use revision::Revision;
pub use snapshot::{
    is_authoritative_key, ControllerElectionSnapshot, CoordinationSnapshot, WatchRecovery,
};
pub use store::{
    revision_from_header, Condition, KeyValue, Mutation, StoreAction, Transaction,
};
pub use subscription::{Change, WatchResponse, WatchSubscription};
pub use watch::{
    is_lease_backed_delete, KeyValueSnapshot, WatchCursor, WatchError, WatchEvent, WatchEventKind,
};
