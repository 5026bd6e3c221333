//! Participant-side execution of controller transition messages.
pub mod error;
pub mod execution;
pub mod execution_laws;
pub mod frontier;
pub mod message;
pub mod runtime;
pub mod runtime_laws;
pub mod session;
pub mod worker_laws;
pub mod workers;

pub use error::ParticipantRuntimeError;
pub use execution::{
    processed_revision_key, ResourceState, ResourceTransition, ScopedTransitionHandler,
    TransitionAttemptId, TransitionError, TransitionExecution, TransitionHandler,
    TransitionHandlerError,
};
pub use frontier::CompletionState;
pub use workers::ParticipantWorkers;
