//! Immutable state-model semantics used by the control plane.
pub mod best_possible_state;
pub mod builtins;
pub mod current_state;
pub mod external_view;
pub mod ideal_state;
pub mod identity;
pub mod model_laws;
pub mod paths;
pub mod replica_state;
pub mod session;
pub mod session_laws;
pub mod state;
pub mod state_model;

pub use best_possible_state::{BestPossibleState, BestPossibleStateBuilder};
pub use builtins::leader_standby;
pub use current_state::{CurrentState, CurrentStateBuilder};
pub use external_view::ExternalView;
pub use ideal_state::{IdealState, IdealStateBuilder, IdealStateError};
pub use identity::{IdentifierError, IdentifierKind, InstanceId, PartitionId, ResourceId, SessionId};
pub use replica_state::{ReplicaStateError, ReplicaStates};
pub use session::{
    ActiveCurrentState, LiveInstance, ParticipantSessionSnapshot, ParticipantSessionState, SessionError,
};
pub use state::{State, StateCardinality, StateCardinalityError, StateError, Transition};
pub use state_model::{StateModelBuilder, StateModelDefinition, StateModelError};
