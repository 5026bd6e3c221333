//! Deterministic controller stages and the decisions of the controller runtime.
pub mod dispatch_laws;
pub mod error;
pub mod generation_laws;
pub mod inputs;
pub mod intermediate_laws;
pub mod intermediate_state;
pub mod leader;
pub mod leader_laws;
pub mod message_generation;
pub mod message_selection;
pub mod message_throttle;
pub mod need_laws;
pub mod observed;
pub mod observed_laws;
pub mod order_laws;
pub mod output_laws;
pub mod pending;
pub mod pending_laws;
pub mod plan_laws;
pub mod planning;
pub mod planning_laws;
pub mod plans;
pub mod published;
pub mod quota;
pub mod reconcile;
pub mod reconcile_laws;
pub mod record_laws;
pub mod records;
pub mod runtime;
pub mod selection_laws;
pub mod throttle_laws;
pub mod usage_laws;
pub mod view_json;

pub use error::{is_leadership_loss, ControllerRuntimeError};
pub use intermediate_state::IntermediateState;
pub use message_generation::{generate_transitions, TransitionGenerationError};
pub use message_selection::{select_transitions, MessageSelectionError};
pub use message_throttle::{
    compute_intermediate_and_throttle, IntermediateThrottleError, IntermediateThrottleResult,
    OperationalPendingTransition, ResourceTransitionInput,
};
pub use published::PublishedTransition;
pub use quota::{RebalanceType, StateTransitionThrottleConfig, ThrottleScope};
