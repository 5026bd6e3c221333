//! Application-facing composition and configuration facade.
pub mod apply;
pub mod cluster_laws;
pub mod config;
pub mod error;
pub mod limit;
pub mod spec;

pub use apply::{run_outcome, set_transition_limits, ApplyAction, SpecApplication};
pub use config::{lease_ttl_millis, ClusterConfig, Environment};
pub use error::{ApplicationError, ConfigError};
pub use limit::{TransitionLimit, TransitionType};
pub use spec::{
    handled_resources, ClusterSpec, InstanceSpec, Placement, PlacementBuilder, ResourceSpec,
    StateModel, Topology,
};
