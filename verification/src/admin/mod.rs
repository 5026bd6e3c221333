//! Administrative writes for controller-consumed cluster metadata.
pub mod admin_laws;
pub mod instances;
pub mod limits;
pub mod resources;

pub use instances::{InstanceRemoval, InstanceSpec, InstanceUpdate};
pub use limits::{
    ThrottleSpec, TransitionLimitSpec, TransitionLimitTarget, TransitionRebalanceType,
};
pub use resources::{CrushTopologySpec, PlacementSpec, ResourceSpec};
