//! Read-only semantic observations assembled from coordination state.
pub mod observe_laws;
pub mod routing_laws;
pub mod snapshot;
pub mod view;
pub mod wait;

pub use snapshot::{
    ActiveCurrentStateObservation, ClusterSnapshot, ControllerMembership, InstanceMembership,
    ObserverRevision, RoutingResult, Snapshot,
};
pub use wait::{ObservationWait, WaitError};
