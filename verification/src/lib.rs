//! Cluster control plane: state models, placement-driven transitions, and the
//! fenced coordination protocol that carries them out.
use vstd::prelude::*;
use vstd::string::*;

pub mod admin;
pub mod cluster;
pub mod controller;
pub mod coordination;
pub mod election;
pub mod lists;
pub mod model;
pub mod observability;
pub mod observe;
pub mod ordered;
pub mod participant;
pub mod routing;
pub mod text;
pub mod text_laws;
pub mod time;
pub mod transition;

pub use cluster::{
    ApplicationError, ClusterConfig, ClusterSpec, ConfigError, InstanceSpec, Placement,
    PlacementBuilder, ResourceSpec, StateModel, Topology, TransitionLimit, TransitionType,
};
pub use coordination::etcd::{EtcdConnectionOptions, EtcdCoordinationConfig};
pub use observability::RuntimeEvent;
pub use observe::Snapshot;
pub use participant::{ResourceState, ResourceTransition, TransitionAttemptId, TransitionError};

verus! {

/// A compact application and runtime error.
#[derive(Clone, Debug, PartialEq, Eq)]
pub struct Error(String);

impl View for Error {
    type V = Seq<char>;

    closed spec fn view(&self) -> Seq<char> {
        self.0@
    }
}

impl Error {
    /// An error with an operator-facing message.
    pub fn new(message: &str) -> (r: Error)
        ensures
            r@ == message@,
    {
        Error(message.to_owned())
    }

    /// Return the operator-facing message.
    pub fn to_string(&self) -> (r: String)
        ensures
            r@ == self@,
    {
        self.0.clone()
    }
}

} // verus!
