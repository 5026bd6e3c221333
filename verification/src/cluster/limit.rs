//! Typed limits on state-transition concurrency.
use crate::admin::limits::{
    LimitTarget, LimitView, TransitionLimitSpec, TransitionLimitTarget, TransitionRebalanceType,
};
use crate::cluster::error::{ApplicationError, ApplicationFault};
use crate::controller::records;
use crate::model::identity::IdentifierKind;
use crate::model::{InstanceId, ResourceId};
use vstd::prelude::*;
use vstd::string::*;

verus! {

/// The class of transitions counted by a [`TransitionLimit`].
#[derive(Clone, Copy, Debug, PartialEq, Eq, Structural)]
pub enum TransitionType {
    /// Count all state transitions.
    Any,
    /// Count recovery-balance transitions.
    RecoveryBalance,
    /// Count load-balance transitions.
    LoadBalance,
}

#[derive(Clone, Debug, PartialEq, Eq)]
enum TransitionLimitTargetSpec {
    Cluster,
    Resource(String),
    Instance(String),
}

/// A typed limit on state-transition concurrency.
#[derive(Clone, Debug, PartialEq, Eq)]
pub struct TransitionLimit {
    target: TransitionLimitTargetSpec,
    transition_type: TransitionType,
    max_in_flight: usize,
}

/// What a typed limit says.
pub struct TypedLimit {
    pub target: LimitTarget,
    pub transition_type: TransitionType,
    pub max_in_flight: usize,
}

impl View for TransitionLimit {
    type V = TypedLimit;

    closed spec fn view(&self) -> TypedLimit {
        TypedLimit {
            target: match self.target {
                TransitionLimitTargetSpec::Cluster => LimitTarget::Cluster,
                TransitionLimitTargetSpec::Resource(resource) => LimitTarget::Resource(resource@),
                TransitionLimitTargetSpec::Instance(instance) => LimitTarget::Instance(instance@),
            },
            transition_type: self.transition_type,
            max_in_flight: self.max_in_flight,
        }
    }
}

impl DeepView for TransitionLimit {
    type V = TypedLimit;

    open spec fn deep_view(&self) -> TypedLimit {
        self@
    }
}

/// The class of transitions as an administrator configures it.
pub open spec fn low_level_type(transition_type: TransitionType) -> TransitionRebalanceType {
    match transition_type {
        TransitionType::Any => TransitionRebalanceType::Any,
        TransitionType::RecoveryBalance => TransitionRebalanceType::RecoveryBalance,
        TransitionType::LoadBalance => TransitionRebalanceType::LoadBalance,
    }
}

impl TypedLimit {
    /// The first reason why the limit may not be configured.
    pub open spec fn fault(self) -> Option<Seq<char>> {
        if self.max_in_flight == 0 {
            Some("transition limit must be greater than zero"@)
        } else {
            match self.target {
                LimitTarget::Resource(resource) if resource.len() == 0 => Some(
                    records::empty_identity(IdentifierKind::Resource),
                ),
                LimitTarget::Instance(instance) if instance.len() == 0 => Some(
                    records::empty_identity(IdentifierKind::Instance),
                ),
                _ => None,
            }
        }
    }

    /// The limit as an administrator configures it.
    pub open spec fn low_level(self) -> LimitView {
        LimitView {
            target: self.target,
            rebalance_type: low_level_type(self.transition_type),
            max_in_flight: self.max_in_flight,
        }
    }
}

impl TransitionLimit {
    /// Limit all state transitions across the cluster.
    pub fn cluster(max_in_flight: usize) -> (r: TransitionLimit)
        ensures
            r@ == (TypedLimit {
                target: LimitTarget::Cluster,
                transition_type: TransitionType::Any,
                max_in_flight,
            }),
    {
        TransitionLimit {
            target: TransitionLimitTargetSpec::Cluster,
            transition_type: TransitionType::Any,
            max_in_flight,
        }
    }

    /// Limit all state transitions for one resource.
    pub fn resource(resource: &str, max_in_flight: usize) -> (r: TransitionLimit)
        ensures
            r@ == (TypedLimit {
                target: LimitTarget::Resource(resource@),
                transition_type: TransitionType::Any,
                max_in_flight,
            }),
    {
        TransitionLimit {
            target: TransitionLimitTargetSpec::Resource(resource.to_owned()),
            transition_type: TransitionType::Any,
            max_in_flight,
        }
    }

    /// Limit all state transitions for one instance.
    pub fn instance(instance: &str, max_in_flight: usize) -> (r: TransitionLimit)
        ensures
            r@ == (TypedLimit {
                target: LimitTarget::Instance(instance@),
                transition_type: TransitionType::Any,
                max_in_flight,
            }),
    {
        TransitionLimit {
            target: TransitionLimitTargetSpec::Instance(instance.to_owned()),
            transition_type: TransitionType::Any,
            max_in_flight,
        }
    }

    /// Count only one class of state transitions.
    pub fn transition_type(self, transition_type: TransitionType) -> (r: TransitionLimit)
        ensures
            r@ == (TypedLimit { transition_type, ..self@ }),
    {
        TransitionLimit { transition_type, ..self }
    }

    /// The limit as an administrator configures it.
    pub fn into_low_level(self) -> (r: Result<TransitionLimitSpec, ApplicationError>)
        ensures
            match r {
                Ok(limit) => self@.fault() is None && limit.deep_view() == self@.low_level(),
                Err(error) => self@.fault() matches Some(message) && error@
                    == ApplicationFault::Spec(message),
            },
    {
        if self.max_in_flight == 0 {
            return Err(
                ApplicationError::Spec("transition limit must be greater than zero".to_owned()),
            );
        }
        let target = match self.target {
            TransitionLimitTargetSpec::Cluster => TransitionLimitTarget::Cluster,
            TransitionLimitTargetSpec::Resource(resource) => match ResourceId::new(
                resource.as_str(),
            ) {
                Ok(resource) => TransitionLimitTarget::Resource(resource),
                Err(error) => {
                    return Err(ApplicationError::Spec(error.to_string()));
                },
            },
            TransitionLimitTargetSpec::Instance(instance) => match InstanceId::new(
                instance.as_str(),
            ) {
                Ok(instance) => TransitionLimitTarget::Instance(instance),
                Err(error) => {
                    return Err(ApplicationError::Spec(error.to_string()));
                },
            },
        };
        let rebalance_type = match self.transition_type {
            TransitionType::Any => TransitionRebalanceType::Any,
            TransitionType::RecoveryBalance => TransitionRebalanceType::RecoveryBalance,
            TransitionType::LoadBalance => TransitionRebalanceType::LoadBalance,
        };
        Ok(TransitionLimitSpec { target, rebalance_type, max_in_flight: self.max_in_flight })
    }
}

} // verus!
