//! Desired replica states.
use crate::model::identity::{InstanceId, PartitionId};
use crate::model::replica_state;
use crate::model::replica_state::{ReplicaStateError, ReplicaStates};
use crate::model::state::State;
use crate::ordered::{Duplicate, OrderedMap};
use vstd::prelude::*;

verus! {

/// Immutable desired replica states for one or more partitions.
#[derive(Clone, Debug, PartialEq, Eq)]
pub struct BestPossibleState {
    states: ReplicaStates,
}

impl View for BestPossibleState {
    type V = replica_state::Replicas;

    closed spec fn view(&self) -> replica_state::Replicas {
        self.states@
    }
}

impl DeepView for BestPossibleState {
    type V = replica_state::Replicas;

    open spec fn deep_view(&self) -> replica_state::Replicas {
        self@
    }
}

impl Default for BestPossibleState {
    fn default() -> (r: Self)
        ensures
            r@ == replica_state::Replicas::empty(),
    {
        BestPossibleState { states: ReplicaStates::default() }
    }
}

impl Duplicate for BestPossibleState {
    fn duplicate(&self) -> (r: Self) {
        BestPossibleState { states: self.states.copy() }
    }
}

impl BestPossibleState {
    /// Start constructing a desired-state map.
    pub fn builder() -> (r: BestPossibleStateBuilder)
        ensures
            r@ == replica_state::Replicas::empty(),
    {
        BestPossibleStateBuilder { states: ReplicaStates::default() }
    }

    /// Look up a desired replica state.
    pub fn state(&self, partition: &PartitionId, instance: &InstanceId) -> (r: Option<&State>)
        ensures
            match r {
                Some(state) => replica_state::state_of(self@, partition@, instance@) == Some(
                    state@,
                ),
                None => replica_state::state_of(self@, partition@, instance@) is None,
            },
    {
        self.states.get(partition, instance)
    }

    /// Return the deterministic partition/instance view.
    pub fn entries(&self) -> (r: &OrderedMap<PartitionId, OrderedMap<InstanceId, State>>)
        ensures
            r@ == self@,
    {
        self.states.entries()
    }
}

/// Builder for an immutable [`BestPossibleState`].
#[derive(Clone, Debug)]
pub struct BestPossibleStateBuilder {
    states: ReplicaStates,
}

impl View for BestPossibleStateBuilder {
    type V = replica_state::Replicas;

    closed spec fn view(&self) -> replica_state::Replicas {
        self.states@
    }
}

impl Default for BestPossibleStateBuilder {
    fn default() -> (r: Self)
        ensures
            r@ == replica_state::Replicas::empty(),
    {
        BestPossibleStateBuilder { states: ReplicaStates::default() }
    }
}

impl BestPossibleStateBuilder {
    /// Add one desired replica state. A replica that had one already is reported
    /// and takes the new state all the same.
    pub fn set_state(
        &mut self,
        partition: PartitionId,
        instance: InstanceId,
        state: State,
    ) -> (r: Result<&mut Self, ReplicaStateError>)
        ensures
            match r {
                Ok(builder) => replica_state::state_of(old(self)@, partition@, instance@) is None
                    && (*builder)@ == replica_state::placed(
                    old(self)@,
                    partition@,
                    instance@,
                    state@,
                ) && *final(self) == *final(builder),
                Err(error) => replica_state::state_of(old(self)@, partition@, instance@) is Some
                    && error.at_partition() == partition@ && error.at_instance() == instance@
                    && final(self)@ == replica_state::placed(
                    old(self)@,
                    partition@,
                    instance@,
                    state@,
                ),
            },
    {
        match self.states.insert(partition, instance, state) {
            Ok(()) => Ok(self),
            Err(error) => Err(error),
        }
    }

    /// Publish the immutable desired-state map.
    pub fn build(self) -> (r: BestPossibleState)
        ensures
            r@ == self@,
    {
        BestPossibleState { states: self.states }
    }
}

} // verus!
