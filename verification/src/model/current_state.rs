//! Observed replica states.
use crate::model::identity::{InstanceId, PartitionId};
use crate::model::replica_state;
use crate::model::replica_state::{ReplicaStateError, ReplicaStates};
use crate::model::state::State;
use crate::ordered::{Duplicate, OrderedMap};
use vstd::prelude::*;

verus! {

/// Immutable observed replica states for one or more partitions.
#[derive(Clone, Debug, PartialEq, Eq)]
pub struct CurrentState {
    states: ReplicaStates,
}

impl View for CurrentState {
    type V = replica_state::Replicas;

    closed spec fn view(&self) -> replica_state::Replicas {
        self.states@
    }
}

impl DeepView for CurrentState {
    type V = replica_state::Replicas;

    open spec fn deep_view(&self) -> replica_state::Replicas {
        self@
    }
}

impl Default for CurrentState {
    fn default() -> (r: Self)
        ensures
            r@ == replica_state::Replicas::empty(),
    {
        CurrentState { states: ReplicaStates::default() }
    }
}

impl Duplicate for CurrentState {
    fn duplicate(&self) -> (r: Self) {
        CurrentState { states: self.states.copy() }
    }
}

impl CurrentState {
    /// Start constructing an observed-state map.
    pub fn builder() -> (r: CurrentStateBuilder)
        ensures
            r@ == replica_state::Replicas::empty(),
    {
        CurrentStateBuilder { states: ReplicaStates::default() }
    }

    /// Look up an observed replica state.
    pub fn state(&self, partition: &PartitionId, instance: &InstanceId) -> (r: Option<&State>)
        ensures
            match r {
                Some(state) => replica_state::state_of(self@, partition@, instance@) == Some(
                    state@,
                ),
                None => replica_state::state_of(self@, partition@, instance@) is None,
            },
    {
        self.states.get(partition, instance)
    }

    /// Return the deterministic partition/instance view.
    pub fn entries(&self) -> (r: &OrderedMap<PartitionId, OrderedMap<InstanceId, State>>)
        ensures
            r@ == self@,
    {
        self.states.entries()
    }

    /// Give up the partition/instance view.
    pub fn into_entries(self) -> (r: OrderedMap<PartitionId, OrderedMap<InstanceId, State>>)
        ensures
            r@ == self@,
    {
        self.states.into_entries()
    }

    /// The state map with one more replica, or with a new state for it.
    pub fn with_state(self, partition: PartitionId, instance: InstanceId, state: State) -> (r:
        CurrentState)
        ensures
            r@ == replica_state::placed(self@, partition@, instance@, state@),
    {
        let mut states = self.states;
        let _ = states.insert(partition, instance, state);
        CurrentState { states }
    }

    /// The state map with the given partition/instance view.
    pub fn from_entries(
        entries: OrderedMap<PartitionId, OrderedMap<InstanceId, State>>,
    ) -> (r: CurrentState)
        ensures
            r@ == entries@,
    {
        CurrentState { states: ReplicaStates::from_entries(entries) }
    }
}

/// Builder for an immutable [`CurrentState`].
#[derive(Clone, Debug)]
pub struct CurrentStateBuilder {
    states: ReplicaStates,
}

impl View for CurrentStateBuilder {
    type V = replica_state::Replicas;

    closed spec fn view(&self) -> replica_state::Replicas {
        self.states@
    }
}

impl Default for CurrentStateBuilder {
    fn default() -> (r: Self)
        ensures
            r@ == replica_state::Replicas::empty(),
    {
        CurrentStateBuilder { states: ReplicaStates::default() }
    }
}

impl CurrentStateBuilder {
    /// Add one observed replica state. A replica that had one already is reported
    /// and takes the new state all the same.
    pub fn set_state(
        &mut self,
        partition: PartitionId,
        instance: InstanceId,
        state: State,
    ) -> (r: Result<&mut Self, ReplicaStateError>)
        ensures
            match r {
                Ok(builder) => replica_state::state_of(old(self)@, partition@, instance@) is None
                    && (*builder)@ == replica_state::placed(
                    old(self)@,
                    partition@,
                    instance@,
                    state@,
                ) && *final(self) == *final(builder),
                Err(error) => replica_state::state_of(old(self)@, partition@, instance@) is Some
                    && error.at_partition() == partition@ && error.at_instance() == instance@
                    && final(self)@ == replica_state::placed(
                    old(self)@,
                    partition@,
                    instance@,
                    state@,
                ),
            },
    {
        match self.states.insert(partition, instance, state) {
            Ok(()) => Ok(self),
            Err(error) => Err(error),
        }
    }

    /// Publish the immutable observed-state map.
    pub fn build(self) -> (r: CurrentState)
        ensures
            r@ == self@,
    {
        CurrentState { states: self.states }
    }
}

} // verus!
