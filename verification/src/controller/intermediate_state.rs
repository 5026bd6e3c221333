//! The state map between what is observed and what is desired.
use crate::model::replica_state;
use crate::model::{InstanceId, PartitionId, ResourceId, State};
use crate::ordered::OrderedMap;
use vstd::prelude::*;

verus! {

/// The state map published by the intermediate-state calculation.
#[derive(Clone, Debug, PartialEq, Eq)]
pub struct IntermediateState {
    states: OrderedMap<ResourceId, OrderedMap<PartitionId, OrderedMap<InstanceId, State>>>,
}

impl View for IntermediateState {
    type V = Map<Seq<char>, replica_state::Replicas>;

    closed spec fn view(&self) -> Map<Seq<char>, replica_state::Replicas> {
        self.states@
    }
}

impl Default for IntermediateState {
    fn default() -> (r: Self)
        ensures
            r@ == Map::<Seq<char>, replica_state::Replicas>::empty(),
    {
        IntermediateState { states: OrderedMap::new() }
    }
}

impl IntermediateState {
    /// The state map that holds `states`.
    pub fn from_states(
        states: OrderedMap<ResourceId, OrderedMap<PartitionId, OrderedMap<InstanceId, State>>>,
    ) -> (r: Self)
        ensures
            r@ == states@,
    {
        IntermediateState { states }
    }

    /// Look up an intermediate replica state.
    pub fn state(
        &self,
        resource: &ResourceId,
        partition: &PartitionId,
        instance: &InstanceId,
    ) -> (r: Option<&State>)
        ensures
            match r {
                Some(state) => self@.dom().contains(resource@) && replica_state::state_of(
                    self@[resource@],
                    partition@,
                    instance@,
                ) == Some(state@),
                None => !self@.dom().contains(resource@) || replica_state::state_of(
                    self@[resource@],
                    partition@,
                    instance@,
                ) is None,
            },
    {
        match self.states.get(resource) {
            Some(partitions) => match partitions.get(partition) {
                Some(instances) => instances.get(instance),
                None => None,
            },
            None => None,
        }
    }

    /// Return the deterministic resource/partition/instance state map.
    pub fn entries(&self) -> (r: &OrderedMap<
        ResourceId,
        OrderedMap<PartitionId, OrderedMap<InstanceId, State>>,
    >)
        ensures
            r@ == self@,
    {
        &self.states
    }
}

} // verus!
