//! Observed replica states grouped by resource.
use crate::model::current_state::CurrentState;
use crate::model::identity::{InstanceId, PartitionId, ResourceId};
use crate::model::replica_state;
use crate::model::state::State;
use crate::ordered;
use crate::ordered::{Duplicate, OrderedMap};
use vstd::prelude::*;

verus! {

/// Immutable aggregation of observed replica states grouped by resource.
///
/// An external view is derived exclusively from [`CurrentState`] snapshots. It
/// deliberately does not consult desired placement or instance membership;
/// routing applies that separate membership filter when a snapshot is built.
#[derive(Clone, Debug, PartialEq, Eq)]
pub struct ExternalView {
    states: OrderedMap<ResourceId, OrderedMap<PartitionId, OrderedMap<InstanceId, State>>>,
}

impl View for ExternalView {
    type V = Map<Seq<char>, replica_state::Replicas>;

    closed spec fn view(&self) -> Map<Seq<char>, replica_state::Replicas> {
        self.states@
    }
}

impl Default for ExternalView {
    fn default() -> (r: Self)
        ensures
            r@ == Map::<Seq<char>, replica_state::Replicas>::empty(),
    {
        ExternalView { states: OrderedMap::new() }
    }
}

impl ExternalView {
    /// Aggregate one observed state snapshot for each resource.
    pub fn from_current_states(current_states: OrderedMap<ResourceId, CurrentState>) -> (r: Self)
        ensures
            r@ == current_states@,
    {
        let mut states: OrderedMap<
            ResourceId,
            OrderedMap<PartitionId, OrderedMap<InstanceId, State>>,
        > = OrderedMap::new();
        let n: usize = current_states.len();
        let ghost all = current_states.listing();
        let mut i: usize = 0;
        while i < n
            invariant
                i <= n,
                n == all.len(),
                all == current_states.listing(),
                ordered::lists::<ResourceId, replica_state::Replicas>(all, current_states@),
                forall|j: int|
                    0 <= j < i ==> states@.dom().contains((#[trigger] all[j]).0)
                        && states@[all[j].0] == all[j].1,
                forall|k: Seq<char>| #[trigger]
                    states@.dom().contains(k) ==> current_states@.dom().contains(k),
            decreases n - i,
        {
            let ghost before = states@;
            let entries = current_states.value_at(i).entries().duplicate();
            states.insert(current_states.key_at(i).duplicate(), entries);
            proof {
                assert forall|j: int| 0 <= j < i + 1 implies states@.dom().contains(
                    (#[trigger] all[j]).0,
                ) && states@[all[j].0] == all[j].1 by {
                    if j < i {
                        assert(before.dom().contains(all[j].0));
                        ordered::keys_differ::<ResourceId, replica_state::Replicas>(
                            all,
                            j,
                            i as int,
                        );
                    }
                }
            }
            i = i + 1;
        }
        proof {
            assert forall|k: Seq<char>|
                current_states@.dom().contains(k) implies states@.dom().contains(k) && states@[k]
                == current_states@[k] by {
                let j = ordered::map_of_position(all, k);
                assert(states@.dom().contains(all[j].0));
            }
            assert(states@ =~= current_states@);
        }
        ExternalView { states }
    }

    /// Return the complete deterministic resource/partition/instance view.
    pub fn entries(&self) -> (r: &OrderedMap<
        ResourceId,
        OrderedMap<PartitionId, OrderedMap<InstanceId, State>>,
    >)
        ensures
            r@ == self@,
    {
        &self.states
    }

    /// Look up an observed state in the aggregated view.
    pub fn state(
        &self,
        resource: &ResourceId,
        partition: &PartitionId,
        instance: &InstanceId,
    ) -> (r: Option<&State>)
        ensures
            match r {
                Some(state) => self@.dom().contains(resource@) && replica_state::state_of(
                    self@[resource@],
                    partition@,
                    instance@,
                ) == Some(state@),
                None => !self@.dom().contains(resource@) || replica_state::state_of(
                    self@[resource@],
                    partition@,
                    instance@,
                ) is None,
            },
    {
        match self.states.get(resource) {
            Some(partitions) => match partitions.get(partition) {
                Some(instances) => instances.get(instance),
                None => None,
            },
            None => None,
        }
    }
}

} // verus!
