//! Which configured instances serve a partition in a state.
use crate::model::replica_state;
use crate::model::session;
use crate::model::{ExternalView, InstanceId, PartitionId, ResourceId, State};
use crate::ordered::{self, Duplicate, Key, OrderedMap, OrderedSet};
use crate::text;
use vstd::prelude::*;
use vstd::string::*;

verus! {

/// The configured instances of a listing that are in a state, in its order.
pub open spec fn routed_in(
    listing: Seq<(Seq<char>, Seq<char>)>,
    configured: Set<Seq<char>>,
    state: Seq<char>,
) -> Seq<Seq<char>>
    decreases listing.len(),
{
    if listing.len() == 0 {
        Seq::empty()
    } else {
        let before = routed_in(listing.drop_last(), configured, state);
        if listing.last().1 == state && configured.contains(listing.last().0) {
            before.push(listing.last().0)
        } else {
            before
        }
    }
}

/// The configured instances that are in a state, by increasing name.
pub open spec fn routed(
    replicas: Map<Seq<char>, Seq<char>>,
    configured: Set<Seq<char>>,
    state: Seq<char>,
) -> Seq<Seq<char>> {
    routed_in(ordered::in_order::<InstanceId, Seq<char>>(replicas), configured, state)
}

/// An instance is routed to exactly where it is configured and in the state.
pub proof fn routing_is_exact(
    listing: Seq<(Seq<char>, Seq<char>)>,
    configured: Set<Seq<char>>,
    state: Seq<char>,
    instance: Seq<char>,
)
    ensures
        routed_in(listing, configured, state).contains(instance) <==> configured.contains(instance)
            && exists|i: int| 0 <= i < listing.len() && #[trigger] listing[i] == (instance, state),
    decreases listing.len(),
{
    if listing.len() > 0 {
        let rest = listing.drop_last();
        let last = listing.last();
        routing_is_exact(rest, configured, state, instance);
        let before = routed_in(rest, configured, state);
        let all = routed_in(listing, configured, state);
        if before.contains(instance) {
            let k = before.index_of(instance);
            assert(all[k] == instance);
            let i = choose|i: int| 0 <= i < rest.len() && #[trigger] rest[i] == (instance, state);
            assert(listing[i] == (instance, state));
        }
        if last == (instance, state) && configured.contains(instance) {
            assert(all[all.len() - 1] == instance);
            assert(listing[listing.len() - 1] == last);
        }
        if all.contains(instance) && !before.contains(instance) {
            let k = all.index_of(instance);
            assert(k == before.len());
            assert(listing[listing.len() - 1] == (instance, state));
        }
        if configured.contains(instance) && exists|i: int|
            0 <= i < listing.len() && #[trigger] listing[i] == (instance, state) {
            let i = choose|i: int|
                0 <= i < listing.len() && #[trigger] listing[i] == (instance, state);
            if i < rest.len() {
                assert(rest[i] == (instance, state));
            }
        }
    }
}

/// Why a routing question could not be asked.
#[derive(Clone, Debug, PartialEq, Eq)]
pub enum RoutingError {
    InvalidResource(String),
    InvalidPartition(String),
}

impl RoutingError {
    /// The operator-facing message.
    pub open spec fn text(self) -> Seq<char> {
        match self {
            RoutingError::InvalidResource(name) => "invalid resource "@ + text::debug_text(name@),
            RoutingError::InvalidPartition(name) => "invalid partition "@ + text::debug_text(name@),
        }
    }

    /// Return the operator-facing message.
    pub fn to_string(&self) -> (r: String)
        ensures
            r@ == self.text(),
    {
        match self {
            RoutingError::InvalidResource(name) => "invalid resource ".to_owned().concat(
                text::quoted(name.as_str()).as_str(),
            ),
            RoutingError::InvalidPartition(name) => "invalid partition ".to_owned().concat(
                text::quoted(name.as_str()).as_str(),
            ),
        }
    }
}

/// The observed states, and the instances that count.
#[verifier::ext_equal]
pub struct RoutingView {
    pub states: session::Resources,
    pub configured: Set<Seq<char>>,
}

impl RoutingView {
    /// The configured instances of a partition that are in a state.
    pub open spec fn instances(
        self,
        resource: Seq<char>,
        partition: Seq<char>,
        state: Seq<char>,
    ) -> Seq<Seq<char>> {
        if self.states.dom().contains(resource) {
            routed(
                replica_state::instances_of(self.states[resource], partition),
                self.configured,
                state,
            )
        } else {
            Seq::empty()
        }
    }
}

/// An immutable routing table: observed states, filtered by membership.
#[derive(Clone, Debug, PartialEq, Eq)]
pub struct RoutingSnapshot {
    external_view: ExternalView,
    configured: OrderedSet<InstanceId>,
}

impl View for RoutingSnapshot {
    type V = RoutingView;

    closed spec fn view(&self) -> RoutingView {
        RoutingView { states: self.external_view@, configured: self.configured@ }
    }
}

/// The configured instances that are in a state, by increasing name.
pub fn instances_in(
    replicas: &OrderedMap<InstanceId, State>,
    configured: &OrderedSet<InstanceId>,
    state: &State,
) -> (r: Vec<InstanceId>)
    ensures
        r.deep_view() == routed(replicas@, configured@, state@),
{
    let ghost all = replicas.listing();
    let n: usize = replicas.len();
    let mut out: Vec<InstanceId> = Vec::new();
    let mut i: usize = 0;
    proof {
        assert(all.take(0) =~= Seq::empty());
        assert(out.deep_view() =~= Seq::empty());
    }
    while i < n
        invariant
            i <= n,
            n == all.len(),
            all == replicas.listing(),
            out.deep_view() == routed_in(all.take(i as int), configured@, state@),
        decreases n - i,
    {
        let instance = replicas.key_at(i);
        let ghost before = out.deep_view();
        proof {
            assert(all.take(i + 1).drop_last() =~= all.take(i as int));
            assert(all.take(i + 1).last() == all[i as int]);
        }
        if replicas.value_at(i).same(state) && configured.contains(instance) {
            out.push(instance.duplicate());
            assert(out.deep_view() =~= before.push(instance@));
        }
        i = i + 1;
    }
    assert(all.take(n as int) =~= all);
    out
}

impl RoutingSnapshot {
    /// Route over the observed states of the configured instances.
    pub fn from_external_view(external_view: ExternalView, configured: OrderedSet<InstanceId>) -> (r:
        RoutingSnapshot)
        ensures
            r@ == (RoutingView { states: external_view@, configured: configured@ }),
    {
        RoutingSnapshot { external_view, configured }
    }

    /// Return the observed states.
    pub fn external_view(&self) -> (r: &ExternalView)
        ensures
            r@ == self@.states,
    {
        &self.external_view
    }

    /// Return the configured instances of a partition that are in a state, by
    /// increasing name.
    pub fn instances_for(
        &self,
        resource: &ResourceId,
        partition: &PartitionId,
        state: &State,
    ) -> (r: Vec<InstanceId>)
        ensures
            r.deep_view() == self@.instances(resource@, partition@, state@),
    {
        let none: OrderedMap<InstanceId, State> = OrderedMap::new();
        match self.external_view.entries().get(resource) {
            Some(partitions) => match partitions.get(partition) {
                Some(replicas) => instances_in(replicas, &self.configured, state),
                None => instances_in(&none, &self.configured, state),
            },
            None => {
                let none: Vec<InstanceId> = Vec::new();
                assert(none.deep_view() =~= Seq::empty());
                none
            },
        }
    }

    /// Return the leader of a partition, if a configured instance leads it.
    pub fn leader(&self, resource: &str, partition: &str) -> (r: Result<
        Option<InstanceId>,
        RoutingError,
    >)
        ensures
            match r {
                Err(error) => if resource@.len() == 0 {
                    error matches RoutingError::InvalidResource(name) && name@ == resource@
                } else {
                    partition@.len() == 0 && (error matches RoutingError::InvalidPartition(name)
                        && name@ == partition@)
                },
                Ok(found) => {
                    let leaders = self@.instances(resource@, partition@, "LEADER"@);
                    &&& resource@.len() > 0
                    &&& partition@.len() > 0
                    &&& found is None <==> leaders.len() == 0
                    &&& found matches Some(leader) ==> leader@ == leaders[0]
                },
            },
    {
        proof {
            reveal_strlit("LEADER");
        }
        let resource_id = match ResourceId::new(resource) {
            Ok(id) => id,
            Err(_) => {
                return Err(RoutingError::InvalidResource(resource.to_owned()));
            },
        };
        let partition_id = match PartitionId::new(partition) {
            Ok(id) => id,
            Err(_) => {
                return Err(RoutingError::InvalidPartition(partition.to_owned()));
            },
        };
        match State::new("LEADER") {
            Ok(state) => {
                let leaders = self.instances_for(&resource_id, &partition_id, &state);
                assert(leaders.deep_view().len() == leaders@.len());
                if leaders.len() == 0 {
                    Ok(None)
                } else {
                    assert(leaders.deep_view()[0] == leaders@[0]@);
                    Ok(Some(leaders[0].duplicate()))
                }
            },
            Err(_) => Ok(None),
        }
    }
}

} // verus!
