//! What holds of the routes of every observation.
use crate::controller::published;
use crate::controller::records;
use crate::coordination::etcd::snapshot as namespace;
use crate::model::replica_state;
use crate::model::session;
use crate::model::{InstanceId, PartitionId, ResourceId, State};
use crate::observe::snapshot::{self, Route};
use crate::ordered;
use crate::routing;
use vstd::prelude::*;

verus! {

/// Every route leads to configured instances only.
pub open spec fn within(routes: Seq<Route>, configured: Set<Seq<char>>) -> bool {
    forall|i: int, name: Seq<char>|
        0 <= i < routes.len() && #[trigger] routes[i].instances.contains(name)
            ==> configured.contains(name)
}

proof fn within_both(a: Seq<Route>, b: Seq<Route>, configured: Set<Seq<char>>)
    requires
        within(a, configured),
        within(b, configured),
    ensures
        within(a + b, configured),
{
    assert forall|i: int, name: Seq<char>|
        0 <= i < (a + b).len() && #[trigger] (a + b)[i].instances.contains(name) implies configured.contains(
        name,
    ) by {
        if i < a.len() {
            assert(a[i].instances.contains(name));
        } else {
            assert(b[i - a.len()].instances.contains(name));
        }
    }
}

proof fn partition_routes_within(
    resource: Seq<char>,
    partition: Seq<char>,
    replicas: Map<Seq<char>, Seq<char>>,
    configured: Set<Seq<char>>,
)
    ensures
        within(
            snapshot::partition_routes(resource, partition, replicas, configured),
            configured,
        ),
{
    let routes = snapshot::partition_routes(resource, partition, replicas, configured);
    assert forall|i: int, name: Seq<char>|
        0 <= i < routes.len() && #[trigger] routes[i].instances.contains(
            name,
        ) implies configured.contains(name) by {
        routing::routing_is_exact(
            ordered::in_order::<InstanceId, Seq<char>>(replicas),
            configured,
            routes[i].state,
            name,
        );
    }
}

proof fn resource_routes_within(
    resource: Seq<char>,
    partitions: Seq<(Seq<char>, Map<Seq<char>, Seq<char>>)>,
    configured: Set<Seq<char>>,
)
    ensures
        within(snapshot::resource_routes(resource, partitions, configured), configured),
    decreases partitions.len(),
{
    if partitions.len() > 0 {
        resource_routes_within(resource, partitions.drop_last(), configured);
        partition_routes_within(
            resource,
            partitions.last().0,
            partitions.last().1,
            configured,
        );
        within_both(
            snapshot::resource_routes(resource, partitions.drop_last(), configured),
            snapshot::partition_routes(
                resource,
                partitions.last().0,
                partitions.last().1,
                configured,
            ),
            configured,
        );
    }
}

proof fn routes_within(
    resources: Seq<(Seq<char>, replica_state::Replicas)>,
    configured: Set<Seq<char>>,
)
    ensures
        within(snapshot::routes_in(resources, configured), configured),
    decreases resources.len(),
{
    if resources.len() > 0 {
        let partitions = ordered::in_order::<PartitionId, Map<Seq<char>, Seq<char>>>(
            resources.last().1,
        );
        routes_within(resources.drop_last(), configured);
        resource_routes_within(resources.last().0, partitions, configured);
        within_both(
            snapshot::routes_in(resources.drop_last(), configured),
            snapshot::resource_routes(resources.last().0, partitions, configured),
            configured,
        );
    }
}

/// Every observation can be routed over.
pub proof fn observations_can_be_routed(
    v: namespace::CoordinationView,
    queue: records::DecodedView<Seq<published::PublishedView>>,
    configs: records::DecodedView<Seq<Seq<char>>>,
)
    requires
        snapshot::observation(v, queue, configs) is Ok,
    ensures
        snapshot::observation(v, queue, configs)->Ok_0.routing() is Ok,
{
    let observed = snapshot::observation(v, queue, configs)->Ok_0;
    let configured = snapshot::configured_in(configs)->Ok_0;
    let states = observed.external->0;
    let m = crate::observe::view::resources_in(states)->Ok_0;
    routes_within(ordered::in_order::<ResourceId, replica_state::Replicas>(m), configured);
    if snapshot::routed_instances(observed.routes).contains(Seq::empty()) {
        let i = choose|i: int|
            0 <= i < observed.routes.len() && #[trigger] observed.routes[i].instances.contains(
                Seq::empty(),
            );
        assert(configured.contains(Seq::empty()));
    }
}

proof fn partition_is_routed(
    resource: Seq<char>,
    partitions: Seq<(Seq<char>, Map<Seq<char>, Seq<char>>)>,
    configured: Set<Seq<char>>,
    p: int,
    state: Seq<char>,
    name: Seq<char>,
)
    requires
        0 <= p < partitions.len(),
        partitions[p].1.dom().finite(),
        snapshot::occupied(partitions[p].1).contains(state),
        routing::routed(partitions[p].1, configured, state).contains(name),
    ensures
        snapshot::routed_instances(
            snapshot::resource_routes(resource, partitions, configured),
        ).contains(name),
    decreases partitions.len(),
{
    let before = snapshot::resource_routes(resource, partitions.drop_last(), configured);
    let last = snapshot::partition_routes(
        resource,
        partitions.last().0,
        partitions.last().1,
        configured,
    );
    let all = snapshot::resource_routes(resource, partitions, configured);
    if p == partitions.len() - 1 {
        occupied_is_finite(partitions[p].1);
        ordered::finite_set_is_enumerated::<State>(snapshot::occupied(partitions[p].1));
        let states = ordered::members_in_order::<State>(snapshot::occupied(partitions[p].1));
        assert(states.contains(state));
        let k = states.index_of(state);
        assert(last[k].instances.contains(name));
        assert(all[before.len() + k].instances.contains(name));
    } else {
        assert(partitions.drop_last()[p] == partitions[p]);
        partition_is_routed(resource, partitions.drop_last(), configured, p, state, name);
        let k = choose|k: int|
            0 <= k < before.len() && #[trigger] before[k].instances.contains(name);
        assert(all[k].instances.contains(name));
    }
}

/// Finitely many replicas are in finitely many states.
pub proof fn occupied_is_finite(replicas: Map<Seq<char>, Seq<char>>)
    requires
        replicas.dom().finite(),
    ensures
        snapshot::occupied(replicas).finite(),
{
    let values = replicas.dom().map(|i: Seq<char>| replicas[i]);
    replicas.dom().lemma_map_finite(|i: Seq<char>| replicas[i]);
    assert forall|s: Seq<char>| snapshot::occupied(replicas).contains(s) implies values.contains(s) by {
        let i = choose|i: Seq<char>| #[trigger] replicas.dom().contains(i) && replicas[i] == s;
        assert(replicas.dom().contains(i));
    }
    vstd::set_lib::lemma_set_subset_finite(values, snapshot::occupied(replicas));
}

proof fn resource_is_routed(
    resources: Seq<(Seq<char>, replica_state::Replicas)>,
    configured: Set<Seq<char>>,
    r: int,
    partition: Seq<char>,
    state: Seq<char>,
    name: Seq<char>,
)
    requires
        0 <= r < resources.len(),
        resources[r].1.dom().finite(),
        resources[r].1.dom().contains(partition),
        resources[r].1[partition].dom().finite(),
        snapshot::occupied(resources[r].1[partition]).contains(state),
        routing::routed(resources[r].1[partition], configured, state).contains(name),
    ensures
        snapshot::routed_instances(snapshot::routes_in(resources, configured)).contains(name),
    decreases resources.len(),
{
    let before = snapshot::routes_in(resources.drop_last(), configured);
    let partitions = ordered::in_order::<PartitionId, Map<Seq<char>, Seq<char>>>(
        resources.last().1,
    );
    let last = snapshot::resource_routes(resources.last().0, partitions, configured);
    let all = snapshot::routes_in(resources, configured);
    if r == resources.len() - 1 {
        ordered::finite_map_is_listed::<PartitionId, Map<Seq<char>, Seq<char>>>(resources[r].1);
        let p = ordered::map_of_position(partitions, partition);
        partition_is_routed(resources.last().0, partitions, configured, p, state, name);
        let k = choose|k: int| 0 <= k < last.len() && #[trigger] last[k].instances.contains(name);
        assert(all[before.len() + k].instances.contains(name));
    } else {
        assert(resources.drop_last()[r] == resources[r]);
        resource_is_routed(resources.drop_last(), configured, r, partition, state, name);
        let k = choose|k: int|
            0 <= k < before.len() && #[trigger] before[k].instances.contains(name);
        assert(all[k].instances.contains(name));
    }
}

proof fn same_members_route_alike(
    listing: Seq<(Seq<char>, Seq<char>)>,
    a: Set<Seq<char>>,
    b: Set<Seq<char>>,
    state: Seq<char>,
)
    requires
        forall|i: int|
            0 <= i < listing.len() && (#[trigger] listing[i]).1 == state ==> a.contains(
                listing[i].0,
            ) == b.contains(listing[i].0),
    ensures
        routing::routed_in(listing, a, state) == routing::routed_in(listing, b, state),
    decreases listing.len(),
{
    if listing.len() > 0 {
        assert forall|i: int|
            0 <= i < listing.drop_last().len() && (#[trigger] listing.drop_last()[i]).1
                == state implies a.contains(listing.drop_last()[i].0) == b.contains(
            listing.drop_last()[i].0,
        ) by {
            assert(listing[i] == listing.drop_last()[i]);
        }
        same_members_route_alike(listing.drop_last(), a, b, state);
        assert(listing[listing.len() - 1] == listing.last());
    }
}

/// Routing over the routed instances gives the routes of the configured
/// instances.
pub proof fn routed_instances_keep_routes(
    states: session::Resources,
    configured: Set<Seq<char>>,
    resource: Seq<char>,
    partition: Seq<char>,
    state: Seq<char>,
)
    requires
        states.dom().finite(),
        states.dom().contains(resource),
        states[resource].dom().finite(),
        states[resource].dom().contains(partition),
        states[resource][partition].dom().finite(),
    ensures
        ({
            let routed = snapshot::routed_instances(snapshot::routes(states, configured));
            (routing::RoutingView { states, configured: routed }).instances(
                resource,
                partition,
                state,
            ) == (routing::RoutingView { states, configured }).instances(resource, partition, state)
        }),
{
    let resources = ordered::in_order::<ResourceId, replica_state::Replicas>(states);
    let routed = snapshot::routed_instances(snapshot::routes(states, configured));
    let replicas = states[resource][partition];
    let listing = ordered::in_order::<InstanceId, Seq<char>>(replicas);
    ordered::finite_map_is_listed::<ResourceId, replica_state::Replicas>(states);
    ordered::finite_map_is_listed::<InstanceId, Seq<char>>(replicas);
    let r = ordered::map_of_position(resources, resource);
    routes_within(resources, configured);
    assert forall|i: int|
        0 <= i < listing.len() && (#[trigger] listing[i]).1 == state implies routed.contains(
        listing[i].0,
    ) == configured.contains(listing[i].0) by {
        let name = listing[i].0;
        if routed.contains(name) {
            let all = snapshot::routes(states, configured);
            let k = choose|k: int| 0 <= k < all.len() && #[trigger] all[k].instances.contains(name);
            assert(configured.contains(name));
        }
        if configured.contains(name) {
            ordered::map_of_at::<InstanceId, Seq<char>>(listing, i);
            assert(replicas.dom().contains(name) && replicas[name] == state);
            assert(listing[i] == (name, state));
            routing::routing_is_exact(listing, configured, state, name);
            resource_is_routed(resources, configured, r, partition, state, name);
        }
    }
    same_members_route_alike(listing, routed, configured, state);
}

} // verus!
