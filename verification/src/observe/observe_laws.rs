//! What holds of observations and of waiting for them.
use crate::controller::published;
use crate::controller::records::DecodedView;
use crate::coordination::etcd::error::CoordinationFault;
use crate::coordination::etcd::keys;
use crate::coordination::etcd::snapshot as namespace;
use crate::coordination::etcd::watch;
use crate::model::replica_state;
use crate::model::session;
use crate::model::{InstanceId, PartitionId, ResourceId, State};
use crate::observe::routing_laws;
use crate::observe::snapshot;
use crate::observe::snapshot::{ClusterView, Route};
use crate::observe::view;
use crate::observe::wait;
use crate::observe::wait::WaitView;
use crate::ordered;
use crate::routing;
use crate::text;
use vstd::prelude::*;

verus! {

/// The sequence holds exactly the configured instances whose replica is in the
/// state, each once and in order.
pub open spec fn routes_to(
    out: Seq<Seq<char>>,
    replicas: Map<Seq<char>, Seq<char>>,
    configured: Set<Seq<char>>,
    state: Seq<char>,
) -> bool {
    &&& forall|i: Seq<char>| #[trigger]
        out.contains(i) <==> replicas.dom().contains(i) && replicas[i] == state
            && configured.contains(i)
    &&& forall|a: int, b: int|
        0 <= a < b < out.len() ==> text::text_before(#[trigger] out[a], #[trigger] out[b])
}

proof fn routed_in_order(
    listing: Seq<(Seq<char>, Seq<char>)>,
    configured: Set<Seq<char>>,
    state: Seq<char>,
)
    requires
        forall|a: int, b: int|
            0 <= a < b < listing.len() ==> text::text_before(
                (#[trigger] listing[a]).0,
                (#[trigger] listing[b]).0,
            ),
    ensures
        ({
            let out = routing::routed_in(listing, configured, state);
            &&& forall|a: int, b: int|
                0 <= a < b < out.len() ==> text::text_before(#[trigger] out[a], #[trigger] out[b])
            &&& forall|a: int|
                0 <= a < out.len() ==> exists|k: int|
                    0 <= k < listing.len() && (#[trigger] listing[k]).0 == #[trigger] out[a]
        }),
    decreases listing.len(),
{
    if listing.len() > 0 {
        let rest = listing.drop_last();
        let n = listing.len() - 1;
        assert forall|a: int, b: int| 0 <= a < b < rest.len() implies text::text_before(
            (#[trigger] rest[a]).0,
            (#[trigger] rest[b]).0,
        ) by {
            assert(rest[a] == listing[a] && rest[b] == listing[b]);
        }
        routed_in_order(rest, configured, state);
        let before = routing::routed_in(rest, configured, state);
        let out = routing::routed_in(listing, configured, state);
        assert forall|a: int| 0 <= a < before.len() implies text::text_before(
            #[trigger] before[a],
            listing[n].0,
        ) by {
            let k = choose|k: int|
                0 <= k < rest.len() && (#[trigger] rest[k]).0 == #[trigger] before[a];
            assert(listing[k] == rest[k]);
        }
        assert forall|a: int| 0 <= a < out.len() implies exists|k: int|
            0 <= k < listing.len() && (#[trigger] listing[k]).0 == #[trigger] out[a] by {
            if a < before.len() {
                assert(out[a] == before[a]);
                let k = choose|k: int|
                    0 <= k < rest.len() && (#[trigger] rest[k]).0 == #[trigger] before[a];
                assert(listing[k] == rest[k]);
                assert(listing[k].0 == out[a]);
            } else {
                assert(listing[n].0 == out[a]);
            }
        }
        assert forall|a: int, b: int| 0 <= a < b < out.len() implies text::text_before(
            #[trigger] out[a],
            #[trigger] out[b],
        ) by {
            assert(out[a] == before[a]);
            if b < before.len() {
                assert(out[b] == before[b]);
            }
        }
    }
}

/// Routing finds exactly the configured instances whose replica of a partition
/// is in a state, in order.
pub proof fn states_are_routed_to(
    replicas: Map<Seq<char>, Seq<char>>,
    configured: Set<Seq<char>>,
    state: Seq<char>,
)
    requires
        replicas.dom().finite(),
    ensures
        routes_to(routing::routed(replicas, configured, state), replicas, configured, state),
{
    let listing = ordered::in_order::<InstanceId, Seq<char>>(replicas);
    ordered::finite_map_is_listed::<InstanceId, Seq<char>>(replicas);
    routed_in_order(listing, configured, state);
    let out = routing::routed(replicas, configured, state);
    assert forall|i: Seq<char>| #[trigger] out.contains(i) <==> replicas.dom().contains(i)
        && replicas[i] == state && configured.contains(i) by {
        routing::routing_is_exact(listing, configured, state, i);
        if exists|k: int| 0 <= k < listing.len() && #[trigger] listing[k] == (i, state) {
            let k = choose|k: int| 0 <= k < listing.len() && #[trigger] listing[k] == (i, state);
            ordered::map_of_at::<InstanceId, Seq<char>>(listing, k);
        }
        if replicas.dom().contains(i) && replicas[i] == state {
            let k = ordered::map_of_position(listing, i);
            assert(listing[k] == (i, state));
        }
    }
}

/// A table routes a partition to the instances of a state, and routes nothing
/// of a resource or a partition that it does not know.
pub proof fn tables_route_what_they_know(
    v: routing::RoutingView,
    resource: Seq<char>,
    partition: Seq<char>,
    state: Seq<char>,
)
    requires
        v.states.dom().contains(resource) && v.states[resource].dom().contains(partition)
            ==> v.states[resource][partition].dom().finite(),
    ensures
        v.states.dom().contains(resource) && v.states[resource].dom().contains(partition)
            ==> routes_to(
            v.instances(resource, partition, state),
            v.states[resource][partition],
            v.configured,
            state,
        ),
        !(v.states.dom().contains(resource) && v.states[resource].dom().contains(partition))
            ==> v.instances(resource, partition, state).len() == 0,
{
    if v.states.dom().contains(resource) {
        if v.states[resource].dom().contains(partition) {
            states_are_routed_to(v.states[resource][partition], v.configured, state);
        } else {
            let none = Map::<Seq<char>, Seq<char>>::empty();
            states_are_routed_to(none, v.configured, state);
            let out = routing::routed(none, v.configured, state);
            if out.len() > 0 {
                assert(out.contains(out[0]));
            }
        }
    }
}

/// The route is that of a replica's state.
pub open spec fn right(
    x: Route,
    resource: Seq<char>,
    partition: Seq<char>,
    replicas: Map<Seq<char>, Seq<char>>,
    configured: Set<Seq<char>>,
) -> bool {
    &&& x.resource == resource
    &&& x.partition == partition
    &&& exists|i: Seq<char>| #[trigger] replicas.dom().contains(i) && replicas[i] == x.state
    &&& routes_to(x.instances, replicas, configured, x.state)
}

proof fn partition_is_right(
    resource: Seq<char>,
    partition: Seq<char>,
    replicas: Map<Seq<char>, Seq<char>>,
    configured: Set<Seq<char>>,
)
    requires
        replicas.dom().finite(),
    ensures
        ({
            let out = snapshot::partition_routes(resource, partition, replicas, configured);
            &&& forall|k: int|
                0 <= k < out.len() ==> right(
                    #[trigger] out[k],
                    resource,
                    partition,
                    replicas,
                    configured,
                )
            &&& forall|i: Seq<char>| #[trigger]
                replicas.dom().contains(i) ==> exists|k: int|
                    0 <= k < out.len() && (#[trigger] out[k]).state == replicas[i]
        }),
{
    let out = snapshot::partition_routes(resource, partition, replicas, configured);
    let taken = snapshot::occupied(replicas);
    routing_laws::occupied_is_finite(replicas);
    let all = ordered::members_in_order::<State>(taken);
    ordered::members_are_counted::<State>(taken);
    assert forall|k: int| 0 <= k < out.len() implies right(
        #[trigger] out[k],
        resource,
        partition,
        replicas,
        configured,
    ) by {
        assert(all.to_set().contains(all[k]));
        states_are_routed_to(replicas, configured, all[k]);
    }
    assert forall|i: Seq<char>| #[trigger] replicas.dom().contains(i) implies exists|k: int|
        0 <= k < out.len() && (#[trigger] out[k]).state == replicas[i] by {
        assert(taken.contains(replicas[i]));
        assert(all.to_set().contains(replicas[i]));
        let k = all.index_of(replicas[i]);
        assert(out[k].state == replicas[i]);
    }
}

proof fn partitions_are_right(
    resource: Seq<char>,
    partitions: Seq<(Seq<char>, Map<Seq<char>, Seq<char>>)>,
    configured: Set<Seq<char>>,
)
    requires
        forall|a: int| 0 <= a < partitions.len() ==> (#[trigger] partitions[a]).1.dom().finite(),
    ensures
        ({
            let out = snapshot::resource_routes(resource, partitions, configured);
            &&& forall|k: int|
                0 <= k < out.len() ==> some_right(
                    #[trigger] out[k],
                    resource,
                    partitions,
                    configured,
                )
            &&& forall|a: int, i: Seq<char>|
                0 <= a < partitions.len() && #[trigger] partitions[a].1.dom().contains(i)
                    ==> has_route(out, resource, partitions[a].0, partitions[a].1[i])
        }),
    decreases partitions.len(),
{
    if partitions.len() > 0 {
        let rest = partitions.drop_last();
        let n = partitions.len() - 1;
        assert forall|a: int| 0 <= a < rest.len() implies (#[trigger] rest[a]).1.dom().finite() by {
            assert(rest[a] == partitions[a]);
        }
        partitions_are_right(resource, rest, configured);
        let (p, replicas) = partitions[n];
        partition_is_right(resource, p, replicas, configured);
        let before = snapshot::resource_routes(resource, rest, configured);
        let last = snapshot::partition_routes(resource, p, replicas, configured);
        let out = snapshot::resource_routes(resource, partitions, configured);
        assert(out == before + last);
        assert forall|k: int| 0 <= k < out.len() implies some_right(
            #[trigger] out[k],
            resource,
            partitions,
            configured,
        ) by {
            if k < before.len() {
                assert(out[k] == before[k]);
                let a = choose|a: int|
                    0 <= a < rest.len() && right(
                        before[k],
                        resource,
                        (#[trigger] rest[a]).0,
                        rest[a].1,
                        configured,
                    );
                assert(partitions[a] == rest[a]);
                assert(right(out[k], resource, partitions[a].0, partitions[a].1, configured));
            } else {
                assert(out[k] == last[k - before.len()]);
                assert(right(out[k], resource, partitions[n].0, partitions[n].1, configured));
            }
        }
        assert forall|a: int, i: Seq<char>|
            0 <= a < partitions.len() && #[trigger] partitions[a].1.dom().contains(
                i,
            ) implies has_route(out, resource, partitions[a].0, partitions[a].1[i]) by {
            if a < n {
                assert(rest[a].1.dom().contains(i));
                let k = choose|k: int|
                    0 <= k < before.len() && is_route(
                        #[trigger] before[k],
                        resource,
                        rest[a].0,
                        rest[a].1[i],
                    );
                assert(out[k] == before[k]);
                assert(is_route(out[k], resource, partitions[a].0, partitions[a].1[i]));
            } else {
                let k = choose|k: int| 0 <= k < last.len() && (#[trigger] last[k]).state == replicas[i];
                assert(right(last[k], resource, p, replicas, configured));
                assert(out[before.len() + k] == last[k]);
                assert(is_route(out[before.len() + k], resource, p, replicas[i]));
            }
        }
    }
}

/// The route is that of some partition.
pub open spec fn some_right(
    x: Route,
    resource: Seq<char>,
    partitions: Seq<(Seq<char>, Map<Seq<char>, Seq<char>>)>,
    configured: Set<Seq<char>>,
) -> bool {
    exists|a: int|
        0 <= a < partitions.len() && right(
            x,
            resource,
            (#[trigger] partitions[a]).0,
            partitions[a].1,
            configured,
        )
}

/// The route is for the state of a partition.
pub open spec fn is_route(
    x: Route,
    resource: Seq<char>,
    partition: Seq<char>,
    state: Seq<char>,
) -> bool {
    x.resource == resource && x.partition == partition && x.state == state
}

/// There is a route for the state of a partition.
pub open spec fn has_route(
    out: Seq<Route>,
    resource: Seq<char>,
    partition: Seq<char>,
    state: Seq<char>,
) -> bool {
    exists|k: int| 0 <= k < out.len() && is_route(#[trigger] out[k], resource, partition, state)
}

/// The route is that of some partition of the view.
pub open spec fn right_in(x: Route, view: session::Resources, configured: Set<Seq<char>>) -> bool {
    view.dom().contains(x.resource) && view[x.resource].dom().contains(x.partition) && right(
        x,
        x.resource,
        x.partition,
        view[x.resource][x.partition],
        configured,
    )
}

proof fn resources_are_right(
    resources: Seq<(Seq<char>, replica_state::Replicas)>,
    view: session::Resources,
    configured: Set<Seq<char>>,
)
    requires
        forall|a: int|
            0 <= a < resources.len() ==> replica_state::finite((#[trigger] resources[a]).1)
                && view.dom().contains(resources[a].0) && view[resources[a].0] == resources[a].1,
    ensures
        ({
            let out = snapshot::routes_in(resources, configured);
            &&& forall|k: int|
                0 <= k < out.len() ==> right_in(#[trigger] out[k], view, configured)
            &&& forall|a: int, p: Seq<char>, i: Seq<char>|
                0 <= a < resources.len() && resources[a].1.dom().contains(p)
                    && #[trigger] resources[a].1[p].dom().contains(i) ==> has_route(
                    out,
                    resources[a].0,
                    p,
                    resources[a].1[p][i],
                )
        }),
    decreases resources.len(),
{
    if resources.len() > 0 {
        let rest = resources.drop_last();
        let n = resources.len() - 1;
        assert forall|a: int| 0 <= a < rest.len() implies replica_state::finite(
            (#[trigger] rest[a]).1,
        ) && view.dom().contains(rest[a].0) && view[rest[a].0] == rest[a].1 by {
            assert(rest[a] == resources[a]);
        }
        resources_are_right(rest, view, configured);
        let (r, replicas) = resources[n];
        let rows = ordered::in_order::<PartitionId, Map<Seq<char>, Seq<char>>>(replicas);
        ordered::finite_map_is_listed::<PartitionId, Map<Seq<char>, Seq<char>>>(replicas);
        assert forall|a: int| 0 <= a < rows.len() implies (#[trigger] rows[a]).1.dom().finite()
            && replicas.dom().contains(rows[a].0) && replicas[rows[a].0] == rows[a].1 by {
            ordered::map_of_at::<PartitionId, Map<Seq<char>, Seq<char>>>(rows, a);
        }
        partitions_are_right(r, rows, configured);
        let before = snapshot::routes_in(rest, configured);
        let last = snapshot::resource_routes(r, rows, configured);
        let out = snapshot::routes_in(resources, configured);
        assert(out == before + last);
        assert forall|k: int| 0 <= k < out.len() implies right_in(
            #[trigger] out[k],
            view,
            configured,
        ) by {
            if k < before.len() {
                assert(out[k] == before[k]);
            } else {
                let x = last[k - before.len()];
                assert(out[k] == x);
                assert(some_right(x, r, rows, configured));
                let a = choose|a: int|
                    0 <= a < rows.len() && right(
                        x,
                        r,
                        (#[trigger] rows[a]).0,
                        rows[a].1,
                        configured,
                    );
                assert(replicas.dom().contains(rows[a].0));
            }
        }
        assert forall|a: int, p: Seq<char>, i: Seq<char>|
            0 <= a < resources.len() && resources[a].1.dom().contains(p)
                && #[trigger] resources[a].1[p].dom().contains(i) implies has_route(
            out,
            resources[a].0,
            p,
            resources[a].1[p][i],
        ) by {
            if a < n {
                assert(rest[a] == resources[a]);
                assert(rest[a].1[p].dom().contains(i));
                let k = choose|k: int|
                    0 <= k < before.len() && is_route(
                        #[trigger] before[k],
                        rest[a].0,
                        p,
                        rest[a].1[p][i],
                    );
                assert(out[k] == before[k]);
                assert(is_route(out[k], resources[a].0, p, resources[a].1[p][i]));
            } else {
                let b = ordered::map_of_position(rows, p);
                assert(rows[b].1.dom().contains(i));
                let k = choose|k: int|
                    0 <= k < last.len() && is_route(#[trigger] last[k], r, p, rows[b].1[i]);
                assert(out[before.len() + k] == last[k]);
                assert(is_route(out[before.len() + k], r, p, replicas[p][i]));
            }
        }
    }
}

/// The routes of a view: one for every state that a replica of a partition is
/// in, to the configured instances of that state, and no other.
pub proof fn every_state_has_a_route(
    view: session::Resources,
    configured: Set<Seq<char>>,
    resource: Seq<char>,
    partition: Seq<char>,
    instance: Seq<char>,
)
    requires
        view.dom().finite(),
        forall|r: Seq<char>| #[trigger]
            view.dom().contains(r) ==> replica_state::finite(view[r]),
    ensures
        forall|k: int|
            0 <= k < snapshot::routes(view, configured).len() ==> right_in(
                #[trigger] snapshot::routes(view, configured)[k],
                view,
                configured,
            ),
        view.dom().contains(resource) && view[resource].dom().contains(partition)
            && view[resource][partition].dom().contains(instance) ==> has_route(
            snapshot::routes(view, configured),
            resource,
            partition,
            view[resource][partition][instance],
        ),
{
    let listing = ordered::in_order::<ResourceId, replica_state::Replicas>(view);
    ordered::finite_map_is_listed::<ResourceId, replica_state::Replicas>(view);
    assert forall|a: int| 0 <= a < listing.len() implies replica_state::finite(
        (#[trigger] listing[a]).1,
    ) && view.dom().contains(listing[a].0) && view[listing[a].0] == listing[a].1 by {
        ordered::map_of_at::<ResourceId, replica_state::Replicas>(listing, a);
    }
    resources_are_right(listing, view, configured);
    if view.dom().contains(resource) && view[resource].dom().contains(partition)
        && view[resource][partition].dom().contains(instance) {
        let a = ordered::map_of_position(listing, resource);
        assert(listing[a].1[partition].dom().contains(instance));
    }
}

/// The name is another.
pub open spec fn other_name(name: Option<Seq<char>>) -> spec_fn(Seq<char>) -> bool {
    |n: Seq<char>| name != Some(n)
}

proof fn others_are_left(names: Seq<Seq<char>>, name: Option<Seq<char>>)
    ensures
        snapshot::without(names, name) == names.filter(other_name(name)),
    decreases names.len(),
{
    reveal(Seq::filter);
    if names.len() > 0 {
        others_are_left(names.drop_last(), name);
    }
}

/// The standby controllers are the candidates but for the active one, in order.
pub proof fn candidates_stand_by(election: namespace::ElectionView, name: Seq<char>)
    requires
        election.candidates.dom().finite(),
    ensures
        snapshot::standby_in(election).contains(name) <==> election.candidates.dom().contains(name)
            && !(election.active is Some && election.active.unwrap().0 == name),
        snapshot::active_in(election) is None <==> election.active is None,
        election.active is Some ==> snapshot::active_in(election) == Some(
            election.active.unwrap().0,
        ),
{
    let listing = ordered::in_order::<String, i64>(election.candidates);
    ordered::finite_map_is_listed::<String, i64>(election.candidates);
    let names = ordered::keys_in_order::<String, i64>(election.candidates);
    let active = snapshot::active_in(election);
    others_are_left(names, active);
    let f = other_name(active);
    if names.filter(f).contains(name) {
        names.lemma_filter_contains_rev(f, name);
        names.lemma_filter_pred(f, names.filter(f).index_of(name));
        let k = names.index_of(name);
        ordered::map_of_at::<String, i64>(listing, k);
    }
    if election.candidates.dom().contains(name) && f(name) {
        let k = ordered::map_of_position(listing, name);
        assert(names[k] == name);
        names.lemma_filter_contains(f, k);
    }
}

/// A participant's own replica is shown in the state that it reports, under its
/// session.
pub proof fn own_states_are_shown(
    active: Map<Seq<char>, (u64, session::Resources)>,
    instance: Seq<char>,
    resource: Seq<char>,
    partition: Seq<char>,
    state: Seq<char>,
)
    requires
        active.dom().contains(instance),
        active[instance].1.dom().contains(resource),
        active[instance].1[resource].dom().contains(partition),
        active[instance].1[resource][partition] == map![instance => state],
    ensures
        ({
            let shown = snapshot::states_in(active);
            &&& shown.dom().contains(instance)
            &&& shown[instance].session == active[instance].0
            &&& shown[instance].resources.dom().contains(resource)
            &&& shown[instance].resources[resource].dom().contains(partition)
            &&& shown[instance].resources[resource][partition] == state
        }),
{
    let m = active[instance].1[resource][partition];
    let listing = ordered::in_order::<InstanceId, Seq<char>>(m);
    assert(m.dom() =~= set![instance]);
    ordered::finite_map_is_listed::<InstanceId, Seq<char>>(m);
    let k = ordered::map_of_position(listing, instance);
    let n = listing.len() - 1;
    ordered::map_of_at::<InstanceId, Seq<char>>(listing, n);
}

/// The metadata holds the text.
pub open spec fn metadata_text(v: namespace::CoordinationView, key: Seq<char>) -> Option<Seq<char>> {
    if v.metadata.dom().contains(key) {
        v.metadata[key].value
    } else {
        None
    }
}

/// An observation shows the revision and the input of the snapshot, the
/// processed revision that is published, the active controller and the standby
/// ones, the live sessions and what they report, the published queue, and the
/// routes of the published view over the configured instances.
pub proof fn observations_show_the_snapshot(
    v: namespace::CoordinationView,
    queue: DecodedView<Seq<published::PublishedView>>,
    configs: DecodedView<Seq<Seq<char>>>,
    c: ClusterView,
)
    requires
        snapshot::observation(v, queue, configs) == Ok::<ClusterView, CoordinationFault>(c),
    ensures
        c.observer == v.revision,
        c.authoritative == v.authoritative,
        metadata_text(v, "controller/output/processed-revision"@) is None ==> c.processed is None,
        metadata_text(v, "controller/output/processed-revision"@) matches Some(value)
            ==> c.processed matches Some(n) && n > 0 && text::signed_number(value) == Some(n as int),
        c.active == if v.election.active is Some {
            seq![v.election.active.unwrap().0]
        } else {
            Seq::empty()
        },
        c.standby == snapshot::standby_in(v.election),
        forall|i: Seq<char>| #[trigger]
            c.live.dom().contains(i) <==> v.participants.live.dom().contains(i),
        forall|i: Seq<char>| #[trigger]
            c.live.dom().contains(i) ==> c.live[i] == v.participants.live[i].1,
        c.states == snapshot::states_in(v.participants.active),
        queue is Missing ==> c.pending.len() == 0,
        queue matches DecodedView::Value(messages) ==> c.pending == messages,
        !(queue is Malformed) && !(configs is Malformed),
        configs matches DecodedView::Value(names) ==> !names.contains(Seq::empty()),
        exists|shown: session::Resources, configured: Set<Seq<char>>|
            c.routes == #[trigger] snapshot::routes(shown, configured)
                && view::resources_in(c.external->0) == Ok::<
                session::Resources,
                CoordinationFault,
            >(shown) && forall|name: Seq<char>| #[trigger]
                configured.contains(name) <==> (configs matches DecodedView::Value(names)
                    && names.contains(name)),
{
    let shown = view::resources_in(c.external->0)->Ok_0;
    let configured = snapshot::configured_in(configs)->Ok_0;
    assert(c.routes == snapshot::routes(shown, configured));
}

/// A cluster is idle where no message is pending and all of its input is
/// processed, and has a controller where one is active.
pub proof fn idle_clusters_have_processed_everything(c: ClusterView, floor: i64)
    ensures
        c.is_idle() <==> c.pending.len() == 0 && c.processed is Some && c.processed->0
            >= c.authoritative,
        c.has_controller() <==> c.active.len() > 0,
        c.at_least(floor).authoritative >= floor,
        c.at_least(floor).authoritative >= c.authoritative,
        c.at_least(floor).authoritative == floor || c.at_least(floor).authoritative
            == c.authoritative,
        c.at_least(floor) == (ClusterView { authoritative: c.at_least(floor).authoritative, ..c }),
{
}

/// A wait begins at the input of its first observation and has caught up once
/// it has seen the revision of that. Only the end of a lease raises the input
/// by itself, and a new observation does.
pub proof fn waits_follow_the_input(v: WaitView, event: watch::EventView, c: ClusterView)
    ensures
        ({
            let first = WaitView::begin(c);
            let seen = v.watched(event);
            let again = v.replaced(c);
            let expired = event.kind is Delete && ("live/"@.is_prefix_of(event.key)
                || "current-state/"@.is_prefix_of(event.key));
            &&& first.floor == c.authoritative && first.catch_up == c.observer
            &&& first.caught_up <==> c.authoritative >= c.observer
            &&& seen.catch_up == v.catch_up && again.catch_up == v.catch_up
            &&& !expired ==> seen.floor == v.floor
            &&& expired ==> seen.floor >= v.floor && seen.floor >= event.revision && (seen.floor
                == v.floor || seen.floor == event.revision)
            &&& seen.caught_up <==> v.caught_up || event.revision >= v.catch_up
            &&& again.caught_up
            &&& again.floor >= v.floor && again.floor >= c.authoritative && (again.floor == v.floor
                || again.floor == c.authoritative)
        }),
{
}

/// The records of a session are those under its number.
pub proof fn session_records_are_named(prefix: Seq<char>, instance: Seq<char>, number: u64)
    ensures
        instance.len() > 0 ==> wait::session_records(prefix, instance, text::decimal(number as nat))
            == Ok::<Seq<char>, CoordinationFault>(
            keys::current_state_prefix_at(prefix, instance, number),
        ),
        instance.len() == 0 ==> wait::session_records(prefix, instance, text::decimal(number as nat))
            == Err::<Seq<char>, CoordinationFault>(CoordinationFault::InvalidKey),
{
    text::decimal_round_trip(number as nat);
}

/// An observation is refused where the queue or the configuration cannot be
/// read, where an instance has no name, or where the processed revision is no
/// positive number.
pub proof fn unreadable_observations(
    v: namespace::CoordinationView,
    queue: DecodedView<Seq<published::PublishedView>>,
    configs: DecodedView<Seq<Seq<char>>>,
)
    ensures
        queue is Malformed || configs is Malformed || (configs matches DecodedView::Value(names)
            && names.contains(Seq::empty())) ==> snapshot::observation(v, queue, configs) is Err,
        metadata_text(v, "controller/output/processed-revision"@) matches Some(value) && !(
        text::signed_number(value) matches Some(n) && 0 < n <= i64::MAX) ==> snapshot::observation(
            v,
            queue,
            configs,
        ) is Err,
{
}

} // verus!
