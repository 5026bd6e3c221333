//! Observed states as the controller plans with them.
use crate::model::replica_state;
use crate::model::session;
use crate::model::{
    ActiveCurrentState, CurrentState, InstanceId, PartitionId, ResourceId, State,
};
use crate::ordered::{self, Duplicate, OrderedMap, OrderedSet};
use vstd::prelude::*;

verus! {

/// A replica with its state.
pub type Cell = (Seq<char>, Seq<char>, Seq<char>);

/// `m` after the listed replicas of the kept instances were put into it.
pub open spec fn put_cells(
    m: replica_state::Replicas,
    cells: Seq<Cell>,
    keep: Set<Seq<char>>,
) -> replica_state::Replicas
    decreases cells.len(),
{
    if cells.len() == 0 {
        m
    } else {
        let before = put_cells(m, cells.drop_last(), keep);
        let cell = cells.last();
        if keep.contains(cell.1) {
            replica_state::placed(before, cell.0, cell.1, cell.2)
        } else {
            before
        }
    }
}

/// The observed replicas of a resource.
pub open spec fn replicas_of(m: session::Resources, resource: Seq<char>) -> replica_state::Replicas {
    if m.dom().contains(resource) {
        m[resource]
    } else {
        Map::empty()
    }
}

/// `m` after the listed resources were put into it.
pub open spec fn put_resources(
    m: session::Resources,
    listing: Seq<(Seq<char>, replica_state::Replicas)>,
    keep: Set<Seq<char>>,
) -> session::Resources
    decreases listing.len(),
{
    if listing.len() == 0 {
        m
    } else {
        let before = put_resources(m, listing.drop_last(), keep);
        let (resource, replicas) = listing.last();
        before.insert(
            resource,
            put_cells(
                replicas_of(before, resource),
                replica_state::cells(replicas),
                keep,
            ),
        )
    }
}

/// The states that the listed participants report, of the kept instances.
pub open spec fn put_active(
    listing: Seq<(Seq<char>, (u64, session::Resources))>,
    keep: Set<Seq<char>>,
) -> session::Resources
    decreases listing.len(),
{
    if listing.len() == 0 {
        Map::empty()
    } else {
        put_resources(
            put_active(listing.drop_last(), keep),
            ordered::in_order::<ResourceId, replica_state::Replicas>(listing.last().1.1),
            keep,
        )
    }
}

/// The observed states of the configured, live instances.
pub open spec fn observed(
    active: Map<Seq<char>, (u64, session::Resources)>,
    zones: Map<Seq<char>, Seq<char>>,
    live: Set<Seq<char>>,
) -> session::Resources {
    put_active(
        ordered::in_order::<InstanceId, (u64, session::Resources)>(active),
        zones.dom().intersect(live),
    )
}

/// Only replicas of kept instances get in.
pub proof fn put_cells_keeps(
    m: replica_state::Replicas,
    cells: Seq<Cell>,
    keep: Set<Seq<char>>,
    p: Seq<char>,
    i: Seq<char>,
)
    ensures
        !keep.contains(i) ==> replica_state::state_of(put_cells(m, cells, keep), p, i)
            == replica_state::state_of(m, p, i),
    decreases cells.len(),
{
    if cells.len() > 0 {
        put_cells_keeps(m, cells.drop_last(), keep, p, i);
        let before = put_cells(m, cells.drop_last(), keep);
        let cell = cells.last();
        if keep.contains(cell.1) && !keep.contains(i) {
            replica_state::placing_changes_one_replica(before, cell.0, cell.1, cell.2, p, i);
        }
    }
}

proof fn put_resources_keeps(
    m: session::Resources,
    listing: Seq<(Seq<char>, replica_state::Replicas)>,
    keep: Set<Seq<char>>,
    r: Seq<char>,
    p: Seq<char>,
    i: Seq<char>,
)
    requires
        !keep.contains(i),
        replica_state::state_of(replicas_of(m, r), p, i) is None,
    ensures
        replica_state::state_of(replicas_of(put_resources(m, listing, keep), r), p, i) is None,
    decreases listing.len(),
{
    if listing.len() > 0 {
        put_resources_keeps(m, listing.drop_last(), keep, r, p, i);
        let before = put_resources(m, listing.drop_last(), keep);
        put_cells_keeps(
            replicas_of(before, listing.last().0),
            replica_state::cells(listing.last().1),
            keep,
            p,
            i,
        );
    }
}

proof fn put_active_keeps(
    listing: Seq<(Seq<char>, (u64, session::Resources))>,
    keep: Set<Seq<char>>,
    r: Seq<char>,
    p: Seq<char>,
    i: Seq<char>,
)
    requires
        !keep.contains(i),
    ensures
        replica_state::state_of(replicas_of(put_active(listing, keep), r), p, i) is None,
    decreases listing.len(),
{
    if listing.len() > 0 {
        put_active_keeps(listing.drop_last(), keep, r, p, i);
        put_resources_keeps(
            put_active(listing.drop_last(), keep),
            ordered::in_order::<ResourceId, replica_state::Replicas>(listing.last().1.1),
            keep,
            r,
            p,
            i,
        );
    }
}

/// The controller observes only instances that are both configured and live.
pub proof fn only_configured_live_instances_are_observed(
    active: Map<Seq<char>, (u64, session::Resources)>,
    zones: Map<Seq<char>, Seq<char>>,
    live: Set<Seq<char>>,
    resource: Seq<char>,
    partition: Seq<char>,
    instance: Seq<char>,
)
    requires
        replica_state::state_of(
            replicas_of(observed(active, zones, live), resource),
            partition,
            instance,
        ) is Some,
    ensures
        zones.dom().contains(instance),
        live.contains(instance),
{
    let keep = zones.dom().intersect(live);
    if !keep.contains(instance) {
        put_active_keeps(
            ordered::in_order::<InstanceId, (u64, session::Resources)>(active),
            keep,
            resource,
            partition,
            instance,
        );
    }
}

/// Put replicas into a state map. An instance that is not configured, where
/// only configured ones count, or not live stays out.
fn put_replicas(
    m: CurrentState,
    replicas: &CurrentState,
    zones: Option<&OrderedMap<InstanceId, String>>,
    live: &OrderedSet<InstanceId>,
    Ghost(keep): Ghost<Set<Seq<char>>>,
) -> (r: CurrentState)
    requires
        keep == match zones {
            Some(zones) => zones@.dom().intersect(live@),
            None => live@,
        },
    ensures
        r@ == put_cells(m@, replica_state::cells(replicas@), keep),
{
    let cells = replica_state::replica_cells(replicas.entries());
    let ghost all = cells.deep_view();
    let mut out = m;
    let ghost start = m@;
    let mut i: usize = 0;
    assert(all.take(0) =~= Seq::empty());
    while i < cells.len()
        invariant
            i <= cells@.len(),
            all == cells.deep_view(),
            out@ == put_cells(start, all.take(i as int), keep),
            keep == match zones {
                Some(zones) => zones@.dom().intersect(live@),
                None => live@,
            },
        decreases cells@.len() - i,
    {
        proof {
            assert(all.take(i + 1).drop_last() =~= all.take(i as int));
            assert(all.take(i + 1).last() == cells@[i as int].deep_view());
        }
        let cell = &cells[i];
        let configured = match zones {
            Some(zones) => zones.contains_key(&cell.instance),
            None => true,
        };
        if configured && live.contains(&cell.instance) {
            out = out.with_state(
                cell.partition.duplicate(),
                cell.instance.duplicate(),
                cell.state.duplicate(),
            );
        }
        i = i + 1;
    }
    assert(all.take(cells@.len() as int) =~= all);
    out
}

/// The observed states of the configured, live instances.
pub fn active_current_state(
    active: &OrderedMap<InstanceId, ActiveCurrentState>,
    zones: &OrderedMap<InstanceId, String>,
    live: &OrderedSet<InstanceId>,
) -> (r: OrderedMap<ResourceId, CurrentState>)
    ensures
        r@ == observed(active@, zones@, live@),
{
    let ghost all = active.listing();
    let ghost keep = zones@.dom().intersect(live@);
    let mut out: OrderedMap<ResourceId, CurrentState> = OrderedMap::new();
    let n: usize = active.len();
    let mut i: usize = 0;
    assert(all.take(0) =~= Seq::empty());
    while i < n
        invariant
            i <= n,
            n == all.len(),
            all == active.listing(),
            keep == zones@.dom().intersect(live@),
            out@ == put_active(all.take(i as int), keep),
        decreases n - i,
    {
        proof {
            assert(all.take(i + 1).drop_last() =~= all.take(i as int));
            assert(all.take(i + 1).last() == all[i as int]);
        }
        let resources = active.value_at(i).resources();
        let ghost listed = resources.listing();
        let ghost start = out@;
        let m: usize = resources.len();
        let mut j: usize = 0;
        assert(listed.take(0) =~= Seq::empty());
        while j < m
            invariant
                j <= m,
                m == listed.len(),
                listed == resources.listing(),
                keep == zones@.dom().intersect(live@),
                out@ == put_resources(start, listed.take(j as int), keep),
            decreases m - j,
        {
            proof {
                assert(listed.take(j + 1).drop_last() =~= listed.take(j as int));
                assert(listed.take(j + 1).last() == listed[j as int]);
            }
            let resource = resources.key_at(j).duplicate();
            let ghost before = out@;
            let found = match out.remove(&resource) {
                Some(found) => found,
                None => CurrentState::default(),
            };
            assert(found@ == replicas_of(before, resource@));
            let merged = put_replicas(
                found,
                resources.value_at(j),
                Some(zones),
                live,
                Ghost(keep),
            );
            out.insert(resource, merged);
            assert(out@ =~= before.insert(resource@, merged@));
            j = j + 1;
        }
        assert(listed.take(m as int) =~= listed);
        i = i + 1;
    }
    assert(all.take(n as int) =~= all);
    out
}

/// `m` with the initial state for each live instance of a preference list that
/// has no observed state.
pub open spec fn seeded_list(
    m: replica_state::Replicas,
    actual: replica_state::Replicas,
    partition: Seq<char>,
    list: Seq<Seq<char>>,
    live: Set<Seq<char>>,
    initial: Seq<char>,
) -> replica_state::Replicas
    decreases list.len(),
{
    if list.len() == 0 {
        m
    } else {
        let before = seeded_list(m, actual, partition, list.drop_last(), live, initial);
        if live.contains(list.last()) && replica_state::state_of(
            actual,
            partition,
            list.last(),
        ) is None {
            replica_state::placed(before, partition, list.last(), initial)
        } else {
            before
        }
    }
}

/// `m` with the initial state for each wanted replica that is not observed.
pub open spec fn seeded(
    m: replica_state::Replicas,
    actual: replica_state::Replicas,
    listing: Seq<(Seq<char>, Seq<Seq<char>>)>,
    live: Set<Seq<char>>,
    initial: Seq<char>,
) -> replica_state::Replicas
    decreases listing.len(),
{
    if listing.len() == 0 {
        m
    } else {
        seeded_list(
            seeded(m, actual, listing.drop_last(), live, initial),
            actual,
            listing.last().0,
            listing.last().1,
            live,
            initial,
        )
    }
}

/// The states to plan with: what is observed of live instances, and the
/// initial state for each live instance of a preference list that is not
/// observed.
pub open spec fn normalized(
    actual: replica_state::Replicas,
    lists: Map<Seq<char>, Seq<Seq<char>>>,
    live: Set<Seq<char>>,
    initial: Seq<char>,
) -> replica_state::Replicas {
    seeded(
        put_cells(Map::empty(), replica_state::cells(actual), live),
        actual,
        ordered::in_order::<PartitionId, Seq<Seq<char>>>(lists),
        live,
        initial,
    )
}

proof fn seeded_list_places(
    m: replica_state::Replicas,
    actual: replica_state::Replicas,
    partition: Seq<char>,
    list: Seq<Seq<char>>,
    live: Set<Seq<char>>,
    initial: Seq<char>,
    p: Seq<char>,
    i: Seq<char>,
)
    ensures
        replica_state::state_of(
            seeded_list(m, actual, partition, list, live, initial),
            p,
            i,
        ) == if p == partition && list.contains(i) && live.contains(i) && replica_state::state_of(
            actual,
            p,
            i,
        ) is None {
            Some(initial)
        } else {
            replica_state::state_of(m, p, i)
        },
    decreases list.len(),
{
    if list.len() > 0 {
        let rest = list.drop_last();
        seeded_list_places(m, actual, partition, rest, live, initial, p, i);
        let before = seeded_list(m, actual, partition, rest, live, initial);
        replica_state::placing_changes_one_replica(
            before,
            partition,
            list.last(),
            initial,
            p,
            i,
        );
        if list.contains(i) && i != list.last() {
            let k = list.index_of(i);
            assert(rest[k] == i);
        }
        if rest.contains(i) {
            let k = rest.index_of(i);
            assert(list[k] == i);
        }
        if i == list.last() {
            assert(list[list.len() - 1] == i);
        }
    }
}

proof fn seeded_places(
    m: replica_state::Replicas,
    actual: replica_state::Replicas,
    listing: Seq<(Seq<char>, Seq<Seq<char>>)>,
    live: Set<Seq<char>>,
    initial: Seq<char>,
    p: Seq<char>,
    i: Seq<char>,
)
    ensures
        ({
            let after = replica_state::state_of(
                seeded(m, actual, listing, live, initial),
                p,
                i,
            );
            let wanted = exists|k: int|
                0 <= k < listing.len() && (#[trigger] listing[k]).0 == p && listing[k].1.contains(
                    i,
                );
            if wanted && live.contains(i) && replica_state::state_of(actual, p, i) is None {
                after == Some(initial)
            } else {
                after == replica_state::state_of(m, p, i)
            }
        }),
    decreases listing.len(),
{
    if listing.len() > 0 {
        let rest = listing.drop_last();
        seeded_places(m, actual, rest, live, initial, p, i);
        seeded_list_places(
            seeded(m, actual, rest, live, initial),
            actual,
            listing.last().0,
            listing.last().1,
            live,
            initial,
            p,
            i,
        );
        let wanted = exists|k: int|
            0 <= k < listing.len() && (#[trigger] listing[k]).0 == p && listing[k].1.contains(i);
        let wanted_before = exists|k: int|
            0 <= k < rest.len() && (#[trigger] rest[k]).0 == p && rest[k].1.contains(i);
        if wanted_before {
            let k = choose|k: int|
                0 <= k < rest.len() && (#[trigger] rest[k]).0 == p && rest[k].1.contains(i);
            assert(listing[k].0 == p && listing[k].1.contains(i));
        }
        if listing.last().0 == p && listing.last().1.contains(i) {
            let n = listing.len() - 1;
            assert(listing[n].0 == p && listing[n].1.contains(i));
        }
        if wanted && !wanted_before {
            let k = choose|k: int|
                0 <= k < listing.len() && (#[trigger] listing[k]).0 == p && listing[k].1.contains(
                    i,
                );
            if k < rest.len() {
                assert(rest[k].0 == p && rest[k].1.contains(i));
            }
        }
    }
}

/// Each listed replica of a kept instance gets in.
pub proof fn put_cells_places(
    m: replica_state::Replicas,
    cells: Seq<Cell>,
    source: replica_state::Replicas,
    keep: Set<Seq<char>>,
    p: Seq<char>,
    i: Seq<char>,
)
    requires
        forall|k: int|
            0 <= k < cells.len() ==> replica_state::state_of(
                source,
                (#[trigger] cells[k]).0,
                cells[k].1,
            ) == Some(cells[k].2),
    ensures
        replica_state::state_of(put_cells(m, cells, keep), p, i) == if keep.contains(i)
            && exists|k: int| 0 <= k < cells.len() && (#[trigger] cells[k]).0 == p && cells[k].1 == i {
            replica_state::state_of(source, p, i)
        } else {
            replica_state::state_of(m, p, i)
        },
    decreases cells.len(),
{
    if cells.len() > 0 {
        let rest = cells.drop_last();
        assert forall|k: int| 0 <= k < rest.len() implies replica_state::state_of(
            source,
            (#[trigger] rest[k]).0,
            rest[k].1,
        ) == Some(rest[k].2) by {
            assert(rest[k] == cells[k]);
        }
        put_cells_places(m, rest, source, keep, p, i);
        let before = put_cells(m, rest, keep);
        let cell = cells.last();
        let n = cells.len() - 1;
        assert(cells[n] == cell);
        replica_state::placing_changes_one_replica(before, cell.0, cell.1, cell.2, p, i);
        let listed = exists|k: int|
            0 <= k < cells.len() && (#[trigger] cells[k]).0 == p && cells[k].1 == i;
        let listed_before = exists|k: int|
            0 <= k < rest.len() && (#[trigger] rest[k]).0 == p && rest[k].1 == i;
        if listed_before {
            let k = choose|k: int|
                0 <= k < rest.len() && (#[trigger] rest[k]).0 == p && rest[k].1 == i;
            assert(cells[k].0 == p && cells[k].1 == i);
        }
        if listed && !listed_before {
            let k = choose|k: int|
                0 <= k < cells.len() && (#[trigger] cells[k]).0 == p && cells[k].1 == i;
            if k < rest.len() {
                assert(rest[k].0 == p && rest[k].1 == i);
            }
        }
    }
}

/// The states to plan with, one by one: an observed replica of a live instance
/// keeps its state, a wanted replica of a live instance that is not observed
/// begins in the initial state, and there is no other replica.
pub proof fn normalized_states(
    actual: replica_state::Replicas,
    lists: Map<Seq<char>, Seq<Seq<char>>>,
    live: Set<Seq<char>>,
    initial: Seq<char>,
    p: Seq<char>,
    i: Seq<char>,
)
    requires
        lists.dom().finite(),
        replica_state::covers(replica_state::cells(actual), actual),
    ensures
        replica_state::state_of(normalized(actual, lists, live, initial), p, i)
            == if !live.contains(i) {
            None
        } else if replica_state::state_of(actual, p, i) is Some {
            replica_state::state_of(actual, p, i)
        } else if lists.dom().contains(p) && lists[p].contains(i) {
            Some(initial)
        } else {
            None
        },
{
    let cells = replica_state::cells(actual);
    let base = put_cells(Map::empty(), cells, live);
    let listing = ordered::in_order::<PartitionId, Seq<Seq<char>>>(lists);
    put_cells_places(Map::empty(), cells, actual, live, p, i);
    seeded_places(base, actual, listing, live, initial, p, i);
    ordered::finite_map_is_listed::<PartitionId, Seq<Seq<char>>>(lists);
    if replica_state::state_of(actual, p, i) is Some {
        let cell = (p, i, replica_state::state_of(actual, p, i)->0);
        assert(cells.contains(cell));
        let k = cells.index_of(cell);
        assert(cells[k].0 == p && cells[k].1 == i);
    }
    if lists.dom().contains(p) && lists[p].contains(i) {
        let k = ordered::map_of_position(listing, p);
        ordered::map_of_at::<PartitionId, Seq<Seq<char>>>(listing, k);
        assert(listing[k].0 == p && listing[k].1.contains(i));
    }
    if exists|k: int|
        0 <= k < listing.len() && (#[trigger] listing[k]).0 == p && listing[k].1.contains(i) {
        let k = choose|k: int|
            0 <= k < listing.len() && (#[trigger] listing[k]).0 == p && listing[k].1.contains(i);
        ordered::map_of_at::<PartitionId, Seq<Seq<char>>>(listing, k);
    }
}

/// The states to plan with.
pub fn normalize_current(
    actual: &CurrentState,
    lists: &OrderedMap<PartitionId, Vec<InstanceId>>,
    live: &OrderedSet<InstanceId>,
    initial: &State,
) -> (r: CurrentState)
    ensures
        r@ == normalized(actual@, lists@, live@, initial@),
{
    let mut out = put_replicas(CurrentState::default(), actual, None, live, Ghost(live@));
    let ghost base = out@;
    let ghost all = lists.listing();
    let n: usize = lists.len();
    let mut i: usize = 0;
    assert(all.take(0) =~= Seq::empty());
    while i < n
        invariant
            i <= n,
            n == all.len(),
            all == lists.listing(),
            out@ == seeded(base, actual@, all.take(i as int), live@, initial@),
        decreases n - i,
    {
        proof {
            assert(all.take(i + 1).drop_last() =~= all.take(i as int));
            assert(all.take(i + 1).last() == all[i as int]);
        }
        let partition = lists.key_at(i);
        let list = lists.value_at(i);
        let ghost names = list.deep_view();
        let ghost start = out@;
        let mut j: usize = 0;
        assert(names.take(0) =~= Seq::empty());
        while j < list.len()
            invariant
                j <= list@.len(),
                names == list.deep_view(),
                out@ == seeded_list(
                    start,
                    actual@,
                    partition@,
                    names.take(j as int),
                    live@,
                    initial@,
                ),
            decreases list@.len() - j,
        {
            proof {
                assert(names.take(j + 1).drop_last() =~= names.take(j as int));
                assert(names.take(j + 1).last() == list@[j as int]@);
            }
            let instance = &list[j];
            if live.contains(instance) && actual.state(partition, instance).is_none() {
                out = out.with_state(
                    partition.duplicate(),
                    instance.duplicate(),
                    initial.duplicate(),
                );
            }
            j = j + 1;
        }
        assert(names.take(list@.len() as int) =~= names);
        i = i + 1;
    }
    assert(all.take(n as int) =~= all);
    out
}

} // verus!
