//! The external view as it is read back from its stored form.
use crate::controller::view_json::{self, PartitionRow, ResourceRow};
use crate::coordination::etcd::error::CoordinationFault;
use crate::coordination::etcd::CoordinationError;
use crate::model::replica_state;
use crate::model::session;
use crate::model::{CurrentState, ExternalView, InstanceId, PartitionId, ResourceId, State};
use crate::ordered::{self, OrderedMap};
use vstd::prelude::*;
use vstd::string::*;

verus! {

/// The replicas that rows name. Every instance and every state has a name.
pub open spec fn replicas_in(rows: view_json::ReplicaRows) -> Result<
    Map<Seq<char>, Seq<char>>,
    CoordinationFault,
>
    decreases rows.len(),
{
    if rows.len() == 0 {
        Ok(Map::empty())
    } else {
        match replicas_in(rows.drop_last()) {
            Err(fault) => Err(fault),
            Ok(before) => if rows.last().0.len() == 0 {
                Err(CoordinationFault::InvalidKey)
            } else if rows.last().1.len() == 0 {
                Err(CoordinationFault::InvalidValue)
            } else {
                Ok(before.insert(rows.last().0, rows.last().1))
            },
        }
    }
}

/// The partitions that rows name. Every partition has a name, and one without
/// replicas is left out.
pub open spec fn partitions_in(rows: view_json::PartitionRows) -> Result<
    replica_state::Replicas,
    CoordinationFault,
>
    decreases rows.len(),
{
    if rows.len() == 0 {
        Ok(Map::empty())
    } else {
        match partitions_in(rows.drop_last()) {
            Err(fault) => Err(fault),
            Ok(before) => if rows.last().0.len() == 0 {
                Err(CoordinationFault::InvalidKey)
            } else {
                match replicas_in(rows.last().1) {
                    Err(fault) => Err(fault),
                    Ok(replicas) => if rows.last().1.len() == 0 {
                        Ok(before)
                    } else {
                        Ok(before.insert(rows.last().0, replicas))
                    },
                }
            },
        }
    }
}

/// The resources that rows name. Every resource has a name.
pub open spec fn resources_in(rows: view_json::ViewRows) -> Result<
    session::Resources,
    CoordinationFault,
>
    decreases rows.len(),
{
    if rows.len() == 0 {
        Ok(Map::empty())
    } else {
        match resources_in(rows.drop_last()) {
            Err(fault) => Err(fault),
            Ok(before) => if rows.last().0.len() == 0 {
                Err(CoordinationFault::InvalidKey)
            } else {
                match partitions_in(rows.last().1) {
                    Err(fault) => Err(fault),
                    Ok(partitions) => Ok(before.insert(rows.last().0, partitions)),
                }
            },
        }
    }
}

/// The external view of a stored form.
pub open spec fn view_in(text: Seq<char>) -> Result<session::Resources, CoordinationFault> {
    match view_json::parsed_view(text) {
        Err(_) => Err(CoordinationFault::InvalidValue),
        Ok(rows) => resources_in(rows),
    }
}

proof fn replicas_prefix(rows: view_json::ReplicaRows, i: int)
    requires
        0 <= i <= rows.len(),
        replicas_in(rows.take(i)) is Err,
    ensures
        replicas_in(rows) == replicas_in(rows.take(i)),
    decreases rows.len() - i,
{
    if i < rows.len() {
        assert(rows.take(i + 1).drop_last() =~= rows.take(i));
        replicas_prefix(rows, i + 1);
    } else {
        assert(rows.take(i) =~= rows);
    }
}

proof fn partitions_prefix(rows: view_json::PartitionRows, i: int)
    requires
        0 <= i <= rows.len(),
        partitions_in(rows.take(i)) is Err,
    ensures
        partitions_in(rows) == partitions_in(rows.take(i)),
    decreases rows.len() - i,
{
    if i < rows.len() {
        assert(rows.take(i + 1).drop_last() =~= rows.take(i));
        partitions_prefix(rows, i + 1);
    } else {
        assert(rows.take(i) =~= rows);
    }
}

proof fn resources_prefix(rows: view_json::ViewRows, i: int)
    requires
        0 <= i <= rows.len(),
        resources_in(rows.take(i)) is Err,
    ensures
        resources_in(rows) == resources_in(rows.take(i)),
    decreases rows.len() - i,
{
    if i < rows.len() {
        assert(rows.take(i + 1).drop_last() =~= rows.take(i));
        resources_prefix(rows, i + 1);
    } else {
        assert(rows.take(i) =~= rows);
    }
}

fn read_replicas(rows: &Vec<(String, String)>) -> (r: Result<
    OrderedMap<InstanceId, State>,
    CoordinationError,
>)
    ensures
        match (r, replicas_in(rows.deep_view())) {
            (Ok(replicas), Ok(model)) => replicas@ == model,
            (Err(error), Err(fault)) => error@ == fault,
            _ => false,
        },
{
    let ghost all = rows.deep_view();
    let mut replicas: OrderedMap<InstanceId, State> = OrderedMap::new();
    let mut i: usize = 0;
    assert(all.take(0) =~= Seq::empty());
    while i < rows.len()
        invariant
            i <= rows@.len(),
            all == rows.deep_view(),
            replicas_in(all.take(i as int)) == Ok::<_, CoordinationFault>(replicas@),
        decreases rows@.len() - i,
    {
        proof {
            assert(all.take(i + 1).drop_last() =~= all.take(i as int));
            assert(all.take(i + 1).last() == all[i as int]);
            assert(all[i as int] == rows@[i as int].deep_view());
        }
        let instance = match InstanceId::new(rows[i].0.as_str()) {
            Ok(instance) => instance,
            Err(_) => {
                proof {
                    replicas_prefix(all, i + 1);
                }
                return Err(CoordinationError::InvalidKey);
            },
        };
        let state = match State::new(rows[i].1.as_str()) {
            Ok(state) => state,
            Err(_) => {
                proof {
                    replicas_prefix(all, i + 1);
                }
                return Err(CoordinationError::InvalidValue);
            },
        };
        replicas.insert(instance, state);
        i = i + 1;
    }
    assert(all.take(i as int) =~= all);
    Ok(replicas)
}

fn read_partitions(rows: &Vec<PartitionRow>) -> (r: Result<
    OrderedMap<PartitionId, OrderedMap<InstanceId, State>>,
    CoordinationError,
>)
    ensures
        match (r, partitions_in(rows.deep_view())) {
            (Ok(partitions), Ok(model)) => partitions@ == model,
            (Err(error), Err(fault)) => error@ == fault,
            _ => false,
        },
{
    let ghost all = rows.deep_view();
    let mut partitions: OrderedMap<PartitionId, OrderedMap<InstanceId, State>> = OrderedMap::new();
    let mut i: usize = 0;
    assert(all.take(0) =~= Seq::empty());
    while i < rows.len()
        invariant
            i <= rows@.len(),
            all == rows.deep_view(),
            partitions_in(all.take(i as int)) == Ok::<_, CoordinationFault>(partitions@),
        decreases rows@.len() - i,
    {
        proof {
            assert(all.take(i + 1).drop_last() =~= all.take(i as int));
            assert(all.take(i + 1).last() == all[i as int]);
            assert(all[i as int] == rows@[i as int].deep_view());
        }
        let partition = match PartitionId::new(rows[i].0.as_str()) {
            Ok(partition) => partition,
            Err(_) => {
                proof {
                    partitions_prefix(all, i + 1);
                }
                return Err(CoordinationError::InvalidKey);
            },
        };
        let replicas = match read_replicas(&rows[i].1) {
            Ok(replicas) => replicas,
            Err(error) => {
                proof {
                    partitions_prefix(all, i + 1);
                }
                return Err(error);
            },
        };
        if rows[i].1.len() > 0 {
            partitions.insert(partition, replicas);
        }
        i = i + 1;
    }
    assert(all.take(i as int) =~= all);
    Ok(partitions)
}

fn read_resources(rows: &Vec<ResourceRow>) -> (r: Result<
    OrderedMap<ResourceId, CurrentState>,
    CoordinationError,
>)
    ensures
        match (r, resources_in(rows.deep_view())) {
            (Ok(resources), Ok(model)) => resources@ == model,
            (Err(error), Err(fault)) => error@ == fault,
            _ => false,
        },
{
    let ghost all = rows.deep_view();
    let mut resources: OrderedMap<ResourceId, CurrentState> = OrderedMap::new();
    let mut i: usize = 0;
    assert(all.take(0) =~= Seq::empty());
    while i < rows.len()
        invariant
            i <= rows@.len(),
            all == rows.deep_view(),
            resources_in(all.take(i as int)) == Ok::<_, CoordinationFault>(resources@),
        decreases rows@.len() - i,
    {
        proof {
            assert(all.take(i + 1).drop_last() =~= all.take(i as int));
            assert(all.take(i + 1).last() == all[i as int]);
            assert(all[i as int] == rows@[i as int].deep_view());
        }
        let resource = match ResourceId::new(rows[i].0.as_str()) {
            Ok(resource) => resource,
            Err(_) => {
                proof {
                    resources_prefix(all, i + 1);
                }
                return Err(CoordinationError::InvalidKey);
            },
        };
        let partitions = match read_partitions(&rows[i].1) {
            Ok(partitions) => partitions,
            Err(error) => {
                proof {
                    resources_prefix(all, i + 1);
                }
                return Err(error);
            },
        };
        resources.insert(resource, CurrentState::from_entries(partitions));
        i = i + 1;
    }
    assert(all.take(i as int) =~= all);
    Ok(resources)
}

/// The external view that rows name.
pub fn view_of_rows(rows: &Vec<ResourceRow>) -> (r: Result<ExternalView, CoordinationError>)
    ensures
        match (r, resources_in(rows.deep_view())) {
            (Ok(view), Ok(model)) => view@ == model,
            (Err(error), Err(fault)) => error@ == fault,
            _ => false,
        },
{
    match read_resources(rows) {
        Ok(resources) => Ok(ExternalView::from_current_states(resources)),
        Err(error) => Err(error),
    }
}

/// Read an external view from its stored form.
pub fn external_view_model(external_view: &str) -> (r: Result<ExternalView, CoordinationError>)
    ensures
        match (r, view_in(external_view@)) {
            (Ok(view), Ok(model)) => view@ == model,
            (Err(error), Err(fault)) => error@ == fault,
            _ => false,
        },
{
    match view_json::read_external_view(external_view) {
        Ok(rows) => view_of_rows(&rows),
        Err(_) => Err(CoordinationError::InvalidValue),
    }
}

/// The names of a replica map are not empty.
pub open spec fn named_replicas(m: Map<Seq<char>, Seq<char>>) -> bool {
    forall|i: Seq<char>| #[trigger] m.dom().contains(i) ==> i.len() > 0 && m[i].len() > 0
}

/// The names of an external view are not empty, and no partition is without
/// replicas.
pub open spec fn well_named(m: session::Resources) -> bool {
    forall|r: Seq<char>| #[trigger]
        m.dom().contains(r) ==> r.len() > 0 && m[r].dom().finite() && forall|p: Seq<char>| #[trigger]
            m[r].dom().contains(p) ==> p.len() > 0 && m[r][p].dom().finite() && m[r][p]
                != Map::<Seq<char>, Seq<char>>::empty() && named_replicas(m[r][p])
}

proof fn replicas_come_back(rows: Seq<(Seq<char>, Seq<char>)>, i: int)
    requires
        ordered::increasing::<InstanceId, Seq<char>>(rows),
        named_replicas(ordered::map_of(rows)),
        0 <= i <= rows.len(),
    ensures
        replicas_in(rows.take(i)) == Ok::<_, CoordinationFault>(ordered::map_of(rows.take(i))),
    decreases i,
{
    if i == 0 {
        ordered::map_of_ends(rows);
        assert(rows.take(0) =~= Seq::empty());
    } else {
        replicas_come_back(rows, i - 1);
        assert(rows.take(i).drop_last() =~= rows.take(i - 1));
        assert(rows.take(i).last() == rows[i - 1]);
        ordered::map_of_step::<InstanceId, Seq<char>>(rows, i - 1);
        ordered::map_of_at::<InstanceId, Seq<char>>(rows, i - 1);
    }
}

proof fn replica_rows_come_back(m: Map<Seq<char>, Seq<char>>)
    requires
        m.dom().finite(),
        named_replicas(m),
    ensures
        replicas_in(view_json::replica_rows(m)) == Ok::<_, CoordinationFault>(m),
        view_json::replica_rows(m).len() == 0 ==> m == Map::<Seq<char>, Seq<char>>::empty(),
{
    ordered::finite_map_is_listed::<InstanceId, Seq<char>>(m);
    let rows = view_json::replica_rows(m);
    replicas_come_back(rows, rows.len() as int);
    ordered::map_of_ends(rows);
}

proof fn partitions_come_back(m: replica_state::Replicas, i: int)
    requires
        m.dom().finite(),
        forall|p: Seq<char>| #[trigger]
            m.dom().contains(p) ==> p.len() > 0 && m[p].dom().finite() && m[p] != Map::<
                Seq<char>,
                Seq<char>,
            >::empty() && named_replicas(m[p]),
        0 <= i <= ordered::in_order::<PartitionId, Map<Seq<char>, Seq<char>>>(m).len(),
    ensures
        partitions_in(view_json::partition_rows(m).take(i)) == Ok::<_, CoordinationFault>(
            ordered::map_of(
                ordered::in_order::<PartitionId, Map<Seq<char>, Seq<char>>>(m).take(i),
            ),
        ),
    decreases i,
{
    ordered::finite_map_is_listed::<PartitionId, Map<Seq<char>, Seq<char>>>(m);
    let all = ordered::in_order::<PartitionId, Map<Seq<char>, Seq<char>>>(m);
    let rows = view_json::partition_rows(m);
    if i == 0 {
        ordered::map_of_ends(all);
        assert(rows.take(0) =~= Seq::empty());
    } else {
        partitions_come_back(m, i - 1);
        assert(rows.take(i).drop_last() =~= rows.take(i - 1));
        assert(rows.take(i).last() == rows[i - 1]);
        ordered::map_of_step::<PartitionId, Map<Seq<char>, Seq<char>>>(all, i - 1);
        ordered::map_of_at::<PartitionId, Map<Seq<char>, Seq<char>>>(all, i - 1);
        replica_rows_come_back(all[i - 1].1);
    }
}

proof fn resources_come_back(m: session::Resources, i: int)
    requires
        m.dom().finite(),
        well_named(m),
        0 <= i <= ordered::in_order::<ResourceId, replica_state::Replicas>(m).len(),
    ensures
        resources_in(view_json::view_rows(m).take(i)) == Ok::<_, CoordinationFault>(
            ordered::map_of(
                ordered::in_order::<ResourceId, replica_state::Replicas>(m).take(i),
            ),
        ),
    decreases i,
{
    ordered::finite_map_is_listed::<ResourceId, replica_state::Replicas>(m);
    let all = ordered::in_order::<ResourceId, replica_state::Replicas>(m);
    let rows = view_json::view_rows(m);
    if i == 0 {
        ordered::map_of_ends(all);
        assert(rows.take(0) =~= Seq::empty());
    } else {
        resources_come_back(m, i - 1);
        assert(rows.take(i).drop_last() =~= rows.take(i - 1));
        assert(rows.take(i).last() == rows[i - 1]);
        ordered::map_of_step::<ResourceId, replica_state::Replicas>(all, i - 1);
        ordered::map_of_at::<ResourceId, replica_state::Replicas>(all, i - 1);
        let partitions = all[i - 1].1;
        let listed = ordered::in_order::<PartitionId, Map<Seq<char>, Seq<char>>>(partitions);
        ordered::finite_map_is_listed::<PartitionId, Map<Seq<char>, Seq<char>>>(partitions);
        partitions_come_back(partitions, listed.len() as int);
        ordered::map_of_ends(listed);
        assert(view_json::partition_rows(partitions).take(listed.len() as int)
            =~= view_json::partition_rows(partitions));
    }
}

/// An observer reads back the external view that the controller published.
pub proof fn published_view_is_observed(m: session::Resources, text: Seq<char>)
    requires
        m.dom().finite(),
        well_named(m),
        view_json::reads_as(text, view_json::view_rows(m)),
    ensures
        view_in(text) == Ok::<_, CoordinationFault>(m),
{
    ordered::finite_map_is_listed::<ResourceId, replica_state::Replicas>(m);
    let all = ordered::in_order::<ResourceId, replica_state::Replicas>(m);
    resources_come_back(m, all.len() as int);
    ordered::map_of_ends(all);
    assert(view_json::view_rows(m).take(all.len() as int) =~= view_json::view_rows(m));
}

} // verus!
