//! Administrative changes to the configured resources.
use crate::controller::plans;
use crate::controller::records::{self, CrushTopologyRecord, PlacementRecord, ResourceRecord};
use crate::coordination::etcd::error::CoordinationFault;
use crate::coordination::etcd::CoordinationError;
use crate::model::{PartitionId, ResourceId};
use crate::ordered::{self, Key, OrderedMap};
use crate::text;
use vstd::prelude::*;
use vstd::string::*;

verus! {

/// The topology used by a topology-aware CRUSH resource.
#[derive(Clone, Debug, PartialEq, Eq)]
pub struct CrushTopologySpec {
    pub path: String,
    pub fault_zone_type: String,
    pub end_node_type: String,
}

impl View for CrushTopologySpec {
    type V = records::TopologyView;

    open spec fn view(&self) -> records::TopologyView {
        records::TopologyView {
            path: self.path@,
            fault_zone_type: self.fault_zone_type@,
            end_node_type: self.end_node_type@,
        }
    }
}

impl CrushTopologySpec {
    /// Construct a topology specification. Structural validation happens when
    /// the controller builds the rebalance topology.
    pub fn new(path: &str, fault_zone_type: &str, end_node_type: &str) -> (r: CrushTopologySpec)
        ensures
            r@ == (records::TopologyView {
                path: path@,
                fault_zone_type: fault_zone_type@,
                end_node_type: end_node_type@,
            }),
    {
        CrushTopologySpec {
            path: path.to_owned(),
            fault_zone_type: fault_zone_type.to_owned(),
            end_node_type: end_node_type.to_owned(),
        }
    }
}

/// The placement strategy for a resource.
#[derive(Clone, Debug, PartialEq, Eq)]
pub enum PlacementSpec {
    Crush,
    /// CRUSH placement using an explicit topology and fault-domain policy.
    CrushWithTopology { topology: CrushTopologySpec },
    SemiAuto { preference_lists: OrderedMap<String, Vec<String>> },
}

/// The placement strategy for a resource.
pub enum PlacementPolicy {
    Crush,
    CrushWithTopology(records::TopologyView),
    SemiAuto(plans::Lists),
}

impl View for PlacementSpec {
    type V = PlacementPolicy;

    open spec fn view(&self) -> PlacementPolicy {
        match self {
            PlacementSpec::Crush => PlacementPolicy::Crush,
            PlacementSpec::CrushWithTopology { topology } => PlacementPolicy::CrushWithTopology(
                topology@,
            ),
            PlacementSpec::SemiAuto { preference_lists } => PlacementPolicy::SemiAuto(
                preference_lists@,
            ),
        }
    }
}

/// A resource configuration supplied to the controller.
#[derive(Clone, Debug, PartialEq, Eq)]
pub struct ResourceSpec {
    pub name: String,
    pub partitions: usize,
    pub replicas: usize,
    pub state_model: String,
    pub placement: PlacementSpec,
}

/// What a resource configuration says.
pub struct ResourceSpecView {
    pub name: Seq<char>,
    pub partitions: usize,
    pub replicas: usize,
    pub state_model: Seq<char>,
    pub placement: PlacementPolicy,
}

impl View for ResourceSpec {
    type V = ResourceSpecView;

    open spec fn view(&self) -> ResourceSpecView {
        ResourceSpecView {
            name: self.name@,
            partitions: self.partitions,
            replicas: self.replicas,
            state_model: self.state_model@,
            placement: self.placement@,
        }
    }
}

/// Why a preference list may not be configured.
pub open spec fn list_fault(
    partition: Seq<char>,
    instances: Seq<Seq<char>>,
    replicas: usize,
) -> Option<CoordinationFault> {
    if partition.len() == 0 {
        Some(CoordinationFault::InvalidKey)
    } else if instances.len() != replicas {
        Some(CoordinationFault::InvalidValue)
    } else if !instances.no_duplicates() {
        Some(CoordinationFault::InvalidValue)
    } else if plans::has_empty(instances) {
        Some(CoordinationFault::InvalidKey)
    } else {
        None
    }
}

/// Why the first preference list that may not be configured may not be.
pub open spec fn lists_fault(
    listing: Seq<(Seq<char>, Seq<Seq<char>>)>,
    replicas: usize,
) -> Option<CoordinationFault>
    decreases listing.len(),
{
    if listing.len() == 0 {
        None
    } else {
        match lists_fault(listing.drop_last(), replicas) {
            Some(fault) => Some(fault),
            None => list_fault(listing.last().0, listing.last().1, replicas),
        }
    }
}

/// The names of the partitions of a resource.
pub open spec fn partition_names(resource: Seq<char>, partitions: nat) -> Seq<Seq<char>> {
    Seq::new(partitions, |i: int| resource + "_"@ + text::decimal(i as nat))
}

/// The placement record of a policy.
pub open spec fn placement_record(spec: ResourceSpecView) -> records::PlacementView {
    match spec.placement {
        PlacementPolicy::Crush => records::PlacementView {
            kind: "CRUSH"@,
            replicas: spec.replicas,
            lists: Map::empty(),
            partitions: partition_names(spec.name, spec.partitions as nat),
            topology: None,
        },
        PlacementPolicy::CrushWithTopology(topology) => records::PlacementView {
            kind: "CRUSH"@,
            replicas: spec.replicas,
            lists: Map::empty(),
            partitions: partition_names(spec.name, spec.partitions as nat),
            topology: Some(topology),
        },
        PlacementPolicy::SemiAuto(lists) => records::PlacementView {
            kind: "SEMI_AUTO"@,
            replicas: spec.replicas,
            lists,
            partitions: Seq::empty(),
            topology: None,
        },
    }
}

/// Why a resource may not be configured so.
pub open spec fn resource_fault(spec: ResourceSpecView) -> Option<CoordinationFault> {
    if spec.name.len() == 0 {
        Some(CoordinationFault::InvalidKey)
    } else if spec.partitions == 0 || spec.replicas == 0 || spec.state_model
        != "LeaderStandby"@ {
        Some(CoordinationFault::InvalidValue)
    } else {
        match spec.placement {
            PlacementPolicy::SemiAuto(lists) => {
                let listing = ordered::in_order::<String, Seq<Seq<char>>>(lists);
                if listing.len() != spec.partitions {
                    Some(CoordinationFault::InvalidValue)
                } else {
                    lists_fault(listing, spec.replicas)
                }
            },
            _ => None,
        }
    }
}

/// The record that a resource configuration is stored as.
pub open spec fn record_of(spec: ResourceSpecView) -> records::ResourceView {
    records::ResourceView {
        name: spec.name,
        state_model: spec.state_model,
        placement: placement_record(spec),
    }
}

/// Whether no two texts of the list are the same.
pub fn all_differ(names: &Vec<String>) -> (r: bool)
    ensures
        r == names.deep_view().no_duplicates(),
{
    let ghost all = names.deep_view();
    let mut i: usize = 0;
    while i < names.len()
        invariant
            i <= names@.len(),
            all == names.deep_view(),
            forall|a: int, b: int| 0 <= a < b < i ==> #[trigger] all[a] != #[trigger] all[b],
        decreases names@.len() - i,
    {
        let mut j: usize = 0;
        while j < i
            invariant
                j <= i < names@.len(),
                all == names.deep_view(),
                forall|a: int| 0 <= a < j ==> #[trigger] all[a] != all[i as int],
            decreases i - j,
        {
            proof {
                assert(all[j as int] == names@[j as int]@);
                assert(all[i as int] == names@[i as int]@);
            }
            if names[j].same(&names[i]) {
                return false;
            }
            j = j + 1;
        }
        i = i + 1;
    }
    true
}

fn any_empty(names: &Vec<String>) -> (r: bool)
    ensures
        r == plans::has_empty(names.deep_view()),
{
    let ghost all = names.deep_view();
    let mut i: usize = 0;
    while i < names.len()
        invariant
            i <= names@.len(),
            all == names.deep_view(),
            forall|j: int| 0 <= j < i ==> (#[trigger] all[j]).len() > 0,
        decreases names@.len() - i,
    {
        assert(all[i as int] == names@[i as int]@);
        if names[i].as_str().is_empty() {
            return true;
        }
        i = i + 1;
    }
    false
}

proof fn lists_prefix(listing: Seq<(Seq<char>, Seq<Seq<char>>)>, replicas: usize, i: int)
    requires
        0 <= i <= listing.len(),
        lists_fault(listing.take(i), replicas) is Some,
    ensures
        lists_fault(listing, replicas) == lists_fault(listing.take(i), replicas),
    decreases listing.len() - i,
{
    if i < listing.len() {
        assert(listing.take(i + 1).drop_last() =~= listing.take(i));
        lists_prefix(listing, replicas, i + 1);
    } else {
        assert(listing.take(i) =~= listing);
    }
}

fn check_lists(
    lists: &OrderedMap<String, Vec<String>>,
    partitions: usize,
    replicas: usize,
) -> (r: Result<(), CoordinationError>)
    ensures
        ({
            let listing = ordered::in_order::<String, Seq<Seq<char>>>(lists@);
            match r {
                Ok(()) => listing.len() == partitions && lists_fault(listing, replicas) is None,
                Err(error) => if listing.len() != partitions {
                    error@ == CoordinationFault::InvalidValue
                } else {
                    lists_fault(listing, replicas) == Some(error@)
                },
            }
        }),
{
    let n: usize = lists.len();
    if n != partitions {
        return Err(CoordinationError::InvalidValue);
    }
    let ghost all = lists.listing();
    let mut i: usize = 0;
    assert(all.take(0) =~= Seq::empty());
    while i < n
        invariant
            i <= n,
            n == all.len(),
            n == partitions,
            all == lists.listing(),
            lists_fault(all.take(i as int), replicas) is None,
        decreases n - i,
    {
        let partition = lists.key_at(i);
        let instances = lists.value_at(i);
        proof {
            assert(all.take(i + 1).drop_last() =~= all.take(i as int));
            assert(all.take(i + 1).last() == all[i as int]);
            assert(instances.deep_view().len() == instances@.len());
            if lists_fault(all.take(i + 1), replicas) is Some {
                lists_prefix(all, replicas, i + 1);
            }
        }
        if partition.as_str().is_empty() {
            return Err(CoordinationError::InvalidKey);
        }
        if instances.len() != replicas {
            return Err(CoordinationError::InvalidValue);
        }
        if !all_differ(instances) {
            return Err(CoordinationError::InvalidValue);
        }
        if any_empty(instances) {
            return Err(CoordinationError::InvalidKey);
        }
        i = i + 1;
    }
    assert(all.take(n as int) =~= all);
    Ok(())
}

fn name_partitions(resource: &str, partitions: usize) -> (r: Vec<String>)
    ensures
        r.deep_view() == partition_names(resource@, partitions as nat),
{
    let ghost all = partition_names(resource@, partitions as nat);
    let mut out: Vec<String> = Vec::new();
    let mut i: usize = 0;
    assert(out.deep_view() =~= all.take(0));
    while i < partitions
        invariant
            i <= partitions,
            all == partition_names(resource@, partitions as nat),
            out.deep_view() == all.take(i as int),
        decreases partitions - i,
    {
        let ghost before = out.deep_view();
        let name = resource.to_owned().concat("_").concat(text::decimal_of(i as u64).as_str());
        let ghost model = name@;
        out.push(name);
        proof {
            assert(model == all[i as int]);
            assert(out.deep_view() =~= before.push(model));
            assert(all.take(i + 1) =~= all.take(i as int).push(all[i as int]));
        }
        i = i + 1;
    }
    assert(all.take(i as int) =~= all);
    out
}

/// The record that a resource configuration is stored as, or why it may not be
/// configured so.
pub fn put_resource(spec: ResourceSpec) -> (r: Result<ResourceRecord, CoordinationError>)
    ensures
        match r {
            Ok(record) => resource_fault(spec@) is None && record.deep_view() == record_of(spec@),
            Err(error) => resource_fault(spec@) == Some(error@),
        },
{
    let resource = match ResourceId::new(spec.name.as_str()) {
        Ok(resource) => resource,
        Err(_) => {
            return Err(CoordinationError::InvalidKey);
        },
    };
    if spec.partitions == 0 || spec.replicas == 0 || !text::text_eq(
        spec.state_model.as_str(),
        "LeaderStandby",
    ) {
        return Err(CoordinationError::InvalidValue);
    }
    let placement = match spec.placement {
        PlacementSpec::Crush => PlacementRecord {
            kind: "CRUSH".to_owned(),
            replicas: spec.replicas,
            preference_lists: OrderedMap::new(),
            partitions: name_partitions(resource.as_str(), spec.partitions),
            topology: None,
        },
        PlacementSpec::CrushWithTopology { topology } => PlacementRecord {
            kind: "CRUSH".to_owned(),
            replicas: spec.replicas,
            preference_lists: OrderedMap::new(),
            partitions: name_partitions(resource.as_str(), spec.partitions),
            topology: Some(
                CrushTopologyRecord {
                    path: topology.path,
                    fault_zone_type: topology.fault_zone_type,
                    end_node_type: topology.end_node_type,
                },
            ),
        },
        PlacementSpec::SemiAuto { preference_lists } => {
            if let Err(error) = check_lists(&preference_lists, spec.partitions, spec.replicas) {
                return Err(error);
            }
            let none: Vec<String> = Vec::new();
            assert(none.deep_view() =~= Seq::empty());
            PlacementRecord {
                kind: "SEMI_AUTO".to_owned(),
                replicas: spec.replicas,
                preference_lists,
                partitions: none,
                topology: None,
            }
        },
    };
    Ok(ResourceRecord { name: resource.to_string(), state_model: spec.state_model, placement })
}

/// A configuration has to be written: it is not stored already.
pub open spec fn stale(stored: Option<Seq<char>>, value: Seq<char>) -> bool {
    stored != Some(value)
}

/// Whether a stored configuration has to be written.
pub fn needs_write(stored: Option<&str>, value: &str) -> (r: bool)
    ensures
        r == stale(
            match stored {
                Some(stored) => Some(stored@),
                None => None,
            },
            value@,
        ),
{
    match stored {
        Some(stored) => !text::text_eq(stored, value),
        None => true,
    }
}

/// Resource deletion is intentionally disabled until tombstone lifecycle
/// support can make the operation restart-safe.
pub fn remove_resource(resource_id: &str) -> (r: Result<(), CoordinationError>)
    ensures
        r matches Err(error) && error@ == if resource_id@.len() == 0 {
            CoordinationFault::InvalidKey
        } else {
            CoordinationFault::ResourceDeletionDisabled
        },
{
    match ResourceId::new(resource_id) {
        Ok(_) => Err(CoordinationError::ResourceDeletionDisabled),
        Err(_) => Err(CoordinationError::InvalidKey),
    }
}

proof fn lists_are_placeable(
    resource: Seq<char>,
    replicas: usize,
    listing: Seq<(Seq<char>, Seq<Seq<char>>)>,
)
    requires
        ordered::increasing::<PartitionId, Seq<Seq<char>>>(listing),
        lists_fault(listing, replicas) is None,
    ensures
        plans::lists_fault(listing) is None,
        plans::placement_fault(resource, replicas, listing) is None,
    decreases listing.len(),
{
    if listing.len() > 0 {
        let rest = listing.drop_last();
        assert(ordered::increasing::<PartitionId, Seq<Seq<char>>>(rest)) by {
            assert forall|i: int, j: int| 0 <= i < j < rest.len() implies <PartitionId as Key>::before(
                (#[trigger] rest[i]).0,
                (#[trigger] rest[j]).0,
            ) by {
                assert(rest[i] == listing[i] && rest[j] == listing[j]);
            }
        }
        lists_are_placeable(resource, replicas, rest);
        if ordered::map_of(rest).dom().contains(listing.last().0) {
            let i = ordered::map_of_position(rest, listing.last().0);
            assert(rest[i] == listing[i]);
            assert(listing.last() == listing[listing.len() - 1]);
            ordered::keys_differ::<PartitionId, Seq<Seq<char>>>(listing, i, listing.len() - 1);
        }
    }
}

proof fn same_listing(lists: plans::Lists)
    requires
        lists.dom().finite(),
    ensures
        ordered::in_order::<String, Seq<Seq<char>>>(lists) == ordered::in_order::<
            PartitionId,
            Seq<Seq<char>>,
        >(lists),
        ordered::lists::<PartitionId, Seq<Seq<char>>>(
            ordered::in_order::<PartitionId, Seq<Seq<char>>>(lists),
            lists,
        ),
{
    ordered::finite_map_is_listed::<PartitionId, Seq<Seq<char>>>(lists);
    let listing = ordered::in_order::<PartitionId, Seq<Seq<char>>>(lists);
    assert(ordered::increasing::<String, Seq<Seq<char>>>(listing)) by {
        assert forall|i: int, j: int| 0 <= i < j < listing.len() implies <String as Key>::before(
            (#[trigger] listing[i]).0,
            (#[trigger] listing[j]).0,
        ) by {
            assert(<PartitionId as Key>::before(listing[i].0, listing[j].0));
        }
    }
    ordered::in_order_of_listing::<String, Seq<Seq<char>>>(listing);
}

/// The controller can plan every resource that an administrator can configure:
/// it assigns the partitions of a CRUSH resource, and takes the lists of a
/// semi-automatic one.
pub proof fn configured_resources_can_be_planned(
    spec: ResourceSpecView,
    zones: Map<Seq<char>, Seq<char>>,
    live: Set<Seq<char>>,
)
    requires
        resource_fault(spec) is None,
        spec.placement matches PlacementPolicy::SemiAuto(lists) ==> lists.dom().finite(),
    ensures
        ({
            let entry = records::ResourceEntryView {
                key_name: spec.name,
                record: Ok(record_of(spec)),
            };
            match spec.placement {
                PlacementPolicy::SemiAuto(_) => plans::plan_of(entry, zones, live, None) is Plan,
                _ => plans::plan_of(entry, zones, live, None) is Ask,
            }
        }),
{
    reveal_strlit("CRUSH");
    reveal_strlit("SEMI_AUTO");
    reveal_strlit("_");
    assert("CRUSH"@.len() != "SEMI_AUTO"@.len());
    match spec.placement {
        PlacementPolicy::SemiAuto(lists) => {
            same_listing(lists);
            let listing = ordered::in_order::<PartitionId, Seq<Seq<char>>>(lists);
            lists_are_placeable(spec.name, spec.replicas, listing);
            ordered::map_of_at::<PartitionId, Seq<Seq<char>>>(listing, 0);
            assert(lists.dom().contains(listing[0].0));
        },
        _ => {
            let names = partition_names(spec.name, spec.partitions as nat);
            assert forall|i: int| 0 <= i < names.len() implies (#[trigger] names[i]).len() > 0 by {}
        },
    }
}

} // verus!
