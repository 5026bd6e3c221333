//! Declarative cluster specifications.
use crate::admin::instances;
use crate::admin::resources::{self, all_differ, CrushTopologySpec, PlacementPolicy, PlacementSpec};
use crate::cluster::error::{ApplicationError, ApplicationFault};
use crate::controller::plans;
use crate::controller::records;
use crate::model::identity::IdentifierKind;
use crate::model::{InstanceId, ResourceId};
use crate::ordered::{self, OrderedMap};
use crate::text;
use vstd::prelude::*;
use vstd::string::*;

verus! {

/// A resource state model supported by the application API.
#[derive(Clone, Copy, Debug, PartialEq, Eq, Structural)]
pub enum StateModel {
    LeaderStandby,
}

/// What an instance declaration says.
#[verifier::ext_equal]
pub struct InstanceDecl {
    pub id: Seq<char>,
    pub zone: Seq<char>,
}

/// An instance declaration in a cluster specification.
#[derive(Clone, Debug, PartialEq, Eq)]
pub struct InstanceSpec {
    pub instance_id: String,
    pub zone: String,
}

impl DeepView for InstanceSpec {
    type V = InstanceDecl;

    open spec fn deep_view(&self) -> InstanceDecl {
        InstanceDecl { id: self.instance_id@, zone: self.zone@ }
    }
}

impl InstanceSpec {
    /// Declare an instance in the default zone.
    pub fn new(instance_id: &str) -> (r: InstanceSpec)
        ensures
            r.deep_view() == (InstanceDecl { id: instance_id@, zone: "default"@ }),
    {
        InstanceSpec { instance_id: instance_id.to_owned(), zone: "default".to_owned() }
    }

    /// Set the failure-domain zone for this instance.
    pub fn zone(self, zone: &str) -> (r: InstanceSpec)
        ensures
            r.deep_view() == (InstanceDecl { zone: zone@, ..self.deep_view() }),
    {
        InstanceSpec { zone: zone.to_owned(), ..self }
    }

    /// The instance as an administrator configures it.
    pub fn into_low_level(self) -> (r: instances::InstanceSpec)
        ensures
            r.instance_id@ == self.deep_view().id,
            r.zone@ == self.deep_view().zone,
    {
        instances::InstanceSpec { instance_id: self.instance_id, zone: self.zone }
    }
}

impl<'a> From<&'a str> for InstanceSpec {
    fn from(instance_id: &'a str) -> (r: InstanceSpec)
        ensures
            r.deep_view() == (InstanceDecl { id: instance_id@, zone: "default"@ }),
    {
        InstanceSpec::new(instance_id)
    }
}

impl<'a> vstd::std_specs::convert::FromSpecImpl<&'a str> for InstanceSpec {
    open spec fn obeys_from_spec() -> bool {
        false
    }

    open spec fn from_spec(instance_id: &'a str) -> InstanceSpec {
        arbitrary()
    }
}

impl From<String> for InstanceSpec {
    fn from(instance_id: String) -> (r: InstanceSpec)
        ensures
            r.deep_view() == (InstanceDecl { id: instance_id@, zone: "default"@ }),
    {
        InstanceSpec::new(instance_id.as_str())
    }
}

impl vstd::std_specs::convert::FromSpecImpl<String> for InstanceSpec {
    open spec fn obeys_from_spec() -> bool {
        false
    }

    open spec fn from_spec(instance_id: String) -> InstanceSpec {
        arbitrary()
    }
}

/// A topology for topology-aware CRUSH placement.
#[derive(Clone, Debug, PartialEq, Eq)]
pub struct Topology {
    pub path: String,
    pub fault_zone_type: String,
    pub end_node_type: String,
}

impl View for Topology {
    type V = records::TopologyView;

    open spec fn view(&self) -> records::TopologyView {
        records::TopologyView {
            path: self.path@,
            fault_zone_type: self.fault_zone_type@,
            end_node_type: self.end_node_type@,
        }
    }
}

impl Topology {
    /// The conventional `/zone/instance` topology.
    pub fn zones() -> (r: Topology)
        ensures
            r@ == (records::TopologyView {
                path: "/zone/instance"@,
                fault_zone_type: "zone"@,
                end_node_type: "instance"@,
            }),
    {
        Topology::new("/zone/instance", "zone", "instance")
    }

    /// Create a topology with explicit path and node types.
    pub fn new(path: &str, fault_zone_type: &str, end_node_type: &str) -> (r: Topology)
        ensures
            r@ == (records::TopologyView {
                path: path@,
                fault_zone_type: fault_zone_type@,
                end_node_type: end_node_type@,
            }),
    {
        Topology {
            path: path.to_owned(),
            fault_zone_type: fault_zone_type.to_owned(),
            end_node_type: end_node_type.to_owned(),
        }
    }

    /// The topology as an administrator configures it.
    pub fn into_low_level(self) -> (r: CrushTopologySpec)
        ensures
            r@ == self@,
    {
        CrushTopologySpec {
            path: self.path,
            fault_zone_type: self.fault_zone_type,
            end_node_type: self.end_node_type,
        }
    }
}

/// Placement strategy for an application resource.
#[derive(Clone, Debug, PartialEq, Eq)]
pub enum Placement {
    Crush,
    CrushWithTopology(Topology),
    SemiAuto(OrderedMap<String, Vec<String>>),
}

impl View for Placement {
    type V = PlacementPolicy;

    open spec fn view(&self) -> PlacementPolicy {
        match self {
            Placement::Crush => PlacementPolicy::Crush,
            Placement::CrushWithTopology(topology) => PlacementPolicy::CrushWithTopology(topology@),
            Placement::SemiAuto(lists) => PlacementPolicy::SemiAuto(lists@),
        }
    }
}

impl Placement {
    /// Begin a CRUSH placement builder.
    pub fn crush() -> (r: PlacementBuilder)
        ensures
            r == PlacementBuilder,
    {
        PlacementBuilder
    }

    /// Create semi-auto placement from explicit preference lists.
    pub fn semi_auto(preference_lists: OrderedMap<String, Vec<String>>) -> (r: Placement)
        ensures
            r@ == PlacementPolicy::SemiAuto(preference_lists@),
    {
        Placement::SemiAuto(preference_lists)
    }

    /// The placement as an administrator configures it.
    pub fn into_low_level(self) -> (r: PlacementSpec)
        ensures
            r@ == self@,
    {
        match self {
            Placement::Crush => PlacementSpec::Crush,
            Placement::CrushWithTopology(topology) => PlacementSpec::CrushWithTopology {
                topology: topology.into_low_level(),
            },
            Placement::SemiAuto(preference_lists) => PlacementSpec::SemiAuto { preference_lists },
        }
    }
}

/// Builder for CRUSH placement variants.
#[derive(Clone, Copy, Debug, Default)]
pub struct PlacementBuilder;

impl PlacementBuilder {
    /// Use CRUSH without an explicit topology.
    pub fn build(self) -> (r: Placement)
        ensures
            r@ == PlacementPolicy::Crush,
    {
        Placement::Crush
    }

    /// Use topology-aware CRUSH placement.
    pub fn topology(self, topology: Topology) -> (r: Placement)
        ensures
            r@ == PlacementPolicy::CrushWithTopology(topology@),
    {
        Placement::CrushWithTopology(topology)
    }
}

/// What a resource declaration says.
pub struct ResourceDecl {
    pub name: Seq<char>,
    pub partitions: usize,
    pub replicas: usize,
    pub placement: PlacementPolicy,
}

/// A resource declaration in a cluster specification.
#[derive(Clone, Debug, PartialEq, Eq)]
pub struct ResourceSpec {
    pub name: String,
    pub partitions: usize,
    pub replicas: usize,
    pub state_model: StateModel,
    pub placement: Placement,
}

impl DeepView for ResourceSpec {
    type V = ResourceDecl;

    open spec fn deep_view(&self) -> ResourceDecl {
        ResourceDecl {
            name: self.name@,
            partitions: self.partitions,
            replicas: self.replicas,
            placement: self.placement@,
        }
    }
}

impl ResourceDecl {
    /// The resource as an administrator configures it.
    pub open spec fn low_level(self) -> resources::ResourceSpecView {
        resources::ResourceSpecView {
            name: self.name,
            partitions: self.partitions,
            replicas: self.replicas,
            state_model: "LeaderStandby"@,
            placement: self.placement,
        }
    }
}

impl ResourceSpec {
    /// Declare a Leader/Standby resource.
    pub fn leader_standby(name: &str) -> (r: ResourceSpec)
        ensures
            r.deep_view() == (ResourceDecl {
                name: name@,
                partitions: 0,
                replicas: 0,
                placement: PlacementPolicy::Crush,
            }),
            r.state_model == StateModel::LeaderStandby,
    {
        ResourceSpec {
            name: name.to_owned(),
            partitions: 0,
            replicas: 0,
            state_model: StateModel::LeaderStandby,
            placement: Placement::Crush,
        }
    }

    /// Set the number of partitions.
    pub fn partitions(self, partitions: usize) -> (r: ResourceSpec)
        ensures
            r.deep_view() == (ResourceDecl { partitions, ..self.deep_view() }),
    {
        ResourceSpec { partitions, ..self }
    }

    /// Set the replication factor.
    pub fn replicas(self, replicas: usize) -> (r: ResourceSpec)
        ensures
            r.deep_view() == (ResourceDecl { replicas, ..self.deep_view() }),
    {
        ResourceSpec { replicas, ..self }
    }

    /// Set the placement strategy.
    pub fn placement(self, placement: Placement) -> (r: ResourceSpec)
        ensures
            r.deep_view() == (ResourceDecl { placement: placement@, ..self.deep_view() }),
    {
        ResourceSpec { placement, ..self }
    }

    /// The resource as an administrator configures it.
    pub fn into_low_level(self) -> (r: resources::ResourceSpec)
        ensures
            r@ == self.deep_view().low_level(),
    {
        resources::ResourceSpec {
            name: self.name,
            partitions: self.partitions,
            replicas: self.replicas,
            state_model: match self.state_model {
                StateModel::LeaderStandby => "LeaderStandby".to_owned(),
            },
            placement: self.placement.into_low_level(),
        }
    }
}

/// Some declaration before this one has the same identity.
pub open spec fn instance_repeats(instances: Seq<InstanceDecl>) -> bool {
    exists|i: int|
        0 <= i < instances.len() - 1 && (#[trigger] instances[i]).id == instances.last().id
}

/// The first reason why the instances may not be declared so.
pub open spec fn instances_fault(instances: Seq<InstanceDecl>) -> Option<Seq<char>>
    decreases instances.len(),
{
    if instances.len() == 0 {
        None
    } else {
        match instances_fault(instances.drop_last()) {
            Some(message) => Some(message),
            None => if instances.last().id.len() == 0 {
                Some(records::empty_identity(IdentifierKind::Instance))
            } else if !instances::storable(instances.last().zone) {
                Some(
                    "instance "@ + instances.last().id
                        + ": zone must not be empty or contain NUL"@,
                )
            } else if instance_repeats(instances) {
                Some("instance "@ + instances.last().id + " is declared more than once"@)
            } else {
                None
            },
        }
    }
}

/// Some declaration before this one has the same name.
pub open spec fn resource_repeats(resources: Seq<ResourceDecl>) -> bool {
    exists|i: int|
        0 <= i < resources.len() - 1 && (#[trigger] resources[i]).name == resources.last().name
}

/// Some preference list does not hold an instance for each replica.
pub open spec fn some_list_misses(lists: plans::Lists, replicas: usize) -> bool {
    exists|p: Seq<char>| #[trigger] lists.dom().contains(p) && lists[p].len() != replicas
}

/// Some preference list names an instance twice.
pub open spec fn some_list_repeats(lists: plans::Lists) -> bool {
    exists|p: Seq<char>| #[trigger] lists.dom().contains(p) && !lists[p].no_duplicates()
}

/// Why explicit preference lists do not fit the resource.
pub open spec fn lists_fault(resource: ResourceDecl) -> Option<Seq<char>> {
    match resource.placement {
        PlacementPolicy::SemiAuto(lists) => if ordered::in_order::<String, Seq<Seq<char>>>(
            lists,
        ).len() != resource.partitions || some_list_misses(lists, resource.replicas) {
            Some(
                "resource "@ + resource.name
                    + ": semi-auto lists must match partitions and replicas"@,
            )
        } else if some_list_repeats(lists) {
            Some(
                "resource "@ + resource.name
                    + ": semi-auto preference lists must not contain duplicate instances"@,
            )
        } else {
            None
        },
        _ => None,
    }
}

/// The first reason why the resources may not be declared so.
pub open spec fn resources_fault(resources: Seq<ResourceDecl>) -> Option<Seq<char>>
    decreases resources.len(),
{
    if resources.len() == 0 {
        None
    } else {
        match resources_fault(resources.drop_last()) {
            Some(message) => Some(message),
            None => if resources.last().name.len() == 0 {
                Some(records::empty_identity(IdentifierKind::Resource))
            } else if resources.last().partitions == 0 || resources.last().replicas == 0 {
                Some(
                    "resource "@ + resources.last().name
                        + ": partitions and replicas must be greater than zero"@,
                )
            } else if resource_repeats(resources) {
                Some("resource "@ + resources.last().name + " is declared more than once"@)
            } else {
                lists_fault(resources.last())
            },
        }
    }
}

/// What a cluster specification says.
pub struct SpecView {
    pub instances: Seq<InstanceDecl>,
    pub resources: Seq<ResourceDecl>,
}

impl SpecView {
    /// The first reason why the specification may not be applied.
    pub open spec fn fault(self) -> Option<Seq<char>> {
        match instances_fault(self.instances) {
            Some(message) => Some(message),
            None => resources_fault(self.resources),
        }
    }
}

/// A declarative, non-destructive cluster specification.
#[derive(Clone, Debug, PartialEq, Eq)]
pub struct ClusterSpec {
    instances: Vec<InstanceSpec>,
    resources: Vec<ResourceSpec>,
}

impl View for ClusterSpec {
    type V = SpecView;

    closed spec fn view(&self) -> SpecView {
        SpecView {
            instances: self.instances.deep_view(),
            resources: self.resources.deep_view(),
        }
    }
}

impl Default for ClusterSpec {
    fn default() -> (r: ClusterSpec)
        ensures
            r@.instances == Seq::<InstanceDecl>::empty(),
            r@.resources == Seq::<ResourceDecl>::empty(),
    {
        let r = ClusterSpec { instances: Vec::new(), resources: Vec::new() };
        proof {
            assert(r@.instances =~= Seq::empty());
            assert(r@.resources =~= Seq::empty());
        }
        r
    }
}

proof fn instances_prefix(instances: Seq<InstanceDecl>, i: int)
    requires
        0 <= i <= instances.len(),
        instances_fault(instances.take(i)) is Some,
    ensures
        instances_fault(instances) == instances_fault(instances.take(i)),
    decreases instances.len() - i,
{
    if i < instances.len() {
        assert(instances.take(i + 1).drop_last() =~= instances.take(i));
        instances_prefix(instances, i + 1);
    } else {
        assert(instances.take(i) =~= instances);
    }
}

proof fn resources_prefix(resources: Seq<ResourceDecl>, i: int)
    requires
        0 <= i <= resources.len(),
        resources_fault(resources.take(i)) is Some,
    ensures
        resources_fault(resources) == resources_fault(resources.take(i)),
    decreases resources.len() - i,
{
    if i < resources.len() {
        assert(resources.take(i + 1).drop_last() =~= resources.take(i));
        resources_prefix(resources, i + 1);
    } else {
        assert(resources.take(i) =~= resources);
    }
}

fn spec_error(start: &str, name: &str, rest: &str) -> (r: ApplicationError)
    ensures
        r@ == ApplicationFault::Spec(start@ + name@ + rest@),
{
    ApplicationError::Spec(start.to_owned().concat(name).concat(rest))
}

fn check_instances(instances: &Vec<InstanceSpec>) -> (r: Result<(), ApplicationError>)
    ensures
        match r {
            Ok(()) => instances_fault(instances.deep_view()) is None,
            Err(error) => instances_fault(instances.deep_view()) matches Some(message) && error@
                == ApplicationFault::Spec(message),
        },
{
    let ghost all = instances.deep_view();
    let mut i: usize = 0;
    assert(all.take(0) =~= Seq::empty());
    while i < instances.len()
        invariant
            i <= instances@.len(),
            all == instances.deep_view(),
            instances_fault(all.take(i as int)) is None,
        decreases instances@.len() - i,
    {
        let instance = &instances[i];
        let ghost longer = all.take(i + 1);
        proof {
            assert(longer.drop_last() =~= all.take(i as int));
            assert(longer.last() == instance.deep_view());
            if instances_fault(longer) is Some {
                instances_prefix(all, i + 1);
            }
        }
        if let Err(error) = InstanceId::new(instance.instance_id.as_str()) {
            return Err(ApplicationError::Spec(error.to_string()));
        }
        if !instances::is_storable(instance.zone.as_str()) {
            return Err(
                spec_error(
                    "instance ",
                    instance.instance_id.as_str(),
                    ": zone must not be empty or contain NUL",
                ),
            );
        }
        let mut j: usize = 0;
        while j < i
            invariant
                j <= i < instances@.len(),
                all == instances.deep_view(),
                longer == all.take(i + 1),
                instance == instances@[i as int],
                longer.last() == instance.deep_view(),
                instances_fault(longer.drop_last()) is None,
                instance.deep_view().id.len() > 0,
                instances::storable(instance.deep_view().zone),
                instances_fault(longer) is Some ==> instances_fault(all) == instances_fault(longer),
                forall|k: int| 0 <= k < j ==> (#[trigger] longer[k]).id != longer.last().id,
            decreases i - j,
        {
            assert(longer[j as int] == instances@[j as int].deep_view());
            if text::text_eq(instances[j].instance_id.as_str(), instance.instance_id.as_str()) {
                assert(instance_repeats(longer));
                return Err(
                    spec_error(
                        "instance ",
                        instance.instance_id.as_str(),
                        " is declared more than once",
                    ),
                );
            }
            j = j + 1;
        }
        assert(!instance_repeats(longer));
        i = i + 1;
    }
    assert(all.take(i as int) =~= all);
    Ok(())
}

fn list_misses(lists: &OrderedMap<String, Vec<String>>, replicas: usize) -> (r: bool)
    ensures
        r == some_list_misses(lists@, replicas),
{
    let ghost all = lists.listing();
    let n: usize = lists.len();
    let mut i: usize = 0;
    while i < n
        invariant
            i <= n,
            n == all.len(),
            all == lists.listing(),
            ordered::lists::<String, Seq<Seq<char>>>(all, lists@),
            forall|j: int| 0 <= j < i ==> (#[trigger] all[j]).1.len() == replicas,
        decreases n - i,
    {
        let partition = lists.key_at(i);
        let instances = lists.value_at(i);
        assert(instances.deep_view().len() == instances@.len());
        if instances.len() != replicas {
            assert(lists@.dom().contains(partition@));
            return true;
        }
        i = i + 1;
    }
    proof {
        if some_list_misses(lists@, replicas) {
            let p = choose|p: Seq<char>| #[trigger]
                lists@.dom().contains(p) && lists@[p].len() != replicas;
            let j = ordered::map_of_position(all, p);
            assert(all[j].1.len() == replicas);
        }
    }
    false
}

fn list_repeats(lists: &OrderedMap<String, Vec<String>>) -> (r: bool)
    ensures
        r == some_list_repeats(lists@),
{
    let ghost all = lists.listing();
    let n: usize = lists.len();
    let mut i: usize = 0;
    while i < n
        invariant
            i <= n,
            n == all.len(),
            all == lists.listing(),
            ordered::lists::<String, Seq<Seq<char>>>(all, lists@),
            forall|j: int| 0 <= j < i ==> (#[trigger] all[j]).1.no_duplicates(),
        decreases n - i,
    {
        let partition = lists.key_at(i);
        if !all_differ(lists.value_at(i)) {
            assert(lists@.dom().contains(partition@));
            return true;
        }
        i = i + 1;
    }
    proof {
        if some_list_repeats(lists@) {
            let p = choose|p: Seq<char>| #[trigger]
                lists@.dom().contains(p) && !lists@[p].no_duplicates();
            let j = ordered::map_of_position(all, p);
            assert(all[j].1.no_duplicates());
        }
    }
    false
}

fn check_lists(resource: &ResourceSpec) -> (r: Result<(), ApplicationError>)
    ensures
        match r {
            Ok(()) => lists_fault(resource.deep_view()) is None,
            Err(error) => lists_fault(resource.deep_view()) matches Some(message) && error@
                == ApplicationFault::Spec(message),
        },
{
    if let Placement::SemiAuto(lists) = &resource.placement {
        if lists.len() != resource.partitions || list_misses(lists, resource.replicas) {
            return Err(
                spec_error(
                    "resource ",
                    resource.name.as_str(),
                    ": semi-auto lists must match partitions and replicas",
                ),
            );
        }
        if list_repeats(lists) {
            return Err(
                spec_error(
                    "resource ",
                    resource.name.as_str(),
                    ": semi-auto preference lists must not contain duplicate instances",
                ),
            );
        }
    }
    Ok(())
}

fn check_resources(resources: &Vec<ResourceSpec>) -> (r: Result<(), ApplicationError>)
    ensures
        match r {
            Ok(()) => resources_fault(resources.deep_view()) is None,
            Err(error) => resources_fault(resources.deep_view()) matches Some(message) && error@
                == ApplicationFault::Spec(message),
        },
{
    let ghost all = resources.deep_view();
    let mut i: usize = 0;
    assert(all.take(0) =~= Seq::empty());
    while i < resources.len()
        invariant
            i <= resources@.len(),
            all == resources.deep_view(),
            resources_fault(all.take(i as int)) is None,
        decreases resources@.len() - i,
    {
        let resource = &resources[i];
        let ghost longer = all.take(i + 1);
        proof {
            assert(longer.drop_last() =~= all.take(i as int));
            assert(longer.last() == resource.deep_view());
            if resources_fault(longer) is Some {
                resources_prefix(all, i + 1);
            }
        }
        if let Err(error) = ResourceId::new(resource.name.as_str()) {
            return Err(ApplicationError::Spec(error.to_string()));
        }
        if resource.partitions == 0 || resource.replicas == 0 {
            return Err(
                spec_error(
                    "resource ",
                    resource.name.as_str(),
                    ": partitions and replicas must be greater than zero",
                ),
            );
        }
        let mut j: usize = 0;
        while j < i
            invariant
                j <= i < resources@.len(),
                all == resources.deep_view(),
                longer == all.take(i + 1),
                resource == resources@[i as int],
                longer.last() == resource.deep_view(),
                resources_fault(longer.drop_last()) is None,
                resource.deep_view().name.len() > 0,
                resource.deep_view().partitions > 0,
                resource.deep_view().replicas > 0,
                resources_fault(longer) is Some ==> resources_fault(all) == resources_fault(longer),
                forall|k: int| 0 <= k < j ==> (#[trigger] longer[k]).name != longer.last().name,
            decreases i - j,
        {
            assert(longer[j as int] == resources@[j as int].deep_view());
            if text::text_eq(resources[j].name.as_str(), resource.name.as_str()) {
                assert(resource_repeats(longer));
                return Err(
                    spec_error("resource ", resource.name.as_str(), " is declared more than once"),
                );
            }
            j = j + 1;
        }
        assert(!resource_repeats(longer));
        if let Err(error) = check_lists(resource) {
            return Err(error);
        }
        i = i + 1;
    }
    assert(all.take(i as int) =~= all);
    Ok(())
}

impl ClusterSpec {
    /// Create an empty specification.
    pub fn new() -> (r: ClusterSpec)
        ensures
            r@.instances == Seq::<InstanceDecl>::empty(),
            r@.resources == Seq::<ResourceDecl>::empty(),
    {
        ClusterSpec::default()
    }

    /// Add instance declarations. Omitted existing instances are retained.
    pub fn instances(self, instances: Vec<InstanceSpec>) -> (r: ClusterSpec)
        ensures
            r@.instances == self@.instances + instances.deep_view(),
            r@.resources == self@.resources,
    {
        let mut spec = self;
        let ghost before = spec.instances.deep_view();
        let mut added = instances;
        let ghost more = added.deep_view();
        spec.instances.append(&mut added);
        assert(spec.instances.deep_view() =~= before + more);
        spec
    }

    /// Add a resource declaration.
    pub fn resource(self, resource: ResourceSpec) -> (r: ClusterSpec)
        ensures
            r@.instances == self@.instances,
            r@.resources == self@.resources.push(resource.deep_view()),
    {
        let mut spec = self;
        let ghost before = spec.resources.deep_view();
        let ghost model = resource.deep_view();
        spec.resources.push(resource);
        assert(spec.resources.deep_view() =~= before.push(model));
        spec
    }

    /// Validate the specification before it is applied.
    pub fn validate(&self) -> (r: Result<(), ApplicationError>)
        ensures
            match r {
                Ok(()) => self@.fault() is None,
                Err(error) => self@.fault() matches Some(message) && error@
                    == ApplicationFault::Spec(message),
            },
    {
        if let Err(error) = check_instances(&self.instances) {
            return Err(error);
        }
        check_resources(&self.resources)
    }

    /// The declarations, in the order in which they are applied: instances
    /// before resources.
    pub fn into_parts(self) -> (r: (Vec<InstanceSpec>, Vec<ResourceSpec>))
        ensures
            r.0.deep_view() == self@.instances,
            r.1.deep_view() == self@.resources,
    {
        (self.instances, self.resources)
    }
}

proof fn instance_is_valid(instances: Seq<InstanceDecl>, i: int)
    requires
        instances_fault(instances) is None,
        0 <= i < instances.len(),
    ensures
        instances[i].id.len() > 0,
        instances::storable(instances[i].zone),
        forall|j: int| 0 <= j < i ==> (#[trigger] instances[j]).id != instances[i].id,
    decreases instances.len(),
{
    if i < instances.len() - 1 {
        instance_is_valid(instances.drop_last(), i);
        assert(instances.drop_last()[i] == instances[i]);
        assert forall|j: int| 0 <= j < i implies (#[trigger] instances[j]).id != instances[i].id by {
            assert(instances.drop_last()[j] == instances[j]);
        }
    }
}

/// Every instance of a valid specification can be configured, and none is
/// declared twice.
pub proof fn valid_instances_can_be_configured(spec: SpecView, i: int, j: int)
    requires
        spec.fault() is None,
        0 <= j < i < spec.instances.len(),
    ensures
        instances::instance_fault(spec.instances[i].id, spec.instances[i].zone) is None,
        instances::instance_fault(spec.instances[j].id, spec.instances[j].zone) is None,
        spec.instances[i].id != spec.instances[j].id,
{
    instance_is_valid(spec.instances, i);
    instance_is_valid(spec.instances, j);
}

proof fn resource_is_valid(resources: Seq<ResourceDecl>, i: int)
    requires
        resources_fault(resources) is None,
        0 <= i < resources.len(),
    ensures
        resources[i].name.len() > 0,
        resources[i].partitions > 0,
        resources[i].replicas > 0,
        lists_fault(resources[i]) is None,
        forall|j: int| 0 <= j < i ==> (#[trigger] resources[j]).name != resources[i].name,
    decreases resources.len(),
{
    if i < resources.len() - 1 {
        resource_is_valid(resources.drop_last(), i);
        assert(resources.drop_last()[i] == resources[i]);
        assert forall|j: int| 0 <= j < i implies (#[trigger] resources[j]).name
            != resources[i].name by {
            assert(resources.drop_last()[j] == resources[j]);
        }
    }
}

/// No resource of a valid specification is declared twice.
pub proof fn valid_resources_differ(spec: SpecView, i: int, j: int)
    requires
        spec.fault() is None,
        0 <= j < i < spec.resources.len(),
    ensures
        spec.resources[i].name != spec.resources[j].name,
{
    resource_is_valid(spec.resources, i);
}

/// The preference lists name their partitions and instances.
pub open spec fn lists_are_named(lists: plans::Lists) -> bool {
    forall|p: Seq<char>| #[trigger]
        lists.dom().contains(p) ==> p.len() > 0 && !plans::has_empty(lists[p])
}

proof fn listed_are_valid(listing: Seq<(Seq<char>, Seq<Seq<char>>)>, replicas: usize)
    requires
        forall|i: int|
            0 <= i < listing.len() ==> resources::list_fault(
                (#[trigger] listing[i]).0,
                listing[i].1,
                replicas,
            ) is None,
    ensures
        resources::lists_fault(listing, replicas) is None,
    decreases listing.len(),
{
    if listing.len() > 0 {
        assert forall|i: int| 0 <= i < listing.drop_last().len() implies resources::list_fault(
            (#[trigger] listing.drop_last()[i]).0,
            listing.drop_last()[i].1,
            replicas,
        ) is None by {
            assert(listing[i] == listing.drop_last()[i]);
        }
        listed_are_valid(listing.drop_last(), replicas);
        assert(listing[listing.len() - 1] == listing.last());
    }
}

/// Every resource of a valid specification can be configured, as long as its
/// explicit preference lists name their partitions and instances.
pub proof fn valid_resources_can_be_configured(spec: SpecView, i: int)
    requires
        spec.fault() is None,
        0 <= i < spec.resources.len(),
        spec.resources[i].placement matches PlacementPolicy::SemiAuto(lists) ==> lists.dom().finite()
            && lists_are_named(lists),
    ensures
        resources::resource_fault(spec.resources[i].low_level()) is None,
{
    let resource = spec.resources[i];
    resource_is_valid(spec.resources, i);
    if let PlacementPolicy::SemiAuto(lists) = resource.placement {
        ordered::finite_map_is_listed::<String, Seq<Seq<char>>>(lists);
        let listing = ordered::in_order::<String, Seq<Seq<char>>>(lists);
        assert forall|k: int| 0 <= k < listing.len() implies resources::list_fault(
            (#[trigger] listing[k]).0,
            listing[k].1,
            resource.replicas,
        ) is None by {
            ordered::map_of_at::<String, Seq<Seq<char>>>(listing, k);
            assert(lists.dom().contains(listing[k].0));
        }
        listed_are_valid(listing, resource.replicas);
    }
}

/// The resources that a participant handles, or the first reason why they may
/// not be registered so.
pub open spec fn handled(names: Seq<Seq<char>>) -> Option<Seq<char>>
    decreases names.len(),
{
    if names.len() == 0 {
        None
    } else {
        match handled(names.drop_last()) {
            Some(message) => Some(message),
            None => if names.last().len() == 0 {
                Some(records::empty_identity(IdentifierKind::Resource))
            } else if names.drop_last().contains(names.last()) {
                Some("participant resource handler declared more than once"@)
            } else {
                None
            },
        }
    }
}

proof fn handled_prefix(names: Seq<Seq<char>>, i: int)
    requires
        0 <= i <= names.len(),
        handled(names.take(i)) is Some,
    ensures
        handled(names) == handled(names.take(i)),
    decreases names.len() - i,
{
    if i < names.len() {
        assert(names.take(i + 1).drop_last() =~= names.take(i));
        handled_prefix(names, i + 1);
    } else {
        assert(names.take(i) =~= names);
    }
}

/// The resources that a participant handles. Each is named, and registered
/// once.
pub fn handled_resources(names: &Vec<String>) -> (r: Result<Vec<ResourceId>, ApplicationError>)
    ensures
        match r {
            Ok(resources) => handled(names.deep_view()) is None && resources.deep_view()
                == names.deep_view(),
            Err(error) => handled(names.deep_view()) matches Some(message) && error@
                == ApplicationFault::Spec(message),
        },
{
    let ghost all = names.deep_view();
    let mut out: Vec<ResourceId> = Vec::new();
    let mut i: usize = 0;
    proof {
        assert(all.take(0) =~= Seq::empty());
        assert(out.deep_view() =~= all.take(0));
    }
    while i < names.len()
        invariant
            i <= names@.len(),
            all == names.deep_view(),
            handled(all.take(i as int)) is None,
            out.deep_view() == all.take(i as int),
        decreases names@.len() - i,
    {
        let ghost shorter = all.take(i as int);
        let ghost longer = all.take(i + 1);
        let ghost before = out.deep_view();
        proof {
            assert(longer.drop_last() =~= shorter);
            assert(longer.last() == names@[i as int]@);
            if handled(longer) is Some {
                handled_prefix(all, i + 1);
            }
        }
        let resource = match ResourceId::new(names[i].as_str()) {
            Ok(resource) => resource,
            Err(error) => {
                return Err(ApplicationError::Spec(error.to_string()));
            },
        };
        let mut j: usize = 0;
        while j < i
            invariant
                j <= i < names@.len(),
                all == names.deep_view(),
                shorter == all.take(i as int),
                longer == all.take(i + 1),
                longer.drop_last() == shorter,
                longer.last() == names@[i as int]@,
                handled(shorter) is None,
                longer.last().len() > 0,
                handled(longer) is Some ==> handled(all) == handled(longer),
                forall|k: int| 0 <= k < j ==> #[trigger] shorter[k] != longer.last(),
            decreases i - j,
        {
            assert(shorter[j as int] == names@[j as int]@);
            if text::text_eq(names[j].as_str(), names[i].as_str()) {
                assert(shorter.contains(longer.last()));
                return Err(
                    ApplicationError::Spec(
                        "participant resource handler declared more than once".to_owned(),
                    ),
                );
            }
            j = j + 1;
        }
        let ghost model = resource@;
        out.push(resource);
        proof {
            assert(!shorter.contains(longer.last()));
            assert(out.deep_view() =~= before.push(model));
            assert(longer =~= shorter.push(model));
        }
        i = i + 1;
    }
    assert(all.take(i as int) =~= all);
    Ok(out)
}

} // verus!
