//! Placement plans of the configured resources.
use crate::controller::error::{ControllerRuntimeError, RuntimeFault};
use crate::controller::records::{self, CrushTopologyRecord, ResourceEntry};
use crate::model::ideal_state;
use crate::model::identity::IdentifierKind;
use crate::model::{IdealState, InstanceId, PartitionId, ResourceId};
use crate::ordered::{self, Duplicate, Key, OrderedMap, OrderedSet};
use crate::text;
use vstd::prelude::*;
use vstd::string::*;

verus! {

/// Preference lists by partition.
pub type Lists = Map<Seq<char>, Seq<Seq<char>>>;

/// Placement of one resource.
pub struct ResourcePlan {
    pub resource: ResourceId,
    pub ideal: IdealState,
}

/// What a placement plan says.
#[verifier::ext_equal]
pub struct PlanView {
    pub resource: Seq<char>,
    pub ideal: ideal_state::IdealStateView,
}

impl DeepView for ResourcePlan {
    type V = PlanView;

    open spec fn deep_view(&self) -> PlanView {
        PlanView { resource: self.resource@, ideal: self.ideal@ }
    }
}

/// A request to spread the partitions of a resource over the instances.
pub struct AssignmentRequest {
    pub resource: ResourceId,
    pub partitions: Vec<PartitionId>,
    pub replicas: usize,
    pub zones: OrderedMap<InstanceId, String>,
    pub live: OrderedSet<InstanceId>,
    pub topology: CrushTopologyRecord,
}

/// What an assignment request says.
#[verifier::ext_equal]
pub struct AssignmentView {
    pub resource: Seq<char>,
    pub partitions: Seq<Seq<char>>,
    pub replicas: usize,
    pub zones: Map<Seq<char>, Seq<char>>,
    pub live: Set<Seq<char>>,
    pub topology: records::TopologyView,
}

impl View for AssignmentRequest {
    type V = AssignmentView;

    open spec fn view(&self) -> AssignmentView {
        AssignmentView {
            resource: self.resource@,
            partitions: self.partitions.deep_view(),
            replicas: self.replicas,
            zones: self.zones@,
            live: self.live@,
            topology: self.topology.deep_view(),
        }
    }
}

/// The answer to an assignment request: preference lists, or a message.
pub struct AssignmentAnswer {
    pub lists: Result<OrderedMap<PartitionId, Vec<InstanceId>>, String>,
}

impl DeepView for AssignmentAnswer {
    type V = Result<Lists, Seq<char>>;

    open spec fn deep_view(&self) -> Result<Lists, Seq<char>> {
        match self.lists {
            Ok(lists) => Ok(lists@),
            Err(message) => Err(message@),
        }
    }
}

/// What the plan of one resource comes to.
pub enum PlanOutcome {
    /// The plan.
    Plan(PlanView),
    /// The partitions must be assigned first.
    Ask(AssignmentView),
    /// The resource cannot be planned.
    Fail(Seq<char>),
}

/// The topology of a placement that names none.
pub open spec fn flat_topology() -> records::TopologyView {
    records::TopologyView {
        path: "/instance"@,
        fault_zone_type: "instance"@,
        end_node_type: "instance"@,
    }
}

/// Some text is empty.
pub open spec fn has_empty(names: Seq<Seq<char>>) -> bool {
    exists|i: int| 0 <= i < names.len() && (#[trigger] names[i]).len() == 0
}

/// The message for the first explicit preference list that names an empty
/// partition or instance, if any.
pub open spec fn lists_fault(listing: Seq<(Seq<char>, Seq<Seq<char>>)>) -> Option<Seq<char>>
    decreases listing.len(),
{
    if listing.len() == 0 {
        None
    } else {
        match lists_fault(listing.drop_last()) {
            Some(message) => Some(message),
            None => if listing.last().0.len() == 0 {
                Some(records::empty_identity(IdentifierKind::Partition))
            } else if has_empty(listing.last().1) {
                Some(records::empty_identity(IdentifierKind::Instance))
            } else {
                None
            },
        }
    }
}

/// The length of the shortest preference list.
pub open spec fn shortest(listing: Seq<(Seq<char>, Seq<Seq<char>>)>) -> nat
    decreases listing.len(),
{
    if listing.len() == 0 {
        0
    } else if listing.len() == 1 {
        listing[0].1.len()
    } else {
        let before = shortest(listing.drop_last());
        if listing.last().1.len() < before {
            listing.last().1.len()
        } else {
            before
        }
    }
}

/// Why the first preference list that does not fit the replica count may not
/// be placed, if there is one.
pub open spec fn placement_fault(
    resource: Seq<char>,
    replicas: usize,
    listing: Seq<(Seq<char>, Seq<Seq<char>>)>,
) -> Option<Seq<char>>
    decreases listing.len(),
{
    if listing.len() == 0 {
        None
    } else {
        match placement_fault(resource, replicas, listing.drop_last()) {
            Some(message) => Some(message),
            None => {
                let before = ideal_state::IdealStateView {
                    resource,
                    replicas,
                    lists: ordered::map_of(listing.drop_last()),
                };
                match before.list_fault(listing.last().0, listing.last().1) {
                    Some(fault) => Some(fault.text()),
                    None => None,
                }
            },
        }
    }
}

/// The placement by preference lists, or the message for what is wrong.
pub open spec fn placed(resource: Seq<char>, replicas: usize, lists: Lists) -> PlanOutcome {
    match placement_fault(
        resource,
        replicas,
        ordered::in_order::<PartitionId, Seq<Seq<char>>>(lists),
    ) {
        Some(message) => PlanOutcome::Fail(message),
        None => if lists == Lists::empty() {
            PlanOutcome::Fail(ideal_state::IdealStateFault::NoPartitions.text())
        } else {
            PlanOutcome::Plan(
                PlanView {
                    resource,
                    ideal: ideal_state::IdealStateView { resource, replicas, lists },
                },
            )
        },
    }
}

/// The smaller of a replica count and the number of live instances.
pub open spec fn live_replicas(replicas: usize, live: nat) -> usize {
    if live < replicas {
        live as usize
    } else {
        replicas
    }
}

/// What the plan of a resource comes to, given the answer to its assignment
/// request where there is one.
pub open spec fn plan_of(
    entry: records::ResourceEntryView,
    zones: Map<Seq<char>, Seq<char>>,
    live: Set<Seq<char>>,
    answer: Option<Result<Lists, Seq<char>>>,
) -> PlanOutcome {
    match entry.record {
        Err(message) => PlanOutcome::Fail(message),
        Ok(record) => if record.name != entry.key_name {
            PlanOutcome::Fail(
                "resource metadata key "@ + entry.key_name + " disagrees with resource name "@
                    + record.name,
            )
        } else if record.state_model != "LeaderStandby"@ {
            PlanOutcome::Fail("unsupported M10 state model "@ + record.state_model)
        } else if record.name.len() == 0 {
            PlanOutcome::Fail(records::empty_identity(IdentifierKind::Resource))
        } else if record.placement.kind == "CRUSH"@ {
            if has_empty(record.placement.partitions) {
                PlanOutcome::Fail(records::empty_identity(IdentifierKind::Partition))
            } else {
                match answer {
                    None => PlanOutcome::Ask(
                        AssignmentView {
                            resource: record.name,
                            partitions: record.placement.partitions,
                            replicas: live_replicas(
                                record.placement.replicas,
                                ordered::members_in_order::<InstanceId>(live).len(),
                            ),
                            zones,
                            live,
                            topology: match record.placement.topology {
                                Some(topology) => topology,
                                None => flat_topology(),
                            },
                        },
                    ),
                    Some(Err(message)) => PlanOutcome::Fail(message),
                    Some(Ok(lists)) => placed(
                        record.name,
                        shortest(ordered::in_order::<PartitionId, Seq<Seq<char>>>(lists)) as usize,
                        lists,
                    ),
                }
            }
        } else if record.placement.kind == "SEMI_AUTO"@ {
            match lists_fault(
                ordered::in_order::<String, Seq<Seq<char>>>(record.placement.lists),
            ) {
                Some(message) => PlanOutcome::Fail(message),
                None => placed(record.name, record.placement.replicas, record.placement.lists),
            }
        } else {
            PlanOutcome::Fail("unsupported M10 placement kind "@ + record.placement.kind)
        },
    }
}

/// The plan of the resource takes an assignment.
pub open spec fn takes_assignment(entry: records::ResourceEntryView) -> bool {
    entry.record matches Ok(record) && record.placement.kind == "CRUSH"@
}

/// What the plans of all resources come to.
pub enum PlansOutcome {
    /// The plans, and how many answers they took.
    Plans(Seq<PlanView>, nat),
    /// The partitions of a resource must be assigned first.
    Ask(AssignmentView),
    /// Some resource cannot be planned.
    Fail(Seq<char>),
}

/// What the plans of the resources come to, given the answers so far: the
/// plans, or the first resource that fails or needs another answer.
pub open spec fn plans_of(
    entries: Seq<records::ResourceEntryView>,
    zones: Map<Seq<char>, Seq<char>>,
    live: Set<Seq<char>>,
    answers: Seq<Result<Lists, Seq<char>>>,
) -> PlansOutcome
    decreases entries.len(),
{
    if entries.len() == 0 {
        PlansOutcome::Plans(Seq::empty(), 0)
    } else {
        match plans_of(entries.drop_last(), zones, live, answers) {
            PlansOutcome::Plans(before, used) => {
                let answer = if used < answers.len() {
                    Some(answers[used as int])
                } else {
                    None
                };
                match plan_of(entries.last(), zones, live, answer) {
                    PlanOutcome::Plan(plan) => PlansOutcome::Plans(
                        before.push(plan),
                        if takes_assignment(entries.last()) {
                            used + 1
                        } else {
                            used
                        },
                    ),
                    PlanOutcome::Ask(request) => PlansOutcome::Ask(request),
                    PlanOutcome::Fail(message) => PlansOutcome::Fail(message),
                }
            },
            outcome => outcome,
        }
    }
}

proof fn plans_prefix(
    entries: Seq<records::ResourceEntryView>,
    zones: Map<Seq<char>, Seq<char>>,
    live: Set<Seq<char>>,
    answers: Seq<Result<Lists, Seq<char>>>,
    i: int,
)
    requires
        0 <= i <= entries.len(),
        plans_of(entries.take(i), zones, live, answers) !is Plans,
    ensures
        plans_of(entries, zones, live, answers) == plans_of(
            entries.take(i),
            zones,
            live,
            answers,
        ),
    decreases entries.len(),
{
    if i == entries.len() {
        assert(entries.take(i) =~= entries);
    } else {
        assert(entries.drop_last().take(i) =~= entries.take(i));
        plans_prefix(entries.drop_last(), zones, live, answers, i);
    }
}

/// Every plan is for the resource that its metadata names, with a replica in
/// each preference list for each wanted replica and no instance twice.
pub proof fn plans_are_well_formed(resource: Seq<char>, replicas: usize, lists: Lists, p: Seq<char>)
    requires
        lists.dom().finite(),
        placed(resource, replicas, lists) is Plan,
        lists.dom().contains(p),
    ensures
        lists[p].len() == replicas,
        lists[p].no_duplicates(),
{
    let listing = ordered::in_order::<PartitionId, Seq<Seq<char>>>(lists);
    ordered::finite_map_is_listed::<PartitionId, Seq<Seq<char>>>(lists);
    let k = ordered::map_of_position(listing, p);
    ordered::map_of_at::<PartitionId, Seq<Seq<char>>>(listing, k);
    placement_fault_none(resource, replicas, listing, k);
}

proof fn placement_fault_none(
    resource: Seq<char>,
    replicas: usize,
    listing: Seq<(Seq<char>, Seq<Seq<char>>)>,
    k: int,
)
    requires
        placement_fault(resource, replicas, listing) is None,
        0 <= k < listing.len(),
    ensures
        listing[k].1.len() == replicas,
        listing[k].1.no_duplicates(),
    decreases listing.len(),
{
    if k < listing.len() - 1 {
        placement_fault_none(resource, replicas, listing.drop_last(), k);
    }
}

/// What the plans of all resources come to.
pub enum PlansStep {
    Plans(Vec<ResourcePlan>),
    Ask(AssignmentRequest),
    Fail(ControllerRuntimeError),
}

enum PlanStep {
    Plan(ResourcePlan),
    Ask(AssignmentRequest),
    Fail(ControllerRuntimeError),
}

impl PlanStep {
    spec fn matches(self, outcome: PlanOutcome) -> bool {
        match (self, outcome) {
            (PlanStep::Plan(plan), PlanOutcome::Plan(model)) => plan.deep_view() == model,
            (PlanStep::Ask(request), PlanOutcome::Ask(model)) => request@ == model,
            (PlanStep::Fail(error), PlanOutcome::Fail(message)) => error@
                == RuntimeFault::of_message(message),
            _ => false,
        }
    }
}

impl PlansStep {
    /// The step is what the plans come to.
    pub open spec fn matches(self, outcome: PlansOutcome) -> bool {
        match (self, outcome) {
            (PlansStep::Plans(plans), PlansOutcome::Plans(model, _)) => plans.deep_view() == model,
            (PlansStep::Ask(request), PlansOutcome::Ask(model)) => request@ == model,
            (PlansStep::Fail(error), PlansOutcome::Fail(message)) => error@
                == RuntimeFault::of_message(message),
            _ => false,
        }
    }
}

fn fail(message: String) -> (r: PlanStep)
    ensures
        r.matches(PlanOutcome::Fail(message@)),
{
    PlanStep::Fail(ControllerRuntimeError::message(message))
}

fn partition_ids(names: &Vec<String>) -> (r: Option<Vec<PartitionId>>)
    ensures
        match r {
            Some(ids) => !has_empty(names.deep_view()) && ids.deep_view() == names.deep_view(),
            None => has_empty(names.deep_view()),
        },
{
    let ghost all = names.deep_view();
    let mut out: Vec<PartitionId> = Vec::new();
    let mut i: usize = 0;
    assert(out.deep_view() =~= all.take(0));
    while i < names.len()
        invariant
            i <= names@.len(),
            all == names.deep_view(),
            out.deep_view() == all.take(i as int),
            forall|j: int| 0 <= j < i ==> (#[trigger] all[j]).len() > 0,
        decreases names@.len() - i,
    {
        let ghost before = out.deep_view();
        assert(all[i as int] == names@[i as int]@);
        match PartitionId::new(names[i].as_str()) {
            Ok(id) => {
                let ghost model = id@;
                out.push(id);
                assert(out.deep_view() =~= before.push(model));
                assert(all.take(i + 1) =~= all.take(i as int).push(all[i as int]));
            },
            Err(_) => {
                return None;
            },
        }
        i = i + 1;
    }
    assert(all.take(names@.len() as int) =~= all);
    Some(out)
}

fn instance_ids(names: &Vec<String>) -> (r: Option<Vec<InstanceId>>)
    ensures
        match r {
            Some(ids) => !has_empty(names.deep_view()) && ids.deep_view() == names.deep_view(),
            None => has_empty(names.deep_view()),
        },
{
    let ghost all = names.deep_view();
    let mut out: Vec<InstanceId> = Vec::new();
    let mut i: usize = 0;
    assert(out.deep_view() =~= all.take(0));
    while i < names.len()
        invariant
            i <= names@.len(),
            all == names.deep_view(),
            out.deep_view() == all.take(i as int),
            forall|j: int| 0 <= j < i ==> (#[trigger] all[j]).len() > 0,
        decreases names@.len() - i,
    {
        let ghost before = out.deep_view();
        assert(all[i as int] == names@[i as int]@);
        match InstanceId::new(names[i].as_str()) {
            Ok(id) => {
                let ghost model = id@;
                out.push(id);
                assert(out.deep_view() =~= before.push(model));
                assert(all.take(i + 1) =~= all.take(i as int).push(all[i as int]));
            },
            Err(_) => {
                return None;
            },
        }
        i = i + 1;
    }
    assert(all.take(names@.len() as int) =~= all);
    Some(out)
}

proof fn lists_fault_prefix(listing: Seq<(Seq<char>, Seq<Seq<char>>)>, i: int)
    requires
        0 <= i <= listing.len(),
        lists_fault(listing.take(i)) is Some,
    ensures
        lists_fault(listing) == lists_fault(listing.take(i)),
    decreases listing.len(),
{
    if i == listing.len() {
        assert(listing.take(i) =~= listing);
    } else {
        assert(listing.drop_last().take(i) =~= listing.take(i));
        lists_fault_prefix(listing.drop_last(), i);
    }
}

fn explicit_lists(lists: &OrderedMap<String, Vec<String>>) -> (r: Result<
    OrderedMap<PartitionId, Vec<InstanceId>>,
    String,
>)
    ensures
        match r {
            Ok(found) => lists_fault(lists.listing()) is None && found@ == lists@,
            Err(message) => lists_fault(lists.listing()) == Some(message@),
        },
{
    let ghost all = lists.listing();
    let n: usize = lists.len();
    let mut found: OrderedMap<PartitionId, Vec<InstanceId>> = OrderedMap::new();
    let mut i: usize = 0;
    proof {
        ordered::map_of_ends(all);
        assert(all.take(0) =~= Seq::empty());
    }
    while i < n
        invariant
            i <= n,
            n == all.len(),
            all == lists.listing(),
            ordered::lists::<String, Seq<Seq<char>>>(all, lists@),
            lists_fault(all.take(i as int)) is None,
            found@ == ordered::map_of(all.take(i as int)),
        decreases n - i,
    {
        proof {
            assert(all.take(i + 1).drop_last() =~= all.take(i as int));
            assert(all.take(i + 1).last() == all[i as int]);
            ordered::map_of_step::<String, Seq<Seq<char>>>(all, i as int);
            if lists_fault(all.take(i + 1)) is Some {
                lists_fault_prefix(all, i + 1);
            }
        }
        let partition = match PartitionId::new(lists.key_at(i).as_str()) {
            Ok(partition) => partition,
            Err(error) => {
                return Err(error.to_string());
            },
        };
        let instances = match instance_ids(lists.value_at(i)) {
            Some(instances) => instances,
            None => {
                return Err(crate::model::IdentifierError::Empty(IdentifierKind::Instance).to_string());
            },
        };
        found.insert(partition, instances);
        i = i + 1;
    }
    proof {
        ordered::map_of_ends(all);
    }
    Ok(found)
}

fn shortest_list(lists: &OrderedMap<PartitionId, Vec<InstanceId>>) -> (r: usize)
    ensures
        r == shortest(lists.listing()),
{
    let ghost all = lists.listing();
    let n: usize = lists.len();
    if n == 0 {
        return 0;
    }
    let mut least: usize = lists.value_at(0).len();
    let mut i: usize = 1;
    proof {
        assert(all.take(1)[0] == all[0]);
        assert(all[0].1.len() == least);
    }
    while i < n
        invariant
            1 <= i <= n,
            n == all.len(),
            all == lists.listing(),
            least == shortest(all.take(i as int)),
        decreases n - i,
    {
        let len: usize = lists.value_at(i).len();
        proof {
            assert(all.take(i + 1).drop_last() =~= all.take(i as int));
            assert(all.take(i + 1).last() == all[i as int]);
            assert(all[i as int].1.len() == len);
        }
        if len < least {
            least = len;
        }
        i = i + 1;
    }
    assert(all.take(n as int) =~= all);
    least
}

proof fn placement_fault_prefix(
    resource: Seq<char>,
    replicas: usize,
    listing: Seq<(Seq<char>, Seq<Seq<char>>)>,
    i: int,
)
    requires
        0 <= i <= listing.len(),
        placement_fault(resource, replicas, listing.take(i)) is Some,
    ensures
        placement_fault(resource, replicas, listing) == placement_fault(
            resource,
            replicas,
            listing.take(i),
        ),
    decreases listing.len(),
{
    if i == listing.len() {
        assert(listing.take(i) =~= listing);
    } else {
        assert(listing.drop_last().take(i) =~= listing.take(i));
        placement_fault_prefix(resource, replicas, listing.drop_last(), i);
    }
}

fn place(
    resource: ResourceId,
    replicas: usize,
    lists: &OrderedMap<PartitionId, Vec<InstanceId>>,
) -> (r: PlanStep)
    ensures
        r.matches(placed(resource@, replicas, lists@)),
{
    let ghost all = lists.listing();
    let ghost name = resource@;
    let n: usize = lists.len();
    let mut builder = IdealState::builder(resource.duplicate(), replicas);
    let mut i: usize = 0;
    proof {
        ordered::map_of_ends(all);
        assert(all.take(0) =~= Seq::empty());
    }
    while i < n
        invariant
            i <= n,
            n == all.len(),
            all == lists.listing(),
            name == resource@,
            ordered::lists::<PartitionId, Seq<Seq<char>>>(all, lists@),
            placement_fault(name, replicas, all.take(i as int)) is None,
            builder@ == (ideal_state::IdealStateView {
                resource: name,
                replicas,
                lists: ordered::map_of(all.take(i as int)),
            }),
        decreases n - i,
    {
        proof {
            assert(all.take(i + 1).drop_last() =~= all.take(i as int));
            assert(all.take(i + 1).last() == all[i as int]);
            ordered::map_of_step::<PartitionId, Seq<Seq<char>>>(all, i as int);
            if placement_fault(name, replicas, all.take(i + 1)) is Some {
                placement_fault_prefix(name, replicas, all, i + 1);
            }
        }
        let partition = lists.key_at(i).duplicate();
        let instances = lists.value_at(i).duplicate();
        let failure = match builder.set_preference_list(partition, instances) {
            Ok(_) => None,
            Err(error) => Some(error),
        };
        if let Some(error) = failure {
            return PlanStep::Fail(ControllerRuntimeError::message(error.to_string()));
        }
        i = i + 1;
    }
    proof {
        ordered::map_of_ends(all);
    }
    match builder.build() {
        Ok(ideal) => PlanStep::Plan(ResourcePlan { resource, ideal }),
        Err(error) => PlanStep::Fail(ControllerRuntimeError::message(error.to_string())),
    }
}

fn topology_of(topology: &Option<CrushTopologyRecord>) -> (r: CrushTopologyRecord)
    ensures
        r.deep_view() == match topology.deep_view() {
            Some(topology) => topology,
            None => flat_topology(),
        },
{
    match topology {
        Some(topology) => topology.duplicate(),
        None => CrushTopologyRecord {
            path: "/instance".to_owned(),
            fault_zone_type: "instance".to_owned(),
            end_node_type: "instance".to_owned(),
        },
    }
}

fn plan_resource(
    entry: &ResourceEntry,
    zones: &OrderedMap<InstanceId, String>,
    live: &OrderedSet<InstanceId>,
    answer: Option<&AssignmentAnswer>,
) -> (r: PlanStep)
    ensures
        r.matches(plan_of(entry.deep_view(), zones@, live@, answer.deep_view())),
{
    let record = match &entry.record {
        Err(message) => {
            return fail(message.clone());
        },
        Ok(record) => record,
    };
    if !record.name.same(&entry.key_name) {
        return fail(
            "resource metadata key ".to_owned().concat(entry.key_name.as_str()).concat(
                " disagrees with resource name ",
            ).concat(record.name.as_str()),
        );
    }
    if !text::text_eq(record.state_model.as_str(), "LeaderStandby") {
        return fail(
            "unsupported M10 state model ".to_owned().concat(record.state_model.as_str()),
        );
    }
    let resource = match ResourceId::new(record.name.as_str()) {
        Ok(resource) => resource,
        Err(error) => {
            return fail(error.to_string());
        },
    };
    if text::text_eq(record.placement.kind.as_str(), "CRUSH") {
        let partitions = match partition_ids(&record.placement.partitions) {
            Some(partitions) => partitions,
            None => {
                return fail(
                    crate::model::IdentifierError::Empty(IdentifierKind::Partition).to_string(),
                );
            },
        };
        return match answer {
            None => {
                let count: usize = live.len();
                PlanStep::Ask(
                    AssignmentRequest {
                        resource,
                        partitions,
                        replicas: if count < record.placement.replicas {
                            count
                        } else {
                            record.placement.replicas
                        },
                        zones: zones.duplicate(),
                        live: live.duplicate(),
                        topology: topology_of(&record.placement.topology),
                    },
                )
            },
            Some(answer) => match &answer.lists {
                Err(message) => fail(message.clone()),
                Ok(lists) => place(resource, shortest_list(lists), lists),
            },
        };
    }
    if text::text_eq(record.placement.kind.as_str(), "SEMI_AUTO") {
        return match explicit_lists(&record.placement.preference_lists) {
            Err(message) => fail(message),
            Ok(lists) => place(resource, record.placement.replicas, &lists),
        };
    }
    fail("unsupported M10 placement kind ".to_owned().concat(record.placement.kind.as_str()))
}

/// The plans of the configured resources, given the answers to assignment
/// requests so far. Where another assignment is needed it is asked for.
pub fn resource_plans(
    entries: &Vec<ResourceEntry>,
    zones: &OrderedMap<InstanceId, String>,
    live: &OrderedSet<InstanceId>,
    answers: &Vec<AssignmentAnswer>,
) -> (r: PlansStep)
    ensures
        r.matches(plans_of(entries.deep_view(), zones@, live@, answers.deep_view())),
{
    let ghost all = entries.deep_view();
    let ghost given = answers.deep_view();
    let mut plans: Vec<ResourcePlan> = Vec::new();
    let mut used: usize = 0;
    let mut i: usize = 0;
    assert(all.take(0) =~= Seq::empty());
    assert(plans.deep_view() =~= Seq::empty());
    while i < entries.len()
        invariant
            i <= entries@.len(),
            used <= i,
            all == entries.deep_view(),
            given == answers.deep_view(),
            plans_of(all.take(i as int), zones@, live@, given) == PlansOutcome::Plans(
                plans.deep_view(),
                used as nat,
            ),
        decreases entries@.len() - i,
    {
        let ghost before = plans.deep_view();
        proof {
            assert(all.take(i + 1).drop_last() =~= all.take(i as int));
            assert(all.take(i + 1).last() == entries@[i as int].deep_view());
            if plans_of(all.take(i + 1), zones@, live@, given) !is Plans {
                plans_prefix(all, zones@, live@, given, i + 1);
            }
        }
        let answer = if used < answers.len() {
            assert(given[used as int] == answers@[used as int].deep_view());
            Some(&answers[used])
        } else {
            None
        };
        let takes = match &entries[i].record {
            Ok(record) => text::text_eq(record.placement.kind.as_str(), "CRUSH"),
            Err(_) => false,
        };
        match plan_resource(&entries[i], zones, live, answer) {
            PlanStep::Plan(plan) => {
                let ghost model = plan.deep_view();
                plans.push(plan);
                assert(plans.deep_view() =~= before.push(model));
            },
            PlanStep::Ask(request) => {
                return PlansStep::Ask(request);
            },
            PlanStep::Fail(error) => {
                return PlansStep::Fail(error);
            },
        }
        if takes {
            used = used + 1;
        }
        i = i + 1;
    }
    assert(all.take(entries@.len() as int) =~= all);
    PlansStep::Plans(plans)
}

} // verus!
