//! What the placement plans guarantee.
use crate::controller::plans;
use crate::controller::plans::{Lists, PlanOutcome, PlansOutcome};
use crate::controller::records::ResourceEntryView;
use crate::model::{InstanceId, PartitionId};
use crate::ordered;
use vstd::prelude::*;

verus! {

/// The metadata of a resource can be planned: it is decoded, stands under its
/// own name, and asks for the LeaderStandby model.
pub open spec fn plannable(entry: ResourceEntryView) -> bool {
    entry.record matches Ok(record) && record.name == entry.key_name && record.name.len() > 0
        && record.state_model == "LeaderStandby"@
}

/// An assignment is asked for exactly where a plannable resource leaves its
/// placement to the controller and names its partitions. It is asked for that
/// resource, for its partitions, and over the live instances and the zones that
/// are known.
pub proof fn assignments_are_asked_for(
    entry: ResourceEntryView,
    zones: Map<Seq<char>, Seq<char>>,
    live: Set<Seq<char>>,
)
    ensures
        plans::plan_of(entry, zones, live, None) is Ask <==> plannable(entry)
            && entry.record->Ok_0.placement.kind == "CRUSH"@ && forall|i: int|
            0 <= i < entry.record->Ok_0.placement.partitions.len() ==> (
            #[trigger] entry.record->Ok_0.placement.partitions[i]).len() > 0,
        plans::plan_of(entry, zones, live, None) matches PlanOutcome::Ask(request) ==> {
            &&& request.resource == entry.key_name
            &&& request.partitions == entry.record->Ok_0.placement.partitions
            &&& request.zones == zones
            &&& request.live == live
            &&& entry.record->Ok_0.placement.topology matches Some(topology) ==> request.topology
                == topology
            &&& entry.record->Ok_0.placement.topology is None ==> request.topology.path
                == "/instance"@ && request.topology.fault_zone_type == "instance"@
                && request.topology.end_node_type == "instance"@
        },
{
}

/// An assignment never asks for more replicas than are configured, nor for more
/// than there are live instances, and it asks for as many as either allows.
pub proof fn assignments_fit_the_live_instances(
    entry: ResourceEntryView,
    zones: Map<Seq<char>, Seq<char>>,
    live: Set<Seq<char>>,
    answer: Option<Result<Lists, Seq<char>>>,
)
    requires
        live.finite(),
    ensures
        plans::plan_of(entry, zones, live, answer) matches PlanOutcome::Ask(request) ==> {
            &&& answer is None
            &&& request.replicas <= live.len()
            &&& request.replicas <= entry.record->Ok_0.placement.replicas
            &&& request.replicas == live.len() || request.replicas
                == entry.record->Ok_0.placement.replicas
        },
{
    ordered::members_are_counted::<InstanceId>(live);
}

/// Every list names as many instances as there are replicas, none of them
/// twice, and there is a list.
pub open spec fn fits(replicas: nat, lists: Lists) -> bool {
    &&& exists|p: Seq<char>| lists.dom().contains(p)
    &&& forall|p: Seq<char>| #[trigger]
        lists.dom().contains(p) ==> lists[p].len() == replicas && lists[p].no_duplicates()
}

proof fn fitting_lists_are_placed(
    resource: Seq<char>,
    replicas: usize,
    listing: Seq<(Seq<char>, Seq<Seq<char>>)>,
    n: int,
)
    requires
        ordered::increasing::<PartitionId, Seq<Seq<char>>>(listing),
        0 <= n <= listing.len(),
    ensures
        plans::placement_fault(resource, replicas, listing.take(n)) is None <==> forall|k: int|
            0 <= k < n ==> (#[trigger] listing[k]).1.len() == replicas
                && listing[k].1.no_duplicates(),
    decreases n,
{
    if n > 0 {
        fitting_lists_are_placed(resource, replicas, listing, n - 1);
        let rest = listing.take(n - 1);
        assert(listing.take(n).drop_last() =~= rest);
        assert(listing.take(n).last() == listing[n - 1]);
        if ordered::map_of(rest).dom().contains(listing[n - 1].0) {
            let k = ordered::map_of_position(rest, listing[n - 1].0);
            ordered::keys_differ::<PartitionId, Seq<Seq<char>>>(listing, k, n - 1);
        }
    }
}

proof fn placed_where_lists_fit(resource: Seq<char>, replicas: usize, lists: Lists)
    requires
        lists.dom().finite(),
    ensures
        plans::placed(resource, replicas, lists) is Plan <==> fits(replicas as nat, lists),
        plans::placed(resource, replicas, lists) !is Ask,
        plans::placed(resource, replicas, lists) matches PlanOutcome::Plan(plan) ==> {
            &&& plan.resource == resource
            &&& plan.ideal.resource == resource
            &&& plan.ideal.replicas == replicas
            &&& plan.ideal.lists == lists
        },
{
    let listing = ordered::in_order::<PartitionId, Seq<Seq<char>>>(lists);
    ordered::finite_map_is_listed::<PartitionId, Seq<Seq<char>>>(lists);
    fitting_lists_are_placed(resource, replicas, listing, listing.len() as int);
    assert(listing.take(listing.len() as int) =~= listing);
    if plans::placement_fault(resource, replicas, listing) is None {
        assert forall|p: Seq<char>| #[trigger] lists.dom().contains(p) implies lists[p].len()
            == replicas && lists[p].no_duplicates() by {
            let k = ordered::map_of_position(listing, p);
            assert(listing[k].1.len() == replicas);
        }
        if lists != Lists::empty() {
            assert(exists|p: Seq<char>| lists.dom().contains(p)) by {
                if forall|p: Seq<char>| !lists.dom().contains(p) {
                    assert(lists =~= Lists::empty());
                }
            }
        }
    }
    if fits(replicas as nat, lists) {
        assert forall|k: int| 0 <= k < listing.len() implies (#[trigger] listing[k]).1.len()
            == replicas && listing[k].1.no_duplicates() by {
            ordered::map_of_at::<PartitionId, Seq<Seq<char>>>(listing, k);
            assert(lists.dom().contains(listing[k].0));
        }
        let p = choose|p: Seq<char>| lists.dom().contains(p);
        assert(Lists::empty().dom() =~= Set::empty());
    }
}

proof fn shortest_of_equal(listing: Seq<(Seq<char>, Seq<Seq<char>>)>)
    requires
        listing.len() > 0,
    ensures
        exists|k: int|
            0 <= k < listing.len() && plans::shortest(listing) == (#[trigger] listing[k]).1.len(),
        forall|k: int|
            0 <= k < listing.len() ==> plans::shortest(listing) <= (#[trigger] listing[k]).1.len(),
    decreases listing.len(),
{
    if listing.len() > 1 {
        let rest = listing.drop_last();
        shortest_of_equal(rest);
        let k = choose|k: int|
            0 <= k < rest.len() && plans::shortest(rest) == (#[trigger] rest[k]).1.len();
        assert(rest[k] == listing[k]);
        let last = listing.len() - 1;
        assert(listing[last] == listing.last());
        assert forall|j: int| 0 <= j < listing.len() implies plans::shortest(listing) <= (
        #[trigger] listing[j]).1.len() by {
            if j < last {
                assert(rest[j] == listing[j]);
            }
        }
    } else {
        assert(listing[0].1.len() == plans::shortest(listing));
    }
}

/// An answered assignment is placed as it was answered: for the resource, with
/// the answered lists, and with as many replicas as each of them names. It is
/// refused where the lists differ in length, name an instance twice, or where
/// there is none; and an answer that failed fails the plan with its message.
pub proof fn answers_are_placed(
    entry: ResourceEntryView,
    zones: Map<Seq<char>, Seq<char>>,
    live: Set<Seq<char>>,
    lists: Lists,
    replicas: usize,
    message: Seq<char>,
)
    requires
        plans::plan_of(entry, zones, live, None) is Ask,
        lists.dom().finite(),
    ensures
        fits(replicas as nat, lists) ==> (plans::plan_of(entry, zones, live, Some(Ok(lists))) matches PlanOutcome::Plan(
            plan,
        ) && plan.resource == entry.key_name && plan.ideal.resource == entry.key_name
            && plan.ideal.replicas == replicas && plan.ideal.lists == lists),
        plans::plan_of(entry, zones, live, Some(Ok(lists))) matches PlanOutcome::Plan(plan)
            ==> plan.ideal.lists == lists && fits(plan.ideal.replicas as nat, lists),
        plans::plan_of(entry, zones, live, Some(Err(message))) == PlanOutcome::Fail(message),
{
    let listing = ordered::in_order::<PartitionId, Seq<Seq<char>>>(lists);
    ordered::finite_map_is_listed::<PartitionId, Seq<Seq<char>>>(lists);
    let count = plans::shortest(listing) as usize;
    placed_where_lists_fit(entry.key_name, count, lists);
    if fits(replicas as nat, lists) {
        let p = choose|p: Seq<char>| lists.dom().contains(p);
        let k = ordered::map_of_position(listing, p);
        shortest_of_equal(listing);
        let j = choose|j: int|
            0 <= j < listing.len() && plans::shortest(listing) == (#[trigger] listing[j]).1.len();
        ordered::map_of_at::<PartitionId, Seq<Seq<char>>>(listing, j);
        assert(lists.dom().contains(listing[j].0));
        assert(count == replicas);
    }
}

/// Every partition and instance of the lists has a name.
pub open spec fn named(lists: Lists) -> bool {
    forall|p: Seq<char>| #[trigger]
        lists.dom().contains(p) ==> p.len() > 0 && forall|i: int|
            0 <= i < lists[p].len() ==> (#[trigger] lists[p][i]).len() > 0
}

proof fn named_lists_have_no_fault(listing: Seq<(Seq<char>, Seq<Seq<char>>)>)
    ensures
        plans::lists_fault(listing) is None <==> forall|k: int|
            0 <= k < listing.len() ==> (#[trigger] listing[k]).0.len() > 0 && !plans::has_empty(
                listing[k].1,
            ),
    decreases listing.len(),
{
    if listing.len() > 0 {
        let rest = listing.drop_last();
        named_lists_have_no_fault(rest);
        assert(forall|k: int| 0 <= k < rest.len() ==> #[trigger] rest[k] == listing[k]);
        assert(listing[listing.len() - 1] == listing.last());
        if plans::lists_fault(listing) is None {
            assert forall|k: int| 0 <= k < listing.len() implies (#[trigger] listing[k]).0.len()
                > 0 && !plans::has_empty(listing[k].1) by {
                if k < rest.len() {
                    assert(rest[k] == listing[k]);
                }
            }
        } else if plans::lists_fault(rest) is Some {
            let k = choose|k: int|
                0 <= k < rest.len() && !((#[trigger] rest[k]).0.len() > 0 && !plans::has_empty(
                    rest[k].1,
                ));
            assert(rest[k] == listing[k]);
        }
    }
}

/// A plannable resource with explicit lists is placed by these lists and by its
/// own replica count, whatever instances are live and whatever was answered,
/// exactly where the lists fit that count and name everything.
pub proof fn explicit_lists_are_placed(
    entry: ResourceEntryView,
    zones: Map<Seq<char>, Seq<char>>,
    live: Set<Seq<char>>,
    answer: Option<Result<Lists, Seq<char>>>,
)
    requires
        plannable(entry),
        entry.record->Ok_0.placement.kind == "SEMI_AUTO"@,
        entry.record->Ok_0.placement.lists.dom().finite(),
    ensures
        ({
            let placement = entry.record->Ok_0.placement;
            let outcome = plans::plan_of(entry, zones, live, answer);
            &&& outcome is Plan <==> named(placement.lists) && fits(
                placement.replicas as nat,
                placement.lists,
            )
            &&& outcome !is Ask
            &&& outcome matches PlanOutcome::Plan(plan) ==> plan.resource == entry.key_name
                && plan.ideal.resource == entry.key_name && plan.ideal.replicas
                == placement.replicas && plan.ideal.lists == placement.lists
        }),
{
    reveal_strlit("CRUSH");
    reveal_strlit("SEMI_AUTO");
    assert("CRUSH"@.len() != "SEMI_AUTO"@.len());
    let placement = entry.record->Ok_0.placement;
    let listing = ordered::in_order::<String, Seq<Seq<char>>>(placement.lists);
    ordered::finite_map_is_listed::<String, Seq<Seq<char>>>(placement.lists);
    named_lists_have_no_fault(listing);
    placed_where_lists_fit(entry.key_name, placement.replicas, placement.lists);
    if plans::lists_fault(listing) is None {
        assert forall|p: Seq<char>| #[trigger] placement.lists.dom().contains(p) implies p.len()
            > 0 && forall|i: int|
            0 <= i < placement.lists[p].len() ==> (#[trigger] placement.lists[p][i]).len() > 0 by {
            let k = ordered::map_of_position(listing, p);
            assert(!plans::has_empty(listing[k].1));
        }
    } else {
        let k = choose|k: int|
            0 <= k < listing.len() && !((#[trigger] listing[k]).0.len() > 0 && !plans::has_empty(
                listing[k].1,
            ));
        ordered::map_of_at::<String, Seq<Seq<char>>>(listing, k);
        assert(placement.lists.dom().contains(listing[k].0));
    }
}

/// What is not plannable, or is placed in some other way, has no plan and asks
/// for nothing.
pub proof fn other_resources_are_refused(
    entry: ResourceEntryView,
    zones: Map<Seq<char>, Seq<char>>,
    live: Set<Seq<char>>,
    answer: Option<Result<Lists, Seq<char>>>,
)
    requires
        !plannable(entry) || (entry.record->Ok_0.placement.kind != "CRUSH"@
            && entry.record->Ok_0.placement.kind != "SEMI_AUTO"@),
    ensures
        plans::plan_of(entry, zones, live, answer) is Fail,
        entry.record matches Err(message) ==> plans::plan_of(entry, zones, live, answer)
            == PlanOutcome::Fail(message),
{
}

/// The resource leaves its placement to the controller.
pub open spec fn left_to_controller() -> spec_fn(ResourceEntryView) -> bool {
    |entry: ResourceEntryView|
        entry.record matches Ok(record) && record.placement.kind == "CRUSH"@
}

/// How many answers the first `n` resources take.
pub open spec fn answers_before(entries: Seq<ResourceEntryView>, n: int) -> nat {
    entries.take(n).filter(left_to_controller()).len()
}

/// The answer that is there for a resource, where there is one.
pub open spec fn answer_for(
    entries: Seq<ResourceEntryView>,
    answers: Seq<Result<Lists, Seq<char>>>,
    i: int,
) -> Option<Result<Lists, Seq<char>>> {
    if answers_before(entries, i) < answers.len() {
        Some(answers[answers_before(entries, i) as int])
    } else {
        None
    }
}

proof fn plans_step(
    entries: Seq<ResourceEntryView>,
    zones: Map<Seq<char>, Seq<char>>,
    live: Set<Seq<char>>,
    answers: Seq<Result<Lists, Seq<char>>>,
    n: int,
)
    requires
        0 <= n <= entries.len(),
    ensures
        match plans::plans_of(entries.take(n), zones, live, answers) {
            PlansOutcome::Plans(plans, used) => {
                &&& used == answers_before(entries, n)
                &&& plans.len() == n
                &&& forall|i: int|
                    0 <= i < n ==> plans::plan_of(
                        entries[i],
                        zones,
                        live,
                        answer_for(entries, answers, i),
                    ) == PlanOutcome::Plan(#[trigger] plans[i])
            },
            PlansOutcome::Ask(request) => exists|i: int|
                0 <= i < n && #[trigger] stops_at(entries, zones, live, answers, i)
                    && plans::plan_of(
                    entries[i],
                    zones,
                    live,
                    answer_for(entries, answers, i),
                ) == PlanOutcome::Ask(request),
            PlansOutcome::Fail(message) => exists|i: int|
                0 <= i < n && #[trigger] stops_at(entries, zones, live, answers, i)
                    && plans::plan_of(
                    entries[i],
                    zones,
                    live,
                    answer_for(entries, answers, i),
                ) == PlanOutcome::Fail(message),
        },
    decreases n,
{
    reveal(Seq::filter);
    if n > 0 {
        plans_step(entries, zones, live, answers, n - 1);
        let rest = entries.take(n - 1);
        assert(entries.take(n).drop_last() =~= rest);
        assert(entries.take(n).last() == entries[n - 1]);
        match plans::plans_of(rest, zones, live, answers) {
            PlansOutcome::Plans(before, used) => {
                assert(stops_at(entries, zones, live, answers, n - 1)) by {
                    assert forall|j: int| 0 <= j < n - 1 implies #[trigger] plans::plan_of(
                        entries[j],
                        zones,
                        live,
                        answer_for(entries, answers, j),
                    ) is Plan by {
                        assert(plans::plan_of(
                            entries[j],
                            zones,
                            live,
                            answer_for(entries, answers, j),
                        ) == PlanOutcome::Plan(before[j]));
                    }
                }
                match plans::plans_of(entries.take(n), zones, live, answers) {
                    PlansOutcome::Plans(plans, _) => {
                        assert forall|i: int| 0 <= i < n implies plans::plan_of(
                            entries[i],
                            zones,
                            live,
                            answer_for(entries, answers, i),
                        ) == PlanOutcome::Plan(#[trigger] plans[i]) by {
                            if i < n - 1 {
                                assert(plans[i] == before[i]);
                            }
                        }
                    },
                    _ => {},
                }
            },
            _ => {},
        }
    }
}

/// Every resource before the one at `i` has a plan.
pub open spec fn stops_at(
    entries: Seq<ResourceEntryView>,
    zones: Map<Seq<char>, Seq<char>>,
    live: Set<Seq<char>>,
    answers: Seq<Result<Lists, Seq<char>>>,
    i: int,
) -> bool {
    forall|j: int|
        0 <= j < i ==> #[trigger] plans::plan_of(
            entries[j],
            zones,
            live,
            answer_for(entries, answers, j),
        ) is Plan
}

/// The resources are planned one by one and in order, each that leaves its
/// placement to the controller with the next answer. There is a plan for every
/// resource, or else the first resource without one says what is missing: the
/// answer that it needs, or why it fails.
pub proof fn resources_are_planned_in_order(
    entries: Seq<ResourceEntryView>,
    zones: Map<Seq<char>, Seq<char>>,
    live: Set<Seq<char>>,
    answers: Seq<Result<Lists, Seq<char>>>,
)
    ensures
        match plans::plans_of(entries, zones, live, answers) {
            PlansOutcome::Plans(plans, _) => {
                &&& plans.len() == entries.len()
                &&& forall|i: int|
                    0 <= i < entries.len() ==> plans::plan_of(
                        entries[i],
                        zones,
                        live,
                        answer_for(entries, answers, i),
                    ) == PlanOutcome::Plan(#[trigger] plans[i])
            },
            PlansOutcome::Ask(request) => exists|i: int|
                0 <= i < entries.len() && #[trigger] stops_at(entries, zones, live, answers, i)
                    && plans::plan_of(
                    entries[i],
                    zones,
                    live,
                    answer_for(entries, answers, i),
                ) == PlanOutcome::Ask(request),
            PlansOutcome::Fail(message) => exists|i: int|
                0 <= i < entries.len() && #[trigger] stops_at(entries, zones, live, answers, i)
                    && plans::plan_of(
                    entries[i],
                    zones,
                    live,
                    answer_for(entries, answers, i),
                ) == PlanOutcome::Fail(message),
        },
{
    plans_step(entries, zones, live, answers, entries.len() as int);
    assert(entries.take(entries.len() as int) =~= entries);
}

} // verus!
