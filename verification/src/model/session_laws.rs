//! What holds of sessions and of the states that are published under them.
use crate::model::ideal_state::{IdealStateFault, IdealStateView};
use crate::model::session::{Resources, SessionFault, SessionsView};
use vstd::prelude::*;

verus! {

/// A new session has the next number. It belongs to the instance and is its
/// live one, it begins with the carried records, and nothing else changes.
pub proof fn sessions_are_opened(
    v: SessionsView,
    instance: Seq<char>,
    carried: Resources,
    other: Seq<char>,
    earlier: u64,
)
    requires
        v.sequence < u64::MAX,
    ensures
        ({
            let after = v.opened(instance, carried);
            let number = (v.sequence + 1) as u64;
            &&& after.sequence == number
            &&& after.owners.dom().contains(number) && after.owners[number] == instance
            &&& after.live.dom().contains(instance) && after.live[instance] == (instance, number)
            &&& after.resources(instance, number) == carried
            &&& earlier != number ==> after.resources(instance, earlier) == v.resources(
                instance,
                earlier,
            )
            &&& earlier != number ==> after.owners.dom().contains(earlier)
                == v.owners.dom().contains(earlier)
            &&& other != instance ==> after.live.dom().contains(other) == v.live.dom().contains(
                other,
            ) && after.sessions(other) == v.sessions(other)
            &&& other != instance && v.live.dom().contains(other) ==> after.live[other]
                == v.live[other]
            &&& after.default_initial == v.default_initial && after.initials == v.initials
        }),
{
}

/// What is carried over: every resource and every replica, the own ones in the
/// initial state of the resource, which is the default where it has none of its
/// own.
pub proof fn own_replicas_start_over(
    v: SessionsView,
    instance: Seq<char>,
    previous: Resources,
    resource: Seq<char>,
    partition: Seq<char>,
    other: Seq<char>,
)
    ensures
        ({
            let after = v.carried(instance, previous);
            let initial = if v.initials.dom().contains(resource) {
                v.initials[resource]
            } else {
                v.default_initial
            };
            &&& after.dom().contains(resource) <==> previous.dom().contains(resource)
            &&& previous.dom().contains(resource) ==> {
                &&& after[resource].dom().contains(partition) <==> previous[resource].dom().contains(
                    partition,
                )
                &&& previous[resource].dom().contains(partition) ==> {
                    &&& after[resource][partition].dom().contains(other)
                        <==> previous[resource][partition].dom().contains(other)
                    &&& previous[resource][partition].dom().contains(other)
                        ==> after[resource][partition][other] == if other == instance {
                        initial
                    } else {
                        previous[resource][partition][other]
                    }
                }
            }
        }),
{
}

/// A session owns a live instance exactly where it is the live one, and belongs
/// to an instance exactly where it was opened for it.
pub proof fn sessions_are_told_apart(v: SessionsView, instance: Seq<char>, number: u64)
    ensures
        v.live_fault(instance, number) is None <==> v.live.dom().contains(instance)
            && v.live[instance].1 == number,
        !v.live.dom().contains(instance) ==> v.live_fault(instance, number) == Some(
            SessionFault::NotLive(instance),
        ),
        v.live.dom().contains(instance) && v.live[instance].1 != number ==> v.live_fault(
            instance,
            number,
        ) == Some(
            SessionFault::SessionMismatch {
                instance,
                expected: v.live[instance].1,
                actual: number,
            },
        ),
        v.owner_fault(instance, number) is None <==> v.owners.dom().contains(number)
            && v.owners[number] == instance,
        !v.owners.dom().contains(number) ==> v.owner_fault(instance, number) == Some(
            SessionFault::UnknownSession(number),
        ),
        v.sequence_fault() is None <==> v.sequence < u64::MAX,
{
}

/// A snapshot shows every live instance under its live session with the records
/// of that session, and no other.
pub proof fn snapshots_show_live_sessions(v: SessionsView, instance: Seq<char>)
    ensures
        v.snapshot().live == v.live,
        v.snapshot().active.dom().contains(instance) <==> v.live.dom().contains(instance),
        v.live.dom().contains(instance) ==> v.snapshot().active[instance].0 == v.live[instance].1,
        v.live.dom().contains(instance) && v.records.dom().contains(instance)
            && v.records[instance].dom().contains(v.live[instance].1)
            ==> v.snapshot().active[instance].1 == v.records[instance][v.live[instance].1],
        v.live.dom().contains(instance) && !(v.records.dom().contains(instance)
            && v.records[instance].dom().contains(v.live[instance].1))
            ==> v.snapshot().active[instance].1 == Resources::empty(),
{
}

/// A preference list is accepted once for a partition, with as many different
/// instances as there are replicas.
pub proof fn good_lists_are_accepted(
    v: IdealStateView,
    partition: Seq<char>,
    list: Seq<Seq<char>>,
    other: Seq<char>,
)
    ensures
        v.list_fault(partition, list) is None <==> !v.lists.dom().contains(partition) && list.len()
            == v.replicas && list.no_duplicates(),
        v.lists.dom().contains(partition) ==> v.list_fault(partition, list) == Some(
            IdealStateFault::DuplicatePartition(partition),
        ),
        ({
            let after = v.tried((partition, list));
            &&& after.resource == v.resource && after.replicas == v.replicas
            &&& v.list_fault(partition, list) is Some ==> after == v
            &&& v.list_fault(partition, list) is None ==> after.lists.dom().contains(partition)
                && after.lists[partition] == list
            &&& other != partition ==> after.lists.dom().contains(other) == v.lists.dom().contains(
                other,
            )
            &&& other != partition && v.lists.dom().contains(other) ==> after.lists[other]
                == v.lists[other]
        }),
{
}

} // verus!
