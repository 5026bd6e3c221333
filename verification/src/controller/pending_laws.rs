//! What holds of published messages that stay pending, and of what they
//! reserve.
use crate::controller::intermediate_laws;
use crate::controller::pending::{self, ReconcileMode};
use crate::controller::plans;
use crate::controller::published;
use crate::model::session;
use crate::transition::{Move, PendingMove};
use vstd::prelude::*;

verus! {

/// The plan at `k` is the first one of the resource.
pub open spec fn first_plan(all: Seq<plans::PlanView>, resource: Seq<char>, k: int) -> bool {
    &&& 0 <= k < all.len()
    &&& all[k].resource == resource
    &&& forall|j: int| 0 <= j < k ==> (#[trigger] all[j]).resource != resource
}

proof fn plan_is_first(all: Seq<plans::PlanView>, resource: Seq<char>)
    ensures
        forall|k: int| #[trigger]
            first_plan(all, resource, k) ==> pending::plan_for(all, resource) == Some(all[k]),
        pending::plan_for(all, resource) is Some ==> exists|k: int| #[trigger]
            first_plan(all, resource, k),
    decreases all.len(),
{
    if all.len() > 0 {
        let rest = all.drop_last();
        plan_is_first(rest, resource);
        assert forall|k: int| #[trigger] first_plan(all, resource, k) implies pending::plan_for(
            all,
            resource,
        ) == Some(all[k]) by {
            if k < rest.len() {
                assert(first_plan(rest, resource, k)) by {
                    assert forall|j: int| 0 <= j < k implies (#[trigger] rest[j]).resource
                        != resource by {
                        assert(rest[j] == all[j]);
                    }
                }
            } else if pending::plan_for(rest, resource) is Some {
                let j = choose|j: int| #[trigger] first_plan(rest, resource, j);
                assert(all[j].resource == resource);
            }
        }
        if pending::plan_for(all, resource) is Some {
            if pending::plan_for(rest, resource) is Some {
                let j = choose|j: int| #[trigger] first_plan(rest, resource, j);
                assert forall|i: int| 0 <= i < j implies (#[trigger] all[i]).resource
                    != resource by {
                    assert(rest[i] == all[i]);
                }
                assert(first_plan(all, resource, j));
            } else {
                let n = all.len() - 1;
                assert forall|i: int| 0 <= i < n implies (#[trigger] all[i]).resource
                    != resource by {
                    if all[i].resource == resource {
                        some_plan(rest, resource, i);
                    }
                }
                assert(first_plan(all, resource, n));
            }
        }
    }
}

proof fn some_plan(all: Seq<plans::PlanView>, resource: Seq<char>, i: int)
    requires
        0 <= i < all.len(),
        all[i].resource == resource,
    ensures
        pending::plan_for(all, resource) is Some,
    decreases all.len(),
{
    if i < all.len() - 1 {
        some_plan(all.drop_last(), resource, i);
    }
}

/// The partition is placed by the plan or has an observed replica.
pub open spec fn partition_exists(
    plan: plans::PlanView,
    actual: session::Resources,
    partition: Seq<char>,
) -> bool {
    plan.ideal.lists.dom().contains(partition) || (actual.dom().contains(plan.resource)
        && actual[plan.resource].dom().contains(partition))
}

/// The state of an observed replica.
pub open spec fn observed_state(
    actual: session::Resources,
    resource: Seq<char>,
    partition: Seq<char>,
    instance: Seq<char>,
) -> Option<Seq<char>> {
    if actual.dom().contains(resource) {
        intermediate_laws::found(actual[resource], partition, instance)
    } else {
        None
    }
}

/// A message that takes a replica away is for one that the plan does not
/// place, and any other message is for one that it does.
pub open spec fn agrees(plan: plans::PlanView, message: published::PublishedView) -> bool {
    (message.to == "OFFLINE"@ || message.to == "DROPPED"@) <==> !(plan.ideal.lists.dom().contains(
        message.partition,
    ) && plan.ideal.lists[message.partition].contains(message.instance))
}

/// A message that is retained is addressed to the live session of its
/// instance, its resource is planned, its partition is placed or observed, and
/// its replica has not left the state that the message starts from. After a
/// session was replaced it also agrees with the placement.
pub proof fn retained_messages_are_current(
    messages: Seq<published::PublishedView>,
    live: Map<Seq<char>, (Seq<char>, u64)>,
    actual: session::Resources,
    all: Seq<plans::PlanView>,
    strict: bool,
    message: published::PublishedView,
)
    requires
        pending::retained(messages, live, actual, all, strict).contains(message),
    ensures
        messages.contains(message),
        live.dom().contains(message.instance),
        live[message.instance].1 == message.target_session,
        exists|k: int| #[trigger]
            first_plan(all, message.resource, k) && partition_exists(
                all[k],
                actual,
                message.partition,
            ) && (strict ==> agrees(all[k], message)),
        observed_state(actual, message.resource, message.partition, message.instance) is None
            || observed_state(actual, message.resource, message.partition, message.instance)
            == Some(message.from),
{
    pending::retained_exactly_what_is_pending(messages, live, actual, all, strict, message);
    plan_is_first(all, message.resource);
    let k = choose|k: int| #[trigger] first_plan(all, message.resource, k);
    assert(pending::plan_for(all, message.resource) == Some(all[k]));
}

/// A published message is retained where its instance is live under the session
/// that it is addressed to, its resource is planned, its partition is placed or
/// observed, its replica has not left the state that the message starts from,
/// and, after a session was replaced, it agrees with the placement.
pub proof fn current_messages_are_retained(
    messages: Seq<published::PublishedView>,
    live: Map<Seq<char>, (Seq<char>, u64)>,
    actual: session::Resources,
    all: Seq<plans::PlanView>,
    strict: bool,
    message: published::PublishedView,
    k: int,
)
    requires
        messages.contains(message),
        message.resource.len() > 0,
        message.partition.len() > 0,
        message.instance.len() > 0,
        live.dom().contains(message.instance),
        live[message.instance].1 == message.target_session,
        first_plan(all, message.resource, k),
        partition_exists(all[k], actual, message.partition),
        strict ==> agrees(all[k], message),
        observed_state(actual, message.resource, message.partition, message.instance) is None
            || observed_state(actual, message.resource, message.partition, message.instance)
            == Some(message.from),
    ensures
        pending::retained(messages, live, actual, all, strict).contains(message),
{
    pending::retained_exactly_what_is_pending(messages, live, actual, all, strict, message);
    plan_is_first(all, message.resource);
}

/// Membership of `kept`.
pub open spec fn among(kept: Seq<published::PublishedView>) -> spec_fn(
    published::PublishedView,
) -> bool {
    |m: published::PublishedView| kept.contains(m)
}

proof fn retained_is_filtered(
    messages: Seq<published::PublishedView>,
    live: Map<Seq<char>, (Seq<char>, u64)>,
    actual: session::Resources,
    all: Seq<plans::PlanView>,
    strict: bool,
    whole: Seq<published::PublishedView>,
)
    requires
        forall|i: int|
            0 <= i < messages.len() ==> (whole.contains(#[trigger] messages[i])
                <==> pending::still_pending(messages[i], live, actual, all, strict)),
    ensures
        pending::retained(messages, live, actual, all, strict) == messages.filter(among(whole)),
    decreases messages.len(),
{
    reveal(Seq::filter);
    if messages.len() > 0 {
        let rest = messages.drop_last();
        assert forall|i: int| 0 <= i < rest.len() implies (whole.contains(#[trigger] rest[i])
            <==> pending::still_pending(rest[i], live, actual, all, strict)) by {
            assert(rest[i] == messages[i]);
        }
        retained_is_filtered(rest, live, actual, all, strict, whole);
        assert(messages[messages.len() - 1] == messages.last());
    }
}

/// Retained messages keep their order, and each stays as often as it was there.
pub proof fn retained_messages_keep_their_order(
    messages: Seq<published::PublishedView>,
    live: Map<Seq<char>, (Seq<char>, u64)>,
    actual: session::Resources,
    all: Seq<plans::PlanView>,
    strict: bool,
)
    ensures
        ({
            let kept = pending::retained(messages, live, actual, all, strict);
            kept == messages.filter(among(kept))
        }),
{
    let kept = pending::retained(messages, live, actual, all, strict);
    assert forall|i: int| 0 <= i < messages.len() implies (kept.contains(#[trigger] messages[i])
        <==> pending::still_pending(messages[i], live, actual, all, strict)) by {
        pending::retained_exactly_what_is_pending(
            messages,
            live,
            actual,
            all,
            strict,
            messages[i],
        );
    }
    retained_is_filtered(messages, live, actual, all, strict, kept);
}

/// The message names a replica and both of its states.
pub open spec fn complete(message: published::PublishedView) -> bool {
    message.resource.len() > 0 && message.partition.len() > 0 && message.instance.len() > 0
        && message.from.len() > 0 && message.to.len() > 0
}

/// Some plan of the resource places the replica, or places nothing for the
/// partition.
pub open spec fn allowed(all: Seq<plans::PlanView>, message: published::PublishedView) -> bool {
    exists|k: int|
        0 <= k < all.len() && (#[trigger] all[k]).resource == message.resource && (
        all[k].ideal.lists.dom().contains(message.partition)
            ==> all[k].ideal.lists[message.partition].contains(message.instance))
}

/// The message reserves its replica.
pub open spec fn reserving(all: Seq<plans::PlanView>, mode: ReconcileMode) -> spec_fn(
    published::PublishedView,
) -> bool {
    |m: published::PublishedView|
        complete(m) && (mode == ReconcileMode::SessionReplacement ==> allowed(all, m))
}

/// The move that a message asks for.
pub open spec fn asked() -> spec_fn(published::PublishedView) -> Move {
    |m: published::PublishedView|
        Move {
            resource: m.resource,
            partition: m.partition,
            instance: m.instance,
            source: m.from,
            target: m.to,
        }
}

/// Every complete message reserves the move that it asks for, in order. After
/// a session was replaced, one for a replica that its plan leaves out does not.
pub proof fn messages_reserve_their_moves(
    messages: Seq<published::PublishedView>,
    all: Seq<plans::PlanView>,
    mode: ReconcileMode,
)
    ensures
        pending::reserved(messages, all, mode) == messages.filter(
            reserving(all, mode),
        ).map_values(asked()),
    decreases messages.len(),
{
    reveal(Seq::filter);
    if messages.len() > 0 {
        let rest = messages.drop_last();
        messages_reserve_their_moves(rest, all, mode);
        let last = messages.last();
        let kept = rest.filter(reserving(all, mode));
        let f = asked();
        assert(kept.push(last).map_values(f) =~= kept.map_values(f).push(f(last)));
        if complete(last) {
            assert(last.operational() == Some(f(last)));
            let m = f(last);
            if pending::belongs(all, m) {
                let i = choose|i: int|
                    0 <= i < all.len() && (#[trigger] all[i]).resource == m.resource && (
                    pending::wants(all[i], m.partition, m.instance)
                        || !all[i].ideal.lists.dom().contains(m.partition));
                assert(all[i].resource == last.resource);
                assert(allowed(all, last));
            }
            if allowed(all, last) {
                let k = choose|k: int|
                    0 <= k < all.len() && (#[trigger] all[k]).resource == last.resource && (
                    all[k].ideal.lists.dom().contains(last.partition)
                        ==> all[k].ideal.lists[last.partition].contains(last.instance));
                assert(pending::wants(all[k], m.partition, m.instance)
                    || !all[k].ideal.lists.dom().contains(m.partition));
                assert(pending::belongs(all, m));
            }
        }
    }
}

/// The move is of the resource.
pub open spec fn of(resource: Seq<char>) -> spec_fn(Move) -> bool {
    |m: Move| m.resource == resource
}

/// A move without its resource.
pub open spec fn within() -> spec_fn(Move) -> PendingMove {
    |m: Move|
        PendingMove {
            partition: m.partition,
            instance: m.instance,
            source: m.source,
            target: m.target,
        }
}

/// The pending moves of a resource are all of its reserved moves, in order.
pub proof fn reserved_moves_go_to_their_resource(moves: Seq<Move>, resource: Seq<char>)
    ensures
        pending::of_resource(moves, resource) == moves.filter(of(resource)).map_values(within()),
    decreases moves.len(),
{
    reveal(Seq::filter);
    if moves.len() > 0 {
        reserved_moves_go_to_their_resource(moves.drop_last(), resource);
        let kept = moves.drop_last().filter(of(resource));
        let f = within();
        assert(kept.push(moves.last()).map_values(f) =~= kept.map_values(f).push(f(moves.last())));
    }
}

} // verus!
