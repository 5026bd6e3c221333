//! What the generation of transitions guarantees.
use crate::controller::message_generation;
use crate::controller::message_generation::{Cell, GenerationFault};
use crate::model::replica_state;
use crate::model::replica_state::Replicas;
use crate::model::state_model;
use crate::model::state_model::StateModelView;
use crate::text;
use crate::transition::Move;
use vstd::prelude::*;

verus! {

/// The replica is in a state.
pub open spec fn in_state(m: Replicas, partition: Seq<char>, instance: Seq<char>, state: Seq<char>) -> bool {
    m.dom().contains(partition) && m[partition].dom().contains(instance)
        && m[partition][instance] == state
}

/// The replica is known.
pub open spec fn known(m: Replicas, partition: Seq<char>, instance: Seq<char>) -> bool {
    m.dom().contains(partition) && m[partition].dom().contains(instance)
}

proof fn move_is_listed(
    resource: Seq<char>,
    current: Replicas,
    desired: Seq<Cell>,
    model: StateModelView,
    k: int,
    next: Seq<char>,
)
    requires
        0 <= k < desired.len(),
        known(current, desired[k].0, desired[k].1),
        current[desired[k].0][desired[k].1] != desired[k].2,
        model.next(current[desired[k].0][desired[k].1], desired[k].2) == Some(next),
    ensures
        message_generation::moves_of(resource, current, desired, model).contains(
            Move {
                resource,
                partition: desired[k].0,
                instance: desired[k].1,
                source: current[desired[k].0][desired[k].1],
                target: next,
            },
        ),
    decreases desired.len(),
{
    let rest = desired.drop_last();
    let before = message_generation::moves_of(resource, current, rest, model);
    let all = message_generation::moves_of(resource, current, desired, model);
    let m = Move {
        resource,
        partition: desired[k].0,
        instance: desired[k].1,
        source: current[desired[k].0][desired[k].1],
        target: next,
    };
    if k < rest.len() {
        assert(rest[k] == desired[k]);
        move_is_listed(resource, current, rest, model, k, next);
        assert(all[before.index_of(m)] == m);
    } else {
        assert(all[before.len() as int] == m);
    }
}

/// Nothing is forgotten: every replica that is not in its desired state, and
/// that some route of the model leads there, is moved along a transition that
/// begins such a route.
pub proof fn every_replica_is_moved(
    resource: Seq<char>,
    current: Replicas,
    target: Replicas,
    model: StateModelView,
    partition: Seq<char>,
    instance: Seq<char>,
    route: Seq<Seq<char>>,
) -> (next: Seq<char>)
    requires
        model.valid(),
        replica_state::finite(target),
        known(current, partition, instance),
        known(target, partition, instance),
        state_model::is_route(model, route),
        route[0] == current[partition][instance],
        route.last() == target[partition][instance],
        route[0] != route.last(),
    ensures
        message_generation::moves_of(
            resource,
            current,
            replica_state::cells(target),
            model,
        ).contains(
            Move {
                resource,
                partition,
                instance,
                source: current[partition][instance],
                target: next,
            },
        ),
        model.transitions.contains((current[partition][instance], next)),
        model.next(current[partition][instance], target[partition][instance]) == Some(next),
{
    let from = current[partition][instance];
    let to = target[partition][instance];
    let best = state_model::hops_begin_shortest_routes(model, from, to, route);
    let next = best[1];
    assert(model.transitions.contains((best[0], best[1])));
    let desired = replica_state::cells(target);
    replica_state::every_replica_is_listed(target);
    assert(target[partition].dom().contains(instance));
    let k = desired.index_of((partition, instance, to));
    move_is_listed(resource, current, desired, model, k, next);
    next
}

/// Every replica that is to be dropped is moved: each state has a route to
/// DROPPED.
pub proof fn dropped_replicas_are_moved(
    resource: Seq<char>,
    current: Replicas,
    target: Replicas,
    model: StateModelView,
    partition: Seq<char>,
    instance: Seq<char>,
) -> (next: Seq<char>)
    requires
        model.valid(),
        replica_state::finite(target),
        known(current, partition, instance),
        in_state(target, partition, instance, "DROPPED"@),
        model.states.contains(current[partition][instance]),
        current[partition][instance] != "DROPPED"@,
    ensures
        message_generation::moves_of(
            resource,
            current,
            replica_state::cells(target),
            model,
        ).contains(
            Move {
                resource,
                partition,
                instance,
                source: current[partition][instance],
                target: next,
            },
        ),
        model.transitions.contains((current[partition][instance], next)),
{
    let from = current[partition][instance];
    assert(model.next(from, "DROPPED"@) is Some);
    state_model::next_hop_advances(model, from, "DROPPED"@);
    let next = model.next(from, "DROPPED"@)->0;
    let desired = replica_state::cells(target);
    replica_state::every_replica_is_listed(target);
    assert(target[partition].dom().contains(instance));
    let k = desired.index_of((partition, instance, "DROPPED"@));
    move_is_listed(resource, current, desired, model, k, next);
    next
}

/// A move of one replica is listed before a move of another.
pub open spec fn goes_before(a: Move, b: Move) -> bool {
    text::text_before(a.partition, b.partition) || (a.partition == b.partition
        && text::text_before(a.instance, b.instance))
}

proof fn moves_come_from(
    resource: Seq<char>,
    current: Replicas,
    desired: Seq<Cell>,
    model: StateModelView,
)
    requires
        forall|i: int| 0 <= i < desired.len() ==> known(
            current,
            (#[trigger] desired[i]).0,
            desired[i].1,
        ),
        forall|i: int, j: int|
            0 <= i < j < desired.len() ==> replica_state::listed_before(
                #[trigger] desired[i],
                #[trigger] desired[j],
            ),
    ensures
        ({
            let moves = message_generation::moves_of(resource, current, desired, model);
            &&& forall|k: int|
                0 <= k < moves.len() ==> exists|d: int|
                    0 <= d < desired.len() && (#[trigger] desired[d]).0 == (
                    #[trigger] moves[k]).partition && desired[d].1 == moves[k].instance
                        && moves[k].source != desired[d].2 && moves[k].resource == resource
                        && in_state(current, desired[d].0, desired[d].1, moves[k].source)
                        && model.next(moves[k].source, desired[d].2) == Some(moves[k].target)
            &&& forall|j: int, k: int|
                0 <= j < k < moves.len() ==> goes_before(#[trigger] moves[j], #[trigger] moves[k])
        }),
    decreases desired.len(),
{
    let moves = message_generation::moves_of(resource, current, desired, model);
    if desired.len() > 0 {
        let rest = desired.drop_last();
        let before = message_generation::moves_of(resource, current, rest, model);
        let n = desired.len() - 1;
        assert forall|i: int| 0 <= i < rest.len() implies known(
            current,
            (#[trigger] rest[i]).0,
            rest[i].1,
        ) by {
            assert(rest[i] == desired[i]);
        }
        assert forall|i: int, j: int| 0 <= i < j < rest.len() implies replica_state::listed_before(
            #[trigger] rest[i],
            #[trigger] rest[j],
        ) by {
            assert(rest[i] == desired[i] && rest[j] == desired[j]);
        }
        moves_come_from(resource, current, rest, model);
        assert(known(current, desired[n].0, desired[n].1));
        assert forall|k: int| 0 <= k < moves.len() implies exists|d: int|
            0 <= d < desired.len() && (#[trigger] desired[d]).0 == (#[trigger] moves[k]).partition
                && desired[d].1 == moves[k].instance && moves[k].source != desired[d].2
                && moves[k].resource == resource && in_state(
                current,
                desired[d].0,
                desired[d].1,
                moves[k].source,
            ) && model.next(moves[k].source, desired[d].2) == Some(moves[k].target) by {
            if k < before.len() {
                assert(moves[k] == before[k]);
                let d = choose|d: int|
                    0 <= d < rest.len() && (#[trigger] rest[d]).0 == before[k].partition
                        && rest[d].1 == before[k].instance && before[k].source != rest[d].2
                        && before[k].resource == resource && in_state(
                        current,
                        rest[d].0,
                        rest[d].1,
                        before[k].source,
                    ) && model.next(before[k].source, rest[d].2) == Some(before[k].target);
                assert(desired[d] == rest[d]);
            } else {
                assert(desired[n].0 == moves[k].partition);
            }
        }
        assert forall|j: int, k: int| 0 <= j < k < moves.len() implies goes_before(
            #[trigger] moves[j],
            #[trigger] moves[k],
        ) by {
            assert(moves[j] == before[j]);
            if k < before.len() {
                assert(moves[k] == before[k]);
            } else {
                let d = choose|d: int|
                    0 <= d < rest.len() && (#[trigger] rest[d]).0 == before[j].partition
                        && rest[d].1 == before[j].instance && before[j].source != rest[d].2
                        && before[j].resource == resource && in_state(
                        current,
                        rest[d].0,
                        rest[d].1,
                        before[j].source,
                    ) && model.next(before[j].source, rest[d].2) == Some(before[j].target);
                assert(desired[d] == rest[d]);
                assert(replica_state::listed_before(desired[d], desired[n]));
            }
        }
    }
}

/// Nothing is made up: every move is of a desired replica that is not in its
/// desired state, from the state in which it is observed, along a transition of
/// the model. No replica is moved twice, and the moves go by partition and then
/// by instance.
pub proof fn moves_are_of_unsettled_replicas(
    resource: Seq<char>,
    current: Replicas,
    target: Replicas,
    model: StateModelView,
)
    requires
        model.valid(),
        replica_state::finite(target),
        forall|p: Seq<char>, i: Seq<char>| #[trigger] known(target, p, i) ==> known(current, p, i),
    ensures
        ({
            let moves = message_generation::moves_of(
                resource,
                current,
                replica_state::cells(target),
                model,
            );
            &&& forall|k: int|
                0 <= k < moves.len() ==> (#[trigger] moves[k]).resource == resource && known(
                    target,
                    moves[k].partition,
                    moves[k].instance,
                ) && in_state(current, moves[k].partition, moves[k].instance, moves[k].source)
                    && !in_state(target, moves[k].partition, moves[k].instance, moves[k].source)
                    && model.transitions.contains((moves[k].source, moves[k].target))
            &&& forall|j: int, k: int|
                0 <= j < k < moves.len() ==> goes_before(#[trigger] moves[j], #[trigger] moves[k])
        }),
{
    let desired = replica_state::cells(target);
    replica_state::every_replica_is_listed(target);
    assert forall|i: int| 0 <= i < desired.len() implies known(
        current,
        (#[trigger] desired[i]).0,
        desired[i].1,
    ) by {
        assert(known(target, desired[i].0, desired[i].1));
    }
    moves_come_from(resource, current, desired, model);
    let moves = message_generation::moves_of(resource, current, desired, model);
    assert forall|k: int| 0 <= k < moves.len() implies (#[trigger] moves[k]).resource == resource
        && known(target, moves[k].partition, moves[k].instance) && in_state(
        current,
        moves[k].partition,
        moves[k].instance,
        moves[k].source,
    ) && !in_state(target, moves[k].partition, moves[k].instance, moves[k].source)
        && model.transitions.contains((moves[k].source, moves[k].target)) by {
        let d = choose|d: int|
            0 <= d < desired.len() && (#[trigger] desired[d]).0 == moves[k].partition
                && desired[d].1 == moves[k].instance && moves[k].source != desired[d].2
                && moves[k].resource == resource && in_state(
                current,
                desired[d].0,
                desired[d].1,
                moves[k].source,
            ) && model.next(moves[k].source, desired[d].2) == Some(moves[k].target);
        state_model::next_hop_advances(model, moves[k].source, desired[d].2);
    }
}

proof fn missing_is_unknown(all: Seq<Cell>, m: Replicas)
    ensures
        match message_generation::first_missing(all, m) {
            Some((partition, instance)) => !known(m, partition, instance) && exists|k: int|
                0 <= k < all.len() && (#[trigger] all[k]).0 == partition && all[k].1 == instance
                    && forall|j: int| 0 <= j < k ==> known(m, (#[trigger] all[j]).0, all[j].1),
            None => forall|k: int| 0 <= k < all.len() ==> known(m, (#[trigger] all[k]).0, all[k].1),
        },
    decreases all.len(),
{
    if all.len() > 0 {
        let rest = all.drop_last();
        let n = all.len() - 1;
        missing_is_unknown(rest, m);
        match message_generation::first_missing(rest, m) {
            Some((partition, instance)) => {
                let k = choose|k: int|
                    0 <= k < rest.len() && (#[trigger] rest[k]).0 == partition && rest[k].1
                        == instance && forall|j: int|
                        0 <= j < k ==> known(m, (#[trigger] rest[j]).0, rest[j].1);
                assert(all[k] == rest[k]);
                assert forall|j: int| 0 <= j < k implies known(m, (#[trigger] all[j]).0, all[j].1) by {
                    assert(rest[j] == all[j]);
                }
            },
            None => {
                assert forall|j: int| 0 <= j < n implies known(m, (#[trigger] all[j]).0, all[j].1) by {
                    assert(rest[j] == all[j]);
                }
                assert(all[n] == all.last());
            },
        }
    }
}

/// Transitions are generated exactly where the same replicas are observed and
/// desired. A fault names a replica that one of the two lacks; one that is not
/// observed is named first.
pub proof fn only_matching_replicas_are_accepted(current: Replicas, target: Replicas)
    requires
        replica_state::finite(current),
        replica_state::finite(target),
    ensures
        match message_generation::generation_fault(current, target) {
            None => forall|p: Seq<char>, i: Seq<char>| #[trigger]
                known(current, p, i) == known(target, p, i),
            Some(GenerationFault::MissingCurrentState { partition, instance }) => known(
                target,
                partition,
                instance,
            ) && !known(current, partition, instance),
            Some(GenerationFault::MissingTargetState { partition, instance }) => known(
                current,
                partition,
                instance,
            ) && !known(target, partition, instance) && forall|p: Seq<char>, i: Seq<char>|
                #[trigger] known(target, p, i) ==> known(current, p, i),
        },
{
    let wanted = replica_state::cells(target);
    let seen = replica_state::cells(current);
    replica_state::every_replica_is_listed(target);
    replica_state::every_replica_is_listed(current);
    missing_is_unknown(wanted, current);
    missing_is_unknown(seen, target);
    if message_generation::first_missing(wanted, current) is None {
        assert forall|p: Seq<char>, i: Seq<char>| #[trigger] known(target, p, i) implies known(
            current,
            p,
            i,
        ) by {
            assert(target[p].dom().contains(i));
            let k = wanted.index_of((p, i, target[p][i]));
            assert(wanted[k].0 == p);
        }
        if message_generation::first_missing(seen, target) is None {
            assert forall|p: Seq<char>, i: Seq<char>| #[trigger] known(current, p, i) == known(
                target,
                p,
                i,
            ) by {
                if known(current, p, i) {
                    assert(current[p].dom().contains(i));
                    let k = seen.index_of((p, i, current[p][i]));
                    assert(seen[k].0 == p);
                }
            }
        }
    }
}

} // verus!
