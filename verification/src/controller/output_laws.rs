//! What holds of the inputs that a controller plans with and of the queue that
//! it publishes.
use crate::controller::intermediate_laws;
use crate::controller::message_generation;
use crate::controller::message_selection;
use crate::controller::message_throttle;
use crate::controller::observed;
use crate::controller::pending::{self, ReconcileMode};
use crate::controller::pending_laws;
use crate::controller::planning;
use crate::controller::planning_laws;
use crate::controller::plans;
use crate::controller::published;
use crate::controller::quota;
use crate::controller::records;
use crate::model::builtins;
use crate::model::replica_state;
use crate::model::replica_state::Replicas;
use crate::model::session;
use crate::model::state_model::StateModelView;
use crate::text;
use crate::transition::Move;
use vstd::prelude::*;

verus! {

/// The plan places something.
pub open spec fn places() -> spec_fn(plans::PlanView) -> bool {
    |plan: plans::PlanView| plan.ideal.lists != plans::Lists::empty()
}

/// The answer for the plan at `k`: a plan that places nothing takes none and
/// places no replica.
pub open spec fn placement(
    all: Seq<plans::PlanView>,
    answers: Seq<Result<Replicas, Seq<char>>>,
    k: int,
) -> Option<Result<Replicas, Seq<char>>> {
    let turn = all.take(k).filter(places()).len();
    if all[k].ideal.lists == plans::Lists::empty() {
        Some(Ok(Replicas::empty()))
    } else if turn < answers.len() {
        Some(answers[turn as int])
    } else {
        None
    }
}

/// The states to plan with: a live replica is where it is observed or, where it
/// is placed and not observed, in the initial state.
pub open spec fn planned_from(
    current: Replicas,
    plan: plans::PlanView,
    actual: session::Resources,
    live: Set<Seq<char>>,
    initial: Seq<char>,
) -> bool {
    forall|p: Seq<char>, i: Seq<char>| #[trigger]
        intermediate_laws::found(current, p, i) == if !live.contains(i) {
            None
        } else if pending_laws::observed_state(actual, plan.resource, p, i) is Some {
            pending_laws::observed_state(actual, plan.resource, p, i)
        } else if plan.ideal.lists.dom().contains(p) && plan.ideal.lists[p].contains(i) {
            Some(initial)
        } else {
            None
        }
}

proof fn normalized_is_planned_from(
    plan: plans::PlanView,
    actual: session::Resources,
    live: Set<Seq<char>>,
    initial: Seq<char>,
)
    requires
        plan.ideal.lists.dom().finite(),
        actual.dom().contains(plan.resource) ==> replica_state::finite(actual[plan.resource]),
    ensures
        planned_from(
            observed::normalized(
                observed::replicas_of(actual, plan.resource),
                plan.ideal.lists,
                live,
                initial,
            ),
            plan,
            actual,
            live,
            initial,
        ),
{
    let of = observed::replicas_of(actual, plan.resource);
    let current = observed::normalized(of, plan.ideal.lists, live, initial);
    assert(replica_state::finite(of)) by {
        if !actual.dom().contains(plan.resource) {
            assert(of.dom() =~= Set::empty());
        }
    }
    replica_state::every_replica_is_listed(of);
    assert(replica_state::covers(replica_state::cells(of), of)) by {
        assert forall|p: Seq<char>, i: Seq<char>|
            (#[trigger] replica_state::state_of(of, p, i)) is Some implies replica_state::cells(
            of,
        ).contains((p, i, replica_state::state_of(of, p, i)->0)) by {
            assert(of[p].dom().contains(i));
        }
    }
    assert forall|p: Seq<char>, i: Seq<char>| #[trigger]
        intermediate_laws::found(current, p, i) == if !live.contains(i) {
            None
        } else if pending_laws::observed_state(actual, plan.resource, p, i) is Some {
            pending_laws::observed_state(actual, plan.resource, p, i)
        } else if plan.ideal.lists.dom().contains(p) && plan.ideal.lists[p].contains(i) {
            Some(initial)
        } else {
            None
        } by {
        observed::normalized_states(of, plan.ideal.lists, live, initial, p, i);
    }
}

proof fn answers_are_counted(
    all: Seq<plans::PlanView>,
    actual: session::Resources,
    live: Set<Seq<char>>,
    moves: Seq<Move>,
    model: StateModelView,
    answers: Seq<Result<Replicas, Seq<char>>>,
)
    ensures
        planning::inputs_of(all, actual, live, moves, model, answers) matches
            planning::InputsOutcome::Inputs(inputs, used) ==> {
            &&& inputs.len() == all.len()
            &&& used == all.filter(places()).len()
        },
    decreases all.len(),
{
    reveal(Seq::filter);
    if all.len() > 0 {
        answers_are_counted(all.drop_last(), actual, live, moves, model, answers);
    }
}

/// Every plan becomes the input of the transition stages for its resource, in
/// order: with its number of replicas and no minimum of active ones, with its
/// preference lists and an empty one for every other observed partition, with
/// the observed states and the initial state of replicas that are not observed,
/// with the answer to its placement, and with the moves selected among those
/// that lead from the one to the other.
pub proof fn inputs_follow_plans(
    all: Seq<plans::PlanView>,
    actual: session::Resources,
    live: Set<Seq<char>>,
    moves: Seq<Move>,
    model: StateModelView,
    answers: Seq<Result<Replicas, Seq<char>>>,
    k: int,
)
    requires
        planning::inputs_of(all, actual, live, moves, model, answers) is Inputs,
        0 <= k < all.len(),
        all[k].ideal.lists.dom().finite(),
        actual.dom().contains(all[k].resource) ==> replica_state::finite(actual[all[k].resource]),
    ensures
        ({
            let inputs = planning::inputs_of(all, actual, live, moves, model, answers)->Inputs_0;
            let input = inputs[k];
            &&& inputs.len() == all.len()
            &&& input.resource == all[k].resource
            &&& input.replicas == all[k].ideal.replicas
            &&& input.min_active is None
            &&& planned_from(input.current, all[k], actual, live, model.initial)
            &&& placement(all, answers, k) == Some(Ok::<Replicas, Seq<char>>(input.best))
            &&& forall|p: Seq<char>| #[trigger]
                input.lists.dom().contains(p) <==> all[k].ideal.lists.dom().contains(p)
                    || input.current.dom().contains(p)
            &&& forall|p: Seq<char>| #[trigger]
                input.lists.dom().contains(p) ==> input.lists[p]
                    == if all[k].ideal.lists.dom().contains(p) {
                    all[k].ideal.lists[p]
                } else {
                    Seq::empty()
                }
            &&& input.selected == (message_selection::SelectionView {
                resource: all[k].resource,
                lists: all[k].ideal.lists,
                current: input.current,
                live,
                candidates: message_generation::moves_of(
                    all[k].resource,
                    input.current,
                    replica_state::cells(input.best),
                    model,
                ),
                pending: moves.filter(pending_laws::of(all[k].resource)).map_values(
                    pending_laws::within(),
                ),
                model,
            }).selected()
        }),
    decreases all.len(),
{
    let rest = all.drop_last();
    answers_are_counted(all, actual, live, moves, model, answers);
    answers_are_counted(rest, actual, live, moves, model, answers);
    if k < rest.len() {
        inputs_follow_plans(rest, actual, live, moves, model, answers, k);
        assert(rest.take(k) =~= all.take(k));
    } else {
        assert(all.take(k) =~= rest);
        assert(all.last() == all[k]);
        normalized_is_planned_from(all[k], actual, live, model.initial);
        pending_laws::reserved_moves_go_to_their_resource(moves, all[k].resource);
    }
}

/// A placement is asked for the first plan whose answer is not there: its
/// lists, the states to plan with, and the live instances.
pub proof fn placements_are_asked_in_order(
    all: Seq<plans::PlanView>,
    actual: session::Resources,
    live: Set<Seq<char>>,
    moves: Seq<Move>,
    model: StateModelView,
    answers: Seq<Result<Replicas, Seq<char>>>,
)
    requires
        forall|k: int| 0 <= k < all.len() ==> (#[trigger] all[k]).ideal.lists.dom().finite(),
        forall|k: int|
            0 <= k < all.len() && actual.dom().contains((#[trigger] all[k]).resource)
                ==> replica_state::finite(actual[all[k].resource]),
    ensures
        planning::inputs_of(all, actual, live, moves, model, answers) matches
            planning::InputsOutcome::Ask(request) ==> exists|k: int|
            0 <= k < all.len() && request.ideal == (#[trigger] all[k]).ideal && request.live == live
                && planned_from(request.planning, all[k], actual, live, model.initial)
                && placement(all, answers, k) is None && planning::inputs_of(
                all.take(k),
                actual,
                live,
                moves,
                model,
                answers,
            ) is Inputs,
    decreases all.len(),
{
    if all.len() > 0 {
        let rest = all.drop_last();
        let n = all.len() - 1;
        assert forall|k: int| 0 <= k < rest.len() implies (
        #[trigger] rest[k]).ideal.lists.dom().finite() by {
            assert(rest[k] == all[k]);
        }
        assert forall|k: int|
            0 <= k < rest.len() && actual.dom().contains(
                (#[trigger] rest[k]).resource,
            ) implies replica_state::finite(actual[rest[k].resource]) by {
            assert(rest[k] == all[k]);
        }
        placements_are_asked_in_order(rest, actual, live, moves, model, answers);
        answers_are_counted(rest, actual, live, moves, model, answers);
        assert(all.take(n) =~= rest);
        assert(all[n] == all.last());
        match planning::inputs_of(rest, actual, live, moves, model, answers) {
            planning::InputsOutcome::Ask(request) => {
                let k = choose|k: int|
                    0 <= k < rest.len() && request.ideal == (#[trigger] rest[k]).ideal
                        && request.live == live && planned_from(
                        request.planning,
                        rest[k],
                        actual,
                        live,
                        model.initial,
                    ) && placement(rest, answers, k) is None && planning::inputs_of(
                        rest.take(k),
                        actual,
                        live,
                        moves,
                        model,
                        answers,
                    ) is Inputs;
                assert(rest.take(k) =~= all.take(k));
                assert(all[k] == rest[k]);
            },
            planning::InputsOutcome::Inputs(_, _) => {
                normalized_is_planned_from(all[n], actual, live, model.initial);
            },
            _ => {},
        }
    }
}

/// The published message at `j` is the first that asks for exactly the move, of
/// the session.
pub open spec fn first_asking(
    original: Seq<published::PublishedView>,
    m: Move,
    session: u64,
    j: int,
) -> bool {
    &&& 0 <= j < original.len()
    &&& exactly_asks(original[j], m, session)
    &&& forall|i: int| 0 <= i < j ==> !exactly_asks(#[trigger] original[i], m, session)
}

/// A state transition for the move, of the session.
pub open spec fn exactly_asks(message: published::PublishedView, m: Move, session: u64) -> bool {
    message == (published::PublishedView {
        resource: m.resource,
        partition: m.partition,
        instance: m.instance,
        target_session: session,
        from: m.source,
        to: m.target,
        message_type: "STATE_TRANSITION"@,
        message_id: message.message_id,
    })
}

proof fn existing_is_first(original: Seq<published::PublishedView>, m: Move, session: u64)
    ensures
        forall|j: int| #[trigger]
            first_asking(original, m, session, j) ==> planning::existing_message(
                original,
                m,
                session,
            ) == Some(original[j]),
        (forall|j: int| 0 <= j < original.len() ==> !exactly_asks(#[trigger] original[j], m, session))
            <==> planning::existing_message(original, m, session) is None,
    decreases original.len(),
{
    if original.len() > 0 {
        let rest = original.drop_last();
        let n = original.len() - 1;
        existing_is_first(rest, m, session);
        assert(original[n] == original.last());
        assert(original.last().asks_for(m, session) == exactly_asks(original.last(), m, session));
        assert forall|j: int| #[trigger]
            first_asking(original, m, session, j) implies planning::existing_message(
            original,
            m,
            session,
        ) == Some(original[j]) by {
            if j < n {
                assert(first_asking(rest, m, session, j)) by {
                    assert(rest[j] == original[j]);
                    assert forall|i: int| 0 <= i < j implies !exactly_asks(
                        #[trigger] rest[i],
                        m,
                        session,
                    ) by {
                        assert(rest[i] == original[i]);
                    }
                }
            } else {
                assert forall|i: int| 0 <= i < rest.len() implies !exactly_asks(
                    #[trigger] rest[i],
                    m,
                    session,
                ) by {
                    assert(rest[i] == original[i]);
                }
            }
        }
        if planning::existing_message(original, m, session) is None {
            assert forall|j: int| 0 <= j < original.len() implies !exactly_asks(
                #[trigger] original[j],
                m,
                session,
            ) by {
                if j < n {
                    assert(rest[j] == original[j]);
                }
            }
        }
        if forall|j: int|
            0 <= j < original.len() ==> !exactly_asks(#[trigger] original[j], m, session) {
            assert forall|j: int| 0 <= j < rest.len() implies !exactly_asks(
                #[trigger] rest[j],
                m,
                session,
            ) by {
                assert(rest[j] == original[j]);
            }
            assert(!exactly_asks(original[n], m, session));
        }
    }
}

/// The message is of the replica of the move.
pub open spec fn of_replica(message: published::PublishedView, m: Move) -> bool {
    message.resource == m.resource && message.partition == m.partition && message.instance
        == m.instance
}

/// Two moves are of one replica.
pub open spec fn together(a: Move, b: Move) -> bool {
    a.resource == b.resource && a.partition == b.partition && a.instance == b.instance
}

/// A new message for the move at `k`, with the identifier of the published
/// message that asks for the same where there is one.
pub open spec fn newly_asks(
    message: published::PublishedView,
    original: Seq<published::PublishedView>,
    moves: Seq<Move>,
    live: Map<Seq<char>, (Seq<char>, u64)>,
    revision: i64,
    k: int,
) -> bool {
    let session = live[moves[k].instance].1;
    &&& exactly_asks(message, moves[k], session)
    &&& forall|j: int| #[trigger]
        first_asking(original, moves[k], session, j) ==> message.message_id
            == original[j].message_id
    &&& (forall|j: int|
        0 <= j < original.len() ==> !exactly_asks(#[trigger] original[j], moves[k], session))
        ==> message.message_id == "m10:"@ + text::signed_decimal(revision as int) + ":"@
        + text::decimal(k as nat)
}

proof fn moves_are_appended(
    kept: Seq<published::PublishedView>,
    original: Seq<published::PublishedView>,
    moves: Seq<Move>,
    live: Map<Seq<char>, (Seq<char>, u64)>,
    revision: i64,
    k: int,
)
    requires
        0 <= k < moves.len(),
        live.dom().contains(moves[k].instance),
    ensures
        exists|m: published::PublishedView| #[trigger]
            planning::appended(kept, original, moves, live, revision).contains(m) && of_replica(
                m,
                moves[k],
            ),
        (forall|j: int| 0 <= j < kept.len() ==> !of_replica(#[trigger] kept[j], moves[k])) && (
        forall|j: int| 0 <= j < k ==> !together(#[trigger] moves[j], moves[k])) ==> exists|
            m: published::PublishedView,
        | #[trigger]
            planning::appended(kept, original, moves, live, revision).contains(m) && newly_asks(
                m,
                original,
                moves,
                live,
                revision,
                k,
            ),
    decreases moves.len(),
{
    let rest = moves.drop_last();
    let n = moves.len() - 1;
    let before = planning::appended(kept, original, rest, live, revision);
    let after = planning::appended(kept, original, moves, live, revision);
    if k < n {
        moves_are_appended(kept, original, rest, live, revision, k);
        assert(rest[k] == moves[k]);
        assert forall|m: published::PublishedView| before.contains(m) implies #[trigger] after.contains(m) by {
            let a = before.index_of(m);
            assert(after[a] == m);
        }
        let m = choose|m: published::PublishedView| #[trigger]
            before.contains(m) && of_replica(m, rest[k]);
        assert(after.contains(m));
        if (forall|j: int| 0 <= j < kept.len() ==> !of_replica(#[trigger] kept[j], moves[k])) && (
        forall|j: int| 0 <= j < k ==> !together(#[trigger] moves[j], moves[k])) {
            assert forall|j: int| 0 <= j < k implies !together(#[trigger] rest[j], rest[k]) by {
                assert(rest[j] == moves[j]);
            }
            let m = choose|m: published::PublishedView| #[trigger]
                before.contains(m) && newly_asks(m, original, rest, live, revision, k);
            assert(after.contains(m));
            assert(newly_asks(m, original, moves, live, revision, k));
        }
    } else {
        let session = live[moves[k].instance].1;
        let message = planning::message_for(original, moves[k], session, revision, k as nat);
        existing_is_first(original, moves[k], session);
        assert(newly_asks(message, original, moves, live, revision, k));
        if planning::has_replica(before, message) {
            let a = choose|a: int|
                0 <= a < before.len() && (#[trigger] before[a]).same_replica(message);
            assert(after[a] == before[a]);
            assert(after.contains(after[a]));
            assert(of_replica(after[a], moves[k]));
            if (forall|j: int| 0 <= j < kept.len() ==> !of_replica(#[trigger] kept[j], moves[k]))
                && (forall|j: int| 0 <= j < k ==> !together(#[trigger] moves[j], moves[k])) {
                replicas_come_from(kept, original, rest, live, revision, a);
                if kept.contains(before[a]) {
                    let j = kept.index_of(before[a]);
                    assert(!of_replica(kept[j], moves[k]));
                } else {
                    let j = choose|j: int|
                        0 <= j < rest.len() && of_replica(before[a], #[trigger] rest[j]);
                    assert(rest[j] == moves[j]);
                    assert(!together(moves[j], moves[k]));
                }
            }
        } else {
            assert(after[before.len() as int] == message);
            assert(after.contains(message));
            assert(of_replica(message, moves[k]));
        }
    }
}

proof fn replicas_come_from(
    kept: Seq<published::PublishedView>,
    original: Seq<published::PublishedView>,
    moves: Seq<Move>,
    live: Map<Seq<char>, (Seq<char>, u64)>,
    revision: i64,
    a: int,
)
    requires
        0 <= a < planning::appended(kept, original, moves, live, revision).len(),
    ensures
        ({
            let m = planning::appended(kept, original, moves, live, revision)[a];
            kept.contains(m) || exists|j: int|
                0 <= j < moves.len() && of_replica(m, #[trigger] moves[j])
        }),
    decreases moves.len(),
{
    if moves.len() > 0 {
        let rest = moves.drop_last();
        let before = planning::appended(kept, original, rest, live, revision);
        let m = planning::appended(kept, original, moves, live, revision)[a];
        if a < before.len() {
            replicas_come_from(kept, original, rest, live, revision, a);
            if !kept.contains(m) {
                let j = choose|j: int| 0 <= j < rest.len() && of_replica(m, #[trigger] rest[j]);
                assert(moves[j] == rest[j]);
            }
        } else {
            assert(of_replica(m, moves[moves.len() - 1]));
        }
    } else {
        assert(kept.contains(kept[a]));
    }
}

/// Every dispatched move of a live instance has a message of its replica in the
/// published queue. Where neither a pending message nor an earlier move is of
/// the replica, it is a state transition for exactly the move, addressed to the
/// live session. It has the identifier of the published message that asks for
/// the same, and else one made of the revision and the place of the move.
pub proof fn dispatched_moves_are_published(
    kept: Seq<published::PublishedView>,
    original: Seq<published::PublishedView>,
    moves: Seq<Move>,
    live: Map<Seq<char>, (Seq<char>, u64)>,
    revision: i64,
    k: int,
)
    requires
        0 <= k < moves.len(),
        live.dom().contains(moves[k].instance),
    ensures
        ({
            let queue = planning::in_order(
                planning::appended(kept, original, moves, live, revision),
            );
            &&& exists|m: published::PublishedView| #[trigger]
                queue.contains(m) && of_replica(m, moves[k])
            &&& (forall|j: int| 0 <= j < kept.len() ==> !of_replica(#[trigger] kept[j], moves[k]))
                && (forall|j: int| 0 <= j < k ==> !together(#[trigger] moves[j], moves[k]))
                ==> exists|m: published::PublishedView| #[trigger]
                queue.contains(m) && newly_asks(m, original, moves, live, revision, k)
        }),
{
    let list = planning::appended(kept, original, moves, live, revision);
    planning_laws::queue_is_ordered(list);
    moves_are_appended(kept, original, moves, live, revision, k);
    let m = choose|m: published::PublishedView| #[trigger]
        list.contains(m) && of_replica(m, moves[k]);
    assert(planning::in_order(list).contains(m));
    if (forall|j: int| 0 <= j < kept.len() ==> !of_replica(#[trigger] kept[j], moves[k])) && (forall|
        j: int,
    |
        0 <= j < k ==> !together(#[trigger] moves[j], moves[k])) {
        let m = choose|m: published::PublishedView| #[trigger]
            list.contains(m) && newly_asks(m, original, moves, live, revision, k);
        assert(planning::in_order(list).contains(m));
    }
}

/// A message in the published queue was pending and kept, or is a state
/// transition for a dispatched move, addressed to the live session.
pub proof fn published_messages_have_a_cause(
    kept: Seq<published::PublishedView>,
    original: Seq<published::PublishedView>,
    moves: Seq<Move>,
    live: Map<Seq<char>, (Seq<char>, u64)>,
    revision: i64,
    message: published::PublishedView,
)
    requires
        planning::in_order(planning::appended(kept, original, moves, live, revision)).contains(
            message,
        ),
    ensures
        kept.contains(message) || exists|k: int|
            0 <= k < moves.len() && live.dom().contains((#[trigger] moves[k]).instance)
                && newly_asks(message, original, moves, live, revision, k),
    decreases moves.len(),
{
    let list = planning::appended(kept, original, moves, live, revision);
    planning_laws::queue_is_ordered(list);
    if moves.len() > 0 {
        let rest = moves.drop_last();
        let n = moves.len() - 1;
        let before = planning::appended(kept, original, rest, live, revision);
        planning_laws::queue_is_ordered(before);
        let a = list.index_of(message);
        if a < before.len() {
            assert(before[a] == message);
            assert(before.contains(message));
            published_messages_have_a_cause(kept, original, rest, live, revision, message);
            if !kept.contains(message) {
                let k = choose|k: int|
                    0 <= k < rest.len() && live.dom().contains((#[trigger] rest[k]).instance)
                        && newly_asks(message, original, rest, live, revision, k);
                assert(moves[k] == rest[k]);
                assert(newly_asks(message, original, moves, live, revision, k));
            }
        } else {
            existing_is_first(original, moves[n], live[moves[n].instance].1);
            assert(newly_asks(message, original, moves, live, revision, n));
        }
    }
}

/// The throttles that a controller plans under: none when it starts, and those
/// that are configured otherwise.
pub open spec fn throttled_by(
    v: planning::PlanningView,
    configs: Seq<quota::ThrottleView>,
) -> bool {
    if v.mode == ReconcileMode::Startup {
        configs.len() == 0
    } else {
        records::configured_throttles(v.metadata.throttles) == Ok::<
            Seq<quota::ThrottleView>,
            Seq<char>,
        >(configs)
    }
}

/// The outputs come about from the zones, the plans and the transition stages.
pub open spec fn come_about(
    v: planning::PlanningView,
    view: session::Resources,
    queue: Seq<published::PublishedView>,
    zones: Map<Seq<char>, Seq<char>>,
    all: Seq<plans::PlanView>,
    used: nat,
    stage: message_throttle::StageView,
) -> bool {
    let live = v.snapshot.participants.live;
    let kept = pending::retained(
        v.pending,
        live,
        view,
        all,
        v.mode == ReconcileMode::SessionReplacement,
    );
    &&& records::configured_zones(v.metadata.configs) == Ok::<Map<Seq<char>, Seq<char>>, Seq<char>>(
        zones,
    )
    &&& plans::plans_of(v.metadata.resources, zones, live.dom(), v.assignments)
        == plans::PlansOutcome::Plans(all, used)
    &&& view == observed::observed(v.snapshot.participants.active, zones, live.dom())
    &&& stage.fault() is None
    &&& stage.live == live.dom()
    &&& stage.pending == pending::reserved(kept, all, v.mode)
    &&& throttled_by(v, stage.configs)
    &&& stage.model == builtins::leader_standby_parts().model()
    &&& planning::inputs_of(all, view, live.dom(), stage.pending, stage.model, v.placements) matches
        planning::InputsOutcome::Inputs(inputs, _) && inputs == stage.inputs
    &&& queue == planning::in_order(
        planning::appended(kept, v.pending, stage.dispatched(), live, v.snapshot.revision),
    )
}

/// The outputs of a controller: the external view shows what is observed, and
/// the queue holds the pending messages that are kept, and messages for the
/// moves that the transition stages dispatch. They run on the inputs of all
/// planned resources, under the throttles that hold, with what the kept
/// messages reserve as pending.
pub proof fn outputs_follow_the_stages(
    v: planning::PlanningView,
    view: session::Resources,
    queue: Seq<published::PublishedView>,
)
    requires
        v.outcome() == planning::PlanningOutcome::Outputs(view, queue),
    ensures
        exists|
            zones: Map<Seq<char>, Seq<char>>,
            all: Seq<plans::PlanView>,
            used: nat,
            stage: message_throttle::StageView,
        |
            come_about(v, view, queue, zones, all, used, stage),
{
    let zones = records::configured_zones(v.metadata.configs)->Ok_0;
    let of = plans::plans_of(v.metadata.resources, zones, v.live(), v.assignments);
    let all = of->Plans_0;
    let moves = pending::reserved(v.kept(zones, all), all, v.mode);
    let inputs = planning::inputs_of(
        all,
        v.actual(zones),
        v.live(),
        moves,
        builtins::leader_standby_parts().model(),
        v.placements,
    )->Inputs_0;
    let stage = v.stage(zones, all, inputs, v.throttles()->Ok_0);
    assert(come_about(v, view, queue, zones, all, of->Plans_1, stage));
}

/// A starting controller does not look at the throttles.
pub proof fn starting_controllers_are_unthrottled(v: planning::PlanningView, other: planning::PlanningView)
    requires
        v.mode == ReconcileMode::Startup,
        other == (planning::PlanningView {
            metadata: planning::ControllerMetadataView {
                throttles: other.metadata.throttles,
                ..v.metadata
            },
            ..v
        }),
    ensures
        v.outcome() == other.outcome(),
{
}

/// Messages of different replicas are ordered by resource, then by partition,
/// then by instance. Those of one replica are ordered by their session, and
/// under one session by where they lead from, where to, and what they are.
pub proof fn messages_are_ordered_by_replica(a: published::PublishedView, b: published::PublishedView)
    ensures
        text::text_before(a.resource, b.resource) ==> a.precedes(b) && !b.precedes(a),
        a.resource == b.resource && text::text_before(a.partition, b.partition) ==> a.precedes(b)
            && !b.precedes(a),
        a.resource == b.resource && a.partition == b.partition && text::text_before(
            a.instance,
            b.instance,
        ) ==> a.precedes(b) && !b.precedes(a),
        of_one_replica(a, b) && a.target_session < b.target_session ==> a.precedes(b)
            && !b.precedes(a),
        of_one_replica(a, b) && a.target_session == b.target_session && text::text_before(
            a.from,
            b.from,
        ) ==> a.precedes(b) && !b.precedes(a),
        of_one_replica(a, b) && a.target_session == b.target_session && a.from == b.from
            && text::text_before(a.to, b.to) ==> a.precedes(b) && !b.precedes(a),
        of_one_replica(a, b) && a.target_session == b.target_session && a.from == b.from && a.to
            == b.to && text::text_before(a.message_type, b.message_type) ==> a.precedes(b)
            && !b.precedes(a),
        of_one_replica(a, b) && a.target_session == b.target_session && a.from == b.from && a.to
            == b.to && a.message_type == b.message_type && text::text_before(
            a.message_id,
            b.message_id,
        ) ==> a.precedes(b) && !b.precedes(a),
{
    differ(a.resource, b.resource);
    differ(a.partition, b.partition);
    differ(a.instance, b.instance);
    differ(a.from, b.from);
    differ(a.to, b.to);
    differ(a.message_type, b.message_type);
    differ(a.message_id, b.message_id);
}

/// Both messages are of one replica.
pub open spec fn of_one_replica(a: published::PublishedView, b: published::PublishedView) -> bool {
    a.resource == b.resource && a.partition == b.partition && a.instance == b.instance
}

proof fn differ(a: Seq<char>, b: Seq<char>)
    ensures
        text::text_before(a, b) ==> a != b && !text::text_before(b, a),
{
    text::text_before_irreflexive(a);
    if text::text_before(a, b) && text::text_before(b, a) {
        text::text_before_transitive(a, b, a);
    }
}

} // verus!
