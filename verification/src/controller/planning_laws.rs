//! What holds of every queue that a controller plans.
use crate::controller::message_generation;
use crate::controller::message_selection;
use crate::controller::message_throttle;
use crate::controller::observed;
use crate::controller::pending::{self, ReconcileMode};
use crate::controller::planning;
use crate::controller::plans;
use crate::controller::published;
use crate::controller::published::PublishedTransition;
use crate::controller::records;
use crate::controller::throttle_laws;
use crate::model::builtins;
use crate::model::replica_state;
use crate::model::session;
use crate::model::state_model;
use crate::model::{InstanceId, PartitionId};
use crate::ordered;
use crate::text;
use crate::transition;
use vstd::prelude::*;

verus! {

/// The planned queue holds the same messages, in order and each once.
pub proof fn queue_is_ordered(messages: Seq<published::PublishedView>)
    ensures
        forall|m: published::PublishedView| #[trigger]
            planning::in_order(messages).contains(m) <==> messages.contains(m),
        forall|i: int, j: int|
            0 <= i < j < planning::in_order(messages).len() ==> (#[trigger] planning::in_order(
                messages,
            )[i]).precedes(#[trigger] planning::in_order(messages)[j]),
{
    let set = messages.to_set();
    vstd::seq_lib::seq_to_set_is_finite(messages);
    ordered::finite_set_is_enumerated::<PublishedTransition>(set);
    let listing = planning::in_order(messages);
    assert(ordered::enumerates::<PublishedTransition>(listing, set));
    assert forall|m: published::PublishedView| #[trigger]
        listing.contains(m) <==> messages.contains(m) by {
        if listing.contains(m) {
            let k = listing.index_of(m);
            assert(set.contains(listing[k]));
        }
        if messages.contains(m) {
            assert(set.contains(m));
        }
    }
}

/// The message is for the live session of its instance.
pub open spec fn for_live_session(
    message: published::PublishedView,
    live: Map<Seq<char>, (Seq<char>, u64)>,
) -> bool {
    live.dom().contains(message.instance) && live[message.instance].1 == message.target_session
}

/// Every planned message is for the live session of its instance: it was
/// pending and still is, or it asks for a dispatched move.
pub proof fn planned_messages_are_for_live_sessions(
    messages: Seq<published::PublishedView>,
    original: Seq<published::PublishedView>,
    live: Map<Seq<char>, (Seq<char>, u64)>,
    actual: session::Resources,
    all: Seq<plans::PlanView>,
    strict: bool,
    moves: Seq<transition::Move>,
    revision: i64,
    message: published::PublishedView,
)
    requires
        planning::appended(
            pending::retained(messages, live, actual, all, strict),
            original,
            moves,
            live,
            revision,
        ).contains(message),
    ensures
        for_live_session(message, live),
        (messages.contains(message) && pending::still_pending(message, live, actual, all, strict))
            || exists|i: int|
            0 <= i < moves.len() && message == planning::message_for(
                original,
                #[trigger] moves[i],
                live[moves[i].instance].1,
                revision,
                i as nat,
            ),
    decreases moves.len(),
{
    let kept = pending::retained(messages, live, actual, all, strict);
    let after = planning::appended(kept, original, moves, live, revision);
    if moves.len() == 0 {
        pending::retained_exactly_what_is_pending(messages, live, actual, all, strict, message);
    } else {
        let rest = moves.drop_last();
        let before = planning::appended(kept, original, rest, live, revision);
        if before.contains(message) {
            planned_messages_are_for_live_sessions(
                messages,
                original,
                live,
                actual,
                all,
                strict,
                rest,
                revision,
                message,
            );
            if !(messages.contains(message) && pending::still_pending(
                message,
                live,
                actual,
                all,
                strict,
            )) {
                let i = choose|i: int|
                    0 <= i < rest.len() && message == planning::message_for(
                        original,
                        #[trigger] rest[i],
                        live[rest[i].instance].1,
                        revision,
                        i as nat,
                    );
                assert(rest[i] == moves[i]);
            }
        } else {
            let k = after.index_of(message);
            if k < before.len() {
                assert(before[k] == message);
            }
            let n = moves.len() - 1;
            assert(moves[n] == moves.last());
        }
    }
}

/// Every message that is still pending stays in the planned queue.
pub proof fn pending_messages_are_kept(
    kept: Seq<published::PublishedView>,
    original: Seq<published::PublishedView>,
    moves: Seq<transition::Move>,
    live: Map<Seq<char>, (Seq<char>, u64)>,
    revision: i64,
    message: published::PublishedView,
)
    requires
        kept.contains(message),
    ensures
        planning::appended(kept, original, moves, live, revision).contains(message),
    decreases moves.len(),
{
    if moves.len() > 0 {
        let before = planning::appended(kept, original, moves.drop_last(), live, revision);
        pending_messages_are_kept(kept, original, moves.drop_last(), live, revision, message);
        let k = before.index_of(message);
        let after = planning::appended(kept, original, moves, live, revision);
        assert(after[k] == message);
    }
}

/// No two messages are for the same replica.
pub open spec fn one_per_replica(messages: Seq<published::PublishedView>) -> bool {
    forall|i: int, j: int|
        0 <= i < j < messages.len() ==> !(#[trigger] messages[i]).same_replica(
            #[trigger] messages[j],
        )
}

/// Planning never queues a second message for a replica.
pub proof fn replicas_are_reserved(
    kept: Seq<published::PublishedView>,
    original: Seq<published::PublishedView>,
    moves: Seq<transition::Move>,
    live: Map<Seq<char>, (Seq<char>, u64)>,
    revision: i64,
)
    requires
        one_per_replica(kept),
    ensures
        one_per_replica(planning::appended(kept, original, moves, live, revision)),
    decreases moves.len(),
{
    if moves.len() > 0 {
        replicas_are_reserved(kept, original, moves.drop_last(), live, revision);
        let before = planning::appended(kept, original, moves.drop_last(), live, revision);
        let after = planning::appended(kept, original, moves, live, revision);
        assert forall|i: int, j: int| 0 <= i < j < after.len() implies !(
        #[trigger] after[i]).same_replica(#[trigger] after[j]) by {
            if j < before.len() {
                assert(!before[i].same_replica(before[j]));
            } else {
                assert(before[i] == after[i]);
                if after[i].same_replica(after[j]) {
                    assert(planning::has_replica(before, after[j]));
                }
            }
        }
    }
}

proof fn decimal_has_no_colon(n: nat)
    ensures
        !text::decimal(n).contains(':'),
{
    text::decimal_round_trip(n);
    if text::decimal(n).contains(':') {
        let i = text::decimal(n).index_of(':');
        assert(text::is_digit(text::decimal(n)[i]));
    }
}

proof fn message_id_parts(revision: i64, ordinal: nat)
    requires
        revision > 0,
    ensures
        text::parts_of(planning::new_message_id(revision, ordinal), ':') == seq![
            "m10"@,
            text::decimal(revision as nat),
            text::decimal(ordinal),
        ],
{
    reveal_strlit("m10:");
    reveal_strlit("m10");
    reveal_strlit(":");
    let r = text::decimal(revision as nat);
    let o = text::decimal(ordinal);
    let s1 = "m10"@.push(':') + r;
    let s2 = s1.push(':') + o;
    assert(planning::new_message_id(revision, ordinal) =~= s2);
    decimal_has_no_colon(revision as nat);
    decimal_has_no_colon(ordinal);
    assert(!"m10"@.contains(':'));
    text::parts_of_single("m10"@, ':');
    text::parts_of_join("m10"@, r, ':');
    text::parts_of_join(s1, o, ':');
    assert(text::parts_of(s2, ':') =~= seq!["m10"@, r, o]);
}

/// New message identities are unique: they are the same only for the same
/// revision and the same position.
pub proof fn new_message_ids_are_unique(a: i64, i: nat, b: i64, j: nat)
    requires
        a > 0,
        b > 0,
        planning::new_message_id(a, i) == planning::new_message_id(b, j),
    ensures
        a == b,
        i == j,
{
    message_id_parts(a, i);
    message_id_parts(b, j);
    let p = seq!["m10"@, text::decimal(a as nat), text::decimal(i)];
    let q = seq!["m10"@, text::decimal(b as nat), text::decimal(j)];
    assert(p[1] == q[1] && p[2] == q[2]);
    text::decimal_injective(a as nat, b as nat);
    text::decimal_injective(i, j);
}

/// An identity is never empty.
pub proof fn new_message_ids_are_identities(revision: i64, ordinal: nat)
    ensures
        planning::new_message_id(revision, ordinal).len() > 0,
{
    reveal_strlit("m10:");
}

/// The states of a plan's resource as planning sees them: what is observed, and
/// the initial state for each placed replica that is not.
pub open spec fn seen_by(
    v: planning::PlanningView,
    zones: Map<Seq<char>, Seq<char>>,
    plan: plans::PlanView,
) -> replica_state::Replicas {
    observed::normalized(
        observed::replicas_of(v.actual(zones), plan.resource),
        plan.ideal.lists,
        v.live(),
        builtins::leader_standby_parts().model().initial,
    )
}

/// The resource is planned so.
pub open spec fn is_planned(
    v: planning::PlanningView,
    zones: Map<Seq<char>, Seq<char>>,
    plan: plans::PlanView,
) -> bool {
    &&& records::configured_zones(v.metadata.configs) == Ok::<
        Map<Seq<char>, Seq<char>>,
        Seq<char>,
    >(zones)
    &&& plans::plans_of(v.metadata.resources, zones, v.live(), v.assignments) matches
        plans::PlansOutcome::Plans(all, _) && all.contains(plan)
}

/// The message asks a replica of the plan for one transition of the model, from
/// the state that it is seen in.
pub open spec fn takes_one_step(
    v: planning::PlanningView,
    zones: Map<Seq<char>, Seq<char>>,
    plan: plans::PlanView,
    message: published::PublishedView,
) -> bool {
    &&& message.message_type == "STATE_TRANSITION"@
    &&& message.resource == plan.resource
    &&& replica_state::state_of(seen_by(v, zones, plan), message.partition, message.instance)
        == Some(message.from)
    &&& builtins::leader_standby_parts().model().transitions.contains((message.from, message.to))
}

proof fn inputs_come_from_plans(
    all: Seq<plans::PlanView>,
    actual: session::Resources,
    live: Set<Seq<char>>,
    moves: Seq<transition::Move>,
    model: state_model::StateModelView,
    answers: Seq<Result<replica_state::Replicas, Seq<char>>>,
    k: int,
) -> (answer: Option<Result<replica_state::Replicas, Seq<char>>>)
    requires
        planning::inputs_of(all, actual, live, moves, model, answers) is Inputs,
        0 <= k < planning::inputs_of(all, actual, live, moves, model, answers)->Inputs_0.len(),
    ensures
        k < all.len(),
        planning::inputs_of(all, actual, live, moves, model, answers)->Inputs_0.len() == all.len(),
        planning::input_of(all[k], actual, live, moves, model, answer)
            == planning::InputOutcome::Input(
            planning::inputs_of(all, actual, live, moves, model, answers)->Inputs_0[k],
        ),
    decreases all.len(),
{
    let rest = all.drop_last();
    let before = planning::inputs_of(rest, actual, live, moves, model, answers);
    inputs_are_all_there(all, actual, live, moves, model, answers);
    inputs_are_all_there(rest, actual, live, moves, model, answers);
    if k < rest.len() {
        inputs_come_from_plans(rest, actual, live, moves, model, answers, k)
    } else {
        let used = before->Inputs_1;
        if used < answers.len() {
            Some(answers[used as int])
        } else {
            None
        }
    }
}

proof fn inputs_are_all_there(
    all: Seq<plans::PlanView>,
    actual: session::Resources,
    live: Set<Seq<char>>,
    moves: Seq<transition::Move>,
    model: state_model::StateModelView,
    answers: Seq<Result<replica_state::Replicas, Seq<char>>>,
)
    requires
        planning::inputs_of(all, actual, live, moves, model, answers) is Inputs,
    ensures
        planning::inputs_of(all, actual, live, moves, model, answers)->Inputs_0.len() == all.len(),
    decreases all.len(),
{
    if all.len() > 0 {
        inputs_are_all_there(all.drop_last(), actual, live, moves, model, answers);
    }
}

proof fn selected_moves_take_one_step(
    plan: plans::PlanView,
    actual: session::Resources,
    live: Set<Seq<char>>,
    moves: Seq<transition::Move>,
    model: state_model::StateModelView,
    answer: Option<Result<replica_state::Replicas, Seq<char>>>,
    m: transition::Move,
)
    requires
        model.valid(),
        planning::input_of(plan, actual, live, moves, model, answer) is Input,
        planning::input_of(plan, actual, live, moves, model, answer)->Input_0.selected.contains(m),
    ensures
        m.resource == plan.resource,
        replica_state::state_of(
            observed::normalized(
                observed::replicas_of(actual, plan.resource),
                plan.ideal.lists,
                live,
                model.initial,
            ),
            m.partition,
            m.instance,
        ) == Some(m.source),
        model.transitions.contains((m.source, m.target)),
{
    let input = planning::input_of(plan, actual, live, moves, model, answer)->Input_0;
    let desired = replica_state::cells(input.best);
    let candidates = message_generation::moves_of(
        plan.resource,
        input.current,
        desired,
        model,
    );
    let selection = message_selection::SelectionView {
        resource: plan.resource,
        lists: plan.ideal.lists,
        current: input.current,
        live,
        candidates,
        pending: pending::of_resource(moves, plan.resource),
        model,
    };
    message_selection::selection_selects_candidates(
        selection,
        ordered::members_in_order::<PartitionId>(selection.partitions()),
        m,
    );
    assert forall|i: int| 0 <= i < desired.len() implies replica_state::state_of(
        input.current,
        (#[trigger] desired[i]).0,
        desired[i].1,
    ) is Some by {
        message_generation::first_missing_none(desired, input.current, i);
    }
    let k = candidates.index_of(m);
    let d = message_generation::generated_moves_follow_the_model(
        plan.resource,
        input.current,
        desired,
        model,
        k,
    );
}

/// The planned resources of a planning that ended.
pub open spec fn planned_all(v: planning::PlanningView) -> Seq<plans::PlanView> {
    plans::plans_of(
        v.metadata.resources,
        records::configured_zones(v.metadata.configs)->Ok_0,
        v.live(),
        v.assignments,
    )->Plans_0
}

/// The moves that a planning that ended dispatches.
spec fn dispatched_by(v: planning::PlanningView) -> Seq<transition::Move> {
    staged(v).dispatched()
}

spec fn staged(v: planning::PlanningView) -> message_throttle::StageView {
    let zones = records::configured_zones(v.metadata.configs)->Ok_0;
    let all = planned_all(v);
    let inputs = planning::inputs_of(
        all,
        v.actual(zones),
        v.live(),
        pending::reserved(v.kept(zones, all), all, v.mode),
        builtins::leader_standby_parts().model(),
        v.placements,
    )->Inputs_0;
    v.stage(zones, all, inputs, v.throttles()->Ok_0)
}

/// The move behind a new message, and the input that selected it.
proof fn move_behind(
    v: planning::PlanningView,
    view: session::Resources,
    queue: Seq<published::PublishedView>,
    message: published::PublishedView,
) -> (r: (transition::Move, int))
    requires
        v.outcome() == planning::PlanningOutcome::Outputs(view, queue),
        queue.contains(message),
        !v.pending.contains(message),
    ensures
        0 <= r.1 < staged(v).inputs.len(),
        staged(v).inputs[r.1].selected.contains(r.0),
        message.resource == r.0.resource,
        message.partition == r.0.partition,
        message.instance == r.0.instance,
        message.from == r.0.source,
        message.to == r.0.target,
        message.message_type == "STATE_TRANSITION"@,
{
    let zones = records::configured_zones(v.metadata.configs)->Ok_0;
    let all = planned_all(v);
    let live = v.snapshot.participants.live;
    let moves = dispatched_by(v);
    let messages = planning::appended(
        v.kept(zones, all),
        v.pending,
        moves,
        live,
        v.snapshot.revision,
    );
    queue_is_ordered(messages);
    planned_messages_are_for_live_sessions(
        v.pending,
        v.pending,
        live,
        v.actual(zones),
        all,
        v.mode == ReconcileMode::SessionReplacement,
        moves,
        v.snapshot.revision,
        message,
    );
    let i = choose|i: int|
        0 <= i < moves.len() && message == planning::message_for(
            v.pending,
            #[trigger] moves[i],
            live[moves[i].instance].1,
            v.snapshot.revision,
            i as nat,
        );
    let m = moves[i];
    assert(moves.contains(m));
    throttle_laws::dispatches_are_selected_and_new(staged(v), m);
    let k = choose|k: int|
        0 <= k < staged(v).inputs.len() && (#[trigger] staged(v).inputs[k]).selected.contains(m);
    (m, k)
}

/// Everything in a planned queue is for the live session of its instance. What
/// was not pending before asks a replica of a planned resource for one
/// transition of the model, from the state that it is seen in.
pub proof fn planned_queues_take_single_steps(
    v: planning::PlanningView,
    view: session::Resources,
    queue: Seq<published::PublishedView>,
    message: published::PublishedView,
)
    requires
        v.outcome() == planning::PlanningOutcome::Outputs(view, queue),
        queue.contains(message),
    ensures
        for_live_session(message, v.snapshot.participants.live),
        v.pending.contains(message) || exists|zones: Map<Seq<char>, Seq<char>>, plan: plans::PlanView|
            is_planned(v, zones, plan) && #[trigger] takes_one_step(v, zones, plan, message),
{
    let zones = records::configured_zones(v.metadata.configs)->Ok_0;
    let all = planned_all(v);
    let model = builtins::leader_standby_parts().model();
    let live = v.snapshot.participants.live;
    let reserved = pending::reserved(v.kept(zones, all), all, v.mode);
    let moves = dispatched_by(v);
    queue_is_ordered(
        planning::appended(v.kept(zones, all), v.pending, moves, live, v.snapshot.revision),
    );
    planned_messages_are_for_live_sessions(
        v.pending,
        v.pending,
        live,
        v.actual(zones),
        all,
        v.mode == ReconcileMode::SessionReplacement,
        moves,
        v.snapshot.revision,
        message,
    );
    if !v.pending.contains(message) {
        let (m, k) = move_behind(v, view, queue, message);
        let answer = inputs_come_from_plans(
            all,
            v.actual(zones),
            v.live(),
            reserved,
            model,
            v.placements,
            k,
        );
        builtins::leader_standby_is_sound();
        selected_moves_take_one_step(
            all[k],
            v.actual(zones),
            v.live(),
            reserved,
            model,
            answer,
            m,
        );
        assert(is_planned(v, zones, all[k]));
        assert(takes_one_step(v, zones, all[k], message));
    }
}

proof fn retained_keeps_one_per_replica(
    messages: Seq<published::PublishedView>,
    live: Map<Seq<char>, (Seq<char>, u64)>,
    actual: session::Resources,
    all: Seq<plans::PlanView>,
    strict: bool,
)
    requires
        one_per_replica(messages),
    ensures
        one_per_replica(pending::retained(messages, live, actual, all, strict)),
    decreases messages.len(),
{
    if messages.len() > 0 {
        let rest = messages.drop_last();
        let n = messages.len() - 1;
        assert forall|i: int, j: int| 0 <= i < j < rest.len() implies !(
        #[trigger] rest[i]).same_replica(#[trigger] rest[j]) by {
            assert(!messages[i].same_replica(messages[j]));
        }
        retained_keeps_one_per_replica(rest, live, actual, all, strict);
        let before = pending::retained(rest, live, actual, all, strict);
        let after = pending::retained(messages, live, actual, all, strict);
        assert forall|i: int, j: int| 0 <= i < j < after.len() implies !(
        #[trigger] after[i]).same_replica(#[trigger] after[j]) by {
            if j < before.len() {
                assert(!before[i].same_replica(before[j]));
            } else {
                assert(before.contains(before[i]));
                pending::retained_exactly_what_is_pending(
                    rest,
                    live,
                    actual,
                    all,
                    strict,
                    before[i],
                );
                let k = rest.index_of(before[i]);
                assert(!messages[k].same_replica(messages[n]));
            }
        }
    }
}

/// A queue with at most one message for each replica is planned into such a
/// queue, in order.
pub proof fn planned_queues_reserve_replicas(
    v: planning::PlanningView,
    view: session::Resources,
    queue: Seq<published::PublishedView>,
)
    requires
        v.outcome() == planning::PlanningOutcome::Outputs(view, queue),
        one_per_replica(v.pending),
    ensures
        one_per_replica(queue),
        forall|i: int, j: int|
            0 <= i < j < queue.len() ==> (#[trigger] queue[i]).precedes(#[trigger] queue[j]),
{
    let zones = records::configured_zones(v.metadata.configs)->Ok_0;
    let all = planned_all(v);
    let live = v.snapshot.participants.live;
    let moves = dispatched_by(v);
    let messages = planning::appended(
        v.kept(zones, all),
        v.pending,
        moves,
        live,
        v.snapshot.revision,
    );
    retained_keeps_one_per_replica(
        v.pending,
        live,
        v.actual(zones),
        all,
        v.mode == ReconcileMode::SessionReplacement,
    );
    replicas_are_reserved(v.kept(zones, all), v.pending, moves, live, v.snapshot.revision);
    queue_is_ordered(messages);
    assert(queue == planning::in_order(messages));
    assert forall|i: int, j: int| 0 <= i < j < queue.len() implies !(
    #[trigger] queue[i]).same_replica(#[trigger] queue[j]) by {
        assert(queue.contains(queue[i]));
        assert(queue.contains(queue[j]));
        let a = messages.index_of(queue[i]);
        let b = messages.index_of(queue[j]);
        assert(queue[i].precedes(queue[j]));
        published::never_before_itself(queue[i]);
        if a < b {
            assert(!messages[a].same_replica(messages[b]));
        } else {
            assert(!messages[b].same_replica(messages[a]));
        }
    }
}

/// How many replicas of a partition are seen to lead on live instances, or are
/// on their way to or from it.
pub open spec fn leaders_of(
    v: planning::PlanningView,
    zones: Map<Seq<char>, Seq<char>>,
    all: Seq<plans::PlanView>,
    plan: plans::PlanView,
    partition: Seq<char>,
) -> nat {
    message_selection::live_in(
        ordered::members_in_order::<InstanceId>(v.live()),
        seen_by(v, zones, plan),
        partition,
        builtins::leader_standby_parts().model().initial,
        "LEADER"@,
    ) + message_selection::reserved_in(
        pending::of_resource(
            pending::reserved(v.kept(zones, all), all, v.mode),
            plan.resource,
        ),
        partition,
        "LEADER"@,
    )
}

/// A new leader is asked for only where none leads and none is on its way, and
/// never two at a time for one partition.
pub proof fn planned_leaders_are_unique(
    v: planning::PlanningView,
    view: session::Resources,
    queue: Seq<published::PublishedView>,
    message: published::PublishedView,
    other: published::PublishedView,
)
    requires
        v.outcome() == planning::PlanningOutcome::Outputs(view, queue),
        one_per_replica(v.pending),
        queue.contains(message),
        !v.pending.contains(message),
        message.to == "LEADER"@,
    ensures
        exists|zones: Map<Seq<char>, Seq<char>>, plan: plans::PlanView|
            is_planned(v, zones, plan) && plan.resource == message.resource
                && #[trigger] leaders_of(v, zones, planned_all(v), plan, message.partition) == 0,
        queue.contains(other) && !v.pending.contains(other) && other.to == "LEADER"@
            && other.resource == message.resource && other.partition == message.partition
            ==> other == message,
{
    let zones = records::configured_zones(v.metadata.configs)->Ok_0;
    let all = planned_all(v);
    let model = builtins::leader_standby_parts().model();
    let reserved = pending::reserved(v.kept(zones, all), all, v.mode);
    builtins::leader_standby_is_sound();
    builtins::one_leader_is_allowed();
    let (m, k) = move_behind(v, view, queue, message);
    let answer = inputs_come_from_plans(
        all,
        v.actual(zones),
        v.live(),
        reserved,
        model,
        v.placements,
        k,
    );
    let plan = all[k];
    let input = staged(v).inputs[k];
    selected_moves_take_one_step(plan, v.actual(zones), v.live(), reserved, model, answer, m);
    let selection = message_selection::SelectionView {
        resource: plan.resource,
        lists: plan.ideal.lists,
        current: input.current,
        live: v.live(),
        candidates: message_generation::moves_of(
            plan.resource,
            input.current,
            replica_state::cells(input.best),
            model,
        ),
        pending: pending::of_resource(reserved, plan.resource),
        model,
    };
    assert(input.selected == selection.selected());
    message_selection::different_moves_count_twice(selection.selected(), m, m);
    message_selection::selected_moves_fit_their_bounds(
        selection,
        message.partition,
        "LEADER"@,
    );
    assert(is_planned(v, zones, plan));
    assert(leaders_of(v, zones, all, plan, message.partition) == selection.occupied(
        message.partition,
        "LEADER"@,
    ));
    if queue.contains(other) && !v.pending.contains(other) && other.to == "LEADER"@
        && other.resource == message.resource && other.partition == message.partition && other
        != message {
        let (n, j) = move_behind(v, view, queue, other);
        let answer = inputs_come_from_plans(
            all,
            v.actual(zones),
            v.live(),
            reserved,
            model,
            v.placements,
            j,
        );
        selected_moves_take_one_step(all[j], v.actual(zones), v.live(), reserved, model, answer, n);
        state_model::first_repeat_none(staged(v).names());
        assert(staged(v).names()[j] == staged(v).names()[k]);
        assert(j == k);
        planned_queues_reserve_replicas(v, view, queue);
        let a = queue.index_of(message);
        let b = queue.index_of(other);
        if a < b {
            assert(!queue[a].same_replica(queue[b]));
        } else {
            assert(!queue[b].same_replica(queue[a]));
        }
        message_selection::different_moves_count_twice(selection.selected(), m, n);
    }
}

} // verus!
