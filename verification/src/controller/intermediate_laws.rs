//! What the intermediate states say of every replica.
use crate::controller::dispatch_laws;
use crate::controller::message_throttle;
use crate::controller::message_throttle::{InputView, Round, StageView};
use crate::controller::throttle_laws;
use crate::model::replica_state;
use crate::model::replica_state::Replicas;
use crate::model::state_model;
use crate::transition::Move;
use vstd::prelude::*;

verus! {

/// The state of a replica, where it is known.
pub open spec fn found(m: Replicas, partition: Seq<char>, instance: Seq<char>) -> Option<Seq<char>> {
    if m.dom().contains(partition) && m[partition].dom().contains(instance) {
        Some(m[partition][instance])
    } else {
        None
    }
}

/// What is found of a replica once a move of it is complete: its target, or
/// nothing where it was dropped.
pub open spec fn after_move(m: Move) -> Option<Seq<char>> {
    if m.target == "DROPPED"@ {
        None
    } else {
        Some(m.target)
    }
}

/// The move is of the replica.
pub open spec fn moves_replica(
    m: Move,
    resource: Seq<char>,
    partition: Seq<char>,
    instance: Seq<char>,
) -> bool {
    m.resource == resource && m.partition == partition && m.instance == instance
}

proof fn steps_keep_unmoved(
    v: StageView,
    input: InputView,
    round: Round,
    messages: Seq<Move>,
    p: Seq<char>,
    i: Seq<char>,
)
    requires
        forall|k: int|
            0 <= k < messages.len() && (#[trigger] messages[k]).partition == p
                && messages[k].instance == i ==> !dispatch_laws::sent(
                v.stepped_all(input, round, messages).log,
                messages[k],
            ),
    ensures
        found(v.stepped_all(input, round, messages).derived, p, i) == found(round.derived, p, i),
    decreases messages.len(),
{
    if messages.len() > 0 {
        let rest = messages.drop_last();
        let before = v.stepped_all(input, round, rest);
        let after = v.stepped_all(input, round, messages);
        let last = messages.last();
        assert(dispatch_laws::continues(before.log, after.log)) by {
            assert(after.log.take(before.log.len() as int) =~= before.log);
        }
        assert forall|k: int|
            0 <= k < rest.len() && (#[trigger] rest[k]).partition == p && rest[k].instance
                == i implies !dispatch_laws::sent(before.log, rest[k]) by {
            assert(rest[k] == messages[k]);
            if dispatch_laws::sent(before.log, rest[k]) {
                dispatch_laws::sent_stays(before.log, after.log, rest[k]);
            }
        }
        steps_keep_unmoved(v, input, round, rest, p, i);
        assert(messages[messages.len() - 1] == last);
        if last.partition == p && last.instance == i && after.log.len() > before.log.len() {
            assert(message_throttle::moves_in(after.log)[before.log.len() as int] == last);
        }
        if after.log.len() > before.log.len() {
            replica_state::placing_changes_one_replica(
                before.derived,
                last.partition,
                last.instance,
                last.target,
                p,
                i,
            );
        }
    }
}

proof fn tried_keep_unmoved(
    v: StageView,
    input: InputView,
    round: Round,
    partitions: Seq<Seq<char>>,
    p: Seq<char>,
    i: Seq<char>,
)
    requires
        forall|k: int|
            0 <= k < input.selected.len() && (#[trigger] input.selected[k]).partition == p
                && input.selected[k].instance == i ==> !dispatch_laws::sent(
                v.partitions_tried(input, round, partitions).log,
                input.selected[k],
            ),
    ensures
        found(v.partitions_tried(input, round, partitions).derived, p, i) == found(
            round.derived,
            p,
            i,
        ),
    decreases partitions.len(),
{
    if partitions.len() > 0 {
        let rest = partitions.drop_last();
        let before = v.partitions_tried(input, round, rest);
        let messages = v.messages(input, partitions.last());
        let after = v.stepped_all(input, before, messages);
        dispatch_laws::steps_continue(v, input, before, messages);
        assert forall|k: int|
            0 <= k < input.selected.len() && (#[trigger] input.selected[k]).partition == p
                && input.selected[k].instance == i implies !dispatch_laws::sent(
            before.log,
            input.selected[k],
        ) by {
            if dispatch_laws::sent(before.log, input.selected[k]) {
                dispatch_laws::sent_stays(before.log, after.log, input.selected[k]);
            }
        }
        tried_keep_unmoved(v, input, round, rest, p, i);
        assert forall|k: int|
            0 <= k < messages.len() && (#[trigger] messages[k]).partition == p
                && messages[k].instance == i implies !dispatch_laws::sent(after.log, messages[k]) by {
            assert(messages.contains(messages[k]));
            throttle_laws::messages_are_selected(v, input, partitions.last(), messages[k]);
            let s = input.selected.index_of(messages[k]);
            assert(input.selected[s].partition == p);
        }
        steps_keep_unmoved(v, input, before, messages, p, i);
    }
}

proof fn completing_changes_one(m: Replicas, done: Move, p: Seq<char>, i: Seq<char>)
    ensures
        found(message_throttle::completed(m, done), p, i) == if done.partition == p
            && done.instance == i {
            after_move(done)
        } else {
            found(m, p, i)
        },
{
    replica_state::placing_changes_one_replica(
        m,
        done.partition,
        done.instance,
        done.target,
        p,
        i,
    );
}

proof fn pending_complete(
    m: Replicas,
    pending: Seq<Move>,
    resource: Seq<char>,
    p: Seq<char>,
    i: Seq<char>,
)
    requires
        forall|a: int, b: int|
            0 <= a < b < pending.len() ==> !message_throttle::same_replica(
                #[trigger] pending[a],
                #[trigger] pending[b],
            ),
    ensures
        forall|a: int|
            0 <= a < pending.len() && moves_replica(#[trigger] pending[a], resource, p, i) ==> found(
                message_throttle::completed_pending(m, pending, resource),
                p,
                i,
            ) == after_move(pending[a]),
        (forall|a: int|
            0 <= a < pending.len() ==> !moves_replica(#[trigger] pending[a], resource, p, i))
            ==> found(message_throttle::completed_pending(m, pending, resource), p, i) == found(
            m,
            p,
            i,
        ),
    decreases pending.len(),
{
    if pending.len() > 0 {
        let rest = pending.drop_last();
        let n = pending.len() - 1;
        assert forall|a: int, b: int|
            0 <= a < b < rest.len() implies !message_throttle::same_replica(
            #[trigger] rest[a],
            #[trigger] rest[b],
        ) by {
            assert(rest[a] == pending[a] && rest[b] == pending[b]);
        }
        pending_complete(m, rest, resource, p, i);
        let before = message_throttle::completed_pending(m, rest, resource);
        completing_changes_one(before, pending.last(), p, i);
        assert(pending[n] == pending.last());
        assert forall|a: int|
            0 <= a < pending.len() && moves_replica(#[trigger] pending[a], resource, p, i) implies found(
            message_throttle::completed_pending(m, pending, resource),
            p,
            i,
        ) == after_move(pending[a]) by {
            if a < n {
                assert(rest[a] == pending[a]);
                assert(!message_throttle::same_replica(pending[a], pending[n]));
            }
        }
        if forall|a: int|
            0 <= a < pending.len() ==> !moves_replica(#[trigger] pending[a], resource, p, i) {
            assert forall|a: int| 0 <= a < rest.len() implies !moves_replica(
                #[trigger] rest[a],
                resource,
                p,
                i,
            ) by {
                assert(rest[a] == pending[a]);
            }
            assert(!moves_replica(pending[n], resource, p, i));
        }
    }
}

proof fn dispatched_complete(
    m: Replicas,
    selected: Seq<Move>,
    dispatched: Seq<Move>,
    p: Seq<char>,
    i: Seq<char>,
)
    requires
        forall|a: int, b: int|
            0 <= a < selected.len() && 0 <= b < selected.len() && (
            #[trigger] selected[a]).partition == (#[trigger] selected[b]).partition
                && selected[a].instance == selected[b].instance ==> selected[a] == selected[b],
    ensures
        forall|a: int|
            0 <= a < selected.len() && (#[trigger] selected[a]).partition == p
                && selected[a].instance == i && dispatched.contains(selected[a]) ==> found(
                message_throttle::completed_dispatched(m, selected, dispatched),
                p,
                i,
            ) == after_move(selected[a]),
        (forall|a: int|
            0 <= a < selected.len() && (#[trigger] selected[a]).partition == p
                && selected[a].instance == i ==> !dispatched.contains(selected[a])) ==> found(
            message_throttle::completed_dispatched(m, selected, dispatched),
            p,
            i,
        ) == found(m, p, i),
    decreases selected.len(),
{
    if selected.len() > 0 {
        let rest = selected.drop_last();
        let n = selected.len() - 1;
        assert forall|a: int, b: int|
            0 <= a < rest.len() && 0 <= b < rest.len() && (#[trigger] rest[a]).partition == (
            #[trigger] rest[b]).partition && rest[a].instance == rest[b].instance implies rest[a]
            == rest[b] by {
            assert(rest[a] == selected[a] && rest[b] == selected[b]);
        }
        dispatched_complete(m, rest, dispatched, p, i);
        let before = message_throttle::completed_dispatched(m, rest, dispatched);
        completing_changes_one(before, selected.last(), p, i);
        assert(selected[n] == selected.last());
        assert forall|a: int|
            0 <= a < selected.len() && (#[trigger] selected[a]).partition == p
                && selected[a].instance == i && dispatched.contains(selected[a]) implies found(
            message_throttle::completed_dispatched(m, selected, dispatched),
            p,
            i,
        ) == after_move(selected[a]) by {
            if a < n {
                assert(rest[a] == selected[a]);
                if selected[n].partition == p && selected[n].instance == i {
                    assert(selected[a] == selected[n]);
                }
            }
        }
        if forall|a: int|
            0 <= a < selected.len() && (#[trigger] selected[a]).partition == p
                && selected[a].instance == i ==> !dispatched.contains(selected[a]) {
            assert forall|a: int|
                0 <= a < rest.len() && (#[trigger] rest[a]).partition == p && rest[a].instance
                    == i implies !dispatched.contains(rest[a]) by {
                assert(rest[a] == selected[a]);
            }
        }
    }
}

proof fn pending_are_different(v: StageView, n: nat, a: int, b: int)
    requires
        n <= v.pending.len(),
        v.repeated_pending(n) is None,
        0 <= a < b < n,
    ensures
        !message_throttle::same_replica(v.pending[a], v.pending[b]),
    decreases n,
{
    if b < n - 1 {
        pending_are_different(v, (n - 1) as nat, a, b);
    }
}

proof fn states_by_name(v: StageView, k: int, n: nat)
    requires
        v.fault() is None,
        0 <= k < n <= v.inputs.len(),
    ensures
        v.states(n).dom().contains(v.inputs[k].resource),
        v.states(n)[v.inputs[k].resource] == v.resource_states(
            v.inputs[k],
            v.resource_round(v.inputs[k], v.progress(k as nat).0, v.progress(k as nat).1),
        ),
    decreases n,
{
    if k < n - 1 {
        states_by_name(v, k, (n - 1) as nat);
        state_model::first_repeat_none(v.names());
        assert(v.names()[k] != v.names()[n - 1]);
    }
}

/// No replica has two selected moves.
pub open spec fn one_move_each(input: InputView) -> bool {
    forall|a: int, b: int|
        0 <= a < input.selected.len() && 0 <= b < input.selected.len() && (
        #[trigger] input.selected[a]).partition == (#[trigger] input.selected[b]).partition
            && input.selected[a].instance == input.selected[b].instance ==> input.selected[a]
            == input.selected[b]
}

/// A resource without selected moves is published as it is desired.
pub proof fn settled_resources_are_published_as_desired(v: StageView, k: int)
    requires
        v.fault() is None,
        0 <= k < v.inputs.len(),
        v.inputs[k].selected.len() == 0,
    ensures
        v.states(v.inputs.len()).dom().contains(v.inputs[k].resource),
        v.states(v.inputs.len())[v.inputs[k].resource] == v.inputs[k].best,
{
    states_by_name(v, k, v.inputs.len());
}

/// The intermediate states of a resource with selected moves: a replica with a
/// dispatched move is where the move leads, otherwise one with a pending move is
/// where that leads, and every other replica is where it is observed. A move to
/// DROPPED leads out of the states.
pub proof fn intermediate_states_follow_the_moves(
    v: StageView,
    k: int,
    partition: Seq<char>,
    instance: Seq<char>,
)
    requires
        v.fault() is None,
        0 <= k < v.inputs.len(),
        v.inputs[k].selected.len() > 0,
        one_move_each(v.inputs[k]),
    ensures
        ({
            let input = v.inputs[k];
            let states = v.states(v.inputs.len());
            let now = found(states[input.resource], partition, instance);
            &&& states.dom().contains(input.resource)
            &&& forall|a: int|
                0 <= a < input.selected.len() && (#[trigger] input.selected[a]).partition
                    == partition && input.selected[a].instance == instance
                    && v.dispatched().contains(input.selected[a]) ==> now == after_move(
                    input.selected[a],
                )
            &&& (forall|a: int|
                0 <= a < input.selected.len() && (#[trigger] input.selected[a]).partition
                    == partition && input.selected[a].instance == instance
                    ==> !v.dispatched().contains(input.selected[a])) ==> {
                &&& forall|b: int|
                    0 <= b < v.pending.len() && moves_replica(
                        #[trigger] v.pending[b],
                        input.resource,
                        partition,
                        instance,
                    ) ==> now == after_move(v.pending[b])
                &&& (forall|b: int|
                    0 <= b < v.pending.len() ==> !moves_replica(
                        #[trigger] v.pending[b],
                        input.resource,
                        partition,
                        instance,
                    )) ==> now == found(input.current, partition, instance)
            }
        }),
{
    let input = v.inputs[k];
    let total = v.inputs.len();
    let start = dispatch_laws::start_of(v, k);
    let order = v.partition_order(input);
    let round = v.resource_round(input, v.progress(k as nat).0, v.progress(k as nat).1);
    states_by_name(v, k, total);
    assert(round == v.partitions_tried(input, start, order));
    assert(round.log == v.progress((k + 1) as nat).1);
    throttle_laws::inputs_sound(v, total, k);
    dispatch_laws::progress_continues(v, (k + 1) as nat, total);
    let moves = message_throttle::moves_in(round.log);
    assert forall|a: int| 0 <= a < input.selected.len() implies moves.contains(
        #[trigger] input.selected[a],
    ) == v.dispatched().contains(input.selected[a]) by {
        let m = input.selected[a];
        throttle_laws::selected_resource(v, input, input.selected.len(), a);
        if dispatch_laws::sent(round.log, m) {
            dispatch_laws::sent_stays(round.log, v.progress(total).1, m);
        }
        if dispatch_laws::sent(v.progress(total).1, m) {
            dispatch_laws::sent_in_turn(v, k, total, m);
        }
    }
    assert forall|a: int, b: int|
        0 <= a < b < v.pending.len() implies !message_throttle::same_replica(
        #[trigger] v.pending[a],
        #[trigger] v.pending[b],
    ) by {
        pending_are_different(v, v.pending.len(), a, b);
    }
    let middle = message_throttle::completed_pending(round.derived, v.pending, input.resource);
    pending_complete(round.derived, v.pending, input.resource, partition, instance);
    dispatched_complete(middle, input.selected, moves, partition, instance);
    if forall|a: int|
        0 <= a < input.selected.len() && (#[trigger] input.selected[a]).partition == partition
            && input.selected[a].instance == instance ==> !v.dispatched().contains(
            input.selected[a],
        ) {
        assert forall|a: int|
            0 <= a < input.selected.len() && (#[trigger] input.selected[a]).partition == partition
                && input.selected[a].instance == instance implies !dispatch_laws::sent(
            round.log,
            input.selected[a],
        ) by {
            assert(moves.contains(input.selected[a]) == v.dispatched().contains(
                input.selected[a],
            ));
        }
        tried_keep_unmoved(v, input, start, order, partition, instance);
    }
}

/// The stages run exactly where every resource is given once, every pending
/// move is of one of them and none of a replica that has one already, and every
/// selected move is of its resource and of a partition with a preference list.
/// A list may be empty where the move takes a replica of an observed partition
/// its next step to DROPPED.
pub proof fn stages_run_on_sound_input(v: StageView)
    ensures
        v.fault() is None <==> {
            &&& v.names().no_duplicates()
            &&& forall|a: int|
                0 <= a < v.pending.len() ==> exists|k: int|
                    0 <= k < v.inputs.len() && (#[trigger] v.inputs[k]).resource == (
                    #[trigger] v.pending[a]).resource
            &&& forall|a: int, b: int|
                0 <= a < b < v.pending.len() ==> !moves_replica(
                    #[trigger] v.pending[b],
                    (#[trigger] v.pending[a]).resource,
                    v.pending[a].partition,
                    v.pending[a].instance,
                )
            &&& forall|k: int, a: int|
                0 <= k < v.inputs.len() && 0 <= a < v.inputs[k].selected.len() ==> sound_move(
                    v,
                    v.inputs[k],
                    #[trigger] v.inputs[k].selected[a],
                )
        },
{
    state_model::first_repeat_none(v.names());
    strays(v, v.pending.len());
    repeats(v, v.pending.len());
    unsound(v, v.inputs.len());
    if v.names().no_duplicates() {
        no_repeat(v.names());
    }
}

/// A selected move that the resource may have.
pub open spec fn sound_move(v: StageView, input: InputView, m: Move) -> bool {
    m.resource == input.resource && input.lists.dom().contains(m.partition) && (
    input.lists[m.partition].len() > 0 || (input.current.dom().contains(m.partition)
        && v.model.next(m.source, "DROPPED"@) == Some(m.target)))
}

proof fn no_repeat<A>(s: Seq<A>)
    requires
        s.no_duplicates(),
    ensures
        state_model::first_repeat(s) is None,
    decreases s.len(),
{
    if s.len() > 0 {
        let rest = s.drop_last();
        assert forall|i: int, j: int| 0 <= i < j < rest.len() implies rest[i] != rest[j] by {
            assert(s[i] != s[j]);
        }
        no_repeat(rest);
        if rest.contains(s.last()) {
            let i = rest.index_of(s.last());
            assert(s[i] != s[s.len() - 1]);
        }
    }
}

proof fn strays(v: StageView, n: nat)
    requires
        n <= v.pending.len(),
    ensures
        v.stray_pending(n) is None <==> forall|a: int|
            0 <= a < n ==> exists|k: int|
                0 <= k < v.inputs.len() && (#[trigger] v.inputs[k]).resource == (
                #[trigger] v.pending[a]).resource,
    decreases n,
{
    if n > 0 {
        strays(v, (n - 1) as nat);
        let p = v.pending[n - 1];
        if v.names().contains(p.resource) {
            let k = v.names().index_of(p.resource);
            assert(v.inputs[k].resource == p.resource);
        }
        if exists|k: int|
            0 <= k < v.inputs.len() && (#[trigger] v.inputs[k]).resource == p.resource {
            let k = choose|k: int|
                0 <= k < v.inputs.len() && (#[trigger] v.inputs[k]).resource == p.resource;
            assert(v.names()[k] == p.resource);
        }
    }
}

proof fn repeats(v: StageView, n: nat)
    requires
        n <= v.pending.len(),
    ensures
        v.repeated_pending(n) is None <==> forall|a: int, b: int|
            0 <= a < b < n ==> !moves_replica(
                #[trigger] v.pending[b],
                (#[trigger] v.pending[a]).resource,
                v.pending[a].partition,
                v.pending[a].instance,
            ),
    decreases n,
{
    if n > 0 {
        repeats(v, (n - 1) as nat);
        let p = v.pending[n - 1];
        if exists|j: int|
            0 <= j < n - 1 && message_throttle::same_replica(#[trigger] v.pending[j], p) {
            let j = choose|j: int|
                0 <= j < n - 1 && message_throttle::same_replica(#[trigger] v.pending[j], p);
            assert(moves_replica(
                v.pending[n - 1],
                v.pending[j].resource,
                v.pending[j].partition,
                v.pending[j].instance,
            ));
        } else {
            assert forall|a: int| 0 <= a < n - 1 implies !moves_replica(
                p,
                (#[trigger] v.pending[a]).resource,
                v.pending[a].partition,
                v.pending[a].instance,
            ) by {
                assert(!message_throttle::same_replica(v.pending[a], p));
            }
        }
    }
}

proof fn unsound_selected(v: StageView, input: InputView, n: nat)
    requires
        n <= input.selected.len(),
    ensures
        v.selected_fault(input, n) is None <==> forall|a: int|
            0 <= a < n ==> sound_move(v, input, #[trigger] input.selected[a]),
    decreases n,
{
    if n > 0 {
        unsound_selected(v, input, (n - 1) as nat);
        let m = input.selected[n - 1];
    }
}

proof fn unsound(v: StageView, n: nat)
    requires
        n <= v.inputs.len(),
    ensures
        v.inputs_fault(n) is None <==> forall|k: int, a: int|
            0 <= k < n && 0 <= a < v.inputs[k].selected.len() ==> sound_move(
                v,
                v.inputs[k],
                #[trigger] v.inputs[k].selected[a],
            ),
    decreases n,
{
    if n > 0 {
        unsound(v, (n - 1) as nat);
        let input = v.inputs[n - 1];
        unsound_selected(v, input, input.selected.len());
        if v.selected_fault(input, input.selected.len()) is Some {
            let a = choose|a: int|
                0 <= a < input.selected.len() && !sound_move(v, input, #[trigger] input.selected[a]);
            assert(!sound_move(v, v.inputs[n - 1], v.inputs[n - 1].selected[a]));
        }
    }
}

} // verus!
