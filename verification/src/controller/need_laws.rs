//! Which moves recover a required replica, and which balance load.
use crate::controller::dispatch_laws;
use crate::controller::message_throttle;
use crate::controller::message_throttle::{Dispatch, InputView, Needs, Round, Row, StageView};
use crate::controller::order_laws;
use crate::controller::quota::RebalanceType;
use crate::controller::throttle_laws;
use crate::model::replica_state;
use crate::model::replica_state::Replicas;
use crate::model::state_model::StateModelView;
use crate::model::{InstanceId, StateCardinality};
use crate::ordered;
use crate::transition::Move;
use vstd::prelude::*;

verus! {

/// Instances that are live.
pub open spec fn alive(live: Set<Seq<char>>) -> spec_fn(Seq<char>) -> bool {
    |i: Seq<char>| live.contains(i)
}

/// How many instances of the preference list of a partition are live.
pub open spec fn candidates(input: InputView, partition: Seq<char>, live: Set<Seq<char>>) -> nat {
    if input.lists.dom().contains(partition) {
        input.lists[partition].filter(alive(live)).len()
    } else {
        0
    }
}

/// How many replicas are wanted in all: those that have to be active, or else
/// all that are configured.
pub open spec fn wanted(input: InputView) -> nat {
    match input.min_active {
        Some(n) => n as nat,
        None => input.replicas as nat,
    }
}

/// How many replicas the first `k` states ask for by a fixed number.
pub open spec fn demand(model: StateModelView, k: int) -> nat
    decreases k,
{
    if k <= 0 {
        0
    } else {
        demand(model, k - 1) + match model.cardinality(model.states[k - 1]) {
            Some(StateCardinality::Exact(n)) => n as nat,
            _ => 0,
        }
    }
}

/// One of the first `k` states takes every instance.
pub open spec fn takes_all(model: StateModelView, k: int) -> bool {
    exists|i: int|
        0 <= i < k && model.cardinality(#[trigger] model.states[i]) == Some(
            StateCardinality::NodeCount,
        )
}

/// How many candidates the first `k` states leave.
pub open spec fn left_over(model: StateModelView, candidates: nat, k: int) -> nat {
    if takes_all(model, k) || candidates <= demand(model, k) {
        0
    } else {
        (candidates - demand(model, k)) as nat
    }
}

/// The state at `i` is the first that all replicas may take.
pub open spec fn first_shared(model: StateModelView, i: int) -> bool {
    &&& 0 <= i < model.states.len()
    &&& model.cardinality(model.states[i]) == Some(StateCardinality::ReplicaCount)
    &&& forall|j: int| 0 <= j < i ==> model.cardinality(#[trigger] model.states[j]) != Some(
        StateCardinality::ReplicaCount,
    )
}

/// How many replicas of a partition have to be in the state at `i`. A state with
/// a fixed number takes up to that many of the candidates that the states of
/// higher priority leave, and one for all nodes takes them all. The first state
/// for all replicas takes what is then left, up to the wanted number of
/// replicas.
pub open spec fn need(
    input: InputView,
    partition: Seq<char>,
    live: Set<Seq<char>>,
    model: StateModelView,
    i: int,
) -> nat {
    let c = candidates(input, partition, live);
    let n = model.states.len() as int;
    let rest = left_over(model, c, n);
    let placed = (c - rest) as nat;
    match model.cardinality(model.states[i]) {
        Some(StateCardinality::Exact(_)) => (left_over(model, c, i) - left_over(model, c, i + 1)) as nat,
        Some(StateCardinality::NodeCount) => left_over(model, c, i),
        Some(StateCardinality::ReplicaCount) => if !first_shared(model, i) || wanted(input)
            <= placed {
            0
        } else if rest <= wanted(input) - placed {
            rest
        } else {
            (wanted(input) - placed) as nat
        },
        _ => 0,
    }
}

proof fn live_is_filter(list: Seq<Seq<char>>, live: Set<Seq<char>>)
    ensures
        message_throttle::live_of(list, live) == list.filter(alive(live)).len(),
    decreases list.len(),
{
    reveal(Seq::filter);
    if list.len() > 0 {
        live_is_filter(list.drop_last(), live);
    }
}

proof fn left_over_step(model: StateModelView, c: nat, k: int)
    requires
        0 <= k < model.states.len(),
    ensures
        left_over(model, c, k + 1) <= left_over(model, c, k) <= c,
        match model.cardinality(model.states[k]) {
            Some(StateCardinality::Exact(n)) => left_over(model, c, k + 1)
                == message_throttle::minus(left_over(model, c, k), n as nat),
            Some(StateCardinality::NodeCount) => left_over(model, c, k + 1) == 0,
            _ => left_over(model, c, k + 1) == left_over(model, c, k),
        },
{
    if takes_all(model, k) {
        let i = choose|i: int|
            0 <= i < k && model.cardinality(#[trigger] model.states[i]) == Some(
                StateCardinality::NodeCount,
            );
        assert(takes_all(model, k + 1));
    } else if takes_all(model, k + 1) {
        let i = choose|i: int|
            0 <= i < k + 1 && model.cardinality(#[trigger] model.states[i]) == Some(
                StateCardinality::NodeCount,
            );
        assert(i == k);
    }
    if model.cardinality(model.states[k]) == Some(StateCardinality::NodeCount) {
        assert(takes_all(model, k + 1));
    }
}

proof fn fixed_needs_are_met(
    model: StateModelView,
    start: Needs,
    k: int,
)
    requires
        model.states.no_duplicates(),
        0 <= k <= model.states.len(),
        start.counts == Map::<Seq<char>, nat>::empty(),
    ensures
        ({
            let after = message_throttle::fixed_needs(model, start, k as nat);
            let c = start.candidates;
            &&& after.candidates == left_over(model, c, k)
            &&& after.candidates <= c
            &&& after.replicas == message_throttle::minus(
                start.replicas,
                (c - left_over(model, c, k)) as nat,
            )
            &&& forall|i: int|
                0 <= i < model.states.len() ==> (after.counts.dom().contains(
                    #[trigger] model.states[i],
                ) <==> i < k && left_over(model, c, i) > left_over(model, c, i + 1))
            &&& forall|i: int|
                0 <= i < k && left_over(model, c, i) > left_over(model, c, i + 1)
                    ==> after.counts[#[trigger] model.states[i]] == left_over(model, c, i)
                    - left_over(model, c, i + 1)
            &&& forall|s: Seq<char>| #[trigger]
                after.counts.dom().contains(s) ==> model.states.contains(s)
        }),
    decreases k,
{
    let c = start.candidates;
    let after = message_throttle::fixed_needs(model, start, k as nat);
    if k == 0 {
        assert(!takes_all(model, 0));
    } else {
        fixed_needs_are_met(model, start, k - 1);
        left_over_step(model, c, k - 1);
        let before = message_throttle::fixed_needs(model, start, (k - 1) as nat);
        let state = model.states[k - 1];
        assert forall|i: int| 0 <= i < model.states.len() implies (after.counts.dom().contains(
            #[trigger] model.states[i],
        ) <==> i < k && left_over(model, c, i) > left_over(model, c, i + 1)) by {
            if i != k - 1 {
                assert(model.states[i] != state);
                assert(after.counts.dom().contains(model.states[i])
                    == before.counts.dom().contains(model.states[i]));
            }
        }
        assert forall|i: int|
            0 <= i < k && left_over(model, c, i) > left_over(model, c, i + 1) implies after.counts[
        #[trigger] model.states[i]] == left_over(model, c, i) - left_over(model, c, i + 1) by {
            if i != k - 1 {
                assert(model.states[i] != state);
                assert(before.counts.dom().contains(model.states[i]));
            }
        }
        assert forall|s: Seq<char>| #[trigger] after.counts.dom().contains(s) implies model.states.contains(
            s,
        ) by {
            if s == state {
                assert(model.states[k - 1] == s);
            } else {
                assert(before.counts.dom().contains(s));
            }
        }
    }
}

proof fn shared_is_first(model: StateModelView, k: int)
    requires
        0 <= k <= model.states.len(),
    ensures
        match message_throttle::replica_state_among(model, k as nat) {
            Some(state) => exists|i: int|
                0 <= i < k && state == #[trigger] model.states[i] && first_shared(model, i),
            None => forall|i: int|
                0 <= i < k ==> model.cardinality(#[trigger] model.states[i]) != Some(
                    StateCardinality::ReplicaCount,
                ),
        },
    decreases k,
{
    if k > 0 {
        shared_is_first(model, k - 1);
        if message_throttle::replica_state_among(model, (k - 1) as nat) is None {
            if model.cardinality(model.states[k - 1]) == Some(StateCardinality::ReplicaCount) {
                assert(first_shared(model, k - 1));
            }
        }
    }
}

/// What a partition requires of each state is exactly its need.
pub proof fn requirements_are_needs(
    input: InputView,
    partition: Seq<char>,
    live: Set<Seq<char>>,
    model: StateModelView,
    i: int,
)
    requires
        model.states.no_duplicates(),
        0 <= i < model.states.len(),
    ensures
        ({
            let required = message_throttle::required(input, partition, live, model);
            &&& required.dom().contains(model.states[i]) <==> need(input, partition, live, model, i)
                > 0
            &&& required.dom().contains(model.states[i]) ==> required[model.states[i]] == need(
                input,
                partition,
                live,
                model,
                i,
            )
        }),
{
    let n = model.states.len() as int;
    let c = candidates(input, partition, live);
    if input.lists.dom().contains(partition) {
        live_is_filter(input.lists[partition], live);
    }
    let start = Needs {
        candidates: c,
        replicas: wanted(input),
        counts: Map::empty(),
    };
    fixed_needs_are_met(model, start, n);
    let fixed = message_throttle::fixed_needs(model, start, model.states.len());
    shared_is_first(model, n);
    left_over_step(model, c, i);
    let required = message_throttle::required(input, partition, live, model);
    match message_throttle::replica_state_among(model, model.states.len()) {
        Some(state) => {
            let j = choose|j: int|
                0 <= j < n && state == #[trigger] model.states[j] && first_shared(model, j);
            left_over_step(model, c, j);
            assert(!fixed.counts.dom().contains(model.states[j]));
            if i != j {
                assert(model.states[i] != state);
                if first_shared(model, i) {
                    if i < j {
                        assert(model.cardinality(model.states[i]) != Some(
                            StateCardinality::ReplicaCount,
                        ));
                    } else {
                        assert(model.cardinality(model.states[j]) != Some(
                            StateCardinality::ReplicaCount,
                        ));
                    }
                }
            }
        },
        None => {},
    }
}

/// A top state for so many replicas needs that many, as far as there are live
/// candidates.
pub proof fn top_states_are_needed(
    input: InputView,
    partition: Seq<char>,
    live: Set<Seq<char>>,
    model: StateModelView,
    n: u32,
)
    requires
        model.valid(),
        model.cardinality(model.states[0]) == Some(StateCardinality::Exact(n)),
    ensures
        ({
            let required = message_throttle::required(input, partition, live, model);
            let c = candidates(input, partition, live);
            &&& required.dom().contains(model.states[0]) <==> n > 0 && c > 0
            &&& n > 0 && c > 0 ==> required[model.states[0]] <= n && required[model.states[0]] <= c
                && (required[model.states[0]] == n || required[model.states[0]] == c)
        }),
{
    requirements_are_needs(input, partition, live, model, 0);
    let c = candidates(input, partition, live);
    left_over_step(model, c, 0);
    assert(!takes_all(model, 0));
    assert(demand(model, 0) == 0);
}

/// Instances whose replica is in a state.
pub open spec fn holding(row: Map<Seq<char>, Seq<char>>, state: Seq<char>) -> spec_fn(
    Seq<char>,
) -> bool {
    |i: Seq<char>| row[i] == state
}

proof fn holders_are_counted(row: Row, m: Map<Seq<char>, Seq<char>>, state: Seq<char>, n: int)
    requires
        ordered::lists::<InstanceId, Seq<char>>(row, m),
        0 <= n <= row.len(),
    ensures
        message_throttle::in_state(row.take(n), state) == ordered::map_of(
            row.take(n),
        ).dom().filter(holding(m, state)).len(),
        ordered::map_of(row.take(n)).dom().finite(),
    decreases n,
{
    let f = holding(m, state);
    ordered::map_of_ends(row);
    if n == 0 {
        assert(ordered::map_of(row.take(0)).dom() =~= Set::empty());
        assert(ordered::map_of(row.take(0)).dom().filter(f) =~= Set::empty());
    } else {
        holders_are_counted(row, m, state, n - 1);
        ordered::map_of_step::<InstanceId, Seq<char>>(row, n - 1);
        ordered::map_of_at::<InstanceId, Seq<char>>(row, n - 1);
        let x = row[n - 1].0;
        let before = ordered::map_of(row.take(n - 1)).dom();
        assert(row.take(n).drop_last() =~= row.take(n - 1));
        assert(row.take(n).last() == row[n - 1]);
        assert(ordered::map_of(row.take(n)).dom() =~= before.insert(x));
        if f(x) {
            assert(before.insert(x).filter(f) =~= before.filter(f).insert(x));
        } else {
            assert(before.insert(x).filter(f) =~= before.filter(f));
        }
    }
}

/// How many replicas of a partition are in a state.
pub open spec fn holders(m: Replicas, partition: Seq<char>, state: Seq<char>) -> nat {
    if m.dom().contains(partition) {
        m[partition].dom().filter(holding(m[partition], state)).len()
    } else {
        0
    }
}

/// Moving a replica to a state recovers a required replica exactly where fewer
/// replicas are in that state than are needed there. Otherwise it balances load.
pub proof fn recovery_means_missing_replicas(
    input: InputView,
    partition: Seq<char>,
    live: Set<Seq<char>>,
    model: StateModelView,
    m: Replicas,
    i: int,
)
    requires
        model.states.no_duplicates(),
        0 <= i < model.states.len(),
        replica_state::finite(m),
    ensures
        message_throttle::kind_of(
            message_throttle::required(input, partition, live, model),
            message_throttle::row_of(m, partition),
            model.states[i],
        ) == if holders(m, partition, model.states[i]) < need(input, partition, live, model, i) {
            RebalanceType::RecoveryBalance
        } else {
            RebalanceType::LoadBalance
        },
{
    requirements_are_needs(input, partition, live, model, i);
    let row = message_throttle::row_of(m, partition);
    let inner = replica_state::instances_of(m, partition);
    assert(inner.dom().finite()) by {
        if !m.dom().contains(partition) {
            assert(inner.dom() =~= Set::empty());
        }
    }
    ordered::finite_map_is_listed::<InstanceId, Seq<char>>(inner);
    holders_are_counted(row, inner, model.states[i], row.len() as int);
    assert(row.take(row.len() as int) =~= row);
    if !m.dom().contains(partition) {
        assert(inner.dom().filter(holding(inner, model.states[i])) =~= Set::empty());
    }
}

proof fn steps_keep_others(v: StageView, input: InputView, round: Round, messages: Seq<Move>, p: Seq<char>)
    requires
        forall|i: int| 0 <= i < messages.len() ==> (#[trigger] messages[i]).partition != p,
    ensures
        replica_state::instances_of(v.stepped_all(input, round, messages).derived, p)
            == replica_state::instances_of(round.derived, p),
    decreases messages.len(),
{
    if messages.len() > 0 {
        let rest = messages.drop_last();
        assert forall|i: int| 0 <= i < rest.len() implies (#[trigger] rest[i]).partition != p by {
            assert(rest[i] == messages[i]);
        }
        steps_keep_others(v, input, round, rest, p);
        assert(messages[messages.len() - 1].partition != p);
    }
}

proof fn tried_keep_others(
    v: StageView,
    input: InputView,
    round: Round,
    partitions: Seq<Seq<char>>,
    p: Seq<char>,
)
    requires
        !partitions.contains(p),
    ensures
        replica_state::instances_of(v.partitions_tried(input, round, partitions).derived, p)
            == replica_state::instances_of(round.derived, p),
    decreases partitions.len(),
{
    if partitions.len() > 0 {
        let rest = partitions.drop_last();
        let last = partitions.last();
        assert(partitions[partitions.len() - 1] == last);
        assert(!rest.contains(p)) by {
            if rest.contains(p) {
                assert(partitions[rest.index_of(p)] == p);
            }
        }
        tried_keep_others(v, input, round, rest, p);
        let messages = v.messages(input, last);
        assert forall|i: int| 0 <= i < messages.len() implies (#[trigger] messages[i]).partition
            != p by {
            assert(messages.contains(messages[i]));
            throttle_laws::messages_are_selected(v, input, last, messages[i]);
        }
        steps_keep_others(
            v,
            input,
            v.partitions_tried(input, round, rest),
            messages,
            p,
        );
    }
}

proof fn lone_step(v: StageView, input: InputView, round: Round, partitions: Seq<Seq<char>>, m: Move) -> (d:
    Replicas)
    requires
        partitions.no_duplicates(),
        partitions.contains(m.partition),
        v.messages(input, m.partition) =~= seq![m],
        !dispatch_laws::sent(round.log, m),
        dispatch_laws::sent(v.partitions_tried(input, round, partitions).log, m),
    ensures
        replica_state::instances_of(d, m.partition) == replica_state::instances_of(
            round.derived,
            m.partition,
        ),
        v.partitions_tried(input, round, partitions).log.contains(
            (
                m,
                message_throttle::kind_of(
                    message_throttle::required(input, m.partition, v.live, v.model),
                    message_throttle::row_of(d, m.partition),
                    m.target,
                ),
            ),
        ),
    decreases partitions.len(),
{
    let rest = partitions.drop_last();
    let last = partitions.last();
    let before = v.partitions_tried(input, round, rest);
    let messages = v.messages(input, last);
    let after = v.stepped_all(input, before, messages);
    dispatch_laws::steps_continue(v, input, before, messages);
    assert forall|i: int, j: int| 0 <= i < j < rest.len() implies rest[i] != rest[j] by {
        assert(partitions[i] != partitions[j]);
    }
    if last == m.partition {
        assert(!rest.contains(m.partition)) by {
            if rest.contains(m.partition) {
                let i = rest.index_of(m.partition);
                assert(partitions[i] != partitions[partitions.len() - 1]);
            }
        }
        tried_keep_others(v, input, round, rest, m.partition);
        if dispatch_laws::sent(before.log, m) {
            let j = dispatch_laws::partition_of_sent(v, input, round, rest, m);
        }
        assert(messages.drop_last() =~= Seq::empty());
        assert(messages.last() == m);
        assert(v.stepped_all(input, before, messages.drop_last()) == before);
        let kind = message_throttle::kind_of(
            message_throttle::required(input, m.partition, v.live, v.model),
            message_throttle::row_of(before.derived, m.partition),
            m.target,
        );
        assert(after == v.stepped(input, before, m));
        if after.log == before.log {
            assert(false);
        }
        assert(after.log[before.log.len() as int] == (m, kind));
        before.derived
    } else {
        assert(rest[partitions.index_of(m.partition)] == m.partition);
        if !dispatch_laws::sent(before.log, m) {
            dispatch_laws::steps_come_from(v, input, before, messages, m);
            throttle_laws::messages_are_selected(v, input, last, m);
        }
        let d = lone_step(v, input, round, rest, m);
        let entry = (
            m,
            message_throttle::kind_of(
                message_throttle::required(input, m.partition, v.live, v.model),
                message_throttle::row_of(d, m.partition),
                m.target,
            ),
        );
        let i = before.log.index_of(entry);
        assert(after.log.take(before.log.len() as int)[i] == after.log[i]);
        d
    }
}

/// A dispatched move that is alone in its partition is counted as recovery
/// exactly where fewer replicas are observed in its target than are needed
/// there, and as load balance otherwise.
pub proof fn lone_moves_are_classified(v: StageView, k: int, m: Move, i: int)
    requires
        v.fault() is None,
        v.model.states.no_duplicates(),
        0 <= k < v.inputs.len(),
        replica_state::finite(v.inputs[k].current),
        v.inputs[k].selected.filter(order_laws::within(m.partition)) == seq![m],
        v.dispatched().contains(m),
        0 <= i < v.model.states.len(),
        v.model.states[i] == m.target,
        order_laws::follows_model(v, v.inputs[k]),
    ensures
        v.progress(v.inputs.len()).1.contains(
            (
                m,
                if holders(v.inputs[k].current, m.partition, m.target) < need(
                    v.inputs[k],
                    m.partition,
                    v.live,
                    v.model,
                    i,
                ) {
                    RebalanceType::RecoveryBalance
                } else {
                    RebalanceType::LoadBalance
                },
            ),
        ),
{
    let input = v.inputs[k];
    let total = v.inputs.len();
    let order = v.partition_order(input);
    let start = dispatch_laws::start_of(v, k);
    assert(seq![m].contains(m)) by {
        assert(seq![m][0] == m);
    }
    input.selected.lemma_filter_contains_rev(order_laws::within(m.partition), m);
    let s = input.selected.index_of(m);
    throttle_laws::inputs_sound(v, total, k);
    throttle_laws::selected_resource(v, input, input.selected.len(), s);
    order_laws::partitions_are_tried_by_need(v, input);
    assert(input.selected[s].partition == m.partition);
    assert(order.contains(m.partition));
    order_laws::moves_are_tried_by_priority(v, input, m.partition);
    let messages = v.messages(input, m.partition);
    throttle_laws::messages_are_selected(v, input, m.partition, m);
    assert(messages.len() == 1) by {
        vstd::seq_lib::to_multiset_len(messages);
        vstd::seq_lib::to_multiset_len(seq![m]);
    }
    assert(messages =~= seq![m]);
    dispatch_laws::not_sent_before(v, k, m);
    dispatch_laws::sent_in_turn(v, k, total, m);
    let d = lone_step(v, input, start, order, m);
    // Only the partition's own row decides.
    assert(message_throttle::row_of(d, m.partition) == message_throttle::row_of(
        input.current,
        m.partition,
    ));
    recovery_means_missing_replicas(input, m.partition, v.live, v.model, input.current, i);
    dispatch_laws::progress_continues(v, (k + 1) as nat, total);
    let log = v.progress((k + 1) as nat).1;
    let entry = (
        m,
        message_throttle::kind_of(
            message_throttle::required(input, m.partition, v.live, v.model),
            message_throttle::row_of(input.current, m.partition),
            m.target,
        ),
    );
    let x = log.index_of(entry);
    assert(v.progress(total).1.take(log.len() as int)[x] == v.progress(total).1[x]);
}

/// The replicas once the moves of a list of dispatches have been made.
pub open spec fn moved(m: Replicas, log: Seq<Dispatch>) -> Replicas
    decreases log.len(),
{
    if log.len() == 0 {
        m
    } else {
        let last = log.last().0;
        replica_state::placed(
            moved(m, log.drop_last()),
            last.partition,
            last.instance,
            last.target,
        )
    }
}

proof fn moved_is_finite(m: Replicas, log: Seq<Dispatch>)
    requires
        replica_state::finite(m),
    ensures
        replica_state::finite(moved(m, log)),
    decreases log.len(),
{
    if log.len() > 0 {
        moved_is_finite(m, log.drop_last());
    }
}

spec fn counted(
    v: StageView,
    input: InputView,
    log: Seq<Dispatch>,
    first: int,
    a: int,
) -> bool {
    let m = log[a].0;
    &&& input.selected.contains(m)
    &&& log[a].1 == message_throttle::kind_of(
        message_throttle::required(input, m.partition, v.live, v.model),
        message_throttle::row_of(moved(input.current, log.subrange(first, a)), m.partition),
        m.target,
    )
}

spec fn all_counted(v: StageView, input: InputView, round: Round, first: int) -> bool {
    &&& 0 <= first <= round.log.len()
    &&& round.derived == moved(input.current, round.log.skip(first))
    &&& forall|a: int|
        first <= a < round.log.len() ==> #[trigger] counted(v, input, round.log, first, a)
}

proof fn steps_count(
    v: StageView,
    input: InputView,
    round: Round,
    messages: Seq<Move>,
    first: int,
)
    requires
        all_counted(v, input, round, first),
        forall|m: Move| messages.contains(m) ==> input.selected.contains(m),
    ensures
        all_counted(v, input, v.stepped_all(input, round, messages), first),
    decreases messages.len(),
{
    if messages.len() > 0 {
        let rest = messages.drop_last();
        let m = messages.last();
        assert forall|x: Move| rest.contains(x) implies input.selected.contains(x) by {
            assert(messages[rest.index_of(x)] == x);
            assert(messages.contains(x));
        }
        steps_count(v, input, round, rest, first);
        let before = v.stepped_all(input, round, rest);
        let after = v.stepped(input, before, m);
        if after != before {
            let n = before.log.len() as int;
            assert(messages.contains(m));
            assert(after.log.skip(first).drop_last() =~= before.log.skip(first));
            assert(after.log.subrange(first, n) =~= before.log.skip(first));
            assert forall|a: int| first <= a < after.log.len() implies #[trigger] counted(
                v,
                input,
                after.log,
                first,
                a,
            ) by {
                if a < n {
                    assert(counted(v, input, before.log, first, a));
                    assert(after.log.subrange(first, a) =~= before.log.subrange(first, a));
                }
            }
        }
    }
}

proof fn tries_count(
    v: StageView,
    input: InputView,
    round: Round,
    partitions: Seq<Seq<char>>,
    first: int,
)
    requires
        all_counted(v, input, round, first),
    ensures
        all_counted(v, input, v.partitions_tried(input, round, partitions), first),
    decreases partitions.len(),
{
    if partitions.len() > 0 {
        let rest = partitions.drop_last();
        tries_count(v, input, round, rest, first);
        let messages = v.messages(input, partitions.last());
        assert forall|m: Move| messages.contains(m) implies input.selected.contains(m) by {
            throttle_laws::messages_are_selected(v, input, partitions.last(), m);
        }
        steps_count(v, input, v.partitions_tried(input, round, rest), messages, first);
    }
}

/// A dispatched move is counted as recovery exactly where, once the moves
/// dispatched before it for its resource have been made, fewer replicas are in
/// its target than are needed there, and as load balance otherwise.
pub proof fn moves_are_classified(v: StageView, k: int, a: int, i: int)
    requires
        v.model.states.no_duplicates(),
        0 <= k < v.inputs.len(),
        replica_state::finite(v.inputs[k].current),
        v.progress(k as nat).1.len() <= a < v.progress((k + 1) as nat).1.len(),
        0 <= i < v.model.states.len(),
        v.model.states[i] == v.progress(v.inputs.len()).1[a].0.target,
    ensures
        ({
            let log = v.progress(v.inputs.len()).1;
            let m = log[a].0;
            let earlier = log.subrange(v.progress(k as nat).1.len() as int, a);
            &&& v.inputs[k].selected.contains(m)
            &&& log[a].1 == if holders(
                moved(v.inputs[k].current, earlier),
                m.partition,
                m.target,
            ) < need(v.inputs[k], m.partition, v.live, v.model, i) {
                RebalanceType::RecoveryBalance
            } else {
                RebalanceType::LoadBalance
            }
        }),
{
    let input = v.inputs[k];
    let start = dispatch_laws::start_of(v, k);
    let first = start.log.len() as int;
    let log = v.progress(v.inputs.len()).1;
    let done = v.progress((k + 1) as nat).1;
    assert(start.log.skip(first) =~= Seq::empty());
    tries_count(v, input, start, v.partition_order(input), first);
    assert(counted(v, input, done, first, a));
    dispatch_laws::progress_continues(v, (k + 1) as nat, v.inputs.len());
    assert(log.take(done.len() as int)[a] == log[a]);
    assert(log.subrange(first, a) =~= done.subrange(first, a)) by {
        assert forall|b: int| 0 <= b < a - first implies log.subrange(first, a)[b]
            == done.subrange(first, a)[b] by {
            assert(log.take(done.len() as int)[first + b] == log[first + b]);
        }
    }
    let earlier = log.subrange(first, a);
    moved_is_finite(input.current, earlier);
    recovery_means_missing_replicas(
        input,
        log[a].0.partition,
        v.live,
        v.model,
        moved(input.current, earlier),
        i,
    );
}

} // verus!
