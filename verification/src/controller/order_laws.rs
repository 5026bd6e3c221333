//! In which order throttling tries the selected moves.
use crate::controller::message_throttle;
use crate::controller::message_throttle::{InputView, Row, StageView};
use crate::lists;
use crate::model::replica_state;
use crate::model::{InstanceId, PartitionId};
use crate::ordered;
use crate::text;
use crate::transition::Move;
use vstd::multiset::Multiset;
use vstd::prelude::*;

verus! {

/// Where the instance of a move stands in the preference list of its partition.
/// One that is not listed stands before all others.
pub open spec fn rank(input: InputView, m: Move) -> int {
    if input.lists.dom().contains(m.partition) && input.lists[m.partition].contains(m.instance) {
        lists::first_index(input.lists[m.partition], m.instance) as int
    } else {
        -1
    }
}

/// The move has to be tried before the other: its target state has a higher
/// priority in the model, or else its instance is preferred, or else comes
/// first by name.
pub open spec fn tried_first(v: StageView, input: InputView, m: Move, n: Move) -> bool {
    let a = lists::first_index(v.model.states, m.target);
    let b = lists::first_index(v.model.states, n.target);
    a < b || (a == b && (rank(input, m) < rank(input, n) || (rank(input, m) == rank(input, n)
        && text::text_before(m.instance, n.instance))))
}

proof fn same_index_same_state(states: Seq<Seq<char>>, a: Seq<char>, b: Seq<char>)
    requires
        states.contains(a),
        states.contains(b),
        lists::first_index(states, a) == lists::first_index(states, b),
    ensures
        a == b,
{
    lists::first_index_meaning(states, a);
    lists::first_index_meaning(states, b);
}

proof fn ahead_is_tried_first(v: StageView, input: InputView, m: Move, n: Move)
    requires
        v.model.states.contains(m.target),
        v.model.states.contains(n.target),
    ensures
        message_throttle::message_ahead(input, v.model, m, n) == tried_first(v, input, m, n),
{
    if lists::first_index(v.model.states, m.target) == lists::first_index(
        v.model.states,
        n.target,
    ) {
        same_index_same_state(v.model.states, m.target, n.target);
    }
    if input.lists.dom().contains(m.partition) {
        lists::first_index_meaning(input.lists[m.partition], m.instance);
    }
    if input.lists.dom().contains(n.partition) {
        lists::first_index_meaning(input.lists[n.partition], n.instance);
    }
}

proof fn tried_first_is_strict(v: StageView, input: InputView, a: Move, b: Move, c: Move)
    ensures
        tried_first(v, input, a, b) ==> !tried_first(v, input, b, a),
        !tried_first(v, input, b, a) && !tried_first(v, input, c, b) ==> !tried_first(
            v,
            input,
            c,
            a,
        ),
{
    if text::text_before(a.instance, b.instance) && text::text_before(b.instance, a.instance) {
        text::text_before_transitive(a.instance, b.instance, a.instance);
        text::text_before_irreflexive(a.instance);
    }
    text::text_before_total(a.instance, b.instance);
    text::text_before_total(b.instance, c.instance);
    text::text_before_irreflexive(a.instance);
    if text::text_before(c.instance, a.instance) {
        if text::text_before(a.instance, b.instance) {
            text::text_before_transitive(c.instance, a.instance, b.instance);
        }
        if text::text_before(a.instance, b.instance) && text::text_before(b.instance, c.instance) {
            text::text_before_transitive(a.instance, b.instance, c.instance);
            text::text_before_transitive(a.instance, c.instance, a.instance);
        }
    }
}

/// Sorting by an order that is only known to be one on the elements.
proof fn insertion_sorts<A>(lt: spec_fn(A, A) -> bool, s: Seq<A>)
    requires
        forall|a: A, b: A|
            s.contains(a) && s.contains(b) && #[trigger] lt(a, b) ==> !lt(b, a),
        forall|a: A, b: A, c: A|
            s.contains(a) && s.contains(b) && s.contains(c) && !#[trigger] lt(b, a)
                && !#[trigger] lt(c, b) ==> !lt(c, a),
    ensures
        forall|i: int, j: int|
            0 <= i < j < s.len() ==> !lt(
                #[trigger] lists::stable_sort(lt, s)[j],
                #[trigger] lists::stable_sort(lt, s)[i],
            ),
    decreases s.len(),
{
    lists::stable_sort_permutes(lt, s);
    if s.len() > 0 {
        let t = s.drop_last();
        let x = s.last();
        assert forall|a: A| t.contains(a) implies #[trigger] s.contains(a) by {
            assert(s[t.index_of(a)] == a);
        }
        assert(s.contains(x)) by {
            assert(s[s.len() - 1] == x);
        }
        insertion_sorts(lt, t);
        lists::stable_sort_permutes(lt, t);
        let u = lists::stable_sort(lt, t);
        lists::slot_in_range(lt, u, x);
        let p = lists::slot(lt, u, x) as int;
        let r = u.insert(p, x);
        assert forall|k: int| 0 <= k < u.len() implies s.contains(#[trigger] u[k]) by {
            assert(u.contains(u[k]));
            assert(t.contains(u[k]));
        }
        assert forall|i: int, j: int| 0 <= i < j < s.len() implies !lt(
            #[trigger] r[j],
            #[trigger] r[i],
        ) by {
            if i < p && j < p {
                assert(r[i] == u[i] && r[j] == u[j]);
            } else if i < p && j == p {
                assert(r[i] == u[i]);
                assert(!lt(x, u[i]));
            } else if i < p {
                assert(r[i] == u[i] && r[j] == u[j - 1]);
            } else if i == p {
                assert(r[j] == u[j - 1]);
                assert(lt(x, u[p]));
                assert(s.contains(u[p]));
                assert(s.contains(u[j - 1]));
                assert(!lt(u[p], x));
                if j - 1 > p {
                    assert(!lt(u[j - 1], u[p]));
                }
            } else {
                assert(r[i] == u[i - 1] && r[j] == u[j - 1]);
            }
        }
    }
}

/// Moves of one partition.
pub open spec fn within(partition: Seq<char>) -> spec_fn(Move) -> bool {
    |m: Move| m.partition == partition
}

proof fn of_partition_is_filter(selected: Seq<Move>, partition: Seq<char>)
    ensures
        message_throttle::of_partition(selected, partition) == selected.filter(within(partition)),
    decreases selected.len(),
{
    reveal(Seq::filter);
    if selected.len() > 0 {
        of_partition_is_filter(selected.drop_last(), partition);
    }
}

/// The targets of the selected moves are states of the model.
pub open spec fn follows_model(v: StageView, input: InputView) -> bool {
    forall|i: int|
        0 <= i < input.selected.len() ==> v.model.states.contains(
            (#[trigger] input.selected[i]).target,
        )
}

/// Within a partition all of its selected moves are tried, and nothing else, in
/// the order of their priorities: a move with a target of higher priority comes
/// before one with a target of lower priority, then the more preferred instance
/// comes first, and then the first by name.
pub proof fn moves_are_tried_by_priority(v: StageView, input: InputView, partition: Seq<char>)
    requires
        follows_model(v, input),
    ensures
        v.messages(input, partition).to_multiset() == input.selected.filter(
            within(partition),
        ).to_multiset(),
        forall|i: int, j: int|
            0 <= i < v.messages(input, partition).len() && 0 <= j < v.messages(
                input,
                partition,
            ).len() && tried_first(
                v,
                input,
                #[trigger] v.messages(input, partition)[i],
                #[trigger] v.messages(input, partition)[j],
            ) ==> i < j,
{
    let lt = |a: Move, b: Move| message_throttle::message_ahead(input, v.model, a, b);
    let s = message_throttle::of_partition(input.selected, partition);
    let messages = v.messages(input, partition);
    of_partition_is_filter(input.selected, partition);
    lists::stable_sort_permutes(lt, s);
    assert forall|m: Move| #[trigger] s.contains(m) implies v.model.states.contains(m.target) by {
        message_throttle::of_partition_members(input.selected, partition, m);
        let k = input.selected.index_of(m);
        assert(v.model.states.contains(input.selected[k].target));
    }
    assert forall|a: Move, b: Move|
        s.contains(a) && s.contains(b) && #[trigger] lt(a, b) implies !lt(b, a) by {
        ahead_is_tried_first(v, input, a, b);
        ahead_is_tried_first(v, input, b, a);
        tried_first_is_strict(v, input, a, b, a);
    }
    assert forall|a: Move, b: Move, c: Move|
        s.contains(a) && s.contains(b) && s.contains(c) && !#[trigger] lt(b, a)
            && !#[trigger] lt(c, b) implies !lt(c, a) by {
        ahead_is_tried_first(v, input, b, a);
        ahead_is_tried_first(v, input, c, b);
        ahead_is_tried_first(v, input, c, a);
        tried_first_is_strict(v, input, a, b, c);
    }
    insertion_sorts(lt, s);
    assert forall|i: int, j: int|
        0 <= i < messages.len() && 0 <= j < messages.len() && tried_first(
            v,
            input,
            #[trigger] messages[i],
            #[trigger] messages[j],
        ) implies i < j by {
        assert(messages.contains(messages[i]));
        assert(messages.contains(messages[j]));
        assert(s.contains(messages[i]) && s.contains(messages[j]));
        ahead_is_tried_first(v, input, messages[i], messages[j]);
        assert(lt(messages[i], messages[j]));
        if i == j {
            tried_first_is_strict(v, input, messages[i], messages[i], messages[i]);
        } else if j < i {
            assert(!lt(messages[i], messages[j]));
        }
    }
}

/// The states of the replicas of a partition, as often as they occur.
pub open spec fn states_in(row: Row) -> Multiset<Seq<char>> {
    row.map_values(|r: (Seq<char>, Seq<char>)| r.1).to_multiset()
}

proof fn states_in_step(row: Row)
    ensures
        row.len() == 0 ==> states_in(row) == Multiset::<Seq<char>>::empty(),
        row.len() > 0 ==> states_in(row) == states_in(row.drop_last()).insert(row.last().1),
{
    broadcast use vstd::seq_lib::group_to_multiset_ensures;

    let f = |r: (Seq<char>, Seq<char>)| r.1;
    let s = row.map_values(f);
    if row.len() > 0 {
        let t = row.drop_last().map_values(f);
        assert(s =~= t.push(row.last().1));
    } else {
        assert(s =~= Seq::empty());
        assert(s.to_multiset().len() == 0);
    }
}

proof fn in_state_counts(row: Row, state: Seq<char>)
    ensures
        message_throttle::in_state(row, state) == states_in(row).count(state),
    decreases row.len(),
{
    states_in_step(row);
    if row.len() > 0 {
        in_state_counts(row.drop_last(), state);
    }
}

proof fn paired_is_intersection(row: Row, best: Row)
    ensures
        message_throttle::paired(row, best) == states_in(row).intersection_with(
            states_in(best),
        ).len(),
    decreases row.len(),
{
    broadcast use vstd::multiset::group_multiset_properties;

    states_in_step(row);
    let b = states_in(best);
    if row.len() == 0 {
        assert(states_in(row).intersection_with(b) =~= Multiset::empty());
    } else {
        let rest = row.drop_last();
        let state = row.last().1;
        let a = states_in(rest);
        paired_is_intersection(rest, best);
        in_state_counts(rest, state);
        in_state_counts(best, state);
        if a.count(state) < b.count(state) {
            assert(a.insert(state).intersection_with(b) =~= a.intersection_with(b).insert(state));
        } else {
            assert(a.insert(state).intersection_with(b) =~= a.intersection_with(b));
        }
    }
}

/// Replicas that are where they should be.
pub open spec fn in_place(
    current: Map<Seq<char>, Seq<char>>,
    best: Map<Seq<char>, Seq<char>>,
) -> spec_fn(Seq<char>) -> bool {
    |i: Seq<char>| best.dom().contains(i) && best[i] == current[i]
}

proof fn settled_are_in_place(
    row: Row,
    current: Map<Seq<char>, Seq<char>>,
    best: Map<Seq<char>, Seq<char>>,
    n: int,
)
    requires
        ordered::lists::<InstanceId, Seq<char>>(row, current),
        0 <= n <= row.len(),
    ensures
        message_throttle::settled(row.take(n), best) == ordered::map_of(row.take(n)).dom().filter(
            in_place(current, best),
        ).len(),
        ordered::map_of(row.take(n)).dom().finite(),
    decreases n,
{
    let f = in_place(current, best);
    ordered::map_of_ends(row);
    if n == 0 {
        assert(ordered::map_of(row.take(0)).dom() =~= Set::empty());
        assert(ordered::map_of(row.take(0)).dom().filter(f) =~= Set::empty());
    } else {
        settled_are_in_place(row, current, best, n - 1);
        ordered::map_of_step::<InstanceId, Seq<char>>(row, n - 1);
        ordered::map_of_at::<InstanceId, Seq<char>>(row, n - 1);
        let x = row[n - 1].0;
        let before = ordered::map_of(row.take(n - 1)).dom();
        assert(row.take(n).drop_last() =~= row.take(n - 1));
        assert(row.take(n).last() == row[n - 1]);
        assert(ordered::map_of(row.take(n)).dom() =~= before.insert(x));
        if f(x) {
            assert(before.insert(x).filter(f) =~= before.filter(f).insert(x));
        } else {
            assert(before.insert(x).filter(f) =~= before.filter(f));
        }
    }
}

/// Some replica of the partition is in the top state.
pub open spec fn has_top(v: StageView, input: InputView, partition: Seq<char>) -> bool {
    exists|i: Seq<char>|
        input.current.dom().contains(partition) && #[trigger] input.current[partition].dom().contains(
            i,
        ) && input.current[partition][i] == v.model.states[0]
}

/// How many replicas of the partition can be paired off with desired replicas in
/// the same state.
pub open spec fn matching(input: InputView, partition: Seq<char>) -> nat {
    states_in(message_throttle::row_of(input.current, partition)).intersection_with(
        states_in(message_throttle::row_of(input.best, partition)),
    ).len()
}

/// How many replicas of the partition are where they should be.
pub open spec fn settled(input: InputView, partition: Seq<char>) -> nat {
    let current = replica_state::instances_of(input.current, partition);
    current.dom().filter(
        in_place(current, replica_state::instances_of(input.best, partition)),
    ).len()
}

/// The partition has to be tried before the other: it has a replica in the top
/// state and the other has none, or else fewer of its replicas match the desired
/// states, or else fewer are in place, or else it comes first by name.
pub open spec fn partition_first(v: StageView, input: InputView, a: Seq<char>, b: Seq<char>) -> bool {
    if has_top(v, input, a) != has_top(v, input, b) {
        has_top(v, input, a)
    } else if matching(input, a) != matching(input, b) {
        matching(input, a) < matching(input, b)
    } else if settled(input, a) != settled(input, b) {
        settled(input, a) < settled(input, b)
    } else {
        text::text_before(a, b)
    }
}

proof fn some_in_state(row: Row, state: Seq<char>)
    ensures
        message_throttle::in_state(row, state) > 0 <==> exists|k: int|
            0 <= k < row.len() && (#[trigger] row[k]).1 == state,
    decreases row.len(),
{
    if row.len() > 0 {
        let rest = row.drop_last();
        some_in_state(rest, state);
        if message_throttle::in_state(rest, state) > 0 {
            let k = choose|k: int| 0 <= k < rest.len() && (#[trigger] rest[k]).1 == state;
            assert(row[k].1 == state);
        }
        if row.last().1 == state {
            assert(row[row.len() - 1].1 == state);
        }
        if exists|k: int| 0 <= k < row.len() && (#[trigger] row[k]).1 == state {
            let k = choose|k: int| 0 <= k < row.len() && (#[trigger] row[k]).1 == state;
            if k < rest.len() {
                assert(rest[k].1 == state);
            }
        }
    }
}

proof fn ranks_are_counted(v: StageView, input: InputView, partition: Seq<char>)
    requires
        replica_state::finite(input.current),
    ensures
        ({
            let row = message_throttle::row_of(input.current, partition);
            let best = replica_state::instances_of(input.best, partition);
            &&& message_throttle::in_state(row, v.model.states[0]) > 0 <==> has_top(
                v,
                input,
                partition,
            )
            &&& message_throttle::paired(row, message_throttle::row_of(input.best, partition))
                == matching(input, partition)
            &&& message_throttle::settled(row, best) == settled(input, partition)
        }),
{
    let current = replica_state::instances_of(input.current, partition);
    let best = replica_state::instances_of(input.best, partition);
    let row = message_throttle::row_of(input.current, partition);
    assert(current.dom().finite()) by {
        if !input.current.dom().contains(partition) {
            assert(current.dom() =~= Set::empty());
        }
    }
    ordered::finite_map_is_listed::<InstanceId, Seq<char>>(current);
    paired_is_intersection(row, message_throttle::row_of(input.best, partition));
    settled_are_in_place(row, current, best, row.len() as int);
    assert(row.take(row.len() as int) =~= row);
    let top = v.model.states[0];
    some_in_state(row, top);
    if message_throttle::in_state(row, top) > 0 {
        let k = choose|k: int| 0 <= k < row.len() && (#[trigger] row[k]).1 == top;
        ordered::map_of_at::<InstanceId, Seq<char>>(row, k);
        assert(current.dom().contains(row[k].0));
        assert(input.current.dom().contains(partition));
        assert(input.current[partition].dom().contains(row[k].0));
    }
    if has_top(v, input, partition) {
        let i = choose|i: Seq<char>|
            input.current.dom().contains(partition) && #[trigger] input.current[partition].dom().contains(
                i,
            ) && input.current[partition][i] == v.model.states[0];
        let k = ordered::map_of_position(row, i);
        assert(row[k].1 == top);
    }
}

proof fn partition_first_is_strict(
    v: StageView,
    input: InputView,
    a: Seq<char>,
    b: Seq<char>,
    c: Seq<char>,
)
    ensures
        partition_first(v, input, a, b) ==> !partition_first(v, input, b, a),
        !partition_first(v, input, b, a) && !partition_first(v, input, c, b) ==> !partition_first(
            v,
            input,
            c,
            a,
        ),
{
    if text::text_before(a, b) && text::text_before(b, a) {
        text::text_before_transitive(a, b, a);
        text::text_before_irreflexive(a);
    }
    text::text_before_total(a, b);
    text::text_before_total(b, c);
    text::text_before_irreflexive(a);
    if text::text_before(c, a) {
        if text::text_before(a, b) {
            text::text_before_transitive(c, a, b);
        }
        if text::text_before(a, b) && text::text_before(b, c) {
            text::text_before_transitive(a, b, c);
            text::text_before_transitive(a, c, a);
        }
    }
}

/// The partitions with selected moves are tried, each once, and in order: those
/// with a replica in the top state first, then those with the fewest matching
/// replicas, then those with the fewest replicas in place, then by name.
pub proof fn partitions_are_tried_by_need(v: StageView, input: InputView)
    requires
        replica_state::finite(input.current),
    ensures
        v.partition_order(input).no_duplicates(),
        forall|p: Seq<char>| #[trigger]
            v.partition_order(input).contains(p) <==> exists|k: int|
                0 <= k < input.selected.len() && (#[trigger] input.selected[k]).partition == p,
        forall|i: int, j: int|
            0 <= i < v.partition_order(input).len() && 0 <= j < v.partition_order(input).len()
                && partition_first(
                v,
                input,
                #[trigger] v.partition_order(input)[i],
                #[trigger] v.partition_order(input)[j],
            ) ==> i < j,
{
    let lt = |a: Seq<char>, b: Seq<char>|
        message_throttle::partition_ahead(input, v.model.states[0], a, b);
    let set = message_throttle::partitions_of(input.selected);
    let names = Seq::new(input.selected.len(), |i: int| input.selected[i].partition);
    vstd::seq_lib::seq_to_set_is_finite(names);
    assert(set =~= names.to_set()) by {
        assert forall|p: Seq<char>| set.contains(p) implies #[trigger] names.contains(p) by {
            let i = choose|i: int|
                0 <= i < input.selected.len() && (#[trigger] input.selected[i]).partition == p;
            assert(names[i] == p);
        }
        assert forall|p: Seq<char>| #[trigger] names.contains(p) implies set.contains(p) by {
            let i = names.index_of(p);
            assert(input.selected[i].partition == p);
        }
    }
    let s = ordered::members_in_order::<PartitionId>(set);
    ordered::members_are_counted::<PartitionId>(set);
    let order = v.partition_order(input);
    lists::stable_sort_permutes(lt, s);
    assert forall|a: Seq<char>, b: Seq<char>| #[trigger] lt(a, b) == partition_first(
        v,
        input,
        a,
        b,
    ) by {
        ranks_are_counted(v, input, a);
        ranks_are_counted(v, input, b);
    }
    assert forall|a: Seq<char>, b: Seq<char>| #[trigger] lt(a, b) implies !lt(b, a) by {
        partition_first_is_strict(v, input, a, b, a);
        assert(lt(b, a) == partition_first(v, input, b, a));
    }
    assert forall|a: Seq<char>, b: Seq<char>, c: Seq<char>|
        !#[trigger] lt(b, a) && !#[trigger] lt(c, b) implies !lt(c, a) by {
        partition_first_is_strict(v, input, a, b, c);
        assert(lt(c, a) == partition_first(v, input, c, a));
    }
    lists::stable_sort_sorts(lt, s);
    assert forall|i: int, j: int|
        0 <= i < order.len() && 0 <= j < order.len() && partition_first(
            v,
            input,
            #[trigger] order[i],
            #[trigger] order[j],
        ) implies i < j by {
        assert(lt(order[i], order[j]));
        if i == j {
            partition_first_is_strict(v, input, order[i], order[i], order[i]);
        } else if j < i {
            assert(!lt(order[i], order[j]));
        }
    }
    assert(order.no_duplicates()) by {
        s.lemma_multiset_has_no_duplicates();
        order.lemma_multiset_has_no_duplicates_conv();
    }
    assert forall|p: Seq<char>| #[trigger] order.contains(p) <==> exists|k: int|
        0 <= k < input.selected.len() && (#[trigger] input.selected[k]).partition == p by {
        assert(order.contains(p) <==> s.contains(p));
        assert(s.to_set().contains(p) <==> set.contains(p));
    }
}

} // verus!
