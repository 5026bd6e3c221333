//! What the selection of transitions guarantees.
use crate::controller::message_selection;
use crate::controller::message_selection::SelectionView;
use crate::lists;
use crate::model::replica_state::Replicas;
use crate::model::{InstanceId, PartitionId, StateCardinality};
use crate::ordered;
use crate::text;
use crate::transition::{Move, PendingMove};
use vstd::prelude::*;

verus! {

/// Instances whose replica of a partition stands in a state. One that is not
/// observed stands in the initial state.
pub open spec fn standing(
    current: Replicas,
    initial: Seq<char>,
    partition: Seq<char>,
    state: Seq<char>,
) -> spec_fn(Seq<char>) -> bool {
    |instance: Seq<char>|
        if current.dom().contains(partition) && current[partition].dom().contains(instance) {
            current[partition][instance] == state
        } else {
            initial == state
        }
}

/// Pending transitions of a partition that lead to a state.
pub open spec fn arriving(partition: Seq<char>, state: Seq<char>) -> spec_fn(PendingMove) -> bool {
    |p: PendingMove| p.partition == partition && p.target == state
}

/// Pending transitions of a partition that lead away from a state.
pub open spec fn leaving(partition: Seq<char>, state: Seq<char>) -> spec_fn(PendingMove) -> bool {
    |p: PendingMove| p.partition == partition && p.source == state
}

/// Moves of a partition that lead to a state.
pub open spec fn moving_to(partition: Seq<char>, state: Seq<char>) -> spec_fn(Move) -> bool {
    |m: Move| m.partition == partition && m.target == state
}

/// How much of a state is taken: by the live replicas that stand in it, and by
/// the pending transitions to it and away from it.
pub open spec fn taken_up(v: SelectionView, partition: Seq<char>, state: Seq<char>) -> nat {
    v.live.filter(standing(v.current, v.model.initial, partition, state)).len()
        + v.pending.filter(arriving(partition, state)).len() + v.pending.filter(
        leaving(partition, state),
    ).len()
}

/// How many replicas of a partition may be in a state, where that is limited:
/// a fixed number, or one on every live instance.
pub open spec fn room(v: SelectionView, state: Seq<char>) -> Option<nat> {
    if v.model.cardinalities.dom().contains(state) {
        match v.model.cardinalities[state] {
            StateCardinality::Exact(n) => Some(n as nat),
            StateCardinality::NodeCount => Some(v.live.len()),
            StateCardinality::ReplicaCount => None,
            StateCardinality::Unbounded => None,
        }
    } else {
        None
    }
}

proof fn live_are_counted(
    list: Seq<Seq<char>>,
    current: Replicas,
    partition: Seq<char>,
    initial: Seq<char>,
    state: Seq<char>,
)
    requires
        list.no_duplicates(),
    ensures
        message_selection::live_in(list, current, partition, initial, state)
            == list.to_set().filter(standing(current, initial, partition, state)).len(),
        list.to_set().filter(standing(current, initial, partition, state)).finite(),
    decreases list.len(),
{
    let f = standing(current, initial, partition, state);
    vstd::seq_lib::seq_to_set_is_finite(list);
    if list.len() == 0 {
        assert(list.to_set().filter(f) =~= Set::empty());
    } else {
        let rest = list.drop_last();
        let x = list.last();
        assert forall|i: int, j: int| 0 <= i < j < rest.len() implies rest[i] != rest[j] by {
            assert(list[i] != list[j]);
        }
        live_are_counted(rest, current, partition, initial, state);
        assert(!rest.to_set().contains(x)) by {
            if rest.contains(x) {
                let i = rest.index_of(x);
                assert(list[i] != list[list.len() - 1]);
            }
        }
        assert(list.to_set() =~= rest.to_set().insert(x)) by {
            assert forall|y: Seq<char>| #[trigger] list.to_set().contains(y)
                <==> rest.to_set().insert(x).contains(y) by {
                if list.contains(y) && y != x {
                    assert(rest[list.index_of(y)] == y);
                }
                if rest.contains(y) {
                    assert(list[rest.index_of(y)] == y);
                }
                if y == x {
                    assert(list[list.len() - 1] == y);
                }
            }
        }
        if f(x) {
            assert(list.to_set().filter(f) =~= rest.to_set().filter(f).insert(x));
        } else {
            assert(list.to_set().filter(f) =~= rest.to_set().filter(f));
        }
    }
}

proof fn pending_are_counted(pending: Seq<PendingMove>, partition: Seq<char>, state: Seq<char>)
    ensures
        message_selection::reserved_in(pending, partition, state) == pending.filter(
            arriving(partition, state),
        ).len() + pending.filter(leaving(partition, state)).len(),
    decreases pending.len(),
{
    reveal(Seq::filter);
    if pending.len() > 0 {
        pending_are_counted(pending.drop_last(), partition, state);
    }
}

/// What counts against a bound is exactly the live replicas in the state and
/// the pending transitions with an end in it: a transition of another partition
/// or between other states, and a replica that is not live, do not count.
pub proof fn occupancy_is_counted(v: SelectionView, partition: Seq<char>, state: Seq<char>)
    requires
        v.live.finite(),
    ensures
        v.occupied(partition, state) == taken_up(v, partition, state),
        v.bound(state) == room(v, state),
{
    let list = ordered::members_in_order::<InstanceId>(v.live);
    ordered::members_are_counted::<InstanceId>(v.live);
    live_are_counted(list, v.current, partition, v.model.initial, state);
    pending_are_counted(v.pending, partition, state);
}

proof fn moves_are_counted(moves: Seq<Move>, partition: Seq<char>, state: Seq<char>)
    ensures
        message_selection::moves_within(moves, partition, state) == moves.filter(
            moving_to(partition, state),
        ).len(),
    decreases moves.len(),
{
    reveal(Seq::filter);
    if moves.len() > 0 {
        moves_are_counted(moves.drop_last(), partition, state);
    }
}

proof fn moves_grow(v: SelectionView, partition: Seq<char>, list: Seq<Move>, i: int, state: Seq<char>)
    requires
        0 <= i <= list.len(),
    ensures
        message_selection::moves_to(v.taken(partition, list.take(i)), state)
            <= message_selection::moves_to(v.taken(partition, list), state),
    decreases list.len(),
{
    if i == list.len() {
        assert(list.take(i) =~= list);
    } else {
        let rest = list.drop_last();
        moves_grow(v, partition, rest, i, state);
        assert(rest.take(i) =~= list.take(i));
        let before = v.taken(partition, rest);
        assert(before.push(list.last()).drop_last() =~= before);
    }
}

/// A candidate is taken where it fits what was taken before it.
proof fn taken_where_it_fits(v: SelectionView, partition: Seq<char>, list: Seq<Move>, j: int)
    requires
        0 <= j < list.len(),
        v.fits(partition, v.taken(partition, list.take(j)), list[j]),
    ensures
        v.taken(partition, list).contains(list[j]),
    decreases list.len(),
{
    let rest = list.drop_last();
    let before = v.taken(partition, rest);
    let all = v.taken(partition, list);
    if j < rest.len() {
        assert(rest.take(j) =~= list.take(j));
        taken_where_it_fits(v, partition, rest, j);
        assert(all[before.index_of(list[j])] == list[j]);
    } else {
        assert(list.take(j) =~= rest);
        assert(all[before.len() as int] == list[j]);
    }
}

/// What is taken stands in the list where it fits.
proof fn taken_at(v: SelectionView, partition: Seq<char>, list: Seq<Move>, m: Move) -> (j: int)
    requires
        v.taken(partition, list).contains(m),
    ensures
        0 <= j < list.len(),
        list[j] == m,
        v.fits(partition, v.taken(partition, list.take(j)), m),
    decreases list.len(),
{
    let rest = list.drop_last();
    let before = v.taken(partition, rest);
    let all = v.taken(partition, list);
    if list.len() == 0 {
        assert(false);
        0
    } else if before.contains(m) {
        let j = taken_at(v, partition, rest, m);
        assert(rest.take(j) =~= list.take(j));
        j
    } else {
        let i = all.index_of(m);
        if i < before.len() {
            assert(before[i] == m);
        }
        assert(list.take(list.len() - 1) =~= rest);
        list.len() - 1
    }
}

/// A candidate stands among those considered for its partition.
proof fn candidate_is_considered(v: SelectionView, c: Move) -> (j: int)
    requires
        v.candidates.contains(c),
    ensures
        ({
            let list = v.below_priority(c.partition, v.model.transitions.len() + 1);
            0 <= j < list.len() && list[j] == c
        }),
{
    let n = v.model.transitions.len() + 1;
    lists::first_index_meaning(v.model.transitions, (c.source, c.target));
    message_selection::considered_members(v, c.partition, n, c);
    v.below_priority(c.partition, n).index_of(c)
}

proof fn chosen_is_selected(v: SelectionView, partition: Seq<char>)
    ensures
        forall|m: Move|
            v.chosen(partition).contains(m) ==> #[trigger] v.selected().contains(m),
        forall|m: Move| #[trigger]
            v.selected().contains(m) && m.partition == partition ==> v.chosen(partition).contains(
                m,
            ),
        forall|m: Move| #[trigger] v.selected().contains(m) ==> v.candidates.contains(m),
        forall|state: Seq<char>|
            #![trigger moving_to(partition, state)]
            v.selected().filter(moving_to(partition, state)).len() == message_selection::moves_to(
                v.chosen(partition),
                state,
            ),
{
    message_selection::partitions_are_listed(v);
    let names = ordered::members_in_order::<PartitionId>(v.partitions());
    message_selection::chosen_of_one(v, names, partition);
    let kept = v.selected().filter(message_selection::moving(partition));
    let n = v.model.transitions.len() + 1;
    assert forall|m: Move| #[trigger] v.chosen(partition).contains(m) implies v.candidates.contains(
        m,
    ) && m.partition == partition by {
        message_selection::taken_from_list(v, partition, v.below_priority(partition, n), m);
        message_selection::considered_members(v, partition, n, m);
    }
    assert forall|m: Move| v.chosen(partition).contains(m) implies #[trigger] v.selected().contains(
        m,
    ) by {
        let i = v.candidates.index_of(m);
        assert(v.candidates[i].partition == partition);
        assert(v.partitions().contains(partition));
        assert(names.contains(partition));
        assert(kept.contains(m));
        v.selected().lemma_filter_contains_rev(message_selection::moving(partition), m);
    }
    assert forall|m: Move| #[trigger]
        v.selected().contains(m) && m.partition == partition implies v.chosen(partition).contains(
        m,
    ) by {
        v.selected().lemma_filter_contains(
            message_selection::moving(partition),
            v.selected().index_of(m),
        );
        assert(kept.contains(m));
    }
    assert forall|m: Move| #[trigger] v.selected().contains(m) implies v.candidates.contains(m) by {
        message_selection::selection_selects_candidates(v, names, m);
    }
    assert forall|state: Seq<char>|
        #![trigger moving_to(partition, state)]
        v.selected().filter(moving_to(partition, state)).len() == message_selection::moves_to(
            v.chosen(partition),
            state,
        ) by {
        moves_are_counted(v.selected(), partition, state);
        message_selection::chosen_within(v, names, partition, state);
        if !names.contains(partition) {
            assert(v.chosen(partition).len() == 0) by {
                if v.chosen(partition).len() > 0 {
                    let m = v.chosen(partition)[0];
                    assert(v.chosen(partition).contains(m));
                    let i = v.candidates.index_of(m);
                    assert(v.candidates[i].partition == partition);
                    assert(v.partitions().contains(partition));
                }
            }
        }
    }
}

/// Only candidates are selected.
pub proof fn only_candidates_are_selected(v: SelectionView, m: Move)
    requires
        v.selected().contains(m),
    ensures
        v.candidates.contains(m),
{
    chosen_is_selected(v, m.partition);
}

/// Where a state has room for so many replicas, it never gets more: those that
/// take it up and the selected moves to it fit together.
pub proof fn selected_moves_find_room(v: SelectionView, partition: Seq<char>, state: Seq<char>)
    requires
        v.live.finite(),
        room(v, state) is Some,
        v.selected().filter(moving_to(partition, state)).len() > 0,
    ensures
        taken_up(v, partition, state) + v.selected().filter(moving_to(partition, state)).len()
            <= room(v, state)->0,
{
    occupancy_is_counted(v, partition, state);
    moves_are_counted(v.selected(), partition, state);
    message_selection::selected_moves_fit_their_bounds(v, partition, state);
}

/// A candidate is left out only where its target has no room left: what takes
/// it up and the selected moves to it use up its bound.
pub proof fn left_out_candidates_find_no_room(v: SelectionView, c: Move)
    requires
        v.live.finite(),
        v.candidates.contains(c),
        !v.selected().contains(c),
    ensures
        room(v, c.target) is Some,
        taken_up(v, c.partition, c.target) + v.selected().filter(
            moving_to(c.partition, c.target),
        ).len() >= room(v, c.target)->0,
{
    let list = v.below_priority(c.partition, v.model.transitions.len() + 1);
    let j = candidate_is_considered(v, c);
    chosen_is_selected(v, c.partition);
    occupancy_is_counted(v, c.partition, c.target);
    assert(moving_to(c.partition, c.target) == moving_to(c.partition, c.target));
    if v.fits(c.partition, v.taken(c.partition, list.take(j)), c) {
        taken_where_it_fits(v, c.partition, list, j);
    }
    moves_grow(v, c.partition, list, j, c.target);
}

/// A candidate that stands alone in its partition is selected whenever its
/// target has room beyond the live replicas in it, where no pending transition
/// of the partition has an end in that target.
pub proof fn lone_candidates_are_selected(v: SelectionView, c: Move)
    requires
        v.live.finite(),
        v.candidates.contains(c),
        forall|i: int|
            0 <= i < v.candidates.len() && (#[trigger] v.candidates[i]).partition == c.partition
                ==> v.candidates[i] == c && v.candidates.index_of(c) == i,
        forall|i: int|
            0 <= i < v.pending.len() && (#[trigger] v.pending[i]).partition == c.partition
                ==> v.pending[i].source != c.target && v.pending[i].target != c.target,
        room(v, c.target) matches Some(bound) ==> v.live.filter(
            standing(v.current, v.model.initial, c.partition, c.target),
        ).len() < bound,
    ensures
        v.selected().contains(c),
{
    if !v.selected().contains(c) {
        left_out_candidates_find_no_room(v, c);
        nothing_passes(v.pending, arriving(c.partition, c.target));
        nothing_passes(v.pending, leaving(c.partition, c.target));
        let sent = v.selected().filter(moving_to(c.partition, c.target));
        if sent.len() > 0 {
            let m = sent[0];
            assert(sent.contains(m));
            v.selected().lemma_filter_contains_rev(moving_to(c.partition, c.target), m);
            v.selected().lemma_filter_pred(moving_to(c.partition, c.target), 0);
            only_candidates_are_selected(v, m);
            let i = v.candidates.index_of(m);
            assert(v.candidates[i].partition == c.partition);
        }
    }
}

proof fn nothing_passes<A>(s: Seq<A>, f: spec_fn(A) -> bool)
    requires
        forall|i: int| 0 <= i < s.len() ==> !f(#[trigger] s[i]),
    ensures
        s.filter(f).len() == 0,
    decreases s.len(),
{
    reveal(Seq::filter);
    if s.len() > 0 {
        let rest = s.drop_last();
        assert forall|i: int| 0 <= i < rest.len() implies !f(#[trigger] rest[i]) by {
            assert(rest[i] == s[i]);
        }
        nothing_passes(rest, f);
        assert(!f(s[s.len() - 1]));
    }
}

/// Where a transition stands in the order of priorities of the model.
pub open spec fn priority(v: SelectionView, m: Move) -> nat {
    lists::first_index(v.model.transitions, (m.source, m.target))
}

/// Candidates of one partition and priority.
pub open spec fn ranked(v: SelectionView, partition: Seq<char>, k: nat) -> spec_fn(Move) -> bool {
    |m: Move| m.partition == partition && priority(v, m) == k
}

proof fn ranked_keep_their_order(v: SelectionView, candidates: Seq<Move>, partition: Seq<char>, k: nat)
    ensures
        message_selection::at_priority(candidates, v.model, partition, k) == candidates.filter(
            ranked(v, partition, k),
        ),
    decreases candidates.len(),
{
    reveal(Seq::filter);
    if candidates.len() > 0 {
        ranked_keep_their_order(v, candidates.drop_last(), partition, k);
    }
}

/// The candidate at `i` is considered before the one at `j`.
pub open spec fn considered_first(v: SelectionView, i: int, j: int) -> bool {
    let c = v.candidates[i];
    let d = v.candidates[j];
    priority(v, c) < priority(v, d) || (priority(v, c) == priority(v, d) && i < j)
}

proof fn filtered_positions<A>(s: Seq<A>, f: spec_fn(A) -> bool, i: int, j: int) -> (r: (int, int))
    requires
        0 <= i < j < s.len(),
        f(s[i]),
        f(s[j]),
    ensures
        0 <= r.0 < r.1 < s.filter(f).len(),
        s.filter(f)[r.0] == s[i],
        s.filter(f)[r.1] == s[j],
    decreases s.len(),
{
    reveal(Seq::filter);
    let rest = s.drop_last();
    if j < rest.len() {
        filtered_positions(rest, f, i, j)
    } else {
        rest.lemma_filter_contains(f, i);
        let a = rest.filter(f).index_of(rest[i]);
        (a, rest.filter(f).len() as int)
    }
}

proof fn filtered_stay_different<A>(s: Seq<A>, f: spec_fn(A) -> bool)
    requires
        s.no_duplicates(),
    ensures
        s.filter(f).no_duplicates(),
    decreases s.len(),
{
    reveal(Seq::filter);
    if s.len() > 0 {
        let rest = s.drop_last();
        assert forall|i: int, j: int| 0 <= i < j < rest.len() implies rest[i] != rest[j] by {
            assert(s[i] != s[j]);
        }
        filtered_stay_different(rest, f);
        let kept = rest.filter(f);
        let all = s.filter(f);
        assert forall|i: int, j: int| 0 <= i < j < all.len() implies all[i] != all[j] by {
            if j == kept.len() {
                assert(kept.contains(kept[i]));
                rest.lemma_filter_contains_rev(f, kept[i]);
                let a = rest.index_of(kept[i]);
                assert(s[a] != s[s.len() - 1]);
            } else {
                assert(all[i] == kept[i] && all[j] == kept[j]);
            }
        }
    }
}

/// The considered candidates go by priority, and none of them stands there
/// twice.
proof fn considered_in_order(v: SelectionView, partition: Seq<char>, n: nat)
    requires
        v.candidates.no_duplicates(),
    ensures
        ({
            let list = v.below_priority(partition, n);
            &&& list.no_duplicates()
            &&& forall|a: int|
                0 <= a < list.len() ==> priority(v, #[trigger] list[a]) < n && list[a].partition
                    == partition
            &&& forall|a: int, b: int|
                0 <= a < b < list.len() ==> priority(v, #[trigger] list[a]) <= priority(
                    v,
                    #[trigger] list[b],
                )
        }),
    decreases n,
{
    if n > 0 {
        let k = (n - 1) as nat;
        considered_in_order(v, partition, k);
        let before = v.below_priority(partition, k);
        let added = message_selection::at_priority(v.candidates, v.model, partition, k);
        ranked_keep_their_order(v, v.candidates, partition, k);
        filtered_stay_different(v.candidates, ranked(v, partition, k));
        let list = before + added;
        assert forall|a: int| 0 <= a < list.len() implies priority(v, #[trigger] list[a]) < n
            && list[a].partition == partition by {
            if a >= before.len() {
                v.candidates.lemma_filter_pred(ranked(v, partition, k), a - before.len());
            } else {
                assert(list[a] == before[a]);
            }
        }
        assert forall|a: int, b: int| 0 <= a < b < list.len() implies list[a] != list[b]
            && priority(v, #[trigger] list[a]) <= priority(v, #[trigger] list[b]) by {
            if b >= before.len() {
                v.candidates.lemma_filter_pred(ranked(v, partition, k), b - before.len());
                if a >= before.len() {
                    v.candidates.lemma_filter_pred(ranked(v, partition, k), a - before.len());
                    assert(added[a - before.len()] != added[b - before.len()]);
                } else {
                    assert(list[a] == before[a]);
                }
            } else {
                assert(list[a] == before[a] && list[b] == before[b]);
            }
        }
    }
}

proof fn considered_equals(v: SelectionView, partition: Seq<char>, n: nat, i: int, j: int) -> (r: (
    int,
    int,
))
    requires
        0 <= i < j < v.candidates.len(),
        v.candidates[i].partition == partition,
        v.candidates[j].partition == partition,
        priority(v, v.candidates[i]) == priority(v, v.candidates[j]),
        priority(v, v.candidates[i]) < n,
    ensures
        ({
            let list = v.below_priority(partition, n);
            0 <= r.0 < r.1 < list.len() && list[r.0] == v.candidates[i] && list[r.1]
                == v.candidates[j]
        }),
    decreases n,
{
    let k = (n - 1) as nat;
    let before = v.below_priority(partition, k);
    if priority(v, v.candidates[i]) < k {
        considered_equals(v, partition, k, i, j)
    } else {
        ranked_keep_their_order(v, v.candidates, partition, k);
        let (a, b) = filtered_positions(v.candidates, ranked(v, partition, k), i, j);
        (before.len() + a, before.len() + b)
    }
}

/// Room goes to the transitions of higher priority, and among equals to the
/// earlier candidate: of two candidates of a partition for the same target, the
/// one that is considered later is never selected without the other.
pub proof fn room_goes_by_priority(v: SelectionView, i: int, j: int)
    requires
        v.candidates.no_duplicates(),
        0 <= i < v.candidates.len(),
        0 <= j < v.candidates.len(),
        v.candidates[i].partition == v.candidates[j].partition,
        v.candidates[i].target == v.candidates[j].target,
        considered_first(v, i, j),
        v.selected().contains(v.candidates[j]),
    ensures
        v.selected().contains(v.candidates[i]),
{
    let c = v.candidates[i];
    let d = v.candidates[j];
    let p = c.partition;
    let n = v.model.transitions.len() + 1;
    let list = v.below_priority(p, n);
    chosen_is_selected(v, p);
    considered_in_order(v, p, n);
    let a = candidate_is_considered(v, c);
    let b = taken_at(v, p, list, d);
    if priority(v, c) == priority(v, d) {
        lists::first_index_meaning(v.model.transitions, (c.source, c.target));
        let (x, y) = considered_equals(v, p, n, i, j);
        assert(x == a);
        assert(y == b);
    } else if b <= a {
        if b < a {
            assert(priority(v, list[b]) <= priority(v, list[a]));
        }
    }
    assert(a < b);
    if !v.fits(p, v.taken(p, list.take(a)), c) {
        assert(list.take(b).take(a) =~= list.take(a));
        moves_grow(v, p, list.take(b), a, c.target);
    } else {
        taken_where_it_fits(v, p, list, a);
    }
}

/// The partition is one of the resource: it has a preference list, or a replica
/// of it is observed and the move is its next step to DROPPED.
pub open spec fn belongs(
    v: SelectionView,
    partition: Seq<char>,
    source: Seq<char>,
    target: Seq<char>,
) -> bool {
    v.lists.dom().contains(partition) || (v.current.dom().contains(partition) && v.model.next(
        source,
        "DROPPED"@,
    ) == Some(target))
}

/// A selection is made exactly where every candidate is of the resource and of
/// one of its partitions, every pending transition is of one of its partitions,
/// and no two of them are of one replica.
pub proof fn sound_input_is_selected_from(v: SelectionView)
    ensures
        v.fault() is None <==> {
            &&& forall|i: int|
                0 <= i < v.candidates.len() ==> (#[trigger] v.candidates[i]).resource == v.resource
                    && belongs(
                    v,
                    v.candidates[i].partition,
                    v.candidates[i].source,
                    v.candidates[i].target,
                )
            &&& forall|i: int|
                0 <= i < v.pending.len() ==> belongs(
                    v,
                    (#[trigger] v.pending[i]).partition,
                    v.pending[i].source,
                    v.pending[i].target,
                )
            &&& forall|i: int, j: int|
                0 <= i < j < v.pending.len() ==> !((#[trigger] v.pending[i]).partition == (
                #[trigger] v.pending[j]).partition && v.pending[i].instance
                    == v.pending[j].instance)
        },
{
    message_selection::sound_candidates(v, v.candidates.len());
    message_selection::sound_pending(v, v.pending.len());
    assert(v.pending.take(v.pending.len() as int) =~= v.pending);
    if message_selection::sound(v, v.pending) {
        assert forall|i: int, j: int| 0 <= i < j < v.pending.len() implies !((
        #[trigger] v.pending[i]).partition == (#[trigger] v.pending[j]).partition
            && v.pending[i].instance == v.pending[j].instance) by {
            assert(!message_selection::same_replica(v.pending[i], v.pending[j]));
        }
    }
}

/// The moves are of the partition, by priority.
pub open spec fn by_priority(v: SelectionView, moves: Seq<Move>, partition: Seq<char>) -> bool {
    &&& forall|a: int| 0 <= a < moves.len() ==> (#[trigger] moves[a]).partition == partition
    &&& forall|a: int, b: int|
        0 <= a < b < moves.len() ==> priority(v, #[trigger] moves[a]) <= priority(
            v,
            #[trigger] moves[b],
        )
}

proof fn considered_by_priority(v: SelectionView, partition: Seq<char>, k: nat)
    ensures
        by_priority(v, v.below_priority(partition, k), partition),
        forall|a: int|
            0 <= a < v.below_priority(partition, k).len() ==> priority(
                v,
                #[trigger] v.below_priority(partition, k)[a],
            ) < k,
    decreases k,
{
    if k > 0 {
        let n = (k - 1) as nat;
        considered_by_priority(v, partition, n);
        let before = v.below_priority(partition, n);
        let f = ranked(v, partition, n);
        ranked_keep_their_order(v, v.candidates, partition, n);
        let last = v.candidates.filter(f);
        let all = v.below_priority(partition, k);
        assert forall|a: int| 0 <= a < last.len() implies (#[trigger] last[a]).partition == partition
            && priority(v, last[a]) == n by {
            v.candidates.lemma_filter_pred(f, a);
        }
        assert(all == before + last);
        assert forall|a: int| 0 <= a < all.len() implies (#[trigger] all[a]).partition == partition
            && priority(v, all[a]) < k by {
            if a < before.len() {
                assert(all[a] == before[a]);
            } else {
                assert(all[a] == last[a - before.len()]);
            }
        }
        assert forall|a: int, b: int| 0 <= a < b < all.len() implies priority(
            v,
            #[trigger] all[a],
        ) <= priority(v, #[trigger] all[b]) by {
            if b < before.len() {
                assert(all[a] == before[a] && all[b] == before[b]);
            } else {
                assert(all[b] == last[b - before.len()]);
            }
        }
    }
}

proof fn taken_by_priority(v: SelectionView, partition: Seq<char>, list: Seq<Move>)
    requires
        by_priority(v, list, partition),
    ensures
        by_priority(v, v.taken(partition, list), partition),
        forall|a: int|
            0 <= a < v.taken(partition, list).len() ==> list.contains(
                #[trigger] v.taken(partition, list)[a],
            ),
    decreases list.len(),
{
    if list.len() > 0 {
        let rest = list.drop_last();
        let n = list.len() - 1;
        assert(by_priority(v, rest, partition)) by {
            assert forall|a: int| 0 <= a < rest.len() implies (#[trigger] rest[a]).partition
                == partition by {
                assert(rest[a] == list[a]);
            }
            assert forall|a: int, b: int| 0 <= a < b < rest.len() implies priority(
                v,
                #[trigger] rest[a],
            ) <= priority(v, #[trigger] rest[b]) by {
                assert(rest[a] == list[a] && rest[b] == list[b]);
            }
        }
        taken_by_priority(v, partition, rest);
        let before = v.taken(partition, rest);
        let all = v.taken(partition, list);
        assert(list[n] == list.last());
        assert forall|a: int| 0 <= a < before.len() implies list.contains(#[trigger] before[a])
            && priority(v, before[a]) <= priority(v, list.last()) by {
            let k = rest.index_of(before[a]);
            assert(list[k] == before[a]);
        }
        assert forall|a: int| 0 <= a < all.len() implies list.contains(#[trigger] all[a])
            && all[a].partition == partition by {
            if a < before.len() {
                assert(all[a] == before[a]);
                assert(before[a].partition == partition);
            } else {
                assert(all[a] == list[n]);
            }
        }
        assert forall|a: int, b: int| 0 <= a < b < all.len() implies priority(
            v,
            #[trigger] all[a],
        ) <= priority(v, #[trigger] all[b]) by {
            assert(all[a] == before[a]);
            if b < before.len() {
                assert(all[b] == before[b]);
            }
        }
    }
}

/// One move is selected before another: by partition, and then by priority.
pub open spec fn selected_before(v: SelectionView, a: Move, b: Move) -> bool {
    text::text_before(a.partition, b.partition) || (a.partition == b.partition && priority(v, a)
        <= priority(v, b))
}

proof fn chosen_in_order(v: SelectionView, partitions: Seq<Seq<char>>)
    requires
        forall|a: int, b: int|
            0 <= a < b < partitions.len() ==> text::text_before(
                #[trigger] partitions[a],
                #[trigger] partitions[b],
            ),
    ensures
        forall|a: int|
            0 <= a < v.chosen_for(partitions).len() ==> partitions.contains(
                (#[trigger] v.chosen_for(partitions)[a]).partition,
            ),
        forall|a: int, b: int|
            0 <= a < b < v.chosen_for(partitions).len() ==> selected_before(
                v,
                #[trigger] v.chosen_for(partitions)[a],
                #[trigger] v.chosen_for(partitions)[b],
            ),
    decreases partitions.len(),
{
    if partitions.len() > 0 {
        let rest = partitions.drop_last();
        let n = partitions.len() - 1;
        let p = partitions.last();
        assert forall|a: int, b: int| 0 <= a < b < rest.len() implies text::text_before(
            #[trigger] rest[a],
            #[trigger] rest[b],
        ) by {
            assert(rest[a] == partitions[a] && rest[b] == partitions[b]);
        }
        chosen_in_order(v, rest);
        let k = v.model.transitions.len() + 1;
        considered_by_priority(v, p, k);
        taken_by_priority(v, p, v.below_priority(p, k));
        let before = v.chosen_for(rest);
        let last = v.chosen(p);
        let all = v.chosen_for(partitions);
        assert(all == before + last);
        assert(partitions[n] == p);
        assert forall|a: int| 0 <= a < before.len() implies partitions.contains(
            (#[trigger] before[a]).partition,
        ) && text::text_before(before[a].partition, p) by {
            let i = rest.index_of(before[a].partition);
            assert(partitions[i] == rest[i]);
        }
        assert forall|a: int| 0 <= a < all.len() implies partitions.contains(
            (#[trigger] all[a]).partition,
        ) by {
            if a < before.len() {
                assert(all[a] == before[a]);
            } else {
                assert(all[a] == last[a - before.len()]);
            }
        }
        assert forall|a: int, b: int| 0 <= a < b < all.len() implies selected_before(
            v,
            #[trigger] all[a],
            #[trigger] all[b],
        ) by {
            if b < before.len() {
                assert(all[a] == before[a] && all[b] == before[b]);
            } else {
                assert(all[b] == last[b - before.len()]);
                if a < before.len() {
                    assert(all[a] == before[a]);
                } else {
                    assert(all[a] == last[a - before.len()]);
                }
            }
        }
    }
}

/// The selected moves come partition by partition, and those of a partition by
/// the priority of their transitions.
pub proof fn moves_are_selected_in_order(v: SelectionView)
    ensures
        forall|a: int, b: int|
            0 <= a < b < v.selected().len() ==> selected_before(
                v,
                #[trigger] v.selected()[a],
                #[trigger] v.selected()[b],
            ),
{
    message_selection::partitions_are_listed(v);
    chosen_in_order(v, ordered::members_in_order::<PartitionId>(v.partitions()));
}

} // verus!
