//! Selection of the transitions that fit the cardinality bounds of a model.
use crate::lists;
use crate::lists::bump;
use crate::model::replica_state;
use crate::model::state_model;
use crate::model::{
    CurrentState, IdealState, InstanceId, PartitionId, ResourceId, State, StateCardinality,
    StateModelDefinition,
};
use crate::ordered;
use crate::ordered::{Duplicate, Key, OrderedSet};
use crate::transition;
use crate::transition::{PendingTransition, TransitionRequest};
use vstd::prelude::*;
use vstd::string::*;

verus! {

/// What a selection decides on.
pub struct SelectionView {
    pub resource: Seq<char>,
    /// The preference lists of the placement.
    pub lists: Map<Seq<char>, Seq<Seq<char>>>,
    pub current: replica_state::Replicas,
    pub live: Set<Seq<char>>,
    pub candidates: Seq<transition::Move>,
    pub pending: Seq<transition::PendingMove>,
    pub model: state_model::StateModelView,
}

/// A replica of an observed partition takes its next step to DROPPED.
pub open spec fn drop_path(
    current: replica_state::Replicas,
    model: state_model::StateModelView,
    partition: Seq<char>,
    source: Seq<char>,
    target: Seq<char>,
) -> bool {
    current.dom().contains(partition) && model.next(source, "DROPPED"@) == Some(target)
}

/// The number of listed live instances whose replica of `partition` is in
/// `state`. A replica that is not observed is in the initial state.
pub open spec fn live_in(
    live: Seq<Seq<char>>,
    current: replica_state::Replicas,
    partition: Seq<char>,
    initial: Seq<char>,
    state: Seq<char>,
) -> nat
    decreases live.len(),
{
    if live.len() == 0 {
        0
    } else {
        let here = match replica_state::state_of(current, partition, live.last()) {
            Some(s) => s,
            None => initial,
        };
        live_in(live.drop_last(), current, partition, initial, state) + if here == state {
            1nat
        } else {
            0
        }
    }
}

/// How often `state` is an end of a pending transition of `partition`.
pub open spec fn reserved_in(
    pending: Seq<transition::PendingMove>,
    partition: Seq<char>,
    state: Seq<char>,
) -> nat
    decreases pending.len(),
{
    if pending.len() == 0 {
        0
    } else {
        let p = pending.last();
        reserved_in(pending.drop_last(), partition, state) + if p.partition == partition
            && p.target == state {
            1nat
        } else {
            0
        } + if p.partition == partition && p.source == state {
            1nat
        } else {
            0
        }
    }
}

/// The number of moves that lead to `state`.
pub open spec fn moves_to(moves: Seq<transition::Move>, state: Seq<char>) -> nat
    decreases moves.len(),
{
    if moves.len() == 0 {
        0
    } else {
        moves_to(moves.drop_last(), state) + if moves.last().target == state {
            1nat
        } else {
            0
        }
    }
}

/// The candidates of one partition and one transition priority, in order.
pub open spec fn at_priority(
    candidates: Seq<transition::Move>,
    model: state_model::StateModelView,
    partition: Seq<char>,
    k: nat,
) -> Seq<transition::Move>
    decreases candidates.len(),
{
    if candidates.len() == 0 {
        Seq::empty()
    } else {
        let before = at_priority(candidates.drop_last(), model, partition, k);
        let c = candidates.last();
        if c.partition == partition && lists::first_index(model.transitions, (c.source, c.target))
            == k {
            before.push(c)
        } else {
            before
        }
    }
}

impl SelectionView {
    /// Why a candidate may not be considered.
    pub open spec fn candidate_fault(self, n: nat) -> Option<SelectionFault>
        decreases n,
    {
        if n == 0 {
            None
        } else {
            let c = self.candidates[n - 1];
            match self.candidate_fault((n - 1) as nat) {
                Some(fault) => Some(fault),
                None => if c.resource != self.resource {
                    Some(
                        SelectionFault::CandidateResourceMismatch {
                            expected: self.resource,
                            actual: c.resource,
                        },
                    )
                } else if !self.lists.dom().contains(c.partition) && !drop_path(
                    self.current,
                    self.model,
                    c.partition,
                    c.source,
                    c.target,
                ) {
                    Some(SelectionFault::UnknownCandidatePartition(c.partition))
                } else {
                    None
                },
            }
        }
    }

    /// Why a pending transition may not be considered.
    pub open spec fn pending_fault(self, n: nat) -> Option<SelectionFault>
        decreases n,
    {
        if n == 0 {
            None
        } else {
            let p = self.pending[n - 1];
            match self.pending_fault((n - 1) as nat) {
                Some(fault) => Some(fault),
                None => if !self.lists.dom().contains(p.partition) && !drop_path(
                    self.current,
                    self.model,
                    p.partition,
                    p.source,
                    p.target,
                ) {
                    Some(SelectionFault::UnknownPendingPartition(p.partition))
                } else if exists|j: int|
                    0 <= j < n - 1 && (#[trigger] self.pending[j]).partition == p.partition
                        && self.pending[j].instance == p.instance {
                    Some(
                        SelectionFault::DuplicatePendingTransition {
                            partition: p.partition,
                            instance: p.instance,
                        },
                    )
                } else {
                    None
                },
            }
        }
    }

    /// Why nothing can be selected.
    pub open spec fn fault(self) -> Option<SelectionFault> {
        match self.candidate_fault(self.candidates.len()) {
            Some(fault) => Some(fault),
            None => self.pending_fault(self.pending.len()),
        }
    }

    /// The most replicas of a partition that may be in `state`. Only fixed
    /// and all-live cardinalities bound a selection.
    pub open spec fn bound(self, state: Seq<char>) -> Option<nat> {
        match self.model.cardinality(state) {
            Some(StateCardinality::Exact(n)) => Some(n as nat),
            Some(StateCardinality::NodeCount) => Some(
                ordered::members_in_order::<InstanceId>(self.live).len(),
            ),
            _ => None,
        }
    }

    /// The replicas of `partition` that are in `state` or on their way from or
    /// to it.
    pub open spec fn occupied(self, partition: Seq<char>, state: Seq<char>) -> nat {
        live_in(
            ordered::members_in_order::<InstanceId>(self.live),
            self.current,
            partition,
            self.model.initial,
            state,
        ) + reserved_in(self.pending, partition, state)
    }

    /// The candidates of `partition` below transition priority `k`, by
    /// priority and then in order.
    pub open spec fn below_priority(self, partition: Seq<char>, k: nat) -> Seq<transition::Move>
        decreases k,
    {
        if k == 0 {
            Seq::empty()
        } else {
            self.below_priority(partition, (k - 1) as nat) + at_priority(
                self.candidates,
                self.model,
                partition,
                (k - 1) as nat,
            )
        }
    }

    /// Whether a candidate fits once `taken` have been taken.
    pub open spec fn fits(
        self,
        partition: Seq<char>,
        taken: Seq<transition::Move>,
        c: transition::Move,
    ) -> bool {
        match self.bound(c.target) {
            Some(bound) => self.occupied(partition, c.target) + moves_to(taken, c.target) + 1
                <= bound,
            None => true,
        }
    }

    /// The candidates taken from `list`, one by one, as long as they fit.
    pub open spec fn taken(
        self,
        partition: Seq<char>,
        list: Seq<transition::Move>,
    ) -> Seq<transition::Move>
        decreases list.len(),
    {
        if list.len() == 0 {
            Seq::empty()
        } else {
            let before = self.taken(partition, list.drop_last());
            if self.fits(partition, before, list.last()) {
                before.push(list.last())
            } else {
                before
            }
        }
    }

    /// The candidates taken for one partition.
    pub open spec fn chosen(self, partition: Seq<char>) -> Seq<transition::Move> {
        self.taken(partition, self.below_priority(partition, self.model.transitions.len() + 1))
    }

    /// The candidates taken for the listed partitions.
    pub open spec fn chosen_for(self, partitions: Seq<Seq<char>>) -> Seq<transition::Move>
        decreases partitions.len(),
    {
        if partitions.len() == 0 {
            Seq::empty()
        } else {
            self.chosen_for(partitions.drop_last()) + self.chosen(partitions.last())
        }
    }

    /// The partitions with candidates.
    pub open spec fn partitions(self) -> Set<Seq<char>> {
        Set::new(
            |p: Seq<char>|
                exists|i: int|
                    0 <= i < self.candidates.len() && (#[trigger] self.candidates[i]).partition
                        == p,
        )
    }

    /// The selected transitions, by partition.
    pub open spec fn selected(self) -> Seq<transition::Move> {
        self.chosen_for(ordered::members_in_order::<PartitionId>(self.partitions()))
    }
}

/// Selecting never takes a partition past a bound: where a move to a bounded
/// state is taken, the replicas in that state and on their way fit the bound.
pub proof fn selection_respects_bounds(
    v: SelectionView,
    partition: Seq<char>,
    list: Seq<transition::Move>,
    state: Seq<char>,
)
    requires
        v.bound(state) is Some,
        moves_to(v.taken(partition, list), state) > 0,
    ensures
        v.occupied(partition, state) + moves_to(v.taken(partition, list), state) <= v.bound(
            state,
        )->0,
    decreases list.len(),
{
    if list.len() > 0 {
        let before = v.taken(partition, list.drop_last());
        let c = list.last();
        if v.fits(partition, before, c) {
            assert(before.push(c).drop_last() =~= before);
            if c.target != state {
                selection_respects_bounds(v, partition, list.drop_last(), state);
            }
        } else {
            selection_respects_bounds(v, partition, list.drop_last(), state);
        }
    }
}

/// What is taken comes from the list.
pub proof fn taken_from_list(
    v: SelectionView,
    partition: Seq<char>,
    list: Seq<transition::Move>,
    m: transition::Move,
)
    requires
        v.taken(partition, list).contains(m),
    ensures
        list.contains(m),
    decreases list.len(),
{
    if list.len() > 0 {
        let before = v.taken(partition, list.drop_last());
        let t = v.taken(partition, list);
        let i = t.index_of(m);
        if i < before.len() {
            assert(before[i] == m);
            taken_from_list(v, partition, list.drop_last(), m);
            assert(list[list.drop_last().index_of(m)] == m);
        } else {
            assert(list[list.len() - 1] == m);
        }
    }
}

/// The candidates of one priority are candidates of the partition.
pub proof fn at_priority_members(
    candidates: Seq<transition::Move>,
    model: state_model::StateModelView,
    partition: Seq<char>,
    k: nat,
    m: transition::Move,
)
    ensures
        at_priority(candidates, model, partition, k).contains(m) <==> candidates.contains(m)
            && m.partition == partition && lists::first_index(
            model.transitions,
            (m.source, m.target),
        ) == k,
    decreases candidates.len(),
{
    if candidates.len() > 0 {
        let rest = candidates.drop_last();
        let c = candidates.last();
        let before = at_priority(rest, model, partition, k);
        let all = at_priority(candidates, model, partition, k);
        at_priority_members(rest, model, partition, k, m);
        if candidates.contains(m) && c != m {
            let i = candidates.index_of(m);
            assert(rest[i] == m);
        }
        if rest.contains(m) {
            assert(candidates[rest.index_of(m)] == m);
        }
        if before.contains(m) {
            assert(all[before.index_of(m)] == m);
        }
        if all.contains(m) && !before.contains(m) {
            let i = all.index_of(m);
            if i < before.len() {
                assert(before[i] == m);
            }
        }
        if all.len() > before.len() {
            assert(all[before.len() as int] == c);
        }
        if c == m {
            assert(candidates[candidates.len() - 1] == m);
        }
    }
}

/// The candidates considered for a partition are exactly its candidates.
pub proof fn considered_members(
    v: SelectionView,
    partition: Seq<char>,
    n: nat,
    m: transition::Move,
)
    ensures
        v.below_priority(partition, n).contains(m) <==> v.candidates.contains(m) && m.partition
            == partition && lists::first_index(v.model.transitions, (m.source, m.target)) < n,
    decreases n,
{
    if n > 0 {
        let k = (n - 1) as nat;
        let a = v.below_priority(partition, k);
        let b = at_priority(v.candidates, v.model, partition, k);
        considered_members(v, partition, k, m);
        at_priority_members(v.candidates, v.model, partition, k, m);
        if a.contains(m) {
            assert((a + b)[a.index_of(m)] == m);
        }
        if b.contains(m) {
            assert((a + b)[a.len() + b.index_of(m)] == m);
        }
        if (a + b).contains(m) {
            let i = (a + b).index_of(m);
            if i < a.len() {
                assert(a[i] == m);
            } else {
                assert(b[i - a.len()] == m);
            }
        }
    }
}

/// A selection only selects candidates.
pub proof fn selection_selects_candidates(
    v: SelectionView,
    partitions: Seq<Seq<char>>,
    m: transition::Move,
)
    requires
        v.chosen_for(partitions).contains(m),
    ensures
        v.candidates.contains(m),
        partitions.contains(m.partition),
    decreases partitions.len(),
{
    if partitions.len() > 0 {
        let a = v.chosen_for(partitions.drop_last());
        let b = v.chosen(partitions.last());
        let i = (a + b).index_of(m);
        if i < a.len() {
            assert(a[i] == m);
            selection_selects_candidates(v, partitions.drop_last(), m);
            assert(partitions[partitions.drop_last().index_of(m.partition)] == m.partition);
        } else {
            assert(b[i - a.len()] == m);
            let p = partitions.last();
            let list = v.below_priority(p, v.model.transitions.len() + 1);
            taken_from_list(v, p, list, m);
            considered_members(v, p, v.model.transitions.len() + 1, m);
            assert(partitions[partitions.len() - 1] == m.partition);
        }
    }
}

/// The number of moves of one partition that lead to `state`.
pub open spec fn moves_within(
    moves: Seq<transition::Move>,
    partition: Seq<char>,
    state: Seq<char>,
) -> nat
    decreases moves.len(),
{
    if moves.len() == 0 {
        0
    } else {
        moves_within(moves.drop_last(), partition, state) + if moves.last().partition == partition
            && moves.last().target == state {
            1nat
        } else {
            0
        }
    }
}

proof fn moves_within_both(
    a: Seq<transition::Move>,
    b: Seq<transition::Move>,
    partition: Seq<char>,
    state: Seq<char>,
)
    ensures
        moves_within(a + b, partition, state) == moves_within(a, partition, state) + moves_within(
            b,
            partition,
            state,
        ),
    decreases b.len(),
{
    if b.len() == 0 {
        assert(a + b =~= a);
    } else {
        assert((a + b).drop_last() =~= a + b.drop_last());
        moves_within_both(a, b.drop_last(), partition, state);
    }
}

proof fn moves_within_one(
    moves: Seq<transition::Move>,
    own: Seq<char>,
    partition: Seq<char>,
    state: Seq<char>,
)
    requires
        forall|i: int| 0 <= i < moves.len() ==> (#[trigger] moves[i]).partition == own,
    ensures
        moves_within(moves, partition, state) == if own == partition {
            moves_to(moves, state)
        } else {
            0
        },
    decreases moves.len(),
{
    if moves.len() > 0 {
        let rest = moves.drop_last();
        assert(moves[moves.len() - 1].partition == own);
        assert forall|i: int| 0 <= i < rest.len() implies (#[trigger] rest[i]).partition == own by {
            assert(rest[i] == moves[i]);
        }
        moves_within_one(rest, own, partition, state);
    }
}

/// Moves of a partition to a state are chosen for that partition only.
pub proof fn chosen_within(
    v: SelectionView,
    partitions: Seq<Seq<char>>,
    partition: Seq<char>,
    state: Seq<char>,
)
    requires
        partitions.no_duplicates(),
    ensures
        moves_within(v.chosen_for(partitions), partition, state) == if partitions.contains(
            partition,
        ) {
            moves_to(v.chosen(partition), state)
        } else {
            0
        },
    decreases partitions.len(),
{
    if partitions.len() > 0 {
        let rest = partitions.drop_last();
        let own = partitions.last();
        let moves = v.chosen(own);
        assert forall|i: int| 0 <= i < moves.len() implies (#[trigger] moves[i]).partition
            == own by {
            let n = v.model.transitions.len() + 1;
            assert(moves.contains(moves[i]));
            taken_from_list(v, own, v.below_priority(own, n), moves[i]);
            considered_members(v, own, n, moves[i]);
        }
        chosen_within(v, rest, partition, state);
        moves_within_both(v.chosen_for(rest), moves, partition, state);
        moves_within_one(moves, own, partition, state);
        assert(partitions[partitions.len() - 1] == own);
        if rest.contains(partition) {
            let i = rest.index_of(partition);
            assert(partitions[i] == partition);
        }
        if partitions.contains(partition) && partition != own {
            let i = partitions.index_of(partition);
            assert(rest[i] == partition);
        }
    }
}

/// The partitions with candidates are listed once each.
pub proof fn partitions_are_listed(v: SelectionView)
    ensures
        ({
            let partitions = ordered::members_in_order::<PartitionId>(v.partitions());
            &&& ordered::enumerates::<PartitionId>(partitions, v.partitions())
            &&& partitions.no_duplicates()
        }),
{
    let names = Seq::new(v.candidates.len(), |i: int| v.candidates[i].partition);
    vstd::seq_lib::seq_to_set_is_finite(names);
    assert(v.partitions() =~= names.to_set()) by {
        assert forall|p: Seq<char>| v.partitions().contains(p) implies #[trigger] names.contains(
            p,
        ) by {
            let i = choose|i: int|
                0 <= i < v.candidates.len() && (#[trigger] v.candidates[i]).partition == p;
            assert(names[i] == p);
        }
        assert forall|p: Seq<char>| #[trigger] names.contains(p) implies v.partitions().contains(
            p,
        ) by {
            let i = names.index_of(p);
            assert(v.candidates[i].partition == p);
        }
    }
    ordered::finite_set_is_enumerated::<PartitionId>(v.partitions());
    let partitions = ordered::members_in_order::<PartitionId>(v.partitions());
    assert forall|i: int, j: int| 0 <= i < j < partitions.len() implies partitions[i]
        != partitions[j] by {
        <PartitionId as Key>::before_irreflexive(partitions[i]);
    }
}

/// Whatever is selected, no partition goes past a bound: its replicas in a
/// bounded state, those on their way, and the selected moves to it fit together.
pub proof fn selected_moves_fit_their_bounds(
    v: SelectionView,
    partition: Seq<char>,
    state: Seq<char>,
)
    requires
        v.bound(state) is Some,
        moves_within(v.selected(), partition, state) > 0,
    ensures
        v.occupied(partition, state) + moves_within(v.selected(), partition, state) <= v.bound(
            state,
        )->0,
{
    partitions_are_listed(v);
    chosen_within(
        v,
        ordered::members_in_order::<PartitionId>(v.partitions()),
        partition,
        state,
    );
    selection_respects_bounds(
        v,
        partition,
        v.below_priority(partition, v.model.transitions.len() + 1),
        state,
    );
}

/// Moves of one partition.
pub open spec fn moving(partition: Seq<char>) -> spec_fn(transition::Move) -> bool {
    |m: transition::Move| m.partition == partition
}

/// Pending transitions of one partition.
pub open spec fn waiting(partition: Seq<char>) -> spec_fn(transition::PendingMove) -> bool {
    |p: transition::PendingMove| p.partition == partition
}

impl SelectionView {
    /// The same selection for one partition alone.
    pub open spec fn alone(self, partition: Seq<char>) -> SelectionView {
        SelectionView {
            candidates: self.candidates.filter(moving(partition)),
            pending: self.pending.filter(waiting(partition)),
            ..self
        }
    }

    /// The partition is placed, or the replica takes its next step to DROPPED.
    pub open spec fn known(
        self,
        partition: Seq<char>,
        source: Seq<char>,
        target: Seq<char>,
    ) -> bool {
        self.lists.dom().contains(partition) || drop_path(
            self.current,
            self.model,
            partition,
            source,
            target,
        )
    }
}

/// Two pending transitions are of the same replica.
pub open spec fn same_replica(a: transition::PendingMove, b: transition::PendingMove) -> bool {
    a.partition == b.partition && a.instance == b.instance
}

/// The candidates are accepted where each is of the resource and of a known
/// partition.
pub proof fn sound_candidates(v: SelectionView, n: nat)
    requires
        n <= v.candidates.len(),
    ensures
        v.candidate_fault(n) is None <==> forall|i: int|
            0 <= i < n ==> (#[trigger] v.candidates[i]).resource == v.resource && v.known(
                v.candidates[i].partition,
                v.candidates[i].source,
                v.candidates[i].target,
            ),
    decreases n,
{
    if n > 0 {
        sound_candidates(v, (n - 1) as nat);
    }
}

/// Every pending transition is of a known partition, and no two are of the same
/// replica.
pub open spec fn sound(v: SelectionView, pending: Seq<transition::PendingMove>) -> bool {
    &&& forall|i: int|
        0 <= i < pending.len() ==> v.known(
            (#[trigger] pending[i]).partition,
            pending[i].source,
            pending[i].target,
        )
    &&& forall|i: int, j: int|
        0 <= i < j < pending.len() ==> !same_replica(#[trigger] pending[i], #[trigger] pending[j])
}

/// The pending transitions are accepted where they are sound.
pub proof fn sound_pending(v: SelectionView, n: nat)
    requires
        n <= v.pending.len(),
    ensures
        v.pending_fault(n) is None <==> sound(v, v.pending.take(n as int)),
    decreases n,
{
    let all = v.pending.take(n as int);
    if n > 0 {
        let m = (n - 1) as nat;
        let rest = v.pending.take(m as int);
        let p = v.pending[m as int];
        sound_pending(v, m);
        assert(all[m as int] == p);
        assert forall|i: int| 0 <= i < m implies #[trigger] rest[i] == all[i] && all[i]
            == v.pending[i] by {}
        if sound(v, all) {
            assert forall|i: int| 0 <= i < rest.len() implies v.known(
                (#[trigger] rest[i]).partition,
                rest[i].source,
                rest[i].target,
            ) by {
                assert(rest[i] == all[i]);
            }
            assert forall|i: int, j: int| 0 <= i < j < rest.len() implies !same_replica(
                #[trigger] rest[i],
                #[trigger] rest[j],
            ) by {
                assert(rest[i] == all[i] && rest[j] == all[j]);
            }
            assert(v.known(all[m as int].partition, p.source, p.target));
            assert forall|j: int| 0 <= j < m implies !((#[trigger] v.pending[j]).partition
                == p.partition && v.pending[j].instance == p.instance) by {
                assert(!same_replica(all[j], all[m as int]));
            }
        }
        if v.pending_fault(n) is None {
            assert forall|i: int| 0 <= i < all.len() implies v.known(
                (#[trigger] all[i]).partition,
                all[i].source,
                all[i].target,
            ) by {
                if i < m {
                    assert(rest[i] == all[i]);
                }
            }
            assert forall|i: int, j: int| 0 <= i < j < all.len() implies !same_replica(
                #[trigger] all[i],
                #[trigger] all[j],
            ) by {
                assert(rest[i] == all[i]);
                if j < m {
                    assert(rest[j] == all[j]);
                } else {
                    assert(all[i] == v.pending[i]);
                }
            }
        }
    }
}

proof fn sound_alone(
    v: SelectionView,
    pending: Seq<transition::PendingMove>,
    partition: Seq<char>,
)
    requires
        sound(v, pending),
    ensures
        sound(v, pending.filter(waiting(partition))),
    decreases pending.len(),
{
    reveal(Seq::filter);
    if pending.len() > 0 {
        let rest = pending.drop_last();
        let x = pending.last();
        assert forall|i: int| 0 <= i < rest.len() implies v.known(
            (#[trigger] rest[i]).partition,
            rest[i].source,
            rest[i].target,
        ) by {
            assert(rest[i] == pending[i]);
        }
        assert forall|i: int, j: int| 0 <= i < j < rest.len() implies !same_replica(
            #[trigger] rest[i],
            #[trigger] rest[j],
        ) by {
            assert(rest[i] == pending[i] && rest[j] == pending[j]);
        }
        sound_alone(v, rest, partition);
        let kept = rest.filter(waiting(partition));
        let all = pending.filter(waiting(partition));
        assert forall|i: int| 0 <= i < all.len() implies v.known(
            (#[trigger] all[i]).partition,
            all[i].source,
            all[i].target,
        ) by {
            if i < kept.len() {
                assert(all[i] == kept[i]);
            } else {
                assert(pending[pending.len() - 1] == x);
            }
        }
        assert forall|i: int, j: int| 0 <= i < j < all.len() implies !same_replica(
            #[trigger] all[i],
            #[trigger] all[j],
        ) by {
            assert(all[i] == kept[i]);
            if j < kept.len() {
                assert(all[j] == kept[j]);
            } else {
                rest.lemma_filter_contains_rev(waiting(partition), kept[i]);
                let k = rest.index_of(kept[i]);
                assert(pending[k] == kept[i]);
                assert(!same_replica(pending[k], pending[pending.len() - 1]));
            }
        }
    }
}

proof fn reserved_alone(
    pending: Seq<transition::PendingMove>,
    partition: Seq<char>,
    state: Seq<char>,
)
    ensures
        reserved_in(pending.filter(waiting(partition)), partition, state) == reserved_in(
            pending,
            partition,
            state,
        ),
    decreases pending.len(),
{
    reveal(Seq::filter);
    if pending.len() > 0 {
        let rest = pending.drop_last();
        reserved_alone(rest, partition, state);
        let kept = rest.filter(waiting(partition));
        assert(kept.push(pending.last()).drop_last() =~= kept);
    }
}

proof fn priority_alone(
    candidates: Seq<transition::Move>,
    model: state_model::StateModelView,
    partition: Seq<char>,
    k: nat,
)
    ensures
        at_priority(candidates.filter(moving(partition)), model, partition, k) == at_priority(
            candidates,
            model,
            partition,
            k,
        ),
    decreases candidates.len(),
{
    reveal(Seq::filter);
    if candidates.len() > 0 {
        let rest = candidates.drop_last();
        priority_alone(rest, model, partition, k);
        let kept = rest.filter(moving(partition));
        assert(kept.push(candidates.last()).drop_last() =~= kept);
    }
}

proof fn considered_alone(v: SelectionView, partition: Seq<char>, k: nat)
    ensures
        v.alone(partition).below_priority(partition, k) == v.below_priority(partition, k),
    decreases k,
{
    if k > 0 {
        considered_alone(v, partition, (k - 1) as nat);
        priority_alone(v.candidates, v.model, partition, (k - 1) as nat);
    }
}

proof fn taken_alone(v: SelectionView, partition: Seq<char>, list: Seq<transition::Move>)
    ensures
        v.alone(partition).taken(partition, list) == v.taken(partition, list),
    decreases list.len(),
{
    if list.len() > 0 {
        taken_alone(v, partition, list.drop_last());
        reserved_alone(v.pending, partition, list.last().target);
    }
}

proof fn chosen_alone(v: SelectionView, partition: Seq<char>)
    ensures
        v.alone(partition).chosen(partition) == v.chosen(partition),
{
    let n = v.model.transitions.len() + 1;
    considered_alone(v, partition, n);
    taken_alone(v, partition, v.below_priority(partition, n));
}

proof fn filter_all(moves: Seq<transition::Move>, own: Seq<char>, partition: Seq<char>)
    requires
        forall|i: int| 0 <= i < moves.len() ==> (#[trigger] moves[i]).partition == own,
    ensures
        moves.filter(moving(partition)) == if own == partition {
            moves
        } else {
            Seq::empty()
        },
    decreases moves.len(),
{
    reveal(Seq::filter);
    if moves.len() > 0 {
        let rest = moves.drop_last();
        assert(moves[moves.len() - 1].partition == own);
        assert forall|i: int| 0 <= i < rest.len() implies (#[trigger] rest[i]).partition == own by {
            assert(rest[i] == moves[i]);
        }
        filter_all(rest, own, partition);
        assert(rest.push(moves.last()) =~= moves);
    } else {
        assert(moves =~= Seq::empty());
    }
}

/// What is chosen of a partition is what is chosen for it.
pub proof fn chosen_of_one(v: SelectionView, partitions: Seq<Seq<char>>, partition: Seq<char>)
    requires
        partitions.no_duplicates(),
    ensures
        v.chosen_for(partitions).filter(moving(partition)) == if partitions.contains(partition) {
            v.chosen(partition)
        } else {
            Seq::empty()
        },
    decreases partitions.len(),
{
    if partitions.len() == 0 {
        reveal(Seq::filter);
    } else {
        let rest = partitions.drop_last();
        let own = partitions.last();
        let moves = v.chosen(own);
        assert forall|i: int| 0 <= i < moves.len() implies (#[trigger] moves[i]).partition
            == own by {
            let n = v.model.transitions.len() + 1;
            assert(moves.contains(moves[i]));
            taken_from_list(v, own, v.below_priority(own, n), moves[i]);
            considered_members(v, own, n, moves[i]);
        }
        chosen_of_one(v, rest, partition);
        Seq::filter_distributes_over_add(v.chosen_for(rest), moves, moving(partition));
        filter_all(moves, own, partition);
        assert(partitions[partitions.len() - 1] == own);
        if rest.contains(partition) {
            assert(partitions[rest.index_of(partition)] == partition);
        }
        if partitions.contains(partition) && partition != own {
            assert(rest[partitions.index_of(partition)] == partition);
        }
        if partition == own {
            assert(Seq::<transition::Move>::empty() + moves =~= moves);
        } else {
            assert(v.chosen_for(rest).filter(moving(partition)) + Seq::empty() =~= v.chosen_for(
                rest,
            ).filter(moving(partition)));
        }
    }
}

/// Partitions are selected independently of each other: a partition on its own
/// has no fault where the whole has none, and what is selected for it on its own
/// is exactly what is selected for it in the whole, in the same order.
pub proof fn partitions_are_selected_independently(v: SelectionView, partition: Seq<char>)
    requires
        v.fault() is None,
    ensures
        v.alone(partition).fault() is None,
        v.alone(partition).selected() == v.selected().filter(moving(partition)),
{
    let one = v.alone(partition);
    sound_candidates(v, v.candidates.len());
    sound_candidates(one, one.candidates.len());
    assert forall|i: int| 0 <= i < one.candidates.len() implies (
    #[trigger] one.candidates[i]).resource == one.resource && one.known(
        one.candidates[i].partition,
        one.candidates[i].source,
        one.candidates[i].target,
    ) by {
        v.candidates.lemma_filter_contains_rev(moving(partition), one.candidates[i]);
        let k = v.candidates.index_of(one.candidates[i]);
        assert(v.candidates[k] == one.candidates[i]);
    }
    sound_pending(v, v.pending.len());
    sound_pending(one, one.pending.len());
    assert(v.pending.take(v.pending.len() as int) =~= v.pending);
    assert(one.pending.take(one.pending.len() as int) =~= one.pending);
    sound_alone(v, v.pending, partition);
    assert(sound(one, one.pending)) by {
        assert forall|i: int| 0 <= i < one.pending.len() implies one.known(
            (#[trigger] one.pending[i]).partition,
            one.pending[i].source,
            one.pending[i].target,
        ) by {
            assert(v.known(
                one.pending[i].partition,
                one.pending[i].source,
                one.pending[i].target,
            ));
        }
    }
    partitions_are_listed(v);
    partitions_are_listed(one);
    let all = ordered::members_in_order::<PartitionId>(v.partitions());
    let own = ordered::members_in_order::<PartitionId>(one.partitions());
    chosen_of_one(v, all, partition);
    chosen_alone(v, partition);
    assert forall|p: Seq<char>| #[trigger] one.partitions().contains(p) implies p == partition
        && v.partitions().contains(p) by {
        let i = choose|i: int|
            0 <= i < one.candidates.len() && (#[trigger] one.candidates[i]).partition == p;
        v.candidates.lemma_filter_contains_rev(moving(partition), one.candidates[i]);
        v.candidates.lemma_filter_pred(moving(partition), i);
        let k = v.candidates.index_of(one.candidates[i]);
        assert(v.candidates[k].partition == p);
    }
    if v.partitions().contains(partition) {
        let k = choose|k: int|
            0 <= k < v.candidates.len() && (#[trigger] v.candidates[k]).partition == partition;
        v.candidates.lemma_filter_contains(moving(partition), k);
        let i = one.candidates.index_of(v.candidates[k]);
        assert(one.candidates[i].partition == partition);
        assert(one.partitions().contains(partition));
        assert(own.contains(partition));
        assert(own.len() == 1) by {
            if own.len() > 1 {
                assert(one.partitions().contains(own[0]));
                assert(one.partitions().contains(own[1]));
            }
        }
        assert(own[0] == partition);
        assert(own.drop_last() =~= Seq::empty());
        assert(one.chosen_for(own.drop_last()) =~= Seq::empty());
        assert(one.selected() =~= one.chosen(partition));
        assert(all.contains(partition));
    } else {
        if own.len() > 0 {
            assert(one.partitions().contains(own[0]));
        }
        if all.contains(partition) {
            assert(v.partitions().contains(all[all.index_of(partition)]));
        }
        assert(one.selected() =~= Seq::empty());
    }
}

/// Two different moves count twice.
pub proof fn different_moves_count_twice(
    moves: Seq<transition::Move>,
    a: transition::Move,
    b: transition::Move,
)
    requires
        moves.contains(a),
        a.partition == b.partition,
        a.target == b.target,
    ensures
        moves_within(moves, a.partition, a.target) >= 1,
        moves.contains(b) && a != b ==> moves_within(moves, a.partition, a.target) >= 2,
    decreases moves.len(),
{
    let rest = moves.drop_last();
    let last = moves.last();
    if a != last {
        assert(rest[moves.index_of(a)] == a);
        different_moves_count_twice(rest, a, b);
        if moves.contains(b) && b != last {
            assert(rest[moves.index_of(b)] == b);
        }
    } else if moves.contains(b) && a != b {
        assert(rest[moves.index_of(b)] == b);
        different_moves_count_twice(rest, b, a);
    }
}

/// A candidate for an unbounded state is always taken.
pub proof fn unbounded_candidates_are_taken(
    v: SelectionView,
    partition: Seq<char>,
    list: Seq<transition::Move>,
    m: transition::Move,
)
    requires
        list.contains(m),
        v.bound(m.target) is None,
    ensures
        v.taken(partition, list).contains(m),
    decreases list.len(),
{
    let before = v.taken(partition, list.drop_last());
    let t = v.taken(partition, list);
    if list.last() == m {
        assert(t[before.len() as int] == m);
    } else {
        let i = list.index_of(m);
        assert(list.drop_last()[i] == m);
        unbounded_candidates_are_taken(v, partition, list.drop_last(), m);
        assert(t[before.index_of(m)] == m);
    }
}

/// Why nothing can be selected.
pub enum SelectionFault {
    CandidateResourceMismatch { expected: Seq<char>, actual: Seq<char> },
    UnknownCandidatePartition(Seq<char>),
    UnknownPendingPartition(Seq<char>),
    DuplicatePendingTransition { partition: Seq<char>, instance: Seq<char> },
}

/// Errors for malformed input to message selection.
#[derive(Clone, Debug, PartialEq, Eq)]
pub enum MessageSelectionError {
    CandidateResourceMismatch { expected: ResourceId, actual: ResourceId },
    UnknownCandidatePartition(PartitionId),
    UnknownPendingPartition(PartitionId),
    DuplicatePendingTransition { partition: PartitionId, instance: InstanceId },
}

impl View for MessageSelectionError {
    type V = SelectionFault;

    open spec fn view(&self) -> SelectionFault {
        match self {
            MessageSelectionError::CandidateResourceMismatch {
                expected,
                actual,
            } => SelectionFault::CandidateResourceMismatch { expected: expected@, actual: actual@ },
            MessageSelectionError::UnknownCandidatePartition(
                partition,
            ) => SelectionFault::UnknownCandidatePartition(partition@),
            MessageSelectionError::UnknownPendingPartition(
                partition,
            ) => SelectionFault::UnknownPendingPartition(partition@),
            MessageSelectionError::DuplicatePendingTransition {
                partition,
                instance,
            } => SelectionFault::DuplicatePendingTransition {
                partition: partition@,
                instance: instance@,
            },
        }
    }
}

impl SelectionFault {
    /// The operator-facing message.
    pub open spec fn text(self) -> Seq<char> {
        match self {
            SelectionFault::CandidateResourceMismatch {
                expected,
                actual,
            } => "candidate transition belongs to resource "@ + actual + ", expected "@ + expected,
            SelectionFault::UnknownCandidatePartition(
                partition,
            ) => "candidate transition references unknown partition "@ + partition,
            SelectionFault::UnknownPendingPartition(
                partition,
            ) => "pending transition references unknown partition "@ + partition,
            SelectionFault::DuplicatePendingTransition {
                partition,
                instance,
            } => "duplicate pending transition for partition "@ + partition + " and instance "@
                + instance,
        }
    }
}

impl MessageSelectionError {
    /// Return the operator-facing message.
    pub fn to_string(&self) -> (r: String)
        ensures
            r@ == self@.text(),
    {
        match self {
            MessageSelectionError::CandidateResourceMismatch {
                expected,
                actual,
            } => "candidate transition belongs to resource ".to_owned().concat(
                actual.as_str(),
            ).concat(", expected ").concat(expected.as_str()),
            MessageSelectionError::UnknownCandidatePartition(
                partition,
            ) => "candidate transition references unknown partition ".to_owned().concat(
                partition.as_str(),
            ),
            MessageSelectionError::UnknownPendingPartition(
                partition,
            ) => "pending transition references unknown partition ".to_owned().concat(
                partition.as_str(),
            ),
            MessageSelectionError::DuplicatePendingTransition {
                partition,
                instance,
            } => "duplicate pending transition for partition ".to_owned().concat(
                partition.as_str(),
            ).concat(" and instance ").concat(instance.as_str()),
        }
    }
}

/// Whether a replica of an observed partition takes its next step to DROPPED.
pub fn is_drop_path(
    partition: &PartitionId,
    source: &State,
    target: &State,
    current: &CurrentState,
    state_model: &StateModelDefinition,
) -> (r: bool)
    ensures
        r == drop_path(current@, state_model@, partition@, source@, target@),
{
    proof {
        reveal_strlit("DROPPED");
    }
    let dropped = State::new("DROPPED").unwrap();
    if !current.entries().contains_key(partition) {
        return false;
    }
    match state_model.next_state_toward(source, &dropped) {
        Some(next) => next.same(target),
        None => false,
    }
}

/// The bound on `state`, where it has one.
fn state_bound(state_model: &StateModelDefinition, live: usize, state: &State) -> (r: Option<usize>)
    ensures
        r == match state_model@.cardinality(state@) {
            Some(StateCardinality::Exact(n)) => Some(n as usize),
            Some(StateCardinality::NodeCount) => Some(live),
            _ => None,
        },
{
    match state_model.cardinality_for(state) {
        Some(StateCardinality::Exact(value)) => Some(value as usize),
        Some(StateCardinality::NodeCount) => Some(live),
        _ => None,
    }
}

/// The replicas of `partition` that are in `state` or on their way from or to
/// it, up to the largest count that fits.
fn count_occupied(
    current: &CurrentState,
    live_instances: &OrderedSet<InstanceId>,
    pending: &Vec<PendingTransition>,
    state_model: &StateModelDefinition,
    partition: &PartitionId,
    state: &State,
) -> (c: usize)
    ensures
        c == lists::capped(
            live_in(
                live_instances.listing(),
                current@,
                partition@,
                state_model@.initial,
                state@,
            ) + reserved_in(pending.deep_view(), partition@, state@),
        ),
{
    let n: usize = live_instances.len();
    let ghost live = live_instances.listing();
    let ghost queue = pending.deep_view();
    let mut c: usize = 0;
    let mut i: usize = 0;
    assert(live.take(0) =~= Seq::empty());
    while i < n
        invariant
            i <= n,
            n == live.len(),
            live == live_instances.listing(),
            c == lists::capped(
                live_in(
                    live.take(i as int),
                    current@,
                    partition@,
                    state_model@.initial,
                    state@,
                ),
            ),
        decreases n - i,
    {
        let ghost count = live_in(
            live.take(i as int),
            current@,
            partition@,
            state_model@.initial,
            state@,
        );
        proof {
            assert(live.take(i + 1).drop_last() =~= live.take(i as int));
            assert(live.take(i + 1).last() == live[i as int]);
        }
        let here = match current.state(partition, live_instances.at(i)) {
            Some(s) => s,
            None => state_model.initial_state(),
        };
        if here.same(state) {
            c = bump(c, Ghost(count));
        }
        i = i + 1;
    }
    assert(live.take(n as int) =~= live);
    let ghost base = live_in(live, current@, partition@, state_model@.initial, state@);
    let mut j: usize = 0;
    assert(queue.take(0) =~= Seq::empty());
    while j < pending.len()
        invariant
            j <= pending@.len(),
            queue == pending.deep_view(),
            c == lists::capped(base + reserved_in(queue.take(j as int), partition@, state@)),
        decreases pending@.len() - j,
    {
        let ghost mut count = base + reserved_in(queue.take(j as int), partition@, state@);
        proof {
            assert(queue.take(j + 1).drop_last() =~= queue.take(j as int));
            assert(queue.take(j + 1).last() == pending[j as int]@);
        }
        if pending[j].partition().same(partition) {
            if pending[j].target_state().same(state) {
                c = bump(c, Ghost(count));
                proof {
                    count = count + 1;
                }
            }
            if pending[j].source_state().same(state) {
                c = bump(c, Ghost(count));
            }
        }
        j = j + 1;
    }
    assert(queue.take(pending@.len() as int) =~= queue);
    c
}

/// The count `c` and the moves that lead to `state`, up to the largest count
/// that fits.
fn count_moves_to(
    c: usize,
    Ghost(base): Ghost<nat>,
    taken: &Vec<TransitionRequest>,
    state: &State,
) -> (r: usize)
    requires
        c == lists::capped(base),
    ensures
        r == lists::capped(base + moves_to(taken.deep_view(), state@)),
{
    let ghost all = taken.deep_view();
    let mut r: usize = c;
    let mut i: usize = 0;
    assert(all.take(0) =~= Seq::empty());
    while i < taken.len()
        invariant
            i <= taken@.len(),
            all == taken.deep_view(),
            r == lists::capped(base + moves_to(all.take(i as int), state@)),
        decreases taken@.len() - i,
    {
        let ghost count = base + moves_to(all.take(i as int), state@);
        proof {
            assert(all.take(i + 1).drop_last() =~= all.take(i as int));
            assert(all.take(i + 1).last() == taken[i as int]@);
        }
        if taken[i].target_state().same(state) {
            r = bump(r, Ghost(count));
        }
        i = i + 1;
    }
    assert(all.take(taken@.len() as int) =~= all);
    r
}

/// The priority of the transition that a candidate asks for: its position
/// among the transitions of the model, or their number where it is none.
fn transition_priority(state_model: &StateModelDefinition, candidate: &TransitionRequest) -> (r:
    usize)
    ensures
        r == lists::first_index(
            state_model@.transitions,
            (candidate@.source, candidate@.target),
        ),
        r <= state_model@.transitions.len(),
{
    let transitions = state_model.transitions_in_priority_order();
    let ghost all = transitions.deep_view();
    let ghost wanted = (candidate@.source, candidate@.target);
    let mut i: usize = 0;
    assert(all.take(0) =~= Seq::empty());
    while i < transitions.len()
        invariant
            i <= transitions@.len(),
            all == transitions.deep_view(),
            all == state_model@.transitions,
            wanted == (candidate@.source, candidate@.target),
            lists::first_index(all.take(i as int), wanted) == i,
        decreases transitions@.len() - i,
    {
        proof {
            assert(all.take(i + 1).drop_last() =~= all.take(i as int));
            assert(all.take(i + 1).last() == transitions[i as int]@);
        }
        if transitions[i].source().same(candidate.source_state())
            && transitions[i].target().same(candidate.target_state()) {
            proof {
                lists::first_index_prefix(all, wanted, i + 1);
            }
            return i;
        }
        i = i + 1;
    }
    assert(all.take(transitions@.len() as int) =~= all);
    i
}

spec fn view_of(
    resource: &ResourceId,
    ideal_state: &IdealState,
    current: &CurrentState,
    live_instances: &OrderedSet<InstanceId>,
    candidates: &Vec<TransitionRequest>,
    pending: &Vec<PendingTransition>,
    state_model: &StateModelDefinition,
) -> SelectionView {
    SelectionView {
        resource: resource@,
        lists: ideal_state@.lists,
        current: current@,
        live: live_instances@,
        candidates: candidates.deep_view(),
        pending: pending.deep_view(),
        model: state_model@,
    }
}

fn check_candidates(
    resource: &ResourceId,
    ideal_state: &IdealState,
    current: &CurrentState,
    candidates: &Vec<TransitionRequest>,
    state_model: &StateModelDefinition,
    Ghost(v): Ghost<SelectionView>,
) -> (r: Result<OrderedSet<PartitionId>, MessageSelectionError>)
    requires
        v.resource == resource@,
        v.lists == ideal_state@.lists,
        v.current == current@,
        v.candidates == candidates.deep_view(),
        v.model == state_model@,
    ensures
        match r {
            Ok(partitions) => v.candidate_fault(v.candidates.len()) is None && partitions@
                == v.partitions(),
            Err(error) => v.candidate_fault(v.candidates.len()) == Some(error@),
        },
{
    let mut partitions: OrderedSet<PartitionId> = OrderedSet::new();
    let mut i: usize = 0;
    while i < candidates.len()
        invariant
            i <= candidates@.len(),
            v.resource == resource@,
            v.lists == ideal_state@.lists,
            v.current == current@,
            v.candidates == candidates.deep_view(),
            v.model == state_model@,
            v.candidate_fault(i as nat) is None,
            forall|p: Seq<char>| #[trigger]
                partitions@.contains(p) ==> exists|j: int|
                    0 <= j < i && (#[trigger] v.candidates[j]).partition == p,
            forall|j: int| 0 <= j < i ==> partitions@.contains((#[trigger] v.candidates[j]).partition),
        decreases candidates@.len() - i,
    {
        let candidate = &candidates[i];
        let ghost before = partitions@;
        assert(candidate@ == v.candidates[i as int]);
        if !candidate.resource().same(resource) {
            proof {
                assert(v.candidate_fault((i + 1) as nat) is Some);
                candidate_fault_prefix(v, (i + 1) as nat, v.candidates.len());
            }
            return Err(
                MessageSelectionError::CandidateResourceMismatch {
                    expected: resource.duplicate(),
                    actual: candidate.resource().duplicate(),
                },
            );
        }
        if ideal_state.preference_list(candidate.partition()).is_none() && !is_drop_path(
            candidate.partition(),
            candidate.source_state(),
            candidate.target_state(),
            current,
            state_model,
        ) {
            proof {
                assert(v.candidate_fault((i + 1) as nat) is Some);
                candidate_fault_prefix(v, (i + 1) as nat, v.candidates.len());
            }
            return Err(
                MessageSelectionError::UnknownCandidatePartition(candidate.partition().duplicate()),
            );
        }
        partitions.insert(candidate.partition().duplicate());
        proof {
            assert forall|p: Seq<char>| #[trigger] partitions@.contains(p) implies exists|j: int|
                0 <= j < i + 1 && (#[trigger] v.candidates[j]).partition == p by {
                if before.contains(p) {
                    let j = choose|j: int| 0 <= j < i && (#[trigger] v.candidates[j]).partition == p;
                    assert(v.candidates[j].partition == p);
                } else {
                    assert(v.candidates[i as int].partition == p);
                }
            }
        }
        i = i + 1;
    }
    assert(partitions@ =~= v.partitions());
    Ok(partitions)
}

proof fn candidate_fault_prefix(v: SelectionView, i: nat, n: nat)
    requires
        i <= n,
        v.candidate_fault(i) is Some,
    ensures
        v.candidate_fault(n) == v.candidate_fault(i),
    decreases n,
{
    if i < n {
        candidate_fault_prefix(v, i, (n - 1) as nat);
    }
}

proof fn pending_fault_prefix(v: SelectionView, i: nat, n: nat)
    requires
        i <= n,
        v.pending_fault(i) is Some,
    ensures
        v.pending_fault(n) == v.pending_fault(i),
    decreases n,
{
    if i < n {
        pending_fault_prefix(v, i, (n - 1) as nat);
    }
}

fn check_pending(
    ideal_state: &IdealState,
    current: &CurrentState,
    pending: &Vec<PendingTransition>,
    state_model: &StateModelDefinition,
    Ghost(v): Ghost<SelectionView>,
) -> (r: Result<(), MessageSelectionError>)
    requires
        v.lists == ideal_state@.lists,
        v.current == current@,
        v.pending == pending.deep_view(),
        v.model == state_model@,
    ensures
        match r {
            Ok(()) => v.pending_fault(v.pending.len()) is None,
            Err(error) => v.pending_fault(v.pending.len()) == Some(error@),
        },
{
    let mut i: usize = 0;
    while i < pending.len()
        invariant
            i <= pending@.len(),
            v.lists == ideal_state@.lists,
            v.current == current@,
            v.pending == pending.deep_view(),
            v.model == state_model@,
            v.pending_fault(i as nat) is None,
        decreases pending@.len() - i,
    {
        let transition = &pending[i];
        assert(transition@ == v.pending[i as int]);
        if ideal_state.preference_list(transition.partition()).is_none() && !is_drop_path(
            transition.partition(),
            transition.source_state(),
            transition.target_state(),
            current,
            state_model,
        ) {
            proof {
                assert(v.pending_fault((i + 1) as nat) is Some);
                pending_fault_prefix(v, (i + 1) as nat, v.pending.len());
            }
            return Err(
                MessageSelectionError::UnknownPendingPartition(transition.partition().duplicate()),
            );
        }
        let mut j: usize = 0;
        while j < i
            invariant
                j <= i < pending@.len(),
                transition@ == v.pending[i as int],
                v.lists == ideal_state@.lists,
                v.current == current@,
                v.pending == pending.deep_view(),
                v.model == state_model@,
                v.pending_fault(i as nat) is None,
                v.lists.dom().contains(transition@.partition) || drop_path(
                    v.current,
                    v.model,
                    transition@.partition,
                    transition@.source,
                    transition@.target,
                ),
                forall|k: int|
                    0 <= k < j ==> !((#[trigger] v.pending[k]).partition == transition@.partition
                        && v.pending[k].instance == transition@.instance),
            decreases i - j,
        {
            assert(pending[j as int]@ == v.pending[j as int]);
            if pending[j].partition().same(transition.partition()) && pending[j].instance().same(
                transition.instance(),
            ) {
                proof {
                    assert(v.pending_fault((i + 1) as nat) is Some);
                    pending_fault_prefix(v, (i + 1) as nat, v.pending.len());
                }
                return Err(
                    MessageSelectionError::DuplicatePendingTransition {
                        partition: transition.partition().duplicate(),
                        instance: transition.instance().duplicate(),
                    },
                );
            }
            j = j + 1;
        }
        i = i + 1;
    }
    Ok(())
}

/// Take the candidates of one partition, by transition priority, as long as
/// they fit.
fn choose_for_partition(
    current: &CurrentState,
    live_instances: &OrderedSet<InstanceId>,
    candidates: &Vec<TransitionRequest>,
    pending: &Vec<PendingTransition>,
    state_model: &StateModelDefinition,
    partition: &PartitionId,
    Ghost(v): Ghost<SelectionView>,
) -> (r: Vec<TransitionRequest>)
    requires
        v.current == current@,
        v.live == live_instances@,
        v.candidates == candidates.deep_view(),
        v.pending == pending.deep_view(),
        v.model == state_model@,
    ensures
        r.deep_view() == v.chosen(partition@),
{
    let live: usize = live_instances.len();
    let levels: usize = state_model.transitions_in_priority_order().len();
    let mut taken: Vec<TransitionRequest> = Vec::new();
    let mut k: usize = 0;
    let mut done = false;
    assert(taken.deep_view() =~= Seq::empty());
    while !done
        invariant
            k <= levels,
            levels == v.model.transitions.len(),
            live == ordered::members_in_order::<InstanceId>(v.live).len(),
            v.current == current@,
            v.live == live_instances@,
            v.candidates == candidates.deep_view(),
            v.pending == pending.deep_view(),
            v.model == state_model@,
            !done ==> taken.deep_view() == v.taken(
                partition@,
                v.below_priority(partition@, k as nat),
            ),
            done ==> taken.deep_view() == v.chosen(partition@),
        decreases (levels - k) + if done { 0int } else { 1int },
    {
        let ghost below = v.below_priority(partition@, k as nat);
        let mut i: usize = 0;
        proof {
            assert(v.candidates.take(0) =~= Seq::empty());
            assert(below + at_priority(v.candidates.take(0), v.model, partition@, k as nat)
                =~= below);
        }
        while i < candidates.len()
            invariant
                i <= candidates@.len(),
                k <= levels,
                levels == v.model.transitions.len(),
                live == ordered::members_in_order::<InstanceId>(v.live).len(),
                v.current == current@,
                v.live == live_instances@,
                v.candidates == candidates.deep_view(),
                v.pending == pending.deep_view(),
                v.model == state_model@,
                below == v.below_priority(partition@, k as nat),
                taken.deep_view() == v.taken(
                    partition@,
                    below + at_priority(
                        v.candidates.take(i as int),
                        v.model,
                        partition@,
                        k as nat,
                    ),
                ),
            decreases candidates@.len() - i,
        {
            let ghost before = at_priority(
                v.candidates.take(i as int),
                v.model,
                partition@,
                k as nat,
            );
            let candidate = &candidates[i];
            proof {
                assert(v.candidates.take(i + 1).drop_last() =~= v.candidates.take(i as int));
                assert(v.candidates.take(i + 1).last() == candidate@);
            }
            if candidate.partition().same(partition) && transition_priority(state_model, candidate)
                == k {
                let ghost list = below + before.push(candidate@);
                let ghost so_far = taken.deep_view();
                proof {
                    assert(list.drop_last() =~= below + before);
                    assert(list.last() == candidate@);
                }
                let allowed = match state_bound(state_model, live, candidate.target_state()) {
                    Some(bound) => {
                        let base: usize = count_occupied(
                            current,
                            live_instances,
                            pending,
                            state_model,
                            partition,
                            candidate.target_state(),
                        );
                        let total: usize = count_moves_to(
                            base,
                            Ghost(v.occupied(partition@, candidate@.target)),
                            &taken,
                            candidate.target_state(),
                        );
                        total < bound
                    },
                    None => true,
                };
                assert(allowed == v.fits(partition@, so_far, candidate@));
                if allowed {
                    taken.push(candidate.duplicate());
                    assert(taken.deep_view() =~= so_far.push(candidate@));
                }
            }
            i = i + 1;
        }
        proof {
            assert(v.candidates.take(candidates@.len() as int) =~= v.candidates);
            assert(taken.deep_view() == v.taken(
                partition@,
                v.below_priority(partition@, (k + 1) as nat),
            ));
        }
        if k == levels {
            done = true;
        } else {
            k = k + 1;
        }
    }
    taken
}

/// Select the state transitions that fit the state-model cardinality bounds.
///
/// Live current states and pending transition endpoints are counted,
/// candidates are grouped by the transition priority of the model, and
/// candidates are greedily accepted without exceeding a constrained
/// destination-state bound.
pub fn select_transitions(
    resource: &ResourceId,
    ideal_state: &IdealState,
    current: &CurrentState,
    live_instances: &OrderedSet<InstanceId>,
    candidates: &Vec<TransitionRequest>,
    pending: &Vec<PendingTransition>,
    state_model: &StateModelDefinition,
) -> (r: Result<Vec<TransitionRequest>, MessageSelectionError>)
    ensures
        ({
            let v = SelectionView {
                resource: resource@,
                lists: ideal_state@.lists,
                current: current@,
                live: live_instances@,
                candidates: candidates.deep_view(),
                pending: pending.deep_view(),
                model: state_model@,
            };
            match r {
                Ok(selected) => v.fault() is None && selected.deep_view() == v.selected(),
                Err(error) => v.fault() == Some(error@),
            }
        }),
{
    let ghost v = view_of(
        resource,
        ideal_state,
        current,
        live_instances,
        candidates,
        pending,
        state_model,
    );
    let partitions = match check_candidates(
        resource,
        ideal_state,
        current,
        candidates,
        state_model,
        Ghost(v),
    ) {
        Ok(partitions) => partitions,
        Err(error) => {
            return Err(error);
        },
    };
    match check_pending(ideal_state, current, pending, state_model, Ghost(v)) {
        Ok(()) => {},
        Err(error) => {
            return Err(error);
        },
    }
    let n: usize = partitions.len();
    let ghost all = partitions.listing();
    let mut selected: Vec<TransitionRequest> = Vec::new();
    let mut i: usize = 0;
    assert(all.take(0) =~= Seq::empty());
    assert(selected.deep_view() =~= Seq::empty());
    while i < n
        invariant
            i <= n,
            n == all.len(),
            all == partitions.listing(),
            v == view_of(
                resource,
                ideal_state,
                current,
                live_instances,
                candidates,
                pending,
                state_model,
            ),
            selected.deep_view() == v.chosen_for(all.take(i as int)),
        decreases n - i,
    {
        let ghost before = selected.deep_view();
        let partition = partitions.at(i);
        let mut chosen = choose_for_partition(
            current,
            live_instances,
            candidates,
            pending,
            state_model,
            partition,
            Ghost(v),
        );
        let ghost more = chosen.deep_view();
        selected.append(&mut chosen);
        proof {
            assert(all.take(i + 1).drop_last() =~= all.take(i as int));
            assert(all.take(i + 1).last() == partition@);
            assert(selected.deep_view() =~= before + more);
        }
        i = i + 1;
    }
    assert(all.take(n as int) =~= all);
    Ok(selected)
}

} // verus!
