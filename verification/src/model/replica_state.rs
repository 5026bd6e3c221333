//! States of replicas by partition and instance.
use crate::model::identity::{InstanceId, PartitionId};
use crate::model::state::State;
use crate::ordered;
use crate::ordered::{Duplicate, Key, OrderedMap};
use crate::text;
use vstd::prelude::*;
use vstd::string::*;

verus! {

/// The state of each instance of each partition.
pub type Replicas = Map<Seq<char>, Map<Seq<char>, Seq<char>>>;

/// The states of the instances of a partition.
pub open spec fn instances_of(m: Replicas, partition: Seq<char>) -> Map<Seq<char>, Seq<char>> {
    if m.dom().contains(partition) {
        m[partition]
    } else {
        Map::empty()
    }
}

/// The state of one replica.
pub open spec fn state_of(m: Replicas, partition: Seq<char>, instance: Seq<char>) -> Option<
    Seq<char>,
> {
    if m.dom().contains(partition) && m[partition].dom().contains(instance) {
        Some(m[partition][instance])
    } else {
        None
    }
}

/// `m` with one replica in `state`.
pub open spec fn placed(
    m: Replicas,
    partition: Seq<char>,
    instance: Seq<char>,
    state: Seq<char>,
) -> Replicas {
    m.insert(partition, instances_of(m, partition).insert(instance, state))
}

/// Placing a replica changes that replica alone.
pub proof fn placing_changes_one_replica(
    m: Replicas,
    partition: Seq<char>,
    instance: Seq<char>,
    state: Seq<char>,
    p: Seq<char>,
    i: Seq<char>,
)
    ensures
        state_of(placed(m, partition, instance, state), p, i) == if p == partition && i
            == instance {
            Some(state)
        } else {
            state_of(m, p, i)
        },
{
}

/// The replicas of one partition by instance.
pub open spec fn row_cells(partition: Seq<char>, row: Map<Seq<char>, Seq<char>>) -> Seq<
    (Seq<char>, Seq<char>, Seq<char>),
> {
    let listing = ordered::in_order::<InstanceId, Seq<char>>(row);
    Seq::new(listing.len(), |i: int| (partition, listing[i].0, listing[i].1))
}

/// The replicas of the listed partitions.
pub open spec fn cells_of(rows: Seq<(Seq<char>, Map<Seq<char>, Seq<char>>)>) -> Seq<
    (Seq<char>, Seq<char>, Seq<char>),
>
    decreases rows.len(),
{
    if rows.len() == 0 {
        Seq::empty()
    } else {
        cells_of(rows.drop_last()) + row_cells(rows.last().0, rows.last().1)
    }
}

/// Every replica with its state, by partition and then by instance.
pub open spec fn cells(m: Replicas) -> Seq<(Seq<char>, Seq<char>, Seq<char>)> {
    cells_of(ordered::in_order::<PartitionId, Map<Seq<char>, Seq<char>>>(m))
}

/// One replica with its state.
#[derive(Debug, PartialEq, Eq)]
pub struct ReplicaCell {
    pub partition: PartitionId,
    pub instance: InstanceId,
    pub state: State,
}

impl DeepView for ReplicaCell {
    type V = (Seq<char>, Seq<char>, Seq<char>);

    open spec fn deep_view(&self) -> (Seq<char>, Seq<char>, Seq<char>) {
        (self.partition@, self.instance@, self.state@)
    }
}

/// `all` names exactly the replicas of `m` with their states.
pub open spec fn covers(
    all: Seq<(Seq<char>, Seq<char>, Seq<char>)>,
    m: Replicas,
) -> bool {
    &&& forall|k: int|
        0 <= k < all.len() ==> state_of(m, (#[trigger] all[k]).0, all[k].1) == Some(all[k].2)
    &&& forall|p: Seq<char>, i: Seq<char>|
        (#[trigger] state_of(m, p, i)) is Some ==> all.contains((p, i, state_of(m, p, i)->0))
}

/// There are finitely many replicas.
pub open spec fn finite(m: Replicas) -> bool {
    m.dom().finite() && forall|p: Seq<char>| #[trigger]
        m.dom().contains(p) ==> m[p].dom().finite()
}

/// One replica is listed before another.
pub open spec fn listed_before(
    a: (Seq<char>, Seq<char>, Seq<char>),
    b: (Seq<char>, Seq<char>, Seq<char>),
) -> bool {
    text::text_before(a.0, b.0) || (a.0 == b.0 && text::text_before(a.1, b.1))
}

proof fn cells_of_listed(m: Replicas, rows: Seq<(Seq<char>, Map<Seq<char>, Seq<char>>)>, n: int)
    requires
        finite(m),
        ordered::lists::<PartitionId, Map<Seq<char>, Seq<char>>>(rows, m),
        0 <= n <= rows.len(),
    ensures
        ({
            let all = cells_of(rows.take(n));
            &&& forall|k: int|
                0 <= k < all.len() ==> exists|a: int|
                    0 <= a < n && (#[trigger] rows[a]).0 == (#[trigger] all[k]).0
                        && rows[a].1.dom().contains(all[k].1) && rows[a].1[all[k].1] == all[k].2
            &&& forall|a: int, q: Seq<char>|
                #![trigger rows[a].1.dom().contains(q)]
                0 <= a < n && rows[a].1.dom().contains(q) ==> all.contains(
                    (rows[a].0, q, rows[a].1[q]),
                )
            &&& forall|j: int, k: int|
                0 <= j < k < all.len() ==> listed_before(#[trigger] all[j], #[trigger] all[k])
        }),
    decreases n,
{
    if n > 0 {
        cells_of_listed(m, rows, n - 1);
        let before = cells_of(rows.take(n - 1));
        let row = rows[n - 1];
        let added = row_cells(row.0, row.1);
        let listing = ordered::in_order::<InstanceId, Seq<char>>(row.1);
        assert(rows.take(n).drop_last() =~= rows.take(n - 1));
        assert(rows.take(n).last() == row);
        let all = before + added;
        ordered::map_of_at::<PartitionId, Map<Seq<char>, Seq<char>>>(rows, n - 1);
        assert(m.dom().contains(row.0));
        ordered::finite_map_is_listed::<InstanceId, Seq<char>>(row.1);
        assert forall|k: int| 0 <= k < all.len() implies exists|a: int|
            0 <= a < n && (#[trigger] rows[a]).0 == (#[trigger] all[k]).0
                && rows[a].1.dom().contains(all[k].1) && rows[a].1[all[k].1] == all[k].2 by {
            if k < before.len() {
                assert(all[k] == before[k]);
            } else {
                let c = k - before.len();
                assert(all[k] == added[c]);
                ordered::map_of_at::<InstanceId, Seq<char>>(listing, c);
                assert(rows[n - 1].0 == all[k].0);
            }
        }
        assert forall|a: int, q: Seq<char>|
            #![trigger rows[a].1.dom().contains(q)]
            0 <= a < n && rows[a].1.dom().contains(q) implies all.contains(
            (rows[a].0, q, rows[a].1[q]),
        ) by {
            let cell = (rows[a].0, q, rows[a].1[q]);
            if a < n - 1 {
                assert(all[before.index_of(cell)] == cell);
            } else {
                let c = ordered::map_of_position(listing, q);
                assert(all[before.len() + c] == cell);
            }
        }
        assert forall|j: int, k: int| 0 <= j < k < all.len() implies listed_before(
            #[trigger] all[j],
            #[trigger] all[k],
        ) by {
            if k < before.len() {
                assert(all[j] == before[j] && all[k] == before[k]);
            } else if j < before.len() {
                assert(all[j] == before[j]);
                let a = choose|a: int|
                    0 <= a < n - 1 && (#[trigger] rows[a]).0 == before[j].0
                        && rows[a].1.dom().contains(before[j].1) && rows[a].1[before[j].1]
                        == before[j].2;
                assert(all[k] == added[k - before.len()]);
                assert(<PartitionId as Key>::before(rows[a].0, rows[n - 1].0));
            } else {
                let c = j - before.len();
                let d = k - before.len();
                assert(all[j] == added[c] && all[k] == added[d]);
                assert(<InstanceId as Key>::before(listing[c].0, listing[d].0));
            }
        }
    }
}

/// The list of replicas names every replica with its state and nothing else, by
/// partition and then by instance, and none of them twice.
pub proof fn every_replica_is_listed(m: Replicas)
    requires
        finite(m),
    ensures
        forall|k: int|
            0 <= k < cells(m).len() ==> m.dom().contains((#[trigger] cells(m)[k]).0)
                && m[cells(m)[k].0].dom().contains(cells(m)[k].1)
                && m[cells(m)[k].0][cells(m)[k].1] == cells(m)[k].2,
        forall|p: Seq<char>, i: Seq<char>|
            #![trigger m[p].dom().contains(i)]
            m.dom().contains(p) && m[p].dom().contains(i) ==> cells(m).contains((p, i, m[p][i])),
        forall|j: int, k: int|
            0 <= j < k < cells(m).len() ==> listed_before(
                #[trigger] cells(m)[j],
                #[trigger] cells(m)[k],
            ),
{
    let rows = ordered::in_order::<PartitionId, Map<Seq<char>, Seq<char>>>(m);
    ordered::finite_map_is_listed::<PartitionId, Map<Seq<char>, Seq<char>>>(m);
    cells_of_listed(m, rows, rows.len() as int);
    assert(rows.take(rows.len() as int) =~= rows);
    let all = cells(m);
    assert forall|k: int| 0 <= k < all.len() implies m.dom().contains((#[trigger] all[k]).0)
        && m[all[k].0].dom().contains(all[k].1) && m[all[k].0][all[k].1] == all[k].2 by {
        let a = choose|a: int|
            0 <= a < rows.len() && (#[trigger] rows[a]).0 == all[k].0 && rows[a].1.dom().contains(
                all[k].1,
            ) && rows[a].1[all[k].1] == all[k].2;
        ordered::map_of_at::<PartitionId, Map<Seq<char>, Seq<char>>>(rows, a);
    }
    assert forall|p: Seq<char>, i: Seq<char>|
        #![trigger m[p].dom().contains(i)]
        m.dom().contains(p) && m[p].dom().contains(i) implies all.contains((p, i, m[p][i])) by {
        let a = ordered::map_of_position(rows, p);
        assert(rows[a].1.dom().contains(i));
    }
}

/// List every replica with its state, by partition and then by instance.
pub fn replica_cells(
    entries: &OrderedMap<PartitionId, OrderedMap<InstanceId, State>>,
) -> (r: Vec<ReplicaCell>)
    ensures
        r.deep_view() == cells(entries@),
        covers(r.deep_view(), entries@),
{
    let mut out: Vec<ReplicaCell> = Vec::new();
    let n: usize = entries.len();
    let ghost rows = entries.listing();
    let mut i: usize = 0;
    assert(rows.take(0) =~= Seq::empty());
    assert(out.deep_view() =~= Seq::empty());
    while i < n
        invariant
            i <= n,
            n == rows.len(),
            rows == entries.listing(),
            ordered::lists::<PartitionId, Map<Seq<char>, Seq<char>>>(rows, entries@),
            out.deep_view() == cells_of(rows.take(i as int)),
            forall|k: int|
                0 <= k < out@.len() ==> state_of(
                    entries@,
                    (#[trigger] out.deep_view()[k]).0,
                    out.deep_view()[k].1,
                ) == Some(out.deep_view()[k].2),
            forall|a: int, q: Seq<char>|
                #![trigger rows[a], state_of(entries@, rows[a].0, q)]
                0 <= a < i && state_of(entries@, rows[a].0, q) is Some
                    ==> out.deep_view().contains(
                    (rows[a].0, q, state_of(entries@, rows[a].0, q)->0),
                ),
        decreases n - i,
    {
        let ghost before = out.deep_view();
        let partition = entries.key_at(i);
        let row = entries.value_at(i);
        let m: usize = row.len();
        let ghost listing = row.listing();
        let ghost added = row_cells(partition@, row@);
        let mut j: usize = 0;
        assert(added.take(0) =~= Seq::empty());
        assert(before + added.take(0) =~= before);
        while j < m
            invariant
                j <= m,
                m == listing.len(),
                listing == row.listing(),
                added == row_cells(partition@, row@),
                out.deep_view() == before + added.take(j as int),
            decreases m - j,
        {
            let ghost so_far = out.deep_view();
            out.push(
                ReplicaCell {
                    partition: partition.duplicate(),
                    instance: row.key_at(j).duplicate(),
                    state: row.value_at(j).duplicate(),
                },
            );
            assert(out.deep_view() =~= so_far.push(added[j as int]));
            assert(before + added.take(j + 1) =~= (before + added.take(j as int)).push(
                added[j as int],
            ));
            j = j + 1;
        }
        proof {
            assert(added.take(m as int) =~= added);
            assert(rows.take(i + 1).drop_last() =~= rows.take(i as int));
            assert(rows.take(i + 1).last() == rows[i as int]);
            assert(out.deep_view() == cells_of(rows.take(i + 1)));
            assert forall|k: int| 0 <= k < out@.len() implies state_of(
                entries@,
                (#[trigger] out.deep_view()[k]).0,
                out.deep_view()[k].1,
            ) == Some(out.deep_view()[k].2) by {
                if k < before.len() {
                    assert(out.deep_view()[k] == before[k]);
                } else {
                    let c = k - before.len();
                    assert(out.deep_view()[k] == added[c]);
                    ordered::map_of_at::<InstanceId, Seq<char>>(listing, c);
                }
            }
            assert forall|a: int, q: Seq<char>|
                #![trigger rows[a], state_of(entries@, rows[a].0, q)]
                0 <= a < i + 1 && state_of(entries@, rows[a].0, q) is Some implies out.deep_view().contains(
                (rows[a].0, q, state_of(entries@, rows[a].0, q)->0),
            ) by {
                let cell = (rows[a].0, q, state_of(entries@, rows[a].0, q)->0);
                if a < i {
                    let k = before.index_of(cell);
                    assert(out.deep_view()[k] == cell);
                } else {
                    let c = ordered::map_of_position(listing, q);
                    assert(added[c] == cell);
                    assert(out.deep_view()[before.len() + c] == cell);
                }
            }
        }
        i = i + 1;
    }
    proof {
        assert(rows.take(n as int) =~= rows);
        assert forall|p: Seq<char>, q: Seq<char>|
            (#[trigger] state_of(entries@, p, q)) is Some implies out.deep_view().contains(
            (p, q, state_of(entries@, p, q)->0),
        ) by {
            let a = ordered::map_of_position(rows, p);
            assert(state_of(entries@, rows[a].0, q) is Some);
        }
    }
    out
}

/// A replica stated twice.
#[derive(Clone, Debug, PartialEq, Eq)]
pub enum ReplicaStateError {
    Duplicate { partition: PartitionId, instance: InstanceId },
}

impl ReplicaStateError {
    /// The partition of the replica.
    pub open spec fn at_partition(self) -> Seq<char> {
        match self {
            ReplicaStateError::Duplicate { partition, .. } => partition@,
        }
    }

    /// The instance of the replica.
    pub open spec fn at_instance(self) -> Seq<char> {
        match self {
            ReplicaStateError::Duplicate { instance, .. } => instance@,
        }
    }

    /// The operator-facing message.
    pub open spec fn text(self) -> Seq<char> {
        "duplicate state for partition "@ + self.at_partition() + " and instance "@
            + self.at_instance()
    }

    /// Return the operator-facing message.
    pub fn to_string(&self) -> (r: String)
        ensures
            r@ == self.text(),
    {
        match self {
            ReplicaStateError::Duplicate {
                partition,
                instance,
            } => "duplicate state for partition ".to_owned().concat(partition.as_str()).concat(
                " and instance ",
            ).concat(instance.as_str()),
        }
    }
}

/// States of replicas by partition and instance.
#[derive(Clone, Debug, PartialEq, Eq)]
pub struct ReplicaStates {
    states: OrderedMap<PartitionId, OrderedMap<InstanceId, State>>,
}

impl View for ReplicaStates {
    type V = Replicas;

    closed spec fn view(&self) -> Replicas {
        self.states@
    }
}

impl Default for ReplicaStates {
    fn default() -> (r: Self)
        ensures
            r@ == Replicas::empty(),
    {
        ReplicaStates { states: OrderedMap::new() }
    }
}

impl ReplicaStates {
    /// Set the state of a replica. A replica that had one already is reported
    /// and takes the new state all the same.
    pub fn insert(
        &mut self,
        partition: PartitionId,
        instance: InstanceId,
        state: State,
    ) -> (r: Result<(), ReplicaStateError>)
        ensures
            final(self)@ == placed(old(self)@, partition@, instance@, state@),
            match r {
                Ok(()) => state_of(old(self)@, partition@, instance@) is None,
                Err(error) => state_of(old(self)@, partition@, instance@) is Some
                    && error.at_partition() == partition@ && error.at_instance() == instance@,
            },
    {
        let ghost before = self@;
        let mut instances = match self.states.remove(&partition) {
            Some(instances) => instances,
            None => OrderedMap::new(),
        };
        let had = instances.insert(instance.duplicate(), state);
        self.states.insert(partition.duplicate(), instances);
        proof {
            assert(self@ =~= placed(before, partition@, instance@, state@));
        }
        if had {
            Err(ReplicaStateError::Duplicate { partition, instance })
        } else {
            Ok(())
        }
    }

    /// Look up the state of a replica.
    pub fn get(&self, partition: &PartitionId, instance: &InstanceId) -> (r: Option<&State>)
        ensures
            match r {
                Some(state) => state_of(self@, partition@, instance@) == Some(state@),
                None => state_of(self@, partition@, instance@) is None,
            },
    {
        match self.states.get(partition) {
            Some(instances) => instances.get(instance),
            None => None,
        }
    }

    /// The states by partition and instance.
    pub fn entries(&self) -> (r: &OrderedMap<PartitionId, OrderedMap<InstanceId, State>>)
        ensures
            r@ == self@,
    {
        &self.states
    }

    /// The states by partition and instance.
    pub fn into_entries(self) -> (r: OrderedMap<PartitionId, OrderedMap<InstanceId, State>>)
        ensures
            r@ == self@,
    {
        self.states
    }

    /// States given by partition and instance.
    pub fn from_entries(
        states: OrderedMap<PartitionId, OrderedMap<InstanceId, State>>,
    ) -> (r: ReplicaStates)
        ensures
            r@ == states@,
    {
        ReplicaStates { states }
    }

    /// A copy of the states.
    pub fn copy(&self) -> (r: ReplicaStates)
        ensures
            r@ == self@,
    {
        ReplicaStates { states: self.states.duplicate() }
    }
}

} // verus!
