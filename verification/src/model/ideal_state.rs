//! Explicit placement by preference lists.
use crate::model::identity::{InstanceId, PartitionId, ResourceId};
use crate::ordered::{Duplicate, Key, OrderedMap};
use crate::text;
use vstd::prelude::*;
use vstd::string::*;

verus! {

/// What a placement specification says.
#[verifier::ext_equal]
pub struct IdealStateView {
    pub resource: Seq<char>,
    pub replicas: usize,
    pub lists: Map<Seq<char>, Seq<Seq<char>>>,
}

/// An explicit SEMI_AUTO placement specification.
#[derive(Debug, PartialEq, Eq)]
pub struct IdealState {
    resource: ResourceId,
    replicas: usize,
    preference_lists: OrderedMap<PartitionId, Vec<InstanceId>>,
}

impl View for IdealState {
    type V = IdealStateView;

    closed spec fn view(&self) -> IdealStateView {
        IdealStateView {
            resource: self.resource@,
            replicas: self.replicas,
            lists: self.preference_lists@,
        }
    }
}

impl DeepView for IdealState {
    type V = IdealStateView;

    open spec fn deep_view(&self) -> IdealStateView {
        self@
    }
}

impl Duplicate for IdealState {
    fn duplicate(&self) -> (r: Self) {
        proof {
            use_type_invariant(self);
        }
        IdealState {
            resource: self.resource.duplicate(),
            replicas: self.replicas,
            preference_lists: self.preference_lists.duplicate(),
        }
    }
}

impl Clone for IdealState {
    fn clone(&self) -> (r: Self)
        ensures
            r@ == self@,
    {
        self.duplicate()
    }
}

impl IdealState {
    #[verifier::type_invariant]
    spec fn lists_are_full(self) -> bool {
        self@.full()
    }

    /// Start constructing an explicit placement specification.
    pub fn builder(resource: ResourceId, replicas: usize) -> (r: IdealStateBuilder)
        ensures
            r@ == IdealStateView::started(resource@, replicas),
    {
        IdealStateBuilder { resource, replicas, preference_lists: OrderedMap::new() }
    }

    /// Return the resource covered by this specification.
    pub fn resource(&self) -> (r: &ResourceId)
        ensures
            r@ == self@.resource,
    {
        &self.resource
    }

    /// Return the configured replica count.
    pub fn replicas(&self) -> (r: usize)
        ensures
            r == self@.replicas,
    {
        self.replicas
    }

    /// Return the ordered preference list for a partition. It names as many
    /// instances as there are replicas, none of them twice.
    pub fn preference_list(&self, partition: &PartitionId) -> (r: Option<&Vec<InstanceId>>)
        ensures
            match r {
                Some(list) => self@.lists.dom().contains(partition@) && list.deep_view()
                    == self@.lists[partition@] && list.deep_view().len() == self@.replicas
                    && list.deep_view().no_duplicates(),
                None => !self@.lists.dom().contains(partition@),
            },
    {
        proof {
            use_type_invariant(self);
        }
        self.preference_lists.get(partition)
    }

    /// Return all partitions and their ordered preference lists.
    pub fn preference_lists(&self) -> (r: &OrderedMap<PartitionId, Vec<InstanceId>>)
        ensures
            r@ == self@.lists,
            self@.full(),
    {
        proof {
            use_type_invariant(self);
        }
        &self.preference_lists
    }
}

/// Mutable construction state for an immutable [`IdealState`].
#[derive(Debug)]
pub struct IdealStateBuilder {
    resource: ResourceId,
    replicas: usize,
    preference_lists: OrderedMap<PartitionId, Vec<InstanceId>>,
}

impl View for IdealStateBuilder {
    type V = IdealStateView;

    closed spec fn view(&self) -> IdealStateView {
        IdealStateView {
            resource: self.resource@,
            replicas: self.replicas,
            lists: self.preference_lists@,
        }
    }
}

impl IdealStateBuilder {
    #[verifier::type_invariant]
    spec fn lists_are_full(self) -> bool {
        self@.full()
    }
}

impl Clone for IdealStateBuilder {
    fn clone(&self) -> (r: Self)
        ensures
            r@ == self@,
    {
        proof {
            use_type_invariant(self);
        }
        IdealStateBuilder {
            resource: self.resource.duplicate(),
            replicas: self.replicas,
            preference_lists: self.preference_lists.duplicate(),
        }
    }
}

impl IdealStateView {
    /// A specification that has no partition yet.
    pub open spec fn started(resource: Seq<char>, replicas: usize) -> IdealStateView {
        IdealStateView { resource, replicas, lists: Map::empty() }
    }

    /// The specification with one more preference list, unless the list may
    /// not be added.
    pub open spec fn tried(self, call: (Seq<char>, Seq<Seq<char>>)) -> IdealStateView {
        if self.list_fault(call.0, call.1) is None {
            IdealStateView { lists: self.lists.insert(call.0, call.1), ..self }
        } else {
            self
        }
    }

    /// The specification after every listed attempt to add a preference list.
    pub open spec fn tried_all(self, calls: Seq<(Seq<char>, Seq<Seq<char>>)>) -> IdealStateView
        decreases calls.len(),
    {
        if calls.len() == 0 {
            self
        } else {
            self.tried_all(calls.drop_last()).tried(calls.last())
        }
    }

    /// The attempt at `i` adds its preference list.
    pub open spec fn accepts(self, calls: Seq<(Seq<char>, Seq<Seq<char>>)>, i: int) -> bool {
        self.tried_all(calls.take(i)).list_fault(calls[i].0, calls[i].1) is None
    }

    /// Every preference list names as many instances as there are replicas,
    /// none of them twice.
    pub open spec fn full(self) -> bool {
        forall|p: Seq<char>| #[trigger]
            self.lists.dom().contains(p) ==> self.lists[p].len() == self.replicas
                && self.lists[p].no_duplicates()
    }

    /// Why a preference list may not be added.
    pub open spec fn list_fault(self, partition: Seq<char>, instances: Seq<Seq<char>>) -> Option<
        IdealStateFault,
    > {
        if self.lists.dom().contains(partition) {
            Some(IdealStateFault::DuplicatePartition(partition))
        } else if instances.len() != self.replicas {
            Some(
                IdealStateFault::PreferenceListReplicaCount {
                    partition,
                    expected: self.replicas,
                    actual: instances.len(),
                },
            )
        } else if !instances.no_duplicates() {
            Some(IdealStateFault::DuplicatePreferenceInstance { partition })
        } else {
            None
        }
    }
}

/// Whether no two instances of the list are the same.
fn all_differ(instances: &Vec<InstanceId>) -> (r: bool)
    ensures
        r == instances.deep_view().no_duplicates(),
{
    let ghost s = instances.deep_view();
    let mut i: usize = 0;
    while i < instances.len()
        invariant
            i <= instances@.len(),
            s == instances.deep_view(),
            forall|a: int, b: int| 0 <= a < b < i ==> #[trigger] s[a] != #[trigger] s[b],
        decreases instances@.len() - i,
    {
        let mut j: usize = 0;
        while j < i
            invariant
                j <= i < instances@.len(),
                s == instances.deep_view(),
                forall|a: int| 0 <= a < j ==> #[trigger] s[a] != s[i as int],
            decreases i - j,
        {
            if instances[j].same(&instances[i]) {
                assert(s[j as int] == s[i as int]);
                return false;
            }
            j = j + 1;
        }
        i = i + 1;
    }
    true
}

impl IdealStateBuilder {
    /// Add one partition's ordered preference list.
    pub fn set_preference_list(
        &mut self,
        partition: PartitionId,
        instances: Vec<InstanceId>,
    ) -> (r: Result<&mut Self, IdealStateError>)
        ensures
            match r {
                Ok(builder) => old(self)@.list_fault(partition@, instances.deep_view()) is None
                    && (*builder)@ == old(self)@.tried((partition@, instances.deep_view()))
                    && *final(self) == *final(builder),
                Err(error) => old(self)@.list_fault(partition@, instances.deep_view()) == Some(
                    error@,
                ) && final(self)@ == old(self)@,
            },
    {
        proof {
            use_type_invariant(&*self);
        }
        if self.preference_lists.contains_key(&partition) {
            return Err(IdealStateError::DuplicatePartition(partition));
        }
        if instances.len() != self.replicas {
            return Err(
                IdealStateError::PreferenceListReplicaCount {
                    partition,
                    expected: self.replicas,
                    actual: instances.len(),
                },
            );
        }
        if !all_differ(&instances) {
            return Err(IdealStateError::DuplicatePreferenceInstance { partition });
        }
        let mut lists: OrderedMap<PartitionId, Vec<InstanceId>> = OrderedMap::new();
        std::mem::swap(&mut lists, &mut self.preference_lists);
        lists.insert(partition, instances);
        self.preference_lists = lists;
        Ok(self)
    }

    /// Publish the immutable placement specification. Each of its lists names
    /// exactly as many instances as there are replicas, all different.
    pub fn build(self) -> (r: Result<IdealState, IdealStateError>)
        ensures
            match r {
                Ok(ideal) => self@.lists != Map::<Seq<char>, Seq<Seq<char>>>::empty() && ideal@
                    == self@ && forall|p: Seq<char>| #[trigger]
                    ideal@.lists.dom().contains(p) ==> ideal@.lists[p].len() == ideal@.replicas
                        && ideal@.lists[p].no_duplicates(),
                Err(error) => self@.lists == Map::<Seq<char>, Seq<Seq<char>>>::empty() && error@
                    == IdealStateFault::NoPartitions,
            },
    {
        proof {
            use_type_invariant(&self);
        }
        if self.preference_lists.is_empty() {
            return Err(IdealStateError::NoPartitions);
        }
        Ok(
            IdealState {
                resource: self.resource,
                replicas: self.replicas,
                preference_lists: self.preference_lists,
            },
        )
    }
}

/// Whatever lists were tried, refused ones among them, a specification can be
/// built exactly when one of them was accepted. It then keeps its resource and
/// replica count, and each of its lists names exactly that many instances, all
/// different.
pub proof fn built_lists_are_full(
    resource: Seq<char>,
    replicas: usize,
    calls: Seq<(Seq<char>, Seq<Seq<char>>)>,
)
    ensures
        ({
            let start = IdealStateView::started(resource, replicas);
            let v = start.tried_all(calls);
            &&& v.resource == resource
            &&& v.replicas == replicas
            &&& v.full()
            &&& v.lists == Map::<Seq<char>, Seq<Seq<char>>>::empty() <==> forall|i: int|
                0 <= i < calls.len() ==> !#[trigger] start.accepts(calls, i)
        }),
    decreases calls.len(),
{
    let start = IdealStateView::started(resource, replicas);
    if calls.len() > 0 {
        let n = calls.len() - 1;
        let rest = calls.drop_last();
        built_lists_are_full(resource, replicas, rest);
        assert(calls.take(n) =~= rest);
        assert(start.accepts(calls, n) == (start.tried_all(rest).list_fault(
            calls.last().0,
            calls.last().1,
        ) is None));
        assert forall|i: int|
            #![trigger start.accepts(calls, i)]
            #![trigger start.accepts(rest, i)]
            0 <= i < n implies start.accepts(calls, i) == start.accepts(rest, i) by {
            assert(calls.take(i) =~= rest.take(i));
        }
        if start.accepts(calls, n) {
            assert(start.tried_all(calls).lists.dom().contains(calls.last().0));
        }
    }
}

/// What is wrong with placement input.
pub enum IdealStateFault {
    DuplicatePartition(Seq<char>),
    DuplicatePreferenceInstance { partition: Seq<char> },
    NoPartitions,
    PreferenceListReplicaCount { partition: Seq<char>, expected: usize, actual: nat },
}

/// Invalid explicit SEMI_AUTO placement input.
#[derive(Clone, Debug, PartialEq, Eq)]
pub enum IdealStateError {
    DuplicatePartition(PartitionId),
    DuplicatePreferenceInstance { partition: PartitionId },
    NoPartitions,
    PreferenceListReplicaCount { partition: PartitionId, expected: usize, actual: usize },
}

impl View for IdealStateError {
    type V = IdealStateFault;

    open spec fn view(&self) -> IdealStateFault {
        match self {
            IdealStateError::DuplicatePartition(partition) => IdealStateFault::DuplicatePartition(
                partition@,
            ),
            IdealStateError::DuplicatePreferenceInstance {
                partition,
            } => IdealStateFault::DuplicatePreferenceInstance { partition: partition@ },
            IdealStateError::NoPartitions => IdealStateFault::NoPartitions,
            IdealStateError::PreferenceListReplicaCount {
                partition,
                expected,
                actual,
            } => IdealStateFault::PreferenceListReplicaCount {
                partition: partition@,
                expected: *expected,
                actual: *actual as nat,
            },
        }
    }
}

impl IdealStateFault {
    /// The operator-facing message.
    pub open spec fn text(self) -> Seq<char> {
        match self {
            IdealStateFault::DuplicatePartition(partition) => "duplicate ideal-state partition: "@
                + partition,
            IdealStateFault::DuplicatePreferenceInstance {
                partition,
            } => "preference list contains a duplicate instance for partition "@ + partition,
            IdealStateFault::NoPartitions => "ideal state must contain a partition"@,
            IdealStateFault::PreferenceListReplicaCount {
                partition,
                expected,
                actual,
            } => "preference list for partition "@ + partition + " has "@ + text::decimal(actual)
                + " entries; expected "@ + text::decimal(expected as nat),
        }
    }
}

impl IdealStateError {
    /// Return the operator-facing message.
    pub fn to_string(&self) -> (r: String)
        ensures
            r@ == self@.text(),
    {
        match self {
            IdealStateError::DuplicatePartition(partition) => "duplicate ideal-state partition: "
                .to_owned().concat(partition.as_str()),
            IdealStateError::DuplicatePreferenceInstance {
                partition,
            } => "preference list contains a duplicate instance for partition ".to_owned().concat(
                partition.as_str(),
            ),
            IdealStateError::NoPartitions => "ideal state must contain a partition".to_owned(),
            IdealStateError::PreferenceListReplicaCount {
                partition,
                expected,
                actual,
            } => "preference list for partition ".to_owned().concat(partition.as_str()).concat(
                " has ",
            ).concat(text::decimal_of(*actual as u64).as_str()).concat(
                " entries; expected ",
            ).concat(text::decimal_of(*expected as u64).as_str()),
        }
    }
}

} // verus!
