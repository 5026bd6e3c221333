//! Intermediate states and operational throttling of selected transitions.
use crate::controller::intermediate_state::IntermediateState;
use crate::controller::message_selection;
use crate::controller::quota;
use crate::controller::quota::{RebalanceType, StateTransitionThrottleConfig, ThrottleController};
use crate::lists;
use crate::model::replica_state;
use crate::model::state_model;
use crate::model::{
    BestPossibleState, CurrentState, InstanceId, PartitionId, ResourceId, State, StateCardinality,
    StateModelDefinition,
};
use crate::ordered;
use crate::ordered::{Duplicate, Key, OrderedMap, OrderedSet};
use crate::text;
use crate::transition;
use crate::transition::TransitionRequest;
use vstd::prelude::*;
use vstd::string::*;

verus! {

/// A selected transition already in flight before this controller cycle.
#[derive(Clone, Debug, PartialEq, Eq, PartialOrd, Ord, Hash)]
pub struct OperationalPendingTransition {
    resource: ResourceId,
    partition: PartitionId,
    instance: InstanceId,
    source_state: State,
    target_state: State,
}

impl View for OperationalPendingTransition {
    type V = transition::Move;

    closed spec fn view(&self) -> transition::Move {
        transition::Move {
            resource: self.resource@,
            partition: self.partition@,
            instance: self.instance@,
            source: self.source_state@,
            target: self.target_state@,
        }
    }
}

impl DeepView for OperationalPendingTransition {
    type V = transition::Move;

    open spec fn deep_view(&self) -> transition::Move {
        self@
    }
}

impl Duplicate for OperationalPendingTransition {
    fn duplicate(&self) -> (r: Self) {
        OperationalPendingTransition {
            resource: self.resource.duplicate(),
            partition: self.partition.duplicate(),
            instance: self.instance.duplicate(),
            source_state: self.source_state.duplicate(),
            target_state: self.target_state.duplicate(),
        }
    }
}

impl OperationalPendingTransition {
    /// Construct an in-flight transition with its resource identity.
    pub fn new(
        resource: ResourceId,
        partition: PartitionId,
        instance: InstanceId,
        source_state: State,
        target_state: State,
    ) -> (r: Self)
        ensures
            r@ == (transition::Move {
                resource: resource@,
                partition: partition@,
                instance: instance@,
                source: source_state@,
                target: target_state@,
            }),
    {
        OperationalPendingTransition { resource, partition, instance, source_state, target_state }
    }

    /// Return the resource identity.
    pub fn resource(&self) -> (r: &ResourceId)
        ensures
            r@ == self@.resource,
    {
        &self.resource
    }

    /// Return the partition identity.
    pub fn partition(&self) -> (r: &PartitionId)
        ensures
            r@ == self@.partition,
    {
        &self.partition
    }

    /// Return the target instance identity.
    pub fn instance(&self) -> (r: &InstanceId)
        ensures
            r@ == self@.instance,
    {
        &self.instance
    }

    /// Return the state before this transition.
    pub fn source_state(&self) -> (r: &State)
        ensures
            r@ == self@.source,
    {
        &self.source_state
    }

    /// Return the state after this transition.
    pub fn target_state(&self) -> (r: &State)
        ensures
            r@ == self@.target,
    {
        &self.target_state
    }

    /// Whether this is the move that the request asks for.
    pub fn same_move(&self, request: &TransitionRequest) -> (r: bool)
        ensures
            r == (self@ == request@),
    {
        self.resource.same(request.resource()) && self.partition.same(request.partition())
            && self.instance.same(request.instance()) && self.source_state.same(
            request.source_state(),
        ) && self.target_state.same(request.target_state())
    }
}

/// What the stages know of one resource.
#[verifier::ext_equal]
pub struct InputView {
    pub resource: Seq<char>,
    pub replicas: usize,
    pub min_active: Option<usize>,
    pub lists: Map<Seq<char>, Seq<Seq<char>>>,
    pub current: replica_state::Replicas,
    pub best: replica_state::Replicas,
    pub selected: Seq<transition::Move>,
}

/// All per-resource inputs of the stages.
#[derive(Clone, Debug, PartialEq, Eq)]
pub struct ResourceTransitionInput {
    resource: ResourceId,
    replicas: usize,
    min_active_replicas: Option<usize>,
    preference_lists: OrderedMap<PartitionId, Vec<InstanceId>>,
    current_state: CurrentState,
    best_possible_state: BestPossibleState,
    selected_transitions: Vec<TransitionRequest>,
}

impl View for ResourceTransitionInput {
    type V = InputView;

    closed spec fn view(&self) -> InputView {
        InputView {
            resource: self.resource@,
            replicas: self.replicas,
            min_active: self.min_active_replicas,
            lists: self.preference_lists@,
            current: self.current_state@,
            best: self.best_possible_state@,
            selected: self.selected_transitions.deep_view(),
        }
    }
}

impl DeepView for ResourceTransitionInput {
    type V = InputView;

    open spec fn deep_view(&self) -> InputView {
        self@
    }
}

impl ResourceTransitionInput {
    /// Construct the complete input for one resource's controller stages.
    pub fn new(
        resource: ResourceId,
        replicas: usize,
        min_active_replicas: Option<usize>,
        preference_lists: OrderedMap<PartitionId, Vec<InstanceId>>,
        current_state: CurrentState,
        best_possible_state: BestPossibleState,
        selected_transitions: Vec<TransitionRequest>,
    ) -> (r: Self)
        ensures
            r@ == (InputView {
                resource: resource@,
                replicas,
                min_active: min_active_replicas,
                lists: preference_lists@,
                current: current_state@,
                best: best_possible_state@,
                selected: selected_transitions.deep_view(),
            }),
    {
        ResourceTransitionInput {
            resource,
            replicas,
            min_active_replicas,
            preference_lists,
            current_state,
            best_possible_state,
            selected_transitions,
        }
    }
}

/// Result of intermediate-state calculation and operational throttling.
#[derive(Clone, Debug, PartialEq, Eq)]
pub struct IntermediateThrottleResult {
    intermediate_state: IntermediateState,
    dispatchable_transitions: Vec<TransitionRequest>,
}

impl IntermediateThrottleResult {
    /// The states that the result publishes.
    pub closed spec fn states(self) -> Map<Seq<char>, replica_state::Replicas> {
        self.intermediate_state@
    }

    /// The moves that the result dispatches.
    pub closed spec fn moves(self) -> Seq<transition::Move> {
        self.dispatchable_transitions.deep_view()
    }

    /// A result made of its two parts.
    pub fn new(
        intermediate_state: IntermediateState,
        dispatchable_transitions: Vec<TransitionRequest>,
    ) -> (r: Self)
        ensures
            r.states() == intermediate_state@,
            r.moves() == dispatchable_transitions.deep_view(),
    {
        IntermediateThrottleResult { intermediate_state, dispatchable_transitions }
    }

    /// Return the intermediate states.
    pub fn intermediate_state(&self) -> (r: &IntermediateState)
        ensures
            r@ == self.states(),
    {
        &self.intermediate_state
    }

    /// Return the transitions to dispatch.
    pub fn dispatchable_transitions(&self) -> (r: &Vec<TransitionRequest>)
        ensures
            r.deep_view() == self.moves(),
    {
        &self.dispatchable_transitions
    }
}

/// Why the stages cannot run.
pub enum ThrottleFault {
    DuplicateResource(Seq<char>),
    DuplicatePendingTransition { partition: Seq<char>, instance: Seq<char> },
    ResourceMismatch { expected: Seq<char>, actual: Seq<char> },
    UnknownPendingResource(Seq<char>),
    UnknownSelectedPartition { resource: Seq<char>, partition: Seq<char> },
}

/// Errors for malformed input to the stages.
#[derive(Clone, Debug, PartialEq, Eq)]
pub enum IntermediateThrottleError {
    DuplicateResource(ResourceId),
    DuplicatePendingTransition { partition: PartitionId, instance: InstanceId },
    ResourceMismatch { expected: ResourceId, actual: ResourceId },
    UnknownPendingResource(ResourceId),
    UnknownSelectedPartition { resource: ResourceId, partition: PartitionId },
}

impl View for IntermediateThrottleError {
    type V = ThrottleFault;

    open spec fn view(&self) -> ThrottleFault {
        match self {
            IntermediateThrottleError::DuplicateResource(
                resource,
            ) => ThrottleFault::DuplicateResource(resource@),
            IntermediateThrottleError::DuplicatePendingTransition {
                partition,
                instance,
            } => ThrottleFault::DuplicatePendingTransition {
                partition: partition@,
                instance: instance@,
            },
            IntermediateThrottleError::ResourceMismatch {
                expected,
                actual,
            } => ThrottleFault::ResourceMismatch { expected: expected@, actual: actual@ },
            IntermediateThrottleError::UnknownPendingResource(
                resource,
            ) => ThrottleFault::UnknownPendingResource(resource@),
            IntermediateThrottleError::UnknownSelectedPartition {
                resource,
                partition,
            } => ThrottleFault::UnknownSelectedPartition {
                resource: resource@,
                partition: partition@,
            },
        }
    }
}

impl ThrottleFault {
    /// The operator-facing message.
    pub open spec fn text(self) -> Seq<char> {
        match self {
            ThrottleFault::DuplicateResource(resource) => "duplicate resource "@ + resource,
            ThrottleFault::DuplicatePendingTransition {
                partition,
                instance,
            } => "duplicate pending transition for partition "@ + partition + " and instance "@
                + instance,
            ThrottleFault::ResourceMismatch {
                expected,
                actual,
            } => "selected transition belongs to resource "@ + actual + ", expected "@ + expected,
            ThrottleFault::UnknownPendingResource(
                resource,
            ) => "pending transition references unknown resource "@ + resource,
            ThrottleFault::UnknownSelectedPartition {
                resource,
                partition,
            } => "selected transition references unknown partition "@ + partition
                + " in resource "@ + resource,
        }
    }
}

impl IntermediateThrottleError {
    /// Return the operator-facing message.
    pub fn to_string(&self) -> (r: String)
        ensures
            r@ == self@.text(),
    {
        match self {
            IntermediateThrottleError::DuplicateResource(resource) => "duplicate resource "
                .to_owned().concat(resource.as_str()),
            IntermediateThrottleError::DuplicatePendingTransition {
                partition,
                instance,
            } => "duplicate pending transition for partition ".to_owned().concat(
                partition.as_str(),
            ).concat(" and instance ").concat(instance.as_str()),
            IntermediateThrottleError::ResourceMismatch {
                expected,
                actual,
            } => "selected transition belongs to resource ".to_owned().concat(
                actual.as_str(),
            ).concat(", expected ").concat(expected.as_str()),
            IntermediateThrottleError::UnknownPendingResource(
                resource,
            ) => "pending transition references unknown resource ".to_owned().concat(
                resource.as_str(),
            ),
            IntermediateThrottleError::UnknownSelectedPartition {
                resource,
                partition,
            } => "selected transition references unknown partition ".to_owned().concat(
                partition.as_str(),
            ).concat(" in resource ").concat(resource.as_str()),
        }
    }
}

/// A listing of the replicas of one partition.
pub type Row = Seq<(Seq<char>, Seq<char>)>;

/// The replicas of a partition in order.
pub open spec fn row_of(m: replica_state::Replicas, partition: Seq<char>) -> Row {
    ordered::in_order::<InstanceId, Seq<char>>(replica_state::instances_of(m, partition))
}

/// The number of listed replicas in `state`.
pub open spec fn in_state(row: Row, state: Seq<char>) -> nat
    decreases row.len(),
{
    if row.len() == 0 {
        0
    } else {
        in_state(row.drop_last(), state) + if row.last().1 == state {
            1nat
        } else {
            0
        }
    }
}

/// The number of observed replicas that can be paired off with desired
/// replicas in the same state.
pub open spec fn paired(row: Row, best: Row) -> nat
    decreases row.len(),
{
    if row.len() == 0 {
        0
    } else {
        let state = row.last().1;
        paired(row.drop_last(), best) + if in_state(row.drop_last(), state) < in_state(
            best,
            state,
        ) {
            1nat
        } else {
            0
        }
    }
}

/// The number of observed replicas that are in their desired state.
pub open spec fn settled(row: Row, best: Map<Seq<char>, Seq<char>>) -> nat
    decreases row.len(),
{
    if row.len() == 0 {
        0
    } else {
        let replica = row.last();
        settled(row.drop_last(), best) + if best.dom().contains(replica.0) && best[replica.0]
            == replica.1 {
            1nat
        } else {
            0
        }
    }
}

/// Which of two partitions goes first: one with a replica in the top state,
/// then the one with fewer replicas paired off, then the one with fewer
/// settled, then by name.
pub open spec fn partition_ahead(
    input: InputView,
    top: Seq<char>,
    a: Seq<char>,
    b: Seq<char>,
) -> bool {
    let row_a = row_of(input.current, a);
    let row_b = row_of(input.current, b);
    let top_a = in_state(row_a, top) > 0;
    let top_b = in_state(row_b, top) > 0;
    let paired_a = paired(row_a, row_of(input.best, a));
    let paired_b = paired(row_b, row_of(input.best, b));
    let settled_a = settled(row_a, replica_state::instances_of(input.best, a));
    let settled_b = settled(row_b, replica_state::instances_of(input.best, b));
    if top_a != top_b {
        top_a
    } else if paired_a != paired_b {
        paired_a < paired_b
    } else if settled_a != settled_b {
        settled_a < settled_b
    } else {
        text::text_before(a, b)
    }
}

/// The position of the instance of a move in the preference list of its
/// partition.
pub open spec fn preference(input: InputView, m: transition::Move) -> Option<nat> {
    if input.lists.dom().contains(m.partition) {
        let list = input.lists[m.partition];
        let i = lists::first_index(list, m.instance);
        if i < list.len() {
            Some(i)
        } else {
            None
        }
    } else {
        None
    }
}

/// Which of two moves of a partition goes first: by priority of the target
/// state, then by preference with unlisted instances first, then by instance.
pub open spec fn message_ahead(
    input: InputView,
    model: state_model::StateModelView,
    a: transition::Move,
    b: transition::Move,
) -> bool {
    if a.target != b.target {
        lists::first_index(model.states, a.target) < lists::first_index(model.states, b.target)
    } else {
        match (preference(input, a), preference(input, b)) {
            (None, Some(_)) => true,
            (Some(_), None) => false,
            (Some(i), Some(j)) if i != j => i < j,
            _ => text::text_before(a.instance, b.instance),
        }
    }
}

/// The number of listed instances that are live.
pub open spec fn live_of(list: Seq<Seq<char>>, live: Set<Seq<char>>) -> nat
    decreases list.len(),
{
    if list.len() == 0 {
        0
    } else {
        live_of(list.drop_last(), live) + if live.contains(list.last()) {
            1nat
        } else {
            0
        }
    }
}

/// How many replicas of which state a partition needs, and what is left to
/// hand out.
#[verifier::ext_equal]
pub struct Needs {
    pub candidates: nat,
    pub replicas: nat,
    pub counts: Map<Seq<char>, nat>,
}

/// The smaller of two counts.
pub open spec fn least(a: nat, b: nat) -> nat {
    if a <= b {
        a
    } else {
        b
    }
}

/// What is left of `a` after taking at most `b`.
pub open spec fn minus(a: nat, b: nat) -> nat {
    if a <= b {
        0
    } else {
        (a - b) as nat
    }
}

/// The needs of the first `n` states with a fixed or all-node cardinality.
pub open spec fn fixed_needs(
    model: state_model::StateModelView,
    start: Needs,
    n: nat,
) -> Needs
    decreases n,
{
    if n == 0 {
        start
    } else {
        let before = fixed_needs(model, start, (n - 1) as nat);
        let state = model.states[n - 1];
        if before.candidates == 0 {
            before
        } else {
            match model.cardinality(state) {
                Some(StateCardinality::Exact(count)) if count > 0 => {
                    let taken = least(count as nat, before.candidates);
                    Needs {
                        candidates: (before.candidates - taken) as nat,
                        replicas: minus(before.replicas, taken),
                        counts: before.counts.insert(state, taken),
                    }
                },
                Some(StateCardinality::NodeCount) => Needs {
                    candidates: 0,
                    replicas: minus(before.replicas, before.candidates),
                    counts: before.counts.insert(state, before.candidates),
                },
                _ => before,
            }
        }
    }
}

/// The first of the first `n` states that all replicas may take.
pub open spec fn replica_state_among(model: state_model::StateModelView, n: nat) -> Option<
    Seq<char>,
>
    decreases n,
{
    if n == 0 {
        None
    } else {
        match replica_state_among(model, (n - 1) as nat) {
            Some(state) => Some(state),
            None => if model.cardinality(model.states[n - 1]) == Some(
                StateCardinality::ReplicaCount,
            ) {
                Some(model.states[n - 1])
            } else {
                None
            },
        }
    }
}

/// How many replicas of which state a partition needs.
pub open spec fn required(
    input: InputView,
    partition: Seq<char>,
    live: Set<Seq<char>>,
    model: state_model::StateModelView,
) -> Map<Seq<char>, nat> {
    let start = Needs {
        candidates: if input.lists.dom().contains(partition) {
            live_of(input.lists[partition], live)
        } else {
            0
        },
        replicas: match input.min_active {
            Some(n) => n as nat,
            None => input.replicas as nat,
        },
        counts: Map::empty(),
    };
    let fixed = fixed_needs(model, start, model.states.len());
    match replica_state_among(model, model.states.len()) {
        Some(state) if fixed.candidates > 0 && fixed.replicas > 0 => fixed.counts.insert(
            state,
            least(fixed.candidates, fixed.replicas),
        ),
        _ => fixed.counts,
    }
}

/// Moving a replica to `target` recovers a required replica, or else balances
/// load.
pub open spec fn kind_of(
    needs: Map<Seq<char>, nat>,
    row: Row,
    target: Seq<char>,
) -> RebalanceType {
    if needs.dom().contains(target) && in_state(row, target) < needs[target] {
        RebalanceType::RecoveryBalance
    } else {
        RebalanceType::LoadBalance
    }
}

/// One dispatched move and the kind of work that it was counted as.
pub type Dispatch = (transition::Move, RebalanceType);

/// The moves of a list of dispatches.
pub open spec fn moves_in(log: Seq<Dispatch>) -> Seq<transition::Move> {
    Seq::new(log.len(), |i: int| log[i].0)
}

/// Where the stages stand within one resource.
#[verifier::ext_equal]
pub struct Round {
    pub quotas: quota::QuotasView,
    pub derived: replica_state::Replicas,
    pub log: Seq<Dispatch>,
}

/// What every step of the stages refers to.
pub struct StageView {
    pub inputs: Seq<InputView>,
    pub live: Set<Seq<char>>,
    pub pending: Seq<transition::Move>,
    pub configs: Seq<quota::ThrottleView>,
    pub model: state_model::StateModelView,
}

/// The selected moves of one partition, in order.
pub open spec fn of_partition(
    selected: Seq<transition::Move>,
    partition: Seq<char>,
) -> Seq<transition::Move>
    decreases selected.len(),
{
    if selected.len() == 0 {
        Seq::empty()
    } else {
        let before = of_partition(selected.drop_last(), partition);
        if selected.last().partition == partition {
            before.push(selected.last())
        } else {
            before
        }
    }
}

/// The partitions of the moves.
pub open spec fn partitions_of(selected: Seq<transition::Move>) -> Set<Seq<char>> {
    Set::new(
        |p: Seq<char>|
            exists|i: int| 0 <= i < selected.len() && (#[trigger] selected[i]).partition == p,
    )
}

/// `m` without one replica.
pub open spec fn without(
    m: replica_state::Replicas,
    partition: Seq<char>,
    instance: Seq<char>,
) -> replica_state::Replicas {
    if m.dom().contains(partition) {
        m.insert(partition, m[partition].remove(instance))
    } else {
        m
    }
}

/// `m` once a move is complete: a dropped replica is gone.
pub open spec fn completed(
    m: replica_state::Replicas,
    done: transition::Move,
) -> replica_state::Replicas {
    if done.target == "DROPPED"@ {
        without(m, done.partition, done.instance)
    } else {
        replica_state::placed(m, done.partition, done.instance, done.target)
    }
}

/// `m` once the pending moves of `resource` are complete.
pub open spec fn completed_pending(
    m: replica_state::Replicas,
    pending: Seq<transition::Move>,
    resource: Seq<char>,
) -> replica_state::Replicas
    decreases pending.len(),
{
    if pending.len() == 0 {
        m
    } else {
        let before = completed_pending(m, pending.drop_last(), resource);
        if pending.last().resource == resource {
            completed(before, pending.last())
        } else {
            before
        }
    }
}

/// `m` once the selected moves that were dispatched are complete.
pub open spec fn completed_dispatched(
    m: replica_state::Replicas,
    selected: Seq<transition::Move>,
    dispatched: Seq<transition::Move>,
) -> replica_state::Replicas
    decreases selected.len(),
{
    if selected.len() == 0 {
        m
    } else {
        let before = completed_dispatched(m, selected.drop_last(), dispatched);
        if dispatched.contains(selected.last()) {
            completed(before, selected.last())
        } else {
            before
        }
    }
}

impl StageView {
    /// The names of the resources.
    pub open spec fn names(self) -> Seq<Seq<char>> {
        Seq::new(self.inputs.len(), |i: int| self.inputs[i].resource)
    }

    /// The first of the first `n` pending moves of a resource that is unknown.
    pub open spec fn stray_pending(self, n: nat) -> Option<ThrottleFault>
        decreases n,
    {
        if n == 0 {
            None
        } else {
            match self.stray_pending((n - 1) as nat) {
                Some(fault) => Some(fault),
                None => if !self.names().contains(self.pending[n - 1].resource) {
                    Some(ThrottleFault::UnknownPendingResource(self.pending[n - 1].resource))
                } else {
                    None
                },
            }
        }
    }

    /// The first of the first `n` pending moves of a replica that has one
    /// already.
    pub open spec fn repeated_pending(self, n: nat) -> Option<ThrottleFault>
        decreases n,
    {
        if n == 0 {
            None
        } else {
            let p = self.pending[n - 1];
            match self.repeated_pending((n - 1) as nat) {
                Some(fault) => Some(fault),
                None => if exists|j: int|
                    0 <= j < n - 1 && same_replica(#[trigger] self.pending[j], p) {
                    Some(
                        ThrottleFault::DuplicatePendingTransition {
                            partition: p.partition,
                            instance: p.instance,
                        },
                    )
                } else {
                    None
                },
            }
        }
    }

    /// The first of the first `n` selected moves that the resource may not
    /// have.
    pub open spec fn selected_fault(self, input: InputView, n: nat) -> Option<ThrottleFault>
        decreases n,
    {
        if n == 0 {
            None
        } else {
            let m = input.selected[n - 1];
            match self.selected_fault(input, (n - 1) as nat) {
                Some(fault) => Some(fault),
                None => if m.resource != input.resource {
                    Some(
                        ThrottleFault::ResourceMismatch {
                            expected: input.resource,
                            actual: m.resource,
                        },
                    )
                } else if !input.lists.dom().contains(m.partition) || (
                input.lists[m.partition].len() == 0 && !message_selection::drop_path(
                    input.current,
                    self.model,
                    m.partition,
                    m.source,
                    m.target,
                )) {
                    Some(
                        ThrottleFault::UnknownSelectedPartition {
                            resource: input.resource,
                            partition: m.partition,
                        },
                    )
                } else {
                    None
                },
            }
        }
    }

    /// The first fault among the selected moves of the first `n` resources.
    pub open spec fn inputs_fault(self, n: nat) -> Option<ThrottleFault>
        decreases n,
    {
        if n == 0 {
            None
        } else {
            match self.inputs_fault((n - 1) as nat) {
                Some(fault) => Some(fault),
                None => self.selected_fault(self.inputs[n - 1], self.inputs[n - 1].selected.len()),
            }
        }
    }

    /// Why the stages cannot run.
    pub open spec fn fault(self) -> Option<ThrottleFault> {
        if state_model::first_repeat(self.names()) is Some {
            Some(ThrottleFault::DuplicateResource(state_model::first_repeat(self.names())->0))
        } else if self.stray_pending(self.pending.len()) is Some {
            self.stray_pending(self.pending.len())
        } else if self.repeated_pending(self.pending.len()) is Some {
            self.repeated_pending(self.pending.len())
        } else {
            self.inputs_fault(self.inputs.len())
        }
    }

    /// A pending move counts against the quotas: it is of the resource, and its
    /// replica is still in the source state.
    pub open spec fn counts(self, input: InputView, p: transition::Move) -> bool {
        p.resource == input.resource && replica_state::state_of(
            input.current,
            p.partition,
            p.instance,
        ) == Some(p.source) && p.source != p.target
    }

    /// The kind of work that a pending move is counted as.
    pub open spec fn pending_kind(self, input: InputView, p: transition::Move) -> RebalanceType {
        kind_of(
            required(input, p.partition, self.live, self.model),
            row_of(input.current, p.partition),
            p.target,
        )
    }

    /// The quotas once the first `n` pending moves of a resource are counted.
    pub open spec fn charged_pending(
        self,
        quotas: quota::QuotasView,
        input: InputView,
        n: nat,
    ) -> quota::QuotasView
        decreases n,
    {
        if n == 0 {
            quotas
        } else {
            let before = self.charged_pending(quotas, input, (n - 1) as nat);
            let p = self.pending[n - 1];
            if self.counts(input, p) {
                before.charged(self.pending_kind(input, p), input.resource, p.instance)
            } else {
                before
            }
        }
    }

    /// The quotas once the pending moves of the first `n` resources are
    /// counted.
    pub open spec fn opening(self, n: nat) -> quota::QuotasView
        decreases n,
    {
        if n == 0 {
            quota::QuotasView::open_for(self.names(), self.live).configured_all(self.configs)
        } else {
            self.charged_pending(
                self.opening((n - 1) as nat),
                self.inputs[n - 1],
                self.pending.len(),
            )
        }
    }

    /// One selected move: a move that is pending already is passed over, one
    /// that the quotas do not allow waits, any other is dispatched.
    pub open spec fn stepped(self, input: InputView, round: Round, m: transition::Move) -> Round {
        let kind = kind_of(
            required(input, m.partition, self.live, self.model),
            row_of(round.derived, m.partition),
            m.target,
        );
        if self.pending.contains(m) || round.quotas.throttles(kind, input.resource, m.instance) {
            round
        } else {
            Round {
                quotas: round.quotas.charged(kind, input.resource, m.instance),
                derived: replica_state::placed(round.derived, m.partition, m.instance, m.target),
                log: round.log.push((m, kind)),
            }
        }
    }

    /// A list of selected moves, one by one.
    pub open spec fn stepped_all(
        self,
        input: InputView,
        round: Round,
        messages: Seq<transition::Move>,
    ) -> Round
        decreases messages.len(),
    {
        if messages.len() == 0 {
            round
        } else {
            self.stepped(
                input,
                self.stepped_all(input, round, messages.drop_last()),
                messages.last(),
            )
        }
    }

    /// The selected moves of a partition in the order in which they are tried.
    pub open spec fn messages(self, input: InputView, partition: Seq<char>) -> Seq<
        transition::Move,
    > {
        lists::stable_sort(
            |a: transition::Move, b: transition::Move| message_ahead(input, self.model, a, b),
            of_partition(input.selected, partition),
        )
    }

    /// The partitions of a resource in the order in which they are tried.
    pub open spec fn partition_order(self, input: InputView) -> Seq<Seq<char>> {
        lists::stable_sort(
            |a: Seq<char>, b: Seq<char>| partition_ahead(input, self.model.states[0], a, b),
            ordered::members_in_order::<PartitionId>(partitions_of(input.selected)),
        )
    }

    /// The listed partitions of a resource, one by one.
    pub open spec fn partitions_tried(
        self,
        input: InputView,
        round: Round,
        partitions: Seq<Seq<char>>,
    ) -> Round
        decreases partitions.len(),
    {
        if partitions.len() == 0 {
            round
        } else {
            self.stepped_all(
                input,
                self.partitions_tried(input, round, partitions.drop_last()),
                self.messages(input, partitions.last()),
            )
        }
    }

    /// All partitions of a resource.
    pub open spec fn resource_round(
        self,
        input: InputView,
        quotas: quota::QuotasView,
        log: Seq<Dispatch>,
    ) -> Round {
        self.partitions_tried(
            input,
            Round { quotas, derived: input.current, log },
            self.partition_order(input),
        )
    }

    /// The intermediate states of a resource once its moves have been tried.
    /// A resource without selected moves is published as desired.
    pub open spec fn resource_states(self, input: InputView, round: Round) -> replica_state::Replicas {
        if input.selected.len() == 0 {
            input.best
        } else {
            completed_dispatched(
                completed_pending(round.derived, self.pending, input.resource),
                input.selected,
                moves_in(round.log),
            )
        }
    }

    /// Quotas and dispatches once the first `n` resources have been tried.
    pub open spec fn progress(self, n: nat) -> (quota::QuotasView, Seq<Dispatch>)
        decreases n,
    {
        if n == 0 {
            (self.opening(self.inputs.len()), Seq::empty())
        } else {
            let before = self.progress((n - 1) as nat);
            let round = self.resource_round(self.inputs[n - 1], before.0, before.1);
            (round.quotas, round.log)
        }
    }

    /// The intermediate states of the first `n` resources.
    pub open spec fn states(self, n: nat) -> Map<Seq<char>, replica_state::Replicas>
        decreases n,
    {
        if n == 0 {
            Map::empty()
        } else {
            let before = self.progress((n - 1) as nat);
            let input = self.inputs[n - 1];
            self.states((n - 1) as nat).insert(
                input.resource,
                self.resource_states(input, self.resource_round(input, before.0, before.1)),
            )
        }
    }

    /// The dispatched moves.
    pub open spec fn dispatched(self) -> Seq<transition::Move> {
        moves_in(self.progress(self.inputs.len()).1)
    }
}

/// Two moves of the same replica.
pub open spec fn same_replica(a: transition::Move, b: transition::Move) -> bool {
    a.resource == b.resource && a.partition == b.partition && a.instance == b.instance
}

/// The number of replicas of a partition in `state`.
fn count_in_state(
    entries: &OrderedMap<PartitionId, OrderedMap<InstanceId, State>>,
    partition: &PartitionId,
    state: &State,
) -> (r: usize)
    ensures
        r == in_state(row_of(entries@, partition@), state@),
{
    match entries.get(partition) {
        None => {
            proof {
                empty_row();
            }
            0
        },
        Some(row) => {
            let n: usize = row.len();
            count_in_row(row, n, state)
        },
    }
}

proof fn empty_row()
    ensures
        ordered::in_order::<InstanceId, Seq<char>>(Map::empty()) == Row::empty(),
{
    let s = Row::empty();
    assert(ordered::map_of(s) =~= Map::<Seq<char>, Seq<char>>::empty()) by {
        assert forall|k: Seq<char>| !ordered::map_of(s).dom().contains(k) by {
            if ordered::map_of(s).dom().contains(k) {
                let i = ordered::map_of_position(s, k);
            }
        }
    }
    ordered::in_order_of_listing::<InstanceId, Seq<char>>(s);
}

/// The number of the first `m` listed replicas in `state`.
fn count_in_row(row: &OrderedMap<InstanceId, State>, m: usize, state: &State) -> (r: usize)
    requires
        m <= row.listing().len(),
    ensures
        r == in_state(row.listing().take(m as int), state@),
        r <= m,
        m == row.listing().len() ==> r == in_state(row.listing(), state@),
{
    let ghost all = row.listing();
    let mut c: usize = 0;
    let mut i: usize = 0;
    assert(all.take(0) =~= Seq::empty());
    while i < m
        invariant
            i <= m <= all.len(),
            all == row.listing(),
            c == in_state(all.take(i as int), state@),
            c <= i,
        decreases m - i,
    {
        proof {
            assert(all.take(i + 1).drop_last() =~= all.take(i as int));
            assert(all.take(i + 1).last() == all[i as int]);
        }
        if row.value_at(i).same(state) {
            c = c + 1;
        }
        i = i + 1;
    }
    proof {
        if m == all.len() {
            assert(all.take(m as int) =~= all);
        }
    }
    c
}

/// What the order of partitions looks at.
struct PartitionRank {
    has_top: bool,
    paired: usize,
    settled: usize,
}

fn partition_rank(
    current: &OrderedMap<PartitionId, OrderedMap<InstanceId, State>>,
    best: &OrderedMap<PartitionId, OrderedMap<InstanceId, State>>,
    partition: &PartitionId,
    top_state: &State,
) -> (r: PartitionRank)
    ensures
        r.has_top == (in_state(row_of(current@, partition@), top_state@) > 0),
        r.paired == paired(row_of(current@, partition@), row_of(best@, partition@)),
        r.settled == settled(
            row_of(current@, partition@),
            replica_state::instances_of(best@, partition@),
        ),
{
    let has_top = count_in_state(current, partition, top_state) > 0;
    match current.get(partition) {
        None => {
            proof {
                empty_row();
            }
            PartitionRank { has_top, paired: 0, settled: 0 }
        },
        Some(row) => {
            let n: usize = row.len();
            let ghost all = row.listing();
            let ghost best_row = replica_state::instances_of(best@, partition@);
            let mut paired_count: usize = 0;
            let mut settled_count: usize = 0;
            let mut i: usize = 0;
            assert(all.take(0) =~= Seq::empty());
            while i < n
                invariant
                    i <= n,
                    n == all.len(),
                    all == row.listing(),
                    best_row == replica_state::instances_of(best@, partition@),
                    paired_count == paired(all.take(i as int), row_of(best@, partition@)),
                    paired_count <= i,
                    settled_count == settled(all.take(i as int), best_row),
                    settled_count <= i,
                decreases n - i,
            {
                proof {
                    assert(all.take(i + 1).drop_last() =~= all.take(i as int));
                    assert(all.take(i + 1).last() == all[i as int]);
                }
                let instance = row.key_at(i);
                let state = row.value_at(i);
                if count_in_row(row, i, state) < count_in_state(best, partition, state) {
                    paired_count = paired_count + 1;
                }
                let in_place = match best.get(partition) {
                    Some(best_states) => match best_states.get(instance) {
                        Some(desired) => desired.same(state),
                        None => false,
                    },
                    None => false,
                };
                if in_place {
                    settled_count = settled_count + 1;
                }
                i = i + 1;
            }
            assert(all.take(n as int) =~= all);
            PartitionRank { has_top, paired: paired_count, settled: settled_count }
        },
    }
}

/// Whether one partition goes before another.
fn partition_goes_first(
    resource: &ResourceTransitionInput,
    top_state: &State,
    left: &PartitionId,
    right: &PartitionId,
) -> (r: bool)
    ensures
        r == partition_ahead(resource@, top_state@, left@, right@),
{
    let current = resource.current_state.entries();
    let best = resource.best_possible_state.entries();
    let l = partition_rank(current, best, left, top_state);
    let r = partition_rank(current, best, right, top_state);
    if l.has_top != r.has_top {
        l.has_top
    } else if l.paired != r.paired {
        l.paired < r.paired
    } else if l.settled != r.settled {
        l.settled < r.settled
    } else {
        left.is_before(right)
    }
}

/// The partitions of the selected moves in the order in which they are tried.
fn sort_partitions(resource: &ResourceTransitionInput, state_model: &StateModelDefinition) -> (r:
    Vec<PartitionId>)
    ensures
        r.deep_view() == lists::stable_sort(
            |a: Seq<char>, b: Seq<char>| partition_ahead(resource@, state_model@.states[0], a, b),
            ordered::members_in_order::<PartitionId>(partitions_of(resource@.selected)),
        ),
{
    let ghost lt = |a: Seq<char>, b: Seq<char>|
        partition_ahead(resource@, state_model@.states[0], a, b);
    let ghost moves = resource@.selected;
    let mut set: OrderedSet<PartitionId> = OrderedSet::new();
    let mut i: usize = 0;
    while i < resource.selected_transitions.len()
        invariant
            i <= resource.selected_transitions@.len(),
            moves == resource.selected_transitions.deep_view(),
            forall|p: Seq<char>| #[trigger]
                set@.contains(p) ==> exists|j: int|
                    0 <= j < i && (#[trigger] moves[j]).partition == p,
            forall|j: int| 0 <= j < i ==> set@.contains((#[trigger] moves[j]).partition),
        decreases resource.selected_transitions@.len() - i,
    {
        let ghost before = set@;
        assert(resource.selected_transitions[i as int]@ == moves[i as int]);
        set.insert(resource.selected_transitions[i].partition().duplicate());
        proof {
            assert forall|p: Seq<char>| #[trigger] set@.contains(p) implies exists|j: int|
                0 <= j < i + 1 && (#[trigger] moves[j]).partition == p by {
                if before.contains(p) {
                    let j = choose|j: int| 0 <= j < i && (#[trigger] moves[j]).partition == p;
                    assert(moves[j].partition == p);
                } else {
                    assert(moves[i as int].partition == p);
                }
            }
        }
        i = i + 1;
    }
    assert(set@ =~= partitions_of(moves));
    let top_state = state_model.highest_priority_state();
    let n: usize = set.len();
    let ghost all = set.listing();
    let mut out: Vec<PartitionId> = Vec::new();
    let mut k: usize = 0;
    assert(all.take(0) =~= Seq::empty());
    assert(out.deep_view() =~= Seq::empty());
    while k < n
        invariant
            k <= n,
            n == all.len(),
            all == set.listing(),
            top_state@ == state_model@.states[0],
            lt == (|a: Seq<char>, b: Seq<char>|
                partition_ahead(resource@, state_model@.states[0], a, b)),
            out.deep_view() == lists::stable_sort(lt, all.take(k as int)),
        decreases n - k,
    {
        let partition = set.at(k);
        let ghost sorted = out.deep_view();
        proof {
            assert(all.take(k + 1).drop_last() =~= all.take(k as int));
            assert(all.take(k + 1).last() == partition@);
        }
        let mut p: usize = 0;
        assert(sorted.take(0) =~= Seq::empty());
        while p < out.len() && !partition_goes_first(resource, top_state, partition, &out[p])
            invariant
                p <= out@.len(),
                sorted == out.deep_view(),
                top_state@ == state_model@.states[0],
                lt == (|a: Seq<char>, b: Seq<char>|
                    partition_ahead(resource@, state_model@.states[0], a, b)),
                lists::slot(lt, sorted.take(p as int), partition@) == p,
            decreases out@.len() - p,
        {
            proof {
                assert(sorted.take(p + 1).drop_last() =~= sorted.take(p as int));
                assert(sorted.take(p + 1).last() == out[p as int]@);
            }
            p = p + 1;
        }
        proof {
            if p < sorted.len() {
                assert(sorted.take(p + 1).drop_last() =~= sorted.take(p as int));
                assert(sorted.take(p + 1).last() == out[p as int]@);
                lists::slot_prefix(lt, sorted, partition@, p + 1);
            } else {
                assert(sorted.take(p as int) =~= sorted);
            }
        }
        out.insert(p, partition.duplicate());
        assert(out.deep_view() =~= sorted.insert(p as int, partition@));
        k = k + 1;
    }
    assert(all.take(n as int) =~= all);
    out
}

/// Whether one move goes before another.
fn message_goes_first(
    resource: &ResourceTransitionInput,
    state_model: &StateModelDefinition,
    left: &TransitionRequest,
    right: &TransitionRequest,
) -> (r: bool)
    ensures
        r == message_ahead(resource@, state_model@, left@, right@),
{
    if !left.target_state().same(right.target_state()) {
        let states = state_model.states_in_priority_order();
        return lists::position(states, left.target_state()) < lists::position(
            states,
            right.target_state(),
        );
    }
    let left_position = preference_position(resource, left);
    let right_position = preference_position(resource, right);
    match (left_position, right_position) {
        (None, Some(_)) => true,
        (Some(_), None) => false,
        (Some(i), Some(j)) => if i != j {
            i < j
        } else {
            left.instance().is_before(right.instance())
        },
        (None, None) => left.instance().is_before(right.instance()),
    }
}

fn preference_position(resource: &ResourceTransitionInput, m: &TransitionRequest) -> (r: Option<
    usize,
>)
    ensures
        match r {
            Some(i) => preference(resource@, m@) == Some(i as nat),
            None => preference(resource@, m@) is None,
        },
{
    match resource.preference_lists.get(m.partition()) {
        Some(list) => {
            let i: usize = lists::position(list, m.instance());
            if i < list.len() {
                Some(i)
            } else {
                None
            }
        },
        None => None,
    }
}

/// The selected moves of a partition in the order in which they are tried.
fn sort_messages(
    resource: &ResourceTransitionInput,
    partition: &PartitionId,
    state_model: &StateModelDefinition,
) -> (r: Vec<TransitionRequest>)
    ensures
        r.deep_view() == lists::stable_sort(
            |a: transition::Move, b: transition::Move|
                message_ahead(resource@, state_model@, a, b),
            of_partition(resource@.selected, partition@),
        ),
{
    let ghost lt = |a: transition::Move, b: transition::Move|
        message_ahead(resource@, state_model@, a, b);
    let ghost moves = resource@.selected;
    let mut out: Vec<TransitionRequest> = Vec::new();
    let mut k: usize = 0;
    assert(moves.take(0) =~= Seq::empty());
    assert(out.deep_view() =~= Seq::empty());
    while k < resource.selected_transitions.len()
        invariant
            k <= resource.selected_transitions@.len(),
            moves == resource.selected_transitions.deep_view(),
            lt == (|a: transition::Move, b: transition::Move|
                message_ahead(resource@, state_model@, a, b)),
            out.deep_view() == lists::stable_sort(lt, of_partition(moves.take(k as int), partition@)),
        decreases resource.selected_transitions@.len() - k,
    {
        let m = &resource.selected_transitions[k];
        let ghost before = of_partition(moves.take(k as int), partition@);
        let ghost sorted = out.deep_view();
        proof {
            assert(moves.take(k + 1).drop_last() =~= moves.take(k as int));
            assert(moves.take(k + 1).last() == m@);
        }
        if m.partition().same(partition) {
            proof {
                assert(before.push(m@).drop_last() =~= before);
            }
            let mut p: usize = 0;
            assert(sorted.take(0) =~= Seq::empty());
            while p < out.len() && !message_goes_first(resource, state_model, m, &out[p])
                invariant
                    p <= out@.len(),
                    sorted == out.deep_view(),
                    lt == (|a: transition::Move, b: transition::Move|
                        message_ahead(resource@, state_model@, a, b)),
                    lists::slot(lt, sorted.take(p as int), m@) == p,
                decreases out@.len() - p,
            {
                proof {
                    assert(sorted.take(p + 1).drop_last() =~= sorted.take(p as int));
                    assert(sorted.take(p + 1).last() == out[p as int]@);
                }
                p = p + 1;
            }
            proof {
                if p < sorted.len() {
                    assert(sorted.take(p + 1).drop_last() =~= sorted.take(p as int));
                    assert(sorted.take(p + 1).last() == out[p as int]@);
                    lists::slot_prefix(lt, sorted, m@, p + 1);
                } else {
                    assert(sorted.take(p as int) =~= sorted);
                }
            }
            out.insert(p, m.duplicate());
            assert(out.deep_view() =~= sorted.insert(p as int, m@));
        }
        k = k + 1;
    }
    assert(moves.take(resource.selected_transitions@.len() as int) =~= moves);
    out
}

/// The number of listed instances that are live.
fn count_live(list: &Vec<InstanceId>, live_instances: &OrderedSet<InstanceId>) -> (r: usize)
    ensures
        r == live_of(list.deep_view(), live_instances@),
        r <= list@.len(),
{
    let ghost all = list.deep_view();
    let mut c: usize = 0;
    let mut i: usize = 0;
    assert(all.take(0) =~= Seq::empty());
    while i < list.len()
        invariant
            i <= list@.len(),
            all == list.deep_view(),
            c == live_of(all.take(i as int), live_instances@),
            c <= i,
        decreases list@.len() - i,
    {
        proof {
            assert(all.take(i + 1).drop_last() =~= all.take(i as int));
            assert(all.take(i + 1).last() == list[i as int]@);
        }
        if live_instances.contains(&list[i]) {
            c = c + 1;
        }
        i = i + 1;
    }
    assert(all.take(list@.len() as int) =~= all);
    c
}

/// The counts of `m` as numbers without a bound.
spec fn counts_of(m: Map<Seq<char>, usize>) -> Map<Seq<char>, nat> {
    Map::new(|k: Seq<char>| m.dom().contains(k), |k: Seq<char>| m[k] as nat)
}

/// How many replicas of which state a partition needs.
fn required_states(
    resource: &ResourceTransitionInput,
    partition: &PartitionId,
    live_instances: &OrderedSet<InstanceId>,
    state_model: &StateModelDefinition,
) -> (r: OrderedMap<State, usize>)
    ensures
        counts_of(r@) == required(resource@, partition@, live_instances@, state_model@),
{
    let mut remaining_candidates: usize = match resource.preference_lists.get(partition) {
        Some(list) => count_live(list, live_instances),
        None => 0,
    };
    let mut remaining_replicas: usize = match resource.min_active_replicas {
        Some(n) => n,
        None => resource.replicas,
    };
    let mut result: OrderedMap<State, usize> = OrderedMap::new();
    let ghost start = Needs {
        candidates: remaining_candidates as nat,
        replicas: remaining_replicas as nat,
        counts: Map::empty(),
    };
    let states = state_model.states_in_priority_order();
    let mut i: usize = 0;
    assert(counts_of(result@) =~= start.counts);
    while i < states.len()
        invariant
            i <= states@.len(),
            states.deep_view() == state_model@.states,
            ({
                let needs = fixed_needs(state_model@, start, i as nat);
                &&& needs.candidates == remaining_candidates
                &&& needs.replicas == remaining_replicas
                &&& needs.counts == counts_of(result@)
            }),
        decreases states@.len() - i,
    {
        let ghost before = fixed_needs(state_model@, start, i as nat);
        let state = &states[i];
        assert(state@ == state_model@.states[i as int]);
        if remaining_candidates > 0 {
            match state_model.cardinality_for(state) {
                Some(StateCardinality::Exact(count)) => {
                    if count > 0 {
                        let limit: usize = count as usize;
                        let taken: usize = if limit <= remaining_candidates {
                            limit
                        } else {
                            remaining_candidates
                        };
                        remaining_candidates = remaining_candidates - taken;
                        remaining_replicas = if remaining_replicas <= taken {
                            0
                        } else {
                            remaining_replicas - taken
                        };
                        result.insert(state.duplicate(), taken);
                        assert(counts_of(result@) =~= before.counts.insert(state@, taken as nat));
                    }
                },
                Some(StateCardinality::NodeCount) => {
                    let taken: usize = remaining_candidates;
                    result.insert(state.duplicate(), taken);
                    remaining_replicas = if remaining_replicas <= taken {
                        0
                    } else {
                        remaining_replicas - taken
                    };
                    remaining_candidates = 0;
                    assert(counts_of(result@) =~= before.counts.insert(state@, taken as nat));
                },
                _ => {},
            }
        }
        i = i + 1;
    }
    if remaining_candidates > 0 && remaining_replicas > 0 {
        let ghost fixed = counts_of(result@);
        let mut j: usize = 0;
        let mut found = false;
        while j < states.len() && !found
            invariant
                j <= states@.len(),
                states.deep_view() == state_model@.states,
                !found ==> replica_state_among(state_model@, j as nat) is None && counts_of(result@)
                    == fixed,
                found ==> ({
                    let state = replica_state_among(state_model@, states@.len() as nat);
                    &&& state is Some
                    &&& counts_of(result@) == fixed.insert(
                        state->0,
                        least(remaining_candidates as nat, remaining_replicas as nat),
                    )
                }),
            decreases states@.len() - j + if found { 0int } else { 1int },
        {
            let state = &states[j];
            assert(state@ == state_model@.states[j as int]);
            let all_replicas = match state_model.cardinality_for(state) {
                Some(StateCardinality::ReplicaCount) => true,
                _ => false,
            };
            if all_replicas {
                let taken: usize = if remaining_candidates <= remaining_replicas {
                    remaining_candidates
                } else {
                    remaining_replicas
                };
                result.insert(state.duplicate(), taken);
                proof {
                    assert(counts_of(result@) =~= fixed.insert(state@, taken as nat));
                    assert(replica_state_among(state_model@, (j + 1) as nat) == Some(state@));
                    among_prefix(state_model@, (j + 1) as nat, states@.len() as nat);
                }
                found = true;
            } else {
                j = j + 1;
            }
        }
    }
    result
}

proof fn among_prefix(model: state_model::StateModelView, i: nat, n: nat)
    requires
        i <= n,
        replica_state_among(model, i) is Some,
    ensures
        replica_state_among(model, n) == replica_state_among(model, i),
    decreases n,
{
    if i < n {
        among_prefix(model, i, (n - 1) as nat);
    }
}

/// Whether moving a replica recovers a required replica or balances load.
fn rebalance_type(
    required_counts: &OrderedMap<State, usize>,
    current: &OrderedMap<PartitionId, OrderedMap<InstanceId, State>>,
    partition: &PartitionId,
    target: &State,
) -> (r: RebalanceType)
    ensures
        r == kind_of(counts_of(required_counts@), row_of(current@, partition@), target@),
{
    match required_counts.get(target) {
        Some(count) => if count_in_state(current, partition, target) < *count {
            RebalanceType::RecoveryBalance
        } else {
            RebalanceType::LoadBalance
        },
        None => RebalanceType::LoadBalance,
    }
}

/// Complete a move: a dropped replica is gone.
fn complete_move(
    states: &mut OrderedMap<PartitionId, OrderedMap<InstanceId, State>>,
    partition: &PartitionId,
    instance: &InstanceId,
    target: &State,
    Ghost(m): Ghost<transition::Move>,
)
    requires
        m.partition == partition@,
        m.instance == instance@,
        m.target == target@,
    ensures
        final(states)@ == completed(old(states)@, m),
{
    if target.is_dropped() {
        let ghost before = states@;
        match states.remove(partition) {
            Some(mut row) => {
                row.remove(instance);
                states.insert(partition.duplicate(), row);
                assert(states@ =~= before.insert(
                    partition@,
                    before[partition@].remove(instance@),
                ));
            },
            None => {
                assert(states@ =~= before);
            },
        }
    } else {
        place(states, partition, instance, target);
    }
}

/// Put one replica in `state`.
fn place(
    states: &mut OrderedMap<PartitionId, OrderedMap<InstanceId, State>>,
    partition: &PartitionId,
    instance: &InstanceId,
    state: &State,
)
    ensures
        final(states)@ == replica_state::placed(old(states)@, partition@, instance@, state@),
{
    let ghost before = states@;
    let mut row = match states.remove(partition) {
        Some(row) => row,
        None => OrderedMap::new(),
    };
    row.insert(instance.duplicate(), state.duplicate());
    states.insert(partition.duplicate(), row);
    assert(states@ =~= replica_state::placed(before, partition@, instance@, state@));
}

/// Complete the pending moves of a resource.
fn apply_pending(
    states: &mut OrderedMap<PartitionId, OrderedMap<InstanceId, State>>,
    pending: &Vec<OperationalPendingTransition>,
    resource: &ResourceId,
)
    ensures
        final(states)@ == completed_pending(old(states)@, pending.deep_view(), resource@),
{
    let ghost start = states@;
    let ghost all = pending.deep_view();
    let mut i: usize = 0;
    assert(all.take(0) =~= Seq::empty());
    while i < pending.len()
        invariant
            i <= pending@.len(),
            all == pending.deep_view(),
            states@ == completed_pending(start, all.take(i as int), resource@),
        decreases pending@.len() - i,
    {
        let transition = &pending[i];
        proof {
            assert(all.take(i + 1).drop_last() =~= all.take(i as int));
            assert(all.take(i + 1).last() == transition@);
        }
        if transition.resource().same(resource) {
            complete_move(
                states,
                transition.partition(),
                transition.instance(),
                transition.target_state(),
                Ghost(transition@),
            );
        }
        i = i + 1;
    }
    assert(all.take(pending@.len() as int) =~= all);
}

/// Whether the list holds the move of a request.
fn holds_move(list: &Vec<TransitionRequest>, m: &TransitionRequest) -> (r: bool)
    ensures
        r == list.deep_view().contains(m@),
{
    let ghost all = list.deep_view();
    let mut i: usize = 0;
    while i < list.len()
        invariant
            i <= list@.len(),
            all == list.deep_view(),
            forall|j: int| 0 <= j < i ==> #[trigger] all[j] != m@,
        decreases list@.len() - i,
    {
        if list[i].same(m) {
            assert(all[i as int] == m@);
            return true;
        }
        assert(all[i as int] == list[i as int]@);
        i = i + 1;
    }
    false
}

/// Whether the move of a request is pending.
fn is_pending(pending: &Vec<OperationalPendingTransition>, m: &TransitionRequest) -> (r: bool)
    ensures
        r == pending.deep_view().contains(m@),
{
    let ghost all = pending.deep_view();
    let mut i: usize = 0;
    while i < pending.len()
        invariant
            i <= pending@.len(),
            all == pending.deep_view(),
            forall|j: int| 0 <= j < i ==> #[trigger] all[j] != m@,
        decreases pending@.len() - i,
    {
        if pending[i].same_move(m) {
            assert(all[i as int] == m@);
            return true;
        }
        assert(all[i as int] == pending[i as int]@);
        i = i + 1;
    }
    false
}

/// Complete the selected moves that were dispatched.
fn apply_dispatched(
    states: &mut OrderedMap<PartitionId, OrderedMap<InstanceId, State>>,
    selected: &Vec<TransitionRequest>,
    dispatched: &Vec<TransitionRequest>,
)
    ensures
        final(states)@ == completed_dispatched(
            old(states)@,
            selected.deep_view(),
            dispatched.deep_view(),
        ),
{
    let ghost start = states@;
    let ghost all = selected.deep_view();
    let mut i: usize = 0;
    assert(all.take(0) =~= Seq::empty());
    while i < selected.len()
        invariant
            i <= selected@.len(),
            all == selected.deep_view(),
            states@ == completed_dispatched(start, all.take(i as int), dispatched.deep_view()),
        decreases selected@.len() - i,
    {
        let m = &selected[i];
        proof {
            assert(all.take(i + 1).drop_last() =~= all.take(i as int));
            assert(all.take(i + 1).last() == m@);
        }
        if holds_move(dispatched, m) {
            complete_move(states, m.partition(), m.instance(), m.target_state(), Ghost(m@));
        }
        i = i + 1;
    }
    assert(all.take(selected@.len() as int) =~= all);
}

proof fn selected_fault_prefix(v: StageView, input: InputView, i: nat, n: nat)
    requires
        i <= n,
        v.selected_fault(input, i) is Some,
    ensures
        v.selected_fault(input, n) == v.selected_fault(input, i),
    decreases n,
{
    if i < n {
        selected_fault_prefix(v, input, i, (n - 1) as nat);
    }
}

fn validate_selected(
    resource: &ResourceTransitionInput,
    state_model: &StateModelDefinition,
    Ghost(v): Ghost<StageView>,
) -> (r: Result<(), IntermediateThrottleError>)
    requires
        v.model == state_model@,
    ensures
        match r {
            Ok(()) => v.selected_fault(resource@, resource@.selected.len()) is None,
            Err(error) => v.selected_fault(resource@, resource@.selected.len()) == Some(error@),
        },
{
    let ghost input = resource@;
    let mut i: usize = 0;
    while i < resource.selected_transitions.len()
        invariant
            i <= resource.selected_transitions@.len(),
            input == resource@,
            v.model == state_model@,
            v.selected_fault(input, i as nat) is None,
        decreases resource.selected_transitions@.len() - i,
    {
        let transition = &resource.selected_transitions[i];
        assert(transition@ == input.selected[i as int]);
        if !transition.resource().same(&resource.resource) {
            proof {
                assert(v.selected_fault(input, (i + 1) as nat) is Some);
                selected_fault_prefix(v, input, (i + 1) as nat, input.selected.len());
            }
            return Err(
                IntermediateThrottleError::ResourceMismatch {
                    expected: resource.resource.duplicate(),
                    actual: transition.resource().duplicate(),
                },
            );
        }
        let known = match resource.preference_lists.get(transition.partition()) {
            None => false,
            Some(list) => list.len() > 0 || message_selection::is_drop_path(
                transition.partition(),
                transition.source_state(),
                transition.target_state(),
                &resource.current_state,
                state_model,
            ),
        };
        if !known {
            proof {
                assert(v.selected_fault(input, (i + 1) as nat) is Some);
                selected_fault_prefix(v, input, (i + 1) as nat, input.selected.len());
            }
            return Err(
                IntermediateThrottleError::UnknownSelectedPartition {
                    resource: resource.resource.duplicate(),
                    partition: transition.partition().duplicate(),
                },
            );
        }
        i = i + 1;
    }
    Ok(())
}

/// Count the pending moves of a resource against the quotas.
fn charge_pending(
    resource: &ResourceTransitionInput,
    pending: &Vec<OperationalPendingTransition>,
    live_instances: &OrderedSet<InstanceId>,
    state_model: &StateModelDefinition,
    controller: &mut ThrottleController,
    Ghost(v): Ghost<StageView>,
)
    requires
        v.model == state_model@,
        v.live == live_instances@,
        v.pending == pending.deep_view(),
    ensures
        final(controller)@ == v.charged_pending(
            old(controller)@,
            resource@,
            v.pending.len(),
        ),
{
    let ghost start = controller@;
    let ghost input = resource@;
    let mut i: usize = 0;
    while i < pending.len()
        invariant
            i <= pending@.len(),
            input == resource@,
            v.model == state_model@,
            v.live == live_instances@,
            v.pending == pending.deep_view(),
            controller@ == v.charged_pending(start, input, i as nat),
        decreases pending@.len() - i,
    {
        let transition = &pending[i];
        assert(transition@ == v.pending[i as int]);
        if transition.resource().same(&resource.resource) {
            let waiting = match resource.current_state.state(
                transition.partition(),
                transition.instance(),
            ) {
                Some(state) => state.same(transition.source_state()) && !state.same(
                    transition.target_state(),
                ),
                None => false,
            };
            if waiting {
                let needs = required_states(
                    resource,
                    transition.partition(),
                    live_instances,
                    state_model,
                );
                let kind = rebalance_type(
                    &needs,
                    resource.current_state.entries(),
                    transition.partition(),
                    transition.target_state(),
                );
                controller.charge(kind, &resource.resource, transition.instance());
            }
        }
        i = i + 1;
    }
}

/// Try the selected moves of one partition.
fn dispatch_partition(
    resource: &ResourceTransitionInput,
    partition: &PartitionId,
    pending: &Vec<OperationalPendingTransition>,
    live_instances: &OrderedSet<InstanceId>,
    state_model: &StateModelDefinition,
    controller: &mut ThrottleController,
    derived: &mut OrderedMap<PartitionId, OrderedMap<InstanceId, State>>,
    dispatchable: &mut Vec<TransitionRequest>,
    Ghost(v): Ghost<StageView>,
    Ghost(log): Ghost<Seq<Dispatch>>,
) -> (new_log: Ghost<Seq<Dispatch>>)
    requires
        v.model == state_model@,
        v.live == live_instances@,
        v.pending == pending.deep_view(),
        old(dispatchable).deep_view() == moves_in(log),
    ensures
        ({
            let before = Round { quotas: old(controller)@, derived: old(derived)@, log };
            let after = v.stepped_all(resource@, before, v.messages(resource@, partition@));
            &&& final(controller)@ == after.quotas
            &&& final(derived)@ == after.derived
            &&& new_log@ == after.log
            &&& final(dispatchable).deep_view() == moves_in(after.log)
        }),
{
    let ghost input = resource@;
    let ghost before = Round { quotas: controller@, derived: derived@, log };
    let ghost mut current = log;
    let messages = sort_messages(resource, partition, state_model);
    let needs = required_states(resource, partition, live_instances, state_model);
    let ghost all = messages.deep_view();
    proof {
        lists::stable_sort_permutes(
            |a: transition::Move, b: transition::Move| message_ahead(input, v.model, a, b),
            of_partition(input.selected, partition@),
        );
    }
    let mut i: usize = 0;
    assert(all.take(0) =~= Seq::empty());
    while i < messages.len()
        invariant
            i <= messages@.len(),
            input == resource@,
            v.model == state_model@,
            v.live == live_instances@,
            v.pending == pending.deep_view(),
            all == messages.deep_view(),
            counts_of(needs@) == required(input, partition@, v.live, v.model),
            forall|m: transition::Move| #[trigger]
                all.contains(m) ==> of_partition(input.selected, partition@).contains(m),
            ({
                let round = v.stepped_all(input, before, all.take(i as int));
                &&& controller@ == round.quotas
                &&& derived@ == round.derived
                &&& current == round.log
                &&& dispatchable.deep_view() == moves_in(round.log)
            }),
        decreases messages@.len() - i,
    {
        let transition = &messages[i];
        let ghost round = v.stepped_all(input, before, all.take(i as int));
        proof {
            assert(all.take(i + 1).drop_last() =~= all.take(i as int));
            assert(all.take(i + 1).last() == transition@);
            assert(all[i as int] == transition@);
            assert(all.contains(transition@));
            of_partition_members(input.selected, partition@, transition@);
        }
        if !is_pending(pending, transition) {
            let kind = rebalance_type(
                &needs,
                derived,
                transition.partition(),
                transition.target_state(),
            );
            if !controller.should_throttle(kind, &resource.resource, transition.instance()) {
                controller.charge(kind, &resource.resource, transition.instance());
                place(
                    derived,
                    transition.partition(),
                    transition.instance(),
                    transition.target_state(),
                );
                let ghost so_far = dispatchable.deep_view();
                dispatchable.push(transition.duplicate());
                proof {
                    current = current.push((transition@, kind));
                    assert(dispatchable.deep_view() =~= so_far.push(transition@));
                    assert(moves_in(current) =~= so_far.push(transition@));
                }
            }
        }
        i = i + 1;
    }
    assert(all.take(messages@.len() as int) =~= all);
    Ghost(current)
}

/// The moves of a partition are its selected moves.
pub proof fn of_partition_members(
    selected: Seq<transition::Move>,
    partition: Seq<char>,
    m: transition::Move,
)
    ensures
        of_partition(selected, partition).contains(m) <==> selected.contains(m) && m.partition
            == partition,
    decreases selected.len(),
{
    if selected.len() > 0 {
        let rest = selected.drop_last();
        let c = selected.last();
        let before = of_partition(rest, partition);
        let all = of_partition(selected, partition);
        of_partition_members(rest, partition, m);
        if selected.contains(m) && c != m {
            assert(rest[selected.index_of(m)] == m);
        }
        if rest.contains(m) {
            assert(selected[rest.index_of(m)] == m);
        }
        if before.contains(m) {
            assert(all[before.index_of(m)] == m);
        }
        if all.contains(m) && !before.contains(m) {
            let i = all.index_of(m);
            if i < before.len() {
                assert(before[i] == m);
            }
        }
        if all.len() > before.len() {
            assert(all[before.len() as int] == c);
        }
        if c == m {
            assert(selected[selected.len() - 1] == m);
        }
    }
}

/// Try the selected moves of one resource.
fn dispatch_resource(
    resource: &ResourceTransitionInput,
    pending: &Vec<OperationalPendingTransition>,
    live_instances: &OrderedSet<InstanceId>,
    state_model: &StateModelDefinition,
    controller: &mut ThrottleController,
    dispatchable: &mut Vec<TransitionRequest>,
    Ghost(v): Ghost<StageView>,
    Ghost(log): Ghost<Seq<Dispatch>>,
) -> (r: (OrderedMap<PartitionId, OrderedMap<InstanceId, State>>, Ghost<Seq<Dispatch>>))
    requires
        v.model == state_model@,
        v.live == live_instances@,
        v.pending == pending.deep_view(),
        old(dispatchable).deep_view() == moves_in(log),
        resource@.selected.len() > 0,
    ensures
        ({
            let after = v.resource_round(resource@, old(controller)@, log);
            &&& final(controller)@ == after.quotas
            &&& r.0@ == v.resource_states(resource@, after)
            &&& r.1@ == after.log
            &&& final(dispatchable).deep_view() == moves_in(after.log)
        }),
{
    let ghost input = resource@;
    let ghost before = Round { quotas: controller@, derived: input.current, log };
    let ghost mut current = log;
    let mut derived = resource.current_state.entries().duplicate();
    let order = sort_partitions(resource, state_model);
    let ghost all = order.deep_view();
    let mut i: usize = 0;
    assert(all.take(0) =~= Seq::empty());
    while i < order.len()
        invariant
            i <= order@.len(),
            input == resource@,
            v.model == state_model@,
            v.live == live_instances@,
            v.pending == pending.deep_view(),
            all == order.deep_view(),
            ({
                let round = v.partitions_tried(input, before, all.take(i as int));
                &&& controller@ == round.quotas
                &&& derived@ == round.derived
                &&& current == round.log
                &&& dispatchable.deep_view() == moves_in(round.log)
            }),
        decreases order@.len() - i,
    {
        let ghost round = v.partitions_tried(input, before, all.take(i as int));
        proof {
            assert(all.take(i + 1).drop_last() =~= all.take(i as int));
            assert(all.take(i + 1).last() == order[i as int]@);
            assert(round =~= (Round { quotas: controller@, derived: derived@, log: current }));
        }
        let new_log = dispatch_partition(
            resource,
            &order[i],
            pending,
            live_instances,
            state_model,
            controller,
            &mut derived,
            dispatchable,
            Ghost(v),
            Ghost(current),
        );
        proof {
            current = new_log@;
        }
        i = i + 1;
    }
    assert(all.take(order@.len() as int) =~= all);
    apply_pending(&mut derived, pending, &resource.resource);
    apply_dispatched(&mut derived, &resource.selected_transitions, dispatchable);
    (derived, Ghost(current))
}

proof fn stray_prefix(v: StageView, i: nat, n: nat)
    requires
        i <= n,
        v.stray_pending(i) is Some,
    ensures
        v.stray_pending(n) == v.stray_pending(i),
    decreases n,
{
    if i < n {
        stray_prefix(v, i, (n - 1) as nat);
    }
}

proof fn repeated_prefix(v: StageView, i: nat, n: nat)
    requires
        i <= n,
        v.repeated_pending(i) is Some,
    ensures
        v.repeated_pending(n) == v.repeated_pending(i),
    decreases n,
{
    if i < n {
        repeated_prefix(v, i, (n - 1) as nat);
    }
}

proof fn inputs_prefix(v: StageView, i: nat, n: nat)
    requires
        i <= n,
        v.inputs_fault(i) is Some,
    ensures
        v.inputs_fault(n) == v.inputs_fault(i),
    decreases n,
{
    if i < n {
        inputs_prefix(v, i, (n - 1) as nat);
    }
}

fn check_resources(resources: &Vec<ResourceTransitionInput>, Ghost(v): Ghost<StageView>) -> (r:
    Result<(OrderedSet<ResourceId>, Vec<ResourceId>), IntermediateThrottleError>)
    requires
        v.inputs == resources.deep_view(),
    ensures
        match r {
            Ok(known) => state_model::first_repeat(v.names()) is None && known.0@
                == v.names().to_set() && known.1.deep_view() == v.names(),
            Err(error) => state_model::first_repeat(v.names()) is Some && error@
                == ThrottleFault::DuplicateResource(state_model::first_repeat(v.names())->0),
        },
{
    let ghost names = v.names();
    let mut known: OrderedSet<ResourceId> = OrderedSet::new();
    let mut list: Vec<ResourceId> = Vec::new();
    let mut i: usize = 0;
    assert(names.take(0) =~= Seq::empty());
    assert(known@ =~= names.take(0).to_set());
    assert(list.deep_view() =~= names.take(0));
    while i < resources.len()
        invariant
            i <= resources@.len(),
            v.inputs == resources.deep_view(),
            names == v.names(),
            known@ == names.take(i as int).to_set(),
            list.deep_view() == names.take(i as int),
            state_model::first_repeat(names.take(i as int)) is None,
        decreases resources@.len() - i,
    {
        let resource = &resources[i].resource;
        let ghost before = names.take(i as int);
        let ghost after = names.take(i + 1);
        let ghost listed = list.deep_view();
        proof {
            assert(v.inputs[i as int] == resources[i as int]@);
            assert(names[i as int] == resource@);
            assert(after.drop_last() =~= before);
            assert(after =~= before.push(resource@));
            assert(before.to_set().contains(resource@) <==> before.contains(resource@));
        }
        if known.contains(resource) {
            proof {
                state_model::first_repeat_prefix(names, i + 1);
            }
            return Err(IntermediateThrottleError::DuplicateResource(resource.duplicate()));
        }
        known.insert(resource.duplicate());
        list.push(resource.duplicate());
        proof {
            assert(list.deep_view() =~= listed.push(resource@));
            assert(known@ =~= after.to_set()) by {
                assert forall|x: Seq<char>| after.to_set().contains(x) <==> (
                before.to_set().contains(x) || x == resource@) by {
                    if before.contains(x) {
                        assert(after[before.index_of(x)] == x);
                    }
                    if x == resource@ {
                        assert(after[i as int] == x);
                    }
                    if after.contains(x) {
                        let j = after.index_of(x);
                        if j < i {
                            assert(before[j] == x);
                        }
                    }
                }
            }
        }
        i = i + 1;
    }
    assert(names.take(resources@.len() as int) =~= names);
    Ok((known, list))
}

fn check_pending(
    known: &OrderedSet<ResourceId>,
    pending: &Vec<OperationalPendingTransition>,
    Ghost(v): Ghost<StageView>,
) -> (r: Result<(), IntermediateThrottleError>)
    requires
        known@ == v.names().to_set(),
        v.pending == pending.deep_view(),
    ensures
        match r {
            Ok(()) => v.stray_pending(v.pending.len()) is None && v.repeated_pending(
                v.pending.len(),
            ) is None,
            Err(error) => Some(error@) == if v.stray_pending(v.pending.len()) is Some {
                v.stray_pending(v.pending.len())
            } else {
                v.repeated_pending(v.pending.len())
            },
        },
{
    let mut i: usize = 0;
    while i < pending.len()
        invariant
            i <= pending@.len(),
            known@ == v.names().to_set(),
            v.pending == pending.deep_view(),
            v.stray_pending(i as nat) is None,
        decreases pending@.len() - i,
    {
        let resource = pending[i].resource();
        proof {
            assert(v.pending[i as int] == pending[i as int]@);
            assert(v.names().to_set().contains(resource@) <==> v.names().contains(resource@));
        }
        if !known.contains(resource) {
            proof {
                assert(v.stray_pending((i + 1) as nat) is Some);
                stray_prefix(v, (i + 1) as nat, v.pending.len());
            }
            return Err(IntermediateThrottleError::UnknownPendingResource(resource.duplicate()));
        }
        i = i + 1;
    }
    let mut k: usize = 0;
    while k < pending.len()
        invariant
            k <= pending@.len(),
            v.pending == pending.deep_view(),
            v.stray_pending(v.pending.len()) is None,
            v.repeated_pending(k as nat) is None,
        decreases pending@.len() - k,
    {
        let transition = &pending[k];
        assert(v.pending[k as int] == transition@);
        let mut j: usize = 0;
        while j < k
            invariant
                j <= k < pending@.len(),
                v.pending == pending.deep_view(),
                v.pending[k as int] == transition@,
                v.stray_pending(v.pending.len()) is None,
                v.repeated_pending(k as nat) is None,
                forall|a: int| 0 <= a < j ==> !same_replica(#[trigger] v.pending[a], transition@),
            decreases k - j,
        {
            assert(v.pending[j as int] == pending[j as int]@);
            if pending[j].resource().same(transition.resource()) && pending[j].partition().same(
                transition.partition(),
            ) && pending[j].instance().same(transition.instance()) {
                proof {
                    assert(same_replica(v.pending[j as int], transition@));
                    assert(v.repeated_pending((k + 1) as nat) is Some);
                    repeated_prefix(v, (k + 1) as nat, v.pending.len());
                }
                return Err(
                    IntermediateThrottleError::DuplicatePendingTransition {
                        partition: transition.partition().duplicate(),
                        instance: transition.instance().duplicate(),
                    },
                );
            }
            j = j + 1;
        }
        k = k + 1;
    }
    Ok(())
}

/// Compute the intermediate state and apply the state-transition quotas.
pub fn compute_intermediate_and_throttle(
    resources: &Vec<ResourceTransitionInput>,
    live_instances: &OrderedSet<InstanceId>,
    pending: &Vec<OperationalPendingTransition>,
    throttle_configs: &Vec<StateTransitionThrottleConfig>,
    state_model: &StateModelDefinition,
) -> (r: Result<IntermediateThrottleResult, IntermediateThrottleError>)
    ensures
        ({
            let v = StageView {
                inputs: resources.deep_view(),
                live: live_instances@,
                pending: pending.deep_view(),
                configs: throttle_configs.deep_view(),
                model: state_model@,
            };
            match r {
                Ok(result) => v.fault() is None && result.moves() == v.dispatched()
                    && result.states() == v.states(v.inputs.len()),
                Err(error) => v.fault() == Some(error@),
            }
        }),
{
    let ghost v = StageView {
        inputs: resources.deep_view(),
        live: live_instances@,
        pending: pending.deep_view(),
        configs: throttle_configs.deep_view(),
        model: state_model@,
    };
    let known = match check_resources(resources, Ghost(v)) {
        Ok(known) => known,
        Err(error) => {
            return Err(error);
        },
    };
    match check_pending(&known.0, pending, Ghost(v)) {
        Ok(()) => {},
        Err(error) => {
            return Err(error);
        },
    }
    let mut controller = ThrottleController::new(&known.1, live_instances, throttle_configs);
    let mut c: usize = 0;
    while c < resources.len()
        invariant
            c <= resources@.len(),
            v.inputs == resources.deep_view(),
            v.live == live_instances@,
            v.pending == pending.deep_view(),
            v.model == state_model@,
            controller@ == v.opening(c as nat),
        decreases resources@.len() - c,
    {
        assert(v.inputs[c as int] == resources[c as int]@);
        charge_pending(
            &resources[c],
            pending,
            live_instances,
            state_model,
            &mut controller,
            Ghost(v),
        );
        c = c + 1;
    }
    let mut dispatchable: Vec<TransitionRequest> = Vec::new();
    let mut intermediate: OrderedMap<
        ResourceId,
        OrderedMap<PartitionId, OrderedMap<InstanceId, State>>,
    > = OrderedMap::new();
    let ghost mut log = Seq::<Dispatch>::empty();
    let mut i: usize = 0;
    assert(dispatchable.deep_view() =~= moves_in(log));
    while i < resources.len()
        invariant
            i <= resources@.len(),
            v.inputs == resources.deep_view(),
            v.live == live_instances@,
            v.pending == pending.deep_view(),
            v.model == state_model@,
            v.configs == throttle_configs.deep_view(),
            state_model::first_repeat(v.names()) is None,
            v.stray_pending(v.pending.len()) is None,
            v.repeated_pending(v.pending.len()) is None,
            v.inputs_fault(i as nat) is None,
            (controller@, log) == v.progress(i as nat),
            dispatchable.deep_view() == moves_in(log),
            intermediate@ == v.states(i as nat),
        decreases resources@.len() - i,
    {
        let resource = &resources[i];
        assert(v.inputs[i as int] == resource@);
        match validate_selected(resource, state_model, Ghost(v)) {
            Ok(()) => {},
            Err(error) => {
                proof {
                    assert(v.inputs_fault((i + 1) as nat) is Some);
                    inputs_prefix(v, (i + 1) as nat, v.inputs.len());
                }
                return Err(error);
            },
        }
        if resource.selected_transitions.len() == 0 {
            proof {
                idle_resource(v, resource@, controller@, log);
            }
            intermediate.insert(
                resource.resource.duplicate(),
                resource.best_possible_state.entries().duplicate(),
            );
        } else {
            let (derived, new_log) = dispatch_resource(
                resource,
                pending,
                live_instances,
                state_model,
                &mut controller,
                &mut dispatchable,
                Ghost(v),
                Ghost(log),
            );
            proof {
                log = new_log@;
            }
            intermediate.insert(resource.resource.duplicate(), derived);
        }
        i = i + 1;
    }
    Ok(
        IntermediateThrottleResult::new(
            IntermediateState::from_states(intermediate),
            dispatchable,
        ),
    )
}

/// A resource without selected moves changes no quota and dispatches nothing.
proof fn idle_resource(
    v: StageView,
    input: InputView,
    quotas: quota::QuotasView,
    log: Seq<Dispatch>,
)
    requires
        input.selected.len() == 0,
    ensures
        v.resource_round(input, quotas, log) == (Round { quotas, derived: input.current, log }),
{
    let none = partitions_of(input.selected);
    assert(none =~= Set::empty());
    let m = Map::new(|k: Seq<char>| none.contains(k), |k: Seq<char>| ());
    assert(m =~= Map::<Seq<char>, ()>::empty());
    let s = Seq::<(Seq<char>, ())>::empty();
    assert(ordered::map_of(s) =~= m) by {
        assert forall|k: Seq<char>| !ordered::map_of(s).dom().contains(k) by {
            if ordered::map_of(s).dom().contains(k) {
                let i = ordered::map_of_position(s, k);
            }
        }
    }
    ordered::in_order_of_listing::<PartitionId, ()>(s);
    assert(ordered::members_in_order::<PartitionId>(none) =~= Seq::empty());
    assert(v.partition_order(input) =~= Seq::empty());
}

} // verus!
