//! The outputs that a controller computes from one snapshot.
use crate::controller::error::{ControllerRuntimeError, RuntimeFault};
use crate::controller::message_generation;
use crate::controller::message_selection;
use crate::controller::message_throttle::{
    self, OperationalPendingTransition, ResourceTransitionInput,
};
use crate::controller::observed;
use crate::controller::pending::{self, ReconcileMode};
use crate::controller::plans::{self, AssignmentAnswer, AssignmentRequest, PlansStep, ResourcePlan};
use crate::controller::published::{self, PublishedTransition};
use crate::controller::records::{self, Decoded, InstanceConfigRecord, ResourceEntry, ThrottleRecord};
use crate::coordination::etcd::snapshot;
use crate::coordination::etcd::CoordinationSnapshot;
use crate::model::builtins;
use crate::model::ideal_state;
use crate::model::replica_state;
use crate::model::session;
use crate::model::state_model;
use crate::model::{
    leader_standby, BestPossibleState, CurrentState, ExternalView, IdealState, InstanceId,
    LiveInstance, PartitionId, ResourceId, StateModelDefinition,
};
use crate::ordered::{self, Duplicate, OrderedMap, OrderedSet};
use crate::text;
use crate::transition;
use crate::transition::TransitionRequest;
use vstd::prelude::*;
use vstd::string::*;

verus! {

/// The decoded metadata that a controller plans with.
pub struct ControllerMetadata {
    pub instance_configs: Decoded<Vec<InstanceConfigRecord>>,
    pub resources: Vec<ResourceEntry>,
    pub throttles: Decoded<Vec<ThrottleRecord>>,
}

/// The decoded metadata that a controller plans with.
pub struct ControllerMetadataView {
    pub configs: records::DecodedView<Seq<records::ConfigView>>,
    pub resources: Seq<records::ResourceEntryView>,
    pub throttles: records::DecodedView<Seq<records::ThrottleRecordView>>,
}

impl View for ControllerMetadata {
    type V = ControllerMetadataView;

    open spec fn view(&self) -> ControllerMetadataView {
        ControllerMetadataView {
            configs: self.instance_configs@,
            resources: self.resources.deep_view(),
            throttles: self.throttles@,
        }
    }
}

/// A request for the best possible states of a resource.
pub struct PlacementRequest {
    pub ideal: IdealState,
    pub planning_state: CurrentState,
    pub live: OrderedSet<InstanceId>,
}

/// What a placement request says.
#[verifier::ext_equal]
pub struct PlacementRequestView {
    pub ideal: ideal_state::IdealStateView,
    pub planning: replica_state::Replicas,
    pub live: Set<Seq<char>>,
}

impl View for PlacementRequest {
    type V = PlacementRequestView;

    open spec fn view(&self) -> PlacementRequestView {
        PlacementRequestView {
            ideal: self.ideal@,
            planning: self.planning_state@,
            live: self.live@,
        }
    }
}

/// The answer to a placement request: the best possible states, or a message.
pub struct PlacementAnswer {
    pub best: Result<BestPossibleState, String>,
}

impl DeepView for PlacementAnswer {
    type V = Result<replica_state::Replicas, Seq<char>>;

    open spec fn deep_view(&self) -> Result<replica_state::Replicas, Seq<char>> {
        match self.best {
            Ok(best) => Ok(best@),
            Err(message) => Err(message@),
        }
    }
}

/// What the planning of one resource comes to.
pub enum InputOutcome {
    /// The input of the transition stages.
    Input(message_throttle::InputView),
    /// The best possible states must be computed first.
    Ask(PlacementRequestView),
    /// The resource cannot be planned.
    Fail(Seq<char>),
}

/// The preference lists of a plan, with an empty list for each other partition
/// that has a state.
pub open spec fn with_observed(
    lists: Map<Seq<char>, Seq<Seq<char>>>,
    planning: replica_state::Replicas,
) -> Map<Seq<char>, Seq<Seq<char>>> {
    Map::new(
        |p: Seq<char>| lists.dom().contains(p) || planning.dom().contains(p),
        |p: Seq<char>|
            if lists.dom().contains(p) {
                lists[p]
            } else {
                Seq::<Seq<char>>::empty()
            },
    )
}

/// What the planning of one resource comes to, given the answer to its
/// placement request where there is one.
pub open spec fn input_of(
    plan: plans::PlanView,
    actual: session::Resources,
    live: Set<Seq<char>>,
    moves: Seq<transition::Move>,
    model: state_model::StateModelView,
    answer: Option<Result<replica_state::Replicas, Seq<char>>>,
) -> InputOutcome {
    let planning = observed::normalized(
        observed::replicas_of(actual, plan.resource),
        plan.ideal.lists,
        live,
        model.initial,
    );
    let best = if plan.ideal.lists == plans::Lists::empty() {
        Some(Ok(replica_state::Replicas::empty()))
    } else {
        answer
    };
    match best {
        None => InputOutcome::Ask(PlacementRequestView { ideal: plan.ideal, planning, live }),
        Some(Err(message)) => InputOutcome::Fail(message),
        Some(Ok(best)) => match message_generation::generation_fault(planning, best) {
            Some(fault) => InputOutcome::Fail(fault.text()),
            None => {
                let selection = message_selection::SelectionView {
                    resource: plan.resource,
                    lists: plan.ideal.lists,
                    current: planning,
                    live,
                    candidates: message_generation::moves_of(
                        plan.resource,
                        planning,
                        replica_state::cells(best),
                        model,
                    ),
                    pending: pending::of_resource(moves, plan.resource),
                    model,
                };
                match selection.fault() {
                    Some(fault) => InputOutcome::Fail(fault.text()),
                    None => InputOutcome::Input(
                        message_throttle::InputView {
                            resource: plan.resource,
                            replicas: plan.ideal.replicas,
                            min_active: None,
                            lists: with_observed(plan.ideal.lists, planning),
                            current: planning,
                            best,
                            selected: selection.selected(),
                        },
                    ),
                }
            },
        },
    }
}

/// What the planning of all resources comes to.
pub enum InputsOutcome {
    /// The inputs of the transition stages, and how many answers they took.
    Inputs(Seq<message_throttle::InputView>, nat),
    Ask(PlacementRequestView),
    Fail(Seq<char>),
}

/// What the planning of the resources comes to, given the answers so far.
pub open spec fn inputs_of(
    all: Seq<plans::PlanView>,
    actual: session::Resources,
    live: Set<Seq<char>>,
    moves: Seq<transition::Move>,
    model: state_model::StateModelView,
    answers: Seq<Result<replica_state::Replicas, Seq<char>>>,
) -> InputsOutcome
    decreases all.len(),
{
    if all.len() == 0 {
        InputsOutcome::Inputs(Seq::empty(), 0)
    } else {
        match inputs_of(all.drop_last(), actual, live, moves, model, answers) {
            InputsOutcome::Inputs(before, used) => {
                let answer = if used < answers.len() {
                    Some(answers[used as int])
                } else {
                    None
                };
                match input_of(all.last(), actual, live, moves, model, answer) {
                    InputOutcome::Input(input) => InputsOutcome::Inputs(
                        before.push(input),
                        if all.last().ideal.lists == plans::Lists::empty() {
                            used
                        } else {
                            used + 1
                        },
                    ),
                    InputOutcome::Ask(request) => InputsOutcome::Ask(request),
                    InputOutcome::Fail(message) => InputsOutcome::Fail(message),
                }
            },
            outcome => outcome,
        }
    }
}

proof fn inputs_prefix(
    all: Seq<plans::PlanView>,
    actual: session::Resources,
    live: Set<Seq<char>>,
    moves: Seq<transition::Move>,
    model: state_model::StateModelView,
    answers: Seq<Result<replica_state::Replicas, Seq<char>>>,
    i: int,
)
    requires
        0 <= i <= all.len(),
        inputs_of(all.take(i), actual, live, moves, model, answers) !is Inputs,
    ensures
        inputs_of(all, actual, live, moves, model, answers) == inputs_of(
            all.take(i),
            actual,
            live,
            moves,
            model,
            answers,
        ),
    decreases all.len(),
{
    if i == all.len() {
        assert(all.take(i) =~= all);
    } else {
        assert(all.drop_last().take(i) =~= all.take(i));
        inputs_prefix(all.drop_last(), actual, live, moves, model, answers, i);
    }
}

/// The first message that asks a session for a move.
pub open spec fn existing_message(
    messages: Seq<published::PublishedView>,
    m: transition::Move,
    session: u64,
) -> Option<published::PublishedView>
    decreases messages.len(),
{
    if messages.len() == 0 {
        None
    } else {
        match existing_message(messages.drop_last(), m, session) {
            Some(message) => Some(message),
            None => if messages.last().asks_for(m, session) {
                Some(messages.last())
            } else {
                None
            },
        }
    }
}

proof fn existing_prefix(
    messages: Seq<published::PublishedView>,
    m: transition::Move,
    session: u64,
    i: int,
)
    requires
        0 <= i <= messages.len(),
        existing_message(messages.take(i), m, session) is Some,
    ensures
        existing_message(messages, m, session) == existing_message(messages.take(i), m, session),
    decreases messages.len(),
{
    if i == messages.len() {
        assert(messages.take(i) =~= messages);
    } else {
        assert(messages.drop_last().take(i) =~= messages.take(i));
        existing_prefix(messages.drop_last(), m, session, i);
    }
}

/// The identity of a new message: the revision that it was planned at and its
/// position among the dispatched moves.
pub open spec fn new_message_id(revision: i64, ordinal: nat) -> Seq<char> {
    "m10:"@ + text::signed_decimal(revision as int) + ":"@ + text::decimal(ordinal)
}

/// The message that asks a session for a dispatched move. A message that was
/// already published keeps its identity.
pub open spec fn message_for(
    original: Seq<published::PublishedView>,
    m: transition::Move,
    session: u64,
    revision: i64,
    ordinal: nat,
) -> published::PublishedView {
    published::PublishedView {
        resource: m.resource,
        partition: m.partition,
        instance: m.instance,
        target_session: session,
        from: m.source,
        to: m.target,
        message_type: "STATE_TRANSITION"@,
        message_id: match existing_message(original, m, session) {
            Some(existing) => existing.message_id,
            None => new_message_id(revision, ordinal),
        },
    }
}

/// A message for the same replica is among the messages.
pub open spec fn has_replica(
    messages: Seq<published::PublishedView>,
    message: published::PublishedView,
) -> bool {
    exists|i: int| 0 <= i < messages.len() && (#[trigger] messages[i]).same_replica(message)
}

/// The pending messages after the first `n` dispatched moves: each move of a
/// live instance adds a message, unless one for its replica is pending.
pub open spec fn appended(
    kept: Seq<published::PublishedView>,
    original: Seq<published::PublishedView>,
    moves: Seq<transition::Move>,
    live: Map<Seq<char>, (Seq<char>, u64)>,
    revision: i64,
) -> Seq<published::PublishedView>
    decreases moves.len(),
{
    if moves.len() == 0 {
        kept
    } else {
        let before = appended(kept, original, moves.drop_last(), live, revision);
        let m = moves.last();
        if !live.dom().contains(m.instance) {
            before
        } else {
            let message = message_for(
                original,
                m,
                live[m.instance].1,
                revision,
                (moves.len() - 1) as nat,
            );
            if has_replica(before, message) {
                before
            } else {
                before.push(message)
            }
        }
    }
}

/// The messages in order, each once.
pub open spec fn in_order(messages: Seq<published::PublishedView>) -> Seq<
    published::PublishedView,
> {
    ordered::members_in_order::<PublishedTransition>(messages.to_set())
}

/// Everything that the outputs of a controller depend on.
pub struct PlanningView {
    pub snapshot: snapshot::CoordinationView,
    pub metadata: ControllerMetadataView,
    pub pending: Seq<published::PublishedView>,
    pub mode: ReconcileMode,
    pub assignments: Seq<Result<plans::Lists, Seq<char>>>,
    pub placements: Seq<Result<replica_state::Replicas, Seq<char>>>,
}

/// What the planning comes to.
pub enum PlanningOutcome {
    /// The partitions of a resource must be assigned first.
    Assign(plans::AssignmentView),
    /// The best possible states of a resource must be computed first.
    Place(PlacementRequestView),
    /// The external view and the pending messages.
    Outputs(session::Resources, Seq<published::PublishedView>),
    /// The input cannot be planned.
    Fail(Seq<char>),
}

impl PlanningView {
    /// The live instances.
    pub open spec fn live(self) -> Set<Seq<char>> {
        self.snapshot.participants.live.dom()
    }

    /// The observed states, given the configured zones.
    pub open spec fn actual(self, zones: Map<Seq<char>, Seq<char>>) -> session::Resources {
        observed::observed(self.snapshot.participants.active, zones, self.live())
    }

    /// The messages that are still pending.
    pub open spec fn kept(
        self,
        zones: Map<Seq<char>, Seq<char>>,
        all: Seq<plans::PlanView>,
    ) -> Seq<published::PublishedView> {
        pending::retained(
            self.pending,
            self.snapshot.participants.live,
            self.actual(zones),
            all,
            self.mode == ReconcileMode::SessionReplacement,
        )
    }

    /// The throttles. A new leader is not throttled.
    pub open spec fn throttles(self) -> Result<
        Seq<crate::controller::quota::ThrottleView>,
        Seq<char>,
    > {
        if self.mode == ReconcileMode::Startup {
            Ok(Seq::empty())
        } else {
            records::configured_throttles(self.metadata.throttles)
        }
    }

    /// The pending messages after the dispatched moves.
    pub open spec fn published(
        self,
        zones: Map<Seq<char>, Seq<char>>,
        all: Seq<plans::PlanView>,
        moves: Seq<transition::Move>,
    ) -> Seq<published::PublishedView> {
        in_order(
            appended(
                self.kept(zones, all),
                self.pending,
                moves,
                self.snapshot.participants.live,
                self.snapshot.revision,
            ),
        )
    }

    /// The transition stages of the planned resources.
    pub open spec fn stage(
        self,
        zones: Map<Seq<char>, Seq<char>>,
        all: Seq<plans::PlanView>,
        inputs: Seq<message_throttle::InputView>,
        configs: Seq<crate::controller::quota::ThrottleView>,
    ) -> message_throttle::StageView {
        message_throttle::StageView {
            inputs,
            live: self.live(),
            pending: pending::reserved(self.kept(zones, all), all, self.mode),
            configs,
            model: builtins::leader_standby_parts().model(),
        }
    }

    /// What the planning comes to.
    pub open spec fn outcome(self) -> PlanningOutcome {
        match records::configured_zones(self.metadata.configs) {
            Err(message) => PlanningOutcome::Fail(message),
            Ok(zones) => match plans::plans_of(
                self.metadata.resources,
                zones,
                self.live(),
                self.assignments,
            ) {
                plans::PlansOutcome::Fail(message) => PlanningOutcome::Fail(message),
                plans::PlansOutcome::Ask(request) => PlanningOutcome::Assign(request),
                plans::PlansOutcome::Plans(all, _) => match inputs_of(
                    all,
                    self.actual(zones),
                    self.live(),
                    pending::reserved(self.kept(zones, all), all, self.mode),
                    builtins::leader_standby_parts().model(),
                    self.placements,
                ) {
                    InputsOutcome::Fail(message) => PlanningOutcome::Fail(message),
                    InputsOutcome::Ask(request) => PlanningOutcome::Place(request),
                    InputsOutcome::Inputs(inputs, _) => match self.throttles() {
                        Err(message) => PlanningOutcome::Fail(message),
                        Ok(configs) => {
                            let stage = self.stage(zones, all, inputs, configs);
                            match stage.fault() {
                                Some(fault) => PlanningOutcome::Fail(fault.text()),
                                None => PlanningOutcome::Outputs(
                                    self.actual(zones),
                                    self.published(zones, all, stage.dispatched()),
                                ),
                            }
                        },
                    },
                },
            },
        }
    }
}

/// The outputs of a controller.
pub struct ControllerOutputs {
    pub external_view: ExternalView,
    pub pending: Vec<PublishedTransition>,
}

/// What the planning comes to.
pub enum PlanningStep {
    /// The partitions of a resource must be assigned first.
    Assign(AssignmentRequest),
    /// The best possible states of a resource must be computed first.
    Place(PlacementRequest),
    /// The planning is over.
    Finished(Result<ControllerOutputs, ControllerRuntimeError>),
}

impl PlanningStep {
    /// The step is what the planning comes to.
    pub open spec fn matches(self, outcome: PlanningOutcome) -> bool {
        match (self, outcome) {
            (PlanningStep::Assign(request), PlanningOutcome::Assign(model)) => request@ == model,
            (PlanningStep::Place(request), PlanningOutcome::Place(model)) => request@ == model,
            (
                PlanningStep::Finished(Ok(outputs)),
                PlanningOutcome::Outputs(external, messages),
            ) => outputs.external_view@ == external && outputs.pending.deep_view() == messages,
            (PlanningStep::Finished(Err(error)), PlanningOutcome::Fail(message)) => error@
                == RuntimeFault::of_message(message),
            _ => false,
        }
    }
}

enum InputStep {
    Input(ResourceTransitionInput),
    Ask(PlacementRequest),
    Fail(ControllerRuntimeError),
}

impl InputStep {
    spec fn matches(self, outcome: InputOutcome) -> bool {
        match (self, outcome) {
            (InputStep::Input(input), InputOutcome::Input(model)) => input@ == model,
            (InputStep::Ask(request), InputOutcome::Ask(model)) => request@ == model,
            (InputStep::Fail(error), InputOutcome::Fail(message)) => error@
                == RuntimeFault::of_message(message),
            _ => false,
        }
    }
}

enum InputsStep {
    Inputs(Vec<ResourceTransitionInput>),
    Ask(PlacementRequest),
    Fail(ControllerRuntimeError),
}

impl InputsStep {
    spec fn matches(self, outcome: InputsOutcome) -> bool {
        match (self, outcome) {
            (InputsStep::Inputs(inputs), InputsOutcome::Inputs(model, _)) => inputs.deep_view()
                == model,
            (InputsStep::Ask(request), InputsOutcome::Ask(model)) => request@ == model,
            (InputsStep::Fail(error), InputsOutcome::Fail(message)) => error@
                == RuntimeFault::of_message(message),
            _ => false,
        }
    }
}

fn observed_lists(
    lists: &OrderedMap<PartitionId, Vec<InstanceId>>,
    planning: &CurrentState,
) -> (r: OrderedMap<PartitionId, Vec<InstanceId>>)
    ensures
        r@ == with_observed(lists@, planning@),
{
    let mut out = lists.duplicate();
    let entries = planning.entries();
    let ghost all = entries.listing();
    let n: usize = entries.len();
    let mut i: usize = 0;
    while i < n
        invariant
            i <= n,
            n == all.len(),
            all == entries.listing(),
            entries@ == planning@,
            ordered::lists::<PartitionId, Map<Seq<char>, Seq<char>>>(all, entries@),
            forall|p: Seq<char>| #[trigger]
                out@.dom().contains(p) ==> lists@.dom().contains(p) || planning@.dom().contains(p),
            forall|p: Seq<char>| #[trigger] lists@.dom().contains(p) ==> out@.dom().contains(p),
            forall|j: int| 0 <= j < i ==> out@.dom().contains((#[trigger] all[j]).0),
            forall|p: Seq<char>| #[trigger]
                out@.dom().contains(p) ==> out@[p] == if lists@.dom().contains(p) {
                    lists@[p]
                } else {
                    Seq::<Seq<char>>::empty()
                },
        decreases n - i,
    {
        let partition = entries.key_at(i);
        if !out.contains_key(partition) {
            let empty: Vec<InstanceId> = Vec::new();
            assert(empty.deep_view() =~= Seq::<Seq<char>>::empty());
            out.insert(partition.duplicate(), empty);
        }
        i = i + 1;
    }
    proof {
        assert forall|p: Seq<char>| planning@.dom().contains(p) implies out@.dom().contains(p) by {
            let j = ordered::map_of_position(all, p);
            assert(out@.dom().contains(all[j].0));
        }
        assert(out@ =~= with_observed(lists@, planning@));
    }
    out
}

fn resource_transition_input(
    plan: &ResourcePlan,
    actual: &OrderedMap<ResourceId, CurrentState>,
    live: &OrderedSet<InstanceId>,
    operational_pending: &Vec<OperationalPendingTransition>,
    model: &StateModelDefinition,
    answer: Option<&PlacementAnswer>,
) -> (r: InputStep)
    ensures
        r.matches(
            input_of(
                plan.deep_view(),
                actual@,
                live@,
                operational_pending.deep_view(),
                model@,
                answer.deep_view(),
            ),
        ),
{
    let planning = match actual.get(&plan.resource) {
        Some(states) => observed::normalize_current(
            states,
            plan.ideal.preference_lists(),
            live,
            model.initial_state(),
        ),
        None => observed::normalize_current(
            &CurrentState::default(),
            plan.ideal.preference_lists(),
            live,
            model.initial_state(),
        ),
    };
    let best = if plan.ideal.preference_lists().is_empty() {
        BestPossibleState::default()
    } else {
        match answer {
            None => {
                return InputStep::Ask(
                    PlacementRequest {
                        ideal: plan.ideal.duplicate(),
                        planning_state: planning,
                        live: live.duplicate(),
                    },
                );
            },
            Some(answer) => match &answer.best {
                Ok(best) => best.duplicate(),
                Err(message) => {
                    return InputStep::Fail(ControllerRuntimeError::message(message.clone()));
                },
            },
        }
    };
    let candidates = match message_generation::generate_transitions(
        &plan.resource,
        &planning,
        &best,
        model,
    ) {
        Ok(candidates) => candidates,
        Err(error) => {
            return InputStep::Fail(ControllerRuntimeError::message(error.to_string()));
        },
    };
    let reserved = pending::pending_for_resource(&plan.resource, operational_pending);
    let lists = observed_lists(plan.ideal.preference_lists(), &planning);
    let selected = match message_selection::select_transitions(
        &plan.resource,
        &plan.ideal,
        &planning,
        live,
        &candidates,
        &reserved,
        model,
    ) {
        Ok(selected) => selected,
        Err(error) => {
            return InputStep::Fail(ControllerRuntimeError::message(error.to_string()));
        },
    };
    InputStep::Input(
        ResourceTransitionInput::new(
            plan.resource.duplicate(),
            plan.ideal.replicas(),
            None,
            lists,
            planning,
            best,
            selected,
        ),
    )
}

fn transition_inputs(
    all: &Vec<ResourcePlan>,
    actual: &OrderedMap<ResourceId, CurrentState>,
    live: &OrderedSet<InstanceId>,
    operational_pending: &Vec<OperationalPendingTransition>,
    model: &StateModelDefinition,
    answers: &Vec<PlacementAnswer>,
) -> (r: InputsStep)
    ensures
        r.matches(
            inputs_of(
                all.deep_view(),
                actual@,
                live@,
                operational_pending.deep_view(),
                model@,
                answers.deep_view(),
            ),
        ),
{
    let ghost models = all.deep_view();
    let ghost given = answers.deep_view();
    let ghost moves = operational_pending.deep_view();
    let mut inputs: Vec<ResourceTransitionInput> = Vec::new();
    let mut used: usize = 0;
    let mut i: usize = 0;
    assert(models.take(0) =~= Seq::empty());
    assert(inputs.deep_view() =~= Seq::empty());
    while i < all.len()
        invariant
            i <= all@.len(),
            used <= i,
            models == all.deep_view(),
            given == answers.deep_view(),
            moves == operational_pending.deep_view(),
            inputs_of(models.take(i as int), actual@, live@, moves, model@, given)
                == InputsOutcome::Inputs(inputs.deep_view(), used as nat),
        decreases all@.len() - i,
    {
        let ghost before = inputs.deep_view();
        proof {
            assert(models.take(i + 1).drop_last() =~= models.take(i as int));
            assert(models.take(i + 1).last() == all@[i as int].deep_view());
            if inputs_of(models.take(i + 1), actual@, live@, moves, model@, given) !is Inputs {
                inputs_prefix(models, actual@, live@, moves, model@, given, i + 1);
            }
        }
        let answer = if used < answers.len() {
            assert(given[used as int] == answers@[used as int].deep_view());
            Some(&answers[used])
        } else {
            None
        };
        let takes = !all[i].ideal.preference_lists().is_empty();
        match resource_transition_input(
            &all[i],
            actual,
            live,
            operational_pending,
            model,
            answer,
        ) {
            InputStep::Input(input) => {
                let ghost model_input = input@;
                inputs.push(input);
                assert(inputs.deep_view() =~= before.push(model_input));
            },
            InputStep::Ask(request) => {
                return InputsStep::Ask(request);
            },
            InputStep::Fail(error) => {
                return InputsStep::Fail(error);
            },
        }
        if takes {
            used = used + 1;
        }
        i = i + 1;
    }
    assert(models.take(all@.len() as int) =~= models);
    InputsStep::Inputs(inputs)
}

fn find_existing<'a>(
    messages: &'a Vec<PublishedTransition>,
    transition: &TransitionRequest,
    session: u64,
) -> (r: Option<&'a PublishedTransition>)
    ensures
        r.deep_view() == existing_message(messages.deep_view(), transition@, session),
{
    let ghost all = messages.deep_view();
    let mut i: usize = 0;
    assert(all.take(0) =~= Seq::empty());
    while i < messages.len()
        invariant
            i <= messages@.len(),
            all == messages.deep_view(),
            existing_message(all.take(i as int), transition@, session) is None,
        decreases messages@.len() - i,
    {
        proof {
            assert(all.take(i + 1).drop_last() =~= all.take(i as int));
            assert(all.take(i + 1).last() == messages@[i as int]@);
        }
        if published::same_transition(&messages[i], transition, session) {
            proof {
                existing_prefix(all, transition@, session, i + 1);
            }
            return Some(&messages[i]);
        }
        i = i + 1;
    }
    assert(all.take(messages@.len() as int) =~= all);
    None
}

fn any_for_replica(messages: &Vec<PublishedTransition>, message: &PublishedTransition) -> (r: bool)
    ensures
        r == has_replica(messages.deep_view(), message@),
{
    let ghost all = messages.deep_view();
    let mut i: usize = 0;
    while i < messages.len()
        invariant
            i <= messages@.len(),
            all == messages.deep_view(),
            forall|j: int| 0 <= j < i ==> !(#[trigger] all[j]).same_replica(message@),
        decreases messages@.len() - i,
    {
        assert(all[i as int] == messages@[i as int]@);
        if published::same_replica(&messages[i], message) {
            return true;
        }
        i = i + 1;
    }
    false
}

fn transition_message(
    original: &Vec<PublishedTransition>,
    transition: &TransitionRequest,
    session: u64,
    revision: i64,
    ordinal: usize,
) -> (r: PublishedTransition)
    ensures
        r@ == message_for(
            original.deep_view(),
            transition@,
            session,
            revision,
            ordinal as nat,
        ),
{
    let message_id = match find_existing(original, transition, session) {
        Some(existing) => existing.message_id.clone(),
        None => "m10:".to_owned().concat(text::signed_decimal_of(revision).as_str()).concat(
            ":",
        ).concat(text::decimal_of(ordinal as u64).as_str()),
    };
    PublishedTransition {
        resource: transition.resource().to_string(),
        partition: transition.partition().to_string(),
        instance: transition.instance().to_string(),
        target_session: session,
        from: transition.source_state().to_string(),
        to: transition.target_state().to_string(),
        message_type: "STATE_TRANSITION".to_owned(),
        message_id,
    }
}

fn append_dispatched(
    kept: Vec<PublishedTransition>,
    original: &Vec<PublishedTransition>,
    transitions: &Vec<TransitionRequest>,
    live: &OrderedMap<InstanceId, LiveInstance>,
    revision: i64,
) -> (r: Vec<PublishedTransition>)
    ensures
        r.deep_view() == appended(
            kept.deep_view(),
            original.deep_view(),
            transitions.deep_view(),
            live@,
            revision,
        ),
{
    let ghost start = kept.deep_view();
    let ghost moves = transitions.deep_view();
    let mut out = kept;
    let mut i: usize = 0;
    assert(moves.take(0) =~= Seq::empty());
    while i < transitions.len()
        invariant
            i <= transitions@.len(),
            moves == transitions.deep_view(),
            out.deep_view() == appended(
                start,
                original.deep_view(),
                moves.take(i as int),
                live@,
                revision,
            ),
        decreases transitions@.len() - i,
    {
        let ghost before = out.deep_view();
        proof {
            assert(moves.take(i + 1).drop_last() =~= moves.take(i as int));
            assert(moves.take(i + 1).last() == transitions@[i as int]@);
            assert(moves.take(i + 1).len() == i + 1);
        }
        if let Some(found) = live.get(transitions[i].instance()) {
            let session: u64 = found.session_id().wire_value();
            let message = transition_message(original, &transitions[i], session, revision, i);
            if !any_for_replica(&out, &message) {
                let ghost model = message@;
                out.push(message);
                assert(out.deep_view() =~= before.push(model));
            }
        }
        i = i + 1;
    }
    assert(moves.take(transitions@.len() as int) =~= moves);
    out
}

fn sorted_messages(messages: Vec<PublishedTransition>) -> (r: Vec<PublishedTransition>)
    ensures
        r.deep_view() == in_order(messages.deep_view()),
{
    let ghost all = messages.deep_view();
    let mut set: OrderedSet<PublishedTransition> = OrderedSet::new();
    let mut i: usize = 0;
    assert(all.take(0).to_set() =~= Set::empty());
    while i < messages.len()
        invariant
            i <= messages@.len(),
            all == messages.deep_view(),
            set@ == all.take(i as int).to_set(),
        decreases messages@.len() - i,
    {
        proof {
            let a = all.take(i as int);
            let b = all.take(i + 1);
            assert(b =~= a.push(all[i as int]));
            assert(b.to_set() =~= a.to_set().insert(all[i as int])) by {
                assert forall|x: published::PublishedView|
                    b.to_set().contains(x) == a.to_set().insert(all[i as int]).contains(x) by {
                    if b.contains(x) {
                        let k = b.index_of(x);
                        if k < i {
                            assert(a[k] == x);
                        }
                    }
                    if a.contains(x) {
                        let k = a.index_of(x);
                        assert(b[k] == x);
                    }
                    assert(b[i as int] == all[i as int]);
                }
            }
            assert(all[i as int] == messages@[i as int]@);
        }
        set.insert(messages[i].duplicate());
        i = i + 1;
    }
    assert(all.take(messages@.len() as int) =~= all);
    let ghost listing = set.listing();
    let n: usize = set.len();
    let mut out: Vec<PublishedTransition> = Vec::new();
    let mut j: usize = 0;
    assert(out.deep_view() =~= listing.take(0));
    while j < n
        invariant
            j <= n,
            n == listing.len(),
            listing == set.listing(),
            out.deep_view() == listing.take(j as int),
        decreases n - j,
    {
        let ghost before = out.deep_view();
        out.push(set.at(j).duplicate());
        proof {
            assert(out.deep_view() =~= before.push(listing[j as int]));
            assert(listing.take(j + 1) =~= listing.take(j as int).push(listing[j as int]));
        }
        j = j + 1;
    }
    assert(listing.take(n as int) =~= listing);
    out
}

/// The live instances of a snapshot.
pub(crate) fn live_set(live: &OrderedMap<InstanceId, LiveInstance>) -> (r: OrderedSet<InstanceId>)
    ensures
        r@ == live@.dom(),
{
    let ghost all = live.listing();
    let mut out: OrderedSet<InstanceId> = OrderedSet::new();
    let n: usize = live.len();
    let mut i: usize = 0;
    proof {
        ordered::map_of_ends(all);
        assert(out@ =~= ordered::map_of(all.take(0)).dom());
    }
    while i < n
        invariant
            i <= n,
            n == all.len(),
            all == live.listing(),
            ordered::lists::<InstanceId, (Seq<char>, u64)>(all, live@),
            out@ == ordered::map_of(all.take(i as int)).dom(),
        decreases n - i,
    {
        proof {
            ordered::map_of_step::<InstanceId, (Seq<char>, u64)>(all, i as int);
        }
        let ghost before = out@;
        out.insert(live.key_at(i).duplicate());
        assert(out@ =~= ordered::map_of(all.take(i + 1)).dom());
        i = i + 1;
    }
    proof {
        ordered::map_of_ends(all);
    }
    out
}

fn failed(error: ControllerRuntimeError) -> (r: PlanningStep)
    ensures
        r == PlanningStep::Finished(Err(error)),
{
    PlanningStep::Finished(Err(error))
}

/// Compute the outputs of a controller from one snapshot, given the answers to
/// assignment and placement requests so far. Where another answer is needed it
/// is asked for.
pub fn compute_outputs_with_pending_policy(
    snapshot: &CoordinationSnapshot,
    metadata: &ControllerMetadata,
    pending: &Vec<PublishedTransition>,
    mode: ReconcileMode,
    assignments: &Vec<AssignmentAnswer>,
    placements: &Vec<PlacementAnswer>,
) -> (r: PlanningStep)
    ensures
        r.matches(
            (PlanningView {
                snapshot: snapshot@,
                metadata: metadata@,
                pending: pending.deep_view(),
                mode,
                assignments: assignments.deep_view(),
                placements: placements.deep_view(),
            }).outcome(),
        ),
{
    let ghost v = PlanningView {
        snapshot: snapshot@,
        metadata: metadata@,
        pending: pending.deep_view(),
        mode,
        assignments: assignments.deep_view(),
        placements: placements.deep_view(),
    };
    let live_instances = snapshot.participants().live_instances();
    let live = live_set(live_instances);
    let zones = match records::instance_configs(&metadata.instance_configs) {
        Ok(zones) => zones,
        Err(error) => {
            return failed(error);
        },
    };
    let actual = observed::active_current_state(
        snapshot.participants().active_current_state(),
        &zones,
        &live,
    );
    assert(actual@ == v.actual(zones@));
    let all = match plans::resource_plans(&metadata.resources, &zones, &live, assignments) {
        PlansStep::Plans(all) => all,
        PlansStep::Ask(request) => {
            return PlanningStep::Assign(request);
        },
        PlansStep::Fail(error) => {
            return failed(error);
        },
    };
    let model = leader_standby();
    let strict = mode == ReconcileMode::SessionReplacement;
    let kept = pending::retain_pending(pending, live_instances, &actual, &all, strict);
    assert(kept.deep_view() == v.kept(zones@, all.deep_view()));
    let operational = pending::operational_pending_for_plans(&kept, &all, mode);
    let inputs = match transition_inputs(&all, &actual, &live, &operational, &model, placements) {
        InputsStep::Inputs(inputs) => inputs,
        InputsStep::Ask(request) => {
            return PlanningStep::Place(request);
        },
        InputsStep::Fail(error) => {
            return failed(error);
        },
    };
    let configs = if mode == ReconcileMode::Startup {
        let none: Vec<crate::controller::quota::StateTransitionThrottleConfig> = Vec::new();
        assert(none.deep_view() =~= Seq::empty());
        none
    } else {
        match records::throttles(&metadata.throttles) {
            Ok(configs) => configs,
            Err(error) => {
                return failed(error);
            },
        }
    };
    let throttle = match message_throttle::compute_intermediate_and_throttle(
        &inputs,
        &live,
        &operational,
        &configs,
        &model,
    ) {
        Ok(throttle) => throttle,
        Err(error) => {
            return failed(ControllerRuntimeError::message(error.to_string()));
        },
    };
    let messages = append_dispatched(
        kept,
        pending,
        throttle.dispatchable_transitions(),
        live_instances,
        snapshot.revision().value(),
    );
    PlanningStep::Finished(
        Ok(
            ControllerOutputs {
                external_view: ExternalView::from_current_states(actual),
                pending: sorted_messages(messages),
            },
        ),
    )
}

} // verus!
