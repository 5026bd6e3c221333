use clustodian::controller::quota::{
    RebalanceType, StateTransitionThrottleConfig, ThrottleController, ThrottleScope,
};
use clustodian::controller::{
    compute_intermediate_and_throttle, generate_transitions, select_transitions,
    IntermediateState, IntermediateThrottleError, MessageSelectionError,
    OperationalPendingTransition, ResourceTransitionInput, TransitionGenerationError,
};
use clustodian::model::{
    leader_standby, BestPossibleState, CurrentState, IdealState, InstanceId, PartitionId,
    ResourceId, State, StateCardinality, StateModelDefinition, Transition,
};
use clustodian::ordered::{OrderedMap, OrderedSet};
use clustodian::transition::{PendingTransition, TransitionRequest};

fn state(name: &str) -> State {
    State::new(name).expect("valid state")
}

fn instance(name: &str) -> InstanceId {
    InstanceId::new(name).expect("valid instance")
}

fn partition(name: &str) -> PartitionId {
    PartitionId::new(name).expect("valid partition")
}

fn resource() -> ResourceId {
    ResourceId::new("documents").expect("valid resource")
}

fn model() -> StateModelDefinition {
    let mut builder = StateModelDefinition::builder("custom");
    builder.initial_state(state("COLD"));
    builder.add_state(state("HOT"), StateCardinality::Exact(1));
    builder.add_state(state("WARM"), StateCardinality::ReplicaCount);
    builder.add_state(state("COLD"), StateCardinality::Unbounded);
    builder.add_state(state("REMOVED"), StateCardinality::Unbounded);
    builder.add_state(state("DROPPED"), StateCardinality::Unbounded);
    builder.add_transition(Transition::new(state("HOT"), state("WARM")));
    builder.add_transition(Transition::new(state("WARM"), state("HOT")));
    builder.add_transition(Transition::new(state("WARM"), state("COLD")));
    builder.add_transition(Transition::new(state("COLD"), state("WARM")));
    builder.add_transition(Transition::new(state("COLD"), state("REMOVED")));
    builder.add_transition(Transition::new(state("REMOVED"), state("DROPPED")));
    builder.build().expect("valid model")
}

fn case_sensitive_model() -> StateModelDefinition {
    let mut builder = StateModelDefinition::builder("case-sensitive");
    builder.initial_state(state("FOO"));
    builder.add_state(state("FOO"), StateCardinality::Exact(1));
    builder.add_state(state("foo"), StateCardinality::Unbounded);
    builder.add_state(state("DROPPED"), StateCardinality::Unbounded);
    builder.add_transition(Transition::new(state("FOO"), state("foo")));
    builder.add_transition(Transition::new(state("foo"), state("DROPPED")));
    builder.build().expect("valid case-sensitive model")
}

fn inputs(current_state: &str, target_state: &str) -> (CurrentState, BestPossibleState) {
    let mut current = CurrentState::builder();
    current
        .set_state(partition("p0"), instance("node-a"), state(current_state))
        .expect("unique current state");
    let mut target = BestPossibleState::builder();
    target
        .set_state(partition("p0"), instance("node-a"), state(target_state))
        .expect("unique target state");
    (current.build(), target.build())
}

#[test]
fn looks_up_and_exposes_deterministic_entries() {
    let documents = ResourceId::new("documents").unwrap();
    let p0 = PartitionId::new("p0").unwrap();
    let node = InstanceId::new("node-a").unwrap();
    let standby = State::new("STANDBY").unwrap();
    let mut replicas = OrderedMap::new();
    replicas.insert(node.clone(), standby.clone());
    let mut partitions = OrderedMap::new();
    partitions.insert(p0.clone(), replicas);
    let mut entries = OrderedMap::new();
    entries.insert(documents.clone(), partitions);
    let intermediate = IntermediateState::from_states(entries);
    assert_eq!(intermediate.state(&documents, &p0, &node), Some(&standby));
    assert!(intermediate
        .state(&documents, &PartitionId::new("missing").unwrap(), &node)
        .is_none());
    assert_eq!(intermediate.entries().len(), 1);
}

#[test]
fn stable_replica_generates_no_request() {
    let (current, target) = inputs("WARM", "WARM");
    assert!(generate_transitions(&resource(), &current, &target, &model())
        .expect("valid input")
        .is_empty());
}

#[test]
fn direct_and_multihop_transitions_use_model_next_hops() {
    let (current, target) = inputs("WARM", "HOT");
    let direct =
        generate_transitions(&resource(), &current, &target, &model()).expect("valid input");
    assert_eq!(direct.len(), 1);
    assert_eq!(direct[0].source_state().as_str(), "WARM");
    assert_eq!(direct[0].target_state().as_str(), "HOT");

    let (current, target) = inputs("COLD", "HOT");
    let multihop =
        generate_transitions(&resource(), &current, &target, &model()).expect("valid input");
    assert_eq!(multihop.len(), 1);
    assert_eq!(multihop[0].source_state().as_str(), "COLD");
    assert_eq!(multihop[0].target_state().as_str(), "WARM");
}

#[test]
fn state_names_are_case_sensitive() {
    let (current, target) = inputs("FOO", "foo");
    let transitions = generate_transitions(&resource(), &current, &target, &case_sensitive_model())
        .expect("valid input");

    assert_eq!(transitions.len(), 1);
    assert_eq!(transitions[0].source_state().as_str(), "FOO");
    assert_eq!(transitions[0].target_state().as_str(), "foo");
}

#[test]
fn all_partitions_and_instances_are_processed_deterministically() {
    let mut current = CurrentState::builder();
    let mut target = BestPossibleState::builder();
    for (partition_name, instance_name, from, to) in [
        ("p1", "node-b", "COLD", "HOT"),
        ("p0", "node-a", "WARM", "HOT"),
        ("p1", "node-a", "WARM", "WARM"),
    ] {
        current
            .set_state(partition(partition_name), instance(instance_name), state(from))
            .expect("unique current state");
        target
            .set_state(partition(partition_name), instance(instance_name), state(to))
            .expect("unique target state");
    }
    let current = current.build();
    let target = target.build();
    let first =
        generate_transitions(&resource(), &current, &target, &model()).expect("valid input");
    let second =
        generate_transitions(&resource(), &current, &target, &model()).expect("valid input");
    assert_eq!(first, second);
    assert_eq!(first.len(), 2);
    assert_eq!(first[0].partition().as_str(), "p0");
    assert_eq!(first[1].partition().as_str(), "p1");
    for request in &first {
        assert_eq!(
            model().next_state_toward(request.source_state(), &state("HOT")),
            Some(request.target_state())
        );
    }
}

#[test]
fn unreachable_targets_are_ignored_without_panicking() {
    let (current, target) = inputs("REMOVED", "HOT");
    assert!(generate_transitions(&resource(), &current, &target, &model())
        .expect("valid input")
        .is_empty());
}

#[test]
fn missing_replica_entries_are_rejected() {
    let mut current = CurrentState::builder();
    current
        .set_state(partition("p0"), instance("node-a"), state("COLD"))
        .expect("unique current state");
    let mut target = BestPossibleState::builder();
    target
        .set_state(partition("p0"), instance("node-b"), state("HOT"))
        .expect("unique target state");
    let error = generate_transitions(&resource(), &current.build(), &target.build(), &model())
        .expect_err("missing current state must be rejected");
    assert!(matches!(error, TransitionGenerationError::MissingCurrentState { .. }));
}

#[test]
fn missing_targets_are_rejected_with_their_replica() {
    let mut current = CurrentState::builder();
    current
        .set_state(partition("p0"), instance("node-a"), state("COLD"))
        .unwrap()
        .set_state(partition("p0"), instance("node-b"), state("COLD"))
        .unwrap();
    let mut target = BestPossibleState::builder();
    target.set_state(partition("p0"), instance("node-a"), state("HOT")).unwrap();
    assert_eq!(
        generate_transitions(&resource(), &current.build(), &target.build(), &model()),
        Err(TransitionGenerationError::MissingTargetState {
            partition: partition("p0"),
            instance: instance("node-b"),
        })
    );
}

fn ideal(partitions: &[&str]) -> IdealState {
    let mut builder = IdealState::builder(resource(), 2);
    for name in partitions {
        builder
            .set_preference_list(partition(name), vec![instance("node-a"), instance("node-b")])
            .expect("unique partition");
    }
    builder.build().expect("valid ideal state")
}

fn single_replica_ideal() -> IdealState {
    let mut builder = IdealState::builder(resource(), 1);
    builder
        .set_preference_list(partition("p0"), vec![instance("node-a")])
        .expect("unique partition");
    builder.build().expect("valid ideal state")
}

fn live_set(names: &[&str]) -> OrderedSet<InstanceId> {
    let mut set = OrderedSet::new();
    for name in names {
        set.insert(instance(name));
    }
    set
}

fn selection_live() -> OrderedSet<InstanceId> {
    live_set(&["node-a", "node-b"])
}

fn current(partition_name: &str, a: &str, b: &str) -> CurrentState {
    let mut builder = CurrentState::builder();
    builder
        .set_state(partition(partition_name), instance("node-a"), state(a))
        .expect("unique state");
    builder
        .set_state(partition(partition_name), instance("node-b"), state(b))
        .expect("unique state");
    builder.build()
}

fn candidate(
    partition_name: &str,
    instance_name: &str,
    from: &str,
    to: &str,
) -> TransitionRequest {
    TransitionRequest::new(
        resource(),
        partition(partition_name),
        instance(instance_name),
        state(from),
        state(to),
    )
}

#[test]
fn selects_safe_promotion_and_blocks_existing_top_state() {
    let ideal = ideal(&["p0"]);
    let promotion = candidate("p0", "node-b", "STANDBY", "LEADER");
    let selected = select_transitions(
        &resource(),
        &ideal,
        &current("p0", "STANDBY", "STANDBY"),
        &selection_live(),
        &vec![promotion.clone()],
        &vec![],
        &leader_standby(),
    )
    .expect("valid selection");
    assert_eq!(selected, vec![promotion.clone()]);

    let blocked = select_transitions(
        &resource(),
        &ideal,
        &current("p0", "LEADER", "STANDBY"),
        &selection_live(),
        &vec![promotion.clone()],
        &vec![],
        &leader_standby(),
    )
    .expect("valid selection");
    assert!(blocked.is_empty());
}

#[test]
fn pending_endpoints_reserve_state_capacity() {
    let ideal = ideal(&["p0"]);
    let promotion = candidate("p0", "node-b", "STANDBY", "LEADER");
    let pending = PendingTransition::new(
        partition("p0"),
        instance("node-a"),
        state("STANDBY"),
        state("LEADER"),
    );
    let selected = select_transitions(
        &resource(),
        &ideal,
        &current("p0", "STANDBY", "STANDBY"),
        &selection_live(),
        &vec![promotion],
        &vec![pending],
        &leader_standby(),
    )
    .expect("valid selection");
    assert!(selected.is_empty());
}

#[test]
fn dynamic_replica_count_cardinality_is_not_bounded_by_selection() {
    let ideal = single_replica_ideal();
    let current = current("p0", "STANDBY", "OFFLINE");
    let candidate = candidate("p0", "node-b", "OFFLINE", "STANDBY");
    let selected = select_transitions(
        &resource(),
        &ideal,
        &current,
        &selection_live(),
        &vec![candidate.clone()],
        &vec![],
        &leader_standby(),
    )
    .expect("valid selection");
    assert_eq!(selected, vec![candidate]);
}

#[test]
fn message_selection_duplicate_pending_replica_entries_are_rejected() {
    let ideal = ideal(&["p0"]);
    let pending = PendingTransition::new(
        partition("p0"),
        instance("node-a"),
        state("OFFLINE"),
        state("STANDBY"),
    );
    let error = select_transitions(
        &resource(),
        &ideal,
        &current("p0", "OFFLINE", "OFFLINE"),
        &selection_live(),
        &vec![],
        &vec![pending.clone(), pending],
        &leader_standby(),
    )
    .expect_err("duplicate pending replica must be rejected");
    assert!(matches!(error, MessageSelectionError::DuplicatePendingTransition { .. }));
}

#[test]
fn selects_transition_for_a_partition_removed_from_the_ideal_state() {
    let ideal = single_replica_ideal();
    let removed = partition("p-removed");
    let current = {
        let mut builder = CurrentState::builder();
        builder.set_state(removed.clone(), instance("node-a"), state("OFFLINE")).unwrap();
        builder.build()
    };
    let candidate = TransitionRequest::new(
        resource(),
        removed,
        instance("node-a"),
        state("OFFLINE"),
        state("DROPPED"),
    );
    let selected = select_transitions(
        &resource(),
        &ideal,
        &current,
        &live_set(&["node-a"]),
        &vec![candidate.clone()],
        &vec![],
        &leader_standby(),
    )
    .unwrap();
    assert_eq!(selected, vec![candidate]);
}

#[test]
fn demotion_priority_precedes_promotion_and_partitions_are_independent() {
    let ideal = ideal(&["p0", "p1"]);
    let demotion = candidate("p0", "node-a", "LEADER", "STANDBY");
    let promotion = candidate("p0", "node-b", "STANDBY", "LEADER");
    let other = candidate("p1", "node-a", "STANDBY", "LEADER");
    let current = {
        let mut builder = CurrentState::builder();
        builder.set_state(partition("p0"), instance("node-a"), state("LEADER")).unwrap();
        builder.set_state(partition("p0"), instance("node-b"), state("STANDBY")).unwrap();
        builder.set_state(partition("p1"), instance("node-a"), state("STANDBY")).unwrap();
        builder.set_state(partition("p1"), instance("node-b"), state("STANDBY")).unwrap();
        builder.build()
    };
    let selected = select_transitions(
        &resource(),
        &ideal,
        &current,
        &selection_live(),
        &vec![promotion, demotion.clone(), other.clone()],
        &vec![],
        &leader_standby(),
    )
    .expect("valid selection");
    assert!(selected.contains(&demotion));
    assert!(selected.contains(&other));
    assert!(!selected.iter().any(|request| request.partition() == &partition("p0")
        && request.target_state() == &state("LEADER")));
}

#[test]
fn repeated_selection_is_deterministic() {
    let ideal = ideal(&["p0"]);
    let candidates = vec![
        candidate("p0", "node-a", "OFFLINE", "STANDBY"),
        candidate("p0", "node-b", "OFFLINE", "STANDBY"),
    ];
    let current = current("p0", "OFFLINE", "OFFLINE");
    let first = select_transitions(
        &resource(),
        &ideal,
        &current,
        &selection_live(),
        &candidates,
        &vec![],
        &leader_standby(),
    )
    .expect("valid selection");
    let second = select_transitions(
        &resource(),
        &ideal,
        &current,
        &selection_live(),
        &candidates,
        &vec![],
        &leader_standby(),
    )
    .expect("valid selection");
    assert_eq!(first, second);
    assert_eq!(first.len(), 2);
}

#[test]
fn selection_refuses_what_it_cannot_place() {
    let ideal = ideal(&["p0"]);
    let select = |candidates: Vec<TransitionRequest>, pending: Vec<PendingTransition>| {
        select_transitions(
            &resource(),
            &ideal,
            &current("p0", "OFFLINE", "OFFLINE"),
            &selection_live(),
            &candidates,
            &pending,
            &leader_standby(),
        )
        .expect_err("selection must be refused")
    };
    let foreign = TransitionRequest::new(
        ResourceId::new("profiles").unwrap(),
        partition("p0"),
        instance("node-a"),
        state("OFFLINE"),
        state("STANDBY"),
    );
    assert_eq!(
        select(vec![foreign], vec![]),
        MessageSelectionError::CandidateResourceMismatch {
            expected: resource(),
            actual: ResourceId::new("profiles").unwrap(),
        }
    );
    assert_eq!(
        select(vec![candidate("p9", "node-a", "OFFLINE", "STANDBY")], vec![]),
        MessageSelectionError::UnknownCandidatePartition(partition("p9"))
    );
    let stray = PendingTransition::new(
        partition("p9"),
        instance("node-a"),
        state("OFFLINE"),
        state("STANDBY"),
    );
    assert_eq!(
        select(vec![], vec![stray]),
        MessageSelectionError::UnknownPendingPartition(partition("p9"))
    );
}

fn state_map(entries: &[(&str, &str, &str)]) -> CurrentState {
    let mut builder = CurrentState::builder();
    for (partition_name, instance_name, state_name) in entries {
        builder
            .set_state(partition(partition_name), instance(instance_name), state(state_name))
            .expect("unique state entry");
    }
    builder.build()
}

fn best_state(entries: &[(&str, &str, &str)]) -> BestPossibleState {
    let mut builder = BestPossibleState::builder();
    for (partition_name, instance_name, state_name) in entries {
        builder
            .set_state(partition(partition_name), instance(instance_name), state(state_name))
            .expect("unique state entry");
    }
    builder.build()
}

fn input_with(min_active_replicas: Option<usize>) -> ResourceTransitionInput {
    let resource = resource();
    let mut preference_lists = OrderedMap::new();
    preference_lists.insert(partition("p0"), vec![instance("node-a"), instance("node-b")]);
    preference_lists.insert(partition("p1"), vec![instance("node-a"), instance("node-c")]);
    let selected = [("p0", "node-b"), ("p1", "node-c")]
        .into_iter()
        .map(|(partition_name, instance_name)| {
            TransitionRequest::new(
                resource.clone(),
                partition(partition_name),
                instance(instance_name),
                state("OFFLINE"),
                state("STANDBY"),
            )
        })
        .collect();
    ResourceTransitionInput::new(
        resource,
        2,
        min_active_replicas,
        preference_lists,
        state_map(&[
            ("p0", "node-a", "LEADER"),
            ("p0", "node-b", "OFFLINE"),
            ("p1", "node-a", "LEADER"),
            ("p1", "node-c", "OFFLINE"),
        ]),
        best_state(&[
            ("p0", "node-a", "LEADER"),
            ("p0", "node-b", "STANDBY"),
            ("p1", "node-a", "LEADER"),
            ("p1", "node-c", "STANDBY"),
        ]),
        selected,
    )
}

fn input() -> ResourceTransitionInput {
    input_with(None)
}

fn live() -> OrderedSet<InstanceId> {
    live_set(&["node-a", "node-b", "node-c"])
}

#[test]
fn unlimited_quota_dispatches_every_selected_transition() {
    let result = compute_intermediate_and_throttle(
        &vec![input()],
        &live(),
        &vec![],
        &vec![],
        &leader_standby(),
    )
    .expect("valid input");

    assert_eq!(result.dispatchable_transitions().len(), 2);
    assert_eq!(
        result.intermediate_state().state(&resource(), &partition("p1"), &instance("node-c")),
        Some(&state("STANDBY"))
    );
}

#[test]
fn cluster_quota_is_shared_by_partitions() {
    let config = StateTransitionThrottleConfig::new(RebalanceType::Any, ThrottleScope::Cluster, 1);
    let result = compute_intermediate_and_throttle(
        &vec![input()],
        &live(),
        &vec![],
        &vec![config],
        &leader_standby(),
    )
    .expect("valid input");

    assert_eq!(result.dispatchable_transitions().len(), 1);
    assert_eq!(
        result.intermediate_state().state(&resource(), &partition("p1"), &instance("node-c")),
        Some(&state("OFFLINE"))
    );
}

#[test]
fn resource_quota_can_target_one_resource() {
    let config = StateTransitionThrottleConfig::for_resource(RebalanceType::Any, resource(), 1);
    let result = compute_intermediate_and_throttle(
        &vec![input()],
        &live(),
        &vec![],
        &vec![config],
        &leader_standby(),
    )
    .expect("valid input");

    assert_eq!(result.dispatchable_transitions().len(), 1);
}

#[test]
fn instance_quota_holds_one_instance_back() {
    let config =
        StateTransitionThrottleConfig::for_instance(RebalanceType::Any, instance("node-b"), 0);
    let result = compute_intermediate_and_throttle(
        &vec![input()],
        &live(),
        &vec![],
        &vec![config],
        &leader_standby(),
    )
    .expect("valid input");

    assert_eq!(result.dispatchable_transitions().len(), 1);
    assert_eq!(result.dispatchable_transitions()[0].instance(), &instance("node-c"));
}

#[test]
fn recovery_quota_classifies_missing_required_replica() {
    let config = StateTransitionThrottleConfig::new(
        RebalanceType::RecoveryBalance,
        ThrottleScope::Cluster,
        1,
    );
    let result = compute_intermediate_and_throttle(
        &vec![input_with(Some(2))],
        &live(),
        &vec![],
        &vec![config],
        &leader_standby(),
    )
    .expect("valid input");

    assert_eq!(result.dispatchable_transitions().len(), 1);
}

#[test]
fn pending_transition_consumes_shared_quota() {
    let pending = OperationalPendingTransition::new(
        resource(),
        partition("p0"),
        instance("node-b"),
        state("OFFLINE"),
        state("STANDBY"),
    );
    let config = StateTransitionThrottleConfig::new(RebalanceType::Any, ThrottleScope::Cluster, 1);
    let result = compute_intermediate_and_throttle(
        &vec![input()],
        &live(),
        &vec![pending],
        &vec![config],
        &leader_standby(),
    )
    .expect("valid input");

    assert!(result.dispatchable_transitions().is_empty());
    assert_eq!(
        result.intermediate_state().state(&resource(), &partition("p0"), &instance("node-b")),
        Some(&state("STANDBY"))
    );
}

#[test]
fn message_throttle_duplicate_pending_replica_entries_are_rejected() {
    let pending = OperationalPendingTransition::new(
        resource(),
        partition("p0"),
        instance("node-b"),
        state("OFFLINE"),
        state("STANDBY"),
    );
    let error = compute_intermediate_and_throttle(
        &vec![input()],
        &live(),
        &vec![pending.clone(), pending],
        &vec![],
        &leader_standby(),
    )
    .expect_err("duplicate pending replica must be rejected");

    assert!(matches!(error, IntermediateThrottleError::DuplicatePendingTransition { .. }));
}

#[test]
fn throttling_refuses_repeated_and_unknown_resources() {
    let error = compute_intermediate_and_throttle(
        &vec![input(), input()],
        &live(),
        &vec![],
        &vec![],
        &leader_standby(),
    )
    .expect_err("repeated resource must be rejected");
    assert_eq!(error, IntermediateThrottleError::DuplicateResource(resource()));

    let stray = OperationalPendingTransition::new(
        ResourceId::new("profiles").unwrap(),
        partition("p0"),
        instance("node-b"),
        state("OFFLINE"),
        state("STANDBY"),
    );
    let error = compute_intermediate_and_throttle(
        &vec![input()],
        &live(),
        &vec![stray],
        &vec![],
        &leader_standby(),
    )
    .expect_err("unknown resource must be rejected");
    assert_eq!(
        error,
        IntermediateThrottleError::UnknownPendingResource(ResourceId::new("profiles").unwrap())
    );
}

#[test]
fn pending_moves_leave_the_rest_of_a_limit() {
    let pending = || {
        OperationalPendingTransition::new(
            resource(),
            partition("p0"),
            instance("node-b"),
            state("OFFLINE"),
            state("STANDBY"),
        )
    };
    let dispatched = |pending: Vec<OperationalPendingTransition>, limit: usize| {
        let config =
            StateTransitionThrottleConfig::new(RebalanceType::Any, ThrottleScope::Cluster, limit);
        compute_intermediate_and_throttle(
            &vec![input()],
            &live(),
            &pending,
            &vec![config],
            &leader_standby(),
        )
        .expect("valid input")
        .dispatchable_transitions()
        .len()
    };
    assert_eq!(dispatched(vec![], 2), 2);
    assert_eq!(dispatched(vec![pending()], 2), 1);
    assert_eq!(dispatched(vec![pending()], 1), 0);
    assert_eq!(dispatched(vec![pending()], 0), 0);

    // A replica that has left the source state is counted no more.
    let done = OperationalPendingTransition::new(
        resource(),
        partition("p0"),
        instance("node-a"),
        state("STANDBY"),
        state("LEADER"),
    );
    assert_eq!(dispatched(vec![done], 1), 1);
}

#[test]
fn work_waits_once_a_limit_is_reached() {
    let quotas = |configs: Vec<StateTransitionThrottleConfig>| {
        ThrottleController::new(&vec![resource()], &live(), &configs)
    };
    let begun_until_throttled =
        |mut controller: ThrottleController, kind: RebalanceType, name: &str| {
            for begun in 0..10 {
                if controller.should_throttle(kind, &resource(), &instance(name)) {
                    return Some(begun);
                }
                controller.charge(kind, &resource(), &instance(name));
            }
            None
        };
    let any = |scope, limit| StateTransitionThrottleConfig::new(RebalanceType::Any, scope, limit);
    let load = RebalanceType::LoadBalance;
    let recovery = RebalanceType::RecoveryBalance;

    assert_eq!(begun_until_throttled(quotas(vec![]), load, "node-a"), None);
    // The smallest limit that covers the work decides.
    let several = || {
        vec![
            any(ThrottleScope::Cluster, 5),
            StateTransitionThrottleConfig::new(load, ThrottleScope::Resource, 3),
            StateTransitionThrottleConfig::for_instance(recovery, instance("node-a"), 2),
        ]
    };
    assert_eq!(begun_until_throttled(quotas(several()), load, "node-a"), Some(3));
    assert_eq!(begun_until_throttled(quotas(several()), recovery, "node-a"), Some(2));
    assert_eq!(begun_until_throttled(quotas(several()), recovery, "node-b"), Some(5));
    // The last configuration for a scope and kind prevails.
    let twice = vec![any(ThrottleScope::Resource, 1), any(ThrottleScope::Resource, 4)];
    assert_eq!(begun_until_throttled(quotas(twice), load, "node-a"), Some(4));
    let narrowed = vec![
        StateTransitionThrottleConfig::for_resource(RebalanceType::Any, resource(), 1),
        any(ThrottleScope::Resource, 2),
    ];
    assert_eq!(begun_until_throttled(quotas(narrowed), load, "node-a"), Some(2));

    // Work past a limit leaves it reached.
    let mut controller = quotas(vec![any(ThrottleScope::Cluster, 1)]);
    for _ in 0..3 {
        controller.charge(load, &resource(), &instance("node-a"));
        assert!(controller.should_throttle(load, &resource(), &instance("node-a")));
    }
}

#[test]
fn a_partition_is_selected_alike_alone_and_among_others() {
    let ideal = ideal(&["p0", "p1"]);
    let mut builder = CurrentState::builder();
    for name in ["p0", "p1"] {
        for owner in ["node-a", "node-b"] {
            builder
                .set_state(partition(name), instance(owner), state("STANDBY"))
                .expect("unique state");
        }
    }
    let observed = builder.build();
    let select = |candidates: Vec<TransitionRequest>, pending: Vec<PendingTransition>| {
        select_transitions(
            &resource(),
            &ideal,
            &observed,
            &selection_live(),
            &candidates,
            &pending,
            &leader_standby(),
        )
        .expect("valid selection")
    };
    let of = |name: &str| {
        vec![
            candidate(name, "node-a", "STANDBY", "LEADER"),
            candidate(name, "node-b", "STANDBY", "LEADER"),
            candidate(name, "node-b", "STANDBY", "OFFLINE"),
        ]
    };
    let busy = || {
        PendingTransition::new(
            partition("p1"),
            instance("node-a"),
            state("STANDBY"),
            state("LEADER"),
        )
    };
    let both: Vec<TransitionRequest> = of("p1").into_iter().chain(of("p0")).collect();
    let whole = select(both, vec![busy()]);
    let within = |name: &str| -> Vec<TransitionRequest> {
        whole.iter().filter(|move_| move_.partition() == &partition(name)).cloned().collect()
    };
    assert_eq!(within("p0"), select(of("p0"), vec![]));
    assert_eq!(within("p1"), select(of("p1"), vec![busy()]));
    assert_eq!(within("p0").len() + within("p1").len(), whole.len());
    assert_ne!(within("p0").len(), within("p1").len());
}
