use clustodian::model::builtins::leader_standby;
use clustodian::model::identity::{IdentifierError, IdentifierKind};
use clustodian::model::replica_state::{ReplicaStateError, ReplicaStates};
use clustodian::model::{
    CurrentState, ExternalView, IdealState, IdealStateError, InstanceId, ParticipantSessionState,
    PartitionId, ResourceId, SessionError, SessionId, State, StateCardinality,
    StateCardinalityError, StateError, StateModelDefinition, StateModelError, Transition,
};
use clustodian::ordered::OrderedMap;

fn instance(name: &str) -> InstanceId {
    InstanceId::new(name).expect("valid instance")
}

fn partition(name: &str) -> PartitionId {
    PartitionId::new(name).expect("valid partition")
}

fn resource(name: &str) -> ResourceId {
    ResourceId::new(name).expect("valid resource")
}

fn state(name: &str) -> State {
    State::new(name).expect("valid state")
}

fn states(entries: &[(&str, &str)]) -> OrderedMap<PartitionId, State> {
    let mut map = OrderedMap::new();
    for (name, value) in entries {
        map.insert(partition(name), state(value));
    }
    map
}

fn current_state(entries: &[(&str, &str, &str)]) -> CurrentState {
    let mut builder = CurrentState::builder();
    for (name, owner, value) in entries {
        builder
            .set_state(partition(name), instance(owner), state(value))
            .expect("test state should be unique");
    }
    builder.build()
}

#[test]
fn leader_standby_matches_m0_metadata() {
    let model = leader_standby();
    assert_eq!(model.name(), "LeaderStandby");
    assert_eq!(model.initial_state().as_str(), "OFFLINE");
    assert_eq!(model.highest_priority_state().as_str(), "LEADER");
    assert!(model.has_single_highest_priority_state());
    assert_eq!(model.cardinality_for(&state("LEADER")), Some(StateCardinality::Exact(1)));
    assert_eq!(model.cardinality_for(&state("STANDBY")), Some(StateCardinality::ReplicaCount));
}

#[test]
fn leader_standby_walks_one_hop_at_a_time() {
    let model = leader_standby();
    let next = |from: &str, to: &str| {
        model.next_state(&state(from), &state(to)).map(|next| next.as_str().to_owned())
    };
    assert_eq!(next("OFFLINE", "LEADER").as_deref(), Some("STANDBY"));
    assert_eq!(next("LEADER", "DROPPED").as_deref(), Some("STANDBY"));
    assert_eq!(next("OFFLINE", "DROPPED").as_deref(), Some("DROPPED"));
    assert_eq!(next("DROPPED", "OFFLINE"), None);
    assert_eq!(next("LEADER", "UNKNOWN"), None);
}

#[test]
fn aggregates_actual_states_without_desired_state() {
    let mut resources = OrderedMap::new();
    resources
        .insert(resource("documents"), current_state(&[("documents_0", "node-b", "STANDBY")]));
    resources.insert(resource("profiles"), current_state(&[("profiles_0", "node-a", "ERROR")]));

    let view = ExternalView::from_current_states(resources);

    assert_eq!(
        view.state(&resource("documents"), &partition("documents_0"), &instance("node-b")),
        Some(&State::new("STANDBY").unwrap())
    );
    assert_eq!(view.entries().len(), 2);
    assert_eq!(
        view.state(&resource("documents"), &partition("documents_0"), &instance("node-a")),
        None
    );
}

#[test]
fn preserves_offline_and_dropped_observations() {
    let mut current = CurrentState::builder();
    current
        .set_state(partition("p0"), instance("node-a"), state("OFFLINE"))
        .unwrap()
        .set_state(partition("p0"), instance("node-b"), state("DROPPED"))
        .unwrap();

    let mut resources = OrderedMap::new();
    resources.insert(resource("documents"), current.build());
    let view = ExternalView::from_current_states(resources);

    let documents = view.entries().get(&resource("documents")).unwrap();
    assert_eq!(documents.get(&partition("p0")).unwrap().len(), 2);
}

#[test]
fn preserves_ordered_preference_lists() {
    let mut builder = IdealState::builder(ResourceId::new("documents").unwrap(), 2);
    builder
        .set_preference_list(partition("p0"), vec![instance("node-b"), instance("node-a")])
        .unwrap();
    let ideal = builder.build().unwrap();
    assert_eq!(ideal.replicas(), 2);
    assert_eq!(ideal.preference_list(&partition("p0")).unwrap()[0], instance("node-b"));
}

#[test]
fn rejects_duplicate_or_wrong_sized_preference_lists() {
    let mut builder = IdealState::builder(ResourceId::new("documents").unwrap(), 2);
    assert!(matches!(
        builder.set_preference_list(partition("p0"), vec![instance("node-a")]),
        Err(IdealStateError::PreferenceListReplicaCount {
            partition: failed_partition,
            expected: 2,
            actual: 1,
        }) if failed_partition == partition("p0")
    ));
    builder
        .set_preference_list(partition("p0"), vec![instance("node-a"), instance("node-b")])
        .unwrap();
    assert!(matches!(
        builder.set_preference_list(
            partition("p0"),
            vec![instance("node-a"), instance("node-b")]
        ),
        Err(IdealStateError::DuplicatePartition(_))
    ));
    let mut duplicate = IdealState::builder(ResourceId::new("documents").unwrap(), 2);
    assert!(matches!(
        duplicate.set_preference_list(
            partition("p0"),
            vec![instance("node-a"), instance("node-a")]
        ),
        Err(IdealStateError::DuplicatePreferenceInstance { .. })
    ));
    assert_eq!(
        IdealState::builder(ResourceId::new("documents").unwrap(), 1)
            .build()
            .unwrap_err()
            .to_string(),
        "ideal state must contain a partition"
    );
}

#[test]
fn refused_preference_lists_leave_no_trace() {
    let mut builder = IdealState::builder(ResourceId::new("documents").unwrap(), 2);
    let lists = [
        ("p0", vec!["node-a"]),
        ("p0", vec!["node-a", "node-a"]),
        ("p0", vec!["node-b", "node-a"]),
        ("p0", vec!["node-a", "node-b"]),
        ("p1", vec!["node-a", "node-b", "node-c"]),
        ("p2", vec!["node-c", "node-b"]),
    ];
    let mut empty = builder.clone();
    assert!(empty.set_preference_list(partition("p0"), vec![instance("node-a")]).is_err());
    assert_eq!(empty.build().unwrap_err(), IdealStateError::NoPartitions);
    let accepted: Vec<bool> = lists
        .into_iter()
        .map(|(name, nodes)| {
            let nodes = nodes.into_iter().map(instance).collect();
            builder.set_preference_list(partition(name), nodes).is_ok()
        })
        .collect();
    assert_eq!(accepted, [false, false, true, false, false, true]);
    let ideal = builder.clone().build().unwrap();
    assert_eq!(ideal.replicas(), 2);
    assert_eq!(ideal.preference_lists().len(), 2);
    assert_eq!(
        *ideal.preference_list(&partition("p0")).unwrap(),
        vec![instance("node-b"), instance("node-a")]
    );
    assert!(ideal.preference_list(&partition("p1")).is_none());
    assert_eq!(ideal.preference_list(&partition("p2")).unwrap().len(), 2);
}

#[test]
fn exposes_resource_and_all_preference_lists() {
    let mut builder = IdealState::builder(ResourceId::new("documents").unwrap(), 1);
    builder.set_preference_list(partition("p0"), vec![instance("node-a")]).unwrap();
    let ideal = builder.build().unwrap();
    assert_eq!(ideal.resource().as_str(), "documents");
    assert_eq!(ideal.preference_lists().len(), 1);
    assert!(ideal.preference_list(&partition("missing")).is_none());
    assert_eq!(
        IdealStateError::PreferenceListReplicaCount {
            partition: partition("p0"),
            expected: 2,
            actual: 1,
        }
        .to_string(),
        "preference list for partition p0 has 1 entries; expected 2"
    );
    assert_eq!(
        IdealStateError::DuplicatePartition(partition("p0")).to_string(),
        "duplicate ideal-state partition: p0"
    );
    assert_eq!(
        IdealStateError::DuplicatePreferenceInstance { partition: partition("p0") }.to_string(),
        "preference list contains a duplicate instance for partition p0"
    );
}

#[test]
fn identifiers_are_opaque_orderable_values() {
    let first = InstanceId::new("node-a").expect("valid identifier");
    let second = InstanceId::new("node-b").expect("valid identifier");
    assert!(first < second);
    assert_eq!(first.as_str(), "node-a");
    assert_eq!(PartitionId::try_from("partition-0").unwrap().as_str(), "partition-0");
    assert_eq!(ResourceId::try_from("resource").unwrap().as_str(), "resource");
}

#[test]
fn empty_identifiers_are_rejected() {
    assert_eq!(InstanceId::new(""), Err(IdentifierError::Empty(IdentifierKind::Instance)));
    assert_eq!(PartitionId::new(""), Err(IdentifierError::Empty(IdentifierKind::Partition)));
    assert_eq!(ResourceId::new(""), Err(IdentifierError::Empty(IdentifierKind::Resource)));
    assert_eq!(IdentifierKind::Instance.to_string(), "instance");
    assert_eq!(IdentifierKind::Partition.to_string(), "partition");
    assert_eq!(IdentifierKind::Resource.to_string(), "resource");
    assert_eq!(
        IdentifierError::Empty(IdentifierKind::Resource).to_string(),
        "resource identifier must not be empty"
    );
    assert_eq!(InstanceId::try_from(String::from("node-a")).unwrap().to_string(), "node-a");
    assert_eq!(PartitionId::try_from(String::from("p0")).unwrap().to_string(), "p0");
    assert_eq!(ResourceId::try_from(String::from("r")).unwrap().to_string(), "r");
}

#[test]
fn session_ids_round_trip_through_the_wire_value() {
    let session = SessionId::from_wire_value(u64::MAX);
    assert_eq!(session.wire_value(), u64::MAX);
    assert_eq!(SessionId::from_wire_value(session.wire_value()), session);
    assert!(SessionId::from_wire_value(1) < session);
}

#[test]
fn stores_and_rejects_duplicate_replica_states() {
    let p0 = PartitionId::new("p0").unwrap();
    let node = InstanceId::new("node-a").unwrap();
    let leader = State::new("LEADER").unwrap();
    let mut replicas = ReplicaStates::default();
    replicas.insert(p0.clone(), node.clone(), leader.clone()).unwrap();
    assert_eq!(replicas.get(&p0, &node), Some(&leader));
    assert_eq!(replicas.entries().len(), 1);
    assert!(matches!(
        replicas.insert(p0.clone(), node.clone(), leader),
        Err(ReplicaStateError::Duplicate { .. })
    ));
    assert!(replicas.get(&PartitionId::new("missing").unwrap(), &node).is_none());
    assert_eq!(
        ReplicaStateError::Duplicate { partition: p0, instance: node }.to_string(),
        "duplicate state for partition p0 and instance node-a"
    );
    assert_eq!(replicas.into_entries().len(), 1);
}

#[test]
fn reconnect_fences_old_state_and_retains_stale_metadata() {
    let node = instance("node-a");
    let documents = resource("documents");
    let mut model = ParticipantSessionState::new();
    let first = model.connect(node.clone()).unwrap();
    model
        .publish_current_state(
            &node,
            first,
            documents.clone(),
            states(&[("documents_0", "LEADER")]),
        )
        .unwrap();

    let second = model.expire_and_reconnect(&node, first).unwrap();
    let snapshot = model.snapshot();
    assert_ne!(first, second);
    assert_eq!(snapshot.live_instances().get(&node).unwrap().session_id(), second);
    assert_eq!(
        snapshot
            .active_current_state()
            .get(&node)
            .unwrap()
            .resources()
            .get(&documents)
            .unwrap()
            .state(&partition("documents_0"), &node)
            .expect("carried partition state")
            .as_str(),
        "OFFLINE"
    );

    model
        .inject_session_current_state(
            &node,
            first,
            documents.clone(),
            states(&[("documents_0", "LEADER")]),
        )
        .unwrap();
    assert_eq!(
        model
            .snapshot()
            .active_current_state()
            .get(&node)
            .unwrap()
            .resources()
            .get(&documents)
            .unwrap()
            .state(&partition("documents_0"), &node)
            .expect("carried partition state")
            .as_str(),
        "OFFLINE"
    );
}

#[test]
fn disconnect_removes_live_state_but_does_not_delete_metadata() {
    let node = instance("node-a");
    let mut model = ParticipantSessionState::new();
    let session = model.connect(node.clone()).unwrap();
    model
        .publish_current_state(
            &node,
            session,
            resource("documents"),
            states(&[("documents_0", "STANDBY")]),
        )
        .unwrap();
    model.disconnect(&node, session).unwrap();
    let snapshot = model.snapshot();
    assert!(snapshot.live_instances().is_empty());
    assert!(snapshot.active_current_state().is_empty());
}

#[test]
fn participants_receive_independent_sessions() {
    let mut model = ParticipantSessionState::new();
    let first = model.connect(instance("node-a")).unwrap();
    let second = model.connect(instance("node-b")).unwrap();
    assert_ne!(first, second);
    let snapshot = model.snapshot();
    let live = snapshot.live_instances().get(&instance("node-a")).unwrap();
    assert_eq!(live.instance_id(), &instance("node-a"));
    assert_eq!(live.session_id(), first);
    let active = snapshot.active_current_state().get(&instance("node-a")).unwrap();
    assert_eq!(active.session_id(), first);
    assert!(active.resources().is_empty());
}

#[test]
fn session_errors_have_stable_operator_messages() {
    let node = instance("node-a");
    let owner = instance("node-b");
    let session = SessionId::from_wire_value(3);
    let errors = [
        SessionError::AlreadyLive(node.clone()),
        SessionError::NotLive(node.clone()),
        SessionError::SessionIdExhausted,
        SessionError::SessionMismatch {
            instance_id: node.clone(),
            expected: session,
            actual: SessionId::from_wire_value(4),
        },
        SessionError::SessionOwnershipMismatch { instance_id: node, session_id: session, owner },
        SessionError::UnknownSession(session),
    ];
    assert!(errors.iter().all(|error| !error.to_string().is_empty()));
}

#[test]
fn session_requests_that_cannot_be_met_are_refused() {
    let node = instance("node-a");
    let mut model = ParticipantSessionState::new();
    let stray = SessionId::from_wire_value(77);
    assert_eq!(model.disconnect(&node, stray), Err(SessionError::NotLive(node.clone())));
    let session = model.connect(node.clone()).unwrap();
    assert_eq!(model.connect(node.clone()), Err(SessionError::AlreadyLive(node.clone())));
    assert_eq!(
        model.disconnect(&node, stray),
        Err(SessionError::SessionMismatch {
            instance_id: node.clone(),
            expected: session,
            actual: stray,
        })
    );
    assert_eq!(
        model.inject_session_current_state(&node, stray, resource("documents"), states(&[])),
        Err(SessionError::UnknownSession(stray))
    );
    assert_eq!(model.snapshot().live_instances().get(&node).unwrap().session_id(), session);
}

#[test]
fn stale_state_injection_requires_session_ownership() {
    let node_a = instance("node-a");
    let node_b = instance("node-b");
    let mut model = ParticipantSessionState::new();
    let session_a = model.connect(node_a.clone()).unwrap();
    model.connect(node_b.clone()).unwrap();

    assert!(matches!(
        model.inject_session_current_state(
            &node_b,
            session_a,
            resource("documents"),
            states(&[("documents_0", "LEADER")]),
        ),
        Err(SessionError::SessionOwnershipMismatch {
            instance_id,
            session_id,
            owner,
        }) if instance_id == node_b && session_id == session_a && owner == node_a
    ));
    assert!(model.snapshot().active_current_state().contains_key(&node_b));
    assert!(model
        .snapshot()
        .active_current_state()
        .get(&node_b)
        .unwrap()
        .resources()
        .is_empty());
}

#[test]
fn publication_requires_the_live_session() {
    let node = instance("node-a");
    let mut model = ParticipantSessionState::new();
    let first = model.connect(node.clone()).unwrap();
    let second = model.expire_and_reconnect(&node, first).unwrap();
    assert!(matches!(
        model.publish_current_state(
            &node,
            first,
            resource("documents"),
            states(&[("documents_0", "LEADER")]),
        ),
        Err(SessionError::SessionMismatch { .. })
    ));
    assert!(model
        .publish_current_state(
            &node,
            second,
            resource("documents"),
            states(&[("documents_0", "STANDBY")]),
        )
        .is_ok());
}

#[test]
fn reconnect_uses_configured_initial_state_and_merges_partial_publication() {
    let node = instance("node-a");
    let documents = resource("documents");
    let mut model = ParticipantSessionState::new();
    model.set_resource_initial_state(documents.clone(), state("INITIAL"));
    let first = model.connect(node.clone()).unwrap();
    model
        .publish_current_state(
            &node,
            first,
            documents.clone(),
            states(&[("documents_0", "LEADER"), ("documents_1", "STANDBY")]),
        )
        .unwrap();

    let second = model.expire_and_reconnect(&node, first).unwrap();
    let snapshot = model.snapshot();
    let current =
        snapshot.active_current_state().get(&node).unwrap().resources().get(&documents).unwrap();
    assert_eq!(current.state(&partition("documents_0"), &node).unwrap().as_str(), "INITIAL");
    assert_eq!(current.state(&partition("documents_1"), &node).unwrap().as_str(), "INITIAL");

    model
        .publish_current_state(
            &node,
            second,
            documents.clone(),
            states(&[("documents_0", "STANDBY")]),
        )
        .unwrap();
    let snapshot = model.snapshot();
    let current =
        snapshot.active_current_state().get(&node).unwrap().resources().get(&documents).unwrap();
    assert_eq!(current.state(&partition("documents_0"), &node).unwrap().as_str(), "STANDBY");
    assert_eq!(current.state(&partition("documents_1"), &node).unwrap().as_str(), "INITIAL");
}

#[test]
fn state_names_are_opaque_and_orderable() {
    let cold = State::new("COLD").expect("valid state");
    let hot = State::new("HOT").expect("valid state");
    assert_eq!(cold.as_str(), "COLD");
    assert!(cold < hot);
    assert_eq!(cold, State::try_from("COLD").expect("valid state"));
}

#[test]
fn leader_standby_predicates_are_false_for_other_state_names() {
    let leader = State::new("LEADER").expect("valid state");
    let standby = State::new("STANDBY").expect("valid state");
    let offline = State::new("OFFLINE").expect("valid state");
    let dropped = State::new("DROPPED").expect("valid state");
    let error = State::new("ERROR").expect("valid state");
    let custom = State::new("CUSTOM").expect("valid state");

    assert!(leader.is_leader());
    assert!(standby.is_standby());
    assert!(offline.is_offline());
    assert!(dropped.is_dropped());
    assert!(error.is_error());
    assert!(!custom.is_leader());
    assert!(!custom.is_standby());
    assert!(!custom.is_offline());
    assert!(!custom.is_dropped());
    assert!(!custom.is_error());
}

#[test]
fn empty_state_names_are_rejected() {
    assert_eq!(State::new(""), Err(StateError::EmptyName));
}

#[test]
fn transitions_are_state_only() {
    let from = State::new("COLD").expect("valid state");
    let to = State::new("WARM").expect("valid state");
    let transition = Transition::new(from.clone(), to.clone());
    assert_eq!(transition.source(), &from);
    assert_eq!(transition.from(), &from);
    assert_eq!(transition.target(), &to);
    assert_eq!(transition.to(), &to);
    assert_eq!(State::try_from(String::from("C")).unwrap().to_string(), "C");
    assert_eq!(StateError::EmptyName.to_string(), "state name must not be empty");
    assert_eq!(
        StateCardinalityError::InvalidValue(String::from("bad")).to_string(),
        "invalid state cardinality: bad"
    );
}

#[test]
fn cardinalities_preserve_helix_symbols() {
    assert_eq!(StateCardinality::try_from("1"), Ok(StateCardinality::Exact(1)));
    assert_eq!(StateCardinality::try_from("R"), Ok(StateCardinality::ReplicaCount));
    assert_eq!(StateCardinality::try_from("N"), Ok(StateCardinality::NodeCount));
    assert_eq!(StateCardinality::try_from("-1"), Ok(StateCardinality::Unbounded));
    assert_eq!(
        StateCardinality::try_from("-27"),
        Err(StateCardinalityError::InvalidValue(String::from("-27")))
    );
}

#[test]
fn cardinalities_are_decimal_numbers_of_32_bits() {
    assert_eq!(StateCardinality::try_from("+7"), Ok(StateCardinality::Exact(7)));
    assert_eq!(StateCardinality::try_from("007"), Ok(StateCardinality::Exact(7)));
    assert_eq!(StateCardinality::try_from("4294967295"), Ok(StateCardinality::Exact(u32::MAX)));
    for text in ["4294967296", "", "+", "1.0", " 1"] {
        assert_eq!(
            StateCardinality::try_from(text),
            Err(StateCardinalityError::InvalidValue(text.to_owned()))
        );
    }
}

fn custom_model() -> StateModelDefinition {
    let mut builder = StateModelDefinition::builder("custom");
    builder.initial_state(state("COLD"));
    builder.add_state(state("HOT"), StateCardinality::Exact(1));
    builder.add_state(state("WARM"), StateCardinality::ReplicaCount);
    builder.add_state(state("COLD"), StateCardinality::Unbounded);
    builder.add_state(state("DROPPED"), StateCardinality::Unbounded);
    builder.add_transition(Transition::new(state("HOT"), state("WARM")));
    builder.add_transition(Transition::new(state("WARM"), state("HOT")));
    builder.add_transition(Transition::new(state("WARM"), state("COLD")));
    builder.add_transition(Transition::new(state("COLD"), state("WARM")));
    builder.add_transition(Transition::new(state("COLD"), state("DROPPED")));
    builder.build().expect("valid custom model")
}

#[test]
fn arbitrary_names_and_priorities_are_preserved() {
    let model = custom_model();
    assert_eq!(model.name(), "custom");
    assert_eq!(model.initial_state().as_str(), "COLD");
    assert_eq!(
        model.states_in_priority_order().iter().map(State::as_str).collect::<Vec<_>>(),
        ["HOT", "WARM", "COLD", "DROPPED"]
    );
    assert_eq!(model.highest_priority_state().as_str(), "HOT");
    assert_eq!(model.top_state().as_str(), "HOT");
    assert!(model.has_single_highest_priority_state());
    assert!(model.is_single_top_state());
    assert_eq!(model.states_priority(), model.states_in_priority_order());
    assert_eq!(model.transition_priority(), model.transitions_in_priority_order());
    assert_eq!(model.transitions_in_priority_order().len(), 5);
    assert_eq!(model.cardinality_for(&state("HOT")), Some(StateCardinality::Exact(1)));
    assert_eq!(model.state_cardinality(&state("WARM")), Some(StateCardinality::ReplicaCount));
    assert_eq!(model.cardinalities(), model.state_cardinalities());
}

#[test]
fn multihop_and_reverse_paths_use_next_hops() {
    let model = custom_model();
    assert_eq!(
        model.next_state_toward(&state("COLD"), &state("HOT")).map(State::as_str),
        Some("WARM")
    );
    assert_eq!(
        model.next_state_toward(&state("HOT"), &state("COLD")).map(State::as_str),
        Some("WARM")
    );
}

#[test]
fn unreachable_targets_return_none() {
    let model = custom_model();
    assert_eq!(model.next_state_toward(&state("DROPPED"), &state("HOT")), None);
    assert_eq!(model.next_state_toward(&state("COLD"), &state("COLD")), None);
}

#[test]
fn dropped_state_is_required() {
    let mut builder = StateModelDefinition::builder("custom");
    builder.initial_state(state("COLD"));
    builder.add_state(state("COLD"), StateCardinality::Unbounded);

    assert_eq!(builder.build(), Err(StateModelError::MissingDroppedState));
}

#[test]
fn every_state_must_reach_dropped() {
    let mut builder = StateModelDefinition::builder("custom");
    builder.initial_state(state("COLD"));
    builder.add_state(state("COLD"), StateCardinality::Unbounded);
    builder.add_state(state("DROPPED"), StateCardinality::Unbounded);

    assert_eq!(builder.build(), Err(StateModelError::NoPathToDropped(state("COLD"))));
}

#[test]
fn malformed_definitions_are_rejected() {
    let mut builder = StateModelDefinition::builder("custom");
    builder.initial_state(state("COLD"));
    builder.add_state(state("COLD"), StateCardinality::Unbounded);
    builder.add_state(state("COLD"), StateCardinality::Unbounded);
    assert!(matches!(builder.build(), Err(StateModelError::DuplicateState(_))));
}

#[test]
fn reports_all_builder_errors() {
    assert_eq!(
        StateModelDefinition::builder("").build(),
        Err(StateModelError::EmptyModelName)
    );
    assert_eq!(StateModelDefinition::builder("custom").build(), Err(StateModelError::NoStates));
    let mut missing_initial = StateModelDefinition::builder("custom");
    missing_initial.add_state(state("DROPPED"), StateCardinality::Unbounded);
    assert_eq!(missing_initial.build(), Err(StateModelError::MissingInitialState));

    let mut unknown_initial = StateModelDefinition::builder("custom");
    unknown_initial.initial_state(state("COLD"));
    unknown_initial.add_state(state("DROPPED"), StateCardinality::Unbounded);
    assert_eq!(
        unknown_initial.build(),
        Err(StateModelError::UnknownInitialState(state("COLD")))
    );

    let mut unknown_source = StateModelDefinition::builder("custom");
    unknown_source.initial_state(state("DROPPED"));
    unknown_source.add_state(state("DROPPED"), StateCardinality::Unbounded);
    unknown_source.add_transition(Transition::new(state("MISSING"), state("DROPPED")));
    assert!(matches!(
        unknown_source.build(),
        Err(StateModelError::UnknownTransitionState { .. })
    ));

    let mut unknown_target = StateModelDefinition::builder("custom");
    unknown_target.initial_state(state("DROPPED"));
    unknown_target.add_state(state("DROPPED"), StateCardinality::Unbounded);
    unknown_target.add_transition(Transition::new(state("DROPPED"), state("MISSING")));
    assert!(matches!(
        unknown_target.build(),
        Err(StateModelError::UnknownTransitionState { .. })
    ));

    let mut duplicate_transition = StateModelDefinition::builder("custom");
    duplicate_transition.initial_state(state("DROPPED"));
    duplicate_transition.add_state(state("DROPPED"), StateCardinality::Unbounded);
    let transition = Transition::new(state("DROPPED"), state("DROPPED"));
    duplicate_transition.add_transition(transition.clone());
    duplicate_transition.add_transition(transition.clone());
    assert_eq!(
        duplicate_transition.build(),
        Err(StateModelError::DuplicateTransition(transition))
    );

    let errors = [
        StateModelError::EmptyModelName,
        StateModelError::NoStates,
        StateModelError::MissingInitialState,
        StateModelError::UnknownInitialState(state("COLD")),
        StateModelError::MissingDroppedState,
        StateModelError::NoPathToDropped(state("COLD")),
        StateModelError::DuplicateState(state("COLD")),
        StateModelError::UnknownTransitionState {
            transition: Transition::new(state("A"), state("B")),
            endpoint: state("B"),
        },
        StateModelError::DuplicateTransition(Transition::new(state("A"), state("B"))),
    ];
    assert!(errors.iter().all(|error| !error.to_string().is_empty()));
}

#[test]
fn names_are_ordered_by_code_point() {
    let sorted = ["", "A", "AB", "B", "a", "\u{e9}", "\u{ffff}", "\u{10000}", "\u{10000}a"];
    let mut map: OrderedMap<String, usize> = OrderedMap::new();
    for (i, name) in sorted.iter().enumerate().rev() {
        map.insert((*name).to_owned(), i);
    }
    map.insert(String::from("A"), 7);
    assert_eq!(map.len(), sorted.len());
    for (i, name) in sorted.iter().enumerate() {
        assert_eq!(map.key_at(i), name);
        assert_eq!(*map.value_at(i), if *name == "A" { 7 } else { i });
    }
    assert!(map.get(&String::from("AA")).is_none());
}
