use clustodian::controller::error::{is_leadership_loss, ControllerRuntimeError};
use clustodian::controller::inputs::{
    instance_configs_text, pending_text, resource_texts, throttles_text,
};
use clustodian::controller::pending::{operational_pending_for_plans, ReconcileMode};
use clustodian::controller::planning::{
    compute_outputs_with_pending_policy, ControllerMetadata, ControllerOutputs, PlacementAnswer,
    PlacementRequest, PlanningStep,
};
use clustodian::controller::plans::{
    resource_plans, AssignmentAnswer, AssignmentRequest, PlansStep,
};
use clustodian::controller::published::{to_operational_pending, PublishedTransition};
use clustodian::controller::records::{
    instance_configs, throttles, CrushTopologyRecord, Decoded, InstanceConfigRecord,
    PlacementRecord, ResourceEntry, ResourceRecord, ThrottleRecord,
};
use clustodian::controller::runtime::{
    is_controller_input, live_sessions, metadata_value, outputs_match, read_pending,
    session_replaced, ControllerState,
};
use clustodian::controller::view_json::{external_view_json, read_external_view};
use clustodian::coordination::etcd::{
    encode_segment, CoordinationError, CoordinationSnapshot, MetadataEntry, Revision,
};
use clustodian::model::{
    ActiveCurrentState, BestPossibleState, CurrentState, ExternalView, InstanceId, LiveInstance,
    ParticipantSessionSnapshot, PartitionId, ResourceId, SessionId, State,
};
use clustodian::ordered::{OrderedMap, OrderedSet};
use serde_json::Value;
use std::collections::BTreeSet;

fn state(name: &str) -> State {
    State::try_from(name).expect("valid test state")
}

fn instance(name: &str) -> InstanceId {
    InstanceId::new(name).expect("valid instance")
}

fn partition(name: &str) -> PartitionId {
    PartitionId::new(name).expect("valid partition")
}

fn resource_id(name: &str) -> ResourceId {
    ResourceId::new(name).expect("valid resource")
}

fn metadata(entries: &[(&str, &str)]) -> OrderedMap<String, MetadataEntry> {
    let mut map = OrderedMap::new();
    for (index, (key, value)) in entries.iter().enumerate() {
        map.insert(
            (*key).to_owned(),
            MetadataEntry::new((*value).to_owned(), Revision::new(index as i64 + 1).unwrap()),
        );
    }
    map
}

fn snapshot(
    entries: &[(&str, &str)],
    live_names: &[&str],
    resources: OrderedMap<ResourceId, CurrentState>,
) -> CoordinationSnapshot {
    snapshot_at(Revision::new(100).unwrap(), entries, live_names, resources)
}

fn snapshot_at(
    revision: Revision,
    entries: &[(&str, &str)],
    live_names: &[&str],
    resources: OrderedMap<ResourceId, CurrentState>,
) -> CoordinationSnapshot {
    let mut live = OrderedMap::new();
    let mut active = OrderedMap::new();
    for (sequence, name) in live_names.iter().enumerate() {
        let instance = instance(name);
        let session = SessionId::from_wire_value(sequence as u64 + 1);
        live.insert(instance.clone(), LiveInstance::new(instance.clone(), session));
        active.insert(instance, ActiveCurrentState::new(session, resources.clone()));
    }
    CoordinationSnapshot::from_parts(
        revision,
        metadata(entries),
        ParticipantSessionSnapshot::from_parts(live, active),
    )
}

fn current(entries: &[(&str, &str, &str)]) -> CurrentState {
    let mut builder = CurrentState::builder();
    for (name, owner, value) in entries {
        builder.set_state(partition(name), instance(owner), state(value)).unwrap();
    }
    builder.build()
}

fn one_resource(name: &str, current: CurrentState) -> OrderedMap<ResourceId, CurrentState> {
    let mut resources = OrderedMap::new();
    resources.insert(resource_id(name), current);
    resources
}

fn config() -> (&'static str, &'static str) {
    (
        "controller/instance-configs",
        r#"[{"name":"node-a","zone":"zone-a"},{"name":"node-b","zone":"zone-b"}]"#,
    )
}

fn resource() -> (&'static str, &'static str) {
    (
        "controller/resources/documents",
        r#"{"name":"documents","state_model":"LeaderStandby","placement":{"kind":"SEMI_AUTO","replicas":2,"preference_lists":{"documents_0":["node-a","node-b"]}}}"#,
    )
}

fn text_field(value: &Value, name: &str) -> Result<String, String> {
    value
        .get(name)
        .and_then(Value::as_str)
        .map(str::to_owned)
        .ok_or_else(|| format!("missing field `{name}`"))
}

fn optional_text(value: &Value, name: &str) -> Option<String> {
    value.get(name).and_then(Value::as_str).map(str::to_owned)
}

fn number_field(value: &Value, name: &str) -> Result<u64, String> {
    value.get(name).and_then(Value::as_u64).ok_or_else(|| format!("missing field `{name}`"))
}

fn texts(value: &Value) -> Result<Vec<String>, String> {
    value
        .as_array()
        .ok_or("expected a list")?
        .iter()
        .map(|item| item.as_str().map(str::to_owned).ok_or("expected a string".to_owned()))
        .collect()
}

fn parse(text: &str) -> Result<Value, String> {
    serde_json::from_str(text).map_err(|error| error.to_string())
}

fn list_of<T>(
    text: Option<&str>,
    item: impl Fn(&Value) -> Result<T, String>,
) -> Decoded<Vec<T>> {
    let Some(text) = text else {
        return Decoded::Missing;
    };
    let decode = || -> Result<Vec<T>, String> {
        parse(text)?.as_array().ok_or("expected a list")?.iter().map(&item).collect()
    };
    match decode() {
        Ok(value) => Decoded::Value(value),
        Err(message) => Decoded::Malformed(message),
    }
}

fn decode_configs(text: Option<&str>) -> Decoded<Vec<InstanceConfigRecord>> {
    list_of(text, |item| {
        Ok(InstanceConfigRecord {
            name: text_field(item, "name")?,
            zone: text_field(item, "zone")?,
        })
    })
}

fn decode_throttles(text: Option<&str>) -> Decoded<Vec<ThrottleRecord>> {
    list_of(text, |item| {
        Ok(ThrottleRecord {
            scope: text_field(item, "scope")?,
            resource: optional_text(item, "resource"),
            instance: optional_text(item, "instance"),
            rebalance_type: text_field(item, "rebalance_type")?,
            max_in_flight: number_field(item, "max_in_flight")? as usize,
        })
    })
}

fn decode_pending(text: Option<&str>) -> Decoded<Vec<PublishedTransition>> {
    list_of(text, |item| {
        Ok(PublishedTransition {
            resource: text_field(item, "resource")?,
            partition: text_field(item, "partition")?,
            instance: text_field(item, "instance")?,
            target_session: number_field(item, "target_session")?,
            from: text_field(item, "from")?,
            to: text_field(item, "to")?,
            message_type: text_field(item, "message_type")?,
            message_id: text_field(item, "message_id")?,
        })
    })
}

fn decode_resource(text: &str) -> Result<ResourceRecord, String> {
    let value = parse(text)?;
    let placement = value.get("placement").ok_or("missing field `placement`")?;
    let mut preference_lists = OrderedMap::new();
    if let Some(lists) = placement.get("preference_lists") {
        for (name, list) in lists.as_object().ok_or("expected a map")? {
            preference_lists.insert(name.clone(), texts(list)?);
        }
    }
    let topology = match placement.get("topology") {
        None | Some(Value::Null) => None,
        Some(topology) => Some(CrushTopologyRecord {
            path: text_field(topology, "path")?,
            fault_zone_type: text_field(topology, "fault_zone_type")?,
            end_node_type: text_field(topology, "end_node_type")?,
        }),
    };
    Ok(ResourceRecord {
        name: text_field(&value, "name")?,
        state_model: text_field(&value, "state_model")?,
        placement: PlacementRecord {
            kind: text_field(placement, "kind")?,
            replicas: number_field(placement, "replicas")? as usize,
            preference_lists,
            partitions: match placement.get("partitions") {
                None => Vec::new(),
                Some(partitions) => texts(partitions)?,
            },
            topology,
        },
    })
}

fn entries_of(snapshot: &CoordinationSnapshot) -> Vec<ResourceEntry> {
    resource_texts(snapshot)
        .iter()
        .map(|definition| ResourceEntry {
            key_name: definition.name.clone(),
            record: decode_resource(&definition.value),
        })
        .collect()
}

fn metadata_of(snapshot: &CoordinationSnapshot) -> ControllerMetadata {
    ControllerMetadata {
        instance_configs: decode_configs(instance_configs_text(snapshot)),
        resources: entries_of(snapshot),
        throttles: decode_throttles(throttles_text(snapshot)),
    }
}

/// The first instance of each list leads, its other instances stand by, and
/// replicas outside the lists go.
fn by_rank(request: &PlacementRequest) -> BestPossibleState {
    let mut best = BestPossibleState::builder();
    let planning = request.planning_state.entries();
    for i in 0..planning.len() {
        let partition = planning.key_at(i);
        let empty = Vec::new();
        let list = request.ideal.preference_list(partition).unwrap_or(&empty);
        let replicas = planning.value_at(i);
        for j in 0..replicas.len() {
            let owner = replicas.key_at(j);
            let target = match list.iter().position(|listed| listed == owner) {
                Some(0) => "LEADER",
                Some(_) => "STANDBY",
                None => "DROPPED",
            };
            best.set_state(partition.clone(), owner.clone(), state(target)).unwrap();
        }
    }
    best.build()
}

fn lists(entries: &[(&str, &[&str])]) -> OrderedMap<PartitionId, Vec<InstanceId>> {
    let mut map = OrderedMap::new();
    for (name, owners) in entries {
        map.insert(partition(name), owners.iter().map(|owner| instance(owner)).collect());
    }
    map
}

fn no_assignment(_: &AssignmentRequest) -> OrderedMap<PartitionId, Vec<InstanceId>> {
    panic!("no assignment is expected")
}

fn compute_outputs(
    snapshot: &CoordinationSnapshot,
    pending: &[PublishedTransition],
    mode: ReconcileMode,
    assign: impl Fn(&AssignmentRequest) -> OrderedMap<PartitionId, Vec<InstanceId>>,
    place: impl Fn(&PlacementRequest) -> BestPossibleState,
) -> Result<ControllerOutputs, ControllerRuntimeError> {
    let metadata = metadata_of(snapshot);
    let pending = pending.to_vec();
    let mut assignments = Vec::new();
    let mut placements = Vec::new();
    loop {
        match compute_outputs_with_pending_policy(
            snapshot,
            &metadata,
            &pending,
            mode,
            &assignments,
            &placements,
        ) {
            PlanningStep::Assign(request) => {
                assignments.push(AssignmentAnswer { lists: Ok(assign(&request)) });
            }
            PlanningStep::Place(request) => {
                placements.push(PlacementAnswer { best: Ok(place(&request)) });
            }
            PlanningStep::Finished(result) => return result,
        }
    }
}

fn compute_ranked(
    snapshot: &CoordinationSnapshot,
    pending: &[PublishedTransition],
    mode: ReconcileMode,
) -> Result<ControllerOutputs, ControllerRuntimeError> {
    compute_outputs(snapshot, pending, mode, no_assignment, by_rank)
}

fn message(
    name: &str,
    owner: &str,
    target_session: u64,
    from: &str,
    to: &str,
    message_id: &str,
) -> PublishedTransition {
    PublishedTransition {
        resource: String::from("documents"),
        partition: String::from(name),
        instance: String::from(owner),
        target_session,
        from: String::from(from),
        to: String::from(to),
        message_type: String::from("STATE_TRANSITION"),
        message_id: String::from(message_id),
    }
}

#[test]
fn output_events_do_not_reconcile() {
    let encoded = encode_segment("controller/output/processed-revision");
    assert!(!is_controller_input(&format!("metadata/{encoded}")));
    assert!(is_controller_input("live/6e6f64652d61"));
    assert!(is_controller_input("current-state/a/1/r/p"));
    assert!(is_controller_input("metadata/not-a-valid-hex-key"));
    assert!(!is_controller_input("sessions/node-a/1"));
    assert!(is_controller_input("metadata/"));
}

#[test]
fn runtime_helpers_cover_empty_and_malformed_inputs() {
    let empty = snapshot(&[], &[], OrderedMap::new());
    assert!(live_sessions(&empty).is_empty());
    assert!(!session_replaced(&OrderedMap::new(), &empty));
    assert!(metadata_value(&empty, "missing").is_none());
    assert!(instance_configs(&decode_configs(instance_configs_text(&empty))).unwrap().is_empty());
    assert!(matches!(
        resource_plans(
            &entries_of(&empty),
            &OrderedMap::new(),
            &OrderedSet::new(),
            &Vec::new(),
        ),
        PlansStep::Plans(plans) if plans.is_empty()
    ));
    assert!(read_pending(&decode_pending(pending_text(&empty))).unwrap().is_empty());
    assert!(throttles(&decode_throttles(throttles_text(&empty))).unwrap().is_empty());
    assert!(operational_pending_for_plans(&vec![], &vec![], ReconcileMode::Normal).is_empty());
    assert!(external_view_json(&ExternalView::from_current_states(OrderedMap::new())).is_ok());
    assert!(!is_leadership_loss(&ControllerRuntimeError::message(String::from("other"))));
    assert!(to_operational_pending(&PublishedTransition {
        resource: String::new(),
        partition: String::from("p0"),
        instance: String::from("node-a"),
        target_session: 1,
        from: String::from("OFFLINE"),
        to: String::from("STANDBY"),
        message_type: String::from("STATE_TRANSITION"),
        message_id: String::from("m1"),
    })
    .is_none());
    let malformed = snapshot(
        &[("controller/output/pending-transitions", "not-json")],
        &[],
        OrderedMap::new(),
    );
    assert!(read_pending(&decode_pending(pending_text(&malformed))).is_err());
    let unknown = snapshot(
        &[(
            "controller/throttles",
            "[{\"scope\":\"UNKNOWN\",\"rebalance_type\":\"ANY\",\"max_in_flight\":1}]",
        )],
        &[],
        OrderedMap::new(),
    );
    assert!(throttles(&decode_throttles(throttles_text(&unknown))).is_err());
    let valid = snapshot(
        &[(
            "controller/throttles",
            "[{\"scope\":\"CLUSTER\",\"rebalance_type\":\"ANY\",\"max_in_flight\":1},{\"scope\":\"RESOURCE\",\"rebalance_type\":\"RECOVERY_BALANCE\",\"max_in_flight\":2},{\"scope\":\"INSTANCE\",\"rebalance_type\":\"LOAD_BALANCE\",\"max_in_flight\":3}]",
        )],
        &[],
        OrderedMap::new(),
    );
    let valid_throttles = throttles(&decode_throttles(throttles_text(&valid))).unwrap();
    assert_eq!(valid_throttles.len(), 3);
}

#[test]
fn runtime_builds_external_view_and_retains_pending_work() {
    let (config_key, config_value) = config();
    let (resource_key, resource_value) = resource();
    let actual = current(&[
        ("documents_0", "node-a", "STANDBY"),
        ("documents_0", "node-b", "STANDBY"),
    ]);
    let pending_snapshot = snapshot(
        &[
            (config_key, config_value),
            (resource_key, resource_value),
            (
                "controller/throttles",
                "[{\"scope\":\"CLUSTER\",\"rebalance_type\":\"ANY\",\"max_in_flight\":1}]",
            ),
        ],
        &["node-a", "node-b"],
        one_resource("documents", actual),
    );
    let pending = vec![message("documents_0", "node-a", 1, "STANDBY", "LEADER", "pending-1")];
    let outputs = compute_ranked(&pending_snapshot, &pending, ReconcileMode::Normal).unwrap();
    assert_eq!(outputs.pending, pending);
    assert_eq!(outputs.external_view.entries().len(), 1);
    assert_eq!(
        outputs
            .external_view
            .entries()
            .get(&resource_id("documents"))
            .unwrap()
            .get(&partition("documents_0"))
            .unwrap()
            .get(&instance("node-a"))
            .unwrap()
            .as_str(),
        "STANDBY"
    );
}

#[test]
fn session_replacement_does_not_discard_unrelated_pending_work() {
    let (config_key, config_value) = config();
    let (resource_key, resource_value) = resource();
    let pending_snapshot = snapshot(
        &[
            (config_key, config_value),
            (resource_key, resource_value),
            (
                "controller/throttles",
                "[{\"scope\":\"CLUSTER\",\"rebalance_type\":\"ANY\",\"max_in_flight\":1}]",
            ),
        ],
        &["node-a", "node-b"],
        one_resource(
            "documents",
            current(&[
                ("documents_0", "node-a", "STANDBY"),
                ("documents_0", "node-b", "STANDBY"),
            ]),
        ),
    );
    let pending = vec![
        message("documents_0", "node-a", 99, "STANDBY", "LEADER", "obsolete-session"),
        message("documents_0", "node-b", 2, "STANDBY", "LEADER", "unrelated-pending"),
    ];

    let outputs = compute_ranked(&pending_snapshot, &pending, ReconcileMode::Normal).unwrap();
    assert_eq!(
        outputs.pending,
        vec![pending
            .into_iter()
            .find(|message| message.message_id == "unrelated-pending")
            .unwrap()]
    );
}

#[test]
fn retained_pending_work_reserves_replica_across_rebalance() {
    let (config_key, config_value) = config();
    let actual = current(&[
        ("documents_0", "node-a", "STANDBY"),
        ("documents_0", "node-b", "STANDBY"),
    ]);
    let resource_value = r#"{"name":"documents","state_model":"LeaderStandby","placement":{"kind":"SEMI_AUTO","replicas":2,"preference_lists":{"documents_0":["node-b","node-a"]}}}"#;
    let pending_snapshot = snapshot(
        &[
            (config_key, config_value),
            ("controller/resources/documents", resource_value),
            ("controller/throttles", "[]"),
        ],
        &["node-a", "node-b"],
        one_resource("documents", actual),
    );
    let pending = vec![message("documents_0", "node-a", 1, "STANDBY", "LEADER", "pending-1")];

    let outputs = compute_ranked(&pending_snapshot, &pending, ReconcileMode::Normal).unwrap();
    assert_eq!(outputs.pending, pending);
}

#[test]
fn removed_crush_replicas_do_not_block_new_preference_members() {
    let pending_snapshot = snapshot(
        &[
            (
                "controller/instance-configs",
                r#"[{"name":"node-a","zone":"zone-a"},{"name":"node-b","zone":"zone-b"},{"name":"node-c","zone":"zone-c"}]"#,
            ),
            (
                "controller/resources/documents",
                r#"{"name":"documents","state_model":"LeaderStandby","placement":{"kind":"CRUSH","replicas":2,"partitions":["documents_0","documents_1","documents_2","documents_3"]}}"#,
            ),
            ("controller/throttles", "[]"),
        ],
        &["node-a", "node-b", "node-c"],
        OrderedMap::new(),
    );
    let pending = ["documents_0", "documents_1", "documents_2", "documents_3"]
        .into_iter()
        .flat_map(|name| {
            [("node-a", 1_u64), ("node-b", 2_u64)].into_iter().map(
                move |(owner, target_session)| {
                    message(
                        name,
                        owner,
                        target_session,
                        "OFFLINE",
                        "STANDBY",
                        &format!("pending-{name}-{owner}"),
                    )
                },
            )
        })
        .collect::<Vec<_>>();

    let outputs = compute_outputs(
        &pending_snapshot,
        &pending,
        ReconcileMode::Normal,
        |request| {
            assert_eq!(request.replicas, 2);
            assert_eq!(request.partitions.len(), 4);
            lists(&[
                ("documents_0", &["node-c", "node-a"]),
                ("documents_1", &["node-b", "node-c"]),
                ("documents_2", &["node-c", "node-b"]),
                ("documents_3", &["node-a", "node-b"]),
            ])
        },
        by_rank,
    )
    .unwrap();
    assert!(outputs.pending.iter().any(|message| {
        message.instance == "node-c"
            && ["documents_0", "documents_1", "documents_2"].contains(&message.partition.as_str())
    }));
    assert!(!outputs
        .pending
        .iter()
        .any(|message| { message.instance == "node-c" && message.partition == "documents_3" }));
}

#[test]
fn replacement_session_bootstraps_missing_replica() {
    let (config_key, config_value) = config();
    let (resource_key, resource_value) = resource();
    let pending_snapshot = snapshot(
        &[(config_key, config_value), (resource_key, resource_value)],
        &["node-a", "node-b"],
        one_resource(
            "documents",
            current(&[
                ("documents_0", "node-a", "OFFLINE"),
                ("documents_0", "node-b", "STANDBY"),
            ]),
        ),
    );
    let outputs = compute_ranked(&pending_snapshot, &[], ReconcileMode::Normal).unwrap();
    assert!(outputs.pending.iter().any(|message| {
        message.instance == "node-a" && message.from == "OFFLINE" && message.to == "STANDBY"
    }));
}

fn standing_leader(_: &PlacementRequest) -> BestPossibleState {
    let mut best = BestPossibleState::builder();
    best.set_state(partition("documents_0"), instance("node-a"), state("STANDBY"))
        .unwrap()
        .set_state(partition("documents_0"), instance("node-b"), state("LEADER"))
        .unwrap();
    best.build()
}

#[test]
fn newly_dispatched_transition_ids_are_unique_and_attempt_scoped() {
    let (config_key, config_value) = config();
    let (resource_key, resource_value) = resource();
    let resources = one_resource(
        "documents",
        current(&[
            ("documents_0", "node-a", "OFFLINE"),
            ("documents_0", "node-b", "STANDBY"),
        ]),
    );
    let entries = &[(config_key, config_value), (resource_key, resource_value)];
    let compute = |snapshot: &CoordinationSnapshot, pending: &[PublishedTransition], mode| {
        compute_outputs(snapshot, pending, mode, no_assignment, standing_leader).unwrap().pending
    };
    let first_snapshot = snapshot_at(
        Revision::new(100).unwrap(),
        entries,
        &["node-a", "node-b"],
        resources.clone(),
    );
    let first_pending = compute(&first_snapshot, &[], ReconcileMode::Normal);
    assert_eq!(first_pending.len(), 2);
    assert_eq!(
        first_pending.iter().map(|message| message.message_id.as_str()).collect::<BTreeSet<_>>(),
        BTreeSet::from(["m10:100:0", "m10:100:1"])
    );

    let retained = compute(&first_snapshot, &first_pending, ReconcileMode::Normal);
    assert_eq!(retained, first_pending);

    let second_snapshot =
        snapshot_at(Revision::new(101).unwrap(), entries, &["node-a", "node-b"], resources);
    let second_pending = compute(&second_snapshot, &[], ReconcileMode::Normal);
    assert_eq!(second_pending.len(), 2);
    assert_eq!(
        second_pending.iter().map(|message| message.message_id.as_str()).collect::<BTreeSet<_>>(),
        BTreeSet::from(["m10:101:0", "m10:101:1"])
    );
    assert!(first_pending
        .iter()
        .all(|first| second_pending.iter().all(|second| first.message_id != second.message_id)));

    let failover_pending = compute(&second_snapshot, &first_pending, ReconcileMode::Startup);
    assert_eq!(failover_pending, first_pending);
}

#[test]
fn obsolete_removal_work_is_replaced_when_placement_returns() {
    let pending_snapshot = snapshot(
        &[
            (
                "controller/instance-configs",
                r#"[{"name":"node-a","zone":"zone-a"},{"name":"node-c","zone":"zone-c"}]"#,
            ),
            (
                "controller/resources/documents",
                r#"{"name":"documents","state_model":"LeaderStandby","placement":{"kind":"SEMI_AUTO","replicas":2,"preference_lists":{"documents_0":["node-c","node-a"]}}}"#,
            ),
        ],
        &["node-a", "node-c"],
        one_resource(
            "documents",
            current(&[
                ("documents_0", "node-a", "OFFLINE"),
                ("documents_0", "node-c", "LEADER"),
            ]),
        ),
    );
    let obsolete = message("documents_0", "node-a", 1, "OFFLINE", "DROPPED", "obsolete-1");

    let outputs =
        compute_ranked(&pending_snapshot, &[obsolete], ReconcileMode::SessionReplacement).unwrap();
    assert_eq!(outputs.pending.len(), 1);
    assert_eq!(outputs.pending[0].instance, "node-a");
    assert_eq!(outputs.pending[0].from, "OFFLINE");
    assert_eq!(outputs.pending[0].to, "STANDBY");
}

#[test]
fn runtime_handles_empty_and_crush_plans() {
    let empty = snapshot(&[], &[], OrderedMap::new());
    let outputs = compute_ranked(&empty, &[], ReconcileMode::Normal).unwrap();
    assert!(outputs.external_view.entries().is_empty());
    assert!(outputs.pending.is_empty());

    let (config_key, config_value) = config();
    let crush = r#"{"name":"documents","state_model":"LeaderStandby","placement":{"kind":"CRUSH","replicas":1,"partitions":["documents_0"]}}"#;
    let pending_snapshot = snapshot(
        &[(config_key, config_value), ("controller/resources/documents", crush)],
        &["node-a"],
        OrderedMap::new(),
    );
    let outputs = compute_outputs(
        &pending_snapshot,
        &[],
        ReconcileMode::Normal,
        |request| {
            assert_eq!(request.topology.path, "/instance");
            assert_eq!(request.topology.fault_zone_type, "instance");
            assert_eq!(request.topology.end_node_type, "instance");
            lists(&[("documents_0", &["node-a"])])
        },
        by_rank,
    )
    .unwrap();
    assert_eq!(outputs.pending.len(), 1);
}

#[test]
fn crush_plans_ask_with_zones_and_topology() {
    let snapshot = snapshot(
        &[
            (
                "controller/instance-configs",
                r#"[{"name":"node-a","zone":"zone-a"},{"name":"node-b","zone":"zone-b"},{"name":"node-c","zone":"zone-a"},{"name":"node-d","zone":"zone-b"}]"#,
            ),
            (
                "controller/resources/objects",
                r#"{"name":"objects","state_model":"LeaderStandby","placement":{"kind":"CRUSH","replicas":2,"partitions":["objects_0"],"topology":{"path":"/zone/instance","fault_zone_type":"zone","end_node_type":"instance"}}}"#,
            ),
        ],
        &["node-a", "node-b", "node-c", "node-d"],
        OrderedMap::new(),
    );
    let configs = instance_configs(&decode_configs(instance_configs_text(&snapshot))).unwrap();
    let mut live = OrderedSet::new();
    for name in ["node-a", "node-b", "node-c", "node-d"] {
        live.insert(instance(name));
    }
    let entries = entries_of(&snapshot);
    let PlansStep::Ask(request) = resource_plans(&entries, &configs, &live, &Vec::new()) else {
        panic!("an assignment is expected");
    };
    assert_eq!(request.resource, resource_id("objects"));
    assert_eq!(request.partitions, vec![partition("objects_0")]);
    assert_eq!(request.replicas, 2);
    assert_eq!(request.zones, configs);
    assert_eq!(request.live, live);
    assert_eq!(request.topology.path, "/zone/instance");
    assert_eq!(request.topology.fault_zone_type, "zone");
    assert_eq!(request.topology.end_node_type, "instance");

    let answer = AssignmentAnswer { lists: Ok(lists(&[("objects_0", &["node-d", "node-a"])])) };
    let PlansStep::Plans(plans) = resource_plans(&entries, &configs, &live, &vec![answer]) else {
        panic!("a plan is expected");
    };
    assert_eq!(
        plans[0].ideal.preference_list(&partition("objects_0")).unwrap(),
        &vec![instance("node-d"), instance("node-a")]
    );

    let refused = AssignmentAnswer { lists: Err(String::from("no capacity")) };
    assert!(matches!(
        resource_plans(&entries, &configs, &live, &vec![refused]),
        PlansStep::Fail(error) if error.to_string() == "no capacity"
    ));
}

#[test]
fn runtime_rejects_malformed_controller_metadata() {
    let cases = [
        (
            vec![("controller/instance-configs", "not-json")],
            "expected instance config error",
        ),
        (
            vec![("controller/resources/wrong", r#"{"name":"other"}"#)],
            "expected resource name error",
        ),
        (
            vec![(
                "controller/resources/documents",
                r#"{"name":"documents","state_model":"Other","placement":{"kind":"SEMI_AUTO","replicas":1}}"#,
            )],
            "expected state model error",
        ),
        (
            vec![(
                "controller/resources/documents",
                r#"{"name":"documents","state_model":"LeaderStandby","placement":{"kind":"TYPO","replicas":1}}"#,
            )],
            "expected placement kind error",
        ),
        (
            vec![(
                "controller/throttles",
                r#"[{"scope":"BAD","rebalance_type":"ANY","max_in_flight":1}]"#,
            )],
            "expected throttle scope error",
        ),
        (
            vec![(
                "controller/throttles",
                r#"[{"scope":"CLUSTER","rebalance_type":"BAD","max_in_flight":1}]"#,
            )],
            "expected throttle type error",
        ),
    ];
    for (entries, message) in cases {
        assert!(
            compute_ranked(
                &snapshot(&entries, &[], OrderedMap::new()),
                &[],
                ReconcileMode::Normal,
            )
            .is_err(),
            "{message}"
        );
    }
}

#[test]
fn malformed_metadata_names_its_fault() {
    let fault = |entries: &[(&str, &str)]| {
        compute_ranked(&snapshot(entries, &[], OrderedMap::new()), &[], ReconcileMode::Normal)
            .err()
            .map(|error| error.to_string())
    };
    let placed = |name: &str, model: &str, kind: &str| {
        format!(
            r#"{{"name":"{name}","state_model":"{model}","placement":{{"kind":"{kind}","replicas":1}}}}"#
        )
    };
    assert_eq!(
        fault(&[(
            "controller/resources/wrong",
            &placed("other", "LeaderStandby", "SEMI_AUTO")
        )])
        .as_deref(),
        Some("resource metadata key wrong disagrees with resource name other")
    );
    assert_eq!(
        fault(&[("controller/resources/documents", &placed("documents", "Other", "SEMI_AUTO"))])
            .as_deref(),
        Some("unsupported M10 state model Other")
    );
    assert_eq!(
        fault(&[("controller/resources/documents", &placed("documents", "LeaderStandby", "TYPO"))])
            .as_deref(),
        Some("unsupported M10 placement kind TYPO")
    );
}

#[test]
fn controller_input_watermark_is_monotonic_across_deletions() {
    let initial = snapshot_at(Revision::new(100).unwrap(), &[], &[], OrderedMap::new());
    let mut state =
        ControllerState::from_snapshot(&initial, &decode_pending(pending_text(&initial))).unwrap();
    state.observe_input_revision(Revision::new(105).unwrap());
    state.observe_input_revision(Revision::new(103).unwrap());

    let later = snapshot_at(Revision::new(106).unwrap(), &[], &[], OrderedMap::new())
        .with_authoritative_revision(state.authoritative_revision());
    assert_eq!(later.authoritative_revision(), Revision::new(105).unwrap());
}

#[test]
fn runtime_drops_stale_and_invalid_pending_messages() {
    let (config_key, config_value) = config();
    let (resource_key, resource_value) = resource();
    let pending_snapshot = snapshot(
        &[(config_key, config_value), (resource_key, resource_value)],
        &["node-a"],
        one_resource("documents", current(&[("documents_0", "node-a", "STANDBY")])),
    );
    let pending = vec![
        message("documents_0", "node-a", 99, "STANDBY", "LEADER", "stale-session"),
        message("documents_0", "node-a", 1, "OFFLINE", "STANDBY", "invalid-source"),
        message("documents_0", "node-a", 1, "STANDBY", "LEADER", "pending-1"),
    ];
    let outputs = compute_ranked(&pending_snapshot, &pending, ReconcileMode::Normal).unwrap();
    assert_eq!(outputs.pending.len(), 1);
    assert_eq!(outputs.pending[0].to, "LEADER");
}

#[test]
fn runtime_decodes_pending_metadata_and_serializes_external_view() {
    let pending = message("documents_0", "node-a", 1, "OFFLINE", "STANDBY", "pending-1");
    let pending_snapshot = snapshot(
        &[(
            "controller/output/pending-transitions",
            r#"[{"resource":"documents","partition":"documents_0","instance":"node-a","target_session":1,"from":"OFFLINE","to":"STANDBY","message_type":"STATE_TRANSITION","message_id":"pending-1"}]"#,
        )],
        &[],
        OrderedMap::new(),
    );
    let read = |snapshot: &CoordinationSnapshot| {
        read_pending(&decode_pending(pending_text(snapshot)))
    };
    assert_eq!(read(&pending_snapshot).unwrap(), vec![pending]);
    assert!(read(&snapshot(
        &[("controller/output/pending-transitions", "bad")],
        &[],
        OrderedMap::new(),
    ))
    .is_err());
    assert!(read(&snapshot(
        &[(
            "controller/output/pending-transitions",
            r#"[{"resource":"documents","partition":"documents_0","instance":"node-a","target_session":1,"from":"OFFLINE","to":"STANDBY","message_type":"STATE_TRANSITION","message_id":""}]"#,
        )],
        &[],
        OrderedMap::new(),
    ))
    .is_err());
    assert_eq!(external_view_json(&ExternalView::default()).unwrap(), "{}");
}

#[test]
fn external_views_read_back_as_written() {
    let mut resources = OrderedMap::new();
    resources.insert(
        resource_id("docs \"quoted\""),
        current(&[("p1", "node-b", "STANDBY"), ("p0", "node-a", "LEADER")]),
    );
    let text = external_view_json(&ExternalView::from_current_states(resources)).unwrap();
    assert_eq!(
        text,
        r#"{"docs \"quoted\"":{"p0":{"node-a":"LEADER"},"p1":{"node-b":"STANDBY"}}}"#
    );
    let rows = read_external_view(&text).unwrap();
    assert_eq!(rows.len(), 1);
    assert!(read_external_view("[1]").is_err());
    assert!(read_external_view("{").is_err());
    let repeated = read_external_view(r#"{"docs":1,"docs":{}}"#).unwrap();
    assert_eq!(repeated, vec![(String::from("docs"), Vec::new())]);
}

#[test]
fn controller_outputs_match_only_their_own_text() {
    let with = |view: &str, pending: &str, processed: &str| {
        snapshot(
            &[
                ("controller/output/external-view", view),
                ("controller/output/pending-transitions", pending),
                ("controller/output/processed-revision", processed),
            ],
            &[],
            OrderedMap::new(),
        )
    };
    assert!(outputs_match(&with("{}", "[]", "100"), "{}", "[]"));
    assert!(outputs_match(&with("{}", "[]", "101"), "{}", "[]"));
    assert!(!outputs_match(&with("{}", "[]", "99"), "{}", "[]"));
    assert!(!outputs_match(&with("{}", "[]", "latest"), "{}", "[]"));
    assert!(!outputs_match(&with("{ }", "[]", "100"), "{}", "[]"));
    assert!(!outputs_match(&with("{}", "[1]", "100"), "{}", "[]"));
    assert!(!outputs_match(&snapshot(&[], &[], OrderedMap::new()), "{}", "[]"));
}

#[test]
fn replaced_sessions_call_for_another_mode() {
    let first = snapshot(&[], &["node-a", "node-b"], OrderedMap::new());
    let mut state = ControllerState::from_snapshot(&first, &Decoded::Missing).unwrap();
    assert_eq!(state.mode_for(&first), ReconcileMode::Normal);
    let second = snapshot(&[], &["node-b", "node-a"], OrderedMap::new());
    assert!(session_replaced(&live_sessions(&first), &second));
    assert_eq!(state.mode_for(&second), ReconcileMode::SessionReplacement);
    state.remember_sessions(&second);
    assert_eq!(state.mode_for(&second), ReconcileMode::Normal);
}

#[test]
fn resource_definitions_are_read_by_their_keys() {
    let snapshot = snapshot(
        &[
            ("controller/resources/b", "second"),
            ("controller/resources", "not a definition"),
            ("controller/resources/a", "first"),
            ("controller/throttles", "[]"),
        ],
        &[],
        OrderedMap::new(),
    );
    let definitions = resource_texts(&snapshot);
    assert_eq!(definitions.len(), 2);
    assert_eq!((definitions[0].name.as_str(), definitions[0].value.as_str()), ("a", "first"));
    assert_eq!((definitions[1].name.as_str(), definitions[1].value.as_str()), ("b", "second"));
    assert_eq!(throttles_text(&snapshot), Some("[]"));
    assert_eq!(instance_configs_text(&snapshot), None);
}

#[test]
fn coordination_error_strings_cover_operator_facing_failures() {
    let errors = [
        CoordinationError::InvalidPrefix,
        CoordinationError::InvalidKey,
        CoordinationError::InvalidValue,
        CoordinationError::InvalidLeaseTtl,
        CoordinationError::LeaseExpired,
        CoordinationError::InvalidRevision(0),
        CoordinationError::RevisionExhausted,
        CoordinationError::MissingRevision,
        CoordinationError::OutsidePrefix,
        CoordinationError::InvalidSession,
        CoordinationError::UnknownSession(SessionId::from_wire_value(1)),
        CoordinationError::RegistrationLost,
        CoordinationError::Contention,
        CoordinationError::StaleSession(InstanceId::new("node-a").unwrap()),
    ];
    for error in errors {
        assert!(!error.to_string().is_empty());
    }
}

#[test]
fn published_transition_order_is_semantic_and_deterministic() {
    let mut transitions = BTreeSet::from([
        PublishedTransition {
            resource: String::from("b"),
            partition: String::from("p"),
            instance: String::from("i"),
            target_session: 1,
            from: String::from("OFFLINE"),
            to: String::from("STANDBY"),
            message_type: String::from("STATE_TRANSITION"),
            message_id: String::from("b-message"),
        },
        PublishedTransition {
            resource: String::from("a"),
            partition: String::from("p"),
            instance: String::from("i"),
            target_session: 1,
            from: String::from("OFFLINE"),
            to: String::from("STANDBY"),
            message_type: String::from("STATE_TRANSITION"),
            message_id: String::from("a-message"),
        },
    ]);
    assert_eq!(transitions.pop_first().unwrap().resource, "a");
}

#[test]
fn library_sets_order_published_transitions_the_same_way() {
    let mut set: OrderedSet<PublishedTransition> = OrderedSet::new();
    let base = message("p", "i", 2, "OFFLINE", "STANDBY", "m");
    let variants = [
        PublishedTransition { resource: String::from("a"), ..base.clone() },
        PublishedTransition { partition: String::from("a"), ..base.clone() },
        PublishedTransition { instance: String::from("a"), ..base.clone() },
        PublishedTransition { target_session: 1, ..base.clone() },
        PublishedTransition { from: String::from("A"), ..base.clone() },
        PublishedTransition { to: String::from("A"), ..base.clone() },
        PublishedTransition { message_type: String::from("A"), ..base.clone() },
        PublishedTransition { message_id: String::from("a"), ..base.clone() },
        base.clone(),
    ];
    for item in variants.iter().rev() {
        assert!(set.insert(item.clone()));
    }
    let reference: Vec<PublishedTransition> =
        variants.into_iter().collect::<BTreeSet<_>>().into_iter().collect();
    let listed: Vec<PublishedTransition> = (0..set.len()).map(|i| set.at(i).clone()).collect();
    assert_eq!(listed, reference);
}

fn everyone_leads(request: &PlacementRequest) -> BestPossibleState {
    let mut best = BestPossibleState::builder();
    let planning = request.planning_state.entries();
    for i in 0..planning.len() {
        let replicas = planning.value_at(i);
        for j in 0..replicas.len() {
            best.set_state(planning.key_at(i).clone(), replicas.key_at(j).clone(), state("LEADER"))
                .unwrap();
        }
    }
    best.build()
}

#[test]
fn a_partition_is_never_given_a_second_leader() {
    let (config_key, config_value) = config();
    let (resource_key, resource_value) = resource();
    let entries = [(config_key, config_value), (resource_key, resource_value)];
    let standbys = current(&[
        ("documents_0", "node-a", "STANDBY"),
        ("documents_0", "node-b", "STANDBY"),
    ]);
    let seen = snapshot(&entries, &["node-a", "node-b"], one_resource("documents", standbys));
    let outputs =
        compute_outputs(&seen, &[], ReconcileMode::Normal, no_assignment, everyone_leads).unwrap();
    assert_eq!(outputs.pending.len(), 1);
    assert_eq!(outputs.pending[0].to, "LEADER");

    // Planning again does not add another one.
    let again = compute_outputs(
        &seen,
        &outputs.pending,
        ReconcileMode::Normal,
        no_assignment,
        everyone_leads,
    )
    .unwrap();
    assert_eq!(again.pending, outputs.pending);

    // While one leads it must step down first.
    let led = current(&[
        ("documents_0", "node-a", "STANDBY"),
        ("documents_0", "node-b", "LEADER"),
    ]);
    let seen = snapshot(&entries, &["node-a", "node-b"], one_resource("documents", led));
    let outputs = compute_ranked(&seen, &[], ReconcileMode::Normal).unwrap();
    assert_eq!(outputs.pending.len(), 1);
    assert_eq!(outputs.pending[0].instance, "node-b");
    assert_eq!(outputs.pending[0].from, "LEADER");
    assert_eq!(outputs.pending[0].to, "STANDBY");
}
