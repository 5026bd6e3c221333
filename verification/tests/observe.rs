use clustodian::controller::published::PublishedTransition;
use clustodian::controller::records::Decoded;
use clustodian::controller::runtime::metadata_value;
use clustodian::controller::view_json::{read_external_view, ResourceRow};
use clustodian::coordination::etcd::{
    CoordinationError, CoordinationSnapshot, EtcdNamespace, MetadataEntry, Revision, WatchError,
    WatchEvent, WatchEventKind,
};
use clustodian::model::{
    ActiveCurrentState, CurrentState, ExternalView, InstanceId, LiveInstance,
    ParticipantSessionSnapshot, PartitionId, ResourceId, SessionId, State,
};
use clustodian::observability::RuntimeEvent;
use clustodian::observe::snapshot::{configured_instances, snapshot_from_coordination};
use clustodian::observe::view::external_view_model;
use clustodian::observe::wait::{
    session_current_state_prefix, wait_on_poll_error, wait_on_watch_error, WaitStep,
};
use clustodian::observe::{
    ClusterSnapshot, ControllerMembership, ObservationWait, ObserverRevision, RoutingResult,
    Snapshot, WaitError,
};
use clustodian::ordered::{OrderedMap, OrderedSet};
use clustodian::routing::{RoutingError, RoutingSnapshot};
use clustodian::time::Duration;
use serde_json::Value;

const INSTANCE_CONFIGS_KEY: &str = "controller/instance-configs";
const EXTERNAL_VIEW_KEY: &str = "controller/output/external-view";
const PENDING_KEY: &str = "controller/output/pending-transitions";

fn external_view(text: &str) -> Option<Vec<ResourceRow>> {
    read_external_view(text).ok()
}

fn one_live(name: &str, session: u64) -> OrderedMap<String, u64> {
    let mut live = OrderedMap::new();
    live.insert(name.to_owned(), session);
    live
}

fn raw_snapshot(view: &str) -> ClusterSnapshot {
    ClusterSnapshot {
        observer_revision: ObserverRevision::from_value(1),
        authoritative_revision: ObserverRevision::from_value(1),
        processed_revision: None,
        controllers: ControllerMembership { active: vec![], standby: vec![] },
        live_instances: one_live("node-a", 1),
        active_current_state: OrderedMap::new(),
        external_view: external_view(view),
        pending_transitions: vec![],
        routing_results: vec![RoutingResult {
            resource: String::from("documents"),
            partition: String::from("documents_0"),
            state: String::from("LEADER"),
            instances: vec![String::from("node-a")],
        }],
    }
}

#[test]
fn application_snapshot_precomputes_and_reuses_typed_routing() {
    let snapshot = Snapshot::from_raw(raw_snapshot(
        r#"{"documents": {"documents_0": {"node-a": "LEADER"}}}"#,
    ))
    .unwrap_or_else(|_| panic!("snapshot routing is valid"));

    let first = snapshot.routing();
    let second = snapshot.routing();
    assert!(std::ptr::eq(first, second));
    assert_eq!(
        first
            .leader("documents", "documents_0")
            .expect("routing lookup is valid")
            .map(|instance| instance.to_string()),
        Some(String::from("node-a"))
    );
    assert!(snapshot.instances().is_live("node-a"));
}

#[test]
fn application_snapshot_rejects_malformed_external_view() {
    assert!(matches!(
        Snapshot::from_raw(raw_snapshot(r#""not-an-external-view""#)),
        Err(CoordinationError::InvalidValue)
    ));
}

fn instance(name: &str) -> InstanceId {
    InstanceId::new(name).expect("test identifier is valid")
}

fn partition(name: &str) -> PartitionId {
    PartitionId::new(name).expect("test identifier is valid")
}

fn resource(name: &str) -> ResourceId {
    ResourceId::new(name).expect("test identifier is valid")
}

fn state(name: &str) -> State {
    State::new(name).expect("test state is valid")
}

fn revision(value: i64) -> Revision {
    Revision::new(value).expect("test revision is valid")
}

fn metadata(entries: &[(&str, &str, i64)]) -> OrderedMap<String, MetadataEntry> {
    let mut map = OrderedMap::new();
    for (key, value, at) in entries {
        map.insert((*key).to_owned(), MetadataEntry::new((*value).to_owned(), revision(*at)));
    }
    map
}

fn snapshot_with(entries: &[(&str, &str, i64)]) -> CoordinationSnapshot {
    CoordinationSnapshot::from_parts(
        revision(9),
        metadata(entries),
        ParticipantSessionSnapshot::default(),
    )
}

fn snapshot_with_state() -> CoordinationSnapshot {
    let node = instance("node-a");
    let session = SessionId::from_wire_value(7);
    let mut current = CurrentState::builder();
    current
        .set_state(partition("documents_0"), node.clone(), state("LEADER"))
        .unwrap()
        .set_state(partition("documents_1"), node.clone(), state("STANDBY"))
        .unwrap();
    let mut resources = OrderedMap::new();
    resources.insert(resource("documents"), current.build());
    let active = ActiveCurrentState::new(session, resources);
    let mut live = OrderedMap::new();
    live.insert(node.clone(), LiveInstance::new(node.clone(), session));
    let mut active_current_state = OrderedMap::new();
    active_current_state.insert(node, active);
    CoordinationSnapshot::from_parts(
        revision(9),
        metadata(&[
            (INSTANCE_CONFIGS_KEY, r#"[{"name":"node-a"}]"#, 5),
            (
                EXTERNAL_VIEW_KEY,
                r#"{"documents":{"documents_0":{"node-a":"LEADER"},"documents_1":{"node-a":"STANDBY"}}}"#,
                8,
            ),
            (
                PENDING_KEY,
                r#"[{"resource":"documents","partition":"documents_0","instance":"node-a","target_session":7,"from":"OFFLINE","to":"STANDBY","message_type":"STATE_TRANSITION","message_id":"m1"}]"#,
                8,
            ),
            ("controller/output/processed-revision", "8", 8),
        ]),
        ParticipantSessionSnapshot::from_parts(live, active_current_state),
    )
}

fn text_field(value: &Value, name: &str) -> Option<String> {
    value.get(name)?.as_str().map(str::to_owned)
}

fn list_of<T>(text: Option<&str>, item: impl Fn(&Value) -> Option<T>) -> Decoded<Vec<T>> {
    let Some(text) = text else {
        return Decoded::Missing;
    };
    let decoded = serde_json::from_str::<Value>(text)
        .ok()
        .and_then(|value| value.as_array()?.iter().map(&item).collect::<Option<Vec<T>>>());
    match decoded {
        Some(value) => Decoded::Value(value),
        None => Decoded::Malformed(String::from("malformed")),
    }
}

fn decode_names(snapshot: &CoordinationSnapshot) -> Decoded<Vec<String>> {
    list_of(metadata_value(snapshot, INSTANCE_CONFIGS_KEY), |item| text_field(item, "name"))
}

fn decode_pending(snapshot: &CoordinationSnapshot) -> Decoded<Vec<PublishedTransition>> {
    list_of(metadata_value(snapshot, PENDING_KEY), |item| {
        Some(PublishedTransition {
            resource: text_field(item, "resource")?,
            partition: text_field(item, "partition")?,
            instance: text_field(item, "instance")?,
            target_session: item.get("target_session")?.as_u64()?,
            from: text_field(item, "from")?,
            to: text_field(item, "to")?,
            message_type: text_field(item, "message_type")?,
            message_id: text_field(item, "message_id")?,
        })
    })
}

fn observe(snapshot: &CoordinationSnapshot) -> Result<ClusterSnapshot, CoordinationError> {
    snapshot_from_coordination(snapshot, &decode_pending(snapshot), &decode_names(snapshot))
}

fn observed(snapshot: &CoordinationSnapshot) -> ClusterSnapshot {
    observe(snapshot).unwrap_or_else(|error| panic!("{}", error.to_string()))
}

#[test]
fn public_observation_views_expose_typed_membership_and_routing() {
    let snapshot = || ClusterSnapshot {
        observer_revision: ObserverRevision::from_value(9),
        authoritative_revision: ObserverRevision::from_value(8),
        processed_revision: Some(ObserverRevision::from_value(8)),
        controllers: ControllerMembership {
            active: vec![String::from("controller-a")],
            standby: vec![String::from("controller-b")],
        },
        live_instances: one_live("node-a", 7),
        active_current_state: OrderedMap::new(),
        external_view: external_view(
            r#"{"documents": {"documents_0": {"node-a": "LEADER", "node-b": "STANDBY"}}}"#,
        ),
        pending_transitions: Vec::new(),
        routing_results: vec![RoutingResult {
            resource: String::from("documents"),
            partition: String::from("documents_0"),
            state: String::from("LEADER"),
            instances: vec![String::from("node-a")],
        }],
    };
    let raw = snapshot();
    assert_eq!(raw.controllers().active(), Some("controller-a"));
    assert_eq!(*raw.controllers().standby(), [String::from("controller-b")]);
    assert_eq!(raw.instances().len(), 1);
    assert!(!raw.instances().is_empty());
    assert!(raw.instances().is_live("node-a"));
    assert!(!raw.instances().is_live("node-b"));
    assert!(raw.pending_transitions().is_empty());
    assert!(raw.try_routing().is_ok());
    let routing = raw.routing();
    assert_eq!(
        routing.leader("documents", "documents_0").unwrap().unwrap().as_str(),
        "node-a"
    );
    let typed = Snapshot::from_raw(snapshot()).unwrap_or_else(|_| panic!("valid snapshot"));
    assert_eq!(typed.observer_revision().value(), 9);
    assert_eq!(typed.authoritative_revision().value(), 8);
    assert_eq!(typed.processed_revision().unwrap().value(), 8);
    assert_eq!(typed.controllers().active(), Some("controller-a"));
    assert_eq!(typed.instances().len(), 1);
    assert!(!typed.instances().is_empty());
    assert!(typed.instances().is_live("node-a"));
    assert!(typed.pending_transitions().is_empty());
    assert_eq!(ObserverRevision::from_value(9).value(), 9);

    let mut malformed = snapshot();
    malformed.external_view = external_view(r#""malformed""#);
    assert!(malformed.try_routing().is_err());
    malformed.external_view =
        external_view(r#"{"documents": {"documents_0": {"node-a": "LEADER"}}}"#);
    malformed.routing_results[0].instances = vec![String::new()];
    assert!(matches!(malformed.try_routing(), Err(CoordinationError::InvalidValue)));
}

#[test]
fn observation_helpers_decode_state_and_reject_malformed_inputs() {
    let snapshot = snapshot_with_state();
    let observed = observed(&snapshot);
    assert_eq!(observed.observer_revision.value(), 9);
    assert_eq!(observed.authoritative_revision.value(), 9);
    assert_eq!(observed.processed_revision.unwrap().value(), 8);
    let node = String::from("node-a");
    assert_eq!(observed.live_instances.get(&node), Some(&7));
    assert_eq!(observed.active_current_state.get(&node).unwrap().session, 7);
    assert_eq!(observed.routing_results.len(), 2);
    assert_eq!(configured_instances(&decode_names(&snapshot)).unwrap().len(), 1);

    let external =
        external_view_model(r#"{"documents": {"documents_0": {"node-a": "LEADER"}}}"#).unwrap();
    assert_eq!(external.entries().len(), 1);
    assert!(external_view_model("[]").is_err());
    assert!(external_view_model(r#"{"": {"documents_0": {"node-a": "LEADER"}}}"#).is_err());
    assert!(external_view_model(r#"{"documents": {"": {"node-a": "LEADER"}}}"#).is_err());
    assert!(external_view_model(r#"{"documents": {"documents_0": {"": "LEADER"}}}"#).is_err());
    assert!(external_view_model(r#"{"documents": {"documents_0": {"node-a": ""}}}"#).is_err());
}

#[test]
fn the_last_of_repeated_names_in_a_stored_view_counts() {
    let text = r#"{"docs":1,"docs":{}}"#;
    let view = external_view_model(text).unwrap();
    assert_eq!(view.entries().len(), 1);
    let seen = observed(&snapshot_with(&[(EXTERNAL_VIEW_KEY, text, 8)]));
    assert_eq!(seen.external_view, Some(vec![(String::from("docs"), Vec::new())]));
    assert!(seen.routing_results.is_empty());

    let text = r#"{"docs":{"p0":[],"p0":{"node-a":7,"node-a":"LEADER"}}}"#;
    let seen = observed(&snapshot_with(&[(EXTERNAL_VIEW_KEY, text, 8)]));
    assert_eq!(
        seen.external_view,
        Some(vec![(
            String::from("docs"),
            vec![(
                String::from("p0"),
                vec![(String::from("node-a"), String::from("LEADER"))]
            )]
        )])
    );

    let wrong = snapshot_with(&[(EXTERNAL_VIEW_KEY, r#"{"docs":{},"docs":1}"#, 8)]);
    assert!(matches!(observe(&wrong), Err(CoordinationError::InvalidValue)));
}

#[test]
fn observation_snapshot_reports_malformed_metadata() {
    let snapshot = snapshot_with(&[("controller/output/processed-revision", "not-a-number", 8)]);
    assert!(matches!(observe(&snapshot), Err(CoordinationError::InvalidValue)));
}

#[test]
fn observation_snapshot_handles_missing_and_malformed_configuration() {
    let empty = snapshot_with(&[]);
    let observed = observed(&empty);
    assert!(observed.external_view.unwrap().is_empty());
    assert!(observed.live_instances.is_empty());
    assert!(observed.routing_results.is_empty());

    let malformed = snapshot_with(&[(INSTANCE_CONFIGS_KEY, "not-json", 8)]);
    assert!(matches!(observe(&malformed), Err(CoordinationError::InvalidValue)));

    let invalid_identifier = snapshot_with(&[(INSTANCE_CONFIGS_KEY, r#"[{"name":""}]"#, 8)]);
    assert!(matches!(observe(&invalid_identifier), Err(CoordinationError::InvalidKey)));
}

#[test]
fn observation_snapshot_rejects_invalid_processed_and_pending_values() {
    for value in ["0", "-1", "not-a-revision"] {
        let snapshot = snapshot_with(&[("controller/output/processed-revision", value, 8)]);
        assert!(
            observe(&snapshot).is_err(),
            "processed revision {value:?} should be rejected"
        );
    }

    let snapshot = snapshot_with(&[(PENDING_KEY, "not-json", 8)]);
    assert!(matches!(observe(&snapshot), Err(CoordinationError::InvalidValue)));
}

#[test]
fn observation_snapshot_maps_active_and_standby_controllers() {
    let mut candidates = OrderedMap::new();
    candidates.insert(String::from("controller-a"), 11);
    candidates.insert(String::from("controller-b"), 12);
    let snapshot = snapshot_with(&[])
        .with_controller_election(Some((String::from("controller-a"), 11)), candidates);
    let observed = observed(&snapshot);
    assert_eq!(observed.controllers.active(), Some("controller-a"));
    assert_eq!(observed.controllers.standby, vec![String::from("controller-b")]);
}

#[test]
fn wait_error_and_controller_membership_handle_empty_values() {
    assert_eq!(ControllerMembership { active: Vec::new(), standby: Vec::new() }.active(), None);
    assert_eq!(
        WaitError::Timeout(Duration::from_millis(25)).to_string(),
        "observation timed out after 25ms"
    );
    assert_eq!(
        WaitError::Coordination(CoordinationError::InvalidKey).to_string(),
        "coordination key is invalid"
    );
    assert_eq!(
        WaitError::Watch(WatchError::Disconnected).to_string(),
        "watch stream disconnected"
    );
    let _: WaitError = CoordinationError::InvalidValue.into();
    let _: WaitError = WatchError::Disconnected.into();
    assert_eq!(ObserverRevision::from_value(2), ObserverRevision::from_value(2));
}

#[test]
fn durations_are_written_as_std_writes_them() {
    for (duration, reference) in [
        (Duration::zero(), std::time::Duration::ZERO),
        (Duration::new(0, 1), std::time::Duration::new(0, 1)),
        (Duration::new(0, 1_500), std::time::Duration::new(0, 1_500)),
        (Duration::new(0, 12_000_000), std::time::Duration::new(0, 12_000_000)),
        (Duration::new(3, 40_000), std::time::Duration::new(3, 40_000)),
        (Duration::from_secs(u64::MAX), std::time::Duration::from_secs(u64::MAX)),
    ] {
        assert_eq!(duration.to_string(), format!("{reference:?}"));
    }
}

#[test]
fn routes_lead_to_configured_instances_only() {
    let mut current = CurrentState::builder();
    current
        .set_state(partition("p0"), instance("node-a"), state("STANDBY"))
        .unwrap()
        .set_state(partition("p0"), instance("node-b"), state("STANDBY"))
        .unwrap()
        .set_state(partition("p0"), instance("node-c"), state("LEADER"))
        .unwrap();
    let mut resources = OrderedMap::new();
    resources.insert(resource("documents"), current.build());
    let mut configured = OrderedSet::new();
    configured.insert(instance("node-b"));
    configured.insert(instance("node-d"));
    let routing = RoutingSnapshot::from_external_view(
        ExternalView::from_current_states(resources),
        configured,
    );
    assert_eq!(
        routing.instances_for(&resource("documents"), &partition("p0"), &state("STANDBY")),
        vec![instance("node-b")]
    );
    assert_eq!(routing.leader("documents", "p0"), Ok(None));
    assert_eq!(
        routing.leader("", "p0"),
        Err(RoutingError::InvalidResource(String::new()))
    );
    assert_eq!(
        routing.leader("documents", "").unwrap_err().to_string(),
        "invalid partition \"\""
    );
}

#[test]
fn observations_are_idle_once_input_is_processed() {
    let snapshot = |processed: &str| {
        observed(&snapshot_with(&[("controller/output/processed-revision", processed, 8)]))
    };
    assert!(!snapshot("8").is_idle());
    let current = snapshot("9");
    assert_eq!(current.authoritative_revision.value(), 9);
    assert!(current.is_idle());
    let later = current.with_authoritative_floor(ObserverRevision::from_value(10));
    assert_eq!(later.authoritative_revision.value(), 10);
    assert!(!later.is_idle());
}

#[test]
fn waits_never_forget_an_expired_lease() {
    let first = observed(&snapshot_with(&[]));
    let mut wait = ObservationWait::wait_until(&first);
    assert!(wait.is_caught_up());
    wait.on_event(&WatchEvent::from_parts(
        revision(12),
        String::from("live/6e"),
        None,
        WatchEventKind::Delete,
    ));
    assert_eq!(wait.floor().value(), 12);
    let seen = wait.on_snapshot(observed(&snapshot_with(&[])));
    assert_eq!(seen.authoritative_revision.value(), 12);
}

#[test]
fn waits_go_on_after_lost_watches() {
    assert!(matches!(
        wait_on_watch_error(WatchError::Compacted { revision: revision(3) }),
        WaitStep::Replace
    ));
    assert!(matches!(
        wait_on_watch_error(WatchError::Disconnected),
        WaitStep::Resume(RuntimeEvent::CoordinationRetry { .. })
    ));
    assert!(matches!(
        wait_on_watch_error(WatchError::Coordination(CoordinationError::InvalidKey)),
        WaitStep::Fail(WaitError::Watch(_))
    ));
    assert!(wait_on_poll_error(CoordinationError::Etcd(String::from("away"))).is_none());
    assert!(wait_on_poll_error(CoordinationError::InvalidKey).is_some());
}

#[test]
fn session_states_are_listed_under_their_prefix() {
    let namespace = EtcdNamespace::new("/clustodian", "test").unwrap();
    assert_eq!(
        session_current_state_prefix(&namespace, "n", "12").unwrap(),
        "/clustodian/current-state/6e/12/"
    );
    assert!(session_current_state_prefix(&namespace, "", "12").is_err());
    assert!(session_current_state_prefix(&namespace, "n", "twelve").is_err());
}
