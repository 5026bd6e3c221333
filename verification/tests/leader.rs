use clustodian::controller::leader::{
    ControllerLeader, LeaderAction, LeaderEvent, LeaderRunResult, Question,
};
use clustodian::controller::pending::ReconcileMode;
use clustodian::controller::planning::ControllerOutputs;
use clustodian::controller::reconcile::{PlannedOutputs, ReconcileAction, Reconciliation};
use clustodian::controller::records::Decoded;
use clustodian::controller::{ControllerRuntimeError, PublishedTransition};
use clustodian::coordination::etcd::publication::current_fence;
use clustodian::coordination::etcd::watch::snapshot_prefix;
use clustodian::coordination::etcd::{
    Change, CoordinationError, CoordinationSnapshot, EtcdNamespace, KeyValue, MetadataEntry,
    Revision, WatchError, WatchEvent, WatchEventKind, WatchResponse, WatchSubscription,
};
use clustodian::election::ControllerAuthority;
use clustodian::model::{
    CurrentState, ExternalView, InstanceId, LiveInstance, ParticipantSessionSnapshot, PartitionId,
    ResourceId, SessionId, State,
};
use clustodian::ordered::OrderedMap;

fn revision(value: i64) -> Revision {
    Revision::new(value).unwrap()
}

fn snapshot(revision_value: i64, sessions: &[(&str, u64)]) -> CoordinationSnapshot {
    snapshot_with(revision_value, sessions, &[])
}

fn snapshot_with(
    revision_value: i64,
    sessions: &[(&str, u64)],
    metadata: &[(&str, &str, i64)],
) -> CoordinationSnapshot {
    let mut live = OrderedMap::new();
    for (name, session) in sessions {
        let instance = InstanceId::new(name).unwrap();
        live.insert(
            instance.clone(),
            LiveInstance::new(instance, SessionId::from_wire_value(*session)),
        );
    }
    let mut entries = OrderedMap::new();
    for (key, value, at) in metadata {
        entries.insert(
            (*key).to_owned(),
            MetadataEntry::new((*value).to_owned(), revision(*at)),
        );
    }
    CoordinationSnapshot::from_parts(
        revision(revision_value),
        entries,
        ParticipantSessionSnapshot::from_parts(live, OrderedMap::new()),
    )
}

fn message(id: &str) -> PublishedTransition {
    PublishedTransition {
        resource: String::from("documents"),
        partition: String::from("documents_0"),
        instance: String::from("node-a"),
        target_session: 1,
        from: String::from("OFFLINE"),
        to: String::from("STANDBY"),
        message_type: String::from("STATE_TRANSITION"),
        message_id: id.to_owned(),
    }
}

fn event(at: i64, key: &str, kind: WatchEventKind) -> LeaderEvent {
    LeaderEvent::Watched(Ok(WatchEvent::from_parts(revision(at), key.to_owned(), None, kind)))
}

fn lost_connection() -> CoordinationError {
    CoordinationError::Etcd(String::from("unavailable"))
}

/// A leader that has begun with a snapshot and waits for changes.
fn watching(start: CoordinationSnapshot) -> ControllerLeader {
    let (mut leader, action) = ControllerLeader::lead();
    assert!(matches!(action, LeaderAction::Ask(Question::Open)));
    let action = leader.run_as_leader_until(LeaderEvent::Read(Ok((start, Decoded::Missing))));
    assert!(matches!(action, LeaderAction::Reconcile(_, _, ReconcileMode::Startup)));
    let action = leader.run_as_leader_until(LeaderEvent::Reconciled(Ok(()), Vec::new()));
    assert!(matches!(action, LeaderAction::CallReady));
    let action = leader.run_as_leader_until(LeaderEvent::Called(Ok(())));
    assert!(matches!(action, LeaderAction::Watch));
    leader
}

#[test]
fn leaders_begin_with_their_first_snapshot() {
    let (mut leader, _) = ControllerLeader::lead();
    assert!(matches!(
        leader.run_as_leader_until(LeaderEvent::Read(Err(lost_connection()))),
        LeaderAction::Pause
    ));
    assert!(matches!(
        leader.run_as_leader_until(LeaderEvent::Elapsed),
        LeaderAction::Ask(Question::Open)
    ));
    let queue = Decoded::Value(vec![message("first")]);
    match leader.run_as_leader_until(LeaderEvent::Read(Ok((snapshot(7, &[]), queue)))) {
        LeaderAction::Reconcile(current, pending, mode) => {
            assert_eq!(current.authoritative_revision(), revision(7));
            assert_eq!(pending, vec![message("first")]);
            assert_eq!(mode, ReconcileMode::Startup);
        }
        _ => panic!("the first snapshot is reconciled"),
    }
    // A transient failure is tried again with what the reconciliation left.
    let failure = ControllerRuntimeError::coordination(&lost_connection());
    assert!(matches!(
        leader.run_as_leader_until(LeaderEvent::Reconciled(Err(failure), vec![message("left")])),
        LeaderAction::Pause
    ));
    match leader.run_as_leader_until(LeaderEvent::Elapsed) {
        LeaderAction::Reconcile(_, pending, ReconcileMode::Startup) => {
            assert_eq!(pending, vec![message("left")]);
        }
        _ => panic!("the first snapshot is reconciled again"),
    }
    assert!(matches!(
        leader.run_as_leader_until(LeaderEvent::Reconciled(Ok(()), Vec::new())),
        LeaderAction::CallReady
    ));
    match leader.run_as_leader_until(LeaderEvent::Called(Err(String::from("not ready")))) {
        LeaderAction::Finish(Err(error)) => assert_eq!(error.to_string(), "not ready"),
        _ => panic!("a failed ready callback ends the leader"),
    }
}

#[test]
fn malformed_queues_end_a_leader() {
    let (mut leader, _) = ControllerLeader::lead();
    let queue = Decoded::Malformed(String::from("bad queue"));
    match leader.run_as_leader_until(LeaderEvent::Read(Ok((snapshot(7, &[]), queue)))) {
        LeaderAction::Finish(Err(error)) => assert!(!error.is_transient()),
        _ => panic!("a malformed queue is no input"),
    }
}

#[test]
fn observed_input_is_never_forgotten() {
    let mut leader = watching(snapshot(10, &[("node-a", 1)]));
    // An input event is newer than the snapshot that is read after it.
    assert!(matches!(
        leader.run_as_leader_until(event(
            30,
            "current-state/6e/1/72/70",
            WatchEventKind::Put
        )),
        LeaderAction::Ask(Question::Latest)
    ));
    let read = LeaderEvent::Read(Ok((snapshot(20, &[("node-a", 1)]), Decoded::Missing)));
    match leader.run_as_leader_until(read) {
        LeaderAction::Reconcile(current, pending, mode) => {
            assert_eq!(current.authoritative_revision(), revision(30));
            assert_eq!(pending, Vec::new());
            assert_eq!(mode, ReconcileMode::Normal);
        }
        _ => panic!("the newest snapshot is reconciled"),
    }
    assert!(matches!(
        leader.run_as_leader_until(LeaderEvent::Reconciled(Ok(()), Vec::new())),
        LeaderAction::Watch
    ));
    // The next snapshot is still not taken for older input.
    assert!(matches!(
        leader.run_as_leader_until(LeaderEvent::Elapsed),
        LeaderAction::Ask(Question::Latest)
    ));
    let read = LeaderEvent::Read(Ok((snapshot(25, &[("node-a", 2)]), Decoded::Missing)));
    match leader.run_as_leader_until(read) {
        LeaderAction::Reconcile(current, _, mode) => {
            assert_eq!(current.authoritative_revision(), revision(30));
            assert_eq!(mode, ReconcileMode::SessionReplacement);
        }
        _ => panic!("the newest snapshot is reconciled"),
    }
}

#[test]
fn expired_leases_are_recorded_before_the_snapshot_is_read() {
    let mut leader = watching(snapshot(10, &[]));
    match leader.run_as_leader_until(event(12, "live/6e", WatchEventKind::Delete)) {
        LeaderAction::Ask(Question::Expiry(at)) => assert_eq!(at, revision(12)),
        _ => panic!("an expired lease is recorded"),
    }
    assert!(matches!(
        leader.run_as_leader_until(LeaderEvent::Recorded(Err(lost_connection()))),
        LeaderAction::Pause
    ));
    assert!(matches!(
        leader.run_as_leader_until(LeaderEvent::Elapsed),
        LeaderAction::Ask(Question::Expiry(_))
    ));
    assert!(matches!(
        leader.run_as_leader_until(LeaderEvent::Recorded(Ok(Some(revision(13))))),
        LeaderAction::Ask(Question::Latest)
    ));
    let read = LeaderEvent::Read(Ok((snapshot(11, &[]), Decoded::Missing)));
    match leader.run_as_leader_until(read) {
        LeaderAction::Reconcile(current, _, _) => {
            assert_eq!(current.authoritative_revision(), revision(12));
        }
        _ => panic!("the newest snapshot is reconciled"),
    }
}

#[test]
fn leaders_ignore_their_own_outputs_and_reopen_compacted_watches() {
    let mut leader = watching(snapshot(10, &[]));
    let own = clustodian::coordination::etcd::encode_segment("controller/output/external-view");
    assert!(matches!(
        leader.run_as_leader_until(event(12, &format!("metadata/{own}"), WatchEventKind::Put)),
        LeaderAction::Watch
    ));
    assert!(matches!(
        leader.run_as_leader_until(LeaderEvent::Watched(Err(WatchError::Disconnected))),
        LeaderAction::Resume
    ));
    assert!(matches!(
        leader.run_as_leader_until(LeaderEvent::Resumed(Ok(()))),
        LeaderAction::Watch
    ));
    let compacted = WatchError::Compacted { revision: revision(40) };
    assert!(matches!(
        leader.run_as_leader_until(LeaderEvent::Watched(Err(compacted))),
        LeaderAction::Ask(Question::Reopen)
    ));
    let read = LeaderEvent::Read(Ok((snapshot(50, &[]), Decoded::Missing)));
    match leader.run_as_leader_until(read) {
        LeaderAction::Reconcile(current, _, ReconcileMode::Normal) => {
            assert_eq!(current.authoritative_revision(), revision(50));
        }
        _ => panic!("the replacement snapshot is reconciled"),
    }
}

#[test]
fn leaders_stop_when_told_and_when_their_authority_is_gone() {
    let mut leader = watching(snapshot(10, &[]));
    assert!(matches!(
        leader.run_as_leader_until(LeaderEvent::Shutdown),
        LeaderAction::Finish(Ok(LeaderRunResult::Shutdown))
    ));
    assert!(matches!(leader.run_as_leader_until(LeaderEvent::Elapsed), LeaderAction::Nothing));
    assert!(matches!(
        leader.run_as_leader_until(LeaderEvent::LeadershipLost),
        LeaderAction::Nothing
    ));

    let mut leader = watching(snapshot(10, &[]));
    assert!(matches!(
        leader.run_as_leader_until(LeaderEvent::LeadershipLost),
        LeaderAction::Finish(Ok(LeaderRunResult::LeadershipLost))
    ));

    let (mut leader, _) = ControllerLeader::lead();
    assert!(matches!(
        leader.run_as_leader_until(LeaderEvent::Read(Err(CoordinationError::StaleController))),
        LeaderAction::Finish(Ok(LeaderRunResult::LeadershipLost))
    ));

    let (mut leader, _) = ControllerLeader::lead();
    match leader.run_as_leader_until(LeaderEvent::Read(Err(CoordinationError::InvalidKey))) {
        LeaderAction::Finish(Err(error)) => {
            assert_eq!(error.to_string(), CoordinationError::InvalidKey.to_string());
        }
        _ => panic!("an answer that will not change ends the leader"),
    }

    let (mut leader, _) = ControllerLeader::lead();
    leader.run_as_leader_until(LeaderEvent::Read(Ok((snapshot(7, &[]), Decoded::Missing))));
    let stale = ControllerRuntimeError::coordination(&CoordinationError::StaleRevision);
    assert!(matches!(
        leader.run_as_leader_until(LeaderEvent::Reconciled(Err(stale), Vec::new())),
        LeaderAction::Finish(Ok(LeaderRunResult::LeadershipLost))
    ));
}

fn authority() -> ControllerAuthority {
    ControllerAuthority::new(String::from("/clustodian"), String::from("controller-a"), 9)
}

const VIEW: &str = r#"{"documents":{"documents_0":{"node-a":"LEADER"}}}"#;

fn planned(id: &str) -> PlannedOutputs {
    let mut current = CurrentState::builder();
    current
        .set_state(
            PartitionId::new("documents_0").unwrap(),
            InstanceId::new("node-a").unwrap(),
            State::new("LEADER").unwrap(),
        )
        .unwrap();
    let mut resources = OrderedMap::new();
    resources.insert(ResourceId::new("documents").unwrap(), current.build());
    let outputs = ControllerOutputs {
        external_view: ExternalView::from_current_states(resources),
        pending: vec![message(id)],
    };
    PlannedOutputs::new(outputs, String::from("[1]")).unwrap()
}

fn started(start: CoordinationSnapshot) -> Reconciliation {
    Reconciliation::reconcile(start, Vec::new(), ReconcileMode::Normal, authority())
}

#[test]
fn outputs_are_published_behind_the_fence_of_their_input() {
    let start = snapshot_with(
        10,
        &[("node-a", 3)],
        &[("controller/output/pending-transitions", "[]", 6)],
    );
    let mut reconciliation = started(start);
    assert!(matches!(
        reconciliation.on_planned(Ok(planned("next"))),
        ReconcileAction::Snapshot
    ));
    match reconciliation.on_snapshot(Ok((snapshot(10, &[("node-a", 3)]), Decoded::Missing))) {
        ReconcileAction::Publish(fence, external, pending, queue) => {
            assert_eq!(fence.controller_id(), "controller-a");
            assert_eq!(fence.lease_id(), 9);
            assert_eq!(fence.observed_revision(), revision(10));
            assert_eq!(
                fence.live_sessions().get(&InstanceId::new("node-a").unwrap()),
                Some(&SessionId::from_wire_value(3))
            );
            assert_eq!(external, VIEW);
            assert_eq!(pending, "[1]");
            assert_eq!(queue, Some(revision(6)));
        }
        _ => panic!("new outputs are published"),
    }
    assert!(matches!(reconciliation.on_published(Ok(revision(11))), ReconcileAction::Snapshot));
    assert!(matches!(
        reconciliation.on_snapshot(Ok((snapshot(10, &[]), Decoded::Missing))),
        ReconcileAction::Finish(Ok(()))
    ));
    assert_eq!(reconciliation.into_pending(), vec![message("next")]);
}

#[test]
fn newer_input_is_planned_again_before_and_after_publication() {
    let mut reconciliation = started(snapshot(10, &[]));
    reconciliation.on_planned(Ok(planned("old")));
    let queue = Decoded::Value(vec![message("queued")]);
    assert!(matches!(
        reconciliation.on_snapshot(Ok((snapshot(12, &[]), queue))),
        ReconcileAction::Plan
    ));
    assert_eq!(reconciliation.snapshot().authoritative_revision(), revision(12));
    assert_eq!(reconciliation.pending(), &vec![message("queued")]);

    reconciliation.on_planned(Ok(planned("newer")));
    assert!(matches!(
        reconciliation.on_snapshot(Ok((snapshot(12, &[]), Decoded::Missing))),
        ReconcileAction::Publish(_, _, _, None)
    ));
    reconciliation.on_published(Ok(revision(13)));
    assert!(matches!(
        reconciliation.on_snapshot(Ok((snapshot(14, &[]), Decoded::Missing))),
        ReconcileAction::Plan
    ));
    assert_eq!(reconciliation.snapshot().authoritative_revision(), revision(14));
}

#[test]
fn refused_publications_refresh_or_end_a_reconciliation() {
    let mut reconciliation = started(snapshot(10, &[]));
    reconciliation.on_planned(Ok(planned("next")));
    reconciliation.on_snapshot(Ok((snapshot(10, &[]), Decoded::Missing)));
    assert!(matches!(
        reconciliation.on_published(Err(CoordinationError::StaleRevision)),
        ReconcileAction::Snapshot
    ));
    assert!(matches!(
        reconciliation.on_snapshot(Ok((snapshot(10, &[]), Decoded::Missing))),
        ReconcileAction::Plan
    ));

    reconciliation.on_planned(Ok(planned("next")));
    reconciliation.on_snapshot(Ok((snapshot(10, &[]), Decoded::Missing)));
    match reconciliation.on_published(Err(CoordinationError::StaleController)) {
        ReconcileAction::Finish(Err(error)) => {
            assert_eq!(error.to_string(), CoordinationError::StaleController.to_string());
        }
        _ => panic!("a lost authority ends the reconciliation"),
    }
    assert_eq!(reconciliation.into_pending(), Vec::new());
}

#[test]
fn published_outputs_are_not_published_twice() {
    let start = snapshot_with(
        10,
        &[],
        &[
            ("controller/output/external-view", VIEW, 5),
            ("controller/output/pending-transitions", "[1]", 5),
            ("controller/output/processed-revision", "10", 5),
        ],
    );
    let mut reconciliation = started(start);
    reconciliation.on_planned(Ok(planned("same")));
    assert!(matches!(
        reconciliation.on_snapshot(Ok((snapshot(10, &[]), Decoded::Missing))),
        ReconcileAction::Finish(Ok(()))
    ));
    assert_eq!(reconciliation.into_pending(), vec![message("same")]);

    let mut reconciliation = started(snapshot(10, &[]));
    let failure = ControllerRuntimeError::message(String::from("no plan"));
    match reconciliation.on_planned(Err(failure)) {
        ReconcileAction::Finish(Err(error)) => assert_eq!(error.to_string(), "no plan"),
        _ => panic!("a plan that failed ends the reconciliation"),
    }
}

#[test]
fn direct_publications_are_fenced_by_the_newest_snapshot() {
    let newest = snapshot(10, &[("node-a", 3)]);
    let fence = current_fence(&authority(), &newest, revision(10)).unwrap();
    assert_eq!(fence.observed_revision(), revision(10));
    assert_eq!(fence.live_sessions().len(), 1);
    assert!(matches!(
        current_fence(&authority(), &newest, revision(9)),
        Err(CoordinationError::StaleRevision)
    ));
}

fn namespace() -> EtcdNamespace {
    EtcdNamespace::new("/clustodian", "cluster").unwrap()
}

fn change(name: &str, value: &str, at: i64) -> Change {
    Change {
        kind: WatchEventKind::Put,
        entry: Some(KeyValue::new(&namespace().metadata_key(name), value, 1, at, 0)),
    }
}

fn response(changes: Vec<Change>) -> Result<Option<WatchResponse>, CoordinationError> {
    Ok(Some(WatchResponse { compact_revision: 0, changes }))
}

#[test]
fn subscriptions_hand_every_event_out_once() {
    let mut watch = WatchSubscription::watch_metadata(namespace(), "name", revision(5));
    assert!(watch.next().is_none());
    let changes = vec![
        change("name", "old", 4),
        change("name", "first", 6),
        Change { kind: WatchEventKind::Put, entry: None },
        change("name", "first", 6),
        change("name", "second", 7),
    ];
    watch.on_message(response(changes)).unwrap();
    for (value, at) in [("first", 6), ("second", 7)] {
        match watch.next() {
            Some(Ok(event)) => {
                assert_eq!(event.key(), "name");
                assert_eq!(event.value(), Some(value));
                assert_eq!(event.revision(), revision(at));
            }
            _ => panic!("an event waits"),
        }
    }
    assert!(watch.next().is_none());

    // A resumed stream begins with what was handed out last.
    watch.disconnect();
    assert!(matches!(watch.next(), Some(Err(WatchError::Disconnected))));
    assert_eq!(watch.resume(), (namespace().metadata_key("name"), false, revision(7)));
    watch.on_resumed();
    watch
        .on_message(response(vec![change("name", "second", 7), change("name", "third", 8)]))
        .unwrap();
    match watch.next() {
        Some(Ok(event)) => assert_eq!(event.value(), Some("third")),
        _ => panic!("an event waits"),
    }
    assert!(watch.next().is_none());
}

#[test]
fn watches_behind_a_snapshot_miss_nothing() {
    let taken = revision(5);
    let mut watch =
        WatchSubscription::watch_metadata(namespace(), "name", taken.next().unwrap());
    assert!(watch.next().is_none());
    let changes = (4..9).map(|at| change("name", &format!("at {at}"), at)).collect();
    watch.on_message(response(changes)).unwrap();
    for at in 6..9 {
        match watch.next() {
            Some(Ok(event)) => {
                assert_eq!(event.revision(), revision(at));
                assert_eq!(event.value(), Some(format!("at {at}").as_str()));
            }
            _ => panic!("an event waits"),
        }
    }
    assert!(watch.next().is_none());
}

#[test]
fn namespace_subscriptions_resume_the_whole_namespace() {
    let watch = WatchSubscription::watch_namespace(namespace(), revision(5));
    assert_eq!(watch.resume(), (namespace().namespaced_key(""), true, revision(5)));
}

#[test]
fn subscriptions_report_lost_and_compacted_streams() {
    let mut watch = WatchSubscription::watch_metadata(namespace(), "name", revision(5));
    assert!(matches!(watch.on_message(Ok(None)), Err(WatchError::Disconnected)));
    assert!(matches!(
        watch.on_message(Err(lost_connection())),
        Err(WatchError::Coordination(CoordinationError::Etcd(_)))
    ));
    let compacted = WatchResponse { compact_revision: 40, changes: Vec::new() };
    assert!(matches!(
        watch.on_message(Ok(Some(compacted))),
        Err(WatchError::Compacted { revision: at }) if at == revision(40)
    ));
    let foreign = Change {
        kind: WatchEventKind::Put,
        entry: Some(KeyValue::new("/elsewhere", "value", 1, 6, 0)),
    };
    assert!(matches!(
        watch.on_message(response(vec![foreign])),
        Err(WatchError::Coordination(CoordinationError::OutsidePrefix))
    ));
}

#[test]
fn recovered_subscriptions_follow_their_snapshot() {
    let mut watch = WatchSubscription::watch_metadata(namespace(), "name", revision(5));
    watch.on_message(response(vec![change("name", "first", 6)])).unwrap();
    let stored = vec![KeyValue::new(&namespace().metadata_key("name"), "stored", 1, 45, 0)];
    let (entry, start) = watch.recover_metadata(revision(50), &stored).unwrap();
    assert_eq!(entry.unwrap().value(), Some("stored"));
    assert_eq!(start, revision(51));
    assert!(watch.next().is_none());
    watch
        .on_message(response(vec![change("name", "past", 50), change("name", "next", 51)]))
        .unwrap();
    match watch.next() {
        Some(Ok(event)) => assert_eq!(event.value(), Some("next")),
        _ => panic!("an event waits"),
    }
    let (entry, _) = watch.recover_metadata(revision(60), &Vec::new()).unwrap();
    assert!(entry.is_none());

    let mut watch = WatchSubscription::watch_namespace(namespace(), revision(5));
    assert_eq!(watch.recover_namespace(revision(50)).unwrap(), revision(51));
    assert!(matches!(
        watch.recover_namespace(revision(i64::MAX)),
        Err(WatchError::Coordination(CoordinationError::RevisionExhausted))
    ));
}

#[test]
fn metadata_snapshots_keep_every_pair_in_order() {
    let stored = vec![
        KeyValue::new(&namespace().metadata_key("a"), "first", 1, 4, 0),
        KeyValue::new(&namespace().metadata_key("ab"), "second", 1, 3, 0),
    ];
    let taken = snapshot_prefix(&namespace(), revision(9), &stored).unwrap();
    assert_eq!(taken.revision(), revision(9));
    assert_eq!(
        taken.entries(),
        &vec![
            (String::from("a"), String::from("first")),
            (String::from("ab"), String::from("second")),
        ]
    );
    let foreign = vec![KeyValue::new("/elsewhere/key", "value", 1, 4, 0)];
    assert!(matches!(
        snapshot_prefix(&namespace(), revision(9), &foreign),
        Err(CoordinationError::OutsidePrefix)
    ));
}
