use clustodian::coordination::etcd::keys::{normalize_prefix, session_text};
use clustodian::coordination::etcd::metadata::{
    authoritative_input_marker_operation, compare_and_put_metadata, metadata_entry_from_snapshot,
};
use clustodian::coordination::etcd::publication::{
    pending_revision_changed, pending_revision_compare,
};
use clustodian::coordination::etcd::session::{
    current_state, live_session, parse_sequence, parse_session, participant_snapshot_from_kvs,
};
use clustodian::coordination::etcd::snapshot::{
    authoritative_revision, controller_snapshot_from_kvs,
};
use clustodian::coordination::etcd::watch::{compaction, decode_event, watch_key};
use clustodian::coordination::etcd::{
    decode_segment, encode_segment, is_authoritative_key, is_lease_backed_delete,
    parse_pending_messages, revision_from_header, CasResult, CompletionResult, Condition,
    CoordinationError, CoordinationSnapshot, EtcdConnectionOptions, EtcdNamespace, KeyValue,
    KeyValueSnapshot, LeaseExpiryRecord, MessageClaim, MessageCompletion, MessageInjection,
    MetadataEntry, MetadataWatermark, Mutation, OutputPublication, ParticipantCompletionFence,
    ParticipantRegistration, QueueAction, QueueEntry, RegistrationAction, RegistrationOptions,
    ResourcePurge, Revision, StoreAction, Transaction, TransitionClaim, WatchCursor, WatchError,
    WatchEvent, WatchEventKind,
};
use clustodian::election::{
    lease_seconds, put_controller_owned, CampaignAction, CampaignEvent, ControllerAuthority,
    ControllerElection, ControllerElectionConfig, ElectionError, KeepaliveDecision, KeepalivePlan,
    RelinquishAction, Relinquishment,
};
use clustodian::election::lease::KeepaliveReply;
use clustodian::model::{
    InstanceId, ParticipantSessionSnapshot, PartitionId, ResourceId, SessionId, State,
};
use clustodian::ordered::OrderedMap;
use clustodian::time::Duration;
use clustodian::transition::TransitionMessage;
use serde_json::Value;

fn revision(value: i64) -> Revision {
    Revision::new(value).unwrap()
}

fn instance(name: &str) -> InstanceId {
    InstanceId::new(name).unwrap()
}

fn namespace() -> EtcdNamespace {
    EtcdNamespace::new("/clustodian", "test").unwrap()
}

fn session(value: u64) -> SessionId {
    SessionId::from_wire_value(value)
}

fn message(id: &str) -> TransitionMessage {
    TransitionMessage {
        message_id: id.to_owned(),
        resource: String::from("r"),
        partition: String::from("p"),
        instance: String::from("i"),
        target_session: 1,
        from: String::from("A"),
        to: String::from("B"),
        message_type: String::from("STATE_TRANSITION"),
    }
}

fn decode_messages(text: &str) -> Option<Vec<TransitionMessage>> {
    let value: Value = serde_json::from_str(text).ok()?;
    let field = |item: &Value, name: &str| item.get(name)?.as_str().map(str::to_owned);
    value
        .as_array()?
        .iter()
        .map(|item| {
            Some(TransitionMessage {
                message_id: field(item, "message_id")?,
                resource: field(item, "resource")?,
                partition: field(item, "partition")?,
                instance: field(item, "instance")?,
                target_session: item.get("target_session")?.as_u64()?,
                from: field(item, "from")?,
                to: field(item, "to")?,
                message_type: field(item, "message_type")?,
            })
        })
        .collect()
}

#[test]
fn metadata_entries_and_cas_results_expose_their_revision_contract() {
    let revision = Revision::new(7).unwrap();
    let present = MetadataEntry::new(String::from("value"), revision);
    assert_eq!(present.value(), Some("value"));
    assert_eq!(present.revision(), revision);

    let absent = MetadataEntry::empty(revision);
    assert_eq!(absent.value(), None);
    assert_eq!(absent.revision(), revision);

    let applied = CasResult::new(true, revision);
    assert!(applied.applied());
    assert_eq!(applied.revision(), revision);

    let rejected = CasResult::new(false, revision);
    assert!(!rejected.applied());
    assert_eq!(rejected.revision(), revision);
}

#[test]
fn pending_revision_comparison_distinguishes_present_and_absent_keys() {
    let revision = Revision::new(7).unwrap();
    let existing = pending_revision_compare("metadata/pending", Some(revision));
    let absent = pending_revision_compare("metadata/pending", None);
    assert_ne!(format!("{existing:?}"), format!("{absent:?}"));
    assert_eq!(
        existing,
        Condition::ModRevision { key: String::from("metadata/pending"), revision: 7 }
    );
    let entry = KeyValue::new("metadata/pending", "[]", 3, 7, 0);
    assert!(!pending_revision_changed(Some(revision), Some(&entry)));
    assert!(pending_revision_changed(None, Some(&entry)));
    assert!(pending_revision_changed(Some(revision), None));
    assert!(!pending_revision_changed(None, None));
}

#[test]
fn connection_options_redact_credentials_and_validate_tls_material() {
    let options = EtcdConnectionOptions::new()
        .with_credentials("admin", "super-secret")
        .with_ca_certificate(b"ca-pem".to_vec())
        .with_client_identity(b"client-cert".to_vec(), b"client-key".to_vec())
        .with_connect_timeout(Duration::from_secs(2))
        .with_request_timeout(Duration::from_secs(3))
        .with_keep_alive(Duration::from_secs(5), Duration::from_secs(6));
    assert!(options.validate().is_ok());
    let debug = options.describe();
    assert!(!debug.contains("super-secret"));
    assert!(!debug.contains("client-key"));
    assert!(debug.contains("<redacted>"));
    assert!(debug.contains("<configured>"));

    assert!(EtcdConnectionOptions::new()
        .with_user("admin", "secret")
        .with_ca_certificate(Vec::<u8>::new())
        .validate()
        .is_err());
    assert!(EtcdConnectionOptions::new()
        .with_client_identity(b"certificate".to_vec(), Vec::<u8>::new())
        .validate()
        .is_err());
    assert!(EtcdConnectionOptions::new()
        .with_connect_timeout(Duration::zero())
        .validate()
        .is_err());
}

#[test]
fn connection_options_describe_every_setting() {
    let options = EtcdConnectionOptions::new()
        .with_user("admin", "secret")
        .with_tls_domain_name("db\"1\n")
        .with_connect_timeout(Duration::from_millis(1_500))
        .with_keep_alive_while_idle(true);
    assert_eq!(
        options.describe(),
        "EtcdConnectionOptions { username: Some(\"<redacted>\"), password: Some(\"<redacted>\"), \
         ca_certificate: None, client_certificate: None, client_key: None, tls_domain_name: \
         Some(\"db\\\"1\\n\"), connect_timeout: Some(1.5s), request_timeout: None, \
         keep_alive_interval: None, keep_alive_timeout: None, keep_alive_while_idle: true }"
    );
    assert!(!EtcdConnectionOptions::new().tls_enabled());
    assert!(options.tls_enabled());
}

#[test]
fn key_segments_round_trip_arbitrary_utf8() {
    let value = "resource/partition\0\u{2603}";
    assert_eq!(decode_segment(&encode_segment(value)).unwrap(), value);
}

#[test]
fn key_segments_are_lower_case_hexadecimal() {
    assert_eq!(encode_segment("a/\u{2603}"), "612fe29883");
    assert_eq!(decode_segment("612FE29883").unwrap(), "a/\u{2603}");
    assert_eq!(decode_segment("").unwrap(), "");
    assert_eq!(decode_segment("+f").unwrap(), "\u{f}");
    for invalid in ["6", "6g", "ff", "c3", "-1", "\u{e9}"] {
        assert!(matches!(decode_segment(invalid), Err(CoordinationError::InvalidKey)));
    }
}

#[test]
fn prefixes_are_normalized_without_becoming_empty() {
    assert_eq!(normalize_prefix("/clustodian/").unwrap(), "/clustodian");
    assert!(matches!(normalize_prefix("///"), Err(CoordinationError::InvalidPrefix)));
}

#[test]
fn revisions_are_positive_and_incrementable() {
    let revision = Revision::new(7).unwrap();
    assert_eq!(revision.next().unwrap().value(), 8);
    assert!(matches!(Revision::new(0), Err(CoordinationError::InvalidRevision(0))));
    assert!(matches!(
        Revision::new(i64::MAX).unwrap().next(),
        Err(CoordinationError::RevisionExhausted)
    ));
}

#[test]
fn authoritative_revision_excludes_derived_and_session_sequence_keys() {
    assert!(!is_authoritative_key(
        "metadata/controller/output/external-view",
        Some("controller/output/external-view")
    ));
    assert!(!is_authoritative_key("internal/session-sequence", None));
    assert!(!is_authoritative_key(
        "metadata/participant/node-1/processed-revision",
        Some("participant/node-1/processed-revision")
    ));
    assert!(is_authoritative_key("current-state/node/1/resource/partition", None));
}

#[test]
fn coordination_snapshots_expose_metadata_participants_and_election_views() {
    let revision = Revision::new(7).unwrap();
    let mut metadata = OrderedMap::new();
    metadata.insert(
        String::from("controller/cluster"),
        MetadataEntry::new(String::from("test"), revision),
    );
    let mut candidates = OrderedMap::new();
    candidates.insert(String::from("controller-a"), 11);
    candidates.insert(String::from("controller-b"), 12);
    let snapshot = CoordinationSnapshot::from_parts(
        revision,
        metadata,
        ParticipantSessionSnapshot::default(),
    )
    .with_controller_election(Some((String::from("controller-a"), 11)), candidates);

    assert_eq!(snapshot.revision(), revision);
    assert_eq!(snapshot.authoritative_revision(), revision);
    assert_eq!(
        snapshot.metadata().get(&String::from("controller/cluster")).unwrap().value(),
        Some("test")
    );
    assert!(snapshot.participants().live_instances().is_empty());
    assert_eq!(snapshot.controller_election().active(), Some(("controller-a", 11)));
    assert_eq!(snapshot.controller_election().candidates().len(), 2);

    let updated = snapshot.with_authoritative_revision(Revision::new(8).unwrap());
    assert_eq!(updated.authoritative_revision().value(), 8);
}

#[test]
fn coordination_errors_and_pending_queue_validation_are_descriptive() {
    let message = r#"{"message_id":"m1","resource":"r","partition":"p","instance":"i","target_session":1,"from":"A","to":"B","message_type":"STATE_TRANSITION"}"#;
    assert!(parse_pending_messages(None).unwrap().is_empty());
    assert_eq!(
        parse_pending_messages(Some(decode_messages(&format!("[{message}]")))).unwrap().len(),
        1
    );
    assert!(parse_pending_messages(Some(decode_messages("not-json"))).is_err());
    assert!(parse_pending_messages(Some(decode_messages(
        r#"[{"message_id":"","resource":"r","partition":"p","instance":"i","target_session":1,"from":"A","to":"B","message_type":"STATE_TRANSITION"}]"#
    )))
    .is_err());
    assert!(decode_segment("0").is_err());
    assert!(decode_segment("gg").is_err());
    assert!(normalize_prefix("bad\0prefix").is_err());

    let errors = [
        CoordinationError::InvalidPrefix,
        CoordinationError::InvalidCluster,
        CoordinationError::InvalidKey,
        CoordinationError::InvalidValue,
        CoordinationError::InvalidLeaseTtl,
        CoordinationError::LeaseExpired,
        CoordinationError::InvalidRevision(4),
        CoordinationError::RevisionExhausted,
        CoordinationError::MissingRevision,
        CoordinationError::OutsidePrefix,
        CoordinationError::InvalidSession,
        CoordinationError::UnknownSession(SessionId::from_wire_value(7)),
        CoordinationError::RegistrationLost,
        CoordinationError::Contention,
        CoordinationError::StaleSession(InstanceId::new("node-a").unwrap()),
        CoordinationError::DuplicateMessage(String::from("m1")),
        CoordinationError::StaleController,
        CoordinationError::StaleRevision,
        CoordinationError::InstanceStillLive(InstanceId::new("node-a").unwrap()),
        CoordinationError::ResourceDeletionDisabled,
    ];
    assert!(errors.iter().all(|error| !error.to_string().is_empty()));
}

#[test]
fn snapshot_helpers_handle_empty_values_and_missing_headers() {
    let revision = Revision::new(9).unwrap();
    let empty = metadata_entry_from_snapshot(revision, &vec![]).unwrap();
    assert_eq!(empty.value(), None);
    assert_eq!(empty.revision(), revision);
    assert!(matches!(revision_from_header(None), Err(CoordinationError::MissingRevision)));
}

#[test]
fn registration_requires_a_whole_second_etcd_ttl() {
    assert!(matches!(
        RegistrationOptions::new(Duration::from_millis(999)),
        Err(CoordinationError::InvalidLeaseTtl)
    ));
    assert!(RegistrationOptions::new(Duration::from_secs(1)).is_ok());
}

#[test]
fn registration_options_and_session_values_preserve_wire_contracts() {
    let resource = ResourceId::new("documents").unwrap();
    let options = RegistrationOptions::new(Duration::from_secs(5))
        .unwrap_or_else(|_| panic!("valid options"))
        .with_default_initial_state(State::try_from("ERROR").unwrap())
        .with_resource_initial_state(resource.clone(), State::try_from("OFFLINE").unwrap());
    assert_eq!(options.ttl_seconds(), 5);
    assert_eq!(options.initial_state(&resource).as_str(), "OFFLINE");
    assert_eq!(options.initial_state(&ResourceId::new("other").unwrap()).as_str(), "ERROR");

    assert_eq!(parse_session(&b"42".to_vec()).unwrap().wire_value(), 42);
    assert_eq!(session_text(parse_session(&b"42".to_vec()).unwrap()), "42");
    for invalid in [b"".as_slice(), b"0", b"-1", b"not-a-session"] {
        assert!(parse_sequence(&invalid.to_vec()).is_err());
    }
    assert!(parse_sequence(&vec![0xff]).is_err());
}

#[test]
fn registration_rejects_zero_and_unrepresentable_ttls() {
    assert!(matches!(
        RegistrationOptions::new(Duration::zero()),
        Err(CoordinationError::InvalidLeaseTtl)
    ));
    assert!(matches!(
        RegistrationOptions::new(Duration::from_secs(i64::MAX as u64 + 1)),
        Err(CoordinationError::InvalidLeaseTtl)
    ));
    assert_eq!(parse_sequence(&b"18446744073709551615".to_vec()).unwrap(), u64::MAX);
    assert_eq!(parse_session(&b"1".to_vec()).unwrap().wire_value(), 1);
    assert!(parse_sequence(&b"18446744073709551616".to_vec()).is_err());
}

#[test]
fn cursor_filters_old_and_duplicate_events_and_resets_after_recovery() {
    let mut cursor = WatchCursor::new(revision(5));
    assert_eq!(cursor.start_revision(), revision(5));
    assert!(!cursor.accept(revision(4), "old"));
    assert!(cursor.accept(revision(5), "first"));
    assert!(!cursor.accept(revision(5), "first"));
    assert!(cursor.accept(revision(5), "second"));
    assert!(!cursor.accept(revision(4), "older"));
    assert_eq!(cursor.resume_revision(), revision(5));
    assert!(cursor.accept(revision(6), "new"));
    assert_eq!(cursor.resume_revision(), revision(6));
    assert_eq!(cursor.reset_after_recovery(revision(9)).unwrap(), revision(10));
    assert_eq!(cursor.start_revision(), revision(10));
    assert_eq!(cursor.resume_revision(), revision(10));
    assert!(matches!(
        cursor.reset_after_recovery(revision(i64::MAX)),
        Err(CoordinationError::RevisionExhausted)
    ));
}

#[test]
fn watch_value_and_error_views_are_typed() {
    let event = WatchEvent::from_parts(
        revision(3),
        String::from("controller/cluster"),
        Some(String::from("test")),
        WatchEventKind::Put,
    );
    assert_eq!(event.revision(), revision(3));
    assert_eq!(event.key(), "controller/cluster");
    assert_eq!(event.value(), Some("test"));
    assert_eq!(event.kind(), WatchEventKind::Put);
    let delete = WatchEvent::from_parts(
        event.revision(),
        event.key().to_owned(),
        None,
        WatchEventKind::Delete,
    );
    assert_eq!(delete.value(), None);
    assert_eq!(delete.kind(), WatchEventKind::Delete);

    let snapshot = KeyValueSnapshot::from_parts(
        revision(7),
        vec![(String::from("a"), String::from("b"))],
    );
    assert_eq!(snapshot.revision(), revision(7));
    assert_eq!(*snapshot.entries(), [(String::from("a"), String::from("b"))]);
    assert_eq!(WatchError::Disconnected.to_string(), "watch stream disconnected");
    assert_eq!(
        WatchError::Compacted { revision: revision(7) }.to_string(),
        "watch history compacted at revision 7"
    );
    assert!(matches!(
        WatchError::from(CoordinationError::InvalidKey),
        WatchError::Coordination(CoordinationError::InvalidKey)
    ));

    let constructed = WatchEvent::from_parts(
        revision(4),
        String::from("metadata/key"),
        Some(String::from("value")),
        WatchEventKind::Put,
    );
    assert_eq!(constructed.key(), "metadata/key");
    assert_eq!(constructed.value(), Some("value"));
}

#[test]
fn watch_streams_are_decoded_and_resumed() {
    let namespace = namespace();
    let entry = KeyValue::new(&namespace.metadata_key("controller/cluster"), "test", 2, 4, 0);
    let event = decode_event(&namespace, false, WatchEventKind::Put, &entry).unwrap();
    assert_eq!(event.key(), "controller/cluster");
    assert_eq!(event.value(), Some("test"));
    assert_eq!(event.revision(), revision(4));
    let whole = decode_event(&namespace, true, WatchEventKind::Delete, &entry).unwrap();
    assert_eq!(whole.key(), format!("metadata/{}", encode_segment("controller/cluster")));
    assert_eq!(whole.value(), None);
    let foreign = KeyValue::new("/elsewhere/key", "test", 2, 4, 0);
    assert!(matches!(
        decode_event(&namespace, false, WatchEventKind::Put, &foreign),
        Err(WatchError::Coordination(CoordinationError::OutsidePrefix))
    ));

    assert_eq!(compaction(0), None);
    assert_eq!(compaction(9), Some(WatchError::Compacted { revision: revision(9) }));
    assert_eq!(watch_key(&namespace, false, "a"), namespace.metadata_key("a"));
    assert_eq!(watch_key(&namespace, true, "a"), namespace.namespaced_key(""));

    let lost = WatchEvent::from_parts(
        revision(4),
        String::from("live/6e"),
        None,
        WatchEventKind::Delete,
    );
    assert!(is_lease_backed_delete(&lost));
    assert!(!is_lease_backed_delete(&event));
}

#[test]
fn namespaces_hold_every_key_of_a_cluster() {
    let namespace = namespace();
    assert_eq!(namespace.namespace(), "/clustodian");
    let node = instance("n");
    assert_eq!(
        namespace.current_state_key(
            &node,
            session(12),
            &ResourceId::new("r").unwrap(),
            &PartitionId::new("p").unwrap(),
        ),
        "/clustodian/current-state/6e/12/72/70"
    );
    assert_eq!(namespace.live_key(&node), "/clustodian/live/6e");
    assert_eq!(
        namespace.parse_relative_key(&b"/clustodian/live/6e".to_vec()).unwrap(),
        "live/6e"
    );
    assert!(matches!(
        namespace.parse_relative_key(&b"/clustodians/live/6e".to_vec()),
        Err(CoordinationError::OutsidePrefix)
    ));
    assert!(matches!(
        EtcdNamespace::new("/clustodian", ""),
        Err(CoordinationError::InvalidCluster)
    ));
}

#[test]
fn snapshots_are_assembled_from_key_values() {
    let namespace = namespace();
    let node = instance("n");
    let state_key = namespace.current_state_key(
        &node,
        session(2),
        &ResourceId::new("r").unwrap(),
        &PartitionId::new("p").unwrap(),
    );
    let entries = vec![
        KeyValue::new(&namespace.metadata_key("controller/throttles"), "[]", 1, 3, 0),
        KeyValue::new(&namespace.metadata_key("controller/output/external-view"), "{}", 1, 9, 0),
        KeyValue::new(&namespace.live_key(&node), "2", 5, 5, 77),
        KeyValue::new(&state_key, "STANDBY", 6, 6, 0),
        KeyValue::new(&namespace.controller_active_key(), "c1", 4, 4, 8),
        KeyValue::new(&namespace.controller_candidate_key("c1"), "c1", 4, 4, 8),
    ];
    assert_eq!(authoritative_revision(&namespace, revision(10), &entries).unwrap(), revision(6));
    let snapshot = controller_snapshot_from_kvs(&namespace, revision(10), &entries)
        .unwrap_or_else(|error| panic!("{}", error.to_string()));
    assert_eq!(snapshot.authoritative_revision(), revision(6));
    assert_eq!(snapshot.metadata().len(), 2);
    assert_eq!(snapshot.controller_election().active(), Some(("c1", 8)));
    let active = snapshot.participants().active_current_state().get(&node).unwrap();
    assert_eq!(active.session_id(), session(2));
    assert_eq!(
        active
            .resources()
            .get(&ResourceId::new("r").unwrap())
            .unwrap()
            .state(&PartitionId::new("p").unwrap(), &node)
            .unwrap()
            .as_str(),
        "STANDBY"
    );
    let stale = vec![
        KeyValue::new(&namespace.live_key(&node), "3", 5, 5, 77),
        KeyValue::new(&state_key, "STANDBY", 6, 6, 0),
    ];
    let participants = participant_snapshot_from_kvs(&namespace, &stale).unwrap();
    assert!(participants.active_current_state().get(&node).unwrap().resources().is_empty());
}

#[test]
fn stored_sessions_and_states_are_decoded() {
    assert_eq!(live_session(None).unwrap(), None);
    assert_eq!(live_session(Some(&KeyValue::new("k", "7", 1, 1, 1))).unwrap(), Some(session(7)));
    assert!(live_session(Some(&KeyValue::new("k", "seven", 1, 1, 1))).is_err());
    assert_eq!(
        current_state(Some(&KeyValue::new("k", "LEADER", 1, 1, 0))).unwrap(),
        Some(State::new("LEADER").unwrap())
    );
    assert!(matches!(
        current_state(Some(&KeyValue::new("k", "", 1, 1, 0))),
        Err(CoordinationError::InvalidValue)
    ));
}

#[test]
fn authoritative_writes_advance_the_input_marker() {
    let namespace = namespace();
    let marker = authoritative_input_marker_operation(&namespace);
    let write = compare_and_put_metadata(&namespace, "controller/throttles", revision(4), "[]");
    assert_eq!(
        write.conditions,
        vec![Condition::ModRevision {
            key: namespace.metadata_key("controller/throttles"),
            revision: 4,
        }]
    );
    assert!(write.mutations.contains(&marker));
    let derived =
        compare_and_put_metadata(&namespace, "controller/output/external-view", revision(4), "{}");
    assert!(!derived.mutations.contains(&marker));
}

#[test]
fn watermarks_only_move_forward() {
    let key = "participant/n/processed-revision";
    let (mut mark, action) =
        MetadataWatermark::advance_metadata_revision(namespace(), key, revision(8));
    assert_eq!(action, StoreAction::Read(namespace().metadata_key(key)));
    let newer = KeyValue::new(&namespace().metadata_key(key), "9", 2, 6, 0);
    assert_eq!(mark.on_entry(Some(&newer)), StoreAction::Finish(Ok(revision(9))));

    let (mut mark, _) = MetadataWatermark::advance_metadata_revision(namespace(), key, revision(8));
    let older = KeyValue::new(&namespace().metadata_key(key), "7", 2, 6, 0);
    assert!(matches!(mark.on_entry(Some(&older)), StoreAction::Commit(_)));
    assert_eq!(mark.on_outcome(true, Some(11)), StoreAction::Finish(Ok(revision(8))));
}

fn queue(revision_value: i64, messages: Vec<TransitionMessage>) -> QueueEntry {
    QueueEntry {
        revision: revision(revision_value),
        value: String::from("stored"),
        decoded: Some(messages),
    }
}

#[test]
fn injected_messages_join_the_queue_once() {
    let (mut injection, action) =
        MessageInjection::inject_pending_transition(namespace(), &message("m1"));
    assert!(matches!(action, QueueAction::ReadQueue));
    let other = queue(5, vec![message("m0")]);
    let QueueAction::Commit(write) = injection.on_queue(Some(&other)) else {
        panic!("a write is expected");
    };
    assert!(write.mutations.iter().any(|mutation| matches!(
        mutation,
        Mutation::PutMessages { messages, .. }
            if *messages == vec![message("m0"), message("m1")]
    )));

    let (mut injection, _) =
        MessageInjection::inject_pending_transition(namespace(), &message("m0"));
    assert!(matches!(
        injection.on_queue(Some(&other)),
        QueueAction::Finish(Err(CoordinationError::DuplicateMessage(id))) if id == "m0"
    ));
}

#[test]
fn claims_need_the_message_and_the_session() {
    let start = || {
        MessageClaim::claim_pending_transition(namespace(), instance("i"), session(1), message("m1"))
            .0
    };
    let mut claim = start();
    let entry = queue(5, vec![message("m1")]);
    assert!(matches!(claim.on_queue(Some(&entry)), QueueAction::Commit(_)));
    assert!(matches!(
        claim.on_outcome(true),
        QueueAction::Finish(Ok(TransitionClaim::Claimed(at))) if at == revision(5)
    ));

    let mut claim = start();
    assert!(matches!(
        claim.on_queue(None),
        QueueAction::Finish(Ok(TransitionClaim::Withdrawn))
    ));

    let mut claim = start();
    claim.on_queue(Some(&entry));
    assert!(matches!(claim.on_outcome(false), QueueAction::ReadLiveSession));
    assert!(matches!(
        claim.on_live_session(Some(session(2))),
        QueueAction::Finish(Ok(TransitionClaim::SessionLost))
    ));
}

#[test]
fn completions_publish_the_state_and_drop_the_message() {
    let fence =
        || ParticipantCompletionFence::new(instance("i"), session(1), revision(5), "m1".to_owned());
    assert!(fence().matches(session(1), true));
    assert!(!fence().matches(session(2), true));
    assert!(!fence().matches(session(1), false));

    let (mut completion, _) = MessageCompletion::complete_pending_transition(
        namespace(),
        fence(),
        &message("m1"),
        Some(State::new("B").unwrap()),
    )
    .unwrap_or_else(|error| panic!("{}", error.to_string()));
    let entry = queue(5, vec![message("m1"), message("m2")]);
    let QueueAction::Commit(write) = completion.on_queue(Some(&entry)) else {
        panic!("a write is expected");
    };
    let state_key = namespace().current_state_key(
        &instance("i"),
        session(1),
        &ResourceId::new("r").unwrap(),
        &PartitionId::new("p").unwrap(),
    );
    assert!(write.mutations.iter().any(|mutation| matches!(
        mutation,
        Mutation::Put { key, value, .. } if *key == state_key && value == "B"
    )));
    assert!(write.mutations.iter().any(|mutation| matches!(
        mutation,
        Mutation::PutMessages { messages, .. } if *messages == vec![message("m2")]
    )));
    assert!(matches!(
        completion.on_outcome(true, Some(6)),
        QueueAction::Finish(Ok(CompletionResult::Applied(at))) if at == revision(6)
    ));
}

#[test]
fn purged_resources_leave_no_message() {
    let purge = ResourcePurge::remove_pending_transitions_for_resource(
        namespace(),
        ResourceId::new("r").unwrap(),
    );
    let kept = TransitionMessage { resource: String::from("other"), ..message("m2") };
    let QueueAction::Commit(write) = purge.on_queue(Some(&queue(5, vec![message("m1"), kept])))
    else {
        panic!("a write is expected");
    };
    assert!(write.mutations.iter().any(|mutation| matches!(
        mutation,
        Mutation::PutMessages { messages, .. }
            if messages.len() == 1 && messages[0].resource == "other"
    )));
    assert!(matches!(purge.on_queue(None), QueueAction::Finish(Ok(()))));
}

fn registered(old_state: Option<&str>) -> (Transaction, u64) {
    let node = instance("i");
    let options = RegistrationOptions::new(Duration::from_secs(5))
        .unwrap_or_else(|_| panic!("valid options"));
    let (mut registration, action) =
        ParticipantRegistration::register(namespace(), node.clone(), options);
    assert!(matches!(action, RegistrationAction::List(_)));
    let mut action = registration.on_entries(&Vec::new());
    let mut carried = Vec::new();
    if let Some(state) = old_state {
        carried.push(KeyValue::new(
            &namespace().current_state_key(
                &node,
                session(3),
                &ResourceId::new("r").unwrap(),
                &PartitionId::new("p").unwrap(),
            ),
            state,
            1,
            1,
            0,
        ));
    }
    let mut granted = 0;
    for _ in 0..8 {
        action = match action {
            RegistrationAction::Read(_) => registration.on_entry(None),
            RegistrationAction::List(_) => registration.on_entries(&carried),
            RegistrationAction::Commit(write) => {
                if granted != 0 {
                    return (write, granted);
                }
                registration.on_outcome(true, Some(7))
            }
            RegistrationAction::Grant(seconds) => {
                assert_eq!(seconds, 5);
                granted = 70;
                registration.on_lease(70)
            }
            _ => panic!("registration must go on"),
        };
    }
    panic!("registration must write the live record");
}

#[test]
fn registrations_bind_the_live_record_to_their_lease() {
    let (write, lease) = registered(None);
    assert!(write.mutations.iter().any(|mutation| matches!(
        mutation,
        Mutation::Put { key, lease: Some(held), .. }
            if *key == namespace().live_key(&instance("i")) && *held == lease as i64
    )));
}

#[test]
fn controller_publications_keep_the_processed_revision() {
    let authority =
        ControllerAuthority::new(namespace().namespace().to_owned(), String::from("c1"), 8);
    let fence = authority.commit_fence(revision(6), OrderedMap::new());
    let (mut publication, action) = OutputPublication::publish_controller_outputs(
        namespace(),
        fence,
        String::from("{}"),
        String::from("[]"),
        None,
    );
    assert!(matches!(action, StoreAction::Read(_)));
    let StoreAction::Commit(write) = publication.on_entry(None) else {
        panic!("a write is expected");
    };
    let written = |name: &str| {
        write.mutations.iter().find_map(|mutation| match mutation {
            Mutation::Put { key, value, .. } if *key == namespace().metadata_key(name) => {
                Some(value.clone())
            }
            _ => None,
        })
    };
    assert_eq!(written("controller/output/external-view").as_deref(), Some("{}"));
    assert_eq!(written("controller/output/pending-transitions").as_deref(), Some("[]"));
    assert_eq!(written("controller/output/processed-revision").as_deref(), Some("6"));
    assert_eq!(publication.on_outcome(true, Some(12)), StoreAction::Finish(Ok(revision(12))));
}

#[test]
fn lease_expiries_are_recorded_under_the_authority() {
    let authority =
        ControllerAuthority::new(namespace().namespace().to_owned(), String::from("c1"), 8);
    let (mut record, action) =
        LeaseExpiryRecord::record_lease_expiry(namespace(), &authority, revision(9));
    assert!(matches!(action, StoreAction::Read(_)));
    let StoreAction::Commit(write) = record.on_entry(None) else {
        panic!("a write is expected");
    };
    assert!(write.conditions.iter().any(|condition| matches!(
        condition,
        Condition::Lease { key, lease: 8 } if *key == namespace().controller_active_key()
    )));
    assert_eq!(record.on_outcome(true, Some(13)), StoreAction::Finish(Ok(revision(13))));
}

#[test]
fn lease_ttl_rounds_up_at_the_etcd_second_boundary() {
    assert_eq!(lease_seconds(1_000).unwrap(), 1);
    assert_eq!(lease_seconds(1_500).unwrap(), 2);
    assert_eq!(lease_seconds(1_999).unwrap(), 2);
    assert!(lease_seconds(0).is_err());
    assert!(lease_seconds(u64::MAX).is_err());
}

#[test]
fn election_errors_and_authority_debug_are_descriptive() {
    assert_eq!(
        ElectionError::Coordination(CoordinationError::InvalidKey).to_string(),
        "coordination key is invalid"
    );
    assert_eq!(
        ElectionError::ClusterMismatch.to_string(),
        "election cluster does not match coordination"
    );
    assert_eq!(
        ElectionError::InvalidControllerId.to_string(),
        "controller id must not be empty"
    );
    assert_eq!(
        ElectionError::InvalidLeaseTtl.to_string(),
        "controller lease TTL must be at least one second"
    );
    assert_eq!(ElectionError::LeaseExpired.to_string(), "controller election lease expired");

    let authority =
        ControllerAuthority::new(String::from("namespace"), String::from("controller-a"), 7);
    assert!(authority.describe().contains("controller-a"));
    assert_eq!(
        authority.describe(),
        "ControllerAuthority { controller_id: \"controller-a\", .. }"
    );
    let fence = authority.commit_fence(Revision::new(9).unwrap(), OrderedMap::new());
    assert_eq!(fence.namespace(), "namespace");
    assert_eq!(fence.controller_id(), "controller-a");
    assert_eq!(fence.lease_id(), 7);
    assert_eq!(fence.observed_revision(), Revision::new(9).unwrap());
}

#[test]
fn fences_hold_only_for_what_they_saw() {
    let authority = ControllerAuthority::new(String::from("ns"), String::from("c1"), 7);
    let mut sessions = OrderedMap::new();
    sessions.insert(instance("i"), session(3));
    let fence = authority.commit_fence(revision(9), sessions.clone());
    assert!(fence.matches("c1", 7, revision(9), &sessions));
    assert!(!fence.matches("c2", 7, revision(9), &sessions));
    assert!(!fence.matches("c1", 8, revision(9), &sessions));
    assert!(!fence.matches("c1", 7, revision(10), &sessions));
    sessions.insert(instance("i"), session(4));
    assert!(!fence.matches("c1", 7, revision(9), &sessions));

    assert!(matches!(
        put_controller_owned(&namespace(), &authority, "output", b"x".to_vec()),
        Err(CoordinationError::StaleController)
    ));
}

fn campaign() -> ControllerElection {
    ControllerElection::new(
        namespace(),
        ControllerElectionConfig {
            cluster: String::from("test"),
            controller_id: String::from("c1"),
            lease_ttl_ms: 1_500,
        },
    )
    .unwrap_or_else(|error| panic!("{}", error.to_string()))
}

#[test]
fn the_oldest_candidate_claims_authority() {
    let mut election = campaign();
    assert!(matches!(election.acquire(), CampaignAction::Grant(2)));
    assert!(matches!(
        election.acquire_until(CampaignEvent::Granted(70)),
        CampaignAction::Register(_)
    ));
    let mut action = election.acquire_until(CampaignEvent::Outcome(true));
    for _ in 0..6 {
        action = match action {
            CampaignAction::Watch(_) | CampaignAction::List(_) => {
                election.acquire_until(CampaignEvent::Candidates(vec![KeyValue::new(
                    &namespace().controller_candidate_key("c1"),
                    "c1",
                    5,
                    5,
                    70,
                )]))
            }
            CampaignAction::Claim(_) => election.acquire_until(CampaignEvent::Outcome(true)),
            CampaignAction::Finish(result) => {
                let authority = result.unwrap().unwrap();
                assert_eq!(authority.controller_id(), "c1");
                assert_eq!(authority.lease_id(), 70);
                return;
            }
            _ => panic!("the campaign must go on"),
        };
    }
    panic!("the campaign must end");
}

#[test]
fn invalid_campaigns_are_refused() {
    let refused = |cluster: &str, controller_id: &str, lease_ttl_ms: u64| {
        ControllerElection::new(
            namespace(),
            ControllerElectionConfig {
                cluster: cluster.to_owned(),
                controller_id: controller_id.to_owned(),
                lease_ttl_ms,
            },
        )
        .err()
    };
    assert_eq!(refused("other", "c1", 1_500), Some(ElectionError::ClusterMismatch));
    assert_eq!(refused("test", "", 1_500), Some(ElectionError::InvalidControllerId));
    assert_eq!(refused("test", " \t", 1_500), Some(ElectionError::InvalidControllerId));
    assert_eq!(refused("test", "c1", 0), Some(ElectionError::InvalidLeaseTtl));
    assert_eq!(refused("test", "c1", 1), None);
}

#[test]
fn keepalives_end_with_the_lease() {
    let plan = KeepalivePlan::new(Duration::from_secs(3));
    assert!(!plan.has_expired(Duration::from_millis(2_999)));
    assert!(plan.has_expired(Duration::from_secs(3)));
    assert_eq!(
        plan.decide(KeepaliveReply::Remaining(3), Duration::from_millis(10)),
        KeepaliveDecision::Renewed(Duration::from_secs(1))
    );
    assert_eq!(
        plan.decide(KeepaliveReply::Remaining(0), Duration::from_millis(10)),
        KeepaliveDecision::Lost
    );
    assert_eq!(
        plan.decide(KeepaliveReply::Unanswered, Duration::from_secs(4)),
        KeepaliveDecision::Lost
    );
    assert!(matches!(
        plan.decide(KeepaliveReply::Unanswered, Duration::from_secs(1)),
        KeepaliveDecision::Retry(_)
    ));
}

#[test]
fn relinquished_authority_is_confirmed() {
    let authority =
        ControllerAuthority::new(namespace().namespace().to_owned(), String::from("c1"), 70);
    let (mut relinquishment, action) = Relinquishment::relinquish(namespace(), authority);
    assert!(matches!(action, RelinquishAction::Delete(_)));
    assert!(matches!(relinquishment.on_done(), RelinquishAction::Delete(_)));
    assert!(matches!(relinquishment.on_done(), RelinquishAction::Revoke(70)));
    assert!(matches!(relinquishment.on_done(), RelinquishAction::Read(_)));
    assert!(matches!(relinquishment.on_entry(None), RelinquishAction::Read(_)));
    assert!(matches!(relinquishment.on_entry(None), RelinquishAction::Finish(Ok(()))));
}
