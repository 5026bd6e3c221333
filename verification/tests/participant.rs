use clustodian::coordination::etcd::{
    CompletionResult, CoordinationError, EtcdNamespace, EtcdParticipantSession,
    ParticipantRegistration, RegistrationAction, RegistrationOptions, Revision, TransitionClaim,
    WatchError, WatchEvent, WatchEventKind,
};
use clustodian::model::{leader_standby, InstanceId, ResourceId, SessionId, State};
use clustodian::observability::RuntimeEvent;
use clustodian::participant::execution::{
    handle_worker_result, parse_event_messages, parse_queue_value, partition_id, resource_id,
    WorkerEnd,
};
use clustodian::participant::message::{ExecutionAction, HandlerOutcome, MessageExecution};
use clustodian::participant::runtime::{
    resource_key, state_model_for, ParticipantAction, ParticipantEvent, ParticipantLoop,
};
use clustodian::participant::session::{
    register_session_until, registration_on_live, registration_on_paused, KeepaliveOutcome,
    KeepaliveStep, RegistrationStep, SessionKeepalive,
};
use clustodian::participant::{
    processed_revision_key, CompletionState, ParticipantRuntimeError, ParticipantWorkers,
    ResourceState, ResourceTransition, ScopedTransitionHandler, TransitionAttemptId,
    TransitionExecution, TransitionHandler, TransitionHandlerError,
};
use clustodian::time::Duration;
use clustodian::transition::TransitionMessage;
use serde_json::Value;

struct RecordingHandler;

impl TransitionHandler for RecordingHandler {
    fn handle(&self, _execution: &TransitionExecution) -> Result<(), TransitionHandlerError> {
        Ok(())
    }
}

struct FailingHandler;

impl TransitionHandler for FailingHandler {
    fn handle(&self, _execution: &TransitionExecution) -> Result<(), TransitionHandlerError> {
        Err(TransitionHandlerError::new("application failure"))
    }
}

fn revision(value: i64) -> Revision {
    Revision::new(value).unwrap()
}

fn message() -> TransitionMessage {
    TransitionMessage {
        message_id: String::from("m1"),
        resource: String::from("documents"),
        partition: String::from("documents_0"),
        instance: String::from("node-a"),
        target_session: 7,
        from: String::from("OFFLINE"),
        to: String::from("STANDBY"),
        message_type: String::from("STATE_TRANSITION"),
    }
}

fn decode_messages(text: &str) -> Option<Vec<TransitionMessage>> {
    let value: Value = serde_json::from_str(text).ok()?;
    let field = |item: &Value, name: &str| item.get(name)?.as_str().map(str::to_owned);
    value
        .as_array()?
        .iter()
        .map(|item| {
            Some(TransitionMessage {
                message_id: field(item, "message_id")?,
                resource: field(item, "resource")?,
                partition: field(item, "partition")?,
                instance: field(item, "instance")?,
                target_session: item.get("target_session")?.as_u64()?,
                from: field(item, "from")?,
                to: field(item, "to")?,
                message_type: field(item, "message_type")?,
            })
        })
        .collect()
}

#[test]
fn facade_state_and_transition_projections_cover_all_states() {
    let states = [
        ("OFFLINE", ResourceState::Offline),
        ("STANDBY", ResourceState::Standby),
        ("LEADER", ResourceState::Leader),
        ("DROPPED", ResourceState::Dropped),
        ("ERROR", ResourceState::Error),
        ("CUSTOM", ResourceState::Other(String::from("CUSTOM"))),
    ];
    for (name, expected) in states {
        let state = State::try_from(name).unwrap();
        let projected = ResourceState::from_state(&state);
        assert_eq!(projected, expected);
        assert_eq!(projected.as_str(), name);
        assert_eq!(projected.to_string(), name);
    }

    let attempt = TransitionAttemptId::new(String::from("attempt-1"));
    assert_eq!(attempt.as_str(), "attempt-1");
    assert_eq!(attempt.to_string(), "attempt-1");
}

#[test]
fn resource_transition_is_owned_and_exposes_every_field() {
    let message = TransitionMessage {
        from: String::from("CUSTOM_FROM"),
        to: String::from("CUSTOM_TO"),
        ..message()
    };
    let execution = TransitionExecution::new(&message).unwrap();
    let transition = ResourceTransition::from_execution(&execution);
    assert_eq!(transition.partition().as_str(), "documents_0");
    assert_eq!(transition.source(), ResourceState::Other(String::from("CUSTOM_FROM")));
    assert_eq!(transition.target(), ResourceState::Other(String::from("CUSTOM_TO")));
    assert_eq!(transition.attempt_id().as_str(), "m1");
}

#[test]
fn handler_request_preserves_message_identity_and_transition_fields() {
    let execution = TransitionExecution::new(&message()).expect("valid transition");
    assert_eq!(execution.transition_id(), "m1");
    assert_eq!(execution.resource().as_str(), "documents");
    assert_eq!(execution.partition().as_str(), "documents_0");
    assert_eq!(execution.source_state().as_str(), "OFFLINE");
    assert_eq!(execution.target_state().as_str(), "STANDBY");
    assert_eq!(TransitionHandlerError::new("failed").to_string(), "failed");
    assert_eq!(TransitionHandlerError::cancelled().to_string(), "transition cancelled");
}

#[test]
fn queue_decoder_requires_explicit_ids() {
    let value = r#"[{"resource":"documents","partition":"documents_0","instance":"node-a","target_session":7,"from":"OFFLINE","to":"STANDBY","message_type":"STATE_TRANSITION"}]"#;
    assert!(matches!(
        parse_queue_value(decode_messages(value)),
        Err(ParticipantRuntimeError::InvalidMessage)
    ));
    assert!(matches!(
        parse_queue_value(decode_messages("not-json")),
        Err(ParticipantRuntimeError::InvalidMessage)
    ));
}

#[test]
fn message_identifiers_are_validated_at_the_participant_boundary() {
    let valid = TransitionMessage { target_session: 1, ..message() };
    assert_eq!(resource_id(&valid).unwrap().as_str(), "documents");
    assert_eq!(partition_id(&valid).unwrap().as_str(), "documents_0");

    for (field, message) in [
        ("resource", TransitionMessage { resource: String::new(), ..valid.clone() }),
        ("partition", TransitionMessage { partition: String::new(), ..valid.clone() }),
        ("source state", TransitionMessage { from: String::new(), ..valid.clone() }),
        ("target state", TransitionMessage { to: String::new(), ..valid }),
    ] {
        assert!(
            TransitionExecution::new(&message).is_err(),
            "invalid {field} should be rejected"
        );
    }
}

#[test]
fn participant_error_and_progress_keys_are_stable() {
    let instance = InstanceId::new("node-a").expect("valid instance");
    assert_eq!(processed_revision_key(&instance), "participant/node-a/processed-revision");
    assert_eq!(
        ParticipantRuntimeError::InvalidMessage.to_string(),
        "invalid participant transition message"
    );
    assert_eq!(
        ParticipantRuntimeError::HandlerJoin(String::from("panic")).to_string(),
        "transition handler task failed: panic"
    );
    assert_eq!(
        ParticipantRuntimeError::ProgressContention.to_string(),
        "participant progress contention exceeded retry bound"
    );
    assert_eq!(ParticipantRuntimeError::Io(String::from("io")).to_string(), "io");
    assert_eq!(
        ParticipantRuntimeError::Coordination(CoordinationError::InvalidKey).to_string(),
        "coordination key is invalid"
    );
    assert_eq!(
        ParticipantRuntimeError::Watch(WatchError::Disconnected).to_string(),
        "watch stream disconnected"
    );
    assert_eq!(
        ParticipantRuntimeError::WorkerJoin(String::from("join")).to_string(),
        "participant worker task failed: join"
    );
    assert_eq!(
        ParticipantRuntimeError::Io(std::io::Error::other("io-error").to_string()).to_string(),
        "io-error"
    );
}

#[test]
fn participant_error_sources_and_conversions_preserve_categories() {
    let coordination = ParticipantRuntimeError::from(CoordinationError::InvalidKey);
    assert!(coordination.has_source());
    assert!(matches!(
        ParticipantRuntimeError::from(WatchError::Disconnected),
        ParticipantRuntimeError::Watch(WatchError::Disconnected)
    ));
    let watch = ParticipantRuntimeError::Watch(WatchError::Disconnected);
    assert!(watch.has_source());
    for error in [
        ParticipantRuntimeError::Io(String::from("io")),
        ParticipantRuntimeError::InvalidMessage,
        ParticipantRuntimeError::HandlerJoin(String::from("join")),
        ParticipantRuntimeError::WorkerJoin(String::from("worker")),
        ParticipantRuntimeError::ProgressContention,
    ] {
        assert!(!error.has_source());
    }
}

#[test]
fn processed_revision_waits_for_every_message_at_a_frontier() {
    let mut state = CompletionState::new();
    let revision = Revision::new(7).expect("valid revision");
    state.observe(revision, &vec![String::from("a"), String::from("b")]);
    assert_eq!(state.complete("a"), None);
    assert_eq!(state.frontier(), None);
    assert_eq!(state.complete("b"), Some(revision));
    assert_eq!(state.frontier(), Some(revision));
    let mut overlapping = CompletionState::new();
    overlapping.observe(Revision::new(1).unwrap(), &vec![String::from("shared")]);
    overlapping.observe(
        Revision::new(2).unwrap(),
        &vec![String::from("shared"), String::from("later")],
    );
    assert_eq!(overlapping.complete("shared"), Some(Revision::new(1).unwrap()));
    assert_eq!(overlapping.complete("later"), Some(Revision::new(2).unwrap()));
}

#[test]
fn completion_frontier_ignores_empty_observations_and_tracks_order() {
    let node = InstanceId::new("node-a").unwrap();
    let mut workers = ParticipantWorkers::new();
    workers.process_messages(&node, &vec![], Revision::new(3).unwrap());
    let second = TransitionMessage {
        message_id: String::from("m2"),
        partition: String::from("documents_1"),
        ..message()
    };
    workers.process_messages(&node, &vec![message(), second], Revision::new(4).unwrap());
    let done = Ok(CompletionResult::AlreadyCompleted);
    assert_eq!(workers.settle(&done, "unknown"), None);
    assert_eq!(workers.settle(&done, "m1"), None);
    assert_eq!(workers.settle(&done, "m2"), Some(Revision::new(4).unwrap()));
}

#[test]
fn scoped_handlers_dispatch_and_report_missing_resources() {
    let resource = ResourceId::new("documents").unwrap();
    let dispatcher = ScopedTransitionHandler::new(vec![(resource.clone(), RecordingHandler)]);
    let message = TransitionMessage { target_session: 1, ..message() };
    let execution = TransitionExecution::new(&message).unwrap();
    assert!(dispatcher.handle(&execution).is_ok());
    let valid_execution = execution.clone();

    let missing = TransitionMessage { resource: String::from("missing"), ..message };
    let execution = TransitionExecution::new(&missing).unwrap();
    assert_eq!(
        dispatcher.handle(&execution).unwrap_err().to_string(),
        "no transition handler is registered for resource missing"
    );

    let error = ScopedTransitionHandler::new(vec![(resource, FailingHandler)])
        .handle(&valid_execution)
        .unwrap_err();
    assert_eq!(error.to_string(), "application failure");
}

#[test]
fn participant_workers_start_empty_and_with_live_cancellation() {
    let workers = ParticipantWorkers::new();
    assert!(workers.in_flight().is_empty());
    assert_eq!(workers.frontier(), None);
}

#[test]
fn worker_results_keep_their_errors() {
    assert!(handle_worker_result(WorkerEnd::Returned(Ok(()))).is_ok());
    assert!(handle_worker_result(WorkerEnd::Absent).is_ok());
    assert!(matches!(
        handle_worker_result(WorkerEnd::Returned(Err(ParticipantRuntimeError::Io(
            String::from("handler failed")
        )))),
        Err(ParticipantRuntimeError::Io(message)) if message == "handler failed"
    ));
    assert!(matches!(
        handle_worker_result(WorkerEnd::Failed(String::from("cancelled"))),
        Err(ParticipantRuntimeError::WorkerJoin(_))
    ));
}

#[test]
fn queue_watch_events_decode_puts_and_deletes() {
    let delete = WatchEvent::from_parts(
        Revision::new(1).unwrap(),
        String::from("pending-transitions"),
        None,
        WatchEventKind::Delete,
    );
    let decode = |event: &WatchEvent| {
        parse_event_messages(event, event.value().and_then(decode_messages))
    };
    assert!(decode(&delete).unwrap().is_empty());

    let missing_value = WatchEvent::from_parts(
        Revision::new(1).unwrap(),
        String::from("pending-transitions"),
        None,
        WatchEventKind::Put,
    );
    assert!(matches!(decode(&missing_value), Err(ParticipantRuntimeError::InvalidMessage)));

    let valid_value = WatchEvent::from_parts(
        Revision::new(1).unwrap(),
        String::from("pending-transitions"),
        Some(String::from(
            r#"[{"message_id":"m1","resource":"documents","partition":"documents_0","instance":"node-a","target_session":1,"from":"OFFLINE","to":"STANDBY","message_type":"STATE_TRANSITION"}]"#,
        )),
        WatchEventKind::Put,
    );
    assert_eq!(decode(&valid_value).unwrap().len(), 1);
}

#[test]
fn one_message_is_worked_on_for_each_replica() {
    let node = InstanceId::new("node-a").unwrap();
    let mut workers = ParticipantWorkers::new();
    let messages = vec![
        message(),
        TransitionMessage { message_id: String::from("m2"), ..message() },
        TransitionMessage { instance: String::from("node-b"), ..message() },
        TransitionMessage { partition: String::from("documents_1"), ..message() },
    ];
    let scheduled = workers.process_messages(&node, &messages, revision(4));
    let keys: Vec<&str> = scheduled.iter().map(|(_, key)| key.as_str()).collect();
    assert_eq!(keys, ["documents/documents_0", "documents/documents_1"]);
    assert!(workers.process_messages(&node, &messages, revision(5)).is_empty());

    workers.release("documents/documents_0", "other");
    assert_eq!(workers.in_flight().len(), 2);
    workers.release("documents/documents_0", "m1");
    assert_eq!(workers.in_flight().len(), 1);
    let again = workers.process_messages(&node, &messages, revision(6));
    assert_eq!(again.len(), 1);
}

#[test]
fn worked_messages_advance_the_frontier() {
    let node = InstanceId::new("node-a").unwrap();
    let mut workers = ParticipantWorkers::new();
    workers.process_messages(&node, &vec![message()], revision(4));
    let failed: Result<CompletionResult, ParticipantRuntimeError> =
        Err(ParticipantRuntimeError::InvalidMessage);
    assert_eq!(workers.settle(&failed, "m1"), None);
    let applied = Ok(CompletionResult::Applied(revision(5)));
    assert_eq!(workers.settle(&applied, "m1"), Some(revision(4)));
    assert_eq!(workers.frontier(), Some(revision(4)));
}

fn start(message: TransitionMessage) -> MessageExecution {
    let (execution, action) = MessageExecution::execute_message(
        InstanceId::new("node-a").unwrap(),
        SessionId::from_wire_value(7),
        leader_standby(),
        message,
        revision(4),
    )
    .unwrap_or_else(|error| panic!("{}", error.to_string()));
    assert!(matches!(action, ExecutionAction::ReadCurrent(_, _)));
    execution
}

#[test]
fn claimed_transitions_are_handled_and_published() {
    let mut execution = start(message());
    assert!(matches!(execution.on_current(Ok(None)), ExecutionAction::Claim));
    let ExecutionAction::Handle(request) =
        execution.on_claim(Ok(TransitionClaim::Claimed(revision(6))))
    else {
        panic!("a handler call is expected");
    };
    assert_eq!(request.target_state().as_str(), "STANDBY");
    let ExecutionAction::Complete(_, state) = execution.on_handled(HandlerOutcome::Succeeded)
    else {
        panic!("a completion is expected");
    };
    assert_eq!(state, Some(State::new("STANDBY").unwrap()));
    assert!(matches!(
        execution.on_completed(Err(CoordinationError::StaleRevision)),
        ExecutionAction::ReadQueue
    ));
    assert!(matches!(
        execution.on_queue(Ok(Some(revision(8)))),
        ExecutionAction::Complete(_, _)
    ));
    assert!(matches!(
        execution.on_completed(Ok(CompletionResult::Applied(revision(9)))),
        ExecutionAction::Finish(Ok(CompletionResult::Applied(at))) if at == revision(9)
    ));
}

#[test]
fn failed_handlers_leave_an_error_state() {
    let mut execution = start(message());
    execution.on_current(Ok(Some(State::new("OFFLINE").unwrap())));
    execution.on_claim(Ok(TransitionClaim::Claimed(revision(6))));
    let ExecutionAction::Complete(_, state) = execution.on_handled(HandlerOutcome::Application)
    else {
        panic!("a completion is expected");
    };
    assert_eq!(state, Some(State::new("ERROR").unwrap()));

    let mut execution = start(message());
    execution.on_current(Ok(None));
    execution.on_claim(Ok(TransitionClaim::Claimed(revision(6))));
    assert!(matches!(
        execution.on_handled(HandlerOutcome::Join(String::from("panic"))),
        ExecutionAction::Finish(Err(ParticipantRuntimeError::HandlerJoin(_)))
    ));
}

#[test]
fn stale_transitions_are_removed_unhandled() {
    for (message, current) in [
        (message(), "STANDBY"),
        (message(), "LEADER"),
        (TransitionMessage { target_session: 6, ..message() }, "OFFLINE"),
        (TransitionMessage { to: String::from("LEADER"), ..message() }, "OFFLINE"),
    ] {
        let mut execution = start(message);
        assert!(matches!(
            execution.on_current(Ok(Some(State::new(current).unwrap()))),
            ExecutionAction::Remove(at) if at == revision(4)
        ));
        assert!(matches!(
            execution.on_removed(Ok(true)),
            ExecutionAction::Finish(Ok(CompletionResult::AlreadyCompleted))
        ));
    }
}

#[test]
fn dropped_replicas_publish_no_state() {
    let dropping = TransitionMessage { to: String::from("DROPPED"), ..message() };
    let mut execution = start(dropping);
    execution.on_current(Ok(None));
    execution.on_claim(Ok(TransitionClaim::Claimed(revision(6))));
    assert!(matches!(
        execution.on_handled(HandlerOutcome::Succeeded),
        ExecutionAction::Complete(_, None)
    ));
}

#[test]
fn resources_name_their_state_model() {
    assert_eq!(resource_key("documents"), "controller/resources/documents");
    let own = leader_standby();
    assert_eq!(state_model_for(Some(&own), Some("Other")).unwrap(), own);
    assert_eq!(state_model_for(None, Some("LeaderStandby")).unwrap(), own);
    assert!(matches!(
        state_model_for(None, Some("Other")),
        Err(ParticipantRuntimeError::InvalidMessage)
    ));
    assert!(state_model_for(None, None).is_err());
}

#[test]
fn sessions_are_healthy_only_after_confirmation() {
    let ttl = Duration::from_secs(2);
    let tick = Duration::from_millis(10);
    let (mut keepalive, step) = SessionKeepalive::keep_alive_until_available(ttl, tick);
    assert!(matches!(step, KeepaliveStep::AskCurrent));
    assert!(matches!(keepalive.on_current(Ok(true), tick), KeepaliveStep::KeepAlive));
    assert!(matches!(keepalive.on_kept(Ok(()), tick), KeepaliveStep::AskCurrent));
    assert!(matches!(
        keepalive.on_current(Ok(true), tick),
        KeepaliveStep::Done(KeepaliveOutcome::Healthy)
    ));

    let (mut keepalive, _) = SessionKeepalive::keep_alive_until_available(ttl, tick);
    assert!(matches!(
        keepalive.on_current(Ok(false), tick),
        KeepaliveStep::Done(KeepaliveOutcome::Expired)
    ));
    let (mut keepalive, _) = SessionKeepalive::keep_alive_until_available(ttl, tick);
    let unavailable = || CoordinationError::Etcd(String::from("unavailable"));
    let late = Duration::from_millis(1_900);
    assert!(matches!(
        keepalive.on_current(Err(unavailable()), late),
        KeepaliveStep::Pause(span) if span == Duration::from_millis(100)
    ));
    assert!(matches!(
        keepalive.on_paused(true, late),
        KeepaliveStep::Done(KeepaliveOutcome::Shutdown)
    ));
    assert!(matches!(
        keepalive.on_paused(false, ttl),
        KeepaliveStep::Done(KeepaliveOutcome::Expired)
    ));
}

#[test]
fn registration_waits_for_an_older_session() {
    assert!(matches!(register_session_until(), RegistrationStep::AskLive));
    assert!(matches!(registration_on_live(Ok(None)), RegistrationStep::Register));
    assert!(matches!(
        registration_on_live(Ok(Some(SessionId::from_wire_value(3)))),
        RegistrationStep::Pause
    ));
    assert!(matches!(
        registration_on_live(Err(CoordinationError::InvalidSession)),
        RegistrationStep::Fail(_)
    ));
    assert!(matches!(registration_on_paused(true), RegistrationStep::Done(None)));
    assert!(matches!(registration_on_paused(false), RegistrationStep::AskLive));
}

fn session() -> EtcdParticipantSession {
    let options = RegistrationOptions::new(Duration::from_secs(5))
        .unwrap_or_else(|_| panic!("valid options"));
    let namespace = EtcdNamespace::new("/clustodian", "test").unwrap();
    let (mut registration, mut action) =
        ParticipantRegistration::register(namespace, InstanceId::new("node-a").unwrap(), options);
    for _ in 0..10 {
        action = match action {
            RegistrationAction::List(_) => registration.on_entries(&Vec::new()),
            RegistrationAction::Read(_) => registration.on_entry(None),
            RegistrationAction::Commit(_) => registration.on_outcome(true, Some(7)),
            RegistrationAction::Grant(_) => registration.on_lease(70),
            RegistrationAction::Revoke(_) => panic!("nothing is to be revoked"),
            RegistrationAction::Finish(result) => return result.unwrap(),
        };
    }
    panic!("registration must end")
}

fn running() -> ParticipantLoop {
    let (mut participant, step) =
        ParticipantLoop::run_until(InstanceId::new("node-a").unwrap(), Duration::from_secs(5))
            .unwrap_or_else(|error| panic!("{}", error.to_string()));
    assert!(matches!(step.action, ParticipantAction::Register));
    let step = participant.on_event(ParticipantEvent::Registered(Ok(Some(session()))));
    assert!(matches!(step.action, ParticipantAction::OpenQueue));
    let step = participant.on_event(ParticipantEvent::Opened(Ok((vec![message()], revision(4)))));
    assert!(matches!(
        step.action,
        ParticipantAction::Process(messages, at) if messages.len() == 1 && at == revision(4)
    ));
    let step = participant.on_event(ParticipantEvent::Processed(Ok(())));
    assert!(matches!(step.action, ParticipantAction::CallReady));
    let step = participant.on_event(ParticipantEvent::Called(Ok(())));
    assert!(matches!(step.action, ParticipantAction::Wait));
    participant
}

#[test]
fn registered_sessions_carry_their_lease() {
    let session = session();
    assert_eq!(session.session_id(), SessionId::from_wire_value(1));
    assert_eq!(session.lease_id(), 70);
    assert_eq!(session.registration_revision(), revision(7));
    assert!(session.is_current(Some(SessionId::from_wire_value(1))));
    assert!(!session.is_current(Some(SessionId::from_wire_value(2))));
    assert!(!session.is_current(None));
}

#[test]
fn shutdown_drains_and_revokes() {
    let mut participant = running();
    let step = participant.on_event(ParticipantEvent::Shutdown);
    assert!(matches!(step.action, ParticipantAction::Drain));
    let step = participant.on_event(ParticipantEvent::Drained(Ok(())));
    assert!(matches!(step.action, ParticipantAction::Revoke));
    let step = participant.on_event(ParticipantEvent::Revoked(Ok(())));
    assert!(matches!(step.action, ParticipantAction::Finish(Ok(()))));
    assert_eq!(
        step.event,
        Some(RuntimeEvent::GracefulShutdown { identity: String::from("node-a") })
    );
}

#[test]
fn expired_leases_are_registered_again() {
    let mut participant = running();
    assert!(matches!(
        participant.on_event(ParticipantEvent::Tick).action,
        ParticipantAction::KeepAlive
    ));
    let step = participant.on_event(ParticipantEvent::Kept(Ok(KeepaliveOutcome::Expired)));
    assert!(matches!(step.action, ParticipantAction::DrainLost));
    assert_eq!(
        step.event,
        Some(RuntimeEvent::LeaseRecovery { identity: String::from("node-a") })
    );
    let step = participant.on_event(ParticipantEvent::Drained(Ok(())));
    assert!(matches!(step.action, ParticipantAction::Reconnect));
    let step = participant.on_event(ParticipantEvent::Reconnected(Ok(session())));
    assert!(matches!(step.action, ParticipantAction::OpenQueue));
    assert_eq!(
        step.event,
        Some(RuntimeEvent::LeaseReregistered {
            identity: String::from("node-a"),
            session_id: 1,
        })
    );
}

#[test]
fn compacted_watches_read_the_queue_again() {
    let mut participant = running();
    let step = participant.on_event(ParticipantEvent::Watched(Err(WatchError::Compacted {
        revision: revision(9),
    })));
    assert!(matches!(step.action, ParticipantAction::OpenQueue));
    participant.on_event(ParticipantEvent::Opened(Ok((vec![], revision(9)))));
    participant.on_event(ParticipantEvent::Processed(Ok(())));
    let step = participant.on_event(ParticipantEvent::Watched(Err(WatchError::Disconnected)));
    assert!(matches!(step.action, ParticipantAction::Resume));
    assert_eq!(
        step.event,
        Some(RuntimeEvent::CoordinationRetry { operation: String::from("participant watch") })
    );
}

#[test]
fn failed_runs_report_their_own_error() {
    let mut participant = running();
    let step = participant.on_event(ParticipantEvent::Worker(WorkerEnd::Failed(String::from(
        "lost",
    ))));
    assert!(matches!(step.action, ParticipantAction::Revoke));
    let step =
        participant.on_event(ParticipantEvent::Revoked(Err(CoordinationError::InvalidSession)));
    assert!(matches!(
        step.action,
        ParticipantAction::Finish(Err(ParticipantRuntimeError::WorkerJoin(_)))
    ));
    assert_eq!(
        step.event,
        Some(RuntimeEvent::FatalRuntimeError {
            identity: String::from("node-a"),
            message: String::from("participant worker task failed: lost"),
        })
    );
}
