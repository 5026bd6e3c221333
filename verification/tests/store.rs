//! Operations of the library on a store that is held in memory.
use clustodian::controller::records::Decoded;
use clustodian::controller::view_json::external_view_json;
use clustodian::coordination::etcd::metadata::{
    compare_and_delete_metadata, compare_and_put_metadata, metadata_entry, put_metadata,
};
use clustodian::coordination::etcd::queue::{remove_pending_transition, removal_outcome};
use clustodian::coordination::etcd::session::{current_state, live_session};
use clustodian::coordination::etcd::snapshot::controller_snapshot_from_kvs;
use clustodian::coordination::etcd::states::{
    publish_current_state, remove_current_states_for_resource, revocation_outcome, revoke_live,
};
use clustodian::coordination::etcd::{
    revision_from_header, CompletionResult, Condition, CoordinationError, CoordinationSnapshot,
    EtcdNamespace, EtcdParticipantSession, KeyValue, LeaseExpiryRecord, MessageClaim,
    MessageCompletion, MessageInjection, Mutation, OutputPublication, ParticipantCompletionFence,
    ParticipantRegistration, QueueAction, QueueEntry, RegistrationAction, RegistrationOptions,
    ResourcePurge, Revision, StoreAction, Transaction, TransitionClaim, PENDING_TRANSITIONS_KEY,
};
use clustodian::election::{
    CampaignAction, CampaignEvent, ControllerAuthority, ControllerElection,
    ControllerElectionConfig, ElectionError, RelinquishAction, Relinquishment,
};
use clustodian::model::{
    CurrentState, ExternalView, InstanceId, PartitionId, ResourceId, SessionId, State,
};
use clustodian::observe::snapshot::snapshot_from_coordination;
use clustodian::ordered::OrderedMap;
use clustodian::time::Duration;
use clustodian::transition::TransitionMessage;
use serde_json::Value;
use std::collections::BTreeMap;

struct Cell {
    entry: KeyValue,
    version: i64,
}

struct Store {
    revision: i64,
    lease: i64,
    cells: BTreeMap<String, Cell>,
}

fn encode_messages(messages: &[TransitionMessage]) -> String {
    let items = messages.iter().map(|message| {
        let mut fields = serde_json::Map::new();
        let mut put = |name: &str, value: &str| {
            fields.insert(name.to_owned(), Value::String(value.to_owned()));
        };
        put("message_id", &message.message_id);
        put("resource", &message.resource);
        put("partition", &message.partition);
        put("instance", &message.instance);
        put("from", &message.from);
        put("to", &message.to);
        put("message_type", &message.message_type);
        fields.insert(String::from("target_session"), Value::from(message.target_session));
        Value::Object(fields)
    });
    Value::Array(items.collect()).to_string()
}

fn decode_messages(text: &str) -> Option<Vec<TransitionMessage>> {
    let value: Value = serde_json::from_str(text).ok()?;
    let field = |item: &Value, name: &str| item.get(name)?.as_str().map(str::to_owned);
    value
        .as_array()?
        .iter()
        .map(|item| {
            Some(TransitionMessage {
                message_id: field(item, "message_id")?,
                resource: field(item, "resource")?,
                partition: field(item, "partition")?,
                instance: field(item, "instance")?,
                target_session: item.get("target_session")?.as_u64()?,
                from: field(item, "from")?,
                to: field(item, "to")?,
                message_type: field(item, "message_type")?,
            })
        })
        .collect()
}

impl Store {
    fn new() -> Self {
        Store { revision: 1, lease: 100, cells: BTreeMap::new() }
    }

    fn holds(&self, condition: &Condition) -> bool {
        let cell = |key: &String| self.cells.get(key);
        match condition {
            Condition::Value { key, value } => {
                cell(key).is_some_and(|cell| cell.entry.value == value.as_bytes())
            }
            Condition::Version { key, version } => {
                cell(key).map_or(0, |cell| cell.version) == *version
            }
            Condition::ModRevision { key, revision } => {
                cell(key).map_or(0, |cell| cell.entry.mod_revision) == *revision
            }
            Condition::CreateRevision { key, revision } => {
                cell(key).map_or(0, |cell| cell.entry.create_revision) == *revision
            }
            Condition::Lease { key, lease } => {
                cell(key).map_or(0, |cell| cell.entry.lease) == *lease
            }
        }
    }

    fn write(&mut self, key: &str, value: Vec<u8>, lease: i64) {
        let known = self.cells.get(key).map(|cell| (cell.version, cell.entry.create_revision));
        let (version, created) = known.unwrap_or((0, self.revision));
        let entry = KeyValue {
            key: key.as_bytes().to_vec(),
            value,
            create_revision: created,
            mod_revision: self.revision,
            lease,
        };
        self.cells.insert(key.to_owned(), Cell { entry, version: version + 1 });
    }

    fn commit(&mut self, transaction: &Transaction) -> (bool, Option<i64>) {
        let applies = transaction.conditions.iter().all(|condition| self.holds(condition));
        if applies && !transaction.mutations.is_empty() {
            self.revision += 1;
            for mutation in &transaction.mutations {
                match mutation {
                    Mutation::Put { key, value, lease } => {
                        self.write(key, value.as_bytes().to_vec(), lease.unwrap_or(0));
                    }
                    Mutation::PutBytes { key, value } => self.write(key, value.clone(), 0),
                    Mutation::PutMessages { key, messages } => {
                        self.write(key, encode_messages(messages).into_bytes(), 0);
                    }
                    Mutation::Delete { key } => {
                        self.cells.remove(key);
                    }
                }
            }
        }
        (applies, Some(self.revision))
    }

    fn read(&self, key: &str) -> Option<&KeyValue> {
        self.cells.get(key).map(|cell| &cell.entry)
    }

    fn list(&self, prefix: &str) -> Vec<KeyValue> {
        self.cells
            .iter()
            .filter(|(key, _)| key.starts_with(prefix))
            .map(|(_, cell)| cell.entry.clone())
            .collect()
    }

    fn grant(&mut self) -> i64 {
        self.lease += 1;
        self.lease
    }

    fn expire(&mut self, lease: i64) {
        self.revision += 1;
        self.cells.retain(|_, cell| cell.entry.lease != lease);
    }

    fn snapshot(&self) -> CoordinationSnapshot {
        let entries = self.list(&namespace().namespaced_key(""));
        controller_snapshot_from_kvs(&namespace(), revision(self.revision), &entries).unwrap()
    }

    fn queue(&self) -> Option<QueueEntry> {
        let entry = self.read(&namespace().metadata_key(PENDING_TRANSITIONS_KEY))?;
        let entry = metadata_entry(entry).unwrap();
        let value = entry.value().unwrap_or_default().to_owned();
        Some(QueueEntry { revision: entry.revision(), decoded: decode_messages(&value), value })
    }

    fn live(&self, name: &str) -> Option<SessionId> {
        live_session(self.read(&namespace().live_key(&instance(name)))).unwrap()
    }

    fn state(&self, session: SessionId, message: &TransitionMessage) -> Option<State> {
        let key = namespace().current_state_key(
            &instance(&message.instance),
            session,
            &ResourceId::new(&message.resource).unwrap(),
            &PartitionId::new(&message.partition).unwrap(),
        );
        current_state(self.read(&key)).unwrap()
    }

    fn put(&mut self, key: &str, value: &str) -> Revision {
        let (_, header) = self.commit(&put_metadata(&namespace(), key, value, None));
        revision_from_header(header).unwrap()
    }

    fn register(&mut self, name: &str) -> Result<EtcdParticipantSession, CoordinationError> {
        let options = RegistrationOptions::new(Duration::from_secs(10)).unwrap();
        let (mut registration, mut action) =
            ParticipantRegistration::register(namespace(), instance(name), options);
        loop {
            action = match action {
                RegistrationAction::List(prefix) => registration.on_entries(&self.list(&prefix)),
                RegistrationAction::Read(key) => registration.on_entry(self.read(&key)),
                RegistrationAction::Commit(transaction) => {
                    let (succeeded, header) = self.commit(&transaction);
                    registration.on_outcome(succeeded, header)
                }
                RegistrationAction::Grant(_) => registration.on_lease(self.grant()),
                RegistrationAction::Revoke(lease) => {
                    self.expire(lease);
                    registration.on_revoked()
                }
                RegistrationAction::Finish(result) => return result,
            };
        }
    }

    fn inject(&mut self, message: &TransitionMessage) -> Result<Revision, CoordinationError> {
        let (mut injection, mut action) =
            MessageInjection::inject_pending_transition(namespace(), message);
        loop {
            action = match action {
                QueueAction::ReadQueue => injection.on_queue(self.queue().as_ref()),
                QueueAction::ReadNamespace => injection.on_namespace(),
                QueueAction::Commit(transaction) => {
                    let (succeeded, header) = self.commit(&transaction);
                    injection.on_outcome(succeeded, header)
                }
                QueueAction::Finish(result) => return result,
                QueueAction::ReadLiveSession => panic!("an injection asks for no session"),
            };
        }
    }

    fn claim(&mut self, session: SessionId, message: &TransitionMessage) -> TransitionClaim {
        let (mut claim, mut action) = MessageClaim::claim_pending_transition(
            namespace(),
            instance(&message.instance),
            session,
            message.clone(),
        );
        loop {
            action = match action {
                QueueAction::ReadQueue => claim.on_queue(self.queue().as_ref()),
                QueueAction::Commit(transaction) => {
                    let (succeeded, _) = self.commit(&transaction);
                    claim.on_outcome(succeeded)
                }
                QueueAction::ReadLiveSession => claim.on_live_session(self.live(&message.instance)),
                QueueAction::Finish(result) => return result.unwrap(),
                QueueAction::ReadNamespace => panic!("a claim reads no namespace"),
            };
        }
    }

    fn complete(
        &mut self,
        session: SessionId,
        at: Revision,
        message: &TransitionMessage,
        state: Option<State>,
    ) -> Result<CompletionResult, CoordinationError> {
        let fence = ParticipantCompletionFence::new(
            instance(&message.instance),
            session,
            at,
            message.message_id.clone(),
        );
        let (mut completion, mut action) =
            MessageCompletion::complete_pending_transition(namespace(), fence, message, state)?;
        loop {
            action = match action {
                QueueAction::ReadQueue => completion.on_queue(self.queue().as_ref()),
                QueueAction::Commit(transaction) => {
                    let (succeeded, header) = self.commit(&transaction);
                    completion.on_outcome(succeeded, header)
                }
                QueueAction::ReadLiveSession => {
                    completion.on_live_session(self.live(&message.instance))
                }
                QueueAction::Finish(result) => return result,
                QueueAction::ReadNamespace => panic!("a completion reads no namespace"),
            };
        }
    }

    fn publish(
        &mut self,
        authority: &ControllerAuthority,
        input: &CoordinationSnapshot,
        external_view: &str,
        pending: &str,
    ) -> Result<Revision, CoordinationError> {
        let mut sessions = OrderedMap::new();
        for name in ["node-a", "node-b"] {
            if let Some(live) = input.participants().live_instances().get(&instance(name)) {
                sessions.insert(instance(name), live.session_id());
            }
        }
        let fence = authority.commit_fence(input.authoritative_revision(), sessions);
        let queue = input.metadata().get(&PENDING_TRANSITIONS_KEY.to_owned());
        let (mut publication, mut action) = OutputPublication::publish_controller_outputs(
            namespace(),
            fence,
            external_view.to_owned(),
            pending.to_owned(),
            queue.map(|entry| entry.revision()),
        );
        loop {
            action = match action {
                StoreAction::Read(key) => publication.on_entry(self.read(&key)),
                StoreAction::Commit(transaction) => {
                    let (succeeded, header) = self.commit(&transaction);
                    publication.on_outcome(succeeded, header)
                }
                StoreAction::Finish(result) => return result,
            };
        }
    }
}

fn namespace() -> EtcdNamespace {
    EtcdNamespace::new("/clustodian", "cluster").unwrap()
}

fn revision(value: i64) -> Revision {
    Revision::new(value).unwrap()
}

fn instance(name: &str) -> InstanceId {
    InstanceId::new(name).unwrap()
}

fn message(id: &str, session: SessionId) -> TransitionMessage {
    TransitionMessage {
        message_id: id.to_owned(),
        resource: String::from("documents"),
        partition: String::from("documents_0"),
        instance: String::from("node-a"),
        target_session: session.wire_value(),
        from: String::from("OFFLINE"),
        to: String::from("STANDBY"),
        message_type: String::from("STATE_TRANSITION"),
    }
}

fn state(name: &str) -> State {
    State::try_from(name).unwrap()
}

fn one_state(partition: &str, name: &str) -> OrderedMap<PartitionId, State> {
    let mut states = OrderedMap::new();
    states.insert(PartitionId::new(partition).unwrap(), state(name));
    states
}

/// Campaign until the candidate leads or has to wait.
fn campaign(store: &mut Store, election: &mut ControllerElection) -> Option<ControllerAuthority> {
    let mut action = election.acquire();
    loop {
        let event = match action {
            CampaignAction::Grant(_) => CampaignEvent::Granted(store.grant()),
            CampaignAction::Register(transaction) | CampaignAction::Claim(transaction) => {
                CampaignEvent::Outcome(store.commit(&transaction).0)
            }
            CampaignAction::Watch(prefix) | CampaignAction::List(prefix) => {
                CampaignEvent::Candidates(store.list(&prefix))
            }
            CampaignAction::Pause => return None,
            CampaignAction::Revoke(lease) => {
                store.expire(lease);
                CampaignEvent::Released(None)
            }
            CampaignAction::Finish(result) => return result.unwrap(),
            CampaignAction::Nothing => return None,
        };
        action = election.acquire_until(event);
    }
}

/// Continue a campaign that waits.
fn resume_campaign(
    store: &mut Store,
    election: &mut ControllerElection,
) -> Result<Option<ControllerAuthority>, ElectionError> {
    let mut action = election.acquire_until(CampaignEvent::Elapsed);
    loop {
        let event = match action {
            CampaignAction::Claim(transaction) => {
                CampaignEvent::Outcome(store.commit(&transaction).0)
            }
            CampaignAction::List(prefix) => CampaignEvent::Candidates(store.list(&prefix)),
            CampaignAction::Finish(result) => return result,
            _ => return Ok(None),
        };
        action = election.acquire_until(event);
    }
}

fn candidate(name: &str) -> ControllerElection {
    ControllerElection::new(
        namespace(),
        ControllerElectionConfig {
            cluster: String::from("cluster"),
            controller_id: name.to_owned(),
            lease_ttl_ms: 5_000,
        },
    )
    .unwrap()
}

#[test]
fn stored_metadata_is_read_back_and_marks_input() {
    let mut store = Store::new();
    let written = store.put("controller/cluster", "cluster");
    let entry = metadata_entry(
        store.read(&namespace().metadata_key("controller/cluster")).unwrap(),
    )
    .unwrap();
    assert_eq!(entry.value(), Some("cluster"));
    assert_eq!(entry.revision(), written);
    assert_eq!(store.snapshot().authoritative_revision(), written);

    // Derived metadata is stored without new input.
    store.put("participant/node-a/processed-revision", "2");
    assert_eq!(store.snapshot().authoritative_revision(), written);

    let stale = compare_and_put_metadata(
        &namespace(),
        "controller/cluster",
        revision(written.value() + 5),
        "other",
    );
    assert!(!store.commit(&stale).0);
    let delete = compare_and_delete_metadata(&namespace(), "controller/cluster", written);
    assert!(store.commit(&delete).0);
    assert!(store.read(&namespace().metadata_key("controller/cluster")).is_none());
    assert!(store.snapshot().authoritative_revision() > written);
}

#[test]
fn campaigns_are_first_come_first_served() {
    let mut store = Store::new();
    let mut first = candidate("controller-a");
    let mut second = candidate("controller-b");
    let leader = campaign(&mut store, &mut first).expect("the first candidate leads");
    assert_eq!(leader.controller_id(), "controller-a");
    assert!(campaign(&mut store, &mut second).is_none());
    assert!(resume_campaign(&mut store, &mut second).unwrap().is_none());

    // The standby leads once the leader is gone.
    let (mut relinquishment, mut action) =
        Relinquishment::relinquish(namespace(), leader.clone());
    loop {
        action = match action {
            RelinquishAction::Delete(transaction) => {
                store.commit(&transaction);
                relinquishment.on_done()
            }
            RelinquishAction::Revoke(lease) => {
                store.expire(lease);
                relinquishment.on_done()
            }
            RelinquishAction::Read(key) => relinquishment.on_entry(store.read(&key)),
            RelinquishAction::Pause => relinquishment.on_done(),
            RelinquishAction::Finish(result) => {
                result.unwrap();
                break;
            }
        };
    }
    let next = resume_campaign(&mut store, &mut second).unwrap().expect("the standby leads");
    assert_eq!(next.controller_id(), "controller-b");

    // What the former leader publishes is refused.
    store.put("controller/throttles", "[]");
    let input = store.snapshot();
    assert!(matches!(
        store.publish(&leader, &input, "{}", "[]"),
        Err(CoordinationError::StaleController)
    ));
    assert!(store.publish(&next, &input, "{}", "[]").is_ok());
}

#[test]
fn registered_sessions_are_live_until_they_are_replaced() {
    let mut store = Store::new();
    let first = store.register("node-a").unwrap();
    assert_eq!(store.live("node-a"), Some(first.session_id()));
    assert!(matches!(store.register("node-a"), Err(CoordinationError::RegistrationLost)));

    let publication = publish_current_state(
        &namespace(),
        &instance("node-a"),
        first.session_id(),
        &ResourceId::new("documents").unwrap(),
        &one_state("documents_0", "LEADER"),
    );
    assert!(store.commit(&publication).0);
    let queued = message("first", first.session_id());
    assert_eq!(store.state(first.session_id(), &queued), Some(state("LEADER")));

    store.expire(first.lease_id());
    assert_eq!(store.live("node-a"), None);
    let second = store.register("node-a").unwrap();
    assert!(second.session_id() > first.session_id());
    // The replica is taken over in its initial state.
    assert_eq!(store.state(second.session_id(), &queued), Some(state("OFFLINE")));

    // The replaced session publishes, claims and completes nothing.
    assert!(!store.commit(&publication).0);
    let queue = store.inject(&queued).unwrap();
    assert_eq!(store.claim(first.session_id(), &queued), TransitionClaim::SessionLost);
    let before = store.snapshot();
    assert_eq!(
        store.complete(first.session_id(), queue, &queued, Some(state("STANDBY"))).unwrap(),
        CompletionResult::SessionLost
    );
    assert_eq!(store.state(first.session_id(), &queued), Some(state("LEADER")));
    assert_eq!(
        store.snapshot().authoritative_revision(),
        before.authoritative_revision()
    );
}

#[test]
fn transitions_are_completed_once() {
    let mut store = Store::new();
    let session = store.register("node-a").unwrap().session_id();
    let first = message("first", session);
    let other = TransitionMessage {
        partition: String::from("documents_1"),
        ..message("other", session)
    };
    store.inject(&first).unwrap();
    let at = store.inject(&other).unwrap();
    assert!(matches!(
        store.inject(&message("first", session)),
        Err(CoordinationError::DuplicateMessage(_))
    ));
    assert_eq!(store.claim(session, &first), TransitionClaim::Claimed(at));
    assert!(matches!(
        store.complete(session, revision(1), &first, Some(state("STANDBY"))),
        Err(CoordinationError::StaleRevision)
    ));
    let done = store.complete(session, at, &first, Some(state("STANDBY"))).unwrap();
    assert!(matches!(done, CompletionResult::Applied(_)));
    assert_eq!(store.state(session, &first), Some(state("STANDBY")));
    let queue = store.queue().unwrap();
    assert_eq!(queue.decoded, Some(vec![other.clone()]));
    assert_eq!(
        store.complete(session, queue.revision, &first, Some(state("LEADER"))).unwrap(),
        CompletionResult::AlreadyCompleted
    );
    assert_eq!(store.state(session, &first), Some(state("STANDBY")));
    assert_eq!(store.claim(session, &first), TransitionClaim::Withdrawn);

    // A dropped replica leaves no state.
    let drop = TransitionMessage { to: String::from("DROPPED"), ..message("drop", session) };
    let at = store.inject(&drop).unwrap();
    assert!(matches!(
        store.complete(session, at, &drop, None).unwrap(),
        CompletionResult::Applied(_)
    ));
    assert_eq!(store.state(session, &first), None);
}

#[test]
fn queued_messages_are_removed_and_purged() {
    let mut store = Store::new();
    let session = store.register("node-a").unwrap().session_id();
    store.inject(&message("first", session)).unwrap();
    let at = store.inject(&message("second", session)).unwrap();
    match remove_pending_transition(&namespace(), at, "first", store.queue().as_ref()) {
        QueueAction::Commit(transaction) => {
            let (succeeded, header) = store.commit(&transaction);
            assert!(removal_outcome(succeeded, header).unwrap());
        }
        _ => panic!("a queued message is removed"),
    }
    assert_eq!(store.queue().unwrap().decoded, Some(vec![message("second", session)]));

    let mut purge = ResourcePurge::remove_pending_transitions_for_resource(
        namespace(),
        ResourceId::new("documents").unwrap(),
    );
    match purge.on_queue(store.queue().as_ref()) {
        QueueAction::Commit(transaction) => {
            let (succeeded, header) = store.commit(&transaction);
            assert!(matches!(purge.on_outcome(succeeded, header), QueueAction::Finish(Ok(()))));
        }
        _ => panic!("the messages of the resource are removed"),
    }
    assert_eq!(store.queue().unwrap().decoded, Some(Vec::new()));
}

#[test]
fn outputs_of_older_input_are_refused() {
    let mut store = Store::new();
    store.put("controller/cluster", "cluster");
    let leader = campaign(&mut store, &mut candidate("controller-a")).unwrap();
    let session = store.register("node-a").unwrap();
    let older = store.snapshot();
    store.put("controller/throttles", "[]");
    assert!(matches!(
        store.publish(&leader, &older, "{}", "[]"),
        Err(CoordinationError::StaleRevision)
    ));
    let newest = store.snapshot();
    store.publish(&leader, &newest, "{}", "[]").unwrap();
    // Outputs are no input: the next outputs still stand on the same revision.
    assert_eq!(
        store.snapshot().authoritative_revision(),
        newest.authoritative_revision()
    );
    // A session that is gone refuses the outputs that were planned with it.
    let with_session = store.snapshot();
    store.expire(session.lease_id());
    assert!(store.publish(&leader, &with_session, "{\"a\":{}}", "[]").is_err());
}

#[test]
fn expired_leases_become_input() {
    let mut store = Store::new();
    store.put("controller/cluster", "cluster");
    let leader = campaign(&mut store, &mut candidate("controller-a")).unwrap();
    let session = store.register("node-a").unwrap();
    let before = store.snapshot();
    store.expire(session.lease_id());
    let expired = revision(store.revision);
    assert_eq!(store.snapshot().authoritative_revision(), before.authoritative_revision());
    let (mut record, mut action) =
        LeaseExpiryRecord::record_lease_expiry(namespace(), &leader, expired);
    let reached = loop {
        action = match action {
            StoreAction::Read(key) => record.on_entry(store.read(&key)),
            StoreAction::Commit(transaction) => {
                let (succeeded, header) = store.commit(&transaction);
                record.on_outcome(succeeded, header)
            }
            StoreAction::Finish(result) => break result.unwrap(),
        };
    };
    assert!(reached >= expired);
    assert_eq!(store.snapshot().authoritative_revision(), reached);
}

#[test]
fn published_outputs_are_observed() {
    let mut store = Store::new();
    store.put("controller/cluster", "cluster");
    let leader = campaign(&mut store, &mut candidate("controller-a")).unwrap();
    let session = store.register("node-a").unwrap();
    let publication = publish_current_state(
        &namespace(),
        &instance("node-a"),
        session.session_id(),
        &ResourceId::new("documents").unwrap(),
        &one_state("documents_0", "LEADER"),
    );
    store.commit(&publication);
    let input = store.snapshot();
    let mut builder = CurrentState::builder();
    builder
        .set_state(PartitionId::new("documents_0").unwrap(), instance("node-a"), state("LEADER"))
        .unwrap();
    let mut resources = OrderedMap::new();
    resources.insert(ResourceId::new("documents").unwrap(), builder.build());
    let view = external_view_json(&ExternalView::from_current_states(resources)).unwrap();
    store.publish(&leader, &input, &view, "[]").unwrap();

    let observed = snapshot_from_coordination(
        &store.snapshot(),
        &Decoded::Value(Vec::new()),
        &Decoded::Value(vec![String::from("node-a")]),
    )
    .unwrap();
    assert!(observed.has_controller());
    assert!(observed.is_idle());
    assert_eq!(observed.controllers().active(), Some("controller-a"));
    assert!(observed.instances().is_live("node-a"));
    let routes = &observed.routing_results;
    assert!(routes.iter().any(|route| {
        route.resource == "documents"
            && route.partition == "documents_0"
            && route.state == "LEADER"
            && route.instances == vec![String::from("node-a")]
    }));
}

#[test]
fn live_sessions_are_revoked_and_their_states_removed() {
    let mut store = Store::new();
    let session = store.register("node-a").unwrap();
    let publication = publish_current_state(
        &namespace(),
        &instance("node-a"),
        session.session_id(),
        &ResourceId::new("documents").unwrap(),
        &one_state("documents_0", "LEADER"),
    );
    store.commit(&publication);
    let live = store.read(&namespace().live_key(&instance("node-a"))).cloned();
    let (transaction, lease) =
        revoke_live(&namespace(), &instance("node-a"), session.session_id(), live.as_ref())
            .unwrap();
    assert_eq!(lease, session.lease_id());
    let (succeeded, _) = store.commit(&transaction);
    assert_eq!(revocation_outcome(&instance("node-a"), lease, succeeded).unwrap(), Some(lease));
    assert_eq!(store.live("node-a"), None);
    assert!(matches!(
        revoke_live(&namespace(), &instance("node-a"), session.session_id(), None),
        Err(CoordinationError::StaleSession(_))
    ));

    let states = store.list(&namespace().namespaced_key("current-state/"));
    assert_eq!(states.len(), 1);
    let resource = ResourceId::new("documents").unwrap();
    for removal in remove_current_states_for_resource(&namespace(), &resource, &states) {
        assert!(store.commit(&removal).0);
    }
    assert!(store.list(&namespace().namespaced_key("current-state/")).is_empty());
    assert_eq!(store.snapshot().participants().live_instances().len(), 0);
}
