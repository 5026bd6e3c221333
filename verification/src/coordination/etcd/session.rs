//! Participant sessions in the store.
use crate::coordination::etcd::error::{CoordinationError, CoordinationFault};
use crate::coordination::etcd::keys::{self, EtcdNamespace};
use crate::coordination::etcd::metadata;
use crate::coordination::etcd::store::{self, KeyValue};
use crate::model::replica_state;
use crate::model::session;
use crate::model::{
    ActiveCurrentState, CurrentState, InstanceId, LiveInstance, ParticipantSessionSnapshot,
    PartitionId, ResourceId, SessionId, State,
};
use crate::ordered::{self, Duplicate, OrderedMap};
use crate::text;
use vstd::prelude::*;
use vstd::string::*;
use vstd::utf8::*;

verus! {

/// How often a new session is tried before it counts as contended.
pub const MAX_CAS_RETRIES: u32 = 32;

/// The session that a text writes: a positive number.
pub open spec fn session_number(value: Seq<char>) -> Result<u64, CoordinationFault> {
    match text::unsigned_number(value) {
        Some(n) if 0 < n <= u64::MAX => Ok(n as u64),
        _ => Err(CoordinationFault::InvalidSession),
    }
}

/// The session that some bytes write.
pub open spec fn session_of(value: Seq<u8>) -> Result<u64, CoordinationFault> {
    if valid_utf8(value) {
        session_number(decode_utf8(value))
    } else {
        Err(CoordinationFault::InvalidSession)
    }
}

fn session_from_text(value: &str) -> (r: Result<u64, CoordinationError>)
    ensures
        match (r, session_number(value@)) {
            (Ok(n), Ok(model)) => n == model,
            (Err(error), Err(fault)) => error@ == fault,
            _ => false,
        },
{
    match text::parse_u64(value) {
        Some(n) => if n > 0 {
            Ok(n)
        } else {
            Err(CoordinationError::InvalidSession)
        },
        None => Err(CoordinationError::InvalidSession),
    }
}

/// Read a positive session number.
pub fn parse_sequence(value: &Vec<u8>) -> (r: Result<u64, CoordinationError>)
    ensures
        match (r, session_of(value@)) {
            (Ok(n), Ok(model)) => n == model,
            (Err(error), Err(fault)) => error@ == fault,
            _ => false,
        },
{
    match keys::utf8_text(keys::copy_bytes(value)) {
        Some(value) => session_from_text(value.as_str()),
        None => Err(CoordinationError::InvalidSession),
    }
}

/// Read a session identity.
pub fn parse_session(value: &Vec<u8>) -> (r: Result<SessionId, CoordinationError>)
    ensures
        match (r, session_of(value@)) {
            (Ok(session), Ok(model)) => session@ == model,
            (Err(error), Err(fault)) => error@ == fault,
            _ => false,
        },
{
    match parse_sequence(value) {
        Ok(n) => Ok(SessionId::from_sequence(n)),
        Err(error) => Err(error),
    }
}

/// A session is read back as it was written.
pub proof fn session_round_trip(session: u64)
    requires
        session > 0,
    ensures
        session_number(keys::session_key_text(session)) == Ok::<u64, CoordinationFault>(session),
        session_of(encode_utf8(keys::session_key_text(session))) == Ok::<u64, CoordinationFault>(
            session,
        ),
{
    text::decimal_round_trip(session as nat);
    encode_utf8_valid_utf8(keys::session_key_text(session));
    encode_utf8_decode_utf8(keys::session_key_text(session));
}

/// The session that the live key of an instance holds.
pub open spec fn live_of_entry(entry: Option<store::EntryView>) -> Result<
    Option<u64>,
    CoordinationFault,
> {
    match entry {
        None => Ok(None),
        Some(entry) => match session_of(entry.value) {
            Ok(session) => Ok(Some(session)),
            Err(fault) => Err(fault),
        },
    }
}

/// Read the live session of an instance from its live key.
pub fn live_session(entry: Option<&KeyValue>) -> (r: Result<Option<SessionId>, CoordinationError>)
    ensures
        match (r, live_of_entry(entry.deep_view())) {
            (Ok(session), Ok(model)) => session.deep_view() == model,
            (Err(error), Err(fault)) => error@ == fault,
            _ => false,
        },
{
    match entry {
        None => Ok(None),
        Some(entry) => match parse_session(&entry.value) {
            Ok(session) => Ok(Some(session)),
            Err(error) => Err(error),
        },
    }
}

/// The state that a stored value names.
pub open spec fn state_of_value(value: Seq<u8>) -> Result<Seq<char>, CoordinationFault> {
    if valid_utf8(value) && decode_utf8(value).len() > 0 {
        Ok(decode_utf8(value))
    } else {
        Err(CoordinationFault::InvalidValue)
    }
}

fn stored_state(value: &Vec<u8>) -> (r: Result<State, CoordinationError>)
    ensures
        match (r, state_of_value(value@)) {
            (Ok(state), Ok(model)) => state@ == model,
            (Err(error), Err(fault)) => error@ == fault,
            _ => false,
        },
{
    match metadata::stored_text(value) {
        Err(error) => Err(error),
        Ok(name) => match State::try_from(name) {
            Ok(state) => Ok(state),
            Err(_) => Err(CoordinationError::InvalidValue),
        },
    }
}

/// Read one current-state value.
pub fn current_state(entry: Option<&KeyValue>) -> (r: Result<Option<State>, CoordinationError>)
    ensures
        match r {
            Ok(None) => entry is None,
            Ok(Some(state)) => entry matches Some(e) && state_of_value(e.value@) == Ok::<
                Seq<char>,
                CoordinationFault,
            >(state@),
            Err(error) => entry matches Some(e) && state_of_value(e.value@) == Err::<
                Seq<char>,
                CoordinationFault,
            >(error@),
        },
{
    match entry {
        None => Ok(None),
        Some(entry) => match stored_state(&entry.value) {
            Ok(state) => Ok(Some(state)),
            Err(error) => Err(error),
        },
    }
}

/// The identity that a key segment names.
pub open spec fn identity_of(segment: Seq<char>) -> Result<Seq<char>, CoordinationFault> {
    match keys::text_of_segment(segment) {
        Some(value) if value.len() > 0 => Ok(value),
        _ => Err(CoordinationFault::InvalidKey),
    }
}

fn segment_identity(segment: &str) -> (r: Result<String, CoordinationError>)
    ensures
        match (r, identity_of(segment@)) {
            (Ok(value), Ok(model)) => value@ == model && value@.len() > 0,
            (Err(error), Err(fault)) => error@ == fault,
            _ => false,
        },
{
    match keys::decode_segment(segment) {
        Err(error) => Err(error),
        Ok(value) => if value.as_str().is_empty() {
            Err(CoordinationError::InvalidKey)
        } else {
            Ok(value)
        },
    }
}

/// What one entry of the namespace says of participants.
pub enum RecordView {
    /// The live session of an instance.
    Live { instance: Seq<char>, session: u64 },
    /// The state of a replica under a session.
    State {
        instance: Seq<char>,
        session: u64,
        resource: Seq<char>,
        partition: Seq<char>,
        state: Seq<char>,
    },
    /// Nothing.
    Other,
}

/// What one entry of the namespace says of participants.
pub enum ParticipantRecord {
    Live { instance: InstanceId, session: SessionId },
    State {
        instance: InstanceId,
        session: SessionId,
        resource: ResourceId,
        partition: PartitionId,
        state: State,
    },
    Other,
}

impl View for ParticipantRecord {
    type V = RecordView;

    open spec fn view(&self) -> RecordView {
        match self {
            ParticipantRecord::Live { instance, session } => RecordView::Live {
                instance: instance@,
                session: session@,
            },
            ParticipantRecord::State {
                instance,
                session,
                resource,
                partition,
                state,
            } => RecordView::State {
                instance: instance@,
                session: session@,
                resource: resource@,
                partition: partition@,
                state: state@,
            },
            ParticipantRecord::Other => RecordView::Other,
        }
    }
}

impl DeepView for ParticipantRecord {
    type V = RecordView;

    open spec fn deep_view(&self) -> RecordView {
        self@
    }
}

/// The parts of a relative key name the live key of an instance.
pub open spec fn is_live_key(parts: Seq<Seq<char>>) -> bool {
    parts.len() == 2 && parts[0] == "live"@
}

/// The parts of a relative key name the state of a replica.
pub open spec fn is_state_key(parts: Seq<Seq<char>>) -> bool {
    parts.len() == 5 && parts[0] == "current-state"@
}

/// What the parts of a relative key and a value say of participants.
pub open spec fn record_of_parts(parts: Seq<Seq<char>>, value: Seq<u8>) -> Result<
    RecordView,
    CoordinationFault,
> {
    if is_live_key(parts) {
        match (identity_of(parts[1]), session_of(value)) {
            (Err(fault), _) => Err(fault),
            (_, Err(fault)) => Err(fault),
            (Ok(instance), Ok(session)) => Ok(RecordView::Live { instance, session }),
        }
    } else if is_state_key(parts) {
        match (
            identity_of(parts[1]),
            session_number(parts[2]),
            identity_of(parts[3]),
            identity_of(parts[4]),
            state_of_value(value),
        ) {
            (Err(fault), _, _, _, _) => Err(fault),
            (_, Err(fault), _, _, _) => Err(fault),
            (_, _, Err(fault), _, _) => Err(fault),
            (_, _, _, Err(fault), _) => Err(fault),
            (_, _, _, _, Err(fault)) => Err(fault),
            (Ok(instance), Ok(session), Ok(resource), Ok(partition), Ok(state)) => Ok(
                RecordView::State { instance, session, resource, partition, state },
            ),
        }
    } else {
        Ok(RecordView::Other)
    }
}

/// What an entry says of participants.
pub open spec fn record_of(prefix: Seq<char>, entry: store::EntryView) -> Result<
    RecordView,
    CoordinationFault,
> {
    match keys::relative_of(prefix, entry.key) {
        Err(fault) => Err(fault),
        Ok(relative) => record_of_parts(text::parts_of(relative, '/'), entry.value),
    }
}

fn live_record(parts: &Vec<String>, value: &Vec<u8>) -> (r: Result<
    ParticipantRecord,
    CoordinationError,
>)
    requires
        is_live_key(parts.deep_view()),
    ensures
        match (r, record_of_parts(parts.deep_view(), value@)) {
            (Ok(record), Ok(model)) => record@ == model,
            (Err(error), Err(fault)) => error@ == fault,
            _ => false,
        },
{
    let ghost model = parts.deep_view();
    assert(model[1] == parts@[1]@);
    let instance = match segment_identity(parts[1].as_str()) {
        Ok(value) => value,
        Err(error) => {
            return Err(error);
        },
    };
    let session = match parse_session(value) {
        Ok(session) => session,
        Err(error) => {
            return Err(error);
        },
    };
    match InstanceId::try_from(instance) {
        Ok(instance) => Ok(ParticipantRecord::Live { instance, session }),
        Err(_) => Err(CoordinationError::InvalidKey),
    }
}

fn state_record(parts: &Vec<String>, value: &Vec<u8>) -> (r: Result<
    ParticipantRecord,
    CoordinationError,
>)
    requires
        is_state_key(parts.deep_view()),
        !is_live_key(parts.deep_view()),
    ensures
        match (r, record_of_parts(parts.deep_view(), value@)) {
            (Ok(record), Ok(model)) => record@ == model,
            (Err(error), Err(fault)) => error@ == fault,
            _ => false,
        },
{
    let ghost model = parts.deep_view();
    assert(model[1] == parts@[1]@ && model[2] == parts@[2]@ && model[3] == parts@[3]@ && model[4]
        == parts@[4]@);
    let instance = match segment_identity(parts[1].as_str()) {
        Ok(value) => value,
        Err(error) => {
            return Err(error);
        },
    };
    let session = match session_from_text(parts[2].as_str()) {
        Ok(session) => SessionId::from_sequence(session),
        Err(error) => {
            return Err(error);
        },
    };
    let resource = match segment_identity(parts[3].as_str()) {
        Ok(value) => value,
        Err(error) => {
            return Err(error);
        },
    };
    let partition = match segment_identity(parts[4].as_str()) {
        Ok(value) => value,
        Err(error) => {
            return Err(error);
        },
    };
    let state = match stored_state(value) {
        Ok(state) => state,
        Err(error) => {
            return Err(error);
        },
    };
    match (
        InstanceId::try_from(instance),
        ResourceId::try_from(resource),
        PartitionId::try_from(partition),
    ) {
        (Ok(instance), Ok(resource), Ok(partition)) => Ok(
            ParticipantRecord::State { instance, session, resource, partition, state },
        ),
        _ => Err(CoordinationError::InvalidKey),
    }
}

/// Read what an entry says of participants.
pub fn participant_record(namespace: &EtcdNamespace, entry: &KeyValue) -> (r: Result<
    ParticipantRecord,
    CoordinationError,
>)
    ensures
        match (r, record_of(namespace@.prefix, entry@)) {
            (Ok(record), Ok(model)) => record@ == model,
            (Err(error), Err(fault)) => error@ == fault,
            _ => false,
        },
{
    let relative = match namespace.parse_relative_key(&entry.key) {
        Ok(relative) => relative,
        Err(error) => {
            return Err(error);
        },
    };
    let parts = text::split(relative.as_str(), '/');
    assert(parts.deep_view()[0] == parts@[0]@);
    if parts.len() == 2 && text::text_eq(parts[0].as_str(), "live") {
        live_record(&parts, &entry.value)
    } else if parts.len() == 5 && text::text_eq(parts[0].as_str(), "current-state") {
        state_record(&parts, &entry.value)
    } else {
        Ok(ParticipantRecord::Other)
    }
}

/// The records of all entries, or the first fault.
pub open spec fn records_of(prefix: Seq<char>, entries: Seq<store::EntryView>) -> Result<
    Seq<RecordView>,
    CoordinationFault,
>
    decreases entries.len(),
{
    if entries.len() == 0 {
        Ok(Seq::empty())
    } else {
        match (records_of(prefix, entries.drop_last()), record_of(prefix, entries.last())) {
            (Err(fault), _) => Err(fault),
            (_, Err(fault)) => Err(fault),
            (Ok(before), Ok(record)) => Ok(before.push(record)),
        }
    }
}

proof fn records_prefix(prefix: Seq<char>, entries: Seq<store::EntryView>, i: int)
    requires
        0 <= i <= entries.len(),
        records_of(prefix, entries.take(i)) is Err,
    ensures
        records_of(prefix, entries) == records_of(prefix, entries.take(i)),
    decreases entries.len(),
{
    if i == entries.len() {
        assert(entries.take(i) =~= entries);
    } else {
        assert(entries.drop_last().take(i) =~= entries.take(i));
        records_prefix(prefix, entries.drop_last(), i);
    }
}

/// The live session of each instance: the last record of it.
pub open spec fn live_sessions(records: Seq<RecordView>) -> Map<Seq<char>, u64>
    decreases records.len(),
{
    if records.len() == 0 {
        Map::empty()
    } else {
        let before = live_sessions(records.drop_last());
        match records.last() {
            RecordView::Live { instance, session } => before.insert(instance, session),
            _ => before,
        }
    }
}

/// The recorded states of each instance under each of its sessions.
pub type SessionStates = Map<Seq<char>, Map<u64, session::Resources>>;

/// The sessions of an instance.
pub open spec fn sessions_in(m: SessionStates, instance: Seq<char>) -> Map<
    u64,
    session::Resources,
> {
    if m.dom().contains(instance) {
        m[instance]
    } else {
        Map::empty()
    }
}

/// The states under a session.
pub open spec fn resources_in(m: Map<u64, session::Resources>, session: u64) -> session::Resources {
    if m.dom().contains(session) {
        m[session]
    } else {
        Map::empty()
    }
}

/// The replicas of a resource.
pub open spec fn replicas_in(
    m: session::Resources,
    resource: Seq<char>,
) -> replica_state::Replicas {
    if m.dom().contains(resource) {
        m[resource]
    } else {
        Map::empty()
    }
}

/// The recorded states with one more.
pub open spec fn recorded(
    m: SessionStates,
    instance: Seq<char>,
    session: u64,
    resource: Seq<char>,
    partition: Seq<char>,
    state: Seq<char>,
) -> SessionStates {
    let sessions = sessions_in(m, instance);
    let resources = resources_in(sessions, session);
    m.insert(
        instance,
        sessions.insert(
            session,
            resources.insert(
                resource,
                replica_state::placed(
                    replicas_in(resources, resource),
                    partition,
                    instance,
                    state,
                ),
            ),
        ),
    )
}

/// The recorded states.
pub open spec fn session_states(records: Seq<RecordView>) -> SessionStates
    decreases records.len(),
{
    if records.len() == 0 {
        Map::empty()
    } else {
        let before = session_states(records.drop_last());
        match records.last() {
            RecordView::State { instance, session, resource, partition, state } => recorded(
                before,
                instance,
                session,
                resource,
                partition,
                state,
            ),
            _ => before,
        }
    }
}

/// The participants that records describe: the live instances, each with the
/// states recorded under its live session.
pub open spec fn participants_of(records: Seq<RecordView>) -> session::SnapshotView {
    let live = live_sessions(records);
    let states = session_states(records);
    session::SnapshotView {
        live: Map::new(|i: Seq<char>| live.dom().contains(i), |i: Seq<char>| (i, live[i])),
        active: Map::new(
            |i: Seq<char>| live.dom().contains(i),
            |i: Seq<char>| (live[i], resources_in(sessions_in(states, i), live[i])),
        ),
    }
}

/// The participants of the entries of a namespace.
pub open spec fn snapshot_of(prefix: Seq<char>, entries: Seq<store::EntryView>) -> Result<
    session::SnapshotView,
    CoordinationFault,
> {
    match records_of(prefix, entries) {
        Ok(records) => Ok(participants_of(records)),
        Err(fault) => Err(fault),
    }
}

type StatesBySession = OrderedMap<SessionId, OrderedMap<ResourceId, CurrentState>>;

fn record_state(
    states: &mut OrderedMap<InstanceId, StatesBySession>,
    instance: InstanceId,
    session: SessionId,
    resource: ResourceId,
    partition: PartitionId,
    state: State,
)
    ensures
        final(states)@ == recorded(
            old(states)@,
            instance@,
            session@,
            resource@,
            partition@,
            state@,
        ),
{
    let ghost before = states@;
    let mut sessions = match states.remove(&instance) {
        Some(sessions) => sessions,
        None => OrderedMap::new(),
    };
    assert(sessions@ == sessions_in(before, instance@));
    let ghost old_sessions = sessions@;
    let mut resources = match sessions.remove(&session) {
        Some(resources) => resources,
        None => OrderedMap::new(),
    };
    let ghost old_resources = resources@;
    assert(resources@ == resources_in(old_sessions, session@));
    let replicas = match resources.remove(&resource) {
        Some(replicas) => replicas,
        None => CurrentState::default(),
    };
    assert(replicas@ == replicas_in(old_resources, resource@));
    let replicas = replicas.with_state(partition, instance.duplicate(), state);
    resources.insert(resource, replicas);
    assert(resources@ =~= old_resources.insert(resource@, replicas@));
    sessions.insert(session, resources);
    assert(sessions@ =~= old_sessions.insert(session@, resources@));
    states.insert(instance, sessions);
    assert(states@ =~= before.insert(instance@, sessions@));
}

/// Build the active participant/session view from the entries of a namespace.
pub fn participant_snapshot_from_kvs(namespace: &EtcdNamespace, kvs: &Vec<KeyValue>) -> (r: Result<
    ParticipantSessionSnapshot,
    CoordinationError,
>)
    ensures
        match (r, snapshot_of(namespace@.prefix, kvs.deep_view())) {
            (Ok(snapshot), Ok(model)) => snapshot@ == model,
            (Err(error), Err(fault)) => error@ == fault,
            _ => false,
        },
{
    let mut live: OrderedMap<InstanceId, SessionId> = OrderedMap::new();
    let mut states: OrderedMap<InstanceId, StatesBySession> = OrderedMap::new();
    let ghost all = kvs.deep_view();
    let ghost prefix = namespace@.prefix;
    let ghost mut records: Seq<RecordView> = Seq::empty();
    assert(all.take(0) =~= Seq::empty());
    let mut i: usize = 0;
    while i < kvs.len()
        invariant
            i <= kvs@.len(),
            all == kvs.deep_view(),
            prefix == namespace@.prefix,
            records_of(prefix, all.take(i as int)) == Ok::<Seq<RecordView>, CoordinationFault>(
                records,
            ),
            live@ == live_sessions(records),
            states@ == session_states(records),
        decreases kvs@.len() - i,
    {
        proof {
            assert(all.take(i + 1).drop_last() =~= all.take(i as int));
            assert(all.take(i + 1).last() == kvs@[i as int]@);
        }
        let record = match participant_record(namespace, &kvs[i]) {
            Ok(record) => record,
            Err(error) => {
                proof {
                    records_prefix(prefix, all, i + 1);
                }
                return Err(error);
            },
        };
        proof {
            let next = records.push(record@);
            assert(next.drop_last() =~= records);
            records = next;
        }
        match record {
            ParticipantRecord::Live { instance, session } => {
                live.insert(instance, session);
            },
            ParticipantRecord::State { instance, session, resource, partition, state } => {
                record_state(&mut states, instance, session, resource, partition, state);
            },
            ParticipantRecord::Other => {},
        }
        i = i + 1;
    }
    assert(all.take(kvs@.len() as int) =~= all);
    Ok(active_participants(&live, states, Ghost(records)))
}

fn active_participants(
    live: &OrderedMap<InstanceId, SessionId>,
    states: OrderedMap<InstanceId, StatesBySession>,
    Ghost(records): Ghost<Seq<RecordView>>,
) -> (r: ParticipantSessionSnapshot)
    requires
        live@ == live_sessions(records),
        states@ == session_states(records),
    ensures
        r@ == participants_of(records),
{
    let mut states = states;
    let ghost recorded_states = states@;
    let ghost model = participants_of(records);
    let ghost listing = live.listing();
    let mut live_instances: OrderedMap<InstanceId, LiveInstance> = OrderedMap::new();
    let mut active: OrderedMap<InstanceId, ActiveCurrentState> = OrderedMap::new();
    let n: usize = live.len();
    let mut i: usize = 0;
    while i < n
        invariant
            i <= n,
            n == listing.len(),
            listing == live.listing(),
            ordered::lists::<InstanceId, u64>(listing, live@),
            live@ == live_sessions(records),
            recorded_states == session_states(records),
            model == participants_of(records),
            forall|j: int|
                i <= j < n ==> sessions_in(states@, (#[trigger] listing[j]).0) == sessions_in(
                    recorded_states,
                    listing[j].0,
                ),
            forall|k: Seq<char>| #[trigger]
                live_instances@.dom().contains(k) <==> exists|j: int|
                    0 <= j < i && (#[trigger] listing[j]).0 == k,
            forall|k: Seq<char>| #[trigger]
                active@.dom().contains(k) <==> live_instances@.dom().contains(k),
            forall|k: Seq<char>| #[trigger]
                live_instances@.dom().contains(k) ==> live_instances@[k] == model.live[k],
            forall|k: Seq<char>| #[trigger]
                active@.dom().contains(k) ==> active@[k] == model.active[k],
        decreases n - i,
    {
        let instance = live.key_at(i).duplicate();
        let session = *live.value_at(i);
        let ghost before_states = states@;
        let ghost before_live = live_instances@;
        let ghost before_active = active@;
        let resources = match states.remove(&instance) {
            Some(sessions) => {
                let mut sessions = sessions;
                match sessions.remove(&session) {
                    Some(resources) => resources,
                    None => OrderedMap::new(),
                }
            },
            None => OrderedMap::new(),
        };
        proof {
            assert(resources@ == resources_in(
                sessions_in(before_states, instance@),
                session@,
            ));
            assert(instance@ == listing[i as int].0);
            assert forall|j: int| i + 1 <= j < n implies sessions_in(
                states@,
                (#[trigger] listing[j]).0,
            ) == sessions_in(recorded_states, listing[j].0) by {
                ordered::keys_differ::<InstanceId, u64>(listing, i as int, j);
            }
            ordered::map_of_at::<InstanceId, u64>(listing, i as int);
        }
        live_instances.insert(instance.duplicate(), LiveInstance::new(instance.duplicate(), session));
        active.insert(instance, ActiveCurrentState::new(session, resources));
        proof {
            assert forall|k: Seq<char>| #[trigger]
                live_instances@.dom().contains(k) <==> exists|j: int|
                    0 <= j < i + 1 && (#[trigger] listing[j]).0 == k by {
                if before_live.dom().contains(k) {
                    let j = choose|j: int| 0 <= j < i && (#[trigger] listing[j]).0 == k;
                    assert(0 <= j < i + 1 && listing[j].0 == k);
                }
            }
        }
        i = i + 1;
    }
    proof {
        assert forall|k: Seq<char>| #[trigger]
            live@.dom().contains(k) <==> live_instances@.dom().contains(k) by {
            if live@.dom().contains(k) {
                let j = ordered::map_of_position(listing, k);
                assert(listing[j].0 == k);
            }
            if live_instances@.dom().contains(k) {
                let j = choose|j: int| 0 <= j < n && (#[trigger] listing[j]).0 == k;
                ordered::map_of_at::<InstanceId, u64>(listing, j);
            }
        }
        assert(live_instances@ =~= model.live);
        assert(active@ =~= model.active);
    }
    ParticipantSessionSnapshot::from_parts(live_instances, active)
}

/// Only the states recorded under the live session of an instance are shown.
pub proof fn only_live_sessions_are_shown(records: Seq<RecordView>, instance: Seq<char>)
    requires
        participants_of(records).active.dom().contains(instance),
    ensures
        participants_of(records).live.dom().contains(instance),
        participants_of(records).active[instance].0 == participants_of(records).live[instance].1,
        participants_of(records).active[instance].1 == resources_in(
            sessions_in(session_states(records), instance),
            participants_of(records).live[instance].1,
        ),
{
}

/// A decimal number holds no slash.
pub proof fn decimal_has_no_slash(n: nat)
    ensures
        !text::decimal(n).contains('/'),
{
    text::decimal_round_trip(n);
    if text::decimal(n).contains('/') {
        let i = text::decimal(n).index_of('/');
        assert(text::is_digit(text::decimal(n)[i]));
    }
}

/// The live key of an instance is read back as the live session that was
/// written there.
pub proof fn live_record_round_trip(
    prefix: Seq<char>,
    instance: Seq<char>,
    session: u64,
    entry: store::EntryView,
)
    requires
        instance.len() > 0,
        session > 0,
        entry.key == encode_utf8(keys::live_key_at(prefix, instance)),
        entry.value == encode_utf8(keys::session_key_text(session)),
    ensures
        record_of(prefix, entry) == Ok::<RecordView, CoordinationFault>(
            RecordView::Live { instance, session },
        ),
{
    let segment = keys::segment_of(instance);
    let suffix = "live/"@ + segment;
    reveal_strlit("live/");
    reveal_strlit("live");
    keys::relative_of_key(prefix, suffix);
    keys::segment_has_no_slash(instance);
    keys::segment_round_trip(instance);
    session_round_trip(session);
    assert(suffix =~= "live"@.push('/') + segment);
    assert(!"live"@.contains('/'));
    text::parts_of_single("live"@, '/');
    text::parts_of_join("live"@, segment, '/');
    assert(text::parts_of(suffix, '/') =~= seq!["live"@, segment]);
}

/// The state key of a replica is read back as the state that was written
/// there under the session.
pub proof fn state_record_round_trip(
    prefix: Seq<char>,
    instance: Seq<char>,
    session: u64,
    resource: Seq<char>,
    partition: Seq<char>,
    state: Seq<char>,
    entry: store::EntryView,
)
    requires
        instance.len() > 0,
        session > 0,
        resource.len() > 0,
        partition.len() > 0,
        state.len() > 0,
        entry.key == encode_utf8(
            keys::current_state_key_at(prefix, instance, session, resource, partition),
        ),
        entry.value == encode_utf8(state),
    ensures
        record_of(prefix, entry) == Ok::<RecordView, CoordinationFault>(
            RecordView::State { instance, session, resource, partition, state },
        ),
{
    let i = keys::segment_of(instance);
    let n = keys::session_key_text(session);
    let r = keys::segment_of(resource);
    let p = keys::segment_of(partition);
    reveal_strlit("current-state/");
    reveal_strlit("current-state");
    reveal_strlit("/");
    let s1 = "current-state"@.push('/') + i;
    let s2 = s1.push('/') + n;
    let s3 = s2.push('/') + r;
    let s4 = s3.push('/') + p;
    assert(keys::current_state_key_at(prefix, instance, session, resource, partition)
        =~= keys::key_at(prefix, s4));
    keys::relative_of_key(prefix, s4);
    keys::segment_has_no_slash(instance);
    keys::segment_has_no_slash(resource);
    keys::segment_has_no_slash(partition);
    decimal_has_no_slash(session as nat);
    keys::segment_round_trip(instance);
    keys::segment_round_trip(resource);
    keys::segment_round_trip(partition);
    session_round_trip(session);
    encode_utf8_valid_utf8(state);
    encode_utf8_decode_utf8(state);
    assert(!"current-state"@.contains('/'));
    text::parts_of_single("current-state"@, '/');
    text::parts_of_join("current-state"@, i, '/');
    text::parts_of_join(s1, n, '/');
    text::parts_of_join(s2, r, '/');
    text::parts_of_join(s3, p, '/');
    assert(text::parts_of(s4, '/') =~= seq!["current-state"@, i, n, r, p]);
}

} // verus!
