//! Registration of participant incarnations and the states they publish.
use crate::coordination::etcd::error::{CoordinationError, CoordinationFault};
use crate::coordination::etcd::keys::{self, EtcdNamespace};
use crate::coordination::etcd::metadata;
use crate::coordination::etcd::revision::Revision;
use crate::coordination::etcd::session;
use crate::coordination::etcd::store::{self, Condition, KeyValue, Mutation, Transaction};
use crate::model::{InstanceId, PartitionId, ResourceId, SessionId, State};
use crate::ordered::{Duplicate, OrderedMap};
use crate::text;
use crate::time::Duration;
use vstd::prelude::*;
use vstd::string::*;
use vstd::utf8::*;

verus! {

/// What registration settings say.
#[verifier::ext_equal]
pub struct RegistrationView {
    pub ttl: nat,
    pub default_initial: Seq<char>,
    pub initials: Map<Seq<char>, Seq<char>>,
}

impl RegistrationView {
    /// The state in which a carried replica of a resource begins.
    pub open spec fn initial(self, resource: Seq<char>) -> Seq<char> {
        if self.initials.dom().contains(resource) {
            self.initials[resource]
        } else {
            self.default_initial
        }
    }
}

/// Registration settings for a participant incarnation.
pub struct RegistrationOptions {
    lease_ttl: Duration,
    default_initial_state: State,
    resource_initial_states: OrderedMap<ResourceId, State>,
}

impl View for RegistrationOptions {
    type V = RegistrationView;

    closed spec fn view(&self) -> RegistrationView {
        RegistrationView {
            ttl: self.lease_ttl@,
            default_initial: self.default_initial_state@,
            initials: self.resource_initial_states@,
        }
    }
}

/// A lease can last this long: whole seconds that fit the store.
pub open spec fn lease_ttl_is_valid(ttl: nat) -> bool {
    0 < ttl / 1_000_000_000 <= i64::MAX
}

impl RegistrationOptions {
    #[verifier::type_invariant]
    spec fn inv(self) -> bool {
        lease_ttl_is_valid(self.lease_ttl@)
    }

    /// Create registration settings with the given lease TTL.
    pub fn new(lease_ttl: Duration) -> (r: Result<RegistrationOptions, CoordinationError>)
        ensures
            match r {
                Ok(options) => lease_ttl_is_valid(lease_ttl@) && options@ == (RegistrationView {
                    ttl: lease_ttl@,
                    default_initial: "OFFLINE"@,
                    initials: Map::empty(),
                }),
                Err(error) => !lease_ttl_is_valid(lease_ttl@) && error@
                    == CoordinationFault::InvalidLeaseTtl,
            },
    {
        if lease_ttl.as_secs() == 0 || lease_ttl.as_secs() > 0x7fff_ffff_ffff_ffff {
            return Err(CoordinationError::InvalidLeaseTtl);
        }
        proof {
            reveal_strlit("OFFLINE");
        }
        match State::new("OFFLINE") {
            Ok(state) => Ok(
                RegistrationOptions {
                    lease_ttl,
                    default_initial_state: state,
                    resource_initial_states: OrderedMap::new(),
                },
            ),
            Err(_) => Err(CoordinationError::InvalidLeaseTtl),
        }
    }

    /// Set the fallback state used when carrying records into a replacement session.
    pub fn with_default_initial_state(self, state: State) -> (r: RegistrationOptions)
        ensures
            r@ == (RegistrationView { default_initial: state@, ..self@ }),
    {
        proof {
            use_type_invariant(&self);
        }
        RegistrationOptions {
            lease_ttl: self.lease_ttl,
            default_initial_state: state,
            resource_initial_states: self.resource_initial_states,
        }
    }

    /// Set the state-model initial state for one resource.
    pub fn with_resource_initial_state(self, resource: ResourceId, state: State) -> (r:
        RegistrationOptions)
        ensures
            r@ == (RegistrationView {
                initials: self@.initials.insert(resource@, state@),
                ..self@
            }),
    {
        proof {
            use_type_invariant(&self);
        }
        let mut initials = self.resource_initial_states;
        initials.insert(resource, state);
        RegistrationOptions {
            lease_ttl: self.lease_ttl,
            default_initial_state: self.default_initial_state,
            resource_initial_states: initials,
        }
    }

    /// The lease TTL in whole seconds.
    pub fn ttl_seconds(&self) -> (r: i64)
        ensures
            r == self@.ttl / 1_000_000_000,
            r > 0,
    {
        proof {
            use_type_invariant(self);
        }
        self.lease_ttl.as_secs() as i64
    }

    /// The state in which a carried replica of a resource begins.
    pub fn initial_state(&self, resource: &ResourceId) -> (r: &State)
        ensures
            r@ == self@.initial(resource@),
    {
        match self.resource_initial_states.get(resource) {
            Some(state) => state,
            None => &self.default_initial_state,
        }
    }
}

/// A registered participant incarnation. The lease is private backend state.
#[derive(Debug)]
pub struct EtcdParticipantSession {
    instance_id: InstanceId,
    session_id: SessionId,
    lease_id: i64,
    registration_revision: Revision,
}

/// What a registered incarnation says.
#[verifier::ext_equal]
pub struct IncarnationView {
    pub instance: Seq<char>,
    pub session: u64,
    pub lease: i64,
    pub revision: i64,
}

impl View for EtcdParticipantSession {
    type V = IncarnationView;

    closed spec fn view(&self) -> IncarnationView {
        IncarnationView {
            instance: self.instance_id@,
            session: self.session_id@,
            lease: self.lease_id,
            revision: self.registration_revision@,
        }
    }
}

impl EtcdParticipantSession {
    /// Return the stable participant identity.
    pub fn instance_id(&self) -> (r: &InstanceId)
        ensures
            r@ == self@.instance,
    {
        &self.instance_id
    }

    /// Return the backend-independent participant incarnation identity.
    pub fn session_id(&self) -> (r: SessionId)
        ensures
            r@ == self@.session,
    {
        self.session_id
    }

    /// Return the lease of this incarnation.
    pub fn lease_id(&self) -> (r: i64)
        ensures
            r == self@.lease,
    {
        self.lease_id
    }

    /// Return the revision at which this LiveInstance was registered.
    pub fn registration_revision(&self) -> (r: Revision)
        ensures
            r@ == self@.revision,
    {
        self.registration_revision
    }

    /// Whether the live session of the instance is this one.
    pub fn is_current(&self, live: Option<SessionId>) -> (r: bool)
        ensures
            r == (live.deep_view() == Some(self@.session)),
    {
        match live {
            Some(session) => session.sequence() == self.session_id.sequence(),
            None => false,
        }
    }
}

/// What a lease keepalive came to: the response must leave the lease time to
/// live.
pub fn keep_alive_result(ttl: Option<i64>) -> (r: Result<(), CoordinationError>)
    ensures
        match r {
            Ok(()) => ttl matches Some(ttl) && ttl > 0,
            Err(error) => !(ttl matches Some(ttl) && ttl > 0) && error@
                == CoordinationFault::LeaseExpired,
        },
{
    match ttl {
        Some(ttl) => if ttl > 0 {
            Ok(())
        } else {
            Err(CoordinationError::LeaseExpired)
        },
        None => Err(CoordinationError::LeaseExpired),
    }
}

/// The session that the key of a session marker names, where it names one.
pub open spec fn marked_session(key: Seq<u8>) -> Option<u64> {
    if valid_utf8(key) {
        match session::session_number(text::parts_of(decode_utf8(key), '/').last()) {
            Ok(session) => Some(session),
            Err(_) => None,
        }
    } else {
        None
    }
}

/// The latest session that the keys of session markers name.
pub open spec fn latest_marked(entries: Seq<store::EntryView>) -> Option<u64>
    decreases entries.len(),
{
    if entries.len() == 0 {
        None
    } else {
        match (latest_marked(entries.drop_last()), marked_session(entries.last().key)) {
            (Some(a), Some(b)) => Some(
                if a < b {
                    b
                } else {
                    a
                },
            ),
            (Some(a), None) => Some(a),
            (None, b) => b,
        }
    }
}

fn session_of_marker(entry: &KeyValue) -> (r: Option<SessionId>)
    ensures
        r.deep_view() == marked_session(entry@.key),
{
    let key = match keys::utf8_text(keys::copy_bytes(&entry.key)) {
        Some(key) => key,
        None => {
            return None;
        },
    };
    let parts = text::split(key.as_str(), '/');
    let last: usize = parts.len() - 1;
    assert(parts.deep_view().last() == parts@[last as int]@);
    match session::parse_session(&text::bytes_of(parts[last].as_str())) {
        Ok(session) => {
            proof {
                encode_utf8_valid_utf8(parts@[last as int]@);
                encode_utf8_decode_utf8(parts@[last as int]@);
            }
            Some(session)
        },
        Err(_) => {
            proof {
                encode_utf8_valid_utf8(parts@[last as int]@);
                encode_utf8_decode_utf8(parts@[last as int]@);
            }
            None
        },
    }
}

/// The latest session of an instance by its session markers. Markers that
/// name no session are passed over.
pub fn latest_session(entries: &Vec<KeyValue>) -> (r: Option<SessionId>)
    ensures
        r.deep_view() == latest_marked(entries.deep_view()),
{
    let ghost all = entries.deep_view();
    let mut latest: Option<SessionId> = None;
    let mut i: usize = 0;
    assert(all.take(0) =~= Seq::empty());
    while i < entries.len()
        invariant
            i <= entries@.len(),
            all == entries.deep_view(),
            latest.deep_view() == latest_marked(all.take(i as int)),
        decreases entries@.len() - i,
    {
        proof {
            assert(all.take(i + 1).drop_last() =~= all.take(i as int));
            assert(all.take(i + 1).last() == entries@[i as int]@);
        }
        if let Some(session) = session_of_marker(&entries[i]) {
            latest = match latest {
                Some(before) => if before.sequence() < session.sequence() {
                    Some(session)
                } else {
                    Some(before)
                },
                None => Some(session),
            };
        }
        i = i + 1;
    }
    assert(all.take(entries@.len() as int) =~= all);
    latest
}

/// The latest session is one of the marked ones, and none is later.
pub proof fn latest_marked_is_highest(entries: Seq<store::EntryView>, i: int)
    requires
        0 <= i < entries.len(),
    ensures
        marked_session(entries[i].key) matches Some(session) ==> (latest_marked(
            entries,
        ) matches Some(latest) && session <= latest),
    decreases entries.len(),
{
    if i < entries.len() - 1 {
        latest_marked_is_highest(entries.drop_last(), i);
    }
}

/// A replica that a new session takes over, in the state it begins in.
pub struct CarriedView {
    pub key: Seq<char>,
    pub state: Seq<char>,
}

/// A replica that a new session takes over: its state key and the state that
/// it begins in.
pub struct CarriedState {
    pub key: String,
    pub state: State,
}

impl View for CarriedState {
    type V = CarriedView;

    open spec fn view(&self) -> CarriedView {
        CarriedView { key: self.key@, state: self.state@ }
    }
}

impl DeepView for CarriedState {
    type V = CarriedView;

    open spec fn deep_view(&self) -> CarriedView {
        self@
    }
}

/// The replica of a previous session as the new session takes it over.
pub open spec fn carried_of(
    prefix: Seq<char>,
    instance: Seq<char>,
    session: u64,
    options: RegistrationView,
    entry: store::EntryView,
) -> Result<CarriedView, CoordinationFault> {
    match keys::relative_of(prefix, entry.key) {
        Err(fault) => Err(fault),
        Ok(relative) => {
            let parts = text::parts_of(relative, '/');
            if parts.len() < 4 {
                Err(CoordinationFault::InvalidKey)
            } else {
                match session::identity_of(parts[3]) {
                    Err(fault) => Err(fault),
                    Ok(resource) => if parts.len() < 5 {
                        Err(CoordinationFault::InvalidKey)
                    } else {
                        match session::identity_of(parts[4]) {
                            Err(fault) => Err(fault),
                            Ok(partition) => Ok(
                                CarriedView {
                                    key: keys::current_state_key_at(
                                        prefix,
                                        instance,
                                        session,
                                        resource,
                                        partition,
                                    ),
                                    state: options.initial(resource),
                                },
                            ),
                        }
                    },
                }
            }
        },
    }
}

/// The replicas of a previous session as the new session takes them over, or
/// the first fault.
pub open spec fn all_carried(
    prefix: Seq<char>,
    instance: Seq<char>,
    session: u64,
    options: RegistrationView,
    entries: Seq<store::EntryView>,
) -> Result<Seq<CarriedView>, CoordinationFault>
    decreases entries.len(),
{
    if entries.len() == 0 {
        Ok(Seq::empty())
    } else {
        match (
            all_carried(prefix, instance, session, options, entries.drop_last()),
            carried_of(prefix, instance, session, options, entries.last()),
        ) {
            (Err(fault), _) => Err(fault),
            (_, Err(fault)) => Err(fault),
            (Ok(before), Ok(carried)) => Ok(before.push(carried)),
        }
    }
}

proof fn carried_prefix(
    prefix: Seq<char>,
    instance: Seq<char>,
    session: u64,
    options: RegistrationView,
    entries: Seq<store::EntryView>,
    i: int,
)
    requires
        0 <= i <= entries.len(),
        all_carried(prefix, instance, session, options, entries.take(i)) is Err,
    ensures
        all_carried(prefix, instance, session, options, entries) == all_carried(
            prefix,
            instance,
            session,
            options,
            entries.take(i),
        ),
    decreases entries.len(),
{
    if i == entries.len() {
        assert(entries.take(i) =~= entries);
    } else {
        assert(entries.drop_last().take(i) =~= entries.take(i));
        carried_prefix(prefix, instance, session, options, entries.drop_last(), i);
    }
}

fn part_identity(parts: &Vec<String>, i: usize) -> (r: Result<String, CoordinationError>)
    ensures
        match r {
            Ok(value) => i < parts@.len() && session::identity_of(parts.deep_view()[i as int])
                == Ok::<Seq<char>, CoordinationFault>(value@) && value@.len() > 0,
            Err(error) => error@ == CoordinationFault::InvalidKey && (i >= parts@.len()
                || session::identity_of(parts.deep_view()[i as int]) == Err::<
                Seq<char>,
                CoordinationFault,
            >(error@)),
        },
{
    if i >= parts.len() {
        return Err(CoordinationError::InvalidKey);
    }
    assert(parts.deep_view()[i as int] == parts@[i as int]@);
    match keys::decode_segment(parts[i].as_str()) {
        Err(error) => Err(error),
        Ok(value) => if value.as_str().is_empty() {
            Err(CoordinationError::InvalidKey)
        } else {
            Ok(value)
        },
    }
}

fn carry(
    namespace: &EtcdNamespace,
    instance: &InstanceId,
    new_session: SessionId,
    options: &RegistrationOptions,
    entry: &KeyValue,
) -> (r: Result<CarriedState, CoordinationError>)
    ensures
        match (
            r,
            carried_of(namespace@.prefix, instance@, new_session@, options@, entry@),
        ) {
            (Ok(carried), Ok(model)) => carried@ == model,
            (Err(error), Err(fault)) => error@ == fault,
            _ => false,
        },
{
    let relative = match namespace.parse_relative_key(&entry.key) {
        Ok(relative) => relative,
        Err(error) => {
            return Err(error);
        },
    };
    let parts = text::split(relative.as_str(), '/');
    let resource = match part_identity(&parts, 3) {
        Ok(resource) => resource,
        Err(error) => {
            return Err(error);
        },
    };
    let partition = match part_identity(&parts, 4) {
        Ok(partition) => partition,
        Err(error) => {
            return Err(error);
        },
    };
    match (ResourceId::try_from(resource), PartitionId::try_from(partition)) {
        (Ok(resource), Ok(partition)) => {
            let key = namespace.current_state_key(instance, new_session, &resource, &partition);
            Ok(CarriedState { key, state: options.initial_state(&resource).duplicate() })
        },
        _ => Err(CoordinationError::InvalidKey),
    }
}

/// The replicas of the previous session under the new one, each in the initial
/// state of its resource.
pub fn carried_state(
    namespace: &EtcdNamespace,
    instance: &InstanceId,
    new_session: SessionId,
    options: &RegistrationOptions,
    entries: &Vec<KeyValue>,
) -> (r: Result<Vec<CarriedState>, CoordinationError>)
    ensures
        match (
            r,
            all_carried(
                namespace@.prefix,
                instance@,
                new_session@,
                options@,
                entries.deep_view(),
            ),
        ) {
            (Ok(carried), Ok(model)) => carried.deep_view() == model,
            (Err(error), Err(fault)) => error@ == fault,
            _ => false,
        },
{
    let ghost all = entries.deep_view();
    let ghost prefix = namespace@.prefix;
    let mut out: Vec<CarriedState> = Vec::new();
    let mut i: usize = 0;
    assert(all.take(0) =~= Seq::empty());
    assert(out.deep_view() =~= Seq::empty());
    while i < entries.len()
        invariant
            i <= entries@.len(),
            all == entries.deep_view(),
            prefix == namespace@.prefix,
            all_carried(prefix, instance@, new_session@, options@, all.take(i as int)) == Ok::<
                Seq<CarriedView>,
                CoordinationFault,
            >(out.deep_view()),
        decreases entries@.len() - i,
    {
        let ghost before = out.deep_view();
        proof {
            assert(all.take(i + 1).drop_last() =~= all.take(i as int));
            assert(all.take(i + 1).last() == entries@[i as int]@);
        }
        match carry(namespace, instance, new_session, options, &entries[i]) {
            Ok(carried) => {
                let ghost model = carried@;
                out.push(carried);
                assert(out.deep_view() =~= before.push(model));
            },
            Err(error) => {
                proof {
                    carried_prefix(prefix, instance@, new_session@, options@, all, i + 1);
                }
                return Err(error);
            },
        }
        i = i + 1;
    }
    assert(all.take(entries@.len() as int) =~= all);
    Ok(out)
}

/// Write the states of carried replicas.
pub open spec fn carried_puts(carried: Seq<CarriedView>) -> Seq<store::MutationView> {
    Seq::new(
        carried.len(),
        |i: int|
            store::MutationView::Put { key: carried[i].key, value: carried[i].state, lease: None },
    )
}

/// Register a live session under a lease, with the replicas it takes over,
/// while the instance has no live session.
pub open spec fn registration_of(
    prefix: Seq<char>,
    instance: Seq<char>,
    session: u64,
    lease: i64,
    carried: Seq<CarriedView>,
) -> store::TransactionView {
    let live = keys::live_key_at(prefix, instance);
    store::TransactionView {
        conditions: seq![store::ConditionView::Version { key: live, version: 0 }],
        mutations: seq![
            store::MutationView::Put {
                key: live,
                value: keys::session_key_text(session),
                lease: Some(lease),
            },
            store::MutationView::Put {
                key: keys::session_key_at(prefix, instance, session),
                value: "active"@,
                lease: None,
            },
        ] + carried_puts(carried) + seq![metadata::marker_put(prefix)],
    }
}

/// A registration takes effect only where the instance has no live session.
pub proof fn registration_is_exclusive(
    prefix: Seq<char>,
    instance: Seq<char>,
    session: u64,
    lease: i64,
    carried: Seq<CarriedView>,
    s: store::StoreView,
)
    requires
        registration_of(prefix, instance, session, lease, carried).applies(s),
        forall|key: Seq<char>| #[trigger] s.dom().contains(key) ==> s[key].version > 0,
    ensures
        !s.dom().contains(keys::live_key_at(prefix, instance)),
{
    let t = registration_of(prefix, instance, session, lease, carried);
    assert(t.conditions[0].holds(s));
}

fn registration_transaction(
    namespace: &EtcdNamespace,
    instance: &InstanceId,
    session_id: SessionId,
    lease_id: i64,
    carried: &Vec<CarriedState>,
) -> (r: Transaction)
    ensures
        r@ == registration_of(
            namespace@.prefix,
            instance@,
            session_id@,
            lease_id,
            carried.deep_view(),
        ),
{
    let live = namespace.live_key(instance);
    let ghost wanted = registration_of(
        namespace@.prefix,
        instance@,
        session_id@,
        lease_id,
        carried.deep_view(),
    );
    let ghost puts = carried_puts(carried.deep_view());
    let mut mutations: Vec<Mutation> = Vec::new();
    mutations.push(
        Mutation::Put {
            key: live.clone(),
            value: keys::session_text(session_id),
            lease: Some(lease_id),
        },
    );
    mutations.push(
        Mutation::Put {
            key: namespace.session_key(instance, session_id),
            value: "active".to_owned(),
            lease: None,
        },
    );
    let ghost head = wanted.mutations.take(2);
    assert(mutations.deep_view() =~= head + puts.take(0));
    let mut i: usize = 0;
    while i < carried.len()
        invariant
            i <= carried@.len(),
            puts == carried_puts(carried.deep_view()),
            puts.len() == carried@.len(),
            mutations.deep_view() == head + puts.take(i as int),
        decreases carried@.len() - i,
    {
        let ghost before = mutations.deep_view();
        let put = Mutation::Put {
            key: carried[i].key.clone(),
            value: carried[i].state.to_string(),
            lease: None,
        };
        let ghost model = put@;
        mutations.push(put);
        proof {
            assert(carried.deep_view()[i as int] == carried@[i as int]@);
            assert(model == puts[i as int]);
            assert(mutations.deep_view() =~= before.push(model));
            assert(puts.take(i + 1) =~= puts.take(i as int).push(puts[i as int]));
            assert(head + puts.take(i + 1) =~= before.push(model));
        }
        i = i + 1;
    }
    assert(puts.take(carried@.len() as int) =~= puts);
    let ghost before = mutations.deep_view();
    mutations.push(metadata::authoritative_input_marker_operation(namespace));
    proof {
        let marker = metadata::marker_put(namespace@.prefix);
        assert(mutations.deep_view() =~= before.push(marker));
        assert(wanted.mutations =~= head + puts + seq![marker]);
        assert(before.push(marker) =~= head + puts + seq![marker]);
    }
    let mut conditions: Vec<Condition> = Vec::new();
    conditions.push(Condition::Version { key: live, version: 0 });
    assert(conditions.deep_view() =~= wanted.conditions);
    Transaction { conditions, mutations }
}

/// The key of the session sequence.
pub open spec fn sequence_key(prefix: Seq<char>) -> Seq<char> {
    keys::key_at(prefix, "internal/session-sequence"@)
}

/// The transaction that takes the next session number, and that number.
pub open spec fn allocation_of(prefix: Seq<char>, entry: Option<store::EntryView>) -> Result<
    (store::TransactionView, u64),
    CoordinationFault,
> {
    let key = sequence_key(prefix);
    match entry {
        None => Ok(
            (
                store::no_changes().requiring(
                    store::ConditionView::Version { key, version: 0 },
                ).changing(
                    store::MutationView::Put { key, value: text::decimal(1), lease: None },
                ),
                1,
            ),
        ),
        Some(entry) => match session::session_of(entry.value) {
            Err(fault) => Err(fault),
            Ok(current) => if current == u64::MAX {
                Err(CoordinationFault::InvalidSession)
            } else {
                Ok(
                    (
                        store::no_changes().requiring(
                            store::ConditionView::ModRevision {
                                key,
                                revision: entry.mod_revision,
                            },
                        ).changing(
                            store::MutationView::Put {
                                key,
                                value: text::decimal((current + 1) as nat),
                                lease: None,
                            },
                        ),
                        (current + 1) as u64,
                    ),
                )
            },
        },
    }
}

/// Every new session number is past the one that was stored, and it is taken
/// only while that one is still stored.
pub proof fn session_numbers_grow(prefix: Seq<char>, entry: store::EntryView)
    requires
        allocation_of(prefix, Some(entry)) is Ok,
    ensures
        session::session_of(entry.value) matches Ok(current) && allocation_of(
            prefix,
            Some(entry),
        )->Ok_0.1 == current + 1,
        allocation_of(prefix, Some(entry))->Ok_0.0.conditions.contains(
            store::ConditionView::ModRevision {
                key: sequence_key(prefix),
                revision: entry.mod_revision,
            },
        ),
{
    let t = allocation_of(prefix, Some(entry))->Ok_0.0;
    assert(t.conditions[0] == (store::ConditionView::ModRevision {
        key: sequence_key(prefix),
        revision: entry.mod_revision,
    }));
}

fn allocation(namespace: &EtcdNamespace, entry: Option<&KeyValue>) -> (r: Result<
    (Transaction, SessionId),
    CoordinationError,
>)
    ensures
        match (r, allocation_of(namespace@.prefix, entry.deep_view())) {
            (Ok(found), Ok(model)) => found.0@ == model.0 && found.1@ == model.1,
            (Err(error), Err(fault)) => error@ == fault,
            _ => false,
        },
{
    let key = namespace.namespaced_key("internal/session-sequence");
    match entry {
        None => Ok(
            (
                Transaction::new().require(
                    Condition::Version { key: key.clone(), version: 0 },
                ).change(Mutation::Put { key, value: text::decimal_of(1), lease: None }),
                SessionId::from_sequence(1),
            ),
        ),
        Some(entry) => match session::parse_sequence(&entry.value) {
            Err(error) => Err(error),
            Ok(current) => match current.checked_add(1) {
                None => Err(CoordinationError::InvalidSession),
                Some(next) => Ok(
                    (
                        Transaction::new().require(
                            Condition::ModRevision {
                                key: key.clone(),
                                revision: entry.mod_revision,
                            },
                        ).change(
                            Mutation::Put { key, value: text::decimal_of(next), lease: None },
                        ),
                        SessionId::from_sequence(next),
                    ),
                ),
            },
        },
    }
}

/// What a registration does next.
pub enum RegistrationAction {
    /// Read every entry below a prefix.
    List(String),
    /// Read the entry at a key.
    Read(String),
    /// Commit a transaction.
    Commit(Transaction),
    /// Be granted a lease of this many seconds.
    Grant(i64),
    /// Revoke the lease; then the registration has failed.
    Revoke(i64),
    /// The registration is over.
    Finish(Result<EtcdParticipantSession, CoordinationError>),
}

/// What a registration does next.
pub enum RegistrationActionView {
    List(Seq<char>),
    Read(Seq<char>),
    Commit(store::TransactionView),
    Grant(i64),
    Revoke(i64),
    Finish(Result<IncarnationView, CoordinationFault>),
}

impl View for RegistrationAction {
    type V = RegistrationActionView;

    open spec fn view(&self) -> RegistrationActionView {
        match self {
            RegistrationAction::List(key) => RegistrationActionView::List(key@),
            RegistrationAction::Read(key) => RegistrationActionView::Read(key@),
            RegistrationAction::Commit(transaction) => RegistrationActionView::Commit(transaction@),
            RegistrationAction::Grant(seconds) => RegistrationActionView::Grant(*seconds),
            RegistrationAction::Revoke(lease) => RegistrationActionView::Revoke(*lease),
            RegistrationAction::Finish(Ok(session)) => RegistrationActionView::Finish(
                Ok(session@),
            ),
            RegistrationAction::Finish(Err(error)) => RegistrationActionView::Finish(Err(error@)),
        }
    }
}

/// Where a registration stands.
pub enum RegistrationStage {
    /// The session markers of the instance are being read.
    Sessions,
    /// The session sequence is being read.
    Sequence { previous: Option<SessionId>, attempts: u32 },
    /// The next session number is being taken.
    Allocate { previous: Option<SessionId>, attempts: u32, session: SessionId },
    /// The states of the previous session are being read.
    Carried { session: SessionId },
    /// The lease is being granted.
    Grant { session: SessionId, carried: Vec<CarriedState> },
    /// The live session is being registered.
    Register { session: SessionId, lease: i64 },
    /// The lease of a lost registration is being revoked.
    Revoke,
}

/// Where a registration stands.
pub enum RegistrationStageView {
    Sessions,
    Sequence { previous: Option<u64>, attempts: u32 },
    Allocate { previous: Option<u64>, attempts: u32, session: u64 },
    Carried { session: u64 },
    Grant { session: u64, carried: Seq<CarriedView> },
    Register { session: u64, lease: i64 },
    Revoke,
}

impl View for RegistrationStage {
    type V = RegistrationStageView;

    open spec fn view(&self) -> RegistrationStageView {
        match self {
            RegistrationStage::Sessions => RegistrationStageView::Sessions,
            RegistrationStage::Sequence {
                previous,
                attempts,
            } => RegistrationStageView::Sequence {
                previous: previous.deep_view(),
                attempts: *attempts,
            },
            RegistrationStage::Allocate {
                previous,
                attempts,
                session,
            } => RegistrationStageView::Allocate {
                previous: previous.deep_view(),
                attempts: *attempts,
                session: session@,
            },
            RegistrationStage::Carried { session } => RegistrationStageView::Carried {
                session: session@,
            },
            RegistrationStage::Grant { session, carried } => RegistrationStageView::Grant {
                session: session@,
                carried: carried.deep_view(),
            },
            RegistrationStage::Register { session, lease } => RegistrationStageView::Register {
                session: session@,
                lease: *lease,
            },
            RegistrationStage::Revoke => RegistrationStageView::Revoke,
        }
    }
}

/// The registration of a participant incarnation.
pub struct RegistrationStateView {
    pub prefix: Seq<char>,
    pub instance: Seq<char>,
    pub options: RegistrationView,
    pub stage: RegistrationStageView,
}

impl RegistrationStateView {
    pub open spec fn at(self, stage: RegistrationStageView) -> RegistrationStateView {
        RegistrationStateView { stage, ..self }
    }

    pub open spec fn fail(self, fault: CoordinationFault) -> (
        RegistrationStateView,
        RegistrationActionView,
    ) {
        (self, RegistrationActionView::Finish(Err(fault)))
    }

    /// Read the session sequence.
    pub open spec fn sequence(self, previous: Option<u64>, attempts: u32) -> (
        RegistrationStateView,
        RegistrationActionView,
    ) {
        (
            self.at(RegistrationStageView::Sequence { previous, attempts }),
            RegistrationActionView::Read(sequence_key(self.prefix)),
        )
    }

    /// Be granted the lease.
    pub open spec fn grant(self, session: u64, carried: Seq<CarriedView>) -> (
        RegistrationStateView,
        RegistrationActionView,
    ) {
        (
            self.at(RegistrationStageView::Grant { session, carried }),
            RegistrationActionView::Grant((self.options.ttl / 1_000_000_000) as i64),
        )
    }

    /// What follows a read of entries.
    pub open spec fn listed(self, entries: Seq<store::EntryView>) -> (
        RegistrationStateView,
        RegistrationActionView,
    ) {
        match self.stage {
            RegistrationStageView::Carried { session } => match all_carried(
                self.prefix,
                self.instance,
                session,
                self.options,
                entries,
            ) {
                Err(fault) => self.fail(fault),
                Ok(carried) => self.grant(session, carried),
            },
            _ => self.sequence(latest_marked(entries), 0),
        }
    }

    /// What follows a read of the session sequence.
    pub open spec fn read(self, entry: Option<store::EntryView>) -> (
        RegistrationStateView,
        RegistrationActionView,
    ) {
        match self.stage {
            RegistrationStageView::Sequence { previous, attempts } => match allocation_of(
                self.prefix,
                entry,
            ) {
                Err(fault) => self.fail(fault),
                Ok((transaction, session)) => (
                    self.at(RegistrationStageView::Allocate { previous, attempts, session }),
                    RegistrationActionView::Commit(transaction),
                ),
            },
            _ => self.fail(CoordinationFault::Contention),
        }
    }

    /// What follows a committed transaction.
    pub open spec fn outcome(self, succeeded: bool, header: Option<i64>) -> (
        RegistrationStateView,
        RegistrationActionView,
    ) {
        match self.stage {
            RegistrationStageView::Allocate { previous, attempts, session } => if succeeded {
                match previous {
                    None => self.grant(session, Seq::empty()),
                    Some(previous) => (
                        self.at(RegistrationStageView::Carried { session }),
                        RegistrationActionView::List(
                            keys::current_state_prefix_at(self.prefix, self.instance, previous),
                        ),
                    ),
                }
            } else if attempts + 1 < session::MAX_CAS_RETRIES {
                self.sequence(previous, (attempts + 1) as u32)
            } else {
                self.fail(CoordinationFault::Contention)
            },
            RegistrationStageView::Register { session, lease } => if succeeded {
                match store::header_revision(header) {
                    Ok(revision) => (
                        self,
                        RegistrationActionView::Finish(
                            Ok(
                                IncarnationView {
                                    instance: self.instance,
                                    session,
                                    lease,
                                    revision,
                                },
                            ),
                        ),
                    ),
                    Err(fault) => self.fail(fault),
                }
            } else {
                (self.at(RegistrationStageView::Revoke), RegistrationActionView::Revoke(lease))
            },
            _ => self.fail(CoordinationFault::Contention),
        }
    }

    /// What follows the granted lease.
    pub open spec fn granted(self, lease: i64) -> (RegistrationStateView, RegistrationActionView) {
        match self.stage {
            RegistrationStageView::Grant { session, carried } => (
                self.at(RegistrationStageView::Register { session, lease }),
                RegistrationActionView::Commit(
                    registration_of(self.prefix, self.instance, session, lease, carried),
                ),
            ),
            _ => self.fail(CoordinationFault::Contention),
        }
    }

    /// A registration that can take a reply.
    pub open spec fn valid(self) -> bool {
        match self.stage {
            RegistrationStageView::Sequence { attempts, .. } => attempts
                < session::MAX_CAS_RETRIES,
            RegistrationStageView::Allocate { attempts, .. } => attempts
                < session::MAX_CAS_RETRIES,
            _ => true,
        }
    }
}

/// The registration of a participant incarnation: a fresh session takes over
/// the replicas of the previous one in their initial states, under a lease of
/// its own.
pub struct ParticipantRegistration {
    namespace: EtcdNamespace,
    instance_id: InstanceId,
    options: RegistrationOptions,
    stage: RegistrationStage,
}

impl View for ParticipantRegistration {
    type V = RegistrationStateView;

    closed spec fn view(&self) -> RegistrationStateView {
        RegistrationStateView {
            prefix: self.namespace@.prefix,
            instance: self.instance_id@,
            options: self.options@,
            stage: self.stage@,
        }
    }
}

impl ParticipantRegistration {
    /// Begin to register an instance: its session markers are read first.
    pub fn register(
        namespace: EtcdNamespace,
        instance_id: InstanceId,
        options: RegistrationOptions,
    ) -> (r: (ParticipantRegistration, RegistrationAction))
        ensures
            r.0@ == (RegistrationStateView {
                prefix: namespace@.prefix,
                instance: instance_id@,
                options: options@,
                stage: RegistrationStageView::Sessions,
            }),
            r.1@ == RegistrationActionView::List(
                keys::session_prefix_at(namespace@.prefix, instance_id@),
            ),
    {
        let list = namespace.session_prefix(&instance_id);
        (
            ParticipantRegistration {
                namespace,
                instance_id,
                options,
                stage: RegistrationStage::Sessions,
            },
            RegistrationAction::List(list),
        )
    }

    fn grant(&mut self, session: SessionId, carried: Vec<CarriedState>) -> (r: RegistrationAction)
        ensures
            (final(self)@, r@) == old(self)@.grant(session@, carried.deep_view()),
    {
        self.stage = RegistrationStage::Grant { session, carried };
        RegistrationAction::Grant(self.options.ttl_seconds())
    }

    fn sequence(&mut self, previous: Option<SessionId>, attempts: u32) -> (r: RegistrationAction)
        ensures
            (final(self)@, r@) == old(self)@.sequence(previous.deep_view(), attempts),
    {
        self.stage = RegistrationStage::Sequence { previous, attempts };
        RegistrationAction::Read(self.namespace.namespaced_key("internal/session-sequence"))
    }

    /// Go on with the entries that were read.
    pub fn on_entries(&mut self, entries: &Vec<KeyValue>) -> (r: RegistrationAction)
        requires
            old(self)@.stage is Sessions || old(self)@.stage is Carried,
        ensures
            (final(self)@, r@) == old(self)@.listed(entries.deep_view()),
            final(self)@.valid(),
    {
        if let RegistrationStage::Carried { session } = &self.stage {
            let session = *session;
            return match carried_state(
                &self.namespace,
                &self.instance_id,
                session,
                &self.options,
                entries,
            ) {
                Ok(carried) => self.grant(session, carried),
                Err(error) => RegistrationAction::Finish(Err(error)),
            };
        }
        self.sequence(latest_session(entries), 0)
    }

    /// Go on with the session sequence that was read.
    pub fn on_entry(&mut self, entry: Option<&KeyValue>) -> (r: RegistrationAction)
        requires
            old(self)@.stage is Sequence,
            old(self)@.valid(),
        ensures
            (final(self)@, r@) == old(self)@.read(entry.deep_view()),
            final(self)@.valid(),
    {
        if let RegistrationStage::Sequence { previous, attempts } = &self.stage {
            let previous = *previous;
            let attempts: u32 = *attempts;
            return match allocation(&self.namespace, entry) {
                Err(error) => RegistrationAction::Finish(Err(error)),
                Ok((transaction, session)) => {
                    self.stage = RegistrationStage::Allocate { previous, attempts, session };
                    RegistrationAction::Commit(transaction)
                },
            };
        }
        RegistrationAction::Finish(Err(CoordinationError::Contention))
    }

    /// Go on after a transaction was committed or refused.
    pub fn on_outcome(&mut self, succeeded: bool, header: Option<i64>) -> (r: RegistrationAction)
        requires
            old(self)@.stage is Allocate || old(self)@.stage is Register,
            old(self)@.valid(),
        ensures
            (final(self)@, r@) == old(self)@.outcome(succeeded, header),
            final(self)@.valid(),
    {
        if let RegistrationStage::Allocate { previous, attempts, session } = &self.stage {
            let previous = *previous;
            let attempts: u32 = *attempts;
            let session = *session;
            if succeeded {
                return match previous {
                    None => {
                        let carried: Vec<CarriedState> = Vec::new();
                        assert(carried.deep_view() =~= Seq::empty());
                        self.grant(session, carried)
                    },
                    Some(previous) => {
                        self.stage = RegistrationStage::Carried { session };
                        RegistrationAction::List(
                            self.namespace.current_state_session_prefix(
                                &self.instance_id,
                                previous,
                            ),
                        )
                    },
                };
            }
            if attempts + 1 < session::MAX_CAS_RETRIES {
                return self.sequence(previous, attempts + 1);
            }
            return RegistrationAction::Finish(Err(CoordinationError::Contention));
        }
        if let RegistrationStage::Register { session, lease } = &self.stage {
            let session = *session;
            let lease: i64 = *lease;
            if !succeeded {
                self.stage = RegistrationStage::Revoke;
                return RegistrationAction::Revoke(lease);
            }
            return match store::revision_from_header(header) {
                Ok(registration_revision) => RegistrationAction::Finish(
                    Ok(
                        EtcdParticipantSession {
                            instance_id: self.instance_id.duplicate(),
                            session_id: session,
                            lease_id: lease,
                            registration_revision,
                        },
                    ),
                ),
                Err(error) => RegistrationAction::Finish(Err(error)),
            };
        }
        RegistrationAction::Finish(Err(CoordinationError::Contention))
    }

    /// Go on with the lease that was granted.
    pub fn on_lease(&mut self, lease: i64) -> (r: RegistrationAction)
        requires
            old(self)@.stage is Grant,
        ensures
            (final(self)@, r@) == old(self)@.granted(lease),
            final(self)@.valid(),
    {
        if let RegistrationStage::Grant { session, carried } = &self.stage {
            let session = *session;
            let transaction = registration_transaction(
                &self.namespace,
                &self.instance_id,
                session,
                lease,
                carried,
            );
            self.stage = RegistrationStage::Register { session, lease };
            return RegistrationAction::Commit(transaction);
        }
        RegistrationAction::Finish(Err(CoordinationError::Contention))
    }

    /// The end of a registration whose lease was revoked: another incarnation
    /// was faster.
    pub fn on_revoked(&self) -> (r: RegistrationAction)
        requires
            self@.stage is Revoke,
        ensures
            r@ == RegistrationActionView::Finish(Err(CoordinationFault::RegistrationLost)),
    {
        RegistrationAction::Finish(Err(CoordinationError::RegistrationLost))
    }
}

/// A registration that succeeds has committed its live session, and it never
/// holds on to a lease that it could not use.
pub proof fn registration_ends_cleanly(
    v: RegistrationStateView,
    succeeded: bool,
    header: Option<i64>,
)
    requires
        v.stage is Register,
    ensures
        v.outcome(succeeded, header).1 matches RegistrationActionView::Finish(Ok(incarnation)) ==> {
            &&& succeeded
            &&& incarnation.lease == v.stage->Register_lease
            &&& incarnation.session == v.stage->Register_session
        },
        !succeeded ==> v.outcome(succeeded, header).1 == RegistrationActionView::Revoke(
            v.stage->Register_lease,
        ),
{
}

} // verus!
