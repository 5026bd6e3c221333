//! Participant sessions and the current state fenced by them.
use crate::model::current_state::CurrentState;
use crate::model::identity::{InstanceId, PartitionId, ResourceId, SessionId};
use crate::model::replica_state;
use crate::model::replica_state::ReplicaStateError;
use crate::model::state::State;
use crate::ordered;
use crate::ordered::{Duplicate, Key, OrderedMap};
use crate::text;
use vstd::prelude::*;
use vstd::string::*;

verus! {

/// The current state of each resource.
pub type Resources = Map<Seq<char>, replica_state::Replicas>;

/// The live incarnation of one participant.
#[derive(Clone, Debug, PartialEq, Eq)]
pub struct LiveInstance {
    instance_id: InstanceId,
    session_id: SessionId,
}

impl View for LiveInstance {
    type V = (Seq<char>, u64);

    closed spec fn view(&self) -> (Seq<char>, u64) {
        (self.instance_id@, self.session_id@)
    }
}

impl DeepView for LiveInstance {
    type V = (Seq<char>, u64);

    open spec fn deep_view(&self) -> (Seq<char>, u64) {
        self@
    }
}

impl Duplicate for LiveInstance {
    fn duplicate(&self) -> (r: Self) {
        LiveInstance { instance_id: self.instance_id.duplicate(), session_id: self.session_id }
    }
}

impl LiveInstance {
    /// The incarnation of an instance.
    pub fn new(instance_id: InstanceId, session_id: SessionId) -> (r: LiveInstance)
        ensures
            r@ == (instance_id@, session_id@),
    {
        LiveInstance { instance_id, session_id }
    }

    /// Return the stable participant identity.
    pub fn instance_id(&self) -> (r: &InstanceId)
        ensures
            r@ == self@.0,
    {
        &self.instance_id
    }

    /// Return the current participant incarnation.
    pub fn session_id(&self) -> (r: SessionId)
        ensures
            r@ == self@.1,
    {
        self.session_id
    }
}

/// CurrentState records belonging to one live participant incarnation.
#[derive(Clone, Debug, PartialEq, Eq)]
pub struct ActiveCurrentState {
    session_id: SessionId,
    resources: OrderedMap<ResourceId, CurrentState>,
}

impl View for ActiveCurrentState {
    type V = (u64, Resources);

    closed spec fn view(&self) -> (u64, Resources) {
        (self.session_id@, self.resources@)
    }
}

impl DeepView for ActiveCurrentState {
    type V = (u64, Resources);

    open spec fn deep_view(&self) -> (u64, Resources) {
        self@
    }
}

impl Duplicate for ActiveCurrentState {
    fn duplicate(&self) -> (r: Self) {
        ActiveCurrentState { session_id: self.session_id, resources: self.resources.duplicate() }
    }
}

impl ActiveCurrentState {
    /// The records of one incarnation.
    pub fn new(session_id: SessionId, resources: OrderedMap<ResourceId, CurrentState>) -> (r: Self)
        ensures
            r@ == (session_id@, resources@),
    {
        ActiveCurrentState { session_id, resources }
    }

    /// Return the session that owns these active records.
    pub fn session_id(&self) -> (r: SessionId)
        ensures
            r@ == self@.0,
    {
        self.session_id
    }

    /// Return the resource-scoped CurrentState records.
    pub fn resources(&self) -> (r: &OrderedMap<ResourceId, CurrentState>)
        ensures
            r@ == self@.1,
    {
        &self.resources
    }
}

/// What a snapshot of the participants shows.
#[verifier::ext_equal]
pub struct SnapshotView {
    pub live: Map<Seq<char>, (Seq<char>, u64)>,
    pub active: Map<Seq<char>, (u64, Resources)>,
}

/// Immutable semantic view of participant liveness and active CurrentState.
#[derive(Clone, Debug, PartialEq, Eq)]
pub struct ParticipantSessionSnapshot {
    live_instances: OrderedMap<InstanceId, LiveInstance>,
    active_current_state: OrderedMap<InstanceId, ActiveCurrentState>,
}

impl View for ParticipantSessionSnapshot {
    type V = SnapshotView;

    closed spec fn view(&self) -> SnapshotView {
        SnapshotView { live: self.live_instances@, active: self.active_current_state@ }
    }
}

impl Default for ParticipantSessionSnapshot {
    fn default() -> (r: Self)
        ensures
            r@ == (SnapshotView { live: Map::empty(), active: Map::empty() }),
    {
        ParticipantSessionSnapshot {
            live_instances: OrderedMap::new(),
            active_current_state: OrderedMap::new(),
        }
    }
}

impl Duplicate for ParticipantSessionSnapshot {
    fn duplicate(&self) -> (r: Self) {
        ParticipantSessionSnapshot {
            live_instances: self.live_instances.duplicate(),
            active_current_state: self.active_current_state.duplicate(),
        }
    }
}

impl DeepView for ParticipantSessionSnapshot {
    type V = SnapshotView;

    open spec fn deep_view(&self) -> SnapshotView {
        self@
    }
}

impl ParticipantSessionSnapshot {
    /// A snapshot made of its two parts.
    pub fn from_parts(
        live_instances: OrderedMap<InstanceId, LiveInstance>,
        active_current_state: OrderedMap<InstanceId, ActiveCurrentState>,
    ) -> (r: Self)
        ensures
            r@ == (SnapshotView { live: live_instances@, active: active_current_state@ }),
    {
        ParticipantSessionSnapshot { live_instances, active_current_state }
    }

    /// Return the currently live participant incarnations.
    pub fn live_instances(&self) -> (r: &OrderedMap<InstanceId, LiveInstance>)
        ensures
            r@ == self@.live,
    {
        &self.live_instances
    }

    /// Return CurrentState selected for the currently live session of each instance.
    pub fn active_current_state(&self) -> (r: &OrderedMap<InstanceId, ActiveCurrentState>)
        ensures
            r@ == self@.active,
    {
        &self.active_current_state
    }
}

/// What the session model holds.
#[verifier::ext_equal]
pub struct SessionsView {
    /// The last session number given out.
    pub sequence: u64,
    /// The instance that each session was given to.
    pub owners: Map<u64, Seq<char>>,
    /// The live incarnation of each instance.
    pub live: Map<Seq<char>, (Seq<char>, u64)>,
    /// The records of each session of each instance.
    pub records: Map<Seq<char>, Map<u64, Resources>>,
    pub default_initial: Seq<char>,
    pub initials: Map<Seq<char>, Seq<char>>,
}

/// `m` once the replicas of `instance` are back in their initial state.
pub open spec fn reset(
    m: replica_state::Replicas,
    instance: Seq<char>,
    initial: Seq<char>,
) -> replica_state::Replicas {
    m.map_values(
        |row: Map<Seq<char>, Seq<char>>|
            if row.dom().contains(instance) {
                row.insert(instance, initial)
            } else {
                row
            },
    )
}

/// `m` once `instance` reports `states`: the partitions that it reports take
/// the new state and all else stays.
pub open spec fn merged(
    m: replica_state::Replicas,
    instance: Seq<char>,
    states: Map<Seq<char>, Seq<char>>,
) -> replica_state::Replicas {
    Map::new(
        |p: Seq<char>| m.dom().contains(p) || states.dom().contains(p),
        |p: Seq<char>|
            if states.dom().contains(p) {
                replica_state::instances_of(m, p).insert(instance, states[p])
            } else {
                m[p]
            },
    )
}

impl SessionsView {
    /// The initial state of a resource.
    pub open spec fn initial(self, resource: Seq<char>) -> Seq<char> {
        if self.initials.dom().contains(resource) {
            self.initials[resource]
        } else {
            self.default_initial
        }
    }

    /// The sessions of an instance.
    pub open spec fn sessions(self, instance: Seq<char>) -> Map<u64, Resources> {
        if self.records.dom().contains(instance) {
            self.records[instance]
        } else {
            Map::empty()
        }
    }

    /// The records of one session.
    pub open spec fn resources(self, instance: Seq<char>, session: u64) -> Resources {
        if self.sessions(instance).dom().contains(session) {
            self.sessions(instance)[session]
        } else {
            Map::empty()
        }
    }

    /// The records of the latest session of an instance.
    pub open spec fn latest(self, instance: Seq<char>) -> Resources {
        let listing = ordered::in_order::<SessionId, Resources>(self.sessions(instance));
        if listing.len() > 0 {
            listing.last().1
        } else {
            Map::empty()
        }
    }

    /// Records carried into a new session: the replicas of the instance itself
    /// start over in the initial state.
    pub open spec fn carried(self, instance: Seq<char>, previous: Resources) -> Resources {
        Map::new(
            |r: Seq<char>| previous.dom().contains(r),
            |r: Seq<char>| reset(previous[r], instance, self.initial(r)),
        )
    }

    /// The model once `instance` has a new session with `carried` records.
    pub open spec fn opened(self, instance: Seq<char>, carried: Resources) -> SessionsView {
        let session = (self.sequence + 1) as u64;
        SessionsView {
            sequence: session,
            owners: self.owners.insert(session, instance),
            live: self.live.insert(instance, (instance, session)),
            records: self.records.insert(
                instance,
                self.sessions(instance).insert(session, carried),
            ),
            ..self
        }
    }

    /// The model once a session of `instance` has recorded `states`.
    pub open spec fn stored(
        self,
        instance: Seq<char>,
        session: u64,
        resource: Seq<char>,
        states: Map<Seq<char>, Seq<char>>,
    ) -> SessionsView {
        let known = self.resources(instance, session);
        let current = if known.dom().contains(resource) {
            known[resource]
        } else {
            Map::empty()
        };
        SessionsView {
            records: self.records.insert(
                instance,
                self.sessions(instance).insert(
                    session,
                    known.insert(resource, merged(current, instance, states)),
                ),
            ),
            ..self
        }
    }

    /// Why `session` is not the live session of `instance`.
    pub open spec fn live_fault(self, instance: Seq<char>, session: u64) -> Option<SessionFault> {
        if !self.live.dom().contains(instance) {
            Some(SessionFault::NotLive(instance))
        } else if self.live[instance].1 != session {
            Some(
                SessionFault::SessionMismatch {
                    instance,
                    expected: self.live[instance].1,
                    actual: session,
                },
            )
        } else {
            None
        }
    }

    /// Why `session` was never given to `instance`.
    pub open spec fn owner_fault(self, instance: Seq<char>, session: u64) -> Option<SessionFault> {
        if !self.owners.dom().contains(session) {
            Some(SessionFault::UnknownSession(session))
        } else if self.owners[session] != instance {
            Some(
                SessionFault::SessionOwnershipMismatch {
                    instance,
                    session,
                    owner: self.owners[session],
                },
            )
        } else {
            None
        }
    }

    /// Why no session can be given out.
    pub open spec fn sequence_fault(self) -> Option<SessionFault> {
        if self.sequence == u64::MAX {
            Some(SessionFault::SessionIdExhausted)
        } else {
            None
        }
    }

    /// What a snapshot shows: of each live instance the records of its live
    /// session, and no others.
    pub open spec fn snapshot(self) -> SnapshotView {
        SnapshotView {
            live: self.live,
            active: Map::new(
                |i: Seq<char>| self.live.dom().contains(i),
                |i: Seq<char>| (self.live[i].1, self.resources(i, self.live[i].1)),
            ),
        }
    }

    /// Sessions are numbered up to the sequence, live sessions and records
    /// belong to their instance, and the live session is the latest one.
    pub open spec fn valid(self) -> bool {
        &&& forall|s: u64| #[trigger] self.owners.dom().contains(s) ==> 1 <= s <= self.sequence
        &&& forall|i: Seq<char>| #[trigger]
            self.live.dom().contains(i) ==> self.live[i].0 == i && self.owners.dom().contains(
                self.live[i].1,
            ) && self.owners[self.live[i].1] == i
        &&& forall|i: Seq<char>, s: u64| #[trigger]
            self.sessions(i).dom().contains(s) ==> self.owners.dom().contains(s)
                && self.owners[s] == i
        &&& forall|s: u64| #[trigger]
            self.owners.dom().contains(s) && self.live.dom().contains(self.owners[s]) ==> s
                <= self.live[self.owners[s]].1
    }
}

/// A new session has a number that no session had before.
pub proof fn sessions_are_fresh(v: SessionsView, instance: Seq<char>, carried: Resources)
    requires
        v.valid(),
        v.sequence < u64::MAX,
    ensures
        !v.owners.dom().contains((v.sequence + 1) as u64),
        v.opened(instance, carried).live[instance].1 == v.sequence + 1,
        forall|i: Seq<char>|
            v.live.dom().contains(i) ==> (#[trigger] v.live[i]).1 != v.opened(
                instance,
                carried,
            ).live[instance].1,
{
}

/// What is recorded under any session but the live one stays out of sight.
pub proof fn stale_records_stay_hidden(
    v: SessionsView,
    instance: Seq<char>,
    session: u64,
    resource: Seq<char>,
    states: Map<Seq<char>, Seq<char>>,
)
    requires
        v.live_fault(instance, session) is Some,
    ensures
        v.stored(instance, session, resource, states).snapshot() == v.snapshot(),
{
    let w = v.stored(instance, session, resource, states);
    assert forall|i: Seq<char>| v.live.dom().contains(i) implies w.snapshot().active[i]
        == v.snapshot().active[i] by {
        assert(w.resources(i, v.live[i].1) == v.resources(i, v.live[i].1));
    }
    assert(w.snapshot().active =~= v.snapshot().active);
}

/// What the live session reports is in sight at once, what it did not report
/// stays as it was, and no other instance is touched.
pub proof fn publication_is_visible(
    v: SessionsView,
    instance: Seq<char>,
    session: u64,
    resource: Seq<char>,
    states: Map<Seq<char>, Seq<char>>,
    partition: Seq<char>,
    other: Seq<char>,
)
    requires
        v.live_fault(instance, session) is None,
    ensures
        ({
            let before = v.snapshot();
            let after = v.stored(instance, session, resource, states).snapshot();
            &&& after.live == before.live
            &&& after.active.dom() == before.active.dom()
            &&& after.active[instance].0 == session
            &&& after.active[instance].1.dom().contains(resource)
            &&& replica_state::state_of(after.active[instance].1[resource], partition, instance)
                == if states.dom().contains(partition) {
                Some(states[partition])
            } else if before.active[instance].1.dom().contains(resource) {
                replica_state::state_of(before.active[instance].1[resource], partition, instance)
            } else {
                None
            }
            &&& other != instance && before.active.dom().contains(other) ==> after.active[other]
                == before.active[other]
        }),
{
    let w = v.stored(instance, session, resource, states);
    assert(w.snapshot().active.dom() =~= v.snapshot().active.dom());
    if other != instance && v.live.dom().contains(other) {
        assert(w.resources(other, v.live[other].1) == v.resources(other, v.live[other].1));
    }
}

/// After a reconnect the snapshot shows the new session with the partitions
/// of the old one, and every replica of the instance in its initial state.
pub proof fn reconnect_resets_replicas(
    v: SessionsView,
    instance: Seq<char>,
    session: u64,
    resource: Seq<char>,
    partition: Seq<char>,
)
    requires
        v.sequence < u64::MAX,
        v.live_fault(instance, session) is None,
        v.resources(instance, session).dom().contains(resource),
        replica_state::state_of(
            v.resources(instance, session)[resource],
            partition,
            instance,
        ) is Some,
    ensures
        ({
            let after = v.opened(
                instance,
                v.carried(instance, v.resources(instance, session)),
            ).snapshot();
            &&& after.live[instance].1 == v.sequence + 1
            &&& after.active[instance].0 == v.sequence + 1
            &&& after.active[instance].1.dom() == v.resources(instance, session).dom()
            &&& replica_state::state_of(after.active[instance].1[resource], partition, instance)
                == Some(v.initial(resource))
        }),
{
    let w = v.opened(instance, v.carried(instance, v.resources(instance, session)));
    assert(w.snapshot().active[instance].1.dom() =~= v.resources(instance, session).dom());
}

/// A disconnected instance is out of sight, and connecting again carries the
/// partitions of its latest session.
pub proof fn disconnect_keeps_records(v: SessionsView, instance: Seq<char>)
    requires
        v.live.dom().contains(instance),
    ensures
        ({
            let w = SessionsView { live: v.live.remove(instance), ..v };
            &&& !w.snapshot().live.dom().contains(instance)
            &&& !w.snapshot().active.dom().contains(instance)
            &&& w.records == v.records
            &&& w.latest(instance) == v.latest(instance)
        }),
{
}

/// Participant/session model with backend-independent session fencing.
#[derive(Debug)]
pub struct ParticipantSessionState {
    next_session_sequence: u64,
    known_sessions: OrderedMap<SessionId, InstanceId>,
    live_instances: OrderedMap<InstanceId, LiveInstance>,
    current_states: OrderedMap<
        InstanceId,
        OrderedMap<SessionId, OrderedMap<ResourceId, CurrentState>>,
    >,
    default_initial_state: State,
    resource_initial_states: OrderedMap<ResourceId, State>,
}

impl View for ParticipantSessionState {
    type V = SessionsView;

    closed spec fn view(&self) -> SessionsView {
        SessionsView {
            sequence: self.next_session_sequence,
            owners: self.known_sessions@,
            live: self.live_instances@,
            records: self.current_states@,
            default_initial: self.default_initial_state@,
            initials: self.resource_initial_states@,
        }
    }
}

impl Default for ParticipantSessionState {
    fn default() -> (r: Self)
        ensures
            r@.valid(),
            r@ == (SessionsView {
                sequence: 0,
                owners: Map::empty(),
                live: Map::empty(),
                records: Map::empty(),
                default_initial: "OFFLINE"@,
                initials: Map::empty(),
            }),
    {
        proof {
            reveal_strlit("OFFLINE");
        }
        ParticipantSessionState {
            next_session_sequence: 0,
            known_sessions: OrderedMap::new(),
            live_instances: OrderedMap::new(),
            current_states: OrderedMap::new(),
            default_initial_state: State::new("OFFLINE").unwrap(),
            resource_initial_states: OrderedMap::new(),
        }
    }
}

impl ParticipantSessionState {
    /// Create an empty participant/session model.
    pub fn new() -> (r: Self)
        ensures
            r@.valid(),
            r@ == (SessionsView {
                sequence: 0,
                owners: Map::empty(),
                live: Map::empty(),
                records: Map::empty(),
                default_initial: "OFFLINE"@,
                initials: Map::empty(),
            }),
    {
        Self::default()
    }

    /// Configure the state-model initial state for a resource.
    pub fn set_resource_initial_state(&mut self, resource_id: ResourceId, initial_state: State)
        ensures
            final(self)@ == (SessionsView {
                initials: old(self)@.initials.insert(resource_id@, initial_state@),
                ..old(self)@
            }),
            old(self)@.valid() ==> final(self)@.valid(),
    {
        let ghost before = self@;
        self.resource_initial_states.insert(resource_id, initial_state);
        proof {
            assert(forall|i: Seq<char>| #[trigger] self@.sessions(i) == before.sessions(i));
        }
    }

    /// Start a new participant incarnation.
    pub fn connect(&mut self, instance_id: InstanceId) -> (r: Result<SessionId, SessionError>)
        ensures
            match r {
                Ok(session) => !old(self)@.live.dom().contains(instance_id@) && old(
                    self,
                )@.sequence_fault() is None && session@ == old(self)@.sequence + 1 && final(self)@
                    == old(self)@.opened(
                    instance_id@,
                    old(self)@.carried(instance_id@, old(self)@.latest(instance_id@)),
                ),
                Err(error) => final(self)@ == old(self)@ && Some(error@) == if old(
                    self,
                )@.live.dom().contains(instance_id@) {
                    Some(SessionFault::AlreadyLive(instance_id@))
                } else {
                    old(self)@.sequence_fault()
                },
            },
            old(self)@.valid() ==> final(self)@.valid(),
    {
        if self.live_instances.contains_key(&instance_id) {
            return Err(SessionError::AlreadyLive(instance_id));
        }
        let carried_states = self.carried_current_states(&instance_id, None);
        self.open_session(instance_id, carried_states)
    }

    /// Gracefully remove a participant's LiveInstance while retaining its metadata.
    pub fn disconnect(&mut self, instance_id: &InstanceId, session_id: SessionId) -> (r: Result<
        (),
        SessionError,
    >)
        ensures
            match r {
                Ok(()) => old(self)@.live_fault(instance_id@, session_id@) is None && final(self)@
                    == (SessionsView { live: old(self)@.live.remove(instance_id@), ..old(self)@ }),
                Err(error) => final(self)@ == old(self)@ && old(self)@.live_fault(
                    instance_id@,
                    session_id@,
                ) == Some(error@),
            },
            old(self)@.valid() ==> final(self)@.valid(),
    {
        let ghost before = self@;
        match self.require_live_session(instance_id, session_id) {
            Err(error) => {
                return Err(error);
            },
            Ok(()) => {},
        }
        self.live_instances.remove(instance_id);
        proof {
            assert(forall|i: Seq<char>| #[trigger] self@.sessions(i) == before.sessions(i));
        }
        Ok(())
    }

    /// Replace the current incarnation after a real or modeled session expiry.
    pub fn expire_and_reconnect(
        &mut self,
        instance_id: &InstanceId,
        old_session_id: SessionId,
    ) -> (r: Result<SessionId, SessionError>)
        ensures
            match r {
                Ok(session) => old(self)@.live_fault(instance_id@, old_session_id@) is None && old(
                    self,
                )@.sequence_fault() is None && session@ == old(self)@.sequence + 1 && final(self)@
                    == old(self)@.opened(
                    instance_id@,
                    old(self)@.carried(
                        instance_id@,
                        old(self)@.resources(instance_id@, old_session_id@),
                    ),
                ),
                Err(error) => final(self)@ == old(self)@ && Some(error@) == if old(
                    self,
                )@.live_fault(instance_id@, old_session_id@) is Some {
                    old(self)@.live_fault(instance_id@, old_session_id@)
                } else {
                    old(self)@.sequence_fault()
                },
            },
            old(self)@.valid() ==> final(self)@.valid(),
    {
        match self.require_live_session(instance_id, old_session_id) {
            Err(error) => {
                return Err(error);
            },
            Ok(()) => {},
        }
        let carried_states = self.carried_current_states(instance_id, Some(old_session_id));
        self.open_session(instance_id.duplicate(), carried_states)
    }

    /// Publish CurrentState for the currently live session of an instance.
    pub fn publish_current_state(
        &mut self,
        instance_id: &InstanceId,
        session_id: SessionId,
        resource_id: ResourceId,
        states: OrderedMap<PartitionId, State>,
    ) -> (r: Result<(), SessionError>)
        ensures
            match r {
                Ok(()) => old(self)@.live_fault(instance_id@, session_id@) is None && final(self)@
                    == old(self)@.stored(instance_id@, session_id@, resource_id@, states@),
                Err(error) => final(self)@ == old(self)@ && old(self)@.live_fault(
                    instance_id@,
                    session_id@,
                ) == Some(error@),
            },
            old(self)@.valid() ==> final(self)@.valid(),
    {
        match self.require_live_session(instance_id, session_id) {
            Err(error) => {
                return Err(error);
            },
            Ok(()) => {},
        }
        self.store_current_state(instance_id, session_id, resource_id, states);
        Ok(())
    }

    /// Inject persisted CurrentState under any session previously created here.
    ///
    /// This is intentionally broader than [`Self::publish_current_state`]:
    /// stale records can be retained and remain fenced.
    pub fn inject_session_current_state(
        &mut self,
        instance_id: &InstanceId,
        session_id: SessionId,
        resource_id: ResourceId,
        states: OrderedMap<PartitionId, State>,
    ) -> (r: Result<(), SessionError>)
        ensures
            match r {
                Ok(()) => old(self)@.owner_fault(instance_id@, session_id@) is None && final(self)@
                    == old(self)@.stored(instance_id@, session_id@, resource_id@, states@),
                Err(error) => final(self)@ == old(self)@ && old(self)@.owner_fault(
                    instance_id@,
                    session_id@,
                ) == Some(error@),
            },
            old(self)@.valid() ==> final(self)@.valid(),
    {
        match self.known_sessions.get(&session_id) {
            None => {
                return Err(SessionError::UnknownSession(session_id));
            },
            Some(owner) => {
                if !owner.same(instance_id) {
                    return Err(
                        SessionError::SessionOwnershipMismatch {
                            instance_id: instance_id.duplicate(),
                            session_id,
                            owner: owner.duplicate(),
                        },
                    );
                }
            },
        }
        self.store_current_state(instance_id, session_id, resource_id, states);
        Ok(())
    }

    /// Derive the active session-aware view without exposing stale metadata.
    pub fn snapshot(&self) -> (r: ParticipantSessionSnapshot)
        ensures
            r@ == self@.snapshot(),
    {
        let mut active_current_state: OrderedMap<InstanceId, ActiveCurrentState> =
            OrderedMap::new();
        let n: usize = self.live_instances.len();
        let ghost all = self.live_instances.listing();
        let ghost expected = self@.snapshot().active;
        let mut i: usize = 0;
        while i < n
            invariant
                i <= n,
                n == all.len(),
                all == self.live_instances.listing(),
                expected == self@.snapshot().active,
                ordered::lists::<InstanceId, (Seq<char>, u64)>(all, self.live_instances@),
                forall|j: int|
                    0 <= j < i ==> active_current_state@.dom().contains((#[trigger] all[j]).0)
                        && active_current_state@[all[j].0] == expected[all[j].0],
                forall|k: Seq<char>| #[trigger]
                    active_current_state@.dom().contains(k) ==> expected.dom().contains(k),
            decreases n - i,
        {
            let ghost before = active_current_state@;
            let instance_id = self.live_instances.key_at(i);
            let session_id = self.live_instances.value_at(i).session_id();
            let resources = match self.current_states.get(instance_id) {
                Some(sessions) => match sessions.get(&session_id) {
                    Some(resources) => resources.duplicate(),
                    None => OrderedMap::new(),
                },
                None => OrderedMap::new(),
            };
            active_current_state.insert(
                instance_id.duplicate(),
                ActiveCurrentState { session_id, resources },
            );
            proof {
                assert(active_current_state@[all[i as int].0] == expected[all[i as int].0]);
                assert forall|j: int| 0 <= j < i + 1 implies active_current_state@.dom().contains(
                    (#[trigger] all[j]).0,
                ) && active_current_state@[all[j].0] == expected[all[j].0] by {
                    if j < i {
                        assert(before.dom().contains(all[j].0));
                        ordered::keys_differ::<InstanceId, (Seq<char>, u64)>(all, j, i as int);
                    }
                }
            }
            i = i + 1;
        }
        proof {
            assert forall|k: Seq<char>|
                expected.dom().contains(k) implies active_current_state@.dom().contains(k)
                && active_current_state@[k] == expected[k] by {
                let j = ordered::map_of_position(all, k);
                assert(active_current_state@.dom().contains(all[j].0));
            }
            assert(active_current_state@ =~= expected);
        }
        ParticipantSessionSnapshot {
            live_instances: self.live_instances.duplicate(),
            active_current_state,
        }
    }

    /// Give `instance_id` the next session, with `carried` records.
    fn open_session(
        &mut self,
        instance_id: InstanceId,
        carried: OrderedMap<ResourceId, CurrentState>,
    ) -> (r: Result<SessionId, SessionError>)
        ensures
            match r {
                Ok(session) => old(self)@.sequence_fault() is None && session@ == old(
                    self,
                )@.sequence + 1 && final(self)@ == old(self)@.opened(instance_id@, carried@),
                Err(error) => final(self)@ == old(self)@ && old(self)@.sequence_fault() == Some(
                    error@,
                ),
            },
            old(self)@.valid() ==> final(self)@.valid(),
    {
        let ghost before = self@;
        let session_id = match self.allocate_session(&instance_id) {
            Err(error) => {
                return Err(error);
            },
            Ok(session_id) => session_id,
        };
        self.live_instances.insert(
            instance_id.duplicate(),
            LiveInstance::new(instance_id.duplicate(), session_id),
        );
        let mut sessions = match self.current_states.remove(&instance_id) {
            Some(sessions) => sessions,
            None => OrderedMap::new(),
        };
        sessions.insert(session_id, carried);
        self.current_states.insert(instance_id, sessions);
        proof {
            let after = before.opened(instance_id@, carried@);
            assert(self@.records =~= after.records);
            assert(self@ =~= after);
            if before.valid() {
                assert forall|i: Seq<char>, s: u64| #[trigger]
                    after.sessions(i).dom().contains(s) implies after.owners.dom().contains(s)
                    && after.owners[s] == i by {
                    if s != after.sequence {
                        assert(before.sessions(i).dom().contains(s));
                    } else if i != instance_id@ {
                        assert(before.sessions(i).dom().contains(s));
                    }
                }
            }
        }
        Ok(session_id)
    }

    fn allocate_session(&mut self, instance_id: &InstanceId) -> (r: Result<
        SessionId,
        SessionError,
    >)
        ensures
            match r {
                Ok(session) => old(self)@.sequence_fault() is None && session@ == old(
                    self,
                )@.sequence + 1 && final(self)@ == (SessionsView {
                    sequence: session@,
                    owners: old(self)@.owners.insert(session@, instance_id@),
                    ..old(self)@
                }),
                Err(error) => final(self)@ == old(self)@ && old(self)@.sequence_fault() == Some(
                    error@,
                ),
            },
    {
        match self.next_session_sequence.checked_add(1) {
            None => Err(SessionError::SessionIdExhausted),
            Some(sequence) => {
                self.next_session_sequence = sequence;
                let session_id = SessionId::from_sequence(sequence);
                self.known_sessions.insert(session_id, instance_id.duplicate());
                Ok(session_id)
            },
        }
    }

    fn require_live_session(&self, instance_id: &InstanceId, session_id: SessionId) -> (r: Result<
        (),
        SessionError,
    >)
        ensures
            match r {
                Ok(()) => self@.live_fault(instance_id@, session_id@) is None,
                Err(error) => self@.live_fault(instance_id@, session_id@) == Some(error@),
            },
    {
        match self.live_instances.get(instance_id) {
            Some(live_instance) => if live_instance.session_id().same(&session_id) {
                Ok(())
            } else {
                Err(
                    SessionError::SessionMismatch {
                        instance_id: instance_id.duplicate(),
                        expected: live_instance.session_id(),
                        actual: session_id,
                    },
                )
            },
            None => Err(SessionError::NotLive(instance_id.duplicate())),
        }
    }

    fn store_current_state(
        &mut self,
        instance_id: &InstanceId,
        session_id: SessionId,
        resource_id: ResourceId,
        states: OrderedMap<PartitionId, State>,
    )
        ensures
            final(self)@ == old(self)@.stored(instance_id@, session_id@, resource_id@, states@),
            old(self)@.valid() && old(self)@.owner_fault(instance_id@, session_id@) is None
                ==> final(self)@.valid(),
    {
        let ghost before = self@;
        let mut sessions = match self.current_states.remove(instance_id) {
            Some(sessions) => sessions,
            None => OrderedMap::new(),
        };
        let mut resources = match sessions.remove(&session_id) {
            Some(resources) => resources,
            None => OrderedMap::new(),
        };
        let existing = match resources.remove(&resource_id) {
            Some(existing) => existing.into_entries(),
            None => OrderedMap::new(),
        };
        let merged_states = merge_states(existing, instance_id, &states);
        resources.insert(resource_id, CurrentState::from_entries(merged_states));
        sessions.insert(session_id, resources);
        self.current_states.insert(instance_id.duplicate(), sessions);
        proof {
            let after = before.stored(instance_id@, session_id@, resource_id@, states@);
            let known = before.resources(instance_id@, session_id@);
            let row = known.insert(resource_id@, after.resources(instance_id@, session_id@)[resource_id@]);
            assert(known.remove(resource_id@).insert(resource_id@, row[resource_id@]) =~= row);
            assert(self@.records[instance_id@] =~= after.records[instance_id@]);
            assert(self@.records =~= after.records);
            assert(self@ =~= after);
            assert forall|i: Seq<char>, s: u64| #[trigger]
                after.sessions(i).dom().contains(s) implies before.sessions(i).dom().contains(s)
                || (i == instance_id@ && s == session_id@) by {}
        }
    }

    fn carried_current_states(
        &self,
        instance_id: &InstanceId,
        previous_session_id: Option<SessionId>,
    ) -> (r: OrderedMap<ResourceId, CurrentState>)
        ensures
            r@ == self@.carried(
                instance_id@,
                match previous_session_id {
                    Some(session_id) => self@.resources(instance_id@, session_id@),
                    None => self@.latest(instance_id@),
                },
            ),
    {
        let ghost empty = Resources::empty();
        let previous_resources = match self.current_states.get(instance_id) {
            None => None,
            Some(sessions) => match previous_session_id {
                Some(session_id) => sessions.get(&session_id),
                None => {
                    let n: usize = sessions.len();
                    if n == 0 {
                        None
                    } else {
                        Some(sessions.value_at(n - 1))
                    }
                },
            },
        };
        let previous = match previous_resources {
            None => {
                let none: OrderedMap<ResourceId, CurrentState> = OrderedMap::new();
                proof {
                    let sessions = self@.sessions(instance_id@);
                    if previous_session_id is None && !self@.records.dom().contains(instance_id@) {
                        empty_listing::<SessionId, Resources>();
                    }
                    assert(none@ =~= self@.carried(instance_id@, empty));
                }
                return none;
            },
            Some(previous) => previous,
        };
        let ghost expected = self@.carried(instance_id@, previous@);
        let mut carried: OrderedMap<ResourceId, CurrentState> = OrderedMap::new();
        let n: usize = previous.len();
        let ghost all = previous.listing();
        let mut i: usize = 0;
        while i < n
            invariant
                i <= n,
                n == all.len(),
                all == previous.listing(),
                expected == self@.carried(instance_id@, previous@),
                ordered::lists::<ResourceId, replica_state::Replicas>(all, previous@),
                forall|j: int|
                    0 <= j < i ==> carried@.dom().contains((#[trigger] all[j]).0)
                        && carried@[all[j].0] == expected[all[j].0],
                forall|k: Seq<char>| #[trigger]
                    carried@.dom().contains(k) ==> expected.dom().contains(k),
            decreases n - i,
        {
            let ghost before = carried@;
            let resource_id = previous.key_at(i);
            let initial_state = match self.resource_initial_states.get(resource_id) {
                Some(state) => state,
                None => &self.default_initial_state,
            };
            let entries = reset_states(
                previous.value_at(i).entries(),
                instance_id,
                initial_state,
            );
            carried.insert(resource_id.duplicate(), CurrentState::from_entries(entries));
            proof {
                assert(carried@[all[i as int].0] == expected[all[i as int].0]);
                assert forall|j: int| 0 <= j < i + 1 implies carried@.dom().contains(
                    (#[trigger] all[j]).0,
                ) && carried@[all[j].0] == expected[all[j].0] by {
                    if j < i {
                        assert(before.dom().contains(all[j].0));
                        ordered::keys_differ::<ResourceId, replica_state::Replicas>(
                            all,
                            j,
                            i as int,
                        );
                    }
                }
            }
            i = i + 1;
        }
        proof {
            assert forall|k: Seq<char>|
                expected.dom().contains(k) implies carried@.dom().contains(k) && carried@[k]
                == expected[k] by {
                let j = ordered::map_of_position(all, k);
                assert(carried@.dom().contains(all[j].0));
            }
            assert(carried@ =~= expected);
        }
        carried
    }
}

proof fn empty_listing<K: Key, B>()
    ensures
        ordered::in_order::<K, B>(Map::empty()).len() == 0,
{
    let s = Seq::<(K::V, B)>::empty();
    assert(ordered::map_of(s) =~= Map::<K::V, B>::empty()) by {
        assert forall|k: K::V| !ordered::map_of(s).dom().contains(k) by {
            if ordered::map_of(s).dom().contains(k) {
                let i = ordered::map_of_position(s, k);
            }
        }
    }
    ordered::in_order_of_listing::<K, B>(s);
}

/// The latest session of an instance is the one with the highest number.
pub proof fn latest_session_is_highest(v: SessionsView, instance: Seq<char>, session: u64)
    requires
        v.sessions(instance).dom().contains(session),
        forall|s: u64| #[trigger] v.sessions(instance).dom().contains(s) ==> s <= session,
        v.sessions(instance).dom().finite(),
    ensures
        v.latest(instance) == v.resources(instance, session),
{
    let all = ordered::in_order::<SessionId, Resources>(v.sessions(instance));
    ordered::finite_map_is_listed::<SessionId, Resources>(v.sessions(instance));
    let i = ordered::map_of_position(all, session);
    ordered::map_of_at::<SessionId, Resources>(all, all.len() - 1);
    if i < all.len() - 1 {
        assert(SessionId::before(all[i].0, all[all.len() - 1].0));
        assert(v.sessions(instance).dom().contains(all[all.len() - 1].0));
    }
}

/// None of the first `i` entries has the key `k`.
spec fn untouched<B>(all: Seq<(Seq<char>, B)>, i: int, k: Seq<char>) -> bool {
    forall|j: int| 0 <= j < i ==> (#[trigger] all[j]).0 != k
}

/// `existing` once `instance_id` reports `states`.
fn merge_states(
    existing: OrderedMap<PartitionId, OrderedMap<InstanceId, State>>,
    instance_id: &InstanceId,
    states: &OrderedMap<PartitionId, State>,
) -> (r: OrderedMap<PartitionId, OrderedMap<InstanceId, State>>)
    ensures
        r@ == merged(existing@, instance_id@, states@),
{
    let ghost start = existing@;
    let mut out = existing;
    let n: usize = states.len();
    let ghost all = states.listing();
    let mut i: usize = 0;
    while i < n
        invariant
            i <= n,
            n == all.len(),
            all == states.listing(),
            ordered::lists::<PartitionId, Seq<char>>(all, states@),
            forall|j: int|
                0 <= j < i ==> out@.dom().contains((#[trigger] all[j]).0) && out@[all[j].0]
                    == replica_state::instances_of(start, all[j].0).insert(
                    instance_id@,
                    all[j].1,
                ),
            forall|k: Seq<char>| #[trigger]
                untouched(all, i as int, k) ==> out@.dom().contains(k) == start.dom().contains(k)
                    && (start.dom().contains(k) ==> out@[k] == start[k]),
        decreases n - i,
    {
        let ghost before = out@;
        let partition = states.key_at(i);
        proof {
            assert forall|j: int| 0 <= j < i implies (#[trigger] all[j]).0 != partition@ by {
                ordered::keys_differ::<PartitionId, Seq<char>>(all, j, i as int);
            }
            assert(untouched(all, i as int, partition@));
        }
        let mut row = match out.remove(partition) {
            Some(row) => row,
            None => OrderedMap::new(),
        };
        row.insert(instance_id.duplicate(), states.value_at(i).duplicate());
        out.insert(partition.duplicate(), row);
        proof {
            assert forall|j: int| 0 <= j < i + 1 implies out@.dom().contains((#[trigger] all[j]).0)
                && out@[all[j].0] == replica_state::instances_of(start, all[j].0).insert(
                instance_id@,
                all[j].1,
            ) by {
                if j < i {
                    ordered::keys_differ::<PartitionId, Seq<char>>(all, j, i as int);
                }
            }
            assert forall|k: Seq<char>| #[trigger] untouched(all, i + 1, k) implies out@.dom().contains(
                k,
            ) == start.dom().contains(k) && (start.dom().contains(k) ==> out@[k] == start[k]) by {
                assert(all[i as int].0 != k);
                assert(untouched(all, i as int, k));
            }
        }
        i = i + 1;
    }
    proof {
        let expected = merged(start, instance_id@, states@);
        assert forall|k: Seq<char>| #[trigger]
            out@.dom().contains(k) == expected.dom().contains(k) && (expected.dom().contains(k)
                ==> out@[k] == expected[k]) by {
            if states@.dom().contains(k) {
                let j = ordered::map_of_position(all, k);
                assert(out@.dom().contains(all[j].0));
            } else {
                assert forall|j: int| 0 <= j < n implies (#[trigger] all[j]).0 != k by {
                    ordered::map_of_at::<PartitionId, Seq<char>>(all, j);
                }
                assert(untouched(all, n as int, k));
            }
        }
        assert(out@ =~= expected);
    }
    out
}

/// The entries with every replica of `instance_id` in its initial state.
fn reset_states(
    entries: &OrderedMap<PartitionId, OrderedMap<InstanceId, State>>,
    instance_id: &InstanceId,
    initial_state: &State,
) -> (r: OrderedMap<PartitionId, OrderedMap<InstanceId, State>>)
    ensures
        r@ == reset(entries@, instance_id@, initial_state@),
{
    let ghost expected = reset(entries@, instance_id@, initial_state@);
    let mut out: OrderedMap<PartitionId, OrderedMap<InstanceId, State>> = OrderedMap::new();
    let n: usize = entries.len();
    let ghost all = entries.listing();
    let mut i: usize = 0;
    while i < n
        invariant
            i <= n,
            n == all.len(),
            all == entries.listing(),
            expected == reset(entries@, instance_id@, initial_state@),
            ordered::lists::<PartitionId, Map<Seq<char>, Seq<char>>>(all, entries@),
            forall|j: int|
                0 <= j < i ==> out@.dom().contains((#[trigger] all[j]).0) && out@[all[j].0]
                    == expected[all[j].0],
            forall|k: Seq<char>| #[trigger] out@.dom().contains(k) ==> expected.dom().contains(k),
        decreases n - i,
    {
        let ghost before = out@;
        let partition = entries.key_at(i);
        let mut row = entries.value_at(i).duplicate();
        if row.contains_key(instance_id) {
            row.insert(instance_id.duplicate(), initial_state.duplicate());
        }
        out.insert(partition.duplicate(), row);
        proof {
            assert forall|j: int| 0 <= j < i + 1 implies out@.dom().contains((#[trigger] all[j]).0)
                && out@[all[j].0] == expected[all[j].0] by {
                if j < i {
                    assert(before.dom().contains(all[j].0));
                    ordered::keys_differ::<PartitionId, Map<Seq<char>, Seq<char>>>(
                        all,
                        j,
                        i as int,
                    );
                }
            }
        }
        i = i + 1;
    }
    proof {
        assert forall|k: Seq<char>| expected.dom().contains(k) implies out@.dom().contains(k)
            && out@[k] == expected[k] by {
            let j = ordered::map_of_position(all, k);
            assert(out@.dom().contains(all[j].0));
        }
        assert(out@ =~= expected);
    }
    out
}

/// Why a session operation is refused.
pub enum SessionFault {
    AlreadyLive(Seq<char>),
    NotLive(Seq<char>),
    SessionIdExhausted,
    SessionMismatch { instance: Seq<char>, expected: u64, actual: u64 },
    SessionOwnershipMismatch { instance: Seq<char>, session: u64, owner: Seq<char> },
    UnknownSession(u64),
    CurrentState { partition: Seq<char>, instance: Seq<char> },
}

/// Errors raised by participant/session lifecycle or state publication.
#[derive(Clone, Debug, PartialEq, Eq)]
pub enum SessionError {
    AlreadyLive(InstanceId),
    NotLive(InstanceId),
    SessionIdExhausted,
    SessionMismatch { instance_id: InstanceId, expected: SessionId, actual: SessionId },
    SessionOwnershipMismatch { instance_id: InstanceId, session_id: SessionId, owner: InstanceId },
    UnknownSession(SessionId),
    CurrentState(ReplicaStateError),
}

impl View for SessionError {
    type V = SessionFault;

    open spec fn view(&self) -> SessionFault {
        match self {
            SessionError::AlreadyLive(instance) => SessionFault::AlreadyLive(instance@),
            SessionError::NotLive(instance) => SessionFault::NotLive(instance@),
            SessionError::SessionIdExhausted => SessionFault::SessionIdExhausted,
            SessionError::SessionMismatch {
                instance_id,
                expected,
                actual,
            } => SessionFault::SessionMismatch {
                instance: instance_id@,
                expected: expected@,
                actual: actual@,
            },
            SessionError::SessionOwnershipMismatch {
                instance_id,
                session_id,
                owner,
            } => SessionFault::SessionOwnershipMismatch {
                instance: instance_id@,
                session: session_id@,
                owner: owner@,
            },
            SessionError::UnknownSession(session) => SessionFault::UnknownSession(session@),
            SessionError::CurrentState(error) => SessionFault::CurrentState {
                partition: error.at_partition(),
                instance: error.at_instance(),
            },
        }
    }
}

impl SessionFault {
    /// The operator-facing message.
    pub open spec fn text(self) -> Seq<char> {
        match self {
            SessionFault::AlreadyLive(instance) => "instance "@ + instance + " is already live"@,
            SessionFault::NotLive(instance) => "instance "@ + instance + " is not live"@,
            SessionFault::SessionIdExhausted => "session identifier space exhausted"@,
            SessionFault::SessionMismatch { instance, .. } => "session does not own live instance "@
                + instance,
            SessionFault::SessionOwnershipMismatch {
                instance,
                session,
                owner,
            } => "session SessionId("@ + text::decimal(session as nat) + ") belongs to "@ + owner
                + ", not "@ + instance,
            SessionFault::UnknownSession(_) => "session is unknown to this model"@,
            SessionFault::CurrentState {
                partition,
                instance,
            } => "duplicate state for partition "@ + partition + " and instance "@ + instance,
        }
    }
}

impl SessionError {
    /// Return the operator-facing message.
    pub fn to_string(&self) -> (r: String)
        ensures
            r@ == self@.text(),
    {
        match self {
            SessionError::AlreadyLive(instance) => "instance ".to_owned().concat(
                instance.as_str(),
            ).concat(" is already live"),
            SessionError::NotLive(instance) => "instance ".to_owned().concat(
                instance.as_str(),
            ).concat(" is not live"),
            SessionError::SessionIdExhausted => "session identifier space exhausted".to_owned(),
            SessionError::SessionMismatch {
                instance_id,
                ..
            } => "session does not own live instance ".to_owned().concat(instance_id.as_str()),
            SessionError::SessionOwnershipMismatch {
                instance_id,
                session_id,
                owner,
            } => "session SessionId(".to_owned().concat(
                text::decimal_of(session_id.sequence()).as_str(),
            ).concat(") belongs to ").concat(owner.as_str()).concat(", not ").concat(
                instance_id.as_str(),
            ),
            SessionError::UnknownSession(_) => "session is unknown to this model".to_owned(),
            SessionError::CurrentState(error) => error.to_string(),
        }
    }
}

} // verus!
