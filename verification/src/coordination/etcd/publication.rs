//! Fenced publication of controller outputs.
use crate::controller::runtime::{self, live_sessions};
use crate::coordination::etcd::error::{CoordinationError, CoordinationFault};
use crate::coordination::etcd::keys::{self, EtcdNamespace};
use crate::coordination::etcd::metadata;
use crate::coordination::etcd::revision::Revision;
use crate::coordination::etcd::snapshot::CoordinationSnapshot;
use crate::coordination::etcd::store::{self, Condition, KeyValue, Mutation, StoreAction, Transaction};
use crate::election::authority;
use crate::election::{ControllerAuthority, ControllerCommitFence};
use crate::model::InstanceId;
use crate::ordered::{self, Duplicate, Key};
use crate::text;
use vstd::prelude::*;
use vstd::string::*;
use vstd::utf8::*;

verus! {

/// How often a controller write is tried before it counts as contended.
pub const MAX_PUBLICATION_ATTEMPTS: u32 = 32;

/// The key of the published input revision.
pub open spec fn processed_key(prefix: Seq<char>) -> Seq<char> {
    keys::metadata_key_at(prefix, "controller/output/processed-revision"@)
}

/// The key of the published external view.
pub open spec fn external_view_key(prefix: Seq<char>) -> Seq<char> {
    keys::metadata_key_at(prefix, "controller/output/external-view"@)
}

/// The key of the published transition queue.
pub open spec fn pending_key(prefix: Seq<char>) -> Seq<char> {
    keys::metadata_key_at(prefix, "controller/output/pending-transitions"@)
}

/// The key of the input marker.
pub open spec fn marker_key(prefix: Seq<char>) -> Seq<char> {
    keys::metadata_key_at(prefix, metadata::marker_name())
}

/// The key of the active controller.
pub open spec fn active_key(prefix: Seq<char>) -> Seq<char> {
    keys::key_at(prefix, "controller/election/active"@)
}

/// The input revision that was last published.
pub open spec fn published_revision(entry: Option<store::EntryView>) -> Result<
    Option<i64>,
    CoordinationFault,
> {
    match entry {
        None => Ok(None),
        Some(entry) => match metadata::value_text(entry.value) {
            Err(fault) => Err(fault),
            Ok(value) => match metadata::watermark_value(value) {
                Err(fault) => Err(fault),
                Ok(revision) => Ok(Some(revision)),
            },
        },
    }
}

/// Read the input revision that was last published.
fn read_published_revision(entry: Option<&KeyValue>) -> (r: Result<
    Option<Revision>,
    CoordinationError,
>)
    ensures
        match (r, published_revision(entry.deep_view())) {
            (Ok(revision), Ok(model)) => revision.deep_view() == model,
            (Err(error), Err(fault)) => error@ == fault,
            _ => false,
        },
{
    match entry {
        None => Ok(None),
        Some(entry) => match metadata::stored_text(&entry.value) {
            Err(error) => Err(error),
            Ok(value) => match metadata::read_watermark(value.as_str()) {
                Err(error) => Err(error),
                Ok(revision) => Ok(Some(revision)),
            },
        },
    }
}

/// The queue is still what the controller read.
pub open spec fn pending_condition(key: Seq<char>, revision: Option<i64>) -> store::ConditionView {
    match revision {
        Some(revision) => store::ConditionView::ModRevision { key, revision },
        None => store::ConditionView::Version { key, version: 0 },
    }
}

/// The condition that the queue is still what the controller read: its
/// modification revision, or that it does not exist.
pub fn pending_revision_compare(key: &str, revision: Option<Revision>) -> (r: Condition)
    ensures
        r@ == pending_condition(key@, revision.deep_view()),
{
    match revision {
        Some(revision) => Condition::ModRevision {
            key: key.to_owned(),
            revision: revision.value(),
        },
        None => Condition::Version { key: key.to_owned(), version: 0 },
    }
}

/// The queue is no longer what the controller read.
pub open spec fn pending_changed(
    expected: Option<i64>,
    entry: Option<store::EntryView>,
) -> bool {
    match (expected, entry) {
        (Some(expected), Some(entry)) => entry.mod_revision != expected,
        (None, None) => false,
        _ => true,
    }
}

/// Whether the queue is no longer what the controller read.
pub fn pending_revision_changed(expected: Option<Revision>, entry: Option<&KeyValue>) -> (r: bool)
    ensures
        r == pending_changed(expected.deep_view(), entry.deep_view()),
{
    match (expected, entry) {
        (Some(expected), Some(entry)) => entry.mod_revision != expected.value(),
        (None, None) => false,
        _ => true,
    }
}

/// The active record is that of the controller under its lease.
pub open spec fn authority_holds(
    controller: Seq<char>,
    lease: i64,
    entry: Option<store::EntryView>,
) -> bool {
    match entry {
        None => false,
        Some(entry) => entry.value == encode_utf8(controller) && entry.lease == lease,
    }
}

/// Whether the active record is that of the controller under its lease.
pub fn authority_matches(controller_id: &str, lease_id: i64, entry: Option<&KeyValue>) -> (r: bool)
    ensures
        r == authority_holds(controller_id@, lease_id, entry.deep_view()),
{
    match entry {
        None => false,
        Some(entry) => text::bytes_are(&entry.value, controller_id) && entry.lease == lease_id,
    }
}

/// The live key of each fenced session holds that session.
pub open spec fn session_conditions(
    prefix: Seq<char>,
    sessions: Seq<(Seq<char>, u64)>,
) -> Seq<store::ConditionView> {
    Seq::new(
        sessions.len(),
        |i: int|
            store::ConditionView::Value {
                key: keys::live_key_at(prefix, sessions[i].0),
                value: keys::session_key_text(sessions[i].1),
            },
    )
}

/// The fence around outputs that were computed from one input revision. Outputs
/// of another input than that of the snapshot are stale.
pub fn current_fence(
    authority: &ControllerAuthority,
    snapshot: &CoordinationSnapshot,
    processed_revision: Revision,
) -> (r: Result<ControllerCommitFence, CoordinationError>)
    ensures
        match r {
            Ok(fence) => processed_revision@ == snapshot@.authoritative && fence@
                == authority@.fence(
                snapshot@.authoritative,
                runtime::sessions_of(snapshot@.participants.live),
            ),
            Err(error) => processed_revision@ != snapshot@.authoritative && error@
                == CoordinationFault::StaleRevision,
        },
{
    if processed_revision.value() != snapshot.authoritative_revision().value() {
        return Err(CoordinationError::StaleRevision);
    }
    Ok(authority.commit_fence(snapshot.authoritative_revision(), live_sessions(snapshot)))
}

/// Where a publication stands.
#[derive(Clone, Copy)]
pub enum PublicationStage {
    /// The published revision is being read.
    Processed,
    /// The outputs are being committed.
    Commit,
    /// After a refusal: the active controller is being read.
    Authority,
    /// After a refusal: the queue is being read.
    Pending,
    /// After a refusal: the input marker is being read.
    Marker,
    /// After a refusal: the live key of a fenced session is being read.
    Live(usize),
    /// After a refusal: the published revision is being read again.
    Recheck,
}

/// A publication of controller outputs behind a fence.
pub struct PublicationView {
    pub prefix: Seq<char>,
    pub fence: authority::FenceView,
    pub external_view: Seq<char>,
    pub pending: Seq<char>,
    pub pending_revision: Option<i64>,
    pub attempts: nat,
    pub stage: PublicationStage,
}

impl PublicationView {
    /// The fenced sessions by instance.
    pub open spec fn sessions(self) -> Seq<(Seq<char>, u64)> {
        ordered::in_order::<InstanceId, u64>(self.fence.sessions)
    }

    /// The three outputs.
    pub open spec fn outputs(self) -> Seq<store::MutationView> {
        seq![
            store::MutationView::Put {
                key: external_view_key(self.prefix),
                value: self.external_view,
                lease: None,
            },
            store::MutationView::Put {
                key: pending_key(self.prefix),
                value: self.pending,
                lease: None,
            },
            store::MutationView::Put {
                key: processed_key(self.prefix),
                value: text::signed_decimal(self.fence.observed as int),
                lease: None,
            },
        ]
    }

    /// The published revision is still what was read.
    pub open spec fn processed_condition(
        self,
        entry: Option<store::EntryView>,
    ) -> store::ConditionView {
        match entry {
            Some(entry) => store::ConditionView::ModRevision {
                key: processed_key(self.prefix),
                revision: entry.mod_revision,
            },
            None => store::ConditionView::Version { key: processed_key(self.prefix), version: 0 },
        }
    }

    /// The outputs behind the fence.
    pub open spec fn transaction(self, entry: Option<store::EntryView>) -> store::TransactionView {
        let active = active_key(self.prefix);
        store::TransactionView {
            conditions: seq![
                store::ConditionView::Value { key: active, value: self.fence.controller },
                store::ConditionView::Lease { key: active, lease: self.fence.lease },
                self.processed_condition(entry),
                pending_condition(pending_key(self.prefix), self.pending_revision),
                store::ConditionView::ModRevision {
                    key: marker_key(self.prefix),
                    revision: self.fence.observed,
                },
            ] + session_conditions(self.prefix, self.sessions()),
            mutations: self.outputs(),
        }
    }

    pub open spec fn at(self, stage: PublicationStage) -> PublicationView {
        PublicationView { stage, ..self }
    }

    pub open spec fn refuse(self, fault: CoordinationFault) -> (
        PublicationView,
        store::ActionView<i64>,
    ) {
        (self, store::ActionView::Finish(Err(fault)))
    }

    /// Read the live key of the fenced session at `i`, or the published
    /// revision when there is none left.
    pub open spec fn check_session(self, i: nat) -> (PublicationView, store::ActionView<i64>) {
        if i < self.sessions().len() {
            (
                self.at(PublicationStage::Live(i as usize)),
                store::ActionView::Read(
                    keys::live_key_at(self.prefix, self.sessions()[i as int].0),
                ),
            )
        } else {
            (
                self.at(PublicationStage::Recheck),
                store::ActionView::Read(processed_key(self.prefix)),
            )
        }
    }

    /// What follows a read.
    pub open spec fn read(self, entry: Option<store::EntryView>) -> (
        PublicationView,
        store::ActionView<i64>,
    ) {
        match self.stage {
            PublicationStage::Processed => match published_revision(entry) {
                Err(fault) => self.refuse(fault),
                Ok(Some(current)) if current > self.fence.observed => self.refuse(
                    CoordinationFault::StaleRevision,
                ),
                Ok(_) => (
                    self.at(PublicationStage::Commit),
                    store::ActionView::Commit(self.transaction(entry)),
                ),
            },
            PublicationStage::Authority => if authority_holds(
                self.fence.controller,
                self.fence.lease,
                entry,
            ) {
                (
                    self.at(PublicationStage::Pending),
                    store::ActionView::Read(pending_key(self.prefix)),
                )
            } else {
                self.refuse(CoordinationFault::StaleController)
            },
            PublicationStage::Pending => if pending_changed(self.pending_revision, entry) {
                self.refuse(CoordinationFault::StaleRevision)
            } else {
                (
                    self.at(PublicationStage::Marker),
                    store::ActionView::Read(marker_key(self.prefix)),
                )
            },
            PublicationStage::Marker => match entry {
                Some(entry) if entry.mod_revision == self.fence.observed => self.check_session(0),
                _ => self.refuse(CoordinationFault::StaleRevision),
            },
            PublicationStage::Live(i) => match entry {
                Some(entry) if entry.value == encode_utf8(
                    keys::session_key_text(self.sessions()[i as int].1),
                ) => self.check_session((i + 1) as nat),
                _ => self.refuse(CoordinationFault::StaleRevision),
            },
            PublicationStage::Recheck => match published_revision(entry) {
                Err(fault) => self.refuse(fault),
                Ok(Some(current)) if current > self.fence.observed => self.refuse(
                    CoordinationFault::StaleRevision,
                ),
                Ok(_) => {
                    let next = PublicationView {
                        attempts: self.attempts + 1,
                        stage: PublicationStage::Processed,
                        ..self
                    };
                    if next.attempts < MAX_PUBLICATION_ATTEMPTS {
                        (next, store::ActionView::Read(processed_key(self.prefix)))
                    } else {
                        next.refuse(CoordinationFault::Contention)
                    }
                },
            },
            PublicationStage::Commit => self.refuse(CoordinationFault::Contention),
        }
    }

    /// What follows the committed transaction.
    pub open spec fn outcome(self, succeeded: bool, header: Option<i64>) -> (
        PublicationView,
        store::ActionView<i64>,
    ) {
        if succeeded {
            (self, store::ActionView::Finish(store::header_revision(header)))
        } else {
            (
                self.at(PublicationStage::Authority),
                store::ActionView::Read(active_key(self.prefix)),
            )
        }
    }

    /// A publication that can take a reply.
    pub open spec fn valid(self) -> bool {
        &&& self.attempts < MAX_PUBLICATION_ATTEMPTS
        &&& self.stage matches PublicationStage::Live(i) ==> i < self.sessions().len()
    }
}

/// A publication takes effect only where the fence still holds: its
/// controller is active under its lease, no input came since the observed
/// revision, and every fenced session is still live. It writes the three
/// outputs and nothing else.
pub proof fn publication_is_fenced(
    v: PublicationView,
    entry: Option<store::EntryView>,
    store: store::StoreView,
)
    requires
        v.fence.observed > 0,
        v.fence.sessions.dom().finite(),
        v.transaction(entry).applies(store),
    ensures
        ({
            let active = active_key(v.prefix);
            let marker = marker_key(v.prefix);
            &&& store.dom().contains(active)
            &&& store[active].value == encode_utf8(v.fence.controller)
            &&& store[active].lease == v.fence.lease
            &&& store.dom().contains(marker)
            &&& store[marker].mod_revision == v.fence.observed
        }),
        forall|i: Seq<char>| #[trigger]
            v.fence.sessions.dom().contains(i) ==> {
                let live = keys::live_key_at(v.prefix, i);
                store.dom().contains(live) && store[live].value == encode_utf8(
                    keys::session_key_text(v.fence.sessions[i]),
                )
            },
        forall|key: Seq<char>| #[trigger]
            v.transaction(entry).touches(key) ==> key == external_view_key(v.prefix) || key
                == pending_key(v.prefix) || key == processed_key(v.prefix),
{
    let t = v.transaction(entry);
    let sessions = v.sessions();
    assert(t.conditions[0].holds(store));
    assert(t.conditions[1].holds(store));
    assert(t.conditions[4].holds(store));
    ordered::finite_map_is_listed::<InstanceId, u64>(v.fence.sessions);
    assert forall|i: Seq<char>| #[trigger] v.fence.sessions.dom().contains(i) implies {
        let live = keys::live_key_at(v.prefix, i);
        store.dom().contains(live) && store[live].value == encode_utf8(
            keys::session_key_text(v.fence.sessions[i]),
        )
    } by {
        let k = ordered::map_of_position(sessions, i);
        ordered::map_of_at::<InstanceId, u64>(sessions, k);
        assert(t.conditions[5 + k] == session_conditions(v.prefix, sessions)[k]);
        assert(t.conditions[5 + k].holds(store));
    }
    assert forall|key: Seq<char>| #[trigger] t.touches(key) implies key == external_view_key(
        v.prefix,
    ) || key == pending_key(v.prefix) || key == processed_key(v.prefix) by {
        let i = choose|i: int| 0 <= i < t.mutations.len() && #[trigger] t.mutations[i].key() == key;
        assert(i == 0 || i == 1 || i == 2);
    }
}

/// Published input revisions never go back: outputs are committed only where
/// the published revision is not past the observed one, and has not changed
/// since it was read.
pub proof fn published_revision_never_regresses(
    v: PublicationView,
    entry: Option<store::EntryView>,
)
    requires
        v.stage is Processed,
        v.read(entry).1 is Commit,
    ensures
        published_revision(entry) matches Ok(current) && (current matches Some(c) ==> c
            <= v.fence.observed),
        v.read(entry).1->Commit_0.conditions.contains(v.processed_condition(entry)),
{
    let t = v.transaction(entry);
    assert(t.conditions[2] == v.processed_condition(entry));
}

/// A publication of controller outputs behind a fence.
pub struct OutputPublication {
    namespace: EtcdNamespace,
    fence: ControllerCommitFence,
    external_view: String,
    pending: String,
    pending_revision: Option<Revision>,
    attempts: u32,
    stage: PublicationStage,
}

impl View for OutputPublication {
    type V = PublicationView;

    closed spec fn view(&self) -> PublicationView {
        PublicationView {
            prefix: self.namespace@.prefix,
            fence: self.fence@,
            external_view: self.external_view@,
            pending: self.pending@,
            pending_revision: self.pending_revision.deep_view(),
            attempts: self.attempts as nat,
            stage: self.stage,
        }
    }
}

impl OutputPublication {
    /// Begin to publish the external view, the transition queue, and the input
    /// revision they represent. A fence of another namespace is refused.
    pub fn publish_controller_outputs(
        namespace: EtcdNamespace,
        fence: ControllerCommitFence,
        external_view: String,
        pending_transitions: String,
        pending_revision: Option<Revision>,
    ) -> (r: (OutputPublication, StoreAction<Revision>))
        ensures
            r.0@ == (PublicationView {
                prefix: namespace@.prefix,
                fence: fence@,
                external_view: external_view@,
                pending: pending_transitions@,
                pending_revision: pending_revision.deep_view(),
                attempts: 0,
                stage: PublicationStage::Processed,
            }),
            r.0@.valid(),
            r.1@ == if fence@.namespace != namespace@.prefix {
                store::ActionView::<i64>::Finish(Err(CoordinationFault::StaleController))
            } else {
                store::ActionView::Read(processed_key(namespace@.prefix))
            },
    {
        let stale = !text::text_eq(fence.namespace(), namespace.namespace());
        let read = namespace.metadata_key("controller/output/processed-revision");
        let publication = OutputPublication {
            namespace,
            fence,
            external_view,
            pending: pending_transitions,
            pending_revision,
            attempts: 0,
            stage: PublicationStage::Processed,
        };
        if stale {
            (publication, StoreAction::Finish(Err(CoordinationError::StaleController)))
        } else {
            (publication, StoreAction::Read(read))
        }
    }

    fn outputs(&self) -> (r: Vec<Mutation>)
        ensures
            r.deep_view() == self@.outputs(),
    {
        let mut r: Vec<Mutation> = Vec::new();
        r.push(
            Mutation::Put {
                key: self.namespace.metadata_key("controller/output/external-view"),
                value: self.external_view.clone(),
                lease: None,
            },
        );
        r.push(
            Mutation::Put {
                key: self.namespace.metadata_key("controller/output/pending-transitions"),
                value: self.pending.clone(),
                lease: None,
            },
        );
        r.push(
            Mutation::Put {
                key: self.namespace.metadata_key("controller/output/processed-revision"),
                value: text::signed_decimal_of(self.fence.observed_revision().value()),
                lease: None,
            },
        );
        assert(r.deep_view() =~= self@.outputs());
        r
    }

    fn transaction(&self, entry: Option<&KeyValue>) -> (r: Transaction)
        ensures
            r@ == self@.transaction(entry.deep_view()),
    {
        let active = self.namespace.controller_active_key();
        let processed = self.namespace.metadata_key("controller/output/processed-revision");
        let pending = self.namespace.metadata_key("controller/output/pending-transitions");
        let mut conditions: Vec<Condition> = Vec::new();
        conditions.push(
            Condition::Value { key: active.clone(), value: self.fence.controller_id().to_owned() },
        );
        conditions.push(Condition::Lease { key: active, lease: self.fence.lease_id() });
        conditions.push(
            match entry {
                Some(entry) => Condition::ModRevision {
                    key: processed,
                    revision: entry.mod_revision,
                },
                None => Condition::Version { key: processed, version: 0 },
            },
        );
        conditions.push(pending_revision_compare(pending.as_str(), self.pending_revision));
        conditions.push(
            Condition::ModRevision {
                key: self.namespace.metadata_key("internal/authoritative-input"),
                revision: self.fence.observed_revision().value(),
            },
        );
        let ghost fixed = self@.transaction(entry.deep_view()).conditions.take(5);
        let sessions = self.fence.live_sessions();
        let ghost listed = self@.sessions();
        let ghost wanted = session_conditions(self@.prefix, listed);
        assert(conditions.deep_view() =~= fixed + wanted.take(0));
        let mut i: usize = 0;
        while i < sessions.len()
            invariant
                i <= listed.len(),
                listed == sessions.listing(),
                wanted == session_conditions(self@.prefix, listed),
                conditions.deep_view() == fixed + wanted.take(i as int),
            decreases listed.len() - i,
        {
            let ghost before = conditions.deep_view();
            let condition = Condition::Value {
                key: self.namespace.live_key(sessions.key_at(i)),
                value: keys::session_text(*sessions.value_at(i)),
            };
            conditions.push(condition);
            proof {
                assert(conditions.deep_view() =~= before.push(condition@));
                assert(condition@ == wanted[i as int]);
                assert(wanted.take(i + 1) =~= wanted.take(i as int).push(wanted[i as int]));
                assert(fixed + wanted.take(i + 1) =~= before.push(condition@));
            }
            i = i + 1;
        }
        assert(wanted.take(listed.len() as int) =~= wanted);
        assert(self@.transaction(entry.deep_view()).conditions =~= fixed + wanted);
        Transaction { conditions, mutations: self.outputs() }
    }

    fn check_session(&mut self, i: usize) -> (r: StoreAction<Revision>)
        requires
            i <= old(self)@.sessions().len(),
        ensures
            (final(self)@, r@) == old(self)@.check_session(i as nat),
    {
        let n: usize = self.fence.live_sessions().len();
        if i < n {
            self.stage = PublicationStage::Live(i);
            StoreAction::Read(self.namespace.live_key(self.fence.live_sessions().key_at(i)))
        } else {
            self.stage = PublicationStage::Recheck;
            StoreAction::Read(self.namespace.metadata_key("controller/output/processed-revision"))
        }
    }

    /// Go on with the entry that was read.
    pub fn on_entry(&mut self, entry: Option<&KeyValue>) -> (r: StoreAction<Revision>)
        requires
            old(self)@.stage !is Commit,
            old(self)@.valid(),
        ensures
            (final(self)@, r@) == old(self)@.read(entry.deep_view()),
            r@ !is Finish ==> final(self)@.valid(),
    {
        match self.stage {
            PublicationStage::Processed => {
                match read_published_revision(entry) {
                    Err(error) => StoreAction::Finish(Err(error)),
                    Ok(current) => {
                        if let Some(current) = current {
                            if self.fence.observed_revision().is_before(&current) {
                                return StoreAction::Finish(Err(CoordinationError::StaleRevision));
                            }
                        }
                        self.stage = PublicationStage::Commit;
                        StoreAction::Commit(self.transaction(entry))
                    },
                }
            },
            PublicationStage::Authority => {
                if authority_matches(self.fence.controller_id(), self.fence.lease_id(), entry) {
                    self.stage = PublicationStage::Pending;
                    StoreAction::Read(
                        self.namespace.metadata_key("controller/output/pending-transitions"),
                    )
                } else {
                    StoreAction::Finish(Err(CoordinationError::StaleController))
                }
            },
            PublicationStage::Pending => {
                if pending_revision_changed(self.pending_revision, entry) {
                    StoreAction::Finish(Err(CoordinationError::StaleRevision))
                } else {
                    self.stage = PublicationStage::Marker;
                    StoreAction::Read(self.namespace.metadata_key("internal/authoritative-input"))
                }
            },
            PublicationStage::Marker => {
                match entry {
                    Some(entry) => if entry.mod_revision == self.fence.observed_revision().value() {
                        self.check_session(0)
                    } else {
                        StoreAction::Finish(Err(CoordinationError::StaleRevision))
                    },
                    None => StoreAction::Finish(Err(CoordinationError::StaleRevision)),
                }
            },
            PublicationStage::Live(i) => {
                let session = *self.fence.live_sessions().value_at(i);
                match entry {
                    Some(entry) => if text::bytes_are(
                        &entry.value,
                        keys::session_text(session).as_str(),
                    ) {
                        let count: usize = self.fence.live_sessions().len();
                        assert(i < count);
                        self.check_session(i + 1)
                    } else {
                        StoreAction::Finish(Err(CoordinationError::StaleRevision))
                    },
                    None => StoreAction::Finish(Err(CoordinationError::StaleRevision)),
                }
            },
            PublicationStage::Recheck => {
                match read_published_revision(entry) {
                    Err(error) => StoreAction::Finish(Err(error)),
                    Ok(current) => {
                        if let Some(current) = current {
                            if self.fence.observed_revision().is_before(&current) {
                                return StoreAction::Finish(Err(CoordinationError::StaleRevision));
                            }
                        }
                        self.attempts = self.attempts + 1;
                        self.stage = PublicationStage::Processed;
                        if self.attempts < MAX_PUBLICATION_ATTEMPTS {
                            StoreAction::Read(
                                self.namespace.metadata_key("controller/output/processed-revision"),
                            )
                        } else {
                            StoreAction::Finish(Err(CoordinationError::Contention))
                        }
                    },
                }
            },
            PublicationStage::Commit => StoreAction::Finish(Err(CoordinationError::Contention)),
        }
    }

    /// Go on after the outputs were committed or refused.
    pub fn on_outcome(&mut self, succeeded: bool, header: Option<i64>) -> (r: StoreAction<Revision>)
        requires
            old(self)@.stage is Commit,
            old(self)@.valid(),
        ensures
            (final(self)@, r@) == old(self)@.outcome(succeeded, header),
            r@ !is Finish ==> final(self)@.valid(),
    {
        if succeeded {
            store::finish_revision(store::revision_from_header(header))
        } else {
            self.stage = PublicationStage::Authority;
            StoreAction::Read(self.namespace.controller_active_key())
        }
    }
}

/// Where the record of an expired lease stands.
#[derive(Clone, Copy)]
pub enum ExpiryStage {
    /// The input marker is being read.
    Marker,
    /// The input marker is being moved.
    Commit,
    /// After a refusal: the active controller is being read.
    Authority,
}

/// The record of an expired lease: the input marker moves to a revision past
/// the event.
pub struct ExpiryView {
    pub prefix: Seq<char>,
    pub authority: authority::AuthorityView,
    pub event: i64,
    pub attempts: nat,
    pub stage: ExpiryStage,
}

impl ExpiryView {
    /// The marker moves behind the authority and the marker that was read.
    pub open spec fn transaction(self, entry: Option<store::EntryView>) -> store::TransactionView {
        let active = active_key(self.prefix);
        let marker = marker_key(self.prefix);
        store::TransactionView {
            conditions: seq![
                store::ConditionView::Value { key: active, value: self.authority.controller },
                store::ConditionView::Lease { key: active, lease: self.authority.lease },
                match entry {
                    Some(entry) => store::ConditionView::ModRevision {
                        key: marker,
                        revision: entry.mod_revision,
                    },
                    None => store::ConditionView::Version { key: marker, version: 0 },
                },
            ],
            mutations: seq![metadata::marker_put(self.prefix)],
        }
    }

    /// What follows a read. A marker that is not before the event ends the
    /// record.
    pub open spec fn read(self, entry: Option<store::EntryView>) -> (
        ExpiryView,
        store::ActionView<i64>,
    ) {
        match self.stage {
            ExpiryStage::Marker => match entry {
                Some(current) if current.mod_revision <= 0 => (
                    self,
                    store::ActionView::Finish(
                        Err(CoordinationFault::InvalidRevision(current.mod_revision)),
                    ),
                ),
                Some(current) if current.mod_revision >= self.event => (
                    self,
                    store::ActionView::Finish(Ok(current.mod_revision)),
                ),
                _ => (
                    ExpiryView { stage: ExpiryStage::Commit, ..self },
                    store::ActionView::Commit(self.transaction(entry)),
                ),
            },
            _ => {
                let next = ExpiryView {
                    attempts: self.attempts + 1,
                    stage: ExpiryStage::Marker,
                    ..self
                };
                if !authority_holds(self.authority.controller, self.authority.lease, entry) {
                    (self, store::ActionView::Finish(Err(CoordinationFault::StaleController)))
                } else if next.attempts < MAX_PUBLICATION_ATTEMPTS {
                    (next, store::ActionView::Read(marker_key(self.prefix)))
                } else {
                    (next, store::ActionView::Finish(Err(CoordinationFault::Contention)))
                }
            },
        }
    }

    /// What follows the committed transaction.
    pub open spec fn outcome(self, succeeded: bool, header: Option<i64>) -> (
        ExpiryView,
        store::ActionView<i64>,
    ) {
        if succeeded {
            (self, store::ActionView::Finish(store::header_revision(header)))
        } else {
            (
                ExpiryView { stage: ExpiryStage::Authority, ..self },
                store::ActionView::Read(active_key(self.prefix)),
            )
        }
    }
}

/// The record of an expired lease ends at the event or past it, unless it
/// moves the marker, and it moves the marker only for the active controller.
pub proof fn expiry_record_is_fenced(v: ExpiryView, entry: Option<store::EntryView>)
    requires
        v.stage is Marker,
    ensures
        v.read(entry).1 matches store::ActionView::Finish(Ok(reached)) ==> reached >= v.event,
        v.read(entry).1 matches store::ActionView::Commit(t) ==> forall|s: store::StoreView|
            #[trigger] t.applies(s) ==> {
                let active = active_key(v.prefix);
                s.dom().contains(active) && s[active].value == encode_utf8(v.authority.controller)
                    && s[active].lease == v.authority.lease
            },
{
    if let store::ActionView::Commit(t) = v.read(entry).1 {
        assert forall|s: store::StoreView| #[trigger] t.applies(s) implies {
            let active = active_key(v.prefix);
            s.dom().contains(active) && s[active].value == encode_utf8(v.authority.controller)
                && s[active].lease == v.authority.lease
        } by {
            assert(t.conditions[0].holds(s));
            assert(t.conditions[1].holds(s));
        }
    }
}

/// The record of an expired lease.
pub struct LeaseExpiryRecord {
    namespace: EtcdNamespace,
    authority: ControllerAuthority,
    event_revision: Revision,
    attempts: u32,
    stage: ExpiryStage,
}

impl View for LeaseExpiryRecord {
    type V = ExpiryView;

    closed spec fn view(&self) -> ExpiryView {
        ExpiryView {
            prefix: self.namespace@.prefix,
            authority: self.authority@,
            event: self.event_revision@,
            attempts: self.attempts as nat,
            stage: self.stage,
        }
    }
}

impl LeaseExpiryRecord {
    /// Begin to record that a lease expired at a revision. The authority of
    /// another namespace is refused.
    pub fn record_lease_expiry(
        namespace: EtcdNamespace,
        authority: &ControllerAuthority,
        event_revision: Revision,
    ) -> (r: (LeaseExpiryRecord, StoreAction<Revision>))
        ensures
            r.0@ == (ExpiryView {
                prefix: namespace@.prefix,
                authority: authority@,
                event: event_revision@,
                attempts: 0,
                stage: ExpiryStage::Marker,
            }),
            r.1@ == if authority@.namespace != namespace@.prefix {
                store::ActionView::<i64>::Finish(Err(CoordinationFault::StaleController))
            } else {
                store::ActionView::Read(marker_key(namespace@.prefix))
            },
    {
        let stale = !text::text_eq(authority.namespace(), namespace.namespace());
        let read = namespace.metadata_key("internal/authoritative-input");
        let record = LeaseExpiryRecord {
            namespace,
            authority: authority.duplicate(),
            event_revision,
            attempts: 0,
            stage: ExpiryStage::Marker,
        };
        if stale {
            (record, StoreAction::Finish(Err(CoordinationError::StaleController)))
        } else {
            (record, StoreAction::Read(read))
        }
    }

    fn transaction(&self, entry: Option<&KeyValue>) -> (r: Transaction)
        ensures
            r@ == self@.transaction(entry.deep_view()),
    {
        let active = self.namespace.controller_active_key();
        let marker = self.namespace.metadata_key("internal/authoritative-input");
        let r = Transaction::new().require(
            Condition::Value {
                key: active.clone(),
                value: self.authority.controller_id().to_owned(),
            },
        ).require(Condition::Lease { key: active, lease: self.authority.lease_id() }).require(
            match entry {
                Some(entry) => Condition::ModRevision {
                    key: marker,
                    revision: entry.mod_revision,
                },
                None => Condition::Version { key: marker, version: 0 },
            },
        ).change(metadata::authoritative_input_marker_operation(&self.namespace));
        assert(r@.conditions =~= self@.transaction(entry.deep_view()).conditions);
        assert(r@.mutations =~= self@.transaction(entry.deep_view()).mutations);
        r
    }

    /// Go on with the entry that was read.
    pub fn on_entry(&mut self, entry: Option<&KeyValue>) -> (r: StoreAction<Revision>)
        requires
            old(self)@.stage !is Commit,
            old(self)@.attempts < MAX_PUBLICATION_ATTEMPTS,
        ensures
            (final(self)@, r@) == old(self)@.read(entry.deep_view()),
    {
        if matches!(self.stage, ExpiryStage::Marker) {
            if let Some(current) = entry {
                match Revision::new(current.mod_revision) {
                    Err(error) => {
                        return StoreAction::Finish(Err(error));
                    },
                    Ok(revision) => {
                        if !revision.is_before(&self.event_revision) {
                            return StoreAction::Finish(Ok(revision));
                        }
                    },
                }
            }
            self.stage = ExpiryStage::Commit;
            return StoreAction::Commit(self.transaction(entry));
        }
        if !authority_matches(self.authority.controller_id(), self.authority.lease_id(), entry) {
            return StoreAction::Finish(Err(CoordinationError::StaleController));
        }
        self.attempts = self.attempts + 1;
        self.stage = ExpiryStage::Marker;
        if self.attempts < MAX_PUBLICATION_ATTEMPTS {
            StoreAction::Read(self.namespace.metadata_key("internal/authoritative-input"))
        } else {
            StoreAction::Finish(Err(CoordinationError::Contention))
        }
    }

    /// Go on after the marker was moved or the change refused.
    pub fn on_outcome(&mut self, succeeded: bool, header: Option<i64>) -> (r: StoreAction<Revision>)
        requires
            old(self)@.stage is Commit,
        ensures
            (final(self)@, r@) == old(self)@.outcome(succeeded, header),
    {
        if succeeded {
            store::finish_revision(store::revision_from_header(header))
        } else {
            self.stage = ExpiryStage::Authority;
            StoreAction::Read(self.namespace.controller_active_key())
        }
    }
}

} // verus!
