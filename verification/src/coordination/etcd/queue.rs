//! The shared queue of transition messages and the guarded changes to it.
use crate::coordination::etcd::error::{CoordinationError, CoordinationFault};
use crate::coordination::etcd::keys::{self, EtcdNamespace};
use crate::coordination::etcd::metadata;
use crate::coordination::etcd::publication;
use crate::coordination::etcd::revision::Revision;
use crate::coordination::etcd::store::{self, Condition, Mutation, Transaction};
use crate::lists;
use crate::model::{InstanceId, PartitionId, ResourceId, SessionId, State};
use crate::ordered::{Duplicate, Key};
use crate::text;
use crate::transition::{MessageView, TransitionMessage};
use vstd::prelude::*;
use vstd::string::*;
use vstd::utf8::*;

verus! {

/// Result of the session-fenced message/state completion transaction.
#[derive(Clone, Copy, Debug, PartialEq, Eq, Structural)]
pub enum CompletionResult {
    Applied(Revision),
    SessionLost,
    AlreadyCompleted,
}

/// What a completion came to.
pub enum Completed {
    Applied(i64),
    SessionLost,
    AlreadyCompleted,
}

impl View for CompletionResult {
    type V = Completed;

    open spec fn view(&self) -> Completed {
        match self {
            CompletionResult::Applied(revision) => Completed::Applied(revision@),
            CompletionResult::SessionLost => Completed::SessionLost,
            CompletionResult::AlreadyCompleted => Completed::AlreadyCompleted,
        }
    }
}

impl DeepView for CompletionResult {
    type V = Completed;

    open spec fn deep_view(&self) -> Completed {
        self@
    }
}

/// What became of the claim of a queued message.
#[derive(Clone, Copy, Debug, PartialEq, Eq, Structural)]
pub enum TransitionClaim {
    Claimed(Revision),
    SessionLost,
    Withdrawn,
}

impl DeepView for TransitionClaim {
    type V = TransitionClaim;

    open spec fn deep_view(&self) -> TransitionClaim {
        *self
    }
}

/// The queue as it was read: its modification revision, its stored text, and
/// the messages of that text where it could be decoded.
pub struct QueueEntry {
    pub revision: Revision,
    pub value: String,
    pub decoded: Option<Vec<TransitionMessage>>,
}

/// What a read of the queue says.
pub struct QueueView {
    pub revision: Revision,
    pub value: Seq<char>,
    pub decoded: Option<Seq<MessageView>>,
}

impl View for QueueEntry {
    type V = QueueView;

    open spec fn view(&self) -> QueueView {
        QueueView {
            revision: self.revision,
            value: self.value@,
            decoded: self.decoded.deep_view(),
        }
    }
}

impl DeepView for QueueEntry {
    type V = QueueView;

    open spec fn deep_view(&self) -> QueueView {
        self@
    }
}

/// Every message has an identity.
pub open spec fn identified(messages: Seq<MessageView>) -> bool {
    forall|i: int| 0 <= i < messages.len() ==> (#[trigger] messages[i]).message_id.len() > 0
}

/// The messages of a decoded queue.
pub open spec fn queued(decoded: Option<Seq<MessageView>>) -> Result<
    Seq<MessageView>,
    CoordinationFault,
> {
    match decoded {
        Some(messages) if identified(messages) => Ok(messages),
        _ => Err(CoordinationFault::InvalidValue),
    }
}

/// The messages of a queue. A queue without a value is empty. A value that
/// could not be decoded, or that holds a message without an identity, is
/// invalid.
pub fn parse_pending_messages(value: Option<Option<Vec<TransitionMessage>>>) -> (r: Result<
    Vec<TransitionMessage>,
    CoordinationError,
>)
    ensures
        match value {
            None => r matches Ok(messages) && messages@.len() == 0,
            Some(decoded) => match (r, queued(decoded.deep_view())) {
                (Ok(messages), Ok(model)) => messages.deep_view() == model,
                (Err(error), Err(fault)) => error@ == fault,
                _ => false,
            },
        },
{
    let messages = match value {
        None => {
            return Ok(Vec::new());
        },
        Some(None) => {
            return Err(CoordinationError::InvalidValue);
        },
        Some(Some(messages)) => messages,
    };
    if all_identified(&messages) {
        Ok(messages)
    } else {
        Err(CoordinationError::InvalidValue)
    }
}

fn all_identified(messages: &Vec<TransitionMessage>) -> (r: bool)
    ensures
        r == identified(messages.deep_view()),
{
    let ghost all = messages.deep_view();
    let mut i: usize = 0;
    while i < messages.len()
        invariant
            i <= messages@.len(),
            all == messages.deep_view(),
            forall|j: int| 0 <= j < i ==> (#[trigger] all[j]).message_id.len() > 0,
        decreases messages@.len() - i,
    {
        assert(all[i as int] == messages@[i as int]@);
        if messages[i].message_id.as_str().is_empty() {
            return false;
        }
        i = i + 1;
    }
    true
}

/// The messages of a read queue.
fn queue_messages(entry: &QueueEntry) -> (r: Result<Vec<TransitionMessage>, CoordinationError>)
    ensures
        match (r, queued(entry@.decoded)) {
            (Ok(messages), Ok(model)) => messages.deep_view() == model,
            (Err(error), Err(fault)) => error@ == fault,
            _ => false,
        },
{
    parse_pending_messages(Some(entry.decoded.duplicate()))
}

/// The identities of messages.
pub open spec fn ids(messages: Seq<MessageView>) -> Seq<Seq<char>> {
    Seq::new(messages.len(), |i: int| messages[i].message_id)
}

/// The position of the first message with an identity, or the length.
pub open spec fn position_of(messages: Seq<MessageView>, id: Seq<char>) -> nat {
    lists::first_index(ids(messages), id)
}

/// A message with this identity is queued.
pub open spec fn holds_id(messages: Seq<MessageView>, id: Seq<char>) -> bool {
    exists|i: int| 0 <= i < messages.len() && (#[trigger] messages[i]).message_id == id
}

fn find_message(messages: &Vec<TransitionMessage>, id: &str) -> (r: usize)
    ensures
        r == position_of(messages.deep_view(), id@),
        r <= messages@.len(),
        r < messages@.len() <==> holds_id(messages.deep_view(), id@),
{
    let ghost all = ids(messages.deep_view());
    proof {
        lists::first_index_meaning(all, id@);
        assert(all.contains(id@) == holds_id(messages.deep_view(), id@)) by {
            if all.contains(id@) {
                let i = all.index_of(id@);
                assert(messages.deep_view()[i].message_id == id@);
            }
            if holds_id(messages.deep_view(), id@) {
                let i = choose|i: int|
                    0 <= i < messages.deep_view().len() && (
                    #[trigger] messages.deep_view()[i]).message_id == id@;
                assert(all[i] == id@);
            }
        }
    }
    let mut i: usize = 0;
    while i < messages.len()
        invariant
            i <= messages@.len(),
            all == ids(messages.deep_view()),
            all.len() == messages@.len(),
            lists::first_index(all, id@) <= all.len(),
            lists::first_index(all, id@) < all.len() ==> all[lists::first_index(
                all,
                id@,
            ) as int] == id@,
            forall|j: int| 0 <= j < lists::first_index(all, id@) ==> all[j] != id@,
            forall|j: int| 0 <= j < i ==> all[j] != id@,
        decreases messages@.len() - i,
    {
        assert(all[i as int] == messages@[i as int]@.message_id);
        if text::text_eq(messages[i].message_id.as_str(), id) {
            return i;
        }
        i = i + 1;
    }
    i
}

/// The messages that do not have this identity.
pub open spec fn without_id(messages: Seq<MessageView>, id: Seq<char>) -> Seq<MessageView>
    decreases messages.len(),
{
    if messages.len() == 0 {
        messages
    } else {
        let before = without_id(messages.drop_last(), id);
        if messages.last().message_id == id {
            before
        } else {
            before.push(messages.last())
        }
    }
}

/// The messages that are not for this resource.
pub open spec fn without_resource(messages: Seq<MessageView>, resource: Seq<char>) -> Seq<
    MessageView,
>
    decreases messages.len(),
{
    if messages.len() == 0 {
        messages
    } else {
        let before = without_resource(messages.drop_last(), resource);
        if messages.last().resource == resource {
            before
        } else {
            before.push(messages.last())
        }
    }
}

/// Removing an identity shortens the queue exactly where it was queued, and
/// leaves no message with it.
pub proof fn without_id_removes(messages: Seq<MessageView>, id: Seq<char>)
    ensures
        without_id(messages, id).len() <= messages.len(),
        without_id(messages, id).len() == messages.len() <==> !holds_id(messages, id),
        !holds_id(without_id(messages, id), id),
        !holds_id(messages, id) ==> without_id(messages, id) == messages,
    decreases messages.len(),
{
    if messages.len() > 0 {
        let rest = messages.drop_last();
        without_id_removes(rest, id);
        let before = without_id(rest, id);
        if holds_id(rest, id) {
            let i = choose|i: int| 0 <= i < rest.len() && (#[trigger] rest[i]).message_id == id;
            assert(messages[i].message_id == id);
        }
        if messages.last().message_id == id {
            assert(messages[messages.len() - 1].message_id == id);
        } else {
            assert forall|i: int|
                0 <= i < before.push(messages.last()).len() implies (
            #[trigger] before.push(messages.last())[i]).message_id != id by {
                if i < before.len() {
                    assert(before[i].message_id != id);
                }
            }
            if holds_id(messages, id) {
                let i = choose|i: int|
                    0 <= i < messages.len() && (#[trigger] messages[i]).message_id == id;
                assert(rest[i].message_id == id);
            }
            if !holds_id(messages, id) {
                assert(rest.push(messages.last()) =~= messages);
            }
        }
    }
}

/// Removing a resource shortens the queue exactly where it had messages.
pub proof fn without_resource_removes(messages: Seq<MessageView>, resource: Seq<char>)
    ensures
        without_resource(messages, resource).len() <= messages.len(),
        without_resource(messages, resource).len() == messages.len() <==> forall|i: int|
            0 <= i < messages.len() ==> (#[trigger] messages[i]).resource != resource,
        forall|i: int|
            0 <= i < without_resource(messages, resource).len() ==> (
            #[trigger] without_resource(messages, resource)[i]).resource != resource,
    decreases messages.len(),
{
    if messages.len() > 0 {
        let rest = messages.drop_last();
        without_resource_removes(rest, resource);
        assert(forall|i: int| 0 <= i < rest.len() ==> rest[i] == messages[i]);
        let n = messages.len() - 1;
        if messages.last().resource == resource {
            assert(messages[n].resource == resource);
        } else {
            assert forall|i: int| 0 <= i < messages.len() implies (#[trigger] messages[i]).resource
                != resource || without_resource(messages, resource).len() < messages.len() by {
                if i < n {
                    assert(rest[i] == messages[i]);
                }
            }
            if without_resource(messages, resource).len() < messages.len() {
                let i = choose|i: int|
                    0 <= i < rest.len() && (#[trigger] rest[i]).resource == resource;
                assert(messages[i].resource == resource);
            }
        }
    }
}

fn remove_id(messages: &Vec<TransitionMessage>, id: &str) -> (r: Vec<TransitionMessage>)
    ensures
        r.deep_view() == without_id(messages.deep_view(), id@),
{
    let ghost all = messages.deep_view();
    let mut out: Vec<TransitionMessage> = Vec::new();
    let mut i: usize = 0;
    assert(all.take(0) =~= Seq::empty());
    assert(out.deep_view() =~= Seq::empty());
    while i < messages.len()
        invariant
            i <= messages@.len(),
            all == messages.deep_view(),
            out.deep_view() == without_id(all.take(i as int), id@),
        decreases messages@.len() - i,
    {
        let ghost before = out.deep_view();
        proof {
            assert(all.take(i + 1).drop_last() =~= all.take(i as int));
            assert(all.take(i + 1).last() == messages@[i as int]@);
        }
        if !text::text_eq(messages[i].message_id.as_str(), id) {
            out.push(messages[i].duplicate());
            assert(out.deep_view() =~= before.push(messages@[i as int]@));
        }
        i = i + 1;
    }
    assert(all.take(messages@.len() as int) =~= all);
    out
}

fn remove_resource(messages: &Vec<TransitionMessage>, resource: &str) -> (r: Vec<TransitionMessage>)
    ensures
        r.deep_view() == without_resource(messages.deep_view(), resource@),
{
    let ghost all = messages.deep_view();
    let mut out: Vec<TransitionMessage> = Vec::new();
    let mut i: usize = 0;
    assert(all.take(0) =~= Seq::empty());
    assert(out.deep_view() =~= Seq::empty());
    while i < messages.len()
        invariant
            i <= messages@.len(),
            all == messages.deep_view(),
            out.deep_view() == without_resource(all.take(i as int), resource@),
        decreases messages@.len() - i,
    {
        let ghost before = out.deep_view();
        proof {
            assert(all.take(i + 1).drop_last() =~= all.take(i as int));
            assert(all.take(i + 1).last() == messages@[i as int]@);
        }
        if !text::text_eq(messages[i].resource.as_str(), resource) {
            out.push(messages[i].duplicate());
            assert(out.deep_view() =~= before.push(messages@[i as int]@));
        }
        i = i + 1;
    }
    assert(all.take(messages@.len() as int) =~= all);
    out
}

/// What an operation on the queue does next.
pub enum QueueAction<T> {
    /// Read the queue.
    ReadQueue,
    /// Read the whole namespace.
    ReadNamespace,
    /// Read the live session of the instance.
    ReadLiveSession,
    /// Commit a transaction.
    Commit(Transaction),
    /// The operation is over.
    Finish(Result<T, CoordinationError>),
}

/// What an operation on the queue does next.
pub enum QueueActionView<B> {
    ReadQueue,
    ReadNamespace,
    ReadLiveSession,
    Commit(store::TransactionView),
    Finish(Result<B, CoordinationFault>),
}

impl<T: DeepView> View for QueueAction<T> {
    type V = QueueActionView<T::V>;

    open spec fn view(&self) -> QueueActionView<T::V> {
        match self {
            QueueAction::ReadQueue => QueueActionView::ReadQueue,
            QueueAction::ReadNamespace => QueueActionView::ReadNamespace,
            QueueAction::ReadLiveSession => QueueActionView::ReadLiveSession,
            QueueAction::Commit(transaction) => QueueActionView::Commit(transaction@),
            QueueAction::Finish(Ok(value)) => QueueActionView::Finish(Ok(value.deep_view())),
            QueueAction::Finish(Err(error)) => QueueActionView::Finish(Err(error@)),
        }
    }
}

/// Replace the queue, provided that it is still what was read.
pub open spec fn replace_queue(
    prefix: Seq<char>,
    expected: i64,
    messages: Seq<MessageView>,
) -> store::TransactionView {
    store::no_changes().requiring(
        store::ConditionView::ModRevision {
            key: publication::pending_key(prefix),
            revision: expected,
        },
    ).changing(
        store::MutationView::PutMessages { key: publication::pending_key(prefix), messages },
    )
}

fn queue_replacement(
    namespace: &EtcdNamespace,
    expected: Revision,
    messages: Vec<TransitionMessage>,
) -> (r: Transaction)
    ensures
        r@ == replace_queue(namespace@.prefix, expected@, messages.deep_view()),
{
    let key = namespace.metadata_key("controller/output/pending-transitions");
    Transaction::new().require(
        Condition::ModRevision { key: key.clone(), revision: expected.value() },
    ).change(Mutation::PutMessages { key, messages })
}

/// Create the queue, provided that there is none.
pub open spec fn create_queue(
    prefix: Seq<char>,
    messages: Seq<MessageView>,
) -> store::TransactionView {
    store::no_changes().requiring(
        store::ConditionView::Version { key: publication::pending_key(prefix), version: 0 },
    ).changing(
        store::MutationView::PutMessages { key: publication::pending_key(prefix), messages },
    )
}

/// Where the injection of a message stands.
#[derive(Clone, Copy)]
pub enum InjectionStage {
    /// The queue is being read.
    Queue,
    /// There is no queue: the namespace is being read.
    Namespace,
    /// The queue is being created.
    Creating,
    /// The queue is being replaced.
    Replacing,
    /// The new revision of the queue is being read.
    Confirm,
}

/// The injection of a message into the queue.
pub struct InjectionView {
    pub prefix: Seq<char>,
    pub message: MessageView,
    pub attempts: nat,
    pub stage: InjectionStage,
}

impl InjectionView {
    pub open spec fn finish(self, r: Result<Revision, CoordinationFault>) -> (
        InjectionView,
        QueueActionView<i64>,
    ) {
        (
            self,
            match r {
                Ok(revision) => QueueActionView::Finish(Ok(revision@)),
                Err(fault) => QueueActionView::Finish(Err(fault)),
            },
        )
    }

    pub open spec fn at(self, stage: InjectionStage) -> InjectionView {
        InjectionView { stage, ..self }
    }

    /// What follows a read of the queue. A message whose identity is already
    /// queued is refused; otherwise it is appended.
    pub open spec fn queue(self, entry: Option<QueueView>) -> (InjectionView, QueueActionView<i64>) {
        match (self.stage, entry) {
            (InjectionStage::Confirm, Some(entry)) => self.finish(Ok(entry.revision)),
            (InjectionStage::Confirm, None) => self.finish(
                Err(CoordinationFault::MissingRevision),
            ),
            (_, None) => (self.at(InjectionStage::Namespace), QueueActionView::ReadNamespace),
            (_, Some(entry)) => match queued(entry.decoded) {
                Err(fault) => self.finish(Err(fault)),
                Ok(messages) => if holds_id(messages, self.message.message_id) {
                    self.finish(Err(CoordinationFault::DuplicateMessage(self.message.message_id)))
                } else {
                    (
                        self.at(InjectionStage::Replacing),
                        QueueActionView::Commit(
                            replace_queue(
                                self.prefix,
                                entry.revision@,
                                messages.push(self.message),
                            ),
                        ),
                    )
                },
            },
        }
    }

    /// What follows a read of the namespace: the queue is created.
    pub open spec fn namespace(self) -> (InjectionView, QueueActionView<i64>) {
        (
            self.at(InjectionStage::Creating),
            QueueActionView::Commit(create_queue(self.prefix, seq![self.message])),
        )
    }

    /// What follows the committed transaction.
    pub open spec fn outcome(self, succeeded: bool, header: Option<i64>) -> (
        InjectionView,
        QueueActionView<i64>,
    ) {
        match (self.stage, store::header_revision(header)) {
            (InjectionStage::Replacing, Err(fault)) => self.finish(Err(fault)),
            _ => if succeeded {
                (self.at(InjectionStage::Confirm), QueueActionView::ReadQueue)
            } else {
                let next = InjectionView {
                    attempts: self.attempts + 1,
                    stage: InjectionStage::Queue,
                    ..self
                };
                if next.attempts < metadata::MAX_QUEUE_CAS_RETRIES {
                    (next, QueueActionView::ReadQueue)
                } else {
                    next.finish(Err(CoordinationFault::Contention))
                }
            },
        }
    }
}

/// The injection of a message into the shared transition queue.
pub struct MessageInjection {
    namespace: EtcdNamespace,
    message: TransitionMessage,
    attempts: u32,
    stage: InjectionStage,
}

impl View for MessageInjection {
    type V = InjectionView;

    closed spec fn view(&self) -> InjectionView {
        InjectionView {
            prefix: self.namespace@.prefix,
            message: self.message@,
            attempts: self.attempts as nat,
            stage: self.stage,
        }
    }
}

impl MessageInjection {
    /// Begin to append a message. A message without an identity is refused.
    pub fn inject_pending_transition(namespace: EtcdNamespace, message: &TransitionMessage) -> (r: (
        MessageInjection,
        QueueAction<Revision>,
    ))
        ensures
            r.0@ == (InjectionView {
                prefix: namespace@.prefix,
                message: message@,
                attempts: 0,
                stage: InjectionStage::Queue,
            }),
            r.1@ == if message@.message_id.len() == 0 {
                QueueActionView::<i64>::Finish(Err(CoordinationFault::InvalidValue))
            } else {
                QueueActionView::ReadQueue
            },
    {
        let injection = MessageInjection {
            namespace,
            message: message.duplicate(),
            attempts: 0,
            stage: InjectionStage::Queue,
        };
        if message.message_id.as_str().is_empty() {
            (injection, QueueAction::Finish(Err(CoordinationError::InvalidValue)))
        } else {
            (injection, QueueAction::ReadQueue)
        }
    }

    /// Go on with the queue that was read.
    pub fn on_queue(&mut self, entry: Option<&QueueEntry>) -> (r: QueueAction<Revision>)
        requires
            old(self)@.stage is Queue || old(self)@.stage is Confirm,
        ensures
            (final(self)@, r@) == old(self)@.queue(entry.deep_view()),
    {
        let entry = match entry {
            None => {
                if matches!(self.stage, InjectionStage::Confirm) {
                    return QueueAction::Finish(Err(CoordinationError::MissingRevision));
                }
                self.stage = InjectionStage::Namespace;
                return QueueAction::ReadNamespace;
            },
            Some(entry) => entry,
        };
        if matches!(self.stage, InjectionStage::Confirm) {
            return QueueAction::Finish(Ok(entry.revision));
        }
        let mut messages = match queue_messages(entry) {
            Ok(messages) => messages,
            Err(error) => {
                return QueueAction::Finish(Err(error));
            },
        };
        let ghost before = messages.deep_view();
        if find_message(&messages, self.message.message_id.as_str()) < messages.len() {
            return QueueAction::Finish(
                Err(CoordinationError::DuplicateMessage(self.message.message_id.clone())),
            );
        }
        messages.push(self.message.duplicate());
        assert(messages.deep_view() =~= before.push(self.message@));
        self.stage = InjectionStage::Replacing;
        QueueAction::Commit(queue_replacement(&self.namespace, entry.revision, messages))
    }

    /// Go on after the namespace was read.
    pub fn on_namespace(&mut self) -> (r: QueueAction<Revision>)
        requires
            old(self)@.stage is Namespace,
        ensures
            (final(self)@, r@) == old(self)@.namespace(),
    {
        let mut messages: Vec<TransitionMessage> = Vec::new();
        messages.push(self.message.duplicate());
        assert(messages.deep_view() =~= seq![self.message@]);
        self.stage = InjectionStage::Creating;
        let key = self.namespace.metadata_key("controller/output/pending-transitions");
        QueueAction::Commit(
            Transaction::new().require(Condition::Version { key: key.clone(), version: 0 }).change(
                Mutation::PutMessages { key, messages },
            ),
        )
    }

    /// Go on after the queue was changed or the change refused.
    pub fn on_outcome(&mut self, succeeded: bool, header: Option<i64>) -> (r: QueueAction<Revision>)
        requires
            old(self)@.stage is Creating || old(self)@.stage is Replacing,
            old(self)@.attempts < metadata::MAX_QUEUE_CAS_RETRIES,
        ensures
            (final(self)@, r@) == old(self)@.outcome(succeeded, header),
    {
        if matches!(self.stage, InjectionStage::Replacing) {
            match store::revision_from_header(header) {
                Ok(_) => {},
                Err(error) => {
                    return QueueAction::Finish(Err(error));
                },
            }
        }
        if succeeded {
            self.stage = InjectionStage::Confirm;
            return QueueAction::ReadQueue;
        }
        self.attempts = self.attempts + 1;
        self.stage = InjectionStage::Queue;
        if self.attempts < metadata::MAX_QUEUE_CAS_RETRIES {
            QueueAction::ReadQueue
        } else {
            QueueAction::Finish(Err(CoordinationError::Contention))
        }
    }
}

/// Where the claim of a message stands.
#[derive(Clone, Copy)]
pub enum ClaimStage {
    /// The queue is being read.
    Queue,
    /// The claim on the queue of a revision is being committed.
    Commit(Revision),
    /// After a refusal: the live session is being read.
    LiveSession,
}

/// The claim of a queued message for a session.
pub struct ClaimView {
    pub prefix: Seq<char>,
    pub instance: Seq<char>,
    pub session: u64,
    pub message: MessageView,
    pub attempts: nat,
    pub stage: ClaimStage,
}

impl ClaimView {
    pub open spec fn finish(self, claim: TransitionClaim) -> (
        ClaimView,
        QueueActionView<TransitionClaim>,
    ) {
        (self, QueueActionView::Finish(Ok(claim)))
    }

    /// The claim: the session is live and the queue is the one that was read.
    pub open spec fn transaction(self, entry: QueueView) -> store::TransactionView {
        store::TransactionView {
            conditions: seq![
                store::ConditionView::Value {
                    key: keys::live_key_at(self.prefix, self.instance),
                    value: keys::session_key_text(self.session),
                },
                store::ConditionView::ModRevision {
                    key: publication::pending_key(self.prefix),
                    revision: entry.revision@,
                },
                store::ConditionView::Value {
                    key: publication::pending_key(self.prefix),
                    value: entry.value,
                },
            ],
            mutations: Seq::empty(),
        }
    }

    /// What follows a read of the queue. A message that is no longer queued
    /// has been withdrawn.
    pub open spec fn queue(self, entry: Option<QueueView>) -> (
        ClaimView,
        QueueActionView<TransitionClaim>,
    ) {
        match entry {
            None => self.finish(TransitionClaim::Withdrawn),
            Some(entry) => match queued(entry.decoded) {
                Err(fault) => (self, QueueActionView::Finish(Err(fault))),
                Ok(messages) => if !messages.contains(self.message) {
                    self.finish(TransitionClaim::Withdrawn)
                } else {
                    (
                        ClaimView { stage: ClaimStage::Commit(entry.revision), ..self },
                        QueueActionView::Commit(self.transaction(entry)),
                    )
                },
            },
        }
    }

    /// What follows the committed claim.
    pub open spec fn outcome(self, succeeded: bool) -> (
        ClaimView,
        QueueActionView<TransitionClaim>,
    ) {
        match self.stage {
            ClaimStage::Commit(revision) if succeeded => self.finish(
                TransitionClaim::Claimed(revision),
            ),
            _ => (
                ClaimView { stage: ClaimStage::LiveSession, ..self },
                QueueActionView::ReadLiveSession,
            ),
        }
    }

    /// What follows a read of the live session: with the session gone the
    /// claim is lost, otherwise only the queue has changed.
    pub open spec fn live(self, session: Option<u64>) -> (
        ClaimView,
        QueueActionView<TransitionClaim>,
    ) {
        let next = ClaimView { attempts: self.attempts + 1, stage: ClaimStage::Queue, ..self };
        if session != Some(self.session) {
            self.finish(TransitionClaim::SessionLost)
        } else if next.attempts < metadata::MAX_QUEUE_CAS_RETRIES {
            (next, QueueActionView::ReadQueue)
        } else {
            (next, QueueActionView::Finish(Err(CoordinationFault::Contention)))
        }
    }
}

/// A claim is granted only while the session is live and the message is
/// queued, and it changes nothing in the store.
pub proof fn claim_is_fenced(v: ClaimView, entry: QueueView, s: store::StoreView)
    requires
        v.queue(Some(entry)).1 matches QueueActionView::Commit(t) && t.applies(s),
    ensures
        queued(entry.decoded) matches Ok(messages) && messages.contains(v.message),
        ({
            let live = keys::live_key_at(v.prefix, v.instance);
            let queue = publication::pending_key(v.prefix);
            &&& s.dom().contains(live)
            &&& s[live].value == encode_utf8(keys::session_key_text(v.session))
            &&& s.dom().contains(queue)
            &&& s[queue].value == encode_utf8(entry.value)
            &&& s[queue].mod_revision == entry.revision@
        }),
        forall|key: Seq<char>| !v.transaction(entry).touches(key),
{
    let t = v.transaction(entry);
    assert(t.conditions[0].holds(s));
    assert(t.conditions[1].holds(s));
    assert(t.conditions[2].holds(s));
}

/// The claim of a queued message at one point in time before an application
/// callback is allowed to run.
pub struct MessageClaim {
    namespace: EtcdNamespace,
    instance: InstanceId,
    session_id: SessionId,
    message: TransitionMessage,
    attempts: u32,
    stage: ClaimStage,
}

impl View for MessageClaim {
    type V = ClaimView;

    closed spec fn view(&self) -> ClaimView {
        ClaimView {
            prefix: self.namespace@.prefix,
            instance: self.instance@,
            session: self.session_id@,
            message: self.message@,
            attempts: self.attempts as nat,
            stage: self.stage,
        }
    }
}

fn holds_message(messages: &Vec<TransitionMessage>, message: &TransitionMessage) -> (r: bool)
    ensures
        r == messages.deep_view().contains(message@),
{
    let ghost all = messages.deep_view();
    let mut i: usize = 0;
    while i < messages.len()
        invariant
            i <= messages@.len(),
            all == messages.deep_view(),
            forall|j: int| 0 <= j < i ==> all[j] != message@,
        decreases messages@.len() - i,
    {
        assert(all[i as int] == messages@[i as int]@);
        if messages[i].same(message) {
            return true;
        }
        i = i + 1;
    }
    false
}

impl MessageClaim {
    /// Begin to claim a message for the session of an instance.
    pub fn claim_pending_transition(
        namespace: EtcdNamespace,
        instance: InstanceId,
        session_id: SessionId,
        message: TransitionMessage,
    ) -> (r: (MessageClaim, QueueAction<TransitionClaim>))
        ensures
            r.0@ == (ClaimView {
                prefix: namespace@.prefix,
                instance: instance@,
                session: session_id@,
                message: message@,
                attempts: 0,
                stage: ClaimStage::Queue,
            }),
            r.1@ == QueueActionView::<TransitionClaim>::ReadQueue,
    {
        (
            MessageClaim {
                namespace,
                instance,
                session_id,
                message,
                attempts: 0,
                stage: ClaimStage::Queue,
            },
            QueueAction::ReadQueue,
        )
    }

    /// Go on with the queue that was read.
    pub fn on_queue(&mut self, entry: Option<&QueueEntry>) -> (r: QueueAction<TransitionClaim>)
        requires
            old(self)@.stage is Queue,
        ensures
            (final(self)@, r@) == old(self)@.queue(entry.deep_view()),
    {
        let entry = match entry {
            None => {
                return QueueAction::Finish(Ok(TransitionClaim::Withdrawn));
            },
            Some(entry) => entry,
        };
        let messages = match queue_messages(entry) {
            Ok(messages) => messages,
            Err(error) => {
                return QueueAction::Finish(Err(error));
            },
        };
        if !holds_message(&messages, &self.message) {
            return QueueAction::Finish(Ok(TransitionClaim::Withdrawn));
        }
        self.stage = ClaimStage::Commit(entry.revision);
        let queue = self.namespace.metadata_key("controller/output/pending-transitions");
        let transaction = Transaction::new().require(
            Condition::Value {
                key: self.namespace.live_key(&self.instance),
                value: keys::session_text(self.session_id),
            },
        ).require(
            Condition::ModRevision { key: queue.clone(), revision: entry.revision.value() },
        ).require(Condition::Value { key: queue, value: entry.value.clone() });
        assert(transaction@.conditions =~= old(self)@.transaction(entry@).conditions);
        QueueAction::Commit(transaction)
    }

    /// Go on after the claim was committed or refused.
    pub fn on_outcome(&mut self, succeeded: bool) -> (r: QueueAction<TransitionClaim>)
        requires
            old(self)@.stage is Commit,
        ensures
            (final(self)@, r@) == old(self)@.outcome(succeeded),
    {
        if let ClaimStage::Commit(revision) = self.stage {
            if succeeded {
                return QueueAction::Finish(Ok(TransitionClaim::Claimed(revision)));
            }
        }
        self.stage = ClaimStage::LiveSession;
        QueueAction::ReadLiveSession
    }

    /// Go on with the live session that was read.
    pub fn on_live_session(&mut self, session: Option<SessionId>) -> (r: QueueAction<
        TransitionClaim,
    >)
        requires
            old(self)@.stage is LiveSession,
            old(self)@.attempts < metadata::MAX_QUEUE_CAS_RETRIES,
        ensures
            (final(self)@, r@) == old(self)@.live(session.deep_view()),
    {
        if !is_session(session, self.session_id) {
            return QueueAction::Finish(Ok(TransitionClaim::SessionLost));
        }
        self.attempts = self.attempts + 1;
        self.stage = ClaimStage::Queue;
        if self.attempts < metadata::MAX_QUEUE_CAS_RETRIES {
            QueueAction::ReadQueue
        } else {
            QueueAction::Finish(Err(CoordinationError::Contention))
        }
    }
}

/// Whether the live session is this one.
pub(crate) fn is_session(session: Option<SessionId>, expected: SessionId) -> (r: bool)
    ensures
        r == (session.deep_view() == Some(expected@)),
{
    match session {
        Some(session) => session.sequence() == expected.sequence(),
        None => false,
    }
}

/// Identity of the completion of one message by one session.
pub struct ParticipantCompletionFence {
    instance: InstanceId,
    session_id: SessionId,
    queue_revision: Revision,
    message_id: String,
}

/// What a completion fence says.
#[verifier::ext_equal]
pub struct CompletionFenceView {
    pub instance: Seq<char>,
    pub session: u64,
    pub revision: Revision,
    pub message: Seq<char>,
}

impl View for ParticipantCompletionFence {
    type V = CompletionFenceView;

    closed spec fn view(&self) -> CompletionFenceView {
        CompletionFenceView {
            instance: self.instance@,
            session: self.session_id@,
            revision: self.queue_revision,
            message: self.message_id@,
        }
    }
}

impl ParticipantCompletionFence {
    /// Identify the completion of a message of the queue at a revision.
    pub fn new(
        instance: InstanceId,
        session_id: SessionId,
        queue_revision: Revision,
        message_id: String,
    ) -> (r: ParticipantCompletionFence)
        ensures
            r@ == (CompletionFenceView {
                instance: instance@,
                session: session_id@,
                revision: queue_revision,
                message: message_id@,
            }),
    {
        ParticipantCompletionFence { instance, session_id, queue_revision, message_id }
    }

    /// Whether the completion is still admitted: its session is the active one
    /// and its message is still pending.
    pub fn matches(&self, active_session: SessionId, pending_message: bool) -> (r: bool)
        ensures
            r == (self@.session == active_session@ && pending_message),
    {
        self.session_id.sequence() == active_session.sequence() && pending_message
    }
}

/// Where the completion of a message stands.
#[derive(Clone, Copy)]
pub enum CompletionStage {
    /// The queue is being read.
    Queue,
    /// The completion is being committed.
    Commit,
    /// After a refusal: the live session is being read.
    LiveSession,
    /// The session is gone: the queue is being read.
    CleanupQueue,
    /// The session is gone: the message is being removed.
    CleanupCommit,
}

/// The completion of a message.
pub struct CompletionView {
    pub prefix: Seq<char>,
    pub fence: CompletionFenceView,
    pub message: MessageView,
    pub result: Option<Seq<char>>,
    pub stage: CompletionStage,
}

impl CompletionView {
    pub open spec fn finish(self, result: Completed) -> (
        CompletionView,
        QueueActionView<Completed>,
    ) {
        (self, QueueActionView::Finish(Ok(result)))
    }

    pub open spec fn fail(self, fault: CoordinationFault) -> (
        CompletionView,
        QueueActionView<Completed>,
    ) {
        (self, QueueActionView::Finish(Err(fault)))
    }

    pub open spec fn at(self, stage: CompletionStage) -> CompletionView {
        CompletionView { stage, ..self }
    }

    /// The state key of the completed replica under the fenced session.
    pub open spec fn state_key(self) -> Seq<char> {
        keys::current_state_key_at(
            self.prefix,
            self.fence.instance,
            self.fence.session,
            self.message.resource,
            self.message.partition,
        )
    }

    /// Publish the state, take the message off the queue, and mark new input,
    /// while the session is live and the queue is the one that was claimed.
    pub open spec fn transaction(self, messages: Seq<MessageView>) -> store::TransactionView {
        store::TransactionView {
            conditions: seq![
                store::ConditionView::Value {
                    key: keys::live_key_at(self.prefix, self.fence.instance),
                    value: keys::session_key_text(self.fence.session),
                },
                store::ConditionView::ModRevision {
                    key: publication::pending_key(self.prefix),
                    revision: self.fence.revision@,
                },
            ],
            mutations: seq![
                match self.result {
                    Some(state) => store::MutationView::Put {
                        key: self.state_key(),
                        value: state,
                        lease: None,
                    },
                    None => store::MutationView::Delete { key: self.state_key() },
                },
                store::MutationView::PutMessages {
                    key: publication::pending_key(self.prefix),
                    messages: messages.remove(position_of(messages, self.fence.message) as int),
                },
                metadata::marker_put(self.prefix),
            ],
        }
    }

    /// What follows a read of the queue.
    pub open spec fn queue(self, entry: Option<QueueView>) -> (
        CompletionView,
        QueueActionView<Completed>,
    ) {
        match self.stage {
            CompletionStage::CleanupQueue => match entry {
                None => self.finish(Completed::SessionLost),
                Some(entry) => match queued(entry.decoded) {
                    Err(fault) => self.fail(fault),
                    Ok(messages) => if !holds_id(messages, self.fence.message) {
                        self.finish(Completed::AlreadyCompleted)
                    } else if entry.revision@ != self.fence.revision@ {
                        self.finish(Completed::SessionLost)
                    } else {
                        (
                            self.at(CompletionStage::CleanupCommit),
                            QueueActionView::Commit(
                                replace_queue(
                                    self.prefix,
                                    self.fence.revision@,
                                    without_id(messages, self.fence.message),
                                ),
                            ),
                        )
                    },
                },
            },
            _ => match entry {
                None => self.finish(Completed::AlreadyCompleted),
                Some(entry) => match queued(entry.decoded) {
                    Err(fault) => self.fail(fault),
                    Ok(messages) => {
                        let index = position_of(messages, self.fence.message) as int;
                        if !holds_id(messages, self.fence.message) || messages[index]
                            != self.message {
                            self.finish(Completed::AlreadyCompleted)
                        } else if entry.revision@ != self.fence.revision@ {
                            self.fail(CoordinationFault::StaleRevision)
                        } else {
                            (
                                self.at(CompletionStage::Commit),
                                QueueActionView::Commit(self.transaction(messages)),
                            )
                        }
                    },
                },
            },
        }
    }

    /// What follows the committed transaction.
    pub open spec fn outcome(self, succeeded: bool, header: Option<i64>) -> (
        CompletionView,
        QueueActionView<Completed>,
    ) {
        match (self.stage, store::header_revision(header)) {
            (CompletionStage::CleanupCommit, Err(fault)) => self.fail(fault),
            (CompletionStage::CleanupCommit, Ok(_)) => self.finish(Completed::SessionLost),
            (_, Ok(revision)) if succeeded => self.finish(Completed::Applied(revision)),
            (_, Err(fault)) if succeeded => self.fail(fault),
            _ => (self.at(CompletionStage::LiveSession), QueueActionView::ReadLiveSession),
        }
    }

    /// What follows a read of the live session. With the session still live
    /// the queue has changed; with the session gone the message is cleaned up
    /// without publishing its state.
    pub open spec fn live(self, session: Option<u64>) -> (
        CompletionView,
        QueueActionView<Completed>,
    ) {
        if session == Some(self.fence.session) {
            self.fail(CoordinationFault::StaleRevision)
        } else {
            (self.at(CompletionStage::CleanupQueue), QueueActionView::ReadQueue)
        }
    }
}

/// A completion publishes state only for a live session and an unchanged
/// queue. Together with the state it takes exactly the completed message off
/// the queue and marks new input.
pub proof fn completion_is_fenced(
    v: CompletionView,
    messages: Seq<MessageView>,
    s: store::StoreView,
)
    requires
        v.transaction(messages).applies(s),
    ensures
        ({
            let live = keys::live_key_at(v.prefix, v.fence.instance);
            &&& s.dom().contains(live)
            &&& s[live].value == encode_utf8(keys::session_key_text(v.fence.session))
        }),
        v.fence.revision@ > 0 ==> ({
            let queue = publication::pending_key(v.prefix);
            s.dom().contains(queue) && s[queue].mod_revision == v.fence.revision@
        }),
        v.transaction(messages).touches(v.state_key()),
        v.transaction(messages).touches(publication::marker_key(v.prefix)),
        forall|key: Seq<char>| #[trigger]
            v.transaction(messages).touches(key) ==> key == v.state_key() || key
                == publication::pending_key(v.prefix) || key == publication::marker_key(v.prefix),
{
    let t = v.transaction(messages);
    assert(t.conditions[0].holds(s));
    assert(t.conditions[1].holds(s));
    assert(t.mutations[0].key() == v.state_key());
    assert(t.mutations[2].key() == publication::marker_key(v.prefix));
    assert forall|key: Seq<char>| #[trigger] t.touches(key) implies key == v.state_key() || key
        == publication::pending_key(v.prefix) || key == publication::marker_key(v.prefix) by {
        let i = choose|i: int| 0 <= i < t.mutations.len() && #[trigger] t.mutations[i].key() == key;
        assert(i == 0 || i == 1 || i == 2);
    }
}

/// After the session is gone a completion never touches the published state.
pub proof fn lost_session_publishes_nothing(v: CompletionView, entry: Option<QueueView>)
    requires
        v.stage is CleanupQueue,
    ensures
        v.queue(entry).1 matches QueueActionView::Commit(t) ==> forall|key: Seq<char>| #[trigger]
            t.touches(key) ==> key == publication::pending_key(v.prefix),
{
    if let QueueActionView::Commit(t) = v.queue(entry).1 {
        assert(t.mutations.len() == 1);
    }
}

/// The completion of one message and, while still authoritative, the
/// publication of its state.
pub struct MessageCompletion {
    namespace: EtcdNamespace,
    fence: ParticipantCompletionFence,
    resource: ResourceId,
    partition: PartitionId,
    message: TransitionMessage,
    result: Option<State>,
    stage: CompletionStage,
}

impl View for MessageCompletion {
    type V = CompletionView;

    closed spec fn view(&self) -> CompletionView {
        CompletionView {
            prefix: self.namespace@.prefix,
            fence: self.fence@,
            message: self.message@,
            result: self.result.deep_view(),
            stage: self.stage,
        }
    }
}

impl MessageCompletion {
    #[verifier::type_invariant]
    spec fn inv(self) -> bool {
        self.resource@ == self.message.resource@ && self.partition@ == self.message.partition@
    }

    /// Begin to complete a message: the resulting state is published, or the
    /// published state deleted where there is none. A message for an invalid
    /// resource or partition is refused.
    pub fn complete_pending_transition(
        namespace: EtcdNamespace,
        fence: ParticipantCompletionFence,
        message: &TransitionMessage,
        resulting_state: Option<State>,
    ) -> (r: Result<(MessageCompletion, QueueAction<CompletionResult>), CoordinationError>)
        ensures
            match r {
                Ok((completion, action)) => {
                    &&& message@.resource.len() > 0
                    &&& message@.partition.len() > 0
                    &&& completion@ == (CompletionView {
                        prefix: namespace@.prefix,
                        fence: fence@,
                        message: message@,
                        result: resulting_state.deep_view(),
                        stage: CompletionStage::Queue,
                    })
                    &&& action@ == QueueActionView::<Completed>::ReadQueue
                },
                Err(error) => (message@.resource.len() == 0 || message@.partition.len() == 0)
                    && error@ == CoordinationFault::InvalidKey,
            },
    {
        let resource = match ResourceId::new(message.resource.as_str()) {
            Ok(resource) => resource,
            Err(_) => {
                return Err(CoordinationError::InvalidKey);
            },
        };
        let partition = match PartitionId::new(message.partition.as_str()) {
            Ok(partition) => partition,
            Err(_) => {
                return Err(CoordinationError::InvalidKey);
            },
        };
        Ok(
            (
                MessageCompletion {
                    namespace,
                    fence,
                    resource,
                    partition,
                    message: message.duplicate(),
                    result: resulting_state,
                    stage: CompletionStage::Queue,
                },
                QueueAction::ReadQueue,
            ),
        )
    }

    fn transaction(&self, messages: Vec<TransitionMessage>, index: usize) -> (r: Transaction)
        requires
            index < messages@.len(),
            index == position_of(messages.deep_view(), self@.fence.message),
        ensures
            r@ == self@.transaction(messages.deep_view()),
    {
        proof {
            use_type_invariant(self);
        }
        let ghost all = messages.deep_view();
        let mut rest = messages;
        rest.remove(index);
        assert(rest.deep_view() =~= all.remove(index as int));
        let key = self.namespace.current_state_key(
            &self.fence.instance,
            self.fence.session_id,
            &self.resource,
            &self.partition,
        );
        let queue = self.namespace.metadata_key("controller/output/pending-transitions");
        let state = match &self.result {
            Some(state) => Mutation::Put { key, value: state.to_string(), lease: None },
            None => Mutation::Delete { key },
        };
        let r = Transaction::new().require(
            Condition::Value {
                key: self.namespace.live_key(&self.fence.instance),
                value: keys::session_text(self.fence.session_id),
            },
        ).require(
            Condition::ModRevision {
                key: queue.clone(),
                revision: self.fence.queue_revision.value(),
            },
        ).change(state).change(Mutation::PutMessages { key: queue, messages: rest }).change(
            metadata::authoritative_input_marker_operation(&self.namespace),
        );
        assert(r@.conditions =~= self@.transaction(all).conditions);
        assert(r@.mutations =~= self@.transaction(all).mutations);
        r
    }

    /// Go on with the queue that was read.
    pub fn on_queue(&mut self, entry: Option<&QueueEntry>) -> (r: QueueAction<CompletionResult>)
        requires
            old(self)@.stage is Queue || old(self)@.stage is CleanupQueue,
        ensures
            (final(self)@, r@) == old(self)@.queue(entry.deep_view()),
    {
        proof {
            use_type_invariant(&*self);
        }
        let cleanup = matches!(self.stage, CompletionStage::CleanupQueue);
        let entry = match entry {
            None => {
                return QueueAction::Finish(
                    Ok(
                        if cleanup {
                            CompletionResult::SessionLost
                        } else {
                            CompletionResult::AlreadyCompleted
                        },
                    ),
                );
            },
            Some(entry) => entry,
        };
        let messages = match queue_messages(entry) {
            Ok(messages) => messages,
            Err(error) => {
                return QueueAction::Finish(Err(error));
            },
        };
        let index: usize = find_message(&messages, self.fence.message_id.as_str());
        if index >= messages.len() {
            return QueueAction::Finish(Ok(CompletionResult::AlreadyCompleted));
        }
        if cleanup {
            if !entry.revision.same(&self.fence.queue_revision) {
                return QueueAction::Finish(Ok(CompletionResult::SessionLost));
            }
            let rest = remove_id(&messages, self.fence.message_id.as_str());
            let transaction = queue_replacement(&self.namespace, self.fence.queue_revision, rest);
            self.stage = CompletionStage::CleanupCommit;
            return QueueAction::Commit(transaction);
        }
        if !messages[index].same(&self.message) {
            return QueueAction::Finish(Ok(CompletionResult::AlreadyCompleted));
        }
        if !entry.revision.same(&self.fence.queue_revision) {
            return QueueAction::Finish(Err(CoordinationError::StaleRevision));
        }
        let transaction = self.transaction(messages, index);
        self.stage = CompletionStage::Commit;
        QueueAction::Commit(transaction)
    }

    /// Go on after the completion was committed or refused.
    pub fn on_outcome(&mut self, succeeded: bool, header: Option<i64>) -> (r: QueueAction<
        CompletionResult,
    >)
        requires
            old(self)@.stage is Commit || old(self)@.stage is CleanupCommit,
        ensures
            (final(self)@, r@) == old(self)@.outcome(succeeded, header),
    {
        proof {
            use_type_invariant(&*self);
        }
        let revision = store::revision_from_header(header);
        if matches!(self.stage, CompletionStage::CleanupCommit) {
            return match revision {
                Ok(_) => QueueAction::Finish(Ok(CompletionResult::SessionLost)),
                Err(error) => QueueAction::Finish(Err(error)),
            };
        }
        if succeeded {
            return match revision {
                Ok(revision) => QueueAction::Finish(Ok(CompletionResult::Applied(revision))),
                Err(error) => QueueAction::Finish(Err(error)),
            };
        }
        self.stage = CompletionStage::LiveSession;
        QueueAction::ReadLiveSession
    }

    /// Go on with the live session that was read.
    pub fn on_live_session(&mut self, session: Option<SessionId>) -> (r: QueueAction<
        CompletionResult,
    >)
        requires
            old(self)@.stage is LiveSession,
        ensures
            (final(self)@, r@) == old(self)@.live(session.deep_view()),
    {
        proof {
            use_type_invariant(&*self);
        }
        if is_session(session, self.fence.session_id) {
            return QueueAction::Finish(Err(CoordinationError::StaleRevision));
        }
        self.stage = CompletionStage::CleanupQueue;
        QueueAction::ReadQueue
    }
}

/// What follows a read of the queue when a message is to be removed from the
/// queue of a revision.
pub open spec fn removal(
    prefix: Seq<char>,
    expected: i64,
    id: Seq<char>,
    entry: Option<QueueView>,
) -> QueueActionView<bool> {
    match entry {
        None => QueueActionView::Finish(Ok(false)),
        Some(entry) => match queued(entry.decoded) {
            Err(fault) => QueueActionView::Finish(Err(fault)),
            Ok(messages) => if !holds_id(messages, id) {
                QueueActionView::Finish(Ok(false))
            } else if entry.revision@ != expected {
                QueueActionView::Finish(Err(CoordinationFault::StaleRevision))
            } else {
                QueueActionView::Commit(
                    replace_queue(prefix, expected, without_id(messages, id)),
                )
            },
        },
    }
}

/// Remove one queue message with an exact revision guard, without touching
/// state.
pub fn remove_pending_transition(
    namespace: &EtcdNamespace,
    expected_revision: Revision,
    message_id: &str,
    entry: Option<&QueueEntry>,
) -> (r: QueueAction<bool>)
    ensures
        r@ == removal(namespace@.prefix, expected_revision@, message_id@, entry.deep_view()),
{
    let entry = match entry {
        None => {
            return QueueAction::Finish(Ok(false));
        },
        Some(entry) => entry,
    };
    let messages = match queue_messages(entry) {
        Ok(messages) => messages,
        Err(error) => {
            return QueueAction::Finish(Err(error));
        },
    };
    if find_message(&messages, message_id) >= messages.len() {
        return QueueAction::Finish(Ok(false));
    }
    if !entry.revision.same(&expected_revision) {
        return QueueAction::Finish(Err(CoordinationError::StaleRevision));
    }
    let rest = remove_id(&messages, message_id);
    QueueAction::Commit(queue_replacement(namespace, expected_revision, rest))
}

/// What the removal of a message comes to after its transaction.
pub fn removal_outcome(succeeded: bool, header: Option<i64>) -> (r: Result<bool, CoordinationError>)
    ensures
        match (r, store::header_revision(header)) {
            (Ok(removed), Ok(_)) => succeeded && removed,
            (Err(error), Ok(_)) => !succeeded && error@ == CoordinationFault::StaleRevision,
            (Err(error), Err(fault)) => error@ == fault,
            _ => false,
        },
{
    match store::revision_from_header(header) {
        Err(error) => Err(error),
        Ok(_) => if succeeded {
            Ok(true)
        } else {
            Err(CoordinationError::StaleRevision)
        },
    }
}

/// The removal of the queued transitions of a resource.
pub struct PurgeView {
    pub prefix: Seq<char>,
    pub resource: Seq<char>,
    pub attempts: nat,
}

impl PurgeView {
    /// What follows a read of the queue.
    pub open spec fn queue(self, entry: Option<QueueView>) -> QueueActionView<()> {
        match entry {
            None => QueueActionView::Finish(Ok(())),
            Some(entry) => match queued(entry.decoded) {
                Err(fault) => QueueActionView::Finish(Err(fault)),
                Ok(messages) => if without_resource(messages, self.resource).len()
                    == messages.len() {
                    QueueActionView::Finish(Ok(()))
                } else {
                    QueueActionView::Commit(
                        replace_queue(
                            self.prefix,
                            entry.revision@,
                            without_resource(messages, self.resource),
                        ),
                    )
                },
            },
        }
    }

    /// What follows the committed transaction.
    pub open spec fn outcome(self, succeeded: bool, header: Option<i64>) -> (
        PurgeView,
        QueueActionView<()>,
    ) {
        match store::header_revision(header) {
            Err(fault) => (self, QueueActionView::Finish(Err(fault))),
            Ok(_) => if succeeded {
                (self, QueueActionView::Finish(Ok(())))
            } else {
                let next = PurgeView { attempts: self.attempts + 1, ..self };
                if next.attempts < metadata::MAX_QUEUE_CAS_RETRIES {
                    (next, QueueActionView::ReadQueue)
                } else {
                    (next, QueueActionView::Finish(Err(CoordinationFault::Contention)))
                }
            },
        }
    }
}

/// The removal of queued transitions that target a resource deleted from
/// metadata.
pub struct ResourcePurge {
    namespace: EtcdNamespace,
    resource: ResourceId,
    attempts: u32,
}

impl View for ResourcePurge {
    type V = PurgeView;

    closed spec fn view(&self) -> PurgeView {
        PurgeView {
            prefix: self.namespace@.prefix,
            resource: self.resource@,
            attempts: self.attempts as nat,
        }
    }
}

impl ResourcePurge {
    /// Begin to remove the queued transitions of a resource: the queue is read
    /// first.
    pub fn remove_pending_transitions_for_resource(
        namespace: EtcdNamespace,
        resource: ResourceId,
    ) -> (r: ResourcePurge)
        ensures
            r@ == (PurgeView { prefix: namespace@.prefix, resource: resource@, attempts: 0 }),
    {
        ResourcePurge { namespace, resource, attempts: 0 }
    }

    /// Go on with the queue that was read.
    pub fn on_queue(&self, entry: Option<&QueueEntry>) -> (r: QueueAction<()>)
        ensures
            r@ == self@.queue(entry.deep_view()),
    {
        let entry = match entry {
            None => {
                return QueueAction::Finish(Ok(()));
            },
            Some(entry) => entry,
        };
        let messages = match queue_messages(entry) {
            Ok(messages) => messages,
            Err(error) => {
                return QueueAction::Finish(Err(error));
            },
        };
        let rest = remove_resource(&messages, self.resource.as_str());
        assert(rest.deep_view().len() == rest@.len());
        assert(messages.deep_view().len() == messages@.len());
        if rest.len() == messages.len() {
            return QueueAction::Finish(Ok(()));
        }
        QueueAction::Commit(queue_replacement(&self.namespace, entry.revision, rest))
    }

    /// Go on after the queue was changed or the change refused.
    pub fn on_outcome(&mut self, succeeded: bool, header: Option<i64>) -> (r: QueueAction<()>)
        requires
            old(self)@.attempts < metadata::MAX_QUEUE_CAS_RETRIES,
        ensures
            (final(self)@, r@) == old(self)@.outcome(succeeded, header),
    {
        match store::revision_from_header(header) {
            Ok(_) => {},
            Err(error) => {
                return QueueAction::Finish(Err(error));
            },
        }
        if succeeded {
            return QueueAction::Finish(Ok(()));
        }
        self.attempts = self.attempts + 1;
        if self.attempts < metadata::MAX_QUEUE_CAS_RETRIES {
            QueueAction::ReadQueue
        } else {
            QueueAction::Finish(Err(CoordinationError::Contention))
        }
    }
}

} // verus!
