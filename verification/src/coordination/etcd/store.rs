//! Entries of the key-value store and guarded changes to them.
use crate::coordination::etcd::error::{CoordinationError, CoordinationFault};
use crate::coordination::etcd::revision::Revision;
use crate::text;
use crate::transition::{MessageView, TransitionMessage};
use vstd::prelude::*;
use vstd::utf8::*;

verus! {

/// One entry of the store, as a read returns it.
#[derive(Clone, Debug, PartialEq, Eq)]
pub struct KeyValue {
    pub key: Vec<u8>,
    pub value: Vec<u8>,
    pub create_revision: i64,
    pub mod_revision: i64,
    pub lease: i64,
}

/// What an entry of the store says.
#[verifier::ext_equal]
pub struct EntryView {
    pub key: Seq<u8>,
    pub value: Seq<u8>,
    pub create_revision: i64,
    pub mod_revision: i64,
    pub lease: i64,
}

impl View for KeyValue {
    type V = EntryView;

    open spec fn view(&self) -> EntryView {
        EntryView {
            key: self.key@,
            value: self.value@,
            create_revision: self.create_revision,
            mod_revision: self.mod_revision,
            lease: self.lease,
        }
    }
}

impl DeepView for KeyValue {
    type V = EntryView;

    open spec fn deep_view(&self) -> EntryView {
        self@
    }
}

impl KeyValue {
    /// Write down an entry.
    pub fn new(
        key: &str,
        value: &str,
        create_revision: i64,
        mod_revision: i64,
        lease: i64,
    ) -> (r: KeyValue)
        ensures
            r@ == (EntryView {
                key: encode_utf8(key@),
                value: encode_utf8(value@),
                create_revision,
                mod_revision,
                lease,
            }),
    {
        KeyValue {
            key: text::bytes_of(key),
            value: text::bytes_of(value),
            create_revision,
            mod_revision,
            lease,
        }
    }
}

/// A condition on one key of the store.
#[derive(Clone, Debug, PartialEq, Eq)]
pub enum Condition {
    /// The key holds this value.
    Value { key: String, value: String },
    /// The key has been written this many times since it came to be.
    Version { key: String, version: i64 },
    /// The key was last written at this revision.
    ModRevision { key: String, revision: i64 },
    /// The key came to be at this revision.
    CreateRevision { key: String, revision: i64 },
    /// The key is attached to this lease.
    Lease { key: String, lease: i64 },
}

/// What a condition says.
pub enum ConditionView {
    Value { key: Seq<char>, value: Seq<char> },
    Version { key: Seq<char>, version: i64 },
    ModRevision { key: Seq<char>, revision: i64 },
    CreateRevision { key: Seq<char>, revision: i64 },
    Lease { key: Seq<char>, lease: i64 },
}

impl View for Condition {
    type V = ConditionView;

    open spec fn view(&self) -> ConditionView {
        match self {
            Condition::Value { key, value } => ConditionView::Value { key: key@, value: value@ },
            Condition::Version { key, version } => ConditionView::Version {
                key: key@,
                version: *version,
            },
            Condition::ModRevision { key, revision } => ConditionView::ModRevision {
                key: key@,
                revision: *revision,
            },
            Condition::CreateRevision { key, revision } => ConditionView::CreateRevision {
                key: key@,
                revision: *revision,
            },
            Condition::Lease { key, lease } => ConditionView::Lease { key: key@, lease: *lease },
        }
    }
}

impl DeepView for Condition {
    type V = ConditionView;

    open spec fn deep_view(&self) -> ConditionView {
        self@
    }
}

/// One change to the store.
#[derive(Clone, Debug, PartialEq, Eq)]
pub enum Mutation {
    /// Write a value, attached to a lease where one is given.
    Put { key: String, value: String, lease: Option<i64> },
    /// Write raw bytes.
    PutBytes { key: String, value: Vec<u8> },
    /// Write a queue of transition messages in its stored form.
    PutMessages { key: String, messages: Vec<TransitionMessage> },
    /// Delete the key.
    Delete { key: String },
}

/// What a change says.
pub enum MutationView {
    Put { key: Seq<char>, value: Seq<char>, lease: Option<i64> },
    PutBytes { key: Seq<char>, value: Seq<u8> },
    PutMessages { key: Seq<char>, messages: Seq<MessageView> },
    Delete { key: Seq<char> },
}

impl View for Mutation {
    type V = MutationView;

    open spec fn view(&self) -> MutationView {
        match self {
            Mutation::Put { key, value, lease } => MutationView::Put {
                key: key@,
                value: value@,
                lease: *lease,
            },
            Mutation::PutBytes { key, value } => MutationView::PutBytes {
                key: key@,
                value: value@,
            },
            Mutation::PutMessages { key, messages } => MutationView::PutMessages {
                key: key@,
                messages: messages.deep_view(),
            },
            Mutation::Delete { key } => MutationView::Delete { key: key@ },
        }
    }
}

impl DeepView for Mutation {
    type V = MutationView;

    open spec fn deep_view(&self) -> MutationView {
        self@
    }
}

impl MutationView {
    /// The key that the change is about.
    pub open spec fn key(self) -> Seq<char> {
        match self {
            MutationView::Put { key, .. } => key,
            MutationView::PutBytes { key, .. } => key,
            MutationView::PutMessages { key, .. } => key,
            MutationView::Delete { key } => key,
        }
    }
}

/// Changes that are made together, where every condition holds, and otherwise
/// not at all.
#[derive(Clone, Debug, PartialEq, Eq)]
pub struct Transaction {
    pub conditions: Vec<Condition>,
    pub mutations: Vec<Mutation>,
}

/// What a transaction says.
#[verifier::ext_equal]
pub struct TransactionView {
    pub conditions: Seq<ConditionView>,
    pub mutations: Seq<MutationView>,
}

impl View for Transaction {
    type V = TransactionView;

    open spec fn view(&self) -> TransactionView {
        TransactionView {
            conditions: self.conditions.deep_view(),
            mutations: self.mutations.deep_view(),
        }
    }
}

impl DeepView for Transaction {
    type V = TransactionView;

    open spec fn deep_view(&self) -> TransactionView {
        self@
    }
}

impl Transaction {
    /// A transaction that changes nothing and asks nothing.
    pub fn new() -> (r: Transaction)
        ensures
            r@ == (TransactionView { conditions: Seq::empty(), mutations: Seq::empty() }),
    {
        let r = Transaction { conditions: Vec::new(), mutations: Vec::new() };
        assert(r@.conditions =~= Seq::empty());
        assert(r@.mutations =~= Seq::empty());
        r
    }

    /// Ask for one more condition.
    pub fn require(self, condition: Condition) -> (r: Transaction)
        ensures
            r@ == (TransactionView {
                conditions: self@.conditions.push(condition@),
                mutations: self@.mutations,
            }),
    {
        let mut conditions = self.conditions;
        conditions.push(condition);
        let r = Transaction { conditions, mutations: self.mutations };
        assert(r@.conditions =~= self@.conditions.push(condition@));
        r
    }

    /// Make one more change.
    pub fn change(self, mutation: Mutation) -> (r: Transaction)
        ensures
            r@ == (TransactionView {
                conditions: self@.conditions,
                mutations: self@.mutations.push(mutation@),
            }),
    {
        let mut mutations = self.mutations;
        mutations.push(mutation);
        let r = Transaction { conditions: self.conditions, mutations };
        assert(r@.mutations =~= self@.mutations.push(mutation@));
        r
    }
}

/// One key of the store.
#[verifier::ext_equal]
pub struct CellView {
    pub value: Seq<u8>,
    pub version: int,
    pub create_revision: int,
    pub mod_revision: int,
    pub lease: int,
}

/// The whole store: what each existing key holds.
pub type StoreView = Map<Seq<char>, CellView>;

impl ConditionView {
    /// The condition holds of a store. Numbers of a key that does not exist
    /// read as zero, and such a key holds no value.
    pub open spec fn holds(self, store: StoreView) -> bool {
        match self {
            ConditionView::Value { key, value } => store.dom().contains(key) && store[key].value
                == encode_utf8(value),
            ConditionView::Version { key, version } => version == if store.dom().contains(key) {
                store[key].version
            } else {
                0
            },
            ConditionView::ModRevision { key, revision } => revision == if store.dom().contains(
                key,
            ) {
                store[key].mod_revision
            } else {
                0
            },
            ConditionView::CreateRevision { key, revision } => revision == if store.dom().contains(
                key,
            ) {
                store[key].create_revision
            } else {
                0
            },
            ConditionView::Lease { key, lease } => lease == if store.dom().contains(key) {
                store[key].lease
            } else {
                0
            },
        }
    }
}

impl TransactionView {
    /// The transaction may change this store.
    pub open spec fn applies(self, store: StoreView) -> bool {
        forall|i: int|
            0 <= i < self.conditions.len() ==> #[trigger] self.conditions[i].holds(store)
    }

    /// The transaction changes the key.
    pub open spec fn touches(self, key: Seq<char>) -> bool {
        exists|i: int| 0 <= i < self.mutations.len() && #[trigger] self.mutations[i].key() == key
    }

    /// With one more condition.
    pub open spec fn requiring(self, condition: ConditionView) -> TransactionView {
        TransactionView { conditions: self.conditions.push(condition), ..self }
    }

    /// With one more change.
    pub open spec fn changing(self, mutation: MutationView) -> TransactionView {
        TransactionView { mutations: self.mutations.push(mutation), ..self }
    }
}

/// How a queue of transition messages is written down.
pub type QueueForm = spec_fn(Seq<MessageView>) -> Seq<u8>;

/// A key once a value was written there at a revision. It keeps the revision
/// at which it came to be, and leaves the lease that it was attached to.
pub open spec fn rewritten(
    store: StoreView,
    key: Seq<char>,
    value: Seq<u8>,
    revision: int,
    lease: int,
) -> CellView {
    CellView {
        value,
        version: if store.dom().contains(key) {
            store[key].version + 1
        } else {
            1
        },
        create_revision: if store.dom().contains(key) {
            store[key].create_revision
        } else {
            revision
        },
        mod_revision: revision,
        lease,
    }
}

impl MutationView {
    /// The store once the change was made at a revision.
    pub open spec fn made(self, store: StoreView, revision: int, form: QueueForm) -> StoreView {
        match self {
            MutationView::Put { key, value, lease } => store.insert(
                key,
                rewritten(
                    store,
                    key,
                    encode_utf8(value),
                    revision,
                    match lease {
                        Some(lease) => lease as int,
                        None => 0,
                    },
                ),
            ),
            MutationView::PutBytes { key, value } => store.insert(
                key,
                rewritten(store, key, value, revision, 0),
            ),
            MutationView::PutMessages { key, messages } => store.insert(
                key,
                rewritten(store, key, form(messages), revision, 0),
            ),
            MutationView::Delete { key } => store.remove(key),
        }
    }
}

/// The store once changes were made one after the other at a revision.
pub open spec fn all_made(
    mutations: Seq<MutationView>,
    store: StoreView,
    revision: int,
    form: QueueForm,
) -> StoreView
    decreases mutations.len(),
{
    if mutations.len() == 0 {
        store
    } else {
        mutations.last().made(
            all_made(mutations.drop_last(), store, revision, form),
            revision,
            form,
        )
    }
}

impl TransactionView {
    /// The store once the transaction took effect at a revision.
    pub open spec fn committed(
        self,
        store: StoreView,
        revision: int,
        form: QueueForm,
    ) -> StoreView {
        all_made(self.mutations, store, revision, form)
    }
}

/// What a read of a key returns.
pub open spec fn entry_at(store: StoreView, key: Seq<char>) -> Option<EntryView> {
    if store.dom().contains(key) {
        Some(
            EntryView {
                key: encode_utf8(key),
                value: store[key].value,
                create_revision: store[key].create_revision as i64,
                mod_revision: store[key].mod_revision as i64,
                lease: store[key].lease as i64,
            },
        )
    } else {
        None
    }
}

/// The empty transaction.
pub open spec fn no_changes() -> TransactionView {
    TransactionView { conditions: Seq::empty(), mutations: Seq::empty() }
}

/// What an operation on the store does next.
#[derive(Debug, PartialEq, Eq)]
pub enum StoreAction<T> {
    /// Read the entry at a key.
    Read(String),
    /// Commit a transaction.
    Commit(Transaction),
    /// The operation is over.
    Finish(Result<T, CoordinationError>),
}

/// What an operation on the store does next.
pub enum ActionView<B> {
    Read(Seq<char>),
    Commit(TransactionView),
    Finish(Result<B, CoordinationFault>),
}

impl<T: DeepView> View for StoreAction<T> {
    type V = ActionView<T::V>;

    open spec fn view(&self) -> ActionView<T::V> {
        match self {
            StoreAction::Read(key) => ActionView::Read(key@),
            StoreAction::Commit(transaction) => ActionView::Commit(transaction@),
            StoreAction::Finish(Ok(value)) => ActionView::Finish(Ok(value.deep_view())),
            StoreAction::Finish(Err(error)) => ActionView::Finish(Err(error@)),
        }
    }
}

/// The revision that a response header carries.
pub open spec fn header_revision(header: Option<i64>) -> Result<i64, CoordinationFault> {
    match header {
        None => Err(CoordinationFault::MissingRevision),
        Some(revision) => if revision > 0 {
            Ok(revision)
        } else {
            Err(CoordinationFault::InvalidRevision(revision))
        },
    }
}

/// Read the revision of a response header.
pub fn revision_from_header(header: Option<i64>) -> (r: Result<Revision, CoordinationError>)
    ensures
        match r {
            Ok(revision) => header_revision(header) == Ok::<i64, CoordinationFault>(revision@),
            Err(error) => header_revision(header) == Err::<i64, CoordinationFault>(error@),
        },
{
    match header {
        None => Err(CoordinationError::MissingRevision),
        Some(revision) => Revision::new(revision),
    }
}

/// The result of an operation that returns a revision.
pub(crate) fn finish_revision(r: Result<Revision, CoordinationError>) -> (a: StoreAction<Revision>)
    ensures
        a@ == match r {
            Ok(revision) => ActionView::Finish(Ok(revision@)),
            Err(error) => ActionView::<i64>::Finish(Err(error@)),
        },
{
    StoreAction::Finish(r)
}

} // verus!
