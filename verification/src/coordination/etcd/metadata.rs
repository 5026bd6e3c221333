//! Metadata entries and the guarded changes to them.
use crate::coordination::etcd::error::{CoordinationError, CoordinationFault};
use crate::coordination::etcd::keys::{self, EtcdNamespace};
use crate::coordination::etcd::revision::Revision;
use crate::coordination::etcd::store::{self, Condition, KeyValue, Mutation, StoreAction, Transaction};
use crate::model::InstanceId;
use crate::ordered::{Duplicate, Key};
use crate::text;
use vstd::prelude::*;
use vstd::string::*;
use vstd::utf8::*;

verus! {

/// The metadata key of the controller's transition queue.
pub const PENDING_TRANSITIONS_KEY: &'static str = "controller/output/pending-transitions";

/// How often a guarded change is tried before it counts as contended.
pub const MAX_QUEUE_CAS_RETRIES: u32 = 256;

/// What a metadata entry says.
#[verifier::ext_equal]
pub struct MetadataView {
    pub value: Option<Seq<char>>,
    pub revision: i64,
}

/// A persistent metadata value and its modification revision.
#[derive(Clone, Debug, PartialEq, Eq)]
pub struct MetadataEntry {
    value: Option<String>,
    revision: Revision,
}

impl View for MetadataEntry {
    type V = MetadataView;

    closed spec fn view(&self) -> MetadataView {
        MetadataView { value: self.value.deep_view(), revision: self.revision@ }
    }
}

impl DeepView for MetadataEntry {
    type V = MetadataView;

    open spec fn deep_view(&self) -> MetadataView {
        self@
    }
}

impl Duplicate for MetadataEntry {
    fn duplicate(&self) -> (r: Self) {
        MetadataEntry { value: self.value.duplicate(), revision: self.revision }
    }
}

impl MetadataEntry {
    /// A stored value and its modification revision.
    pub fn new(value: String, revision: Revision) -> (r: MetadataEntry)
        ensures
            r@ == (MetadataView { value: Some(value@), revision: revision@ }),
    {
        MetadataEntry { value: Some(value), revision }
    }

    /// A key without a value at the revision of a snapshot.
    pub fn empty(revision: Revision) -> (r: MetadataEntry)
        ensures
            r@ == (MetadataView { value: None, revision: revision@ }),
    {
        MetadataEntry { value: None, revision }
    }

    /// Return the stored value, if present.
    pub fn value(&self) -> (r: Option<&str>)
        ensures
            match r {
                Some(value) => self@.value == Some(value@),
                None => self@.value is None,
            },
    {
        match &self.value {
            Some(value) => Some(value.as_str()),
            None => None,
        }
    }

    /// Return the value's modification revision, or the snapshot revision if absent.
    pub fn revision(&self) -> (r: Revision)
        ensures
            r@ == self@.revision,
    {
        self.revision
    }
}

/// Result of a revision-guarded metadata update.
#[derive(Clone, Copy, Debug, PartialEq, Eq)]
pub struct CasResult {
    applied: bool,
    revision: Revision,
}

impl View for CasResult {
    type V = (bool, i64);

    closed spec fn view(&self) -> (bool, i64) {
        (self.applied, self.revision@)
    }
}

impl DeepView for CasResult {
    type V = (bool, i64);

    open spec fn deep_view(&self) -> (bool, i64) {
        self@
    }
}

impl CasResult {
    /// What became of a guarded update at a revision.
    pub fn new(applied: bool, revision: Revision) -> (r: CasResult)
        ensures
            r@ == (applied, revision@),
    {
        CasResult { applied, revision }
    }

    /// The result of a committed transaction.
    pub fn of_outcome(succeeded: bool, header: Option<i64>) -> (r: Result<
        CasResult,
        CoordinationError,
    >)
        ensures
            match (r, store::header_revision(header)) {
                (Ok(result), Ok(revision)) => result@ == (succeeded, revision),
                (Err(error), Err(fault)) => error@ == fault,
                _ => false,
            },
    {
        match store::revision_from_header(header) {
            Ok(revision) => Ok(CasResult { applied: succeeded, revision }),
            Err(error) => Err(error),
        }
    }

    /// Whether the compare condition succeeded and the value was updated.
    pub fn applied(self) -> (r: bool)
        ensures
            r == self@.0,
    {
        self.applied
    }

    /// The revision at which the transaction completed.
    pub fn revision(self) -> (r: Revision)
        ensures
            r@ == self@.1,
    {
        self.revision
    }
}

/// The text of a stored value.
pub open spec fn value_text(value: Seq<u8>) -> Result<Seq<char>, CoordinationFault> {
    if valid_utf8(value) {
        Ok(decode_utf8(value))
    } else {
        Err(CoordinationFault::InvalidValue)
    }
}

/// The metadata that a stored entry holds.
pub open spec fn metadata_of(entry: store::EntryView) -> Result<MetadataView, CoordinationFault> {
    match value_text(entry.value) {
        Err(fault) => Err(fault),
        Ok(value) => if entry.mod_revision > 0 {
            Ok(MetadataView { value: Some(value), revision: entry.mod_revision })
        } else {
            Err(CoordinationFault::InvalidRevision(entry.mod_revision))
        },
    }
}

/// Read the text of a stored value.
pub(crate) fn stored_text(value: &Vec<u8>) -> (r: Result<String, CoordinationError>)
    ensures
        match (r, value_text(value@)) {
            (Ok(text), Ok(model)) => text@ == model,
            (Err(error), Err(fault)) => error@ == fault,
            _ => false,
        },
{
    match keys::utf8_text(keys::copy_bytes(value)) {
        Some(text) => Ok(text),
        None => Err(CoordinationError::InvalidValue),
    }
}

/// Read the metadata of a stored entry.
pub fn metadata_entry(entry: &KeyValue) -> (r: Result<MetadataEntry, CoordinationError>)
    ensures
        match (r, metadata_of(entry@)) {
            (Ok(result), Ok(model)) => result@ == model,
            (Err(error), Err(fault)) => error@ == fault,
            _ => false,
        },
{
    let value = match stored_text(&entry.value) {
        Ok(value) => value,
        Err(error) => {
            return Err(error);
        },
    };
    let revision = match Revision::new(entry.mod_revision) {
        Ok(revision) => revision,
        Err(error) => {
            return Err(error);
        },
    };
    Ok(MetadataEntry { value: Some(value), revision })
}

/// Read the metadata of the first entry, or an empty entry at the revision of
/// the snapshot.
pub fn metadata_entry_from_snapshot(
    snapshot_revision: Revision,
    key_values: &Vec<KeyValue>,
) -> (r: Result<MetadataEntry, CoordinationError>)
    ensures
        match r {
            Ok(result) => if key_values@.len() == 0 {
                result@ == (MetadataView { value: None, revision: snapshot_revision@ })
            } else {
                metadata_of(key_values@[0]@) == Ok::<MetadataView, CoordinationFault>(result@)
            },
            Err(error) => key_values@.len() > 0 && metadata_of(key_values@[0]@) == Err::<
                MetadataView,
                CoordinationFault,
            >(error@),
        },
{
    if key_values.len() == 0 {
        return Ok(MetadataEntry::empty(snapshot_revision));
    }
    metadata_entry(&key_values[0])
}

/// The metadata key whose modification marks new authoritative input.
pub open spec fn marker_name() -> Seq<char> {
    "internal/authoritative-input"@
}

/// A metadata key holds authoritative input: it is not the input marker, not
/// written by the controller, and not the progress of a participant.
pub open spec fn authoritative_metadata(key: Seq<char>) -> bool {
    &&& key != marker_name()
    &&& !"controller/output/"@.is_prefix_of(key)
    &&& !("participant/"@.is_prefix_of(key) && "/processed-revision"@.is_suffix_of(key))
}

/// Whether a metadata key holds authoritative input.
pub fn is_authoritative_metadata_key(key: &str) -> (r: bool)
    ensures
        r == authoritative_metadata(key@),
{
    !text::text_eq(key, "internal/authoritative-input") && !text::starts_with(
        key,
        "controller/output/",
    ) && !(text::starts_with(key, "participant/") && text::ends_with(key, "/processed-revision"))
}

/// The change that marks new authoritative input.
pub open spec fn marker_put(prefix: Seq<char>) -> store::MutationView {
    store::MutationView::Put {
        key: keys::metadata_key_at(prefix, marker_name()),
        value: "1"@,
        lease: None,
    }
}

/// Mark new authoritative input.
pub fn authoritative_input_marker_operation(namespace: &EtcdNamespace) -> (r: Mutation)
    ensures
        r@ == marker_put(namespace@.prefix),
{
    Mutation::Put {
        key: namespace.metadata_key("internal/authoritative-input"),
        value: "1".to_owned(),
        lease: None,
    }
}

/// The transaction marks new input where the metadata key is authoritative.
pub open spec fn marked(
    transaction: store::TransactionView,
    prefix: Seq<char>,
    key: Seq<char>,
) -> store::TransactionView {
    if authoritative_metadata(key) {
        transaction.changing(marker_put(prefix))
    } else {
        transaction
    }
}

/// Mark new input where the metadata key is authoritative.
pub(crate) fn mark(transaction: Transaction, namespace: &EtcdNamespace, key: &str) -> (r: Transaction)
    ensures
        r@ == marked(transaction@, namespace@.prefix, key@),
{
    if is_authoritative_metadata_key(key) {
        transaction.change(authoritative_input_marker_operation(namespace))
    } else {
        transaction
    }
}

/// Write a metadata value.
pub open spec fn metadata_put(
    prefix: Seq<char>,
    key: Seq<char>,
    value: Seq<char>,
    lease: Option<i64>,
) -> store::MutationView {
    store::MutationView::Put { key: keys::metadata_key_at(prefix, key), value, lease }
}

/// The metadata key still has this modification revision.
pub open spec fn unmodified(
    prefix: Seq<char>,
    key: Seq<char>,
    revision: i64,
) -> store::ConditionView {
    store::ConditionView::ModRevision { key: keys::metadata_key_at(prefix, key), revision }
}

/// The metadata key does not exist.
pub open spec fn missing(prefix: Seq<char>, key: Seq<char>) -> store::ConditionView {
    store::ConditionView::Version { key: keys::metadata_key_at(prefix, key), version: 0 }
}

/// Write a metadata value, unconditionally.
pub open spec fn plain_put(
    prefix: Seq<char>,
    key: Seq<char>,
    value: Seq<char>,
    lease: Option<i64>,
) -> store::TransactionView {
    marked(store::no_changes().changing(metadata_put(prefix, key, value, lease)), prefix, key)
}

/// Write a metadata value that still has this modification revision.
pub open spec fn compared_put(
    prefix: Seq<char>,
    key: Seq<char>,
    revision: i64,
    value: Seq<char>,
) -> store::TransactionView {
    marked(
        store::no_changes().requiring(unmodified(prefix, key, revision)).changing(
            metadata_put(prefix, key, value, None),
        ),
        prefix,
        key,
    )
}

/// Write a metadata value that still has this modification revision, while an
/// instance has no live session.
pub open spec fn compared_put_if_absent(
    prefix: Seq<char>,
    key: Seq<char>,
    revision: i64,
    instance: Seq<char>,
    value: Seq<char>,
) -> store::TransactionView {
    marked(
        store::no_changes().requiring(unmodified(prefix, key, revision)).requiring(
            store::ConditionView::Version { key: keys::live_key_at(prefix, instance), version: 0 },
        ).changing(metadata_put(prefix, key, value, None)),
        prefix,
        key,
    )
}

/// Delete a metadata value that still has this modification revision.
pub open spec fn compared_delete(
    prefix: Seq<char>,
    key: Seq<char>,
    revision: i64,
) -> store::TransactionView {
    marked(
        store::no_changes().requiring(unmodified(prefix, key, revision)).changing(
            store::MutationView::Delete { key: keys::metadata_key_at(prefix, key) },
        ),
        prefix,
        key,
    )
}

/// Write one metadata entry, unconditionally.
pub fn put_metadata(
    namespace: &EtcdNamespace,
    key: &str,
    value: &str,
    lease: Option<i64>,
) -> (r: Transaction)
    ensures
        r@ == marked(
            store::no_changes().changing(metadata_put(namespace@.prefix, key@, value@, lease)),
            namespace@.prefix,
            key@,
        ),
        r@ == plain_put(namespace@.prefix, key@, value@, lease),
{
    let put = Mutation::Put { key: namespace.metadata_key(key), value: value.to_owned(), lease };
    mark(Transaction::new().change(put), namespace, key)
}

/// Update a metadata entry if its modification revision still matches.
pub fn compare_and_put_metadata(
    namespace: &EtcdNamespace,
    key: &str,
    expected_revision: Revision,
    value: &str,
) -> (r: Transaction)
    ensures
        r@ == marked(
            store::no_changes().requiring(
                unmodified(namespace@.prefix, key@, expected_revision@),
            ).changing(metadata_put(namespace@.prefix, key@, value@, None)),
            namespace@.prefix,
            key@,
        ),
        r@ == compared_put(namespace@.prefix, key@, expected_revision@, value@),
{
    let condition = Condition::ModRevision {
        key: namespace.metadata_key(key),
        revision: expected_revision.value(),
    };
    let put = Mutation::Put {
        key: namespace.metadata_key(key),
        value: value.to_owned(),
        lease: None,
    };
    mark(Transaction::new().require(condition).change(put), namespace, key)
}

/// Update a metadata entry if its modification revision still matches and the
/// instance has no live session.
pub fn compare_and_put_metadata_if_live_absent(
    namespace: &EtcdNamespace,
    key: &str,
    expected_revision: Revision,
    instance: &InstanceId,
    value: &str,
) -> (r: Transaction)
    ensures
        r@ == marked(
            store::no_changes().requiring(
                unmodified(namespace@.prefix, key@, expected_revision@),
            ).requiring(
                store::ConditionView::Version {
                    key: keys::live_key_at(namespace@.prefix, instance@),
                    version: 0,
                },
            ).changing(metadata_put(namespace@.prefix, key@, value@, None)),
            namespace@.prefix,
            key@,
        ),
        r@ == compared_put_if_absent(
            namespace@.prefix,
            key@,
            expected_revision@,
            instance@,
            value@,
        ),
{
    let condition = Condition::ModRevision {
        key: namespace.metadata_key(key),
        revision: expected_revision.value(),
    };
    let not_live = Condition::Version { key: namespace.live_key(instance), version: 0 };
    let put = Mutation::Put {
        key: namespace.metadata_key(key),
        value: value.to_owned(),
        lease: None,
    };
    mark(Transaction::new().require(condition).require(not_live).change(put), namespace, key)
}

/// Delete a metadata entry if its modification revision still matches.
pub fn compare_and_delete_metadata(
    namespace: &EtcdNamespace,
    key: &str,
    expected_revision: Revision,
) -> (r: Transaction)
    ensures
        r@ == marked(
            store::no_changes().requiring(
                unmodified(namespace@.prefix, key@, expected_revision@),
            ).changing(
                store::MutationView::Delete { key: keys::metadata_key_at(namespace@.prefix, key@) },
            ),
            namespace@.prefix,
            key@,
        ),
        r@ == compared_delete(namespace@.prefix, key@, expected_revision@),
{
    let condition = Condition::ModRevision {
        key: namespace.metadata_key(key),
        revision: expected_revision.value(),
    };
    let delete = Mutation::Delete { key: namespace.metadata_key(key) };
    mark(Transaction::new().require(condition).change(delete), namespace, key)
}

/// Write a metadata entry only when the key does not already exist.
pub fn put_metadata_if_absent(namespace: &EtcdNamespace, key: &str, value: &str) -> (r: Transaction)
    ensures
        r@ == absent_put(namespace@.prefix, key@, value@),
{
    let condition = Condition::Version { key: namespace.metadata_key(key), version: 0 };
    let put = Mutation::Put {
        key: namespace.metadata_key(key),
        value: value.to_owned(),
        lease: None,
    };
    mark(Transaction::new().require(condition).change(put), namespace, key)
}

/// Write a metadata entry that does not exist yet.
pub open spec fn absent_put(
    prefix: Seq<char>,
    key: Seq<char>,
    value: Seq<char>,
) -> store::TransactionView {
    marked(
        store::no_changes().requiring(missing(prefix, key)).changing(
            metadata_put(prefix, key, value, None),
        ),
        prefix,
        key,
    )
}

/// Create the input marker of a new namespace.
pub fn initialize_authoritative_input_marker(namespace: &EtcdNamespace) -> (r: Transaction)
    ensures
        r@ == store::no_changes().requiring(missing(namespace@.prefix, marker_name())).changing(
            marker_put(namespace@.prefix),
        ),
{
    put_metadata_if_absent(namespace, "internal/authoritative-input", "1")
}

/// Every guarded change of authoritative metadata also marks new input, and a
/// change of derived metadata never does.
pub proof fn input_is_marked_exactly_when_authoritative(
    transaction: store::TransactionView,
    prefix: Seq<char>,
    key: Seq<char>,
)
    requires
        !transaction.touches(keys::metadata_key_at(prefix, marker_name())),
    ensures
        marked(transaction, prefix, key).touches(keys::metadata_key_at(prefix, marker_name()))
            == authoritative_metadata(key),
{
    let result = marked(transaction, prefix, key);
    if authoritative_metadata(key) {
        let n = transaction.mutations.len() as int;
        assert(result.mutations[n].key() == keys::metadata_key_at(prefix, marker_name()));
    }
}

/// The revision that a stored watermark holds.
pub open spec fn watermark_value(value: Seq<char>) -> Result<i64, CoordinationFault> {
    match text::signed_number(value) {
        Some(n) if i64::MIN <= n <= i64::MAX => if n > 0 {
            Ok(n as i64)
        } else {
            Err(CoordinationFault::InvalidRevision(n as i64))
        },
        _ => Err(CoordinationFault::InvalidValue),
    }
}

/// Read the revision that a stored watermark holds.
pub(crate) fn read_watermark(value: &str) -> (r: Result<Revision, CoordinationError>)
    ensures
        match (r, watermark_value(value@)) {
            (Ok(revision), Ok(model)) => revision@ == model,
            (Err(error), Err(fault)) => error@ == fault,
            _ => false,
        },
{
    match text::parse_i64(value) {
        Some(n) => Revision::new(n),
        None => Err(CoordinationError::InvalidValue),
    }
}

/// Where the advance of a watermark stands.
pub enum WatermarkStage {
    /// The entry is being read.
    Reading,
    /// The entry is being created.
    Creating,
    /// The entry is being updated.
    Updating,
}

/// The advance of a numeric metadata watermark.
pub struct WatermarkView {
    pub prefix: Seq<char>,
    pub key: Seq<char>,
    pub revision: i64,
    pub attempts: nat,
    pub stage: WatermarkStage,
}

impl WatermarkView {
    /// The next attempt, unless there were too many.
    pub open spec fn again(self) -> (WatermarkView, store::ActionView<i64>) {
        let next = WatermarkView {
            attempts: self.attempts + 1,
            stage: WatermarkStage::Reading,
            ..self
        };
        if self.attempts + 1 < MAX_QUEUE_CAS_RETRIES {
            (next, store::ActionView::Read(keys::metadata_key_at(self.prefix, self.key)))
        } else {
            (next, store::ActionView::Finish(Err(CoordinationFault::Contention)))
        }
    }

    /// What follows a read of the entry. A watermark that is not behind ends
    /// the advance. Otherwise the new value is written under the guard that
    /// the entry is still what was read.
    pub open spec fn read(self, entry: Option<store::EntryView>) -> (
        WatermarkView,
        store::ActionView<i64>,
    ) {
        let value = text::signed_decimal(self.revision as int);
        match entry {
            None => (
                WatermarkView { stage: WatermarkStage::Creating, ..self },
                store::ActionView::Commit(absent_put(self.prefix, self.key, value)),
            ),
            Some(entry) => match metadata_of(entry) {
                Err(fault) => (self, store::ActionView::Finish(Err(fault))),
                Ok(metadata) => match watermark_value(metadata.value->0) {
                    Err(fault) => (self, store::ActionView::Finish(Err(fault))),
                    Ok(current) => if current >= self.revision {
                        (self, store::ActionView::Finish(Ok(current)))
                    } else {
                        (
                            WatermarkView { stage: WatermarkStage::Updating, ..self },
                            store::ActionView::Commit(
                                marked(
                                    store::no_changes().requiring(
                                        unmodified(self.prefix, self.key, metadata.revision),
                                    ).changing(metadata_put(self.prefix, self.key, value, None)),
                                    self.prefix,
                                    self.key,
                                ),
                            ),
                        )
                    },
                },
            },
        }
    }

    /// What follows a committed transaction.
    pub open spec fn outcome(self, succeeded: bool, header: Option<i64>) -> (
        WatermarkView,
        store::ActionView<i64>,
    ) {
        match (self.stage, store::header_revision(header)) {
            (WatermarkStage::Updating, Err(fault)) => (self, store::ActionView::Finish(Err(fault))),
            _ => if succeeded {
                (self, store::ActionView::Finish(Ok(self.revision)))
            } else {
                self.again()
            },
        }
    }
}

/// A watermark never regresses: an advance ends at the new revision or past
/// it, and it only ever writes the new revision over an entry that was behind
/// and has not changed since it was read.
pub proof fn watermark_never_regresses(w: WatermarkView, entry: store::EntryView)
    ensures
        match w.read(Some(entry)).1 {
            store::ActionView::Finish(Ok(reached)) => reached >= w.revision,
            store::ActionView::Commit(transaction) => {
                &&& metadata_of(entry) matches Ok(m) && watermark_value(m.value->0) matches Ok(
                    current,
                ) && current < w.revision
                &&& transaction.conditions.contains(
                    unmodified(w.prefix, w.key, entry.mod_revision),
                )
            },
            _ => true,
        },
        forall|succeeded: bool, header: Option<i64>|
            (#[trigger] w.outcome(succeeded, header)).1 matches store::ActionView::Finish(Ok(reached))
                ==> succeeded && reached == w.revision,
{
    if let store::ActionView::Commit(transaction) = w.read(Some(entry)).1 {
        let m = metadata_of(entry)->Ok_0;
        assert(transaction.conditions[0] == unmodified(w.prefix, w.key, m.revision));
    }
}

/// The advance of a numeric metadata watermark without allowing it to regress.
pub struct MetadataWatermark {
    namespace: EtcdNamespace,
    key: String,
    revision: Revision,
    attempts: u32,
    stage: WatermarkStage,
}

impl View for MetadataWatermark {
    type V = WatermarkView;

    closed spec fn view(&self) -> WatermarkView {
        WatermarkView {
            prefix: self.namespace@.prefix,
            key: self.key@,
            revision: self.revision@,
            attempts: self.attempts as nat,
            stage: self.stage,
        }
    }
}

impl MetadataWatermark {
    /// Begin to advance the watermark at a metadata key: its entry is read first.
    pub fn advance_metadata_revision(
        namespace: EtcdNamespace,
        key: &str,
        revision: Revision,
    ) -> (r: (MetadataWatermark, StoreAction<Revision>))
        ensures
            r.0@ == (WatermarkView {
                prefix: namespace@.prefix,
                key: key@,
                revision: revision@,
                attempts: 0,
                stage: WatermarkStage::Reading,
            }),
            r.1@ == store::ActionView::<i64>::Read(keys::metadata_key_at(namespace@.prefix, key@)),
    {
        let read = namespace.metadata_key(key);
        (
            MetadataWatermark {
                namespace,
                key: key.to_owned(),
                revision,
                attempts: 0,
                stage: WatermarkStage::Reading,
            },
            StoreAction::Read(read),
        )
    }

    fn again(&mut self) -> (r: StoreAction<Revision>)
        requires
            old(self)@.attempts < MAX_QUEUE_CAS_RETRIES,
        ensures
            (final(self)@, r@) == old(self)@.again(),
    {
        self.attempts = self.attempts + 1;
        self.stage = WatermarkStage::Reading;
        if self.attempts < MAX_QUEUE_CAS_RETRIES {
            StoreAction::Read(self.namespace.metadata_key(self.key.as_str()))
        } else {
            StoreAction::Finish(Err(CoordinationError::Contention))
        }
    }

    /// Go on with the entry that was read.
    pub fn on_entry(&mut self, entry: Option<&KeyValue>) -> (r: StoreAction<Revision>)
        requires
            old(self)@.stage is Reading,
        ensures
            (final(self)@, r@) == old(self)@.read(
                match entry {
                    Some(entry) => Some(entry@),
                    None => None,
                },
            ),
    {
        let value = text::signed_decimal_of(self.revision.value());
        let entry = match entry {
            None => {
                self.stage = WatermarkStage::Creating;
                return StoreAction::Commit(
                    put_metadata_if_absent(&self.namespace, self.key.as_str(), value.as_str()),
                );
            },
            Some(entry) => entry,
        };
        let metadata = match metadata_entry(entry) {
            Ok(metadata) => metadata,
            Err(error) => {
                return StoreAction::Finish(Err(error));
            },
        };
        let current = match metadata.value() {
            Some(stored) => match read_watermark(stored) {
                Ok(current) => current,
                Err(error) => {
                    return StoreAction::Finish(Err(error));
                },
            },
            None => {
                return StoreAction::Finish(Err(CoordinationError::InvalidValue));
            },
        };
        if !current.is_before(&self.revision) {
            return StoreAction::Finish(Ok(current));
        }
        self.stage = WatermarkStage::Updating;
        StoreAction::Commit(
            compare_and_put_metadata(
                &self.namespace,
                self.key.as_str(),
                metadata.revision(),
                value.as_str(),
            ),
        )
    }

    /// Go on after the transaction that was committed.
    pub fn on_outcome(&mut self, succeeded: bool, header: Option<i64>) -> (r: StoreAction<Revision>)
        requires
            old(self)@.stage !is Reading,
            old(self)@.attempts < MAX_QUEUE_CAS_RETRIES,
        ensures
            (final(self)@, r@) == old(self)@.outcome(succeeded, header),
    {
        if matches!(self.stage, WatermarkStage::Updating) {
            match store::revision_from_header(header) {
                Ok(_) => {},
                Err(error) => {
                    return StoreAction::Finish(Err(error));
                },
            }
        }
        if succeeded {
            return StoreAction::Finish(Ok(self.revision));
        }
        self.again()
    }
}

} // verus!
