//! Snapshots of a whole coordination namespace.
use crate::coordination::etcd::error::{CoordinationError, CoordinationFault};
use crate::coordination::etcd::keys::{self, EtcdNamespace};
use crate::coordination::etcd::metadata::{self, MetadataEntry};
use crate::coordination::etcd::revision::Revision;
use crate::coordination::etcd::session;
use crate::coordination::etcd::store::{self, KeyValue};
use crate::model::session::SnapshotView;
use crate::model::ParticipantSessionSnapshot;
use crate::ordered::{Duplicate, Key, OrderedMap};
use crate::text;
use vstd::prelude::*;
use vstd::utf8::*;

verus! {

/// Controller election records.
#[verifier::ext_equal]
pub struct ElectionView {
    pub active: Option<(Seq<char>, i64)>,
    pub candidates: Map<Seq<char>, i64>,
}

/// Controller election records observed at one revision.
pub struct ControllerElectionSnapshot {
    active: Option<(String, i64)>,
    candidates: OrderedMap<String, i64>,
}

impl View for ControllerElectionSnapshot {
    type V = ElectionView;

    closed spec fn view(&self) -> ElectionView {
        ElectionView {
            active: match self.active {
                Some((controller, lease)) => Some((controller@, lease)),
                None => None,
            },
            candidates: self.candidates@,
        }
    }
}

impl ControllerElectionSnapshot {
    /// Return the active controller record, including its lease id.
    pub fn active(&self) -> (r: Option<(&str, i64)>)
        ensures
            match r {
                Some((controller, lease)) => self@.active == Some((controller@, lease)),
                None => self@.active is None,
            },
    {
        match &self.active {
            Some((controller, lease)) => Some((controller.as_str(), *lease)),
            None => None,
        }
    }

    /// Return candidate controller records and their lease ids.
    pub fn candidates(&self) -> (r: &OrderedMap<String, i64>)
        ensures
            r@ == self@.candidates,
    {
        &self.candidates
    }
}

/// What one snapshot of the namespace says.
#[verifier::ext_equal]
pub struct CoordinationView {
    pub revision: i64,
    pub authoritative: i64,
    pub metadata: Map<Seq<char>, metadata::MetadataView>,
    pub participants: SnapshotView,
    pub election: ElectionView,
}

/// One authoritative snapshot used by the controller runtime.
pub struct CoordinationSnapshot {
    revision: Revision,
    authoritative_revision: Revision,
    metadata: OrderedMap<String, MetadataEntry>,
    participants: ParticipantSessionSnapshot,
    controller_election: ControllerElectionSnapshot,
}

impl View for CoordinationSnapshot {
    type V = CoordinationView;

    closed spec fn view(&self) -> CoordinationView {
        CoordinationView {
            revision: self.revision@,
            authoritative: self.authoritative_revision@,
            metadata: self.metadata@,
            participants: self.participants@,
            election: self.controller_election@,
        }
    }
}

impl DeepView for CoordinationSnapshot {
    type V = CoordinationView;

    open spec fn deep_view(&self) -> CoordinationView {
        self@
    }
}

impl Duplicate for CoordinationSnapshot {
    fn duplicate(&self) -> (r: Self) {
        let active = match &self.controller_election.active {
            Some((controller, lease)) => Some((controller.clone(), *lease)),
            None => None,
        };
        CoordinationSnapshot {
            revision: self.revision,
            authoritative_revision: self.authoritative_revision,
            metadata: self.metadata.duplicate(),
            participants: self.participants.duplicate(),
            controller_election: ControllerElectionSnapshot {
                active,
                candidates: self.controller_election.candidates.duplicate(),
            },
        }
    }
}

impl CoordinationSnapshot {
    /// A snapshot without election records whose input is as new as itself.
    pub fn from_parts(
        revision: Revision,
        metadata: OrderedMap<String, MetadataEntry>,
        participants: ParticipantSessionSnapshot,
    ) -> (r: CoordinationSnapshot)
        ensures
            r@ == (CoordinationView {
                revision: revision@,
                authoritative: revision@,
                metadata: metadata@,
                participants: participants@,
                election: ElectionView { active: None, candidates: Map::empty() },
            }),
    {
        CoordinationSnapshot {
            revision,
            authoritative_revision: revision,
            metadata,
            participants,
            controller_election: ControllerElectionSnapshot {
                active: None,
                candidates: OrderedMap::new(),
            },
        }
    }

    /// The snapshot with other election records.
    pub fn with_controller_election(
        self,
        active: Option<(String, i64)>,
        candidates: OrderedMap<String, i64>,
    ) -> (r: CoordinationSnapshot)
        ensures
            r@ == (CoordinationView {
                election: ElectionView {
                    active: match active {
                        Some((controller, lease)) => Some((controller@, lease)),
                        None => None,
                    },
                    candidates: candidates@,
                },
                ..self@
            }),
    {
        CoordinationSnapshot {
            revision: self.revision,
            authoritative_revision: self.authoritative_revision,
            metadata: self.metadata,
            participants: self.participants,
            controller_election: ControllerElectionSnapshot { active, candidates },
        }
    }

    /// The snapshot with another revision of its input.
    pub fn with_authoritative_revision(self, revision: Revision) -> (r: CoordinationSnapshot)
        ensures
            r@ == (CoordinationView { authoritative: revision@, ..self@ }),
    {
        CoordinationSnapshot {
            revision: self.revision,
            authoritative_revision: revision,
            metadata: self.metadata,
            participants: self.participants,
            controller_election: self.controller_election,
        }
    }

    /// Return the revision represented by this snapshot.
    pub fn revision(&self) -> (r: Revision)
        ensures
            r@ == self@.revision,
    {
        self.revision
    }

    /// Return the newest revision of authoritative, non-derived input data.
    pub fn authoritative_revision(&self) -> (r: Revision)
        ensures
            r@ == self@.authoritative,
    {
        self.authoritative_revision
    }

    /// Return persistent metadata and their modification revisions.
    pub fn metadata(&self) -> (r: &OrderedMap<String, MetadataEntry>)
        ensures
            r@ == self@.metadata,
    {
        &self.metadata
    }

    /// Return the active participant/session view.
    pub fn participants(&self) -> (r: &ParticipantSessionSnapshot)
        ensures
            r@ == self@.participants,
    {
        &self.participants
    }

    /// Return controller election records from this same revision.
    pub fn controller_election(&self) -> (r: &ControllerElectionSnapshot)
        ensures
            r@ == self@.election,
    {
        &self.controller_election
    }
}

/// The metadata key and value of an entry, or nothing where it is no metadata.
pub open spec fn metadata_record(prefix: Seq<char>, entry: store::EntryView) -> Result<
    Option<(Seq<char>, metadata::MetadataView)>,
    CoordinationFault,
> {
    match keys::relative_of(prefix, entry.key) {
        Err(fault) => Err(fault),
        Ok(relative) => match text::after_prefix(relative, "metadata/"@) {
            None => Ok(None),
            Some(segment) => match keys::text_of_segment(segment) {
                None => Err(CoordinationFault::InvalidKey),
                Some(key) => match metadata::metadata_of(entry) {
                    Err(fault) => Err(fault),
                    Ok(value) => Ok(Some((key, value))),
                },
            },
        },
    }
}

/// The metadata of a namespace, or the first fault.
pub open spec fn metadata_in(prefix: Seq<char>, entries: Seq<store::EntryView>) -> Result<
    Map<Seq<char>, metadata::MetadataView>,
    CoordinationFault,
>
    decreases entries.len(),
{
    if entries.len() == 0 {
        Ok(Map::empty())
    } else {
        match (metadata_in(prefix, entries.drop_last()), metadata_record(prefix, entries.last())) {
            (Err(fault), _) => Err(fault),
            (_, Err(fault)) => Err(fault),
            (Ok(before), Ok(None)) => Ok(before),
            (Ok(before), Ok(Some((key, value)))) => Ok(before.insert(key, value)),
        }
    }
}

proof fn metadata_in_prefix(prefix: Seq<char>, entries: Seq<store::EntryView>, i: int)
    requires
        0 <= i <= entries.len(),
        metadata_in(prefix, entries.take(i)) is Err,
    ensures
        metadata_in(prefix, entries) == metadata_in(prefix, entries.take(i)),
    decreases entries.len(),
{
    if i == entries.len() {
        assert(entries.take(i) =~= entries);
    } else {
        assert(entries.drop_last().take(i) =~= entries.take(i));
        metadata_in_prefix(prefix, entries.drop_last(), i);
    }
}

fn read_metadata_record(namespace: &EtcdNamespace, entry: &KeyValue) -> (r: Result<
    Option<(String, MetadataEntry)>,
    CoordinationError,
>)
    ensures
        match (r, metadata_record(namespace@.prefix, entry@)) {
            (Ok(None), Ok(None)) => true,
            (Ok(Some(found)), Ok(Some(model))) => found.0@ == model.0 && found.1@ == model.1,
            (Err(error), Err(fault)) => error@ == fault,
            _ => false,
        },
{
    let relative = match namespace.parse_relative_key(&entry.key) {
        Ok(relative) => relative,
        Err(error) => {
            return Err(error);
        },
    };
    let segment = match text::strip_prefix(relative.as_str(), "metadata/") {
        Some(segment) => segment,
        None => {
            return Ok(None);
        },
    };
    let key = match keys::decode_segment(segment.as_str()) {
        Ok(key) => key,
        Err(error) => {
            return Err(error);
        },
    };
    match metadata::metadata_entry(entry) {
        Ok(value) => Ok(Some((key, value))),
        Err(error) => Err(error),
    }
}

/// Read the metadata of a namespace.
pub fn metadata_from_snapshot(namespace: &EtcdNamespace, key_values: &Vec<KeyValue>) -> (r: Result<
    OrderedMap<String, MetadataEntry>,
    CoordinationError,
>)
    ensures
        match (r, metadata_in(namespace@.prefix, key_values.deep_view())) {
            (Ok(found), Ok(model)) => found@ == model,
            (Err(error), Err(fault)) => error@ == fault,
            _ => false,
        },
{
    let ghost all = key_values.deep_view();
    let ghost prefix = namespace@.prefix;
    let mut found: OrderedMap<String, MetadataEntry> = OrderedMap::new();
    let mut i: usize = 0;
    assert(all.take(0) =~= Seq::empty());
    while i < key_values.len()
        invariant
            i <= key_values@.len(),
            all == key_values.deep_view(),
            prefix == namespace@.prefix,
            metadata_in(prefix, all.take(i as int)) == Ok::<
                Map<Seq<char>, metadata::MetadataView>,
                CoordinationFault,
            >(found@),
        decreases key_values@.len() - i,
    {
        proof {
            assert(all.take(i + 1).drop_last() =~= all.take(i as int));
            assert(all.take(i + 1).last() == key_values@[i as int]@);
        }
        match read_metadata_record(namespace, &key_values[i]) {
            Err(error) => {
                proof {
                    metadata_in_prefix(prefix, all, i + 1);
                }
                return Err(error);
            },
            Ok(None) => {},
            Ok(Some((key, value))) => {
                found.insert(key, value);
            },
        }
        i = i + 1;
    }
    assert(all.take(key_values@.len() as int) =~= all);
    Ok(found)
}

/// A key holds authoritative input: it is neither derived by the controller,
/// nor the progress of a participant, nor a record of the election, nor the
/// session sequence.
pub open spec fn authoritative_key(relative: Seq<char>, metadata_key: Option<Seq<char>>) -> bool {
    &&& !(metadata_key matches Some(key) && "controller/output/"@.is_prefix_of(key))
    &&& !(metadata_key matches Some(key) && "participant/"@.is_prefix_of(key)
        && "/processed-revision"@.is_suffix_of(key))
    &&& !"controller/election/"@.is_prefix_of(relative)
    &&& relative != "internal/session-sequence"@
}

/// Whether a key holds authoritative input.
pub fn is_authoritative_key(relative: &str, metadata_key: Option<&str>) -> (r: bool)
    ensures
        r == authoritative_key(
            relative@,
            match metadata_key {
                Some(key) => Some(key@),
                None => None,
            },
        ),
{
    let derived = match metadata_key {
        Some(key) => text::starts_with(key, "controller/output/") || (text::starts_with(
            key,
            "participant/",
        ) && text::ends_with(key, "/processed-revision")),
        None => false,
    };
    !derived && !text::starts_with(relative, "controller/election/") && !text::text_eq(
        relative,
        "internal/session-sequence",
    )
}

/// The metadata key that a relative key stands for, where it can be read.
pub open spec fn metadata_key_in(relative: Seq<char>) -> Option<Seq<char>> {
    match text::after_prefix(relative, "metadata/"@) {
        None => None,
        Some(segment) => keys::text_of_segment(segment),
    }
}

/// The revision at which an entry last changed authoritative input, or nothing
/// where it holds none.
pub open spec fn input_revision(prefix: Seq<char>, entry: store::EntryView) -> Result<
    Option<i64>,
    CoordinationFault,
> {
    match keys::relative_of(prefix, entry.key) {
        Err(fault) => Err(fault),
        Ok(relative) => if !authoritative_key(relative, metadata_key_in(relative)) {
            Ok(None)
        } else if entry.mod_revision > 0 {
            Ok(Some(entry.mod_revision))
        } else {
            Err(CoordinationFault::InvalidRevision(entry.mod_revision))
        },
    }
}

/// The newest revision of authoritative input, or the first fault.
pub open spec fn newest_input(prefix: Seq<char>, entries: Seq<store::EntryView>) -> Result<
    Option<i64>,
    CoordinationFault,
>
    decreases entries.len(),
{
    if entries.len() == 0 {
        Ok(None)
    } else {
        match (newest_input(prefix, entries.drop_last()), input_revision(prefix, entries.last())) {
            (Err(fault), _) => Err(fault),
            (_, Err(fault)) => Err(fault),
            (Ok(before), Ok(None)) => Ok(before),
            (Ok(None), Ok(Some(revision))) => Ok(Some(revision)),
            (Ok(Some(before)), Ok(Some(revision))) => Ok(
                Some(
                    if before < revision {
                        revision
                    } else {
                        before
                    },
                ),
            ),
        }
    }
}

proof fn newest_input_prefix(prefix: Seq<char>, entries: Seq<store::EntryView>, i: int)
    requires
        0 <= i <= entries.len(),
        newest_input(prefix, entries.take(i)) is Err,
    ensures
        newest_input(prefix, entries) == newest_input(prefix, entries.take(i)),
    decreases entries.len(),
{
    if i == entries.len() {
        assert(entries.take(i) =~= entries);
    } else {
        assert(entries.drop_last().take(i) =~= entries.take(i));
        newest_input_prefix(prefix, entries.drop_last(), i);
    }
}

/// The newest revision of authoritative input is that of some authoritative
/// entry, and no authoritative entry is newer.
pub proof fn newest_input_is_highest(prefix: Seq<char>, entries: Seq<store::EntryView>, i: int)
    requires
        0 <= i < entries.len(),
        newest_input(prefix, entries) is Ok,
    ensures
        input_revision(prefix, entries[i]) matches Ok(Some(revision)) ==> newest_input(
            prefix,
            entries,
        ) matches Ok(Some(newest)) && revision <= newest,
    decreases entries.len(),
{
    if i < entries.len() - 1 {
        newest_input_is_highest(prefix, entries.drop_last(), i);
    }
}

/// Outputs of the controller, progress of participants, election records, and
/// the session sequence never count as new input.
pub proof fn derived_entries_are_no_input(prefix: Seq<char>, entry: store::EntryView)
    requires
        keys::relative_of(prefix, entry.key) matches Ok(relative) && (
        "controller/election/"@.is_prefix_of(relative) || relative
            == "internal/session-sequence"@ || (metadata_key_in(relative) matches Some(key) && (
        "controller/output/"@.is_prefix_of(key) || ("participant/"@.is_prefix_of(key)
            && "/processed-revision"@.is_suffix_of(key))))),
    ensures
        input_revision(prefix, entry) == Ok::<Option<i64>, CoordinationFault>(None),
{
}

fn read_input_revision(namespace: &EtcdNamespace, entry: &KeyValue) -> (r: Result<
    Option<Revision>,
    CoordinationError,
>)
    ensures
        match (r, input_revision(namespace@.prefix, entry@)) {
            (Ok(revision), Ok(model)) => revision.deep_view() == model,
            (Err(error), Err(fault)) => error@ == fault,
            _ => false,
        },
{
    let relative = match namespace.parse_relative_key(&entry.key) {
        Ok(relative) => relative,
        Err(error) => {
            return Err(error);
        },
    };
    let metadata_key = match text::strip_prefix(relative.as_str(), "metadata/") {
        None => None,
        Some(segment) => match keys::decode_segment(segment.as_str()) {
            Ok(key) => Some(key),
            Err(_) => None,
        },
    };
    let authoritative = match &metadata_key {
        Some(key) => is_authoritative_key(relative.as_str(), Some(key.as_str())),
        None => is_authoritative_key(relative.as_str(), None),
    };
    if !authoritative {
        return Ok(None);
    }
    match Revision::new(entry.mod_revision) {
        Ok(revision) => Ok(Some(revision)),
        Err(error) => Err(error),
    }
}

/// The newest revision of authoritative input, or the revision of the snapshot
/// where there is none.
pub fn authoritative_revision(
    namespace: &EtcdNamespace,
    snapshot_revision: Revision,
    key_values: &Vec<KeyValue>,
) -> (r: Result<Revision, CoordinationError>)
    ensures
        match (r, newest_input(namespace@.prefix, key_values.deep_view())) {
            (Ok(revision), Ok(Some(model))) => revision@ == model,
            (Ok(revision), Ok(None)) => revision@ == snapshot_revision@,
            (Err(error), Err(fault)) => error@ == fault,
            _ => false,
        },
{
    let ghost all = key_values.deep_view();
    let ghost prefix = namespace@.prefix;
    let mut newest: Option<Revision> = None;
    let mut i: usize = 0;
    assert(all.take(0) =~= Seq::empty());
    while i < key_values.len()
        invariant
            i <= key_values@.len(),
            all == key_values.deep_view(),
            prefix == namespace@.prefix,
            newest_input(prefix, all.take(i as int)) == Ok::<Option<i64>, CoordinationFault>(
                newest.deep_view(),
            ),
        decreases key_values@.len() - i,
    {
        proof {
            assert(all.take(i + 1).drop_last() =~= all.take(i as int));
            assert(all.take(i + 1).last() == key_values@[i as int]@);
        }
        match read_input_revision(namespace, &key_values[i]) {
            Err(error) => {
                proof {
                    newest_input_prefix(prefix, all, i + 1);
                }
                return Err(error);
            },
            Ok(None) => {},
            Ok(Some(revision)) => {
                newest = match newest {
                    None => Some(revision),
                    Some(before) => if before.is_before(&revision) {
                        Some(revision)
                    } else {
                        Some(before)
                    },
                };
            },
        }
        i = i + 1;
    }
    assert(all.take(key_values@.len() as int) =~= all);
    match newest {
        Some(revision) => Ok(revision),
        None => Ok(snapshot_revision),
    }
}

/// What an entry says of the election.
pub enum ElectionRecord {
    Active(Seq<char>, i64),
    Candidate(Seq<char>, i64),
    Other,
}

/// What an entry says of the election. An election record names a controller
/// and is attached to a lease.
pub open spec fn election_record(prefix: Seq<char>, entry: store::EntryView) -> Result<
    ElectionRecord,
    CoordinationFault,
> {
    match keys::relative_of(prefix, entry.key) {
        Err(fault) => Err(fault),
        Ok(relative) => if relative == "controller/election/active"@ {
            match metadata::value_text(entry.value) {
                Err(fault) => Err(fault),
                Ok(controller) => if text::blank(controller) || entry.lease == 0 {
                    Err(CoordinationFault::InvalidValue)
                } else {
                    Ok(ElectionRecord::Active(controller, entry.lease))
                },
            }
        } else {
            match text::after_prefix(relative, "controller/election/candidates/"@) {
                None => Ok(ElectionRecord::Other),
                Some(segment) => match keys::text_of_segment(segment) {
                    None => Err(CoordinationFault::InvalidKey),
                    Some(controller) => if text::blank(controller) || entry.lease == 0 {
                        Err(CoordinationFault::InvalidValue)
                    } else {
                        Ok(ElectionRecord::Candidate(controller, entry.lease))
                    },
                },
            }
        },
    }
}

/// The election records of a namespace, or the first fault.
pub open spec fn election_in(prefix: Seq<char>, entries: Seq<store::EntryView>) -> Result<
    ElectionView,
    CoordinationFault,
>
    decreases entries.len(),
{
    if entries.len() == 0 {
        Ok(ElectionView { active: None, candidates: Map::empty() })
    } else {
        match (election_in(prefix, entries.drop_last()), election_record(prefix, entries.last())) {
            (Err(fault), _) => Err(fault),
            (_, Err(fault)) => Err(fault),
            (Ok(before), Ok(ElectionRecord::Other)) => Ok(before),
            (Ok(before), Ok(ElectionRecord::Active(controller, lease))) => Ok(
                ElectionView { active: Some((controller, lease)), ..before },
            ),
            (Ok(before), Ok(ElectionRecord::Candidate(controller, lease))) => Ok(
                ElectionView { candidates: before.candidates.insert(controller, lease), ..before },
            ),
        }
    }
}

proof fn election_in_prefix(prefix: Seq<char>, entries: Seq<store::EntryView>, i: int)
    requires
        0 <= i <= entries.len(),
        election_in(prefix, entries.take(i)) is Err,
    ensures
        election_in(prefix, entries) == election_in(prefix, entries.take(i)),
    decreases entries.len(),
{
    if i == entries.len() {
        assert(entries.take(i) =~= entries);
    } else {
        assert(entries.drop_last().take(i) =~= entries.take(i));
        election_in_prefix(prefix, entries.drop_last(), i);
    }
}

/// Read the election records of a namespace.
pub fn controller_election_from_kvs(namespace: &EtcdNamespace, key_values: &Vec<KeyValue>) -> (r:
    Result<ControllerElectionSnapshot, CoordinationError>)
    ensures
        match (r, election_in(namespace@.prefix, key_values.deep_view())) {
            (Ok(found), Ok(model)) => found@ == model,
            (Err(error), Err(fault)) => error@ == fault,
            _ => false,
        },
{
    let ghost all = key_values.deep_view();
    let ghost prefix = namespace@.prefix;
    let mut active: Option<(String, i64)> = None;
    let mut candidates: OrderedMap<String, i64> = OrderedMap::new();
    let ghost mut model = ElectionView { active: None, candidates: Map::empty() };
    let mut i: usize = 0;
    assert(all.take(0) =~= Seq::empty());
    while i < key_values.len()
        invariant
            i <= key_values@.len(),
            all == key_values.deep_view(),
            prefix == namespace@.prefix,
            election_in(prefix, all.take(i as int)) == Ok::<ElectionView, CoordinationFault>(model),
            candidates@ == model.candidates,
            match active {
                Some((controller, lease)) => model.active == Some((controller@, lease)),
                None => model.active is None,
            },
        decreases key_values@.len() - i,
    {
        proof {
            assert(all.take(i + 1).drop_last() =~= all.take(i as int));
            assert(all.take(i + 1).last() == key_values@[i as int]@);
            if election_in(prefix, all.take(i + 1)) is Err {
                election_in_prefix(prefix, all, i + 1);
            }
        }
        let entry = &key_values[i];
        let relative = match namespace.parse_relative_key(&entry.key) {
            Ok(relative) => relative,
            Err(error) => {
                return Err(error);
            },
        };
        if text::text_eq(relative.as_str(), "controller/election/active") {
            let controller = match metadata::stored_text(&entry.value) {
                Ok(controller) => controller,
                Err(error) => {
                    return Err(error);
                },
            };
            if text::is_blank(controller.as_str()) || entry.lease == 0 {
                return Err(CoordinationError::InvalidValue);
            }
            proof {
                model = ElectionView { active: Some((controller@, entry.lease)), ..model };
            }
            active = Some((controller, entry.lease));
        } else if let Some(segment) = text::strip_prefix(
            relative.as_str(),
            "controller/election/candidates/",
        ) {
            let controller = match keys::decode_segment(segment.as_str()) {
                Ok(controller) => controller,
                Err(error) => {
                    return Err(error);
                },
            };
            if text::is_blank(controller.as_str()) || entry.lease == 0 {
                return Err(CoordinationError::InvalidValue);
            }
            proof {
                model = ElectionView {
                    candidates: model.candidates.insert(controller@, entry.lease),
                    ..model
                };
            }
            candidates.insert(controller, entry.lease);
        }
        i = i + 1;
    }
    assert(all.take(key_values@.len() as int) =~= all);
    Ok(ControllerElectionSnapshot { active, candidates })
}

/// The snapshot of the entries of a namespace at a revision, or the first
/// fault: of the metadata, of the input revisions, of the participants, and of
/// the election.
pub open spec fn coordination_of(
    prefix: Seq<char>,
    revision: i64,
    entries: Seq<store::EntryView>,
) -> Result<CoordinationView, CoordinationFault> {
    match (
        metadata_in(prefix, entries),
        newest_input(prefix, entries),
        session::snapshot_of(prefix, entries),
        election_in(prefix, entries),
    ) {
        (Err(fault), _, _, _) => Err(fault),
        (_, Err(fault), _, _) => Err(fault),
        (_, _, Err(fault), _) => Err(fault),
        (_, _, _, Err(fault)) => Err(fault),
        (Ok(metadata), Ok(newest), Ok(participants), Ok(election)) => Ok(
            CoordinationView {
                revision,
                authoritative: match newest {
                    Some(newest) => newest,
                    None => revision,
                },
                metadata,
                participants,
                election,
            },
        ),
    }
}

/// Build the snapshot of a namespace from its entries at one revision.
pub fn controller_snapshot_from_kvs(
    namespace: &EtcdNamespace,
    revision: Revision,
    kvs: &Vec<KeyValue>,
) -> (r: Result<CoordinationSnapshot, CoordinationError>)
    ensures
        match (r, coordination_of(namespace@.prefix, revision@, kvs.deep_view())) {
            (Ok(snapshot), Ok(model)) => snapshot@ == model,
            (Err(error), Err(fault)) => error@ == fault,
            _ => false,
        },
{
    let metadata = match metadata_from_snapshot(namespace, kvs) {
        Ok(metadata) => metadata,
        Err(error) => {
            return Err(error);
        },
    };
    let authoritative_revision = match authoritative_revision(namespace, revision, kvs) {
        Ok(revision) => revision,
        Err(error) => {
            return Err(error);
        },
    };
    let participants = match session::participant_snapshot_from_kvs(namespace, kvs) {
        Ok(participants) => participants,
        Err(error) => {
            return Err(error);
        },
    };
    let controller_election = match controller_election_from_kvs(namespace, kvs) {
        Ok(election) => election,
        Err(error) => {
            return Err(error);
        },
    };
    Ok(
        CoordinationSnapshot {
            revision,
            authoritative_revision,
            metadata,
            participants,
            controller_election,
        },
    )
}

/// Authoritative state returned while rebuilding a compacted watch.
pub enum WatchRecovery {
    /// The current value of a single metadata-key watch, if it exists.
    Metadata(Option<MetadataEntry>),
    /// A complete coordination snapshot for a namespace watch.
    Namespace(CoordinationSnapshot),
}

} // verus!
