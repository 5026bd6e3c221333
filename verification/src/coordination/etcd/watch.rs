//! Resumable watches.
use crate::coordination::etcd::error::{CoordinationError, CoordinationFault};
use crate::coordination::etcd::keys::{self, EtcdNamespace};
use crate::coordination::etcd::metadata;
use crate::coordination::etcd::revision::Revision;
use crate::coordination::etcd::store::{self, KeyValue};
use crate::ordered::{Key, OrderedSet};
use crate::text;
use vstd::prelude::*;
use vstd::string::*;
use vstd::utf8::*;

verus! {

/// The text of keys and values.
pub open spec fn texts_of(entries: Seq<(String, String)>) -> Seq<(Seq<char>, Seq<char>)> {
    Seq::new(entries.len(), |i: int| (entries[i].0@, entries[i].1@))
}

/// A point-in-time key/value snapshot used to seed a watch.
#[derive(Debug, PartialEq, Eq)]
pub struct KeyValueSnapshot {
    revision: Revision,
    entries: Vec<(String, String)>,
}

impl KeyValueSnapshot {
    /// The decoded keys and values.
    pub closed spec fn pairs(&self) -> Seq<(Seq<char>, Seq<char>)> {
        texts_of(self.entries@)
    }

    /// The revision of the snapshot.
    pub closed spec fn taken_at(&self) -> i64 {
        self.revision@
    }

    /// A snapshot of decoded keys and values.
    pub fn from_parts(revision: Revision, entries: Vec<(String, String)>) -> (r: KeyValueSnapshot)
        ensures
            r.pairs() == texts_of(entries@),
            r.taken_at() == revision@,
    {
        KeyValueSnapshot { revision, entries }
    }

    /// Return the snapshot revision.
    pub fn revision(&self) -> (r: Revision)
        ensures
            r@ == self.taken_at(),
    {
        self.revision
    }

    /// Return the decoded relative keys and values in key order.
    pub fn entries(&self) -> (r: &Vec<(String, String)>)
        ensures
            texts_of(r@) == self.pairs(),
    {
        &self.entries
    }
}

/// `s` without any leading "metadata/".
pub open spec fn unprefixed(s: Seq<char>) -> Seq<char>
    decreases s.len(),
{
    if "metadata/"@.len() > 0 && "metadata/"@.is_prefix_of(s) {
        unprefixed(s.skip("metadata/"@.len() as int))
    } else {
        s
    }
}

fn trim_metadata(value: String) -> (r: String)
    ensures
        r@ == unprefixed(value@),
{
    proof {
        reveal_strlit("metadata/");
    }
    let mut rest = value;
    let ghost all = value@;
    loop
        invariant
            unprefixed(rest@) == unprefixed(all),
            "metadata/"@.len() == 9,
        ensures
            rest@ == unprefixed(all),
        decreases rest@.len(),
    {
        match text::strip_prefix(rest.as_str(), "metadata/") {
            Some(shorter) => {
                rest = shorter;
            },
            None => {
                break;
            },
        }
    }
    rest
}

/// The decoded key and value of a metadata entry.
pub open spec fn pair_of(prefix: Seq<char>, entry: store::EntryView) -> Result<
    (Seq<char>, Seq<char>),
    CoordinationFault,
> {
    match keys::relative_of(prefix, entry.key) {
        Err(fault) => Err(fault),
        Ok(relative) => match keys::text_of_segment(unprefixed(relative)) {
            None => Err(CoordinationFault::InvalidKey),
            Some(key) => match metadata::value_text(entry.value) {
                Err(fault) => Err(fault),
                Ok(value) => Ok((key, value)),
            },
        },
    }
}

/// The decoded keys and values of metadata entries, or the first fault.
pub open spec fn pairs_in(prefix: Seq<char>, entries: Seq<store::EntryView>) -> Result<
    Seq<(Seq<char>, Seq<char>)>,
    CoordinationFault,
>
    decreases entries.len(),
{
    if entries.len() == 0 {
        Ok(Seq::empty())
    } else {
        match pairs_in(prefix, entries.drop_last()) {
            Err(fault) => Err(fault),
            Ok(pairs) => match pair_of(prefix, entries.last()) {
                Err(fault) => Err(fault),
                Ok(pair) => Ok(pairs.push(pair)),
            },
        }
    }
}

proof fn pairs_in_prefix(prefix: Seq<char>, entries: Seq<store::EntryView>, i: int)
    requires
        0 <= i <= entries.len(),
        pairs_in(prefix, entries.take(i)) is Err,
    ensures
        pairs_in(prefix, entries) == pairs_in(prefix, entries.take(i)),
    decreases entries.len(),
{
    if i == entries.len() {
        assert(entries.take(i) =~= entries);
    } else {
        assert(entries.drop_last().take(i) =~= entries.take(i));
        pairs_in_prefix(prefix, entries.drop_last(), i);
    }
}

/// The keys and values of a snapshot stand in the order in which they were
/// read, none is left out, and none is added.
pub proof fn snapshots_keep_every_pair(
    prefix: Seq<char>,
    entries: Seq<store::EntryView>,
    i: int,
)
    requires
        0 <= i < entries.len(),
        pairs_in(prefix, entries) is Ok,
    ensures
        pairs_in(prefix, entries)->Ok_0.len() == entries.len(),
        pair_of(prefix, entries[i]) == Ok::<(Seq<char>, Seq<char>), CoordinationFault>(
            pairs_in(prefix, entries)->Ok_0[i],
        ),
    decreases entries.len(),
{
    if i < entries.len() - 1 {
        snapshots_keep_every_pair(prefix, entries.drop_last(), i);
    } else if entries.len() > 1 {
        snapshots_keep_every_pair(prefix, entries.drop_last(), 0);
    } else {
        assert(pairs_in(prefix, entries.drop_last()) == Ok::<
            Seq<(Seq<char>, Seq<char>)>,
            CoordinationFault,
        >(Seq::empty()));
    }
}

/// Assemble a snapshot of the metadata whose keys begin alike.
pub fn snapshot_prefix(
    namespace: &EtcdNamespace,
    revision: Revision,
    entries: &Vec<KeyValue>,
) -> (r: Result<KeyValueSnapshot, CoordinationError>)
    ensures
        match (r, pairs_in(namespace@.prefix, entries.deep_view())) {
            (Ok(snapshot), Ok(pairs)) => snapshot.pairs() == pairs && snapshot.taken_at()
                == revision@,
            (Err(error), Err(fault)) => error@ == fault,
            _ => false,
        },
{
    let ghost all = entries.deep_view();
    let ghost prefix = namespace@.prefix;
    let mut found: Vec<(String, String)> = Vec::new();
    let mut i: usize = 0;
    assert(all.take(0) =~= Seq::empty());
    assert(texts_of(found@) =~= Seq::empty());
    while i < entries.len()
        invariant
            i <= entries@.len(),
            all == entries.deep_view(),
            prefix == namespace@.prefix,
            pairs_in(prefix, all.take(i as int)) == Ok::<
                Seq<(Seq<char>, Seq<char>)>,
                CoordinationFault,
            >(texts_of(found@)),
        decreases entries@.len() - i,
    {
        proof {
            assert(all.take(i + 1).drop_last() =~= all.take(i as int));
            assert(all.take(i + 1).last() == entries@[i as int]@);
        }
        match decode_pair(namespace, &entries[i]) {
            Err(error) => {
                proof {
                    pairs_in_prefix(prefix, all, i + 1);
                }
                return Err(error);
            },
            Ok(pair) => {
                let ghost before = texts_of(found@);
                let ghost model = (pair.0@, pair.1@);
                found.push(pair);
                assert(texts_of(found@) =~= before.push(model));
            },
        }
        i = i + 1;
    }
    assert(all.take(entries@.len() as int) =~= all);
    Ok(KeyValueSnapshot { revision, entries: found })
}

/// Decode the key and the value of a metadata entry.
pub fn decode_pair(namespace: &EtcdNamespace, entry: &KeyValue) -> (r: Result<
    (String, String),
    CoordinationError,
>)
    ensures
        match (r, pair_of(namespace@.prefix, entry@)) {
            (Ok(pair), Ok(model)) => pair.0@ == model.0 && pair.1@ == model.1,
            (Err(error), Err(fault)) => error@ == fault,
            _ => false,
        },
{
    let relative = match namespace.parse_relative_key(&entry.key) {
        Ok(relative) => relative,
        Err(error) => {
            return Err(error);
        },
    };
    let key = match keys::decode_segment(trim_metadata(relative).as_str()) {
        Ok(key) => key,
        Err(error) => {
            return Err(error);
        },
    };
    match metadata::stored_text(&entry.value) {
        Ok(value) => Ok((key, value)),
        Err(error) => Err(error),
    }
}

/// The semantic kind of a watched mutation.
#[derive(Clone, Copy, Debug, PartialEq, Eq, Structural)]
pub enum WatchEventKind {
    Put,
    Delete,
}

/// What a watched mutation says.
#[verifier::ext_equal]
pub struct EventView {
    pub revision: i64,
    pub key: Seq<char>,
    pub value: Option<Seq<char>>,
    pub kind: WatchEventKind,
}

/// One decoded mutation of the store.
#[derive(Clone, Debug, PartialEq, Eq)]
pub struct WatchEvent {
    revision: Revision,
    key: String,
    value: Option<String>,
    kind: WatchEventKind,
}

impl View for WatchEvent {
    type V = EventView;

    closed spec fn view(&self) -> EventView {
        EventView {
            revision: self.revision@,
            key: self.key@,
            value: self.value.deep_view(),
            kind: self.kind,
        }
    }
}

impl DeepView for WatchEvent {
    type V = EventView;

    open spec fn deep_view(&self) -> EventView {
        self@
    }
}

impl WatchEvent {
    /// A mutation of a key.
    pub fn from_parts(
        revision: Revision,
        key: String,
        value: Option<String>,
        kind: WatchEventKind,
    ) -> (r: WatchEvent)
        ensures
            r@ == (EventView {
                revision: revision@,
                key: key@,
                value: value.deep_view(),
                kind,
            }),
    {
        WatchEvent { revision, key, value, kind }
    }

    /// The revision of the mutation.
    pub closed spec fn at(&self) -> Revision {
        self.revision
    }

    /// Return the event revision.
    pub fn revision(&self) -> (r: Revision)
        ensures
            r@ == self@.revision,
            r == self.at(),
    {
        self.revision
    }

    /// Return the relative metadata key.
    pub fn key(&self) -> (r: &str)
        ensures
            r@ == self@.key,
    {
        self.key.as_str()
    }

    /// Return the new value for puts, or None for deletes.
    pub fn value(&self) -> (r: Option<&str>)
        ensures
            match r {
                Some(value) => self@.value == Some(value@),
                None => self@.value is None,
            },
    {
        match &self.value {
            Some(value) => Some(value.as_str()),
            None => None,
        }
    }

    /// Return whether the mutation was a put or delete.
    pub fn kind(&self) -> (r: WatchEventKind)
        ensures
            r == self@.kind,
    {
        self.kind
    }
}

/// The deletion of a key that goes away with a lease.
pub open spec fn lease_backed_delete(event: EventView) -> bool {
    event.kind == WatchEventKind::Delete && ("live/"@.is_prefix_of(event.key)
        || "current-state/"@.is_prefix_of(event.key))
}

/// Whether the event deletes a key that goes away with a lease.
pub fn is_lease_backed_delete(event: &WatchEvent) -> (r: bool)
    ensures
        r == lease_backed_delete(event@),
{
    event.kind == WatchEventKind::Delete && (text::starts_with(event.key.as_str(), "live/")
        || text::starts_with(event.key.as_str(), "current-state/"))
}

/// What a watch cursor says.
#[verifier::ext_equal]
pub struct CursorView {
    pub start: i64,
    pub last: Option<i64>,
    pub processed: Set<Seq<char>>,
}

impl CursorView {
    /// The event is new to the cursor.
    pub open spec fn admits(self, revision: i64, key: Seq<char>) -> bool {
        &&& revision >= self.start
        &&& self.last matches Some(last) ==> revision >= last
        &&& !(self.last == Some(revision) && self.processed.contains(key))
    }

    /// The cursor after an event.
    pub open spec fn accepted(self, revision: i64, key: Seq<char>) -> CursorView {
        if !self.admits(revision, key) {
            self
        } else if self.last == Some(revision) {
            CursorView { processed: self.processed.insert(key), ..self }
        } else {
            CursorView {
                last: Some(revision),
                processed: Set::<Seq<char>>::empty().insert(key),
                ..self
            }
        }
    }

    /// Where the watch resumes.
    pub open spec fn resume(self) -> i64 {
        match self.last {
            Some(last) => last,
            None => self.start,
        }
    }

    /// A cursor that only ever saw events from its start on.
    pub open spec fn valid(self) -> bool {
        self.last matches Some(last) ==> last >= self.start
    }
}

/// An event that was accepted is never accepted again, whatever events come
/// in between, and the cursor never moves back.
pub proof fn accepted_once(c: CursorView, revision: i64, key: Seq<char>, events: Seq<(i64, Seq<char>)>)
    requires
        c.admits(revision, key),
    ensures
        !after_events(c.accepted(revision, key), events).admits(revision, key),
        after_events(c.accepted(revision, key), events).resume() >= revision,
    decreases events.len(),
{
    if events.len() > 0 {
        accepted_once(c, revision, key, events.drop_last());
        seen_stays_seen(
            after_events(c.accepted(revision, key), events.drop_last()),
            revision,
            key,
            events.last().0,
            events.last().1,
        );
    }
    seen_after_events(c.accepted(revision, key), revision, key, events);
}

/// The cursor has seen the event.
pub open spec fn has_seen(c: CursorView, revision: i64, key: Seq<char>) -> bool {
    c.last matches Some(last) && (last > revision || (last == revision && c.processed.contains(key)))
}

proof fn seen_stays_seen(c: CursorView, revision: i64, key: Seq<char>, r: i64, k: Seq<char>)
    ensures
        has_seen(c, revision, key) ==> has_seen(c.accepted(r, k), revision, key),
{
}

proof fn seen_after_events(
    c: CursorView,
    revision: i64,
    key: Seq<char>,
    events: Seq<(i64, Seq<char>)>,
)
    requires
        has_seen(c, revision, key),
    ensures
        has_seen(after_events(c, events), revision, key),
    decreases events.len(),
{
    if events.len() > 0 {
        seen_after_events(c, revision, key, events.drop_last());
        seen_stays_seen(
            after_events(c, events.drop_last()),
            revision,
            key,
            events.last().0,
            events.last().1,
        );
    }
}

/// The cursor after a run of events.
pub open spec fn after_events(c: CursorView, events: Seq<(i64, Seq<char>)>) -> CursorView
    decreases events.len(),
{
    if events.len() == 0 {
        c
    } else {
        after_events(c, events.drop_last()).accepted(events.last().0, events.last().1)
    }
}

/// Local semantic cursor state for a resumable watch.
pub struct WatchCursor {
    start_revision: Revision,
    last_event_revision: Option<Revision>,
    processed_keys: OrderedSet<String>,
}

impl View for WatchCursor {
    type V = CursorView;

    closed spec fn view(&self) -> CursorView {
        CursorView {
            start: self.start_revision@,
            last: self.last_event_revision.deep_view(),
            processed: self.processed_keys@,
        }
    }
}

impl WatchCursor {
    /// A cursor that watches from a revision on.
    pub fn new(start_revision: Revision) -> (r: WatchCursor)
        ensures
            r@ == (CursorView {
                start: start_revision@,
                last: None,
                processed: Set::empty(),
            }),
            r@.valid(),
    {
        WatchCursor {
            start_revision,
            last_event_revision: None,
            processed_keys: OrderedSet::new(),
        }
    }

    /// Take an event, unless it is old or was taken before.
    pub fn accept(&mut self, revision: Revision, key: &str) -> (r: bool)
        ensures
            r == old(self)@.admits(revision@, key@),
            final(self)@ == old(self)@.accepted(revision@, key@),
            old(self)@.valid() ==> final(self)@.valid(),
    {
        let key = key.to_owned();
        if revision.is_before(&self.start_revision) {
            return false;
        }
        let same_revision = match self.last_event_revision {
            Some(last) => {
                if revision.is_before(&last) {
                    return false;
                }
                last.same(&revision)
            },
            None => false,
        };
        if same_revision && self.processed_keys.contains(&key) {
            return false;
        }
        if !same_revision {
            self.processed_keys = OrderedSet::new();
            self.last_event_revision = Some(revision);
        }
        self.processed_keys.insert(key);
        true
    }

    /// Where the watch resumes: at the last event, which is not taken twice.
    pub fn resume_revision(&self) -> (r: Revision)
        ensures
            r@ == self@.resume(),
    {
        match self.last_event_revision {
            Some(revision) => revision,
            None => self.start_revision,
        }
    }

    /// The revision that the watch started from.
    pub fn start_revision(&self) -> (r: Revision)
        ensures
            r@ == self@.start,
    {
        self.start_revision
    }

    /// Start again after a snapshot.
    pub fn reset_after_recovery(&mut self, snapshot_revision: Revision) -> (r: Result<
        Revision,
        CoordinationError,
    >)
        ensures
            match r {
                Ok(start) => snapshot_revision@ < i64::MAX && start@ == snapshot_revision@ + 1
                    && final(self)@ == (CursorView {
                    start: start@,
                    last: None,
                    processed: Set::empty(),
                }),
                Err(error) => snapshot_revision@ == i64::MAX && error@
                    == CoordinationFault::RevisionExhausted && final(self)@ == old(self)@,
            },
    {
        let start_revision = match snapshot_revision.next() {
            Ok(revision) => revision,
            Err(error) => {
                return Err(error);
            },
        };
        self.start_revision = start_revision;
        self.last_event_revision = None;
        self.processed_keys = OrderedSet::new();
        Ok(start_revision)
    }
}

/// What went wrong in a watch.
pub enum WatchFault {
    Coordination(CoordinationFault),
    Disconnected,
    Compacted { revision: i64 },
}

/// Watch errors, including the explicit compaction recovery boundary.
#[derive(Debug, PartialEq, Eq)]
pub enum WatchError {
    Coordination(CoordinationError),
    Disconnected,
    Compacted { revision: Revision },
}

impl View for WatchError {
    type V = WatchFault;

    open spec fn view(&self) -> WatchFault {
        match self {
            WatchError::Coordination(error) => WatchFault::Coordination(error@),
            WatchError::Disconnected => WatchFault::Disconnected,
            WatchError::Compacted { revision } => WatchFault::Compacted { revision: revision@ },
        }
    }
}

impl WatchFault {
    /// The operator-facing message.
    pub open spec fn text(self) -> Seq<char> {
        match self {
            WatchFault::Coordination(fault) => fault.text(),
            WatchFault::Disconnected => "watch stream disconnected"@,
            WatchFault::Compacted { revision } => "watch history compacted at revision "@
                + text::signed_decimal(revision as int),
        }
    }

    /// The watch may be resumed later.
    pub open spec fn transient(self) -> bool {
        match self {
            WatchFault::Coordination(fault) => fault.transient(),
            WatchFault::Disconnected => true,
            WatchFault::Compacted { .. } => false,
        }
    }
}

impl From<CoordinationError> for WatchError {
    fn from(error: CoordinationError) -> (r: WatchError)
        ensures
            r == WatchError::Coordination(error),
    {
        WatchError::Coordination(error)
    }
}

impl vstd::std_specs::convert::FromSpecImpl<CoordinationError> for WatchError {
    open spec fn obeys_from_spec() -> bool {
        true
    }

    open spec fn from_spec(error: CoordinationError) -> WatchError {
        WatchError::Coordination(error)
    }
}

impl WatchError {
    /// Return the operator-facing message.
    pub fn to_string(&self) -> (r: String)
        ensures
            r@ == self@.text(),
    {
        match self {
            WatchError::Coordination(error) => error.to_string(),
            WatchError::Disconnected => "watch stream disconnected".to_owned(),
            WatchError::Compacted {
                revision,
            } => "watch history compacted at revision ".to_owned().concat(
                text::signed_decimal_of(revision.value()).as_str(),
            ),
        }
    }

    /// Whether the watch may be resumed later: it was disconnected, or the
    /// store could not be reached. Compaction and malformed data are final.
    pub fn is_transient(&self) -> (r: bool)
        ensures
            r == self@.transient(),
    {
        match self {
            WatchError::Coordination(error) => error.is_transient(),
            WatchError::Disconnected => true,
            WatchError::Compacted { .. } => false,
        }
    }
}

/// The decoded event of an entry.
pub open spec fn event_of(
    prefix: Seq<char>,
    whole_namespace: bool,
    kind: WatchEventKind,
    entry: store::EntryView,
) -> Result<EventView, CoordinationFault> {
    if entry.mod_revision <= 0 {
        Err(CoordinationFault::InvalidRevision(entry.mod_revision))
    } else {
        match keys::relative_of(prefix, entry.key) {
            Err(fault) => Err(fault),
            Ok(relative) => match watched_key(whole_namespace, relative) {
                None => Err(CoordinationFault::InvalidKey),
                Some(key) => match (kind, metadata::value_text(entry.value)) {
                    (WatchEventKind::Put, Err(fault)) => Err(fault),
                    (WatchEventKind::Put, Ok(value)) => Ok(
                        EventView {
                            revision: entry.mod_revision,
                            key,
                            value: Some(value),
                            kind,
                        },
                    ),
                    (WatchEventKind::Delete, _) => Ok(
                        EventView { revision: entry.mod_revision, key, value: None, kind },
                    ),
                },
            },
        }
    }
}

/// The key of an event: relative to the namespace where all of it is watched,
/// otherwise the metadata key.
pub open spec fn watched_key(whole_namespace: bool, relative: Seq<char>) -> Option<Seq<char>> {
    if whole_namespace {
        Some(relative)
    } else {
        match text::after_prefix(relative, "metadata/"@) {
            None => None,
            Some(segment) => keys::text_of_segment(segment),
        }
    }
}

/// Decode an event of a watch on the whole namespace or on one metadata key.
pub fn decode_event(
    namespace: &EtcdNamespace,
    whole_namespace: bool,
    kind: WatchEventKind,
    entry: &KeyValue,
) -> (r: Result<WatchEvent, WatchError>)
    ensures
        match (r, event_of(namespace@.prefix, whole_namespace, kind, entry@)) {
            (Ok(event), Ok(model)) => event@ == model,
            (Err(error), Err(fault)) => error@ == WatchFault::Coordination(fault),
            _ => false,
        },
{
    let revision = match Revision::new(entry.mod_revision) {
        Ok(revision) => revision,
        Err(error) => {
            return Err(WatchError::Coordination(error));
        },
    };
    let relative = match namespace.parse_relative_key(&entry.key) {
        Ok(relative) => relative,
        Err(error) => {
            return Err(WatchError::Coordination(error));
        },
    };
    let key = if whole_namespace {
        relative
    } else {
        match text::strip_prefix(relative.as_str(), "metadata/") {
            None => {
                return Err(WatchError::Coordination(CoordinationError::InvalidKey));
            },
            Some(segment) => match keys::decode_segment(segment.as_str()) {
                Ok(key) => key,
                Err(error) => {
                    return Err(WatchError::Coordination(error));
                },
            },
        }
    };
    let value = match kind {
        WatchEventKind::Put => match metadata::stored_text(&entry.value) {
            Ok(value) => Some(value),
            Err(error) => {
                return Err(WatchError::Coordination(error));
            },
        },
        WatchEventKind::Delete => None,
    };
    Ok(WatchEvent { revision, key, value, kind })
}

/// The compaction that a response reports, if any.
pub fn compaction(compact_revision: i64) -> (r: Option<WatchError>)
    ensures
        match r {
            Some(error) => compact_revision > 0 && error@ == (WatchFault::Compacted {
                revision: compact_revision,
            }),
            None => compact_revision <= 0,
        },
{
    if compact_revision > 0 {
        match Revision::new(compact_revision) {
            Ok(revision) => Some(WatchError::Compacted { revision }),
            Err(error) => Some(WatchError::Coordination(error)),
        }
    } else {
        None
    }
}

/// The key that a watch of the whole namespace or of one metadata key opens.
pub fn watch_key(namespace: &EtcdNamespace, whole_namespace: bool, key: &str) -> (r: String)
    ensures
        r@ == if whole_namespace {
            keys::key_at(namespace@.prefix, ""@)
        } else {
            keys::metadata_key_at(namespace@.prefix, key@)
        },
{
    if whole_namespace {
        namespace.namespaced_key("")
    } else {
        namespace.metadata_key(key)
    }
}

/// An event of a watched entry is read back as the change that was made: a
/// metadata key and its value.
pub proof fn metadata_event_round_trip(
    prefix: Seq<char>,
    key: Seq<char>,
    value: Seq<char>,
    entry: store::EntryView,
)
    requires
        entry.key == encode_utf8(keys::metadata_key_at(prefix, key)),
        entry.value == encode_utf8(value),
        entry.mod_revision > 0,
    ensures
        event_of(prefix, false, WatchEventKind::Put, entry) == Ok::<EventView, CoordinationFault>(
            EventView {
                revision: entry.mod_revision,
                key,
                value: Some(value),
                kind: WatchEventKind::Put,
            },
        ),
{
    keys::relative_of_key(prefix, "metadata/"@ + keys::segment_of(key));
    keys::segment_round_trip(key);
    let relative = "metadata/"@ + keys::segment_of(key);
    assert("metadata/"@.is_prefix_of(relative)) by {
        assert(relative.subrange(0, "metadata/"@.len() as int) =~= "metadata/"@);
    }
    assert(relative.skip("metadata/"@.len() as int) =~= keys::segment_of(key));
    encode_utf8_valid_utf8(value);
    encode_utf8_decode_utf8(value);
}

} // verus!
