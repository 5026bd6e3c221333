//! A resumable watch: which events of its stream are handed out, and what
//! happens when the stream is lost or its history was compacted.
use crate::coordination::etcd::error::{CoordinationError, CoordinationFault};
use crate::coordination::etcd::keys::{self, EtcdNamespace};
use crate::coordination::etcd::metadata::{self, MetadataEntry};
use crate::coordination::etcd::revision::Revision;
use crate::coordination::etcd::store::{self, KeyValue};
use crate::coordination::etcd::watch::{
    self, compaction, decode_event, watch_key, EventView, WatchCursor, WatchError, WatchEvent,
    WatchEventKind, WatchFault,
};
use vstd::prelude::*;
use vstd::string::*;

verus! {

/// What a change in a watch stream says.
pub struct ChangeView {
    pub kind: WatchEventKind,
    pub entry: Option<store::EntryView>,
}

/// A change in a watch stream.
#[derive(Clone, Debug, PartialEq, Eq)]
pub struct Change {
    pub kind: WatchEventKind,
    pub entry: Option<KeyValue>,
}

impl DeepView for Change {
    type V = ChangeView;

    open spec fn deep_view(&self) -> ChangeView {
        ChangeView { kind: self.kind, entry: self.entry.deep_view() }
    }
}

/// A response of a watch stream.
#[derive(Clone, Debug, PartialEq, Eq)]
pub struct WatchResponse {
    pub compact_revision: i64,
    pub changes: Vec<Change>,
}

/// What a subscription says.
#[verifier::ext_equal]
pub struct SubscriptionView {
    pub prefix: Seq<char>,
    pub whole_namespace: bool,
    pub key: Seq<char>,
    pub cursor: watch::CursorView,
    pub waiting: Seq<EventView>,
    pub connected: bool,
}

impl SubscriptionView {
    /// The subscription after one change. A change without an entry, or one
    /// that the cursor knows, is passed over.
    pub open spec fn with(self, change: ChangeView) -> Result<
        SubscriptionView,
        CoordinationFault,
    > {
        match change.entry {
            None => Ok(self),
            Some(entry) => match watch::event_of(
                self.prefix,
                self.whole_namespace,
                change.kind,
                entry,
            ) {
                Err(fault) => Err(fault),
                Ok(event) => if self.cursor.admits(event.revision, event.key) {
                    Ok(
                        SubscriptionView {
                            cursor: self.cursor.accepted(event.revision, event.key),
                            waiting: self.waiting.push(event),
                            ..self
                        },
                    )
                } else {
                    Ok(self)
                },
            },
        }
    }

    /// The subscription after changes, and the fault that ended them early.
    pub open spec fn after(self, changes: Seq<ChangeView>) -> (
        SubscriptionView,
        Option<CoordinationFault>,
    )
        decreases changes.len(),
    {
        if changes.len() == 0 {
            (self, None)
        } else {
            match self.after(changes.drop_last()) {
                (v, Some(fault)) => (v, Some(fault)),
                (v, None) => match v.with(changes.last()) {
                    Err(fault) => (v, Some(fault)),
                    Ok(next) => (next, None),
                },
            }
        }
    }

    /// The next event, where one waits. Without one and without a stream the
    /// subscription is disconnected; otherwise the stream is to be read.
    pub open spec fn next(self) -> (SubscriptionView, Option<Result<EventView, WatchFault>>) {
        if self.waiting.len() > 0 {
            (
                SubscriptionView { waiting: self.waiting.skip(1), ..self },
                Some(Ok(self.waiting[0])),
            )
        } else if !self.connected {
            (self, Some(Err(WatchFault::Disconnected)))
        } else {
            (self, None)
        }
    }

    /// The subscription after a snapshot at a revision replaced its history.
    pub open spec fn recovered(self, revision: i64) -> SubscriptionView {
        SubscriptionView {
            cursor: watch::CursorView {
                start: (revision + 1) as i64,
                last: None,
                processed: Set::empty(),
            },
            waiting: Seq::empty(),
            connected: true,
            ..self
        }
    }
}

proof fn stops_at_fault(v: SubscriptionView, changes: Seq<ChangeView>, i: int)
    requires
        0 <= i <= changes.len(),
        v.after(changes.take(i)).1 is Some,
    ensures
        v.after(changes) == v.after(changes.take(i)),
    decreases changes.len() - i,
{
    if i < changes.len() {
        assert(changes.take(i + 1).drop_last() =~= changes.take(i));
        stops_at_fault(v, changes, i + 1);
    } else {
        assert(changes.take(i) =~= changes);
    }
}

/// Two events are the same change.
pub open spec fn same_change(a: EventView, b: EventView) -> bool {
    a.revision == b.revision && a.key == b.key
}

/// A response hands out only events that the subscription had not seen, each
/// of them once, and in the order of their revisions.
pub proof fn events_are_handed_out_once(v: SubscriptionView, changes: Seq<ChangeView>)
    ensures
        ({
            let old_len = v.waiting.len() as int;
            let new = v.after(changes).0.waiting;
            &&& new.len() >= old_len
            &&& new.take(old_len) == v.waiting
            &&& forall|i: int|
                old_len <= i < new.len() ==> v.cursor.admits(
                    (#[trigger] new[i]).revision,
                    new[i].key,
                )
            &&& forall|i: int, j: int|
                old_len <= i < j < new.len() ==> !same_change(#[trigger] new[i], #[trigger] new[j])
                    && new[i].revision <= new[j].revision
        }),
{
    handed_out(v, changes);
}

proof fn handed_out(v: SubscriptionView, changes: Seq<ChangeView>)
    ensures
        ({
            let old_len = v.waiting.len() as int;
            let after = v.after(changes).0;
            let new = after.waiting;
            &&& after.prefix == v.prefix
            &&& after.whole_namespace == v.whole_namespace
            &&& after.cursor.start == v.cursor.start
            &&& new.len() >= old_len
            &&& new.take(old_len) == v.waiting
            &&& forall|r: i64, k: Seq<char>| #[trigger]
                after.cursor.admits(r, k) ==> v.cursor.admits(r, k)
            &&& forall|i: int|
                old_len <= i < new.len() ==> v.cursor.admits(
                    (#[trigger] new[i]).revision,
                    new[i].key,
                ) && watch::has_seen(after.cursor, new[i].revision, new[i].key)
            &&& forall|i: int, j: int|
                old_len <= i < j < new.len() ==> !same_change(#[trigger] new[i], #[trigger] new[j])
                    && new[i].revision <= new[j].revision
        }),
    decreases changes.len(),
{
    let old_len = v.waiting.len() as int;
    if changes.len() == 0 {
        assert(v.waiting.take(old_len) =~= v.waiting);
    } else {
        handed_out(v, changes.drop_last());
        let (before, fault) = v.after(changes.drop_last());
        if fault is None {
            if let Ok(next) = before.with(changes.last()) {
                if next != before {
                    let event = next.waiting.last();
                    assert(before.cursor.admits(event.revision, event.key));
                    assert(next.waiting.take(old_len) =~= before.waiting.take(old_len));
                    assert forall|r: i64, k: Seq<char>| #[trigger]
                        next.cursor.admits(r, k) implies v.cursor.admits(r, k) by {
                        assert(before.cursor.admits(r, k));
                    }
                    assert forall|i: int| old_len <= i < next.waiting.len() implies v.cursor.admits(
                        (#[trigger] next.waiting[i]).revision,
                        next.waiting[i].key,
                    ) && watch::has_seen(
                        next.cursor,
                        next.waiting[i].revision,
                        next.waiting[i].key,
                    ) by {
                        if i < before.waiting.len() {
                            assert(next.waiting[i] == before.waiting[i]);
                        }
                    }
                    assert forall|i: int, j: int|
                        old_len <= i < j < next.waiting.len() implies !same_change(
                        #[trigger] next.waiting[i],
                        #[trigger] next.waiting[j],
                    ) && next.waiting[i].revision <= next.waiting[j].revision by {
                        assert(next.waiting[i] == before.waiting[i]);
                        if j < before.waiting.len() {
                            assert(next.waiting[j] == before.waiting[j]);
                        }
                    }
                }
            }
        }
    }
}

/// After a recovery no event waits, and none is accepted that the snapshot
/// already shows.
pub proof fn recovered_subscriptions_follow_the_snapshot(
    v: SubscriptionView,
    revision: i64,
    event: i64,
    key: Seq<char>,
)
    requires
        revision < i64::MAX,
    ensures
        v.recovered(revision).waiting.len() == 0,
        v.recovered(revision).cursor.admits(event, key) <==> event > revision,
{
}

/// A resumable watch. It does not spawn a background task.
pub struct WatchSubscription {
    namespace: EtcdNamespace,
    whole_namespace: bool,
    key: String,
    cursor: WatchCursor,
    waiting: Vec<WatchEvent>,
    connected: bool,
}

impl View for WatchSubscription {
    type V = SubscriptionView;

    closed spec fn view(&self) -> SubscriptionView {
        SubscriptionView {
            prefix: self.namespace@.prefix,
            whole_namespace: self.whole_namespace,
            key: self.key@,
            cursor: self.cursor@,
            waiting: self.waiting.deep_view(),
            connected: self.connected,
        }
    }
}

/// A new subscription whose stream was opened at a revision.
pub open spec fn opened(
    prefix: Seq<char>,
    whole_namespace: bool,
    key: Seq<char>,
    start: i64,
) -> SubscriptionView {
    SubscriptionView {
        prefix,
        whole_namespace,
        key,
        cursor: watch::CursorView { start, last: None, processed: Set::empty() },
        waiting: Seq::empty(),
        connected: true,
    }
}

/// A watch that was opened right behind a snapshot has no gap and no overlap:
/// no event waits, and exactly the events after the snapshot are accepted.
pub proof fn opened_subscriptions_follow_the_snapshot(
    prefix: Seq<char>,
    whole_namespace: bool,
    key: Seq<char>,
    revision: i64,
    event: i64,
    changed: Seq<char>,
)
    requires
        revision < i64::MAX,
    ensures
        ({
            let v = opened(prefix, whole_namespace, key, (revision + 1) as i64);
            &&& v.waiting.len() == 0
            &&& v.cursor.admits(event, changed) <==> event > revision
        }),
{
}

/// The changes of a stream say these events: each of them once, and in the
/// order of their revisions.
pub open spec fn says(v: SubscriptionView, changes: Seq<ChangeView>, events: Seq<EventView>) -> bool {
    &&& changes.len() == events.len()
    &&& forall|i: int|
        0 <= i < changes.len() ==> (#[trigger] changes[i]).entry is Some && watch::event_of(
            v.prefix,
            v.whole_namespace,
            changes[i].kind,
            changes[i].entry->0,
        ) == Ok::<EventView, CoordinationFault>(events[i])
    &&& forall|i: int, j: int|
        0 <= i < j < events.len() ==> (#[trigger] events[i]).revision <= (
        #[trigger] events[j]).revision && !same_change(events[i], events[j])
}

/// The event comes behind the listed ones.
pub open spec fn comes_behind(events: Seq<EventView>, revision: i64, key: Seq<char>) -> bool {
    forall|i: int|
        0 <= i < events.len() ==> (#[trigger] events[i]).revision <= revision && !(
        events[i].revision == revision && events[i].key == key)
}

proof fn all_are_taken(v: SubscriptionView, changes: Seq<ChangeView>, events: Seq<EventView>)
    requires
        says(v, changes, events),
        forall|i: int|
            0 <= i < events.len() ==> v.cursor.admits(
                (#[trigger] events[i]).revision,
                events[i].key,
            ),
    ensures
        ({
            let (after, fault) = v.after(changes);
            &&& fault is None
            &&& after.prefix == v.prefix
            &&& after.whole_namespace == v.whole_namespace
            &&& after.waiting == v.waiting + events
            &&& forall|revision: i64, key: Seq<char>|
                v.cursor.admits(revision, key) && comes_behind(events, revision, key)
                    ==> #[trigger] after.cursor.admits(revision, key)
        }),
    decreases changes.len(),
{
    if changes.len() == 0 {
        assert(v.waiting + events =~= v.waiting);
    } else {
        let rest = changes.drop_last();
        let earlier = events.drop_last();
        let event = events.last();
        let n = changes.len() - 1;
        assert forall|i: int| 0 <= i < rest.len() implies (#[trigger] rest[i]).entry is Some
            && watch::event_of(v.prefix, v.whole_namespace, rest[i].kind, rest[i].entry->0)
            == Ok::<EventView, CoordinationFault>(earlier[i]) by {
            assert(rest[i] == changes[i]);
        }
        assert forall|i: int, j: int| 0 <= i < j < earlier.len() implies (
        #[trigger] earlier[i]).revision <= (#[trigger] earlier[j]).revision && !same_change(
            earlier[i],
            earlier[j],
        ) by {
            assert(earlier[i] == events[i] && earlier[j] == events[j]);
        }
        assert forall|i: int| 0 <= i < earlier.len() implies v.cursor.admits(
            (#[trigger] earlier[i]).revision,
            earlier[i].key,
        ) by {
            assert(earlier[i] == events[i]);
        }
        all_are_taken(v, rest, earlier);
        let before = v.after(rest).0;
        let after = v.after(changes).0;
        assert(changes[n].entry is Some);
        assert(events[n] == event);
        assert(v.cursor.admits(event.revision, event.key));
        assert(comes_behind(earlier, event.revision, event.key)) by {
            assert forall|i: int| 0 <= i < earlier.len() implies (#[trigger] earlier[i]).revision
                <= event.revision && !(earlier[i].revision == event.revision && earlier[i].key
                == event.key) by {
                assert(earlier[i] == events[i]);
                assert(!same_change(events[i], events[n]));
            }
        }
        assert(before.cursor.admits(event.revision, event.key));
        assert(after.waiting =~= v.waiting + events);
        assert forall|revision: i64, key: Seq<char>|
            v.cursor.admits(revision, key) && comes_behind(events, revision, key) implies
            #[trigger] after.cursor.admits(revision, key) by {
            assert(comes_behind(earlier, revision, key)) by {
                assert forall|i: int| 0 <= i < earlier.len() implies (
                #[trigger] earlier[i]).revision <= revision && !(earlier[i].revision == revision
                    && earlier[i].key == key) by {
                    assert(earlier[i] == events[i]);
                }
            }
            assert(before.cursor.admits(revision, key));
            assert(events[n].revision <= revision);
        }
    }
}

/// Nothing that happens after a snapshot is missed: a watch that was opened
/// right behind it hands out every later event of its stream, each once and in
/// order.
pub proof fn nothing_after_the_snapshot_is_missed(
    prefix: Seq<char>,
    whole_namespace: bool,
    key: Seq<char>,
    revision: i64,
    changes: Seq<ChangeView>,
    events: Seq<EventView>,
)
    requires
        revision < i64::MAX,
        says(
            opened(prefix, whole_namespace, key, (revision + 1) as i64),
            changes,
            events,
        ),
        forall|i: int| 0 <= i < events.len() ==> (#[trigger] events[i]).revision > revision,
    ensures
        ({
            let (v, fault) = opened(prefix, whole_namespace, key, (revision + 1) as i64).after(
                changes,
            );
            &&& fault is None
            &&& v.waiting == events
        }),
{
    let v = opened(prefix, whole_namespace, key, (revision + 1) as i64);
    all_are_taken(v, changes, events);
    assert(v.waiting + events =~= events);
}

/// Nothing that happens after a recovery is missed either.
pub proof fn nothing_after_the_recovery_is_missed(
    v: SubscriptionView,
    revision: i64,
    changes: Seq<ChangeView>,
    events: Seq<EventView>,
)
    requires
        revision < i64::MAX,
        says(v.recovered(revision), changes, events),
        forall|i: int| 0 <= i < events.len() ==> (#[trigger] events[i]).revision > revision,
    ensures
        v.recovered(revision).after(changes).1 is None,
        v.recovered(revision).after(changes).0.waiting == events,
{
    all_are_taken(v.recovered(revision), changes, events);
    assert(v.recovered(revision).waiting + events =~= events);
}

impl WatchSubscription {
    /// A watch of one metadata key, opened at a revision.
    pub fn watch_metadata(namespace: EtcdNamespace, key: &str, start_revision: Revision) -> (r:
        WatchSubscription)
        ensures
            r@ == opened(namespace@.prefix, false, key@, start_revision@),
    {
        let r = WatchSubscription {
            namespace,
            whole_namespace: false,
            key: key.to_owned(),
            cursor: WatchCursor::new(start_revision),
            waiting: Vec::new(),
            connected: true,
        };
        assert(r@.waiting =~= Seq::empty());
        r
    }

    /// A watch of the whole namespace, opened at a revision.
    pub fn watch_namespace(namespace: EtcdNamespace, start_revision: Revision) -> (r:
        WatchSubscription)
        ensures
            r@ == opened(namespace@.prefix, true, ""@, start_revision@),
    {
        let r = WatchSubscription {
            namespace,
            whole_namespace: true,
            key: "".to_owned(),
            cursor: WatchCursor::new(start_revision),
            waiting: Vec::new(),
            connected: true,
        };
        assert(r@.waiting =~= Seq::empty());
        r
    }

    /// The next semantic event, an error, or nothing where the stream is to be
    /// read.
    pub fn next(&mut self) -> (r: Option<Result<WatchEvent, WatchError>>)
        ensures
            final(self)@ == old(self)@.next().0,
            match (r, old(self)@.next().1) {
                (Some(Ok(event)), Some(Ok(model))) => event@ == model,
                (Some(Err(error)), Some(Err(fault))) => error@ == fault,
                (None, None) => true,
                _ => false,
            },
    {
        let ghost before = self.waiting.deep_view();
        if self.waiting.len() > 0 {
            let event = self.waiting.remove(0);
            assert(self.waiting.deep_view() =~= before.skip(1));
            Some(Ok(event))
        } else if !self.connected {
            Some(Err(WatchError::Disconnected))
        } else {
            None
        }
    }

    fn on_change(&mut self, change: &Change) -> (r: Result<(), WatchError>)
        ensures
            match (r, old(self)@.with(change.deep_view())) {
                (Ok(()), Ok(next)) => final(self)@ == next,
                (Err(error), Err(fault)) => error@ == WatchFault::Coordination(fault)
                    && final(self)@ == old(self)@,
                _ => false,
            },
    {
        let entry = match &change.entry {
            Some(entry) => entry,
            None => {
                return Ok(());
            },
        };
        let event = match decode_event(
            &self.namespace,
            self.whole_namespace,
            change.kind,
            entry,
        ) {
            Ok(event) => event,
            Err(error) => {
                return Err(error);
            },
        };
        if self.cursor.accept(event.revision(), event.key()) {
            let ghost before = self.waiting.deep_view();
            let ghost model = event@;
            self.waiting.push(event);
            assert(self.waiting.deep_view() =~= before.push(model));
        }
        Ok(())
    }

    /// Take in what the stream answered. A stream that ended, or whose history
    /// was compacted, hands out an error; events before a malformed one are
    /// kept.
    pub fn on_message(&mut self, message: Result<Option<WatchResponse>, CoordinationError>) -> (r:
        Result<(), WatchError>)
        ensures
            match message {
                Err(error) => r matches Err(fault) && fault@ == WatchFault::Coordination(error@)
                    && final(self)@ == old(self)@,
                Ok(None) => r matches Err(fault) && fault@ == WatchFault::Disconnected
                    && final(self)@ == old(self)@,
                Ok(Some(response)) => if response.compact_revision > 0 {
                    r matches Err(fault) && fault@ == (WatchFault::Compacted {
                        revision: response.compact_revision,
                    }) && final(self)@ == old(self)@
                } else {
                    let (next, fault) = old(self)@.after(response.changes.deep_view());
                    final(self)@ == next && match (r, fault) {
                        (Ok(()), None) => true,
                        (Err(error), Some(fault)) => error@ == WatchFault::Coordination(fault),
                        _ => false,
                    }
                },
            },
    {
        let response = match message {
            Err(error) => {
                return Err(WatchError::Coordination(error));
            },
            Ok(None) => {
                return Err(WatchError::Disconnected);
            },
            Ok(Some(response)) => response,
        };
        if let Some(error) = compaction(response.compact_revision) {
            return Err(error);
        }
        let ghost start = self@;
        let ghost all = response.changes.deep_view();
        let mut i: usize = 0;
        assert(all.take(0) =~= Seq::empty());
        while i < response.changes.len()
            invariant
                i <= response.changes@.len(),
                response.compact_revision <= 0,
                message == Ok::<Option<WatchResponse>, CoordinationError>(Some(response)),
                all == response.changes.deep_view(),
                start == old(self)@,
                start.after(all.take(i as int)) == (self@, None::<CoordinationFault>),
            decreases response.changes@.len() - i,
        {
            proof {
                assert(all.take(i + 1).drop_last() =~= all.take(i as int));
                assert(all.take(i + 1).last() == response.changes@[i as int].deep_view());
            }
            if let Err(error) = self.on_change(&response.changes[i]) {
                proof {
                    stops_at_fault(start, all, i + 1);
                }
                return Err(error);
            }
            i = i + 1;
        }
        assert(all.take(i as int) =~= all);
        Ok(())
    }

    /// Forget the stream.
    pub fn disconnect(&mut self)
        ensures
            final(self)@ == (SubscriptionView { connected: false, ..old(self)@ }),
    {
        self.connected = false;
    }

    /// What to open in order to resume from the last processed event: the key,
    /// whether it is a prefix, and the revision.
    pub fn resume(&self) -> (r: (String, bool, Revision))
        ensures
            r.0@ == if self@.whole_namespace {
                keys::key_at(self@.prefix, ""@)
            } else {
                keys::metadata_key_at(self@.prefix, self@.key)
            },
            r.1 == self@.whole_namespace,
            r.2@ == self@.cursor.resume(),
    {
        (
            watch_key(&self.namespace, self.whole_namespace, self.key.as_str()),
            self.whole_namespace,
            self.cursor.resume_revision(),
        )
    }

    /// The stream was opened again.
    pub fn on_resumed(&mut self)
        ensures
            final(self)@ == (SubscriptionView { connected: true, ..old(self)@ }),
    {
        self.connected = true;
    }

    /// Rebuild a watch of the whole namespace after a compaction. Where the
    /// stream opens again.
    pub fn recover_namespace(&mut self, snapshot_revision: Revision) -> (r: Result<
        Revision,
        WatchError,
    >)
        ensures
            match r {
                Ok(start) => snapshot_revision@ < i64::MAX && start@ == snapshot_revision@ + 1
                    && final(self)@ == old(self)@.recovered(snapshot_revision@),
                Err(error) => snapshot_revision@ == i64::MAX && error@
                    == WatchFault::Coordination(CoordinationFault::RevisionExhausted)
                    && final(self)@ == old(self)@,
            },
    {
        match self.cursor.reset_after_recovery(snapshot_revision) {
            Err(error) => Err(WatchError::Coordination(error)),
            Ok(start) => {
                self.waiting = Vec::new();
                self.connected = true;
                assert(self@.waiting =~= Seq::empty());
                Ok(start)
            },
        }
    }

    /// Rebuild a watch of one metadata key after a compaction, from a snapshot
    /// of that key. Its current value, and where the stream opens again.
    pub fn recover_metadata(
        &mut self,
        snapshot_revision: Revision,
        entries: &Vec<KeyValue>,
    ) -> (r: Result<(Option<MetadataEntry>, Revision), WatchError>)
        ensures
            match r {
                Ok((entry, start)) => {
                    &&& snapshot_revision@ < i64::MAX
                    &&& start@ == snapshot_revision@ + 1
                    &&& final(self)@ == old(self)@.recovered(snapshot_revision@)
                    &&& match entry {
                        Some(entry) => entries@.len() > 0 && metadata::metadata_of(entries@[0]@)
                            == Ok::<metadata::MetadataView, CoordinationFault>(entry@),
                        None => entries@.len() == 0,
                    }
                },
                Err(error) => {
                    &&& final(self)@ == old(self)@
                    &&& if entries@.len() > 0 && metadata::metadata_of(entries@[0]@) is Err {
                        error@ == WatchFault::Coordination(
                            metadata::metadata_of(entries@[0]@)->Err_0,
                        )
                    } else {
                        snapshot_revision@ == i64::MAX && error@ == WatchFault::Coordination(
                            CoordinationFault::RevisionExhausted,
                        )
                    }
                },
            },
    {
        let entry: Option<MetadataEntry> = if entries.len() > 0 {
            match metadata::metadata_entry(&entries[0]) {
                Ok(entry) => Some(entry),
                Err(error) => {
                    return Err(WatchError::Coordination(error));
                },
            }
        } else {
            None
        };
        match self.recover_namespace(snapshot_revision) {
            Ok(start) => Ok((entry, start)),
            Err(error) => Err(error),
        }
    }
}

} // verus!
