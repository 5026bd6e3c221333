//! What holds of the snapshots and events that are read from the store.
use crate::coordination::etcd::error::CoordinationFault;
use crate::coordination::etcd::keys;
use crate::coordination::etcd::metadata;
use crate::coordination::etcd::session;
use crate::coordination::etcd::session::{RecordView, SessionStates};
use crate::coordination::etcd::snapshot;
use crate::coordination::etcd::snapshot::{CoordinationView, ElectionRecord};
use crate::coordination::etcd::store;
use crate::coordination::etcd::subscription::SubscriptionView;
use crate::coordination::etcd::watch;
use crate::coordination::etcd::watch::{CursorView, EventView, WatchEventKind, WatchFault};
use crate::model::replica_state;
use crate::model::session::{Resources, SnapshotView};
use crate::text;
use vstd::prelude::*;
use vstd::utf8::*;

verus! {

/// The record at `k` is the last that says which session of the instance is
/// live.
pub open spec fn last_live(records: Seq<RecordView>, instance: Seq<char>, k: int) -> bool {
    &&& 0 <= k < records.len()
    &&& lives(records[k], instance)
    &&& forall|j: int| k < j < records.len() ==> !lives(#[trigger] records[j], instance)
}

/// The record says which session of the instance is live.
pub open spec fn lives(record: RecordView, instance: Seq<char>) -> bool {
    record is Live && record->Live_instance == instance
}

proof fn live_is_last(records: Seq<RecordView>, instance: Seq<char>)
    ensures
        forall|k: int| #[trigger]
            last_live(records, instance, k) ==> session::live_sessions(records).dom().contains(
                instance,
            ) && session::live_sessions(records)[instance] == records[k]->Live_session,
        session::live_sessions(records).dom().contains(instance) ==> exists|k: int| #[trigger]
            last_live(records, instance, k),
    decreases records.len(),
{
    if records.len() > 0 {
        let rest = records.drop_last();
        let n = records.len() - 1;
        live_is_last(rest, instance);
        assert(records[n] == records.last());
        assert forall|k: int| #[trigger] last_live(records, instance, k) implies session::live_sessions(
            records,
        ).dom().contains(instance) && session::live_sessions(records)[instance]
            == records[k]->Live_session by {
            if k < n {
                assert(!lives(records[n], instance));
                assert(last_live(rest, instance, k)) by {
                    assert forall|j: int| k < j < rest.len() implies !lives(
                        #[trigger] rest[j],
                        instance,
                    ) by {
                        assert(rest[j] == records[j]);
                    }
                }
                assert(rest[k] == records[k]);
            }
        }
        if session::live_sessions(records).dom().contains(instance) {
            if lives(records[n], instance) {
                assert(last_live(records, instance, n));
            } else {
                let k = choose|k: int| #[trigger] last_live(rest, instance, k);
                assert(last_live(records, instance, k)) by {
                    assert forall|j: int| k < j < records.len() implies !lives(
                        #[trigger] records[j],
                        instance,
                    ) by {
                        if j < n {
                            assert(rest[j] == records[j]);
                        }
                    }
                }
            }
        }
    }
}

/// An instance is live exactly where a live record names it, under the session
/// of the last such record.
pub proof fn live_records_make_live(records: Seq<RecordView>, instance: Seq<char>)
    ensures
        ({
            let shown = session::participants_of(records);
            &&& shown.live.dom() == shown.active.dom()
            &&& shown.live.dom().contains(instance) <==> exists|k: int| #[trigger]
                last_live(records, instance, k)
            &&& forall|k: int| #[trigger]
                last_live(records, instance, k) ==> shown.live[instance] == (
                    instance,
                    records[k]->Live_session,
                ) && shown.active[instance].0 == records[k]->Live_session
        }),
{
    live_is_last(records, instance);
    let shown = session::participants_of(records);
    assert(shown.live.dom() =~= shown.active.dom());
}

/// The state of a replica.
pub open spec fn state_in(
    m: Resources,
    resource: Seq<char>,
    partition: Seq<char>,
    instance: Seq<char>,
) -> Option<Seq<char>> {
    if m.dom().contains(resource) && m[resource].dom().contains(partition)
        && m[resource][partition].dom().contains(instance) {
        Some(m[resource][partition][instance])
    } else {
        None
    }
}

/// The record says the state of the replica under the session.
pub open spec fn tells(
    record: RecordView,
    instance: Seq<char>,
    number: u64,
    resource: Seq<char>,
    partition: Seq<char>,
) -> bool {
    record is State && record->State_instance == instance && record->State_session == number
        && record->State_resource == resource && record->State_partition == partition
}

/// The record at `k` is the last that says the state of the replica under the
/// session.
pub open spec fn last_state(
    records: Seq<RecordView>,
    instance: Seq<char>,
    number: u64,
    resource: Seq<char>,
    partition: Seq<char>,
    k: int,
) -> bool {
    &&& 0 <= k < records.len()
    &&& tells(records[k], instance, number, resource, partition)
    &&& forall|j: int|
        k < j < records.len() ==> !tells(
            #[trigger] records[j],
            instance,
            number,
            resource,
            partition,
        )
}

/// The states under a session.
pub open spec fn under(m: SessionStates, instance: Seq<char>, number: u64) -> Resources {
    session::resources_in(session::sessions_in(m, instance), number)
}

proof fn states_are_last(
    records: Seq<RecordView>,
    instance: Seq<char>,
    number: u64,
    resource: Seq<char>,
    partition: Seq<char>,
    other: Seq<char>,
)
    ensures
        ({
            let state = state_in(
                under(session::session_states(records), instance, number),
                resource,
                partition,
                other,
            );
            &&& other != instance ==> state is None
            &&& forall|k: int| #[trigger]
                last_state(records, instance, number, resource, partition, k) && other == instance
                    ==> state == Some(records[k]->State_state)
            &&& state is Some ==> exists|k: int| #[trigger]
                last_state(records, instance, number, resource, partition, k)
        }),
    decreases records.len(),
{
    if records.len() > 0 {
        let rest = records.drop_last();
        let n = records.len() - 1;
        states_are_last(rest, instance, number, resource, partition, other);
        let last = records.last();
        assert(records[n] == last);
        let before = session::session_states(rest);
        let after = session::session_states(records);
        let told = tells(last, instance, number, resource, partition);
        let state = state_in(under(after, instance, number), resource, partition, other);
        let old_state = state_in(under(before, instance, number), resource, partition, other);
        if last is State {
            let i = last->State_instance;
            let s = last->State_session;
            let r = last->State_resource;
            replica_state::placing_changes_one_replica(
                session::replicas_in(under(before, i, s), r),
                last->State_partition,
                i,
                last->State_state,
                partition,
                other,
            );
        }
        assert(state == if told && other == instance {
            Some(last->State_state)
        } else {
            old_state
        });
        assert forall|k: int| #[trigger]
            last_state(records, instance, number, resource, partition, k) && other
                == instance implies state == Some(records[k]->State_state) by {
            if k < n {
                assert(!tells(records[n], instance, number, resource, partition));
                assert(last_state(rest, instance, number, resource, partition, k)) by {
                    assert forall|j: int| k < j < rest.len() implies !tells(
                        #[trigger] rest[j],
                        instance,
                        number,
                        resource,
                        partition,
                    ) by {
                        assert(rest[j] == records[j]);
                    }
                }
                assert(rest[k] == records[k]);
            }
        }
        if state is Some {
            if told {
                assert(last_state(records, instance, number, resource, partition, n));
            } else {
                let k = choose|k: int| #[trigger]
                    last_state(rest, instance, number, resource, partition, k);
                assert(last_state(records, instance, number, resource, partition, k)) by {
                    assert forall|j: int| k < j < records.len() implies !tells(
                        #[trigger] records[j],
                        instance,
                        number,
                        resource,
                        partition,
                    ) by {
                        if j < n {
                            assert(rest[j] == records[j]);
                        }
                    }
                }
            }
        }
    }
}

/// The states that are shown of a live instance are those of the last state
/// records under its live session, of its own replicas and no others.
pub proof fn state_records_make_states(
    records: Seq<RecordView>,
    instance: Seq<char>,
    resource: Seq<char>,
    partition: Seq<char>,
    other: Seq<char>,
)
    requires
        session::participants_of(records).active.dom().contains(instance),
    ensures
        ({
            let (number, shown) = session::participants_of(records).active[instance];
            let state = state_in(shown, resource, partition, other);
            &&& other != instance ==> state is None
            &&& forall|k: int| #[trigger]
                last_state(records, instance, number, resource, partition, k) && other == instance
                    ==> state == Some(records[k]->State_state)
            &&& state is Some ==> exists|k: int| #[trigger]
                last_state(records, instance, number, resource, partition, k)
        }),
{
    let number = session::participants_of(records).active[instance].0;
    states_are_last(records, instance, number, resource, partition, other);
}

/// Every entry becomes a record, in order, unless one of them cannot be read.
pub proof fn entries_make_records(prefix: Seq<char>, entries: Seq<store::EntryView>)
    ensures
        match session::records_of(prefix, entries) {
            Ok(records) => records.len() == entries.len() && forall|k: int|
                0 <= k < entries.len() ==> session::record_of(prefix, #[trigger] entries[k]) == Ok::<
                    RecordView,
                    CoordinationFault,
                >(records[k]),
            Err(_) => exists|k: int|
                0 <= k < entries.len() && session::record_of(prefix, #[trigger] entries[k]) is Err,
        },
    decreases entries.len(),
{
    if entries.len() > 0 {
        let rest = entries.drop_last();
        let n = entries.len() - 1;
        entries_make_records(prefix, rest);
        assert(entries[n] == entries.last());
        match session::records_of(prefix, rest) {
            Ok(before) => {
                assert forall|k: int| 0 <= k < n implies session::record_of(
                    prefix,
                    #[trigger] entries[k],
                ) == Ok::<RecordView, CoordinationFault>(before[k]) by {
                    assert(rest[k] == entries[k]);
                }
            },
            Err(_) => {
                let k = choose|k: int|
                    0 <= k < rest.len() && session::record_of(prefix, #[trigger] rest[k]) is Err;
                assert(entries[k] == rest[k]);
            },
        }
    }
}

/// A metadata entry is read as its value at its revision, and an entry that is
/// no metadata as nothing.
pub proof fn metadata_entries_are_read(
    prefix: Seq<char>,
    key: Seq<char>,
    value: Seq<char>,
    relative: Seq<char>,
    entry: store::EntryView,
)
    ensures
        entry.key == encode_utf8(keys::metadata_key_at(prefix, key)) && entry.value == encode_utf8(
            value,
        ) && entry.mod_revision > 0 ==> snapshot::metadata_record(prefix, entry) == Ok::<
            Option<(Seq<char>, metadata::MetadataView)>,
            CoordinationFault,
        >(
            Some(
                (key, metadata::MetadataView { value: Some(value), revision: entry.mod_revision }),
            ),
        ),
        entry.key == encode_utf8(keys::key_at(prefix, relative)) && !"metadata/"@.is_prefix_of(
            relative,
        ) ==> snapshot::metadata_record(prefix, entry) == Ok::<
            Option<(Seq<char>, metadata::MetadataView)>,
            CoordinationFault,
        >(None),
{
    let named = "metadata/"@ + keys::segment_of(key);
    keys::relative_of_key(prefix, named);
    keys::relative_of_key(prefix, relative);
    keys::segment_round_trip(key);
    encode_utf8_valid_utf8(value);
    encode_utf8_decode_utf8(value);
    reveal_strlit("metadata/");
    assert("metadata/"@.is_prefix_of(named)) by {
        assert(named.subrange(0, 9) =~= "metadata/"@);
    }
    assert(named.skip(9) =~= keys::segment_of(key));
}

/// The entry at `k` is the last that is read as metadata of the key.
pub open spec fn last_metadata(
    prefix: Seq<char>,
    entries: Seq<store::EntryView>,
    key: Seq<char>,
    value: metadata::MetadataView,
    k: int,
) -> bool {
    &&& 0 <= k < entries.len()
    &&& snapshot::metadata_record(prefix, entries[k]) == Ok::<
        Option<(Seq<char>, metadata::MetadataView)>,
        CoordinationFault,
    >(Some((key, value)))
    &&& forall|j: int|
        k < j < entries.len() ==> !(snapshot::metadata_record(
            prefix,
            #[trigger] entries[j],
        ) matches Ok(Some((other, _))) && other == key)
}

/// The metadata of a snapshot are those of the last entry of each key.
pub proof fn metadata_are_those_of_the_entries(
    prefix: Seq<char>,
    entries: Seq<store::EntryView>,
    key: Seq<char>,
)
    ensures
        snapshot::metadata_in(prefix, entries) matches Ok(m) ==> {
            &&& forall|value: metadata::MetadataView, k: int| #[trigger]
                last_metadata(prefix, entries, key, value, k) ==> m.dom().contains(key) && m[key]
                    == value
            &&& m.dom().contains(key) ==> exists|k: int| #[trigger]
                last_metadata(prefix, entries, key, m[key], k)
        },
    decreases entries.len(),
{
    if entries.len() > 0 && snapshot::metadata_in(prefix, entries) is Ok {
        let rest = entries.drop_last();
        let n = entries.len() - 1;
        metadata_are_those_of_the_entries(prefix, rest, key);
        assert(entries[n] == entries.last());
        let m = snapshot::metadata_in(prefix, entries)->Ok_0;
        let before = snapshot::metadata_in(prefix, rest)->Ok_0;
        let own = snapshot::metadata_record(prefix, entries[n]) matches Ok(Some((other, _)))
            && other == key;
        assert forall|value: metadata::MetadataView, k: int| #[trigger]
            last_metadata(prefix, entries, key, value, k) implies m.dom().contains(key) && m[key]
            == value by {
            if k < n {
                assert(!own);
                assert(last_metadata(prefix, rest, key, value, k)) by {
                    assert(rest[k] == entries[k]);
                    assert forall|j: int| k < j < rest.len() implies !(snapshot::metadata_record(
                        prefix,
                        #[trigger] rest[j],
                    ) matches Ok(Some((other, _))) && other == key) by {
                        assert(rest[j] == entries[j]);
                    }
                }
            }
        }
        if m.dom().contains(key) {
            if own {
                assert(last_metadata(prefix, entries, key, m[key], n));
            } else {
                let k = choose|k: int| #[trigger] last_metadata(prefix, rest, key, m[key], k);
                assert(last_metadata(prefix, entries, key, m[key], k)) by {
                    assert(rest[k] == entries[k]);
                    assert forall|j: int| k < j < entries.len() implies !(snapshot::metadata_record(
                        prefix,
                        #[trigger] entries[j],
                    ) matches Ok(Some((other, _))) && other == key) by {
                        if j < n {
                            assert(rest[j] == entries[j]);
                        }
                    }
                }
            }
        }
    }
}

/// The relative key is derived: it is of the election or of the session
/// sequence, or metadata that the controller publishes or a participant writes
/// as its progress.
pub open spec fn derived(relative: Seq<char>) -> bool {
    ||| "controller/election/"@.is_prefix_of(relative)
    ||| relative == "internal/session-sequence"@
    ||| snapshot::metadata_key_in(relative) matches Some(key) && ("controller/output/"@.is_prefix_of(
        key,
    ) || ("participant/"@.is_prefix_of(key) && "/processed-revision"@.is_suffix_of(key)))
}

/// Every entry is input but the derived ones.
pub proof fn entries_are_input(prefix: Seq<char>, relative: Seq<char>, entry: store::EntryView)
    requires
        entry.key == encode_utf8(keys::key_at(prefix, relative)),
        entry.mod_revision > 0,
    ensures
        snapshot::input_revision(prefix, entry) == Ok::<Option<i64>, CoordinationFault>(
            if derived(relative) {
                None
            } else {
                Some(entry.mod_revision)
            },
        ),
{
    keys::relative_of_key(prefix, relative);
}

/// The newest input is the highest revision of an input, and is one of them.
pub proof fn newest_input_is_an_input(prefix: Seq<char>, entries: Seq<store::EntryView>)
    ensures
        snapshot::newest_input(prefix, entries) matches Ok(newest) ==> {
            &&& newest matches Some(revision) ==> exists|k: int|
                0 <= k < entries.len() && snapshot::input_revision(prefix, #[trigger] entries[k])
                    == Ok::<Option<i64>, CoordinationFault>(Some(revision))
            &&& forall|k: int|
                0 <= k < entries.len() ==> (snapshot::input_revision(
                    prefix,
                    #[trigger] entries[k],
                ) matches Ok(own) && (own is Some ==> newest is Some && own->0 <= newest->0))
        },
    decreases entries.len(),
{
    if entries.len() > 0 && snapshot::newest_input(prefix, entries) is Ok {
        let rest = entries.drop_last();
        let n = entries.len() - 1;
        newest_input_is_an_input(prefix, rest);
        assert(entries[n] == entries.last());
        let newest = snapshot::newest_input(prefix, entries)->Ok_0;
        if newest is Some && snapshot::input_revision(prefix, entries[n]) != Ok::<
            Option<i64>,
            CoordinationFault,
        >(newest) {
            let k = choose|k: int|
                0 <= k < rest.len() && snapshot::input_revision(prefix, #[trigger] rest[k]) == Ok::<
                    Option<i64>,
                    CoordinationFault,
                >(newest);
            assert(entries[k] == rest[k]);
        }
        assert forall|k: int| 0 <= k < entries.len() implies (snapshot::input_revision(
            prefix,
            #[trigger] entries[k],
        ) matches Ok(own) && (own is Some ==> newest is Some && own->0 <= newest->0)) by {
            if k < n {
                assert(rest[k] == entries[k]);
            }
        }
    }
}

/// The active record tells the controller and its lease, and a candidate record
/// tells a candidate and its lease. A record without a lease is refused.
pub proof fn election_entries_are_read(
    prefix: Seq<char>,
    controller: Seq<char>,
    entry: store::EntryView,
)
    requires
        !text::blank(controller),
    ensures
        entry.key == encode_utf8(keys::key_at(prefix, "controller/election/active"@))
            && entry.value == encode_utf8(controller) ==> snapshot::election_record(prefix, entry)
            == if entry.lease != 0 {
            Ok::<ElectionRecord, CoordinationFault>(
                ElectionRecord::Active(controller, entry.lease),
            )
        } else {
            Err(CoordinationFault::InvalidValue)
        },
        entry.key == encode_utf8(keys::candidate_key_at(prefix, controller))
            ==> snapshot::election_record(prefix, entry) == if entry.lease != 0 {
            Ok::<ElectionRecord, CoordinationFault>(
                ElectionRecord::Candidate(controller, entry.lease),
            )
        } else {
            Err(CoordinationFault::InvalidValue)
        },
{
    let active = "controller/election/active"@;
    let start = "controller/election/candidates/"@;
    let own = start + keys::segment_of(controller);
    keys::relative_of_key(prefix, active);
    keys::relative_of_key(prefix, own);
    keys::segment_round_trip(controller);
    encode_utf8_valid_utf8(controller);
    encode_utf8_decode_utf8(controller);
    reveal_strlit("controller/election/active");
    reveal_strlit("controller/election/candidates/");
    assert(own != active) by {
        assert(own[20] == start[20]);
    }
    assert(start.is_prefix_of(own)) by {
        assert(own.subrange(0, start.len() as int) =~= start);
    }
    assert(own.skip(start.len() as int) =~= keys::segment_of(controller));
}

/// The election of a snapshot: the last active record, and every candidate
/// record under the last lease.
pub proof fn elections_are_those_of_the_entries(
    prefix: Seq<char>,
    entries: Seq<store::EntryView>,
    controller: Seq<char>,
)
    ensures
        snapshot::election_in(prefix, entries) matches Ok(election) ==> {
            &&& election.active is None <==> forall|k: int|
                0 <= k < entries.len() ==> !(snapshot::election_record(
                    prefix,
                    #[trigger] entries[k],
                ) matches Ok(ElectionRecord::Active(_, _)))
            &&& election.active matches Some((c, l)) ==> exists|k: int|
                0 <= k < entries.len() && snapshot::election_record(prefix, #[trigger] entries[k])
                    == Ok::<ElectionRecord, CoordinationFault>(ElectionRecord::Active(c, l))
            &&& election.candidates.dom().contains(controller) <==> exists|k: int|
                0 <= k < entries.len() && (snapshot::election_record(
                    prefix,
                    #[trigger] entries[k],
                ) matches Ok(ElectionRecord::Candidate(c, _)) && c == controller)
            &&& election.candidates.dom().contains(controller) ==> exists|k: int|
                0 <= k < entries.len() && snapshot::election_record(prefix, #[trigger] entries[k])
                    == Ok::<ElectionRecord, CoordinationFault>(
                    ElectionRecord::Candidate(controller, election.candidates[controller]),
                )
        },
    decreases entries.len(),
{
    if entries.len() > 0 && snapshot::election_in(prefix, entries) is Ok {
        let rest = entries.drop_last();
        let n = entries.len() - 1;
        elections_are_those_of_the_entries(prefix, rest, controller);
        assert(entries[n] == entries.last());
        assert(forall|k: int| 0 <= k < n ==> #[trigger] rest[k] == entries[k]);
        assert(forall|k: int| 0 <= k < n ==> #[trigger] entries[k] == rest[k]);
        let before = snapshot::election_in(prefix, rest)->Ok_0;
        let after = snapshot::election_in(prefix, entries)->Ok_0;
        if before.active is Some {
            let (c, l) = before.active->0;
            let k = choose|k: int|
                0 <= k < rest.len() && snapshot::election_record(prefix, #[trigger] rest[k]) == Ok::<
                    ElectionRecord,
                    CoordinationFault,
                >(ElectionRecord::Active(c, l));
            assert(entries[k] == rest[k]);
        }
        if before.candidates.dom().contains(controller) {
            let k = choose|k: int|
                0 <= k < rest.len() && snapshot::election_record(prefix, #[trigger] rest[k]) == Ok::<
                    ElectionRecord,
                    CoordinationFault,
                >(ElectionRecord::Candidate(controller, before.candidates[controller]));
            assert(entries[k] == rest[k]);
        }
    }
}

/// A snapshot holds the metadata, the participants and the election of its
/// entries. Its input is the newest input among them, and without any the
/// snapshot itself.
pub proof fn snapshots_hold_their_entries(
    prefix: Seq<char>,
    revision: i64,
    entries: Seq<store::EntryView>,
    v: CoordinationView,
)
    requires
        snapshot::coordination_of(prefix, revision, entries) == Ok::<
            CoordinationView,
            CoordinationFault,
        >(v),
    ensures
        v.revision == revision,
        snapshot::metadata_in(prefix, entries) == Ok::<
            Map<Seq<char>, metadata::MetadataView>,
            CoordinationFault,
        >(v.metadata),
        session::snapshot_of(prefix, entries) == Ok::<
            SnapshotView,
            CoordinationFault,
        >(v.participants),
        snapshot::election_in(prefix, entries) == Ok::<snapshot::ElectionView, CoordinationFault>(
            v.election,
        ),
        snapshot::newest_input(prefix, entries) == Ok::<Option<i64>, CoordinationFault>(
            Some(v.authoritative),
        ) || (snapshot::newest_input(prefix, entries) == Ok::<Option<i64>, CoordinationFault>(None)
            && v.authoritative == revision),
{
}

/// A cursor admits the changes from its start on, in the order of their
/// revisions, and each key of a revision once.
pub proof fn cursors_admit_each_change_once(
    c: CursorView,
    revision: i64,
    key: Seq<char>,
    later: i64,
    other: Seq<char>,
)
    requires
        c.valid(),
    ensures
        c.last is None ==> (c.admits(revision, key) <==> revision >= c.start) && c.resume()
            == c.start,
        c.admits(revision, key) ==> {
            let after = c.accepted(revision, key);
            &&& after.last == Some(revision) && after.start == c.start && after.resume() == revision
            &&& !after.admits(revision, key)
            &&& later < revision ==> !after.admits(later, other)
            &&& later > revision ==> after.admits(later, other)
            &&& other != key ==> (after.admits(revision, other) <==> c.admits(revision, other))
        },
        !c.admits(revision, key) ==> c.accepted(revision, key) == c,
{
}

/// A deleted key is told without a value, and a put one with its text. Without
/// a revision the change is refused.
pub proof fn changes_are_told(
    prefix: Seq<char>,
    relative: Seq<char>,
    value: Seq<char>,
    entry: store::EntryView,
)
    requires
        entry.key == encode_utf8(keys::key_at(prefix, relative)),
        entry.value == encode_utf8(value),
    ensures
        entry.mod_revision > 0 ==> watch::event_of(prefix, true, WatchEventKind::Put, entry) == Ok::<
            EventView,
            CoordinationFault,
        >(
            EventView {
                revision: entry.mod_revision,
                key: relative,
                value: Some(value),
                kind: WatchEventKind::Put,
            },
        ) && watch::event_of(prefix, true, WatchEventKind::Delete, entry) == Ok::<
            EventView,
            CoordinationFault,
        >(
            EventView {
                revision: entry.mod_revision,
                key: relative,
                value: None,
                kind: WatchEventKind::Delete,
            },
        ),
        entry.mod_revision <= 0 ==> watch::event_of(prefix, true, WatchEventKind::Put, entry)
            == Err::<EventView, CoordinationFault>(
            CoordinationFault::InvalidRevision(entry.mod_revision),
        ),
{
    keys::relative_of_key(prefix, relative);
    encode_utf8_valid_utf8(value);
    encode_utf8_decode_utf8(value);
}

/// Waiting events are handed out in order. Without any a subscription that is
/// cut off says so, and one that is not waits.
pub proof fn events_are_handed_out_in_order(v: SubscriptionView)
    ensures
        v.waiting.len() > 0 ==> v.next().1 == Some(Ok::<EventView, WatchFault>(v.waiting[0]))
            && v.next().0 == (SubscriptionView { waiting: v.waiting.skip(1), ..v }),
        v.waiting.len() == 0 && v.connected ==> v.next() == (
            v,
            None::<Result<EventView, WatchFault>>,
        ),
        v.waiting.len() == 0 && !v.connected ==> v.next() == (
            v,
            Some(Err::<EventView, WatchFault>(WatchFault::Disconnected)),
        ),
{
}

/// A metadata entry is listed under its name with its text.
pub proof fn metadata_pairs_are_read(
    prefix: Seq<char>,
    key: Seq<char>,
    value: Seq<char>,
    entry: store::EntryView,
)
    requires
        entry.key == encode_utf8(keys::metadata_key_at(prefix, key)),
        entry.value == encode_utf8(value),
    ensures
        watch::pair_of(prefix, entry) == Ok::<(Seq<char>, Seq<char>), CoordinationFault>(
            (key, value),
        ),
{
    let segment = keys::segment_of(key);
    let named = "metadata/"@ + segment;
    keys::relative_of_key(prefix, named);
    keys::segment_round_trip(key);
    keys::segment_has_no_slash(key);
    encode_utf8_valid_utf8(value);
    encode_utf8_decode_utf8(value);
    reveal_strlit("metadata/");
    assert("metadata/"@.is_prefix_of(named)) by {
        assert(named.subrange(0, 9) =~= "metadata/"@);
    }
    assert(named.skip(9) =~= segment);
    if "metadata/"@.is_prefix_of(segment) {
        assert(segment.subrange(0, 9)[8] == segment[8]);
        assert(segment[8] == '/');
        assert(segment.contains('/'));
    }
    reveal_with_fuel(watch::unprefixed, 3);
}

} // verus!
