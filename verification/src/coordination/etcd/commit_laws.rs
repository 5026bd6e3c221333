//! What committed transactions leave in the store: what is written is read
//! back, and what was overtaken is refused.
use crate::coordination::etcd::error::CoordinationFault;
use crate::coordination::etcd::keys;
use crate::coordination::etcd::metadata;
use crate::coordination::etcd::publication;
use crate::coordination::etcd::queue;
use crate::coordination::etcd::registration;
use crate::coordination::etcd::session;
use crate::coordination::etcd::states;
use crate::coordination::etcd::store;
use crate::election::campaign;
use crate::model::PartitionId;
use crate::ordered;
use crate::text;
use crate::transition::MessageView;
use vstd::prelude::*;
use vstd::utf8::*;

verus! {

/// No change is about the key.
pub open spec fn spares(mutations: Seq<store::MutationView>, key: Seq<char>) -> bool {
    forall|i: int| 0 <= i < mutations.len() ==> (#[trigger] mutations[i]).key() != key
}

/// Keys that a transaction does not touch stay as they are.
pub proof fn untouched_keys_stay(
    mutations: Seq<store::MutationView>,
    s: store::StoreView,
    revision: int,
    form: store::QueueForm,
    key: Seq<char>,
)
    requires
        spares(mutations, key),
    ensures
        store::entry_at(store::all_made(mutations, s, revision, form), key) == store::entry_at(
            s,
            key,
        ),
        store::all_made(mutations, s, revision, form).dom().contains(key) == s.dom().contains(key),
        s.dom().contains(key) ==> store::all_made(mutations, s, revision, form)[key] == s[key],
    decreases mutations.len(),
{
    if mutations.len() > 0 {
        untouched_keys_stay(mutations.drop_last(), s, revision, form, key);
        assert(mutations.last() == mutations[mutations.len() - 1]);
    }
}

/// A key holds what the last change that is about it wrote there.
proof fn last_change_stands(
    mutations: Seq<store::MutationView>,
    s: store::StoreView,
    revision: int,
    form: store::QueueForm,
    i: int,
)
    requires
        0 <= i < mutations.len(),
        forall|j: int|
            i < j < mutations.len() ==> (#[trigger] mutations[j]).key() != mutations[i].key(),
    ensures
        ({
            let key = mutations[i].key();
            let before = store::all_made(mutations.take(i), s, revision, form);
            let after = store::all_made(mutations, s, revision, form);
            let there = mutations[i].made(before, revision, form);
            &&& after.dom().contains(key) == there.dom().contains(key)
            &&& there.dom().contains(key) ==> after[key] == there[key]
        }),
    decreases mutations.len(),
{
    let n = mutations.len() - 1;
    assert(mutations.last() == mutations[n]);
    if i < n {
        let rest = mutations.drop_last();
        assert(rest[i] == mutations[i]);
        assert forall|j: int| i < j < rest.len() implies (#[trigger] rest[j]).key()
            != rest[i].key() by {
            assert(rest[j] == mutations[j]);
        }
        last_change_stands(rest, s, revision, form, i);
        assert(rest.take(i) =~= mutations.take(i));
        assert(mutations[n].key() != mutations[i].key());
    } else {
        assert(mutations.take(i) =~= mutations.drop_last());
    }
}

/// What a put leaves at its key, where no later change is about it.
proof fn put_stands(
    mutations: Seq<store::MutationView>,
    s: store::StoreView,
    revision: int,
    form: store::QueueForm,
    i: int,
    key: Seq<char>,
    value: Seq<char>,
    lease: Option<i64>,
)
    requires
        0 <= i < mutations.len(),
        mutations[i] == (store::MutationView::Put { key, value, lease }),
        forall|j: int| i < j < mutations.len() ==> (#[trigger] mutations[j]).key() != key,
    ensures
        ({
            let after = store::all_made(mutations, s, revision, form);
            &&& after.dom().contains(key)
            &&& after[key].value == encode_utf8(value)
            &&& after[key].mod_revision == revision
            &&& after[key].lease == match lease {
                Some(lease) => lease as int,
                None => 0,
            }
        }),
{
    last_change_stands(mutations, s, revision, form, i);
}

/// Below one prefix different suffixes make different keys.
pub proof fn keys_differ(prefix: Seq<char>, a: Seq<char>, b: Seq<char>)
    requires
        keys::key_at(prefix, a) == keys::key_at(prefix, b),
    ensures
        a == b,
{
    let p = prefix + "/"@;
    assert(keys::key_at(prefix, a).skip(p.len() as int) =~= a);
    assert(keys::key_at(prefix, b).skip(p.len() as int) =~= b);
}

/// Different metadata has different keys.
pub proof fn metadata_keys_differ(prefix: Seq<char>, a: Seq<char>, b: Seq<char>)
    requires
        keys::metadata_key_at(prefix, a) == keys::metadata_key_at(prefix, b),
    ensures
        a == b,
{
    let p = "metadata/"@;
    keys_differ(prefix, p + keys::segment_of(a), p + keys::segment_of(b));
    assert((p + keys::segment_of(a)).skip(p.len() as int) =~= keys::segment_of(a));
    assert((p + keys::segment_of(b)).skip(p.len() as int) =~= keys::segment_of(b));
    keys::segments_are_distinct(a, b);
}

/// Different texts are stored as different bytes.
proof fn texts_differ(a: Seq<char>, b: Seq<char>)
    requires
        encode_utf8(a) == encode_utf8(b),
    ensures
        a == b,
{
    encode_utf8_decode_utf8(a);
    encode_utf8_decode_utf8(b);
}

/// Metadata, live sessions, session marks and current states have keys of
/// their own.
proof fn kinds_of_keys_differ(prefix: Seq<char>, a: Seq<char>, b: Seq<char>)
    ensures
        keys::key_at(prefix, "live/"@ + a) != keys::key_at(prefix, "metadata/"@ + b),
        keys::key_at(prefix, "live/"@ + a) != keys::key_at(prefix, "sessions/"@ + b),
        keys::key_at(prefix, "live/"@ + a) != keys::key_at(prefix, "current-state/"@ + b),
        keys::key_at(prefix, "current-state/"@ + a) != keys::key_at(prefix, "metadata/"@ + b),
        keys::key_at(prefix, "current-state/"@ + a) != keys::key_at(prefix, "sessions/"@ + b),
{
    reveal_strlit("live/");
    reveal_strlit("metadata/");
    reveal_strlit("sessions/");
    reveal_strlit("current-state/");
    let live = "live/"@ + a;
    let state = "current-state/"@ + a;
    assert(live[0] == 'l' && state[0] == 'c');
    assert(("metadata/"@ + b)[0] == 'm');
    assert(("sessions/"@ + b)[0] == 's');
    assert(("current-state/"@ + b)[0] == 'c');
    if keys::key_at(prefix, live) == keys::key_at(prefix, "metadata/"@ + b) {
        keys_differ(prefix, live, "metadata/"@ + b);
    }
    if keys::key_at(prefix, live) == keys::key_at(prefix, "sessions/"@ + b) {
        keys_differ(prefix, live, "sessions/"@ + b);
    }
    if keys::key_at(prefix, live) == keys::key_at(prefix, "current-state/"@ + b) {
        keys_differ(prefix, live, "current-state/"@ + b);
    }
    if keys::key_at(prefix, state) == keys::key_at(prefix, "metadata/"@ + b) {
        keys_differ(prefix, state, "metadata/"@ + b);
    }
    if keys::key_at(prefix, state) == keys::key_at(prefix, "sessions/"@ + b) {
        keys_differ(prefix, state, "sessions/"@ + b);
    }
}

/// The suffix of a state key below the name of its kind.
pub open spec fn state_suffix(
    instance: Seq<char>,
    session: u64,
    resource: Seq<char>,
    partition: Seq<char>,
) -> Seq<char> {
    keys::segment_of(instance) + "/"@ + keys::session_key_text(session) + "/"@ + keys::segment_of(
        resource,
    ) + "/"@ + keys::segment_of(partition)
}

proof fn state_key_by_kind(
    prefix: Seq<char>,
    instance: Seq<char>,
    session: u64,
    resource: Seq<char>,
    partition: Seq<char>,
)
    ensures
        keys::current_state_key_at(prefix, instance, session, resource, partition)
            == keys::key_at(
            prefix,
            "current-state/"@ + state_suffix(instance, session, resource, partition),
        ),
{
    assert(keys::current_state_key_at(prefix, instance, session, resource, partition)
        =~= keys::key_at(
        prefix,
        "current-state/"@ + state_suffix(instance, session, resource, partition),
    ));
}

/// Metadata that was written is read back, as of the revision of the write.
/// Nothing else changes but the mark of new input.
pub proof fn metadata_is_read_back(
    prefix: Seq<char>,
    key: Seq<char>,
    value: Seq<char>,
    lease: Option<i64>,
    s: store::StoreView,
    revision: i64,
    form: store::QueueForm,
)
    requires
        revision > 0,
    ensures
        ({
            let t = metadata::marked(
                store::no_changes().changing(metadata::metadata_put(prefix, key, value, lease)),
                prefix,
                key,
            );
            let after = t.committed(s, revision as int, form);
            let own = keys::metadata_key_at(prefix, key);
            &&& store::entry_at(after, own) matches Some(entry) && metadata::metadata_of(entry)
                == Ok::<metadata::MetadataView, CoordinationFault>(
                metadata::MetadataView { value: Some(value), revision },
            )
            &&& forall|other: Seq<char>|
                other != own && other != publication::marker_key(prefix)
                    ==> #[trigger] store::entry_at(after, other) == store::entry_at(s, other)
        }),
{
    let own = keys::metadata_key_at(prefix, key);
    let put = metadata::metadata_put(prefix, key, value, lease);
    let t = metadata::marked(store::no_changes().changing(put), prefix, key);
    let after = t.committed(s, revision as int, form);
    if metadata::authoritative_metadata(key) && own == publication::marker_key(prefix) {
        metadata_keys_differ(prefix, key, metadata::marker_name());
    }
    assert(t.mutations[0] == put);
    put_stands(t.mutations, s, revision as int, form, 0, own, value, lease);
    encode_utf8_valid_utf8(value);
    encode_utf8_decode_utf8(value);
    assert forall|other: Seq<char>|
        other != own && other != publication::marker_key(prefix) implies #[trigger] store::entry_at(
        after,
        other,
    ) == store::entry_at(s, other) by {
        untouched_keys_stay(t.mutations, s, revision as int, form, other);
    }
}

/// The last change of the transaction marks new input.
pub open spec fn marks_input(t: store::TransactionView, prefix: Seq<char>) -> bool {
    t.mutations.len() > 0 && t.mutations.last() == metadata::marker_put(prefix)
}

/// Every transaction that writes authoritative metadata marks new input.
pub proof fn authoritative_metadata_is_marked(
    t: store::TransactionView,
    prefix: Seq<char>,
    key: Seq<char>,
)
    requires
        metadata::authoritative_metadata(key),
    ensures
        marks_input(metadata::marked(t, prefix, key), prefix),
{
}

/// Published states, registrations and completions mark new input.
pub proof fn participants_mark_input(
    prefix: Seq<char>,
    instance: Seq<char>,
    session: u64,
    resource: Seq<char>,
    states: Map<Seq<char>, Seq<char>>,
    lease: i64,
    carried: Seq<registration::CarriedView>,
    completion: queue::CompletionView,
    messages: Seq<MessageView>,
)
    ensures
        marks_input(states::state_publication(prefix, instance, session, resource, states), prefix),
        marks_input(
            registration::registration_of(prefix, instance, session, lease, carried),
            prefix,
        ),
        marks_input(completion.transaction(messages), completion.prefix),
{
}

/// Outputs that were planned with older input are refused once newer input was
/// committed.
pub proof fn newer_input_refuses_outputs(
    t: store::TransactionView,
    s: store::StoreView,
    revision: int,
    form: store::QueueForm,
    v: publication::PublicationView,
    entry: Option<store::EntryView>,
)
    requires
        marks_input(t, v.prefix),
        v.fence.observed < revision,
    ensures
        !v.transaction(entry).applies(t.committed(s, revision, form)),
{
    let after = t.committed(s, revision, form);
    let n = t.mutations.len() - 1;
    assert(t.mutations[n] == t.mutations.last());
    put_stands(
        t.mutations,
        s,
        revision,
        form,
        n,
        publication::marker_key(v.prefix),
        "1"@,
        None,
    );
    assert(!v.transaction(entry).conditions[4].holds(after));
}

/// Published outputs are read back: the external view and the queue as they
/// were written, and the input revision that they stand for.
pub proof fn outputs_are_read_back(
    v: publication::PublicationView,
    entry: Option<store::EntryView>,
    s: store::StoreView,
    revision: i64,
    form: store::QueueForm,
)
    requires
        v.fence.observed > 0,
        revision > 0,
    ensures
        ({
            let after = v.transaction(entry).committed(s, revision as int, form);
            let view = store::entry_at(after, publication::external_view_key(v.prefix));
            let pending = store::entry_at(after, publication::pending_key(v.prefix));
            let processed = store::entry_at(after, publication::processed_key(v.prefix));
            &&& view matches Some(view) && metadata::metadata_of(view) == Ok::<
                metadata::MetadataView,
                CoordinationFault,
            >(metadata::MetadataView { value: Some(v.external_view), revision })
            &&& pending matches Some(pending) && metadata::metadata_of(pending) == Ok::<
                metadata::MetadataView,
                CoordinationFault,
            >(metadata::MetadataView { value: Some(v.pending), revision })
            &&& publication::published_revision(processed) == Ok::<Option<i64>, CoordinationFault>(
                Some(v.fence.observed),
            )
        }),
{
    let t = v.transaction(entry);
    let m = t.mutations;
    let view = publication::external_view_key(v.prefix);
    let pending = publication::pending_key(v.prefix);
    let processed = publication::processed_key(v.prefix);
    let number = text::signed_decimal(v.fence.observed as int);
    output_keys_differ(v.prefix);
    assert(m.len() == 3);
    put_stands(m, s, revision as int, form, 0, view, v.external_view, None);
    put_stands(m, s, revision as int, form, 1, pending, v.pending, None);
    put_stands(m, s, revision as int, form, 2, processed, number, None);
    encode_utf8_valid_utf8(v.external_view);
    encode_utf8_decode_utf8(v.external_view);
    encode_utf8_valid_utf8(v.pending);
    encode_utf8_decode_utf8(v.pending);
    encode_utf8_valid_utf8(number);
    encode_utf8_decode_utf8(number);
    text::decimal_round_trip(v.fence.observed as nat);
}

proof fn output_keys_differ(prefix: Seq<char>)
    ensures
        publication::external_view_key(prefix) != publication::pending_key(prefix),
        publication::external_view_key(prefix) != publication::processed_key(prefix),
        publication::pending_key(prefix) != publication::processed_key(prefix),
        publication::pending_key(prefix) != publication::marker_key(prefix),
{
    let view = "controller/output/external-view"@;
    let pending = "controller/output/pending-transitions"@;
    let processed = "controller/output/processed-revision"@;
    reveal_strlit("controller/output/external-view");
    reveal_strlit("controller/output/pending-transitions");
    reveal_strlit("controller/output/processed-revision");
    reveal_strlit("internal/authoritative-input");
    assert(view.len() != pending.len());
    assert(view.len() != processed.len());
    assert(pending.len() != processed.len());
    assert(metadata::marker_name()[0] != pending[0]);
    if publication::external_view_key(prefix) == publication::pending_key(prefix) {
        metadata_keys_differ(prefix, view, pending);
    }
    if publication::external_view_key(prefix) == publication::processed_key(prefix) {
        metadata_keys_differ(prefix, view, processed);
    }
    if publication::pending_key(prefix) == publication::processed_key(prefix) {
        metadata_keys_differ(prefix, pending, processed);
    }
    if publication::pending_key(prefix) == publication::marker_key(prefix) {
        metadata_keys_differ(prefix, pending, metadata::marker_name());
    }
}

/// Different partitions of a resource have different state keys.
proof fn state_keys_differ(
    prefix: Seq<char>,
    instance: Seq<char>,
    session: u64,
    resource: Seq<char>,
    a: Seq<char>,
    b: Seq<char>,
)
    requires
        keys::current_state_key_at(prefix, instance, session, resource, a)
            == keys::current_state_key_at(prefix, instance, session, resource, b),
    ensures
        a == b,
{
    let p = keys::current_state_prefix_at(prefix, instance, session) + keys::segment_of(resource)
        + "/"@;
    assert((p + keys::segment_of(a)).skip(p.len() as int) =~= keys::segment_of(a));
    assert((p + keys::segment_of(b)).skip(p.len() as int) =~= keys::segment_of(b));
    keys::segments_are_distinct(a, b);
}

/// Every state that a session publishes is read back as it was written.
pub proof fn published_states_are_read_back(
    prefix: Seq<char>,
    instance: Seq<char>,
    session: u64,
    resource: Seq<char>,
    states: Map<Seq<char>, Seq<char>>,
    partition: Seq<char>,
    s: store::StoreView,
    revision: i64,
    form: store::QueueForm,
)
    requires
        states.dom().finite(),
        states.dom().contains(partition),
        states[partition].len() > 0,
    ensures
        ({
            let after = states::state_publication(prefix, instance, session, resource, states).committed(
                s,
                revision as int,
                form,
            );
            let key = keys::current_state_key_at(prefix, instance, session, resource, partition);
            store::entry_at(after, key) matches Some(entry) && session::state_of_value(entry.value)
                == Ok::<Seq<char>, CoordinationFault>(states[partition])
        }),
{
    let listing = ordered::in_order::<PartitionId, Seq<char>>(states);
    let m = states::state_changes(prefix, instance, session, resource, states);
    let key = keys::current_state_key_at(prefix, instance, session, resource, partition);
    let state = states[partition];
    ordered::finite_map_is_listed::<PartitionId, Seq<char>>(states);
    let i = ordered::map_of_position(listing, partition);
    ordered::map_of_at::<PartitionId, Seq<char>>(listing, i);
    assert(m[i] == (store::MutationView::Put { key, value: state, lease: None }));
    assert forall|j: int| i < j < m.len() implies (#[trigger] m[j]).key() != key by {
        if j < listing.len() {
            if m[j].key() == key {
                state_keys_differ(prefix, instance, session, resource, listing[j].0, partition);
                ordered::keys_differ::<PartitionId, Seq<char>>(listing, i, j);
            }
        } else {
            assert(m[j] == metadata::marker_put(prefix));
            state_key_by_kind(prefix, instance, session, resource, partition);
            kinds_of_keys_differ(
                prefix,
                state_suffix(instance, session, resource, partition),
                keys::segment_of(metadata::marker_name()),
            );
        }
    }
    put_stands(m, s, revision as int, form, i, key, state, None);
    encode_utf8_valid_utf8(state);
    encode_utf8_decode_utf8(state);
}

/// The replicas that a session takes over are stored under its own state keys.
pub proof fn carried_replicas_have_state_keys(
    prefix: Seq<char>,
    instance: Seq<char>,
    session: u64,
    options: registration::RegistrationView,
    entries: Seq<store::EntryView>,
    i: int,
)
    requires
        registration::all_carried(prefix, instance, session, options, entries) is Ok,
        0 <= i < registration::all_carried(prefix, instance, session, options, entries)->Ok_0.len(),
    ensures
        exists|resource: Seq<char>, partition: Seq<char>|
            registration::all_carried(prefix, instance, session, options, entries)->Ok_0[i].key
                == #[trigger] keys::current_state_key_at(
                prefix,
                instance,
                session,
                resource,
                partition,
            ),
    decreases entries.len(),
{
    let before = registration::all_carried(
        prefix,
        instance,
        session,
        options,
        entries.drop_last(),
    );
    if i < before->Ok_0.len() {
        carried_replicas_have_state_keys(
            prefix,
            instance,
            session,
            options,
            entries.drop_last(),
            i,
        );
    }
}

/// A registration as a participant commits it: with the replicas of the
/// entries that it was given.
pub open spec fn registration_with(
    prefix: Seq<char>,
    instance: Seq<char>,
    session: u64,
    lease: i64,
    options: registration::RegistrationView,
    entries: Seq<store::EntryView>,
) -> store::TransactionView {
    registration::registration_of(
        prefix,
        instance,
        session,
        lease,
        registration::all_carried(prefix, instance, session, options, entries)->Ok_0,
    )
}

proof fn registration_stands(
    prefix: Seq<char>,
    instance: Seq<char>,
    session: u64,
    lease: i64,
    options: registration::RegistrationView,
    entries: Seq<store::EntryView>,
    s: store::StoreView,
    revision: int,
    form: store::QueueForm,
)
    requires
        registration::all_carried(prefix, instance, session, options, entries) is Ok,
    ensures
        ({
            let t = registration_with(prefix, instance, session, lease, options, entries);
            let after = t.committed(s, revision, form);
            let live = keys::live_key_at(prefix, instance);
            &&& after.dom().contains(live)
            &&& after[live].value == encode_utf8(keys::session_key_text(session))
            &&& after[live].lease == lease
        }),
{
    let carried = registration::all_carried(
        prefix,
        instance,
        session,
        options,
        entries,
    )->Ok_0;
    let m = registration_with(prefix, instance, session, lease, options, entries).mutations;
    let live = keys::live_key_at(prefix, instance);
    let segment = keys::segment_of(instance);
    assert(m[0] == (store::MutationView::Put {
        key: live,
        value: keys::session_key_text(session),
        lease: Some(lease),
    }));
    assert forall|j: int| 0 < j < m.len() implies (#[trigger] m[j]).key() != live by {
        if j == 1 {
            let rest = segment + "/"@ + keys::session_key_text(session);
            assert(m[j].key() =~= keys::key_at(prefix, "sessions/"@ + rest));
            kinds_of_keys_differ(prefix, segment, rest);
        } else if j < 2 + carried.len() {
            carried_replicas_have_state_keys(
                prefix,
                instance,
                session,
                options,
                entries,
                j - 2,
            );
            let (resource, partition) = choose|resource: Seq<char>, partition: Seq<char>|
                carried[j - 2].key == #[trigger] keys::current_state_key_at(
                    prefix,
                    instance,
                    session,
                    resource,
                    partition,
                );
            assert(m[j] == registration::carried_puts(carried)[j - 2]);
            state_key_by_kind(prefix, instance, session, resource, partition);
            kinds_of_keys_differ(
                prefix,
                segment,
                state_suffix(instance, session, resource, partition),
            );
        } else {
            assert(m[j] == metadata::marker_put(prefix));
            kinds_of_keys_differ(prefix, segment, keys::segment_of(metadata::marker_name()));
        }
    }
    put_stands(m, s, revision, form, 0, live, keys::session_key_text(session), Some(lease));
}

/// A registered session is the live one, under its lease, and no other can be
/// registered while it is.
pub proof fn registered_sessions_are_live(
    prefix: Seq<char>,
    instance: Seq<char>,
    session: u64,
    lease: i64,
    options: registration::RegistrationView,
    entries: Seq<store::EntryView>,
    other: u64,
    other_lease: i64,
    carried: Seq<registration::CarriedView>,
    s: store::StoreView,
    revision: i64,
    form: store::QueueForm,
)
    requires
        session > 0,
        registration::all_carried(prefix, instance, session, options, entries) is Ok,
        forall|key: Seq<char>| #[trigger] s.dom().contains(key) ==> s[key].version > 0,
    ensures
        ({
            let t = registration_with(prefix, instance, session, lease, options, entries);
            let after = t.committed(s, revision as int, form);
            let live = store::entry_at(after, keys::live_key_at(prefix, instance));
            &&& session::live_of_entry(live) == Ok::<Option<u64>, CoordinationFault>(Some(session))
            &&& live matches Some(entry) && entry.lease == lease
            &&& !registration::registration_of(
                prefix,
                instance,
                other,
                other_lease,
                carried,
            ).applies(after)
        }),
{
    let t = registration_with(prefix, instance, session, lease, options, entries);
    let after = t.committed(s, revision as int, form);
    registration_stands(
        prefix,
        instance,
        session,
        lease,
        options,
        entries,
        s,
        revision as int,
        form,
    );
    session::session_round_trip(session);
    versions_stay_positive(t.mutations, s, revision as int, form);
    let again = registration::registration_of(prefix, instance, other, other_lease, carried);
    assert(!again.conditions[0].holds(after));
}

/// Every key that exists has been written at least once.
proof fn versions_stay_positive(
    mutations: Seq<store::MutationView>,
    s: store::StoreView,
    revision: int,
    form: store::QueueForm,
)
    requires
        forall|key: Seq<char>| #[trigger] s.dom().contains(key) ==> s[key].version > 0,
    ensures
        forall|key: Seq<char>| #[trigger]
            store::all_made(mutations, s, revision, form).dom().contains(key) ==> store::all_made(
                mutations,
                s,
                revision,
                form,
            )[key].version > 0,
    decreases mutations.len(),
{
    if mutations.len() > 0 {
        versions_stay_positive(mutations.drop_last(), s, revision, form);
        let before = store::all_made(mutations.drop_last(), s, revision, form);
        let after = store::all_made(mutations, s, revision, form);
        let own = mutations.last().key();
        assert(before.dom().contains(own) ==> before[own].version > 0);
        assert forall|key: Seq<char>| #[trigger] after.dom().contains(key) implies after[key].version
            > 0 by {
            if key != own {
                assert(before.dom().contains(key));
            }
        }
    }
}

/// Once a session was registered, an earlier one of the instance is refused
/// everything: it publishes no state, claims no message, and completes none.
pub proof fn replaced_sessions_are_refused(
    prefix: Seq<char>,
    instance: Seq<char>,
    session: u64,
    lease: i64,
    options: registration::RegistrationView,
    entries: Seq<store::EntryView>,
    earlier: u64,
    resource: Seq<char>,
    states: Map<Seq<char>, Seq<char>>,
    claim: queue::ClaimView,
    entry: queue::QueueView,
    completion: queue::CompletionView,
    messages: Seq<MessageView>,
    s: store::StoreView,
    revision: int,
    form: store::QueueForm,
)
    requires
        registration::all_carried(prefix, instance, session, options, entries) is Ok,
        earlier != session,
        claim.prefix == prefix && claim.instance == instance && claim.session == earlier,
        completion.prefix == prefix && completion.fence.instance == instance
            && completion.fence.session == earlier,
    ensures
        ({
            let t = registration_with(prefix, instance, session, lease, options, entries);
            let after = t.committed(s, revision, form);
            &&& !states::state_publication(prefix, instance, earlier, resource, states).applies(after)
            &&& !claim.transaction(entry).applies(after)
            &&& !completion.transaction(messages).applies(after)
        }),
{
    let t = registration_with(prefix, instance, session, lease, options, entries);
    let after = t.committed(s, revision, form);
    registration_stands(prefix, instance, session, lease, options, entries, s, revision, form);
    let mine = keys::session_key_text(earlier);
    if encode_utf8(mine) == encode_utf8(keys::session_key_text(session)) {
        texts_differ(mine, keys::session_key_text(session));
        text::decimal_injective(earlier as nat, session as nat);
    }
    assert(!states::state_publication(
        prefix,
        instance,
        earlier,
        resource,
        states,
    ).conditions[0].holds(after));
    assert(!claim.transaction(entry).conditions[0].holds(after));
    assert(!completion.transaction(messages).conditions[0].holds(after));
}

/// A completed transition is read back as the state that it came to, or as no
/// state where the replica was dropped. The queue holds the other messages, and
/// the same completion cannot be committed again.
pub proof fn completions_are_read_back(
    v: queue::CompletionView,
    messages: Seq<MessageView>,
    again: Seq<MessageView>,
    s: store::StoreView,
    revision: i64,
    form: store::QueueForm,
)
    requires
        v.fence.revision@ < revision,
        v.result matches Some(state) ==> state.len() > 0,
    ensures
        ({
            let after = v.transaction(messages).committed(s, revision as int, form);
            let state = store::entry_at(after, v.state_key());
            let queue = publication::pending_key(v.prefix);
            &&& match v.result {
                Some(result) => state matches Some(entry) && session::state_of_value(entry.value)
                    == Ok::<Seq<char>, CoordinationFault>(result),
                None => state is None,
            }
            &&& after.dom().contains(queue)
            &&& after[queue].value == form(
                messages.remove(queue::position_of(messages, v.fence.message) as int),
            )
            &&& !v.transaction(again).applies(after)
        }),
{
    let m = v.transaction(messages).mutations;
    let after = v.transaction(messages).committed(s, revision as int, form);
    let state = v.state_key();
    let queue = publication::pending_key(v.prefix);
    let suffix = state_suffix(
        v.fence.instance,
        v.fence.session,
        v.message.resource,
        v.message.partition,
    );
    state_key_by_kind(
        v.prefix,
        v.fence.instance,
        v.fence.session,
        v.message.resource,
        v.message.partition,
    );
    kinds_of_keys_differ(
        v.prefix,
        suffix,
        keys::segment_of("controller/output/pending-transitions"@),
    );
    kinds_of_keys_differ(v.prefix, suffix, keys::segment_of(metadata::marker_name()));
    output_keys_differ(v.prefix);
    assert(m.len() == 3);
    assert(m[0].key() == state);
    assert(m[1].key() == queue);
    assert(m[2].key() == publication::marker_key(v.prefix));
    last_change_stands(m, s, revision as int, form, 0);
    last_change_stands(m, s, revision as int, form, 1);
    if let Some(result) = v.result {
        encode_utf8_valid_utf8(result);
        encode_utf8_decode_utf8(result);
    }
    assert(!v.transaction(again).conditions[1].holds(after));
}

/// Once a controller's claim was committed it is the active one under its
/// lease. No other claim is accepted, and no output of another controller, or
/// of another lease.
pub proof fn claimed_leadership_is_exclusive(
    v: campaign::CampaignView,
    lease: i64,
    created: i64,
    other: campaign::CampaignView,
    other_lease: i64,
    other_created: i64,
    outputs: publication::PublicationView,
    entry: Option<store::EntryView>,
    s: store::StoreView,
    revision: int,
    form: store::QueueForm,
)
    requires
        other.prefix == v.prefix,
        outputs.prefix == v.prefix,
        outputs.fence.controller != v.controller || outputs.fence.lease != lease,
        forall|key: Seq<char>| #[trigger] s.dom().contains(key) ==> s[key].version > 0,
    ensures
        ({
            let after = v.claim(lease, created).committed(s, revision, form);
            let active = publication::active_key(v.prefix);
            &&& publication::authority_holds(v.controller, lease, store::entry_at(after, active))
            &&& !other.claim(other_lease, other_created).applies(after)
            &&& !outputs.transaction(entry).applies(after)
        }),
{
    let t = v.claim(lease, created);
    let after = t.committed(s, revision, form);
    let active = publication::active_key(v.prefix);
    assert(t.mutations[0] == (store::MutationView::Put {
        key: active,
        value: v.controller,
        lease: Some(lease),
    }));
    put_stands(t.mutations, s, revision, form, 0, active, v.controller, Some(lease));
    versions_stay_positive(t.mutations, s, revision, form);
    assert(!other.claim(other_lease, other_created).conditions[0].holds(after));
    if outputs.fence.controller != v.controller {
        if encode_utf8(outputs.fence.controller) == encode_utf8(v.controller) {
            texts_differ(outputs.fence.controller, v.controller);
        }
        assert(!outputs.transaction(entry).conditions[0].holds(after));
    } else {
        assert(!outputs.transaction(entry).conditions[1].holds(after));
    }
}

} // verus!
