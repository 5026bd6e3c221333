//! Current states in the store: publication, injection, and removal.
use crate::coordination::etcd::error::{CoordinationError, CoordinationFault};
use crate::coordination::etcd::keys::{self, EtcdNamespace};
use crate::coordination::etcd::metadata;
use crate::coordination::etcd::revision::Revision;
use crate::coordination::etcd::session;
use crate::coordination::etcd::store::{self, Condition, KeyValue, Mutation, Transaction};
use crate::model::{InstanceId, PartitionId, ResourceId, SessionId, State};
use crate::ordered::{self, Duplicate, OrderedMap};
use crate::text;
use vstd::prelude::*;
use vstd::string::*;
use vstd::utf8::*;

verus! {

/// Write the states of partitions under a session.
pub open spec fn state_puts(
    prefix: Seq<char>,
    instance: Seq<char>,
    session: u64,
    resource: Seq<char>,
    states: Seq<(Seq<char>, Seq<char>)>,
) -> Seq<store::MutationView> {
    Seq::new(
        states.len(),
        |i: int|
            store::MutationView::Put {
                key: keys::current_state_key_at(prefix, instance, session, resource, states[i].0),
                value: states[i].1,
                lease: None,
            },
    )
}

/// Write the states of partitions under a session and mark new input.
pub open spec fn state_changes(
    prefix: Seq<char>,
    instance: Seq<char>,
    session: u64,
    resource: Seq<char>,
    states: Map<Seq<char>, Seq<char>>,
) -> Seq<store::MutationView> {
    state_puts(
        prefix,
        instance,
        session,
        resource,
        ordered::in_order::<PartitionId, Seq<char>>(states),
    ).push(metadata::marker_put(prefix))
}

fn state_mutations(
    namespace: &EtcdNamespace,
    instance: &InstanceId,
    session_id: SessionId,
    resource: &ResourceId,
    states: &OrderedMap<PartitionId, State>,
) -> (r: Vec<Mutation>)
    ensures
        r.deep_view() == state_changes(
            namespace@.prefix,
            instance@,
            session_id@,
            resource@,
            states@,
        ),
{
    let ghost puts = state_puts(
        namespace@.prefix,
        instance@,
        session_id@,
        resource@,
        states.listing(),
    );
    let mut mutations: Vec<Mutation> = Vec::new();
    let n: usize = states.len();
    let mut i: usize = 0;
    assert(mutations.deep_view() =~= puts.take(0));
    while i < n
        invariant
            i <= n,
            n == states.listing().len(),
            puts == state_puts(
                namespace@.prefix,
                instance@,
                session_id@,
                resource@,
                states.listing(),
            ),
            mutations.deep_view() == puts.take(i as int),
        decreases n - i,
    {
        let ghost before = mutations.deep_view();
        let put = Mutation::Put {
            key: namespace.current_state_key(instance, session_id, resource, states.key_at(i)),
            value: states.value_at(i).to_string(),
            lease: None,
        };
        let ghost model = put@;
        mutations.push(put);
        proof {
            assert(model == puts[i as int]);
            assert(mutations.deep_view() =~= before.push(model));
            assert(puts.take(i + 1) =~= puts.take(i as int).push(puts[i as int]));
        }
        i = i + 1;
    }
    assert(puts.take(n as int) =~= puts);
    mutations.push(metadata::authoritative_input_marker_operation(namespace));
    assert(mutations.deep_view() =~= puts.push(metadata::marker_put(namespace@.prefix)));
    mutations
}

/// The session of the instance is live.
pub open spec fn session_is_live(
    prefix: Seq<char>,
    instance: Seq<char>,
    session: u64,
) -> store::ConditionView {
    store::ConditionView::Value {
        key: keys::live_key_at(prefix, instance),
        value: keys::session_key_text(session),
    }
}

/// The publication of states under a live session.
pub open spec fn state_publication(
    prefix: Seq<char>,
    instance: Seq<char>,
    session: u64,
    resource: Seq<char>,
    states: Map<Seq<char>, Seq<char>>,
) -> store::TransactionView {
    store::TransactionView {
        conditions: seq![session_is_live(prefix, instance, session)],
        mutations: state_changes(prefix, instance, session, resource, states),
    }
}

/// Publish current state under the keys of a session, fenced by the live key.
pub fn publish_current_state(
    namespace: &EtcdNamespace,
    instance: &InstanceId,
    session_id: SessionId,
    resource: &ResourceId,
    states: &OrderedMap<PartitionId, State>,
) -> (r: Transaction)
    ensures
        r@ == state_publication(
            namespace@.prefix,
            instance@,
            session_id@,
            resource@,
            states@,
        ),
{
    let mut conditions: Vec<Condition> = Vec::new();
    conditions.push(
        Condition::Value {
            key: namespace.live_key(instance),
            value: keys::session_text(session_id),
        },
    );
    assert(conditions.deep_view() =~= seq![
        session_is_live(namespace@.prefix, instance@, session_id@),
    ]);
    Transaction {
        conditions,
        mutations: state_mutations(namespace, instance, session_id, resource, states),
    }
}

/// What the publication of current state comes to: a refusal means that the
/// session is no longer live.
pub fn publication_result(instance: &InstanceId, succeeded: bool, header: Option<i64>) -> (r:
    Result<Revision, CoordinationError>)
    ensures
        match r {
            Ok(revision) => succeeded && store::header_revision(header) == Ok::<
                i64,
                CoordinationFault,
            >(revision@),
            Err(error) => error@ == if succeeded {
                store::header_revision(header)->Err_0
            } else {
                CoordinationFault::StaleSession(instance@)
            } && (succeeded ==> store::header_revision(header) is Err),
        },
{
    if !succeeded {
        return Err(CoordinationError::StaleSession(instance.duplicate()));
    }
    store::revision_from_header(header)
}

/// Published state of a session is accepted only while the session is live.
pub proof fn state_publication_is_fenced(
    prefix: Seq<char>,
    instance: Seq<char>,
    session: u64,
    resource: Seq<char>,
    states: Map<Seq<char>, Seq<char>>,
    s: store::StoreView,
)
    requires
        state_publication(prefix, instance, session, resource, states).applies(s),
    ensures
        s.dom().contains(keys::live_key_at(prefix, instance)),
        s[keys::live_key_at(prefix, instance)].value == encode_utf8(
            keys::session_key_text(session),
        ),
{
    let t = state_publication(prefix, instance, session, resource, states);
    assert(t.conditions[0].holds(s));
}

/// Persist a supplied historical session record without granting it
/// authority. The session must have been marked.
pub fn inject_session_current_state(
    namespace: &EtcdNamespace,
    instance: &InstanceId,
    session_id: SessionId,
    resource: &ResourceId,
    states: &OrderedMap<PartitionId, State>,
    marker: Option<&KeyValue>,
) -> (r: Result<Transaction, CoordinationError>)
    ensures
        match r {
            Ok(transaction) => marker is Some && transaction@ == (store::TransactionView {
                conditions: Seq::empty(),
                mutations: state_changes(
                    namespace@.prefix,
                    instance@,
                    session_id@,
                    resource@,
                    states@,
                ),
            }),
            Err(error) => marker is None && error@ == CoordinationFault::UnknownSession(
                session_id@,
            ),
        },
{
    if marker.is_none() {
        return Err(CoordinationError::UnknownSession(session_id));
    }
    let conditions: Vec<Condition> = Vec::new();
    assert(conditions.deep_view() =~= Seq::empty());
    Ok(
        Transaction {
            conditions,
            mutations: state_mutations(namespace, instance, session_id, resource, states),
        },
    )
}

/// Delete the live key of a session.
pub open spec fn revocation_of(
    prefix: Seq<char>,
    instance: Seq<char>,
    session: u64,
) -> store::TransactionView {
    store::TransactionView {
        conditions: seq![session_is_live(prefix, instance, session)],
        mutations: seq![
            store::MutationView::Delete { key: keys::live_key_at(prefix, instance) },
            metadata::marker_put(prefix),
        ],
    }
}

/// Begin to revoke the live session of an instance: the live key must hold
/// this session. The lease of the live key comes back with the transaction.
pub fn revoke_live(
    namespace: &EtcdNamespace,
    instance: &InstanceId,
    session_id: SessionId,
    live: Option<&KeyValue>,
) -> (r: Result<(Transaction, i64), CoordinationError>)
    ensures
        match r {
            Ok((transaction, lease)) => {
                &&& live matches Some(entry) && session::session_of(entry@.value) == Ok::<
                    u64,
                    CoordinationFault,
                >(session_id@) && lease == entry@.lease
                &&& transaction@ == revocation_of(namespace@.prefix, instance@, session_id@)
            },
            Err(error) => match live {
                None => error@ == CoordinationFault::StaleSession(instance@),
                Some(entry) => match session::session_of(entry@.value) {
                    Err(fault) => error@ == fault,
                    Ok(current) => current != session_id@ && error@
                        == CoordinationFault::StaleSession(instance@),
                },
            },
        },
{
    let entry = match live {
        None => {
            return Err(CoordinationError::StaleSession(instance.duplicate()));
        },
        Some(entry) => entry,
    };
    match session::parse_session(&entry.value) {
        Err(error) => {
            return Err(error);
        },
        Ok(current) => {
            if current.sequence() != session_id.sequence() {
                return Err(CoordinationError::StaleSession(instance.duplicate()));
            }
        },
    }
    let key = namespace.live_key(instance);
    let transaction = Transaction::new().require(
        Condition::Value { key: key.clone(), value: keys::session_text(session_id) },
    ).change(Mutation::Delete { key }).change(
        metadata::authoritative_input_marker_operation(namespace),
    );
    proof {
        let wanted = revocation_of(namespace@.prefix, instance@, session_id@);
        assert(transaction@.conditions =~= wanted.conditions);
        assert(transaction@.mutations =~= wanted.mutations);
    }
    Ok((transaction, entry.lease))
}

/// What the revocation of a live session does after its transaction: the lease
/// of the deleted live key, where it had one, is revoked too.
pub fn revocation_outcome(
    instance: &InstanceId,
    lease: i64,
    succeeded: bool,
) -> (r: Result<Option<i64>, CoordinationError>)
    ensures
        match r {
            Ok(revoke) => succeeded && revoke == if lease != 0 {
                Some(lease)
            } else {
                None
            },
            Err(error) => !succeeded && error@ == CoordinationFault::StaleSession(instance@),
        },
{
    if !succeeded {
        return Err(CoordinationError::StaleSession(instance.duplicate()));
    }
    Ok(
        if lease != 0 {
            Some(lease)
        } else {
            None
        },
    )
}

/// The entry is the state of a replica of the resource.
pub open spec fn is_state_of(
    prefix: Seq<char>,
    resource: Seq<char>,
    entry: store::EntryView,
) -> bool {
    match keys::relative_of(prefix, entry.key) {
        Err(_) => false,
        Ok(relative) => {
            let parts = text::parts_of(relative, '/');
            session::is_state_key(parts) && keys::text_of_segment(parts[3]) == Some(resource)
        },
    }
}

/// The keys of the states of a resource.
pub open spec fn state_keys(
    prefix: Seq<char>,
    resource: Seq<char>,
    entries: Seq<store::EntryView>,
) -> Seq<Seq<char>>
    decreases entries.len(),
{
    if entries.len() == 0 {
        Seq::empty()
    } else {
        let before = state_keys(prefix, resource, entries.drop_last());
        if is_state_of(prefix, resource, entries.last()) {
            before.push(decode_utf8(entries.last().key))
        } else {
            before
        }
    }
}

fn state_key_of(namespace: &EtcdNamespace, resource: &ResourceId, entry: &KeyValue) -> (r: Option<
    String,
>)
    ensures
        match r {
            Some(key) => is_state_of(namespace@.prefix, resource@, entry@) && key@ == decode_utf8(
                entry@.key,
            ),
            None => !is_state_of(namespace@.prefix, resource@, entry@),
        },
{
    let relative = match namespace.parse_relative_key(&entry.key) {
        Ok(relative) => relative,
        Err(_) => {
            return None;
        },
    };
    let parts = text::split(relative.as_str(), '/');
    if parts.len() != 5 {
        return None;
    }
    assert(parts.deep_view()[0] == parts@[0]@ && parts.deep_view()[3] == parts@[3]@);
    if !text::text_eq(parts[0].as_str(), "current-state") {
        return None;
    }
    match keys::decode_segment(parts[3].as_str()) {
        Ok(value) => if text::text_eq(value.as_str(), resource.as_str()) {
            keys::utf8_text(keys::copy_bytes(&entry.key))
        } else {
            None
        },
        Err(_) => None,
    }
}

fn resource_state_keys(
    namespace: &EtcdNamespace,
    resource: &ResourceId,
    entries: &Vec<KeyValue>,
) -> (r: Vec<String>)
    ensures
        r.deep_view() == state_keys(namespace@.prefix, resource@, entries.deep_view()),
{
    let ghost all = entries.deep_view();
    let ghost prefix = namespace@.prefix;
    let mut out: Vec<String> = Vec::new();
    let mut i: usize = 0;
    assert(all.take(0) =~= Seq::empty());
    assert(out.deep_view() =~= Seq::empty());
    while i < entries.len()
        invariant
            i <= entries@.len(),
            all == entries.deep_view(),
            prefix == namespace@.prefix,
            out.deep_view() == state_keys(prefix, resource@, all.take(i as int)),
        decreases entries@.len() - i,
    {
        let ghost before = out.deep_view();
        proof {
            assert(all.take(i + 1).drop_last() =~= all.take(i as int));
            assert(all.take(i + 1).last() == entries@[i as int]@);
        }
        if let Some(key) = state_key_of(namespace, resource, &entries[i]) {
            let ghost model = key@;
            out.push(key);
            assert(out.deep_view() =~= before.push(model));
        }
        i = i + 1;
    }
    assert(all.take(entries@.len() as int) =~= all);
    out
}

/// Delete keys and mark new input.
pub open spec fn deletion_of(prefix: Seq<char>, keys: Seq<Seq<char>>) -> store::TransactionView {
    store::TransactionView {
        conditions: Seq::empty(),
        mutations: Seq::new(
            keys.len(),
            |i: int| store::MutationView::Delete { key: keys[i] },
        ).push(metadata::marker_put(prefix)),
    }
}

/// The smaller of two positions.
pub open spec fn at_most(a: int, b: int) -> int {
    if a < b {
        a
    } else {
        b
    }
}

/// The `i`th batch of keys.
pub open spec fn batch(keys: Seq<Seq<char>>, i: int) -> Seq<Seq<char>> {
    keys.subrange(
        i * CURRENT_STATE_DELETE_BATCH,
        at_most((i + 1) * CURRENT_STATE_DELETE_BATCH, keys.len() as int),
    )
}

/// How many current-state keys one transaction deletes.
pub const CURRENT_STATE_DELETE_BATCH: usize = 100;

fn deletion(namespace: &EtcdNamespace, keys: &Vec<String>, from: usize, to: usize) -> (r:
    Transaction)
    requires
        from <= to <= keys@.len(),
    ensures
        r@ == deletion_of(
            namespace@.prefix,
            keys.deep_view().subrange(from as int, to as int),
        ),
{
    let ghost chosen = keys.deep_view().subrange(from as int, to as int);
    let ghost wanted = deletion_of(namespace@.prefix, chosen);
    let mut mutations: Vec<Mutation> = Vec::new();
    let mut i: usize = from;
    assert(mutations.deep_view() =~= wanted.mutations.take(0));
    while i < to
        invariant
            from <= i <= to <= keys@.len(),
            chosen == keys.deep_view().subrange(from as int, to as int),
            wanted == deletion_of(namespace@.prefix, chosen),
            mutations.deep_view() == wanted.mutations.take(i - from),
        decreases to - i,
    {
        let ghost before = mutations.deep_view();
        let delete = Mutation::Delete { key: keys[i].clone() };
        let ghost model = delete@;
        mutations.push(delete);
        proof {
            assert(chosen[i - from] == keys@[i as int]@);
            assert(model == wanted.mutations[i - from]);
            assert(mutations.deep_view() =~= before.push(model));
            assert(wanted.mutations.take(i + 1 - from) =~= before.push(model));
        }
        i = i + 1;
    }
    let ghost before = mutations.deep_view();
    mutations.push(metadata::authoritative_input_marker_operation(namespace));
    proof {
        assert(mutations.deep_view() =~= before.push(metadata::marker_put(namespace@.prefix)));
        assert(before =~= wanted.mutations.drop_last());
        assert(mutations.deep_view() =~= wanted.mutations);
    }
    let conditions: Vec<Condition> = Vec::new();
    assert(conditions.deep_view() =~= Seq::empty());
    Transaction { conditions, mutations }
}

/// Remove session-owned current-state entries of a deleted resource, in
/// batches. Entries with keys of another form stay.
pub fn remove_current_states_for_resource(
    namespace: &EtcdNamespace,
    resource: &ResourceId,
    entries: &Vec<KeyValue>,
) -> (r: Vec<Transaction>)
    ensures
        ({
            let keys = state_keys(namespace@.prefix, resource@, entries.deep_view());
            &&& r@.len() == (keys.len() + 99) / 100
            &&& forall|i: int|
                0 <= i < r@.len() ==> (#[trigger] r@[i])@ == deletion_of(
                    namespace@.prefix,
                    batch(keys, i),
                )
        }),
{
    let keys = resource_state_keys(namespace, resource, entries);
    let ghost all = keys.deep_view();
    let mut out: Vec<Transaction> = Vec::new();
    let mut from: usize = 0;
    while from < keys.len()
        invariant
            from <= keys@.len(),
            all == keys.deep_view(),
            from == at_most((out@.len() * 100) as int, all.len() as int),
            out@.len() == (from + 99) / 100,
            forall|i: int|
                0 <= i < out@.len() ==> (#[trigger] out@[i])@ == deletion_of(
                    namespace@.prefix,
                    batch(all, i),
                ),
        decreases keys@.len() - from,
    {
        let to: usize = if keys.len() - from > CURRENT_STATE_DELETE_BATCH {
            from + CURRENT_STATE_DELETE_BATCH
        } else {
            keys.len()
        };
        out.push(deletion(namespace, &keys, from, to));
        from = to;
    }
    out
}

/// The revision at which a removal is complete: that of its last transaction,
/// or of the snapshot where there was nothing to remove.
pub fn removal_revision(last: Option<Revision>, snapshot_revision: Revision) -> (r: Revision)
    ensures
        r@ == match last {
            Some(revision) => revision@,
            None => snapshot_revision@,
        },
{
    match last {
        Some(revision) => revision,
        None => snapshot_revision,
    }
}

} // verus!
