//! What holds of the queue of pending transitions from one answer to the next.
use crate::coordination::etcd::error::CoordinationFault;
use crate::coordination::etcd::keys;
use crate::coordination::etcd::metadata;
use crate::coordination::etcd::queue;
use crate::coordination::etcd::queue::{
    ClaimStage, ClaimView, Completed, CompletionStage, CompletionView, InjectionStage,
    InjectionView, PurgeView, QueueActionView, QueueView, TransitionClaim,
};
use crate::coordination::etcd::store;
use crate::lists;
use crate::transition::MessageView;
use vstd::prelude::*;

verus! {

/// The key of the queue.
pub open spec fn queue_key(prefix: Seq<char>) -> Seq<char> {
    keys::metadata_key_at(prefix, "controller/output/pending-transitions"@)
}

/// Another message than the one with the identifier.
pub open spec fn other_than(id: Seq<char>) -> spec_fn(MessageView) -> bool {
    |m: MessageView| m.message_id != id
}

/// A message of another resource.
pub open spec fn not_of(resource: Seq<char>) -> spec_fn(MessageView) -> bool {
    |m: MessageView| m.resource != resource
}

/// Without a message the others stay, in order.
pub proof fn other_messages_stay(messages: Seq<MessageView>, id: Seq<char>)
    ensures
        queue::without_id(messages, id) == messages.filter(other_than(id)),
    decreases messages.len(),
{
    reveal(Seq::filter);
    if messages.len() > 0 {
        other_messages_stay(messages.drop_last(), id);
    }
}

/// Without a resource the messages of others stay, in order.
pub proof fn messages_of_others_stay(messages: Seq<MessageView>, resource: Seq<char>)
    ensures
        queue::without_resource(messages, resource) == messages.filter(not_of(resource)),
    decreases messages.len(),
{
    reveal(Seq::filter);
    if messages.len() > 0 {
        messages_of_others_stay(messages.drop_last(), resource);
    }
}

/// The queue was read as these messages, each with an identifier.
pub open spec fn read_as(entry: QueueView, messages: Seq<MessageView>) -> bool {
    entry.decoded == Some(messages) && forall|i: int|
        0 <= i < messages.len() ==> (#[trigger] messages[i]).message_id.len() > 0
}

/// A message of the queue has the identifier.
pub open spec fn in_queue(messages: Seq<MessageView>, id: Seq<char>) -> bool {
    exists|i: int| 0 <= i < messages.len() && (#[trigger] messages[i]).message_id == id
}

/// The transaction puts the messages in place of the queue of a revision, and
/// does nothing else.
pub open spec fn replaces(
    t: store::TransactionView,
    prefix: Seq<char>,
    revision: i64,
    messages: Seq<MessageView>,
) -> bool {
    &&& t.conditions == seq![
        store::ConditionView::ModRevision { key: queue_key(prefix), revision },
    ]
    &&& t.mutations == seq![store::MutationView::PutMessages { key: queue_key(prefix), messages }]
}

/// A message is put behind those of the queue, or into a new queue where there
/// is none. One whose identifier is there already is refused.
pub proof fn messages_are_injected(v: InjectionView, entry: QueueView, messages: Seq<MessageView>)
    requires
        v.stage is Queue,
        read_as(entry, messages),
    ensures
        in_queue(messages, v.message.message_id) ==> v.queue(Some(entry)).1
            == QueueActionView::<i64>::Finish(
            Err(CoordinationFault::DuplicateMessage(v.message.message_id)),
        ),
        !in_queue(messages, v.message.message_id) ==> (v.queue(Some(entry)).1 matches
            QueueActionView::Commit(t) && replaces(
            t,
            v.prefix,
            entry.revision@,
            messages.push(v.message),
        )) && v.queue(Some(entry)).0 == (InjectionView { stage: InjectionStage::Replacing, ..v }),
        v.queue(None) == (
            InjectionView { stage: InjectionStage::Namespace, ..v },
            QueueActionView::<i64>::ReadNamespace,
        ),
        v.namespace().1 matches QueueActionView::Commit(t) && t.conditions == seq![
            store::ConditionView::Version { key: queue_key(v.prefix), version: 0 },
        ] && t.mutations == seq![
            store::MutationView::PutMessages {
                key: queue_key(v.prefix),
                messages: seq![v.message],
            },
        ],
{
}

/// An injection is told the revision of the queue that it made. Where the queue
/// was changed under it, it is tried again, a limited number of times.
pub proof fn injections_are_confirmed(v: InjectionView, entry: QueueView, header: Option<i64>)
    ensures
        v.stage is Confirm ==> v.queue(Some(entry)).1 == QueueActionView::Finish(
            Ok::<i64, CoordinationFault>(entry.revision@),
        ) && v.queue(None).1 == QueueActionView::<i64>::Finish(
            Err(CoordinationFault::MissingRevision),
        ),
        v.stage is Creating || (v.stage is Replacing && header is Some && header->0 > 0) ==> {
            &&& v.outcome(true, header) == (
                InjectionView { stage: InjectionStage::Confirm, ..v },
                QueueActionView::<i64>::ReadQueue,
            )
            &&& v.attempts + 1 < metadata::MAX_QUEUE_CAS_RETRIES ==> v.outcome(false, header) == (
                InjectionView { attempts: v.attempts + 1, stage: InjectionStage::Queue, ..v },
                QueueActionView::<i64>::ReadQueue,
            )
            &&& v.attempts + 1 >= metadata::MAX_QUEUE_CAS_RETRIES ==> v.outcome(false, header).1
                == QueueActionView::<i64>::Finish(Err(CoordinationFault::Contention))
        },
{
}

/// A message that is not in the queue any more is withdrawn. One that is there
/// is claimed behind the session and the queue as it was read, and nothing is
/// changed for that.
pub proof fn queued_messages_are_claimed(v: ClaimView, entry: QueueView, messages: Seq<MessageView>)
    requires
        read_as(entry, messages),
    ensures
        v.queue(None).1 == QueueActionView::Finish(
            Ok::<TransitionClaim, CoordinationFault>(TransitionClaim::Withdrawn),
        ),
        !messages.contains(v.message) ==> v.queue(Some(entry)).1 == QueueActionView::Finish(
            Ok::<TransitionClaim, CoordinationFault>(TransitionClaim::Withdrawn),
        ),
        messages.contains(v.message) ==> {
            let after = v.queue(Some(entry));
            &&& after.0 == (ClaimView { stage: ClaimStage::Commit(entry.revision), ..v })
            &&& after.0.outcome(true).1 == QueueActionView::Finish(
                Ok::<TransitionClaim, CoordinationFault>(TransitionClaim::Claimed(entry.revision)),
            )
            &&& after.1 matches QueueActionView::Commit(t) && t.mutations.len() == 0
                && t.conditions == seq![
                store::ConditionView::Value {
                    key: keys::live_key_at(v.prefix, v.instance),
                    value: keys::session_key_text(v.session),
                },
                store::ConditionView::ModRevision {
                    key: queue_key(v.prefix),
                    revision: entry.revision@,
                },
                store::ConditionView::Value { key: queue_key(v.prefix), value: entry.value },
            ]
        },
{
}

/// A claim that is refused is tried again while the session is live, a limited
/// number of times, and is over where the session is lost.
pub proof fn refused_claims(v: ClaimView, session: Option<u64>)
    ensures
        v.outcome(false) == (
            ClaimView { stage: ClaimStage::LiveSession, ..v },
            QueueActionView::<TransitionClaim>::ReadLiveSession,
        ),
        session != Some(v.session) ==> v.live(session).1 == QueueActionView::Finish(
            Ok::<TransitionClaim, CoordinationFault>(TransitionClaim::SessionLost),
        ),
        session == Some(v.session) && v.attempts + 1 < metadata::MAX_QUEUE_CAS_RETRIES ==> v.live(
            session,
        ) == (
            ClaimView { attempts: v.attempts + 1, stage: ClaimStage::Queue, ..v },
            QueueActionView::<TransitionClaim>::ReadQueue,
        ),
        session == Some(v.session) && v.attempts + 1 >= metadata::MAX_QUEUE_CAS_RETRIES ==> v.live(
            session,
        ).1 == QueueActionView::<TransitionClaim>::Finish(Err(CoordinationFault::Contention)),
{
}

/// The first message with the identifier is the message.
pub open spec fn first_with_id(
    messages: Seq<MessageView>,
    id: Seq<char>,
    message: MessageView,
    k: int,
) -> bool {
    &&& 0 <= k < messages.len()
    &&& messages[k].message_id == id
    &&& messages[k] == message
    &&& forall|j: int| 0 <= j < k ==> (#[trigger] messages[j]).message_id != id
}

/// A completion publishes the new state of the replica, or deletes it where it
/// has none, takes the message out of the queue and marks the input, all behind
/// the session and the revision of the queue that the message was claimed at.
pub proof fn completions_publish_the_state(
    v: CompletionView,
    entry: QueueView,
    messages: Seq<MessageView>,
    k: int,
)
    requires
        v.stage is Queue,
        read_as(entry, messages),
        first_with_id(messages, v.fence.message, v.message, k),
    ensures
        entry.revision@ != v.fence.revision@ ==> v.queue(Some(entry)).1
            == QueueActionView::<Completed>::Finish(Err(CoordinationFault::StaleRevision)),
        entry.revision@ == v.fence.revision@ ==> {
            let after = v.queue(Some(entry));
            let state = keys::current_state_key_at(
                v.prefix,
                v.fence.instance,
                v.fence.session,
                v.message.resource,
                v.message.partition,
            );
            &&& after.0 == (CompletionView { stage: CompletionStage::Commit, ..v })
            &&& after.1 matches QueueActionView::Commit(t) && {
                &&& t.conditions == seq![
                    store::ConditionView::Value {
                        key: keys::live_key_at(v.prefix, v.fence.instance),
                        value: keys::session_key_text(v.fence.session),
                    },
                    store::ConditionView::ModRevision {
                        key: queue_key(v.prefix),
                        revision: v.fence.revision@,
                    },
                ]
                &&& t.mutations.len() == 3
                &&& v.result matches Some(value) ==> t.mutations[0] == (store::MutationView::Put {
                    key: state,
                    value,
                    lease: None,
                })
                &&& v.result is None ==> t.mutations[0] == (store::MutationView::Delete {
                    key: state,
                })
                &&& t.mutations[1] == (store::MutationView::PutMessages {
                    key: queue_key(v.prefix),
                    messages: messages.remove(k),
                })
                &&& t.mutations[2] == metadata::marker_put(v.prefix)
            }
        },
{
    let all = queue::ids(messages);
    assert(all[k] == v.fence.message);
    assert forall|j: int| 0 <= j < k implies all[j] != v.fence.message by {
        assert(all[j] == messages[j].message_id);
    }
    lists::first_index_meaning(all, v.fence.message);
    assert(queue::position_of(messages, v.fence.message) == k);
    assert(queue::holds_id(messages, v.fence.message));
}

/// A completion whose message is not in the queue any more, or is another under
/// the same identifier, was made already.
pub proof fn completed_messages_are_not_completed_again(
    v: CompletionView,
    entry: QueueView,
    messages: Seq<MessageView>,
)
    requires
        v.stage is Queue,
        read_as(entry, messages),
        forall|k: int| !#[trigger] first_with_id(messages, v.fence.message, v.message, k),
    ensures
        v.queue(Some(entry)).1 == QueueActionView::Finish(
            Ok::<Completed, CoordinationFault>(Completed::AlreadyCompleted),
        ),
        v.queue(None).1 == QueueActionView::Finish(
            Ok::<Completed, CoordinationFault>(Completed::AlreadyCompleted),
        ),
{
    let all = queue::ids(messages);
    lists::first_index_meaning(all, v.fence.message);
    if queue::holds_id(messages, v.fence.message) {
        let i = choose|i: int|
            0 <= i < messages.len() && (#[trigger] messages[i]).message_id == v.fence.message;
        assert(all[i] == v.fence.message);
        let k = queue::position_of(messages, v.fence.message) as int;
        if messages[k] == v.message {
            assert forall|j: int| 0 <= j < k implies (#[trigger] messages[j]).message_id
                != v.fence.message by {
                assert(all[j] == messages[j].message_id);
            }
            assert(all[k] == v.fence.message);
            assert(first_with_id(messages, v.fence.message, v.message, k));
        }
    }
}

/// A commit of a completion applies it at the revision that the store reports.
/// One that is refused is stale where the session is still live. Where it is
/// not, only the message is taken out of the queue, and the session is lost.
pub proof fn refused_completions(
    v: CompletionView,
    revision: i64,
    session: Option<u64>,
    header: Option<i64>,
    entry: QueueView,
    messages: Seq<MessageView>,
)
    requires
        revision > 0,
        read_as(entry, messages),
    ensures
        v.stage is Commit ==> v.outcome(true, Some(revision)).1 == QueueActionView::Finish(
            Ok::<Completed, CoordinationFault>(Completed::Applied(revision)),
        ) && v.outcome(false, header) == (
            CompletionView { stage: CompletionStage::LiveSession, ..v },
            QueueActionView::<Completed>::ReadLiveSession,
        ),
        session == Some(v.fence.session) ==> v.live(session).1
            == QueueActionView::<Completed>::Finish(Err(CoordinationFault::StaleRevision)),
        session != Some(v.fence.session) ==> v.live(session) == (
            CompletionView { stage: CompletionStage::CleanupQueue, ..v },
            QueueActionView::<Completed>::ReadQueue,
        ),
        v.stage is CleanupQueue ==> {
            &&& v.queue(None).1 == QueueActionView::Finish(
                Ok::<Completed, CoordinationFault>(Completed::SessionLost),
            )
            &&& !in_queue(messages, v.fence.message) ==> v.queue(Some(entry)).1
                == QueueActionView::Finish(
                Ok::<Completed, CoordinationFault>(Completed::AlreadyCompleted),
            )
            &&& in_queue(messages, v.fence.message) && entry.revision@ != v.fence.revision@
                ==> v.queue(Some(entry)).1 == QueueActionView::Finish(
                Ok::<Completed, CoordinationFault>(Completed::SessionLost),
            )
            &&& in_queue(messages, v.fence.message) && entry.revision@ == v.fence.revision@ ==> (
            v.queue(Some(entry)).1 matches QueueActionView::Commit(t) && replaces(
                t,
                v.prefix,
                entry.revision@,
                messages.filter(other_than(v.fence.message)),
            )) && v.queue(Some(entry)).0.outcome(true, Some(revision)).1 == QueueActionView::Finish(
                Ok::<Completed, CoordinationFault>(Completed::SessionLost),
            )
        },
{
    other_messages_stay(messages, v.fence.message);
}

/// A message is removed from the queue of the revision that it was read at. One
/// that is not there needs no removal, and a queue of another revision refuses
/// it.
pub proof fn messages_are_removed(
    prefix: Seq<char>,
    expected: i64,
    id: Seq<char>,
    entry: QueueView,
    messages: Seq<MessageView>,
)
    requires
        read_as(entry, messages),
    ensures
        queue::removal(prefix, expected, id, None) == QueueActionView::Finish(
            Ok::<bool, CoordinationFault>(false),
        ),
        !in_queue(messages, id) ==> queue::removal(prefix, expected, id, Some(entry))
            == QueueActionView::Finish(Ok::<bool, CoordinationFault>(false)),
        in_queue(messages, id) && entry.revision@ != expected ==> queue::removal(
            prefix,
            expected,
            id,
            Some(entry),
        ) == QueueActionView::<bool>::Finish(Err(CoordinationFault::StaleRevision)),
        in_queue(messages, id) && entry.revision@ == expected ==> (queue::removal(
            prefix,
            expected,
            id,
            Some(entry),
        ) matches QueueActionView::Commit(t) && replaces(
            t,
            prefix,
            expected,
            messages.filter(other_than(id)),
        )),
{
    other_messages_stay(messages, id);
}

/// The messages of a resource are purged from the queue. Without any there is
/// nothing to do. Where the queue was changed under it the purge is tried again,
/// a limited number of times.
pub proof fn resources_are_purged(
    v: PurgeView,
    entry: QueueView,
    messages: Seq<MessageView>,
    revision: i64,
)
    requires
        read_as(entry, messages),
        revision > 0,
    ensures
        v.queue(None) == QueueActionView::Finish(Ok::<(), CoordinationFault>(())),
        (forall|i: int| 0 <= i < messages.len() ==> (#[trigger] messages[i]).resource != v.resource)
            ==> v.queue(Some(entry)) == QueueActionView::Finish(Ok::<(), CoordinationFault>(())),
        (exists|i: int| 0 <= i < messages.len() && (#[trigger] messages[i]).resource == v.resource)
            ==> (v.queue(Some(entry)) matches QueueActionView::Commit(t) && replaces(
            t,
            v.prefix,
            entry.revision@,
            messages.filter(not_of(v.resource)),
        )),
        v.outcome(true, Some(revision)).1 == QueueActionView::Finish(
            Ok::<(), CoordinationFault>(()),
        ),
        v.attempts + 1 < metadata::MAX_QUEUE_CAS_RETRIES ==> v.outcome(false, Some(revision)) == (
            PurgeView { attempts: v.attempts + 1, ..v },
            QueueActionView::<()>::ReadQueue,
        ),
        v.attempts + 1 >= metadata::MAX_QUEUE_CAS_RETRIES ==> v.outcome(false, Some(revision)).1
            == QueueActionView::<()>::Finish(Err(CoordinationFault::Contention)),
{
    messages_of_others_stay(messages, v.resource);
    queue::without_resource_removes(messages, v.resource);
}

/// A queue that cannot be read, or that holds a message without an identifier,
/// is refused by everything that changes it.
pub proof fn unreadable_queues_are_refused(
    entry: QueueView,
    injection: InjectionView,
    claim: ClaimView,
    completion: CompletionView,
    purge: PurgeView,
    expected: i64,
    id: Seq<char>,
)
    requires
        forall|messages: Seq<MessageView>| !#[trigger] read_as(entry, messages),
        injection.stage is Queue,
    ensures
        injection.queue(Some(entry)).1 == QueueActionView::<i64>::Finish(
            Err(CoordinationFault::InvalidValue),
        ),
        claim.queue(Some(entry)).1 == QueueActionView::<TransitionClaim>::Finish(
            Err(CoordinationFault::InvalidValue),
        ),
        completion.queue(Some(entry)).1 == QueueActionView::<Completed>::Finish(
            Err(CoordinationFault::InvalidValue),
        ),
        purge.queue(Some(entry)) == QueueActionView::<()>::Finish(
            Err(CoordinationFault::InvalidValue),
        ),
        queue::removal(purge.prefix, expected, id, Some(entry)) == QueueActionView::<bool>::Finish(
            Err(CoordinationFault::InvalidValue),
        ),
{
    if entry.decoded is Some {
        assert(!read_as(entry, entry.decoded->0));
    }
}

} // verus!
