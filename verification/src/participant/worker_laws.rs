//! What holds of the work that a participant schedules, of what it completes,
//! and of how it keeps its session.
use crate::coordination::etcd::error::CoordinationFault;
use crate::participant::error::ParticipantFault;
use crate::participant::execution;
use crate::participant::execution::WorkerEnd;
use crate::participant::frontier;
use crate::participant::frontier::CompletionView;
use crate::participant::session::{
    KeepaliveOutcome, KeepaliveStage, KeepaliveStepView, KeepaliveView, KEEPALIVE_PERIOD_MS,
};
use crate::participant::workers;
use crate::participant::workers::WorkersView;
use crate::transition::MessageView;
use vstd::prelude::*;

verus! {

/// The message is for the instance and can be told from others.
pub open spec fn meant_for(message: MessageView, instance: Seq<char>) -> bool {
    message.instance == instance && message.message_id.len() > 0
}

/// What a message works on.
pub open spec fn replica_of(message: MessageView) -> Seq<char> {
    message.resource + "/"@ + message.partition
}

/// The message at `k` is the first for its replica, which nobody works on.
pub open spec fn takes_up(
    instance: Seq<char>,
    in_flight: Map<Seq<char>, Seq<char>>,
    messages: Seq<MessageView>,
    k: int,
) -> bool {
    &&& 0 <= k < messages.len()
    &&& meant_for(messages[k], instance)
    &&& !in_flight.dom().contains(replica_of(messages[k]))
    &&& forall|j: int|
        0 <= j < k && meant_for(#[trigger] messages[j], instance) ==> replica_of(messages[j])
            != replica_of(messages[k])
}

/// Work began on one of the messages, for its replica.
pub open spec fn begun(
    instance: Seq<char>,
    in_flight: Map<Seq<char>, Seq<char>>,
    messages: Seq<MessageView>,
    work: (MessageView, Seq<char>),
) -> bool {
    exists|k: int| #[trigger]
        takes_up(instance, in_flight, messages, k) && work == (
            messages[k],
            replica_of(messages[k]),
        )
}

/// Work begins on exactly the first message for each replica that nobody works
/// on. Afterwards that message is what its replica is worked on for, and the
/// other replicas are worked on as before.
pub proof fn free_replicas_are_taken_up(
    instance: Seq<char>,
    in_flight: Map<Seq<char>, Seq<char>>,
    messages: Seq<MessageView>,
)
    ensures
        forall|k: int| #[trigger]
            takes_up(instance, in_flight, messages, k) ==> {
                let s = workers::schedule(instance, in_flight, messages);
                &&& s.scheduled.contains((messages[k], replica_of(messages[k])))
                &&& s.in_flight.dom().contains(replica_of(messages[k]))
                &&& s.in_flight[replica_of(messages[k])] == messages[k].message_id
            },
        forall|i: int|
            0 <= i < workers::schedule(instance, in_flight, messages).scheduled.len() ==> begun(
                instance,
                in_flight,
                messages,
                #[trigger] workers::schedule(instance, in_flight, messages).scheduled[i],
            ),
        forall|key: Seq<char>| #[trigger]
            workers::schedule(instance, in_flight, messages).in_flight.dom().contains(key)
                && !in_flight.dom().contains(key) ==> exists|k: int| #[trigger]
                takes_up(instance, in_flight, messages, k) && replica_of(messages[k]) == key,
        forall|key: Seq<char>| #[trigger]
            in_flight.dom().contains(key) ==> workers::schedule(
                instance,
                in_flight,
                messages,
            ).in_flight.dom().contains(key) && workers::schedule(
                instance,
                in_flight,
                messages,
            ).in_flight[key] == in_flight[key],
    decreases messages.len(),
{
    if messages.len() > 0 {
        let rest = messages.drop_last();
        let n = messages.len() - 1;
        let last = messages.last();
        free_replicas_are_taken_up(instance, in_flight, rest);
        let before = workers::schedule(instance, in_flight, rest);
        let s = workers::schedule(instance, in_flight, messages);
        let key = replica_of(last);
        assert(key == workers::execution_key(last));
        assert(messages[n] == last);
        assert forall|k: int| 0 <= k < n implies #[trigger] takes_up(
            instance,
            in_flight,
            messages,
            k,
        ) == takes_up(instance, in_flight, rest, k) by {
            assert(forall|j: int| 0 <= j < n ==> rest[j] == messages[j]);
        }
        assert(meant_for(last, instance) ==> (takes_up(instance, in_flight, messages, n)
            <==> !before.in_flight.dom().contains(key))) by {
            if meant_for(last, instance) {
                if takes_up(instance, in_flight, messages, n) && before.in_flight.dom().contains(
                    key,
                ) {
                    let k = choose|k: int| #[trigger]
                        takes_up(instance, in_flight, rest, k) && replica_of(rest[k]) == key;
                    assert(rest[k] == messages[k]);
                    assert(meant_for(messages[k], instance));
                }
                if !before.in_flight.dom().contains(key) {
                    assert(!in_flight.dom().contains(key));
                    assert forall|j: int|
                        0 <= j < n && meant_for(#[trigger] messages[j], instance) implies replica_of(
                        messages[j],
                    ) != key by {
                        if replica_of(messages[j]) == key {
                            worked_on(instance, in_flight, rest, j);
                        }
                    }
                }
            }
        }
        assert forall|k: int| #[trigger] takes_up(
            instance,
            in_flight,
            messages,
            k,
        ) implies s.scheduled.contains((messages[k], replica_of(messages[k])))
            && s.in_flight.dom().contains(replica_of(messages[k]))
            && s.in_flight[replica_of(messages[k])] == messages[k].message_id by {
            if k < n {
                assert(takes_up(instance, in_flight, rest, k));
                assert(rest[k] == messages[k]);
                let i = before.scheduled.index_of((messages[k], replica_of(messages[k])));
                assert(s.scheduled[i] == before.scheduled[i]);
            } else {
                assert(s.scheduled[before.scheduled.len() as int] == (last, key));
            }
        }
        assert forall|i: int| 0 <= i < s.scheduled.len() implies begun(
            instance,
            in_flight,
            messages,
            #[trigger] s.scheduled[i],
        ) by {
            if i < before.scheduled.len() {
                assert(s.scheduled[i] == before.scheduled[i]);
                assert(begun(instance, in_flight, rest, before.scheduled[i]));
                let k = choose|k: int| #[trigger]
                    takes_up(instance, in_flight, rest, k) && before.scheduled[i] == (
                        rest[k],
                        replica_of(rest[k]),
                    );
                assert(takes_up(instance, in_flight, messages, k));
                assert(rest[k] == messages[k]);
            } else {
                assert(takes_up(instance, in_flight, messages, n));
            }
        }
        assert forall|other: Seq<char>| #[trigger]
            s.in_flight.dom().contains(other) && !in_flight.dom().contains(other) implies exists|
            k: int,
        | #[trigger]
            takes_up(instance, in_flight, messages, k) && replica_of(messages[k]) == other by {
            if before.in_flight.dom().contains(other) {
                let k = choose|k: int| #[trigger]
                    takes_up(instance, in_flight, rest, k) && replica_of(rest[k]) == other;
                assert(takes_up(instance, in_flight, messages, k));
                assert(rest[k] == messages[k]);
            } else {
                assert(takes_up(instance, in_flight, messages, n));
            }
        }
        assert forall|other: Seq<char>| #[trigger]
            in_flight.dom().contains(other) implies s.in_flight.dom().contains(other)
            && s.in_flight[other] == in_flight[other] by {
            assert(before.in_flight.dom().contains(other));
        }
    } else {
        assert(forall|k: int| !takes_up(instance, in_flight, messages, k));
    }
}

proof fn worked_on(
    instance: Seq<char>,
    in_flight: Map<Seq<char>, Seq<char>>,
    messages: Seq<MessageView>,
    j: int,
)
    requires
        0 <= j < messages.len(),
        meant_for(messages[j], instance),
    ensures
        workers::schedule(instance, in_flight, messages).in_flight.dom().contains(
            replica_of(messages[j]),
        ),
{
    workers::addressed_messages_are_observed(instance, in_flight, messages, j);
}

/// Exactly the messages that replicas are worked on for are observed.
pub proof fn messages_in_work_are_observed(
    instance: Seq<char>,
    in_flight: Map<Seq<char>, Seq<char>>,
    messages: Seq<MessageView>,
)
    ensures
        ({
            let s = workers::schedule(instance, in_flight, messages);
            &&& forall|k: int|
                0 <= k < messages.len() && meant_for(#[trigger] messages[k], instance)
                    && s.in_flight[replica_of(messages[k])] == messages[k].message_id
                    ==> s.observed.contains(messages[k].message_id)
            &&& forall|id: Seq<char>| #[trigger]
                s.observed.contains(id) ==> exists|k: int|
                    0 <= k < messages.len() && meant_for(#[trigger] messages[k], instance)
                        && messages[k].message_id == id && s.in_flight.dom().contains(
                        replica_of(messages[k]),
                    ) && s.in_flight[replica_of(messages[k])] == id
        }),
    decreases messages.len(),
{
    let s = workers::schedule(instance, in_flight, messages);
    assert forall|k: int|
        0 <= k < messages.len() && meant_for(#[trigger] messages[k], instance)
            && s.in_flight[replica_of(messages[k])] == messages[k].message_id implies s.observed.contains(
        messages[k].message_id,
    ) by {
        workers::addressed_messages_are_observed(instance, in_flight, messages, k);
    }
    if messages.len() > 0 {
        let rest = messages.drop_last();
        let n = messages.len() - 1;
        messages_in_work_are_observed(instance, in_flight, rest);
        free_replicas_are_taken_up(instance, in_flight, rest);
        let before = workers::schedule(instance, in_flight, rest);
        assert(messages[n] == messages.last());
        assert(replica_of(messages.last()) == workers::execution_key(messages.last()));
        assert forall|id: Seq<char>| #[trigger] s.observed.contains(id) implies exists|k: int|
            0 <= k < messages.len() && meant_for(#[trigger] messages[k], instance)
                && messages[k].message_id == id && s.in_flight.dom().contains(
                replica_of(messages[k]),
            ) && s.in_flight[replica_of(messages[k])] == id by {
            if before.observed.contains(id) {
                let k = choose|k: int|
                    0 <= k < rest.len() && meant_for(#[trigger] rest[k], instance)
                        && rest[k].message_id == id && before.in_flight.dom().contains(
                        replica_of(rest[k]),
                    ) && before.in_flight[replica_of(rest[k])] == id;
                assert(rest[k] == messages[k]);
            } else {
                let a = s.observed.index_of(id);
                if a < before.observed.len() {
                    assert(before.observed[a] == id);
                }
                assert(messages[n].message_id == id);
            }
        }
    }
}

/// A finished message frees its replica, and no other one.
pub proof fn only_finished_work_is_released(
    v: WorkersView,
    key: Seq<char>,
    id: Seq<char>,
    other: Seq<char>,
)
    ensures
        v.release(key, id).in_flight.dom().contains(other) <==> v.in_flight.dom().contains(other)
            && !(other == key && v.in_flight[key] == id),
        v.release(key, id).in_flight.dom().contains(other) ==> v.release(key, id).in_flight[other]
            == v.in_flight[other],
        v.release(key, id).progress == v.progress,
{
}

/// What was observed at a revision is added to what was known of it, and the
/// other revisions stay.
pub proof fn observed_messages_are_awaited(
    v: CompletionView,
    revision: i64,
    ids: Seq<Seq<char>>,
    q: i64,
    id: Seq<char>,
)
    ensures
        ({
            let after = v.observe(revision, ids);
            &&& after.completed == v.completed && after.frontier == v.frontier
            &&& after.revisions.dom().contains(q) <==> q == revision || v.revisions.dom().contains(q)
            &&& q != revision && v.revisions.dom().contains(q) ==> after.revisions[q]
                == v.revisions[q]
            &&& after.revisions[revision].contains(id) <==> ids.contains(id) || (
            v.revisions.dom().contains(revision) && v.revisions[revision].contains(id))
        }),
{
}

/// Every message observed up to a revision is complete.
pub open spec fn complete_up_to(v: CompletionView, id: Seq<char>, r: i64) -> bool {
    forall|q: i64, m: Seq<char>|
        v.revisions.dom().contains(q) && q <= r && #[trigger] v.revisions[q].contains(m) ==> m == id
            || v.completed.contains(m)
}

proof fn highest(s: Set<i64>) -> (top: i64)
    requires
        s.finite(),
        s.len() > 0,
    ensures
        s.contains(top),
        forall|q: i64| #[trigger] s.contains(q) ==> q <= top,
    decreases s.len(),
{
    let x = s.choose();
    let rest = s.remove(x);
    if rest.len() == 0 {
        assert(forall|q: i64| #[trigger] s.contains(q) ==> q == x) by {
            assert forall|q: i64| #[trigger] s.contains(q) implies q == x by {
                if q != x {
                    assert(rest.contains(q));
                }
            }
        }
        x
    } else {
        let top = highest(rest);
        assert(forall|q: i64| #[trigger] s.contains(q) ==> q == x || rest.contains(q));
        if x > top {
            x
        } else {
            top
        }
    }
}

/// A completed message advances the progress to the highest revision up to
/// which every observed message is complete. Where there is none, the progress
/// stays.
pub proof fn completed_revisions_advance(v: CompletionView, id: Seq<char>, r: i64)
    requires
        v.revisions.dom().finite(),
    ensures
        v.revisions.dom().contains(r) && complete_up_to(v, id, r) ==> v.advance(id) is Some
            && v.advance(id)->0 >= r,
        v.advance(id) is Some ==> v.revisions.dom().contains(v.advance(id)->0) && complete_up_to(
            v,
            id,
            v.advance(id)->0,
        ),
        v.complete(id).frontier == if v.advance(id) is Some {
            v.advance(id)
        } else {
            v.frontier
        },
{
    let completed = v.completed.insert(id);
    let m = v.revisions;
    assert forall|q: i64| m.dom().contains(q) implies #[trigger] frontier::settled(m, completed, q)
        == complete_up_to(v, id, q) by {
        if complete_up_to(v, id, q) {
            assert forall|p: i64| #[trigger] m.dom().contains(p) && p <= q implies m[p].subset_of(
                completed,
            ) by {
                assert forall|x: Seq<char>| #[trigger] m[p].contains(x) implies completed.contains(
                    x,
                ) by {
                    assert(v.revisions[p].contains(x));
                }
            }
        }
        if frontier::settled(m, completed, q) {
            assert forall|p: i64, x: Seq<char>|
                v.revisions.dom().contains(p) && p <= q
                    && #[trigger] v.revisions[p].contains(x) implies x == id
                || v.completed.contains(x) by {
                assert(m[p].subset_of(completed));
            }
        }
    }
    let done = m.dom().filter(|q: i64| frontier::settled(m, completed, q));
    if v.revisions.dom().contains(r) && complete_up_to(v, id, r) {
        assert(frontier::settled(m, completed, r));
        assert(done.contains(r));
        let top = highest(done);
        assert(frontier::is_frontier(m, completed, top)) by {
            assert forall|q: i64| #[trigger] frontier::settled(m, completed, q) implies q <= top by {
                assert(done.contains(q));
            }
        }
        let x = v.advance(id)->0;
        assert(frontier::is_frontier(m, completed, x));
    }
}

/// What is left once a message is complete: the revisions above the progress,
/// as they were, and the completed messages that one of them holds or that were
/// not observed yet.
pub proof fn completed_revisions_are_forgotten(v: CompletionView, id: Seq<char>, q: i64, m: Seq<char>)
    requires
        v.revisions.dom().finite(),
    ensures
        v.complete(id).revisions.dom().contains(q) <==> v.revisions.dom().contains(q) && (
        v.advance(id) is None || q > v.advance(id)->0),
        v.complete(id).revisions.dom().contains(q) ==> v.complete(id).revisions[q]
            == v.revisions[q],
        v.complete(id).completed.contains(m) <==> (m == id || v.completed.contains(m)) && ((exists|
            p: i64,
        |
            v.complete(id).revisions.dom().contains(p) && #[trigger] v.revisions[p].contains(m))
            || !(exists|p: i64|
            v.revisions.dom().contains(p) && #[trigger] v.revisions[p].contains(m))),
{
    let completed = v.completed.insert(id);
    let all = v.revisions;
    let rest = frontier::unsettled(all, completed);
    completed_revisions_advance(v, id, q);
    if all.dom().contains(q) {
        if frontier::settled(all, completed, q) {
            assert(complete_up_to(v, id, q)) by {
                assert forall|p: i64, x: Seq<char>|
                    v.revisions.dom().contains(p) && p <= q
                        && #[trigger] v.revisions[p].contains(x) implies x == id
                    || v.completed.contains(x) by {
                    assert(all[p].subset_of(completed));
                }
            }
        }
        if v.advance(id) is Some && q <= v.advance(id)->0 {
            frontier::frontier_waits_for_every_message(v, id, q);
        }
    }
    if frontier::mentions(rest, m) {
        let p = choose|p: i64| #[trigger] rest.dom().contains(p) && rest[p].contains(m);
        assert(v.complete(id).revisions.dom().contains(p) && v.revisions[p].contains(m));
    }
    if exists|p: i64| v.complete(id).revisions.dom().contains(p) && #[trigger] v.revisions[p].contains(m) {
        let p = choose|p: i64|
            v.complete(id).revisions.dom().contains(p) && #[trigger] v.revisions[p].contains(m);
        assert(rest.dom().contains(p) && rest[p].contains(m));
    }
    if frontier::mentions(all, m) {
        let p = choose|p: i64| #[trigger] all.dom().contains(p) && all[p].contains(m);
        assert(v.revisions[p].contains(m));
    }
    if exists|p: i64| v.revisions.dom().contains(p) && #[trigger] v.revisions[p].contains(m) {
        let p = choose|p: i64|
            v.revisions.dom().contains(p) && #[trigger] v.revisions[p].contains(m);
        assert(all.dom().contains(p) && all[p].contains(m));
    }
}

/// A keepalive asks whether the session is current, keeps its lease alive, and
/// asks again. It is healthy where both answers are yes, and expired where one
/// is no, where the lease is gone, or where its time has passed.
pub proof fn sessions_are_kept(v: KeepaliveView, elapsed: nat)
    ensures
        elapsed < v.lease_ttl ==> v.begin(elapsed) == (
            KeepaliveView { stage: KeepaliveStage::Checking, ..v },
            KeepaliveStepView::AskCurrent,
        ),
        elapsed >= v.lease_ttl ==> v.begin(elapsed).1 == KeepaliveStepView::Done(
            KeepaliveOutcome::Expired,
        ),
        v.stage is Checking ==> v.current(Ok(true), elapsed) == (
            KeepaliveView { stage: KeepaliveStage::Keeping, ..v },
            KeepaliveStepView::KeepAlive,
        ),
        v.stage is Confirming ==> v.current(Ok(true), elapsed).1 == KeepaliveStepView::Done(
            KeepaliveOutcome::Healthy,
        ),
        v.current(Ok(false), elapsed).1 == KeepaliveStepView::Done(KeepaliveOutcome::Expired),
        v.kept(Ok(()), elapsed) == (
            KeepaliveView { stage: KeepaliveStage::Confirming, ..v },
            KeepaliveStepView::AskCurrent,
        ),
        v.kept(Err(CoordinationFault::LeaseExpired), elapsed).1 == KeepaliveStepView::Done(
            KeepaliveOutcome::Expired,
        ),
        v.paused(true, elapsed).1 == KeepaliveStepView::Done(KeepaliveOutcome::Shutdown),
        v.paused(false, elapsed) == v.begin(elapsed),
{
}

/// A keepalive that the store fails for the moment pauses for the period, or
/// for what is left of the lease where that is less. Any other fault ends it.
pub proof fn failed_keepalives_pause(v: KeepaliveView, fault: CoordinationFault, elapsed: nat)
    ensures
        v.current(Err(fault), elapsed) == v.failed(fault, elapsed),
        !(fault is LeaseExpired) ==> v.kept(Err(fault), elapsed) == v.failed(fault, elapsed),
        !(fault is Etcd) ==> v.failed(fault, elapsed).1 == KeepaliveStepView::Fail(
            ParticipantFault::Coordination(fault),
        ),
        fault is Etcd && elapsed >= v.lease_ttl ==> v.failed(fault, elapsed).1
            == KeepaliveStepView::Done(KeepaliveOutcome::Expired),
        fault is Etcd && elapsed < v.lease_ttl ==> (v.failed(fault, elapsed).1 matches
            KeepaliveStepView::Pause(span) && span <= KEEPALIVE_PERIOD_MS * 1_000_000 && elapsed
            + span <= v.lease_ttl && (span == KEEPALIVE_PERIOD_MS * 1_000_000 || elapsed + span
            == v.lease_ttl)),
        v.failed(fault, elapsed).0 == v,
{
}

/// A fault of a participant passes by itself exactly where it is one of the
/// store.
pub proof fn only_store_faults_pass(fault: ParticipantFault)
    ensures
        fault.transient() <==> fault is Coordination && fault->Coordination_0 is Etcd,
{
}

/// What a worker comes to: its own result, a fault where it did not return, and
/// nothing where there was none.
pub proof fn workers_come_to_their_result(end: WorkerEnd)
    ensures
        end matches WorkerEnd::Returned(Ok(())) ==> execution::worker_result(end) is Ok,
        end matches WorkerEnd::Returned(Err(error)) ==> execution::worker_result(end) == Err::<
            (),
            ParticipantFault,
        >(error@),
        end matches WorkerEnd::Failed(message) ==> execution::worker_result(end) == Err::<
            (),
            ParticipantFault,
        >(ParticipantFault::WorkerJoin(message@)),
        end is Absent ==> execution::worker_result(end) is Ok,
{
}

} // verus!
