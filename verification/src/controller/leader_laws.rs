//! What holds of a leader from one event to the next.
use crate::controller::error::RuntimeFault;
use crate::controller::leader::{
    LeaderActionView, LeaderEventView, LeaderRunResult, LeaderStageView, LeaderView, QuestionView,
};
use crate::controller::pending::ReconcileMode;
use crate::controller::published;
use crate::controller::reconcile;
use crate::controller::records::DecodedView;
use crate::controller::runtime;
use crate::controller::runtime::ControllerStateView;
use crate::coordination::etcd::error::CoordinationFault;
use crate::coordination::etcd::keys;
use crate::coordination::etcd::snapshot::CoordinationView;
use crate::coordination::etcd::watch;
use vstd::prelude::*;

verus! {

/// A live instance is known under another session.
pub open spec fn came_back(
    known: Map<Seq<char>, u64>,
    live: Map<Seq<char>, (Seq<char>, u64)>,
    instance: Seq<char>,
) -> bool {
    known.dom().contains(instance) && live.dom().contains(instance) && known[instance]
        != live[instance].1
}

/// A reconciliation is for a replaced session exactly where a live instance is
/// known under another session. Afterwards every live instance is known under
/// its session, and every other one as before.
pub proof fn replaced_sessions_are_noticed(
    v: ControllerStateView,
    s: CoordinationView,
    instance: Seq<char>,
)
    ensures
        came_back(v.known, s.participants.live, instance) ==> v.mode(s)
            == ReconcileMode::SessionReplacement,
        (forall|i: Seq<char>| !#[trigger] came_back(v.known, s.participants.live, i)) ==> v.mode(s)
            == ReconcileMode::Normal,
        v.remember(s).known.dom().contains(instance) <==> v.known.dom().contains(instance)
            || s.participants.live.dom().contains(instance),
        s.participants.live.dom().contains(instance) ==> v.remember(s).known[instance]
            == s.participants.live[instance].1,
        v.known.dom().contains(instance) && !s.participants.live.dom().contains(instance)
            ==> v.remember(s).known[instance] == v.known[instance],
        v.remember(s).pending == v.pending,
        v.remember(s).authoritative == v.authoritative,
        v.observe(s.revision).known == v.known,
        v.observe(s.revision).pending == v.pending,
        v.observe(s.revision).authoritative == v.authoritative || v.observe(
            s.revision,
        ).authoritative == s.revision,
{
    if came_back(v.known, s.participants.live, instance) {
        assert(s.participants.live.dom().contains(instance));
    }
    if forall|i: Seq<char>| !#[trigger] came_back(v.known, s.participants.live, i) {
        assert forall|i: Seq<char>| #[trigger]
            s.participants.live.dom().contains(i) && v.known.dom().contains(i) implies v.known[i]
            == s.participants.live[i].1 by {
            assert(!came_back(v.known, s.participants.live, i));
        }
    }
}

/// Live and state records are input, and so are all metadata but the outputs
/// of the controller and the session sequence. Any other key is none.
pub proof fn input_is_recognised(name: Seq<char>, key: Seq<char>)
    ensures
        "live/"@.is_prefix_of(key) ==> runtime::controller_input(key),
        "current-state/"@.is_prefix_of(key) ==> runtime::controller_input(key),
        runtime::controller_input("metadata/"@ + keys::segment_of(name)) <==> !(
        "controller/output/"@.is_prefix_of(name) || name == "internal/session-sequence"@),
        !"live/"@.is_prefix_of(key) && !"current-state/"@.is_prefix_of(key)
            && !"metadata/"@.is_prefix_of(key) ==> !runtime::controller_input(key),
{
    let named = "metadata/"@ + keys::segment_of(name);
    reveal_strlit("metadata/");
    reveal_strlit("live/");
    reveal_strlit("current-state/");
    assert(named[0] == 'm');
    if "live/"@.is_prefix_of(named) {
        assert(named.subrange(0, 5)[0] == named[0]);
    }
    if "current-state/"@.is_prefix_of(named) {
        assert(named.subrange(0, 14)[0] == named[0]);
    }
    assert("metadata/"@.is_prefix_of(named)) by {
        assert(named.subrange(0, 9) =~= "metadata/"@);
    }
    assert(named.skip(9) =~= keys::segment_of(name));
    keys::segment_round_trip(name);
}

/// Every message of the queue has an identifier.
pub open spec fn identified(queue: Seq<published::PublishedView>) -> bool {
    forall|k: int| 0 <= k < queue.len() ==> (#[trigger] queue[k]).message_id.len() > 0
}

/// The queue that was read: none where it is missing.
pub open spec fn queue_is(
    decoded: DecodedView<Seq<published::PublishedView>>,
    queue: Seq<published::PublishedView>,
) -> bool {
    match decoded {
        DecodedView::Missing => queue.len() == 0,
        DecodedView::Malformed(_) => false,
        DecodedView::Value(messages) => messages == queue && identified(messages),
    }
}

/// A queue is used where it is missing or every message has an identifier, and
/// refused otherwise.
pub proof fn queues_need_identifiers(decoded: DecodedView<Seq<published::PublishedView>>)
    ensures
        match decoded {
            DecodedView::Missing => runtime::queue_of(decoded) == Ok::<
                Seq<published::PublishedView>,
                Seq<char>,
            >(Seq::empty()),
            DecodedView::Malformed(message) => runtime::queue_of(decoded) == Err::<
                Seq<published::PublishedView>,
                Seq<char>,
            >(message),
            DecodedView::Value(messages) => if identified(messages) {
                runtime::queue_of(decoded) == Ok::<Seq<published::PublishedView>, Seq<char>>(
                    messages,
                )
            } else {
                runtime::queue_of(decoded) == Err::<Seq<published::PublishedView>, Seq<char>>(
                    "pending transition is missing message identity"@,
                )
            },
        },
{
}

/// A leader that has opened its watch reconciles the snapshot at once, as a
/// starting controller, with the queue that was read. It knows the sessions and
/// the input of the snapshot.
pub proof fn opened_leaders_start(
    v: LeaderView,
    current: reconcile::SnapshotView,
    queue: Seq<published::PublishedView>,
)
    requires
        v.stage == LeaderStageView::Asking(QuestionView::Open),
        queue_is(current.1, queue),
    ensures
        ({
            let after = v.next(LeaderEventView::Read(Ok(current)));
            &&& after.1 == LeaderActionView::Reconcile(current.0, queue, ReconcileMode::Startup)
            &&& after.0.stage is Starting
            &&& after.0.held == Some(current)
            &&& after.0.state matches Some(state) && state.pending == queue && state.authoritative
                == current.0.authoritative && (forall|i: Seq<char>| #[trigger]
                state.known.dom().contains(i) <==> current.0.participants.live.dom().contains(i))
                && (forall|i: Seq<char>| #[trigger]
                state.known.dom().contains(i) ==> state.known[i]
                    == current.0.participants.live[i].1)
        }),
{
    queues_need_identifiers(current.1);
    if queue.len() == 0 {
        assert(queue =~= Seq::empty());
    }
}

/// A newer snapshot is reconciled with the queue that was read, and counts as
/// at least the newest input that the leader has heard of.
pub proof fn read_snapshots_are_reconciled(
    v: LeaderView,
    question: QuestionView,
    current: reconcile::SnapshotView,
    queue: Seq<published::PublishedView>,
)
    requires
        v.stage == LeaderStageView::Asking(question),
        question is Latest || question is Reopen,
        v.state is Some,
        queue_is(current.1, queue),
    ensures
        ({
            let after = v.next(LeaderEventView::Read(Ok(current)));
            let before = v.state->0;
            let heard = after.0.state->0.authoritative;
            &&& after.1 matches LeaderActionView::Reconcile(s, pending, mode) && {
                &&& s == (CoordinationView { authoritative: heard, ..current.0 })
                &&& pending == queue
                &&& mode == before.mode(current.0)
            }
            &&& after.0.stage is Reconciling
            &&& after.0.held == Some(current)
            &&& after.0.state matches Some(state) && state.pending == queue && state.known
                == before.known
            &&& heard >= before.authoritative
            &&& heard >= current.0.authoritative
            &&& question is Reopen ==> heard >= current.0.revision
            &&& heard == before.authoritative || heard == current.0.authoritative || (
            question is Reopen && heard == current.0.revision)
        }),
{
    queues_need_identifiers(current.1);
    if queue.len() == 0 {
        assert(queue =~= Seq::empty());
    }
}

/// A question that the store cannot answer for the moment is asked again after
/// a pause. A controller that was replaced stops, and any other fault ends the
/// leader with it.
pub proof fn failed_questions(
    v: LeaderView,
    question: QuestionView,
    fault: CoordinationFault,
    recording: bool,
)
    requires
        v.stage == LeaderStageView::Asking(question),
        recording <==> question is Expiry,
    ensures
        ({
            let after = if recording {
                v.next(LeaderEventView::Recorded(Err(fault)))
            } else {
                v.next(LeaderEventView::Read(Err(fault)))
            };
            &&& after.0.state == v.state && after.0.held == v.held
            &&& fault is Etcd ==> after.1 is Pause && after.0.stage == LeaderStageView::AskingAgain(
                question,
            ) && after.0.next(LeaderEventView::Elapsed) == (v, LeaderActionView::Ask(question))
            &&& fault is StaleController ==> after.1 == LeaderActionView::Finish(
                Ok::<LeaderRunResult, RuntimeFault>(LeaderRunResult::LeadershipLost),
            )
            &&& !(fault is Etcd) && !(fault is StaleController) ==> after.1
                == LeaderActionView::Finish(
                Err::<LeaderRunResult, RuntimeFault>(
                    RuntimeFault { message: fault.text(), transient: false },
                ),
            )
        }),
{
}

/// A change of the input is heard of and read. The end of a lease is recorded
/// as input before it is read. Any other change is passed over, and where the
/// watch lost its history a new one is opened.
pub proof fn changes_are_read(v: LeaderView, event: watch::EventView, revision: i64)
    requires
        v.stage is Watching,
        v.state is Some,
    ensures
        ({
            let after = v.next(LeaderEventView::Watched(Ok(event)));
            let expired = event.kind is Delete && ("live/"@.is_prefix_of(event.key)
                || "current-state/"@.is_prefix_of(event.key));
            &&& after.0.held == v.held
            &&& !runtime::controller_input(event.key) ==> after == (v, LeaderActionView::Watch)
            &&& runtime::controller_input(event.key) && expired ==> after == (
                LeaderView {
                    stage: LeaderStageView::Asking(QuestionView::Expiry(event.revision)),
                    ..v
                },
                LeaderActionView::Ask(QuestionView::Expiry(event.revision)),
            )
            &&& runtime::controller_input(event.key) && !expired ==> {
                &&& after.1 == LeaderActionView::Ask(QuestionView::Latest)
                &&& after.0.stage == LeaderStageView::Asking(QuestionView::Latest)
                &&& after.0.state->0.authoritative >= event.revision
            }
        }),
        v.next(LeaderEventView::Watched(Err(watch::WatchFault::Compacted { revision }))) == (
            LeaderView { stage: LeaderStageView::Asking(QuestionView::Reopen), ..v },
            LeaderActionView::Ask(QuestionView::Reopen),
        ),
        v.next(LeaderEventView::Elapsed) == (
            LeaderView { stage: LeaderStageView::Asking(QuestionView::Latest), ..v },
            LeaderActionView::Ask(QuestionView::Latest),
        ),
{
}

/// A watch that was cut off is resumed and waited for again. Any other fault of
/// it ends the leader.
pub proof fn cut_watches_are_resumed(v: LeaderView, fault: watch::WatchFault)
    requires
        !(fault is Compacted),
    ensures
        v.stage is Watching && (fault is Disconnected || (fault is Coordination
            && fault->Coordination_0 is Etcd)) ==> {
            let after = v.next(LeaderEventView::Watched(Err(fault)));
            &&& after == (
                LeaderView { stage: LeaderStageView::Resuming, ..v },
                LeaderActionView::Resume,
            )
            &&& after.0.next(LeaderEventView::Resumed(Ok(()))) == (v, LeaderActionView::Watch)
        },
        v.stage is Watching && fault is Coordination && !(fault->Coordination_0 is Etcd) ==> v.next(
            LeaderEventView::Watched(Err(fault)),
        ).1 == LeaderActionView::Finish(
            Err::<LeaderRunResult, RuntimeFault>(
                RuntimeFault { message: fault.text(), transient: false },
            ),
        ),
        v.stage is Resuming ==> (v.next(LeaderEventView::Resumed(Err(fault))).1 matches
            LeaderActionView::Finish(Err(f)) && f.message == fault.text()),
{
}

/// The recorded end of a lease is heard of and read.
pub proof fn recorded_expiries_are_read(v: LeaderView, revision: i64)
    requires
        v.stage == LeaderStageView::Asking(QuestionView::Expiry(revision)),
        v.state is Some,
    ensures
        ({
            let after = v.next(LeaderEventView::Recorded(Ok(())));
            &&& after.1 == LeaderActionView::Ask(QuestionView::Latest)
            &&& after.0.stage == LeaderStageView::Asking(QuestionView::Latest)
            &&& after.0.held == v.held
            &&& after.0.state->0.authoritative >= revision
        }),
{
}

/// A reconciliation leaves its queue. The first one that succeeds is followed
/// by the ready callback and any other by the wait for changes, and only the
/// latter remembers the sessions it was made for.
pub proof fn reconciled_leaders_wait(v: LeaderView, pending: Seq<published::PublishedView>)
    requires
        v.stage is Starting || v.stage is Reconciling,
        v.state is Some,
        v.held is Some,
    ensures
        ({
            let after = v.next(LeaderEventView::Reconciled(Ok(()), pending));
            &&& after.0.held == v.held
            &&& after.0.state->0.pending == pending
            &&& after.0.state->0.authoritative == v.state->0.authoritative
            &&& v.stage is Starting ==> after.1 is CallReady && after.0.stage is Ready
                && after.0.state->0.known == v.state->0.known && after.0.next(
                LeaderEventView::Called(Ok(())),
            ) == (
                LeaderView { stage: LeaderStageView::Watching, ..after.0 },
                LeaderActionView::Watch,
            )
            &&& v.stage is Reconciling ==> after.1 is Watch && after.0.stage is Watching
                && after.0.state->0.known == v.state->0.remember(v.held.unwrap().0).known
        }),
{
}

/// A reconciliation that fails for the moment leaves its queue and is tried
/// again after a pause. One that was refused for lost authority or for newer
/// input ends the leadership, and any other fault ends the leader with it.
pub proof fn failed_reconciliations(
    v: LeaderView,
    pending: Seq<published::PublishedView>,
    fault: RuntimeFault,
)
    requires
        v.stage is Starting || v.stage is Reconciling,
        v.state is Some,
        v.held is Some,
    ensures
        ({
            let after = v.next(LeaderEventView::Reconciled(Err(fault), pending));
            let refused = fault.message == CoordinationFault::StaleController.text()
                || fault.message == CoordinationFault::StaleRevision.text();
            &&& after.0.state->0.pending == pending
            &&& after.0.state->0.known == v.state->0.known
            &&& refused ==> after.1 == LeaderActionView::Finish(
                Ok::<LeaderRunResult, RuntimeFault>(LeaderRunResult::LeadershipLost),
            )
            &&& !refused && !fault.transient ==> after.1 == LeaderActionView::Finish(
                Err::<LeaderRunResult, RuntimeFault>(fault),
            )
            &&& !refused && fault.transient && v.stage is Starting ==> {
                &&& after.1 is Pause
                &&& after.0.next(LeaderEventView::Elapsed).1 == LeaderActionView::Reconcile(
                    v.held.unwrap().0,
                    pending,
                    ReconcileMode::Startup,
                )
                &&& after.0.next(LeaderEventView::Elapsed).0.stage is Starting
            }
            &&& !refused && fault.transient && v.stage is Reconciling ==> {
                &&& after.1 is Pause
                &&& after.0.stage is ReconcilingAgain
                &&& after.0.held == v.held
            }
        }),
{
}

/// A reconciliation that is tried again reads nothing anew.
pub proof fn reconciliations_are_tried_again(
    v: LeaderView,
    queue: Seq<published::PublishedView>,
)
    requires
        v.stage is ReconcilingAgain,
        v.state is Some,
        v.held is Some,
        queue_is(v.held.unwrap().1, queue),
    ensures
        ({
            let after = v.next(LeaderEventView::Elapsed);
            let heard = after.0.state->0.authoritative;
            &&& after.1 == LeaderActionView::Reconcile(
                CoordinationView { authoritative: heard, ..v.held.unwrap().0 },
                queue,
                v.state->0.mode(v.held.unwrap().0),
            )
            &&& heard >= v.state->0.authoritative && heard >= v.held.unwrap().0.authoritative
            &&& after.0.stage is Reconciling
        }),
{
    queues_need_identifiers(v.held.unwrap().1);
    if queue.len() == 0 {
        assert(queue =~= Seq::empty());
    }
}

/// A leader that waits for the store, for a change or for the end of a pause
/// stops when it is told to or loses its leadership. One that reconciles or
/// calls back goes on.
pub proof fn leaders_stop_between_their_work(v: LeaderView)
    ensures
        !(v.stage is Starting || v.stage is Reconciling || v.stage is Ready || v.stage is Over)
            ==> v.next(LeaderEventView::Shutdown).1 == LeaderActionView::Finish(
            Ok::<LeaderRunResult, RuntimeFault>(LeaderRunResult::Shutdown),
        ) && v.next(LeaderEventView::LeadershipLost).1 == LeaderActionView::Finish(
            Ok::<LeaderRunResult, RuntimeFault>(LeaderRunResult::LeadershipLost),
        ),
        v.stage is Starting || v.stage is Reconciling || v.stage is Ready ==> v.next(
            LeaderEventView::Shutdown,
        ) == (v, LeaderActionView::Nothing) && v.next(LeaderEventView::LeadershipLost) == (
            v,
            LeaderActionView::Nothing,
        ),
{
}

} // verus!
