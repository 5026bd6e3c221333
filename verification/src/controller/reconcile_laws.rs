//! What holds of a reconciliation from one answer to the next.
use crate::controller::error::RuntimeFault;
use crate::controller::leader_laws;
use crate::controller::published;
use crate::controller::reconcile::{
    PlannedView, ReconcileActionView, ReconcileStageView, ReconcileView, SnapshotView,
};
use crate::coordination::etcd::error::CoordinationFault;
use crate::coordination::etcd::snapshot::CoordinationView;
use crate::text;
use vstd::prelude::*;

verus! {

/// The metadata holds the value.
pub open spec fn stored(s: CoordinationView, key: Seq<char>, value: Seq<char>) -> bool {
    s.metadata.dom().contains(key) && s.metadata[key].value == Some(value)
}

/// The snapshot holds the outputs, and they were made for its input or a newer
/// one.
pub open spec fn already_published(s: CoordinationView, planned: PlannedView) -> bool {
    &&& stored(s, "controller/output/external-view"@, planned.external_json)
    &&& stored(s, "controller/output/pending-transitions"@, planned.pending_json)
    &&& s.metadata.dom().contains("controller/output/processed-revision"@)
    &&& s.metadata["controller/output/processed-revision"@].value matches Some(value)
        && text::signed_number(value) matches Some(n) && s.authoritative <= n <= i64::MAX
}

/// Outputs are checked against the newest input before they are published.
/// Where they cannot be planned the reconciliation ends.
pub proof fn planned_outputs_are_checked(v: ReconcileView, planned: PlannedView, fault: RuntimeFault)
    ensures
        v.planned(Ok(planned)) == (
            ReconcileView { stage: ReconcileStageView::Checking(planned), ..v },
            ReconcileActionView::Snapshot,
        ),
        v.planned(Err(fault)).1 == ReconcileActionView::Finish(Err::<(), RuntimeFault>(fault)),
        v.planned(Err(fault)).0.pending == v.pending,
{
}

/// Outputs are planned again, with the queue that was read, where the input has
/// become newer, and always after a publication was refused for that.
pub proof fn newer_input_is_planned(
    v: ReconcileView,
    current: SnapshotView,
    queue: Seq<published::PublishedView>,
)
    requires
        v.stage is Refreshing || ((v.stage is Checking || v.stage is Rechecking)
            && current.0.authoritative > v.snapshot.authoritative),
        leader_laws::queue_is(current.1, queue),
    ensures
        v.read(Ok(current)) == (
            ReconcileView {
                snapshot: current.0,
                pending: queue,
                stage: ReconcileStageView::Planning,
                ..v
            },
            ReconcileActionView::Plan,
        ),
{
    leader_laws::queues_need_identifiers(current.1);
    if queue.len() == 0 {
        assert(queue =~= Seq::empty());
    }
}

/// Outputs of the newest input are published behind a fence for that input and
/// for the live sessions, and over the queue that the snapshot holds. They are
/// not where the snapshot holds them already.
pub proof fn current_outputs_are_published(
    v: ReconcileView,
    planned: PlannedView,
    current: SnapshotView,
)
    requires
        v.stage == ReconcileStageView::Checking(planned),
        current.0.authoritative <= v.snapshot.authoritative,
    ensures
        already_published(v.snapshot, planned) ==> v.read(Ok(current)) == (
            ReconcileView { pending: planned.pending, stage: ReconcileStageView::Over, ..v },
            ReconcileActionView::Finish(Ok(())),
        ),
        !already_published(v.snapshot, planned) ==> {
            let after = v.read(Ok(current));
            let key = "controller/output/pending-transitions"@;
            &&& after.0 == (ReconcileView {
                stage: ReconcileStageView::Publishing(planned),
                ..v
            })
            &&& after.1 matches ReconcileActionView::Publish(fence, external, pending, revision) && {
                &&& fence.namespace == v.authority.namespace
                &&& fence.controller == v.authority.controller
                &&& fence.lease == v.authority.lease
                &&& fence.observed == v.snapshot.authoritative
                &&& forall|i: Seq<char>| #[trigger]
                    fence.sessions.dom().contains(i) <==> v.snapshot.participants.live.dom().contains(
                        i,
                    )
                &&& forall|i: Seq<char>| #[trigger]
                    fence.sessions.dom().contains(i) ==> fence.sessions[i]
                        == v.snapshot.participants.live[i].1
                &&& external == planned.external_json
                &&& pending == planned.pending_json
                &&& revision is Some <==> v.snapshot.metadata.dom().contains(key)
                &&& revision is Some ==> revision == Some(v.snapshot.metadata[key].revision)
            }
        },
{
    let s = v.snapshot;
    let key = "controller/output/processed-revision"@;
    if s.metadata.dom().contains(key) && s.metadata[key].value is Some && text::signed_number(
        s.metadata[key].value->0,
    ) is Some {
        let n = text::signed_number(s.metadata[key].value->0)->0;
        assert(s.authoritative >= i64::MIN);
    }
}

/// Published outputs are final once no newer input has come.
pub proof fn published_outputs_stay(
    v: ReconcileView,
    planned: PlannedView,
    current: SnapshotView,
    revision: i64,
)
    ensures
        v.stage == ReconcileStageView::Publishing(planned) ==> v.published(Ok(revision)) == (
            ReconcileView { stage: ReconcileStageView::Rechecking(planned), ..v },
            ReconcileActionView::Snapshot,
        ),
        v.stage == ReconcileStageView::Rechecking(planned) && current.0.authoritative
            <= v.snapshot.authoritative ==> v.read(Ok(current)) == (
            ReconcileView { pending: planned.pending, stage: ReconcileStageView::Over, ..v },
            ReconcileActionView::Finish(Ok(())),
        ),
{
}

/// A publication that is refused for newer input leads to a new snapshot. Any
/// other fault of the store ends the reconciliation with it.
pub proof fn refused_publications_are_refreshed(
    v: ReconcileView,
    planned: PlannedView,
    fault: CoordinationFault,
)
    requires
        v.stage == ReconcileStageView::Publishing(planned),
    ensures
        fault is StaleRevision ==> v.published(Err(fault)) == (
            ReconcileView { stage: ReconcileStageView::Refreshing, ..v },
            ReconcileActionView::Snapshot,
        ),
        !(fault is StaleRevision) ==> v.published(Err(fault)).1 == ReconcileActionView::Finish(
            Err::<(), RuntimeFault>(
                RuntimeFault { message: fault.text(), transient: fault is Etcd },
            ),
        ),
        v.read(Err(fault)).1 == ReconcileActionView::Finish(
            Err::<(), RuntimeFault>(
                RuntimeFault { message: fault.text(), transient: fault is Etcd },
            ),
        ),
{
}

} // verus!
