//! One reconciliation: outputs are planned, checked against the newest input,
//! and published behind a fence.
use crate::controller::error::{ControllerRuntimeError, RuntimeFault};
use crate::controller::pending::ReconcileMode;
use crate::controller::planning::ControllerOutputs;
use crate::controller::published::{self, PublishedTransition};
use crate::controller::records::{self, Decoded};
use crate::controller::runtime;
use crate::controller::view_json;
use crate::coordination::etcd::error::CoordinationFault;
use crate::coordination::etcd::snapshot;
use crate::coordination::etcd::{CoordinationError, CoordinationSnapshot, Revision};
use crate::election::authority;
use crate::election::{ControllerAuthority, ControllerCommitFence};
use crate::ordered::Key;
use vstd::prelude::*;
use vstd::string::*;

verus! {

/// Planned outputs in their stored form, with the queue they hold.
pub struct PlannedOutputs {
    pending: Vec<PublishedTransition>,
    external_json: String,
    pending_json: String,
}

/// Planned outputs in their stored form.
#[verifier::ext_equal]
pub struct PlannedView {
    pub pending: Seq<published::PublishedView>,
    pub external_json: Seq<char>,
    pub pending_json: Seq<char>,
}

impl View for PlannedOutputs {
    type V = PlannedView;

    closed spec fn view(&self) -> PlannedView {
        PlannedView {
            pending: self.pending.deep_view(),
            external_json: self.external_json@,
            pending_json: self.pending_json@,
        }
    }
}

impl PlannedOutputs {
    /// The stored form of a controller's outputs, given that of their queue.
    /// The external view is read back as the view that was planned.
    pub fn new(outputs: ControllerOutputs, pending_json: String) -> (r: Result<
        PlannedOutputs,
        ControllerRuntimeError,
    >)
        ensures
            r matches Ok(planned) && planned@ == (PlannedView {
                pending: outputs.pending.deep_view(),
                external_json: view_json::view_json(view_json::view_rows(outputs.external_view@)),
                pending_json: pending_json@,
            }) && view_json::reads_as(
                planned@.external_json,
                view_json::view_rows(outputs.external_view@),
            ),
    {
        match view_json::external_view_json(&outputs.external_view) {
            Ok(external_json) => Ok(
                PlannedOutputs { pending: outputs.pending, external_json, pending_json },
            ),
            Err(error) => Err(error),
        }
    }
}

/// A snapshot with its decoded queue.
pub type Snapshot = (CoordinationSnapshot, Decoded<Vec<PublishedTransition>>);

/// A snapshot with its decoded queue.
pub type SnapshotView = (
    snapshot::CoordinationView,
    records::DecodedView<Seq<published::PublishedView>>,
);

/// What came back of a read of the newest snapshot.
pub open spec fn snapshot_result(r: Result<Snapshot, CoordinationError>) -> Result<
    SnapshotView,
    CoordinationFault,
> {
    match r {
        Ok(current) => Ok((current.0@, current.1@)),
        Err(error) => Err(error@),
    }
}

/// Where a reconciliation stands.
pub enum ReconcileStage {
    /// Outputs are being planned.
    Planning,
    /// The newest input is being read before the outputs are published.
    Checking(PlannedOutputs),
    /// The outputs are being published.
    Publishing(PlannedOutputs),
    /// The newest input is being read after the outputs were published.
    Rechecking(PlannedOutputs),
    /// The publication was refused for stale input: the newest input is being
    /// read.
    Refreshing,
    /// The reconciliation is over.
    Over,
}

/// Where a reconciliation stands.
pub enum ReconcileStageView {
    Planning,
    Checking(PlannedView),
    Publishing(PlannedView),
    Rechecking(PlannedView),
    Refreshing,
    Over,
}

impl View for ReconcileStage {
    type V = ReconcileStageView;

    open spec fn view(&self) -> ReconcileStageView {
        match self {
            ReconcileStage::Planning => ReconcileStageView::Planning,
            ReconcileStage::Checking(planned) => ReconcileStageView::Checking(planned@),
            ReconcileStage::Publishing(planned) => ReconcileStageView::Publishing(planned@),
            ReconcileStage::Rechecking(planned) => ReconcileStageView::Rechecking(planned@),
            ReconcileStage::Refreshing => ReconcileStageView::Refreshing,
            ReconcileStage::Over => ReconcileStageView::Over,
        }
    }
}

/// What a reconciliation does next.
pub enum ReconcileAction {
    /// Plan the outputs of the snapshot with the pending messages.
    Plan,
    /// Read the newest snapshot.
    Snapshot,
    /// Publish the outputs behind the fence, while the queue still has this
    /// revision.
    Publish(ControllerCommitFence, String, String, Option<Revision>),
    /// The reconciliation is over. The pending messages are those of the
    /// reconciliation.
    Finish(Result<(), ControllerRuntimeError>),
}

/// What a reconciliation does next.
pub enum ReconcileActionView {
    Plan,
    Snapshot,
    Publish(authority::FenceView, Seq<char>, Seq<char>, Option<i64>),
    Finish(Result<(), RuntimeFault>),
}

impl View for ReconcileAction {
    type V = ReconcileActionView;

    open spec fn view(&self) -> ReconcileActionView {
        match self {
            ReconcileAction::Plan => ReconcileActionView::Plan,
            ReconcileAction::Snapshot => ReconcileActionView::Snapshot,
            ReconcileAction::Publish(
                fence,
                external,
                pending,
                revision,
            ) => ReconcileActionView::Publish(fence@, external@, pending@, revision.deep_view()),
            ReconcileAction::Finish(Ok(())) => ReconcileActionView::Finish(Ok(())),
            ReconcileAction::Finish(Err(error)) => ReconcileActionView::Finish(Err(error@)),
        }
    }
}

/// A reconciliation.
pub struct ReconcileView {
    pub authority: authority::AuthorityView,
    pub mode: ReconcileMode,
    pub snapshot: snapshot::CoordinationView,
    pub pending: Seq<published::PublishedView>,
    pub stage: ReconcileStageView,
}

impl ReconcileView {
    pub open spec fn at(self, stage: ReconcileStageView) -> ReconcileView {
        ReconcileView { stage, ..self }
    }

    /// The revision of the queue in the snapshot.
    pub open spec fn queue_revision(self) -> Option<i64> {
        let key = "controller/output/pending-transitions"@;
        if self.snapshot.metadata.dom().contains(key) {
            Some(self.snapshot.metadata[key].revision)
        } else {
            None
        }
    }

    /// Plan again with a newer snapshot and its queue.
    pub open spec fn replan(
        self,
        current: snapshot::CoordinationView,
        queue: records::DecodedView<Seq<published::PublishedView>>,
    ) -> (ReconcileView, ReconcileActionView) {
        match runtime::queue_of(queue) {
            Err(message) => (
                ReconcileView { snapshot: current, stage: ReconcileStageView::Over, ..self },
                ReconcileActionView::Finish(Err(RuntimeFault::of_message(message))),
            ),
            Ok(pending) => (
                ReconcileView {
                    snapshot: current,
                    pending,
                    stage: ReconcileStageView::Planning,
                    ..self
                },
                ReconcileActionView::Plan,
            ),
        }
    }

    /// The outputs stand.
    pub open spec fn done(self, planned: PlannedView) -> (ReconcileView, ReconcileActionView) {
        (
            ReconcileView { pending: planned.pending, stage: ReconcileStageView::Over, ..self },
            ReconcileActionView::Finish(Ok(())),
        )
    }

    /// The reconciliation failed. The pending messages stay as they are.
    pub open spec fn failed(self, fault: RuntimeFault) -> (ReconcileView, ReconcileActionView) {
        (self.at(ReconcileStageView::Over), ReconcileActionView::Finish(Err(fault)))
    }

    /// What follows planned outputs.
    pub open spec fn planned(self, result: Result<PlannedView, RuntimeFault>) -> (
        ReconcileView,
        ReconcileActionView,
    ) {
        match result {
            Ok(planned) => (
                self.at(ReconcileStageView::Checking(planned)),
                ReconcileActionView::Snapshot,
            ),
            Err(fault) => self.failed(fault),
        }
    }

    /// What follows a read of the newest snapshot.
    pub open spec fn read(self, result: Result<SnapshotView, CoordinationFault>) -> (
        ReconcileView,
        ReconcileActionView,
    ) {
        match result {
            Ok(current) => self.read_current(current.0, current.1),
            Err(fault) => self.failed(RuntimeFault::of_coordination(fault)),
        }
    }

    /// What follows the newest snapshot. Newer input is planned again. Outputs
    /// that are published already are not published twice.
    pub open spec fn read_current(
        self,
        current: snapshot::CoordinationView,
        queue: records::DecodedView<Seq<published::PublishedView>>,
    ) -> (ReconcileView, ReconcileActionView) {
        match self.stage {
            ReconcileStageView::Checking(planned) => if current.authoritative
                > self.snapshot.authoritative {
                self.replan(current, queue)
            } else if runtime::outputs_are(
                self.snapshot,
                planned.external_json,
                planned.pending_json,
            ) {
                self.done(planned)
            } else {
                (
                    self.at(ReconcileStageView::Publishing(planned)),
                    ReconcileActionView::Publish(
                        self.authority.fence(
                            self.snapshot.authoritative,
                            runtime::sessions_of(self.snapshot.participants.live),
                        ),
                        planned.external_json,
                        planned.pending_json,
                        self.queue_revision(),
                    ),
                )
            },
            ReconcileStageView::Rechecking(planned) => if current.authoritative
                > self.snapshot.authoritative {
                self.replan(current, queue)
            } else {
                self.done(planned)
            },
            _ => self.replan(current, queue),
        }
    }

    /// What follows the publication.
    pub open spec fn published(self, result: Result<i64, CoordinationFault>) -> (
        ReconcileView,
        ReconcileActionView,
    ) {
        match (self.stage, result) {
            (ReconcileStageView::Publishing(planned), Ok(_)) => (
                self.at(ReconcileStageView::Rechecking(planned)),
                ReconcileActionView::Snapshot,
            ),
            (_, Err(CoordinationFault::StaleRevision)) => (
                self.at(ReconcileStageView::Refreshing),
                ReconcileActionView::Snapshot,
            ),
            (_, Err(fault)) => self.failed(RuntimeFault::of_coordination(fault)),
            (_, Ok(_)) => (self.at(ReconcileStageView::Refreshing), ReconcileActionView::Snapshot),
        }
    }
}

/// Outputs are published only behind the fence of the input that they were
/// planned with, and only while that input is the newest that was read.
pub proof fn publication_matches_its_input(
    v: ReconcileView,
    current: snapshot::CoordinationView,
    queue: records::DecodedView<Seq<published::PublishedView>>,
)
    requires
        v.read_current(current, queue).1 is Publish,
    ensures
        current.authoritative <= v.snapshot.authoritative,
        v.stage matches ReconcileStageView::Checking(planned) && v.read_current(current, queue).1
            == ReconcileActionView::Publish(
            v.authority.fence(
                v.snapshot.authoritative,
                runtime::sessions_of(v.snapshot.participants.live),
            ),
            planned.external_json,
            planned.pending_json,
            v.queue_revision(),
        ),
{
}

/// A reconciliation ends well only when no newer input was read: its outputs
/// were published already, or have just been published.
pub proof fn reconciliation_ends_current(
    v: ReconcileView,
    current: snapshot::CoordinationView,
    queue: records::DecodedView<Seq<published::PublishedView>>,
)
    requires
        v.read_current(current, queue).1 == ReconcileActionView::Finish(Ok::<(), RuntimeFault>(())),
    ensures
        current.authoritative <= v.snapshot.authoritative,
        match v.stage {
            ReconcileStageView::Checking(planned) => runtime::outputs_are(
                v.snapshot,
                planned.external_json,
                planned.pending_json,
            ),
            ReconcileStageView::Rechecking(_) => true,
            _ => false,
        },
{
}

/// A reconciliation.
pub struct Reconciliation {
    authority: ControllerAuthority,
    mode: ReconcileMode,
    snapshot: CoordinationSnapshot,
    pending: Vec<PublishedTransition>,
    stage: ReconcileStage,
}

impl View for Reconciliation {
    type V = ReconcileView;

    closed spec fn view(&self) -> ReconcileView {
        ReconcileView {
            authority: self.authority@,
            mode: self.mode,
            snapshot: self.snapshot@,
            pending: self.pending.deep_view(),
            stage: self.stage@,
        }
    }
}

impl Reconciliation {
    /// Begin to reconcile a snapshot: its outputs are planned first.
    pub fn reconcile(
        snapshot: CoordinationSnapshot,
        pending: Vec<PublishedTransition>,
        mode: ReconcileMode,
        authority: ControllerAuthority,
    ) -> (r: Reconciliation)
        ensures
            r@ == (ReconcileView {
                authority: authority@,
                mode,
                snapshot: snapshot@,
                pending: pending.deep_view(),
                stage: ReconcileStageView::Planning,
            }),
    {
        Reconciliation { authority, mode, snapshot, pending, stage: ReconcileStage::Planning }
    }

    /// The snapshot to plan with.
    pub fn snapshot(&self) -> (r: &CoordinationSnapshot)
        ensures
            r@ == self@.snapshot,
    {
        &self.snapshot
    }

    /// The pending messages to plan with.
    pub fn pending(&self) -> (r: &Vec<PublishedTransition>)
        ensures
            r.deep_view() == self@.pending,
    {
        &self.pending
    }

    /// How to plan.
    pub fn mode(&self) -> (r: ReconcileMode)
        ensures
            r == self@.mode,
    {
        self.mode
    }

    /// Give up the pending messages.
    pub fn into_pending(self) -> (r: Vec<PublishedTransition>)
        ensures
            r.deep_view() == self@.pending,
    {
        self.pending
    }

    /// Go on with the planned outputs.
    pub fn on_planned(&mut self, result: Result<PlannedOutputs, ControllerRuntimeError>) -> (r:
        ReconcileAction)
        ensures
            (final(self)@, r@) == old(self)@.planned(
                match result {
                    Ok(planned) => Ok(planned@),
                    Err(error) => Err(error@),
                },
            ),
    {
        match result {
            Ok(planned) => {
                self.stage = ReconcileStage::Checking(planned);
                ReconcileAction::Snapshot
            },
            Err(error) => {
                self.stage = ReconcileStage::Over;
                ReconcileAction::Finish(Err(error))
            },
        }
    }

    fn replan(
        &mut self,
        current: CoordinationSnapshot,
        queue: &Decoded<Vec<PublishedTransition>>,
    ) -> (r: ReconcileAction)
        ensures
            (final(self)@, r@) == old(self)@.replan(current@, queue@),
    {
        self.snapshot = current;
        match runtime::read_pending(queue) {
            Err(error) => {
                self.stage = ReconcileStage::Over;
                ReconcileAction::Finish(Err(error))
            },
            Ok(pending) => {
                self.pending = pending;
                self.stage = ReconcileStage::Planning;
                ReconcileAction::Plan
            },
        }
    }

    fn queue_revision(&self) -> (r: Option<Revision>)
        ensures
            r.deep_view() == self@.queue_revision(),
    {
        match self.snapshot.metadata().get(&"controller/output/pending-transitions".to_owned()) {
            Some(entry) => Some(entry.revision()),
            None => None,
        }
    }

    fn fence(&self) -> (r: ControllerCommitFence)
        ensures
            r@ == self@.authority.fence(
                self@.snapshot.authoritative,
                runtime::sessions_of(self@.snapshot.participants.live),
            ),
    {
        self.authority.commit_fence(
            self.snapshot.authoritative_revision(),
            runtime::live_sessions(&self.snapshot),
        )
    }

    /// Go on after the newest snapshot was read.
    pub fn on_snapshot(&mut self, result: Result<Snapshot, CoordinationError>) -> (r:
        ReconcileAction)
        ensures
            (final(self)@, r@) == old(self)@.read(snapshot_result(result)),
    {
        match result {
            Ok((current, queue)) => self.on_current(current, &queue),
            Err(error) => {
                self.stage = ReconcileStage::Over;
                ReconcileAction::Finish(Err(ControllerRuntimeError::coordination(&error)))
            },
        }
    }

    fn on_current(
        &mut self,
        current: CoordinationSnapshot,
        queue: &Decoded<Vec<PublishedTransition>>,
    ) -> (r: ReconcileAction)
        ensures
            (final(self)@, r@) == old(self)@.read_current(current@, queue@),
    {
        let newer = self.snapshot.authoritative_revision().is_before(
            &current.authoritative_revision(),
        );
        let mut stage = ReconcileStage::Over;
        std::mem::swap(&mut stage, &mut self.stage);
        match stage {
            ReconcileStage::Checking(planned) => if newer {
                self.replan(current, queue)
            } else if runtime::outputs_match(
                &self.snapshot,
                planned.external_json.as_str(),
                planned.pending_json.as_str(),
            ) {
                self.pending = planned.pending;
                ReconcileAction::Finish(Ok(()))
            } else {
                let action = ReconcileAction::Publish(
                    self.fence(),
                    planned.external_json.clone(),
                    planned.pending_json.clone(),
                    self.queue_revision(),
                );
                self.stage = ReconcileStage::Publishing(planned);
                action
            },
            ReconcileStage::Rechecking(planned) => if newer {
                self.replan(current, queue)
            } else {
                self.pending = planned.pending;
                ReconcileAction::Finish(Ok(()))
            },
            _ => self.replan(current, queue),
        }
    }

    /// Go on after the outputs were published or refused.
    pub fn on_published(&mut self, result: Result<Revision, CoordinationError>) -> (r:
        ReconcileAction)
        ensures
            (final(self)@, r@) == old(self)@.published(
                match result {
                    Ok(revision) => Ok(revision@),
                    Err(error) => Err(error@),
                },
            ),
    {
        let mut stage = ReconcileStage::Over;
        std::mem::swap(&mut stage, &mut self.stage);
        match result {
            Ok(_) => match stage {
                ReconcileStage::Publishing(planned) => {
                    self.stage = ReconcileStage::Rechecking(planned);
                    ReconcileAction::Snapshot
                },
                _ => {
                    self.stage = ReconcileStage::Refreshing;
                    ReconcileAction::Snapshot
                },
            },
            Err(CoordinationError::StaleRevision) => {
                self.stage = ReconcileStage::Refreshing;
                ReconcileAction::Snapshot
            },
            Err(error) => ReconcileAction::Finish(Err(ControllerRuntimeError::coordination(&error))),
        }
    }
}

} // verus!
