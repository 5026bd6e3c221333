//! The leader's loop: the controller reconciles what changes until it loses
//! its authority or is told to stop.
use crate::controller::error::{self, ControllerRuntimeError, RuntimeFault};
use crate::controller::pending::ReconcileMode;
use crate::controller::published::{self, PublishedTransition};
use crate::controller::reconcile::{self, Snapshot};
use crate::controller::runtime::{self, ControllerState};
use crate::coordination::etcd::error::CoordinationFault;
use crate::coordination::etcd::snapshot;
use crate::coordination::etcd::watch;
use crate::coordination::etcd::{
    is_lease_backed_delete, CoordinationError, CoordinationSnapshot, Revision, WatchError,
    WatchEvent,
};
use crate::ordered::Duplicate;
use vstd::prelude::*;
use vstd::string::*;

verus! {

/// How often the leader reads its input without being told of a change, and
/// how long it waits before it asks again.
pub const LEADER_PERIOD_MS: u64 = 250;

/// Why the leader stopped.
#[derive(Clone, Copy, Debug, PartialEq, Eq, Structural)]
pub enum LeaderRunResult {
    LeadershipLost,
    Shutdown,
}

/// What the leader asks the store.
#[derive(Clone, Copy)]
pub enum Question {
    /// The first snapshot, and a watch that continues from it.
    Open,
    /// The newest snapshot.
    Latest,
    /// That an expired lease be recorded as input.
    Expiry(Revision),
    /// A new snapshot and watch after the old watch lost its history.
    Reopen,
}

/// What the leader asks the store.
pub enum QuestionView {
    Open,
    Latest,
    Expiry(i64),
    Reopen,
}

impl View for Question {
    type V = QuestionView;

    open spec fn view(&self) -> QuestionView {
        match self {
            Question::Open => QuestionView::Open,
            Question::Latest => QuestionView::Latest,
            Question::Expiry(revision) => QuestionView::Expiry(revision@),
            Question::Reopen => QuestionView::Reopen,
        }
    }
}

/// What the leader waits for.
#[derive(Clone, Copy)]
pub enum LeaderStage {
    /// The answer to a question.
    Asking(Question),
    /// The end of a pause before a question is asked again.
    AskingAgain(Question),
    /// The end of the first reconciliation.
    Starting,
    /// The end of a pause before the first reconciliation is tried again.
    StartingAgain,
    /// The ready callback.
    Ready,
    /// A change, or the period.
    Watching,
    /// The end of a reconciliation.
    Reconciling,
    /// The end of a pause before a reconciliation is tried again.
    ReconcilingAgain,
    /// The watch to continue.
    Resuming,
    /// Nothing: the leader has stopped.
    Over,
}

/// What the leader waits for.
pub enum LeaderStageView {
    Asking(QuestionView),
    AskingAgain(QuestionView),
    Starting,
    StartingAgain,
    Ready,
    Watching,
    Reconciling,
    ReconcilingAgain,
    Resuming,
    Over,
}

impl View for LeaderStage {
    type V = LeaderStageView;

    open spec fn view(&self) -> LeaderStageView {
        match self {
            LeaderStage::Asking(question) => LeaderStageView::Asking(question@),
            LeaderStage::AskingAgain(question) => LeaderStageView::AskingAgain(question@),
            LeaderStage::Starting => LeaderStageView::Starting,
            LeaderStage::StartingAgain => LeaderStageView::StartingAgain,
            LeaderStage::Ready => LeaderStageView::Ready,
            LeaderStage::Watching => LeaderStageView::Watching,
            LeaderStage::Reconciling => LeaderStageView::Reconciling,
            LeaderStage::ReconcilingAgain => LeaderStageView::ReconcilingAgain,
            LeaderStage::Resuming => LeaderStageView::Resuming,
            LeaderStage::Over => LeaderStageView::Over,
        }
    }
}

/// What happened to the leader.
pub enum LeaderEvent {
    Shutdown,
    LeadershipLost,
    /// The period or the pause has passed.
    Elapsed,
    /// A snapshot was read, with a new watch where one was asked for.
    Read(Result<Snapshot, CoordinationError>),
    /// The expired lease was recorded.
    Recorded(Result<Option<Revision>, CoordinationError>),
    /// The reconciliation ended, and left these pending messages.
    Reconciled(Result<(), ControllerRuntimeError>, Vec<PublishedTransition>),
    /// The ready callback returned.
    Called(Result<(), String>),
    /// The watch gave an event.
    Watched(Result<WatchEvent, WatchError>),
    /// The watch continues.
    Resumed(Result<(), WatchError>),
}

/// What happened to the leader.
pub enum LeaderEventView {
    Shutdown,
    LeadershipLost,
    Elapsed,
    Read(Result<reconcile::SnapshotView, CoordinationFault>),
    Recorded(Result<(), CoordinationFault>),
    Reconciled(Result<(), RuntimeFault>, Seq<published::PublishedView>),
    Called(Result<(), Seq<char>>),
    Watched(Result<watch::EventView, watch::WatchFault>),
    Resumed(Result<(), watch::WatchFault>),
}

impl View for LeaderEvent {
    type V = LeaderEventView;

    open spec fn view(&self) -> LeaderEventView {
        match self {
            LeaderEvent::Shutdown => LeaderEventView::Shutdown,
            LeaderEvent::LeadershipLost => LeaderEventView::LeadershipLost,
            LeaderEvent::Elapsed => LeaderEventView::Elapsed,
            LeaderEvent::Read(result) => LeaderEventView::Read(
                reconcile::snapshot_result(*result),
            ),
            LeaderEvent::Recorded(result) => LeaderEventView::Recorded(
                match result {
                    Ok(_) => Ok(()),
                    Err(error) => Err(error@),
                },
            ),
            LeaderEvent::Reconciled(result, pending) => LeaderEventView::Reconciled(
                match result {
                    Ok(()) => Ok(()),
                    Err(error) => Err(error@),
                },
                pending.deep_view(),
            ),
            LeaderEvent::Called(result) => LeaderEventView::Called(
                match result {
                    Ok(()) => Ok(()),
                    Err(message) => Err(message@),
                },
            ),
            LeaderEvent::Watched(result) => LeaderEventView::Watched(
                match result {
                    Ok(event) => Ok(event@),
                    Err(error) => Err(error@),
                },
            ),
            LeaderEvent::Resumed(result) => LeaderEventView::Resumed(
                match result {
                    Ok(()) => Ok(()),
                    Err(error) => Err(error@),
                },
            ),
        }
    }
}

/// What the leader does next.
pub enum LeaderAction {
    /// Ask the store, unless told to stop first.
    Ask(Question),
    /// Pause, unless told to stop first.
    Pause,
    /// Reconcile the snapshot with the pending messages.
    Reconcile(CoordinationSnapshot, Vec<PublishedTransition>, ReconcileMode),
    /// Call the ready callback.
    CallReady,
    /// Wait for a change or the period, unless told to stop first.
    Watch,
    /// Continue the watch, unless told to stop first.
    Resume,
    /// Stop.
    Finish(Result<LeaderRunResult, ControllerRuntimeError>),
    /// Go on waiting.
    Nothing,
}

/// What the leader does next.
pub enum LeaderActionView {
    Ask(QuestionView),
    Pause,
    Reconcile(snapshot::CoordinationView, Seq<published::PublishedView>, ReconcileMode),
    CallReady,
    Watch,
    Resume,
    Finish(Result<LeaderRunResult, RuntimeFault>),
    Nothing,
}

impl View for LeaderAction {
    type V = LeaderActionView;

    open spec fn view(&self) -> LeaderActionView {
        match self {
            LeaderAction::Ask(question) => LeaderActionView::Ask(question@),
            LeaderAction::Pause => LeaderActionView::Pause,
            LeaderAction::Reconcile(snapshot, pending, mode) => LeaderActionView::Reconcile(
                snapshot@,
                pending.deep_view(),
                *mode,
            ),
            LeaderAction::CallReady => LeaderActionView::CallReady,
            LeaderAction::Watch => LeaderActionView::Watch,
            LeaderAction::Resume => LeaderActionView::Resume,
            LeaderAction::Finish(result) => LeaderActionView::Finish(
                match result {
                    Ok(reason) => Ok(*reason),
                    Err(error) => Err(error@),
                },
            ),
            LeaderAction::Nothing => LeaderActionView::Nothing,
        }
    }
}

/// The leader: what it remembers, the snapshot it reconciles, and what it waits
/// for.
pub struct LeaderView {
    pub state: Option<runtime::ControllerStateView>,
    pub held: Option<reconcile::SnapshotView>,
    pub stage: LeaderStageView,
}

/// A snapshot whose input is as new as what was observed.
pub open spec fn at_least(v: snapshot::CoordinationView, authoritative: i64) ->
    snapshot::CoordinationView {
    snapshot::CoordinationView { authoritative, ..v }
}

impl LeaderView {
    pub open spec fn at(self, stage: LeaderStageView) -> LeaderView {
        LeaderView { stage, ..self }
    }

    pub open spec fn finish(self, result: Result<LeaderRunResult, RuntimeFault>) -> (
        LeaderView,
        LeaderActionView,
    ) {
        (self.at(LeaderStageView::Over), LeaderActionView::Finish(result))
    }

    /// Ask the store.
    pub open spec fn ask(self, question: QuestionView) -> (LeaderView, LeaderActionView) {
        (self.at(LeaderStageView::Asking(question)), LeaderActionView::Ask(question))
    }

    /// The leader may be told to stop while it waits for this.
    pub open spec fn interruptible(self) -> bool {
        match self.stage {
            LeaderStageView::Asking(_) => true,
            LeaderStageView::AskingAgain(_) => true,
            LeaderStageView::StartingAgain => true,
            LeaderStageView::ReconcilingAgain => true,
            LeaderStageView::Watching => true,
            LeaderStageView::Resuming => true,
            _ => false,
        }
    }

    /// Until its first reconciliation has ended, a leader has observed the
    /// snapshot that it began with, and nothing newer.
    pub open spec fn starts_current(self) -> bool {
        self.stage is Starting || self.stage is StartingAgain ==> match (self.state, self.held) {
            (Some(state), Some(held)) => state.authoritative == held.0.authoritative,
            _ => false,
        }
    }

    /// The store could not answer: the authority is lost, the question is asked
    /// again after a pause, or the leader fails.
    pub open spec fn unanswered(self, question: QuestionView, fault: CoordinationFault) -> (
        LeaderView,
        LeaderActionView,
    ) {
        if fault == CoordinationFault::StaleController {
            self.finish(Ok(LeaderRunResult::LeadershipLost))
        } else if fault.transient() {
            (self.at(LeaderStageView::AskingAgain(question)), LeaderActionView::Pause)
        } else {
            self.finish(Err(RuntimeFault::of_coordination(fault)))
        }
    }

    /// A reconciliation failed: the authority is lost, it is tried again after a
    /// pause, or the leader fails.
    pub open spec fn unreconciled(self, again: LeaderStageView, fault: RuntimeFault) -> (
        LeaderView,
        LeaderActionView,
    ) {
        if fault.is_leadership_loss() {
            self.finish(Ok(LeaderRunResult::LeadershipLost))
        } else if fault.transient {
            (self.at(again), LeaderActionView::Pause)
        } else {
            self.finish(Err(fault))
        }
    }

    /// Begin with the first snapshot.
    pub open spec fn start(self, current: reconcile::SnapshotView) -> (
        LeaderView,
        LeaderActionView,
    ) {
        match runtime::first_state(current.0, current.1) {
            Err(message) => self.finish(Err(RuntimeFault::of_message(message))),
            Ok(state) => (
                LeaderView {
                    state: Some(state),
                    held: Some(current),
                    stage: LeaderStageView::Starting,
                },
                LeaderActionView::Reconcile(current.0, state.pending, ReconcileMode::Startup),
            ),
        }
    }

    /// Reconcile the held snapshot. Its input counts as new as what was
    /// observed, and its queue is read first: participants remove completed
    /// messages from it.
    pub open spec fn reconcile_current(self) -> (LeaderView, LeaderActionView) {
        match (self.state, self.held) {
            (Some(state), Some(held)) => {
                let observed = state.observe(held.0.authoritative);
                let current = at_least(held.0, observed.authoritative);
                match runtime::queue_of(held.1) {
                    Err(message) => LeaderView { state: Some(observed), ..self }.unreconciled(
                        LeaderStageView::ReconcilingAgain,
                        RuntimeFault::of_message(message),
                    ),
                    Ok(pending) => (
                        LeaderView {
                            state: Some(runtime::ControllerStateView { pending, ..observed }),
                            held: self.held,
                            stage: LeaderStageView::Reconciling,
                        },
                        LeaderActionView::Reconcile(current, pending, observed.mode(current)),
                    ),
                }
            },
            _ => (self, LeaderActionView::Nothing),
        }
    }

    /// Observe an input revision.
    pub open spec fn observe(self, revision: i64) -> LeaderView {
        LeaderView {
            state: match self.state {
                Some(state) => Some(state.observe(revision)),
                None => None,
            },
            ..self
        }
    }

    /// Take over the pending messages that a reconciliation left.
    pub open spec fn left(self, pending: Seq<published::PublishedView>) -> LeaderView {
        LeaderView {
            state: match self.state {
                Some(state) => Some(runtime::ControllerStateView { pending, ..state }),
                None => None,
            },
            ..self
        }
    }

    /// Remember the sessions of the held snapshot.
    pub open spec fn remember(self) -> LeaderView {
        LeaderView {
            state: match (self.state, self.held) {
                (Some(state), Some(held)) => Some(state.remember(held.0)),
                _ => self.state,
            },
            ..self
        }
    }

    /// What follows a snapshot.
    pub open spec fn read(
        self,
        question: QuestionView,
        result: Result<reconcile::SnapshotView, CoordinationFault>,
    ) -> (LeaderView, LeaderActionView) {
        match result {
            Err(fault) => self.unanswered(question, fault),
            Ok(current) => match question {
                QuestionView::Open => self.start(current),
                QuestionView::Latest => LeaderView {
                    held: Some(current),
                    ..self
                }.reconcile_current(),
                QuestionView::Reopen => LeaderView {
                    held: Some(current),
                    ..self.observe(current.0.revision)
                }.reconcile_current(),
                QuestionView::Expiry(_) => (self, LeaderActionView::Nothing),
            },
        }
    }

    /// What follows a watch event. Only input counts. An expired lease is
    /// recorded as input before the newest snapshot is read.
    pub open spec fn watched(self, result: Result<watch::EventView, watch::WatchFault>) -> (
        LeaderView,
        LeaderActionView,
    ) {
        match result {
            Ok(event) => if !runtime::controller_input(event.key) {
                (self, LeaderActionView::Watch)
            } else if watch::lease_backed_delete(event) {
                self.ask(QuestionView::Expiry(event.revision))
            } else {
                self.observe(event.revision).ask(QuestionView::Latest)
            },
            Err(watch::WatchFault::Compacted { .. }) => self.ask(QuestionView::Reopen),
            Err(fault) => if fault.transient() {
                (self.at(LeaderStageView::Resuming), LeaderActionView::Resume)
            } else {
                self.finish(Err(RuntimeFault::of_watch(fault)))
            },
        }
    }

    /// What follows an event. An event that the leader does not wait for
    /// changes nothing.
    pub open spec fn next(self, event: LeaderEventView) -> (LeaderView, LeaderActionView) {
        match (event, self.stage) {
            (LeaderEventView::Shutdown, _) if self.interruptible() => self.finish(
                Ok(LeaderRunResult::Shutdown),
            ),
            (LeaderEventView::LeadershipLost, _) if self.interruptible() => self.finish(
                Ok(LeaderRunResult::LeadershipLost),
            ),
            (LeaderEventView::Elapsed, LeaderStageView::AskingAgain(question)) => self.ask(question),
            (LeaderEventView::Elapsed, LeaderStageView::StartingAgain) => match (
                self.state,
                self.held,
            ) {
                (Some(state), Some(held)) => (
                    self.at(LeaderStageView::Starting),
                    LeaderActionView::Reconcile(held.0, state.pending, ReconcileMode::Startup),
                ),
                _ => (self, LeaderActionView::Nothing),
            },
            (LeaderEventView::Elapsed, LeaderStageView::ReconcilingAgain) =>
                self.reconcile_current(),
            (LeaderEventView::Elapsed, LeaderStageView::Watching) => self.ask(QuestionView::Latest),
            (LeaderEventView::Read(result), LeaderStageView::Asking(question)) => self.read(
                question,
                result,
            ),
            (
                LeaderEventView::Recorded(result),
                LeaderStageView::Asking(QuestionView::Expiry(revision)),
            ) => match result {
                Err(fault) => self.unanswered(QuestionView::Expiry(revision), fault),
                Ok(()) => self.observe(revision).ask(QuestionView::Latest),
            },
            (LeaderEventView::Reconciled(result, pending), LeaderStageView::Starting) => match result {
                Ok(()) => (
                    self.left(pending).at(LeaderStageView::Ready),
                    LeaderActionView::CallReady,
                ),
                Err(fault) => self.left(pending).unreconciled(LeaderStageView::StartingAgain, fault),
            },
            (
                LeaderEventView::Reconciled(result, pending),
                LeaderStageView::Reconciling,
            ) => match result {
                Ok(()) => (
                    self.left(pending).remember().at(LeaderStageView::Watching),
                    LeaderActionView::Watch,
                ),
                Err(fault) => self.left(pending).unreconciled(
                    LeaderStageView::ReconcilingAgain,
                    fault,
                ),
            },
            (LeaderEventView::Called(result), LeaderStageView::Ready) => match result {
                Ok(()) => (self.at(LeaderStageView::Watching), LeaderActionView::Watch),
                Err(message) => self.finish(Err(RuntimeFault::of_message(message))),
            },
            (LeaderEventView::Watched(result), LeaderStageView::Watching) => self.watched(result),
            (LeaderEventView::Resumed(result), LeaderStageView::Resuming) => match result {
                Ok(()) => (self.at(LeaderStageView::Watching), LeaderActionView::Watch),
                Err(fault) => self.finish(Err(RuntimeFault::of_watch(fault))),
            },
            _ => (self, LeaderActionView::Nothing),
        }
    }
}

/// The watermark of observed input never falls while the controller leads.
pub proof fn leader_never_forgets_input(v: LeaderView, event: LeaderEventView)
    requires
        v.state is Some,
        v.stage != LeaderStageView::Asking(QuestionView::Open),
    ensures
        v.next(event).0.state matches Some(state) && state.authoritative
            >= v.state->0.authoritative,
{
}

/// What is reconciled counts as new as everything that was observed. This holds
/// at every step of a leader, from the first one.
pub proof fn reconciled_input_is_current(v: LeaderView, event: LeaderEventView)
    requires
        v.starts_current(),
    ensures
        v.next(event).0.starts_current(),
        v.next(event).1 is Reconcile ==> (v.next(event).0.state matches Some(state) && v.next(
            event,
        ).1->Reconcile_0.authoritative == state.authoritative),
{
}

/// The deletion of a key that goes away with a lease is recorded as input, and
/// the newest snapshot is read only once it is recorded.
pub proof fn expiry_is_recorded_first(v: LeaderView, event: watch::EventView)
    requires
        v.stage is Watching,
        watch::lease_backed_delete(event),
    ensures
        v.next(LeaderEventView::Watched(Ok(event))).1 == LeaderActionView::Ask(
            QuestionView::Expiry(event.revision),
        ),
        v.next(LeaderEventView::Watched(Ok(event))).0.next(LeaderEventView::Recorded(Ok(()))).1
            == LeaderActionView::Ask(QuestionView::Latest),
{
}

/// The controller's own outputs do not make it reconcile.
pub proof fn own_outputs_are_ignored(v: LeaderView, event: watch::EventView)
    requires
        v.stage is Watching,
        !runtime::controller_input(event.key),
    ensures
        v.next(LeaderEventView::Watched(Ok(event))) == (v, LeaderActionView::Watch),
{
}

/// A leader that waits stops as soon as it is told to, or loses its authority.
pub proof fn waiting_leader_stops(v: LeaderView)
    requires
        v.interruptible(),
    ensures
        v.next(LeaderEventView::Shutdown).1 == LeaderActionView::Finish(
            Ok::<LeaderRunResult, RuntimeFault>(LeaderRunResult::Shutdown),
        ),
        v.next(LeaderEventView::LeadershipLost).1 == LeaderActionView::Finish(
            Ok::<LeaderRunResult, RuntimeFault>(LeaderRunResult::LeadershipLost),
        ),
{
}

/// A leader that has stopped stays so.
pub proof fn stopped_leader_stays_stopped(v: LeaderView, event: LeaderEventView)
    requires
        v.stage is Over,
    ensures
        v.next(event) == (v, LeaderActionView::Nothing),
{
}

/// The leader's loop.
pub struct ControllerLeader {
    state: Option<ControllerState>,
    held: Option<Snapshot>,
    stage: LeaderStage,
}

impl View for ControllerLeader {
    type V = LeaderView;

    closed spec fn view(&self) -> LeaderView {
        LeaderView {
            state: match self.state {
                Some(state) => Some(state@),
                None => None,
            },
            held: match self.held {
                Some(held) => Some((held.0@, held.1@)),
                None => None,
            },
            stage: self.stage@,
        }
    }
}

impl ControllerLeader {
    /// Begin to lead: the first snapshot is read.
    pub fn lead() -> (r: (ControllerLeader, LeaderAction))
        ensures
            r.0@ == (LeaderView {
                state: None,
                held: None,
                stage: LeaderStageView::Asking(QuestionView::Open),
            }),
            r.1@ == LeaderActionView::Ask(QuestionView::Open),
    {
        (
            ControllerLeader {
                state: None,
                held: None,
                stage: LeaderStage::Asking(Question::Open),
            },
            LeaderAction::Ask(Question::Open),
        )
    }

    fn finish(&mut self, result: Result<LeaderRunResult, ControllerRuntimeError>) -> (r:
        LeaderAction)
        ensures
            (final(self)@, r@) == old(self)@.finish(
                match result {
                    Ok(reason) => Ok(reason),
                    Err(error) => Err(error@),
                },
            ),
    {
        self.stage = LeaderStage::Over;
        LeaderAction::Finish(result)
    }

    fn ask(&mut self, question: Question) -> (r: LeaderAction)
        ensures
            (final(self)@, r@) == old(self)@.ask(question@),
    {
        self.stage = LeaderStage::Asking(question);
        LeaderAction::Ask(question)
    }

    fn observe(&mut self, revision: Revision)
        ensures
            final(self)@ == old(self)@.observe(revision@),
    {
        if let Some(mut state) = self.state.take() {
            state.observe_input_revision(revision);
            self.state = Some(state);
        }
    }

    fn left(&mut self, pending: Vec<PublishedTransition>)
        ensures
            final(self)@ == old(self)@.left(pending.deep_view()),
    {
        if let Some(mut state) = self.state.take() {
            state.set_pending(pending);
            self.state = Some(state);
        }
    }

    fn remember(&mut self)
        ensures
            final(self)@ == old(self)@.remember(),
    {
        if let Some(mut state) = self.state.take() {
            if let Some(held) = &self.held {
                state.remember_sessions(&held.0);
            }
            self.state = Some(state);
        }
    }

    fn unanswered(&mut self, question: Question, error: CoordinationError) -> (r: LeaderAction)
        ensures
            (final(self)@, r@) == old(self)@.unanswered(question@, error@),
    {
        match error {
            CoordinationError::StaleController => self.finish(Ok(LeaderRunResult::LeadershipLost)),
            _ => if error.is_transient() {
                self.stage = LeaderStage::AskingAgain(question);
                LeaderAction::Pause
            } else {
                self.finish(Err(ControllerRuntimeError::coordination(&error)))
            },
        }
    }

    fn unreconciled(&mut self, again: LeaderStage, error: ControllerRuntimeError) -> (r:
        LeaderAction)
        ensures
            (final(self)@, r@) == old(self)@.unreconciled(again@, error@),
    {
        if error::is_leadership_loss(&error) {
            self.finish(Ok(LeaderRunResult::LeadershipLost))
        } else if error.is_transient() {
            self.stage = again;
            LeaderAction::Pause
        } else {
            self.finish(Err(error))
        }
    }

    fn start(&mut self, current: Snapshot) -> (r: LeaderAction)
        ensures
            (final(self)@, r@) == old(self)@.start((current.0@, current.1@)),
    {
        match ControllerState::from_snapshot(&current.0, &current.1) {
            Err(error) => self.finish(Err(error)),
            Ok(state) => {
                let pending = state.pending().duplicate();
                let snapshot = current.0.duplicate();
                self.state = Some(state);
                self.held = Some(current);
                self.stage = LeaderStage::Starting;
                LeaderAction::Reconcile(snapshot, pending, ReconcileMode::Startup)
            },
        }
    }

    fn start_again(&mut self) -> (r: LeaderAction)
        requires
            old(self)@.stage is StartingAgain,
        ensures
            (final(self)@, r@) == old(self)@.next(LeaderEventView::Elapsed),
    {
        let pending = match &self.state {
            Some(state) => state.pending().duplicate(),
            None => {
                return LeaderAction::Nothing;
            },
        };
        let snapshot = match &self.held {
            Some(held) => held.0.duplicate(),
            None => {
                return LeaderAction::Nothing;
            },
        };
        self.stage = LeaderStage::Starting;
        LeaderAction::Reconcile(snapshot, pending, ReconcileMode::Startup)
    }

    fn reconcile_current(&mut self) -> (r: LeaderAction)
        ensures
            (final(self)@, r@) == old(self)@.reconcile_current(),
    {
        let (current, queue) = match &self.held {
            Some(held) => (held.0.duplicate(), runtime::read_pending(&held.1)),
            None => {
                return LeaderAction::Nothing;
            },
        };
        let mut state = match self.state.take() {
            Some(state) => state,
            None => {
                return LeaderAction::Nothing;
            },
        };
        state.observe_input_revision(current.authoritative_revision());
        let current = current.with_authoritative_revision(state.authoritative_revision());
        match queue {
            Err(error) => {
                self.state = Some(state);
                self.unreconciled(LeaderStage::ReconcilingAgain, error)
            },
            Ok(pending) => {
                let mode = state.mode_for(&current);
                state.set_pending(pending.duplicate());
                self.state = Some(state);
                self.stage = LeaderStage::Reconciling;
                LeaderAction::Reconcile(current, pending, mode)
            },
        }
    }

    fn read(&mut self, question: Question, result: Result<Snapshot, CoordinationError>) -> (r:
        LeaderAction)
        ensures
            (final(self)@, r@) == old(self)@.read(
                question@,
                reconcile::snapshot_result(result),
            ),
    {
        match result {
            Err(error) => self.unanswered(question, error),
            Ok(current) => match question {
                Question::Open => self.start(current),
                Question::Latest => {
                    self.held = Some(current);
                    self.reconcile_current()
                },
                Question::Reopen => {
                    self.observe(current.0.revision());
                    self.held = Some(current);
                    self.reconcile_current()
                },
                Question::Expiry(_) => LeaderAction::Nothing,
            },
        }
    }

    fn watched(&mut self, result: Result<WatchEvent, WatchError>) -> (r: LeaderAction)
        ensures
            (final(self)@, r@) == old(self)@.watched(
                match result {
                    Ok(event) => Ok(event@),
                    Err(error) => Err(error@),
                },
            ),
    {
        match result {
            Ok(event) => if !runtime::is_controller_input(event.key()) {
                LeaderAction::Watch
            } else if is_lease_backed_delete(&event) {
                self.ask(Question::Expiry(event.revision()))
            } else {
                self.observe(event.revision());
                self.ask(Question::Latest)
            },
            Err(WatchError::Compacted { .. }) => self.ask(Question::Reopen),
            Err(error) => if error.is_transient() {
                self.stage = LeaderStage::Resuming;
                LeaderAction::Resume
            } else {
                self.finish(Err(ControllerRuntimeError::watch(&error)))
            },
        }
    }

    fn interruptible(&self) -> (r: bool)
        ensures
            r == self@.interruptible(),
    {
        match self.stage {
            LeaderStage::Asking(_) => true,
            LeaderStage::AskingAgain(_) => true,
            LeaderStage::StartingAgain => true,
            LeaderStage::ReconcilingAgain => true,
            LeaderStage::Watching => true,
            LeaderStage::Resuming => true,
            _ => false,
        }
    }

    /// Go on after an event. An event that the leader does not wait for changes
    /// nothing.
    pub fn run_as_leader_until(&mut self, event: LeaderEvent) -> (r: LeaderAction)
        ensures
            (final(self)@, r@) == old(self)@.next(event@),
    {
        match (event, self.stage) {
            (LeaderEvent::Shutdown, _) => if self.interruptible() {
                self.finish(Ok(LeaderRunResult::Shutdown))
            } else {
                LeaderAction::Nothing
            },
            (LeaderEvent::LeadershipLost, _) => if self.interruptible() {
                self.finish(Ok(LeaderRunResult::LeadershipLost))
            } else {
                LeaderAction::Nothing
            },
            (LeaderEvent::Elapsed, LeaderStage::AskingAgain(question)) => self.ask(question),
            (LeaderEvent::Elapsed, LeaderStage::StartingAgain) => self.start_again(),
            (LeaderEvent::Elapsed, LeaderStage::ReconcilingAgain) => self.reconcile_current(),
            (LeaderEvent::Elapsed, LeaderStage::Watching) => self.ask(Question::Latest),
            (LeaderEvent::Read(result), LeaderStage::Asking(question)) => self.read(
                question,
                result,
            ),
            (
                LeaderEvent::Recorded(result),
                LeaderStage::Asking(Question::Expiry(revision)),
            ) => match result {
                Err(error) => self.unanswered(Question::Expiry(revision), error),
                Ok(_) => {
                    self.observe(revision);
                    self.ask(Question::Latest)
                },
            },
            (LeaderEvent::Reconciled(result, pending), LeaderStage::Starting) => {
                self.left(pending);
                match result {
                    Ok(()) => {
                        self.stage = LeaderStage::Ready;
                        LeaderAction::CallReady
                    },
                    Err(error) => self.unreconciled(LeaderStage::StartingAgain, error),
                }
            },
            (LeaderEvent::Reconciled(result, pending), LeaderStage::Reconciling) => {
                self.left(pending);
                match result {
                    Ok(()) => {
                        self.remember();
                        self.stage = LeaderStage::Watching;
                        LeaderAction::Watch
                    },
                    Err(error) => self.unreconciled(LeaderStage::ReconcilingAgain, error),
                }
            },
            (LeaderEvent::Called(result), LeaderStage::Ready) => match result {
                Ok(()) => {
                    self.stage = LeaderStage::Watching;
                    LeaderAction::Watch
                },
                Err(message) => self.finish(Err(ControllerRuntimeError::message(message))),
            },
            (LeaderEvent::Watched(result), LeaderStage::Watching) => self.watched(result),
            (LeaderEvent::Resumed(result), LeaderStage::Resuming) => match result {
                Ok(()) => {
                    self.stage = LeaderStage::Watching;
                    LeaderAction::Watch
                },
                Err(error) => self.finish(Err(ControllerRuntimeError::watch(&error))),
            },
            _ => LeaderAction::Nothing,
        }
    }
}

} // verus!
