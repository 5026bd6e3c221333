//! The participant's loop: it keeps a session, works through the queue, and
//! gives the session back when it stops.
use crate::coordination::etcd::error::CoordinationFault;
use crate::coordination::etcd::registration;
use crate::coordination::etcd::watch;
use crate::coordination::etcd::{
    CoordinationError, EtcdParticipantSession, RegistrationOptions, Revision, WatchError,
    WatchEvent,
};
use crate::model::builtins;
use crate::model::state_model;
use crate::model::{leader_standby, InstanceId, StateModelDefinition};
use crate::observability::{RuntimeEvent, RuntimeSignal};
use crate::ordered::Duplicate;
use crate::participant::error::{ParticipantFault, ParticipantRuntimeError};
use crate::participant::execution::{self, WorkerEnd};
use crate::participant::session::KeepaliveOutcome;
use crate::text;
use crate::time::Duration;
use crate::transition::{MessageView, TransitionMessage};
use vstd::prelude::*;
use vstd::string::*;

verus! {

/// The key of the metadata of a resource.
pub fn resource_key(resource: &str) -> (r: String)
    ensures
        r@ == "controller/resources/"@ + resource@,
{
    "controller/resources/".to_owned().concat(resource)
}

/// The state model of a resource: the participant's own, or the one that the
/// metadata of the resource names.
pub open spec fn model_for(
    own: Option<state_model::StateModelView>,
    named: Option<Seq<char>>,
) -> Result<state_model::StateModelView, ParticipantFault> {
    match (own, named) {
        (Some(model), _) => Ok(model),
        (None, Some(name)) if name == "LeaderStandby"@ => Ok(
            builtins::leader_standby_parts().model(),
        ),
        _ => Err(ParticipantFault::InvalidMessage),
    }
}

/// The state model of a resource, given the name in its metadata where there is
/// metadata that could be decoded.
pub fn state_model_for(own: Option<&StateModelDefinition>, named: Option<&str>) -> (r: Result<
    StateModelDefinition,
    ParticipantRuntimeError,
>)
    ensures
        match (
            r,
            model_for(
                own.deep_view(),
                match named {
                    Some(name) => Some(name@),
                    None => None,
                },
            ),
        ) {
            (Ok(model), Ok(expected)) => model@ == expected,
            (Err(error), Err(fault)) => error@ == fault,
            _ => false,
        },
{
    if let Some(model) = own {
        return Ok(model.duplicate());
    }
    match named {
        Some(name) => if text::text_eq(name, "LeaderStandby") {
            Ok(leader_standby())
        } else {
            Err(ParticipantRuntimeError::InvalidMessage)
        },
        None => Err(ParticipantRuntimeError::InvalidMessage),
    }
}

/// What the participant waits for.
pub enum ParticipantStage {
    /// A session.
    Registering,
    /// The queue, and a watch that continues from it.
    Opening,
    /// The first messages of the queue to be started.
    Starting,
    /// The ready callback.
    Ready,
    /// A change, a tick, or the end of a worker.
    Running,
    /// A new queue and watch after the old watch lost its history.
    Replacing,
    /// Messages of the queue to be started.
    Processing,
    /// The watch to continue.
    Resuming,
    /// The keepalive.
    Keeping,
    /// The workers to end, with the session kept alive.
    Draining,
    /// The workers to end after the session was lost.
    DrainingLost,
    /// A replacement session.
    Reconnecting,
    /// The end of a pause before a replacement session is asked for again.
    ReconnectingAgain,
    /// The queue, after the session was replaced.
    Reopening,
    /// The end of a pause before the queue is asked for again.
    ReopeningAgain,
    /// The session to be revoked, after which the participant ends so.
    Revoking(Result<(), ParticipantRuntimeError>),
    /// Nothing: the participant has stopped.
    Over,
}

/// What the participant waits for.
pub enum ParticipantStageView {
    Registering,
    Opening,
    Starting,
    Ready,
    Running,
    Replacing,
    Processing,
    Resuming,
    Keeping,
    Draining,
    DrainingLost,
    Reconnecting,
    ReconnectingAgain,
    Reopening,
    ReopeningAgain,
    Revoking(Result<(), ParticipantFault>),
    Over,
}

/// What a result says.
pub open spec fn ended(result: Result<(), ParticipantRuntimeError>) -> Result<
    (),
    ParticipantFault,
> {
    match result {
        Ok(()) => Ok(()),
        Err(error) => Err(error@),
    }
}

impl View for ParticipantStage {
    type V = ParticipantStageView;

    open spec fn view(&self) -> ParticipantStageView {
        match self {
            ParticipantStage::Registering => ParticipantStageView::Registering,
            ParticipantStage::Opening => ParticipantStageView::Opening,
            ParticipantStage::Starting => ParticipantStageView::Starting,
            ParticipantStage::Ready => ParticipantStageView::Ready,
            ParticipantStage::Running => ParticipantStageView::Running,
            ParticipantStage::Replacing => ParticipantStageView::Replacing,
            ParticipantStage::Processing => ParticipantStageView::Processing,
            ParticipantStage::Resuming => ParticipantStageView::Resuming,
            ParticipantStage::Keeping => ParticipantStageView::Keeping,
            ParticipantStage::Draining => ParticipantStageView::Draining,
            ParticipantStage::DrainingLost => ParticipantStageView::DrainingLost,
            ParticipantStage::Reconnecting => ParticipantStageView::Reconnecting,
            ParticipantStage::ReconnectingAgain => ParticipantStageView::ReconnectingAgain,
            ParticipantStage::Reopening => ParticipantStageView::Reopening,
            ParticipantStage::ReopeningAgain => ParticipantStageView::ReopeningAgain,
            ParticipantStage::Revoking(result) => ParticipantStageView::Revoking(ended(*result)),
            ParticipantStage::Over => ParticipantStageView::Over,
        }
    }
}

/// What happened to the participant.
pub enum ParticipantEvent {
    /// It has a session, or was told to stop before.
    Registered(Result<Option<EtcdParticipantSession>, ParticipantRuntimeError>),
    /// The queue was read, with a watch that continues from it.
    Opened(Result<(Vec<TransitionMessage>, Revision), CoordinationError>),
    /// The messages were started.
    Processed(Result<(), ParticipantRuntimeError>),
    /// The ready callback returned.
    Called(Result<(), ParticipantRuntimeError>),
    /// It was told to stop.
    Shutdown,
    /// The watch gave an event, with the decoded messages of its value.
    Watched(Result<(WatchEvent, Option<Vec<TransitionMessage>>), WatchError>),
    /// The watch continues.
    Resumed(Result<(), WatchError>),
    /// It is time for a keepalive.
    Tick,
    /// The keepalive is over.
    Kept(Result<KeepaliveOutcome, ParticipantRuntimeError>),
    /// A worker ended.
    Worker(WorkerEnd),
    /// All workers ended.
    Drained(Result<(), ParticipantRuntimeError>),
    /// It has a replacement session.
    Reconnected(Result<EtcdParticipantSession, ParticipantRuntimeError>),
    /// The pause has passed.
    Elapsed,
    /// The session was revoked.
    Revoked(Result<(), CoordinationError>),
}

/// What happened to the participant.
pub enum ParticipantEventView {
    Registered(Result<Option<registration::IncarnationView>, ParticipantFault>),
    Opened(Result<(Seq<MessageView>, Revision), CoordinationFault>),
    Processed(Result<(), ParticipantFault>),
    Called(Result<(), ParticipantFault>),
    Shutdown,
    Watched(Result<(watch::EventView, Option<Seq<MessageView>>, Revision), watch::WatchFault>),
    Resumed(Result<(), watch::WatchFault>),
    Tick,
    Kept(Result<KeepaliveOutcome, ParticipantFault>),
    Worker(Result<(), ParticipantFault>),
    Drained(Result<(), ParticipantFault>),
    Reconnected(Result<registration::IncarnationView, ParticipantFault>),
    Elapsed,
    Revoked(Result<(), CoordinationFault>),
}

/// What the participant does next.
pub enum ParticipantAction {
    /// Get a session, unless told to stop first.
    Register,
    /// Read the queue, and watch it from there.
    OpenQueue,
    /// Start the messages of the queue at this revision.
    Process(Vec<TransitionMessage>, Revision),
    /// Call the ready callback.
    CallReady,
    /// Wait for a change, a tick, the end of a worker, or to be told to stop.
    Wait,
    /// Continue the watch, unless told to stop first.
    Resume,
    /// Keep the session alive.
    KeepAlive,
    /// Cancel the workers and wait for them, while the session is kept alive.
    Drain,
    /// Cancel the workers and wait for them.
    DrainLost,
    /// Get a replacement session.
    Reconnect,
    /// Pause, unless told to stop first.
    Pause,
    /// Revoke the session.
    Revoke,
    /// Stop.
    Finish(Result<(), ParticipantRuntimeError>),
    /// Go on waiting.
    Nothing,
}

/// What the participant does next.
pub enum ParticipantActionView {
    Register,
    OpenQueue,
    Process(Seq<MessageView>, Revision),
    CallReady,
    Wait,
    Resume,
    KeepAlive,
    Drain,
    DrainLost,
    Reconnect,
    Pause,
    Revoke,
    Finish(Result<(), ParticipantFault>),
    Nothing,
}

impl View for ParticipantAction {
    type V = ParticipantActionView;

    open spec fn view(&self) -> ParticipantActionView {
        match self {
            ParticipantAction::Register => ParticipantActionView::Register,
            ParticipantAction::OpenQueue => ParticipantActionView::OpenQueue,
            ParticipantAction::Process(messages, revision) => ParticipantActionView::Process(
                messages.deep_view(),
                *revision,
            ),
            ParticipantAction::CallReady => ParticipantActionView::CallReady,
            ParticipantAction::Wait => ParticipantActionView::Wait,
            ParticipantAction::Resume => ParticipantActionView::Resume,
            ParticipantAction::KeepAlive => ParticipantActionView::KeepAlive,
            ParticipantAction::Drain => ParticipantActionView::Drain,
            ParticipantAction::DrainLost => ParticipantActionView::DrainLost,
            ParticipantAction::Reconnect => ParticipantActionView::Reconnect,
            ParticipantAction::Pause => ParticipantActionView::Pause,
            ParticipantAction::Revoke => ParticipantActionView::Revoke,
            ParticipantAction::Finish(result) => ParticipantActionView::Finish(ended(*result)),
            ParticipantAction::Nothing => ParticipantActionView::Nothing,
        }
    }
}

/// What the participant does next, and what it tells its operator.
pub struct ParticipantStep {
    pub action: ParticipantAction,
    pub event: Option<RuntimeEvent>,
}

/// What the participant does next, and what it tells its operator.
pub struct ParticipantStepView {
    pub action: ParticipantActionView,
    pub event: Option<RuntimeSignal>,
}

impl View for ParticipantStep {
    type V = ParticipantStepView;

    open spec fn view(&self) -> ParticipantStepView {
        ParticipantStepView { action: self.action@, event: self.event.deep_view() }
    }
}

/// The participant: its session, the queue it works through, and what it waits
/// for.
pub struct ParticipantView {
    pub instance: Seq<char>,
    pub session: Option<registration::IncarnationView>,
    pub queue: Option<(Seq<MessageView>, Revision)>,
    pub stage: ParticipantStageView,
}

/// A step without a word to the operator.
pub open spec fn quietly(action: ParticipantActionView) -> ParticipantStepView {
    ParticipantStepView { action, event: None }
}

/// A step with a word to the operator.
pub open spec fn telling(action: ParticipantActionView, event: RuntimeSignal) ->
    ParticipantStepView {
    ParticipantStepView { action, event: Some(event) }
}

impl ParticipantView {
    pub open spec fn at(self, stage: ParticipantStageView) -> ParticipantView {
        ParticipantView { stage, ..self }
    }

    pub open spec fn go(self, stage: ParticipantStageView, action: ParticipantActionView) -> (
        ParticipantView,
        ParticipantStepView,
    ) {
        (self.at(stage), quietly(action))
    }

    /// End so, once the session is revoked.
    pub open spec fn revoke(self, result: Result<(), ParticipantFault>) -> (
        ParticipantView,
        ParticipantStepView,
    ) {
        self.go(ParticipantStageView::Revoking(result), ParticipantActionView::Revoke)
    }

    /// Start the messages of the queue.
    pub open spec fn process(self, stage: ParticipantStageView) -> (
        ParticipantView,
        ParticipantStepView,
    ) {
        match self.queue {
            Some((messages, revision)) => self.go(
                stage,
                ParticipantActionView::Process(messages, revision),
            ),
            None => self.go(ParticipantStageView::Running, ParticipantActionView::Wait),
        }
    }

    /// Work through this queue from now on.
    pub open spec fn with_queue(self, messages: Seq<MessageView>, revision: Revision) ->
        ParticipantView {
        ParticipantView { queue: Some((messages, revision)), ..self }
    }

    /// Stop: started workers are drained first.
    pub open spec fn drain(self) -> (ParticipantView, ParticipantStepView) {
        self.go(ParticipantStageView::Draining, ParticipantActionView::Drain)
    }

    /// What follows a registration.
    pub open spec fn registered(
        self,
        result: Result<Option<registration::IncarnationView>, ParticipantFault>,
    ) -> (ParticipantView, ParticipantStepView) {
        match result {
            Err(fault) => self.go(
                ParticipantStageView::Over,
                ParticipantActionView::Finish(Err(fault)),
            ),
            Ok(None) => (
                self.at(ParticipantStageView::Over),
                telling(
                    ParticipantActionView::Finish(Ok(())),
                    RuntimeSignal::GracefulShutdown { identity: self.instance },
                ),
            ),
            Ok(Some(session)) => ParticipantView { session: Some(session), ..self }.go(
                ParticipantStageView::Opening,
                ParticipantActionView::OpenQueue,
            ),
        }
    }

    /// What follows a read of the queue.
    pub open spec fn opened(
        self,
        after: ParticipantStageView,
        result: Result<(Seq<MessageView>, Revision), CoordinationFault>,
    ) -> (ParticipantView, ParticipantStepView) {
        match result {
            Ok((messages, revision)) => self.with_queue(messages, revision).process(after),
            Err(fault) => if self.stage is Reopening && fault.transient() {
                self.go(ParticipantStageView::ReopeningAgain, ParticipantActionView::Pause)
            } else {
                self.revoke(Err(ParticipantFault::Coordination(fault)))
            },
        }
    }

    /// What follows a watch event. Only the queue counts.
    pub open spec fn watched(
        self,
        result: Result<(watch::EventView, Option<Seq<MessageView>>, Revision), watch::WatchFault>,
    ) -> (ParticipantView, ParticipantStepView) {
        match result {
            Ok((event, decoded, revision)) => if event.key
                != "controller/output/pending-transitions"@ {
                self.go(ParticipantStageView::Running, ParticipantActionView::Wait)
            } else {
                match execution::event_messages(event, decoded) {
                    Err(fault) => self.revoke(Err(fault)),
                    Ok(messages) => self.with_queue(messages, revision).process(
                        ParticipantStageView::Processing,
                    ),
                }
            },
            Err(watch::WatchFault::Compacted { .. }) => self.go(
                ParticipantStageView::Replacing,
                ParticipantActionView::OpenQueue,
            ),
            Err(fault) => if fault.transient() {
                (
                    self.at(ParticipantStageView::Resuming),
                    telling(
                        ParticipantActionView::Resume,
                        RuntimeSignal::CoordinationRetry { operation: "participant watch"@ },
                    ),
                )
            } else {
                self.revoke(Err(ParticipantFault::Watch(fault)))
            },
        }
    }

    /// What follows a keepalive. A lost session is replaced.
    pub open spec fn kept(self, result: Result<KeepaliveOutcome, ParticipantFault>) -> (
        ParticipantView,
        ParticipantStepView,
    ) {
        match result {
            Err(fault) => self.revoke(Err(fault)),
            Ok(KeepaliveOutcome::Healthy) => self.go(
                ParticipantStageView::Running,
                ParticipantActionView::Wait,
            ),
            Ok(KeepaliveOutcome::Shutdown) => self.drain(),
            Ok(KeepaliveOutcome::Expired) => (
                self.at(ParticipantStageView::DrainingLost),
                telling(
                    ParticipantActionView::DrainLost,
                    RuntimeSignal::LeaseRecovery { identity: self.instance },
                ),
            ),
        }
    }

    /// What follows a replacement session.
    pub open spec fn reconnected(
        self,
        result: Result<registration::IncarnationView, ParticipantFault>,
    ) -> (ParticipantView, ParticipantStepView) {
        match result {
            Ok(session) => (
                ParticipantView { session: Some(session), ..self }.at(
                    ParticipantStageView::Reopening,
                ),
                telling(
                    ParticipantActionView::OpenQueue,
                    RuntimeSignal::LeaseReregistered {
                        identity: self.instance,
                        session_id: session.session,
                    },
                ),
            ),
            Err(fault) => if fault.transient() {
                self.go(ParticipantStageView::ReconnectingAgain, ParticipantActionView::Pause)
            } else {
                self.revoke(Err(fault))
            },
        }
    }

    /// What follows the revocation. An error of the run comes before one of the
    /// revocation.
    pub open spec fn revoked(
        self,
        result: Result<(), ParticipantFault>,
        revoked: Result<(), CoordinationFault>,
    ) -> (ParticipantView, ParticipantStepView) {
        let outcome = match (result, revoked) {
            (Err(fault), _) => Err(fault),
            (Ok(()), Err(fault)) => Err(ParticipantFault::Coordination(fault)),
            (Ok(()), Ok(())) => Ok(()),
        };
        (
            self.at(ParticipantStageView::Over),
            telling(
                ParticipantActionView::Finish(outcome),
                match outcome {
                    Err(fault) => RuntimeSignal::FatalRuntimeError {
                        identity: self.instance,
                        message: fault.text(),
                    },
                    Ok(()) => RuntimeSignal::GracefulShutdown { identity: self.instance },
                },
            ),
        )
    }

    /// What follows when the participant is told to stop. While it waits for a
    /// replacement there is nothing to drain.
    pub open spec fn shutdown(self) -> (ParticipantView, ParticipantStepView) {
        match self.stage {
            ParticipantStageView::Running => self.drain(),
            ParticipantStageView::Resuming => self.drain(),
            ParticipantStageView::ReconnectingAgain => self.revoke(Ok(())),
            ParticipantStageView::ReopeningAgain => self.revoke(Ok(())),
            _ => (self, quietly(ParticipantActionView::Nothing)),
        }
    }

    /// What follows an event. An event that the participant does not wait for
    /// changes nothing.
    pub open spec fn next(self, event: ParticipantEventView) -> (
        ParticipantView,
        ParticipantStepView,
    ) {
        match (event, self.stage) {
            (ParticipantEventView::Shutdown, _) => self.shutdown(),
            (
                ParticipantEventView::Registered(result),
                ParticipantStageView::Registering,
            ) => self.registered(result),
            (ParticipantEventView::Opened(result), ParticipantStageView::Opening) => self.opened(
                ParticipantStageView::Starting,
                result,
            ),
            (ParticipantEventView::Opened(result), ParticipantStageView::Replacing) => self.opened(
                ParticipantStageView::Processing,
                result,
            ),
            (ParticipantEventView::Opened(result), ParticipantStageView::Reopening) => self.opened(
                ParticipantStageView::Processing,
                result,
            ),
            (
                ParticipantEventView::Processed(result),
                ParticipantStageView::Starting,
            ) => match result {
                Ok(()) => self.go(ParticipantStageView::Ready, ParticipantActionView::CallReady),
                Err(fault) => self.revoke(Err(fault)),
            },
            (
                ParticipantEventView::Processed(result),
                ParticipantStageView::Processing,
            ) => match result {
                Ok(()) => self.go(ParticipantStageView::Running, ParticipantActionView::Wait),
                Err(fault) => self.revoke(Err(fault)),
            },
            (ParticipantEventView::Called(result), ParticipantStageView::Ready) => match result {
                Ok(()) => self.go(ParticipantStageView::Running, ParticipantActionView::Wait),
                Err(fault) => self.revoke(Err(fault)),
            },
            (ParticipantEventView::Watched(result), ParticipantStageView::Running) => self.watched(
                result,
            ),
            (
                ParticipantEventView::Resumed(result),
                ParticipantStageView::Resuming,
            ) => match result {
                Ok(()) => self.go(ParticipantStageView::Running, ParticipantActionView::Wait),
                Err(fault) => self.revoke(Err(ParticipantFault::Watch(fault))),
            },
            (ParticipantEventView::Tick, ParticipantStageView::Running) => self.go(
                ParticipantStageView::Keeping,
                ParticipantActionView::KeepAlive,
            ),
            (ParticipantEventView::Kept(result), ParticipantStageView::Keeping) => self.kept(result),
            (ParticipantEventView::Worker(result), ParticipantStageView::Running) => match result {
                Ok(()) => self.process(ParticipantStageView::Processing),
                Err(fault) => self.revoke(Err(fault)),
            },
            (ParticipantEventView::Drained(result), ParticipantStageView::Draining) => self.revoke(
                result,
            ),
            (
                ParticipantEventView::Drained(result),
                ParticipantStageView::DrainingLost,
            ) => match result {
                Ok(()) => self.go(
                    ParticipantStageView::Reconnecting,
                    ParticipantActionView::Reconnect,
                ),
                Err(fault) => self.revoke(Err(fault)),
            },
            (
                ParticipantEventView::Reconnected(result),
                ParticipantStageView::Reconnecting,
            ) => self.reconnected(result),
            (ParticipantEventView::Elapsed, ParticipantStageView::ReconnectingAgain) => self.go(
                ParticipantStageView::Reconnecting,
                ParticipantActionView::Reconnect,
            ),
            (ParticipantEventView::Elapsed, ParticipantStageView::ReopeningAgain) => self.go(
                ParticipantStageView::Reopening,
                ParticipantActionView::OpenQueue,
            ),
            (
                ParticipantEventView::Revoked(revoked),
                ParticipantStageView::Revoking(result),
            ) => self.revoked(result, revoked),
            _ => (self, quietly(ParticipantActionView::Nothing)),
        }
    }
}

/// A participant that had a session stops only after the session was revoked.
pub proof fn sessions_are_revoked(v: ParticipantView, event: ParticipantEventView)
    requires
        v.next(event).1.action is Finish,
    ensures
        v.stage is Registering || (v.stage is Revoking && event is Revoked),
{
}

/// A running participant that is told to stop drains its workers, keeps its
/// session until they ended, and revokes it then.
pub proof fn shutdown_drains_before_revocation(
    v: ParticipantView,
    result: Result<(), ParticipantFault>,
)
    requires
        v.stage is Running,
    ensures
        v.next(ParticipantEventView::Shutdown).1.action is Drain,
        v.next(ParticipantEventView::Shutdown).0.session == v.session,
        v.next(ParticipantEventView::Shutdown).0.next(ParticipantEventView::Drained(result)).1.action
            is Revoke,
{
}

/// A lost session is replaced only after the workers of the old one ended, and
/// the queue is read anew under the new one.
pub proof fn lost_sessions_are_replaced(v: ParticipantView, session: registration::IncarnationView)
    requires
        v.stage is Keeping,
    ensures
        ({
            let lost = v.next(ParticipantEventView::Kept(Ok(KeepaliveOutcome::Expired)));
            let drained = lost.0.next(ParticipantEventView::Drained(Ok(())));
            let back = drained.0.next(ParticipantEventView::Reconnected(Ok(session)));
            &&& lost.1.action is DrainLost
            &&& drained.1.action is Reconnect
            &&& back.1.action is OpenQueue
            &&& back.0.session == Some(session)
        }),
{
}

/// The end of a worker starts what the newest queue image still holds.
pub proof fn finished_workers_make_room(v: ParticipantView)
    requires
        v.stage is Running,
        v.queue is Some,
    ensures
        v.queue matches Some((messages, revision)) && v.next(
            ParticipantEventView::Worker(Ok(())),
        ).1.action == ParticipantActionView::Process(messages, revision),
{
}

/// An error of the run is reported, whatever became of the revocation.
pub proof fn run_errors_come_first(
    v: ParticipantView,
    fault: ParticipantFault,
    revoked: Result<(), CoordinationFault>,
)
    ensures
        v.revoked(Err(fault), revoked).1.action == ParticipantActionView::Finish(
            Err::<(), ParticipantFault>(fault),
        ),
{
}

/// The participant's loop.
pub struct ParticipantLoop {
    instance: InstanceId,
    session: Option<EtcdParticipantSession>,
    queue: Option<(Vec<TransitionMessage>, Revision)>,
    stage: ParticipantStage,
}

impl View for ParticipantLoop {
    type V = ParticipantView;

    closed spec fn view(&self) -> ParticipantView {
        ParticipantView {
            instance: self.instance@,
            session: match self.session {
                Some(session) => Some(session@),
                None => None,
            },
            queue: match self.queue {
                Some(queue) => Some((queue.0.deep_view(), queue.1)),
                None => None,
            },
            stage: self.stage@,
        }
    }
}

impl View for ParticipantEvent {
    type V = ParticipantEventView;

    open spec fn view(&self) -> ParticipantEventView {
        match self {
            ParticipantEvent::Registered(result) => ParticipantEventView::Registered(
                match result {
                    Ok(Some(session)) => Ok(Some(session@)),
                    Ok(None) => Ok(None),
                    Err(error) => Err(error@),
                },
            ),
            ParticipantEvent::Opened(result) => ParticipantEventView::Opened(
                match result {
                    Ok(queue) => Ok((queue.0.deep_view(), queue.1)),
                    Err(error) => Err(error@),
                },
            ),
            ParticipantEvent::Processed(result) => ParticipantEventView::Processed(ended(*result)),
            ParticipantEvent::Called(result) => ParticipantEventView::Called(ended(*result)),
            ParticipantEvent::Shutdown => ParticipantEventView::Shutdown,
            ParticipantEvent::Watched(result) => ParticipantEventView::Watched(
                match result {
                    Ok(event) => Ok((event.0@, event.1.deep_view(), event.0.at())),
                    Err(error) => Err(error@),
                },
            ),
            ParticipantEvent::Resumed(result) => ParticipantEventView::Resumed(
                match result {
                    Ok(()) => Ok(()),
                    Err(error) => Err(error@),
                },
            ),
            ParticipantEvent::Tick => ParticipantEventView::Tick,
            ParticipantEvent::Kept(result) => ParticipantEventView::Kept(
                match result {
                    Ok(outcome) => Ok(*outcome),
                    Err(error) => Err(error@),
                },
            ),
            ParticipantEvent::Worker(end) => ParticipantEventView::Worker(
                execution::worker_result(*end),
            ),
            ParticipantEvent::Drained(result) => ParticipantEventView::Drained(ended(*result)),
            ParticipantEvent::Reconnected(result) => ParticipantEventView::Reconnected(
                match result {
                    Ok(session) => Ok(session@),
                    Err(error) => Err(error@),
                },
            ),
            ParticipantEvent::Elapsed => ParticipantEventView::Elapsed,
            ParticipantEvent::Revoked(result) => ParticipantEventView::Revoked(
                match result {
                    Ok(()) => Ok(()),
                    Err(error) => Err(error@),
                },
            ),
        }
    }
}

fn quiet(action: ParticipantAction) -> (r: ParticipantStep)
    ensures
        r@ == quietly(action@),
{
    ParticipantStep { action, event: None }
}

fn tell(action: ParticipantAction, event: RuntimeEvent) -> (r: ParticipantStep)
    ensures
        r@ == telling(action@, event@),
{
    ParticipantStep { action, event: Some(event) }
}

impl ParticipantLoop {
    /// Begin to take part: a session is asked for. The lease must be one that
    /// the store can hold.
    pub fn run_until(instance: InstanceId, lease_ttl: Duration) -> (r: Result<
        (ParticipantLoop, ParticipantStep),
        ParticipantRuntimeError,
    >)
        ensures
            match r {
                Ok((participant, step)) => {
                    &&& registration::lease_ttl_is_valid(lease_ttl@)
                    &&& participant@ == (ParticipantView {
                        instance: instance@,
                        session: None,
                        queue: None,
                        stage: ParticipantStageView::Registering,
                    })
                    &&& step@ == quietly(ParticipantActionView::Register)
                },
                Err(error) => !registration::lease_ttl_is_valid(lease_ttl@) && error@
                    == ParticipantFault::Coordination(CoordinationFault::InvalidLeaseTtl),
            },
    {
        match RegistrationOptions::new(lease_ttl) {
            Err(error) => Err(ParticipantRuntimeError::Coordination(error)),
            Ok(_) => Ok(
                (
                    ParticipantLoop {
                        instance,
                        session: None,
                        queue: None,
                        stage: ParticipantStage::Registering,
                    },
                    quiet(ParticipantAction::Register),
                ),
            ),
        }
    }

    /// The session, where the participant has one.
    pub fn session(&self) -> (r: Option<&EtcdParticipantSession>)
        ensures
            match r {
                Some(session) => self@.session == Some(session@),
                None => self@.session is None,
            },
    {
        self.session.as_ref()
    }

    fn go(&mut self, stage: ParticipantStage, action: ParticipantAction) -> (r: ParticipantStep)
        ensures
            (final(self)@, r@) == old(self)@.go(stage@, action@),
    {
        self.stage = stage;
        quiet(action)
    }

    fn revoke(&mut self, result: Result<(), ParticipantRuntimeError>) -> (r: ParticipantStep)
        ensures
            (final(self)@, r@) == old(self)@.revoke(ended(result)),
    {
        self.go(ParticipantStage::Revoking(result), ParticipantAction::Revoke)
    }

    fn drain(&mut self) -> (r: ParticipantStep)
        ensures
            (final(self)@, r@) == old(self)@.drain(),
    {
        self.go(ParticipantStage::Draining, ParticipantAction::Drain)
    }

    fn wait_or(&mut self, result: Result<(), ParticipantRuntimeError>) -> (r: ParticipantStep)
        ensures
            (final(self)@, r@) == match ended(result) {
                Ok(()) => old(self)@.go(ParticipantStageView::Running, ParticipantActionView::Wait),
                Err(fault) => old(self)@.revoke(Err(fault)),
            },
    {
        match result {
            Ok(()) => self.go(ParticipantStage::Running, ParticipantAction::Wait),
            Err(error) => self.revoke(Err(error)),
        }
    }

    fn process(&mut self, stage: ParticipantStage) -> (r: ParticipantStep)
        ensures
            (final(self)@, r@) == old(self)@.process(stage@),
    {
        let action = match &self.queue {
            Some(queue) => ParticipantAction::Process(queue.0.duplicate(), queue.1),
            None => {
                return self.go(ParticipantStage::Running, ParticipantAction::Wait);
            },
        };
        self.go(stage, action)
    }

    fn on_registered(
        &mut self,
        result: Result<Option<EtcdParticipantSession>, ParticipantRuntimeError>,
    ) -> (r: ParticipantStep)
        ensures
            (final(self)@, r@) == old(self)@.registered(
                match result {
                    Ok(Some(session)) => Ok(Some(session@)),
                    Ok(None) => Ok(None),
                    Err(error) => Err(error@),
                },
            ),
    {
        match result {
            Err(error) => self.go(ParticipantStage::Over, ParticipantAction::Finish(Err(error))),
            Ok(None) => {
                self.stage = ParticipantStage::Over;
                tell(
                    ParticipantAction::Finish(Ok(())),
                    RuntimeEvent::GracefulShutdown { identity: self.instance.to_string() },
                )
            },
            Ok(Some(session)) => {
                self.session = Some(session);
                self.go(ParticipantStage::Opening, ParticipantAction::OpenQueue)
            },
        }
    }

    fn on_opened(
        &mut self,
        after: ParticipantStage,
        result: Result<(Vec<TransitionMessage>, Revision), CoordinationError>,
    ) -> (r: ParticipantStep)
        ensures
            (final(self)@, r@) == old(self)@.opened(
                after@,
                match result {
                    Ok(queue) => Ok((queue.0.deep_view(), queue.1)),
                    Err(error) => Err(error@),
                },
            ),
    {
        match result {
            Ok(queue) => {
                self.queue = Some(queue);
                self.process(after)
            },
            Err(error) => {
                let again = match &self.stage {
                    ParticipantStage::Reopening => error.is_transient(),
                    _ => false,
                };
                if again {
                    self.go(ParticipantStage::ReopeningAgain, ParticipantAction::Pause)
                } else {
                    self.revoke(Err(ParticipantRuntimeError::Coordination(error)))
                }
            },
        }
    }

    fn on_watched(
        &mut self,
        result: Result<(WatchEvent, Option<Vec<TransitionMessage>>), WatchError>,
    ) -> (r: ParticipantStep)
        ensures
            (final(self)@, r@) == old(self)@.watched(
                match result {
                    Ok(event) => Ok((event.0@, event.1.deep_view(), event.0.at())),
                    Err(error) => Err(error@),
                },
            ),
    {
        match result {
            Ok((event, decoded)) => {
                if !text::text_eq(event.key(), "controller/output/pending-transitions") {
                    return self.go(ParticipantStage::Running, ParticipantAction::Wait);
                }
                match execution::parse_event_messages(&event, decoded) {
                    Err(error) => self.revoke(Err(error)),
                    Ok(messages) => {
                        self.queue = Some((messages, event.revision()));
                        self.process(ParticipantStage::Processing)
                    },
                }
            },
            Err(WatchError::Compacted { .. }) => self.go(
                ParticipantStage::Replacing,
                ParticipantAction::OpenQueue,
            ),
            Err(error) => if error.is_transient() {
                self.stage = ParticipantStage::Resuming;
                tell(
                    ParticipantAction::Resume,
                    RuntimeEvent::CoordinationRetry { operation: "participant watch".to_owned() },
                )
            } else {
                self.revoke(Err(ParticipantRuntimeError::Watch(error)))
            },
        }
    }

    fn on_kept(&mut self, result: Result<KeepaliveOutcome, ParticipantRuntimeError>) -> (r:
        ParticipantStep)
        ensures
            (final(self)@, r@) == old(self)@.kept(
                match result {
                    Ok(outcome) => Ok(outcome),
                    Err(error) => Err(error@),
                },
            ),
    {
        match result {
            Err(error) => self.revoke(Err(error)),
            Ok(KeepaliveOutcome::Healthy) => self.go(
                ParticipantStage::Running,
                ParticipantAction::Wait,
            ),
            Ok(KeepaliveOutcome::Shutdown) => self.drain(),
            Ok(KeepaliveOutcome::Expired) => {
                self.stage = ParticipantStage::DrainingLost;
                tell(
                    ParticipantAction::DrainLost,
                    RuntimeEvent::LeaseRecovery { identity: self.instance.to_string() },
                )
            },
        }
    }

    fn on_reconnected(
        &mut self,
        result: Result<EtcdParticipantSession, ParticipantRuntimeError>,
    ) -> (r: ParticipantStep)
        ensures
            (final(self)@, r@) == old(self)@.reconnected(
                match result {
                    Ok(session) => Ok(session@),
                    Err(error) => Err(error@),
                },
            ),
    {
        match result {
            Ok(session) => {
                let event = RuntimeEvent::LeaseReregistered {
                    identity: self.instance.to_string(),
                    session_id: session.session_id().wire_value(),
                };
                self.session = Some(session);
                self.stage = ParticipantStage::Reopening;
                tell(ParticipantAction::OpenQueue, event)
            },
            Err(error) => if error.is_transient() {
                self.go(ParticipantStage::ReconnectingAgain, ParticipantAction::Pause)
            } else {
                self.revoke(Err(error))
            },
        }
    }

    fn on_revoked(
        &mut self,
        result: Result<(), ParticipantRuntimeError>,
        revoked: Result<(), CoordinationError>,
    ) -> (r: ParticipantStep)
        ensures
            (final(self)@, r@) == old(self)@.revoked(
                ended(result),
                match revoked {
                    Ok(()) => Ok(()),
                    Err(error) => Err(error@),
                },
            ),
    {
        let outcome = match result {
            Err(error) => Err(error),
            Ok(()) => match revoked {
                Err(error) => Err(ParticipantRuntimeError::Coordination(error)),
                Ok(()) => Ok(()),
            },
        };
        let identity = self.instance.to_string();
        let event = match &outcome {
            Err(error) => RuntimeEvent::FatalRuntimeError { identity, message: error.to_string() },
            Ok(()) => RuntimeEvent::GracefulShutdown { identity },
        };
        self.stage = ParticipantStage::Over;
        tell(ParticipantAction::Finish(outcome), event)
    }

    fn on_shutdown(&mut self) -> (r: ParticipantStep)
        ensures
            (final(self)@, r@) == old(self)@.shutdown(),
    {
        match &self.stage {
            ParticipantStage::Running => self.drain(),
            ParticipantStage::Resuming => self.drain(),
            ParticipantStage::ReconnectingAgain => self.revoke(Ok(())),
            ParticipantStage::ReopeningAgain => self.revoke(Ok(())),
            _ => quiet(ParticipantAction::Nothing),
        }
    }

    fn take_result(&mut self) -> (r: Result<(), ParticipantRuntimeError>)
        requires
            old(self)@.stage is Revoking,
        ensures
            old(self)@.stage == ParticipantStageView::Revoking(ended(r)),
            final(self)@ == old(self)@.at(ParticipantStageView::Over),
    {
        let mut stage = ParticipantStage::Over;
        std::mem::swap(&mut stage, &mut self.stage);
        match stage {
            ParticipantStage::Revoking(result) => result,
            _ => Ok(()),
        }
    }

    /// Go on after an event. An event that the participant does not wait for
    /// changes nothing.
    pub fn on_event(&mut self, event: ParticipantEvent) -> (r: ParticipantStep)
        ensures
            (final(self)@, r@) == old(self)@.next(event@),
    {
        match (event, &self.stage) {
            (ParticipantEvent::Shutdown, _) => self.on_shutdown(),
            (
                ParticipantEvent::Registered(result),
                ParticipantStage::Registering,
            ) => self.on_registered(result),
            (ParticipantEvent::Opened(result), ParticipantStage::Opening) => self.on_opened(
                ParticipantStage::Starting,
                result,
            ),
            (ParticipantEvent::Opened(result), ParticipantStage::Replacing) => self.on_opened(
                ParticipantStage::Processing,
                result,
            ),
            (ParticipantEvent::Opened(result), ParticipantStage::Reopening) => self.on_opened(
                ParticipantStage::Processing,
                result,
            ),
            (ParticipantEvent::Processed(result), ParticipantStage::Starting) => match result {
                Ok(()) => self.go(ParticipantStage::Ready, ParticipantAction::CallReady),
                Err(error) => self.revoke(Err(error)),
            },
            (ParticipantEvent::Processed(result), ParticipantStage::Processing) => self.wait_or(
                result,
            ),
            (ParticipantEvent::Called(result), ParticipantStage::Ready) => self.wait_or(result),
            (ParticipantEvent::Watched(result), ParticipantStage::Running) => self.on_watched(
                result,
            ),
            (ParticipantEvent::Resumed(result), ParticipantStage::Resuming) => match result {
                Ok(()) => self.go(ParticipantStage::Running, ParticipantAction::Wait),
                Err(error) => self.revoke(Err(ParticipantRuntimeError::Watch(error))),
            },
            (ParticipantEvent::Tick, ParticipantStage::Running) => self.go(
                ParticipantStage::Keeping,
                ParticipantAction::KeepAlive,
            ),
            (ParticipantEvent::Kept(result), ParticipantStage::Keeping) => self.on_kept(result),
            (ParticipantEvent::Worker(end), ParticipantStage::Running) => {
                match execution::handle_worker_result(end) {
                    Ok(()) => self.process(ParticipantStage::Processing),
                    Err(error) => self.revoke(Err(error)),
                }
            },
            (ParticipantEvent::Drained(result), ParticipantStage::Draining) => self.revoke(result),
            (ParticipantEvent::Drained(result), ParticipantStage::DrainingLost) => match result {
                Ok(()) => self.go(ParticipantStage::Reconnecting, ParticipantAction::Reconnect),
                Err(error) => self.revoke(Err(error)),
            },
            (
                ParticipantEvent::Reconnected(result),
                ParticipantStage::Reconnecting,
            ) => self.on_reconnected(result),
            (ParticipantEvent::Elapsed, ParticipantStage::ReconnectingAgain) => self.go(
                ParticipantStage::Reconnecting,
                ParticipantAction::Reconnect,
            ),
            (ParticipantEvent::Elapsed, ParticipantStage::ReopeningAgain) => self.go(
                ParticipantStage::Reopening,
                ParticipantAction::OpenQueue,
            ),
            (ParticipantEvent::Revoked(revoked), ParticipantStage::Revoking(_)) => {
                let result = self.take_result();
                self.on_revoked(result, revoked)
            },
            _ => quiet(ParticipantAction::Nothing),
        }
    }
}

} // verus!
