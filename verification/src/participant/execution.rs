//! What an application is asked to do, and what it answers.
use crate::coordination::etcd::queue;
use crate::coordination::etcd::watch;
use crate::coordination::etcd::{WatchEvent, WatchEventKind};
use crate::model::{InstanceId, PartitionId, ResourceId, State};
use crate::ordered::{Duplicate, Key};
use crate::participant::error::{ParticipantFault, ParticipantRuntimeError};
use crate::text;
use crate::transition::{MessageView, TransitionMessage};
use vstd::prelude::*;
use vstd::string::*;

verus! {

/// The typed LeaderStandby state projection exposed by the application facade.
#[derive(Clone, Debug, PartialEq, Eq)]
pub enum ResourceState {
    Offline,
    Standby,
    Leader,
    Dropped,
    Error,
    /// A state from a custom model that the facade does not represent.
    Other(String),
}

/// The typed projection of a state.
pub enum ProjectedState {
    Offline,
    Standby,
    Leader,
    Dropped,
    Error,
    Other(Seq<char>),
}

/// The projection of a state name.
pub open spec fn projected(name: Seq<char>) -> ProjectedState {
    if name == "OFFLINE"@ {
        ProjectedState::Offline
    } else if name == "STANDBY"@ {
        ProjectedState::Standby
    } else if name == "LEADER"@ {
        ProjectedState::Leader
    } else if name == "DROPPED"@ {
        ProjectedState::Dropped
    } else if name == "ERROR"@ {
        ProjectedState::Error
    } else {
        ProjectedState::Other(name)
    }
}

impl ProjectedState {
    /// The state name.
    pub open spec fn name(self) -> Seq<char> {
        match self {
            ProjectedState::Offline => "OFFLINE"@,
            ProjectedState::Standby => "STANDBY"@,
            ProjectedState::Leader => "LEADER"@,
            ProjectedState::Dropped => "DROPPED"@,
            ProjectedState::Error => "ERROR"@,
            ProjectedState::Other(state) => state,
        }
    }
}

/// A projected state keeps its name.
pub proof fn projection_keeps_the_name(name: Seq<char>)
    ensures
        projected(name).name() == name,
{
}

impl View for ResourceState {
    type V = ProjectedState;

    open spec fn view(&self) -> ProjectedState {
        match self {
            ResourceState::Offline => ProjectedState::Offline,
            ResourceState::Standby => ProjectedState::Standby,
            ResourceState::Leader => ProjectedState::Leader,
            ResourceState::Dropped => ProjectedState::Dropped,
            ResourceState::Error => ProjectedState::Error,
            ResourceState::Other(state) => ProjectedState::Other(state@),
        }
    }
}

impl ResourceState {
    /// The projection of a state.
    pub fn from_state(state: &State) -> (r: ResourceState)
        ensures
            r@ == projected(state@),
    {
        let name = state.as_str();
        if text::text_eq(name, "OFFLINE") {
            ResourceState::Offline
        } else if text::text_eq(name, "STANDBY") {
            ResourceState::Standby
        } else if text::text_eq(name, "LEADER") {
            ResourceState::Leader
        } else if text::text_eq(name, "DROPPED") {
            ResourceState::Dropped
        } else if text::text_eq(name, "ERROR") {
            ResourceState::Error
        } else {
            ResourceState::Other(name.to_owned())
        }
    }

    /// Return the low-level state name.
    pub fn as_str(&self) -> (r: &str)
        ensures
            r@ == self@.name(),
    {
        match self {
            ResourceState::Offline => "OFFLINE",
            ResourceState::Standby => "STANDBY",
            ResourceState::Leader => "LEADER",
            ResourceState::Dropped => "DROPPED",
            ResourceState::Error => "ERROR",
            ResourceState::Other(state) => state.as_str(),
        }
    }

    /// Return the low-level state name as an owned text.
    pub fn to_string(&self) -> (r: String)
        ensures
            r@ == self@.name(),
    {
        self.as_str().to_owned()
    }

    fn copied(&self) -> (r: ResourceState)
        ensures
            r@ == self@,
    {
        match self {
            ResourceState::Offline => ResourceState::Offline,
            ResourceState::Standby => ResourceState::Standby,
            ResourceState::Leader => ResourceState::Leader,
            ResourceState::Dropped => ResourceState::Dropped,
            ResourceState::Error => ResourceState::Error,
            ResourceState::Other(state) => ResourceState::Other(state.clone()),
        }
    }
}

/// Stable identity of one controller transition attempt.
#[derive(Clone, Debug, PartialEq, Eq, PartialOrd, Ord, Hash)]
pub struct TransitionAttemptId(String);

impl View for TransitionAttemptId {
    type V = Seq<char>;

    closed spec fn view(&self) -> Seq<char> {
        self.0@
    }
}

impl TransitionAttemptId {
    /// The identity of an attempt.
    pub fn new(value: String) -> (r: TransitionAttemptId)
        ensures
            r@ == value@,
    {
        TransitionAttemptId(value)
    }

    /// Return the stable transition identity.
    pub fn as_str(&self) -> (r: &str)
        ensures
            r@ == self@,
    {
        self.0.as_str()
    }

    /// Return the stable transition identity as an owned text.
    pub fn to_string(&self) -> (r: String)
        ensures
            r@ == self@,
    {
        self.0.clone()
    }
}

/// The resource of a message.
pub fn resource_id(message: &TransitionMessage) -> (r: Result<ResourceId, ParticipantRuntimeError>)
    ensures
        match r {
            Ok(resource) => message@.resource.len() > 0 && resource@ == message@.resource,
            Err(error) => message@.resource.len() == 0 && error@
                == ParticipantFault::InvalidMessage,
        },
{
    match ResourceId::new(message.resource.as_str()) {
        Ok(resource) => Ok(resource),
        Err(_) => Err(ParticipantRuntimeError::InvalidMessage),
    }
}

/// The partition of a message.
pub fn partition_id(message: &TransitionMessage) -> (r: Result<
    PartitionId,
    ParticipantRuntimeError,
>)
    ensures
        match r {
            Ok(partition) => message@.partition.len() > 0 && partition@ == message@.partition,
            Err(error) => message@.partition.len() == 0 && error@
                == ParticipantFault::InvalidMessage,
        },
{
    match PartitionId::new(message.partition.as_str()) {
        Ok(partition) => Ok(partition),
        Err(_) => Err(ParticipantRuntimeError::InvalidMessage),
    }
}

/// What an application is asked to do.
#[verifier::ext_equal]
pub struct ExecutionView {
    pub resource: Seq<char>,
    pub partition: Seq<char>,
    pub source: Seq<char>,
    pub target: Seq<char>,
    pub id: Seq<char>,
}

/// The message names a resource, a partition, and both states.
pub open spec fn well_named(message: MessageView) -> bool {
    message.resource.len() > 0 && message.partition.len() > 0 && message.from.len() > 0
        && message.to.len() > 0
}

/// What a message asks of an application.
pub open spec fn execution_of(message: MessageView) -> ExecutionView {
    ExecutionView {
        resource: message.resource,
        partition: message.partition,
        source: message.from,
        target: message.to,
        id: message.message_id,
    }
}

/// The application/data-plane request for one state-model transition.
#[derive(Debug, PartialEq, Eq)]
pub struct TransitionExecution {
    resource: ResourceId,
    partition: PartitionId,
    source_state: State,
    target_state: State,
    transition_id: String,
}

impl View for TransitionExecution {
    type V = ExecutionView;

    closed spec fn view(&self) -> ExecutionView {
        ExecutionView {
            resource: self.resource@,
            partition: self.partition@,
            source: self.source_state@,
            target: self.target_state@,
            id: self.transition_id@,
        }
    }
}

impl TransitionExecution {
    /// What a message asks of an application. A message that leaves out a name
    /// is invalid.
    pub fn new(message: &TransitionMessage) -> (r: Result<
        TransitionExecution,
        ParticipantRuntimeError,
    >)
        ensures
            match r {
                Ok(execution) => well_named(message@) && execution@ == execution_of(message@),
                Err(error) => !well_named(message@) && error@ == ParticipantFault::InvalidMessage,
            },
    {
        let resource = match resource_id(message) {
            Ok(resource) => resource,
            Err(error) => {
                return Err(error);
            },
        };
        let partition = match partition_id(message) {
            Ok(partition) => partition,
            Err(error) => {
                return Err(error);
            },
        };
        let source_state = match State::new(message.from.as_str()) {
            Ok(state) => state,
            Err(_) => {
                return Err(ParticipantRuntimeError::InvalidMessage);
            },
        };
        let target_state = match State::new(message.to.as_str()) {
            Ok(state) => state,
            Err(_) => {
                return Err(ParticipantRuntimeError::InvalidMessage);
            },
        };
        Ok(
            TransitionExecution {
                resource,
                partition,
                source_state,
                target_state,
                transition_id: message.message_id.clone(),
            },
        )
    }

    /// Return the resource being transitioned.
    pub fn resource(&self) -> (r: &ResourceId)
        ensures
            r@ == self@.resource,
    {
        &self.resource
    }

    /// Return the partition being transitioned.
    pub fn partition(&self) -> (r: &PartitionId)
        ensures
            r@ == self@.partition,
    {
        &self.partition
    }

    /// Return the state reported before the transition.
    pub fn source_state(&self) -> (r: &State)
        ensures
            r@ == self@.source,
    {
        &self.source_state
    }

    /// Return the state requested by the controller.
    pub fn target_state(&self) -> (r: &State)
        ensures
            r@ == self@.target,
    {
        &self.target_state
    }

    /// Return the stable controller message identity.
    pub fn transition_id(&self) -> (r: &str)
        ensures
            r@ == self@.id,
    {
        self.transition_id.as_str()
    }
}

impl Clone for TransitionExecution {
    fn clone(&self) -> (r: Self)
        ensures
            r@ == self@,
    {
        TransitionExecution {
            resource: self.resource.duplicate(),
            partition: self.partition.duplicate(),
            source_state: self.source_state.duplicate(),
            target_state: self.target_state.duplicate(),
            transition_id: self.transition_id.clone(),
        }
    }
}

/// What the facade tells an application of a transition.
pub struct ResourceTransitionView {
    pub partition: Seq<char>,
    pub source: ProjectedState,
    pub target: ProjectedState,
    pub attempt: Seq<char>,
}

/// Owned application-facing description of one resource transition.
#[derive(Debug, PartialEq, Eq)]
pub struct ResourceTransition {
    partition: PartitionId,
    source: ResourceState,
    target: ResourceState,
    attempt_id: TransitionAttemptId,
}

impl View for ResourceTransition {
    type V = ResourceTransitionView;

    closed spec fn view(&self) -> ResourceTransitionView {
        ResourceTransitionView {
            partition: self.partition@,
            source: self.source@,
            target: self.target@,
            attempt: self.attempt_id@,
        }
    }
}

impl ResourceTransition {
    /// Return the partition being transitioned.
    pub fn partition(&self) -> (r: &PartitionId)
        ensures
            r@ == self@.partition,
    {
        &self.partition
    }

    /// Return the state reported before the transition.
    pub fn source(&self) -> (r: ResourceState)
        ensures
            r@ == self@.source,
    {
        self.source.copied()
    }

    /// Return the state requested by the controller.
    pub fn target(&self) -> (r: ResourceState)
        ensures
            r@ == self@.target,
    {
        self.target.copied()
    }

    /// Return the stable identity of this transition attempt.
    pub fn attempt_id(&self) -> (r: &TransitionAttemptId)
        ensures
            r@ == self@.attempt,
    {
        &self.attempt_id
    }

    /// What the facade tells an application of a request.
    pub fn from_execution(execution: &TransitionExecution) -> (r: ResourceTransition)
        ensures
            r@ == (ResourceTransitionView {
                partition: execution@.partition,
                source: projected(execution@.source),
                target: projected(execution@.target),
                attempt: execution@.id,
            }),
    {
        ResourceTransition {
            partition: execution.partition.duplicate(),
            source: ResourceState::from_state(&execution.source_state),
            target: ResourceState::from_state(&execution.target_state),
            attempt_id: TransitionAttemptId::new(execution.transition_id.clone()),
        }
    }
}

/// An application transition failure.
#[derive(Clone, Debug, PartialEq, Eq)]
pub struct TransitionHandlerError(String);

/// The application-facing transition error used by the facade.
pub type TransitionError = TransitionHandlerError;

impl View for TransitionHandlerError {
    type V = Seq<char>;

    closed spec fn view(&self) -> Seq<char> {
        self.0@
    }
}

impl TransitionHandlerError {
    /// Construct an application transition error.
    pub fn new(message: &str) -> (r: TransitionHandlerError)
        ensures
            r@ == message@,
    {
        TransitionHandlerError(message.to_owned())
    }

    /// Construct an error indicating cooperative transition cancellation.
    pub fn cancelled() -> (r: TransitionHandlerError)
        ensures
            r@ == "transition cancelled"@,
    {
        TransitionHandlerError::new("transition cancelled")
    }

    /// Return the message.
    pub fn to_string(&self) -> (r: String)
        ensures
            r@ == self@,
    {
        self.0.clone()
    }
}

/// Application boundary for realizing a participant transition.
pub trait TransitionHandler {
    fn handle(&self, execution: &TransitionExecution) -> Result<(), TransitionHandlerError>
    ;
}

/// A collection of resource-scoped transition handlers.
pub struct ScopedTransitionHandler<H> {
    handlers: Vec<(ResourceId, H)>,
}

impl<H> ScopedTransitionHandler<H> {
    /// The handlers with their resources, in the order in which they were given.
    pub closed spec fn entries(&self) -> Seq<(Seq<char>, H)> {
        Seq::new(self.handlers@.len(), |i: int| (self.handlers@[i].0@, self.handlers@[i].1))
    }

    /// Construct a dispatcher from one handler per resource.
    pub fn new(handlers: Vec<(ResourceId, H)>) -> (r: ScopedTransitionHandler<H>)
        ensures
            r.entries() == Seq::new(
                handlers@.len(),
                |i: int| (handlers@[i].0@, handlers@[i].1),
            ),
    {
        ScopedTransitionHandler { handlers }
    }

    fn find(&self, resource: &ResourceId) -> (r: Option<&H>)
        ensures
            match r {
                Some(handler) => registered(self.entries(), resource@, *handler),
                None => unregistered(self.entries(), resource@),
            },
    {
        let mut i: usize = 0;
        while i < self.handlers.len()
            invariant
                i <= self.handlers@.len(),
                forall|j: int|
                    0 <= j < i ==> (#[trigger] self.entries()[j]).0 != resource@,
            decreases self.handlers@.len() - i,
        {
            if self.handlers[i].0.same(resource) {
                let handler = &self.handlers[i].1;
                assert(self.entries()[i as int] == (resource@, *handler));
                return Some(handler);
            }
            i = i + 1;
        }
        None
    }
}

/// This handler is the first that stands for the resource.
pub open spec fn registered<H>(entries: Seq<(Seq<char>, H)>, resource: Seq<char>, handler: H) -> bool {
    exists|i: int|
        0 <= i < entries.len() && #[trigger] entries[i] == (resource, handler) && forall|j: int|
            0 <= j < i ==> (#[trigger] entries[j]).0 != resource
}

/// No handler stands for the resource.
pub open spec fn unregistered<H>(entries: Seq<(Seq<char>, H)>, resource: Seq<char>) -> bool {
    forall|i: int| 0 <= i < entries.len() ==> (#[trigger] entries[i]).0 != resource
}

/// The message for a resource without a handler.
pub open spec fn unregistered_text(resource: Seq<char>) -> Seq<char> {
    "no transition handler is registered for resource "@ + resource
}

impl<H: TransitionHandler> TransitionHandler for ScopedTransitionHandler<H> {
    /// Hand the request to the handler of its resource and return what it
    /// returns. Only that one handler is called, and only once; the contract
    /// speaks of the result alone.
    fn handle(&self, execution: &TransitionExecution) -> (r: Result<(), TransitionHandlerError>)
        ensures
            unregistered(self.entries(), execution@.resource) ==> (r matches Err(error) && error@
                == unregistered_text(execution@.resource)),
            !unregistered(self.entries(), execution@.resource) ==> exists|handler: H|
                registered(self.entries(), execution@.resource, handler) && #[trigger] call_ensures(
                    H::handle,
                    (&handler, execution),
                    r,
                ),
    {
        match self.find(execution.resource()) {
            Some(handler) => {
                let ghost known = *handler;
                let r = handler.handle(execution);
                assert(registered(self.entries(), execution@.resource, known));
                assert(call_ensures(H::handle, (&known, execution), r));
                r
            },
            None => Err(
                TransitionHandlerError::new(
                    "no transition handler is registered for resource ".to_owned().concat(
                        execution.resource().as_str(),
                    ).as_str(),
                ),
            ),
        }
    }
}

/// The key under which a participant records how far it has worked through the
/// queue.
pub open spec fn progress_key(instance: Seq<char>) -> Seq<char> {
    "participant/"@ + instance + "/processed-revision"@
}

/// Return the metadata key used to record processed queue revisions.
pub fn processed_revision_key(instance: &InstanceId) -> (r: String)
    ensures
        r@ == progress_key(instance@),
{
    "participant/".to_owned().concat(instance.as_str()).concat("/processed-revision")
}

/// The messages of a decoded queue. A queue that could not be decoded, or that
/// holds a message without an identity, is invalid.
pub fn parse_queue_value(decoded: Option<Vec<TransitionMessage>>) -> (r: Result<
    Vec<TransitionMessage>,
    ParticipantRuntimeError,
>)
    ensures
        match (r, queue::queued(decoded.deep_view())) {
            (Ok(messages), Ok(model)) => messages.deep_view() == model,
            (Err(error), Err(_)) => error@ == ParticipantFault::InvalidMessage,
            _ => false,
        },
{
    match queue::parse_pending_messages(Some(decoded)) {
        Ok(messages) => Ok(messages),
        Err(_) => Err(ParticipantRuntimeError::InvalidMessage),
    }
}

/// The messages of a queue event, whose value was decoded where it could be.
pub open spec fn event_messages(
    event: watch::EventView,
    decoded: Option<Seq<MessageView>>,
) -> Result<Seq<MessageView>, ParticipantFault> {
    if event.kind == WatchEventKind::Delete {
        Ok(Seq::empty())
    } else if event.value is None {
        Err(ParticipantFault::InvalidMessage)
    } else {
        match queue::queued(decoded) {
            Ok(messages) => Ok(messages),
            Err(_) => Err(ParticipantFault::InvalidMessage),
        }
    }
}

/// The messages of a queue event. A deleted queue is empty.
pub fn parse_event_messages(event: &WatchEvent, decoded: Option<Vec<TransitionMessage>>) -> (r:
    Result<Vec<TransitionMessage>, ParticipantRuntimeError>)
    ensures
        match (r, event_messages(event@, decoded.deep_view())) {
            (Ok(messages), Ok(model)) => messages.deep_view() == model,
            (Err(error), Err(fault)) => error@ == fault,
            _ => false,
        },
{
    match event.kind() {
        WatchEventKind::Delete => {
            let none: Vec<TransitionMessage> = Vec::new();
            assert(none.deep_view() =~= Seq::empty());
            Ok(none)
        },
        WatchEventKind::Put => if event.value().is_none() {
            Err(ParticipantRuntimeError::InvalidMessage)
        } else {
            parse_queue_value(decoded)
        },
    }
}

/// How a worker ended.
pub enum WorkerEnd {
    /// The worker returned.
    Returned(Result<(), ParticipantRuntimeError>),
    /// The worker did not return.
    Failed(String),
    /// There was no worker.
    Absent,
}

/// What follows the end of a worker.
pub open spec fn worker_result(end: WorkerEnd) -> Result<(), ParticipantFault> {
    match end {
        WorkerEnd::Returned(Ok(())) => Ok(()),
        WorkerEnd::Returned(Err(error)) => Err(error@),
        WorkerEnd::Failed(error) => Err(ParticipantFault::WorkerJoin(error@)),
        WorkerEnd::Absent => Ok(()),
    }
}

/// What follows the end of a worker.
pub fn handle_worker_result(worker: WorkerEnd) -> (r: Result<(), ParticipantRuntimeError>)
    ensures
        match (r, worker_result(worker)) {
            (Ok(()), Ok(())) => true,
            (Err(error), Err(fault)) => error@ == fault,
            _ => false,
        },
{
    match worker {
        WorkerEnd::Returned(result) => result,
        WorkerEnd::Failed(error) => Err(ParticipantRuntimeError::WorkerJoin(error)),
        WorkerEnd::Absent => Ok(()),
    }
}

} // verus!
