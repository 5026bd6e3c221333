//! The execution of one transition message.
use crate::coordination::etcd::error::CoordinationFault;
use crate::coordination::etcd::queue;
use crate::coordination::etcd::{
    CompletionResult, CoordinationError, ParticipantCompletionFence, Revision, TransitionClaim,
};
use crate::model::state_model;
use crate::model::{InstanceId, PartitionId, ResourceId, SessionId, State, StateModelDefinition};
use crate::ordered::{Duplicate, Key};
use crate::participant::error::{ParticipantFault, ParticipantRuntimeError};
use crate::participant::execution::{self, TransitionExecution};
use crate::text;
use crate::transition::{MessageView, TransitionMessage};
use vstd::prelude::*;
use vstd::string::*;

verus! {

/// How often a stale completion is tried with a newer queue.
pub const MAX_COMPLETION_FENCE_RETRIES: usize = 256;

/// How often a stale removal is tried with a newer queue.
pub const MAX_CLEANUP_RETRIES: usize = 256;

/// What the application made of a transition.
pub enum HandlerOutcome {
    Succeeded,
    /// The application failed.
    Application,
    /// The application did not return.
    Join(String),
}

/// What the application made of a transition.
pub enum HandlerResult {
    Succeeded,
    Application,
    Join(Seq<char>),
}

impl View for HandlerOutcome {
    type V = HandlerResult;

    open spec fn view(&self) -> HandlerResult {
        match self {
            HandlerOutcome::Succeeded => HandlerResult::Succeeded,
            HandlerOutcome::Application => HandlerResult::Application,
            HandlerOutcome::Join(error) => HandlerResult::Join(error@),
        }
    }
}

/// Where the execution of a message stands.
pub enum ExecutionStage {
    /// The current state is being read.
    Reading,
    /// The message is being claimed.
    Claiming,
    /// The application works on the message that was claimed at a revision.
    Handling(Revision),
    /// The resulting state is being published.
    Completing(Option<State>, usize),
    /// The queue has changed: it is being read again.
    Refencing(Option<State>, usize),
    /// The message is being removed, after which the execution ends so.
    Cleaning(CompletionResult, usize),
    /// The queue has changed: it is being read again.
    Recleaning(CompletionResult, usize),
    /// The execution has ended.
    Over,
}

/// Where the execution of a message stands.
pub enum ExecutionStageView {
    Reading,
    Claiming,
    Handling(Revision),
    Completing(Option<Seq<char>>, usize),
    Refencing(Option<Seq<char>>, usize),
    Cleaning(CompletionResult, usize),
    Recleaning(CompletionResult, usize),
    Over,
}

impl View for ExecutionStage {
    type V = ExecutionStageView;

    open spec fn view(&self) -> ExecutionStageView {
        match self {
            ExecutionStage::Reading => ExecutionStageView::Reading,
            ExecutionStage::Claiming => ExecutionStageView::Claiming,
            ExecutionStage::Handling(revision) => ExecutionStageView::Handling(*revision),
            ExecutionStage::Completing(state, tries) => ExecutionStageView::Completing(
                state.deep_view(),
                *tries,
            ),
            ExecutionStage::Refencing(state, tries) => ExecutionStageView::Refencing(
                state.deep_view(),
                *tries,
            ),
            ExecutionStage::Cleaning(after, tries) => ExecutionStageView::Cleaning(*after, *tries),
            ExecutionStage::Recleaning(after, tries) => ExecutionStageView::Recleaning(
                *after,
                *tries,
            ),
            ExecutionStage::Over => ExecutionStageView::Over,
        }
    }
}

/// What the execution of a message does next.
pub enum ExecutionAction {
    /// Read the current state of the replica.
    ReadCurrent(ResourceId, PartitionId),
    /// Claim the message.
    Claim,
    /// Let the application work.
    Handle(TransitionExecution),
    /// Complete the message behind the fence with the resulting state.
    Complete(ParticipantCompletionFence, Option<State>),
    /// Remove the message from the queue of this revision.
    Remove(Revision),
    /// Read the revision of the queue.
    ReadQueue,
    /// The execution has ended.
    Finish(Result<CompletionResult, ParticipantRuntimeError>),
}

/// What the execution of a message does next.
pub enum ExecutionActionView {
    ReadCurrent(Seq<char>, Seq<char>),
    Claim,
    Handle(execution::ExecutionView),
    Complete(queue::CompletionFenceView, Option<Seq<char>>),
    Remove(Revision),
    ReadQueue,
    Finish(Result<CompletionResult, ParticipantFault>),
}

impl View for ExecutionAction {
    type V = ExecutionActionView;

    open spec fn view(&self) -> ExecutionActionView {
        match self {
            ExecutionAction::ReadCurrent(resource, partition) => ExecutionActionView::ReadCurrent(
                resource@,
                partition@,
            ),
            ExecutionAction::Claim => ExecutionActionView::Claim,
            ExecutionAction::Handle(execution) => ExecutionActionView::Handle(execution@),
            ExecutionAction::Complete(fence, state) => ExecutionActionView::Complete(
                fence@,
                state.deep_view(),
            ),
            ExecutionAction::Remove(revision) => ExecutionActionView::Remove(*revision),
            ExecutionAction::ReadQueue => ExecutionActionView::ReadQueue,
            ExecutionAction::Finish(result) => ExecutionActionView::Finish(
                match result {
                    Ok(completed) => Ok(*completed),
                    Err(error) => Err(error@),
                },
            ),
        }
    }
}

/// The execution of a message.
pub struct MessageExecutionView {
    pub instance: Seq<char>,
    pub session: u64,
    pub model: state_model::StateModelView,
    pub message: MessageView,
    pub revision: Revision,
    pub stage: ExecutionStageView,
}

impl MessageExecutionView {
    pub open spec fn at(self, stage: ExecutionStageView) -> MessageExecutionView {
        MessageExecutionView { stage, ..self }
    }

    pub open spec fn finish(self, result: Result<CompletionResult, ParticipantFault>) -> (
        MessageExecutionView,
        ExecutionActionView,
    ) {
        (self.at(ExecutionStageView::Over), ExecutionActionView::Finish(result))
    }

    /// The store could not be asked.
    pub open spec fn failed(self, fault: CoordinationFault) -> (
        MessageExecutionView,
        ExecutionActionView,
    ) {
        self.finish(Err(ParticipantFault::Coordination(fault)))
    }

    /// Remove the message, and end so.
    pub open spec fn clean(self, after: CompletionResult, tries: usize) -> (
        MessageExecutionView,
        ExecutionActionView,
    ) {
        (
            self.at(ExecutionStageView::Cleaning(after, tries)),
            ExecutionActionView::Remove(self.revision),
        )
    }

    /// Publish the resulting state.
    pub open spec fn complete(self, state: Option<Seq<char>>, tries: usize) -> (
        MessageExecutionView,
        ExecutionActionView,
    ) {
        (
            self.at(ExecutionStageView::Completing(state, tries)),
            ExecutionActionView::Complete(
                queue::CompletionFenceView {
                    instance: self.instance,
                    session: self.session,
                    revision: self.revision,
                    message: self.message.message_id,
                },
                state,
            ),
        )
    }

    /// The message is a state transition for this session.
    pub open spec fn is_own(self) -> bool {
        self.message.message_type == "STATE_TRANSITION"@ && self.message.target_session
            == self.session
    }

    /// The message leads from the current state to a neighbour that is still to
    /// be reached.
    pub open spec fn is_due(self, current: Seq<char>) -> bool {
        current == self.message.from && current != self.message.to && self.model.next(
            current,
            self.message.to,
        ) == Some(self.message.to)
    }

    /// What follows the current state. Without a published state the replica is
    /// in the initial state.
    pub open spec fn current(self, result: Result<Option<Seq<char>>, CoordinationFault>) -> (
        MessageExecutionView,
        ExecutionActionView,
    ) {
        match result {
            Err(fault) => self.failed(fault),
            Ok(found) => {
                let current = match found {
                    Some(state) => state,
                    None => self.model.initial,
                };
                if !self.is_own() {
                    self.clean(CompletionResult::AlreadyCompleted, 1)
                } else if self.message.from.len() == 0 || self.message.to.len() == 0 {
                    self.finish(Err(ParticipantFault::InvalidMessage))
                } else if !self.is_due(current) {
                    self.clean(CompletionResult::AlreadyCompleted, 1)
                } else {
                    (self.at(ExecutionStageView::Claiming), ExecutionActionView::Claim)
                }
            },
        }
    }

    /// What follows the claim.
    pub open spec fn claimed(self, result: Result<TransitionClaim, CoordinationFault>) -> (
        MessageExecutionView,
        ExecutionActionView,
    ) {
        match result {
            Err(fault) => self.failed(fault),
            Ok(TransitionClaim::Claimed(revision)) => (
                self.at(ExecutionStageView::Handling(revision)),
                ExecutionActionView::Handle(execution::execution_of(self.message)),
            ),
            Ok(TransitionClaim::SessionLost) => self.clean(CompletionResult::SessionLost, 1),
            Ok(TransitionClaim::Withdrawn) => self.finish(Ok(CompletionResult::AlreadyCompleted)),
        }
    }

    /// The state that a handled transition leads to. A dropped replica has none.
    pub open spec fn resulting(self, outcome: HandlerResult) -> Option<Seq<char>> {
        if outcome is Application {
            Some("ERROR"@)
        } else if self.message.to == "DROPPED"@ {
            None
        } else {
            Some(self.message.to)
        }
    }

    /// What follows the application's work.
    pub open spec fn handled(self, claim: Revision, outcome: HandlerResult) -> (
        MessageExecutionView,
        ExecutionActionView,
    ) {
        match outcome {
            HandlerResult::Join(error) => self.finish(Err(ParticipantFault::HandlerJoin(error))),
            _ => MessageExecutionView { revision: claim, ..self }.complete(
                self.resulting(outcome),
                1,
            ),
        }
    }

    /// What follows a completion. A stale queue is read again.
    pub open spec fn completed(
        self,
        state: Option<Seq<char>>,
        tries: usize,
        result: Result<CompletionResult, CoordinationFault>,
    ) -> (MessageExecutionView, ExecutionActionView) {
        match result {
            Ok(completed) => self.finish(Ok(completed)),
            Err(CoordinationFault::StaleRevision) => (
                self.at(ExecutionStageView::Refencing(state, tries)),
                ExecutionActionView::ReadQueue,
            ),
            Err(fault) => self.failed(fault),
        }
    }

    /// What follows a removal. A stale queue is read again.
    pub open spec fn removed(
        self,
        after: CompletionResult,
        tries: usize,
        result: Result<(), CoordinationFault>,
    ) -> (MessageExecutionView, ExecutionActionView) {
        match result {
            Ok(()) => self.finish(Ok(after)),
            Err(CoordinationFault::StaleRevision) => (
                self.at(ExecutionStageView::Recleaning(after, tries)),
                ExecutionActionView::ReadQueue,
            ),
            Err(fault) => self.failed(fault),
        }
    }

    /// What follows the revision of the queue. Without a queue there is nothing
    /// left to do. Otherwise the change is tried again, up to a bound.
    pub open spec fn queue(self, result: Result<Option<Revision>, CoordinationFault>) -> (
        MessageExecutionView,
        ExecutionActionView,
    ) {
        match (self.stage, result) {
            (_, Err(fault)) => self.failed(fault),
            (ExecutionStageView::Refencing(state, tries), Ok(found)) => match found {
                None => self.finish(Ok(CompletionResult::AlreadyCompleted)),
                Some(revision) => if tries >= MAX_COMPLETION_FENCE_RETRIES {
                    self.failed(CoordinationFault::Contention)
                } else {
                    MessageExecutionView { revision, ..self }.complete(state, (tries + 1) as usize)
                },
            },
            (ExecutionStageView::Recleaning(after, tries), Ok(found)) => match found {
                None => self.finish(Ok(after)),
                Some(revision) => if tries >= MAX_CLEANUP_RETRIES {
                    self.failed(CoordinationFault::Contention)
                } else {
                    MessageExecutionView { revision, ..self }.clean(after, (tries + 1) as usize)
                },
            },
            (_, Ok(_)) => (self, ExecutionActionView::ReadQueue),
        }
    }
}

/// The application is asked to work only on a claimed state transition for its
/// own session.
pub proof fn handlers_follow_a_claim(
    v: MessageExecutionView,
    current: Result<Option<Seq<char>>, CoordinationFault>,
    claim: Result<TransitionClaim, CoordinationFault>,
)
    requires
        v.current(current).1 is Claim,
        v.current(current).0.claimed(claim).1 is Handle,
    ensures
        v.is_own(),
        current matches Ok(found) && v.is_due(
            match found {
                Some(state) => state,
                None => v.model.initial,
            },
        ),
        claim matches Ok(TransitionClaim::Claimed(_)),
        v.current(current).0.claimed(claim).1 == ExecutionActionView::Handle(
            execution::execution_of(v.message),
        ),
{
}

/// A message of another session, or one that is no longer due, is removed
/// without the application's work.
pub proof fn stale_messages_are_removed(v: MessageExecutionView, current: Seq<char>)
    requires
        v.message.from.len() > 0,
        v.message.to.len() > 0,
        !v.is_own() || !v.is_due(current),
    ensures
        v.current(Ok(Some(current))).1 == ExecutionActionView::Remove(v.revision),
        v.current(Ok(Some(current))).0.removed(CompletionResult::AlreadyCompleted, 1, Ok(())).1
            == ExecutionActionView::Finish(
            Ok::<CompletionResult, ParticipantFault>(CompletionResult::AlreadyCompleted),
        ),
{
}

/// A failed transition is published as an error, and a dropped replica loses its
/// state.
pub proof fn handled_transitions_are_published(v: MessageExecutionView, claim: Revision)
    ensures
        v.handled(claim, HandlerResult::Application).1 matches ExecutionActionView::Complete(
            fence,
            state,
        ) && state == Some("ERROR"@) && fence.revision == claim,
        v.handled(claim, HandlerResult::Succeeded).1 matches ExecutionActionView::Complete(
            fence,
            state,
        ) && fence.revision == claim && (state is None <==> v.message.to == "DROPPED"@) && (
        state is Some ==> state == Some(v.message.to)),
{
}

/// A stale completion is tried again with the fence of the newer queue, and the
/// same resulting state.
pub proof fn stale_completions_are_refenced(
    v: MessageExecutionView,
    state: Option<Seq<char>>,
    tries: usize,
    revision: Revision,
)
    requires
        tries < MAX_COMPLETION_FENCE_RETRIES,
    ensures
        ({
            let stale: Result<CompletionResult, CoordinationFault> = Err(
                CoordinationFault::StaleRevision,
            );
            let reread = v.completed(state, tries, stale);
            &&& reread.1 is ReadQueue
            &&& reread.0.queue(Ok(Some(revision))).1 == ExecutionActionView::Complete(
                queue::CompletionFenceView {
                    instance: v.instance,
                    session: v.session,
                    revision,
                    message: v.message.message_id,
                },
                state,
            )
        }),
{
}

/// The execution of a message is ready for the reply to the action.
pub open spec fn execution_awaits(v: MessageExecutionView, action: ExecutionActionView) -> bool {
    match action {
        ExecutionActionView::ReadCurrent(_, _) => v.stage is Reading,
        ExecutionActionView::Claim => v.stage is Claiming,
        ExecutionActionView::Handle(_) => v.stage is Handling,
        ExecutionActionView::Complete(_, _) => v.stage is Completing,
        ExecutionActionView::Remove(_) => v.stage is Cleaning,
        ExecutionActionView::ReadQueue => v.stage is Refencing || v.stage is Recleaning,
        ExecutionActionView::Finish(_) => false,
    }
}

/// The execution of a message can be driven to its end by its own actions.
pub proof fn executions_can_be_driven(
    v: MessageExecutionView,
    asked: ExecutionActionView,
    current: Result<Option<Seq<char>>, CoordinationFault>,
    claim: Result<TransitionClaim, CoordinationFault>,
    outcome: HandlerResult,
    completion: Result<CompletionResult, CoordinationFault>,
    removal: Result<(), CoordinationFault>,
    found: Result<Option<Revision>, CoordinationFault>,
)
    requires
        execution_awaits(v, asked),
    ensures
        ({
            let (next, action) = match (asked, v.stage) {
                (ExecutionActionView::ReadCurrent(_, _), _) => v.current(current),
                (ExecutionActionView::Claim, _) => v.claimed(claim),
                (
                    ExecutionActionView::Handle(_),
                    ExecutionStageView::Handling(revision),
                ) => v.handled(revision, outcome),
                (
                    ExecutionActionView::Complete(_, _),
                    ExecutionStageView::Completing(state, tries),
                ) => v.completed(state, tries, completion),
                (
                    ExecutionActionView::Remove(_),
                    ExecutionStageView::Cleaning(after, tries),
                ) => v.removed(after, tries, removal),
                _ => v.queue(found),
            };
            action is Finish || execution_awaits(next, action)
        }),
{
}

/// The execution of a message.
pub struct MessageExecution {
    instance: InstanceId,
    session_id: SessionId,
    model: StateModelDefinition,
    message: TransitionMessage,
    revision: Revision,
    stage: ExecutionStage,
}

impl View for MessageExecution {
    type V = MessageExecutionView;

    closed spec fn view(&self) -> MessageExecutionView {
        MessageExecutionView {
            instance: self.instance@,
            session: self.session_id@,
            model: self.model@,
            message: self.message@,
            revision: self.revision,
            stage: self.stage@,
        }
    }
}

impl MessageExecution {
    #[verifier::type_invariant]
    spec fn inv(self) -> bool {
        &&& self.message@.resource.len() > 0
        &&& self.message@.partition.len() > 0
        &&& (self.stage is Claiming || self.stage is Handling) ==> execution::well_named(
            self.message@,
        )
    }

    /// Begin to execute a message: the current state of its replica is read. A
    /// message for an invalid resource or partition is invalid.
    pub fn execute_message(
        instance: InstanceId,
        session_id: SessionId,
        model: StateModelDefinition,
        message: TransitionMessage,
        queue_revision: Revision,
    ) -> (r: Result<(MessageExecution, ExecutionAction), ParticipantRuntimeError>)
        ensures
            match r {
                Ok((execution, action)) => {
                    &&& message@.resource.len() > 0
                    &&& message@.partition.len() > 0
                    &&& execution@ == (MessageExecutionView {
                        instance: instance@,
                        session: session_id@,
                        model: model@,
                        message: message@,
                        revision: queue_revision,
                        stage: ExecutionStageView::Reading,
                    })
                    &&& action@ == ExecutionActionView::ReadCurrent(
                        message@.resource,
                        message@.partition,
                    )
                },
                Err(error) => (message@.resource.len() == 0 || message@.partition.len() == 0)
                    && error@ == ParticipantFault::InvalidMessage,
            },
    {
        let resource = match execution::resource_id(&message) {
            Ok(resource) => resource,
            Err(error) => {
                return Err(error);
            },
        };
        let partition = match execution::partition_id(&message) {
            Ok(partition) => partition,
            Err(error) => {
                return Err(error);
            },
        };
        Ok(
            (
                MessageExecution {
                    instance,
                    session_id,
                    model,
                    message,
                    revision: queue_revision,
                    stage: ExecutionStage::Reading,
                },
                ExecutionAction::ReadCurrent(resource, partition),
            ),
        )
    }

    fn finish(&mut self, result: Result<CompletionResult, ParticipantRuntimeError>) -> (r:
        ExecutionAction)
        ensures
            (final(self)@, r@) == old(self)@.finish(
                match result {
                    Ok(completed) => Ok(completed),
                    Err(error) => Err(error@),
                },
            ),
    {
        proof {
            use_type_invariant(&*self);
        }
        self.stage = ExecutionStage::Over;
        ExecutionAction::Finish(result)
    }

    fn failed(&mut self, error: CoordinationError) -> (r: ExecutionAction)
        ensures
            (final(self)@, r@) == old(self)@.failed(error@),
    {
        self.finish(Err(ParticipantRuntimeError::Coordination(error)))
    }

    fn clean(&mut self, after: CompletionResult, tries: usize) -> (r: ExecutionAction)
        ensures
            (final(self)@, r@) == old(self)@.clean(after, tries),
    {
        proof {
            use_type_invariant(&*self);
        }
        self.stage = ExecutionStage::Cleaning(after, tries);
        ExecutionAction::Remove(self.revision)
    }

    fn complete(&mut self, state: Option<State>, tries: usize) -> (r: ExecutionAction)
        ensures
            (final(self)@, r@) == old(self)@.complete(state.deep_view(), tries),
    {
        proof {
            use_type_invariant(&*self);
        }
        let fence = ParticipantCompletionFence::new(
            self.instance.duplicate(),
            self.session_id,
            self.revision,
            self.message.message_id.clone(),
        );
        let published = state.duplicate();
        self.stage = ExecutionStage::Completing(state, tries);
        ExecutionAction::Complete(fence, published)
    }

    fn is_due(&self, current: &State, from: &State, to: &State) -> (r: bool)
        requires
            from@ == self@.message.from,
            to@ == self@.message.to,
        ensures
            r == self@.is_due(current@),
    {
        if current.same(to) || !current.same(from) {
            return false;
        }
        match self.model.next_state_toward(current, to) {
            Some(next) => next.same(to),
            None => false,
        }
    }

    /// Go on with the current state that was read.
    pub fn on_current(&mut self, result: Result<Option<State>, CoordinationError>) -> (r:
        ExecutionAction)
        requires
            old(self)@.stage is Reading,
        ensures
            (final(self)@, r@) == old(self)@.current(
                match result {
                    Ok(found) => Ok(found.deep_view()),
                    Err(error) => Err(error@),
                },
            ),
    {
        proof {
            use_type_invariant(&*self);
        }
        let current = match result {
            Err(error) => {
                return self.failed(error);
            },
            Ok(Some(state)) => state,
            Ok(None) => self.model.initial_state().duplicate(),
        };
        if !text::text_eq(self.message.message_type.as_str(), "STATE_TRANSITION")
            || self.message.target_session != self.session_id.wire_value() {
            return self.clean(CompletionResult::AlreadyCompleted, 1);
        }
        let from = match State::new(self.message.from.as_str()) {
            Ok(state) => state,
            Err(_) => {
                return self.finish(Err(ParticipantRuntimeError::InvalidMessage));
            },
        };
        let to = match State::new(self.message.to.as_str()) {
            Ok(state) => state,
            Err(_) => {
                return self.finish(Err(ParticipantRuntimeError::InvalidMessage));
            },
        };
        if !self.is_due(&current, &from, &to) {
            return self.clean(CompletionResult::AlreadyCompleted, 1);
        }
        self.stage = ExecutionStage::Claiming;
        ExecutionAction::Claim
    }

    /// Go on with the claim of the message.
    pub fn on_claim(&mut self, result: Result<TransitionClaim, CoordinationError>) -> (r:
        ExecutionAction)
        requires
            old(self)@.stage is Claiming,
        ensures
            (final(self)@, r@) == old(self)@.claimed(
                match result {
                    Ok(claim) => Ok(claim),
                    Err(error) => Err(error@),
                },
            ),
    {
        proof {
            use_type_invariant(&*self);
        }
        match result {
            Err(error) => self.failed(error),
            Ok(TransitionClaim::Claimed(revision)) => match TransitionExecution::new(
                &self.message,
            ) {
                Ok(execution) => {
                    self.stage = ExecutionStage::Handling(revision);
                    ExecutionAction::Handle(execution)
                },
                Err(error) => self.finish(Err(error)),
            },
            Ok(TransitionClaim::SessionLost) => self.clean(CompletionResult::SessionLost, 1),
            Ok(TransitionClaim::Withdrawn) => self.finish(Ok(CompletionResult::AlreadyCompleted)),
        }
    }

    /// Go on with what the application made of the transition.
    pub fn on_handled(&mut self, outcome: HandlerOutcome) -> (r: ExecutionAction)
        requires
            old(self)@.stage is Handling,
        ensures
            (final(self)@, r@) == old(self)@.handled(old(self)@.stage->Handling_0, outcome@),
    {
        proof {
            use_type_invariant(&*self);
        }
        let claim = match &self.stage {
            ExecutionStage::Handling(claim) => *claim,
            _ => self.revision,
        };
        let name: String = match outcome {
            HandlerOutcome::Join(error) => {
                return self.finish(Err(ParticipantRuntimeError::HandlerJoin(error)));
            },
            HandlerOutcome::Application => "ERROR".to_owned(),
            HandlerOutcome::Succeeded => self.message.to.clone(),
        };
        let dropped = match outcome {
            HandlerOutcome::Succeeded => text::text_eq(name.as_str(), "DROPPED"),
            _ => false,
        };
        let state = if dropped {
            None
        } else {
            match State::new(name.as_str()) {
                Ok(state) => Some(state),
                Err(_) => None,
            }
        };
        self.revision = claim;
        proof {
            reveal_strlit("ERROR");
            assert(state.deep_view() == old(self)@.resulting(outcome@));
        }
        self.complete(state, 1)
    }

    /// Go on after the completion was committed or refused.
    pub fn on_completed(&mut self, result: Result<CompletionResult, CoordinationError>) -> (r:
        ExecutionAction)
        requires
            old(self)@.stage is Completing,
        ensures
            (final(self)@, r@) == old(self)@.completed(
                old(self)@.stage->Completing_0,
                old(self)@.stage->Completing_1,
                match result {
                    Ok(completed) => Ok(completed),
                    Err(error) => Err(error@),
                },
            ),
    {
        proof {
            use_type_invariant(&*self);
        }
        match result {
            Ok(completed) => self.finish(Ok(completed)),
            Err(CoordinationError::StaleRevision) => {
                let mut stage = ExecutionStage::Over;
                std::mem::swap(&mut stage, &mut self.stage);
                if let ExecutionStage::Completing(state, tries) = stage {
                    self.stage = ExecutionStage::Refencing(state, tries);
                }
                ExecutionAction::ReadQueue
            },
            Err(error) => self.failed(error),
        }
    }

    /// Go on after the message was removed, or the removal refused.
    pub fn on_removed(&mut self, result: Result<bool, CoordinationError>) -> (r: ExecutionAction)
        requires
            old(self)@.stage is Cleaning,
        ensures
            (final(self)@, r@) == old(self)@.removed(
                old(self)@.stage->Cleaning_0,
                old(self)@.stage->Cleaning_1,
                match result {
                    Ok(_) => Ok(()),
                    Err(error) => Err(error@),
                },
            ),
    {
        proof {
            use_type_invariant(&*self);
        }
        let (after, tries): (CompletionResult, usize) = match &self.stage {
            ExecutionStage::Cleaning(after, tries) => (*after, *tries),
            _ => (CompletionResult::AlreadyCompleted, 1),
        };
        match result {
            Ok(_) => self.finish(Ok(after)),
            Err(CoordinationError::StaleRevision) => {
                self.stage = ExecutionStage::Recleaning(after, tries);
                ExecutionAction::ReadQueue
            },
            Err(error) => self.failed(error),
        }
    }

    /// Go on with the revision of the queue that was read again.
    pub fn on_queue(&mut self, result: Result<Option<Revision>, CoordinationError>) -> (r:
        ExecutionAction)
        requires
            old(self)@.stage is Refencing || old(self)@.stage is Recleaning,
        ensures
            (final(self)@, r@) == old(self)@.queue(
                match result {
                    Ok(found) => Ok(found),
                    Err(error) => Err(error@),
                },
            ),
    {
        proof {
            use_type_invariant(&*self);
        }
        let found = match result {
            Err(error) => {
                return self.failed(error);
            },
            Ok(found) => found,
        };
        let mut stage = ExecutionStage::Over;
        std::mem::swap(&mut stage, &mut self.stage);
        match stage {
            ExecutionStage::Refencing(state, tries) => match found {
                None => self.finish(Ok(CompletionResult::AlreadyCompleted)),
                Some(revision) => if tries >= MAX_COMPLETION_FENCE_RETRIES {
                    self.failed(CoordinationError::Contention)
                } else {
                    self.revision = revision;
                    self.complete(state, tries + 1)
                },
            },
            ExecutionStage::Recleaning(after, tries) => match found {
                None => self.finish(Ok(after)),
                Some(revision) => if tries >= MAX_CLEANUP_RETRIES {
                    self.failed(CoordinationError::Contention)
                } else {
                    self.revision = revision;
                    self.clean(after, tries + 1)
                },
            },
            _ => ExecutionAction::ReadQueue,
        }
    }
}

} // verus!
