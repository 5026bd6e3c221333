//! What the execution of a transition message guarantees.
use crate::coordination::etcd::error::CoordinationFault;
use crate::coordination::etcd::{CompletionResult, Revision, TransitionClaim};
use crate::model::state_model;
use crate::participant::error::ParticipantFault;
use crate::participant::message::{
    ExecutionActionView, ExecutionStageView, HandlerResult, MessageExecutionView,
};
use vstd::prelude::*;

verus! {

/// The state that was read, where a replica without one is in the initial state.
pub open spec fn observed(v: MessageExecutionView, found: Option<Seq<char>>) -> Seq<char> {
    match found {
        Some(state) => state,
        None => v.model.initial,
    }
}

/// A message of the own session that leads from the observed state along a
/// transition of the model is claimed, whatever the transition is.
pub proof fn due_messages_are_claimed(v: MessageExecutionView, found: Option<Seq<char>>)
    requires
        v.model.valid(),
        v.message.message_type == "STATE_TRANSITION"@,
        v.message.target_session == v.session,
        v.message.from.len() > 0,
        v.message.to.len() > 0,
        v.message.from != v.message.to,
        v.model.transitions.contains((v.message.from, v.message.to)),
        v.message.from == observed(v, found),
    ensures
        v.current(Ok(found)).1 == ExecutionActionView::Claim,
        v.current(Ok(found)).0 == v.at(ExecutionStageView::Claiming),
{
    state_model::transitions_are_hops(v.model, v.message.from, v.message.to);
}

/// Only such a message is claimed. Any other is removed from the queue in which
/// it was found, and counts as completed; one without states is invalid.
pub proof fn other_messages_are_removed(v: MessageExecutionView, found: Option<Seq<char>>)
    requires
        v.model.valid(),
        v.message.message_type != "STATE_TRANSITION"@ || v.message.target_session != v.session
            || (v.message.from.len() > 0 && v.message.to.len() > 0 && (v.message.from
            == v.message.to || v.message.from != observed(v, found)
            || !v.model.transitions.contains((v.message.from, v.message.to)))),
    ensures
        v.current(Ok(found)).1 == ExecutionActionView::Remove(v.revision),
        v.current(Ok(found)).0.stage matches ExecutionStageView::Cleaning(after, tries) && v.current(
            Ok(found),
        ).0.removed(after, tries, Ok(())).1 == ExecutionActionView::Finish(
            Ok::<CompletionResult, ParticipantFault>(CompletionResult::AlreadyCompleted),
        ),
{
    if v.model.next(v.message.from, v.message.to) == Some(v.message.to) {
        state_model::direct_hops_are_transitions(v.model, v.message.from, v.message.to);
    }
}

/// A state transition of the own session without a source or a target is
/// refused.
pub proof fn stateless_messages_are_invalid(v: MessageExecutionView, found: Option<Seq<char>>)
    requires
        v.message.message_type == "STATE_TRANSITION"@,
        v.message.target_session == v.session,
        v.message.from.len() == 0 || v.message.to.len() == 0,
    ensures
        v.current(Ok(found)).1 == ExecutionActionView::Finish(
            Err::<CompletionResult, ParticipantFault>(ParticipantFault::InvalidMessage),
        ),
{
}

/// A due message runs through: it is claimed, the application is asked for this
/// very transition, its target is published behind a fence of the claim, and
/// the outcome of the publication is the outcome of the message. A dropped
/// replica is left without a state.
pub proof fn due_messages_run_through(
    v: MessageExecutionView,
    found: Option<Seq<char>>,
    claim: Revision,
    outcome: CompletionResult,
)
    requires
        v.model.valid(),
        v.message.message_type == "STATE_TRANSITION"@,
        v.message.target_session == v.session,
        v.message.from.len() > 0,
        v.message.to.len() > 0,
        v.message.from != v.message.to,
        v.model.transitions.contains((v.message.from, v.message.to)),
        v.message.from == observed(v, found),
    ensures
        ({
            let asked = v.current(Ok(found));
            let working = asked.0.claimed(Ok(TransitionClaim::Claimed(claim)));
            let publishing = working.0.handled(claim, HandlerResult::Succeeded);
            &&& working.1 matches ExecutionActionView::Handle(request) && {
                &&& request.resource == v.message.resource
                &&& request.partition == v.message.partition
                &&& request.source == v.message.from
                &&& request.target == v.message.to
                &&& request.id == v.message.message_id
            }
            &&& working.0.stage == ExecutionStageView::Handling(claim)
            &&& publishing.1 matches ExecutionActionView::Complete(fence, state) && {
                &&& fence.instance == v.instance
                &&& fence.session == v.session
                &&& fence.revision == claim
                &&& fence.message == v.message.message_id
                &&& v.message.to == "DROPPED"@ ==> state is None
                &&& v.message.to != "DROPPED"@ ==> state == Some(v.message.to)
                &&& publishing.0.stage matches ExecutionStageView::Completing(kept, tries)
                    && kept == state && publishing.0.completed(state, tries, Ok(outcome)).1
                    == ExecutionActionView::Finish(Ok::<CompletionResult, ParticipantFault>(outcome))
            }
        }),
{
    due_messages_are_claimed(v, found);
}

/// A transition that the application failed is published as ERROR, behind the
/// same fence, also where the replica was to be dropped. An application that
/// did not return publishes nothing.
pub proof fn failures_are_published(
    v: MessageExecutionView,
    claim: Revision,
    error: Seq<char>,
)
    ensures
        v.handled(claim, HandlerResult::Application).1 matches ExecutionActionView::Complete(
            fence,
            state,
        ) && state == Some("ERROR"@) && fence.instance == v.instance && fence.session == v.session
            && fence.revision == claim && fence.message == v.message.message_id,
        v.handled(claim, HandlerResult::Join(error)).1 == ExecutionActionView::Finish(
            Err::<CompletionResult, ParticipantFault>(ParticipantFault::HandlerJoin(error)),
        ),
{
}

/// Without a claim the application is not asked: a lost session cleans up and
/// reports its loss, and a withdrawn message is over.
pub proof fn unclaimed_messages_are_not_handled(
    v: MessageExecutionView,
    fault: CoordinationFault,
)
    ensures
        ({
            let lost = v.claimed(Ok(TransitionClaim::SessionLost));
            &&& lost.1 == ExecutionActionView::Remove(v.revision)
            &&& lost.0.stage matches ExecutionStageView::Cleaning(after, tries) && lost.0.removed(
                after,
                tries,
                Ok(()),
            ).1 == ExecutionActionView::Finish(
                Ok::<CompletionResult, ParticipantFault>(CompletionResult::SessionLost),
            )
        }),
        v.claimed(Ok(TransitionClaim::Withdrawn)).1 == ExecutionActionView::Finish(
            Ok::<CompletionResult, ParticipantFault>(CompletionResult::AlreadyCompleted),
        ),
        v.claimed(Err(fault)).1 == ExecutionActionView::Finish(
            Err::<CompletionResult, ParticipantFault>(ParticipantFault::Coordination(fault)),
        ),
        v.current(Err(fault)).1 == ExecutionActionView::Finish(
            Err::<CompletionResult, ParticipantFault>(ParticipantFault::Coordination(fault)),
        ),
{
}

/// A publication against an older queue is tried again behind a fence of the
/// newer one, with the same state, two hundred and fifty-six times in all; a
/// queue that is gone holds no message any more. Every other failure is
/// reported.
pub proof fn publications_follow_the_queue(
    v: MessageExecutionView,
    state: Option<Seq<char>>,
    tries: usize,
    newer: Revision,
    fault: CoordinationFault,
)
    ensures
        ({
            let stale = v.completed(state, tries, Err(CoordinationFault::StaleRevision));
            let again = stale.0.queue(Ok(Some(newer)));
            &&& stale.1 == ExecutionActionView::ReadQueue
            &&& tries < 256 ==> {
                &&& again.1 matches ExecutionActionView::Complete(fence, kept) && kept == state
                    && fence.revision == newer && fence.instance == v.instance && fence.session
                    == v.session && fence.message == v.message.message_id
                &&& again.0.stage == ExecutionStageView::Completing(state, (tries + 1) as usize)
            }
            &&& tries >= 256 ==> again.1 == ExecutionActionView::Finish(
                Err::<CompletionResult, ParticipantFault>(
                    ParticipantFault::Coordination(CoordinationFault::Contention),
                ),
            )
            &&& stale.0.queue(Ok(None)).1 == ExecutionActionView::Finish(
                Ok::<CompletionResult, ParticipantFault>(CompletionResult::AlreadyCompleted),
            )
        }),
        fault !is StaleRevision ==> v.completed(state, tries, Err(fault)).1
            == ExecutionActionView::Finish(
            Err::<CompletionResult, ParticipantFault>(ParticipantFault::Coordination(fault)),
        ),
{
}

/// A removal from an older queue is tried again on the newer one, two hundred
/// and fifty-six times in all, and ends as it was to end; a queue that is gone
/// needs no removal. Every other failure is reported.
pub proof fn removals_follow_the_queue(
    v: MessageExecutionView,
    after: CompletionResult,
    tries: usize,
    newer: Revision,
    fault: CoordinationFault,
)
    ensures
        ({
            let stale = v.removed(after, tries, Err(CoordinationFault::StaleRevision));
            let again = stale.0.queue(Ok(Some(newer)));
            &&& stale.1 == ExecutionActionView::ReadQueue
            &&& tries < 256 ==> again.1 == ExecutionActionView::Remove(newer) && again.0.stage
                == ExecutionStageView::Cleaning(after, (tries + 1) as usize)
            &&& tries >= 256 ==> again.1 == ExecutionActionView::Finish(
                Err::<CompletionResult, ParticipantFault>(
                    ParticipantFault::Coordination(CoordinationFault::Contention),
                ),
            )
            &&& stale.0.queue(Ok(None)).1 == ExecutionActionView::Finish(
                Ok::<CompletionResult, ParticipantFault>(after),
            )
        }),
        fault !is StaleRevision ==> v.removed(after, tries, Err(fault)).1
            == ExecutionActionView::Finish(
            Err::<CompletionResult, ParticipantFault>(ParticipantFault::Coordination(fault)),
        ),
{
}

} // verus!
