//! What holds of a participant from one event to the next.
use crate::coordination::etcd::error::CoordinationFault;
use crate::coordination::etcd::registration;
use crate::coordination::etcd::watch;
use crate::coordination::etcd::Revision;
use crate::model::builtins;
use crate::model::state_model::StateModelView;
use crate::observability::RuntimeSignal;
use crate::participant::error::ParticipantFault;
use crate::participant::runtime;
use crate::participant::runtime::{
    ParticipantActionView, ParticipantEventView, ParticipantStageView, ParticipantView,
};
use crate::participant::session::KeepaliveOutcome;
use crate::transition::MessageView;
use vstd::prelude::*;

verus! {

/// A registered participant opens its queue under its session. One that was
/// told to stop before that ends in order, and one that cannot register ends
/// with the fault.
pub proof fn registered_participants_open_the_queue(
    v: ParticipantView,
    session: registration::IncarnationView,
    fault: ParticipantFault,
)
    requires
        v.stage is Registering,
    ensures
        ({
            let after = v.next(ParticipantEventView::Registered(Ok(Some(session))));
            &&& after.0 == (ParticipantView {
                session: Some(session),
                stage: ParticipantStageView::Opening,
                ..v
            })
            &&& after.1.action is OpenQueue && after.1.event is None
        }),
        v.next(ParticipantEventView::Registered(Ok(None))).1.action
            == ParticipantActionView::Finish(Ok::<(), ParticipantFault>(())),
        v.next(ParticipantEventView::Registered(Ok(None))).1.event == Some(
            RuntimeSignal::GracefulShutdown { identity: v.instance },
        ),
        v.next(ParticipantEventView::Registered(Err(fault))).1.action
            == ParticipantActionView::Finish(Err::<(), ParticipantFault>(fault)),
{
}

/// The messages of an opened queue are processed, and are the queue from then
/// on. After the first the ready callback is called, and after any other the
/// participant waits.
pub proof fn opened_queues_are_processed(
    v: ParticipantView,
    messages: Seq<MessageView>,
    revision: Revision,
)
    requires
        v.stage is Opening || v.stage is Replacing || v.stage is Reopening,
    ensures
        ({
            let after = v.next(ParticipantEventView::Opened(Ok((messages, revision))));
            let processed = after.0.next(ParticipantEventView::Processed(Ok(())));
            &&& after.1.action == ParticipantActionView::Process(messages, revision)
            &&& after.0.queue == Some((messages, revision))
            &&& after.0.session == v.session && after.0.instance == v.instance
            &&& v.stage is Opening ==> processed.1.action is CallReady && processed.0.next(
                ParticipantEventView::Called(Ok(())),
            ).1.action is Wait
            &&& !(v.stage is Opening) ==> processed.1.action is Wait
                && processed.0.stage is Running
        }),
{
}

/// A queue that cannot be opened ends the participant, which gives up its
/// session. After a session was replaced, one that the store fails for the
/// moment is asked for again after a pause.
pub proof fn unopened_queues(v: ParticipantView, fault: CoordinationFault)
    requires
        v.stage is Opening || v.stage is Replacing || v.stage is Reopening,
    ensures
        ({
            let after = v.next(ParticipantEventView::Opened(Err(fault)));
            &&& v.stage is Reopening && fault is Etcd ==> after.1.action is Pause && after.0.next(
                ParticipantEventView::Elapsed,
            ).1.action is OpenQueue && after.0.next(ParticipantEventView::Elapsed).0 == v
            &&& !(v.stage is Reopening && fault is Etcd) ==> after.1.action is Revoke
                && after.0.stage == ParticipantStageView::Revoking(
                Err(ParticipantFault::Coordination(fault)),
            )
        }),
{
}

/// A new queue is processed. A queue that was deleted is empty, one that cannot
/// be read ends the participant, and any other change is passed over.
pub proof fn changed_queues_are_processed(
    v: ParticipantView,
    event: watch::EventView,
    decoded: Option<Seq<MessageView>>,
    revision: Revision,
)
    requires
        v.stage is Running,
    ensures
        ({
            let after = v.next(ParticipantEventView::Watched(Ok((event, decoded, revision))));
            let own = event.key == "controller/output/pending-transitions"@;
            let readable = event.value is Some && decoded is Some && forall|k: int|
                0 <= k < decoded->0.len() ==> (#[trigger] decoded->0[k]).message_id.len() > 0;
            &&& !own ==> after.0 == v && after.1.action is Wait
            &&& own && event.kind is Delete ==> after.1.action == ParticipantActionView::Process(
                Seq::empty(),
                revision,
            )
            &&& own && event.kind is Put && readable ==> after.1.action
                == ParticipantActionView::Process(decoded->0, revision) && after.0.queue == Some(
                (decoded->0, revision),
            ) && after.0.stage is Processing
            &&& own && event.kind is Put && !readable ==> after.1.action is Revoke && after.0.stage
                == ParticipantStageView::Revoking(Err(ParticipantFault::InvalidMessage))
        }),
{
}

/// A watch that lost its history is replaced with the queue, and one that was
/// cut off is resumed. Any other fault of it ends the participant.
pub proof fn failed_watches(v: ParticipantView, fault: watch::WatchFault)
    requires
        v.stage is Running,
    ensures
        ({
            let after = v.next(ParticipantEventView::Watched(Err(fault)));
            let cut = fault is Disconnected || (fault is Coordination
                && fault->Coordination_0 is Etcd);
            &&& fault is Compacted ==> after.1.action is OpenQueue && after.0.stage is Replacing
            &&& cut ==> after.1.action is Resume && after.1.event == Some(
                RuntimeSignal::CoordinationRetry { operation: "participant watch"@ },
            ) && after.0.next(ParticipantEventView::Resumed(Ok(()))).0 == v && after.0.next(
                ParticipantEventView::Resumed(Ok(())),
            ).1.action is Wait
            &&& !(fault is Compacted) && !cut ==> after.1.action is Revoke && after.0.stage
                == ParticipantStageView::Revoking(Err(ParticipantFault::Watch(fault)))
        }),
{
}

/// Every tick the session is kept alive. A healthy one goes on, a lost one is
/// replaced once its workers have ended, and a stop drains the workers under
/// the session.
pub proof fn ticks_keep_the_session(v: ParticipantView, fault: ParticipantFault)
    ensures
        v.stage is Running ==> v.next(ParticipantEventView::Tick).1.action is KeepAlive && v.next(
            ParticipantEventView::Tick,
        ).0 == (ParticipantView { stage: ParticipantStageView::Keeping, ..v }),
        v.stage is Keeping ==> {
            let healthy = v.next(ParticipantEventView::Kept(Ok(KeepaliveOutcome::Healthy)));
            let stopped = v.next(ParticipantEventView::Kept(Ok(KeepaliveOutcome::Shutdown)));
            let lost = v.next(ParticipantEventView::Kept(Ok(KeepaliveOutcome::Expired)));
            let failed = v.next(ParticipantEventView::Kept(Err(fault)));
            &&& healthy.1.action is Wait && healthy.0.stage is Running
            &&& stopped.1.action is Drain && stopped.0.stage is Draining
            &&& lost.1.action is DrainLost && lost.1.event == Some(
                RuntimeSignal::LeaseRecovery { identity: v.instance },
            )
            &&& failed.1.action is Revoke && failed.0.stage == ParticipantStageView::Revoking(
                Err(fault),
            )
        },
{
}

/// A lost session is replaced: asked for again after a pause where the store
/// fails for the moment, and given up with the fault where it does not come
/// back.
pub proof fn replacements_are_asked_for(
    v: ParticipantView,
    session: registration::IncarnationView,
    fault: ParticipantFault,
)
    requires
        v.stage is Reconnecting,
    ensures
        ({
            let back = v.next(ParticipantEventView::Reconnected(Ok(session)));
            let failed = v.next(ParticipantEventView::Reconnected(Err(fault)));
            &&& back.0 == (ParticipantView {
                session: Some(session),
                stage: ParticipantStageView::Reopening,
                ..v
            })
            &&& back.1.action is OpenQueue && back.1.event == Some(
                RuntimeSignal::LeaseReregistered {
                    identity: v.instance,
                    session_id: session.session,
                },
            )
            &&& fault.transient() ==> failed.1.action is Pause && failed.0.next(
                ParticipantEventView::Elapsed,
            ).1.action is Reconnect && failed.0.next(ParticipantEventView::Elapsed).0 == v
            &&& !fault.transient() ==> failed.1.action is Revoke && failed.0.stage
                == ParticipantStageView::Revoking(Err(fault))
        }),
{
}

/// Whatever fails at work, in a callback or while draining ends the
/// participant with that fault, after it has given up its session.
pub proof fn failures_end_the_participant(v: ParticipantView, fault: ParticipantFault)
    ensures
        ({
            let revoking = ParticipantStageView::Revoking(Err(fault));
            &&& v.stage is Starting || v.stage is Processing ==> v.next(
                ParticipantEventView::Processed(Err(fault)),
            ).0.stage == revoking && v.next(
                ParticipantEventView::Processed(Err(fault)),
            ).1.action is Revoke
            &&& v.stage is Ready ==> v.next(ParticipantEventView::Called(Err(fault))).0.stage
                == revoking && v.next(ParticipantEventView::Called(Err(fault))).1.action is Revoke
            &&& v.stage is Running ==> v.next(ParticipantEventView::Worker(Err(fault))).0.stage
                == revoking && v.next(ParticipantEventView::Worker(Err(fault))).1.action is Revoke
            &&& v.stage is Draining || v.stage is DrainingLost ==> v.next(
                ParticipantEventView::Drained(Err(fault)),
            ).0.stage == revoking && v.next(
                ParticipantEventView::Drained(Err(fault)),
            ).1.action is Revoke
            &&& v.stage is Draining ==> v.next(ParticipantEventView::Drained(Ok(()))).0.stage
                == ParticipantStageView::Revoking(Ok(())) && v.next(
                ParticipantEventView::Drained(Ok(())),
            ).1.action is Revoke
        }),
{
}

/// A participant that is told to stop drains its workers where it has a
/// session at work, and gives up what is left of one that it is replacing.
/// Elsewhere it goes on to the next of these.
pub proof fn stopped_participants_drain(v: ParticipantView)
    ensures
        ({
            let after = v.next(ParticipantEventView::Shutdown);
            &&& v.stage is Running || v.stage is Resuming ==> after.1.action is Drain
                && after.0 == (ParticipantView { stage: ParticipantStageView::Draining, ..v })
            &&& v.stage is ReconnectingAgain || v.stage is ReopeningAgain ==> after.1.action is Revoke
                && after.0.stage == ParticipantStageView::Revoking(Ok(()))
            &&& !(v.stage is Running || v.stage is Resuming || v.stage is ReconnectingAgain
                || v.stage is ReopeningAgain) ==> after.0 == v && after.1.action is Nothing
        }),
{
}

/// A participant ends as it was to end once its session is given up. A session
/// that cannot be given up is a fault where there was none, and a fault is
/// told.
pub proof fn participants_end_as_they_were_to(
    v: ParticipantView,
    result: Result<(), ParticipantFault>,
    revoked: Result<(), CoordinationFault>,
)
    requires
        v.stage == ParticipantStageView::Revoking(result),
    ensures
        ({
            let after = v.next(ParticipantEventView::Revoked(revoked));
            &&& after.0.stage is Over
            &&& result is Ok && revoked is Ok ==> after.1.action == ParticipantActionView::Finish(
                Ok::<(), ParticipantFault>(()),
            ) && after.1.event == Some(RuntimeSignal::GracefulShutdown { identity: v.instance })
            &&& result matches Err(fault) ==> after.1.action == ParticipantActionView::Finish(
                Err::<(), ParticipantFault>(fault),
            ) && after.1.event == Some(
                RuntimeSignal::FatalRuntimeError { identity: v.instance, message: fault.text() },
            )
            &&& result is Ok && revoked is Err ==> after.1.action == ParticipantActionView::Finish(
                Err::<(), ParticipantFault>(ParticipantFault::Coordination(revoked->Err_0)),
            )
        }),
{
}

/// A participant works by its own state model where it has one, and otherwise
/// by the built-in model where the resource names that.
pub proof fn own_models_come_first(
    own: Option<StateModelView>,
    named: Option<Seq<char>>,
)
    ensures
        own matches Some(model) ==> runtime::model_for(own, named) == Ok::<
            StateModelView,
            ParticipantFault,
        >(model),
        own is None && named == Some("LeaderStandby"@) ==> runtime::model_for(own, named) == Ok::<
            StateModelView,
            ParticipantFault,
        >(builtins::leader_standby_parts().model()),
        own is None && named != Some("LeaderStandby"@) ==> runtime::model_for(own, named) == Err::<
            StateModelView,
            ParticipantFault,
        >(ParticipantFault::InvalidMessage),
{
}

} // verus!
