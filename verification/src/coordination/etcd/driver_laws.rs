//! Every operation on the store can be driven by its own actions: whatever the
//! store replies, the operation is ready for the reply to what it asked for.
use crate::coordination::etcd::metadata::{self, WatermarkView};
use crate::coordination::etcd::publication::{self, ExpiryView, PublicationView};
use crate::coordination::etcd::queue::{
    self, ClaimView, CompletionView, InjectionView, PurgeView, QueueActionView,
};
use crate::coordination::etcd::registration::{
    RegistrationActionView, RegistrationStateView,
};
use crate::coordination::etcd::store::{self, ActionView};
use vstd::prelude::*;

verus! {

/// The advance of a watermark is ready for the reply to the action.
pub open spec fn watermark_awaits(v: WatermarkView, action: ActionView<i64>) -> bool {
    v.attempts < metadata::MAX_QUEUE_CAS_RETRIES && match action {
        ActionView::Read(_) => v.stage is Reading,
        ActionView::Commit(_) => v.stage !is Reading,
        ActionView::Finish(_) => false,
    }
}

/// The advance of a watermark can be driven to its end.
pub proof fn watermarks_can_be_driven(
    v: WatermarkView,
    asked: ActionView<i64>,
    entry: Option<store::EntryView>,
    succeeded: bool,
    header: Option<i64>,
)
    requires
        watermark_awaits(v, asked),
    ensures
        ({
            let (next, action) = match asked {
                ActionView::Read(_) => v.read(entry),
                _ => v.outcome(succeeded, header),
            };
            action is Finish || watermark_awaits(next, action)
        }),
{
}

/// A publication is ready for the reply to the action.
pub open spec fn publication_awaits(v: PublicationView, action: ActionView<i64>) -> bool {
    v.valid() && match action {
        ActionView::Read(_) => v.stage !is Commit,
        ActionView::Commit(_) => v.stage is Commit,
        ActionView::Finish(_) => false,
    }
}

/// A publication can be driven to its end. The fence holds as many sessions as
/// a machine can count.
pub proof fn publications_can_be_driven(
    v: PublicationView,
    asked: ActionView<i64>,
    entry: Option<store::EntryView>,
    succeeded: bool,
    header: Option<i64>,
)
    requires
        publication_awaits(v, asked),
        v.sessions().len() <= usize::MAX,
    ensures
        ({
            let (next, action) = match asked {
                ActionView::Read(_) => v.read(entry),
                _ => v.outcome(succeeded, header),
            };
            action is Finish || publication_awaits(next, action)
        }),
{
}

/// The record of an expired lease is ready for the reply to the action.
pub open spec fn expiry_awaits(v: ExpiryView, action: ActionView<i64>) -> bool {
    v.attempts < publication::MAX_PUBLICATION_ATTEMPTS && match action {
        ActionView::Read(_) => v.stage !is Commit,
        ActionView::Commit(_) => v.stage is Commit,
        ActionView::Finish(_) => false,
    }
}

/// The record of an expired lease can be driven to its end.
pub proof fn expiry_records_can_be_driven(
    v: ExpiryView,
    asked: ActionView<i64>,
    entry: Option<store::EntryView>,
    succeeded: bool,
    header: Option<i64>,
)
    requires
        expiry_awaits(v, asked),
    ensures
        ({
            let (next, action) = match asked {
                ActionView::Read(_) => v.read(entry),
                _ => v.outcome(succeeded, header),
            };
            action is Finish || expiry_awaits(next, action)
        }),
{
}

/// An injection is ready for the reply to the action.
pub open spec fn injection_awaits(v: InjectionView, action: QueueActionView<i64>) -> bool {
    v.attempts < metadata::MAX_QUEUE_CAS_RETRIES && match action {
        QueueActionView::ReadQueue => v.stage is Queue || v.stage is Confirm,
        QueueActionView::ReadNamespace => v.stage is Namespace,
        QueueActionView::Commit(_) => v.stage is Creating || v.stage is Replacing,
        _ => false,
    }
}

/// An injection can be driven to its end.
pub proof fn injections_can_be_driven(
    v: InjectionView,
    asked: QueueActionView<i64>,
    entry: Option<queue::QueueView>,
    succeeded: bool,
    header: Option<i64>,
)
    requires
        injection_awaits(v, asked),
    ensures
        ({
            let (next, action) = match asked {
                QueueActionView::ReadQueue => v.queue(entry),
                QueueActionView::ReadNamespace => v.namespace(),
                _ => v.outcome(succeeded, header),
            };
            action is Finish || injection_awaits(next, action)
        }),
{
}

/// A claim is ready for the reply to the action.
pub open spec fn claim_awaits(
    v: ClaimView,
    action: QueueActionView<queue::TransitionClaim>,
) -> bool {
    v.attempts < metadata::MAX_QUEUE_CAS_RETRIES && match action {
        QueueActionView::ReadQueue => v.stage is Queue,
        QueueActionView::Commit(_) => v.stage is Commit,
        QueueActionView::ReadLiveSession => v.stage is LiveSession,
        _ => false,
    }
}

/// A claim can be driven to its end.
pub proof fn claims_can_be_driven(
    v: ClaimView,
    asked: QueueActionView<queue::TransitionClaim>,
    entry: Option<queue::QueueView>,
    succeeded: bool,
    session: Option<u64>,
)
    requires
        claim_awaits(v, asked),
    ensures
        ({
            let (next, action) = match asked {
                QueueActionView::ReadQueue => v.queue(entry),
                QueueActionView::Commit(_) => v.outcome(succeeded),
                _ => v.live(session),
            };
            action is Finish || claim_awaits(next, action)
        }),
{
}

/// A completion is ready for the reply to the action.
pub open spec fn completion_awaits(
    v: CompletionView,
    action: QueueActionView<queue::Completed>,
) -> bool {
    match action {
        QueueActionView::ReadQueue => v.stage is Queue || v.stage is CleanupQueue,
        QueueActionView::Commit(_) => v.stage is Commit || v.stage is CleanupCommit,
        QueueActionView::ReadLiveSession => v.stage is LiveSession,
        _ => false,
    }
}

/// A completion can be driven to its end.
pub proof fn completions_can_be_driven(
    v: CompletionView,
    asked: QueueActionView<queue::Completed>,
    entry: Option<queue::QueueView>,
    succeeded: bool,
    header: Option<i64>,
    session: Option<u64>,
)
    requires
        completion_awaits(v, asked),
    ensures
        ({
            let (next, action) = match asked {
                QueueActionView::ReadQueue => v.queue(entry),
                QueueActionView::Commit(_) => v.outcome(succeeded, header),
                _ => v.live(session),
            };
            action is Finish || completion_awaits(next, action)
        }),
{
}

/// The removal of a resource's messages can be driven to its end.
pub proof fn purges_can_be_driven(
    v: PurgeView,
    entry: Option<queue::QueueView>,
    succeeded: bool,
    header: Option<i64>,
)
    requires
        v.attempts < metadata::MAX_QUEUE_CAS_RETRIES,
    ensures
        v.queue(entry) is Finish || v.queue(entry) is Commit,
        v.outcome(succeeded, header).1 is Finish || (v.outcome(succeeded, header).1 is ReadQueue
            && v.outcome(succeeded, header).0.attempts < metadata::MAX_QUEUE_CAS_RETRIES),
{
}

/// A registration is ready for the reply to the action.
pub open spec fn registration_awaits(
    v: RegistrationStateView,
    action: RegistrationActionView,
) -> bool {
    v.valid() && match action {
        RegistrationActionView::List(_) => v.stage is Sessions || v.stage is Carried,
        RegistrationActionView::Read(_) => v.stage is Sequence,
        RegistrationActionView::Commit(_) => v.stage is Allocate || v.stage is Register,
        RegistrationActionView::Grant(_) => v.stage is Grant,
        RegistrationActionView::Revoke(_) => v.stage is Revoke,
        RegistrationActionView::Finish(_) => false,
    }
}

/// A registration can be driven until it ends, or until the lease that it could
/// not use is to be revoked.
pub proof fn registrations_can_be_driven(
    v: RegistrationStateView,
    asked: RegistrationActionView,
    entries: Seq<store::EntryView>,
    entry: Option<store::EntryView>,
    succeeded: bool,
    header: Option<i64>,
    lease: i64,
)
    requires
        registration_awaits(v, asked),
        asked !is Revoke,
    ensures
        ({
            let (next, action) = match asked {
                RegistrationActionView::List(_) => v.listed(entries),
                RegistrationActionView::Read(_) => v.read(entry),
                RegistrationActionView::Grant(_) => v.granted(lease),
                _ => v.outcome(succeeded, header),
            };
            action is Finish || registration_awaits(next, action)
        }),
{
}

} // verus!
