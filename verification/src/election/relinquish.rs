//! The release of an election lease.
use crate::coordination::etcd::keys;
use crate::coordination::etcd::publication;
use crate::coordination::etcd::store;
use crate::coordination::etcd::{
    Condition, CoordinationError, EtcdNamespace, KeyValue, Mutation, Transaction,
};
use crate::coordination::etcd::error::CoordinationFault;
use crate::election::authority::{self, ControllerAuthority};
use crate::election::error::{ElectionError, ElectionFault};
use vstd::prelude::*;

verus! {

/// How often the release is looked for.
pub const RELINQUISH_CONFIRM_ATTEMPTS: u32 = 200;

/// How long a release is waited for before it is looked for again, in
/// milliseconds.
pub const RELINQUISH_CONFIRM_DELAY_MS: u64 = 10;

/// What a release does next.
pub enum RelinquishAction {
    /// Commit a transaction, whatever comes of it.
    Delete(Transaction),
    /// Revoke the lease.
    Revoke(i64),
    /// Read the entry at a key.
    Read(String),
    /// Wait before the release is looked for again.
    Pause,
    /// The release is over.
    Finish(Result<(), ElectionError>),
}

/// What a release does next.
pub enum RelinquishActionView {
    Delete(store::TransactionView),
    Revoke(i64),
    Read(Seq<char>),
    Pause,
    Finish(Result<(), ElectionFault>),
}

impl View for RelinquishAction {
    type V = RelinquishActionView;

    open spec fn view(&self) -> RelinquishActionView {
        match self {
            RelinquishAction::Delete(transaction) => RelinquishActionView::Delete(transaction@),
            RelinquishAction::Revoke(lease) => RelinquishActionView::Revoke(*lease),
            RelinquishAction::Read(key) => RelinquishActionView::Read(key@),
            RelinquishAction::Pause => RelinquishActionView::Pause,
            RelinquishAction::Finish(Ok(())) => RelinquishActionView::Finish(Ok(())),
            RelinquishAction::Finish(Err(error)) => RelinquishActionView::Finish(Err(error@)),
        }
    }
}

/// Where a release stands.
#[derive(Clone, Copy, Debug, PartialEq, Eq, Structural)]
pub enum RelinquishStage {
    /// The candidate record is being deleted.
    Candidate,
    /// The active record is being deleted.
    Active,
    /// The lease is being revoked.
    Revoke,
    /// The candidate record is being looked for.
    ConfirmCandidate,
    /// The active record is being looked for. The flag says whether the
    /// candidate record is still owned.
    ConfirmActive(bool),
    /// Waiting before the records are looked for again.
    Pause,
}

/// The release of an election lease.
pub struct RelinquishView {
    pub prefix: Seq<char>,
    pub authority: authority::AuthorityView,
    pub attempts: nat,
    pub stage: RelinquishStage,
}

/// Delete an election record that is attached to the lease.
pub open spec fn owned_deletion(key: Seq<char>, lease: i64) -> store::TransactionView {
    store::no_changes().requiring(store::ConditionView::Lease { key, lease }).changing(
        store::MutationView::Delete { key },
    )
}

/// The record is attached to the lease.
pub open spec fn owned(lease: i64, entry: Option<store::EntryView>) -> bool {
    entry matches Some(entry) && entry.lease == lease
}

impl RelinquishView {
    pub open spec fn at(self, stage: RelinquishStage) -> RelinquishView {
        RelinquishView { stage, ..self }
    }

    pub open spec fn candidate_key(self) -> Seq<char> {
        keys::candidate_key_at(self.prefix, self.authority.controller)
    }

    pub open spec fn confirm(self) -> (RelinquishView, RelinquishActionView) {
        (
            self.at(RelinquishStage::ConfirmCandidate),
            RelinquishActionView::Read(self.candidate_key()),
        )
    }

    /// What follows a step that was taken: a deletion, the revocation, or a
    /// pause.
    pub open spec fn done(self) -> (RelinquishView, RelinquishActionView) {
        match self.stage {
            RelinquishStage::Candidate => (
                self.at(RelinquishStage::Active),
                RelinquishActionView::Delete(
                    owned_deletion(publication::active_key(self.prefix), self.authority.lease),
                ),
            ),
            RelinquishStage::Active => (
                self.at(RelinquishStage::Revoke),
                RelinquishActionView::Revoke(self.authority.lease),
            ),
            _ => self.confirm(),
        }
    }

    /// What follows a read.
    pub open spec fn read(self, entry: Option<store::EntryView>) -> (
        RelinquishView,
        RelinquishActionView,
    ) {
        let remains = owned(self.authority.lease, entry);
        match self.stage {
            RelinquishStage::ConfirmActive(before) => if !before && !remains {
                (self, RelinquishActionView::Finish(Ok(())))
            } else if self.attempts + 1 < RELINQUISH_CONFIRM_ATTEMPTS {
                (
                    RelinquishView {
                        attempts: self.attempts + 1,
                        stage: RelinquishStage::Pause,
                        ..self
                    },
                    RelinquishActionView::Pause,
                )
            } else {
                (
                    self,
                    RelinquishActionView::Finish(
                        Err(ElectionFault::Coordination(CoordinationFault::Contention)),
                    ),
                )
            },
            _ => (
                self.at(RelinquishStage::ConfirmActive(remains)),
                RelinquishActionView::Read(publication::active_key(self.prefix)),
            ),
        }
    }
}

/// A release never deletes the record of a replacement: each deletion applies
/// only to a record that is attached to the released lease.
pub proof fn release_spares_replacements(key: Seq<char>, lease: i64, s: store::StoreView)
    requires
        lease != 0,
        owned_deletion(key, lease).applies(s),
    ensures
        s.dom().contains(key) && s[key].lease == lease,
{
    assert(owned_deletion(key, lease).conditions[0].holds(s));
}

/// A release is ready for the reply to the action.
pub open spec fn release_awaits(v: RelinquishView, action: RelinquishActionView) -> bool {
    v.attempts < RELINQUISH_CONFIRM_ATTEMPTS && match action {
        RelinquishActionView::Read(_) => v.stage is ConfirmCandidate || v.stage is ConfirmActive,
        RelinquishActionView::Finish(_) => false,
        _ => !(v.stage is ConfirmCandidate || v.stage is ConfirmActive),
    }
}

/// A release can be driven to its end by its own actions.
pub proof fn releases_can_be_driven(
    v: RelinquishView,
    asked: RelinquishActionView,
    entry: Option<store::EntryView>,
)
    requires
        release_awaits(v, asked),
    ensures
        ({
            let (next, action) = if asked is Read {
                v.read(entry)
            } else {
                v.done()
            };
            action is Finish || release_awaits(next, action)
        }),
{
}

/// The release of an election lease. Its records are deleted first, so that a
/// caller that observes the release no longer sees the controller as active.
pub struct Relinquishment {
    namespace: EtcdNamespace,
    authority: ControllerAuthority,
    attempts: u32,
    stage: RelinquishStage,
}

impl View for Relinquishment {
    type V = RelinquishView;

    closed spec fn view(&self) -> RelinquishView {
        RelinquishView {
            prefix: self.namespace@.prefix,
            authority: self.authority@,
            attempts: self.attempts as nat,
            stage: self.stage,
        }
    }
}

fn deletion(key: String, lease: i64) -> (r: Transaction)
    ensures
        r@ == owned_deletion(key@, lease),
{
    Transaction::new().require(Condition::Lease { key: key.clone(), lease }).change(
        Mutation::Delete { key },
    )
}

impl Relinquishment {
    /// Begin to release the lease of an authority: its candidate record is
    /// deleted first.
    pub fn relinquish(namespace: EtcdNamespace, authority: ControllerAuthority) -> (r: (
        Relinquishment,
        RelinquishAction,
    ))
        ensures
            r.0@ == (RelinquishView {
                prefix: namespace@.prefix,
                authority: authority@,
                attempts: 0,
                stage: RelinquishStage::Candidate,
            }),
            r.1@ == RelinquishActionView::Delete(
                owned_deletion(
                    keys::candidate_key_at(namespace@.prefix, authority@.controller),
                    authority@.lease,
                ),
            ),
    {
        let key = namespace.controller_candidate_key(authority.controller_id());
        let delete = deletion(key, authority.lease_id());
        (
            Relinquishment { namespace, authority, attempts: 0, stage: RelinquishStage::Candidate },
            RelinquishAction::Delete(delete),
        )
    }

    /// Go on after a deletion, the revocation, or a pause.
    pub fn on_done(&mut self) -> (r: RelinquishAction)
        ensures
            (final(self)@, r@) == old(self)@.done(),
    {
        match self.stage {
            RelinquishStage::Candidate => {
                self.stage = RelinquishStage::Active;
                RelinquishAction::Delete(
                    deletion(self.namespace.controller_active_key(), self.authority.lease_id()),
                )
            },
            RelinquishStage::Active => {
                self.stage = RelinquishStage::Revoke;
                RelinquishAction::Revoke(self.authority.lease_id())
            },
            _ => {
                self.stage = RelinquishStage::ConfirmCandidate;
                RelinquishAction::Read(
                    self.namespace.controller_candidate_key(self.authority.controller_id()),
                )
            },
        }
    }

    /// Go on with the record that was read.
    pub fn on_entry(&mut self, entry: Option<&KeyValue>) -> (r: RelinquishAction)
        requires
            old(self)@.attempts < RELINQUISH_CONFIRM_ATTEMPTS,
        ensures
            (final(self)@, r@) == old(self)@.read(entry.deep_view()),
            final(self)@.attempts < RELINQUISH_CONFIRM_ATTEMPTS,
    {
        let remains = match entry {
            Some(entry) => entry.lease == self.authority.lease_id(),
            None => false,
        };
        if let RelinquishStage::ConfirmActive(before) = self.stage {
            if !before && !remains {
                return RelinquishAction::Finish(Ok(()));
            }
            if self.attempts + 1 < RELINQUISH_CONFIRM_ATTEMPTS {
                self.attempts = self.attempts + 1;
                self.stage = RelinquishStage::Pause;
                return RelinquishAction::Pause;
            }
            return RelinquishAction::Finish(
                Err(ElectionError::Coordination(CoordinationError::Contention)),
            );
        }
        self.stage = RelinquishStage::ConfirmActive(remains);
        RelinquishAction::Read(self.namespace.controller_active_key())
    }
}

} // verus!
