//! The campaign of a controller candidate for the active record.
use crate::coordination::etcd::error::CoordinationFault;
use crate::coordination::etcd::keys;
use crate::coordination::etcd::publication;
use crate::coordination::etcd::store;
use crate::coordination::etcd::{
    Condition, CoordinationError, EtcdNamespace, KeyValue, Mutation, Transaction,
};
use crate::election::authority::{self, ControllerAuthority};
use crate::election::error::{ElectionError, ElectionFault};
use crate::election::lease::{self, ControllerElectionConfig};
use crate::text;
use vstd::prelude::*;
use vstd::string::*;
use vstd::utf8::*;

verus! {

/// How long a candidate waits before it looks again, in milliseconds.
pub const CAMPAIGN_PERIOD_MS: u64 = 50;

/// What a campaign learns.
pub enum CampaignEvent {
    /// The caller cancelled the campaign.
    Shutdown,
    /// The candidate lost its lease.
    LeaseLost,
    /// The pause is over.
    Elapsed,
    /// A lease was granted.
    Granted(i64),
    /// The store could not do what it was asked.
    Failed(CoordinationError),
    /// The transaction was committed or refused.
    Outcome(bool),
    /// The candidates were read.
    Candidates(Vec<KeyValue>),
    /// The lease was revoked, or could not be.
    Released(Option<CoordinationError>),
}

/// What a campaign learns.
pub enum CampaignEventView {
    Shutdown,
    LeaseLost,
    Elapsed,
    Granted(i64),
    Failed(CoordinationFault),
    Outcome(bool),
    Candidates(Seq<store::EntryView>),
    Released(Option<CoordinationFault>),
}

impl View for CampaignEvent {
    type V = CampaignEventView;

    open spec fn view(&self) -> CampaignEventView {
        match self {
            CampaignEvent::Shutdown => CampaignEventView::Shutdown,
            CampaignEvent::LeaseLost => CampaignEventView::LeaseLost,
            CampaignEvent::Elapsed => CampaignEventView::Elapsed,
            CampaignEvent::Granted(lease) => CampaignEventView::Granted(*lease),
            CampaignEvent::Failed(error) => CampaignEventView::Failed(error@),
            CampaignEvent::Outcome(succeeded) => CampaignEventView::Outcome(*succeeded),
            CampaignEvent::Candidates(entries) => CampaignEventView::Candidates(
                entries.deep_view(),
            ),
            CampaignEvent::Released(error) => CampaignEventView::Released(error.deep_view()),
        }
    }
}

/// What a campaign does next.
pub enum CampaignAction {
    /// Be granted a lease of this many seconds, unless the caller cancels.
    Grant(i64),
    /// Register the candidate, unless the caller cancels.
    Register(Transaction),
    /// Start to keep the lease alive, and read every candidate below a prefix.
    Watch(String),
    /// Read every candidate below a prefix, unless the lease is lost.
    List(String),
    /// Claim the active record.
    Claim(Transaction),
    /// Wait for the campaign period, unless the caller cancels or the lease is
    /// lost.
    Pause,
    /// Revoke the lease.
    Revoke(i64),
    /// The campaign is over: leadership was won, or the caller cancelled.
    Finish(Result<Option<ControllerAuthority>, ElectionError>),
    /// The event changes nothing.
    Nothing,
}

/// What a campaign does next.
pub enum CampaignActionView {
    Grant(i64),
    Register(store::TransactionView),
    Watch(Seq<char>),
    List(Seq<char>),
    Claim(store::TransactionView),
    Pause,
    Revoke(i64),
    Finish(Result<Option<authority::AuthorityView>, ElectionFault>),
    Nothing,
}

impl View for CampaignAction {
    type V = CampaignActionView;

    open spec fn view(&self) -> CampaignActionView {
        match self {
            CampaignAction::Grant(seconds) => CampaignActionView::Grant(*seconds),
            CampaignAction::Register(transaction) => CampaignActionView::Register(transaction@),
            CampaignAction::Watch(prefix) => CampaignActionView::Watch(prefix@),
            CampaignAction::List(prefix) => CampaignActionView::List(prefix@),
            CampaignAction::Claim(transaction) => CampaignActionView::Claim(transaction@),
            CampaignAction::Pause => CampaignActionView::Pause,
            CampaignAction::Revoke(lease) => CampaignActionView::Revoke(*lease),
            CampaignAction::Finish(Ok(authority)) => CampaignActionView::Finish(
                Ok(authority.deep_view()),
            ),
            CampaignAction::Finish(Err(error)) => CampaignActionView::Finish(Err(error@)),
            CampaignAction::Nothing => CampaignActionView::Nothing,
        }
    }
}

/// What follows the revocation of a lease.
#[derive(Clone, Copy, Debug, PartialEq, Eq, Structural)]
pub enum AfterRevoke {
    /// Campaign again with a new lease.
    Retry,
    /// Stop, whether or not the lease could be revoked.
    Stop,
    /// Stop, and report where the lease could not be revoked.
    StopOrReport,
}

/// Where a campaign stands.
#[derive(Clone, Copy, Debug, PartialEq, Eq, Structural)]
pub enum CampaignStage {
    /// A lease is being granted.
    Granting,
    /// Waiting before a lease is asked for again.
    GrantPause,
    /// The candidate is being registered under its lease.
    Registering(i64),
    /// Waiting before the candidate is registered again.
    RegisterPause(i64),
    /// The lease is being revoked.
    Revoking(AfterRevoke),
    /// Another incarnation of the candidate is registered: waiting before a
    /// lease is asked for again.
    RetryPause,
    /// The candidates are being read.
    Listing(i64),
    /// The active record is being claimed.
    Claiming(i64),
    /// Waiting before the candidates are read again. The flag says whether a
    /// cancelled campaign must report that its lease could not be revoked.
    Waiting(i64, bool),
    /// The campaign is over.
    Over,
}

/// A campaign for the active record.
pub struct CampaignView {
    pub prefix: Seq<char>,
    pub controller: Seq<char>,
    pub seconds: i64,
    pub stage: CampaignStage,
}

/// The first candidate at a key.
pub open spec fn candidate_at(entries: Seq<store::EntryView>, key: Seq<u8>) -> Option<
    store::EntryView,
>
    decreases entries.len(),
{
    if entries.len() == 0 {
        None
    } else {
        match candidate_at(entries.drop_last(), key) {
            Some(entry) => Some(entry),
            None => if entries.last().key == key {
                Some(entries.last())
            } else {
                None
            },
        }
    }
}

/// Some candidate came to be before a revision.
pub open spec fn has_predecessor(entries: Seq<store::EntryView>, revision: i64) -> bool {
    exists|i: int| 0 <= i < entries.len() && (#[trigger] entries[i]).create_revision < revision
}

impl CampaignView {
    pub open spec fn at(self, stage: CampaignStage) -> CampaignView {
        CampaignView { stage, ..self }
    }

    /// The key of this candidate.
    pub open spec fn candidate_key(self) -> Seq<char> {
        keys::candidate_key_at(self.prefix, self.controller)
    }

    /// The prefix of all candidates.
    pub open spec fn candidate_prefix(self) -> Seq<char> {
        keys::key_at(self.prefix, "controller/election/candidates/"@)
    }

    /// Register the candidate, provided that it is not registered.
    pub open spec fn registration(self, lease: i64) -> store::TransactionView {
        store::no_changes().requiring(
            store::ConditionView::Version { key: self.candidate_key(), version: 0 },
        ).changing(
            store::MutationView::Put {
                key: self.candidate_key(),
                value: self.controller,
                lease: Some(lease),
            },
        )
    }

    /// Become the active controller, provided that there is none and the
    /// candidate is still the one that was read.
    pub open spec fn claim(self, lease: i64, created: i64) -> store::TransactionView {
        store::no_changes().requiring(
            store::ConditionView::Version { key: publication::active_key(self.prefix), version: 0 },
        ).requiring(
            store::ConditionView::CreateRevision { key: self.candidate_key(), revision: created },
        ).requiring(
            store::ConditionView::Lease { key: self.candidate_key(), lease },
        ).changing(
            store::MutationView::Put {
                key: publication::active_key(self.prefix),
                value: self.controller,
                lease: Some(lease),
            },
        )
    }

    pub open spec fn fail(self, fault: ElectionFault) -> (CampaignView, CampaignActionView) {
        (self.at(CampaignStage::Over), CampaignActionView::Finish(Err(fault)))
    }

    pub open spec fn stop(self) -> (CampaignView, CampaignActionView) {
        (self.at(CampaignStage::Over), CampaignActionView::Finish(Ok(None)))
    }

    pub open spec fn pause(self, stage: CampaignStage) -> (CampaignView, CampaignActionView) {
        (self.at(stage), CampaignActionView::Pause)
    }

    pub open spec fn revoke(self, lease: i64, after: AfterRevoke) -> (
        CampaignView,
        CampaignActionView,
    ) {
        (self.at(CampaignStage::Revoking(after)), CampaignActionView::Revoke(lease))
    }

    pub open spec fn grant(self) -> (CampaignView, CampaignActionView) {
        (self.at(CampaignStage::Granting), CampaignActionView::Grant(self.seconds))
    }

    pub open spec fn register(self, lease: i64) -> (CampaignView, CampaignActionView) {
        (
            self.at(CampaignStage::Registering(lease)),
            CampaignActionView::Register(self.registration(lease)),
        )
    }

    pub open spec fn list(self, lease: i64) -> (CampaignView, CampaignActionView) {
        (
            self.at(CampaignStage::Listing(lease)),
            CampaignActionView::List(self.candidate_prefix()),
        )
    }

    /// A failure of the store: a passing one is waited out.
    pub open spec fn failed(self, fault: CoordinationFault, wait: CampaignStage) -> (
        CampaignView,
        CampaignActionView,
    ) {
        if fault.transient() {
            self.pause(wait)
        } else {
            self.fail(ElectionFault::Coordination(fault))
        }
    }

    /// What follows a read of the candidates. A candidate that is no longer
    /// registered has lost its lease. A candidate waits for every candidate
    /// that came before it.
    pub open spec fn listed(self, lease: i64, entries: Seq<store::EntryView>) -> (
        CampaignView,
        CampaignActionView,
    ) {
        match candidate_at(entries, encode_utf8(self.candidate_key())) {
            None => self.fail(ElectionFault::LeaseExpired),
            Some(own) => if has_predecessor(entries, own.create_revision) {
                self.pause(CampaignStage::Waiting(lease, true))
            } else {
                (
                    self.at(CampaignStage::Claiming(lease)),
                    CampaignActionView::Claim(self.claim(lease, own.create_revision)),
                )
            },
        }
    }

    /// What follows an event.
    pub open spec fn step(self, event: CampaignEventView) -> (CampaignView, CampaignActionView) {
        match (self.stage, event) {
            (CampaignStage::Granting, CampaignEventView::Granted(lease)) => self.register(lease),
            (CampaignStage::Granting, CampaignEventView::Shutdown) => self.stop(),
            (CampaignStage::Granting, CampaignEventView::Failed(fault)) => self.failed(
                fault,
                CampaignStage::GrantPause,
            ),
            (CampaignStage::GrantPause, CampaignEventView::Shutdown) => self.stop(),
            (CampaignStage::GrantPause, CampaignEventView::Elapsed) => self.grant(),
            (CampaignStage::Registering(lease), CampaignEventView::Outcome(true)) => (
                self.at(CampaignStage::Listing(lease)),
                CampaignActionView::Watch(self.candidate_prefix()),
            ),
            (CampaignStage::Registering(lease), CampaignEventView::Outcome(false)) => self.revoke(
                lease,
                AfterRevoke::Retry,
            ),
            (CampaignStage::Registering(lease), CampaignEventView::Shutdown) => self.revoke(
                lease,
                AfterRevoke::Stop,
            ),
            (CampaignStage::Registering(lease), CampaignEventView::Failed(fault)) => self.failed(
                fault,
                CampaignStage::RegisterPause(lease),
            ),
            (CampaignStage::RegisterPause(lease), CampaignEventView::Shutdown) => self.revoke(
                lease,
                AfterRevoke::Stop,
            ),
            (CampaignStage::RegisterPause(lease), CampaignEventView::Elapsed) => self.register(
                lease,
            ),
            (
                CampaignStage::Revoking(AfterRevoke::Retry),
                CampaignEventView::Released(_),
            ) => self.pause(CampaignStage::RetryPause),
            (
                CampaignStage::Revoking(AfterRevoke::StopOrReport),
                CampaignEventView::Released(Some(fault)),
            ) => self.fail(ElectionFault::Coordination(fault)),
            (CampaignStage::Revoking(_), CampaignEventView::Released(_)) => self.stop(),
            (CampaignStage::RetryPause, CampaignEventView::Shutdown) => self.stop(),
            (CampaignStage::RetryPause, CampaignEventView::Elapsed) => self.grant(),
            (CampaignStage::Listing(lease), CampaignEventView::Candidates(entries)) => self.listed(
                lease,
                entries,
            ),
            (CampaignStage::Listing(_), CampaignEventView::LeaseLost) => self.fail(
                ElectionFault::LeaseExpired,
            ),
            (CampaignStage::Listing(lease), CampaignEventView::Failed(fault)) => self.failed(
                fault,
                CampaignStage::Waiting(lease, false),
            ),
            (CampaignStage::Claiming(lease), CampaignEventView::Outcome(true)) => (
                self.at(CampaignStage::Over),
                CampaignActionView::Finish(
                    Ok(
                        Some(
                            authority::AuthorityView {
                                namespace: self.prefix,
                                controller: self.controller,
                                lease,
                            },
                        ),
                    ),
                ),
            ),
            (CampaignStage::Claiming(lease), CampaignEventView::Outcome(false)) => self.pause(
                CampaignStage::Waiting(lease, true),
            ),
            (CampaignStage::Claiming(lease), CampaignEventView::Failed(fault)) => self.failed(
                fault,
                CampaignStage::Waiting(lease, false),
            ),
            (CampaignStage::Waiting(lease, true), CampaignEventView::Shutdown) => self.revoke(
                lease,
                AfterRevoke::StopOrReport,
            ),
            (CampaignStage::Waiting(lease, false), CampaignEventView::Shutdown) => self.revoke(
                lease,
                AfterRevoke::Stop,
            ),
            (CampaignStage::Waiting(_, _), CampaignEventView::LeaseLost) => self.fail(
                ElectionFault::LeaseExpired,
            ),
            (CampaignStage::Waiting(lease, _), CampaignEventView::Elapsed) => self.list(lease),
            _ => (self, CampaignActionView::Nothing),
        }
    }
}

/// The first candidate at a key is one of the candidates.
pub proof fn candidate_at_is_listed(entries: Seq<store::EntryView>, key: Seq<u8>)
    requires
        candidate_at(entries, key) is Some,
    ensures
        entries.contains(candidate_at(entries, key)->0),
        candidate_at(entries, key)->0.key == key,
    decreases entries.len(),
{
    if candidate_at(entries.drop_last(), key) is Some {
        candidate_at_is_listed(entries.drop_last(), key);
        let entry = candidate_at(entries, key)->0;
        let i = entries.drop_last().index_of(entry);
        assert(entries[i] == entry);
    } else {
        assert(entries[entries.len() - 1] == entries.last());
    }
}

/// Acquisition is first come, first served: a candidate claims the active
/// record only when no registered candidate came before it.
pub proof fn campaign_is_fifo(v: CampaignView, entries: Seq<store::EntryView>, other: int)
    requires
        v.stage is Listing,
        v.step(CampaignEventView::Candidates(entries)).1 is Claim,
        0 <= other < entries.len(),
    ensures
        candidate_at(entries, encode_utf8(v.candidate_key())) matches Some(own)
            && own.create_revision <= entries[other].create_revision,
{
    let own = candidate_at(entries, encode_utf8(v.candidate_key()))->0;
    assert(!has_predecessor(entries, own.create_revision));
    assert(!(entries[other].create_revision < own.create_revision));
}

/// Leadership is exclusive: a claim takes effect only where there is no active
/// controller and the candidate still holds its own lease.
pub proof fn leadership_is_exclusive(
    v: CampaignView,
    lease: i64,
    created: i64,
    s: store::StoreView,
)
    requires
        v.claim(lease, created).applies(s),
        lease != 0,
        forall|key: Seq<char>| #[trigger] s.dom().contains(key) ==> s[key].version > 0,
    ensures
        !s.dom().contains(publication::active_key(v.prefix)),
        s.dom().contains(v.candidate_key()),
        s[v.candidate_key()].lease == lease,
        s[v.candidate_key()].create_revision == created,
{
    let t = v.claim(lease, created);
    assert(t.conditions[0].holds(s));
    assert(t.conditions[1].holds(s));
    assert(t.conditions[2].holds(s));
}

/// Leadership comes only from a claim that the store accepted, under the lease
/// of the claim.
pub proof fn leadership_is_claimed(v: CampaignView, event: CampaignEventView)
    requires
        v.step(event).1 matches CampaignActionView::Finish(Ok(Some(_))),
    ensures
        event == CampaignEventView::Outcome(true),
        v.stage matches CampaignStage::Claiming(lease) && v.step(event).1
            == CampaignActionView::Finish(
            Ok(
                Some(
                    authority::AuthorityView {
                        namespace: v.prefix,
                        controller: v.controller,
                        lease,
                    },
                ),
            ),
        ),
{
}

/// A cancelled campaign that holds a lease revokes it.
pub proof fn cancelled_campaign_revokes(v: CampaignView)
    ensures
        match v.stage {
            CampaignStage::Registering(lease) => v.step(CampaignEventView::Shutdown).1
                == CampaignActionView::Revoke(lease),
            CampaignStage::RegisterPause(lease) => v.step(CampaignEventView::Shutdown).1
                == CampaignActionView::Revoke(lease),
            CampaignStage::Waiting(lease, _) => v.step(CampaignEventView::Shutdown).1
                == CampaignActionView::Revoke(lease),
            _ => true,
        },
{
}

/// A controller campaigner.
pub struct ControllerElection {
    namespace: EtcdNamespace,
    config: ControllerElectionConfig,
    seconds: i64,
    stage: CampaignStage,
}

impl View for ControllerElection {
    type V = CampaignView;

    closed spec fn view(&self) -> CampaignView {
        CampaignView {
            prefix: self.namespace@.prefix,
            controller: self.config.controller_id@,
            seconds: self.seconds,
            stage: self.stage,
        }
    }
}

fn find_candidate<'a>(entries: &'a Vec<KeyValue>, key: &str) -> (r: Option<&'a KeyValue>)
    ensures
        r.deep_view() == candidate_at(entries.deep_view(), encode_utf8(key@)),
{
    let ghost all = entries.deep_view();
    let ghost wanted = encode_utf8(key@);
    let mut i: usize = 0;
    assert(all.take(0) =~= Seq::empty());
    while i < entries.len()
        invariant
            i <= entries@.len(),
            all == entries.deep_view(),
            wanted == encode_utf8(key@),
            candidate_at(all.take(i as int), wanted) is None,
        decreases entries@.len() - i,
    {
        proof {
            assert(all.take(i + 1).drop_last() =~= all.take(i as int));
            assert(all.take(i + 1).last() == entries@[i as int]@);
        }
        if text::bytes_are(&entries[i].key, key) {
            proof {
                candidate_prefix(all, wanted, i + 1);
            }
            return Some(&entries[i]);
        }
        i = i + 1;
    }
    assert(all.take(entries@.len() as int) =~= all);
    None
}

proof fn candidate_prefix(entries: Seq<store::EntryView>, key: Seq<u8>, i: int)
    requires
        0 <= i <= entries.len(),
        candidate_at(entries.take(i), key) is Some,
    ensures
        candidate_at(entries, key) == candidate_at(entries.take(i), key),
    decreases entries.len(),
{
    if i == entries.len() {
        assert(entries.take(i) =~= entries);
    } else {
        assert(entries.drop_last().take(i) =~= entries.take(i));
        candidate_prefix(entries.drop_last(), key, i);
    }
}

fn any_predecessor(entries: &Vec<KeyValue>, revision: i64) -> (r: bool)
    ensures
        r == has_predecessor(entries.deep_view(), revision),
{
    let ghost all = entries.deep_view();
    let mut i: usize = 0;
    while i < entries.len()
        invariant
            i <= entries@.len(),
            all == entries.deep_view(),
            forall|j: int| 0 <= j < i ==> (#[trigger] all[j]).create_revision >= revision,
        decreases entries@.len() - i,
    {
        assert(all[i as int] == entries@[i as int]@);
        if entries[i].create_revision < revision {
            return true;
        }
        i = i + 1;
    }
    false
}

impl ControllerElection {
    /// Validate an election candidate against its coordination namespace.
    pub fn new(namespace: EtcdNamespace, config: ControllerElectionConfig) -> (r: Result<
        ControllerElection,
        ElectionError,
    >)
        ensures
            match r {
                Ok(election) => lease::config_fault(namespace@.cluster, config) is None
                    && election@ == (CampaignView {
                    prefix: namespace@.prefix,
                    controller: config.controller_id@,
                    seconds: lease::whole_seconds(config.lease_ttl_ms)->0,
                    stage: CampaignStage::Over,
                }),
                Err(error) => lease::config_fault(namespace@.cluster, config) == Some(error@),
            },
    {
        match lease::validate_config(namespace.cluster(), &config) {
            Ok(()) => {},
            Err(error) => {
                return Err(error);
            },
        }
        match lease::lease_seconds(config.lease_ttl_ms) {
            Ok(seconds) => Ok(
                ControllerElection { namespace, config, seconds, stage: CampaignStage::Over },
            ),
            Err(error) => Err(error),
        }
    }

    /// Begin a campaign: a lease is asked for.
    pub fn acquire(&mut self) -> (r: CampaignAction)
        ensures
            (final(self)@, r@) == old(self)@.grant(),
    {
        self.stage = CampaignStage::Granting;
        CampaignAction::Grant(self.seconds)
    }

    fn registration(&self, lease: i64) -> (r: Transaction)
        ensures
            r@ == self@.registration(lease),
    {
        let key = self.namespace.controller_candidate_key(self.config.controller_id.as_str());
        Transaction::new().require(Condition::Version { key: key.clone(), version: 0 }).change(
            Mutation::Put {
                key,
                value: self.config.controller_id.clone(),
                lease: Some(lease),
            },
        )
    }

    fn claim(&self, lease: i64, created: i64) -> (r: Transaction)
        ensures
            r@ == self@.claim(lease, created),
    {
        let key = self.namespace.controller_candidate_key(self.config.controller_id.as_str());
        let active = self.namespace.controller_active_key();
        Transaction::new().require(Condition::Version { key: active.clone(), version: 0 }).require(
            Condition::CreateRevision { key: key.clone(), revision: created },
        ).require(Condition::Lease { key, lease }).change(
            Mutation::Put {
                key: active,
                value: self.config.controller_id.clone(),
                lease: Some(lease),
            },
        )
    }

    fn fail(&mut self, error: ElectionError) -> (r: CampaignAction)
        ensures
            (final(self)@, r@) == old(self)@.fail(error@),
    {
        self.stage = CampaignStage::Over;
        CampaignAction::Finish(Err(error))
    }

    fn stop(&mut self) -> (r: CampaignAction)
        ensures
            (final(self)@, r@) == old(self)@.stop(),
    {
        self.stage = CampaignStage::Over;
        CampaignAction::Finish(Ok(None))
    }

    fn pause(&mut self, stage: CampaignStage) -> (r: CampaignAction)
        ensures
            (final(self)@, r@) == old(self)@.pause(stage),
    {
        self.stage = stage;
        CampaignAction::Pause
    }

    fn revoke(&mut self, lease: i64, after: AfterRevoke) -> (r: CampaignAction)
        ensures
            (final(self)@, r@) == old(self)@.revoke(lease, after),
    {
        self.stage = CampaignStage::Revoking(after);
        CampaignAction::Revoke(lease)
    }

    fn register(&mut self, lease: i64) -> (r: CampaignAction)
        ensures
            (final(self)@, r@) == old(self)@.register(lease),
    {
        self.stage = CampaignStage::Registering(lease);
        CampaignAction::Register(self.registration(lease))
    }

    fn failed(&mut self, error: CoordinationError, wait: CampaignStage) -> (r: CampaignAction)
        ensures
            (final(self)@, r@) == old(self)@.failed(error@, wait),
    {
        if error.is_transient() {
            self.pause(wait)
        } else {
            self.fail(ElectionError::Coordination(error))
        }
    }

    fn listed(&mut self, lease: i64, entries: &Vec<KeyValue>) -> (r: CampaignAction)
        ensures
            (final(self)@, r@) == old(self)@.listed(lease, entries.deep_view()),
    {
        let key = self.namespace.controller_candidate_key(self.config.controller_id.as_str());
        match find_candidate(entries, key.as_str()) {
            None => self.fail(ElectionError::LeaseExpired),
            Some(own) => {
                let created: i64 = own.create_revision;
                if any_predecessor(entries, created) {
                    self.pause(CampaignStage::Waiting(lease, true))
                } else {
                    self.stage = CampaignStage::Claiming(lease);
                    CampaignAction::Claim(self.claim(lease, created))
                }
            },
        }
    }

    /// Go on with what the campaign learned. An event that does not fit where
    /// the campaign stands changes nothing.
    pub fn acquire_until(&mut self, event: CampaignEvent) -> (r: CampaignAction)
        ensures
            (final(self)@, r@) == old(self)@.step(event@),
    {
        match (self.stage, event) {
            (CampaignStage::Granting, CampaignEvent::Granted(lease)) => self.register(lease),
            (CampaignStage::Granting, CampaignEvent::Shutdown) => self.stop(),
            (CampaignStage::Granting, CampaignEvent::Failed(error)) => self.failed(
                error,
                CampaignStage::GrantPause,
            ),
            (CampaignStage::GrantPause, CampaignEvent::Shutdown) => self.stop(),
            (CampaignStage::GrantPause, CampaignEvent::Elapsed) => self.acquire(),
            (CampaignStage::Registering(lease), CampaignEvent::Outcome(succeeded)) => if succeeded {
                self.stage = CampaignStage::Listing(lease);
                CampaignAction::Watch(
                    self.namespace.namespaced_key("controller/election/candidates/"),
                )
            } else {
                self.revoke(lease, AfterRevoke::Retry)
            },
            (CampaignStage::Registering(lease), CampaignEvent::Shutdown) => self.revoke(
                lease,
                AfterRevoke::Stop,
            ),
            (CampaignStage::Registering(lease), CampaignEvent::Failed(error)) => self.failed(
                error,
                CampaignStage::RegisterPause(lease),
            ),
            (CampaignStage::RegisterPause(lease), CampaignEvent::Shutdown) => self.revoke(
                lease,
                AfterRevoke::Stop,
            ),
            (CampaignStage::RegisterPause(lease), CampaignEvent::Elapsed) => self.register(lease),
            (CampaignStage::Revoking(after), CampaignEvent::Released(error)) => match after {
                AfterRevoke::Retry => self.pause(CampaignStage::RetryPause),
                AfterRevoke::Stop => self.stop(),
                AfterRevoke::StopOrReport => match error {
                    Some(error) => self.fail(ElectionError::Coordination(error)),
                    None => self.stop(),
                },
            },
            (CampaignStage::RetryPause, CampaignEvent::Shutdown) => self.stop(),
            (CampaignStage::RetryPause, CampaignEvent::Elapsed) => self.acquire(),
            (CampaignStage::Listing(lease), CampaignEvent::Candidates(entries)) => self.listed(
                lease,
                &entries,
            ),
            (CampaignStage::Listing(_), CampaignEvent::LeaseLost) => self.fail(
                ElectionError::LeaseExpired,
            ),
            (CampaignStage::Listing(lease), CampaignEvent::Failed(error)) => self.failed(
                error,
                CampaignStage::Waiting(lease, false),
            ),
            (CampaignStage::Claiming(lease), CampaignEvent::Outcome(succeeded)) => if succeeded {
                self.stage = CampaignStage::Over;
                CampaignAction::Finish(
                    Ok(
                        Some(
                            ControllerAuthority::new(
                                self.namespace.namespace().to_owned(),
                                self.config.controller_id.clone(),
                                lease,
                            ),
                        ),
                    ),
                )
            } else {
                self.pause(CampaignStage::Waiting(lease, true))
            },
            (CampaignStage::Claiming(lease), CampaignEvent::Failed(error)) => self.failed(
                error,
                CampaignStage::Waiting(lease, false),
            ),
            (CampaignStage::Waiting(lease, report), CampaignEvent::Shutdown) => self.revoke(
                lease,
                if report {
                    AfterRevoke::StopOrReport
                } else {
                    AfterRevoke::Stop
                },
            ),
            (CampaignStage::Waiting(_, _), CampaignEvent::LeaseLost) => self.fail(
                ElectionError::LeaseExpired,
            ),
            (CampaignStage::Waiting(lease, _), CampaignEvent::Elapsed) => {
                self.stage = CampaignStage::Listing(lease);
                CampaignAction::List(
                    self.namespace.namespaced_key("controller/election/candidates/"),
                )
            },
            _ => CampaignAction::Nothing,
        }
    }
}

} // verus!
