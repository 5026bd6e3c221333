//! What holds of a campaign, of the lease behind it, and of its end.
use crate::coordination::etcd::error::CoordinationFault;
use crate::coordination::etcd::keys;
use crate::coordination::etcd::publication;
use crate::coordination::etcd::store;
use crate::election::authority::AuthorityView;
use crate::election::campaign;
use crate::election::campaign::{
    CampaignActionView, CampaignEventView, CampaignStage, CampaignView,
};
use crate::election::error::ElectionFault;
use crate::election::lease;
use crate::election::lease::{ControllerElectionConfig, KeepaliveReply, KeepaliveView, NextKeepalive};
use crate::election::relinquish::{
    RelinquishActionView, RelinquishStage, RelinquishView, RELINQUISH_CONFIRM_ATTEMPTS,
};
use crate::text;
use vstd::prelude::*;
use vstd::utf8::*;

verus! {

/// The key that a candidate registers under.
pub open spec fn own_key(v: CampaignView) -> Seq<char> {
    keys::candidate_key_at(v.prefix, v.controller)
}

/// The entry at `k` is the first with the candidate's key.
pub open spec fn own_entry(v: CampaignView, entries: Seq<store::EntryView>, k: int) -> bool {
    &&& 0 <= k < entries.len()
    &&& entries[k].key == encode_utf8(own_key(v))
    &&& forall|j: int| 0 <= j < k ==> (#[trigger] entries[j]).key != encode_utf8(own_key(v))
}

proof fn first_is_found(entries: Seq<store::EntryView>, key: Seq<u8>)
    ensures
        forall|k: int|
            0 <= k < entries.len() && (#[trigger] entries[k]).key == key && (forall|j: int|
                0 <= j < k ==> (#[trigger] entries[j]).key != key) ==> campaign::candidate_at(
                entries,
                key,
            ) == Some(entries[k]),
        (forall|k: int| 0 <= k < entries.len() ==> (#[trigger] entries[k]).key != key)
            ==> campaign::candidate_at(entries, key) is None,
    decreases entries.len(),
{
    if entries.len() > 0 {
        let rest = entries.drop_last();
        let n = entries.len() - 1;
        first_is_found(rest, key);
        assert(entries[n] == entries.last());
        assert forall|k: int|
            0 <= k < entries.len() && (#[trigger] entries[k]).key == key && (forall|j: int|
                0 <= j < k ==> (#[trigger] entries[j]).key != key) implies campaign::candidate_at(
            entries,
            key,
        ) == Some(entries[k]) by {
            if k < n {
                assert(rest[k] == entries[k]);
                assert forall|j: int| 0 <= j < k implies (#[trigger] rest[j]).key != key by {
                    assert(rest[j] == entries[j]);
                }
            } else {
                assert forall|j: int| 0 <= j < rest.len() implies (#[trigger] rest[j]).key
                    != key by {
                    assert(rest[j] == entries[j]);
                }
            }
        }
        if forall|k: int| 0 <= k < entries.len() ==> (#[trigger] entries[k]).key != key {
            assert forall|j: int| 0 <= j < rest.len() implies (#[trigger] rest[j]).key != key by {
                assert(rest[j] == entries[j]);
            }
        }
    }
}

/// A granted lease registers the candidate under it, where it is not registered
/// yet. One that is registered already gives the lease back and tries again
/// after a pause.
pub proof fn leases_register_candidates(v: CampaignView, lease: i64)
    ensures
        v.stage is Granting || v.stage == CampaignStage::RegisterPause(lease) ==> {
            let after = v.step(
                if v.stage is Granting {
                    CampaignEventView::Granted(lease)
                } else {
                    CampaignEventView::Elapsed
                },
            );
            &&& after.0 == (CampaignView { stage: CampaignStage::Registering(lease), ..v })
            &&& after.1 matches CampaignActionView::Register(t) && t.conditions == seq![
                store::ConditionView::Version { key: own_key(v), version: 0 },
            ] && t.mutations == seq![
                store::MutationView::Put {
                    key: own_key(v),
                    value: v.controller,
                    lease: Some(lease),
                },
            ]
        },
        v.stage == CampaignStage::Registering(lease) ==> {
            let taken = v.step(CampaignEventView::Outcome(false));
            &&& v.step(CampaignEventView::Outcome(true)) == (
                CampaignView { stage: CampaignStage::Listing(lease), ..v },
                CampaignActionView::Watch(v.candidate_prefix()),
            )
            &&& taken.1 == CampaignActionView::Revoke(lease)
            &&& forall|fault: Option<CoordinationFault>|
                {
                    let released = (#[trigger] taken.0.step(CampaignEventView::Released(fault)));
                    released.1 is Pause && released.0.step(CampaignEventView::Elapsed).1
                        == CampaignActionView::Grant(v.seconds)
                }
        },
{
}

/// Of the listed candidates, the one that registered first claims the active
/// record, while nobody holds it and its own record is still the one that was
/// listed, under its lease. One behind another waits, and one that is not
/// listed has lost its lease.
pub proof fn first_candidates_claim(
    v: CampaignView,
    lease: i64,
    entries: Seq<store::EntryView>,
    k: int,
)
    requires
        v.stage == CampaignStage::Listing(lease),
    ensures
        own_entry(v, entries, k) && (forall|j: int|
            0 <= j < entries.len() ==> (#[trigger] entries[j]).create_revision
                >= entries[k].create_revision) ==> {
            let after = v.step(CampaignEventView::Candidates(entries));
            &&& after.0 == (CampaignView { stage: CampaignStage::Claiming(lease), ..v })
            &&& after.1 matches CampaignActionView::Claim(t) && t.conditions == seq![
                store::ConditionView::Version {
                    key: publication::active_key(v.prefix),
                    version: 0,
                },
                store::ConditionView::CreateRevision {
                    key: own_key(v),
                    revision: entries[k].create_revision,
                },
                store::ConditionView::Lease { key: own_key(v), lease },
            ] && t.mutations == seq![
                store::MutationView::Put {
                    key: publication::active_key(v.prefix),
                    value: v.controller,
                    lease: Some(lease),
                },
            ]
        },
        own_entry(v, entries, k) && (exists|j: int|
            0 <= j < entries.len() && (#[trigger] entries[j]).create_revision
                < entries[k].create_revision) ==> v.step(CampaignEventView::Candidates(entries))
            == (
            CampaignView { stage: CampaignStage::Waiting(lease, true), ..v },
            CampaignActionView::Pause,
        ),
        (forall|j: int|
            0 <= j < entries.len() ==> (#[trigger] entries[j]).key != encode_utf8(own_key(v)))
            ==> v.step(CampaignEventView::Candidates(entries)).1 == CampaignActionView::Finish(
            Err::<Option<AuthorityView>, ElectionFault>(ElectionFault::LeaseExpired),
        ),
{
    first_is_found(entries, encode_utf8(own_key(v)));
}

/// A claim that is made gives the authority over the namespace under the lease.
/// One that is refused waits and looks at the candidates again.
pub proof fn claims_give_authority(v: CampaignView, lease: i64, flag: bool)
    ensures
        v.stage == CampaignStage::Claiming(lease) ==> {
            &&& v.step(CampaignEventView::Outcome(true)) == (
                CampaignView { stage: CampaignStage::Over, ..v },
                CampaignActionView::Finish(
                    Ok(
                        Some(
                            AuthorityView {
                                namespace: v.prefix,
                                controller: v.controller,
                                lease,
                            },
                        ),
                    ),
                ),
            )
            &&& v.step(CampaignEventView::Outcome(false)) == (
                CampaignView { stage: CampaignStage::Waiting(lease, true), ..v },
                CampaignActionView::Pause,
            )
        },
        v.stage == CampaignStage::Waiting(lease, flag) ==> v.step(CampaignEventView::Elapsed) == (
            CampaignView { stage: CampaignStage::Listing(lease), ..v },
            CampaignActionView::List(keys::key_at(v.prefix, "controller/election/candidates/"@)),
        ),
{
}

/// A candidate that loses its lease while it waits or looks has lost the
/// campaign.
pub proof fn lost_leases_end_campaigns(v: CampaignView)
    requires
        v.stage is Listing || v.stage is Waiting,
    ensures
        v.step(CampaignEventView::LeaseLost).1 == CampaignActionView::Finish(
            Err::<Option<AuthorityView>, ElectionFault>(ElectionFault::LeaseExpired),
        ),
{
}

/// A store that fails for the moment is asked again after a pause, at the same
/// place of the campaign. Any other fault ends it.
pub proof fn failed_steps_are_tried_again(v: CampaignView, fault: CoordinationFault)
    requires
        v.stage is Granting || v.stage is Registering || v.stage is Listing || v.stage is Claiming,
    ensures
        ({
            let after = v.step(CampaignEventView::Failed(fault));
            let again = after.0.step(CampaignEventView::Elapsed);
            &&& fault is Etcd ==> after.1 is Pause
            &&& fault is Etcd && v.stage is Granting ==> again == (
                v,
                CampaignActionView::Grant(v.seconds),
            )
            &&& fault is Etcd && v.stage is Registering ==> again.0 == v && again.1 is Register
            &&& fault is Etcd && v.stage is Listing ==> again == (
                v,
                CampaignActionView::List(v.candidate_prefix()),
            )
            &&& fault is Etcd && v.stage is Claiming ==> again.1 == CampaignActionView::List(
                v.candidate_prefix(),
            ) && again.0.stage == CampaignStage::Listing(v.stage->Claiming_0)
            &&& !(fault is Etcd) ==> after.1 == CampaignActionView::Finish(
                Err::<Option<AuthorityView>, ElectionFault>(ElectionFault::Coordination(fault)),
            )
        }),
{
}

/// A campaign that is told to stop gives its lease back first where it has one.
/// A fault of that is reported only where a candidate was waiting its turn.
pub proof fn stopped_campaigns_give_back(v: CampaignView, lease: i64, fault: CoordinationFault)
    ensures
        v.stage is Granting || v.stage is GrantPause || v.stage is RetryPause ==> v.step(
            CampaignEventView::Shutdown,
        ).1 == CampaignActionView::Finish(Ok::<Option<AuthorityView>, ElectionFault>(None)),
        v.stage == CampaignStage::Registering(lease) || v.stage == CampaignStage::RegisterPause(
            lease,
        ) || v.stage == CampaignStage::Waiting(lease, false) || v.stage == CampaignStage::Waiting(
            lease,
            true,
        ) ==> {
            let after = v.step(CampaignEventView::Shutdown);
            &&& after.1 == CampaignActionView::Revoke(lease)
            &&& after.0.step(CampaignEventView::Released(None)).1 == CampaignActionView::Finish(
                Ok::<Option<AuthorityView>, ElectionFault>(None),
            )
            &&& after.0.step(CampaignEventView::Released(Some(fault))).1
                == CampaignActionView::Finish(
                if v.stage == CampaignStage::Waiting(lease, true) {
                    Err::<Option<AuthorityView>, ElectionFault>(ElectionFault::Coordination(fault))
                } else {
                    Ok(None)
                },
            )
        },
{
}

/// The whole seconds of a lease are the fewest that cover the request. A lease
/// of no time is refused.
pub proof fn requests_are_covered(ttl_ms: u64)
    ensures
        lease::whole_seconds(ttl_ms) is None <==> ttl_ms == 0 || ttl_ms > u64::MAX - 999,
        lease::whole_seconds(ttl_ms) matches Some(seconds) ==> seconds >= 1 && (seconds - 1) * 1_000
            < ttl_ms <= seconds * 1_000,
{
}

/// A lease with time left is kept alive after the interval, one without is
/// lost. Without an answer it is tried again until the time to live has passed.
pub proof fn leases_are_kept_alive(v: KeepaliveView, seconds: i64, elapsed: nat)
    ensures
        v.after(KeepaliveReply::Remaining(seconds), elapsed) == if seconds > 0 {
            NextKeepalive::Renewed(v.interval)
        } else {
            NextKeepalive::Lost
        },
        v.after(KeepaliveReply::Unanswered, elapsed) == if elapsed < v.ttl {
            NextKeepalive::Retry(v.retry_delay)
        } else {
            NextKeepalive::Lost
        },
{
}

/// A lease is kept alive three times in its time to live, but not more often
/// than ten times a second and at least once a second.
pub proof fn leases_are_kept_alive_in_time(ttl: nat)
    ensures
        100_000_000 <= lease::keepalive_interval(ttl) <= 1_000_000_000,
        300_000_000 <= ttl <= 3_000_000_000 ==> 3 * lease::keepalive_interval(ttl) <= ttl < 3 * (
        lease::keepalive_interval(ttl) + 1),
        ttl < 300_000_000 ==> lease::keepalive_interval(ttl) == 100_000_000,
        ttl > 3_000_000_003 ==> lease::keepalive_interval(ttl) == 1_000_000_000,
{
}

/// An authority is given up record by record: the candidate record and then the
/// active record are deleted where they are still held under the lease, and
/// then the lease is revoked, and the records are looked for.
pub proof fn records_are_deleted_before_the_lease(v: RelinquishView)
    ensures
        v.stage is Candidate ==> {
            let after = v.done();
            let key = publication::active_key(v.prefix);
            &&& after.0 == (RelinquishView { stage: RelinquishStage::Active, ..v })
            &&& after.1 matches RelinquishActionView::Delete(t) && t.conditions == seq![
                store::ConditionView::Lease { key, lease: v.authority.lease },
            ] && t.mutations == seq![store::MutationView::Delete { key }]
        },
        v.stage is Active ==> v.done() == (
            RelinquishView { stage: RelinquishStage::Revoke, ..v },
            RelinquishActionView::Revoke(v.authority.lease),
        ),
        v.stage is Revoke || v.stage is Pause ==> v.done() == (
            RelinquishView { stage: RelinquishStage::ConfirmCandidate, ..v },
            RelinquishActionView::Read(
                keys::candidate_key_at(v.prefix, v.authority.controller),
            ),
        ),
{
}

/// The release is confirmed exactly where neither record is held under the
/// lease any more. Otherwise they are looked for again, a limited number of
/// times.
pub proof fn releases_are_confirmed(
    v: RelinquishView,
    candidate: Option<store::EntryView>,
    active: Option<store::EntryView>,
)
    requires
        v.stage is ConfirmCandidate,
    ensures
        ({
            let first = v.read(candidate);
            let after = first.0.read(active);
            let held = (candidate is Some && candidate->0.lease == v.authority.lease) || (
            active is Some && active->0.lease == v.authority.lease);
            &&& first.1 == RelinquishActionView::Read(publication::active_key(v.prefix))
            &&& !held ==> after.1 == RelinquishActionView::Finish(Ok::<(), ElectionFault>(()))
            &&& held && v.attempts + 1 < RELINQUISH_CONFIRM_ATTEMPTS ==> after == (
                RelinquishView {
                    attempts: v.attempts + 1,
                    stage: RelinquishStage::Pause,
                    ..v
                },
                RelinquishActionView::Pause,
            )
            &&& held && v.attempts + 1 >= RELINQUISH_CONFIRM_ATTEMPTS ==> after.1
                == RelinquishActionView::Finish(
                Err::<(), ElectionFault>(
                    ElectionFault::Coordination(CoordinationFault::Contention),
                ),
            )
        }),
{
}

/// A candidate campaigns in its own cluster, under a name that is neither blank
/// nor holds a NUL, with a lease of some time.
pub proof fn good_candidates_campaign(cluster: Seq<char>, config: ControllerElectionConfig)
    ensures
        lease::config_fault(cluster, config) is None <==> config.cluster@ == cluster
            && !text::blank(config.controller_id@) && !config.controller_id@.contains('\0')
            && config.lease_ttl_ms > 0 && config.lease_ttl_ms <= u64::MAX - 999,
        config.cluster@ != cluster ==> lease::config_fault(cluster, config) == Some(
            ElectionFault::ClusterMismatch,
        ),
{
}

/// A fault of the election passes by itself exactly where it is one of the
/// store.
pub proof fn only_store_faults_pass(fault: ElectionFault)
    ensures
        fault.transient() <==> fault is Coordination && fault->Coordination_0 is Etcd,
{
}

} // verus!
