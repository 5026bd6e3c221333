//! Election settings and the upkeep of the election lease.
use crate::election::error::{ElectionError, ElectionFault};
use crate::text;
use crate::time::Duration;
use vstd::prelude::*;

verus! {

/// Configuration for one controller election candidate.
#[derive(Clone, Debug, PartialEq, Eq)]
pub struct ControllerElectionConfig {
    pub cluster: String,
    pub controller_id: String,
    pub lease_ttl_ms: u64,
}

/// A lease of this many milliseconds, rounded up to whole seconds.
pub open spec fn whole_seconds(ttl_ms: u64) -> Option<i64> {
    if ttl_ms == 0 || ttl_ms + 999 > u64::MAX {
        None
    } else {
        Some(((ttl_ms + 999) / 1_000) as i64)
    }
}

/// The lease TTL in whole seconds, rounded up.
pub fn lease_seconds(ttl_ms: u64) -> (r: Result<i64, ElectionError>)
    ensures
        match r {
            Ok(seconds) => whole_seconds(ttl_ms) == Some(seconds) && seconds > 0,
            Err(error) => whole_seconds(ttl_ms) is None && error@
                == ElectionFault::InvalidLeaseTtl,
        },
{
    let rounded = match ttl_ms.checked_add(999) {
        Some(rounded) => rounded,
        None => {
            return Err(ElectionError::InvalidLeaseTtl);
        },
    };
    let seconds: u64 = rounded / 1_000;
    if seconds == 0 || seconds > 0x7fff_ffff_ffff_ffff {
        return Err(ElectionError::InvalidLeaseTtl);
    }
    Ok(seconds as i64)
}

/// The rounded lease covers the requested time, and no more than a second
/// beyond it.
pub proof fn lease_covers_the_request(ttl_ms: u64)
    requires
        whole_seconds(ttl_ms) is Some,
    ensures
        whole_seconds(ttl_ms)->0 * 1_000 >= ttl_ms,
        whole_seconds(ttl_ms)->0 * 1_000 < ttl_ms + 1_000,
{
}

/// What is wrong with an election candidate, if anything.
pub open spec fn config_fault(cluster: Seq<char>, config: ControllerElectionConfig) -> Option<
    ElectionFault,
> {
    if config.cluster@ != cluster {
        Some(ElectionFault::ClusterMismatch)
    } else if text::blank(config.controller_id@) || config.controller_id@.contains('\0') {
        Some(ElectionFault::InvalidControllerId)
    } else if whole_seconds(config.lease_ttl_ms) is None {
        Some(ElectionFault::InvalidLeaseTtl)
    } else {
        None
    }
}

/// Validate an election candidate for a cluster.
pub fn validate_config(cluster: &str, config: &ControllerElectionConfig) -> (r: Result<
    (),
    ElectionError,
>)
    ensures
        match r {
            Ok(()) => config_fault(cluster@, *config) is None,
            Err(error) => config_fault(cluster@, *config) == Some(error@),
        },
{
    if !text::text_eq(config.cluster.as_str(), cluster) {
        return Err(ElectionError::ClusterMismatch);
    }
    if text::is_blank(config.controller_id.as_str()) || text::has_char(
        config.controller_id.as_str(),
        '\0',
    ) {
        return Err(ElectionError::InvalidControllerId);
    }
    match lease_seconds(config.lease_ttl_ms) {
        Ok(_) => Ok(()),
        Err(error) => Err(error),
    }
}

/// The time between two keepalives of a lease: a third of it, but at least a
/// tenth of a second and at most a second.
pub open spec fn keepalive_interval(ttl: nat) -> nat {
    if ttl / 3 < 100_000_000 {
        100_000_000
    } else if ttl / 3 > 1_000_000_000 {
        1_000_000_000
    } else {
        ttl / 3
    }
}

/// The schedule of lease keepalives.
pub struct KeepalivePlan {
    lease_ttl: Duration,
    interval: Duration,
    attempt_timeout: Duration,
    retry_delay: Duration,
}

/// The schedule of lease keepalives.
pub struct KeepaliveView {
    pub ttl: nat,
    pub interval: nat,
    pub attempt_timeout: nat,
    pub retry_delay: nat,
}

impl View for KeepalivePlan {
    type V = KeepaliveView;

    closed spec fn view(&self) -> KeepaliveView {
        KeepaliveView {
            ttl: self.lease_ttl@,
            interval: self.interval@,
            attempt_timeout: self.attempt_timeout@,
            retry_delay: self.retry_delay@,
        }
    }
}

/// What a keepalive attempt came to.
#[derive(Clone, Copy, Debug, PartialEq, Eq, Structural)]
pub enum KeepaliveReply {
    /// The lease has this many seconds left.
    Remaining(i64),
    /// There was no answer: the stream ended, failed, or took too long.
    Unanswered,
}

/// What follows a keepalive attempt.
#[derive(Clone, Copy, Debug, PartialEq, Eq)]
pub enum KeepaliveDecision {
    /// The lease was renewed: wait this long.
    Renewed(Duration),
    /// Try again after this long.
    Retry(Duration),
    /// The lease is lost.
    Lost,
}

impl KeepaliveView {
    /// What follows a reply when the last renewal is `elapsed` ago.
    pub open spec fn after(self, reply: KeepaliveReply, elapsed: nat) -> NextKeepalive {
        match reply {
            KeepaliveReply::Remaining(seconds) => if seconds > 0 {
                NextKeepalive::Renewed(self.interval)
            } else {
                NextKeepalive::Lost
            },
            KeepaliveReply::Unanswered => if elapsed < self.ttl {
                NextKeepalive::Retry(self.retry_delay)
            } else {
                NextKeepalive::Lost
            },
        }
    }
}

/// What follows a keepalive attempt.
pub enum NextKeepalive {
    Renewed(nat),
    Retry(nat),
    Lost,
}

impl View for KeepaliveDecision {
    type V = NextKeepalive;

    open spec fn view(&self) -> NextKeepalive {
        match self {
            KeepaliveDecision::Renewed(delay) => NextKeepalive::Renewed(delay@),
            KeepaliveDecision::Retry(delay) => NextKeepalive::Retry(delay@),
            KeepaliveDecision::Lost => NextKeepalive::Lost,
        }
    }
}

impl KeepalivePlan {
    /// The schedule for a lease.
    pub fn new(lease_ttl: Duration) -> (r: KeepalivePlan)
        ensures
            r@.ttl == lease_ttl@,
            r@.interval == keepalive_interval(lease_ttl@),
            r@.attempt_timeout == if keepalive_interval(lease_ttl@) < 500_000_000 {
                keepalive_interval(lease_ttl@)
            } else {
                500_000_000
            },
            r@.retry_delay == 100_000_000,
    {
        let interval = lease_ttl.third().shorter(Duration::from_secs(1)).longer(
            Duration::from_millis(100),
        );
        KeepalivePlan {
            lease_ttl,
            interval,
            attempt_timeout: interval.shorter(Duration::from_millis(500)),
            retry_delay: Duration::from_millis(100),
        }
    }

    /// How long one attempt may take.
    pub fn attempt_timeout(&self) -> (r: Duration)
        ensures
            r@ == self@.attempt_timeout,
    {
        self.attempt_timeout
    }

    /// Whether the lease has run out before another attempt is made.
    pub fn has_expired(&self, elapsed: Duration) -> (r: bool)
        ensures
            r == (elapsed@ >= self@.ttl),
    {
        !elapsed.is_shorter(&self.lease_ttl)
    }

    /// What follows a reply when the last renewal is `elapsed` ago.
    pub fn decide(&self, reply: KeepaliveReply, elapsed: Duration) -> (r: KeepaliveDecision)
        ensures
            r@ == self@.after(reply, elapsed@),
    {
        match reply {
            KeepaliveReply::Remaining(seconds) => if seconds > 0 {
                KeepaliveDecision::Renewed(self.interval)
            } else {
                KeepaliveDecision::Lost
            },
            KeepaliveReply::Unanswered => if elapsed.is_shorter(&self.lease_ttl) {
                KeepaliveDecision::Retry(self.retry_delay)
            } else {
                KeepaliveDecision::Lost
            },
        }
    }
}

/// A lease is never given up while it may still be alive, and never kept once
/// it has run out without an answer.
pub proof fn unanswered_lease_expires(v: KeepaliveView, elapsed: nat)
    ensures
        v.after(KeepaliveReply::Unanswered, elapsed) is Lost <==> elapsed >= v.ttl,
{
}

} // verus!
