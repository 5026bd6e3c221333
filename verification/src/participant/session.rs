//! How a participant gets a session and keeps it.
use crate::coordination::etcd::error::CoordinationFault;
use crate::coordination::etcd::{CoordinationError, EtcdParticipantSession};
use crate::model::SessionId;
use crate::participant::error::{ParticipantFault, ParticipantRuntimeError};
use crate::time::Duration;
use vstd::prelude::*;

verus! {

/// How often a session is kept alive, and how long a participant waits before it
/// tries again.
pub const KEEPALIVE_PERIOD_MS: u64 = 250;

/// The nanoseconds of the keepalive period.
pub open spec fn keepalive_period() -> nat {
    (KEEPALIVE_PERIOD_MS * 1_000_000) as nat
}

/// What became of a session.
#[derive(Clone, Copy, Debug, PartialEq, Eq, Structural)]
pub enum KeepaliveOutcome {
    Healthy,
    Expired,
    Shutdown,
}

/// What a keepalive waits for.
#[derive(Clone, Copy, Debug, PartialEq, Eq, Structural)]
pub enum KeepaliveStage {
    /// Whether the session is current.
    Checking,
    /// The answer to the keepalive.
    Keeping,
    /// Whether the session is still current.
    Confirming,
}

/// What a keepalive does next.
pub enum KeepaliveStep {
    /// Ask whether the session is current.
    AskCurrent,
    /// Keep the lease alive.
    KeepAlive,
    /// Pause, unless told to stop first.
    Pause(Duration),
    /// The keepalive is over.
    Done(KeepaliveOutcome),
    /// The keepalive failed.
    Fail(ParticipantRuntimeError),
}

/// What a keepalive does next.
pub enum KeepaliveStepView {
    AskCurrent,
    KeepAlive,
    Pause(nat),
    Done(KeepaliveOutcome),
    Fail(ParticipantFault),
}

impl View for KeepaliveStep {
    type V = KeepaliveStepView;

    open spec fn view(&self) -> KeepaliveStepView {
        match self {
            KeepaliveStep::AskCurrent => KeepaliveStepView::AskCurrent,
            KeepaliveStep::KeepAlive => KeepaliveStepView::KeepAlive,
            KeepaliveStep::Pause(span) => KeepaliveStepView::Pause(span@),
            KeepaliveStep::Done(outcome) => KeepaliveStepView::Done(*outcome),
            KeepaliveStep::Fail(error) => KeepaliveStepView::Fail(error@),
        }
    }
}

/// A keepalive of a lease.
#[verifier::ext_equal]
pub struct KeepaliveView {
    pub lease_ttl: nat,
    pub stage: KeepaliveStage,
}

impl KeepaliveView {
    pub open spec fn at(self, stage: KeepaliveStage) -> KeepaliveView {
        KeepaliveView { stage, ..self }
    }

    /// Begin, this long after the last answer. The lease has expired once it
    /// stayed without an answer for its time to live.
    pub open spec fn begin(self, elapsed: nat) -> (KeepaliveView, KeepaliveStepView) {
        if elapsed >= self.lease_ttl {
            (self, KeepaliveStepView::Done(KeepaliveOutcome::Expired))
        } else {
            (self.at(KeepaliveStage::Checking), KeepaliveStepView::AskCurrent)
        }
    }

    /// The store could not be asked: try again later, but not later than the
    /// lease lives.
    pub open spec fn failed(self, fault: CoordinationFault, elapsed: nat) -> (
        KeepaliveView,
        KeepaliveStepView,
    ) {
        if !fault.transient() {
            (self, KeepaliveStepView::Fail(ParticipantFault::Coordination(fault)))
        } else if elapsed >= self.lease_ttl {
            (self, KeepaliveStepView::Done(KeepaliveOutcome::Expired))
        } else {
            let remaining = (self.lease_ttl - elapsed) as nat;
            (
                self,
                KeepaliveStepView::Pause(
                    if remaining < keepalive_period() {
                        remaining
                    } else {
                        keepalive_period()
                    },
                ),
            )
        }
    }

    /// What follows the answer whether the session is current.
    pub open spec fn current(self, result: Result<bool, CoordinationFault>, elapsed: nat) -> (
        KeepaliveView,
        KeepaliveStepView,
    ) {
        match result {
            Err(fault) => self.failed(fault, elapsed),
            Ok(false) => (self, KeepaliveStepView::Done(KeepaliveOutcome::Expired)),
            Ok(true) => if self.stage == KeepaliveStage::Confirming {
                (self, KeepaliveStepView::Done(KeepaliveOutcome::Healthy))
            } else {
                (self.at(KeepaliveStage::Keeping), KeepaliveStepView::KeepAlive)
            },
        }
    }

    /// What follows the answer to the keepalive.
    pub open spec fn kept(self, result: Result<(), CoordinationFault>, elapsed: nat) -> (
        KeepaliveView,
        KeepaliveStepView,
    ) {
        match result {
            Ok(()) => (self.at(KeepaliveStage::Confirming), KeepaliveStepView::AskCurrent),
            Err(CoordinationFault::LeaseExpired) => (
                self,
                KeepaliveStepView::Done(KeepaliveOutcome::Expired),
            ),
            Err(fault) => self.failed(fault, elapsed),
        }
    }

    /// What follows a pause.
    pub open spec fn paused(self, shutdown: bool, elapsed: nat) -> (
        KeepaliveView,
        KeepaliveStepView,
    ) {
        if shutdown {
            (self, KeepaliveStepView::Done(KeepaliveOutcome::Shutdown))
        } else {
            self.begin(elapsed)
        }
    }
}

/// A session counts as healthy only after its lease was kept alive while it was
/// current, and it was still current afterwards.
pub proof fn healthy_sessions_are_confirmed(
    v: KeepaliveView,
    result: Result<bool, CoordinationFault>,
    elapsed: nat,
)
    requires
        v.current(result, elapsed).1 == KeepaliveStepView::Done(KeepaliveOutcome::Healthy),
    ensures
        v.stage == KeepaliveStage::Confirming,
        result == Ok::<bool, CoordinationFault>(true),
{
}

/// While the store is away, a pause never outlasts the lease.
pub proof fn pauses_end_with_the_lease(
    v: KeepaliveView,
    fault: CoordinationFault,
    elapsed: nat,
)
    ensures
        v.failed(fault, elapsed).1 matches KeepaliveStepView::Pause(span) ==> span > 0 && elapsed
            + span <= v.lease_ttl,
        fault.transient() && elapsed >= v.lease_ttl ==> v.failed(fault, elapsed).1
            == KeepaliveStepView::Done(KeepaliveOutcome::Expired),
{
}

/// A keepalive of a lease.
pub struct SessionKeepalive {
    lease_ttl: Duration,
    stage: KeepaliveStage,
}

impl View for SessionKeepalive {
    type V = KeepaliveView;

    closed spec fn view(&self) -> KeepaliveView {
        KeepaliveView { lease_ttl: self.lease_ttl@, stage: self.stage }
    }
}

impl SessionKeepalive {
    /// Begin to keep a lease alive, this long after its last answer.
    pub fn keep_alive_until_available(lease_ttl: Duration, elapsed: Duration) -> (r: (
        SessionKeepalive,
        KeepaliveStep,
    ))
        ensures
            (r.0@, r.1@) == (KeepaliveView {
                lease_ttl: lease_ttl@,
                stage: KeepaliveStage::Checking,
            }).begin(elapsed@),
    {
        let mut keepalive = SessionKeepalive { lease_ttl, stage: KeepaliveStage::Checking };
        let step = keepalive.begin(elapsed);
        (keepalive, step)
    }

    fn begin(&mut self, elapsed: Duration) -> (r: KeepaliveStep)
        ensures
            (final(self)@, r@) == old(self)@.begin(elapsed@),
    {
        if !elapsed.is_shorter(&self.lease_ttl) {
            KeepaliveStep::Done(KeepaliveOutcome::Expired)
        } else {
            self.stage = KeepaliveStage::Checking;
            KeepaliveStep::AskCurrent
        }
    }

    fn failed(&self, error: CoordinationError, elapsed: Duration) -> (r: KeepaliveStep)
        ensures
            (self@, r@) == self@.failed(error@, elapsed@),
    {
        if !error.is_transient() {
            return KeepaliveStep::Fail(ParticipantRuntimeError::Coordination(error));
        }
        let remaining = self.lease_ttl.saturating_sub(elapsed);
        if remaining.is_zero() {
            KeepaliveStep::Done(KeepaliveOutcome::Expired)
        } else {
            KeepaliveStep::Pause(Duration::from_millis(KEEPALIVE_PERIOD_MS).shorter(remaining))
        }
    }

    /// Go on with whether the session is current.
    pub fn on_current(&mut self, result: Result<bool, CoordinationError>, elapsed: Duration) -> (r:
        KeepaliveStep)
        ensures
            (final(self)@, r@) == old(self)@.current(
                match result {
                    Ok(current) => Ok(current),
                    Err(error) => Err(error@),
                },
                elapsed@,
            ),
    {
        match result {
            Err(error) => self.failed(error, elapsed),
            Ok(false) => KeepaliveStep::Done(KeepaliveOutcome::Expired),
            Ok(true) => match self.stage {
                KeepaliveStage::Confirming => KeepaliveStep::Done(KeepaliveOutcome::Healthy),
                _ => {
                    self.stage = KeepaliveStage::Keeping;
                    KeepaliveStep::KeepAlive
                },
            },
        }
    }

    /// Go on with the answer to the keepalive.
    pub fn on_kept(&mut self, result: Result<(), CoordinationError>, elapsed: Duration) -> (r:
        KeepaliveStep)
        ensures
            (final(self)@, r@) == old(self)@.kept(
                match result {
                    Ok(()) => Ok(()),
                    Err(error) => Err(error@),
                },
                elapsed@,
            ),
    {
        match result {
            Ok(()) => {
                self.stage = KeepaliveStage::Confirming;
                KeepaliveStep::AskCurrent
            },
            Err(CoordinationError::LeaseExpired) => KeepaliveStep::Done(KeepaliveOutcome::Expired),
            Err(error) => self.failed(error, elapsed),
        }
    }

    /// Go on after a pause, or stop.
    pub fn on_paused(&mut self, shutdown: bool, elapsed: Duration) -> (r: KeepaliveStep)
        ensures
            (final(self)@, r@) == old(self)@.paused(shutdown, elapsed@),
    {
        if shutdown {
            KeepaliveStep::Done(KeepaliveOutcome::Shutdown)
        } else {
            self.begin(elapsed)
        }
    }
}

/// What a participant that wants a session does next.
pub enum RegistrationStep {
    /// Ask whether the instance is live.
    AskLive,
    /// Register the instance.
    Register,
    /// Pause, unless told to stop first.
    Pause,
    /// The participant has a session, or was told to stop.
    Done(Option<EtcdParticipantSession>),
    /// The registration failed.
    Fail(ParticipantRuntimeError),
}

/// Begin to register: an instance that is still live is waited for.
pub fn register_session_until() -> (r: RegistrationStep)
    ensures
        r is AskLive,
{
    RegistrationStep::AskLive
}

/// Go on with whether the instance is live.
pub fn registration_on_live(result: Result<Option<SessionId>, CoordinationError>) -> (r:
    RegistrationStep)
    ensures
        match result {
            Err(error) => r matches RegistrationStep::Fail(failed) && failed@
                == ParticipantFault::Coordination(error@),
            Ok(None) => r is Register,
            Ok(Some(_)) => r is Pause,
        },
{
    match result {
        Err(error) => RegistrationStep::Fail(ParticipantRuntimeError::Coordination(error)),
        Ok(None) => RegistrationStep::Register,
        Ok(Some(_)) => RegistrationStep::Pause,
    }
}

/// Go on after the registration. A registration that was lost to another one is
/// tried again.
pub fn registration_on_registered(result: Result<EtcdParticipantSession, CoordinationError>) -> (r:
    RegistrationStep)
    ensures
        match result {
            Ok(session) => r == RegistrationStep::Done(Some(session)),
            Err(error) => if error@ == CoordinationFault::RegistrationLost {
                r is Pause
            } else {
                r matches RegistrationStep::Fail(failed) && failed@
                    == ParticipantFault::Coordination(error@)
            },
        },
{
    match result {
        Ok(session) => RegistrationStep::Done(Some(session)),
        Err(CoordinationError::RegistrationLost) => RegistrationStep::Pause,
        Err(error) => RegistrationStep::Fail(ParticipantRuntimeError::Coordination(error)),
    }
}

/// Go on after a pause, or stop without a session.
pub fn registration_on_paused(shutdown: bool) -> (r: RegistrationStep)
    ensures
        shutdown ==> r == RegistrationStep::Done(None),
        !shutdown ==> r is AskLive,
{
    if shutdown {
        RegistrationStep::Done(None)
    } else {
        RegistrationStep::AskLive
    }
}

} // verus!
