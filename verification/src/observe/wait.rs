//! Waiting for an observed cluster condition.
use crate::coordination::etcd::error::CoordinationFault;
use crate::coordination::etcd::keys;
use crate::coordination::etcd::watch;
use crate::coordination::etcd::{
    is_lease_backed_delete, CoordinationError, EtcdNamespace, WatchError, WatchEvent,
};
use crate::model::{InstanceId, SessionId};
use crate::observability::{RuntimeEvent, RuntimeSignal};
use crate::observe::snapshot::{ClusterSnapshot, ClusterView, ObserverRevision};
use crate::text;
use crate::time::{self, Duration};
use vstd::prelude::*;
use vstd::string::*;

verus! {

/// How often an observer reads the state without being told of a change.
pub const OBSERVER_PERIOD_MS: u64 = 250;

/// Errors returned while waiting for an observed cluster condition.
#[derive(Debug)]
pub enum WaitError {
    Coordination(CoordinationError),
    Watch(WatchError),
    Timeout(Duration),
}

/// What went wrong while waiting.
pub enum WaitFault {
    Coordination(CoordinationFault),
    Watch(watch::WatchFault),
    Timeout(nat),
}

impl View for WaitError {
    type V = WaitFault;

    open spec fn view(&self) -> WaitFault {
        match self {
            WaitError::Coordination(error) => WaitFault::Coordination(error@),
            WaitError::Watch(error) => WaitFault::Watch(error@),
            WaitError::Timeout(duration) => WaitFault::Timeout(duration@),
        }
    }
}

impl WaitFault {
    /// The operator-facing message.
    pub open spec fn text(self) -> Seq<char> {
        match self {
            WaitFault::Coordination(fault) => fault.text(),
            WaitFault::Watch(fault) => fault.text(),
            WaitFault::Timeout(nanos) => "observation timed out after "@ + time::duration_text(
                nanos,
            ),
        }
    }
}

impl WaitError {
    /// Return the operator-facing message.
    pub fn to_string(&self) -> (r: String)
        ensures
            r@ == self@.text(),
    {
        match self {
            WaitError::Coordination(error) => error.to_string(),
            WaitError::Watch(error) => error.to_string(),
            WaitError::Timeout(duration) => "observation timed out after ".to_owned().concat(
                duration.to_string().as_str(),
            ),
        }
    }
}

impl From<CoordinationError> for WaitError {
    fn from(error: CoordinationError) -> (r: WaitError)
        ensures
            r == WaitError::Coordination(error),
    {
        WaitError::Coordination(error)
    }
}

impl vstd::std_specs::convert::FromSpecImpl<CoordinationError> for WaitError {
    open spec fn obeys_from_spec() -> bool {
        true
    }

    open spec fn from_spec(error: CoordinationError) -> WaitError {
        WaitError::Coordination(error)
    }
}

impl From<WatchError> for WaitError {
    fn from(error: WatchError) -> (r: WaitError)
        ensures
            r == WaitError::Watch(error),
    {
        WaitError::Watch(error)
    }
}

impl vstd::std_specs::convert::FromSpecImpl<WatchError> for WaitError {
    open spec fn obeys_from_spec() -> bool {
        true
    }

    open spec fn from_spec(error: WatchError) -> WaitError {
        WaitError::Watch(error)
    }
}

/// What a waiting observer knows: the newest input it has seen, the revision of
/// its first snapshot, and whether its watch has reached that revision.
#[verifier::ext_equal]
pub struct WaitView {
    pub floor: i64,
    pub catch_up: i64,
    pub caught_up: bool,
}

pub open spec fn later(a: i64, b: i64) -> i64 {
    if a >= b {
        a
    } else {
        b
    }
}

impl WaitView {
    /// Begin with the first snapshot.
    pub open spec fn begin(v: ClusterView) -> WaitView {
        WaitView {
            floor: v.authoritative,
            catch_up: v.observer,
            caught_up: v.authoritative >= v.observer,
        }
    }

    /// After an event of the watch. An expired lease is input that no marker
    /// covers yet.
    pub open spec fn watched(self, event: watch::EventView) -> WaitView {
        WaitView {
            floor: if watch::lease_backed_delete(event) {
                later(self.floor, event.revision)
            } else {
                self.floor
            },
            caught_up: self.caught_up || event.revision >= self.catch_up,
            ..self
        }
    }

    /// After a replacement snapshot with a new watch.
    pub open spec fn replaced(self, v: ClusterView) -> WaitView {
        WaitView { floor: later(self.floor, v.authoritative), caught_up: true, ..self }
    }
}

/// The newest input that an observer has seen never falls.
pub proof fn observed_input_never_regresses(v: WaitView, event: watch::EventView, s: ClusterView)
    ensures
        v.watched(event).floor >= v.floor,
        v.replaced(s).floor >= v.floor,
        v.caught_up ==> v.watched(event).caught_up && v.replaced(s).caught_up,
{
}

/// A snapshot that a waiting observer looks at counts every lease that it saw
/// expire as input.
pub proof fn expired_leases_are_input(v: WaitView, event: watch::EventView, s: ClusterView)
    requires
        watch::lease_backed_delete(event),
    ensures
        s.at_least(v.watched(event).floor).authoritative >= event.revision,
{
}

/// An idle cluster has processed every lease that the observer saw expire.
pub proof fn idle_covers_expired_leases(v: WaitView, event: watch::EventView, s: ClusterView)
    requires
        watch::lease_backed_delete(event),
        s.at_least(v.watched(event).floor).is_idle(),
    ensures
        s.pending.len() == 0,
        s.processed matches Some(processed) && processed >= event.revision && processed
            >= s.authoritative,
{
}

/// A waiting observer.
pub struct ObservationWait {
    floor: ObserverRevision,
    catch_up: ObserverRevision,
    caught_up: bool,
}

impl View for ObservationWait {
    type V = WaitView;

    closed spec fn view(&self) -> WaitView {
        WaitView { floor: self.floor@, catch_up: self.catch_up@, caught_up: self.caught_up }
    }
}

/// What a waiting observer does after an error of its watch.
pub enum WaitStep {
    /// Take a replacement snapshot with a new watch.
    Replace,
    /// Tell the operator, and continue the watch.
    Resume(RuntimeEvent),
    /// Give up.
    Fail(WaitError),
}

impl ObservationWait {
    /// Begin with the first snapshot.
    pub fn wait_until(snapshot: &ClusterSnapshot) -> (r: ObservationWait)
        ensures
            r@ == WaitView::begin(snapshot@),
    {
        ObservationWait {
            floor: snapshot.authoritative_revision,
            catch_up: snapshot.observer_revision,
            caught_up: snapshot.authoritative_revision.value()
                >= snapshot.observer_revision.value(),
        }
    }

    /// Whether a snapshot may be looked at: the watch has reached the revision
    /// of the first one.
    pub fn is_caught_up(&self) -> (r: bool)
        ensures
            r == self@.caught_up,
    {
        self.caught_up
    }

    /// The newest input that the observer has seen.
    pub fn floor(&self) -> (r: ObserverRevision)
        ensures
            r@ == self@.floor,
    {
        self.floor
    }

    /// Go on after an event of the watch.
    pub fn on_event(&mut self, event: &WatchEvent)
        ensures
            final(self)@ == old(self)@.watched(event@),
    {
        let revision = ObserverRevision::from_revision(event.revision());
        self.caught_up = self.caught_up || revision.value() >= self.catch_up.value();
        if is_lease_backed_delete(event) {
            self.floor = self.floor.later(revision);
        }
    }

    /// The snapshot to look at, which counts what the observer has seen.
    pub fn on_snapshot(&self, snapshot: ClusterSnapshot) -> (r: ClusterSnapshot)
        ensures
            r@ == snapshot@.at_least(self@.floor),
    {
        snapshot.with_authoritative_floor(self.floor)
    }

    /// Go on with a replacement snapshot.
    pub fn on_replacement(&mut self, snapshot: ClusterSnapshot) -> (r: ClusterSnapshot)
        ensures
            r@ == snapshot@.at_least(old(self)@.floor),
            final(self)@ == old(self)@.replaced(snapshot@),
    {
        let current = snapshot.with_authoritative_floor(self.floor);
        self.floor = self.floor.later(current.authoritative_revision);
        self.caught_up = true;
        current
    }
}

/// What follows an error of the watch.
pub fn wait_on_watch_error(error: WatchError) -> (r: WaitStep)
    ensures
        match error@ {
            watch::WatchFault::Compacted { .. } => r is Replace,
            watch::WatchFault::Disconnected => r matches WaitStep::Resume(event) && event@
                == (RuntimeSignal::CoordinationRetry { operation: "observer watch"@ }),
            watch::WatchFault::Coordination(fault) => if fault.transient() {
                r matches WaitStep::Resume(event) && event@ == (RuntimeSignal::CoordinationRetry {
                    operation: "observer coordination"@,
                })
            } else {
                r matches WaitStep::Fail(failed) && failed@ == WaitFault::Watch(error@)
            },
        },
{
    match error {
        WatchError::Compacted { .. } => WaitStep::Replace,
        WatchError::Disconnected => WaitStep::Resume(
            RuntimeEvent::CoordinationRetry { operation: "observer watch".to_owned() },
        ),
        WatchError::Coordination(error) => if error.is_transient() {
            WaitStep::Resume(
                RuntimeEvent::CoordinationRetry { operation: "observer coordination".to_owned() },
            )
        } else {
            WaitStep::Fail(WaitError::Watch(WatchError::Coordination(error)))
        },
    }
}

/// What follows a periodic read that failed: a store that is away is waited
/// for, and everything else ends the wait.
pub fn wait_on_poll_error(error: CoordinationError) -> (r: Option<WaitError>)
    ensures
        match r {
            Some(failed) => !error@.transient() && failed@ == WaitFault::Coordination(error@),
            None => error@.transient(),
        },
{
    if error.is_transient() {
        None
    } else {
        Some(WaitError::Coordination(error))
    }
}

/// The prefix of the physical CurrentState records of a session.
pub open spec fn session_records(prefix: Seq<char>, instance: Seq<char>, session: Seq<char>) -> Result<
    Seq<char>,
    CoordinationFault,
> {
    if instance.len() == 0 {
        Err(CoordinationFault::InvalidKey)
    } else {
        match text::unsigned_number(session) {
            Some(n) if n <= u64::MAX => Ok(
                keys::current_state_prefix_at(prefix, instance, n as u64),
            ),
            _ => Err(CoordinationFault::InvalidSession),
        }
    }
}

/// The prefix of the physical CurrentState records of a session. The session
/// has records exactly where some key has the prefix.
pub fn session_current_state_prefix(namespace: &EtcdNamespace, instance: &str, session: &str) -> (r:
    Result<String, CoordinationError>)
    ensures
        match (r, session_records(namespace@.prefix, instance@, session@)) {
            (Ok(key), Ok(model)) => key@ == model,
            (Err(error), Err(fault)) => error@ == fault,
            _ => false,
        },
{
    let instance_id = match InstanceId::new(instance) {
        Ok(instance_id) => instance_id,
        Err(_) => {
            return Err(CoordinationError::InvalidKey);
        },
    };
    match text::parse_u64(session) {
        Some(value) => Ok(
            namespace.current_state_session_prefix(&instance_id, SessionId::from_wire_value(value)),
        ),
        None => Err(CoordinationError::InvalidSession),
    }
}

} // verus!
