//! The watch-driven controller runtime.
use crate::controller::error::{ControllerRuntimeError, RuntimeFault};
use crate::controller::pending::ReconcileMode;
use crate::controller::published::{self, PublishedTransition};
use crate::controller::records::{self, Decoded};
use crate::coordination::etcd::keys;
use crate::coordination::etcd::metadata;
use crate::coordination::etcd::snapshot;
use crate::coordination::etcd::{decode_segment, CoordinationSnapshot, Revision};
use crate::model::{InstanceId, LiveInstance, SessionId};
use crate::ordered::{self, Duplicate, OrderedMap};
use crate::text;
use vstd::prelude::*;
use vstd::string::*;

verus! {

/// The value of a metadata key.
pub open spec fn value_of(m: Map<Seq<char>, metadata::MetadataView>, key: Seq<char>) -> Option<
    Seq<char>,
> {
    if m.dom().contains(key) {
        m[key].value
    } else {
        None
    }
}

/// The value of a metadata key in a snapshot.
pub fn metadata_value<'a>(snapshot: &'a CoordinationSnapshot, key: &str) -> (r: Option<&'a str>)
    ensures
        match r {
            Some(value) => value_of(snapshot@.metadata, key@) == Some(value@),
            None => value_of(snapshot@.metadata, key@) is None,
        },
{
    match snapshot.metadata().get(&key.to_owned()) {
        Some(entry) => entry.value(),
        None => None,
    }
}

/// The sessions of live instances.
pub open spec fn sessions_of(live: Map<Seq<char>, (Seq<char>, u64)>) -> Map<Seq<char>, u64> {
    Map::new(|i: Seq<char>| live.dom().contains(i), |i: Seq<char>| live[i].1)
}

/// The known sessions with the sessions of live instances put over them.
pub open spec fn remembered(
    known: Map<Seq<char>, u64>,
    live: Map<Seq<char>, (Seq<char>, u64)>,
) -> Map<Seq<char>, u64> {
    known.union_prefer_right(sessions_of(live))
}

fn put_sessions(
    known: &mut OrderedMap<InstanceId, SessionId>,
    live: &OrderedMap<InstanceId, LiveInstance>,
)
    ensures
        final(known)@ == remembered(old(known)@, live@),
{
    let ghost start = known@;
    let ghost all = live.listing();
    let n: usize = live.len();
    let mut i: usize = 0;
    proof {
        ordered::map_of_ends(all);
        assert(sessions_of(ordered::map_of(all.take(0))) =~= Map::empty());
        assert(remembered(start, ordered::map_of(all.take(0))) =~= start);
    }
    while i < n
        invariant
            i <= n,
            n == all.len(),
            all == live.listing(),
            ordered::lists::<InstanceId, (Seq<char>, u64)>(all, live@),
            known@ == remembered(start, ordered::map_of(all.take(i as int))),
        decreases n - i,
    {
        proof {
            ordered::map_of_step::<InstanceId, (Seq<char>, u64)>(all, i as int);
        }
        let ghost before = known@;
        known.insert(live.key_at(i).duplicate(), live.value_at(i).session_id());
        assert(known@ =~= remembered(start, ordered::map_of(all.take(i + 1))));
        i = i + 1;
    }
    proof {
        ordered::map_of_ends(all);
    }
}

/// The live sessions of a snapshot.
pub fn live_sessions(snapshot: &CoordinationSnapshot) -> (r: OrderedMap<InstanceId, SessionId>)
    ensures
        r@ == sessions_of(snapshot@.participants.live),
{
    let mut sessions: OrderedMap<InstanceId, SessionId> = OrderedMap::new();
    put_sessions(&mut sessions, snapshot.participants().live_instances());
    assert(sessions@ =~= sessions_of(snapshot@.participants.live));
    sessions
}

/// Some known instance is live under another session.
pub open spec fn replaced(
    known: Map<Seq<char>, u64>,
    live: Map<Seq<char>, (Seq<char>, u64)>,
) -> bool {
    exists|i: Seq<char>| #[trigger]
        live.dom().contains(i) && known.dom().contains(i) && known[i] != live[i].1
}

/// Whether some known instance is live under another session.
pub fn session_replaced(
    known_sessions: &OrderedMap<InstanceId, SessionId>,
    current: &CoordinationSnapshot,
) -> (r: bool)
    ensures
        r == replaced(known_sessions@, current@.participants.live),
{
    let live = current.participants().live_instances();
    let ghost all = live.listing();
    let n: usize = live.len();
    let mut i: usize = 0;
    while i < n
        invariant
            i <= n,
            n == all.len(),
            all == live.listing(),
            ordered::lists::<InstanceId, (Seq<char>, u64)>(all, live@),
            live@ == current@.participants.live,
            forall|j: int|
                0 <= j < i ==> !(known_sessions@.dom().contains((#[trigger] all[j]).0)
                    && known_sessions@[all[j].0] != all[j].1.1),
        decreases n - i,
    {
        proof {
            ordered::map_of_at::<InstanceId, (Seq<char>, u64)>(all, i as int);
        }
        if let Some(session) = known_sessions.get(live.key_at(i)) {
            if session.sequence() != live.value_at(i).session_id().sequence() {
                assert(live@.dom().contains(all[i as int].0));
                return true;
            }
        }
        i = i + 1;
    }
    proof {
        assert forall|k: Seq<char>| #[trigger] live@.dom().contains(k) implies !(
        known_sessions@.dom().contains(k) && known_sessions@[k] != live@[k].1) by {
            let j = ordered::map_of_position(all, k);
            ordered::map_of_at::<InstanceId, (Seq<char>, u64)>(all, j);
        }
    }
    false
}

/// The messages of a decoded queue.
pub open spec fn queue_of(decoded: records::DecodedView<Seq<published::PublishedView>>) -> Result<
    Seq<published::PublishedView>,
    Seq<char>,
> {
    match decoded {
        records::DecodedView::Missing => Ok(Seq::empty()),
        records::DecodedView::Malformed(message) => Err(message),
        records::DecodedView::Value(messages) => if exists|i: int|
            0 <= i < messages.len() && (#[trigger] messages[i]).message_id.len() == 0 {
            Err("pending transition is missing message identity"@)
        } else {
            Ok(messages)
        },
    }
}

/// Read the published queue.
pub fn read_pending(decoded: &Decoded<Vec<PublishedTransition>>) -> (r: Result<
    Vec<PublishedTransition>,
    ControllerRuntimeError,
>)
    ensures
        match (r, queue_of(decoded@)) {
            (Ok(messages), Ok(model)) => messages.deep_view() == model,
            (Err(error), Err(message)) => error@ == RuntimeFault::of_message(message),
            _ => false,
        },
{
    let messages = match decoded {
        Decoded::Missing => {
            let none: Vec<PublishedTransition> = Vec::new();
            assert(none.deep_view() =~= Seq::empty());
            return Ok(none);
        },
        Decoded::Malformed(message) => {
            return Err(ControllerRuntimeError::message(message.clone()));
        },
        Decoded::Value(messages) => messages,
    };
    let ghost all = messages.deep_view();
    let mut i: usize = 0;
    while i < messages.len()
        invariant
            i <= messages@.len(),
            all == messages.deep_view(),
            decoded@ == records::DecodedView::Value(all),
            forall|j: int| 0 <= j < i ==> (#[trigger] all[j]).message_id.len() > 0,
        decreases messages@.len() - i,
    {
        assert(all[i as int] == messages@[i as int]@);
        if messages[i].message_id.as_str().is_empty() {
            return Err(
                ControllerRuntimeError::message(
                    "pending transition is missing message identity".to_owned(),
                ),
            );
        }
        i = i + 1;
    }
    Ok(messages.duplicate())
}

/// The published outputs are these already, and they are based on input that
/// is not older than that of the snapshot.
pub open spec fn outputs_are(
    v: snapshot::CoordinationView,
    external_view: Seq<char>,
    pending: Seq<char>,
) -> bool {
    &&& value_of(v.metadata, "controller/output/external-view"@) == Some(external_view)
    &&& value_of(v.metadata, "controller/output/pending-transitions"@) == Some(pending)
    &&& match value_of(v.metadata, "controller/output/processed-revision"@) {
        Some(value) => match text::signed_number(value) {
            Some(n) if i64::MIN <= n <= i64::MAX => n >= v.authoritative,
            _ => false,
        },
        None => false,
    }
}

fn is_value(snapshot: &CoordinationSnapshot, key: &str, value: &str) -> (r: bool)
    ensures
        r == (value_of(snapshot@.metadata, key@) == Some(value@)),
{
    match metadata_value(snapshot, key) {
        Some(found) => text::text_eq(found, value),
        None => false,
    }
}

/// Whether the published outputs are these already.
pub fn outputs_match(
    snapshot: &CoordinationSnapshot,
    external_view: &str,
    pending_transitions: &str,
) -> (r: bool)
    ensures
        r == outputs_are(snapshot@, external_view@, pending_transitions@),
{
    if !is_value(snapshot, "controller/output/external-view", external_view) {
        return false;
    }
    if !is_value(snapshot, "controller/output/pending-transitions", pending_transitions) {
        return false;
    }
    match metadata_value(snapshot, "controller/output/processed-revision") {
        Some(value) => match text::parse_i64(value) {
            Some(processed) => processed >= snapshot.authoritative_revision().value(),
            None => false,
        },
        None => false,
    }
}

/// The relative key is input of the controller: a session, a current state, or
/// metadata that the controller does not write itself.
pub open spec fn controller_input(key: Seq<char>) -> bool {
    if "live/"@.is_prefix_of(key) || "current-state/"@.is_prefix_of(key) {
        true
    } else {
        match text::after_prefix(key, "metadata/"@) {
            None => false,
            Some(segment) => match keys::text_of_segment(segment) {
                None => true,
                Some(name) => !"controller/output/"@.is_prefix_of(name) && name
                    != "internal/session-sequence"@,
            },
        }
    }
}

/// Whether a relative key is input of the controller.
pub fn is_controller_input(key: &str) -> (r: bool)
    ensures
        r == controller_input(key@),
{
    if text::starts_with(key, "live/") || text::starts_with(key, "current-state/") {
        return true;
    }
    match text::strip_prefix(key, "metadata/") {
        None => false,
        Some(segment) => match decode_segment(segment.as_str()) {
            Err(_) => true,
            Ok(name) => !text::starts_with(name.as_str(), "controller/output/") && !text::text_eq(
                name.as_str(),
                "internal/session-sequence",
            ),
        },
    }
}

/// The outputs of the controller are never its input.
pub proof fn outputs_are_no_input(name: Seq<char>)
    requires
        "controller/output/"@.is_prefix_of(name),
    ensures
        !controller_input("metadata/"@ + keys::segment_of(name)),
{
    let key = "metadata/"@ + keys::segment_of(name);
    reveal_strlit("metadata/");
    reveal_strlit("live/");
    reveal_strlit("current-state/");
    assert(key[0] == 'm');
    if "live/"@.is_prefix_of(key) {
        assert(key.subrange(0, 5)[0] == key[0]);
    }
    if "current-state/"@.is_prefix_of(key) {
        assert(key.subrange(0, 14)[0] == key[0]);
    }
    assert("metadata/"@.is_prefix_of(key)) by {
        assert(key.subrange(0, 9) =~= "metadata/"@);
    }
    assert(key.skip(9) =~= keys::segment_of(name));
    keys::segment_round_trip(name);
}

/// What a controller remembers between reconciliations.
#[verifier::ext_equal]
pub struct ControllerStateView {
    pub pending: Seq<published::PublishedView>,
    pub known: Map<Seq<char>, u64>,
    pub authoritative: i64,
}

impl ControllerStateView {
    /// The watermark of observed input only rises.
    pub open spec fn observe(self, revision: i64) -> ControllerStateView {
        ControllerStateView {
            authoritative: if self.authoritative >= revision {
                self.authoritative
            } else {
                revision
            },
            ..self
        }
    }

    /// How to reconcile a snapshot.
    pub open spec fn mode(self, v: snapshot::CoordinationView) -> ReconcileMode {
        if replaced(self.known, v.participants.live) {
            ReconcileMode::SessionReplacement
        } else {
            ReconcileMode::Normal
        }
    }

    /// After the sessions of a snapshot were remembered.
    pub open spec fn remember(self, v: snapshot::CoordinationView) -> ControllerStateView {
        ControllerStateView { known: remembered(self.known, v.participants.live), ..self }
    }
}

/// The watermark of observed input never falls, and covers every observed
/// revision.
pub proof fn watermark_is_monotonic(v: ControllerStateView, revision: i64)
    ensures
        v.observe(revision).authoritative >= v.authoritative,
        v.observe(revision).authoritative >= revision,
        v.observe(revision).observe(revision) == v.observe(revision),
{
}

/// Once the sessions of a snapshot are remembered, none of them counts as
/// replaced.
pub proof fn remembered_sessions_are_not_replaced(
    v: ControllerStateView,
    s: snapshot::CoordinationView,
)
    ensures
        v.remember(s).mode(s) == ReconcileMode::Normal,
{
}

/// What a controller remembers between reconciliations.
pub struct ControllerState {
    pending: Vec<PublishedTransition>,
    known_sessions: OrderedMap<InstanceId, SessionId>,
    authoritative_revision: Revision,
}

impl View for ControllerState {
    type V = ControllerStateView;

    closed spec fn view(&self) -> ControllerStateView {
        ControllerStateView {
            pending: self.pending.deep_view(),
            known: self.known_sessions@,
            authoritative: self.authoritative_revision@,
        }
    }
}

impl DeepView for ControllerState {
    type V = ControllerStateView;

    open spec fn deep_view(&self) -> ControllerStateView {
        self@
    }
}

/// What a controller remembers of its first snapshot.
pub open spec fn first_state(
    v: snapshot::CoordinationView,
    queue: records::DecodedView<Seq<published::PublishedView>>,
) -> Result<ControllerStateView, Seq<char>> {
    match queue_of(queue) {
        Err(message) => Err(message),
        Ok(pending) => Ok(
            ControllerStateView {
                pending,
                known: sessions_of(v.participants.live),
                authoritative: v.authoritative,
            },
        ),
    }
}

impl ControllerState {
    /// Begin with the first snapshot and its decoded queue.
    pub fn from_snapshot(
        snapshot: &CoordinationSnapshot,
        queue: &Decoded<Vec<PublishedTransition>>,
    ) -> (r: Result<ControllerState, ControllerRuntimeError>)
        ensures
            match (r, first_state(snapshot@, queue@)) {
                (Ok(state), Ok(model)) => state@ == model,
                (Err(error), Err(message)) => error@ == RuntimeFault::of_message(message),
                _ => false,
            },
    {
        match read_pending(queue) {
            Ok(pending) => Ok(
                ControllerState {
                    pending,
                    known_sessions: live_sessions(snapshot),
                    authoritative_revision: snapshot.authoritative_revision(),
                },
            ),
            Err(error) => Err(error),
        }
    }

    /// The newest input revision that was observed.
    pub fn authoritative_revision(&self) -> (r: Revision)
        ensures
            r@ == self@.authoritative,
    {
        self.authoritative_revision
    }

    /// The pending messages.
    pub fn pending(&self) -> (r: &Vec<PublishedTransition>)
        ensures
            r.deep_view() == self@.pending,
    {
        &self.pending
    }

    /// Take over the pending messages.
    pub fn set_pending(&mut self, pending: Vec<PublishedTransition>)
        ensures
            final(self)@ == (ControllerStateView { pending: pending.deep_view(), ..old(self)@ }),
    {
        self.pending = pending;
    }

    /// Observe an input revision.
    pub fn observe_input_revision(&mut self, revision: Revision)
        ensures
            final(self)@ == old(self)@.observe(revision@),
    {
        self.authoritative_revision = self.authoritative_revision.later(revision);
    }

    /// How to reconcile a snapshot.
    pub fn mode_for(&self, snapshot: &CoordinationSnapshot) -> (r: ReconcileMode)
        ensures
            r == self@.mode(snapshot@),
    {
        if session_replaced(&self.known_sessions, snapshot) {
            ReconcileMode::SessionReplacement
        } else {
            ReconcileMode::Normal
        }
    }

    /// Remember the live sessions of a snapshot.
    pub fn remember_sessions(&mut self, snapshot: &CoordinationSnapshot)
        ensures
            final(self)@ == old(self)@.remember(snapshot@),
    {
        put_sessions(&mut self.known_sessions, snapshot.participants().live_instances());
    }
}

} // verus!
