//! Pending state-transition messages published by the controller.
use crate::controller::message_throttle::OperationalPendingTransition;
use crate::model::{InstanceId, PartitionId, ResourceId, State};
use crate::ordered::{Duplicate, Key};
use crate::text;
use crate::transition;
use crate::transition::TransitionRequest;
use vstd::prelude::*;
use vstd::string::*;

verus! {

/// What a published message says.
#[verifier::ext_equal]
pub struct PublishedView {
    pub resource: Seq<char>,
    pub partition: Seq<char>,
    pub instance: Seq<char>,
    pub target_session: u64,
    pub from: Seq<char>,
    pub to: Seq<char>,
    pub message_type: Seq<char>,
    pub message_id: Seq<char>,
}

/// A pending state-transition message published by the controller. Messages
/// are ordered by their fields.
#[derive(Clone, Debug, PartialEq, Eq, PartialOrd, Ord)]
pub struct PublishedTransition {
    pub resource: String,
    pub partition: String,
    pub instance: String,
    pub target_session: u64,
    pub from: String,
    pub to: String,
    pub message_type: String,
    /// Stable identity for this controller-created transition attempt.
    pub message_id: String,
}

impl View for PublishedTransition {
    type V = PublishedView;

    open spec fn view(&self) -> PublishedView {
        PublishedView {
            resource: self.resource@,
            partition: self.partition@,
            instance: self.instance@,
            target_session: self.target_session,
            from: self.from@,
            to: self.to@,
            message_type: self.message_type@,
            message_id: self.message_id@,
        }
    }
}

impl DeepView for PublishedTransition {
    type V = PublishedView;

    open spec fn deep_view(&self) -> PublishedView {
        self@
    }
}

impl Duplicate for PublishedTransition {
    fn duplicate(&self) -> (r: Self) {
        PublishedTransition {
            resource: self.resource.clone(),
            partition: self.partition.clone(),
            instance: self.instance.clone(),
            target_session: self.target_session,
            from: self.from.clone(),
            to: self.to.clone(),
            message_type: self.message_type.clone(),
            message_id: self.message_id.clone(),
        }
    }
}

impl PublishedView {
    /// The message comes before `other`: the first field that differs decides.
    pub open spec fn precedes(self, other: PublishedView) -> bool {
        if self.resource != other.resource {
            text::text_before(self.resource, other.resource)
        } else if self.partition != other.partition {
            text::text_before(self.partition, other.partition)
        } else if self.instance != other.instance {
            text::text_before(self.instance, other.instance)
        } else if self.target_session != other.target_session {
            self.target_session < other.target_session
        } else if self.from != other.from {
            text::text_before(self.from, other.from)
        } else if self.to != other.to {
            text::text_before(self.to, other.to)
        } else if self.message_type != other.message_type {
            text::text_before(self.message_type, other.message_type)
        } else {
            text::text_before(self.message_id, other.message_id)
        }
    }
}

/// No message comes before itself.
pub proof fn never_before_itself(a: PublishedView)
    ensures
        !a.precedes(a),
{
    precedes_total(a, a);
}

proof fn precedes_total(a: PublishedView, b: PublishedView)
    ensures
        a == b || a.precedes(b) || b.precedes(a),
        !a.precedes(a),
{
    text::text_before_total(a.resource, b.resource);
    text::text_before_total(a.partition, b.partition);
    text::text_before_total(a.instance, b.instance);
    text::text_before_total(a.from, b.from);
    text::text_before_total(a.to, b.to);
    text::text_before_total(a.message_type, b.message_type);
    text::text_before_total(a.message_id, b.message_id);
    text::text_before_irreflexive(a.message_id);
    if a.resource == b.resource && a.partition == b.partition && a.instance == b.instance && a.target_session == b.target_session && a.from == b.from && a.to == b.to && a.message_type == b.message_type && a.message_id == b.message_id {
        assert(a =~= b);
    }
}

proof fn precedes_transitive(a: PublishedView, b: PublishedView, c: PublishedView)
    requires
        a.precedes(b),
        b.precedes(c),
    ensures
        a.precedes(c),
{
    text::text_before_irreflexive(a.resource);
    if text::text_before(a.resource, b.resource) && text::text_before(b.resource, c.resource) {
        text::text_before_transitive(a.resource, b.resource, c.resource);
    }
    text::text_before_irreflexive(a.partition);
    if text::text_before(a.partition, b.partition) && text::text_before(b.partition, c.partition) {
        text::text_before_transitive(a.partition, b.partition, c.partition);
    }
    text::text_before_irreflexive(a.instance);
    if text::text_before(a.instance, b.instance) && text::text_before(b.instance, c.instance) {
        text::text_before_transitive(a.instance, b.instance, c.instance);
    }
    text::text_before_irreflexive(a.from);
    if text::text_before(a.from, b.from) && text::text_before(b.from, c.from) {
        text::text_before_transitive(a.from, b.from, c.from);
    }
    text::text_before_irreflexive(a.to);
    if text::text_before(a.to, b.to) && text::text_before(b.to, c.to) {
        text::text_before_transitive(a.to, b.to, c.to);
    }
    text::text_before_irreflexive(a.message_type);
    if text::text_before(a.message_type, b.message_type) && text::text_before(b.message_type, c.message_type) {
        text::text_before_transitive(a.message_type, b.message_type, c.message_type);
    }
    text::text_before_irreflexive(a.message_id);
    if text::text_before(a.message_id, b.message_id) && text::text_before(b.message_id, c.message_id) {
        text::text_before_transitive(a.message_id, b.message_id, c.message_id);
    }
}

impl Key for PublishedTransition {
    open spec fn before(a: PublishedView, b: PublishedView) -> bool {
        a.precedes(b)
    }

    proof fn before_irreflexive(a: PublishedView) {
        precedes_total(a, a);
    }

    proof fn before_transitive(a: PublishedView, b: PublishedView, c: PublishedView) {
        precedes_transitive(a, b, c);
    }

    proof fn before_total(a: PublishedView, b: PublishedView) {
        precedes_total(a, b);
    }

    fn is_before(&self, other: &Self) -> (r: bool) {
        if !self.resource.same(&other.resource) {
            self.resource.is_before(&other.resource)
        } else if !self.partition.same(&other.partition) {
            self.partition.is_before(&other.partition)
        } else if !self.instance.same(&other.instance) {
            self.instance.is_before(&other.instance)
        } else if self.target_session != other.target_session {
            self.target_session < other.target_session
        } else if !self.from.same(&other.from) {
            self.from.is_before(&other.from)
        } else if !self.to.same(&other.to) {
            self.to.is_before(&other.to)
        } else if !self.message_type.same(&other.message_type) {
            self.message_type.is_before(&other.message_type)
        } else {
            self.message_id.is_before(&other.message_id)
        }
    }

    fn same(&self, other: &Self) -> (r: bool) {
        let r = self.resource.same(&other.resource) && self.partition.same(&other.partition) && self.instance.same(&other.instance) && self.target_session == other.target_session && self.from.same(&other.from) && self.to.same(&other.to) && self.message_type.same(&other.message_type) && self.message_id.same(&other.message_id);
        assert(r ==> self@ =~= other@);
        r
    }
}

impl PublishedView {
    /// Both messages are for the same replica.
    pub open spec fn same_replica(self, other: PublishedView) -> bool {
        self.resource == other.resource && self.partition == other.partition && self.instance
            == other.instance
    }

    /// The message asks a session for this move.
    pub open spec fn asks_for(self, m: transition::Move, session: u64) -> bool {
        &&& self.resource == m.resource
        &&& self.partition == m.partition
        &&& self.instance == m.instance
        &&& self.target_session == session
        &&& self.from == m.source
        &&& self.to == m.target
        &&& self.message_type == "STATE_TRANSITION"@
    }

    /// The move that the message asks for, where it names one.
    pub open spec fn operational(self) -> Option<transition::Move> {
        if self.resource.len() > 0 && self.partition.len() > 0 && self.instance.len() > 0
            && self.from.len() > 0 && self.to.len() > 0 {
            Some(
                transition::Move {
                    resource: self.resource,
                    partition: self.partition,
                    instance: self.instance,
                    source: self.from,
                    target: self.to,
                },
            )
        } else {
            None
        }
    }
}

/// Whether both messages are for the same replica.
pub fn same_replica(left: &PublishedTransition, right: &PublishedTransition) -> (r: bool)
    ensures
        r == left@.same_replica(right@),
{
    left.resource.same(&right.resource) && left.partition.same(&right.partition)
        && left.instance.same(&right.instance)
}

/// Whether a message asks a session for a transition.
pub fn same_transition(
    existing: &PublishedTransition,
    transition: &TransitionRequest,
    session: u64,
) -> (r: bool)
    ensures
        r == existing@.asks_for(transition@, session),
{
    text::text_eq(existing.resource.as_str(), transition.resource().as_str()) && text::text_eq(
        existing.partition.as_str(),
        transition.partition().as_str(),
    ) && text::text_eq(existing.instance.as_str(), transition.instance().as_str())
        && existing.target_session == session && text::text_eq(
        existing.from.as_str(),
        transition.source_state().as_str(),
    ) && text::text_eq(existing.to.as_str(), transition.target_state().as_str()) && text::text_eq(
        existing.message_type.as_str(),
        "STATE_TRANSITION",
    )
}

/// The move that a message asks for. A message that names no valid replica or
/// state asks for none.
pub fn to_operational_pending(message: &PublishedTransition) -> (r: Option<
    OperationalPendingTransition,
>)
    ensures
        r.deep_view() == message@.operational(),
{
    match (
        ResourceId::new(message.resource.as_str()),
        PartitionId::new(message.partition.as_str()),
        InstanceId::new(message.instance.as_str()),
        State::new(message.from.as_str()),
        State::new(message.to.as_str()),
    ) {
        (Ok(resource), Ok(partition), Ok(instance), Ok(source), Ok(target)) => Some(
            OperationalPendingTransition::new(resource, partition, instance, source, target),
        ),
        _ => None,
    }
}

} // verus!
