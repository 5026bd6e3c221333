//! Requests to move one replica from one state to the next.
use crate::model::{InstanceId, PartitionId, ResourceId, State};
use crate::ordered::{Duplicate, Key};
use vstd::prelude::*;

verus! {

/// One replica moving from one state to another.
#[verifier::ext_equal]
pub struct Move {
    pub resource: Seq<char>,
    pub partition: Seq<char>,
    pub instance: Seq<char>,
    pub source: Seq<char>,
    pub target: Seq<char>,
}

/// A transition that the controller asks a participant for.
#[derive(Clone, Debug, PartialEq, Eq)]
pub struct TransitionRequest {
    resource: ResourceId,
    partition: PartitionId,
    instance: InstanceId,
    source_state: State,
    target_state: State,
}

impl View for TransitionRequest {
    type V = Move;

    closed spec fn view(&self) -> Move {
        Move {
            resource: self.resource@,
            partition: self.partition@,
            instance: self.instance@,
            source: self.source_state@,
            target: self.target_state@,
        }
    }
}

impl DeepView for TransitionRequest {
    type V = Move;

    open spec fn deep_view(&self) -> Move {
        self@
    }
}

impl Duplicate for TransitionRequest {
    fn duplicate(&self) -> (r: Self) {
        TransitionRequest {
            resource: self.resource.duplicate(),
            partition: self.partition.duplicate(),
            instance: self.instance.duplicate(),
            source_state: self.source_state.duplicate(),
            target_state: self.target_state.duplicate(),
        }
    }
}

impl TransitionRequest {
    /// A request for one replica.
    pub fn new(
        resource: ResourceId,
        partition: PartitionId,
        instance: InstanceId,
        source_state: State,
        target_state: State,
    ) -> (r: Self)
        ensures
            r@ == (Move {
                resource: resource@,
                partition: partition@,
                instance: instance@,
                source: source_state@,
                target: target_state@,
            }),
    {
        TransitionRequest { resource, partition, instance, source_state, target_state }
    }

    /// Return the resource identity.
    pub fn resource(&self) -> (r: &ResourceId)
        ensures
            r@ == self@.resource,
    {
        &self.resource
    }

    /// Return the partition identity.
    pub fn partition(&self) -> (r: &PartitionId)
        ensures
            r@ == self@.partition,
    {
        &self.partition
    }

    /// Return the instance identity.
    pub fn instance(&self) -> (r: &InstanceId)
        ensures
            r@ == self@.instance,
    {
        &self.instance
    }

    /// Return the state before the transition.
    pub fn source_state(&self) -> (r: &State)
        ensures
            r@ == self@.source,
    {
        &self.source_state
    }

    /// Return the state after the transition.
    pub fn target_state(&self) -> (r: &State)
        ensures
            r@ == self@.target,
    {
        &self.target_state
    }

    /// Whether both requests ask for the same move.
    pub fn same(&self, other: &TransitionRequest) -> (r: bool)
        ensures
            r == (self@ == other@),
    {
        self.resource.same(&other.resource) && self.partition.same(&other.partition)
            && self.instance.same(&other.instance) && self.source_state.same(&other.source_state)
            && self.target_state.same(&other.target_state)
    }
}

/// A replica of one resource moving from one state to another.
#[verifier::ext_equal]
pub struct PendingMove {
    pub partition: Seq<char>,
    pub instance: Seq<char>,
    pub source: Seq<char>,
    pub target: Seq<char>,
}

/// A transition of one resource that has not been completed yet.
#[derive(Clone, Debug, PartialEq, Eq)]
pub struct PendingTransition {
    partition: PartitionId,
    instance: InstanceId,
    source_state: State,
    target_state: State,
}

impl View for PendingTransition {
    type V = PendingMove;

    closed spec fn view(&self) -> PendingMove {
        PendingMove {
            partition: self.partition@,
            instance: self.instance@,
            source: self.source_state@,
            target: self.target_state@,
        }
    }
}

impl DeepView for PendingTransition {
    type V = PendingMove;

    open spec fn deep_view(&self) -> PendingMove {
        self@
    }
}

impl Duplicate for PendingTransition {
    fn duplicate(&self) -> (r: Self) {
        PendingTransition {
            partition: self.partition.duplicate(),
            instance: self.instance.duplicate(),
            source_state: self.source_state.duplicate(),
            target_state: self.target_state.duplicate(),
        }
    }
}

impl PendingTransition {
    /// A pending transition of one replica.
    pub fn new(
        partition: PartitionId,
        instance: InstanceId,
        source_state: State,
        target_state: State,
    ) -> (r: Self)
        ensures
            r@ == (PendingMove {
                partition: partition@,
                instance: instance@,
                source: source_state@,
                target: target_state@,
            }),
    {
        PendingTransition { partition, instance, source_state, target_state }
    }

    /// Return the partition identity.
    pub fn partition(&self) -> (r: &PartitionId)
        ensures
            r@ == self@.partition,
    {
        &self.partition
    }

    /// Return the instance identity.
    pub fn instance(&self) -> (r: &InstanceId)
        ensures
            r@ == self@.instance,
    {
        &self.instance
    }

    /// Return the state before the transition.
    pub fn source_state(&self) -> (r: &State)
        ensures
            r@ == self@.source,
    {
        &self.source_state
    }

    /// Return the state after the transition.
    pub fn target_state(&self) -> (r: &State)
        ensures
            r@ == self@.target,
    {
        &self.target_state
    }
}

/// A transition message as it stands in the pending queue.
#[derive(Clone, Debug, PartialEq, Eq)]
pub struct TransitionMessage {
    pub message_id: String,
    pub resource: String,
    pub partition: String,
    pub instance: String,
    pub target_session: u64,
    pub from: String,
    pub to: String,
    pub message_type: String,
}

/// What a transition message says.
#[verifier::ext_equal]
pub struct MessageView {
    pub message_id: Seq<char>,
    pub resource: Seq<char>,
    pub partition: Seq<char>,
    pub instance: Seq<char>,
    pub target_session: u64,
    pub from: Seq<char>,
    pub to: Seq<char>,
    pub message_type: Seq<char>,
}

impl View for TransitionMessage {
    type V = MessageView;

    open spec fn view(&self) -> MessageView {
        MessageView {
            message_id: self.message_id@,
            resource: self.resource@,
            partition: self.partition@,
            instance: self.instance@,
            target_session: self.target_session,
            from: self.from@,
            to: self.to@,
            message_type: self.message_type@,
        }
    }
}

impl DeepView for TransitionMessage {
    type V = MessageView;

    open spec fn deep_view(&self) -> MessageView {
        self@
    }
}

impl Duplicate for TransitionMessage {
    fn duplicate(&self) -> (r: Self) {
        TransitionMessage {
            message_id: self.message_id.clone(),
            resource: self.resource.clone(),
            partition: self.partition.clone(),
            instance: self.instance.clone(),
            target_session: self.target_session,
            from: self.from.clone(),
            to: self.to.clone(),
            message_type: self.message_type.clone(),
        }
    }
}

impl TransitionMessage {
    /// Whether both messages say the same.
    pub fn same(&self, other: &TransitionMessage) -> (r: bool)
        ensures
            r == (self@ == other@),
    {
        let r = self.message_id.same(&other.message_id) && self.resource.same(&other.resource)
            && self.partition.same(&other.partition) && self.instance.same(&other.instance)
            && self.target_session == other.target_session && self.from.same(&other.from)
            && self.to.same(&other.to) && self.message_type.same(&other.message_type);
        assert(r ==> self@ =~= other@);
        r
    }
}

} // verus!
