//! Which messages a participant works on.
use crate::coordination::etcd::{CompletionResult, Revision};
use crate::model::InstanceId;
use crate::ordered::{Duplicate, Key, OrderedMap};
use crate::participant::error::ParticipantRuntimeError;
use crate::participant::frontier::{self, CompletionState};
use crate::text;
use crate::transition::{MessageView, TransitionMessage};
use vstd::prelude::*;
use vstd::string::*;

verus! {

/// The replica that a message is for. One message at a time is worked on for it.
pub open spec fn execution_key(message: MessageView) -> Seq<char> {
    message.resource + "/"@ + message.partition
}

/// The message is for this instance and has an identity.
pub open spec fn addressed(message: MessageView, instance: Seq<char>) -> bool {
    message.instance == instance && message.message_id.len() > 0
}

/// What is worked on, what was observed, and what is to be started.
#[verifier::ext_equal]
pub struct Schedule {
    pub in_flight: Map<Seq<char>, Seq<char>>,
    pub observed: Seq<Seq<char>>,
    pub scheduled: Seq<(MessageView, Seq<char>)>,
}

impl Schedule {
    /// After one more message. Messages for others are passed over. A replica
    /// that is worked on keeps its message.
    pub open spec fn with(self, instance: Seq<char>, message: MessageView) -> Schedule {
        let key = execution_key(message);
        if !addressed(message, instance) {
            self
        } else if !self.in_flight.dom().contains(key) {
            Schedule {
                in_flight: self.in_flight.insert(key, message.message_id),
                observed: self.observed.push(message.message_id),
                scheduled: self.scheduled.push((message, key)),
            }
        } else if self.in_flight[key] == message.message_id {
            Schedule { observed: self.observed.push(message.message_id), ..self }
        } else {
            self
        }
    }
}

/// The schedule for a queue.
pub open spec fn schedule(
    instance: Seq<char>,
    in_flight: Map<Seq<char>, Seq<char>>,
    messages: Seq<MessageView>,
) -> Schedule
    decreases messages.len(),
{
    if messages.len() == 0 {
        Schedule { in_flight, observed: Seq::empty(), scheduled: Seq::empty() }
    } else {
        schedule(instance, in_flight, messages.drop_last()).with(instance, messages.last())
    }
}

/// A message is started only for this instance, under its identity, and for a
/// replica that nothing was worked on for. No replica is started twice.
pub proof fn replicas_are_worked_on_once(
    instance: Seq<char>,
    in_flight: Map<Seq<char>, Seq<char>>,
    messages: Seq<MessageView>,
)
    ensures
        ({
            let s = schedule(instance, in_flight, messages);
            &&& forall|i: int|
                0 <= i < s.scheduled.len() ==> {
                    let (message, key) = #[trigger] s.scheduled[i];
                    &&& addressed(message, instance)
                    &&& messages.contains(message)
                    &&& key == execution_key(message)
                    &&& !in_flight.dom().contains(key)
                    &&& s.in_flight.dom().contains(key)
                    &&& s.in_flight[key] == message.message_id
                }
            &&& forall|i: int, j: int|
                0 <= i < j < s.scheduled.len() ==> (#[trigger] s.scheduled[i]).1 != (
                #[trigger] s.scheduled[j]).1
            &&& forall|key: Seq<char>|
                in_flight.dom().contains(key) ==> #[trigger] s.in_flight.dom().contains(key)
                    && s.in_flight[key] == in_flight[key]
        }),
    decreases messages.len(),
{
    if messages.len() > 0 {
        let rest = messages.drop_last();
        replicas_are_worked_on_once(instance, in_flight, rest);
        let before = schedule(instance, in_flight, rest);
        let s = schedule(instance, in_flight, messages);
        assert forall|i: int| 0 <= i < s.scheduled.len() implies {
            let (message, key) = #[trigger] s.scheduled[i];
            &&& addressed(message, instance)
            &&& messages.contains(message)
            &&& key == execution_key(message)
            &&& !in_flight.dom().contains(key)
            &&& s.in_flight.dom().contains(key)
            &&& s.in_flight[key] == message.message_id
        } by {
            if i < before.scheduled.len() {
                let (message, key) = before.scheduled[i];
                assert(s.scheduled[i] == before.scheduled[i]);
                let k = rest.index_of(message);
                assert(messages[k] == message);
            } else {
                assert(messages[messages.len() - 1] == messages.last());
            }
        }
        assert forall|i: int, j: int| 0 <= i < j < s.scheduled.len() implies (
        #[trigger] s.scheduled[i]).1 != (#[trigger] s.scheduled[j]).1 by {
            assert(s.scheduled[i] == before.scheduled[i]);
            if j < before.scheduled.len() {
                assert(s.scheduled[j] == before.scheduled[j]);
            }
        }
    }
}

/// Every message for this instance is observed, unless its replica is worked on
/// for another message.
pub proof fn addressed_messages_are_observed(
    instance: Seq<char>,
    in_flight: Map<Seq<char>, Seq<char>>,
    messages: Seq<MessageView>,
    i: int,
)
    requires
        0 <= i < messages.len(),
        addressed(messages[i], instance),
    ensures
        ({
            let s = schedule(instance, in_flight, messages);
            let key = execution_key(messages[i]);
            &&& s.in_flight.dom().contains(key)
            &&& s.in_flight[key] == messages[i].message_id ==> s.observed.contains(
                messages[i].message_id,
            )
        }),
    decreases messages.len(),
{
    let rest = messages.drop_last();
    let before = schedule(instance, in_flight, rest);
    let s = schedule(instance, in_flight, messages);
    if i == messages.len() - 1 {
        assert(messages.last() == messages[i]);
        assert(s.observed.len() > 0 && s.observed.last() == messages[i].message_id
            || s.in_flight[execution_key(messages[i])] != messages[i].message_id);
    } else {
        assert(rest[i] == messages[i]);
        addressed_messages_are_observed(instance, in_flight, rest, i);
        let id = messages[i].message_id;
        if before.observed.contains(id) {
            let k = before.observed.index_of(id);
            assert(s.observed[k] == id);
        }
    }
}

/// A message to be started, with the replica it is for.
pub type Scheduled = (TransitionMessage, String);

/// What a participant works on, and how far it has come.
#[verifier::ext_equal]
pub struct WorkersView {
    pub in_flight: Map<Seq<char>, Seq<char>>,
    pub progress: frontier::CompletionView,
}

impl WorkersView {
    /// After a queue was processed.
    pub open spec fn process(
        self,
        instance: Seq<char>,
        messages: Seq<MessageView>,
        revision: i64,
    ) -> WorkersView {
        let s = schedule(instance, self.in_flight, messages);
        WorkersView {
            in_flight: s.in_flight,
            progress: if s.observed.len() == 0 {
                self.progress
            } else {
                self.progress.observe(revision, s.observed)
            },
        }
    }

    /// After the worker of a message ended: its replica is free again.
    pub open spec fn release(self, key: Seq<char>, id: Seq<char>) -> WorkersView {
        if self.in_flight.dom().contains(key) && self.in_flight[key] == id {
            WorkersView { in_flight: self.in_flight.remove(key), ..self }
        } else {
            self
        }
    }
}

/// A replica that was released can be worked on again.
pub proof fn released_replicas_are_free(v: WorkersView, key: Seq<char>, id: Seq<char>)
    requires
        v.in_flight.dom().contains(key),
        v.in_flight[key] == id,
    ensures
        !v.release(key, id).in_flight.dom().contains(key),
{
}

/// What a participant works on, and how far it has come.
pub struct ParticipantWorkers {
    in_flight: OrderedMap<String, String>,
    frontier: CompletionState,
}

impl View for ParticipantWorkers {
    type V = WorkersView;

    closed spec fn view(&self) -> WorkersView {
        WorkersView { in_flight: self.in_flight@, progress: self.frontier@ }
    }
}

fn key_of(message: &TransitionMessage) -> (r: String)
    ensures
        r@ == execution_key(message@),
{
    message.resource.as_str().to_owned().concat("/").concat(message.partition.as_str())
}

impl ParticipantWorkers {
    /// Nothing is worked on.
    pub fn new() -> (r: ParticipantWorkers)
        ensures
            r@ == (WorkersView {
                in_flight: Map::empty(),
                progress: frontier::CompletionView {
                    revisions: Map::empty(),
                    completed: Set::empty(),
                    frontier: None,
                },
            }),
    {
        ParticipantWorkers { in_flight: OrderedMap::new(), frontier: CompletionState::new() }
    }

    /// The message that each replica is worked on for.
    pub fn in_flight(&self) -> (r: &OrderedMap<String, String>)
        ensures
            r@ == self@.in_flight,
    {
        &self.in_flight
    }

    /// The highest queue revision that was settled last.
    pub fn frontier(&self) -> (r: Option<Revision>)
        ensures
            r.deep_view() == self@.progress.frontier,
    {
        self.frontier.frontier()
    }

    /// Process a queue. The messages that are to be started now.
    pub fn process_messages(
        &mut self,
        instance: &InstanceId,
        messages: &Vec<TransitionMessage>,
        queue_revision: Revision,
    ) -> (r: Vec<Scheduled>)
        ensures
            r.deep_view() == schedule(
                instance@,
                old(self)@.in_flight,
                messages.deep_view(),
            ).scheduled,
            final(self)@ == old(self)@.process(
                instance@,
                messages.deep_view(),
                queue_revision@,
            ),
    {
        let ghost start = self.in_flight@;
        let ghost all = messages.deep_view();
        let mut scheduled: Vec<Scheduled> = Vec::new();
        let mut observed: Vec<String> = Vec::new();
        let mut i: usize = 0;
        proof {
            assert(scheduled.deep_view() =~= Seq::empty());
            assert(observed.deep_view() =~= Seq::empty());
            assert(all.take(0) =~= Seq::empty());
        }
        while i < messages.len()
            invariant
                i <= messages@.len(),
                all == messages.deep_view(),
                schedule(instance@, start, all.take(i as int)) == (Schedule {
                    in_flight: self.in_flight@,
                    observed: observed.deep_view(),
                    scheduled: scheduled.deep_view(),
                }),
                self.frontier == old(self).frontier,
            decreases messages@.len() - i,
        {
            let message = &messages[i];
            let ghost seen = observed.deep_view();
            let ghost begun = scheduled.deep_view();
            proof {
                assert(all.take(i + 1).drop_last() =~= all.take(i as int));
                assert(all.take(i + 1).last() == message@);
            }
            i = i + 1;
            if !text::text_eq(message.instance.as_str(), instance.as_str())
                || message.message_id.as_str().is_empty() {
                continue;
            }
            let key = key_of(message);
            match self.in_flight.get(&key) {
                Some(existing) => {
                    if existing.same(&message.message_id) {
                        observed.push(message.message_id.clone());
                        assert(observed.deep_view() =~= seen.push(message@.message_id));
                    }
                },
                None => {
                    self.in_flight.insert(key.clone(), message.message_id.clone());
                    observed.push(message.message_id.clone());
                    assert(observed.deep_view() =~= seen.push(message@.message_id));
                    scheduled.push((message.duplicate(), key));
                    assert(scheduled.deep_view() =~= begun.push(
                        (message@, execution_key(message@)),
                    ));
                },
            }
        }
        assert(all.take(i as int) =~= all);
        if observed.len() > 0 {
            self.frontier.observe(queue_revision, &observed);
        }
        scheduled
    }

    /// Settle the message of a worker that came to a result. The queue revision
    /// to record, where there is a new one.
    pub fn settle(
        &mut self,
        result: &Result<CompletionResult, ParticipantRuntimeError>,
        message_id: &str,
    ) -> (r: Option<Revision>)
        ensures
            result is Ok ==> r.deep_view() == old(self)@.progress.advance(message_id@),
            result is Ok ==> final(self)@ == (WorkersView {
                progress: old(self)@.progress.complete(message_id@),
                ..old(self)@
            }),
            result is Err ==> r is None && final(self)@ == old(self)@,
    {
        match result {
            Ok(_) => self.frontier.complete(message_id),
            Err(_) => None,
        }
    }

    /// Free the replica of a worker that ended.
    pub fn release(&mut self, execution_key: &str, message_id: &str)
        ensures
            final(self)@ == old(self)@.release(execution_key@, message_id@),
    {
        let key = execution_key.to_owned();
        let own = match self.in_flight.get(&key) {
            Some(existing) => text::text_eq(existing.as_str(), message_id),
            None => false,
        };
        if own {
            self.in_flight.remove(&key);
        }
    }
}

} // verus!
