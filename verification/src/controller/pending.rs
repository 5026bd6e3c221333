//! Published messages that are still pending.
use crate::controller::message_throttle::OperationalPendingTransition;
use crate::controller::observed;
use crate::controller::plans::{self, ResourcePlan};
use crate::controller::published::{self, PublishedTransition};
use crate::model::replica_state;
use crate::model::session;
use crate::model::{CurrentState, InstanceId, LiveInstance, PartitionId, ResourceId};
use crate::ordered::{Duplicate, Key, OrderedMap};
use crate::text;
use crate::transition;
use crate::transition::PendingTransition;
use vstd::prelude::*;

verus! {

/// Why the controller reconciles.
#[derive(Clone, Copy, Debug, PartialEq, Eq, Structural)]
pub enum ReconcileMode {
    /// The controller has just become the leader.
    Startup,
    /// The input has changed.
    Normal,
    /// A participant came back under another session.
    SessionReplacement,
}

/// The first plan of a resource.
pub open spec fn plan_for(all: Seq<plans::PlanView>, resource: Seq<char>) -> Option<plans::PlanView>
    decreases all.len(),
{
    if all.len() == 0 {
        None
    } else {
        match plan_for(all.drop_last(), resource) {
            Some(plan) => Some(plan),
            None => if all.last().resource == resource {
                Some(all.last())
            } else {
                None
            },
        }
    }
}

proof fn plan_for_prefix(all: Seq<plans::PlanView>, resource: Seq<char>, i: int)
    requires
        0 <= i <= all.len(),
        plan_for(all.take(i), resource) is Some,
    ensures
        plan_for(all, resource) == plan_for(all.take(i), resource),
    decreases all.len(),
{
    if i == all.len() {
        assert(all.take(i) =~= all);
    } else {
        assert(all.drop_last().take(i) =~= all.take(i));
        plan_for_prefix(all.drop_last(), resource, i);
    }
}

/// The plan wants a replica of the partition on the instance.
pub open spec fn wants(plan: plans::PlanView, partition: Seq<char>, instance: Seq<char>) -> bool {
    plan.ideal.lists.dom().contains(partition) && plan.ideal.lists[partition].contains(instance)
}

/// The state takes a replica away.
pub open spec fn removes(state: Seq<char>) -> bool {
    state == "OFFLINE"@ || state == "DROPPED"@
}

/// A published message is still pending: it is for the live session of its
/// instance, for a partition that is placed or observed, and its replica, where
/// it is observed, is still in the state that the message starts from. Under
/// strict fencing a message must also agree with the placement: a removal for
/// a replica that is not wanted, anything else for one that is.
pub open spec fn still_pending(
    message: published::PublishedView,
    live: Map<Seq<char>, (Seq<char>, u64)>,
    actual: session::Resources,
    all: Seq<plans::PlanView>,
    strict: bool,
) -> bool {
    &&& message.instance.len() > 0
    &&& live.dom().contains(message.instance)
    &&& live[message.instance].1 == message.target_session
    &&& message.resource.len() > 0
    &&& message.partition.len() > 0
    &&& plan_for(all, message.resource) matches Some(plan) && {
        &&& plan.ideal.lists.dom().contains(message.partition) || (actual.dom().contains(
            message.resource,
        ) && actual[message.resource].dom().contains(message.partition))
        &&& strict ==> wants(plan, message.partition, message.instance) != removes(message.to)
    }
    &&& match replica_state::state_of(
        observed::replicas_of(actual, message.resource),
        message.partition,
        message.instance,
    ) {
        Some(state) => state == message.from,
        None => true,
    }
}

/// The messages that are still pending.
pub open spec fn retained(
    messages: Seq<published::PublishedView>,
    live: Map<Seq<char>, (Seq<char>, u64)>,
    actual: session::Resources,
    all: Seq<plans::PlanView>,
    strict: bool,
) -> Seq<published::PublishedView>
    decreases messages.len(),
{
    if messages.len() == 0 {
        messages
    } else {
        let before = retained(messages.drop_last(), live, actual, all, strict);
        if still_pending(messages.last(), live, actual, all, strict) {
            before.push(messages.last())
        } else {
            before
        }
    }
}

/// Every retained message was published and is still pending, and every such
/// message is retained.
pub proof fn retained_exactly_what_is_pending(
    messages: Seq<published::PublishedView>,
    live: Map<Seq<char>, (Seq<char>, u64)>,
    actual: session::Resources,
    all: Seq<plans::PlanView>,
    strict: bool,
    message: published::PublishedView,
)
    ensures
        retained(messages, live, actual, all, strict).contains(message) <==> messages.contains(
            message,
        ) && still_pending(message, live, actual, all, strict),
    decreases messages.len(),
{
    if messages.len() > 0 {
        let rest = messages.drop_last();
        retained_exactly_what_is_pending(rest, live, actual, all, strict, message);
        let before = retained(rest, live, actual, all, strict);
        let after = retained(messages, live, actual, all, strict);
        if rest.contains(message) {
            let k = rest.index_of(message);
            assert(messages[k] == message);
        }
        if messages.contains(message) && message != messages.last() {
            let k = messages.index_of(message);
            assert(rest[k] == message);
        }
        if before.contains(message) {
            let k = before.index_of(message);
            assert(after[k] == message);
        }
        if after.contains(message) {
            let k = after.index_of(message);
            if k < before.len() {
                assert(before[k] == message);
            }
        }
        if message == messages.last() {
            assert(messages[messages.len() - 1] == message);
            if still_pending(message, live, actual, all, strict) {
                assert(after[before.len() as int] == message);
            }
        }
    }
}

fn find_plan<'a>(all: &'a Vec<ResourcePlan>, resource: &str) -> (r: Option<&'a ResourcePlan>)
    ensures
        r.deep_view() == plan_for(all.deep_view(), resource@),
{
    let ghost models = all.deep_view();
    let mut i: usize = 0;
    assert(models.take(0) =~= Seq::empty());
    while i < all.len()
        invariant
            i <= all@.len(),
            models == all.deep_view(),
            plan_for(models.take(i as int), resource@) is None,
        decreases all@.len() - i,
    {
        proof {
            assert(models.take(i + 1).drop_last() =~= models.take(i as int));
            assert(models.take(i + 1).last() == all@[i as int].deep_view());
        }
        if text::text_eq(all[i].resource.as_str(), resource) {
            proof {
                plan_for_prefix(models, resource@, i + 1);
            }
            return Some(&all[i]);
        }
        i = i + 1;
    }
    assert(models.take(all@.len() as int) =~= models);
    None
}

/// Whether the instance is on the list.
pub(crate) fn on_list(list: &Vec<InstanceId>, instance: &InstanceId) -> (r: bool)
    ensures
        r == list.deep_view().contains(instance@),
{
    let ghost all = list.deep_view();
    let mut i: usize = 0;
    while i < list.len()
        invariant
            i <= list@.len(),
            all == list.deep_view(),
            forall|j: int| 0 <= j < i ==> all[j] != instance@,
        decreases list@.len() - i,
    {
        assert(all[i as int] == list@[i as int]@);
        if list[i].same(instance) {
            return true;
        }
        i = i + 1;
    }
    false
}

fn is_still_pending(
    message: &PublishedTransition,
    live: &OrderedMap<InstanceId, LiveInstance>,
    actual: &OrderedMap<ResourceId, CurrentState>,
    all: &Vec<ResourcePlan>,
    strict: bool,
) -> (r: bool)
    ensures
        r == still_pending(message@, live@, actual@, all.deep_view(), strict),
{
    let instance = match InstanceId::new(message.instance.as_str()) {
        Ok(instance) => instance,
        Err(_) => {
            return false;
        },
    };
    let session = match live.get(&instance) {
        Some(live) => live.session_id(),
        None => {
            return false;
        },
    };
    if session.wire_value() != message.target_session {
        return false;
    }
    let resource = match ResourceId::new(message.resource.as_str()) {
        Ok(resource) => resource,
        Err(_) => {
            return false;
        },
    };
    let partition = match PartitionId::new(message.partition.as_str()) {
        Ok(partition) => partition,
        Err(_) => {
            return false;
        },
    };
    let plan = match find_plan(all, message.resource.as_str()) {
        Some(plan) => plan,
        None => {
            return false;
        },
    };
    let desired = plan.ideal.preference_list(&partition);
    let states = actual.get(&resource);
    if desired.is_none() {
        let is_observed = match states {
            Some(states) => states.entries().contains_key(&partition),
            None => false,
        };
        if !is_observed {
            return false;
        }
    }
    if strict {
        let wanted = match desired {
            Some(list) => on_list(list, &instance),
            None => false,
        };
        let removal = text::text_eq(message.to.as_str(), "OFFLINE") || text::text_eq(
            message.to.as_str(),
            "DROPPED",
        );
        if wanted == removal {
            return false;
        }
    }
    match states {
        Some(states) => match states.state(&partition, &instance) {
            Some(state) => text::text_eq(state.as_str(), message.from.as_str()),
            None => true,
        },
        None => true,
    }
}

/// The messages that are still pending.
pub fn retain_pending(
    pending: &Vec<PublishedTransition>,
    live: &OrderedMap<InstanceId, LiveInstance>,
    actual: &OrderedMap<ResourceId, CurrentState>,
    all: &Vec<ResourcePlan>,
    strict_pending_fencing: bool,
) -> (r: Vec<PublishedTransition>)
    ensures
        r.deep_view() == retained(
            pending.deep_view(),
            live@,
            actual@,
            all.deep_view(),
            strict_pending_fencing,
        ),
{
    let ghost messages = pending.deep_view();
    let mut out: Vec<PublishedTransition> = Vec::new();
    let mut i: usize = 0;
    assert(messages.take(0) =~= Seq::empty());
    assert(out.deep_view() =~= Seq::empty());
    while i < pending.len()
        invariant
            i <= pending@.len(),
            messages == pending.deep_view(),
            out.deep_view() == retained(
                messages.take(i as int),
                live@,
                actual@,
                all.deep_view(),
                strict_pending_fencing,
            ),
        decreases pending@.len() - i,
    {
        let ghost before = out.deep_view();
        proof {
            assert(messages.take(i + 1).drop_last() =~= messages.take(i as int));
            assert(messages.take(i + 1).last() == pending@[i as int]@);
        }
        if is_still_pending(&pending[i], live, actual, all, strict_pending_fencing) {
            out.push(pending[i].duplicate());
            assert(out.deep_view() =~= before.push(pending@[i as int]@));
        }
        i = i + 1;
    }
    assert(messages.take(pending@.len() as int) =~= messages);
    out
}

/// The move belongs to the placement of its resource: the placement wants the
/// replica, or does not place the partition at all.
pub open spec fn belongs(all: Seq<plans::PlanView>, m: transition::Move) -> bool {
    exists|i: int|
        0 <= i < all.len() && (#[trigger] all[i]).resource == m.resource && (wants(
            all[i],
            m.partition,
            m.instance,
        ) || !all[i].ideal.lists.dom().contains(m.partition))
}

/// The moves that pending messages reserve. After a session was replaced only
/// moves that belong to the placement count.
pub open spec fn reserved(
    messages: Seq<published::PublishedView>,
    all: Seq<plans::PlanView>,
    mode: ReconcileMode,
) -> Seq<transition::Move>
    decreases messages.len(),
{
    if messages.len() == 0 {
        Seq::empty()
    } else {
        let before = reserved(messages.drop_last(), all, mode);
        match messages.last().operational() {
            Some(m) if mode != ReconcileMode::SessionReplacement || belongs(all, m) => before.push(
                m,
            ),
            _ => before,
        }
    }
}

fn move_belongs(all: &Vec<ResourcePlan>, m: &OperationalPendingTransition) -> (r: bool)
    ensures
        r == belongs(all.deep_view(), m@),
{
    let ghost models = all.deep_view();
    let mut i: usize = 0;
    while i < all.len()
        invariant
            i <= all@.len(),
            models == all.deep_view(),
            forall|j: int|
                0 <= j < i ==> !((#[trigger] models[j]).resource == m@.resource && (wants(
                    models[j],
                    m@.partition,
                    m@.instance,
                ) || !models[j].ideal.lists.dom().contains(m@.partition))),
        decreases all@.len() - i,
    {
        assert(models[i as int] == all@[i as int].deep_view());
        let plan = &all[i];
        if plan.resource.same(m.resource()) {
            match plan.ideal.preference_list(m.partition()) {
                None => {
                    return true;
                },
                Some(list) => {
                    if on_list(list, m.instance()) {
                        return true;
                    }
                },
            }
        }
        i = i + 1;
    }
    false
}

/// The moves that pending messages reserve. Published messages remain pending
/// until a participant reports the matching state.
pub fn operational_pending_for_plans(
    pending: &Vec<PublishedTransition>,
    all: &Vec<ResourcePlan>,
    mode: ReconcileMode,
) -> (r: Vec<OperationalPendingTransition>)
    ensures
        r.deep_view() == reserved(pending.deep_view(), all.deep_view(), mode),
{
    let ghost messages = pending.deep_view();
    let mut out: Vec<OperationalPendingTransition> = Vec::new();
    let mut i: usize = 0;
    assert(messages.take(0) =~= Seq::empty());
    assert(out.deep_view() =~= Seq::empty());
    while i < pending.len()
        invariant
            i <= pending@.len(),
            messages == pending.deep_view(),
            out.deep_view() == reserved(messages.take(i as int), all.deep_view(), mode),
        decreases pending@.len() - i,
    {
        let ghost before = out.deep_view();
        proof {
            assert(messages.take(i + 1).drop_last() =~= messages.take(i as int));
            assert(messages.take(i + 1).last() == pending@[i as int]@);
        }
        if let Some(m) = published::to_operational_pending(&pending[i]) {
            if mode != ReconcileMode::SessionReplacement || move_belongs(all, &m) {
                let ghost model = m@;
                out.push(m);
                assert(out.deep_view() =~= before.push(model));
            }
        }
        i = i + 1;
    }
    assert(messages.take(pending@.len() as int) =~= messages);
    out
}

/// The pending moves of one resource.
pub open spec fn of_resource(moves: Seq<transition::Move>, resource: Seq<char>) -> Seq<
    transition::PendingMove,
>
    decreases moves.len(),
{
    if moves.len() == 0 {
        Seq::empty()
    } else {
        let before = of_resource(moves.drop_last(), resource);
        let m = moves.last();
        if m.resource == resource {
            before.push(
                transition::PendingMove {
                    partition: m.partition,
                    instance: m.instance,
                    source: m.source,
                    target: m.target,
                },
            )
        } else {
            before
        }
    }
}

/// The pending moves of one resource.
pub fn pending_for_resource(
    resource: &ResourceId,
    pending: &Vec<OperationalPendingTransition>,
) -> (r: Vec<PendingTransition>)
    ensures
        r.deep_view() == of_resource(pending.deep_view(), resource@),
{
    let ghost moves = pending.deep_view();
    let mut out: Vec<PendingTransition> = Vec::new();
    let mut i: usize = 0;
    assert(moves.take(0) =~= Seq::empty());
    assert(out.deep_view() =~= Seq::empty());
    while i < pending.len()
        invariant
            i <= pending@.len(),
            moves == pending.deep_view(),
            out.deep_view() == of_resource(moves.take(i as int), resource@),
        decreases pending@.len() - i,
    {
        let ghost before = out.deep_view();
        proof {
            assert(moves.take(i + 1).drop_last() =~= moves.take(i as int));
            assert(moves.take(i + 1).last() == pending@[i as int]@);
        }
        let m = &pending[i];
        if m.resource().same(resource) {
            let found = PendingTransition::new(
                m.partition().duplicate(),
                m.instance().duplicate(),
                m.source_state().duplicate(),
                m.target_state().duplicate(),
            );
            let ghost model = found@;
            out.push(found);
            assert(out.deep_view() =~= before.push(model));
        }
        i = i + 1;
    }
    assert(moves.take(pending@.len() as int) =~= moves);
    out
}

} // verus!
