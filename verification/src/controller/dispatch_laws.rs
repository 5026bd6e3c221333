//! Which of the selected moves are dispatched, and which have to wait.
use crate::controller::message_throttle;
use crate::controller::message_throttle::{Dispatch, InputView, Round, StageView};
use crate::controller::order_laws;
use crate::controller::quota;
use crate::controller::quota::{QuotasView, RebalanceType, ThrottleScope};
use crate::controller::throttle_laws;
use crate::controller::throttle_laws::Gauge;
use crate::model::replica_state;
use crate::model::state_model;
use crate::transition::Move;
use vstd::prelude::*;

verus! {

/// One log continues another.
pub open spec fn continues(before: Seq<Dispatch>, after: Seq<Dispatch>) -> bool {
    before.len() <= after.len() && after.take(before.len() as int) == before
}

/// What continues a continuation continues the beginning.
pub proof fn continues_on(a: Seq<Dispatch>, b: Seq<Dispatch>, c: Seq<Dispatch>)
    requires
        continues(a, b),
        continues(b, c),
    ensures
        continues(a, c),
{
    assert(c.take(a.len() as int) =~= c.take(b.len() as int).take(a.len() as int));
}

/// The log holds a move.
pub open spec fn sent(log: Seq<Dispatch>, m: Move) -> bool {
    message_throttle::moves_in(log).contains(m)
}

/// A move that was sent stays sent.
pub proof fn sent_stays(before: Seq<Dispatch>, after: Seq<Dispatch>, m: Move)
    requires
        continues(before, after),
        sent(before, m),
    ensures
        sent(after, m),
{
    let i = message_throttle::moves_in(before).index_of(m);
    assert(before[i].0 == m);
    assert(after.take(before.len() as int)[i] == after[i]);
    assert(message_throttle::moves_in(after)[i] == m);
}

/// Tried moves are dispatched behind those that were dispatched before.
pub proof fn steps_continue(v: StageView, input: InputView, round: Round, messages: Seq<Move>)
    ensures
        continues(round.log, v.stepped_all(input, round, messages).log),
    decreases messages.len(),
{
    if messages.len() > 0 {
        let rest = messages.drop_last();
        steps_continue(v, input, round, rest);
        let before = v.stepped_all(input, round, rest);
        let after = v.stepped(input, before, messages.last());
        assert(continues(before.log, after.log)) by {
            assert(after.log.take(before.log.len() as int) =~= before.log);
        }
        continues_on(round.log, before.log, after.log);
    } else {
        assert(round.log.take(round.log.len() as int) =~= round.log);
    }
}

proof fn tried_continue(v: StageView, input: InputView, round: Round, partitions: Seq<Seq<char>>)
    ensures
        continues(round.log, v.partitions_tried(input, round, partitions).log),
    decreases partitions.len(),
{
    if partitions.len() > 0 {
        let rest = partitions.drop_last();
        tried_continue(v, input, round, rest);
        let before = v.partitions_tried(input, round, rest);
        steps_continue(v, input, before, v.messages(input, partitions.last()));
        continues_on(
            round.log,
            before.log,
            v.partitions_tried(input, round, partitions).log,
        );
    } else {
        assert(round.log.take(round.log.len() as int) =~= round.log);
    }
}

/// Where a resource begins.
pub open spec fn start_of(v: StageView, k: int) -> Round {
    Round {
        quotas: v.progress(k as nat).0,
        derived: v.inputs[k].current,
        log: v.progress(k as nat).1,
    }
}

/// Later resources are dispatched behind the earlier ones.
pub proof fn progress_continues(v: StageView, k: nat, n: nat)
    requires
        k <= n <= v.inputs.len(),
    ensures
        continues(v.progress(k).1, v.progress(n).1),
    decreases n,
{
    if k == n {
        assert(v.progress(k).1.take(v.progress(k).1.len() as int) =~= v.progress(k).1);
    } else {
        let p = (n - 1) as nat;
        progress_continues(v, k, p);
        tried_continue(v, v.inputs[p as int], start_of(v, p as int), v.partition_order(
            v.inputs[p as int],
        ));
        continues_on(v.progress(k).1, v.progress(p).1, v.progress(n).1);
    }
}

/// What is left of the quotas only shrinks.
pub open spec fn shrinks(before: QuotasView, after: QuotasView) -> bool {
    forall|g: Gauge, kind: RebalanceType|
        g.left(before, kind) == Some(0usize) ==> #[trigger] g.left(after, kind) == Some(0usize)
}

proof fn step_shrinks(v: StageView, input: InputView, round: Round, m: Move)
    ensures
        shrinks(round.quotas, v.stepped(input, round, m).quotas),
{
    let after = v.stepped(input, round, m).quotas;
    assert forall|g: Gauge, kind: RebalanceType|
        g.left(round.quotas, kind) == Some(0usize) implies #[trigger] g.left(after, kind) == Some(
        0usize,
    ) by {}
}

proof fn steps_shrink(v: StageView, input: InputView, round: Round, messages: Seq<Move>)
    ensures
        shrinks(round.quotas, v.stepped_all(input, round, messages).quotas),
    decreases messages.len(),
{
    if messages.len() > 0 {
        steps_shrink(v, input, round, messages.drop_last());
        step_shrinks(
            v,
            input,
            v.stepped_all(input, round, messages.drop_last()),
            messages.last(),
        );
    }
}

proof fn tried_shrink(v: StageView, input: InputView, round: Round, partitions: Seq<Seq<char>>)
    ensures
        shrinks(round.quotas, v.partitions_tried(input, round, partitions).quotas),
    decreases partitions.len(),
{
    if partitions.len() > 0 {
        tried_shrink(v, input, round, partitions.drop_last());
        steps_shrink(
            v,
            input,
            v.partitions_tried(input, round, partitions.drop_last()),
            v.messages(input, partitions.last()),
        );
    }
}

proof fn progress_shrinks(v: StageView, k: nat, n: nat)
    requires
        k <= n <= v.inputs.len(),
    ensures
        shrinks(v.progress(k).0, v.progress(n).0),
    decreases n,
{
    if k < n {
        let p = (n - 1) as nat;
        progress_shrinks(v, k, p);
        tried_shrink(v, v.inputs[p as int], start_of(v, p as int), v.partition_order(
            v.inputs[p as int],
        ));
    }
}

/// Some quota over a replica is used up, for any work or for one kind.
pub open spec fn used_up_for(q: QuotasView, resource: Seq<char>, instance: Seq<char>) -> bool {
    exists|scope: ThrottleScope, kind: RebalanceType|
        #[trigger] throttle_laws::gauge_of(scope, resource, instance).left(q, kind) == Some(0usize)
}

proof fn throttled_is_used_up(
    q: QuotasView,
    kind: RebalanceType,
    resource: Seq<char>,
    instance: Seq<char>,
)
    requires
        q.throttles(kind, resource, instance),
    ensures
        used_up_for(q, resource, instance),
{
    let any = RebalanceType::Any;
    let c = throttle_laws::gauge_of(ThrottleScope::Cluster, resource, instance);
    let r = throttle_laws::gauge_of(ThrottleScope::Resource, resource, instance);
    let i = throttle_laws::gauge_of(ThrottleScope::Instance, resource, instance);
    assert(c.left(q, any) == Some(0usize) || c.left(q, kind) == Some(0usize) || r.left(q, any)
        == Some(0usize) || r.left(q, kind) == Some(0usize) || i.left(q, any) == Some(0usize)
        || i.left(q, kind) == Some(0usize));
}

proof fn used_up_stays(
    before: QuotasView,
    after: QuotasView,
    resource: Seq<char>,
    instance: Seq<char>,
)
    requires
        shrinks(before, after),
        used_up_for(before, resource, instance),
    ensures
        used_up_for(after, resource, instance),
{
    let (scope, kind) = choose|scope: ThrottleScope, kind: RebalanceType|
        #[trigger] throttle_laws::gauge_of(scope, resource, instance).left(before, kind) == Some(
            0usize,
        );
    assert(throttle_laws::gauge_of(scope, resource, instance).left(after, kind) == Some(0usize));
}

proof fn steps_send_or_use_up(
    v: StageView,
    input: InputView,
    round: Round,
    messages: Seq<Move>,
    m: Move,
)
    requires
        messages.contains(m),
        !v.pending.contains(m),
    ensures
        sent(v.stepped_all(input, round, messages).log, m) || used_up_for(
            v.stepped_all(input, round, messages).quotas,
            input.resource,
            m.instance,
        ),
    decreases messages.len(),
{
    let rest = messages.drop_last();
    let before = v.stepped_all(input, round, rest);
    let last = messages.last();
    let after = v.stepped(input, before, last);
    step_shrinks(v, input, before, last);
    assert(continues(before.log, after.log)) by {
        assert(after.log.take(before.log.len() as int) =~= before.log);
    }
    if last == m {
        let kind = message_throttle::kind_of(
            message_throttle::required(input, m.partition, v.live, v.model),
            message_throttle::row_of(before.derived, m.partition),
            m.target,
        );
        if before.quotas.throttles(kind, input.resource, m.instance) {
            throttled_is_used_up(before.quotas, kind, input.resource, m.instance);
            used_up_stays(before.quotas, after.quotas, input.resource, m.instance);
        } else {
            assert(message_throttle::moves_in(after.log)[before.log.len() as int] == m);
        }
    } else {
        assert(rest[messages.index_of(m)] == m);
        steps_send_or_use_up(v, input, round, rest, m);
        if sent(before.log, m) {
            sent_stays(before.log, after.log, m);
        } else {
            used_up_stays(before.quotas, after.quotas, input.resource, m.instance);
        }
    }
}

proof fn tried_send_or_use_up(
    v: StageView,
    input: InputView,
    round: Round,
    partitions: Seq<Seq<char>>,
    m: Move,
)
    requires
        input.selected.contains(m),
        partitions.contains(m.partition),
        !v.pending.contains(m),
    ensures
        sent(v.partitions_tried(input, round, partitions).log, m) || used_up_for(
            v.partitions_tried(input, round, partitions).quotas,
            input.resource,
            m.instance,
        ),
    decreases partitions.len(),
{
    let rest = partitions.drop_last();
    let p = partitions.last();
    let before = v.partitions_tried(input, round, rest);
    let messages = v.messages(input, p);
    steps_continue(v, input, before, messages);
    steps_shrink(v, input, before, messages);
    let after = v.stepped_all(input, before, messages);
    if p == m.partition {
        throttle_laws::messages_are_selected(v, input, p, m);
        steps_send_or_use_up(v, input, before, messages, m);
    } else {
        assert(rest[partitions.index_of(m.partition)] == m.partition);
        tried_send_or_use_up(v, input, round, rest, m);
        if sent(before.log, m) {
            sent_stays(before.log, after.log, m);
        } else {
            used_up_stays(before.quotas, after.quotas, input.resource, m.instance);
        }
    }
}

/// No move waits without a reason: a selected move that is neither pending nor
/// dispatched is covered by a configured limit, for any work or for one kind,
/// that the pending moves that count and the dispatched moves have reached.
pub proof fn waiting_moves_meet_a_limit(v: StageView, k: int, m: Move)
    requires
        v.fault() is None,
        0 <= k < v.inputs.len(),
        replica_state::finite(v.inputs[k].current),
        v.inputs[k].selected.contains(m),
        !v.pending.contains(m),
        !v.dispatched().contains(m),
        v.live.contains(m.instance),
    ensures
        exists|scope: ThrottleScope, kind: RebalanceType|
            #![trigger quota::limit_for(v.configs, scope, kind, m.resource, m.instance)]
            quota::limit_for(v.configs, scope, kind, m.resource, m.instance) is Some && ({
                let g = throttle_laws::gauge_of(scope, m.resource, m.instance);
                g.count(kind, throttle_laws::counted(v, v.inputs.len())) + g.count(
                    kind,
                    v.progress(v.inputs.len()).1,
                ) >= quota::limit_for(v.configs, scope, kind, m.resource, m.instance)->0
            }),
{
    let input = v.inputs[k];
    let n = v.inputs.len();
    let order = v.partition_order(input);
    order_laws::partitions_are_tried_by_need(v, input);
    let s = input.selected.index_of(m);
    assert(input.selected[s].partition == m.partition);
    assert(order.contains(m.partition));
    tried_send_or_use_up(v, input, start_of(v, k), order, m);
    progress_continues(v, (k + 1) as nat, n);
    progress_shrinks(v, (k + 1) as nat, n);
    if sent(v.progress((k + 1) as nat).1, m) {
        sent_stays(v.progress((k + 1) as nat).1, v.progress(n).1, m);
    }
    throttle_laws::inputs_sound(v, n, k);
    throttle_laws::selected_resource(v, input, input.selected.len(), s);
    used_up_stays(v.progress((k + 1) as nat).0, v.progress(n).0, m.resource, m.instance);
    let (scope, kind) = choose|scope: ThrottleScope, kind: RebalanceType|
        #[trigger] throttle_laws::gauge_of(scope, m.resource, m.instance).left(
            v.progress(n).0,
            kind,
        ) == Some(0usize);
    let g = throttle_laws::gauge_of(scope, m.resource, m.instance);
    let start = QuotasView::open_for(v.names(), v.live).configured_all(v.configs);
    assert(v.names()[k] == m.resource);
    quota::last_configuration_sets_limit(
        v.names(),
        v.live,
        v.configs,
        scope,
        kind,
        m.resource,
        m.instance,
    );
    throttle_laws::unlimited_stays(v, n, g, kind);
    let limit = g.left(start, kind)->0;
    throttle_laws::opening_uses_up(v, n, g, kind, limit);
    throttle_laws::progress_balanced(v, n, g, kind);
    assert(quota::limit_for(v.configs, scope, kind, m.resource, m.instance) == Some(limit));
}

/// The only limits are those of the cluster for any work.
pub open spec fn one_gauge(v: StageView) -> bool {
    forall|i: int|
        0 <= i < v.configs.len() ==> (#[trigger] v.configs[i]).scope == ThrottleScope::Cluster
            && v.configs[i].kind == RebalanceType::Any
}

/// Nothing but the cluster's limit for any work is set.
pub open spec fn only_cluster(q: QuotasView) -> bool {
    &&& q.cluster.recovery is None
    &&& q.cluster.load is None
    &&& forall|r: Seq<char>| #[trigger]
        q.resources.dom().contains(r) ==> q.resources[r] == quota::Quota::unlimited()
    &&& forall|i: Seq<char>| #[trigger]
        q.instances.dom().contains(i) ==> q.instances[i] == quota::Quota::unlimited()
}

proof fn configured_cluster(q: QuotasView, configs: Seq<quota::ThrottleView>)
    requires
        only_cluster(q),
        forall|i: int|
            0 <= i < configs.len() ==> (#[trigger] configs[i]).scope == ThrottleScope::Cluster
                && configs[i].kind == RebalanceType::Any,
    ensures
        only_cluster(q.configured_all(configs)),
    decreases configs.len(),
{
    if configs.len() > 0 {
        let rest = configs.drop_last();
        assert forall|i: int| 0 <= i < rest.len() implies (#[trigger] rest[i]).scope
            == ThrottleScope::Cluster && rest[i].kind == RebalanceType::Any by {
            assert(rest[i] == configs[i]);
        }
        configured_cluster(q, rest);
        assert(configs[configs.len() - 1] == configs.last());
    }
}

proof fn charged_cluster(v: StageView, q: QuotasView, input: InputView, n: nat)
    requires
        only_cluster(q),
    ensures
        only_cluster(v.charged_pending(q, input, n)),
    decreases n,
{
    if n > 0 {
        charged_cluster(v, q, input, (n - 1) as nat);
    }
}

proof fn opening_cluster(v: StageView, n: nat)
    requires
        one_gauge(v),
    ensures
        only_cluster(v.opening(n)),
    decreases n,
{
    if n == 0 {
        configured_cluster(QuotasView::open_for(v.names(), v.live), v.configs);
    } else {
        opening_cluster(v, (n - 1) as nat);
        charged_cluster(v, v.opening((n - 1) as nat), v.inputs[n - 1], v.pending.len());
    }
}

/// Nothing is left of the cluster's limit.
pub open spec fn spent_up(q: QuotasView) -> bool {
    q.cluster.any == Some(0usize)
}

/// With the cluster's limit alone, all is dispatched until it is spent.
proof fn steps_in_order(v: StageView, input: InputView, round: Round, messages: Seq<Move>)
    requires
        only_cluster(round.quotas),
    ensures
        ({
            let after = v.stepped_all(input, round, messages);
            &&& only_cluster(after.quotas)
            &&& spent_up(round.quotas) ==> after.log == round.log && spent_up(after.quotas)
            &&& !spent_up(after.quotas) ==> forall|m: Move| #[trigger]
                messages.contains(m) && !v.pending.contains(m) ==> sent(after.log, m)
        }),
    decreases messages.len(),
{
    if messages.len() > 0 {
        let rest = messages.drop_last();
        steps_in_order(v, input, round, rest);
        steps_continue(v, input, round, rest);
        let before = v.stepped_all(input, round, rest);
        let after = v.stepped(input, before, messages.last());
        step_shrinks(v, input, before, messages.last());
        assert(Gauge::Cluster.left(after.quotas, RebalanceType::Any) == after.quotas.cluster.any);
        assert(continues(before.log, after.log)) by {
            assert(after.log.take(before.log.len() as int) =~= before.log);
        }
        if !spent_up(after.quotas) {
            assert(!spent_up(before.quotas));
            assert forall|m: Move| #[trigger]
                messages.contains(m) && !v.pending.contains(m) implies sent(after.log, m) by {
                if m == messages.last() {
                    assert(message_throttle::moves_in(after.log)[before.log.len() as int] == m);
                } else {
                    assert(rest[messages.index_of(m)] == m);
                    assert(rest.contains(m));
                    sent_stays(before.log, after.log, m);
                }
            }
        }
    }
}

proof fn tried_in_order(v: StageView, input: InputView, round: Round, partitions: Seq<Seq<char>>)
    requires
        only_cluster(round.quotas),
    ensures
        ({
            let after = v.partitions_tried(input, round, partitions);
            &&& only_cluster(after.quotas)
            &&& spent_up(round.quotas) ==> after.log == round.log && spent_up(after.quotas)
            &&& !spent_up(after.quotas) ==> forall|m: Move| #[trigger]
                input.selected.contains(m) && partitions.contains(m.partition)
                    && !v.pending.contains(m) ==> sent(after.log, m)
        }),
    decreases partitions.len(),
{
    if partitions.len() > 0 {
        let rest = partitions.drop_last();
        let p = partitions.last();
        tried_in_order(v, input, round, rest);
        let before = v.partitions_tried(input, round, rest);
        let messages = v.messages(input, p);
        steps_in_order(v, input, before, messages);
        steps_continue(v, input, before, messages);
        let after = v.stepped_all(input, before, messages);
        if !spent_up(after.quotas) {
            assert forall|m: Move| #[trigger]
                input.selected.contains(m) && partitions.contains(m.partition)
                    && !v.pending.contains(m) implies sent(after.log, m) by {
                if m.partition == p {
                    throttle_laws::messages_are_selected(v, input, p, m);
                } else {
                    assert(rest[partitions.index_of(m.partition)] == m.partition);
                    sent_stays(before.log, after.log, m);
                }
            }
        }
    }
}

/// A move that a run of steps sent was sent before the limit was spent.
proof fn sent_within(v: StageView, input: InputView, round: Round, messages: Seq<Move>, n: Move) -> (j:
    int)
    requires
        only_cluster(round.quotas),
        !sent(round.log, n),
        sent(v.stepped_all(input, round, messages).log, n),
    ensures
        0 <= j < messages.len(),
        messages[j] == n,
        !spent_up(v.stepped_all(input, round, messages.take(j)).quotas),
    decreases messages.len(),
{
    let rest = messages.drop_last();
    let before = v.stepped_all(input, round, rest);
    if messages.len() == 0 {
        assert(false);
        0
    } else if sent(before.log, n) {
        let j = sent_within(v, input, round, rest, n);
        assert(rest.take(j) =~= messages.take(j));
        j
    } else {
        steps_in_order(v, input, round, rest);
        let after = v.stepped(input, before, messages.last());
        let i = message_throttle::moves_in(after.log).index_of(n);
        if i < before.log.len() {
            assert(message_throttle::moves_in(before.log)[i] == n);
        }
        assert(messages.take(messages.len() - 1) =~= rest);
        messages.len() - 1
    }
}

proof fn tried_within(
    v: StageView,
    input: InputView,
    round: Round,
    partitions: Seq<Seq<char>>,
    n: Move,
) -> (j: int)
    requires
        only_cluster(round.quotas),
        !sent(round.log, n),
        sent(v.partitions_tried(input, round, partitions).log, n),
    ensures
        0 <= j < partitions.len(),
        partitions[j] == n.partition,
        !sent(v.partitions_tried(input, round, partitions.take(j)).log, n),
        sent(
            v.stepped_all(
                input,
                v.partitions_tried(input, round, partitions.take(j)),
                v.messages(input, n.partition),
            ).log,
            n,
        ),
        continues(
            v.stepped_all(
                input,
                v.partitions_tried(input, round, partitions.take(j)),
                v.messages(input, n.partition),
            ).log,
            v.partitions_tried(input, round, partitions).log,
        ),
    decreases partitions.len(),
{
    let rest = partitions.drop_last();
    let before = v.partitions_tried(input, round, rest);
    if partitions.len() == 0 {
        assert(false);
        0
    } else if sent(before.log, n) {
        let j = tried_within(v, input, round, rest, n);
        assert(rest.take(j) =~= partitions.take(j));
        steps_continue(v, input, before, v.messages(input, partitions.last()));
        continues_on(
            v.stepped_all(
                input,
                v.partitions_tried(input, round, partitions.take(j)),
                v.messages(input, n.partition),
            ).log,
            before.log,
            v.partitions_tried(input, round, partitions).log,
        );
        j
    } else {
        tried_in_order(v, input, round, rest);
        let p = partitions.last();
        let j = sent_within(v, input, before, v.messages(input, p), n);
        assert(v.messages(input, p).contains(n));
        throttle_laws::messages_are_selected(v, input, p, n);
        assert(partitions.take(partitions.len() - 1) =~= rest);
        let log = v.partitions_tried(input, round, partitions).log;
        assert(log.take(log.len() as int) =~= log);
        partitions.len() - 1
    }
}

proof fn progress_cluster(v: StageView, k: nat)
    requires
        one_gauge(v),
        k <= v.inputs.len(),
    ensures
        only_cluster(v.progress(k).0),
    decreases k,
{
    if k == 0 {
        opening_cluster(v, v.inputs.len());
    } else {
        let p = (k - 1) as nat;
        progress_cluster(v, p);
        tried_in_order(v, v.inputs[p as int], start_of(v, p as int), v.partition_order(
            v.inputs[p as int],
        ));
    }
}

proof fn log_is_of_earlier(v: StageView, k: nat, m: Move)
    requires
        v.fault() is None,
        k <= v.inputs.len(),
        sent(v.progress(k).1, m),
    ensures
        exists|j: int| 0 <= j < k && (#[trigger] v.inputs[j]).resource == m.resource,
    decreases k,
{
    if k == 0 {
        assert(false);
    } else {
        let p = (k - 1) as nat;
        let input = v.inputs[p as int];
        if sent(v.progress(p).1, m) {
            log_is_of_earlier(v, p, m);
        } else {
            let j = moves_come_from(v, input, start_of(v, p as int), v.partition_order(input), m);
            throttle_laws::inputs_sound(v, v.inputs.len(), p as int);
            throttle_laws::selected_resource(v, input, input.selected.len(), j);
            assert(v.inputs[p as int].resource == m.resource);
        }
    }
}

proof fn moves_come_from(
    v: StageView,
    input: InputView,
    round: Round,
    partitions: Seq<Seq<char>>,
    m: Move,
) -> (j: int)
    requires
        !sent(round.log, m),
        sent(v.partitions_tried(input, round, partitions).log, m),
    ensures
        0 <= j < input.selected.len(),
        input.selected[j] == m,
    decreases partitions.len(),
{
    let rest = partitions.drop_last();
    let before = v.partitions_tried(input, round, rest);
    if partitions.len() == 0 {
        assert(false);
        0
    } else if sent(before.log, m) {
        moves_come_from(v, input, round, rest, m)
    } else {
        let messages = v.messages(input, partitions.last());
        steps_come_from(v, input, before, messages, m);
        throttle_laws::messages_are_selected(v, input, partitions.last(), m);
        input.selected.index_of(m)
    }
}

/// What tried moves dispatch is among them.
pub proof fn steps_come_from(
    v: StageView,
    input: InputView,
    round: Round,
    messages: Seq<Move>,
    m: Move,
)
    requires
        !sent(round.log, m),
        sent(v.stepped_all(input, round, messages).log, m),
    ensures
        messages.contains(m),
    decreases messages.len(),
{
    if messages.len() > 0 {
        let rest = messages.drop_last();
        let before = v.stepped_all(input, round, rest);
        if sent(before.log, m) {
            steps_come_from(v, input, round, rest, m);
            assert(messages[rest.index_of(m)] == m);
        } else {
            let after = v.stepped(input, before, messages.last());
            let i = message_throttle::moves_in(after.log).index_of(m);
            if i < before.log.len() {
                assert(message_throttle::moves_in(before.log)[i] == m);
            }
            assert(messages[messages.len() - 1] == m);
        }
    }
}

/// A move that was sent while some partitions were tried is of one of them.
pub proof fn partition_of_sent(
    v: StageView,
    input: InputView,
    round: Round,
    partitions: Seq<Seq<char>>,
    m: Move,
) -> (j: int)
    requires
        !sent(round.log, m),
        sent(v.partitions_tried(input, round, partitions).log, m),
    ensures
        0 <= j < partitions.len(),
        partitions[j] == m.partition,
    decreases partitions.len(),
{
    let rest = partitions.drop_last();
    let before = v.partitions_tried(input, round, rest);
    if partitions.len() == 0 {
        assert(false);
        0
    } else if sent(before.log, m) {
        partition_of_sent(v, input, round, rest, m)
    } else {
        let messages = v.messages(input, partitions.last());
        steps_come_from(v, input, before, messages, m);
        throttle_laws::messages_are_selected(v, input, partitions.last(), m);
        partitions.len() - 1
    }
}

/// A move of a resource is not sent before its turn.
pub proof fn not_sent_before(v: StageView, k: int, m: Move)
    requires
        v.fault() is None,
        0 <= k < v.inputs.len(),
        v.inputs[k].resource == m.resource,
    ensures
        !sent(v.progress(k as nat).1, m),
{
    if sent(v.progress(k as nat).1, m) {
        log_is_of_earlier(v, k as nat, m);
        let j = choose|j: int| 0 <= j < k && (#[trigger] v.inputs[j]).resource == m.resource;
        state_model::first_repeat_none(v.names());
        assert(v.names()[j] == v.names()[k]);
    }
}

/// What a resource dispatches is dispatched while it is its turn.
pub proof fn sent_in_turn(v: StageView, k: int, n: nat, m: Move)
    requires
        v.fault() is None,
        0 <= k < n <= v.inputs.len(),
        v.inputs[k].resource == m.resource,
        sent(v.progress(n).1, m),
    ensures
        sent(v.progress((k + 1) as nat).1, m),
    decreases n,
{
    if n > k + 1 {
        let p = (n - 1) as nat;
        if sent(v.progress(p).1, m) {
            sent_in_turn(v, k, p, m);
        } else {
            let input = v.inputs[p as int];
            let j = moves_come_from(v, input, start_of(v, p as int), v.partition_order(input), m);
            throttle_laws::inputs_sound(v, v.inputs.len(), p as int);
            throttle_laws::selected_resource(v, input, input.selected.len(), j);
            state_model::first_repeat_none(v.names());
            assert(v.names()[p as int] == v.names()[k]);
        }
    }
}

/// Under a limit of the cluster for any work, the most important moves of a
/// partition go first: one is not dispatched while another of the same partition
/// that has to be tried before it, and that is not pending, is left out.
pub proof fn important_moves_go_first(v: StageView, k: int, m: Move, n: Move)
    requires
        v.fault() is None,
        one_gauge(v),
        0 <= k < v.inputs.len(),
        order_laws::follows_model(v, v.inputs[k]),
        v.inputs[k].selected.no_duplicates(),
        v.inputs[k].selected.contains(m),
        v.inputs[k].selected.contains(n),
        m.partition == n.partition,
        order_laws::tried_first(v, v.inputs[k], m, n),
        !v.pending.contains(m),
        v.dispatched().contains(n),
    ensures
        v.dispatched().contains(m),
{
    let input = v.inputs[k];
    let total = v.inputs.len();
    let order = v.partition_order(input);
    throttle_laws::inputs_sound(v, total, k);
    throttle_laws::selected_resource(v, input, input.selected.len(), input.selected.index_of(n));
    not_sent_before(v, k, n);
    sent_in_turn(v, k, total, n);
    progress_cluster(v, k as nat);
    let start = start_of(v, k);
    let at = tried_within(v, input, start, order, n);
    let before = v.partitions_tried(input, start, order.take(at));
    tried_in_order(v, input, start, order.take(at));
    let messages = v.messages(input, n.partition);
    let j = sent_within(v, input, before, messages, n);
    order_laws::moves_are_tried_by_priority(v, input, n.partition);
    throttle_laws::messages_are_selected(v, input, n.partition, m);
    let i = messages.index_of(m);
    assert(order_laws::tried_first(v, input, messages[i], messages[j]));
    assert(i < j);
    steps_in_order(v, input, before, messages.take(j));
    assert(messages.take(j)[i] == m);
    assert(messages.take(j).contains(m));
    let then = v.stepped_all(input, before, messages.take(j));
    assert(sent(then.log, m));
    steps_take(v, input, before, messages, j);
    let done = v.stepped_all(input, before, messages);
    continues_on(then.log, done.log, v.progress((k + 1) as nat).1);
    progress_continues(v, (k + 1) as nat, total);
    continues_on(then.log, v.progress((k + 1) as nat).1, v.progress(total).1);
    sent_stays(then.log, v.progress(total).1, m);
}

proof fn steps_take(v: StageView, input: InputView, round: Round, messages: Seq<Move>, j: int)
    requires
        0 <= j <= messages.len(),
    ensures
        continues(
            v.stepped_all(input, round, messages.take(j)).log,
            v.stepped_all(input, round, messages).log,
        ),
    decreases messages.len(),
{
    if j == messages.len() {
        assert(messages.take(j) =~= messages);
        let log = v.stepped_all(input, round, messages).log;
        assert(log.take(log.len() as int) =~= log);
    } else {
        let rest = messages.drop_last();
        steps_take(v, input, round, rest, j);
        assert(rest.take(j) =~= messages.take(j));
        let before = v.stepped_all(input, round, rest);
        let after = v.stepped(input, before, messages.last());
        assert(continues(before.log, after.log)) by {
            assert(after.log.take(before.log.len() as int) =~= before.log);
        }
        continues_on(v.stepped_all(input, round, messages.take(j)).log, before.log, after.log);
    }
}

proof fn partitions_take(
    v: StageView,
    input: InputView,
    round: Round,
    partitions: Seq<Seq<char>>,
    j: int,
)
    requires
        0 <= j <= partitions.len(),
    ensures
        continues(
            v.partitions_tried(input, round, partitions.take(j)).log,
            v.partitions_tried(input, round, partitions).log,
        ),
    decreases partitions.len(),
{
    if j == partitions.len() {
        assert(partitions.take(j) =~= partitions);
        let log = v.partitions_tried(input, round, partitions).log;
        assert(log.take(log.len() as int) =~= log);
    } else {
        let rest = partitions.drop_last();
        partitions_take(v, input, round, rest, j);
        assert(rest.take(j) =~= partitions.take(j));
        let before = v.partitions_tried(input, round, rest);
        steps_continue(v, input, before, v.messages(input, partitions.last()));
        continues_on(
            v.partitions_tried(input, round, partitions.take(j)).log,
            before.log,
            v.partitions_tried(input, round, partitions).log,
        );
    }
}

/// The partitions that need it most go first in the same way: while a move of a
/// partition is dispatched, none of a partition that has to be tried before it
/// is left out, unless it is pending.
pub proof fn needy_partitions_go_first(v: StageView, k: int, m: Move, n: Move)
    requires
        v.fault() is None,
        one_gauge(v),
        0 <= k < v.inputs.len(),
        replica_state::finite(v.inputs[k].current),
        v.inputs[k].selected.contains(m),
        v.inputs[k].selected.contains(n),
        order_laws::partition_first(v, v.inputs[k], m.partition, n.partition),
        !v.pending.contains(m),
        v.dispatched().contains(n),
    ensures
        v.dispatched().contains(m),
{
    let input = v.inputs[k];
    let total = v.inputs.len();
    let order = v.partition_order(input);
    throttle_laws::inputs_sound(v, total, k);
    throttle_laws::selected_resource(v, input, input.selected.len(), input.selected.index_of(n));
    not_sent_before(v, k, n);
    sent_in_turn(v, k, total, n);
    progress_cluster(v, k as nat);
    let start = start_of(v, k);
    let j = tried_within(v, input, start, order, n);
    let before = v.partitions_tried(input, start, order.take(j));
    tried_in_order(v, input, start, order.take(j));
    let x = sent_within(v, input, before, v.messages(input, n.partition), n);
    steps_in_order(v, input, before, v.messages(input, n.partition).take(x));
    assert(!spent_up(before.quotas));
    order_laws::partitions_are_tried_by_need(v, input);
    let s = input.selected.index_of(m);
    assert(input.selected[s].partition == m.partition);
    assert(order.contains(m.partition));
    let i = order.index_of(m.partition);
    assert(order_laws::partition_first(v, input, order[i], order[j]));
    assert(order.take(j)[i] == m.partition);
    assert(order.take(j).contains(m.partition));
    assert(sent(before.log, m));
    partitions_take(v, input, start, order, j);
    progress_continues(v, (k + 1) as nat, total);
    continues_on(before.log, v.progress((k + 1) as nat).1, v.progress(total).1);
    sent_stays(before.log, v.progress(total).1, m);
}

/// Resources go in the order in which they are given: while a move of one is
/// dispatched, none of an earlier one is left out, unless it is pending.
pub proof fn earlier_resources_go_first(v: StageView, j: int, k: int, m: Move, n: Move)
    requires
        v.fault() is None,
        one_gauge(v),
        0 <= j < k < v.inputs.len(),
        replica_state::finite(v.inputs[j].current),
        v.inputs[j].selected.contains(m),
        v.inputs[k].selected.contains(n),
        !v.pending.contains(m),
        v.dispatched().contains(n),
    ensures
        v.dispatched().contains(m),
{
    let total = v.inputs.len();
    let later = v.inputs[k];
    throttle_laws::inputs_sound(v, total, k);
    throttle_laws::selected_resource(v, later, later.selected.len(), later.selected.index_of(n));
    not_sent_before(v, k, n);
    sent_in_turn(v, k, total, n);
    progress_cluster(v, k as nat);
    tried_in_order(v, later, start_of(v, k), v.partition_order(later));
    assert(!spent_up(v.progress(k as nat).0));
    progress_cluster(v, j as nat);
    progress_shrinks(v, (j + 1) as nat, k as nat);
    assert(Gauge::Cluster.left(v.progress(k as nat).0, RebalanceType::Any) == v.progress(
        k as nat,
    ).0.cluster.any);
    let input = v.inputs[j];
    tried_in_order(v, input, start_of(v, j), v.partition_order(input));
    order_laws::partitions_are_tried_by_need(v, input);
    let s = input.selected.index_of(m);
    assert(input.selected[s].partition == m.partition);
    assert(v.partition_order(input).contains(m.partition));
    assert(sent(v.progress((j + 1) as nat).1, m));
    progress_continues(v, (j + 1) as nat, total);
    sent_stays(v.progress((j + 1) as nat).1, v.progress(total).1, m);
}

} // verus!
