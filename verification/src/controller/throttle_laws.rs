//! What throttling guarantees of the moves that it dispatches.
use crate::controller::message_throttle::{
    Dispatch, InputView, Round, StageView,
};
use crate::controller::message_throttle;
use crate::controller::quota;
use crate::controller::quota::{Quota, QuotasView, RebalanceType, ThrottleScope};
use crate::lists;
use crate::model::PartitionId;
use crate::ordered;
use crate::transition::Move;
use vstd::prelude::*;

verus! {

/// Where a quota applies.
pub enum Gauge {
    Cluster,
    Resource(Seq<char>),
    Instance(Seq<char>),
}

impl Gauge {
    /// What the quotas leave for a kind of work.
    pub open spec fn left(self, q: QuotasView, kind: RebalanceType) -> Option<usize> {
        match self {
            Gauge::Cluster => q.cluster.left(kind),
            Gauge::Resource(r) => if q.resources.dom().contains(r) {
                q.resources[r].left(kind)
            } else {
                None
            },
            Gauge::Instance(i) => if q.instances.dom().contains(i) {
                q.instances[i].left(kind)
            } else {
                None
            },
        }
    }

    /// The quota applies to a dispatch.
    pub open spec fn covers(self, kind: RebalanceType, d: Dispatch) -> bool {
        &&& kind == RebalanceType::Any || d.1 == kind
        &&& match self {
            Gauge::Cluster => true,
            Gauge::Resource(r) => d.0.resource == r,
            Gauge::Instance(i) => d.0.instance == i,
        }
    }

    /// The number of dispatches that the quota applies to.
    pub open spec fn count(self, kind: RebalanceType, log: Seq<Dispatch>) -> nat
        decreases log.len(),
    {
        if log.len() == 0 {
            0
        } else {
            self.count(kind, log.drop_last()) + if self.covers(kind, log.last()) {
                1nat
            } else {
                0
            }
        }
    }
}

/// Dispatches and what is left of a quota add up to the same before and after.
pub open spec fn balanced(g: Gauge, kind: RebalanceType, before: Round, after: Round) -> bool {
    match g.left(before.quotas, kind) {
        Some(b) => g.left(after.quotas, kind) is Some && g.count(kind, after.log) + g.left(
            after.quotas,
            kind,
        )->0 == g.count(kind, before.log) + b,
        None => g.left(after.quotas, kind) is None,
    }
}

proof fn step_balanced(
    v: StageView,
    input: InputView,
    round: Round,
    m: Move,
    g: Gauge,
    kind: RebalanceType,
)
    requires
        m.resource == input.resource,
    ensures
        balanced(g, kind, round, v.stepped(input, round, m)),
{
    let after = v.stepped(input, round, m);
    if after.log.len() > round.log.len() {
        assert(after.log.drop_last() =~= round.log);
    }
}

proof fn steps_balanced(
    v: StageView,
    input: InputView,
    round: Round,
    messages: Seq<Move>,
    g: Gauge,
    kind: RebalanceType,
)
    requires
        forall|i: int| 0 <= i < messages.len() ==> (#[trigger] messages[i]).resource
            == input.resource,
    ensures
        balanced(g, kind, round, v.stepped_all(input, round, messages)),
    decreases messages.len(),
{
    if messages.len() > 0 {
        let rest = messages.drop_last();
        assert forall|i: int| 0 <= i < rest.len() implies (#[trigger] rest[i]).resource
            == input.resource by {
            assert(rest[i] == messages[i]);
        }
        steps_balanced(v, input, round, rest, g, kind);
        step_balanced(v, input, v.stepped_all(input, round, rest), messages.last(), g, kind);
    }
}

/// A selected move that passed validation belongs to its resource.
pub proof fn selected_resource(v: StageView, input: InputView, n: nat, i: int)
    requires
        n <= input.selected.len(),
        v.selected_fault(input, n) is None,
        0 <= i < n,
    ensures
        input.selected[i].resource == input.resource,
    decreases n,
{
    if i < n - 1 {
        selected_resource(v, input, (n - 1) as nat, i);
    }
}

/// The moves tried for a partition are its selected moves.
pub proof fn messages_are_selected(v: StageView, input: InputView, partition: Seq<char>, m: Move)
    ensures
        v.messages(input, partition).contains(m) <==> input.selected.contains(m) && m.partition
            == partition,
{
    lists::stable_sort_permutes(
        |a: Move, b: Move| message_throttle::message_ahead(input, v.model, a, b),
        message_throttle::of_partition(input.selected, partition),
    );
    message_throttle::of_partition_members(input.selected, partition, m);
    assert(message_throttle::of_partition(input.selected, partition).contains(m)
        <==> v.messages(input, partition).contains(m));
}

proof fn tried_balanced(
    v: StageView,
    input: InputView,
    round: Round,
    partitions: Seq<Seq<char>>,
    g: Gauge,
    kind: RebalanceType,
)
    requires
        v.selected_fault(input, input.selected.len()) is None,
    ensures
        balanced(g, kind, round, v.partitions_tried(input, round, partitions)),
    decreases partitions.len(),
{
    if partitions.len() > 0 {
        tried_balanced(v, input, round, partitions.drop_last(), g, kind);
        let p = partitions.last();
        let messages = v.messages(input, p);
        assert forall|i: int| 0 <= i < messages.len() implies (#[trigger] messages[i]).resource
            == input.resource by {
            assert(messages.contains(messages[i]));
            messages_are_selected(v, input, p, messages[i]);
            let j = input.selected.index_of(messages[i]);
            selected_resource(v, input, input.selected.len(), j);
        }
        steps_balanced(
            v,
            input,
            v.partitions_tried(input, round, partitions.drop_last()),
            messages,
            g,
            kind,
        );
    }
}

/// Sound inputs have sound selected moves.
pub proof fn inputs_sound(v: StageView, n: nat, i: int)
    requires
        v.inputs_fault(n) is None,
        0 <= i < n,
    ensures
        v.selected_fault(v.inputs[i], v.inputs[i].selected.len()) is None,
    decreases n,
{
    if i < n - 1 {
        inputs_sound(v, (n - 1) as nat, i);
    }
}

/// What is dispatched and what is left of a quota add up to what was there.
pub proof fn progress_balanced(v: StageView, n: nat, g: Gauge, kind: RebalanceType)
    requires
        n <= v.inputs.len(),
        v.inputs_fault(v.inputs.len()) is None,
    ensures
        match g.left(v.opening(v.inputs.len()), kind) {
            Some(limit) => g.left(v.progress(n).0, kind) is Some && g.count(kind, v.progress(n).1)
                + g.left(v.progress(n).0, kind)->0 == limit,
            None => true,
        },
    decreases n,
{
    if n > 0 {
        let before = v.progress((n - 1) as nat);
        let input = v.inputs[n - 1];
        progress_balanced(v, (n - 1) as nat, g, kind);
        inputs_sound(v, v.inputs.len(), n - 1);
        let round = Round { quotas: before.0, derived: input.current, log: before.1 };
        tried_balanced(v, input, round, v.partition_order(input), g, kind);
    }
}

/// The pending moves of a resource, the first `n` of all, that count against
/// the quotas, behind those counted before.
pub open spec fn counted_behind(
    v: StageView,
    before: Seq<Dispatch>,
    input: InputView,
    n: nat,
) -> Seq<Dispatch>
    decreases n,
{
    if n == 0 {
        before
    } else {
        let earlier = counted_behind(v, before, input, (n - 1) as nat);
        let p = v.pending[n - 1];
        if v.counts(input, p) {
            earlier.push((p, v.pending_kind(input, p)))
        } else {
            earlier
        }
    }
}

/// The pending moves of the first `n` resources that count against the quotas.
pub open spec fn counted(v: StageView, n: nat) -> Seq<Dispatch>
    decreases n,
{
    if n == 0 {
        Seq::empty()
    } else {
        counted_behind(v, counted(v, (n - 1) as nat), v.inputs[n - 1], v.pending.len())
    }
}

/// The quotas leave of a limit what the counted moves do not use up.
pub open spec fn used_up(
    g: Gauge,
    kind: RebalanceType,
    limit: usize,
    q: QuotasView,
    log: Seq<Dispatch>,
) -> bool {
    &&& g.left(q, kind) is Some
    &&& g.left(q, kind)->0 == if g.count(kind, log) < limit {
        limit - g.count(kind, log)
    } else {
        0
    }
}

proof fn charging_uses_up(
    v: StageView,
    quotas: QuotasView,
    before: Seq<Dispatch>,
    input: InputView,
    n: nat,
    g: Gauge,
    kind: RebalanceType,
    limit: usize,
)
    requires
        used_up(g, kind, limit, quotas, before),
    ensures
        used_up(
            g,
            kind,
            limit,
            v.charged_pending(quotas, input, n),
            counted_behind(v, before, input, n),
        ),
    decreases n,
{
    if n > 0 {
        charging_uses_up(v, quotas, before, input, (n - 1) as nat, g, kind, limit);
        let p = v.pending[n - 1];
        if v.counts(input, p) {
            let earlier = counted_behind(v, before, input, (n - 1) as nat);
            assert(counted_behind(v, before, input, n).drop_last() =~= earlier);
        }
    }
}

/// Counted moves use up what the configurations set.
pub proof fn opening_uses_up(v: StageView, n: nat, g: Gauge, kind: RebalanceType, limit: usize)
    requires
        g.left(QuotasView::open_for(v.names(), v.live).configured_all(v.configs), kind) == Some(
            limit,
        ),
    ensures
        used_up(g, kind, limit, v.opening(n), counted(v, n)),
    decreases n,
{
    if n > 0 {
        let m = (n - 1) as nat;
        opening_uses_up(v, m, g, kind, limit);
        charging_uses_up(
            v,
            v.opening(m),
            counted(v, m),
            v.inputs[n - 1],
            v.pending.len(),
            g,
            kind,
            limit,
        );
    }
}

proof fn charging_sets_no_limit(
    v: StageView,
    quotas: QuotasView,
    input: InputView,
    n: nat,
    g: Gauge,
    kind: RebalanceType,
)
    requires
        g.left(quotas, kind) is None,
    ensures
        g.left(v.charged_pending(quotas, input, n), kind) is None,
    decreases n,
{
    if n > 0 {
        charging_sets_no_limit(v, quotas, input, (n - 1) as nat, g, kind);
    }
}

proof fn opening_sets_no_limit(v: StageView, n: nat, g: Gauge, kind: RebalanceType)
    requires
        g.left(QuotasView::open_for(v.names(), v.live).configured_all(v.configs), kind) is None,
    ensures
        g.left(v.opening(n), kind) is None,
    decreases n,
{
    if n > 0 {
        opening_sets_no_limit(v, (n - 1) as nat, g, kind);
        charging_sets_no_limit(
            v,
            v.opening((n - 1) as nat),
            v.inputs[n - 1],
            v.pending.len(),
            g,
            kind,
        );
    }
}

/// Where no limit is configured, none comes up.
pub proof fn unlimited_stays(v: StageView, n: nat, g: Gauge, kind: RebalanceType)
    requires
        v.inputs_fault(v.inputs.len()) is None,
        n <= v.inputs.len(),
    ensures
        g.left(QuotasView::open_for(v.names(), v.live).configured_all(v.configs), kind) is None
            ==> g.left(v.progress(n).0, kind) is None,
    decreases n,
{
    if g.left(QuotasView::open_for(v.names(), v.live).configured_all(v.configs), kind) is None {
        if n == 0 {
            opening_sets_no_limit(v, v.inputs.len(), g, kind);
        } else {
            let before = v.progress((n - 1) as nat);
            let input = v.inputs[n - 1];
            unlimited_stays(v, (n - 1) as nat, g, kind);
            inputs_sound(v, v.inputs.len(), n - 1);
            let round = Round { quotas: before.0, derived: input.current, log: before.1 };
            tried_balanced(v, input, round, v.partition_order(input), g, kind);
        }
    }
}

/// No quota is ever exceeded: within the scope and kind of a configured quota,
/// at most as many moves are dispatched as the pending moves that count leave
/// of its limit, and none where these reach it.
pub proof fn dispatch_respects_quotas(v: StageView, g: Gauge, kind: RebalanceType, limit: usize)
    requires
        v.fault() is None,
        g.left(QuotasView::open_for(v.names(), v.live).configured_all(v.configs), kind) == Some(
            limit,
        ),
    ensures
        ({
            let used = g.count(kind, counted(v, v.inputs.len()));
            let sent = g.count(kind, v.progress(v.inputs.len()).1);
            &&& used < limit ==> sent <= limit - used
            &&& used >= limit ==> sent == 0
        }),
{
    opening_uses_up(v, v.inputs.len(), g, kind, limit);
    progress_balanced(v, v.inputs.len(), g, kind);
}

/// The gauge of a scope for a replica.
pub open spec fn gauge_of(
    scope: ThrottleScope,
    resource: Seq<char>,
    instance: Seq<char>,
) -> Gauge {
    match scope {
        ThrottleScope::Cluster => Gauge::Cluster,
        ThrottleScope::Resource => Gauge::Resource(resource),
        ThrottleScope::Instance => Gauge::Instance(instance),
    }
}

/// The limit that holds is that of the last configuration for the scope, the
/// kind of work, and the resource or instance: moves that count as pending and
/// moves that are dispatched exceed it together only where the pending ones
/// alone do, and then nothing is dispatched.
pub proof fn dispatch_respects_configurations(
    v: StageView,
    scope: ThrottleScope,
    kind: RebalanceType,
    resource: Seq<char>,
    instance: Seq<char>,
    limit: usize,
)
    requires
        v.fault() is None,
        v.names().contains(resource),
        v.live.contains(instance),
        quota::limit_for(v.configs, scope, kind, resource, instance) == Some(limit),
    ensures
        ({
            let g = gauge_of(scope, resource, instance);
            let used = g.count(kind, counted(v, v.inputs.len()));
            let sent = g.count(kind, v.progress(v.inputs.len()).1);
            sent == 0 || used + sent <= limit
        }),
{
    quota::last_configuration_sets_limit(
        v.names(),
        v.live,
        v.configs,
        scope,
        kind,
        resource,
        instance,
    );
    dispatch_respects_quotas(v, gauge_of(scope, resource, instance), kind, limit);
}

/// A dispatch was selected and not pending.
pub open spec fn legitimate(v: StageView, m: Move) -> bool {
    &&& !v.pending.contains(m)
    &&& exists|i: int| 0 <= i < v.inputs.len() && (#[trigger] v.inputs[i]).selected.contains(m)
}

/// Every dispatch of the log is legitimate.
pub open spec fn all_legitimate(v: StageView, log: Seq<Dispatch>) -> bool {
    forall|i: int| 0 <= i < log.len() ==> legitimate(v, (#[trigger] log[i]).0)
}

proof fn steps_legitimate(v: StageView, k: int, round: Round, messages: Seq<Move>)
    requires
        0 <= k < v.inputs.len(),
        all_legitimate(v, round.log),
        forall|i: int| 0 <= i < messages.len() ==> v.inputs[k].selected.contains(
            #[trigger] messages[i],
        ),
    ensures
        all_legitimate(v, v.stepped_all(v.inputs[k], round, messages).log),
    decreases messages.len(),
{
    if messages.len() > 0 {
        let rest = messages.drop_last();
        let input = v.inputs[k];
        assert forall|i: int| 0 <= i < rest.len() implies input.selected.contains(
            #[trigger] rest[i],
        ) by {
            assert(rest[i] == messages[i]);
        }
        steps_legitimate(v, k, round, rest);
        let before = v.stepped_all(input, round, rest);
        let after = v.stepped(input, before, messages.last());
        assert(input.selected.contains(messages[messages.len() - 1]));
        assert forall|i: int| 0 <= i < after.log.len() implies legitimate(
            v,
            (#[trigger] after.log[i]).0,
        ) by {
            if i < before.log.len() {
                assert(after.log[i] == before.log[i]);
            }
        }
    }
}

proof fn tried_legitimate(v: StageView, k: int, round: Round, partitions: Seq<Seq<char>>)
    requires
        0 <= k < v.inputs.len(),
        all_legitimate(v, round.log),
    ensures
        all_legitimate(v, v.partitions_tried(v.inputs[k], round, partitions).log),
    decreases partitions.len(),
{
    if partitions.len() > 0 {
        let input = v.inputs[k];
        tried_legitimate(v, k, round, partitions.drop_last());
        let messages = v.messages(input, partitions.last());
        assert forall|i: int| 0 <= i < messages.len() implies input.selected.contains(
            #[trigger] messages[i],
        ) by {
            assert(messages.contains(messages[i]));
            messages_are_selected(v, input, partitions.last(), messages[i]);
        }
        steps_legitimate(
            v,
            k,
            v.partitions_tried(input, round, partitions.drop_last()),
            messages,
        );
    }
}

proof fn progress_legitimate(v: StageView, n: nat)
    requires
        n <= v.inputs.len(),
    ensures
        all_legitimate(v, v.progress(n).1),
    decreases n,
{
    if n > 0 {
        progress_legitimate(v, (n - 1) as nat);
        let before = v.progress((n - 1) as nat);
        let input = v.inputs[n - 1];
        tried_legitimate(
            v,
            n - 1,
            Round { quotas: before.0, derived: input.current, log: before.1 },
            v.partition_order(input),
        );
    }
}

/// Only selected moves are dispatched, and none that is pending already: a
/// pending move is counted once and not sent again.
pub proof fn dispatches_are_selected_and_new(v: StageView, m: Move)
    requires
        v.dispatched().contains(m),
    ensures
        legitimate(v, m),
{
    progress_legitimate(v, v.inputs.len());
    let log = v.progress(v.inputs.len()).1;
    let i = v.dispatched().index_of(m);
    assert(log[i].0 == m);
}

/// No quota at all is set.
pub open spec fn unlimited(q: QuotasView) -> bool {
    &&& q.cluster == Quota::unlimited()
    &&& forall|r: Seq<char>| #[trigger] q.resources.dom().contains(r) ==> q.resources[r]
        == Quota::unlimited()
    &&& forall|i: Seq<char>| #[trigger] q.instances.dom().contains(i) ==> q.instances[i]
        == Quota::unlimited()
}

proof fn steps_unlimited(
    v: StageView,
    input: InputView,
    round: Round,
    messages: Seq<Move>,
    m: Move,
)
    requires
        unlimited(round.quotas),
    ensures
        unlimited(v.stepped_all(input, round, messages).quotas),
        message_throttle::moves_in(round.log).contains(m) || (messages.contains(m)
            && !v.pending.contains(m)) ==> message_throttle::moves_in(
            v.stepped_all(input, round, messages).log,
        ).contains(m),
    decreases messages.len(),
{
    if messages.len() > 0 {
        let rest = messages.drop_last();
        steps_unlimited(v, input, round, rest, m);
        let before = v.stepped_all(input, round, rest);
        let after = v.stepped(input, before, messages.last());
        let a = message_throttle::moves_in(before.log);
        let b = message_throttle::moves_in(after.log);
        if a.contains(m) {
            assert(b[a.index_of(m)] == m);
        }
        if messages.contains(m) && !v.pending.contains(m) {
            if messages.last() == m {
                assert(b[before.log.len() as int] == m);
            } else {
                assert(rest[messages.index_of(m)] == m);
            }
        }
    }
}

proof fn tried_unlimited(
    v: StageView,
    input: InputView,
    round: Round,
    partitions: Seq<Seq<char>>,
    m: Move,
)
    requires
        unlimited(round.quotas),
    ensures
        unlimited(v.partitions_tried(input, round, partitions).quotas),
        message_throttle::moves_in(round.log).contains(m) || (input.selected.contains(m)
            && !v.pending.contains(m) && partitions.contains(m.partition))
            ==> message_throttle::moves_in(
            v.partitions_tried(input, round, partitions).log,
        ).contains(m),
    decreases partitions.len(),
{
    if partitions.len() > 0 {
        let rest = partitions.drop_last();
        tried_unlimited(v, input, round, rest, m);
        let p = partitions.last();
        messages_are_selected(v, input, p, m);
        steps_unlimited(
            v,
            input,
            v.partitions_tried(input, round, rest),
            v.messages(input, p),
            m,
        );
        if partitions.contains(m.partition) && p != m.partition {
            assert(rest[partitions.index_of(m.partition)] == m.partition);
        }
    }
}

/// Without any throttle configuration every selected move that is not pending
/// is dispatched.
pub proof fn unthrottled_moves_are_dispatched(v: StageView, k: int, m: Move)
    requires
        v.configs.len() == 0,
        0 <= k < v.inputs.len(),
        v.inputs[k].selected.contains(m),
        !v.pending.contains(m),
    ensures
        v.dispatched().contains(m),
{
    opening_unlimited(v, v.inputs.len());
    dispatched_by(v, k, v.inputs.len(), m);
}

proof fn partitions_finite(selected: Seq<Move>)
    ensures
        message_throttle::partitions_of(selected).finite(),
{
    let names = Seq::new(selected.len(), |i: int| selected[i].partition);
    vstd::seq_lib::seq_to_set_is_finite(names);
    assert(names.to_set() =~= message_throttle::partitions_of(selected)) by {
        assert forall|p: Seq<char>| names.to_set().contains(p)
            <==> message_throttle::partitions_of(selected).contains(p) by {
            if names.contains(p) {
                let i = names.index_of(p);
                assert(selected[i].partition == p);
            }
            if message_throttle::partitions_of(selected).contains(p) {
                let i = choose|i: int|
                    0 <= i < selected.len() && (#[trigger] selected[i]).partition == p;
                assert(names[i] == p);
            }
        }
    }
}

proof fn opening_unlimited(v: StageView, n: nat)
    requires
        v.configs.len() == 0,
    ensures
        unlimited(v.opening(n)),
    decreases n,
{
    if n > 0 {
        opening_unlimited(v, (n - 1) as nat);
        charging_unlimited(v, v.opening((n - 1) as nat), v.inputs[n - 1], v.pending.len());
    }
}

proof fn charging_unlimited(v: StageView, quotas: QuotasView, input: InputView, n: nat)
    requires
        unlimited(quotas),
    ensures
        unlimited(v.charged_pending(quotas, input, n)),
    decreases n,
{
    if n > 0 {
        charging_unlimited(v, quotas, input, (n - 1) as nat);
    }
}

proof fn dispatched_by(v: StageView, k: int, n: nat, m: Move)
    requires
        v.configs.len() == 0,
        unlimited(v.opening(v.inputs.len())),
        n <= v.inputs.len(),
        0 <= k < v.inputs.len(),
        v.inputs[k].selected.contains(m),
        !v.pending.contains(m),
    ensures
        unlimited(v.progress(n).0),
        k < n ==> message_throttle::moves_in(v.progress(n).1).contains(m),
    decreases n,
{
    if n > 0 {
        dispatched_by(v, k, (n - 1) as nat, m);
        let before = v.progress((n - 1) as nat);
        let input = v.inputs[n - 1];
        let order = v.partition_order(input);
        if k == n - 1 {
            let set = message_throttle::partitions_of(input.selected);
            let i = input.selected.index_of(m);
            assert(input.selected[i].partition == m.partition);
            assert(set.contains(m.partition));
            let listed = ordered::members_in_order::<PartitionId>(set);
            partitions_finite(input.selected);
            ordered::finite_set_is_enumerated::<PartitionId>(set);
            assert(listed.contains(m.partition));
            lists::stable_sort_permutes(
                |a: Seq<char>, b: Seq<char>|
                    message_throttle::partition_ahead(input, v.model.states[0], a, b),
                listed,
            );
            assert(order.contains(m.partition));
        }
        tried_unlimited(
            v,
            input,
            Round { quotas: before.0, derived: input.current, log: before.1 },
            order,
            m,
        );
    }
}

} // verus!
