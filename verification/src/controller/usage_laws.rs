//! What pending moves use of the quotas, and what the configurations set.
use crate::controller::intermediate_laws;
use crate::controller::message_throttle::{InputView, StageView};
use crate::controller::need_laws;
use crate::controller::quota;
use crate::controller::quota::{RebalanceType, TargetView, ThrottleScope, ThrottleView};
use crate::controller::throttle_laws;
use crate::controller::throttle_laws::Gauge;
use crate::model::replica_state;
use crate::transition::Move;
use vstd::prelude::*;

verus! {

/// The quota is for the replica of a move.
pub open spec fn concerns(g: Gauge, m: Move) -> bool {
    match g {
        Gauge::Cluster => true,
        Gauge::Resource(r) => m.resource == r,
        Gauge::Instance(i) => m.instance == i,
    }
}

/// A move to the target fills a state that lacks replicas.
pub open spec fn fills_a_need(v: StageView, input: InputView, m: Move) -> bool {
    exists|i: int|
        0 <= i < v.model.states.len() && #[trigger] v.model.states[i] == m.target
            && need_laws::holders(input.current, m.partition, m.target) < need_laws::need(
            input,
            m.partition,
            v.live,
            v.model,
            i,
        )
}

/// The quota for a kind of work is used by a move.
pub open spec fn of_kind(v: StageView, input: InputView, kind: RebalanceType, m: Move) -> bool {
    match kind {
        RebalanceType::Any => true,
        RebalanceType::RecoveryBalance => fills_a_need(v, input, m),
        RebalanceType::LoadBalance => !fills_a_need(v, input, m),
    }
}

/// A pending move of one of the first `n` resources uses the quota: its
/// replica is still in the state that the move starts from.
pub open spec fn using(v: StageView, n: int, g: Gauge, kind: RebalanceType) -> spec_fn(
    Move,
) -> bool {
    |m: Move|
        exists|k: int|
            0 <= k < n && using_of(v, #[trigger] v.inputs[k], g, kind)(m)
}

/// A pending move of the resource uses the quota.
pub open spec fn using_of(v: StageView, input: InputView, g: Gauge, kind: RebalanceType) -> spec_fn(
    Move,
) -> bool {
    |m: Move|
        input.resource == m.resource && intermediate_laws::found(
            input.current,
            m.partition,
            m.instance,
        ) == Some(m.source) && m.source != m.target && concerns(g, m) && of_kind(v, input, kind, m)
}

proof fn behind_is_counted(
    v: StageView,
    before: Seq<(Move, RebalanceType)>,
    input: InputView,
    n: nat,
    g: Gauge,
    kind: RebalanceType,
)
    requires
        n <= v.pending.len(),
        v.model.states.no_duplicates(),
        replica_state::finite(input.current),
        kind == RebalanceType::Any || forall|a: int|
            0 <= a < v.pending.len() ==> v.model.states.contains((#[trigger] v.pending[a]).target),
    ensures
        g.count(kind, throttle_laws::counted_behind(v, before, input, n)) == g.count(kind, before)
            + v.pending.take(n as int).filter(using_of(v, input, g, kind)).len(),
    decreases n,
{
    reveal(Seq::filter);
    if n == 0 {
        assert(v.pending.take(0) =~= Seq::empty());
    } else {
        let m = (n - 1) as nat;
        behind_is_counted(v, before, input, m, g, kind);
        let p = v.pending[m as int];
        assert(v.pending.take(n as int).drop_last() =~= v.pending.take(m as int));
        assert(v.pending.take(n as int).last() == p);
        let earlier = throttle_laws::counted_behind(v, before, input, m);
        let d = (p, v.pending_kind(input, p));
        assert(earlier.push(d).drop_last() =~= earlier);
        if kind != RebalanceType::Any {
            assert(v.model.states.contains(p.target));
            let i = v.model.states.index_of(p.target);
            need_laws::recovery_means_missing_replicas(
                input,
                p.partition,
                v.live,
                v.model,
                input.current,
                i,
            );
            if fills_a_need(v, input, p) {
                let j = choose|j: int|
                    0 <= j < v.model.states.len() && #[trigger] v.model.states[j] == p.target
                        && need_laws::holders(input.current, p.partition, p.target)
                        < need_laws::need(input, p.partition, v.live, v.model, j);
                assert(j == i);
            }
        }
    }
}

proof fn filters_add_up<A>(s: Seq<A>, a: spec_fn(A) -> bool, b: spec_fn(A) -> bool, c: spec_fn(A) -> bool)
    requires
        forall|i: int|
            0 <= i < s.len() ==> c(#[trigger] s[i]) == (a(s[i]) || b(s[i])) && !(a(s[i]) && b(s[i])),
    ensures
        s.filter(c).len() == s.filter(a).len() + s.filter(b).len(),
    decreases s.len(),
{
    reveal(Seq::filter);
    if s.len() > 0 {
        let rest = s.drop_last();
        assert forall|i: int| 0 <= i < rest.len() implies c(#[trigger] rest[i]) == (a(rest[i])
            || b(rest[i])) && !(a(rest[i]) && b(rest[i])) by {
            assert(rest[i] == s[i]);
        }
        filters_add_up(rest, a, b, c);
        assert(s[s.len() - 1] == s.last());
    }
}

proof fn nothing_passes<A>(s: Seq<A>, f: spec_fn(A) -> bool)
    requires
        forall|i: int| 0 <= i < s.len() ==> !f(#[trigger] s[i]),
    ensures
        s.filter(f).len() == 0,
    decreases s.len(),
{
    reveal(Seq::filter);
    if s.len() > 0 {
        let rest = s.drop_last();
        assert forall|i: int| 0 <= i < rest.len() implies !f(#[trigger] rest[i]) by {
            assert(rest[i] == s[i]);
        }
        nothing_passes(rest, f);
        assert(s[s.len() - 1] == s.last());
    }
}

/// What the pending moves use of a quota: one for every pending move whose
/// replica is still in the state that the move starts from, where the quota is
/// for the move's resource or instance and for its kind of work. A move to a
/// state that lacks replicas is recovery, any other is load balancing.
pub proof fn pending_moves_use_quotas(v: StageView, n: nat, g: Gauge, kind: RebalanceType)
    requires
        v.names().no_duplicates(),
        n <= v.inputs.len(),
        v.model.states.no_duplicates(),
        forall|k: int|
            0 <= k < v.inputs.len() ==> replica_state::finite((#[trigger] v.inputs[k]).current),
        kind == RebalanceType::Any || forall|a: int|
            0 <= a < v.pending.len() ==> v.model.states.contains((#[trigger] v.pending[a]).target),
    ensures
        g.count(kind, throttle_laws::counted(v, n)) == v.pending.filter(
            using(v, n as int, g, kind),
        ).len(),
    decreases n,
{
    let all = v.pending;
    if n == 0 {
        nothing_passes(all, using(v, 0, g, kind));
    } else {
        let m = (n - 1) as nat;
        pending_moves_use_quotas(v, m, g, kind);
        let input = v.inputs[m as int];
        behind_is_counted(v, throttle_laws::counted(v, m), input, all.len(), g, kind);
        assert(all.take(all.len() as int) =~= all);
        let a = using(v, m as int, g, kind);
        let b = using_of(v, input, g, kind);
        let c = using(v, n as int, g, kind);
        assert forall|i: int| 0 <= i < all.len() implies c(#[trigger] all[i]) == (a(all[i]) || b(
            all[i],
        )) && !(a(all[i]) && b(all[i])) by {
            let p = all[i];
            if c(p) {
                let k = choose|k: int| 0 <= k < n && using_of(v, #[trigger] v.inputs[k], g, kind)(p);
                if k < m {
                    assert(using_of(v, v.inputs[k], g, kind)(p));
                }
            }
            if a(p) {
                let k = choose|k: int| 0 <= k < m && using_of(v, #[trigger] v.inputs[k], g, kind)(p);
                assert(using_of(v, v.inputs[k], g, kind)(p));
                assert(v.names()[k] != v.names()[m as int]);
            }
            if b(p) {
                assert(using_of(v, v.inputs[m as int], g, kind)(p));
            }
        }
        filters_add_up(all, a, b, c);
    }
}

/// A configuration sets the limit for the replicas of a resource on an
/// instance.
pub open spec fn sets(
    c: ThrottleView,
    scope: ThrottleScope,
    kind: RebalanceType,
    resource: Seq<char>,
    instance: Seq<char>,
) -> bool {
    &&& c.scope == scope
    &&& c.kind == kind
    &&& scope == ThrottleScope::Resource && c.target is Some && c.target->0 is Resource
        ==> c.target == Some(TargetView::Resource(resource))
    &&& scope == ThrottleScope::Instance && c.target is Some && c.target->0 is Instance
        ==> c.target == Some(TargetView::Instance(instance))
}

/// The limit that holds is that of the last configuration that sets it. Without
/// such a configuration there is none.
pub proof fn later_configurations_prevail(
    configs: Seq<ThrottleView>,
    scope: ThrottleScope,
    kind: RebalanceType,
    resource: Seq<char>,
    instance: Seq<char>,
)
    ensures
        forall|k: int|
            0 <= k < configs.len() && sets(#[trigger] configs[k], scope, kind, resource, instance)
                && (forall|j: int|
                k < j < configs.len() ==> !sets(
                    #[trigger] configs[j],
                    scope,
                    kind,
                    resource,
                    instance,
                )) ==> quota::limit_for(configs, scope, kind, resource, instance) == Some(
                configs[k].limit,
            ),
        (forall|k: int|
            0 <= k < configs.len() ==> !sets(
                #[trigger] configs[k],
                scope,
                kind,
                resource,
                instance,
            )) ==> quota::limit_for(configs, scope, kind, resource, instance) is None,
    decreases configs.len(),
{
    if configs.len() > 0 {
        let rest = configs.drop_last();
        let n = configs.len() - 1;
        later_configurations_prevail(rest, scope, kind, resource, instance);
        assert(configs[n] == configs.last());
        assert forall|k: int|
            0 <= k < configs.len() && sets(#[trigger] configs[k], scope, kind, resource, instance)
                && (forall|j: int|
                k < j < configs.len() ==> !sets(
                    #[trigger] configs[j],
                    scope,
                    kind,
                    resource,
                    instance,
                )) implies quota::limit_for(configs, scope, kind, resource, instance) == Some(
            configs[k].limit,
        ) by {
            if k < n {
                assert(!sets(configs[n], scope, kind, resource, instance));
                assert(rest[k] == configs[k]);
                assert forall|j: int| k < j < rest.len() implies !sets(
                    #[trigger] rest[j],
                    scope,
                    kind,
                    resource,
                    instance,
                ) by {
                    assert(rest[j] == configs[j]);
                }
            }
        }
        if forall|k: int|
            0 <= k < configs.len() ==> !sets(
                #[trigger] configs[k],
                scope,
                kind,
                resource,
                instance,
            ) {
            assert forall|k: int| 0 <= k < rest.len() implies !sets(
                #[trigger] rest[k],
                scope,
                kind,
                resource,
                instance,
            ) by {
                assert(rest[k] == configs[k]);
            }
        }
    }
}

} // verus!
