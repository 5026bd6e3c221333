//! State-transition quotas by scope and by kind of work.
use crate::model::{InstanceId, ResourceId};
use crate::ordered;
use crate::ordered::{Duplicate, Key, OrderedMap, OrderedSet};
use vstd::prelude::*;

verus! {

/// The operational class used by state-transition throttles.
#[derive(Clone, Copy, Debug, PartialEq, Eq, Structural, PartialOrd, Ord, Hash)]
pub enum RebalanceType {
    Any,
    RecoveryBalance,
    LoadBalance,
}

/// The scope at which a state-transition quota applies.
#[derive(Clone, Copy, Debug, PartialEq, Eq, Structural, PartialOrd, Ord, Hash)]
pub enum ThrottleScope {
    Cluster,
    Resource,
    Instance,
}

/// The one resource or instance that a quota is for.
#[derive(Clone, Debug, PartialEq, Eq)]
pub enum ThrottleTarget {
    Resource(ResourceId),
    Instance(InstanceId),
}

/// The one resource or instance that a quota is for.
pub enum TargetView {
    Resource(Seq<char>),
    Instance(Seq<char>),
}

impl View for ThrottleTarget {
    type V = TargetView;

    open spec fn view(&self) -> TargetView {
        match self {
            ThrottleTarget::Resource(resource) => TargetView::Resource(resource@),
            ThrottleTarget::Instance(instance) => TargetView::Instance(instance@),
        }
    }
}

/// What a throttle configuration says.
#[verifier::ext_equal]
pub struct ThrottleView {
    pub kind: RebalanceType,
    pub scope: ThrottleScope,
    pub limit: usize,
    pub target: Option<TargetView>,
}

/// One state-transition throttle configuration.
#[derive(Clone, Debug, PartialEq, Eq)]
pub struct StateTransitionThrottleConfig {
    rebalance_type: RebalanceType,
    scope: ThrottleScope,
    max_transitions: usize,
    target: Option<ThrottleTarget>,
}

impl View for StateTransitionThrottleConfig {
    type V = ThrottleView;

    closed spec fn view(&self) -> ThrottleView {
        ThrottleView {
            kind: self.rebalance_type,
            scope: self.scope,
            limit: self.max_transitions,
            target: match self.target {
                Some(target) => Some(target@),
                None => None,
            },
        }
    }
}

impl DeepView for StateTransitionThrottleConfig {
    type V = ThrottleView;

    open spec fn deep_view(&self) -> ThrottleView {
        self@
    }
}

impl Duplicate for StateTransitionThrottleConfig {
    fn duplicate(&self) -> (r: Self) {
        let target = match &self.target {
            Some(ThrottleTarget::Resource(resource)) => Some(
                ThrottleTarget::Resource(resource.duplicate()),
            ),
            Some(ThrottleTarget::Instance(instance)) => Some(
                ThrottleTarget::Instance(instance.duplicate()),
            ),
            None => None,
        };
        StateTransitionThrottleConfig {
            rebalance_type: self.rebalance_type,
            scope: self.scope,
            max_transitions: self.max_transitions,
            target,
        }
    }
}

impl StateTransitionThrottleConfig {
    /// Construct a state-transition quota.
    pub fn new(
        rebalance_type: RebalanceType,
        scope: ThrottleScope,
        max_transitions: usize,
    ) -> (r: Self)
        ensures
            r@ == (ThrottleView {
                kind: rebalance_type,
                scope,
                limit: max_transitions,
                target: None,
            }),
    {
        StateTransitionThrottleConfig { rebalance_type, scope, max_transitions, target: None }
    }

    /// Construct a state-transition quota for one resource.
    pub fn for_resource(
        rebalance_type: RebalanceType,
        resource: ResourceId,
        max_transitions: usize,
    ) -> (r: Self)
        ensures
            r@ == (ThrottleView {
                kind: rebalance_type,
                scope: ThrottleScope::Resource,
                limit: max_transitions,
                target: Some(TargetView::Resource(resource@)),
            }),
    {
        StateTransitionThrottleConfig {
            rebalance_type,
            scope: ThrottleScope::Resource,
            max_transitions,
            target: Some(ThrottleTarget::Resource(resource)),
        }
    }

    /// Construct a state-transition quota for one instance.
    pub fn for_instance(
        rebalance_type: RebalanceType,
        instance: InstanceId,
        max_transitions: usize,
    ) -> (r: Self)
        ensures
            r@ == (ThrottleView {
                kind: rebalance_type,
                scope: ThrottleScope::Instance,
                limit: max_transitions,
                target: Some(TargetView::Instance(instance@)),
            }),
    {
        StateTransitionThrottleConfig {
            rebalance_type,
            scope: ThrottleScope::Instance,
            max_transitions,
            target: Some(ThrottleTarget::Instance(instance)),
        }
    }

    /// Return the kind of work counted by this quota.
    pub fn rebalance_type(&self) -> (r: RebalanceType)
        ensures
            r == self@.kind,
    {
        self.rebalance_type
    }

    /// Return the scope at which this quota applies.
    pub fn scope(&self) -> (r: ThrottleScope)
        ensures
            r == self@.scope,
    {
        self.scope
    }

    /// Return the maximum number of in-flight transitions.
    pub fn max_transitions(&self) -> (r: usize)
        ensures
            r == self@.limit,
    {
        self.max_transitions
    }

    /// Return the one resource or instance that this quota is for.
    pub fn target(&self) -> (r: Option<&ThrottleTarget>)
        ensures
            match r {
                Some(target) => self@.target == Some(target@),
                None => self@.target is None,
            },
    {
        self.target.as_ref()
    }
}

/// What is left of the quotas of one scope, for any work and by kind.
#[derive(Clone, Copy, Debug, PartialEq, Eq, Structural)]
pub struct Quota {
    pub any: Option<usize>,
    pub recovery: Option<usize>,
    pub load: Option<usize>,
}

impl DeepView for Quota {
    type V = Quota;

    open spec fn deep_view(&self) -> Quota {
        *self
    }
}

impl Duplicate for Quota {
    fn duplicate(&self) -> (r: Self) {
        *self
    }
}

/// One less, where something is left.
pub open spec fn spent(left: Option<usize>) -> Option<usize> {
    match left {
        Some(n) => Some(
            if n > 0 {
                (n - 1) as usize
            } else {
                0
            },
        ),
        None => None,
    }
}

fn spend(left: Option<usize>) -> (r: Option<usize>)
    ensures
        r == spent(left),
{
    match left {
        Some(n) => if n > 0 {
            Some(n - 1)
        } else {
            Some(0)
        },
        None => None,
    }
}

impl Quota {
    /// What is left for a kind of work.
    pub open spec fn left(self, kind: RebalanceType) -> Option<usize> {
        match kind {
            RebalanceType::Any => self.any,
            RebalanceType::RecoveryBalance => self.recovery,
            RebalanceType::LoadBalance => self.load,
        }
    }

    /// The quotas with a new limit for one kind of work.
    pub open spec fn with(self, kind: RebalanceType, limit: usize) -> Quota {
        match kind {
            RebalanceType::Any => Quota { any: Some(limit), ..self },
            RebalanceType::RecoveryBalance => Quota { recovery: Some(limit), ..self },
            RebalanceType::LoadBalance => Quota { load: Some(limit), ..self },
        }
    }

    /// Nothing is left for a kind of work.
    pub open spec fn exhausted(self, kind: RebalanceType) -> bool {
        self.any == Some(0usize) || self.left(kind) == Some(0usize)
    }

    /// The quotas once work of one kind has begun.
    pub open spec fn charged(self, kind: RebalanceType) -> Quota {
        Quota {
            any: spent(self.any),
            recovery: if kind == RebalanceType::RecoveryBalance {
                spent(self.recovery)
            } else {
                self.recovery
            },
            load: if kind == RebalanceType::LoadBalance {
                spent(self.load)
            } else {
                self.load
            },
        }
    }

    /// No quota at all.
    pub open spec fn unlimited() -> Quota {
        Quota { any: None, recovery: None, load: None }
    }

    fn none() -> (r: Quota)
        ensures
            r == Quota::unlimited(),
    {
        Quota { any: None, recovery: None, load: None }
    }

    fn set(self, kind: RebalanceType, limit: usize) -> (r: Quota)
        ensures
            r == self.with(kind, limit),
    {
        match kind {
            RebalanceType::Any => Quota { any: Some(limit), ..self },
            RebalanceType::RecoveryBalance => Quota { recovery: Some(limit), ..self },
            RebalanceType::LoadBalance => Quota { load: Some(limit), ..self },
        }
    }

    fn is_exhausted(self, kind: RebalanceType) -> (r: bool)
        ensures
            r == self.exhausted(kind),
    {
        let left: Option<usize> = match kind {
            RebalanceType::Any => self.any,
            RebalanceType::RecoveryBalance => self.recovery,
            RebalanceType::LoadBalance => self.load,
        };
        let none_at_all = match self.any {
            Some(n) => n == 0,
            None => false,
        };
        let none_of_kind = match left {
            Some(n) => n == 0,
            None => false,
        };
        none_at_all || none_of_kind
    }

    fn charge(self, kind: RebalanceType) -> (r: Quota)
        ensures
            r == self.charged(kind),
    {
        match kind {
            RebalanceType::Any => Quota { any: spend(self.any), ..self },
            RebalanceType::RecoveryBalance => Quota {
                any: spend(self.any),
                recovery: spend(self.recovery),
                load: self.load,
            },
            RebalanceType::LoadBalance => Quota {
                any: spend(self.any),
                recovery: self.recovery,
                load: spend(self.load),
            },
        }
    }
}

/// Every quota of `m` with a new limit for one kind of work.
pub open spec fn all_with(
    m: Map<Seq<char>, Quota>,
    kind: RebalanceType,
    limit: usize,
) -> Map<Seq<char>, Quota> {
    Map::new(|k: Seq<char>| m.dom().contains(k), |k: Seq<char>| m[k].with(kind, limit))
}

/// The quota of one key of `m` with a new limit, where `m` has the key.
pub open spec fn one_with(
    m: Map<Seq<char>, Quota>,
    key: Seq<char>,
    kind: RebalanceType,
    limit: usize,
) -> Map<Seq<char>, Quota> {
    if m.dom().contains(key) {
        m.insert(key, m[key].with(kind, limit))
    } else {
        m
    }
}

/// The quota of one key of `m` charged, where `m` has the key.
pub open spec fn one_charged(
    m: Map<Seq<char>, Quota>,
    key: Seq<char>,
    kind: RebalanceType,
) -> Map<Seq<char>, Quota> {
    if m.dom().contains(key) {
        m.insert(key, m[key].charged(kind))
    } else {
        m
    }
}

/// What is left of every quota.
#[verifier::ext_equal]
pub struct QuotasView {
    pub cluster: Quota,
    pub resources: Map<Seq<char>, Quota>,
    pub instances: Map<Seq<char>, Quota>,
}

impl QuotasView {
    /// The quotas before any configuration.
    pub open spec fn open_for(resources: Seq<Seq<char>>, live: Set<Seq<char>>) -> QuotasView {
        QuotasView {
            cluster: Quota::unlimited(),
            resources: Map::new(
                |r: Seq<char>| resources.contains(r),
                |r: Seq<char>| Quota::unlimited(),
            ),
            instances: Map::new(|i: Seq<char>| live.contains(i), |i: Seq<char>| Quota::unlimited()),
        }
    }

    /// The quotas with one more configuration.
    pub open spec fn configured(self, c: ThrottleView) -> QuotasView {
        match c.scope {
            ThrottleScope::Cluster => QuotasView {
                cluster: self.cluster.with(c.kind, c.limit),
                ..self
            },
            ThrottleScope::Resource => QuotasView {
                resources: match c.target {
                    Some(TargetView::Resource(r)) => one_with(self.resources, r, c.kind, c.limit),
                    _ => all_with(self.resources, c.kind, c.limit),
                },
                ..self
            },
            ThrottleScope::Instance => QuotasView {
                instances: match c.target {
                    Some(TargetView::Instance(i)) => one_with(self.instances, i, c.kind, c.limit),
                    _ => all_with(self.instances, c.kind, c.limit),
                },
                ..self
            },
        }
    }

    /// The quotas with the listed configurations, each later one prevailing.
    pub open spec fn configured_all(self, configs: Seq<ThrottleView>) -> QuotasView
        decreases configs.len(),
    {
        if configs.len() == 0 {
            self
        } else {
            self.configured_all(configs.drop_last()).configured(configs.last())
        }
    }

    /// Work of a kind on a replica has to wait.
    pub open spec fn throttles(
        self,
        kind: RebalanceType,
        resource: Seq<char>,
        instance: Seq<char>,
    ) -> bool {
        ||| self.cluster.exhausted(kind)
        ||| self.resources.dom().contains(resource) && self.resources[resource].exhausted(kind)
        ||| self.instances.dom().contains(instance) && self.instances[instance].exhausted(kind)
    }

    /// The quotas once work of a kind on a replica has begun.
    pub open spec fn charged(
        self,
        kind: RebalanceType,
        resource: Seq<char>,
        instance: Seq<char>,
    ) -> QuotasView {
        QuotasView {
            cluster: self.cluster.charged(kind),
            resources: one_charged(self.resources, resource, kind),
            instances: one_charged(self.instances, instance, kind),
        }
    }
}

/// What is left of every quota in one controller cycle.
pub struct ThrottleController {
    cluster: Quota,
    resources: OrderedMap<ResourceId, Quota>,
    instances: OrderedMap<InstanceId, Quota>,
}

impl View for ThrottleController {
    type V = QuotasView;

    closed spec fn view(&self) -> QuotasView {
        QuotasView {
            cluster: self.cluster,
            resources: self.resources@,
            instances: self.instances@,
        }
    }
}

fn set_all<K: Key + DeepView<V = Seq<char>>>(
    quotas: &OrderedMap<K, Quota>,
    kind: RebalanceType,
    limit: usize,
) -> (r: OrderedMap<K, Quota>)
    ensures
        r@ == all_with(quotas@, kind, limit),
{
    let ghost expected = all_with(quotas@, kind, limit);
    let mut out: OrderedMap<K, Quota> = OrderedMap::new();
    let n: usize = quotas.len();
    let ghost all = quotas.listing();
    let mut i: usize = 0;
    while i < n
        invariant
            i <= n,
            n == all.len(),
            all == quotas.listing(),
            expected == all_with(quotas@, kind, limit),
            ordered::lists::<K, Quota>(all, quotas@),
            forall|j: int|
                0 <= j < i ==> out@.dom().contains((#[trigger] all[j]).0) && out@[all[j].0]
                    == expected[all[j].0],
            forall|k: Seq<char>| #[trigger] out@.dom().contains(k) ==> expected.dom().contains(k),
        decreases n - i,
    {
        let ghost before = out@;
        let key = quotas.key_at(i);
        let quota: Quota = *quotas.value_at(i);
        out.insert(key.duplicate(), quota.set(kind, limit));
        proof {
            assert forall|j: int| 0 <= j < i + 1 implies out@.dom().contains((#[trigger] all[j]).0)
                && out@[all[j].0] == expected[all[j].0] by {
                if j < i {
                    assert(before.dom().contains(all[j].0));
                    ordered::keys_differ::<K, Quota>(all, j, i as int);
                }
            }
        }
        i = i + 1;
    }
    proof {
        assert forall|k: Seq<char>| expected.dom().contains(k) implies out@.dom().contains(k)
            && out@[k] == expected[k] by {
            let j = ordered::map_of_position(all, k);
            assert(out@.dom().contains(all[j].0));
        }
        assert(out@ =~= expected);
    }
    out
}

fn set_one<K: Key + DeepView<V = Seq<char>>>(
    quotas: &mut OrderedMap<K, Quota>,
    key: &K,
    kind: RebalanceType,
    limit: usize,
)
    ensures
        final(quotas)@ == one_with(old(quotas)@, key.deep_view(), kind, limit),
{
    let found: Option<Quota> = match quotas.get(key) {
        Some(quota) => Some(*quota),
        None => None,
    };
    if let Some(quota) = found {
        quotas.insert(key.duplicate(), quota.set(kind, limit));
    }
}

fn charge_one<K: Key + DeepView<V = Seq<char>>>(
    quotas: &mut OrderedMap<K, Quota>,
    key: &K,
    kind: RebalanceType,
)
    ensures
        final(quotas)@ == one_charged(old(quotas)@, key.deep_view(), kind),
{
    let found: Option<Quota> = match quotas.get(key) {
        Some(quota) => Some(*quota),
        None => None,
    };
    if let Some(quota) = found {
        quotas.insert(key.duplicate(), quota.charge(kind));
    }
}

impl ThrottleController {
    /// The quotas that the configurations give to the resources and to the
    /// live instances.
    pub fn new(
        resources: &Vec<ResourceId>,
        live_instances: &OrderedSet<InstanceId>,
        configs: &Vec<StateTransitionThrottleConfig>,
    ) -> (r: ThrottleController)
        ensures
            r@ == QuotasView::open_for(resources.deep_view(), live_instances@).configured_all(
                configs.deep_view(),
            ),
    {
        let ghost names = resources.deep_view();
        let ghost start = QuotasView::open_for(names, live_instances@);
        let mut by_resource: OrderedMap<ResourceId, Quota> = OrderedMap::new();
        let mut i: usize = 0;
        while i < resources.len()
            invariant
                i <= resources@.len(),
                names == resources.deep_view(),
                forall|k: Seq<char>| #[trigger]
                    by_resource@.dom().contains(k) ==> names.contains(k) && by_resource@[k]
                        == Quota::unlimited(),
                forall|j: int| 0 <= j < i ==> by_resource@.dom().contains(#[trigger] names[j]),
            decreases resources@.len() - i,
        {
            assert(names[i as int] == resources[i as int]@);
            by_resource.insert(resources[i].duplicate(), Quota::none());
            i = i + 1;
        }
        assert(by_resource@ =~= start.resources);
        let mut by_instance: OrderedMap<InstanceId, Quota> = OrderedMap::new();
        let n: usize = live_instances.len();
        let ghost live = live_instances.listing();
        let mut j: usize = 0;
        while j < n
            invariant
                j <= n,
                n == live.len(),
                live == live_instances.listing(),
                forall|k: Seq<char>| #[trigger]
                    by_instance@.dom().contains(k) ==> live_instances@.contains(k)
                        && by_instance@[k] == Quota::unlimited(),
                forall|a: int| 0 <= a < j ==> by_instance@.dom().contains(#[trigger] live[a]),
            decreases n - j,
        {
            by_instance.insert(live_instances.at(j).duplicate(), Quota::none());
            j = j + 1;
        }
        proof {
            assert forall|k: Seq<char>| live_instances@.contains(k) implies by_instance@.dom().contains(
                k,
            ) by {
                let a = live.index_of(k);
                assert(by_instance@.dom().contains(live[a]));
            }
            assert(by_instance@ =~= start.instances);
        }
        let mut controller = ThrottleController {
            cluster: Quota::none(),
            resources: by_resource,
            instances: by_instance,
        };
        let ghost all = configs.deep_view();
        let mut c: usize = 0;
        assert(all.take(0) =~= Seq::empty());
        assert(controller@ =~= start);
        while c < configs.len()
            invariant
                c <= configs@.len(),
                all == configs.deep_view(),
                controller@ == start.configured_all(all.take(c as int)),
            decreases configs@.len() - c,
        {
            let config = &configs[c];
            proof {
                assert(all.take(c + 1).drop_last() =~= all.take(c as int));
                assert(all.take(c + 1).last() == config@);
            }
            controller.configure(config);
            c = c + 1;
        }
        assert(all.take(configs@.len() as int) =~= all);
        controller
    }

    fn configure(&mut self, config: &StateTransitionThrottleConfig)
        ensures
            final(self)@ == old(self)@.configured(config@),
    {
        let kind = config.rebalance_type();
        let limit: usize = config.max_transitions();
        match config.scope() {
            ThrottleScope::Cluster => {
                self.cluster = self.cluster.set(kind, limit);
            },
            ThrottleScope::Resource => match config.target() {
                Some(ThrottleTarget::Resource(resource)) => {
                    set_one(&mut self.resources, resource, kind, limit);
                },
                _ => {
                    self.resources = set_all(&self.resources, kind, limit);
                },
            },
            ThrottleScope::Instance => match config.target() {
                Some(ThrottleTarget::Instance(instance)) => {
                    set_one(&mut self.instances, instance, kind, limit);
                },
                _ => {
                    self.instances = set_all(&self.instances, kind, limit);
                },
            },
        }
    }

    /// Whether work of a kind on a replica has to wait.
    pub fn should_throttle(
        &self,
        rebalance_type: RebalanceType,
        resource: &ResourceId,
        instance: &InstanceId,
    ) -> (r: bool)
        ensures
            r == self@.throttles(rebalance_type, resource@, instance@),
    {
        if self.cluster.is_exhausted(rebalance_type) {
            return true;
        }
        if let Some(quota) = self.resources.get(resource) {
            if quota.is_exhausted(rebalance_type) {
                return true;
            }
        }
        if let Some(quota) = self.instances.get(instance) {
            if quota.is_exhausted(rebalance_type) {
                return true;
            }
        }
        false
    }

    /// Count work of a kind on a replica against the quotas.
    pub fn charge(
        &mut self,
        rebalance_type: RebalanceType,
        resource: &ResourceId,
        instance: &InstanceId,
    )
        ensures
            final(self)@ == old(self)@.charged(rebalance_type, resource@, instance@),
    {
        self.cluster = self.cluster.charge(rebalance_type);
        charge_one(&mut self.resources, resource, rebalance_type);
        charge_one(&mut self.instances, instance, rebalance_type);
    }
}

impl ThrottleView {
    /// Within its scope, the configuration is for the replicas of a resource on
    /// an instance: it is for all of them, or names the resource or the
    /// instance.
    pub open spec fn applies(self, resource: Seq<char>, instance: Seq<char>) -> bool {
        match (self.scope, self.target) {
            (ThrottleScope::Resource, Some(TargetView::Resource(r))) => r == resource,
            (ThrottleScope::Instance, Some(TargetView::Instance(i))) => i == instance,
            _ => true,
        }
    }
}

/// The limit for a scope and kind of work on a replica: that of the last
/// configuration for them.
pub open spec fn limit_for(
    configs: Seq<ThrottleView>,
    scope: ThrottleScope,
    kind: RebalanceType,
    resource: Seq<char>,
    instance: Seq<char>,
) -> Option<usize>
    decreases configs.len(),
{
    if configs.len() == 0 {
        None
    } else {
        let c = configs.last();
        if c.scope == scope && c.kind == kind && c.applies(resource, instance) {
            Some(c.limit)
        } else {
            limit_for(configs.drop_last(), scope, kind, resource, instance)
        }
    }
}

/// There is a limit, and `n` has reached it.
pub open spec fn reached(limit: Option<usize>, n: nat) -> bool {
    match limit {
        Some(limit) => n >= limit,
        None => false,
    }
}

/// What `n` transitions leave of a limit.
pub open spec fn remaining(limit: Option<usize>, n: nat) -> Option<usize> {
    match limit {
        Some(limit) => Some(
            if n < limit {
                (limit - n) as usize
            } else {
                0
            },
        ),
        None => None,
    }
}

impl QuotasView {
    /// The quotas once work of a kind on a replica has begun `n` times.
    pub open spec fn charged_times(
        self,
        kind: RebalanceType,
        resource: Seq<char>,
        instance: Seq<char>,
        n: nat,
    ) -> QuotasView
        decreases n,
    {
        if n == 0 {
            self
        } else {
            self.charged_times(kind, resource, instance, (n - 1) as nat).charged(
                kind,
                resource,
                instance,
            )
        }
    }

    /// The quotas have a place for the replica.
    pub open spec fn knows(self, resource: Seq<char>, instance: Seq<char>) -> bool {
        self.resources.dom().contains(resource) && self.instances.dom().contains(instance)
    }

    /// What is left for a scope and kind of work on a replica.
    pub open spec fn left(
        self,
        scope: ThrottleScope,
        kind: RebalanceType,
        resource: Seq<char>,
        instance: Seq<char>,
    ) -> Option<usize> {
        match scope {
            ThrottleScope::Cluster => self.cluster.left(kind),
            ThrottleScope::Resource => self.resources[resource].left(kind),
            ThrottleScope::Instance => self.instances[instance].left(kind),
        }
    }
}

/// Of several configurations for one scope and kind of work on a replica, the
/// last sets the limit. A scope and kind without one has no limit.
pub proof fn last_configuration_sets_limit(
    resources: Seq<Seq<char>>,
    live: Set<Seq<char>>,
    configs: Seq<ThrottleView>,
    scope: ThrottleScope,
    kind: RebalanceType,
    resource: Seq<char>,
    instance: Seq<char>,
)
    requires
        resources.contains(resource),
        live.contains(instance),
    ensures
        ({
            let quotas = QuotasView::open_for(resources, live).configured_all(configs);
            &&& quotas.knows(resource, instance)
            &&& quotas.left(scope, kind, resource, instance) == limit_for(
                configs,
                scope,
                kind,
                resource,
                instance,
            )
        }),
    decreases configs.len(),
{
    if configs.len() > 0 {
        last_configuration_sets_limit(
            resources,
            live,
            configs.drop_last(),
            scope,
            kind,
            resource,
            instance,
        );
    }
}

/// Every start of work lowers by one what is left for any work and for its own
/// kind, in each of the scopes, down to nothing and no further. What is left
/// for other kinds stays.
pub proof fn charges_lower_limits(
    quotas: QuotasView,
    scope: ThrottleScope,
    kind: RebalanceType,
    charged: RebalanceType,
    resource: Seq<char>,
    instance: Seq<char>,
    n: nat,
)
    requires
        quotas.knows(resource, instance),
    ensures
        ({
            let after = quotas.charged_times(charged, resource, instance, n);
            let before = quotas.left(scope, kind, resource, instance);
            &&& after.knows(resource, instance)
            &&& after.left(scope, kind, resource, instance) == if kind == RebalanceType::Any || kind
                == charged {
                remaining(before, n)
            } else {
                before
            }
        }),
    decreases n,
{
    if n > 0 {
        charges_lower_limits(
            quotas,
            scope,
            kind,
            charged,
            resource,
            instance,
            (n - 1) as nat,
        );
    }
}

/// Once work of one kind on one replica has begun `n` times, more of it has to
/// wait exactly when `n` has reached the limit of some scope, for any work or
/// for that kind.
pub proof fn throttled_once_limits_are_reached(
    resources: Seq<Seq<char>>,
    live: Set<Seq<char>>,
    configs: Seq<ThrottleView>,
    kind: RebalanceType,
    resource: Seq<char>,
    instance: Seq<char>,
    n: nat,
)
    requires
        resources.contains(resource),
        live.contains(instance),
    ensures
        QuotasView::open_for(resources, live).configured_all(configs).charged_times(
            kind,
            resource,
            instance,
            n,
        ).throttles(kind, resource, instance) <==> exists|
            scope: ThrottleScope,
            of: RebalanceType,
        |
            (of == RebalanceType::Any || of == kind) && reached(
                #[trigger] limit_for(configs, scope, of, resource, instance),
                n,
            ),
{
    let quotas = QuotasView::open_for(resources, live).configured_all(configs);
    let after = quotas.charged_times(kind, resource, instance, n);
    assert forall|scope: ThrottleScope, of: RebalanceType|
        of == RebalanceType::Any || of == kind implies (after.left(scope, of, resource, instance)
        == Some(0usize)) == reached(
        #[trigger] limit_for(configs, scope, of, resource, instance),
        n,
    ) by {
        last_configuration_sets_limit(resources, live, configs, scope, of, resource, instance);
        charges_lower_limits(quotas, scope, of, kind, resource, instance, n);
    }
    last_configuration_sets_limit(
        resources,
        live,
        configs,
        ThrottleScope::Cluster,
        kind,
        resource,
        instance,
    );
    charges_lower_limits(quotas, ThrottleScope::Cluster, kind, kind, resource, instance, n);
    let limit = |scope: ThrottleScope, of: RebalanceType|
        limit_for(configs, scope, of, resource, instance);
    let any = RebalanceType::Any;
    assert(after.cluster.exhausted(kind) == (reached(limit(ThrottleScope::Cluster, any), n)
        || reached(limit(ThrottleScope::Cluster, kind), n)));
    assert(after.resources[resource].exhausted(kind) == (reached(
        limit(ThrottleScope::Resource, any),
        n,
    ) || reached(limit(ThrottleScope::Resource, kind), n)));
    assert(after.instances[instance].exhausted(kind) == (reached(
        limit(ThrottleScope::Instance, any),
        n,
    ) || reached(limit(ThrottleScope::Instance, kind), n)));
}

} // verus!
