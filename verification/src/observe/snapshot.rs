//! The semantic cluster state exposed to operators and verification tools.
use crate::controller::published::{self, PublishedTransition};
use crate::controller::records::{self, Decoded};
use crate::controller::runtime;
use crate::controller::view_json::{self, ResourceRow};
use crate::coordination::etcd::error::CoordinationFault;
use crate::coordination::etcd::snapshot;
use crate::coordination::etcd::{CoordinationError, CoordinationSnapshot, Revision};
use crate::model::replica_state;
use crate::model::session;
use crate::model::{
    ActiveCurrentState, CurrentState, ExternalView, InstanceId, LiveInstance, PartitionId,
    ResourceId, State,
};
use crate::observe::view;
use crate::ordered::{self, Duplicate, Key, OrderedMap, OrderedSet};
use crate::routing::{self, RoutingSnapshot};
use crate::text;
use vstd::prelude::*;
use vstd::string::*;

verus! {

/// Controller membership observed from lease-backed election records.
#[derive(Clone, Debug, PartialEq, Eq)]
pub struct ControllerMembership {
    pub active: Vec<String>,
    pub standby: Vec<String>,
}

impl ControllerMembership {
    /// Return the active controller, if one is elected.
    pub fn active(&self) -> (r: Option<&str>)
        ensures
            match r {
                Some(controller) => self.active@.len() > 0 && controller@ == self.active@[0]@,
                None => self.active@.len() == 0,
            },
    {
        if self.active.len() > 0 {
            Some(self.active[0].as_str())
        } else {
            None
        }
    }

    /// Return standby controller candidates.
    pub fn standby(&self) -> (r: &Vec<String>)
        ensures
            r@ == self.standby@,
    {
        &self.standby
    }
}

/// The names that are not this one, in their order.
pub open spec fn without(names: Seq<Seq<char>>, name: Option<Seq<char>>) -> Seq<Seq<char>>
    decreases names.len(),
{
    if names.len() == 0 {
        Seq::empty()
    } else {
        let before = without(names.drop_last(), name);
        if name == Some(names.last()) {
            before
        } else {
            before.push(names.last())
        }
    }
}

/// The active controller.
pub open spec fn active_in(election: snapshot::ElectionView) -> Option<Seq<char>> {
    match election.active {
        Some((controller, _)) => Some(controller),
        None => None,
    }
}

/// The candidates that are not active, by increasing name.
pub open spec fn standby_in(election: snapshot::ElectionView) -> Seq<Seq<char>> {
    without(ordered::keys_in_order::<String, i64>(election.candidates), active_in(election))
}

/// The active controller and its standby candidates.
pub fn controllers(snapshot: &CoordinationSnapshot) -> (r: ControllerMembership)
    ensures
        match active_in(snapshot@.election) {
            Some(controller) => r.active.deep_view() == seq![controller],
            None => r.active.deep_view() == Seq::<Seq<char>>::empty(),
        },
        r.standby.deep_view() == standby_in(snapshot@.election),
{
    let ghost name = active_in(snapshot@.election);
    let mut active: Vec<String> = Vec::new();
    if let Some((controller, _)) = snapshot.controller_election().active() {
        active.push(controller.to_owned());
        assert(active.deep_view() =~= seq![controller@]);
    } else {
        assert(active.deep_view() =~= Seq::<Seq<char>>::empty());
    }
    let candidates = snapshot.controller_election().candidates();
    let ghost all = candidates.listing();
    let ghost names = ordered::keys_in_order::<String, i64>(candidates@);
    let n: usize = candidates.len();
    let mut standby: Vec<String> = Vec::new();
    let mut i: usize = 0;
    proof {
        assert(names.take(0) =~= Seq::empty());
        assert(standby.deep_view() =~= Seq::empty());
    }
    while i < n
        invariant
            i <= n,
            n == all.len(),
            all == candidates.listing(),
            names == ordered::keys_in_order::<String, i64>(candidates@),
            names.len() == n,
            active@.len() <= 1,
            name is Some <==> active@.len() == 1,
            name is Some ==> name == Some(active@[0]@),
            standby.deep_view() == without(names.take(i as int), name),
        decreases n - i,
    {
        let candidate = candidates.key_at(i);
        let ghost before = standby.deep_view();
        proof {
            assert(names.take(i + 1).drop_last() =~= names.take(i as int));
            assert(names.take(i + 1).last() == candidate@);
        }
        let is_active = active.len() > 0 && candidate.same(&active[0]);
        if !is_active {
            standby.push(candidate.clone());
            assert(standby.deep_view() =~= before.push(candidate@));
        }
        i = i + 1;
    }
    assert(names.take(n as int) =~= names);
    ControllerMembership { active, standby }
}

/// Read-only view over live participant membership.
pub struct InstanceMembership<'a> {
    live_instances: &'a OrderedMap<String, u64>,
}

impl<'a> InstanceMembership<'a> {
    /// The session of each live instance.
    pub closed spec fn sessions(&self) -> Map<Seq<char>, u64> {
        self.live_instances@
    }

    /// Return the number of configured live instances in this observation.
    pub fn len(&self) -> (r: usize)
        ensures
            r == ordered::in_order::<String, u64>(self.sessions()).len(),
            ordered::lists::<String, u64>(
                ordered::in_order::<String, u64>(self.sessions()),
                self.sessions(),
            ),
    {
        self.live_instances.len()
    }

    /// Return whether no configured instances are live in this observation.
    pub fn is_empty(&self) -> (r: bool)
        ensures
            r == (self.sessions() == Map::<Seq<char>, u64>::empty()),
    {
        self.live_instances.is_empty()
    }

    /// Return whether an instance currently has a live session.
    pub fn is_live(&self, instance: &str) -> (r: bool)
        ensures
            r == self.sessions().dom().contains(instance@),
    {
        self.live_instances.contains_key(&instance.to_owned())
    }
}

/// What was observed of the states of one session.
#[verifier::ext_equal]
pub struct ActiveStates {
    pub session: u64,
    pub resources: Map<Seq<char>, Map<Seq<char>, Seq<char>>>,
}

/// CurrentState records belonging to a live participant session.
#[derive(Clone, Debug, PartialEq, Eq)]
pub struct ActiveCurrentStateObservation {
    pub session: u64,
    pub resources: OrderedMap<String, OrderedMap<String, String>>,
}

impl DeepView for ActiveCurrentStateObservation {
    type V = ActiveStates;

    open spec fn deep_view(&self) -> ActiveStates {
        ActiveStates { session: self.session, resources: self.resources@ }
    }
}

impl Duplicate for ActiveCurrentStateObservation {
    fn duplicate(&self) -> (r: Self) {
        ActiveCurrentStateObservation {
            session: self.session,
            resources: self.resources.duplicate(),
        }
    }
}

/// The state of each partition that has one: that of its last instance.
pub open spec fn last_states(m: replica_state::Replicas) -> Map<Seq<char>, Seq<char>> {
    Map::new(
        |p: Seq<char>|
            m.dom().contains(p) && ordered::in_order::<InstanceId, Seq<char>>(m[p]).len() > 0,
        |p: Seq<char>| ordered::in_order::<InstanceId, Seq<char>>(m[p]).last().1,
    )
}

/// The states of a session.
pub open spec fn states_of_session(active: (u64, session::Resources)) -> ActiveStates {
    ActiveStates {
        session: active.0,
        resources: Map::new(
            |r: Seq<char>| active.1.dom().contains(r),
            |r: Seq<char>| last_states(active.1[r]),
        ),
    }
}

/// The states of every live session.
pub open spec fn states_in(active: Map<Seq<char>, (u64, session::Resources)>) -> Map<
    Seq<char>,
    ActiveStates,
> {
    Map::new(
        |i: Seq<char>| active.dom().contains(i),
        |i: Seq<char>| states_of_session(active[i]),
    )
}

fn partition_states(current: &CurrentState) -> (r: OrderedMap<String, String>)
    ensures
        r@ == last_states(current@),
{
    let entries = current.entries();
    let ghost all = entries.listing();
    let n: usize = entries.len();
    let mut out: OrderedMap<String, String> = OrderedMap::new();
    let mut i: usize = 0;
    proof {
        ordered::map_of_ends(all);
        assert(out@ =~= last_states(ordered::map_of(all.take(0))));
    }
    while i < n
        invariant
            i <= n,
            n == all.len(),
            all == entries.listing(),
            ordered::lists::<PartitionId, Map<Seq<char>, Seq<char>>>(all, entries@),
            out@ == last_states(ordered::map_of(all.take(i as int))),
        decreases n - i,
    {
        let replicas = entries.value_at(i);
        let count: usize = replicas.len();
        proof {
            ordered::map_of_step::<PartitionId, Map<Seq<char>, Seq<char>>>(all, i as int);
        }
        if count > 0 {
            out.insert(entries.key_at(i).to_string(), replicas.value_at(count - 1).to_string());
        }
        assert(out@ =~= last_states(ordered::map_of(all.take(i + 1))));
        i = i + 1;
    }
    proof {
        ordered::map_of_ends(all);
    }
    out
}

fn session_states(active: &ActiveCurrentState) -> (r: ActiveCurrentStateObservation)
    ensures
        r.deep_view() == states_of_session(active@),
{
    let resources = active.resources();
    let ghost all = resources.listing();
    let n: usize = resources.len();
    let mut out: OrderedMap<String, OrderedMap<String, String>> = OrderedMap::new();
    let mut i: usize = 0;
    proof {
        ordered::map_of_ends(all);
        assert(out@ =~= states_of_session((active@.0, ordered::map_of(all.take(0)))).resources);
    }
    while i < n
        invariant
            i <= n,
            n == all.len(),
            all == resources.listing(),
            ordered::lists::<ResourceId, replica_state::Replicas>(all, resources@),
            out@ == states_of_session((active@.0, ordered::map_of(all.take(i as int)))).resources,
        decreases n - i,
    {
        proof {
            ordered::map_of_step::<ResourceId, replica_state::Replicas>(all, i as int);
        }
        out.insert(resources.key_at(i).to_string(), partition_states(resources.value_at(i)));
        assert(out@ =~= states_of_session((active@.0, ordered::map_of(all.take(i + 1)))).resources);
        i = i + 1;
    }
    proof {
        ordered::map_of_ends(all);
    }
    ActiveCurrentStateObservation { session: active.session_id().wire_value(), resources: out }
}

/// The states of every live session.
pub fn active_current_state(snapshot: &CoordinationSnapshot) -> (r: OrderedMap<
    String,
    ActiveCurrentStateObservation,
>)
    ensures
        r@ == states_in(snapshot@.participants.active),
{
    let active = snapshot.participants().active_current_state();
    let ghost all = active.listing();
    let n: usize = active.len();
    let mut out: OrderedMap<String, ActiveCurrentStateObservation> = OrderedMap::new();
    let mut i: usize = 0;
    proof {
        ordered::map_of_ends(all);
        assert(out@ =~= states_in(ordered::map_of(all.take(0))));
    }
    while i < n
        invariant
            i <= n,
            n == all.len(),
            all == active.listing(),
            ordered::lists::<InstanceId, (u64, session::Resources)>(all, active@),
            out@ == states_in(ordered::map_of(all.take(i as int))),
        decreases n - i,
    {
        proof {
            ordered::map_of_step::<InstanceId, (u64, session::Resources)>(all, i as int);
        }
        out.insert(active.key_at(i).to_string(), session_states(active.value_at(i)));
        assert(out@ =~= states_in(ordered::map_of(all.take(i + 1))));
        i = i + 1;
    }
    proof {
        ordered::map_of_ends(all);
    }
    out
}

fn live_sessions(live: &OrderedMap<InstanceId, LiveInstance>) -> (r: OrderedMap<String, u64>)
    ensures
        r@ == runtime::sessions_of(live@),
{
    let ghost all = live.listing();
    let n: usize = live.len();
    let mut out: OrderedMap<String, u64> = OrderedMap::new();
    let mut i: usize = 0;
    proof {
        ordered::map_of_ends(all);
        assert(out@ =~= runtime::sessions_of(ordered::map_of(all.take(0))));
    }
    while i < n
        invariant
            i <= n,
            n == all.len(),
            all == live.listing(),
            ordered::lists::<InstanceId, (Seq<char>, u64)>(all, live@),
            out@ == runtime::sessions_of(ordered::map_of(all.take(i as int))),
        decreases n - i,
    {
        proof {
            ordered::map_of_step::<InstanceId, (Seq<char>, u64)>(all, i as int);
        }
        out.insert(live.key_at(i).to_string(), live.value_at(i).session_id().wire_value());
        assert(out@ =~= runtime::sessions_of(ordered::map_of(all.take(i + 1))));
        i = i + 1;
    }
    proof {
        ordered::map_of_ends(all);
    }
    out
}

/// The configured instances that decoded records name.
pub open spec fn configured_in(decoded: records::DecodedView<Seq<Seq<char>>>) -> Result<
    Set<Seq<char>>,
    CoordinationFault,
> {
    match decoded {
        records::DecodedView::Missing => Ok(Set::empty()),
        records::DecodedView::Malformed(_) => Err(CoordinationFault::InvalidValue),
        records::DecodedView::Value(names) => if names.contains(Seq::empty()) {
            Err(CoordinationFault::InvalidKey)
        } else {
            Ok(Set::new(|name: Seq<char>| names.contains(name)))
        },
    }
}

/// The configured instances that decoded records name.
pub fn configured_instances(decoded: &Decoded<Vec<String>>) -> (r: Result<
    OrderedSet<InstanceId>,
    CoordinationError,
>)
    ensures
        match (r, configured_in(decoded@)) {
            (Ok(instances), Ok(model)) => instances@ == model,
            (Err(error), Err(fault)) => error@ == fault,
            _ => false,
        },
{
    match decoded {
        Decoded::Missing => Ok(OrderedSet::new()),
        Decoded::Malformed(_) => Err(CoordinationError::InvalidValue),
        Decoded::Value(names) => match instance_set(names) {
            Some(instances) => Ok(instances),
            None => Err(CoordinationError::InvalidKey),
        },
    }
}

/// The instances with these names, unless a name is empty.
fn instance_set(names: &Vec<String>) -> (r: Option<OrderedSet<InstanceId>>)
    ensures
        match r {
            Some(instances) => !names.deep_view().contains(Seq::empty()) && instances@ == Set::new(
                |name: Seq<char>| names.deep_view().contains(name),
            ),
            None => names.deep_view().contains(Seq::empty()),
        },
{
    let ghost all = names.deep_view();
    let mut instances: OrderedSet<InstanceId> = OrderedSet::new();
    let mut i: usize = 0;
    while i < names.len()
        invariant
            i <= names@.len(),
            all == names.deep_view(),
            forall|j: int| 0 <= j < i ==> (#[trigger] all[j]).len() > 0,
            forall|name: Seq<char>| #[trigger]
                instances@.contains(name) == all.take(i as int).contains(name),
        decreases names@.len() - i,
    {
        assert(all[i as int] == names@[i as int]@);
        match InstanceId::new(names[i].as_str()) {
            Ok(instance) => {
                instances.insert(instance);
            },
            Err(_) => {
                assert(all[i as int] =~= Seq::empty());
                return None;
            },
        }
        proof {
            let shorter = all.take(i as int);
            let longer = all.take(i + 1);
            assert forall|name: Seq<char>|
                longer.contains(name) == (shorter.contains(name) || name == all[i as int]) by {
                if shorter.contains(name) {
                    let j = shorter.index_of(name);
                    assert(longer[j] == name);
                }
                if name == all[i as int] {
                    assert(longer[i as int] == name);
                }
                if longer.contains(name) && name != all[i as int] {
                    let j = longer.index_of(name);
                    assert(shorter[j] == name);
                }
            }
        }
        i = i + 1;
    }
    proof {
        assert(all.take(i as int) =~= all);
        if all.contains(Seq::empty()) {
            let j = all.index_of(Seq::empty());
            assert(all[j].len() > 0);
        }
        assert(instances@ =~= Set::new(|name: Seq<char>| all.contains(name)));
    }
    Some(instances)
}

/// One routing result.
#[verifier::ext_equal]
pub struct Route {
    pub resource: Seq<char>,
    pub partition: Seq<char>,
    pub state: Seq<char>,
    pub instances: Seq<Seq<char>>,
}

/// One routing result derived from the observed ExternalView.
#[derive(Clone, Debug, PartialEq, Eq)]
pub struct RoutingResult {
    pub resource: String,
    pub partition: String,
    pub state: String,
    pub instances: Vec<String>,
}

impl DeepView for RoutingResult {
    type V = Route;

    open spec fn deep_view(&self) -> Route {
        Route {
            resource: self.resource@,
            partition: self.partition@,
            state: self.state@,
            instances: self.instances.deep_view(),
        }
    }
}

impl Duplicate for RoutingResult {
    fn duplicate(&self) -> (r: Self) {
        RoutingResult {
            resource: self.resource.clone(),
            partition: self.partition.clone(),
            state: self.state.clone(),
            instances: self.instances.duplicate(),
        }
    }
}

/// The states that some instance is in.
pub open spec fn occupied(replicas: Map<Seq<char>, Seq<char>>) -> Set<Seq<char>> {
    Set::new(|s: Seq<char>| exists|i: Seq<char>| #[trigger] replicas.dom().contains(i) && replicas[i] == s)
}

/// The routes of a partition: one for each state that some instance is in, by
/// increasing state.
pub open spec fn partition_routes(
    resource: Seq<char>,
    partition: Seq<char>,
    replicas: Map<Seq<char>, Seq<char>>,
    configured: Set<Seq<char>>,
) -> Seq<Route> {
    let states = ordered::members_in_order::<State>(occupied(replicas));
    Seq::new(
        states.len(),
        |i: int|
            Route {
                resource,
                partition,
                state: states[i],
                instances: routing::routed(replicas, configured, states[i]),
            },
    )
}

/// The routes of the partitions of a resource.
pub open spec fn resource_routes(
    resource: Seq<char>,
    partitions: Seq<(Seq<char>, Map<Seq<char>, Seq<char>>)>,
    configured: Set<Seq<char>>,
) -> Seq<Route>
    decreases partitions.len(),
{
    if partitions.len() == 0 {
        Seq::empty()
    } else {
        resource_routes(resource, partitions.drop_last(), configured) + partition_routes(
            resource,
            partitions.last().0,
            partitions.last().1,
            configured,
        )
    }
}

/// The routes of resources.
pub open spec fn routes_in(
    resources: Seq<(Seq<char>, replica_state::Replicas)>,
    configured: Set<Seq<char>>,
) -> Seq<Route>
    decreases resources.len(),
{
    if resources.len() == 0 {
        Seq::empty()
    } else {
        routes_in(resources.drop_last(), configured) + resource_routes(
            resources.last().0,
            ordered::in_order::<PartitionId, Map<Seq<char>, Seq<char>>>(resources.last().1),
            configured,
        )
    }
}

/// The routes of an external view.
pub open spec fn routes(view: session::Resources, configured: Set<Seq<char>>) -> Seq<Route> {
    routes_in(ordered::in_order::<ResourceId, replica_state::Replicas>(view), configured)
}

fn occupied_states(replicas: &OrderedMap<InstanceId, State>) -> (r: OrderedSet<State>)
    ensures
        r@ == occupied(replicas@),
{
    let ghost all = replicas.listing();
    let n: usize = replicas.len();
    let mut states: OrderedSet<State> = OrderedSet::new();
    let mut i: usize = 0;
    while i < n
        invariant
            i <= n,
            n == all.len(),
            all == replicas.listing(),
            ordered::lists::<InstanceId, Seq<char>>(all, replicas@),
            forall|s: Seq<char>| #[trigger]
                states@.contains(s) ==> occupied(replicas@).contains(s),
            forall|j: int| 0 <= j < i ==> states@.contains((#[trigger] all[j]).1),
        decreases n - i,
    {
        let instance = replicas.key_at(i);
        assert(replicas@.dom().contains(instance@));
        states.insert(replicas.value_at(i).duplicate());
        i = i + 1;
    }
    proof {
        assert forall|s: Seq<char>| occupied(replicas@).contains(s) implies states@.contains(s) by {
            let k = choose|k: Seq<char>| #[trigger]
                replicas@.dom().contains(k) && replicas@[k] == s;
            let j = ordered::map_of_position(all, k);
            assert(all[j].1 == s);
        }
        assert(states@ =~= occupied(replicas@));
    }
    states
}

fn names_of(instances: &Vec<InstanceId>) -> (r: Vec<String>)
    ensures
        r.deep_view() == instances.deep_view(),
{
    let ghost all = instances.deep_view();
    let mut names: Vec<String> = Vec::new();
    let mut i: usize = 0;
    assert(names.deep_view() =~= all.take(0));
    while i < instances.len()
        invariant
            i <= instances@.len(),
            all == instances.deep_view(),
            names.deep_view() == all.take(i as int),
        decreases instances@.len() - i,
    {
        let ghost before = names.deep_view();
        names.push(instances[i].to_string());
        proof {
            assert(names.deep_view() =~= before.push(all[i as int]));
            assert(all.take(i + 1) =~= all.take(i as int).push(all[i as int]));
        }
        i = i + 1;
    }
    assert(all.take(i as int) =~= all);
    names
}

fn push_partition(
    out: &mut Vec<RoutingResult>,
    resource: &ResourceId,
    partition: &PartitionId,
    replicas: &OrderedMap<InstanceId, State>,
    routing: &RoutingSnapshot,
)
    requires
        routing@.states.dom().contains(resource@),
        routing@.states[resource@].dom().contains(partition@),
        routing@.states[resource@][partition@] == replicas@,
    ensures
        final(out).deep_view() == old(out).deep_view() + partition_routes(
            resource@,
            partition@,
            replicas@,
            routing@.configured,
        ),
{
    let states = occupied_states(replicas);
    let ghost listed = states.listing();
    let ghost start = out.deep_view();
    let ghost all = partition_routes(resource@, partition@, replicas@, routing@.configured);
    let n: usize = states.len();
    let mut i: usize = 0;
    assert(start + all.take(0) =~= start);
    while i < n
        invariant
            i <= n,
            n == listed.len(),
            listed == states.listing(),
            listed == ordered::members_in_order::<State>(occupied(replicas@)),
            all == partition_routes(resource@, partition@, replicas@, routing@.configured),
            routing@.states.dom().contains(resource@),
            routing@.states[resource@].dom().contains(partition@),
            routing@.states[resource@][partition@] == replicas@,
            out.deep_view() == start + all.take(i as int),
        decreases n - i,
    {
        let state = states.at(i);
        let ghost before = out.deep_view();
        let routed = routing.instances_for(resource, partition, state);
        let result = RoutingResult {
            resource: resource.to_string(),
            partition: partition.to_string(),
            state: state.to_string(),
            instances: names_of(&routed),
        };
        let ghost route = result.deep_view();
        out.push(result);
        proof {
            assert(route == all[i as int]);
            assert(out.deep_view() =~= before.push(route));
            assert(start + all.take(i + 1) =~= (start + all.take(i as int)).push(all[i as int]));
        }
        i = i + 1;
    }
    assert(all.take(n as int) =~= all);
}

fn push_resource(
    out: &mut Vec<RoutingResult>,
    resource: &ResourceId,
    partitions: &OrderedMap<PartitionId, OrderedMap<InstanceId, State>>,
    routing: &RoutingSnapshot,
)
    requires
        routing@.states.dom().contains(resource@),
        routing@.states[resource@] == partitions@,
    ensures
        final(out).deep_view() == old(out).deep_view() + resource_routes(
            resource@,
            ordered::in_order::<PartitionId, Map<Seq<char>, Seq<char>>>(partitions@),
            routing@.configured,
        ),
{
    let ghost all = partitions.listing();
    let ghost start = out.deep_view();
    let n: usize = partitions.len();
    let mut i: usize = 0;
    proof {
        assert(all.take(0) =~= Seq::empty());
        assert(start + Seq::<Route>::empty() =~= start);
    }
    while i < n
        invariant
            i <= n,
            n == all.len(),
            all == partitions.listing(),
            ordered::lists::<PartitionId, Map<Seq<char>, Seq<char>>>(all, partitions@),
            routing@.states.dom().contains(resource@),
            routing@.states[resource@] == partitions@,
            out.deep_view() == start + resource_routes(
                resource@,
                all.take(i as int),
                routing@.configured,
            ),
        decreases n - i,
    {
        proof {
            assert(all.take(i + 1).drop_last() =~= all.take(i as int));
            assert(all.take(i + 1).last() == all[i as int]);
        }
        let partition = partitions.key_at(i);
        push_partition(out, resource, partition, partitions.value_at(i), routing);
        assert(out.deep_view() =~= start + resource_routes(
            resource@,
            all.take(i + 1),
            routing@.configured,
        ));
        i = i + 1;
    }
    assert(all.take(n as int) =~= all);
}

/// The routes of a routing table.
pub fn routing_results(routing: &RoutingSnapshot) -> (r: Vec<RoutingResult>)
    ensures
        r.deep_view() == routes(routing@.states, routing@.configured),
{
    let resources = routing.external_view().entries();
    let ghost all = resources.listing();
    let n: usize = resources.len();
    let mut out: Vec<RoutingResult> = Vec::new();
    let mut i: usize = 0;
    proof {
        assert(all.take(0) =~= Seq::empty());
        assert(out.deep_view() =~= Seq::<Route>::empty());
    }
    while i < n
        invariant
            i <= n,
            n == all.len(),
            all == resources.listing(),
            ordered::lists::<ResourceId, replica_state::Replicas>(all, resources@),
            resources@ == routing@.states,
            out.deep_view() == routes_in(all.take(i as int), routing@.configured),
        decreases n - i,
    {
        proof {
            assert(all.take(i + 1).drop_last() =~= all.take(i as int));
            assert(all.take(i + 1).last() == all[i as int]);
        }
        let resource = resources.key_at(i);
        push_resource(&mut out, resource, resources.value_at(i), routing);
        i = i + 1;
    }
    assert(all.take(n as int) =~= all);
    out
}

/// The store revision represented by one observer observation.
#[derive(Clone, Copy, Debug, PartialEq, Eq, Structural, PartialOrd, Ord)]
pub struct ObserverRevision(i64);

impl View for ObserverRevision {
    type V = i64;

    closed spec fn view(&self) -> i64 {
        self.0
    }
}

impl DeepView for ObserverRevision {
    type V = i64;

    open spec fn deep_view(&self) -> i64 {
        self@
    }
}

impl ObserverRevision {
    /// The revision of an observation.
    pub fn from_revision(revision: Revision) -> (r: ObserverRevision)
        ensures
            r@ == revision@,
    {
        ObserverRevision(revision.value())
    }

    /// Construct an observation revision for fixtures and persisted evidence.
    pub fn from_value(value: i64) -> (r: ObserverRevision)
        ensures
            r@ == value,
    {
        ObserverRevision(value)
    }

    /// Return the store revision.
    pub fn value(self) -> (r: i64)
        ensures
            r == self@,
    {
        self.0
    }

    /// The later of two revisions.
    pub fn later(self, other: ObserverRevision) -> (r: ObserverRevision)
        ensures
            r@ == if self@ >= other@ {
                self@
            } else {
                other@
            },
    {
        if self.0 >= other.0 {
            self
        } else {
            other
        }
    }
}

/// What one observation says.
#[verifier::ext_equal]
pub struct ClusterView {
    pub observer: i64,
    pub authoritative: i64,
    pub processed: Option<i64>,
    pub active: Seq<Seq<char>>,
    pub standby: Seq<Seq<char>>,
    pub live: Map<Seq<char>, u64>,
    pub states: Map<Seq<char>, ActiveStates>,
    pub external: Option<view_json::ViewRows>,
    pub pending: Seq<published::PublishedView>,
    pub routes: Seq<Route>,
}

/// The semantic cluster state exposed to operators and verification tools.
pub struct ClusterSnapshot {
    pub observer_revision: ObserverRevision,
    pub authoritative_revision: ObserverRevision,
    pub processed_revision: Option<ObserverRevision>,
    pub controllers: ControllerMembership,
    pub live_instances: OrderedMap<String, u64>,
    pub active_current_state: OrderedMap<String, ActiveCurrentStateObservation>,
    /// The rows of the external view, where the published value is one.
    pub external_view: Option<Vec<ResourceRow>>,
    pub pending_transitions: Vec<PublishedTransition>,
    pub routing_results: Vec<RoutingResult>,
}

impl View for ClusterSnapshot {
    type V = ClusterView;

    open spec fn view(&self) -> ClusterView {
        ClusterView {
            observer: self.observer_revision@,
            authoritative: self.authoritative_revision@,
            processed: self.processed_revision.deep_view(),
            active: self.controllers.active.deep_view(),
            standby: self.controllers.standby.deep_view(),
            live: self.live_instances@,
            states: self.active_current_state@,
            external: self.external_view.deep_view(),
            pending: self.pending_transitions.deep_view(),
            routes: self.routing_results.deep_view(),
        }
    }
}

/// The instances that some route leads to.
pub open spec fn routed_instances(routes: Seq<Route>) -> Set<Seq<char>> {
    Set::new(
        |name: Seq<char>|
            exists|i: int|
                0 <= i < routes.len() && #[trigger] routes[i].instances.contains(name),
    )
}

impl ClusterView {
    /// The routing table of the observation. Every routed instance has a name,
    /// and the external view is one.
    pub open spec fn routing(self) -> Result<routing::RoutingView, CoordinationFault> {
        let configured = routed_instances(self.routes);
        if configured.contains(Seq::empty()) {
            Err(CoordinationFault::InvalidValue)
        } else {
            match self.external {
                None => Err(CoordinationFault::InvalidValue),
                Some(rows) => match view::resources_in(rows) {
                    Err(fault) => Err(fault),
                    Ok(states) => Ok(routing::RoutingView { states, configured }),
                },
            }
        }
    }

    /// The observation with input that is at least as new.
    pub open spec fn at_least(self, floor: i64) -> ClusterView {
        ClusterView {
            authoritative: if self.authoritative >= floor {
                self.authoritative
            } else {
                floor
            },
            ..self
        }
    }

    /// A controller is elected.
    pub open spec fn has_controller(self) -> bool {
        self.active.len() > 0
    }

    /// No transition is pending, and all input was processed.
    pub open spec fn is_idle(self) -> bool {
        self.pending.len() == 0 && (self.processed matches Some(processed) && processed
            >= self.authoritative)
    }
}

fn collect_instances(results: &Vec<RoutingResult>) -> (r: Option<OrderedSet<InstanceId>>)
    ensures
        match r {
            Some(instances) => !routed_instances(results.deep_view()).contains(Seq::empty())
                && instances@ == routed_instances(results.deep_view()),
            None => routed_instances(results.deep_view()).contains(Seq::empty()),
        },
{
    let ghost all = results.deep_view();
    let mut instances: OrderedSet<InstanceId> = OrderedSet::new();
    let mut i: usize = 0;
    assert(instances@ =~= routed_instances(all.take(0)));
    while i < results.len()
        invariant
            i <= results@.len(),
            all == results.deep_view(),
            instances@ == routed_instances(all.take(i as int)),
            !instances@.contains(Seq::empty()),
        decreases results@.len() - i,
    {
        let ghost before = instances@;
        let ghost names = results@[i as int].instances.deep_view();
        assert(all[i as int].instances == names);
        let found = match instance_set(&results[i].instances) {
            Some(found) => found,
            None => {
                assert(all[i as int].instances.contains(Seq::empty()));
                return None;
            },
        };
        let n: usize = found.len();
        let ghost listed = found.listing();
        let mut j: usize = 0;
        while j < n
            invariant
                j <= n,
                n == listed.len(),
                listed == found.listing(),
                ordered::enumerates::<InstanceId>(listed, found@),
                forall|name: Seq<char>| #[trigger]
                    instances@.contains(name) == (before.contains(name) || listed.take(
                        j as int,
                    ).contains(name)),
            decreases n - j,
        {
            instances.insert(found.at(j).duplicate());
            proof {
                let shorter = listed.take(j as int);
                let longer = listed.take(j + 1);
                assert forall|name: Seq<char>|
                    longer.contains(name) == (shorter.contains(name) || name == listed[j as int]) by {
                    if shorter.contains(name) {
                        let k = shorter.index_of(name);
                        assert(longer[k] == name);
                    }
                    if name == listed[j as int] {
                        assert(longer[j as int] == name);
                    }
                    if longer.contains(name) && name != listed[j as int] {
                        let k = longer.index_of(name);
                        assert(shorter[k] == name);
                    }
                }
            }
            j = j + 1;
        }
        proof {
            assert(listed.take(n as int) =~= listed);
            assert forall|name: Seq<char>| instances@.contains(name) == routed_instances(
                all.take(i + 1),
            ).contains(name) by {
                assert(listed.contains(name) == found@.contains(name)) by {
                    if listed.contains(name) {
                        let k = listed.index_of(name);
                        assert(found@.contains(listed[k]));
                    }
                }
                if before.contains(name) {
                    let k = choose|k: int|
                        0 <= k < all.take(i as int).len() && #[trigger] all.take(
                            i as int,
                        )[k].instances.contains(name);
                    assert(all.take(i + 1)[k].instances.contains(name));
                }
                if names.contains(name) {
                    assert(all.take(i + 1)[i as int].instances.contains(name));
                }
                if routed_instances(all.take(i + 1)).contains(name) {
                    let k = choose|k: int|
                        0 <= k < all.take(i + 1).len() && #[trigger] all.take(
                            i + 1,
                        )[k].instances.contains(name);
                    if k < i {
                        assert(all.take(i as int)[k].instances.contains(name));
                    }
                }
            }
            assert(instances@ =~= routed_instances(all.take(i + 1)));
        }
        i = i + 1;
    }
    assert(all.take(i as int) =~= all);
    Some(instances)
}

impl ClusterSnapshot {
    /// Count the observation's input as at least this new.
    pub fn with_authoritative_floor(self, floor: ObserverRevision) -> (r: ClusterSnapshot)
        ensures
            r@ == self@.at_least(floor@),
    {
        let mut snapshot = self;
        snapshot.authoritative_revision = snapshot.authoritative_revision.later(floor);
        snapshot
    }

    /// Parse and return the typed routing view without hiding malformed data.
    pub fn try_routing(&self) -> (r: Result<RoutingSnapshot, CoordinationError>)
        ensures
            match (r, self@.routing()) {
                (Ok(routing), Ok(model)) => routing@ == model,
                (Err(error), Err(fault)) => error@ == fault,
                _ => false,
            },
    {
        let configured = match collect_instances(&self.routing_results) {
            Some(configured) => configured,
            None => {
                return Err(CoordinationError::InvalidValue);
            },
        };
        match &self.external_view {
            None => Err(CoordinationError::InvalidValue),
            Some(rows) => match view::view_of_rows(rows) {
                Ok(external) => Ok(RoutingSnapshot::from_external_view(external, configured)),
                Err(error) => Err(error),
            },
        }
    }

    /// Return the typed routing view derived from this snapshot.
    pub fn routing(&self) -> (r: RoutingSnapshot)
        requires
            self@.routing() is Ok,
        ensures
            r@ == self@.routing()->Ok_0,
    {
        match self.try_routing() {
            Ok(routing) => routing,
            Err(_) => RoutingSnapshot::from_external_view(
                ExternalView::default(),
                OrderedSet::new(),
            ),
        }
    }

    /// Return typed controller membership.
    pub fn controllers(&self) -> (r: &ControllerMembership)
        ensures
            *r == self.controllers,
    {
        &self.controllers
    }

    /// Return a typed live-instance view.
    pub fn instances(&self) -> (r: InstanceMembership<'_>)
        ensures
            r.sessions() == self@.live,
    {
        InstanceMembership { live_instances: &self.live_instances }
    }

    /// Return published transition work awaiting completion.
    pub fn pending_transitions(&self) -> (r: &Vec<PublishedTransition>)
        ensures
            r.deep_view() == self@.pending,
    {
        &self.pending_transitions
    }

    /// Whether a controller is elected.
    pub fn has_controller(&self) -> (r: bool)
        ensures
            r == self@.has_controller(),
    {
        self.controllers.active().is_some()
    }

    /// Whether no transitions remain and participant progress has caught up.
    pub fn is_idle(&self) -> (r: bool)
        ensures
            r == self@.is_idle(),
    {
        self.pending_transitions.len() == 0 && match self.processed_revision {
            Some(processed) => processed.value() >= self.authoritative_revision.value(),
            None => false,
        }
    }
}

/// The processed revision that is published.
pub open spec fn processed_in(value: Option<Seq<char>>) -> Result<Option<i64>, CoordinationFault> {
    match value {
        None => Ok(None),
        Some(value) => match text::signed_number(value) {
            Some(n) if i64::MIN <= n <= i64::MAX => if n > 0 {
                Ok(Some(n as i64))
            } else {
                Err(CoordinationFault::InvalidRevision(n as i64))
            },
            _ => Err(CoordinationFault::InvalidValue),
        },
    }
}

fn processed_revision(value: Option<&str>) -> (r: Result<Option<Revision>, CoordinationError>)
    ensures
        match (
            r,
            processed_in(
                match value {
                    Some(value) => Some(value@),
                    None => None,
                },
            ),
        ) {
            (Ok(revision), Ok(model)) => revision.deep_view() == model,
            (Err(error), Err(fault)) => error@ == fault,
            _ => false,
        },
{
    match value {
        None => Ok(None),
        Some(value) => match text::parse_i64(value) {
            Some(n) => match Revision::new(n) {
                Ok(revision) => Ok(Some(revision)),
                Err(error) => Err(error),
            },
            None => Err(CoordinationError::InvalidValue),
        },
    }
}

/// The rows of a published external view. Without one there are none.
pub open spec fn published_rows(value: Option<Seq<char>>) -> Option<view_json::ViewRows> {
    match value {
        None => Some(Seq::empty()),
        Some(text) => match view_json::parsed_view(text) {
            Ok(rows) => Some(rows),
            Err(_) => None,
        },
    }
}

/// The pending transitions that are published.
pub open spec fn published_queue(
    decoded: records::DecodedView<Seq<published::PublishedView>>,
) -> Result<Seq<published::PublishedView>, CoordinationFault> {
    match decoded {
        records::DecodedView::Missing => Ok(Seq::empty()),
        records::DecodedView::Malformed(_) => Err(CoordinationFault::InvalidValue),
        records::DecodedView::Value(messages) => Ok(messages),
    }
}

/// The observation that a snapshot of the namespace shows, given its decoded
/// queue and the decoded names of the configured instances.
pub open spec fn observation(
    v: snapshot::CoordinationView,
    queue: records::DecodedView<Seq<published::PublishedView>>,
    configs: records::DecodedView<Seq<Seq<char>>>,
) -> Result<ClusterView, CoordinationFault> {
    let external = runtime::value_of(v.metadata, "controller/output/external-view"@);
    let processed = processed_in(
        runtime::value_of(v.metadata, "controller/output/processed-revision"@),
    );
    if processed is Err {
        Err(processed->Err_0)
    } else if external is Some && !view_json::valid_json(external->0) {
        Err(CoordinationFault::InvalidValue)
    } else if published_queue(queue) is Err {
        Err(published_queue(queue)->Err_0)
    } else if configured_in(configs) is Err {
        Err(configured_in(configs)->Err_0)
    } else {
        match published_rows(external) {
            None => Err(CoordinationFault::InvalidValue),
            Some(rows) => match view::resources_in(rows) {
                Err(fault) => Err(fault),
                Ok(states) => Ok(
                    ClusterView {
                        observer: v.revision,
                        authoritative: v.authoritative,
                        processed: processed->Ok_0,
                        active: match active_in(v.election) {
                            Some(controller) => seq![controller],
                            None => Seq::empty(),
                        },
                        standby: standby_in(v.election),
                        live: runtime::sessions_of(v.participants.live),
                        states: states_in(v.participants.active),
                        external: Some(rows),
                        pending: published_queue(queue)->Ok_0,
                        routes: routes(states, configured_in(configs)->Ok_0),
                    },
                ),
            },
        }
    }
}

fn external_rows(value: Option<&str>) -> (r: Option<Vec<ResourceRow>>)
    ensures
        r.deep_view() == published_rows(
            match value {
                Some(value) => Some(value@),
                None => None,
            },
        ),
{
    match value {
        None => {
            let none: Vec<ResourceRow> = Vec::new();
            assert(none.deep_view() =~= Seq::empty());
            Some(none)
        },
        Some(text) => match view_json::read_external_view(text) {
            Ok(rows) => Some(rows),
            Err(_) => None,
        },
    }
}

/// The observation that a snapshot of the namespace shows, given its decoded
/// queue and the decoded names of the configured instances.
pub fn snapshot_from_coordination(
    coordination_snapshot: &CoordinationSnapshot,
    queue: &Decoded<Vec<PublishedTransition>>,
    configs: &Decoded<Vec<String>>,
) -> (r: Result<ClusterSnapshot, CoordinationError>)
    ensures
        match (r, observation(coordination_snapshot@, queue@, configs@)) {
            (Ok(snapshot), Ok(model)) => snapshot@ == model,
            (Err(error), Err(fault)) => error@ == fault,
            _ => false,
        },
{
    let processed = match processed_revision(
        runtime::metadata_value(coordination_snapshot, "controller/output/processed-revision"),
    ) {
        Ok(Some(revision)) => Some(ObserverRevision::from_revision(revision)),
        Ok(None) => None,
        Err(error) => {
            return Err(error);
        },
    };
    let external = runtime::metadata_value(coordination_snapshot, "controller/output/external-view");
    if let Some(value) = external {
        if !view_json::is_json(value) {
            return Err(CoordinationError::InvalidValue);
        }
    }
    let pending = match queue {
        Decoded::Missing => {
            let none: Vec<PublishedTransition> = Vec::new();
            assert(none.deep_view() =~= Seq::empty());
            none
        },
        Decoded::Malformed(_) => {
            return Err(CoordinationError::InvalidValue);
        },
        Decoded::Value(messages) => messages.duplicate(),
    };
    let configured = match configured_instances(configs) {
        Ok(configured) => configured,
        Err(error) => {
            return Err(error);
        },
    };
    let rows = match external_rows(external) {
        Some(rows) => rows,
        None => {
            return Err(CoordinationError::InvalidValue);
        },
    };
    let states = match view::view_of_rows(&rows) {
        Ok(states) => states,
        Err(error) => {
            return Err(error);
        },
    };
    let results = routing_results(&RoutingSnapshot::from_external_view(states, configured));
    Ok(
        ClusterSnapshot {
            observer_revision: ObserverRevision::from_revision(coordination_snapshot.revision()),
            authoritative_revision: ObserverRevision::from_revision(
                coordination_snapshot.authoritative_revision(),
            ),
            processed_revision: processed,
            controllers: controllers(coordination_snapshot),
            live_instances: live_sessions(coordination_snapshot.participants().live_instances()),
            active_current_state: active_current_state(coordination_snapshot),
            external_view: Some(rows),
            pending_transitions: pending,
            routing_results: results,
        },
    )
}

/// Typed application-facing view of one observed cluster snapshot.
pub struct Snapshot {
    raw: ClusterSnapshot,
    routing: RoutingSnapshot,
}

impl Snapshot {
    /// The observation.
    pub closed spec fn observed(&self) -> ClusterView {
        self.raw@
    }

    /// The routing table of the observation.
    pub closed spec fn routes(&self) -> routing::RoutingView {
        self.routing@
    }

    /// Build the typed view of an observation.
    pub fn from_raw(raw: ClusterSnapshot) -> (r: Result<Snapshot, CoordinationError>)
        ensures
            match (r, raw@.routing()) {
                (Ok(snapshot), Ok(model)) => snapshot.observed() == raw@ && snapshot.routes()
                    == model,
                (Err(error), Err(fault)) => error@ == fault,
                _ => false,
            },
    {
        match raw.try_routing() {
            Ok(routing) => Ok(Snapshot { raw, routing }),
            Err(error) => Err(error),
        }
    }

    /// Count the observation's input as at least this new.
    pub fn with_authoritative_floor(self, floor: ObserverRevision) -> (r: Snapshot)
        ensures
            r.observed() == self.observed().at_least(floor@),
            r.routes() == self.routes(),
    {
        Snapshot { raw: self.raw.with_authoritative_floor(floor), routing: self.routing }
    }

    /// Return the observation.
    pub fn raw(&self) -> (r: &ClusterSnapshot)
        ensures
            r@ == self.observed(),
    {
        &self.raw
    }

    /// Return the immutable typed routing view constructed for this snapshot.
    pub fn routing(&self) -> (r: &RoutingSnapshot)
        ensures
            r@ == self.routes(),
    {
        &self.routing
    }

    /// Return typed controller membership.
    pub fn controllers(&self) -> (r: &ControllerMembership)
        ensures
            r.active.deep_view() == self.observed().active,
            r.standby.deep_view() == self.observed().standby,
    {
        &self.raw.controllers
    }

    /// Return a typed live-instance view.
    pub fn instances(&self) -> (r: InstanceMembership<'_>)
        ensures
            r.sessions() == self.observed().live,
    {
        self.raw.instances()
    }

    /// Return published transition work awaiting completion.
    pub fn pending_transitions(&self) -> (r: &Vec<PublishedTransition>)
        ensures
            r.deep_view() == self.observed().pending,
    {
        &self.raw.pending_transitions
    }

    /// Return the store revision represented by this snapshot.
    pub fn observer_revision(&self) -> (r: ObserverRevision)
        ensures
            r@ == self.observed().observer,
    {
        self.raw.observer_revision
    }

    /// Return the newest authoritative input revision represented here.
    pub fn authoritative_revision(&self) -> (r: ObserverRevision)
        ensures
            r@ == self.observed().authoritative,
    {
        self.raw.authoritative_revision
    }

    /// Return the controller's processed-input watermark, if one has been published.
    pub fn processed_revision(&self) -> (r: Option<ObserverRevision>)
        ensures
            r.deep_view() == self.observed().processed,
    {
        self.raw.processed_revision
    }
}

} // verus!
