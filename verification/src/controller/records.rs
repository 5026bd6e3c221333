//! Controller metadata records and what they configure.
use crate::controller::error::{ControllerRuntimeError, RuntimeFault};
use crate::controller::quota;
use crate::controller::quota::{RebalanceType, StateTransitionThrottleConfig, ThrottleScope};
use crate::model::identity::IdentifierKind;
use crate::model::{IdentifierError, InstanceId, ResourceId};
use crate::ordered::{Duplicate, OrderedMap};
use crate::text;
use vstd::prelude::*;
use vstd::string::*;

verus! {

/// A metadata value after it was decoded.
pub enum Decoded<T> {
    /// There is no such metadata.
    Missing,
    /// The value could not be decoded.
    Malformed(String),
    /// The decoded value.
    Value(T),
}

/// A metadata value after it was decoded.
pub enum DecodedView<B> {
    Missing,
    Malformed(Seq<char>),
    Value(B),
}

impl<T: DeepView> View for Decoded<T> {
    type V = DecodedView<T::V>;

    open spec fn view(&self) -> DecodedView<T::V> {
        match self {
            Decoded::Missing => DecodedView::Missing,
            Decoded::Malformed(message) => DecodedView::Malformed(message@),
            Decoded::Value(value) => DecodedView::Value(value.deep_view()),
        }
    }
}

/// The configuration record of one instance.
#[derive(Debug, PartialEq, Eq)]
pub struct InstanceConfigRecord {
    pub name: String,
    pub zone: String,
}

/// What the configuration record of an instance says.
#[verifier::ext_equal]
pub struct ConfigView {
    pub name: Seq<char>,
    pub zone: Seq<char>,
}

impl DeepView for InstanceConfigRecord {
    type V = ConfigView;

    open spec fn deep_view(&self) -> ConfigView {
        ConfigView { name: self.name@, zone: self.zone@ }
    }
}

impl Duplicate for InstanceConfigRecord {
    fn duplicate(&self) -> (r: Self) {
        InstanceConfigRecord { name: self.name.clone(), zone: self.zone.clone() }
    }
}

/// The message for an empty identity.
pub open spec fn empty_identity(kind: IdentifierKind) -> Seq<char> {
    IdentifierError::Empty(kind).text()
}

/// The zone of each configured instance, or the message for the first record
/// without a name.
pub open spec fn zones_of(records: Seq<ConfigView>) -> Result<
    Map<Seq<char>, Seq<char>>,
    Seq<char>,
>
    decreases records.len(),
{
    if records.len() == 0 {
        Ok(Map::empty())
    } else {
        match zones_of(records.drop_last()) {
            Err(message) => Err(message),
            Ok(before) => if records.last().name.len() == 0 {
                Err(empty_identity(IdentifierKind::Instance))
            } else {
                Ok(before.insert(records.last().name, records.last().zone))
            },
        }
    }
}

proof fn zones_prefix(records: Seq<ConfigView>, i: int)
    requires
        0 <= i <= records.len(),
        zones_of(records.take(i)) is Err,
    ensures
        zones_of(records) == zones_of(records.take(i)),
    decreases records.len(),
{
    if i == records.len() {
        assert(records.take(i) =~= records);
    } else {
        assert(records.drop_last().take(i) =~= records.take(i));
        zones_prefix(records.drop_last(), i);
    }
}

/// The zones that decoded configuration gives.
pub open spec fn configured_zones(decoded: DecodedView<Seq<ConfigView>>) -> Result<
    Map<Seq<char>, Seq<char>>,
    Seq<char>,
> {
    match decoded {
        DecodedView::Missing => Ok(Map::empty()),
        DecodedView::Malformed(message) => Err(message),
        DecodedView::Value(records) => zones_of(records),
    }
}

/// The zone of each configured instance.
pub fn instance_configs(decoded: &Decoded<Vec<InstanceConfigRecord>>) -> (r: Result<
    OrderedMap<InstanceId, String>,
    ControllerRuntimeError,
>)
    ensures
        match (r, configured_zones(decoded@)) {
            (Ok(zones), Ok(model)) => zones@ == model,
            (Err(error), Err(message)) => error@ == RuntimeFault::of_message(message),
            _ => false,
        },
{
    let records = match decoded {
        Decoded::Missing => {
            return Ok(OrderedMap::new());
        },
        Decoded::Malformed(message) => {
            return Err(ControllerRuntimeError::message(message.clone()));
        },
        Decoded::Value(records) => records,
    };
    let ghost all = records.deep_view();
    let mut zones: OrderedMap<InstanceId, String> = OrderedMap::new();
    let mut i: usize = 0;
    assert(all.take(0) =~= Seq::empty());
    while i < records.len()
        invariant
            i <= records@.len(),
            all == records.deep_view(),
            decoded@ == DecodedView::Value(all),
            zones_of(all.take(i as int)) == Ok::<Map<Seq<char>, Seq<char>>, Seq<char>>(zones@),
        decreases records@.len() - i,
    {
        proof {
            assert(all.take(i + 1).drop_last() =~= all.take(i as int));
            assert(all.take(i + 1).last() == records@[i as int].deep_view());
        }
        match InstanceId::new(records[i].name.as_str()) {
            Ok(instance) => {
                zones.insert(instance, records[i].zone.clone());
            },
            Err(error) => {
                proof {
                    zones_prefix(all, i + 1);
                }
                return Err(ControllerRuntimeError::message(error.to_string()));
            },
        }
        i = i + 1;
    }
    assert(all.take(records@.len() as int) =~= all);
    Ok(zones)
}

/// The topology record of a placement.
#[derive(Clone, Debug, PartialEq, Eq)]
pub struct CrushTopologyRecord {
    pub path: String,
    pub fault_zone_type: String,
    pub end_node_type: String,
}

/// What a topology record says.
#[verifier::ext_equal]
pub struct TopologyView {
    pub path: Seq<char>,
    pub fault_zone_type: Seq<char>,
    pub end_node_type: Seq<char>,
}

impl DeepView for CrushTopologyRecord {
    type V = TopologyView;

    open spec fn deep_view(&self) -> TopologyView {
        TopologyView {
            path: self.path@,
            fault_zone_type: self.fault_zone_type@,
            end_node_type: self.end_node_type@,
        }
    }
}

impl Duplicate for CrushTopologyRecord {
    fn duplicate(&self) -> (r: Self) {
        CrushTopologyRecord {
            path: self.path.clone(),
            fault_zone_type: self.fault_zone_type.clone(),
            end_node_type: self.end_node_type.clone(),
        }
    }
}

/// The placement record of a resource.
#[derive(Debug)]
pub struct PlacementRecord {
    pub kind: String,
    pub replicas: usize,
    pub preference_lists: OrderedMap<String, Vec<String>>,
    pub partitions: Vec<String>,
    pub topology: Option<CrushTopologyRecord>,
}

/// What a placement record says.
#[verifier::ext_equal]
pub struct PlacementView {
    pub kind: Seq<char>,
    pub replicas: usize,
    pub lists: Map<Seq<char>, Seq<Seq<char>>>,
    pub partitions: Seq<Seq<char>>,
    pub topology: Option<TopologyView>,
}

/// The record of a resource.
#[derive(Debug)]
pub struct ResourceRecord {
    pub name: String,
    pub state_model: String,
    pub placement: PlacementRecord,
}

/// What the record of a resource says.
#[verifier::ext_equal]
pub struct ResourceView {
    pub name: Seq<char>,
    pub state_model: Seq<char>,
    pub placement: PlacementView,
}

impl DeepView for PlacementRecord {
    type V = PlacementView;

    open spec fn deep_view(&self) -> PlacementView {
        PlacementView {
            kind: self.kind@,
            replicas: self.replicas,
            lists: self.preference_lists@,
            partitions: self.partitions.deep_view(),
            topology: self.topology.deep_view(),
        }
    }
}

impl DeepView for ResourceRecord {
    type V = ResourceView;

    open spec fn deep_view(&self) -> ResourceView {
        ResourceView {
            name: self.name@,
            state_model: self.state_model@,
            placement: self.placement.deep_view(),
        }
    }
}

/// The metadata entry of a resource: the name in its key, and its decoded
/// record.
pub struct ResourceEntry {
    pub key_name: String,
    pub record: Result<ResourceRecord, String>,
}

/// What the metadata entry of a resource says.
pub struct ResourceEntryView {
    pub key_name: Seq<char>,
    pub record: Result<ResourceView, Seq<char>>,
}

impl DeepView for ResourceEntry {
    type V = ResourceEntryView;

    open spec fn deep_view(&self) -> ResourceEntryView {
        ResourceEntryView {
            key_name: self.key_name@,
            record: match self.record {
                Ok(record) => Ok(record.deep_view()),
                Err(message) => Err(message@),
            },
        }
    }
}

/// The record of a transition throttle.
#[derive(Debug, PartialEq, Eq)]
pub struct ThrottleRecord {
    pub scope: String,
    pub resource: Option<String>,
    pub instance: Option<String>,
    pub rebalance_type: String,
    pub max_in_flight: usize,
}

/// What the record of a transition throttle says.
#[verifier::ext_equal]
pub struct ThrottleRecordView {
    pub scope: Seq<char>,
    pub resource: Option<Seq<char>>,
    pub instance: Option<Seq<char>>,
    pub rebalance_type: Seq<char>,
    pub max_in_flight: usize,
}

impl DeepView for ThrottleRecord {
    type V = ThrottleRecordView;

    open spec fn deep_view(&self) -> ThrottleRecordView {
        ThrottleRecordView {
            scope: self.scope@,
            resource: self.resource.deep_view(),
            instance: self.instance.deep_view(),
            rebalance_type: self.rebalance_type@,
            max_in_flight: self.max_in_flight,
        }
    }
}

/// The scope that a name stands for.
pub open spec fn scope_of(name: Seq<char>) -> Option<ThrottleScope> {
    if name == "CLUSTER"@ {
        Some(ThrottleScope::Cluster)
    } else if name == "RESOURCE"@ {
        Some(ThrottleScope::Resource)
    } else if name == "INSTANCE"@ {
        Some(ThrottleScope::Instance)
    } else {
        None
    }
}

/// The kind of work that a name stands for.
pub open spec fn rebalance_of(name: Seq<char>) -> Option<RebalanceType> {
    if name == "ANY"@ {
        Some(RebalanceType::Any)
    } else if name == "RECOVERY_BALANCE"@ {
        Some(RebalanceType::RecoveryBalance)
    } else if name == "LOAD_BALANCE"@ {
        Some(RebalanceType::LoadBalance)
    } else {
        None
    }
}

/// The throttle that a record configures, or the message for what is wrong
/// with it.
pub open spec fn throttle_of(record: ThrottleRecordView) -> Result<quota::ThrottleView, Seq<char>> {
    match (scope_of(record.scope), rebalance_of(record.rebalance_type)) {
        (None, _) => Err("unknown throttle scope "@ + record.scope),
        (_, None) => Err("unknown rebalance type "@ + record.rebalance_type),
        (Some(scope), Some(kind)) => {
            let whole = quota::ThrottleView {
                kind,
                scope,
                limit: record.max_in_flight,
                target: None,
            };
            if record.max_in_flight == 0 {
                Err("transition throttle limit must be greater than zero"@)
            } else if scope == ThrottleScope::Cluster && (record.resource is Some
                || record.instance is Some) {
                Err("cluster transition throttle cannot target a resource or instance"@)
            } else if scope == ThrottleScope::Resource && record.instance is Some {
                Err("resource transition throttle cannot target an instance"@)
            } else if scope == ThrottleScope::Instance && record.resource is Some {
                Err("instance transition throttle cannot target a resource"@)
            } else if let Some(resource) = record.resource {
                if resource.len() == 0 {
                    Err(empty_identity(IdentifierKind::Resource))
                } else {
                    Ok(
                        quota::ThrottleView {
                            target: Some(quota::TargetView::Resource(resource)),
                            ..whole
                        },
                    )
                }
            } else if let Some(instance) = record.instance {
                if instance.len() == 0 {
                    Err(empty_identity(IdentifierKind::Instance))
                } else {
                    Ok(
                        quota::ThrottleView {
                            target: Some(quota::TargetView::Instance(instance)),
                            ..whole
                        },
                    )
                }
            } else {
                Ok(whole)
            }
        },
    }
}

/// The throttles that records configure, or the message for the first record
/// that is wrong.
pub open spec fn throttles_of(records: Seq<ThrottleRecordView>) -> Result<
    Seq<quota::ThrottleView>,
    Seq<char>,
>
    decreases records.len(),
{
    if records.len() == 0 {
        Ok(Seq::empty())
    } else {
        match (throttles_of(records.drop_last()), throttle_of(records.last())) {
            (Err(message), _) => Err(message),
            (_, Err(message)) => Err(message),
            (Ok(before), Ok(throttle)) => Ok(before.push(throttle)),
        }
    }
}

proof fn throttles_prefix(records: Seq<ThrottleRecordView>, i: int)
    requires
        0 <= i <= records.len(),
        throttles_of(records.take(i)) is Err,
    ensures
        throttles_of(records) == throttles_of(records.take(i)),
    decreases records.len(),
{
    if i == records.len() {
        assert(records.take(i) =~= records);
    } else {
        assert(records.drop_last().take(i) =~= records.take(i));
        throttles_prefix(records.drop_last(), i);
    }
}

/// Every throttle that a record configures limits something, and targets only
/// what its scope can hold.
pub proof fn configured_throttle_is_sound(record: ThrottleRecordView)
    requires
        throttle_of(record) is Ok,
    ensures
        throttle_of(record)->Ok_0.limit > 0,
        match (throttle_of(record)->Ok_0.scope, throttle_of(record)->Ok_0.target) {
            (_, None) => true,
            (ThrottleScope::Resource, Some(quota::TargetView::Resource(resource))) => resource.len()
                > 0,
            (ThrottleScope::Instance, Some(quota::TargetView::Instance(instance))) => instance.len()
                > 0,
            _ => false,
        },
{
}

fn named_scope(name: &str) -> (r: Option<ThrottleScope>)
    ensures
        r == scope_of(name@),
{
    if text::text_eq(name, "CLUSTER") {
        Some(ThrottleScope::Cluster)
    } else if text::text_eq(name, "RESOURCE") {
        Some(ThrottleScope::Resource)
    } else if text::text_eq(name, "INSTANCE") {
        Some(ThrottleScope::Instance)
    } else {
        None
    }
}

fn named_rebalance(name: &str) -> (r: Option<RebalanceType>)
    ensures
        r == rebalance_of(name@),
{
    if text::text_eq(name, "ANY") {
        Some(RebalanceType::Any)
    } else if text::text_eq(name, "RECOVERY_BALANCE") {
        Some(RebalanceType::RecoveryBalance)
    } else if text::text_eq(name, "LOAD_BALANCE") {
        Some(RebalanceType::LoadBalance)
    } else {
        None
    }
}

/// The throttle that a record configures.
pub fn throttle_config(record: &ThrottleRecord) -> (r: Result<
    StateTransitionThrottleConfig,
    ControllerRuntimeError,
>)
    ensures
        match (r, throttle_of(record.deep_view())) {
            (Ok(config), Ok(model)) => config@ == model,
            (Err(error), Err(message)) => error@ == RuntimeFault::of_message(message),
            _ => false,
        },
{
    let scope = match named_scope(record.scope.as_str()) {
        Some(scope) => scope,
        None => {
            return Err(
                ControllerRuntimeError::message(
                    "unknown throttle scope ".to_owned().concat(record.scope.as_str()),
                ),
            );
        },
    };
    let rebalance_type = match named_rebalance(record.rebalance_type.as_str()) {
        Some(rebalance_type) => rebalance_type,
        None => {
            return Err(
                ControllerRuntimeError::message(
                    "unknown rebalance type ".to_owned().concat(record.rebalance_type.as_str()),
                ),
            );
        },
    };
    if record.max_in_flight == 0 {
        return Err(
            ControllerRuntimeError::message(
                "transition throttle limit must be greater than zero".to_owned(),
            ),
        );
    }
    match scope {
        ThrottleScope::Cluster => {
            if record.resource.is_some() || record.instance.is_some() {
                return Err(
                    ControllerRuntimeError::message(
                        "cluster transition throttle cannot target a resource or instance".to_owned(),
                    ),
                );
            }
        },
        ThrottleScope::Resource => {
            if record.instance.is_some() {
                return Err(
                    ControllerRuntimeError::message(
                        "resource transition throttle cannot target an instance".to_owned(),
                    ),
                );
            }
            if let Some(resource) = &record.resource {
                return match ResourceId::new(resource.as_str()) {
                    Ok(resource) => Ok(
                        StateTransitionThrottleConfig::for_resource(
                            rebalance_type,
                            resource,
                            record.max_in_flight,
                        ),
                    ),
                    Err(error) => Err(ControllerRuntimeError::message(error.to_string())),
                };
            }
        },
        ThrottleScope::Instance => {
            if record.resource.is_some() {
                return Err(
                    ControllerRuntimeError::message(
                        "instance transition throttle cannot target a resource".to_owned(),
                    ),
                );
            }
            if let Some(instance) = &record.instance {
                return match InstanceId::new(instance.as_str()) {
                    Ok(instance) => Ok(
                        StateTransitionThrottleConfig::for_instance(
                            rebalance_type,
                            instance,
                            record.max_in_flight,
                        ),
                    ),
                    Err(error) => Err(ControllerRuntimeError::message(error.to_string())),
                };
            }
        },
    }
    Ok(StateTransitionThrottleConfig::new(rebalance_type, scope, record.max_in_flight))
}

/// The throttles that decoded configuration gives.
pub open spec fn configured_throttles(decoded: DecodedView<Seq<ThrottleRecordView>>) -> Result<
    Seq<quota::ThrottleView>,
    Seq<char>,
> {
    match decoded {
        DecodedView::Missing => Ok(Seq::empty()),
        DecodedView::Malformed(message) => Err(message),
        DecodedView::Value(records) => throttles_of(records),
    }
}

/// The configured transition throttles.
pub fn throttles(decoded: &Decoded<Vec<ThrottleRecord>>) -> (r: Result<
    Vec<StateTransitionThrottleConfig>,
    ControllerRuntimeError,
>)
    ensures
        match (r, configured_throttles(decoded@)) {
            (Ok(configs), Ok(model)) => configs.deep_view() == model,
            (Err(error), Err(message)) => error@ == RuntimeFault::of_message(message),
            _ => false,
        },
{
    let mut out: Vec<StateTransitionThrottleConfig> = Vec::new();
    assert(out.deep_view() =~= Seq::empty());
    let records = match decoded {
        Decoded::Missing => {
            return Ok(out);
        },
        Decoded::Malformed(message) => {
            return Err(ControllerRuntimeError::message(message.clone()));
        },
        Decoded::Value(records) => records,
    };
    let ghost all = records.deep_view();
    let mut i: usize = 0;
    assert(all.take(0) =~= Seq::empty());
    while i < records.len()
        invariant
            i <= records@.len(),
            all == records.deep_view(),
            decoded@ == DecodedView::Value(all),
            throttles_of(all.take(i as int)) == Ok::<Seq<quota::ThrottleView>, Seq<char>>(
                out.deep_view(),
            ),
        decreases records@.len() - i,
    {
        let ghost before = out.deep_view();
        proof {
            assert(all.take(i + 1).drop_last() =~= all.take(i as int));
            assert(all.take(i + 1).last() == records@[i as int].deep_view());
        }
        match throttle_config(&records[i]) {
            Ok(config) => {
                let ghost model = config@;
                out.push(config);
                assert(out.deep_view() =~= before.push(model));
            },
            Err(error) => {
                proof {
                    throttles_prefix(all, i + 1);
                }
                return Err(error);
            },
        }
        i = i + 1;
    }
    assert(all.take(records@.len() as int) =~= all);
    Ok(out)
}

} // verus!
