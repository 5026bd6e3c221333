//! Administrative changes to the transition limits.
use crate::controller::quota::{self, ThrottleScope};
use crate::controller::records::{self, ThrottleRecord};
use crate::coordination::etcd::error::CoordinationFault;
use crate::coordination::etcd::CoordinationError;
use crate::model::{InstanceId, ResourceId};
use crate::text;
use vstd::prelude::*;
use vstd::string::*;

verus! {

/// A controller transition throttle configuration.
#[derive(Clone, Debug, PartialEq, Eq)]
pub struct ThrottleSpec {
    pub scope: String,
    pub rebalance_type: String,
    pub max_in_flight: usize,
}

/// What a throttle configuration says.
#[verifier::ext_equal]
pub struct ThrottleSpecView {
    pub scope: Seq<char>,
    pub rebalance_type: Seq<char>,
    pub max_in_flight: usize,
}

impl DeepView for ThrottleSpec {
    type V = ThrottleSpecView;

    open spec fn deep_view(&self) -> ThrottleSpecView {
        ThrottleSpecView {
            scope: self.scope@,
            rebalance_type: self.rebalance_type@,
            max_in_flight: self.max_in_flight,
        }
    }
}

/// The throttles may be stored: each limits something, and names its scope.
pub open spec fn throttles_are_valid(throttles: Seq<ThrottleSpecView>) -> bool {
    forall|i: int|
        0 <= i < throttles.len() ==> (#[trigger] throttles[i]).max_in_flight > 0 && !text::blank(
            throttles[i].scope,
        )
}

/// Whether throttles may be stored.
pub fn put_throttles(throttles: &Vec<ThrottleSpec>) -> (r: Result<(), CoordinationError>)
    ensures
        match r {
            Ok(()) => throttles_are_valid(throttles.deep_view()),
            Err(error) => !throttles_are_valid(throttles.deep_view()) && error@
                == CoordinationFault::InvalidValue,
        },
{
    let ghost all = throttles.deep_view();
    let mut i: usize = 0;
    while i < throttles.len()
        invariant
            i <= throttles@.len(),
            all == throttles.deep_view(),
            forall|j: int|
                0 <= j < i ==> (#[trigger] all[j]).max_in_flight > 0 && !text::blank(all[j].scope),
        decreases throttles@.len() - i,
    {
        assert(all[i as int] == throttles@[i as int].deep_view());
        if throttles[i].max_in_flight == 0 || text::is_blank(throttles[i].scope.as_str()) {
            return Err(CoordinationError::InvalidValue);
        }
        i = i + 1;
    }
    Ok(())
}

/// The target of a typed transition limit.
#[derive(Debug, PartialEq, Eq)]
pub enum TransitionLimitTarget {
    Cluster,
    Resource(ResourceId),
    Instance(InstanceId),
}

/// The target of a typed transition limit.
pub enum LimitTarget {
    Cluster,
    Resource(Seq<char>),
    Instance(Seq<char>),
}

impl View for TransitionLimitTarget {
    type V = LimitTarget;

    open spec fn view(&self) -> LimitTarget {
        match self {
            TransitionLimitTarget::Cluster => LimitTarget::Cluster,
            TransitionLimitTarget::Resource(resource) => LimitTarget::Resource(resource@),
            TransitionLimitTarget::Instance(instance) => LimitTarget::Instance(instance@),
        }
    }
}

/// The class of transitions counted by a typed transition limit.
#[derive(Clone, Copy, Debug, PartialEq, Eq, Structural, PartialOrd, Ord)]
pub enum TransitionRebalanceType {
    Any,
    RecoveryBalance,
    LoadBalance,
}

/// A typed transition limit supplied by the application facade.
#[derive(Debug, PartialEq, Eq)]
pub struct TransitionLimitSpec {
    pub target: TransitionLimitTarget,
    pub rebalance_type: TransitionRebalanceType,
    pub max_in_flight: usize,
}

/// What a typed transition limit says.
pub struct LimitView {
    pub target: LimitTarget,
    pub rebalance_type: TransitionRebalanceType,
    pub max_in_flight: usize,
}

impl DeepView for TransitionLimitSpec {
    type V = LimitView;

    open spec fn deep_view(&self) -> LimitView {
        LimitView {
            target: self.target@,
            rebalance_type: self.rebalance_type,
            max_in_flight: self.max_in_flight,
        }
    }
}

/// The name of a class of transitions.
pub open spec fn rebalance_name(rebalance_type: TransitionRebalanceType) -> Seq<char> {
    match rebalance_type {
        TransitionRebalanceType::Any => "ANY"@,
        TransitionRebalanceType::RecoveryBalance => "RECOVERY_BALANCE"@,
        TransitionRebalanceType::LoadBalance => "LOAD_BALANCE"@,
    }
}

/// The record that a typed transition limit is stored as.
pub open spec fn limit_record(limit: LimitView) -> records::ThrottleRecordView {
    records::ThrottleRecordView {
        scope: match limit.target {
            LimitTarget::Cluster => "CLUSTER"@,
            LimitTarget::Resource(_) => "RESOURCE"@,
            LimitTarget::Instance(_) => "INSTANCE"@,
        },
        resource: match limit.target {
            LimitTarget::Resource(resource) => Some(resource),
            _ => None,
        },
        instance: match limit.target {
            LimitTarget::Instance(instance) => Some(instance),
            _ => None,
        },
        rebalance_type: rebalance_name(limit.rebalance_type),
        max_in_flight: limit.max_in_flight,
    }
}

/// The record that a typed transition limit is stored as.
pub fn transition_limit_record(limit: &TransitionLimitSpec) -> (r: ThrottleRecord)
    ensures
        r.deep_view() == limit_record(limit.deep_view()),
{
    let rebalance_type = match limit.rebalance_type {
        TransitionRebalanceType::Any => "ANY",
        TransitionRebalanceType::RecoveryBalance => "RECOVERY_BALANCE",
        TransitionRebalanceType::LoadBalance => "LOAD_BALANCE",
    }.to_owned();
    match &limit.target {
        TransitionLimitTarget::Cluster => ThrottleRecord {
            scope: "CLUSTER".to_owned(),
            resource: None,
            instance: None,
            rebalance_type,
            max_in_flight: limit.max_in_flight,
        },
        TransitionLimitTarget::Resource(resource) => ThrottleRecord {
            scope: "RESOURCE".to_owned(),
            resource: Some(resource.to_string()),
            instance: None,
            rebalance_type,
            max_in_flight: limit.max_in_flight,
        },
        TransitionLimitTarget::Instance(instance) => ThrottleRecord {
            scope: "INSTANCE".to_owned(),
            resource: None,
            instance: Some(instance.to_string()),
            rebalance_type,
            max_in_flight: limit.max_in_flight,
        },
    }
}

/// The limits may be stored: each limits something.
pub open spec fn limits_are_valid(limits: Seq<LimitView>) -> bool {
    forall|i: int| 0 <= i < limits.len() ==> (#[trigger] limits[i]).max_in_flight > 0
}

/// The records that typed transition limits are stored as.
pub open spec fn limit_records(limits: Seq<LimitView>) -> Seq<records::ThrottleRecordView> {
    Seq::new(limits.len(), |i: int| limit_record(limits[i]))
}

/// The records that typed transition limits are stored as, unless one limits
/// nothing.
pub fn put_transition_limits(limits: &Vec<TransitionLimitSpec>) -> (r: Result<
    Vec<ThrottleRecord>,
    CoordinationError,
>)
    ensures
        match r {
            Ok(records) => limits_are_valid(limits.deep_view()) && records.deep_view()
                == limit_records(limits.deep_view()),
            Err(error) => !limits_are_valid(limits.deep_view()) && error@
                == CoordinationFault::InvalidValue,
        },
{
    let ghost all = limits.deep_view();
    let mut records: Vec<ThrottleRecord> = Vec::new();
    let mut i: usize = 0;
    assert(records.deep_view() =~= limit_records(all).take(0));
    while i < limits.len()
        invariant
            i <= limits@.len(),
            all == limits.deep_view(),
            forall|j: int| 0 <= j < i ==> (#[trigger] all[j]).max_in_flight > 0,
            records.deep_view() == limit_records(all).take(i as int),
        decreases limits@.len() - i,
    {
        let ghost before = records.deep_view();
        assert(all[i as int] == limits@[i as int].deep_view());
        if limits[i].max_in_flight == 0 {
            return Err(CoordinationError::InvalidValue);
        }
        let record = transition_limit_record(&limits[i]);
        let ghost model = record.deep_view();
        records.push(record);
        proof {
            assert(records.deep_view() =~= before.push(model));
            assert(limit_records(all).take(i + 1) =~= limit_records(all).take(i as int).push(
                limit_records(all)[i as int],
            ));
        }
        i = i + 1;
    }
    assert(limit_records(all).take(i as int) =~= limit_records(all));
    Ok(records)
}

/// The scope of a typed transition limit.
pub open spec fn limit_scope(target: LimitTarget) -> ThrottleScope {
    match target {
        LimitTarget::Cluster => ThrottleScope::Cluster,
        LimitTarget::Resource(_) => ThrottleScope::Resource,
        LimitTarget::Instance(_) => ThrottleScope::Instance,
    }
}

/// The controller understands every typed transition limit that limits
/// something and targets something: its scope, its target, and its bound.
pub proof fn typed_limits_are_understood(limit: LimitView)
    requires
        limit.max_in_flight > 0,
        limit.target matches LimitTarget::Resource(resource) ==> resource.len() > 0,
        limit.target matches LimitTarget::Instance(instance) ==> instance.len() > 0,
    ensures
        records::throttle_of(limit_record(limit)) matches Ok(throttle) && throttle.scope
            == limit_scope(limit.target) && throttle.limit == limit.max_in_flight
            && throttle.target == match limit.target {
            LimitTarget::Cluster => None,
            LimitTarget::Resource(resource) => Some(quota::TargetView::Resource(resource)),
            LimitTarget::Instance(instance) => Some(quota::TargetView::Instance(instance)),
        },
{
    reveal_strlit("CLUSTER");
    reveal_strlit("RESOURCE");
    reveal_strlit("INSTANCE");
    reveal_strlit("ANY");
    reveal_strlit("RECOVERY_BALANCE");
    reveal_strlit("LOAD_BALANCE");
    assert("RESOURCE"@[0] == 'R' && "INSTANCE"@[0] == 'I');
    assert("ANY"@.len() == 3 && "RECOVERY_BALANCE"@.len() == 16 && "LOAD_BALANCE"@.len() == 12);
    assert("CLUSTER"@.len() == 7 && "RESOURCE"@.len() == 8 && "INSTANCE"@.len() == 8);
}

} // verus!
