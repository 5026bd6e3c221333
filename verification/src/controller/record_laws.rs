//! What holds of the records that a controller reads.
use crate::controller::quota;
use crate::controller::records::{self, ConfigView, DecodedView, ThrottleRecordView};
use crate::model::IdentifierKind;
use vstd::prelude::*;

verus! {

/// The record at `k` is the last of its name.
pub open spec fn last_of_name(all: Seq<ConfigView>, name: Seq<char>, k: int) -> bool {
    &&& 0 <= k < all.len()
    &&& all[k].name == name
    &&& forall|j: int| k < j < all.len() ==> (#[trigger] all[j]).name != name
}

/// Every configured instance is in the zone of its last record. Without an
/// empty name there is no failure, and with one there is.
pub proof fn instances_are_in_their_zones(all: Seq<ConfigView>)
    ensures
        records::configured_zones(DecodedView::Value(all)) is Ok <==> forall|k: int|
            0 <= k < all.len() ==> (#[trigger] all[k]).name.len() > 0,
        records::configured_zones(DecodedView::Value(all)) is Err
            ==> records::configured_zones(DecodedView::Value(all))->Err_0
            == records::empty_identity(IdentifierKind::Instance),
        records::configured_zones(DecodedView::Value(all)) matches Ok(zones) ==> {
            &&& forall|k: int|
                0 <= k < all.len() ==> zones.dom().contains((#[trigger] all[k]).name)
            &&& forall|name: Seq<char>| #[trigger]
                zones.dom().contains(name) ==> exists|k: int| #[trigger]
                    last_of_name(all, name, k) && zones[name] == all[k].zone
        },
    decreases all.len(),
{
    if all.len() > 0 {
        let rest = all.drop_last();
        let n = all.len() - 1;
        instances_are_in_their_zones(rest);
        assert(all[n] == all.last());
        if forall|k: int| 0 <= k < all.len() ==> (#[trigger] all[k]).name.len() > 0 {
            assert forall|k: int| 0 <= k < rest.len() implies (#[trigger] rest[k]).name.len()
                > 0 by {
                assert(rest[k] == all[k]);
            }
            assert(all[n].name.len() > 0);
        }
        if records::zones_of(all) is Ok {
            let zones = records::zones_of(all)->Ok_0;
            let before = records::zones_of(rest)->Ok_0;
            assert forall|k: int| 0 <= k < all.len() implies (#[trigger] all[k]).name.len() > 0
                && zones.dom().contains(all[k].name) by {
                if k < n {
                    assert(rest[k] == all[k]);
                }
            }
            assert forall|name: Seq<char>| #[trigger] zones.dom().contains(name) implies exists|
                k: int,
            | #[trigger]
                last_of_name(all, name, k) && zones[name] == all[k].zone by {
                if name == all.last().name {
                    assert(last_of_name(all, name, n));
                } else {
                    assert(before.dom().contains(name));
                    let k = choose|k: int| #[trigger]
                        last_of_name(rest, name, k) && before[name] == rest[k].zone;
                    assert(last_of_name(all, name, k)) by {
                        assert forall|j: int| k < j < all.len() implies (#[trigger] all[j]).name
                            != name by {
                            if j < n {
                                assert(rest[j] == all[j]);
                            }
                        }
                    }
                    assert(all[k] == rest[k]);
                }
            }
        }
    }
}

/// Without records no instance is configured, and malformed ones fail with
/// their message.
pub proof fn unread_configurations(message: Seq<char>)
    ensures
        records::configured_zones(DecodedView::Missing) == Ok::<Map<Seq<char>, Seq<char>>, Seq<char>>(
            Map::empty(),
        ),
        records::configured_zones(DecodedView::Malformed(message)) == Err::<
            Map<Seq<char>, Seq<char>>,
            Seq<char>,
        >(message),
        records::configured_throttles(DecodedView::Missing) == Ok::<
            Seq<quota::ThrottleView>,
            Seq<char>,
        >(Seq::empty()),
        records::configured_throttles(DecodedView::Malformed(message)) == Err::<
            Seq<quota::ThrottleView>,
            Seq<char>,
        >(message),
{
}

/// A throttle record is accepted exactly where its scope and its kind of work
/// are known, its limit is positive, and it targets nothing, or a named
/// resource under the resource scope, or a named instance under the instance
/// scope. It then limits what it says.
pub proof fn throttle_records_are_understood(record: ThrottleRecordView)
    ensures
        records::throttle_of(record) is Ok <==> {
            &&& record.scope == "CLUSTER"@ || record.scope == "RESOURCE"@ || record.scope
                == "INSTANCE"@
            &&& record.rebalance_type == "ANY"@ || record.rebalance_type == "RECOVERY_BALANCE"@
                || record.rebalance_type == "LOAD_BALANCE"@
            &&& record.max_in_flight > 0
            &&& record.resource is Some ==> record.scope == "RESOURCE"@ && record.resource->0.len()
                > 0
            &&& record.instance is Some ==> record.scope == "INSTANCE"@ && record.instance->0.len()
                > 0
        },
        records::throttle_of(record) matches Ok(c) ==> {
            &&& c.limit == record.max_in_flight
            &&& c.scope is Cluster <==> record.scope == "CLUSTER"@
            &&& c.scope is Resource <==> record.scope == "RESOURCE"@
            &&& c.scope is Instance <==> record.scope == "INSTANCE"@
            &&& c.kind is Any <==> record.rebalance_type == "ANY"@
            &&& c.kind is RecoveryBalance <==> record.rebalance_type == "RECOVERY_BALANCE"@
            &&& c.kind is LoadBalance <==> record.rebalance_type == "LOAD_BALANCE"@
            &&& c.target is None <==> record.resource is None && record.instance is None
            &&& record.resource matches Some(r) ==> c.target == Some(quota::TargetView::Resource(r))
            &&& record.instance matches Some(i) ==> c.target == Some(quota::TargetView::Instance(i))
        },
{
    reveal_strlit("CLUSTER");
    reveal_strlit("RESOURCE");
    reveal_strlit("INSTANCE");
    reveal_strlit("ANY");
    reveal_strlit("RECOVERY_BALANCE");
    reveal_strlit("LOAD_BALANCE");
    assert("CLUSTER"@.len() != "RESOURCE"@.len());
    assert("INSTANCE"@[0] != "RESOURCE"@[0]);
    assert("ANY"@.len() < "LOAD_BALANCE"@.len() < "RECOVERY_BALANCE"@.len());
}

/// The throttles are those of the records, in order, where every record is
/// accepted. Otherwise the first that is not says why.
pub proof fn throttles_are_those_of_the_records(all: Seq<ThrottleRecordView>)
    ensures
        match records::configured_throttles(DecodedView::Value(all)) {
            Ok(configs) => configs.len() == all.len() && forall|k: int|
                0 <= k < all.len() ==> records::throttle_of(#[trigger] all[k]) == Ok::<
                    quota::ThrottleView,
                    Seq<char>,
                >(configs[k]),
            Err(message) => exists|k: int|
                0 <= k < all.len() && records::throttle_of(#[trigger] all[k]) == Err::<
                    quota::ThrottleView,
                    Seq<char>,
                >(message) && forall|j: int|
                    0 <= j < k ==> records::throttle_of(#[trigger] all[j]) is Ok,
        },
    decreases all.len(),
{
    if all.len() > 0 {
        let rest = all.drop_last();
        let n = all.len() - 1;
        throttles_are_those_of_the_records(rest);
        assert(all[n] == all.last());
        match records::throttles_of(rest) {
            Ok(before) => {
                assert forall|k: int| 0 <= k < n implies records::throttle_of(#[trigger] all[k])
                    == Ok::<quota::ThrottleView, Seq<char>>(before[k]) by {
                    assert(rest[k] == all[k]);
                }
            },
            Err(message) => {
                let k = choose|k: int|
                    0 <= k < rest.len() && records::throttle_of(#[trigger] rest[k]) == Err::<
                        quota::ThrottleView,
                        Seq<char>,
                    >(message) && forall|j: int|
                        0 <= j < k ==> records::throttle_of(#[trigger] rest[j]) is Ok;
                assert(all[k] == rest[k]);
                assert forall|j: int| 0 <= j < k implies records::throttle_of(
                    #[trigger] all[j],
                ) is Ok by {
                    assert(rest[j] == all[j]);
                }
            },
        }
    }
}

} // verus!
