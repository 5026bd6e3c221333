//! What holds of administrative writes.
use crate::admin::instances;
use crate::admin::instances::{
    InstanceRemovalView, InstanceUpdateView, InstancesActionView, ADMIN_CAS_RETRIES,
};
use crate::admin::limits;
use crate::admin::limits::{LimitTarget, LimitView, ThrottleSpecView, TransitionRebalanceType};
use crate::admin::resources;
use crate::admin::resources::{PlacementPolicy, ResourceSpecView};
use crate::controller::plans;
use crate::controller::records::{ConfigView, DecodedView};
use crate::coordination::etcd::error::CoordinationFault;
use crate::lists;
use crate::ordered;
use crate::text;
use vstd::prelude::*;

verus! {

/// A record of another name.
pub open spec fn not_named(name: Seq<char>) -> spec_fn(ConfigView) -> bool {
    |r: ConfigView| r.name != name
}

proof fn other_records_stay(records: Seq<ConfigView>, name: Seq<char>)
    ensures
        instances::without_name(records, name) == records.filter(not_named(name)),
    decreases records.len(),
{
    reveal(Seq::filter);
    if records.len() > 0 {
        other_records_stay(records.drop_last(), name);
    }
}

/// An instance has a name and a zone that is neither blank nor holds a NUL, and
/// a cluster is addressed by its own name.
pub proof fn instances_and_clusters_are_named(
    name: Seq<char>,
    zone: Seq<char>,
    own: Seq<char>,
    cluster: Seq<char>,
)
    ensures
        instances::instance_fault(name, zone) is None <==> name.len() > 0 && !text::blank(zone)
            && !zone.contains('\0'),
        name.len() == 0 ==> instances::instance_fault(name, zone) == Some(
            CoordinationFault::InvalidKey,
        ),
        instances::cluster_fault(own, cluster) is None <==> cluster == own && !text::blank(cluster)
            && !cluster.contains('\0'),
{
}

/// An instance is put into the records as they were read, at their revision,
/// unless it is there alone and in its zone. Records that cannot be read are
/// refused.
pub proof fn instances_are_put(
    v: InstanceUpdateView,
    revision: Option<i64>,
    records: Seq<ConfigView>,
    message: Seq<char>,
)
    ensures
        v.read(revision, DecodedView::Malformed(message)) == InstancesActionView::Finish(
            Err(CoordinationFault::InvalidValue),
        ),
        v.read(None, DecodedView::Missing) matches InstancesActionView::Put(None, updated)
            && updated == seq![ConfigView { name: v.name, zone: v.zone }],
        v.read(revision, DecodedView::Value(records)) matches InstancesActionView::Put(at, updated)
            ==> {
            &&& at == revision
            &&& updated.to_multiset() == records.filter(not_named(v.name)).push(
                ConfigView { name: v.name, zone: v.zone },
            ).to_multiset()
            &&& forall|i: int, j: int|
                0 <= i < j < updated.len() ==> !text::text_before(
                    (#[trigger] updated[j]).name,
                    (#[trigger] updated[i]).name,
                )
        },
        v.read(revision, DecodedView::Value(records)) is Put || v.read(
            revision,
            DecodedView::Value(records),
        ) == InstancesActionView::Finish(Ok(())),
{
    other_records_stay(records, v.name);
    put_is_ordered(records, v.name, v.zone);
    let none = Seq::<ConfigView>::empty();
    instances::sole_records_are_left_alone(v, None, none);
    instances::put_instance_changes_one(none, v.name, v.zone, v.name);
    put_is_ordered(none, v.name, v.zone);
    let updated = instances::with_instance(none, v.name, v.zone);
    assert(instances::without_name(none, v.name) =~= none);
    let one = seq![ConfigView { name: v.name, zone: v.zone }];
    assert(none.push(ConfigView { name: v.name, zone: v.zone }) =~= one);
    assert(updated.to_multiset() == one.to_multiset());
    single_is_itself(updated, ConfigView { name: v.name, zone: v.zone });
}

proof fn put_is_ordered(records: Seq<ConfigView>, name: Seq<char>, zone: Seq<char>)
    ensures
        ({
            let all = instances::without_name(records, name).push(ConfigView { name, zone });
            let updated = instances::with_instance(records, name, zone);
            &&& updated.to_multiset() == all.to_multiset()
            &&& instances::name_ordered(updated)
            &&& forall|i: int, j: int|
                0 <= i < j < updated.len() ==> !text::text_before(
                    (#[trigger] updated[j]).name,
                    (#[trigger] updated[i]).name,
                )
        }),
{
    let all = instances::without_name(records, name).push(ConfigView { name, zone });
    let updated = instances::with_instance(records, name, zone);
    lists::stable_sort_permutes(instances::by_name(), all);
    instances::sorted_is_ordered(all);
    assert forall|i: int, j: int| 0 <= i < j < updated.len() implies !text::text_before(
        (#[trigger] updated[j]).name,
        (#[trigger] updated[i]).name,
    ) by {
        assert(!instances::by_name()(updated[j], updated[i]));
    }
}

proof fn single_is_itself(s: Seq<ConfigView>, x: ConfigView)
    requires
        s.to_multiset() == seq![x].to_multiset(),
    ensures
        s == seq![x],
{
    broadcast use vstd::seq_lib::group_to_multiset_ensures;

    vstd::seq_lib::to_multiset_len(s);
    vstd::seq_lib::to_multiset_len(seq![x]);
    assert(s.len() == 1);
    assert(s.to_multiset().count(s[0]) > 0) by {
        assert(s.contains(s[0]));
    }
    assert(seq![x].contains(s[0]));
    assert(s =~= seq![x]);
}

/// Records that were put are final, and those that somebody else changed are
/// read again, a limited number of times.
pub proof fn changed_records_are_read_again(v: InstanceUpdateView)
    ensures
        v.stored(true).1 == InstancesActionView::Finish(Ok(())),
        v.tries + 1 < ADMIN_CAS_RETRIES ==> v.stored(false) == (
            InstanceUpdateView { tries: (v.tries + 1) as usize, ..v },
            InstancesActionView::Read,
        ),
        v.tries + 1 >= ADMIN_CAS_RETRIES ==> v.stored(false).1 == InstancesActionView::Finish(
            Err(CoordinationFault::Contention),
        ),
{
}

/// An instance is removed from the records at their revision, while it is not
/// live. One that is not there needs no removal, one that is live is refused,
/// and records that somebody else changed are read again, a limited number of
/// times.
pub proof fn absent_instances_are_removed(
    v: InstanceRemovalView,
    revision: i64,
    records: Seq<ConfigView>,
)
    ensures
        v.read(None, DecodedView::Missing) == InstancesActionView::Finish(Ok(())),
        (forall|i: int| 0 <= i < records.len() ==> (#[trigger] records[i]).name != v.name)
            ==> v.read(Some(revision), DecodedView::Value(records)) == InstancesActionView::Finish(
            Ok(()),
        ),
        (exists|i: int| 0 <= i < records.len() && (#[trigger] records[i]).name == v.name)
            ==> v.read(Some(revision), DecodedView::Value(records))
            == InstancesActionView::PutIfAbsent(revision, records.filter(not_named(v.name))),
        v.stored(true) == InstancesActionView::Finish(Ok(())),
        v.stored(false) is AskLive,
        v.live(true).1 == InstancesActionView::Finish(
            Err(CoordinationFault::InstanceStillLive(v.name)),
        ),
        v.tries + 1 < ADMIN_CAS_RETRIES ==> v.live(false) == (
            InstanceRemovalView { tries: (v.tries + 1) as usize, ..v },
            InstancesActionView::Read,
        ),
        v.tries + 1 >= ADMIN_CAS_RETRIES ==> v.live(false).1 == InstancesActionView::Finish(
            Err(CoordinationFault::Contention),
        ),
{
    other_records_stay(records, v.name);
}

/// A preference list that may be configured.
pub open spec fn good_list(partition: Seq<char>, list: Seq<Seq<char>>, replicas: usize) -> bool {
    &&& partition.len() > 0
    &&& list.len() == replicas
    &&& list.no_duplicates()
    &&& forall|i: int| 0 <= i < list.len() ==> (#[trigger] list[i]).len() > 0
}

proof fn good_listings(listing: Seq<(Seq<char>, Seq<Seq<char>>)>, replicas: usize)
    ensures
        resources::lists_fault(listing, replicas) is None <==> forall|k: int|
            0 <= k < listing.len() ==> good_list(
                (#[trigger] listing[k]).0,
                listing[k].1,
                replicas,
            ),
    decreases listing.len(),
{
    if listing.len() > 0 {
        let rest = listing.drop_last();
        let n = listing.len() - 1;
        good_listings(rest, replicas);
        assert(listing[n] == listing.last());
        assert(resources::list_fault(listing[n].0, listing[n].1, replicas) is None <==> good_list(
            listing[n].0,
            listing[n].1,
            replicas,
        ));
        if forall|k: int|
            0 <= k < listing.len() ==> good_list((#[trigger] listing[k]).0, listing[k].1, replicas) {
            assert forall|k: int| 0 <= k < rest.len() implies good_list(
                (#[trigger] rest[k]).0,
                rest[k].1,
                replicas,
            ) by {
                assert(rest[k] == listing[k]);
            }
            assert(good_list(listing[n].0, listing[n].1, replicas));
        }
        if resources::lists_fault(listing, replicas) is None {
            assert forall|k: int| 0 <= k < listing.len() implies good_list(
                (#[trigger] listing[k]).0,
                listing[k].1,
                replicas,
            ) by {
                if k < n {
                    assert(rest[k] == listing[k]);
                }
            }
        }
    }
}

/// A resource may be configured exactly where it is named, has partitions and
/// replicas and the built-in state model, and where its explicit lists are one
/// for each partition, each with as many different named instances as there are
/// replicas.
pub proof fn good_resources_are_configured(spec: ResourceSpecView)
    requires
        spec.placement matches PlacementPolicy::SemiAuto(lists) ==> lists.dom().finite(),
    ensures
        resources::resource_fault(spec) is None <==> {
            &&& spec.name.len() > 0
            &&& spec.partitions > 0
            &&& spec.replicas > 0
            &&& spec.state_model == "LeaderStandby"@
            &&& spec.placement matches PlacementPolicy::SemiAuto(lists) ==> lists.dom().len()
                == spec.partitions && forall|p: Seq<char>| #[trigger]
                lists.dom().contains(p) ==> good_list(p, lists[p], spec.replicas)
        },
{
    if let PlacementPolicy::SemiAuto(lists) = spec.placement {
        let listing = ordered::in_order::<String, Seq<Seq<char>>>(lists);
        ordered::finite_map_is_listed::<String, Seq<Seq<char>>>(lists);
        ordered::entries_are_counted::<String, Seq<Seq<char>>>(lists);
        good_listings(listing, spec.replicas);
        if forall|p: Seq<char>| #[trigger]
            lists.dom().contains(p) ==> good_list(p, lists[p], spec.replicas) {
            assert forall|k: int| 0 <= k < listing.len() implies good_list(
                (#[trigger] listing[k]).0,
                listing[k].1,
                spec.replicas,
            ) by {
                ordered::map_of_at::<String, Seq<Seq<char>>>(listing, k);
                assert(lists.dom().contains(listing[k].0));
            }
        }
        if forall|k: int|
            0 <= k < listing.len() ==> good_list(
                (#[trigger] listing[k]).0,
                listing[k].1,
                spec.replicas,
            ) {
            assert forall|p: Seq<char>| #[trigger] lists.dom().contains(p) implies good_list(
                p,
                lists[p],
                spec.replicas,
            ) by {
                let k = ordered::map_of_position(listing, p);
                assert(good_list(listing[k].0, listing[k].1, spec.replicas));
            }
        }
    }
}

/// The record of a resource says its name, its state model and its replicas. A
/// resource that the controller places has its partitions numbered from zero
/// and its topology, and any other one has its lists.
pub proof fn resources_are_recorded(spec: ResourceSpecView, i: int)
    ensures
        ({
            let r = resources::record_of(spec);
            &&& r.name == spec.name
            &&& r.state_model == spec.state_model
            &&& r.placement.replicas == spec.replicas
            &&& spec.placement matches PlacementPolicy::SemiAuto(lists) ==> r.placement.kind
                == "SEMI_AUTO"@ && r.placement.lists == lists && r.placement.partitions.len() == 0
            &&& !(spec.placement is SemiAuto) ==> r.placement.kind == "CRUSH"@
                && r.placement.partitions.len() == spec.partitions && r.placement.lists
                == plans::Lists::empty() && (0 <= i < spec.partitions
                ==> r.placement.partitions[i] == spec.name + "_"@ + text::decimal(i as nat))
            &&& spec.placement matches PlacementPolicy::CrushWithTopology(t)
                ==> r.placement.topology == Some(t)
            &&& !(spec.placement is CrushWithTopology) ==> r.placement.topology is None
        }),
{
}

/// A limit is recorded under the names of its scope and of its kind of work,
/// for its resource or instance.
pub proof fn limits_are_recorded(limit: LimitView)
    ensures
        ({
            let r = limits::limit_record(limit);
            &&& r.max_in_flight == limit.max_in_flight
            &&& limit.target is Cluster ==> r.scope == "CLUSTER"@ && r.resource is None
                && r.instance is None
            &&& limit.target matches LimitTarget::Resource(name) ==> r.scope == "RESOURCE"@
                && r.resource == Some(name) && r.instance is None
            &&& limit.target matches LimitTarget::Instance(name) ==> r.scope == "INSTANCE"@
                && r.instance == Some(name) && r.resource is None
            &&& r.rebalance_type == match limit.rebalance_type {
                TransitionRebalanceType::Any => "ANY"@,
                TransitionRebalanceType::RecoveryBalance => "RECOVERY_BALANCE"@,
                TransitionRebalanceType::LoadBalance => "LOAD_BALANCE"@,
            }
        }),
{
}

/// Limits are accepted where every one of them is positive, and throttles where
/// they also name their scope. Accepted limits are recorded in order.
pub proof fn positive_limits_are_accepted(
    all: Seq<LimitView>,
    throttles: Seq<ThrottleSpecView>,
    k: int,
)
    ensures
        limits::limits_are_valid(all) <==> !(exists|i: int|
            0 <= i < all.len() && (#[trigger] all[i]).max_in_flight == 0),
        limits::throttles_are_valid(throttles) <==> !(exists|i: int|
            0 <= i < throttles.len() && ((#[trigger] throttles[i]).max_in_flight == 0
                || text::blank(throttles[i].scope))),
        limits::limit_records(all).len() == all.len(),
        0 <= k < all.len() ==> limits::limit_records(all)[k] == limits::limit_record(all[k]),
{
}

} // verus!
