//! What holds of specifications, configurations, and the way they are applied.
use crate::admin::limits::LimitTarget;
use crate::admin::resources::PlacementPolicy;
use crate::cluster::apply;
use crate::cluster::apply::{ApplyActionView, ApplyView};
use crate::cluster::config::{ConfigView, EnvironmentView};
use crate::cluster::error::ApplicationFault;
use crate::cluster::limit::TypedLimit;
use crate::cluster::spec;
use crate::cluster::spec::{InstanceDecl, ResourceDecl, SpecView};
use crate::coordination::etcd::error::CoordinationFault;
use crate::coordination::etcd::options::ConnectionView;
use crate::ordered;
use crate::text;
use vstd::prelude::*;

verus! {

/// An instance that may be declared.
pub open spec fn good_instance(i: InstanceDecl) -> bool {
    i.id.len() > 0 && !text::blank(i.zone) && !i.zone.contains('\0')
}

proof fn good_instances(all: Seq<InstanceDecl>)
    ensures
        spec::instances_fault(all) is None <==> (forall|k: int|
            0 <= k < all.len() ==> good_instance(#[trigger] all[k])) && (forall|j: int, k: int|
            0 <= j < k < all.len() ==> (#[trigger] all[j]).id != (#[trigger] all[k]).id),
    decreases all.len(),
{
    if all.len() > 0 {
        let rest = all.drop_last();
        let n = all.len() - 1;
        good_instances(rest);
        assert(all[n] == all.last());
        let good = (forall|k: int| 0 <= k < all.len() ==> good_instance(#[trigger] all[k])) && (
        forall|j: int, k: int|
            0 <= j < k < all.len() ==> (#[trigger] all[j]).id != (#[trigger] all[k]).id);
        if good {
            assert forall|k: int| 0 <= k < rest.len() implies good_instance(#[trigger] rest[k]) by {
                assert(rest[k] == all[k]);
            }
            assert forall|j: int, k: int| 0 <= j < k < rest.len() implies (#[trigger] rest[j]).id
                != (#[trigger] rest[k]).id by {
                assert(rest[j] == all[j] && rest[k] == all[k]);
            }
            assert(good_instance(all[n]));
            assert(!spec::instance_repeats(all));
        }
        if spec::instances_fault(all) is None {
            assert forall|k: int| 0 <= k < all.len() implies good_instance(#[trigger] all[k]) by {
                if k < n {
                    assert(rest[k] == all[k]);
                }
            }
            assert forall|j: int, k: int| 0 <= j < k < all.len() implies (#[trigger] all[j]).id != (
            #[trigger] all[k]).id by {
                if k < n {
                    assert(rest[j] == all[j] && rest[k] == all[k]);
                } else {
                    assert(!spec::instance_repeats(all));
                }
            }
        }
    }
}

/// A resource that may be declared: its explicit lists are one for each
/// partition, each with as many different instances as there are replicas.
pub open spec fn good_resource(r: ResourceDecl) -> bool {
    &&& r.name.len() > 0
    &&& r.partitions > 0
    &&& r.replicas > 0
    &&& r.placement matches PlacementPolicy::SemiAuto(lists) ==> lists.dom().len() == r.partitions
        && forall|p: Seq<char>| #[trigger]
        lists.dom().contains(p) ==> lists[p].len() == r.replicas && lists[p].no_duplicates()
}

/// Explicit lists are finitely many.
pub open spec fn finite_lists(r: ResourceDecl) -> bool {
    r.placement matches PlacementPolicy::SemiAuto(lists) ==> lists.dom().finite()
}

proof fn good_lists(r: ResourceDecl)
    requires
        finite_lists(r),
        r.name.len() > 0,
        r.partitions > 0,
        r.replicas > 0,
    ensures
        spec::lists_fault(r) is None <==> good_resource(r),
{
    if let PlacementPolicy::SemiAuto(lists) = r.placement {
        ordered::entries_are_counted::<String, Seq<Seq<char>>>(lists);
        if spec::lists_fault(r) is None {
            assert forall|p: Seq<char>| #[trigger] lists.dom().contains(p) implies lists[p].len()
                == r.replicas && lists[p].no_duplicates() by {
                assert(!spec::some_list_misses(lists, r.replicas));
                assert(!spec::some_list_repeats(lists));
            }
        }
    }
}

proof fn good_resources(all: Seq<ResourceDecl>)
    requires
        forall|k: int| 0 <= k < all.len() ==> finite_lists(#[trigger] all[k]),
    ensures
        spec::resources_fault(all) is None <==> (forall|k: int|
            0 <= k < all.len() ==> good_resource(#[trigger] all[k])) && (forall|j: int, k: int|
            0 <= j < k < all.len() ==> (#[trigger] all[j]).name != (#[trigger] all[k]).name),
    decreases all.len(),
{
    if all.len() > 0 {
        let rest = all.drop_last();
        let n = all.len() - 1;
        assert forall|k: int| 0 <= k < rest.len() implies finite_lists(#[trigger] rest[k]) by {
            assert(rest[k] == all[k]);
        }
        good_resources(rest);
        assert(all[n] == all.last());
        assert(finite_lists(all[n]));
        if all[n].name.len() > 0 && all[n].partitions > 0 && all[n].replicas > 0 {
            good_lists(all[n]);
        }
        let good = (forall|k: int| 0 <= k < all.len() ==> good_resource(#[trigger] all[k])) && (
        forall|j: int, k: int|
            0 <= j < k < all.len() ==> (#[trigger] all[j]).name != (#[trigger] all[k]).name);
        if good {
            assert forall|k: int| 0 <= k < rest.len() implies good_resource(#[trigger] rest[k]) by {
                assert(rest[k] == all[k]);
            }
            assert forall|j: int, k: int| 0 <= j < k < rest.len() implies (#[trigger] rest[j]).name
                != (#[trigger] rest[k]).name by {
                assert(rest[j] == all[j] && rest[k] == all[k]);
            }
            assert(good_resource(all[n]));
            assert(!spec::resource_repeats(all));
        }
        if spec::resources_fault(all) is None {
            assert forall|k: int| 0 <= k < all.len() implies good_resource(#[trigger] all[k]) by {
                if k < n {
                    assert(rest[k] == all[k]);
                }
            }
            assert forall|j: int, k: int| 0 <= j < k < all.len() implies (#[trigger] all[j]).name
                != (#[trigger] all[k]).name by {
                if k < n {
                    assert(rest[j] == all[j] && rest[k] == all[k]);
                } else {
                    assert(!spec::resource_repeats(all));
                }
            }
        }
    }
}

/// A specification may be applied exactly where its instances are named and
/// zoned and differ, and its resources have partitions, replicas and lists that
/// fit them, and differ.
pub proof fn good_specifications_are_applied(v: SpecView)
    requires
        forall|k: int| 0 <= k < v.resources.len() ==> finite_lists(#[trigger] v.resources[k]),
    ensures
        v.fault() is None <==> {
            &&& forall|k: int|
                0 <= k < v.instances.len() ==> good_instance(#[trigger] v.instances[k])
            &&& forall|j: int, k: int|
                0 <= j < k < v.instances.len() ==> (#[trigger] v.instances[j]).id != (
                #[trigger] v.instances[k]).id
            &&& forall|k: int|
                0 <= k < v.resources.len() ==> good_resource(#[trigger] v.resources[k])
            &&& forall|j: int, k: int|
                0 <= j < k < v.resources.len() ==> (#[trigger] v.resources[j]).name != (
                #[trigger] v.resources[k]).name
        },
        v.fault() is None ==> apply::begin(v) == (
            ApplyView { instances: v.instances, resources: v.resources },
            ApplyActionView::EnsureCluster,
        ),
        v.fault() matches Some(message) ==> apply::begin(v).1
            == ApplyActionView::Finish(Err(ApplicationFault::Spec(message))),
{
    good_instances(v.instances);
    good_resources(v.resources);
}

/// A specification is applied instance by instance and then resource by
/// resource, and the first fault of the store ends it.
pub proof fn specifications_are_applied_in_order(v: ApplyView, fault: CoordinationFault)
    ensures
        v.next(Err(fault)).1 == ApplyActionView::Finish(Err(ApplicationFault::Coordination(fault))),
        v.instances.len() > 0 ==> v.next(Ok(())) == (
            ApplyView { instances: v.instances.skip(1), ..v },
            ApplyActionView::PutInstance(v.instances[0]),
        ),
        v.instances.len() == 0 && v.resources.len() > 0 ==> v.next(Ok(())).0 == (ApplyView {
            resources: v.resources.skip(1),
            ..v
        }) && (v.next(Ok(())).1 matches ApplyActionView::PutResource(r) && r.name
            == v.resources[0].name && r.partitions == v.resources[0].partitions && r.replicas
            == v.resources[0].replicas && r.placement == v.resources[0].placement && r.state_model
            == "LeaderStandby"@),
        v.instances.len() == 0 && v.resources.len() == 0 ==> v.next(Ok(())).1
            == ApplyActionView::Finish(Ok(())),
{
}

/// A limit may be set where it is positive and its target is named.
pub proof fn good_limits_are_set(limit: TypedLimit)
    ensures
        limit.fault() is None <==> limit.max_in_flight > 0 && (limit.target matches
            LimitTarget::Resource(name) ==> name.len() > 0) && (limit.target matches
            LimitTarget::Instance(name) ==> name.len() > 0),
        limit.low_level().target == limit.target,
        limit.low_level().max_in_flight == limit.max_in_flight,
        limit.low_level().rebalance_type is Any <==> limit.transition_type is Any,
        limit.low_level().rebalance_type is RecoveryBalance
            <==> limit.transition_type is RecoveryBalance,
        limit.low_level().rebalance_type is LoadBalance <==> limit.transition_type is LoadBalance,
{
}

/// The first limit that may not be set says why none is.
pub proof fn first_bad_limit_is_told(all: Seq<TypedLimit>)
    ensures
        apply::limits_fault(all) is None <==> forall|k: int|
            0 <= k < all.len() ==> (#[trigger] all[k]).fault() is None,
        apply::limits_fault(all) is Some ==> exists|k: int|
            0 <= k < all.len() && apply::limits_fault(all) == (#[trigger] all[k]).fault()
                && forall|j: int| 0 <= j < k ==> (#[trigger] all[j]).fault() is None,
    decreases all.len(),
{
    if all.len() > 0 {
        let rest = all.drop_last();
        let n = all.len() - 1;
        first_bad_limit_is_told(rest);
        assert(all[n] == all.last());
        assert(forall|k: int| 0 <= k < n ==> #[trigger] rest[k] == all[k]);
        assert(forall|k: int| 0 <= k < n ==> #[trigger] all[k] == rest[k]);
        if apply::limits_fault(rest) is Some {
            let k = choose|k: int|
                0 <= k < rest.len() && apply::limits_fault(rest) == (#[trigger] rest[k]).fault()
                    && forall|j: int| 0 <= j < k ==> (#[trigger] rest[j]).fault() is None;
            assert(all[k] == rest[k]);
            assert(all[k].fault() is Some);
            assert forall|j: int| 0 <= j < k implies (#[trigger] all[j]).fault() is None by {
                assert(rest[j] == all[j]);
            }
        } else {
            assert forall|j: int| 0 <= j < n implies (#[trigger] all[j]).fault() is None by {
                assert(rest[j] == all[j]);
            }
        }
    }
}

/// A run ends with the fault of the signal before that of the callback, and
/// with its own result where neither failed.
pub proof fn runs_end_with_the_first_fault(
    signal: Option<Seq<char>>,
    callback: Option<Seq<char>>,
    result: Result<(), ApplicationFault>,
)
    ensures
        signal matches Some(error) ==> apply::outcome(signal, callback, result) == Err::<
            (),
            ApplicationFault,
        >(ApplicationFault::Signal(error)),
        signal is None && callback is Some ==> apply::outcome(signal, callback, result) == Err::<
            (),
            ApplicationFault,
        >(ApplicationFault::Callback(callback->0)),
        signal is None && callback is None ==> apply::outcome(signal, callback, result) == result,
{
}

/// A configuration names its cluster, its namespace and its endpoints, and its
/// connection is sound.
pub proof fn good_configurations_are_accepted(v: ConfigView)
    ensures
        v.fault() is None <==> {
            &&& !text::blank(v.cluster) && !v.cluster.contains('\0')
            &&& v.endpoints.len() > 0
            &&& forall|k: int|
                0 <= k < v.endpoints.len() ==> !text::blank(#[trigger] v.endpoints[k])
            &&& !text::blank(v.namespace) && !v.namespace.contains('\0')
            &&& v.connection.fault() is None
        },
        v.fault() is Some ==> v.fault()->0 is Invalid,
{
}

/// A connection gives a user name with a password and a client certificate with
/// a key, neither empty, no timeout of zero, and a domain name that can be one.
pub proof fn good_connections_are_accepted(v: ConnectionView)
    ensures
        v.fault() is None <==> {
            &&& v.username is Some <==> v.password is Some
            &&& v.client_certificate is Some <==> v.client_key is Some
            &&& v.ca_certificate is Some ==> v.ca_certificate->0.len() > 0
            &&& v.client_certificate is Some ==> v.client_certificate->0.len() > 0
            &&& v.client_key is Some ==> v.client_key->0.len() > 0
            &&& v.connect_timeout != Some(0nat) && v.request_timeout != Some(0nat)
            &&& v.keep_alive_interval != Some(0nat) && v.keep_alive_timeout != Some(0nat)
            &&& v.tls_domain_name is Some ==> !text::blank(v.tls_domain_name->0)
                && !v.tls_domain_name->0.contains('\0')
        },
{
}

/// A local configuration is accepted for every cluster that can be named, and
/// has no credentials.
pub proof fn local_configurations(cluster: Seq<char>)
    ensures
        ({
            let v = ConfigView::local(cluster);
            &&& v.cluster == cluster
            &&& v.endpoints == seq!["http://127.0.0.1:2379"@]
            &&& v.namespace == "/clustodian/"@ + cluster
            &&& v.connection.username is None && v.connection.password is None
            &&& v.connection.ca_certificate is None && v.connection.client_certificate is None
                && v.connection.client_key is None && v.connection.tls_domain_name is None
            &&& v.connection.connect_timeout is None && v.connection.request_timeout is None
                && v.connection.keep_alive_interval is None
                && v.connection.keep_alive_timeout is None
        }),
{
}

/// What the environment sets is taken over, and what it leaves out is as in a
/// local configuration.
pub proof fn environments_override_the_defaults(v: EnvironmentView)
    ensures
        ({
            let c = v.config();
            let list = if v.endpoints is Some {
                v.endpoints->0
            } else {
                "http://127.0.0.1:2379"@
            };
            &&& c.cluster == if v.cluster is Some {
                v.cluster->0
            } else {
                "default"@
            }
            &&& c.namespace == if v.namespace is Some {
                v.namespace->0
            } else {
                "/clustodian/"@ + c.cluster
            }
            &&& c.endpoints.len() == text::parts_of(list, ',').len()
            &&& forall|k: int|
                0 <= k < c.endpoints.len() ==> #[trigger] c.endpoints[k] == text::trimmed(
                    text::parts_of(list, ',')[k],
                )
            &&& c.connection.username == v.username && c.connection.password == v.password
            &&& c.connection.tls_domain_name == v.tls_domain_name
            &&& v.ca_certificate is Some && v.ca_certificate->0 is Ok
                ==> c.connection.ca_certificate == Some(v.ca_certificate->0->Ok_0)
            &&& v.client_certificate is Some && v.client_certificate->0 is Ok
                ==> c.connection.client_certificate == Some(v.client_certificate->0->Ok_0)
            &&& v.client_key is Some && v.client_key->0 is Ok ==> c.connection.client_key == Some(
                v.client_key->0->Ok_0,
            )
        }),
        v.fault() is None <==> {
            &&& v.username is Some <==> v.password is Some
            &&& v.ca_certificate is Some ==> v.ca_certificate->0 is Ok
            &&& v.client_certificate is Some <==> v.client_key is Some
            &&& v.client_certificate is Some ==> v.client_certificate->0 is Ok && v.client_key->0
                is Ok
        },
{
}

/// Handlers are declared once for each resource, under a name.
pub proof fn handlers_are_declared_once(names: Seq<Seq<char>>)
    ensures
        spec::handled(names) is None <==> names.no_duplicates() && forall|k: int|
            0 <= k < names.len() ==> (#[trigger] names[k]).len() > 0,
    decreases names.len(),
{
    if names.len() > 0 {
        let rest = names.drop_last();
        let n = names.len() - 1;
        handlers_are_declared_once(rest);
        assert(names[n] == names.last());
        let good = names.no_duplicates() && forall|k: int|
            0 <= k < names.len() ==> (#[trigger] names[k]).len() > 0;
        if good {
            assert forall|a: int, b: int|
                0 <= a < rest.len() && 0 <= b < rest.len() && a != b implies rest[a] != rest[b] by {
                assert(rest[a] == names[a] && rest[b] == names[b]);
            }
            assert(rest.no_duplicates());
            assert forall|k: int| 0 <= k < rest.len() implies (#[trigger] rest[k]).len() > 0 by {
                assert(rest[k] == names[k]);
            }
            if rest.contains(names[n]) {
                let k = rest.index_of(names[n]);
                assert(names[k] == names[n]);
            }
            assert(names[n].len() > 0);
        }
        if spec::handled(names) is None {
            assert forall|k: int| 0 <= k < names.len() implies (#[trigger] names[k]).len() > 0 by {
                if k < n {
                    assert(rest[k] == names[k]);
                }
            }
            assert forall|a: int, b: int|
                0 <= a < names.len() && 0 <= b < names.len() && a != b implies names[a]
                != names[b] by {
                if a < n && b < n {
                    assert(rest[a] == names[a] && rest[b] == names[b]);
                } else if a < n {
                    assert(rest[a] == names[a]);
                } else {
                    assert(rest[b] == names[b]);
                }
            }
        }
    }
}

/// A connection is encrypted where anything that needs encryption is given.
pub proof fn encrypted_connections(v: ConnectionView)
    ensures
        v.tls() <==> !(v.ca_certificate is None && v.client_certificate is None && v.client_key
            is None && v.tls_domain_name is None),
{
}

} // verus!
