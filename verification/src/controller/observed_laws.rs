//! What holds of the states that a controller observes.
use crate::controller::intermediate_laws;
use crate::controller::observed;
use crate::controller::pending_laws;
use crate::model::replica_state;
use crate::model::replica_state::Replicas;
use crate::model::session;
use crate::model::{InstanceId, ResourceId};
use crate::ordered;
use vstd::prelude::*;

verus! {

/// There are finitely many resources and replicas.
pub open spec fn finite(m: session::Resources) -> bool {
    m.dom().finite() && forall|r: Seq<char>| #[trigger]
        m.dom().contains(r) ==> replica_state::finite(m[r])
}

proof fn replicas_get_in(m: Replicas, replicas: Replicas, keep: Set<Seq<char>>, p: Seq<char>, i: Seq<char>)
    requires
        replica_state::finite(replicas),
    ensures
        intermediate_laws::found(
            observed::put_cells(m, replica_state::cells(replicas), keep),
            p,
            i,
        ) == if keep.contains(i) && intermediate_laws::found(replicas, p, i) is Some {
            intermediate_laws::found(replicas, p, i)
        } else {
            intermediate_laws::found(m, p, i)
        },
{
    replica_state::every_replica_is_listed(replicas);
    let cells = replica_state::cells(replicas);
    observed::put_cells_places(m, cells, replicas, keep, p, i);
    if intermediate_laws::found(replicas, p, i) is Some {
        let cell = (p, i, replicas[p][i]);
        assert(cells.contains(cell));
        let k = cells.index_of(cell);
        assert(cells[k].0 == p && cells[k].1 == i);
    }
}

proof fn resources_get_in(
    m: session::Resources,
    listing: Seq<(Seq<char>, Replicas)>,
    keep: Set<Seq<char>>,
    r: Seq<char>,
    p: Seq<char>,
    i: Seq<char>,
)
    requires
        forall|a: int, b: int|
            0 <= a < b < listing.len() ==> (#[trigger] listing[a]).0 != (#[trigger] listing[b]).0,
        forall|a: int| 0 <= a < listing.len() ==> replica_state::finite((#[trigger] listing[a]).1),
    ensures
        ({
            let after = observed::put_resources(m, listing, keep);
            let state = pending_laws::observed_state(after, r, p, i);
            &&& forall|a: int|
                0 <= a < listing.len() && (#[trigger] listing[a]).0 == r && keep.contains(i)
                    && intermediate_laws::found(listing[a].1, p, i) is Some ==> state
                    == intermediate_laws::found(listing[a].1, p, i)
            &&& (forall|a: int|
                0 <= a < listing.len() && (#[trigger] listing[a]).0 == r ==> !keep.contains(i)
                    || intermediate_laws::found(listing[a].1, p, i) is None) ==> state
                == pending_laws::observed_state(m, r, p, i)
            &&& after.dom().contains(r) <==> m.dom().contains(r) || exists|a: int|
                0 <= a < listing.len() && (#[trigger] listing[a]).0 == r
        }),
    decreases listing.len(),
{
    if listing.len() > 0 {
        let rest = listing.drop_last();
        let n = listing.len() - 1;
        let last = listing.last();
        assert forall|a: int, b: int| 0 <= a < b < rest.len() implies (#[trigger] rest[a]).0 != (
        #[trigger] rest[b]).0 by {
            assert(rest[a] == listing[a] && rest[b] == listing[b]);
        }
        assert forall|a: int| 0 <= a < rest.len() implies replica_state::finite(
            (#[trigger] rest[a]).1,
        ) by {
            assert(rest[a] == listing[a]);
        }
        resources_get_in(m, rest, keep, r, p, i);
        let before = observed::put_resources(m, rest, keep);
        let after = observed::put_resources(m, listing, keep);
        assert(listing[n] == last);
        replicas_get_in(observed::replicas_of(before, last.0), last.1, keep, p, i);
        let state = pending_laws::observed_state(after, r, p, i);
        assert forall|a: int|
            0 <= a < listing.len() && (#[trigger] listing[a]).0 == r && keep.contains(i)
                && intermediate_laws::found(listing[a].1, p, i) is Some implies state
            == intermediate_laws::found(listing[a].1, p, i) by {
            if a < n {
                assert(rest[a] == listing[a]);
            }
        }
        if forall|a: int|
            0 <= a < listing.len() && (#[trigger] listing[a]).0 == r ==> !keep.contains(i)
                || intermediate_laws::found(listing[a].1, p, i) is None {
            assert forall|a: int| 0 <= a < rest.len() && (#[trigger] rest[a]).0 == r implies (
            !keep.contains(i) || intermediate_laws::found(rest[a].1, p, i) is None) by {
                assert(rest[a] == listing[a]);
            }
        }
        if before.dom().contains(r) && !m.dom().contains(r) {
            let a = choose|a: int| 0 <= a < rest.len() && (#[trigger] rest[a]).0 == r;
            assert(listing[a].0 == r);
        }
        if exists|a: int| 0 <= a < listing.len() && (#[trigger] listing[a]).0 == r {
            let a = choose|a: int| 0 <= a < listing.len() && (#[trigger] listing[a]).0 == r;
            if a < n {
                assert(rest[a].0 == r);
            }
        }
    }
}

/// Every participant reports its own replicas only, finitely many.
pub open spec fn own_replicas(listing: Seq<(Seq<char>, (u64, session::Resources))>) -> bool {
    forall|a: int|
        0 <= a < listing.len() ==> finite((#[trigger] listing[a]).1.1) && forall|
            r: Seq<char>,
            p: Seq<char>,
            i: Seq<char>,
        |
            (#[trigger] pending_laws::observed_state(listing[a].1.1, r, p, i)) is Some ==> i
                == listing[a].0
}

proof fn participants_get_in(
    listing: Seq<(Seq<char>, (u64, session::Resources))>,
    keep: Set<Seq<char>>,
    r: Seq<char>,
    p: Seq<char>,
    i: Seq<char>,
)
    requires
        forall|a: int, b: int|
            0 <= a < b < listing.len() ==> (#[trigger] listing[a]).0 != (#[trigger] listing[b]).0,
        own_replicas(listing),
    ensures
        ({
            let after = observed::put_active(listing, keep);
            let state = pending_laws::observed_state(after, r, p, i);
            &&& forall|a: int|
                0 <= a < listing.len() && (#[trigger] listing[a]).0 == i && keep.contains(i)
                    ==> state == pending_laws::observed_state(listing[a].1.1, r, p, i)
            &&& (forall|a: int| 0 <= a < listing.len() ==> (#[trigger] listing[a]).0 != i)
                ==> state is None
            &&& !keep.contains(i) ==> state is None
            &&& after.dom().contains(r) <==> exists|a: int|
                0 <= a < listing.len() && (#[trigger] listing[a]).1.1.dom().contains(r)
        }),
    decreases listing.len(),
{
    if listing.len() > 0 {
        let rest = listing.drop_last();
        let n = listing.len() - 1;
        let last = listing.last();
        assert forall|a: int, b: int| 0 <= a < b < rest.len() implies (#[trigger] rest[a]).0 != (
        #[trigger] rest[b]).0 by {
            assert(rest[a] == listing[a] && rest[b] == listing[b]);
        }
        assert(own_replicas(rest)) by {
            assert forall|a: int| 0 <= a < rest.len() implies finite((#[trigger] rest[a]).1.1)
                && forall|r: Seq<char>, p: Seq<char>, i: Seq<char>|
                (#[trigger] pending_laws::observed_state(rest[a].1.1, r, p, i)) is Some ==> i
                    == rest[a].0 by {
                assert(rest[a] == listing[a]);
            }
        }
        participants_get_in(rest, keep, r, p, i);
        let before = observed::put_active(rest, keep);
        let after = observed::put_active(listing, keep);
        assert(listing[n] == last);
        let own = last.1.1;
        let rows = ordered::in_order::<ResourceId, Replicas>(own);
        ordered::finite_map_is_listed::<ResourceId, Replicas>(own);
        assert forall|a: int, b: int| 0 <= a < b < rows.len() implies (#[trigger] rows[a]).0 != (
        #[trigger] rows[b]).0 by {
            ordered::keys_differ::<ResourceId, Replicas>(rows, a, b);
        }
        assert forall|a: int| 0 <= a < rows.len() implies replica_state::finite(
            (#[trigger] rows[a]).1,
        ) && own.dom().contains(rows[a].0) && own[rows[a].0] == rows[a].1 by {
            ordered::map_of_at::<ResourceId, Replicas>(rows, a);
        }
        resources_get_in(before, rows, keep, r, p, i);
        if own.dom().contains(r) {
            let a = ordered::map_of_position(rows, r);
            ordered::map_of_at::<ResourceId, Replicas>(rows, a);
            assert(rows[a].0 == r && rows[a].1 == own[r]);
        }
        let state = pending_laws::observed_state(after, r, p, i);
        assert(pending_laws::observed_state(own, r, p, i) is Some ==> i == last.0);
        assert forall|a: int|
            0 <= a < listing.len() && (#[trigger] listing[a]).0 == i && keep.contains(i) implies state
            == pending_laws::observed_state(listing[a].1.1, r, p, i) by {
            if a < n {
                assert(rest[a] == listing[a]);
                assert(listing[a].0 != listing[n].0);
            } else {
                assert forall|b: int| 0 <= b < rest.len() implies (#[trigger] rest[b]).0 != i by {
                    assert(rest[b] == listing[b]);
                }
            }
        }
        if forall|a: int| 0 <= a < listing.len() ==> (#[trigger] listing[a]).0 != i {
            assert forall|b: int| 0 <= b < rest.len() implies (#[trigger] rest[b]).0 != i by {
                assert(rest[b] == listing[b]);
            }
            assert(listing[n].0 != i);
        }
        if exists|a: int| 0 <= a < listing.len() && (#[trigger] listing[a]).1.1.dom().contains(r) {
            let a = choose|a: int|
                0 <= a < listing.len() && (#[trigger] listing[a]).1.1.dom().contains(r);
            if a < n {
                assert(rest[a].1.1.dom().contains(r));
            }
        }
        if before.dom().contains(r) {
            let a = choose|a: int|
                0 <= a < rest.len() && (#[trigger] rest[a]).1.1.dom().contains(r);
            assert(listing[a].1.1.dom().contains(r));
        }
    }
}

/// The states that participants report of their own replicas are observed as
/// they are reported, of every instance that is configured and live, and of no
/// other. A resource that a participant reports is observed, even without
/// replicas.
pub proof fn reported_states_are_observed(
    active: Map<Seq<char>, (u64, session::Resources)>,
    zones: Map<Seq<char>, Seq<char>>,
    live: Set<Seq<char>>,
    resource: Seq<char>,
    partition: Seq<char>,
    instance: Seq<char>,
)
    requires
        active.dom().finite(),
        forall|a: Seq<char>| #[trigger]
            active.dom().contains(a) ==> finite(active[a].1) && forall|
                r: Seq<char>,
                p: Seq<char>,
                i: Seq<char>,
            |
                (#[trigger] pending_laws::observed_state(active[a].1, r, p, i)) is Some ==> i == a,
    ensures
        pending_laws::observed_state(
            observed::observed(active, zones, live),
            resource,
            partition,
            instance,
        ) == if zones.dom().contains(instance) && live.contains(instance) && active.dom().contains(
            instance,
        ) {
            pending_laws::observed_state(active[instance].1, resource, partition, instance)
        } else {
            None
        },
        observed::observed(active, zones, live).dom().contains(resource) <==> exists|a: Seq<char>|
            active.dom().contains(a) && (#[trigger] active[a]).1.dom().contains(resource),
{
    let keep = zones.dom().intersect(live);
    let listing = ordered::in_order::<InstanceId, (u64, session::Resources)>(active);
    ordered::finite_map_is_listed::<InstanceId, (u64, session::Resources)>(active);
    assert forall|a: int, b: int| 0 <= a < b < listing.len() implies (#[trigger] listing[a]).0 != (
    #[trigger] listing[b]).0 by {
        ordered::keys_differ::<InstanceId, (u64, session::Resources)>(listing, a, b);
    }
    assert forall|a: int| 0 <= a < listing.len() implies active.dom().contains(
        (#[trigger] listing[a]).0,
    ) && active[listing[a].0] == listing[a].1 by {
        ordered::map_of_at::<InstanceId, (u64, session::Resources)>(listing, a);
    }
    participants_get_in(listing, keep, resource, partition, instance);
    if active.dom().contains(instance) {
        let a = ordered::map_of_position(listing, instance);
        assert(listing[a].0 == instance);
    }
    if exists|a: Seq<char>|
        active.dom().contains(a) && (#[trigger] active[a]).1.dom().contains(resource) {
        let a = choose|a: Seq<char>|
            active.dom().contains(a) && (#[trigger] active[a]).1.dom().contains(resource);
        let k = ordered::map_of_position(listing, a);
        assert(listing[k].1.1.dom().contains(resource));
    }
    if observed::observed(active, zones, live).dom().contains(resource) {
        let k = choose|k: int|
            0 <= k < listing.len() && (#[trigger] listing[k]).1.1.dom().contains(resource);
        assert(active[listing[k].0].1.dom().contains(resource));
    }
}

} // verus!
