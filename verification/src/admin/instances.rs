//! Administrative changes to the configured instances.
use crate::controller::records::{self, Decoded, InstanceConfigRecord};
use crate::coordination::etcd::error::CoordinationFault;
use crate::coordination::etcd::{CoordinationError, Revision};
use crate::lists;
use crate::model::{InstanceId, SessionId};
use crate::ordered::{Duplicate, Key};
use crate::text;
use vstd::prelude::*;
use vstd::string::*;

verus! {

/// How often a lost update is tried again.
pub const ADMIN_CAS_RETRIES: usize = 32;

/// An instance configuration supplied to the controller.
#[derive(Clone, Debug, PartialEq, Eq)]
pub struct InstanceSpec {
    pub instance_id: String,
    pub zone: String,
}

/// The text is more than white space and holds no NUL.
pub open spec fn storable(s: Seq<char>) -> bool {
    !text::blank(s) && !s.contains('\0')
}

/// Whether a text is more than white space and holds no NUL.
pub fn is_storable(value: &str) -> (r: bool)
    ensures
        r == storable(value@),
{
    !text::is_blank(value) && !text::has_char(value, '\0')
}

/// The first reason why a cluster identity may not be established here.
pub open spec fn cluster_fault(own: Seq<char>, cluster: Seq<char>) -> Option<CoordinationFault> {
    if cluster == own && storable(cluster) {
        None
    } else {
        Some(CoordinationFault::InvalidCluster)
    }
}

/// Whether the cluster identity may be established: it is that of the
/// namespace, and it can be stored.
pub fn ensure_cluster(own: &str, cluster: &str) -> (r: Result<(), CoordinationError>)
    ensures
        match r {
            Ok(()) => cluster_fault(own@, cluster@) is None,
            Err(error) => cluster_fault(own@, cluster@) == Some(error@),
        },
{
    if text::text_eq(cluster, own) && is_storable(cluster) {
        Ok(())
    } else {
        Err(CoordinationError::InvalidCluster)
    }
}

/// What follows the attempt to store the cluster identity where none is stored:
/// an identity that is stored already must be the same.
pub fn cluster_identity_result(created: bool, stored: Option<&str>, cluster: &str) -> (r: Result<
    (),
    CoordinationError,
>)
    ensures
        match r {
            Ok(()) => created || (stored matches Some(stored) && stored@ == cluster@),
            Err(error) => !created && !(stored matches Some(stored) && stored@ == cluster@)
                && error@ == CoordinationFault::InvalidCluster,
        },
{
    if created {
        return Ok(());
    }
    match stored {
        Some(stored) => if text::text_eq(stored, cluster) {
            Ok(())
        } else {
            Err(CoordinationError::InvalidCluster)
        },
        None => Err(CoordinationError::InvalidCluster),
    }
}

/// The records that decoded metadata holds.
pub open spec fn instances_in(decoded: records::DecodedView<Seq<records::ConfigView>>) -> Result<
    Seq<records::ConfigView>,
    CoordinationFault,
> {
    match decoded {
        records::DecodedView::Missing => Ok(Seq::empty()),
        records::DecodedView::Malformed(_) => Err(CoordinationFault::InvalidValue),
        records::DecodedView::Value(records) => Ok(records),
    }
}

/// The records that decoded metadata holds.
pub fn decode_instances(decoded: &Decoded<Vec<InstanceConfigRecord>>) -> (r: Result<
    Vec<InstanceConfigRecord>,
    CoordinationError,
>)
    ensures
        match (r, instances_in(decoded@)) {
            (Ok(records), Ok(model)) => records.deep_view() == model,
            (Err(error), Err(fault)) => error@ == fault,
            _ => false,
        },
{
    match decoded {
        Decoded::Missing => {
            let none: Vec<InstanceConfigRecord> = Vec::new();
            assert(none.deep_view() =~= Seq::empty());
            Ok(none)
        },
        Decoded::Malformed(_) => Err(CoordinationError::InvalidValue),
        Decoded::Value(records) => Ok(records.duplicate()),
    }
}

/// The records of the other instances, in their order.
pub open spec fn without_name(records: Seq<records::ConfigView>, name: Seq<char>) -> Seq<
    records::ConfigView,
>
    decreases records.len(),
{
    if records.len() == 0 {
        records
    } else {
        let before = without_name(records.drop_last(), name);
        if records.last().name == name {
            before
        } else {
            before.push(records.last())
        }
    }
}

/// Records go by their names.
pub open spec fn by_name() -> spec_fn(records::ConfigView, records::ConfigView) -> bool {
    |a: records::ConfigView, b: records::ConfigView| text::text_before(a.name, b.name)
}

/// The records by increasing name.
pub open spec fn in_name_order(records: Seq<records::ConfigView>) -> Seq<records::ConfigView> {
    lists::stable_sort(by_name(), records)
}

/// The records with this instance added or replaced.
pub open spec fn with_instance(
    records: Seq<records::ConfigView>,
    name: Seq<char>,
    zone: Seq<char>,
) -> Seq<records::ConfigView> {
    in_name_order(without_name(records, name).push(records::ConfigView { name, zone }))
}

fn remove_name(records: &Vec<InstanceConfigRecord>, name: &str) -> (r: Vec<InstanceConfigRecord>)
    ensures
        r.deep_view() == without_name(records.deep_view(), name@),
{
    let ghost all = records.deep_view();
    let mut out: Vec<InstanceConfigRecord> = Vec::new();
    let mut i: usize = 0;
    proof {
        assert(all.take(0) =~= Seq::empty());
        assert(out.deep_view() =~= Seq::empty());
    }
    while i < records.len()
        invariant
            i <= records@.len(),
            all == records.deep_view(),
            out.deep_view() == without_name(all.take(i as int), name@),
        decreases records@.len() - i,
    {
        let ghost before = out.deep_view();
        proof {
            assert(all.take(i + 1).drop_last() =~= all.take(i as int));
            assert(all.take(i + 1).last() == records@[i as int].deep_view());
        }
        if !text::text_eq(records[i].name.as_str(), name) {
            out.push(records[i].duplicate());
            assert(out.deep_view() =~= before.push(records@[i as int].deep_view()));
        }
        i = i + 1;
    }
    assert(all.take(i as int) =~= all);
    out
}

fn sort_records(records: &Vec<InstanceConfigRecord>) -> (r: Vec<InstanceConfigRecord>)
    ensures
        r.deep_view() == in_name_order(records.deep_view()),
{
    let ghost all = records.deep_view();
    let mut out: Vec<InstanceConfigRecord> = Vec::new();
    let mut i: usize = 0;
    proof {
        assert(all.take(0) =~= Seq::empty());
        assert(out.deep_view() =~= Seq::empty());
    }
    while i < records.len()
        invariant
            i <= records@.len(),
            all == records.deep_view(),
            out.deep_view() == in_name_order(all.take(i as int)),
        decreases records@.len() - i,
    {
        let record = records[i].duplicate();
        let ghost model = record.deep_view();
        let ghost sorted = out.deep_view();
        let mut p: usize = 0;
        while p < out.len() && !record.name.is_before(&out[p].name)
            invariant
                p <= out@.len(),
                sorted == out.deep_view(),
                model == record.deep_view(),
                forall|j: int| 0 <= j < p ==> !by_name()(model, #[trigger] sorted[j]),
            decreases out@.len() - p,
        {
            assert(sorted[p as int] == out@[p as int].deep_view());
            p = p + 1;
        }
        proof {
            lists::slot_in_range(by_name(), sorted, model);
            let q = lists::slot(by_name(), sorted, model);
            if p < sorted.len() {
                assert(sorted[p as int] == out@[p as int].deep_view());
                assert(by_name()(model, sorted[p as int]));
            }
            assert(p == q);
            assert(all.take(i + 1).drop_last() =~= all.take(i as int));
            assert(all.take(i + 1).last() == model);
        }
        out.insert(p, record);
        assert(out.deep_view() =~= sorted.insert(p as int, model));
        i = i + 1;
    }
    assert(all.take(i as int) =~= all);
    out
}

fn same_records(a: &Vec<InstanceConfigRecord>, b: &Vec<InstanceConfigRecord>) -> (r: bool)
    ensures
        r == (a.deep_view() == b.deep_view()),
{
    let ghost x = a.deep_view();
    let ghost y = b.deep_view();
    if a.len() != b.len() {
        assert(x.len() != y.len());
        return false;
    }
    let mut i: usize = 0;
    while i < a.len()
        invariant
            i <= a@.len(),
            a@.len() == b@.len(),
            x == a.deep_view(),
            y == b.deep_view(),
            forall|j: int| 0 <= j < i ==> #[trigger] x[j] == y[j],
        decreases a@.len() - i,
    {
        proof {
            assert(x[i as int] == a@[i as int].deep_view());
            assert(y[i as int] == b@[i as int].deep_view());
        }
        if !a[i].name.same(&b[i].name) || !a[i].zone.same(&b[i].zone) {
            return false;
        }
        assert(x[i as int] =~= y[i as int]);
        i = i + 1;
    }
    assert(x =~= y);
    true
}

fn holds_name(records: &Vec<InstanceConfigRecord>, name: &str) -> (r: bool)
    ensures
        r == named(records.deep_view(), name@),
{
    let ghost all = records.deep_view();
    let mut i: usize = 0;
    while i < records.len()
        invariant
            i <= records@.len(),
            all == records.deep_view(),
            forall|j: int| 0 <= j < i ==> (#[trigger] all[j]).name != name@,
        decreases records@.len() - i,
    {
        assert(all[i as int] == records@[i as int].deep_view());
        if text::text_eq(records[i].name.as_str(), name) {
            return true;
        }
        i = i + 1;
    }
    false
}

/// Some record is for the instance.
pub open spec fn named(records: Seq<records::ConfigView>, name: Seq<char>) -> bool {
    exists|i: int| 0 <= i < records.len() && (#[trigger] records[i]).name == name
}

proof fn name_order_is_strict()
    ensures
        forall|a: records::ConfigView, b: records::ConfigView| #[trigger]
            by_name()(a, b) ==> !by_name()(b, a),
        forall|a: records::ConfigView, b: records::ConfigView, c: records::ConfigView|
            !#[trigger] by_name()(b, a) && !#[trigger] by_name()(c, b) ==> !by_name()(c, a),
{
    assert forall|a: records::ConfigView, b: records::ConfigView| #[trigger]
        by_name()(a, b) implies !by_name()(b, a) by {
        if by_name()(b, a) {
            text::text_before_transitive(a.name, b.name, a.name);
            text::text_before_irreflexive(a.name);
        }
    }
    assert forall|a: records::ConfigView, b: records::ConfigView, c: records::ConfigView|
        !#[trigger] by_name()(b, a) && !#[trigger] by_name()(c, b) implies !by_name()(c, a) by {
        if by_name()(c, a) {
            text::text_before_total(a.name, b.name);
            text::text_before_total(b.name, c.name);
            if a.name == b.name {
                assert(by_name()(c, b));
            } else if b.name == c.name {
                assert(by_name()(b, a));
            } else {
                text::text_before_transitive(a.name, b.name, c.name);
                text::text_before_transitive(a.name, c.name, a.name);
                text::text_before_irreflexive(a.name);
            }
        }
    }
}

proof fn zones_of_insert(s: Seq<records::ConfigView>, p: int, x: records::ConfigView)
    requires
        0 <= p <= s.len(),
        x.name.len() > 0,
        records::zones_of(s) is Ok,
        forall|i: int| p <= i < s.len() ==> (#[trigger] s[i]).name != x.name,
    ensures
        records::zones_of(s.insert(p, x)) is Ok,
        records::zones_of(s.insert(p, x))->Ok_0 == records::zones_of(s)->Ok_0.insert(
            x.name,
            x.zone,
        ),
    decreases s.len(),
{
    if p == s.len() {
        assert(s.insert(p, x) =~= s.push(x));
        assert(s.push(x).drop_last() =~= s);
    } else {
        let t = s.drop_last();
        zones_of_insert(t, p, x);
        assert(s.insert(p, x).drop_last() =~= t.insert(p, x));
        assert(s.insert(p, x).last() == s.last());
        assert(s[s.len() - 1] == s.last());
        let m = records::zones_of(t)->Ok_0;
        assert(m.insert(x.name, x.zone).insert(s.last().name, s.last().zone) =~= m.insert(
            s.last().name,
            s.last().zone,
        ).insert(x.name, x.zone));
    }
}

proof fn zones_of_sorted(s: Seq<records::ConfigView>)
    requires
        records::zones_of(s) is Ok,
    ensures
        records::zones_of(in_name_order(s)) == records::zones_of(s),
    decreases s.len(),
{
    if s.len() > 0 {
        let t = s.drop_last();
        let x = s.last();
        zones_of_sorted(t);
        let u = in_name_order(t);
        later_names_differ(t, x);
        let p = lists::slot(by_name(), u, x) as int;
        zones_of_insert(u, p, x);
    }
}

proof fn zones_of_without(s: Seq<records::ConfigView>, name: Seq<char>)
    requires
        records::zones_of(s) is Ok,
    ensures
        records::zones_of(without_name(s, name)) is Ok,
        records::zones_of(without_name(s, name))->Ok_0 == records::zones_of(s)->Ok_0.remove(name),
    decreases s.len(),
{
    if s.len() == 0 {
        assert(Map::<Seq<char>, Seq<char>>::empty().remove(name) =~= Map::empty());
    } else {
        let t = s.drop_last();
        let x = s.last();
        zones_of_without(t, name);
        let before = without_name(t, name);
        let m = records::zones_of(t)->Ok_0;
        if x.name == name {
            assert(m.insert(x.name, x.zone).remove(name) =~= m.remove(name));
        } else {
            assert(before.push(x).drop_last() =~= before);
            assert(m.insert(x.name, x.zone).remove(name) =~= m.remove(name).insert(
                x.name,
                x.zone,
            ));
        }
    }
}

/// After an instance was put, the controller sees it in its zone, and every
/// other instance as before.
pub proof fn put_instance_is_seen(
    records: Seq<records::ConfigView>,
    name: Seq<char>,
    zone: Seq<char>,
)
    requires
        name.len() > 0,
        records::zones_of(records) is Ok,
    ensures
        records::zones_of(with_instance(records, name, zone)) is Ok,
        records::zones_of(with_instance(records, name, zone))->Ok_0 == records::zones_of(
            records,
        )->Ok_0.insert(name, zone),
{
    let rest = without_name(records, name);
    let x = records::ConfigView { name, zone };
    zones_of_without(records, name);
    assert(rest.push(x).drop_last() =~= rest);
    zones_of_sorted(rest.push(x));
    let m = records::zones_of(records)->Ok_0;
    assert(m.remove(name).insert(name, zone) =~= m.insert(name, zone));
}

/// After an instance was removed, the controller does not see it, and every
/// other instance as before.
pub proof fn removed_instance_is_gone(records: Seq<records::ConfigView>, name: Seq<char>)
    requires
        records::zones_of(records) is Ok,
    ensures
        records::zones_of(without_name(records, name)) is Ok,
        records::zones_of(without_name(records, name))->Ok_0 == records::zones_of(
            records,
        )->Ok_0.remove(name),
{
    zones_of_without(records, name);
}

/// What an administrative change of the instances does next.
pub enum InstancesAction {
    /// Read the records and their revision.
    Read,
    /// Store the records in place of those of the revision, or where there are
    /// none.
    Put(Option<Revision>, Vec<InstanceConfigRecord>),
    /// Store the records in place of those of the revision, while the instance
    /// is not live.
    PutIfAbsent(Revision, Vec<InstanceConfigRecord>),
    /// Ask whether the instance is live.
    AskLive,
    /// The change is over.
    Finish(Result<(), CoordinationError>),
}

/// What an administrative change of the instances does next.
pub enum InstancesActionView {
    Read,
    Put(Option<i64>, Seq<records::ConfigView>),
    PutIfAbsent(i64, Seq<records::ConfigView>),
    AskLive,
    Finish(Result<(), CoordinationFault>),
}

impl View for InstancesAction {
    type V = InstancesActionView;

    open spec fn view(&self) -> InstancesActionView {
        match self {
            InstancesAction::Read => InstancesActionView::Read,
            InstancesAction::Put(revision, records) => InstancesActionView::Put(
                revision.deep_view(),
                records.deep_view(),
            ),
            InstancesAction::PutIfAbsent(revision, records) => InstancesActionView::PutIfAbsent(
                revision@,
                records.deep_view(),
            ),
            InstancesAction::AskLive => InstancesActionView::AskLive,
            InstancesAction::Finish(Ok(())) => InstancesActionView::Finish(Ok(())),
            InstancesAction::Finish(Err(error)) => InstancesActionView::Finish(Err(error@)),
        }
    }
}

/// The update of an instance.
#[verifier::ext_equal]
pub struct InstanceUpdateView {
    pub name: Seq<char>,
    pub zone: Seq<char>,
    pub tries: usize,
}

impl InstanceUpdateView {
    /// What follows the records. An instance that is configured so already is
    /// left alone.
    pub open spec fn read(
        self,
        revision: Option<i64>,
        decoded: records::DecodedView<Seq<records::ConfigView>>,
    ) -> InstancesActionView {
        match instances_in(decoded) {
            Err(fault) => InstancesActionView::Finish(Err(fault)),
            Ok(records) => {
                let updated = with_instance(records, self.name, self.zone);
                if updated == in_name_order(records) {
                    InstancesActionView::Finish(Ok(()))
                } else {
                    InstancesActionView::Put(revision, updated)
                }
            },
        }
    }

    /// What follows the attempt to store the records.
    pub open spec fn stored(self, applied: bool) -> (InstanceUpdateView, InstancesActionView) {
        if applied {
            (self, InstancesActionView::Finish(Ok(())))
        } else if self.tries + 1 >= ADMIN_CAS_RETRIES {
            (self, InstancesActionView::Finish(Err(CoordinationFault::Contention)))
        } else {
            (
                InstanceUpdateView { tries: (self.tries + 1) as usize, ..self },
                InstancesActionView::Read,
            )
        }
    }
}

/// The records of one instance, in their order.
pub open spec fn of_name(records: Seq<records::ConfigView>, name: Seq<char>) -> Seq<
    records::ConfigView,
>
    decreases records.len(),
{
    if records.len() == 0 {
        records
    } else {
        let before = of_name(records.drop_last(), name);
        if records.last().name == name {
            before.push(records.last())
        } else {
            before
        }
    }
}

proof fn of_name_insert(
    s: Seq<records::ConfigView>,
    p: int,
    x: records::ConfigView,
    name: Seq<char>,
)
    requires
        0 <= p <= s.len(),
        forall|i: int| p <= i < s.len() ==> (#[trigger] s[i]).name != x.name,
    ensures
        of_name(s.insert(p, x), name) == if x.name == name {
            of_name(s, name).push(x)
        } else {
            of_name(s, name)
        },
    decreases s.len(),
{
    if p == s.len() {
        assert(s.insert(p, x) =~= s.push(x));
        assert(s.push(x).drop_last() =~= s);
    } else {
        assert(s[s.len() - 1].name != x.name);
        of_name_insert(s.drop_last(), p, x, name);
        assert(s.insert(p, x).drop_last() =~= s.drop_last().insert(p, x));
        assert(s.insert(p, x).last() == s.last());
    }
}

/// What sorting puts behind a record has another name.
proof fn later_names_differ(t: Seq<records::ConfigView>, x: records::ConfigView)
    ensures
        ({
            let u = in_name_order(t);
            let p = lists::slot(by_name(), u, x);
            &&& u.len() == t.len()
            &&& p <= u.len()
            &&& forall|i: int| p <= i < u.len() ==> (#[trigger] u[i]).name != x.name
        }),
{
    let u = in_name_order(t);
    name_order_is_strict();
    lists::stable_sort_sorts(by_name(), t);
    lists::stable_sort_permutes(by_name(), t);
    lists::slot_in_range(by_name(), u, x);
    let p = lists::slot(by_name(), u, x) as int;
    assert forall|i: int| p <= i < u.len() implies (#[trigger] u[i]).name != x.name by {
        assert(by_name()(x, u[p]));
        if u[i].name == x.name {
            if i > p {
                assert(!by_name()(u[i], u[p]));
            } else {
                text::text_before_irreflexive(x.name);
            }
        }
    }
}

proof fn of_name_sorted(s: Seq<records::ConfigView>, name: Seq<char>)
    ensures
        of_name(in_name_order(s), name) == of_name(s, name),
    decreases s.len(),
{
    if s.len() > 0 {
        let t = s.drop_last();
        let u = in_name_order(t);
        of_name_sorted(t, name);
        later_names_differ(t, s.last());
        of_name_insert(u, lists::slot(by_name(), u, s.last()) as int, s.last(), name);
    }
}

proof fn of_name_without(s: Seq<records::ConfigView>, gone: Seq<char>, name: Seq<char>)
    ensures
        of_name(without_name(s, gone), name) == if gone == name {
            Seq::empty()
        } else {
            of_name(s, name)
        },
    decreases s.len(),
{
    if s.len() > 0 {
        let t = s.drop_last();
        of_name_without(t, gone, name);
        if s.last().name != gone {
            assert(without_name(t, gone).push(s.last()).drop_last() =~= without_name(t, gone));
        }
    }
}

/// Putting an instance leaves one record of it, and the records of every other
/// instance as they were.
pub proof fn put_instance_changes_one(
    records: Seq<records::ConfigView>,
    name: Seq<char>,
    zone: Seq<char>,
    other: Seq<char>,
)
    ensures
        of_name(with_instance(records, name, zone), other) == if other == name {
            seq![records::ConfigView { name, zone }]
        } else {
            of_name(records, other)
        },
{
    let rest = without_name(records, name);
    let x = records::ConfigView { name, zone };
    of_name_sorted(rest.push(x), other);
    of_name_without(records, name, other);
    assert(rest.push(x).drop_last() =~= rest);
    if other == name {
        assert(Seq::<records::ConfigView>::empty().push(x) =~= seq![x]);
    }
}

/// No record comes before an earlier one.
pub open spec fn name_ordered(s: Seq<records::ConfigView>) -> bool {
    forall|i: int, j: int|
        0 <= i < j < s.len() ==> !by_name()(#[trigger] s[j], #[trigger] s[i])
}

/// Sorted records are in the order of their names.
pub proof fn sorted_is_ordered(s: Seq<records::ConfigView>)
    ensures
        name_ordered(in_name_order(s)),
{
    name_order_is_strict();
    lists::stable_sort_sorts(by_name(), s);
    lists::stable_sort_permutes(by_name(), s);
}

proof fn record_is_found(s: Seq<records::ConfigView>, name: Seq<char>) -> (i: int)
    requires
        of_name(s, name).len() > 0,
    ensures
        0 <= i < s.len(),
        s[i].name == name,
    decreases s.len(),
{
    if s.last().name == name {
        s.len() - 1
    } else {
        record_is_found(s.drop_last(), name)
    }
}

/// The last names of ordered records agree where each has records of the
/// other's last name.
proof fn last_names_agree(a: Seq<records::ConfigView>, b: Seq<records::ConfigView>)
    requires
        a.len() > 0,
        b.len() > 0,
        name_ordered(a),
        name_ordered(b),
        of_name(a, b.last().name).len() > 0,
        of_name(b, a.last().name).len() > 0,
    ensures
        a.last().name == b.last().name,
{
    let y = a.last();
    let z = b.last();
    let i = record_is_found(a, z.name);
    let j = record_is_found(b, y.name);
    text::text_before_total(y.name, z.name);
    if i < a.len() - 1 {
        assert(!by_name()(a[a.len() - 1], a[i]));
    }
    if j < b.len() - 1 {
        assert(!by_name()(b[b.len() - 1], b[j]));
    }
}

/// Ordered records are the same where those of every name are.
proof fn ordered_records_agree(a: Seq<records::ConfigView>, b: Seq<records::ConfigView>)
    requires
        name_ordered(a),
        name_ordered(b),
        forall|name: Seq<char>| #[trigger] of_name(a, name) == of_name(b, name),
    ensures
        a == b,
    decreases a.len(),
{
    if a.len() == 0 || b.len() == 0 {
        if b.len() > 0 {
            assert(of_name(a, b.last().name).len() == 0);
        } else if a.len() > 0 {
            assert(of_name(a, a.last().name) == of_name(b, a.last().name));
        }
        assert(a =~= b);
    } else {
        let s = a.drop_last();
        let t = b.drop_last();
        assert(of_name(a, b.last().name) == of_name(b, b.last().name));
        assert(of_name(a, a.last().name) == of_name(b, a.last().name));
        last_names_agree(a, b);
        assert(of_name(a, a.last().name).last() == a.last());
        assert(of_name(b, b.last().name).last() == b.last());
        assert forall|name: Seq<char>| #[trigger] of_name(s, name) == of_name(t, name) by {
            assert(of_name(a, name) == of_name(b, name));
            if name == a.last().name {
                assert(of_name(a, name).drop_last() =~= of_name(s, name));
                assert(of_name(b, name).drop_last() =~= of_name(t, name));
            }
        }
        assert forall|i: int, j: int| 0 <= i < j < s.len() implies !by_name()(
            #[trigger] s[j],
            #[trigger] s[i],
        ) by {
            assert(s[i] == a[i] && s[j] == a[j]);
        }
        assert forall|i: int, j: int| 0 <= i < j < t.len() implies !by_name()(
            #[trigger] t[j],
            #[trigger] t[i],
        ) by {
            assert(t[i] == b[i] && t[j] == b[j]);
        }
        ordered_records_agree(s, t);
        assert(a =~= s.push(a.last()));
        assert(b =~= t.push(b.last()));
    }
}

/// An instance is left alone exactly where the one record of it is the one
/// that would be put.
pub proof fn sole_records_are_left_alone(
    v: InstanceUpdateView,
    revision: Option<i64>,
    records: Seq<records::ConfigView>,
)
    ensures
        v.read(revision, records::DecodedView::Value(records)) == InstancesActionView::Finish(
            Ok(()),
        ) <==> of_name(records, v.name) == seq![
            records::ConfigView { name: v.name, zone: v.zone },
        ],
{
    let updated = with_instance(records, v.name, v.zone);
    let kept = in_name_order(records);
    assert forall|name: Seq<char>| #[trigger]
        of_name(updated, name) == (if name == v.name {
            seq![records::ConfigView { name: v.name, zone: v.zone }]
        } else {
            of_name(kept, name)
        }) by {
        put_instance_changes_one(records, v.name, v.zone, name);
        of_name_sorted(records, name);
    }
    of_name_sorted(records, v.name);
    if of_name(records, v.name) == seq![records::ConfigView { name: v.name, zone: v.zone }] {
        sorted_is_ordered(without_name(records, v.name).push(
            records::ConfigView { name: v.name, zone: v.zone },
        ));
        sorted_is_ordered(records);
        ordered_records_agree(updated, kept);
    }
}

/// An instance that was put is left alone when it is put again: nothing is
/// written a second time.
pub proof fn configured_instances_are_left_alone(
    v: InstanceUpdateView,
    revision: Option<i64>,
    records: Seq<records::ConfigView>,
)
    ensures
        v.read(revision, records::DecodedView::Value(with_instance(records, v.name, v.zone)))
            == InstancesActionView::Finish(Ok(())),
{
    put_instance_changes_one(records, v.name, v.zone, v.name);
    sole_records_are_left_alone(v, revision, with_instance(records, v.name, v.zone));
}

impl InstanceUpdateView {
    /// The records that are stored once the instance was put.
    pub open spec fn leaves(self, records: Seq<records::ConfigView>) -> Seq<records::ConfigView> {
        match self.read(None, records::DecodedView::Value(records)) {
            InstancesActionView::Put(_, updated) => updated,
            _ => records,
        }
    }
}

/// The records that are stored once the listed instances were put, one after
/// another.
pub open spec fn all_put(
    records: Seq<records::ConfigView>,
    updates: Seq<InstanceUpdateView>,
) -> Seq<records::ConfigView>
    decreases updates.len(),
{
    if updates.len() == 0 {
        records
    } else {
        updates.last().leaves(all_put(records, updates.drop_last()))
    }
}

proof fn put_instances_are_held(
    records: Seq<records::ConfigView>,
    updates: Seq<InstanceUpdateView>,
    i: int,
)
    requires
        0 <= i < updates.len(),
        forall|j: int| i < j < updates.len() ==> (#[trigger] updates[j]).name != updates[i].name,
    ensures
        of_name(all_put(records, updates), updates[i].name) == seq![
            records::ConfigView { name: updates[i].name, zone: updates[i].zone },
        ],
    decreases updates.len(),
{
    let rest = updates.drop_last();
    let before = all_put(records, rest);
    let last = updates.last();
    put_instance_changes_one(before, last.name, last.zone, updates[i].name);
    sole_records_are_left_alone(last, None, before);
    if i < updates.len() - 1 {
        assert(rest[i] == updates[i]);
        assert forall|j: int| i < j < rest.len() implies (#[trigger] rest[j]).name
            != rest[i].name by {
            assert(rest[j] == updates[j]);
        }
        assert(updates[updates.len() - 1].name != updates[i].name);
        put_instances_are_held(records, rest, i);
    }
}

/// Once different instances were put, one after another, each of them is left
/// alone when it is put again, whatever was configured before.
pub proof fn put_instances_are_left_alone(
    records: Seq<records::ConfigView>,
    updates: Seq<InstanceUpdateView>,
    i: int,
    revision: Option<i64>,
)
    requires
        0 <= i < updates.len(),
        forall|j: int, k: int|
            0 <= j < k < updates.len() ==> (#[trigger] updates[j]).name
                != (#[trigger] updates[k]).name,
    ensures
        updates[i].read(revision, records::DecodedView::Value(all_put(records, updates)))
            == InstancesActionView::Finish(Ok(())),
{
    put_instances_are_held(records, updates, i);
    sole_records_are_left_alone(updates[i], revision, all_put(records, updates));
}

/// The update of an instance.
pub struct InstanceUpdate {
    name: InstanceId,
    zone: String,
    tries: usize,
}

impl View for InstanceUpdate {
    type V = InstanceUpdateView;

    closed spec fn view(&self) -> InstanceUpdateView {
        InstanceUpdateView { name: self.name@, zone: self.zone@, tries: self.tries }
    }
}

/// The first reason why an instance may not be configured so.
pub open spec fn instance_fault(name: Seq<char>, zone: Seq<char>) -> Option<CoordinationFault> {
    if name.len() == 0 {
        Some(CoordinationFault::InvalidKey)
    } else if !storable(zone) {
        Some(CoordinationFault::InvalidValue)
    } else {
        None
    }
}

impl InstanceUpdate {
    #[verifier::type_invariant]
    spec fn inv(self) -> bool {
        self.tries < ADMIN_CAS_RETRIES
    }

    /// Begin to add or replace one controller-visible instance configuration.
    pub fn put_instance(spec: &InstanceSpec) -> (r: Result<
        (InstanceUpdate, InstancesAction),
        CoordinationError,
    >)
        ensures
            match r {
                Ok((update, action)) => {
                    &&& instance_fault(spec.instance_id@, spec.zone@) is None
                    &&& update@ == (InstanceUpdateView {
                        name: spec.instance_id@,
                        zone: spec.zone@,
                        tries: 0,
                    })
                    &&& action@ == InstancesActionView::Read
                },
                Err(error) => instance_fault(spec.instance_id@, spec.zone@) == Some(error@),
            },
    {
        let name = match InstanceId::new(spec.instance_id.as_str()) {
            Ok(name) => name,
            Err(_) => {
                return Err(CoordinationError::InvalidKey);
            },
        };
        if !is_storable(spec.zone.as_str()) {
            return Err(CoordinationError::InvalidValue);
        }
        Ok((InstanceUpdate { name, zone: spec.zone.clone(), tries: 0 }, InstancesAction::Read))
    }

    /// Go on with the records and their revision.
    pub fn on_read(
        &self,
        revision: Option<Revision>,
        decoded: &Decoded<Vec<InstanceConfigRecord>>,
    ) -> (r: InstancesAction)
        ensures
            r@ == self@.read(revision.deep_view(), decoded@),
    {
        let existing = match decode_instances(decoded) {
            Ok(records) => records,
            Err(error) => {
                return InstancesAction::Finish(Err(error));
            },
        };
        let mut changed = remove_name(&existing, self.name.as_str());
        let ghost rest = changed.deep_view();
        changed.push(
            InstanceConfigRecord { name: self.name.to_string(), zone: self.zone.clone() },
        );
        assert(changed.deep_view() =~= rest.push(
            records::ConfigView { name: self.name@, zone: self.zone@ },
        ));
        let updated = sort_records(&changed);
        if same_records(&updated, &sort_records(&existing)) {
            InstancesAction::Finish(Ok(()))
        } else {
            InstancesAction::Put(revision, updated)
        }
    }

    /// Go on after the records were stored, or the update was lost.
    pub fn on_stored(&mut self, applied: bool) -> (r: InstancesAction)
        ensures
            (final(self)@, r@) == old(self)@.stored(applied),
    {
        proof {
            use_type_invariant(&*self);
        }
        if applied {
            InstancesAction::Finish(Ok(()))
        } else if self.tries + 1 >= ADMIN_CAS_RETRIES {
            InstancesAction::Finish(Err(CoordinationError::Contention))
        } else {
            self.tries = self.tries + 1;
            InstancesAction::Read
        }
    }
}

/// The removal of an instance.
#[verifier::ext_equal]
pub struct InstanceRemovalView {
    pub name: Seq<char>,
    pub tries: usize,
}

impl InstanceRemovalView {
    /// What follows the records. An instance that is not configured is left
    /// alone.
    pub open spec fn read(
        self,
        revision: Option<i64>,
        decoded: records::DecodedView<Seq<records::ConfigView>>,
    ) -> InstancesActionView {
        match revision {
            None => InstancesActionView::Finish(Ok(())),
            Some(revision) => match instances_in(decoded) {
                Err(fault) => InstancesActionView::Finish(Err(fault)),
                Ok(records) => if !named(records, self.name) {
                    InstancesActionView::Finish(Ok(()))
                } else {
                    InstancesActionView::PutIfAbsent(revision, without_name(records, self.name))
                },
            },
        }
    }

    /// What follows the attempt to store the records.
    pub open spec fn stored(self, applied: bool) -> InstancesActionView {
        if applied {
            InstancesActionView::Finish(Ok(()))
        } else {
            InstancesActionView::AskLive
        }
    }

    /// What follows the answer whether the instance is live.
    pub open spec fn live(self, live: bool) -> (InstanceRemovalView, InstancesActionView) {
        if live {
            (
                self,
                InstancesActionView::Finish(Err(CoordinationFault::InstanceStillLive(self.name))),
            )
        } else if self.tries + 1 >= ADMIN_CAS_RETRIES {
            (self, InstancesActionView::Finish(Err(CoordinationFault::Contention)))
        } else {
            (
                InstanceRemovalView { tries: (self.tries + 1) as usize, ..self },
                InstancesActionView::Read,
            )
        }
    }
}

/// The removal of an instance.
pub struct InstanceRemoval {
    name: InstanceId,
    tries: usize,
}

impl View for InstanceRemoval {
    type V = InstanceRemovalView;

    closed spec fn view(&self) -> InstanceRemovalView {
        InstanceRemovalView { name: self.name@, tries: self.tries }
    }
}

impl InstanceRemoval {
    #[verifier::type_invariant]
    spec fn inv(self) -> bool {
        self.tries < ADMIN_CAS_RETRIES
    }

    /// Begin to remove one instance from controller-visible configuration.
    pub fn remove_instance(instance_id: &str) -> (r: Result<
        (InstanceRemoval, InstancesAction),
        CoordinationError,
    >)
        ensures
            match r {
                Ok((removal, action)) => {
                    &&& instance_id@.len() > 0
                    &&& removal@ == (InstanceRemovalView { name: instance_id@, tries: 0 })
                    &&& action@ == InstancesActionView::Read
                },
                Err(error) => instance_id@.len() == 0 && error@ == CoordinationFault::InvalidKey,
            },
    {
        match InstanceId::new(instance_id) {
            Ok(name) => Ok((InstanceRemoval { name, tries: 0 }, InstancesAction::Read)),
            Err(_) => Err(CoordinationError::InvalidKey),
        }
    }

    /// Go on with the records and their revision.
    pub fn on_read(
        &self,
        revision: Option<Revision>,
        decoded: &Decoded<Vec<InstanceConfigRecord>>,
    ) -> (r: InstancesAction)
        ensures
            r@ == self@.read(revision.deep_view(), decoded@),
    {
        let revision = match revision {
            None => {
                return InstancesAction::Finish(Ok(()));
            },
            Some(revision) => revision,
        };
        match decode_instances(decoded) {
            Err(error) => InstancesAction::Finish(Err(error)),
            Ok(records) => if !holds_name(&records, self.name.as_str()) {
                InstancesAction::Finish(Ok(()))
            } else {
                InstancesAction::PutIfAbsent(revision, remove_name(&records, self.name.as_str()))
            },
        }
    }

    /// Go on after the records were stored, or the update was lost.
    pub fn on_stored(&self, applied: bool) -> (r: InstancesAction)
        ensures
            r@ == self@.stored(applied),
    {
        if applied {
            InstancesAction::Finish(Ok(()))
        } else {
            InstancesAction::AskLive
        }
    }

    /// Go on with the live session of the instance, where it has one.
    pub fn on_live(&mut self, session: Option<SessionId>) -> (r: InstancesAction)
        ensures
            (final(self)@, r@) == old(self)@.live(session is Some),
    {
        proof {
            use_type_invariant(&*self);
        }
        if session.is_some() {
            InstancesAction::Finish(
                Err(CoordinationError::InstanceStillLive(self.name.duplicate())),
            )
        } else if self.tries + 1 >= ADMIN_CAS_RETRIES {
            InstancesAction::Finish(Err(CoordinationError::Contention))
        } else {
            self.tries = self.tries + 1;
            InstancesAction::Read
        }
    }
}

} // verus!
