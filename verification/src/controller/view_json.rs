//! The stored form of an external view.
use crate::controller::error::ControllerRuntimeError;
use crate::model::replica_state;
use crate::model::session;
use crate::model::{ExternalView, InstanceId, PartitionId, ResourceId, State};
use crate::ordered::{self, Key, OrderedMap};
use std::collections::BTreeMap;
use vstd::prelude::*;
use vstd::string::*;

verus! {

/// The states of a partition by instance.
pub type ReplicaRows = Seq<(Seq<char>, Seq<char>)>;

/// The partitions of a resource.
pub type PartitionRows = Seq<(Seq<char>, ReplicaRows)>;

/// The resources of an external view.
pub type ViewRows = Seq<(Seq<char>, PartitionRows)>;

/// The partitions of a resource, each with its replicas.
pub type PartitionRow = (String, Vec<(String, String)>);

/// A resource with its partitions.
pub type ResourceRow = (String, Vec<PartitionRow>);

/// The rows have increasing names on every level.
pub open spec fn sorted(rows: ViewRows) -> bool {
    &&& ordered::increasing::<String, PartitionRows>(rows)
    &&& forall|i: int| 0 <= i < rows.len() ==> sorted_partitions(#[trigger] rows[i].1)
}

/// The rows have increasing names on both levels.
pub open spec fn sorted_partitions(rows: PartitionRows) -> bool {
    &&& ordered::increasing::<String, ReplicaRows>(rows)
    &&& forall|i: int|
        0 <= i < rows.len() ==> ordered::increasing::<String, Seq<char>>(#[trigger] rows[i].1)
}

/// What `serde_json::to_string` writes for maps of maps of maps of strings.
pub uninterp spec fn view_json(rows: ViewRows) -> Seq<char>;

/// What `serde_json::from_value` takes, of the JSON value that
/// `serde_json::from_str` reads, as maps of maps of maps of strings.
pub uninterp spec fn parsed_view(text: Seq<char>) -> Result<ViewRows, Seq<char>>;

/// The model of rows or a message.
pub open spec fn rows_result(r: Result<Vec<ResourceRow>, String>) -> Result<ViewRows, Seq<char>> {
    match r {
        Ok(rows) => Ok(rows.deep_view()),
        Err(message) => Err(message@),
    }
}

/// The text is read as the rows.
pub open spec fn reads_as(text: Seq<char>, rows: ViewRows) -> bool {
    parsed_view(text) == Ok::<ViewRows, Seq<char>>(rows)
}

/// Calls `serde_json::to_string` on the rows as maps. It does not fail: every
/// key is a string, and strings are always written. The text depends on the
/// rows alone, and is read back as the same rows: a JSON object for each map,
/// with every key and every value written as a JSON string.
#[verifier::external_body]
fn write_view_json(rows: &Vec<ResourceRow>) -> (r: Result<String, String>)
    requires
        sorted(rows.deep_view()),
    ensures
        r is Ok,
        r->Ok_0@ == view_json(rows.deep_view()),
        reads_as(r->Ok_0@, rows.deep_view()),
{
    let view: BTreeMap<&String, BTreeMap<&String, BTreeMap<&String, &String>>> = rows.iter().map(
        |(resource, partitions)| (resource, partitions.iter().map(
            |(partition, replicas)| (partition, replicas.iter().map(
                |(instance, state)| (instance, state)
            ).collect())
        ).collect())
    ).collect();
    serde_json::to_string(&view).map_err(|error| error.to_string())
}

/// Calls `serde_json::from_str` into a JSON value of any shape, and
/// `serde_json::from_value` on that value into maps of maps of maps of strings,
/// and hands out their rows. Of a key that an object repeats, only the last
/// value is part of the JSON value, so only that one has to have the right
/// shape. The result depends on the text alone, and the rows of a map have
/// increasing names.
#[verifier::external_body]
fn read_view_json(text: &str) -> (r: Result<Vec<ResourceRow>, String>)
    ensures
        rows_result(r) == parsed_view(text@),
        r matches Ok(rows) ==> sorted(rows.deep_view()),
{
    let view: BTreeMap<String, BTreeMap<String, BTreeMap<String, String>>> = serde_json::from_str(
        text,
    ).and_then(|value: serde_json::Value| serde_json::from_value(value)).map_err(
        |error| error.to_string(),
    )?;
    Ok(view.into_iter().map(
        |(resource, partitions)| (resource, partitions.into_iter().map(
            |(partition, replicas)| (partition, replicas.into_iter().collect())
        ).collect())
    ).collect())
}

/// What `serde_json::from_str` accepts as a JSON value of any shape.
pub uninterp spec fn valid_json(text: Seq<char>) -> bool;

/// Calls `serde_json::from_str` into a JSON value of any shape. Whether it
/// succeeds depends on the text alone.
#[verifier::external_body]
pub(crate) fn is_json(text: &str) -> (r: bool)
    ensures
        r == valid_json(text@),
{
    serde_json::from_str::<serde_json::Value>(text).is_ok()
}

/// The rows of a partition's replicas.
pub open spec fn replica_rows(m: Map<Seq<char>, Seq<char>>) -> ReplicaRows {
    ordered::in_order::<InstanceId, Seq<char>>(m)
}

/// The rows of a resource's partitions.
pub open spec fn partition_rows(m: replica_state::Replicas) -> PartitionRows {
    let listing = ordered::in_order::<PartitionId, Map<Seq<char>, Seq<char>>>(m);
    Seq::new(listing.len(), |i: int| (listing[i].0, replica_rows(listing[i].1)))
}

/// The rows of an external view.
pub open spec fn view_rows(m: session::Resources) -> ViewRows {
    let listing = ordered::in_order::<ResourceId, replica_state::Replicas>(m);
    Seq::new(listing.len(), |i: int| (listing[i].0, partition_rows(listing[i].1)))
}

fn rows_of_replicas(replicas: &OrderedMap<InstanceId, State>) -> (r: Vec<(String, String)>)
    ensures
        r.deep_view() == replica_rows(replicas@),
        ordered::increasing::<String, Seq<char>>(r.deep_view()),
{
    let ghost all = replicas.listing();
    let n: usize = replicas.len();
    let mut out: Vec<(String, String)> = Vec::new();
    let mut i: usize = 0;
    assert(out.deep_view() =~= all.take(0));
    while i < n
        invariant
            i <= n,
            n == all.len(),
            all == replicas.listing(),
            out.deep_view() == all.take(i as int),
        decreases n - i,
    {
        let ghost before = out.deep_view();
        out.push((replicas.key_at(i).to_string(), replicas.value_at(i).to_string()));
        proof {
            assert(out.deep_view() =~= before.push(all[i as int]));
            assert(all.take(i + 1) =~= all.take(i as int).push(all[i as int]));
        }
        i = i + 1;
    }
    proof {
        assert(all.take(n as int) =~= all);
        assert(ordered::increasing::<InstanceId, Seq<char>>(all));
        assert forall|a: int, b: int| 0 <= a < b < all.len() implies <String as Key>::before(
            (#[trigger] all[a]).0,
            (#[trigger] all[b]).0,
        ) by {
            assert(<InstanceId as Key>::before(all[a].0, all[b].0));
        }
    }
    out
}

fn rows_of_partitions(
    partitions: &OrderedMap<PartitionId, OrderedMap<InstanceId, State>>,
) -> (r: Vec<PartitionRow>)
    ensures
        r.deep_view() == partition_rows(partitions@),
        sorted_partitions(r.deep_view()),
{
    let ghost all = partitions.listing();
    let ghost rows = partition_rows(partitions@);
    let n: usize = partitions.len();
    let mut out: Vec<PartitionRow> = Vec::new();
    let mut i: usize = 0;
    assert(out.deep_view() =~= rows.take(0));
    while i < n
        invariant
            i <= n,
            n == all.len(),
            all == partitions.listing(),
            rows == partition_rows(partitions@),
            out.deep_view() == rows.take(i as int),
            forall|j: int|
                0 <= j < i ==> ordered::increasing::<String, Seq<char>>(#[trigger] rows[j].1),
        decreases n - i,
    {
        let ghost before = out.deep_view();
        let name = partitions.key_at(i).to_string();
        let replicas = rows_of_replicas(partitions.value_at(i));
        let ghost row = (name@, replicas.deep_view());
        out.push((name, replicas));
        proof {
            assert(row == rows[i as int]);
            assert(out.deep_view() =~= before.push(row));
            assert(rows.take(i + 1) =~= rows.take(i as int).push(rows[i as int]));
        }
        i = i + 1;
    }
    proof {
        assert(rows.take(n as int) =~= rows);
        assert(ordered::increasing::<PartitionId, Map<Seq<char>, Seq<char>>>(all));
        assert forall|a: int, b: int| 0 <= a < b < rows.len() implies <String as Key>::before(
            (#[trigger] rows[a]).0,
            (#[trigger] rows[b]).0,
        ) by {
            assert(<PartitionId as Key>::before(all[a].0, all[b].0));
        }
    }
    out
}

fn rows_of_view(
    view: &OrderedMap<ResourceId, OrderedMap<PartitionId, OrderedMap<InstanceId, State>>>,
) -> (r: Vec<ResourceRow>)
    ensures
        r.deep_view() == view_rows(view@),
        sorted(r.deep_view()),
{
    let ghost all = view.listing();
    let ghost rows = view_rows(view@);
    let n: usize = view.len();
    let mut out: Vec<ResourceRow> = Vec::new();
    let mut i: usize = 0;
    assert(out.deep_view() =~= rows.take(0));
    while i < n
        invariant
            i <= n,
            n == all.len(),
            all == view.listing(),
            rows == view_rows(view@),
            out.deep_view() == rows.take(i as int),
            forall|j: int| 0 <= j < i ==> sorted_partitions(#[trigger] rows[j].1),
        decreases n - i,
    {
        let ghost before = out.deep_view();
        let name = view.key_at(i).to_string();
        let partitions = rows_of_partitions(view.value_at(i));
        let ghost row = (name@, partitions.deep_view());
        out.push((name, partitions));
        proof {
            assert(row == rows[i as int]);
            assert(out.deep_view() =~= before.push(row));
            assert(rows.take(i + 1) =~= rows.take(i as int).push(rows[i as int]));
        }
        i = i + 1;
    }
    proof {
        assert(rows.take(n as int) =~= rows);
        assert(ordered::increasing::<ResourceId, replica_state::Replicas>(all));
        assert forall|a: int, b: int| 0 <= a < b < rows.len() implies <String as Key>::before(
            (#[trigger] rows[a]).0,
            (#[trigger] rows[b]).0,
        ) by {
            assert(<ResourceId as Key>::before(all[a].0, all[b].0));
        }
    }
    out
}

/// The stored form of an external view. It is read back as the rows of the
/// view.
pub fn external_view_json(current: &ExternalView) -> (r: Result<String, ControllerRuntimeError>)
    ensures
        r matches Ok(text) && text@ == view_json(view_rows(current@)) && reads_as(
            text@,
            view_rows(current@),
        ),
{
    match write_view_json(&rows_of_view(current.entries())) {
        Ok(text) => Ok(text),
        Err(message) => Err(ControllerRuntimeError::message(message)),
    }
}

/// Read the rows of a stored external view.
pub fn read_external_view(text: &str) -> (r: Result<Vec<ResourceRow>, String>)
    ensures
        rows_result(r) == parsed_view(text@),
        r matches Ok(rows) ==> sorted(rows.deep_view()),
{
    read_view_json(text)
}

} // verus!
