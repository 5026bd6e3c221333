//! The metadata values of a snapshot that a controller decodes.
use crate::controller::runtime::{self, metadata_value};
use crate::coordination::etcd::metadata;
use crate::coordination::etcd::CoordinationSnapshot;
use crate::ordered;
use crate::text;
use vstd::prelude::*;
use vstd::string::*;

verus! {

/// What the stored definition of a resource says.
pub struct ResourceTextView {
    pub name: Seq<char>,
    pub value: Seq<char>,
}

/// The stored definition of a resource, under the name in its key.
#[derive(Clone, Debug, PartialEq, Eq)]
pub struct ResourceText {
    pub name: String,
    pub value: String,
}

impl DeepView for ResourceText {
    type V = ResourceTextView;

    open spec fn deep_view(&self) -> ResourceTextView {
        ResourceTextView { name: self.name@, value: self.value@ }
    }
}

/// The resource definitions in a listing of metadata. A key without a value
/// holds an empty definition.
pub open spec fn resource_texts_of(listing: Seq<(Seq<char>, metadata::MetadataView)>) -> Seq<
    ResourceTextView,
>
    decreases listing.len(),
{
    if listing.len() == 0 {
        Seq::empty()
    } else {
        let earlier = resource_texts_of(listing.drop_last());
        match text::after_prefix(listing.last().0, "controller/resources/"@) {
            None => earlier,
            Some(name) => earlier.push(
                ResourceTextView {
                    name,
                    value: match listing.last().1.value {
                        Some(value) => value,
                        None => Seq::empty(),
                    },
                },
            ),
        }
    }
}

/// The resource definitions of a snapshot, by increasing name.
pub fn resource_texts(snapshot: &CoordinationSnapshot) -> (r: Vec<ResourceText>)
    ensures
        r.deep_view() == resource_texts_of(
            ordered::in_order::<String, metadata::MetadataView>(snapshot@.metadata),
        ),
{
    let entries = snapshot.metadata();
    let ghost all = entries.listing();
    let n: usize = entries.len();
    let mut out: Vec<ResourceText> = Vec::new();
    let mut i: usize = 0;
    assert(out.deep_view() =~= resource_texts_of(all.take(0)));
    while i < n
        invariant
            i <= n,
            n == all.len(),
            all == entries.listing(),
            out.deep_view() == resource_texts_of(all.take(i as int)),
        decreases n - i,
    {
        let ghost before = out.deep_view();
        proof {
            assert(all.take(i + 1).drop_last() =~= all.take(i as int));
            assert(all.take(i + 1).last() == all[i as int]);
        }
        if let Some(name) = text::strip_prefix(
            entries.key_at(i).as_str(),
            "controller/resources/",
        ) {
            let value: String = match entries.value_at(i).value() {
                Some(value) => value.to_owned(),
                None => "".to_owned(),
            };
            proof {
                reveal_strlit("");
                assert(""@ =~= Seq::empty());
            }
            let definition = ResourceText { name, value };
            let ghost model = definition.deep_view();
            out.push(definition);
            assert(out.deep_view() =~= before.push(model));
        }
        i = i + 1;
    }
    assert(all.take(i as int) =~= all);
    out
}

/// The stored instance configuration.
pub fn instance_configs_text<'a>(snapshot: &'a CoordinationSnapshot) -> (r: Option<&'a str>)
    ensures
        match r {
            Some(value) => runtime::value_of(
                snapshot@.metadata,
                "controller/instance-configs"@,
            ) == Some(value@),
            None => runtime::value_of(
                snapshot@.metadata,
                "controller/instance-configs"@,
            ) is None,
        },
{
    metadata_value(snapshot, "controller/instance-configs")
}

/// The stored throttle configuration.
pub fn throttles_text<'a>(snapshot: &'a CoordinationSnapshot) -> (r: Option<&'a str>)
    ensures
        match r {
            Some(value) => runtime::value_of(snapshot@.metadata, "controller/throttles"@)
                == Some(value@),
            None => runtime::value_of(snapshot@.metadata, "controller/throttles"@) is None,
        },
{
    metadata_value(snapshot, "controller/throttles")
}

/// The stored pending-transition queue.
pub fn pending_text<'a>(snapshot: &'a CoordinationSnapshot) -> (r: Option<&'a str>)
    ensures
        match r {
            Some(value) => runtime::value_of(
                snapshot@.metadata,
                "controller/output/pending-transitions"@,
            ) == Some(value@),
            None => runtime::value_of(
                snapshot@.metadata,
                "controller/output/pending-transitions"@,
            ) is None,
        },
{
    metadata_value(snapshot, "controller/output/pending-transitions")
}

proof fn texts_have_entries(
    listing: Seq<(Seq<char>, metadata::MetadataView)>,
    i: int,
    name: Seq<char>,
)
    requires
        0 <= i < listing.len(),
        text::after_prefix(listing[i].0, "controller/resources/"@) == Some(name),
    ensures
        exists|j: int|
            0 <= j < resource_texts_of(listing).len() && (#[trigger] resource_texts_of(
                listing,
            )[j]).name == name,
    decreases listing.len(),
{
    let all = resource_texts_of(listing);
    if i == listing.len() - 1 {
        assert(all[all.len() - 1].name == name);
    } else {
        let earlier = listing.drop_last();
        assert(earlier[i] == listing[i]);
        texts_have_entries(earlier, i, name);
        let j = choose|j: int|
            0 <= j < resource_texts_of(earlier).len() && (#[trigger] resource_texts_of(
                earlier,
            )[j]).name == name;
        assert(all[j] == resource_texts_of(earlier)[j]);
    }
}

/// No stored resource definition is passed over.
pub proof fn every_definition_is_read(
    stored: Map<Seq<char>, metadata::MetadataView>,
    name: Seq<char>,
)
    requires
        stored.dom().finite(),
        stored.dom().contains("controller/resources/"@ + name),
    ensures
        exists|j: int|
            0 <= j < resource_texts_of(
                ordered::in_order::<String, metadata::MetadataView>(stored),
            ).len() && (#[trigger] resource_texts_of(
                ordered::in_order::<String, metadata::MetadataView>(stored),
            )[j]).name == name,
{
    let prefix = "controller/resources/"@;
    let key = prefix + name;
    ordered::finite_map_is_listed::<String, metadata::MetadataView>(stored);
    let listing = ordered::in_order::<String, metadata::MetadataView>(stored);
    let i = ordered::map_of_position(listing, key);
    assert(prefix.is_prefix_of(key)) by {
        assert(key.subrange(0, prefix.len() as int) =~= prefix);
    }
    assert(key.subrange(prefix.len() as int, key.len() as int) =~= name);
    texts_have_entries(listing, i, name);
}

} // verus!
