//! How a specification is applied, and how a process ends.
use crate::admin::instances;
use crate::admin::limits::TransitionLimitSpec;
use crate::admin::resources;
use crate::cluster::error::{ApplicationError, ApplicationFault};
use crate::cluster::limit::{TransitionLimit, TypedLimit};
use crate::cluster::spec;
use crate::cluster::spec::{
    ClusterSpec, InstanceDecl, InstanceSpec, ResourceDecl, ResourceSpec, SpecView,
};
use crate::controller::records;
use crate::coordination::etcd::error::CoordinationFault;
use crate::coordination::etcd::CoordinationError;
use vstd::prelude::*;
use vstd::string::*;

verus! {

/// What an application of a specification does next.
pub enum ApplyAction {
    /// Make sure that the namespace holds this cluster.
    EnsureCluster,
    PutInstance(instances::InstanceSpec),
    PutResource(resources::ResourceSpec),
    Finish(Result<(), ApplicationError>),
}

/// What an application of a specification does next.
pub enum ApplyActionView {
    EnsureCluster,
    PutInstance(InstanceDecl),
    PutResource(resources::ResourceSpecView),
    Finish(Result<(), ApplicationFault>),
}

impl View for ApplyAction {
    type V = ApplyActionView;

    open spec fn view(&self) -> ApplyActionView {
        match self {
            ApplyAction::EnsureCluster => ApplyActionView::EnsureCluster,
            ApplyAction::PutInstance(spec) => ApplyActionView::PutInstance(
                InstanceDecl { id: spec.instance_id@, zone: spec.zone@ },
            ),
            ApplyAction::PutResource(spec) => ApplyActionView::PutResource(spec@),
            ApplyAction::Finish(result) => ApplyActionView::Finish(
                match result {
                    Ok(()) => Ok(()),
                    Err(error) => Err(error@),
                },
            ),
        }
    }
}

/// What is left to do.
pub struct ApplyView {
    pub instances: Seq<InstanceDecl>,
    pub resources: Seq<ResourceDecl>,
}

/// Begin: nothing is written for a specification with a fault.
pub open spec fn begin(spec: SpecView) -> (ApplyView, ApplyActionView) {
    match spec.fault() {
        Some(message) => (
            ApplyView { instances: Seq::empty(), resources: Seq::empty() },
            ApplyActionView::Finish(Err(ApplicationFault::Spec(message))),
        ),
        None => (
            ApplyView { instances: spec.instances, resources: spec.resources },
            ApplyActionView::EnsureCluster,
        ),
    }
}

impl ApplyView {
    /// What follows a write: the instances in their order, then the resources
    /// in theirs. The first error ends the application.
    pub open spec fn next(self, result: Result<(), CoordinationFault>) -> (
        ApplyView,
        ApplyActionView,
    ) {
        match result {
            Err(fault) => (
                self,
                ApplyActionView::Finish(Err(ApplicationFault::Coordination(fault))),
            ),
            Ok(()) => if self.instances.len() > 0 {
                (
                    ApplyView { instances: self.instances.skip(1), ..self },
                    ApplyActionView::PutInstance(self.instances[0]),
                )
            } else if self.resources.len() > 0 {
                (
                    ApplyView { resources: self.resources.skip(1), ..self },
                    ApplyActionView::PutResource(self.resources[0].low_level()),
                )
            } else {
                (self, ApplyActionView::Finish(Ok(())))
            },
        }
    }

    /// What is done where every write succeeds.
    pub open spec fn actions(self) -> Seq<ApplyActionView>
        decreases self.instances.len() + self.resources.len(),
    {
        let (rest, action) = self.next(Ok(()));
        if self.instances.len() + self.resources.len() == 0 {
            seq![action]
        } else {
            seq![action] + rest.actions()
        }
    }
}

/// Where every write succeeds, every declared instance is written, then every
/// declared resource, each once and in the order of its declaration.
pub proof fn whole_specification_is_applied(v: ApplyView)
    ensures
        v.actions() =~= Seq::new(
            v.instances.len(),
            |i: int| ApplyActionView::PutInstance(v.instances[i]),
        ) + Seq::new(
            v.resources.len(),
            |i: int| ApplyActionView::PutResource(v.resources[i].low_level()),
        ) + seq![ApplyActionView::Finish(Ok(()))],
    decreases v.instances.len() + v.resources.len(),
{
    if v.instances.len() + v.resources.len() > 0 {
        let (rest, _) = v.next(Ok(()));
        whole_specification_is_applied(rest);
    }
}

/// The updates that put the declared instances.
pub open spec fn updates_of(declared: Seq<InstanceDecl>) -> Seq<instances::InstanceUpdateView> {
    Seq::new(
        declared.len(),
        |i: int|
            instances::InstanceUpdateView {
                name: declared[i].id,
                zone: declared[i].zone,
                tries: 0,
            },
    )
}

/// Once the instances of a valid specification were put, whatever was
/// configured before, each of them is left alone when the specification is
/// applied again.
pub proof fn applied_instances_are_left_alone(
    spec: SpecView,
    records: Seq<records::ConfigView>,
    i: int,
    revision: Option<i64>,
)
    requires
        spec.fault() is None,
        0 <= i < spec.instances.len(),
    ensures
        updates_of(spec.instances)[i].read(
            revision,
            records::DecodedView::Value(
                instances::all_put(records, updates_of(spec.instances)),
            ),
        ) == instances::InstancesActionView::Finish(Ok(())),
{
    let updates = updates_of(spec.instances);
    assert forall|j: int, k: int| 0 <= j < k < updates.len() implies (#[trigger] updates[j]).name
        != (#[trigger] updates[k]).name by {
        spec::valid_instances_can_be_configured(spec, k, j);
    }
    instances::put_instances_are_left_alone(records, updates, i, revision);
}

/// What a declared resource is stored as, where records are written so.
pub open spec fn resource_text(
    written: spec_fn(records::ResourceView) -> Seq<char>,
    declared: ResourceDecl,
) -> Seq<char> {
    written(resources::record_of(declared.low_level()))
}

/// The texts that are stored under the names of resources once the declared
/// ones were put, one after another.
pub open spec fn resources_put(
    stored: Map<Seq<char>, Seq<char>>,
    written: spec_fn(records::ResourceView) -> Seq<char>,
    declared: Seq<ResourceDecl>,
) -> Map<Seq<char>, Seq<char>>
    decreases declared.len(),
{
    if declared.len() == 0 {
        stored
    } else {
        let before = resources_put(stored, written, declared.drop_last());
        let last = declared.last();
        let value = resource_text(written, last);
        if resources::stale(stored_under(before, last.name), value) {
            before.insert(last.name, value)
        } else {
            before
        }
    }
}

/// What is stored under a name.
pub open spec fn stored_under(stored: Map<Seq<char>, Seq<char>>, name: Seq<char>) -> Option<
    Seq<char>,
> {
    if stored.dom().contains(name) {
        Some(stored[name])
    } else {
        None
    }
}

proof fn put_resources_are_held(
    stored: Map<Seq<char>, Seq<char>>,
    written: spec_fn(records::ResourceView) -> Seq<char>,
    declared: Seq<ResourceDecl>,
    i: int,
)
    requires
        0 <= i < declared.len(),
        forall|j: int| i < j < declared.len() ==> (#[trigger] declared[j]).name
            != declared[i].name,
    ensures
        stored_under(resources_put(stored, written, declared), declared[i].name) == Some(
            resource_text(written, declared[i]),
        ),
    decreases declared.len(),
{
    if i < declared.len() - 1 {
        let rest = declared.drop_last();
        assert(rest[i] == declared[i]);
        assert forall|j: int| i < j < rest.len() implies (#[trigger] rest[j]).name
            != rest[i].name by {
            assert(rest[j] == declared[j]);
        }
        assert(declared[declared.len() - 1].name != declared[i].name);
        put_resources_are_held(stored, written, rest, i);
    }
}

/// Once the resources of a valid specification were put, whatever was stored
/// before and however records are written, none of them is written again when
/// the specification is applied again.
pub proof fn applied_resources_are_left_alone(
    spec: SpecView,
    stored: Map<Seq<char>, Seq<char>>,
    written: spec_fn(records::ResourceView) -> Seq<char>,
    i: int,
)
    requires
        spec.fault() is None,
        0 <= i < spec.resources.len(),
    ensures
        !resources::stale(
            stored_under(
                resources_put(stored, written, spec.resources),
                spec.resources[i].name,
            ),
            resource_text(written, spec.resources[i]),
        ),
{
    assert forall|j: int| i < j < spec.resources.len() implies (#[trigger] spec.resources[j]).name
        != spec.resources[i].name by {
        spec::valid_resources_differ(spec, j, i);
    }
    put_resources_are_held(stored, written, spec.resources, i);
}

/// An application of a specification.
pub struct SpecApplication {
    instances: Vec<InstanceSpec>,
    resources: Vec<ResourceSpec>,
}

impl View for SpecApplication {
    type V = ApplyView;

    closed spec fn view(&self) -> ApplyView {
        ApplyView {
            instances: self.instances.deep_view(),
            resources: self.resources.deep_view(),
        }
    }
}

impl SpecApplication {
    /// Apply a validated, idempotent, non-destructive specification.
    pub fn apply(spec: ClusterSpec) -> (r: (SpecApplication, ApplyAction))
        ensures
            (r.0@, r.1@) == begin(spec@),
    {
        match spec.validate() {
            Err(error) => {
                let nothing = SpecApplication { instances: Vec::new(), resources: Vec::new() };
                assert(nothing@.instances =~= Seq::empty());
                assert(nothing@.resources =~= Seq::empty());
                (nothing, ApplyAction::Finish(Err(error)))
            },
            Ok(()) => {
                let (instances, resources) = spec.into_parts();
                (SpecApplication { instances, resources }, ApplyAction::EnsureCluster)
            },
        }
    }

    /// What follows the check of the cluster, or a write.
    pub fn on_done(&mut self, result: Result<(), CoordinationError>) -> (r: ApplyAction)
        ensures
            (final(self)@, r@) == old(self)@.next(
                match result {
                    Ok(()) => Ok(()),
                    Err(error) => Err(error@),
                },
            ),
    {
        if let Err(error) = result {
            return ApplyAction::Finish(Err(ApplicationError::Coordination(error)));
        }
        let ghost instances = self.instances.deep_view();
        let ghost resources = self.resources.deep_view();
        if self.instances.len() > 0 {
            let instance = self.instances.remove(0);
            assert(self.instances.deep_view() =~= instances.skip(1));
            ApplyAction::PutInstance(instance.into_low_level())
        } else if self.resources.len() > 0 {
            let resource = self.resources.remove(0);
            assert(self.resources.deep_view() =~= resources.skip(1));
            ApplyAction::PutResource(resource.into_low_level())
        } else {
            ApplyAction::Finish(Ok(()))
        }
    }
}

/// The first reason why the limits may not be configured.
pub open spec fn limits_fault(limits: Seq<TypedLimit>) -> Option<Seq<char>>
    decreases limits.len(),
{
    if limits.len() == 0 {
        None
    } else {
        match limits_fault(limits.drop_last()) {
            Some(message) => Some(message),
            None => limits.last().fault(),
        }
    }
}

proof fn limits_prefix(limits: Seq<TypedLimit>, i: int)
    requires
        0 <= i <= limits.len(),
        limits_fault(limits.take(i)) is Some,
    ensures
        limits_fault(limits) == limits_fault(limits.take(i)),
    decreases limits.len() - i,
{
    if i < limits.len() {
        assert(limits.take(i + 1).drop_last() =~= limits.take(i));
        limits_prefix(limits, i + 1);
    } else {
        assert(limits.take(i) =~= limits);
    }
}

/// The typed limits as an administrator configures them.
pub fn set_transition_limits(limits: Vec<TransitionLimit>) -> (r: Result<
    Vec<TransitionLimitSpec>,
    ApplicationError,
>)
    ensures
        match r {
            Ok(records) => limits_fault(limits.deep_view()) is None && records.deep_view()
                == Seq::new(limits@.len(), |i: int| limits@[i]@.low_level()),
            Err(error) => limits_fault(limits.deep_view()) matches Some(message) && error@
                == ApplicationFault::Spec(message),
        },
{
    let ghost all = limits.deep_view();
    let mut rest = limits;
    let mut out: Vec<TransitionLimitSpec> = Vec::new();
    let ghost mut done: int = 0;
    proof {
        assert(all.take(0) =~= Seq::empty());
        assert(rest.deep_view() =~= all.skip(0));
        assert(out.deep_view() =~= Seq::new(0, |i: int| all[i].low_level()));
    }
    while rest.len() > 0
        invariant
            0 <= done <= all.len(),
            all == limits.deep_view(),
            rest.deep_view() == all.skip(done),
            limits_fault(all.take(done)) is None,
            out.deep_view() == Seq::new(done as nat, |i: int| all[i].low_level()),
        decreases rest@.len(),
    {
        let ghost left = rest.deep_view();
        let ghost before = out.deep_view();
        let limit = rest.remove(0);
        proof {
            assert(rest.deep_view() =~= left.skip(1));
            assert(limit@ == left[0]);
            assert(all.take(done + 1).drop_last() =~= all.take(done));
            assert(all.take(done + 1).last() == limit@);
        }
        match limit.into_low_level() {
            Ok(record) => {
                let ghost model = record.deep_view();
                out.push(record);
                assert(out.deep_view() =~= before.push(model));
            },
            Err(error) => {
                proof {
                    limits_prefix(all, done + 1);
                }
                return Err(error);
            },
        }
        proof {
            done = done + 1;
            assert(rest.deep_view() =~= all.skip(done));
            assert(out.deep_view() =~= Seq::new(done as nat, |i: int| all[i].low_level()));
        }
    }
    proof {
        assert(done == all.len());
        assert(all.take(done) =~= all);
        assert(out.deep_view() =~= Seq::new(limits@.len(), |i: int| limits@[i]@.low_level()));
    }
    Ok(out)
}

/// How a process ended: an error of the signal handler comes first, then one of
/// the application's callback, then the result of the run.
pub open spec fn outcome(
    signal: Option<Seq<char>>,
    callback: Option<Seq<char>>,
    result: Result<(), ApplicationFault>,
) -> Result<(), ApplicationFault> {
    match (signal, callback) {
        (Some(error), _) => Err(ApplicationFault::Signal(error)),
        (None, Some(error)) => Err(ApplicationFault::Callback(error)),
        (None, None) => result,
    }
}

/// How a process ended.
pub fn run_outcome(
    signal: Option<String>,
    callback: Option<String>,
    result: Result<(), ApplicationError>,
) -> (r: Result<(), ApplicationError>)
    ensures
        match (
            r,
            outcome(
                signal.deep_view(),
                callback.deep_view(),
                match result {
                    Ok(()) => Ok(()),
                    Err(error) => Err(error@),
                },
            ),
        ) {
            (Ok(()), Ok(())) => true,
            (Err(error), Err(fault)) => error@ == fault,
            _ => false,
        },
{
    match (signal, callback) {
        (Some(error), _) => Err(ApplicationError::Signal(error)),
        (None, Some(error)) => Err(ApplicationError::Callback(error)),
        (None, None) => result,
    }
}

} // verus!
