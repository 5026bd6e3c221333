//! The next transition of every replica.
use crate::model::replica_state;
use crate::model::state_model;
use crate::model::{
    BestPossibleState, CurrentState, InstanceId, PartitionId, ResourceId, StateModelDefinition,
};
use crate::ordered::{Duplicate, Key};
use crate::transition;
use crate::transition::TransitionRequest;
use vstd::prelude::*;
use vstd::string::*;

verus! {

/// A replica with its state.
pub type Cell = (Seq<char>, Seq<char>, Seq<char>);

/// The first replica among `all` that has no state in `m`.
pub open spec fn first_missing(all: Seq<Cell>, m: replica_state::Replicas) -> Option<
    (Seq<char>, Seq<char>),
>
    decreases all.len(),
{
    if all.len() == 0 {
        None
    } else {
        match first_missing(all.drop_last(), m) {
            Some(replica) => Some(replica),
            None => if replica_state::state_of(m, all.last().0, all.last().1) is None {
                Some((all.last().0, all.last().1))
            } else {
                None
            },
        }
    }
}

proof fn first_missing_prefix(all: Seq<Cell>, m: replica_state::Replicas, i: int)
    requires
        0 <= i <= all.len(),
        first_missing(all.take(i), m) is Some,
    ensures
        first_missing(all, m) == first_missing(all.take(i), m),
    decreases all.len(),
{
    if i == all.len() {
        assert(all.take(i) =~= all);
    } else {
        assert(all.drop_last().take(i) =~= all.take(i));
        first_missing_prefix(all.drop_last(), m, i);
    }
}

/// No replica among `all` lacks a state exactly when each has one.
pub proof fn first_missing_none(all: Seq<Cell>, m: replica_state::Replicas, k: int)
    requires
        first_missing(all, m) is None,
        0 <= k < all.len(),
    ensures
        replica_state::state_of(m, all[k].0, all[k].1) is Some,
    decreases all.len(),
{
    if k < all.len() - 1 {
        first_missing_none(all.drop_last(), m, k);
    }
}

/// Why transitions cannot be generated: a desired replica that is not
/// observed, or else an observed replica that is not desired.
pub open spec fn generation_fault(
    current: replica_state::Replicas,
    target: replica_state::Replicas,
) -> Option<GenerationFault> {
    match first_missing(replica_state::cells(target), current) {
        Some((partition, instance)) => Some(
            GenerationFault::MissingCurrentState { partition, instance },
        ),
        None => match first_missing(replica_state::cells(current), target) {
            Some((partition, instance)) => Some(
                GenerationFault::MissingTargetState { partition, instance },
            ),
            None => None,
        },
    }
}

/// The move of one replica toward its desired state.
pub open spec fn next_move(
    resource: Seq<char>,
    current: replica_state::Replicas,
    desired: Cell,
    model: state_model::StateModelView,
) -> Option<transition::Move> {
    let state = replica_state::state_of(current, desired.0, desired.1)->0;
    if state == desired.2 {
        None
    } else {
        match model.next(state, desired.2) {
            Some(next) => Some(
                transition::Move {
                    resource,
                    partition: desired.0,
                    instance: desired.1,
                    source: state,
                    target: next,
                },
            ),
            None => None,
        }
    }
}

/// The moves of the listed replicas, in order.
pub open spec fn moves_of(
    resource: Seq<char>,
    current: replica_state::Replicas,
    desired: Seq<Cell>,
    model: state_model::StateModelView,
) -> Seq<transition::Move>
    decreases desired.len(),
{
    if desired.len() == 0 {
        Seq::empty()
    } else {
        let before = moves_of(resource, current, desired.drop_last(), model);
        match next_move(resource, current, desired.last(), model) {
            Some(next) => before.push(next),
            None => before,
        }
    }
}

/// Every generated move leads one observed replica along a transition of the
/// model toward its desired state.
pub proof fn generated_moves_follow_the_model(
    resource: Seq<char>,
    current: replica_state::Replicas,
    desired: Seq<Cell>,
    model: state_model::StateModelView,
    k: int,
) -> (d: int)
    requires
        model.valid(),
        0 <= k < moves_of(resource, current, desired, model).len(),
        forall|i: int|
            0 <= i < desired.len() ==> replica_state::state_of(
                current,
                (#[trigger] desired[i]).0,
                desired[i].1,
            ) is Some,
    ensures
        ({
            let m = moves_of(resource, current, desired, model)[k];
            &&& 0 <= d < desired.len()
            &&& m.resource == resource
            &&& m.partition == desired[d].0
            &&& m.instance == desired[d].1
            &&& replica_state::state_of(current, m.partition, m.instance) == Some(m.source)
            &&& model.next(m.source, desired[d].2) == Some(m.target)
            &&& model.transitions.contains((m.source, m.target))
        }),
    decreases desired.len(),
{
    let before = desired.drop_last();
    if k < moves_of(resource, current, before, model).len() {
        assert forall|i: int| 0 <= i < before.len() implies replica_state::state_of(
            current,
            (#[trigger] before[i]).0,
            before[i].1,
        ) is Some by {
            assert(before[i] == desired[i]);
        }
        generated_moves_follow_the_model(resource, current, before, model, k)
    } else {
        let d = desired.len() - 1;
        let m = moves_of(resource, current, desired, model)[k];
        state_model::next_hop_advances(model, m.source, desired[d].2);
        d
    }
}

/// Why transitions cannot be generated.
pub enum GenerationFault {
    MissingCurrentState { partition: Seq<char>, instance: Seq<char> },
    MissingTargetState { partition: Seq<char>, instance: Seq<char> },
}

/// Errors for incomplete explicit state input.
#[derive(Clone, Debug, PartialEq, Eq)]
pub enum TransitionGenerationError {
    MissingCurrentState { partition: PartitionId, instance: InstanceId },
    MissingTargetState { partition: PartitionId, instance: InstanceId },
}

impl View for TransitionGenerationError {
    type V = GenerationFault;

    open spec fn view(&self) -> GenerationFault {
        match self {
            TransitionGenerationError::MissingCurrentState {
                partition,
                instance,
            } => GenerationFault::MissingCurrentState {
                partition: partition@,
                instance: instance@,
            },
            TransitionGenerationError::MissingTargetState {
                partition,
                instance,
            } => GenerationFault::MissingTargetState { partition: partition@, instance: instance@ },
        }
    }
}

impl GenerationFault {
    /// The operator-facing message.
    pub open spec fn text(self) -> Seq<char> {
        match self {
            GenerationFault::MissingCurrentState {
                partition,
                instance,
            } => "missing current state for partition "@ + partition + " and instance "@ + instance,
            GenerationFault::MissingTargetState {
                partition,
                instance,
            } => "missing target state for partition "@ + partition + " and instance "@ + instance,
        }
    }
}

impl TransitionGenerationError {
    /// Return the operator-facing message.
    pub fn to_string(&self) -> (r: String)
        ensures
            r@ == self@.text(),
    {
        match self {
            TransitionGenerationError::MissingCurrentState {
                partition,
                instance,
            } => "missing current state for partition ".to_owned().concat(
                partition.as_str(),
            ).concat(" and instance ").concat(instance.as_str()),
            TransitionGenerationError::MissingTargetState {
                partition,
                instance,
            } => "missing target state for partition ".to_owned().concat(
                partition.as_str(),
            ).concat(" and instance ").concat(instance.as_str()),
        }
    }
}

/// Generate the semantic next transition for every explicitly supplied replica.
pub fn generate_transitions(
    resource: &ResourceId,
    current: &CurrentState,
    target: &BestPossibleState,
    state_model: &StateModelDefinition,
) -> (r: Result<Vec<TransitionRequest>, TransitionGenerationError>)
    ensures
        match r {
            Ok(requests) => generation_fault(current@, target@) is None && requests.deep_view()
                == moves_of(resource@, current@, replica_state::cells(target@), state_model@),
            Err(error) => generation_fault(current@, target@) == Some(error@),
        },
{
    let cells = replica_state::replica_cells(target.entries());
    match validate_explicit_replica_set(current, target, &cells) {
        Err(error) => {
            return Err(error);
        },
        Ok(()) => {},
    }
    let ghost desired = cells.deep_view();
    let mut requests: Vec<TransitionRequest> = Vec::new();
    let mut i: usize = 0;
    assert(desired.take(0) =~= Seq::empty());
    assert(requests.deep_view() =~= Seq::empty());
    while i < cells.len()
        invariant
            i <= cells@.len(),
            desired == cells.deep_view(),
            first_missing(desired, current@) is None,
            requests.deep_view() == moves_of(
                resource@,
                current@,
                desired.take(i as int),
                state_model@,
            ),
        decreases cells@.len() - i,
    {
        let ghost before = requests.deep_view();
        let cell = &cells[i];
        proof {
            assert(cell.deep_view() == desired[i as int]);
            first_missing_none(desired, current@, i as int);
            assert(desired.take(i + 1).drop_last() =~= desired.take(i as int));
        }
        let current_state = current.state(&cell.partition, &cell.instance).unwrap();
        if !current_state.same(&cell.state) {
            if let Some(next_state) = state_model.next_state_toward(current_state, &cell.state) {
                let request = TransitionRequest::new(
                    resource.duplicate(),
                    cell.partition.duplicate(),
                    cell.instance.duplicate(),
                    current_state.duplicate(),
                    next_state.duplicate(),
                );
                requests.push(request);
                assert(requests.deep_view() =~= before.push(request@));
            }
        }
        i = i + 1;
    }
    assert(desired.take(cells@.len() as int) =~= desired);
    Ok(requests)
}

fn validate_explicit_replica_set(
    current: &CurrentState,
    target: &BestPossibleState,
    target_cells: &Vec<replica_state::ReplicaCell>,
) -> (r: Result<(), TransitionGenerationError>)
    requires
        target_cells.deep_view() == replica_state::cells(target@),
    ensures
        match r {
            Ok(()) => generation_fault(current@, target@) is None,
            Err(error) => generation_fault(current@, target@) == Some(error@),
        },
{
    let ghost desired = target_cells.deep_view();
    let mut i: usize = 0;
    assert(desired.take(0) =~= Seq::empty());
    while i < target_cells.len()
        invariant
            i <= target_cells@.len(),
            desired == target_cells.deep_view(),
            desired == replica_state::cells(target@),
            first_missing(desired.take(i as int), current@) is None,
        decreases target_cells@.len() - i,
    {
        let cell = &target_cells[i];
        proof {
            assert(cell.deep_view() == desired[i as int]);
            assert(desired.take(i + 1).drop_last() =~= desired.take(i as int));
        }
        if current.state(&cell.partition, &cell.instance).is_none() {
            proof {
                first_missing_prefix(desired, current@, i + 1);
            }
            return Err(
                TransitionGenerationError::MissingCurrentState {
                    partition: cell.partition.duplicate(),
                    instance: cell.instance.duplicate(),
                },
            );
        }
        i = i + 1;
    }
    assert(desired.take(target_cells@.len() as int) =~= desired);
    let cells = replica_state::replica_cells(current.entries());
    let ghost observed = cells.deep_view();
    let mut j: usize = 0;
    assert(observed.take(0) =~= Seq::empty());
    while j < cells.len()
        invariant
            j <= cells@.len(),
            observed == cells.deep_view(),
            observed == replica_state::cells(current@),
            first_missing(replica_state::cells(target@), current@) is None,
            first_missing(observed.take(j as int), target@) is None,
        decreases cells@.len() - j,
    {
        let cell = &cells[j];
        proof {
            assert(cell.deep_view() == observed[j as int]);
            assert(observed.take(j + 1).drop_last() =~= observed.take(j as int));
        }
        if target.state(&cell.partition, &cell.instance).is_none() {
            proof {
                first_missing_prefix(observed, target@, j + 1);
            }
            return Err(
                TransitionGenerationError::MissingTargetState {
                    partition: cell.partition.duplicate(),
                    instance: cell.instance.duplicate(),
                },
            );
        }
        j = j + 1;
    }
    assert(observed.take(cells@.len() as int) =~= observed);
    Ok(())
}

} // verus!
