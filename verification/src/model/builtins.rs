//! Built-in state models.
use crate::model::paths;
use crate::model::state::{State, StateCardinality, Transition};
use crate::model::state_model;
use crate::model::state_model::StateModelDefinition;
use vstd::prelude::*;

verus! {

/// The states of the LeaderStandby model, by priority.
pub open spec fn leader_standby_states() -> Seq<(Seq<char>, StateCardinality)> {
    seq![
        ("LEADER"@, StateCardinality::Exact(1)),
        ("STANDBY"@, StateCardinality::ReplicaCount),
        ("OFFLINE"@, StateCardinality::Unbounded),
        ("DROPPED"@, StateCardinality::Unbounded),
    ]
}

/// The transitions of the LeaderStandby model, by priority.
pub open spec fn leader_standby_transitions() -> Seq<(Seq<char>, Seq<char>)> {
    seq![
        ("LEADER"@, "STANDBY"@),
        ("STANDBY"@, "LEADER"@),
        ("OFFLINE"@, "STANDBY"@),
        ("STANDBY"@, "OFFLINE"@),
        ("OFFLINE"@, "DROPPED"@),
    ]
}

/// The parts of the LeaderStandby model.
pub open spec fn leader_standby_parts() -> state_model::StateModelParts {
    state_model::StateModelParts {
        name: "LeaderStandby"@,
        initial: Some("OFFLINE"@),
        states: leader_standby_states(),
        transitions: leader_standby_transitions(),
    }
}

proof fn names_differ()
    ensures
        "LEADER"@ != "STANDBY"@,
        "LEADER"@ != "OFFLINE"@,
        "LEADER"@ != "DROPPED"@,
        "STANDBY"@ != "OFFLINE"@,
        "STANDBY"@ != "DROPPED"@,
        "OFFLINE"@ != "DROPPED"@,
        "LEADER"@.len() > 0,
        "STANDBY"@.len() > 0,
        "OFFLINE"@.len() > 0,
        "DROPPED"@.len() > 0,
        "LeaderStandby"@.len() > 0,
{
    reveal_strlit("LEADER");
    reveal_strlit("STANDBY");
    reveal_strlit("OFFLINE");
    reveal_strlit("DROPPED");
    reveal_strlit("LeaderStandby");
    assert("LEADER"@[0] == 'L');
    assert("STANDBY"@[0] == 'S');
    assert("OFFLINE"@[0] == 'O');
    assert("DROPPED"@[0] == 'D');
}

/// A walk joins state number `i` to state number `j`, so there is a next hop.
proof fn joined(w: Seq<int>, i: int, j: int)
    requires
        ({
            let states = state_model::names_of(leader_standby_states());
            let e = state_model::edges_of(states, leader_standby_transitions());
            &&& states.no_duplicates()
            &&& 0 <= i < states.len()
            &&& 0 <= j < states.len()
            &&& i != j
            &&& paths::walk_below(e, states.len(), w, i, j)
        }),
    ensures
        ({
            let states = state_model::names_of(leader_standby_states());
            state_model::next_of(
                states,
                leader_standby_transitions(),
                states[i],
                states[j],
            ) is Some
        }),
{
    let states = state_model::names_of(leader_standby_states());
    let e = state_model::edges_of(states, leader_standby_transitions());
    paths::distance_is_least(e, states.len(), w, i, j);
    paths::hop_iff_distance(e, states.len(), i, j);
    assert(states.contains(states[i]));
    assert(states.contains(states[j]));
    assert(states.index_of(states[i]) == i);
    assert(states.index_of(states[j]) == j);
}

/// The LeaderStandby model is a model.
pub proof fn leader_standby_is_sound()
    ensures
        leader_standby_parts().fault() is None,
        leader_standby_parts().model().valid(),
{
    names_differ();
    let parts = leader_standby_parts();
    let states = state_model::names_of(parts.states);
    let transitions = parts.transitions;
    let e = state_model::edges_of(states, transitions);
    assert(states =~= seq!["LEADER"@, "STANDBY"@, "OFFLINE"@, "DROPPED"@]);
    assert(states.no_duplicates());
    state_model::first_repeat_none(states);
    assert(states[0] == "LEADER"@ && states[1] == "STANDBY"@ && states[2] == "OFFLINE"@
        && states[3] == "DROPPED"@);
    assert(states.contains("LEADER"@));
    assert(states.contains("STANDBY"@));
    assert(states.contains("OFFLINE"@));
    assert(states.contains("DROPPED"@));
    let t1 = transitions.drop_last();
    let t2 = t1.drop_last();
    let t3 = t2.drop_last();
    let t4 = t3.drop_last();
    assert(t4 =~= seq![("LEADER"@, "STANDBY"@)]);
    assert(t4.drop_last() =~= Seq::empty());
    assert(t3 =~= seq![("LEADER"@, "STANDBY"@), ("STANDBY"@, "LEADER"@)]);
    assert(t2 =~= seq![
        ("LEADER"@, "STANDBY"@),
        ("STANDBY"@, "LEADER"@),
        ("OFFLINE"@, "STANDBY"@),
    ]);
    assert(t1 =~= seq![
        ("LEADER"@, "STANDBY"@),
        ("STANDBY"@, "LEADER"@),
        ("OFFLINE"@, "STANDBY"@),
        ("STANDBY"@, "OFFLINE"@),
    ]);
    assert(state_model::transition_fault(states, t4.drop_last()) is None);
    assert(state_model::transition_fault(states, t4) is None);
    assert(state_model::transition_fault(states, t3) is None);
    assert(state_model::transition_fault(states, t2) is None);
    assert(state_model::transition_fault(states, t1) is None);
    assert(state_model::transition_fault(states, transitions) is None);
    assert(transitions[0] == ("LEADER"@, "STANDBY"@));
    assert(transitions[3] == ("STANDBY"@, "OFFLINE"@));
    assert(transitions[4] == ("OFFLINE"@, "DROPPED"@));
    assert(e(0, 1));
    assert(e(1, 2));
    assert(e(2, 3));
    let w0 = seq![0int, 1, 2, 3];
    let w1 = seq![1int, 2, 3];
    let w2 = seq![2int, 3];
    assert(w0[0] == 0 && w0[1] == 1 && w0[2] == 2 && w0[3] == 3);
    assert(w1[0] == 1 && w1[1] == 2 && w1[2] == 3);
    assert(w2[0] == 2 && w2[1] == 3);
    assert(paths::is_walk(e, w0));
    assert(paths::is_walk(e, w1));
    assert(paths::is_walk(e, w2));
    joined(w0, 0, 3);
    joined(w1, 1, 3);
    joined(w2, 2, 3);
    assert(state_model::stranded(states, transitions, 0) is None);
    assert(state_model::stranded(states, transitions, 1) is None);
    assert(state_model::stranded(states, transitions, 2) is None);
    assert(state_model::stranded(states, transitions, 3) is None);
    assert(state_model::stranded(states, transitions, 4) is None);
    state_model::published_model_is_valid(parts);
}

/// A partition of a LeaderStandby resource has at most one leader.
pub proof fn one_leader_is_allowed()
    ensures
        leader_standby_parts().model().cardinality("LEADER"@) == Some(StateCardinality::Exact(1)),
{
    let states = state_model::names_of(leader_standby_states());
    names_differ();
    assert(states =~= seq!["LEADER"@, "STANDBY"@, "OFFLINE"@, "DROPPED"@]);
    assert(states[0] == "LEADER"@);
    assert(states.contains("LEADER"@));
    assert(states.index_of("LEADER"@) == 0);
}

/// Construct the built-in LeaderStandby definition.
pub fn leader_standby() -> (r: StateModelDefinition)
    ensures
        r@ == leader_standby_parts().model(),
        r@.valid(),
{
    proof {
        names_differ();
    }
    let mut builder = StateModelDefinition::builder("LeaderStandby");
    builder.initial_state(state("OFFLINE"));
    builder.add_state(state("LEADER"), StateCardinality::Exact(1));
    builder.add_state(state("STANDBY"), StateCardinality::ReplicaCount);
    builder.add_state(state("OFFLINE"), StateCardinality::Unbounded);
    builder.add_state(state("DROPPED"), StateCardinality::Unbounded);
    builder.add_transition(transition("LEADER", "STANDBY"));
    builder.add_transition(transition("STANDBY", "LEADER"));
    builder.add_transition(transition("OFFLINE", "STANDBY"));
    builder.add_transition(transition("STANDBY", "OFFLINE"));
    builder.add_transition(transition("OFFLINE", "DROPPED"));
    proof {
        assert(builder@.states =~= leader_standby_states());
        assert(builder@.transitions =~= leader_standby_transitions());
        assert(builder@ == leader_standby_parts());
        leader_standby_is_sound();
    }
    builder.build().unwrap()
}

fn state(name: &str) -> (r: State)
    requires
        name@.len() > 0,
    ensures
        r@ == name@,
{
    State::new(name).unwrap()
}

fn transition(from: &str, to: &str) -> (r: Transition)
    requires
        from@.len() > 0,
        to@.len() > 0,
    ensures
        r@ == (from@, to@),
{
    Transition::new(state(from), state(to))
}

} // verus!
