//! What holds of state models and of how they are built.
use crate::model::builtins;
use crate::model::paths;
use crate::model::state::StateCardinality;
use crate::model::state_model;
use crate::model::state_model::{StateModelParts, StateModelView};
use crate::text;
use vstd::prelude::*;

verus! {

/// Some route leads from one state to the other.
pub open spec fn joined(m: StateModelView, from: Seq<char>, to: Seq<char>) -> bool {
    exists|route: Seq<Seq<char>>| #[trigger]
        state_model::is_route(m, route) && route[0] == from && route.last() == to
}

proof fn hops_are_routes(m: StateModelView, from: Seq<char>, to: Seq<char>)
    requires
        m.states.no_duplicates(),
        m.states.contains(from),
        m.states.contains(to),
        from != to,
        forall|i: int|
            0 <= i < m.transitions.len() ==> m.states.contains((#[trigger] m.transitions[i]).0)
                && m.states.contains(m.transitions[i].1),
    ensures
        m.next(from, to) is Some <==> joined(m, from, to),
{
    let e = state_model::edges_of(m.states, m.transitions);
    let n = m.states.len();
    let i = m.states.index_of(from);
    let j = m.states.index_of(to);
    paths::hop_advances(e, n, i, j);
    if joined(m, from, to) {
        let route = choose|route: Seq<Seq<char>>| #[trigger]
            state_model::is_route(m, route) && route[0] == from && route.last() == to;
        let w = state_model::route_walk(m, route);
        assert(paths::is_walk(e, w) && w[0] == i && w.last() == j);
    }
    if m.next(from, to) is Some {
        let w = paths::distance_has_walk(e, n, i, j);
        let route = Seq::new(w.len(), |k: int| m.states[w[k]]);
        assert forall|k: int| 0 <= k < route.len() - 1 implies m.transitions.contains(
            (#[trigger] route[k], route[k + 1]),
        ) by {
            assert(e(w[k], w[k + 1]));
        }
        assert(state_model::is_route(m, route));
        assert(route[0] == from && route.last() == to);
    }
}

proof fn sound_transitions(states: Seq<Seq<char>>, transitions: Seq<(Seq<char>, Seq<char>)>)
    ensures
        state_model::transition_fault(states, transitions) is None <==> transitions.no_duplicates()
            && forall|i: int|
            0 <= i < transitions.len() ==> states.contains((#[trigger] transitions[i]).0)
                && states.contains(transitions[i].1),
    decreases transitions.len(),
{
    if transitions.len() > 0 {
        let rest = transitions.drop_last();
        let n = transitions.len() - 1;
        sound_transitions(states, rest);
        assert(transitions[n] == transitions.last());
        let sound = transitions.no_duplicates() && forall|i: int|
            0 <= i < transitions.len() ==> states.contains((#[trigger] transitions[i]).0)
                && states.contains(transitions[i].1);
        if sound {
            assert forall|i: int| 0 <= i < rest.len() implies states.contains(
                (#[trigger] rest[i]).0,
            ) && states.contains(rest[i].1) by {
                assert(rest[i] == transitions[i]);
            }
            assert forall|a: int, b: int|
                0 <= a < rest.len() && 0 <= b < rest.len() && a != b implies rest[a] != rest[b] by {
                assert(rest[a] == transitions[a] && rest[b] == transitions[b]);
            }
            assert(rest.no_duplicates());
            if rest.contains(transitions[n]) {
                let k = rest.index_of(transitions[n]);
                assert(transitions[k] == transitions[n]);
            }
            assert(states.contains(transitions[n].0));
        }
        if state_model::transition_fault(states, transitions) is None {
            assert forall|i: int| 0 <= i < transitions.len() implies states.contains(
                (#[trigger] transitions[i]).0,
            ) && states.contains(transitions[i].1) by {
                if i < n {
                    assert(rest[i] == transitions[i]);
                }
            }
            assert forall|a: int, b: int|
                0 <= a < transitions.len() && 0 <= b < transitions.len() && a
                    != b implies transitions[a] != transitions[b] by {
                if a < n && b < n {
                    assert(rest[a] == transitions[a] && rest[b] == transitions[b]);
                } else if a < n {
                    assert(rest[a] == transitions[a]);
                } else {
                    assert(rest[b] == transitions[b]);
                }
            }
        }
    }
}

proof fn all_reach(states: Seq<Seq<char>>, transitions: Seq<(Seq<char>, Seq<char>)>, n: nat)
    requires
        n <= states.len(),
    ensures
        state_model::stranded(states, transitions, n) is None <==> forall|i: int|
            0 <= i < n ==> (#[trigger] states[i]) == "DROPPED"@ || state_model::next_of(
                states,
                transitions,
                states[i],
                "DROPPED"@,
            ) is Some,
    decreases n,
{
    if n > 0 {
        all_reach(states, transitions, (n - 1) as nat);
    }
}

/// A model is built exactly where it has a name, states that differ, an initial
/// state and DROPPED among them, transitions between them that differ, and from
/// every state a route to DROPPED.
pub proof fn sound_models_are_built(parts: StateModelParts)
    ensures
        parts.fault() is None <==> {
            let names = state_model::names_of(parts.states);
            &&& parts.name.len() > 0
            &&& names.len() > 0
            &&& names.no_duplicates()
            &&& parts.initial is Some && names.contains(parts.initial->0)
            &&& names.contains("DROPPED"@)
            &&& parts.transitions.no_duplicates()
            &&& forall|i: int|
                0 <= i < parts.transitions.len() ==> names.contains(
                    (#[trigger] parts.transitions[i]).0,
                ) && names.contains(parts.transitions[i].1)
            &&& forall|i: int|
                0 <= i < names.len() ==> (#[trigger] names[i]) == "DROPPED"@ || joined(
                    parts.model(),
                    names[i],
                    "DROPPED"@,
                )
        },
{
    let names = state_model::names_of(parts.states);
    state_model::first_repeat_none(names);
    sound_transitions(names, parts.transitions);
    all_reach(names, parts.transitions, names.len());
    if names.no_duplicates() && names.contains("DROPPED"@) && state_model::transition_fault(
        names,
        parts.transitions,
    ) is None {
        let m = parts.model();
        assert forall|i: int| 0 <= i < names.len() && #[trigger] names[i] != "DROPPED"@ implies (
        state_model::next_of(names, parts.transitions, names[i], "DROPPED"@) is Some) == joined(
            m,
            names[i],
            "DROPPED"@,
        ) by {
            assert(names.contains(names[i]));
            hops_are_routes(m, names[i], "DROPPED"@);
        }
    }
}

/// The built model has the states and the transitions in the order in which
/// they were added, each state with its cardinality.
pub proof fn models_are_as_they_were_built(parts: StateModelParts, i: int)
    requires
        parts.fault() is None,
        0 <= i < parts.states.len(),
    ensures
        ({
            let m = parts.model();
            &&& m.name == parts.name
            &&& parts.initial == Some(m.initial)
            &&& m.states.len() == parts.states.len()
            &&& m.states[i] == parts.states[i].0
            &&& m.transitions == parts.transitions
            &&& m.cardinality(parts.states[i].0) == Some(parts.states[i].1)
        }),
{
    let names = state_model::names_of(parts.states);
    state_model::first_repeat_none(names);
    assert(names[i] == parts.states[i].0);
    assert(names.contains(names[i]));
    let k = names.index_of(names[i]);
    assert(names[k] == names[i]);
}

/// A state of a model has no cardinality that it was not given.
pub proof fn other_states_have_no_cardinality(parts: StateModelParts, state: Seq<char>)
    requires
        forall|i: int| 0 <= i < parts.states.len() ==> (#[trigger] parts.states[i]).0 != state,
    ensures
        parts.model().cardinality(state) is None,
{
    let names = state_model::names_of(parts.states);
    if names.contains(state) {
        let k = names.index_of(state);
        assert(parts.states[k].0 == state);
    }
}

/// The built-in model: a leader, standbys, and replicas that are offline or
/// dropped, in this order of priority. A replica starts offline. It goes up and
/// down by one state at a time, and is dropped from offline only.
pub proof fn replicas_go_through_the_built_in_states()
    ensures
        ({
            let m = builtins::leader_standby_parts().model();
            &&& m.initial == "OFFLINE"@
            &&& m.states == seq!["LEADER"@, "STANDBY"@, "OFFLINE"@, "DROPPED"@]
            &&& forall|t: (Seq<char>, Seq<char>)| #[trigger]
                m.transitions.contains(t) <==> t == ("LEADER"@, "STANDBY"@) || t == (
                    "STANDBY"@,
                    "LEADER"@,
                ) || t == ("OFFLINE"@, "STANDBY"@) || t == ("STANDBY"@, "OFFLINE"@) || t == (
                    "OFFLINE"@,
                    "DROPPED"@,
                )
            &&& m.transitions[0] == ("LEADER"@, "STANDBY"@)
            &&& m.transitions[1] == ("STANDBY"@, "LEADER"@)
            &&& m.transitions[2] == ("OFFLINE"@, "STANDBY"@)
            &&& m.transitions[3] == ("STANDBY"@, "OFFLINE"@)
            &&& m.transitions[4] == ("OFFLINE"@, "DROPPED"@)
            &&& m.cardinality("LEADER"@) == Some(StateCardinality::Exact(1))
            &&& m.cardinality("STANDBY"@) == Some(StateCardinality::ReplicaCount)
            &&& m.cardinality("OFFLINE"@) == Some(StateCardinality::Unbounded)
            &&& m.cardinality("DROPPED"@) == Some(StateCardinality::Unbounded)
        }),
{
    let parts = builtins::leader_standby_parts();
    let m = parts.model();
    builtins::leader_standby_is_sound();
    models_are_as_they_were_built(parts, 0);
    models_are_as_they_were_built(parts, 1);
    models_are_as_they_were_built(parts, 2);
    models_are_as_they_were_built(parts, 3);
    assert(m.states =~= seq!["LEADER"@, "STANDBY"@, "OFFLINE"@, "DROPPED"@]);
    let t = m.transitions;
    assert(t.len() == 5);
    assert(t.contains(t[0]) && t.contains(t[1]) && t.contains(t[2]) && t.contains(t[3])
        && t.contains(t[4]));
}

/// A cardinality is written as R for one replica for each wanted one, N for one
/// on every instance, -1 for any number, or a plain number.
pub proof fn cardinalities_are_read(n: u32, value: Seq<char>)
    ensures
        StateCardinality::of_text("R"@) == Some(StateCardinality::ReplicaCount),
        StateCardinality::of_text("N"@) == Some(StateCardinality::NodeCount),
        StateCardinality::of_text("-1"@) == Some(StateCardinality::Unbounded),
        StateCardinality::of_text(text::decimal(n as nat)) == Some(StateCardinality::Exact(n)),
        text::unsigned_number(value) is None && value != "R"@ && value != "N"@ && value != "-1"@
            ==> StateCardinality::of_text(value) is None,
        text::unsigned_number(value) is Some && text::unsigned_number(value)->0 > u32::MAX
            ==> StateCardinality::of_text(value) is None,
{
    reveal_strlit("R");
    reveal_strlit("N");
    reveal_strlit("-1");
    assert("R"@[0] == 'R' && "N"@[0] == 'N' && "-1"@[0] == '-');
    assert("R"@ != "N"@ && "R"@ != "-1"@ && "N"@ != "-1"@);
    text::decimal_round_trip(n as nat);
    assert(!text::is_digit("R"@[0]) && !text::is_digit("N"@[0]) && !text::is_digit("-1"@[0]));
    assert(text::unsigned_number("R"@) is None);
    assert(text::unsigned_number("N"@) is None);
    assert(text::unsigned_number("-1"@) is None);
}

} // verus!
