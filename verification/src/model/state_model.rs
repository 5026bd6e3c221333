//! Immutable, valid-by-construction state-model definitions.
use crate::model::paths;
use crate::model::state::{State, StateCardinality, Transition};
use crate::ordered::{Duplicate, Key, OrderedMap};
use crate::text;
use vstd::prelude::*;
use vstd::string::*;

verus! {

/// What a state-model definition says.
#[verifier::ext_equal]
pub struct StateModelView {
    pub name: Seq<char>,
    pub initial: Seq<char>,
    pub states: Seq<Seq<char>>,
    pub transitions: Seq<(Seq<char>, Seq<char>)>,
    pub cardinalities: Map<Seq<char>, StateCardinality>,
}

/// The transitions as edges between the positions of their states.
pub open spec fn edges_of(
    states: Seq<Seq<char>>,
    transitions: Seq<(Seq<char>, Seq<char>)>,
) -> paths::Edges {
    |a: int, b: int|
        0 <= a < states.len() && 0 <= b < states.len() && transitions.contains(
            (states[a], states[b]),
        )
}

/// The first stop from one state toward another.
pub open spec fn next_of(
    states: Seq<Seq<char>>,
    transitions: Seq<(Seq<char>, Seq<char>)>,
    from: Seq<char>,
    to: Seq<char>,
) -> Option<Seq<char>> {
    if states.contains(from) && states.contains(to) && from != to {
        match paths::hop(
            edges_of(states, transitions),
            states.len(),
            states.index_of(from),
            states.index_of(to),
        ) {
            Some(h) => Some(states[h]),
            None => None,
        }
    } else {
        None
    }
}

/// The number of transitions that the way from one state to another takes.
pub open spec fn steps_of(
    states: Seq<Seq<char>>,
    transitions: Seq<(Seq<char>, Seq<char>)>,
    from: Seq<char>,
    to: Seq<char>,
) -> Option<nat> {
    paths::distance(
        edges_of(states, transitions),
        states.len(),
        states.index_of(from),
        states.index_of(to),
    )
}

impl StateModelView {
    /// The first stop from one state toward another.
    pub open spec fn next(self, from: Seq<char>, to: Seq<char>) -> Option<Seq<char>> {
        next_of(self.states, self.transitions, from, to)
    }

    /// The number of transitions from one state to another.
    pub open spec fn steps(self, from: Seq<char>, to: Seq<char>) -> Option<nat> {
        steps_of(self.states, self.transitions, from, to)
    }

    /// The cardinality of a state.
    pub open spec fn cardinality(self, state: Seq<char>) -> Option<StateCardinality> {
        if self.cardinalities.dom().contains(state) {
            Some(self.cardinalities[state])
        } else {
            None
        }
    }

    /// A model that a builder may publish.
    pub open spec fn valid(self) -> bool {
        &&& self.name.len() > 0
        &&& self.states.len() > 0
        &&& self.states.no_duplicates()
        &&& self.states.contains(self.initial)
        &&& self.states.contains("DROPPED"@)
        &&& self.transitions.no_duplicates()
        &&& forall|i: int|
            0 <= i < self.transitions.len() ==> self.states.contains(
                (#[trigger] self.transitions[i]).0,
            ) && self.states.contains(self.transitions[i].1)
        &&& forall|state: Seq<char>|
            self.states.contains(state) && state != "DROPPED"@ ==> #[trigger] self.next(
                state,
                "DROPPED"@,
            ) is Some
        &&& self.cardinalities.dom() == self.states.to_set()
    }
}

/// What is stored under `from` and then `to`.
pub open spec fn lookup<A, B, C>(t: Map<A, Map<B, C>>, from: A, to: B) -> Option<C> {
    if t.dom().contains(from) && t[from].dom().contains(to) {
        Some(t[from][to])
    } else {
        None
    }
}

/// An immutable, valid-by-construction state-model definition.
#[derive(Debug, PartialEq, Eq)]
pub struct StateModelDefinition {
    name: String,
    initial_state: State,
    states_by_priority: Vec<State>,
    transitions_by_priority: Vec<Transition>,
    cardinalities: OrderedMap<State, StateCardinality>,
    next_states: OrderedMap<State, OrderedMap<State, State>>,
}

impl View for StateModelDefinition {
    type V = StateModelView;

    closed spec fn view(&self) -> StateModelView {
        StateModelView {
            name: self.name@,
            initial: self.initial_state@,
            states: self.states_by_priority.deep_view(),
            transitions: self.transitions_by_priority.deep_view(),
            cardinalities: self.cardinalities@,
        }
    }
}

impl DeepView for StateModelDefinition {
    type V = StateModelView;

    open spec fn deep_view(&self) -> StateModelView {
        self@
    }
}

impl StateModelDefinition {
    #[verifier::type_invariant]
    spec fn inv(self) -> bool {
        &&& self@.valid()
        &&& forall|from: Seq<char>, to: Seq<char>| #[trigger]
            lookup(self.next_states@, from, to) == self@.next(from, to)
    }

    /// Start constructing a state-model definition.
    pub fn builder(name: &str) -> (r: StateModelBuilder)
        ensures
            r@ == (StateModelParts {
                name: name@,
                initial: None,
                states: Seq::empty(),
                transitions: Seq::empty(),
            }),
    {
        StateModelBuilder::new(name)
    }

    /// Return the model name.
    pub fn name(&self) -> (r: &str)
        ensures
            r@ == self@.name,
    {
        self.name.as_str()
    }

    /// Return the initial state.
    pub fn initial_state(&self) -> (r: &State)
        ensures
            r@ == self@.initial,
    {
        &self.initial_state
    }

    /// Return states from highest to lowest priority.
    pub fn states_in_priority_order(&self) -> (r: &Vec<State>)
        ensures
            r.deep_view() == self@.states,
            r@.len() > 0,
            self@.valid(),
    {
        proof {
            use_type_invariant(self);
        }
        &self.states_by_priority
    }

    /// Return states from highest to lowest priority.
    pub fn states_priority(&self) -> (r: &Vec<State>)
        ensures
            r.deep_view() == self@.states,
            r@.len() > 0,
    {
        self.states_in_priority_order()
    }

    /// Return direct transitions from highest to lowest priority.
    pub fn transitions_in_priority_order(&self) -> (r: &Vec<Transition>)
        ensures
            r.deep_view() == self@.transitions,
    {
        &self.transitions_by_priority
    }

    /// Return direct transitions from highest to lowest priority.
    pub fn transition_priority(&self) -> (r: &Vec<Transition>)
        ensures
            r.deep_view() == self@.transitions,
    {
        self.transitions_in_priority_order()
    }

    /// Return the cardinality metadata for a state.
    pub fn cardinality_for(&self, state: &State) -> (r: Option<StateCardinality>)
        ensures
            r == self@.cardinality(state@),
    {
        match self.cardinalities.get(state) {
            Some(cardinality) => Some(*cardinality),
            None => None,
        }
    }

    /// Return the cardinality metadata for a state.
    pub fn state_cardinality(&self, state: &State) -> (r: Option<StateCardinality>)
        ensures
            r == self@.cardinality(state@),
    {
        self.cardinality_for(state)
    }

    /// Return the immutable cardinality map.
    pub fn cardinalities(&self) -> (r: &OrderedMap<State, StateCardinality>)
        ensures
            r@ == self@.cardinalities,
    {
        &self.cardinalities
    }

    /// Return the immutable cardinality map.
    pub fn state_cardinalities(&self) -> (r: &OrderedMap<State, StateCardinality>)
        ensures
            r@ == self@.cardinalities,
    {
        self.cardinalities()
    }

    /// Return the highest-priority state.
    pub fn highest_priority_state(&self) -> (r: &State)
        ensures
            r@ == self@.states[0],
    {
        proof {
            use_type_invariant(self);
        }
        &self.states_by_priority[0]
    }

    /// Return the highest-priority state.
    pub fn top_state(&self) -> (r: &State)
        ensures
            r@ == self@.states[0],
    {
        self.highest_priority_state()
    }

    /// Return whether exactly one instance is allowed in the top state.
    pub fn has_single_highest_priority_state(&self) -> (r: bool)
        ensures
            r == (self@.cardinality(self@.states[0]) == Some(StateCardinality::Exact(1))),
    {
        match self.cardinality_for(self.highest_priority_state()) {
            Some(StateCardinality::Exact(n)) => n == 1,
            _ => false,
        }
    }

    /// Return whether exactly one instance is allowed in the top state.
    pub fn is_single_top_state(&self) -> (r: bool)
        ensures
            r == (self@.cardinality(self@.states[0]) == Some(StateCardinality::Exact(1))),
    {
        self.has_single_highest_priority_state()
    }

    /// Return the first state used when moving from `from` toward `to`.
    pub fn next_state_toward(&self, from: &State, to: &State) -> (r: Option<&State>)
        ensures
            match r {
                Some(state) => self@.next(from@, to@) == Some(state@),
                None => self@.next(from@, to@) is None,
            },
    {
        proof {
            use_type_invariant(self);
            assert(lookup(self.next_states@, from@, to@) == self@.next(from@, to@));
        }
        match self.next_states.get(from) {
            Some(targets) => targets.get(to),
            None => None,
        }
    }

    /// Return the first state used when moving from `from` toward `to`.
    pub fn next_state(&self, from: &State, to: &State) -> (r: Option<&State>)
        ensures
            match r {
                Some(state) => self@.next(from@, to@) == Some(state@),
                None => self@.next(from@, to@) is None,
            },
    {
        self.next_state_toward(from, to)
    }
}

impl Duplicate for StateModelDefinition {
    fn duplicate(&self) -> (r: Self) {
        proof {
            use_type_invariant(self);
        }
        let next_states = self.next_states.duplicate();
        StateModelDefinition {
            name: self.name.clone(),
            initial_state: self.initial_state.duplicate(),
            states_by_priority: self.states_by_priority.duplicate(),
            transitions_by_priority: self.transitions_by_priority.duplicate(),
            cardinalities: self.cardinalities.duplicate(),
            next_states,
        }
    }
}

impl Clone for StateModelDefinition {
    fn clone(&self) -> (r: Self)
        ensures
            r@ == self@,
    {
        self.duplicate()
    }
}

/// What a builder has been told.
#[verifier::ext_equal]
pub struct StateModelParts {
    pub name: Seq<char>,
    pub initial: Option<Seq<char>>,
    pub states: Seq<(Seq<char>, StateCardinality)>,
    pub transitions: Seq<(Seq<char>, Seq<char>)>,
}

/// The names in a list of states with cardinalities.
pub open spec fn names_of(states: Seq<(Seq<char>, StateCardinality)>) -> Seq<Seq<char>> {
    Seq::new(states.len(), |i: int| states[i].0)
}

/// The first element of `s` that also stands before it.
pub open spec fn first_repeat<A>(s: Seq<A>) -> Option<A>
    decreases s.len(),
{
    if s.len() == 0 {
        None
    } else {
        match first_repeat(s.drop_last()) {
            Some(x) => Some(x),
            None => if s.drop_last().contains(s.last()) {
                Some(s.last())
            } else {
                None
            },
        }
    }
}

/// Nothing repeats exactly when all elements differ.
pub proof fn first_repeat_none<A>(s: Seq<A>)
    ensures
        first_repeat(s) is None <==> s.no_duplicates(),
    decreases s.len(),
{
    if s.len() > 0 {
        let t = s.drop_last();
        first_repeat_none(t);
        if t.no_duplicates() && !t.contains(s.last()) {
            assert forall|i: int, j: int|
                0 <= i < s.len() && 0 <= j < s.len() && i != j implies s[i] != s[j] by {
                if i == s.len() - 1 {
                    assert(t[j] == s[j]);
                } else if j == s.len() - 1 {
                    assert(t[i] == s[i]);
                } else {
                    assert(t[i] == s[i] && t[j] == s[j]);
                }
            }
        }
        if s.no_duplicates() {
            assert forall|i: int, j: int|
                0 <= i < t.len() && 0 <= j < t.len() && i != j implies t[i] != t[j] by {
                assert(t[i] == s[i] && t[j] == s[j]);
            }
            if t.contains(s.last()) {
                let i = t.index_of(s.last());
                assert(s[i] == s[s.len() - 1]);
            }
        }
    }
}

/// The first transition that a model may not have, and why.
pub open spec fn transition_fault(
    states: Seq<Seq<char>>,
    transitions: Seq<(Seq<char>, Seq<char>)>,
) -> Option<StateModelFault>
    decreases transitions.len(),
{
    if transitions.len() == 0 {
        None
    } else {
        let t = transitions.last();
        match transition_fault(states, transitions.drop_last()) {
            Some(fault) => Some(fault),
            None => if !states.contains(t.0) {
                Some(StateModelFault::UnknownTransitionState { transition: t, endpoint: t.0 })
            } else if !states.contains(t.1) {
                Some(StateModelFault::UnknownTransitionState { transition: t, endpoint: t.1 })
            } else if transitions.drop_last().contains(t) {
                Some(StateModelFault::DuplicateTransition(t))
            } else {
                None
            },
        }
    }
}

/// The first of the first `n` states without a way to DROPPED.
pub open spec fn stranded(
    states: Seq<Seq<char>>,
    transitions: Seq<(Seq<char>, Seq<char>)>,
    n: nat,
) -> Option<Seq<char>>
    decreases n,
{
    if n == 0 {
        None
    } else {
        match stranded(states, transitions, (n - 1) as nat) {
            Some(state) => Some(state),
            None => {
                let state = states[n - 1];
                if state != "DROPPED"@ && next_of(states, transitions, state, "DROPPED"@) is None {
                    Some(state)
                } else {
                    None
                }
            },
        }
    }
}

impl StateModelParts {
    /// Why these parts make no model.
    pub open spec fn fault(self) -> Option<StateModelFault> {
        let states = names_of(self.states);
        if self.name.len() == 0 {
            Some(StateModelFault::EmptyModelName)
        } else if states.len() == 0 {
            Some(StateModelFault::NoStates)
        } else if first_repeat(states) is Some {
            Some(StateModelFault::DuplicateState(first_repeat(states)->0))
        } else if self.initial is None {
            Some(StateModelFault::MissingInitialState)
        } else if !states.contains(self.initial->0) {
            Some(StateModelFault::UnknownInitialState(self.initial->0))
        } else if transition_fault(states, self.transitions) is Some {
            transition_fault(states, self.transitions)
        } else if !states.contains("DROPPED"@) {
            Some(StateModelFault::MissingDroppedState)
        } else if stranded(states, self.transitions, states.len()) is Some {
            Some(
                StateModelFault::NoPathToDropped(
                    stranded(states, self.transitions, states.len())->0,
                ),
            )
        } else {
            None
        }
    }

    /// The model that these parts make.
    pub open spec fn model(self) -> StateModelView {
        StateModelView {
            name: self.name,
            initial: self.initial->0,
            states: names_of(self.states),
            transitions: self.transitions,
            cardinalities: Map::new(
                |state: Seq<char>| names_of(self.states).contains(state),
                |state: Seq<char>| self.states[names_of(self.states).index_of(state)].1,
            ),
        }
    }
}

/// Builder for an immutable [`StateModelDefinition`].
pub struct StateModelBuilder {
    name: String,
    initial_state: Option<State>,
    states: Vec<(State, StateCardinality)>,
    transitions: Vec<Transition>,
}

impl View for StateModelBuilder {
    type V = StateModelParts;

    closed spec fn view(&self) -> StateModelParts {
        StateModelParts {
            name: self.name@,
            initial: self.initial_state.deep_view(),
            states: self.states.deep_view(),
            transitions: self.transitions.deep_view(),
        }
    }
}

impl StateModelBuilder {
    fn new(name: &str) -> (r: StateModelBuilder)
        ensures
            r@ == (StateModelParts {
                name: name@,
                initial: None,
                states: Seq::empty(),
                transitions: Seq::empty(),
            }),
    {
        let r = StateModelBuilder {
            name: name.to_owned(),
            initial_state: None,
            states: Vec::new(),
            transitions: Vec::new(),
        };
        assert(r@.states =~= Seq::empty());
        assert(r@.transitions =~= Seq::empty());
        r
    }

    /// Set the initial state.
    pub fn initial_state(&mut self, state: State) -> (r: &mut Self)
        ensures
            (*r)@ == (StateModelParts { initial: Some(state@), ..old(self)@ }),
            *final(self) == *final(r),
    {
        self.initial_state = Some(state);
        self
    }

    /// Add a state at the next priority position.
    pub fn add_state(&mut self, state: State, cardinality: StateCardinality) -> (r: &mut Self)
        ensures
            (*r)@ == (StateModelParts {
                states: old(self)@.states.push((state@, cardinality)),
                ..old(self)@
            }),
            *final(self) == *final(r),
    {
        let ghost before = self@;
        self.states.push((state, cardinality));
        assert(self@.states =~= before.states.push((state@, cardinality)));
        self
    }

    /// Add a direct transition at the next transition-priority position.
    pub fn add_transition(&mut self, transition: Transition) -> (r: &mut Self)
        ensures
            (*r)@ == (StateModelParts {
                transitions: old(self)@.transitions.push(transition@),
                ..old(self)@
            }),
            *final(self) == *final(r),
    {
        let ghost before = self@;
        self.transitions.push(transition);
        assert(self@.transitions =~= before.transitions.push(transition@));
        self
    }

    /// Validate and publish the immutable definition.
    pub fn build(self) -> (r: Result<StateModelDefinition, StateModelError>)
        ensures
            match r {
                Ok(model) => self@.fault() is None && model@ == self@.model() && model@.valid(),
                Err(error) => self@.fault() == Some(error@),
            },
    {
        let ghost parts = self@;
        let ghost states = names_of(parts.states);
        if self.name.as_str().is_empty() {
            return Err(StateModelError::EmptyModelName);
        }
        if self.states.len() == 0 {
            return Err(StateModelError::NoStates);
        }
        let mut cardinalities: OrderedMap<State, StateCardinality> = OrderedMap::new();
        let mut states_by_priority: Vec<State> = Vec::new();
        let mut i: usize = 0;
        assert(states.take(0) =~= Seq::empty());
        assert(cardinalities@.dom() =~= states.take(0).to_set());
        while i < self.states.len()
            invariant
                i <= self.states@.len(),
                parts == self@,
                parts.name.len() > 0,
                states.len() > 0,
                states == names_of(parts.states),
                first_repeat(states.take(i as int)) is None,
                states_by_priority.deep_view() == states.take(i as int),
                cardinalities@.dom() == states.take(i as int).to_set(),
                forall|j: int|
                    0 <= j < i ==> #[trigger] cardinalities@[states[j]] == parts.states[j].1,
            decreases self.states@.len() - i,
        {
            let ghost before = states.take(i as int);
            let ghost after = states.take(i + 1);
            let ghost done = states_by_priority.deep_view();
            let state = &self.states[i].0;
            proof {
                assert(state@ == states[i as int]);
                assert(after.drop_last() =~= before);
                assert(after.last() == state@);
                assert(before.to_set().contains(state@) <==> before.contains(state@));
            }
            if cardinalities.contains_key(state) {
                proof {
                    assert(first_repeat(after) == Some(state@));
                    first_repeat_prefix(states, i + 1);
                }
                return Err(StateModelError::DuplicateState(state.duplicate()));
            }
            let ghost known = cardinalities@;
            states_by_priority.push(state.duplicate());
            cardinalities.insert(state.duplicate(), self.states[i].1);
            proof {
                assert(states_by_priority.deep_view() =~= done.push(state@));
                assert(after =~= before.push(state@));
                assert(cardinalities@.dom() =~= after.to_set()) by {
                    assert forall|x: Seq<char>| after.to_set().contains(x) <==> (
                    before.to_set().contains(x) || x == state@) by {
                        if before.contains(x) {
                            let j = before.index_of(x);
                            assert(after[j] == x);
                        }
                        if x == state@ {
                            assert(after[i as int] == x);
                        }
                        if after.contains(x) {
                            let j = after.index_of(x);
                            if j < i {
                                assert(before[j] == x);
                            }
                        }
                    }
                }
                assert forall|j: int| 0 <= j < i + 1 implies #[trigger] cardinalities@[states[j]]
                    == parts.states[j].1 by {
                    if j < i {
                        assert(before[j] == states[j]);
                        assert(before.contains(states[j]));
                    }
                }
            }
            i = i + 1;
        }
        proof {
            assert(states.take(states.len() as int) =~= states);
            first_repeat_none(states);
            assert(cardinalities@ =~= parts.model().cardinalities) by {
                assert forall|x: Seq<char>| states.contains(x) implies cardinalities@[x]
                    == parts.model().cardinalities[x] by {
                    let j = states.index_of(x);
                    assert(cardinalities@[states[j]] == parts.states[j].1);
                }
            }
        }
        let initial_state = match &self.initial_state {
            None => {
                return Err(StateModelError::MissingInitialState);
            },
            Some(state) => state.duplicate(),
        };
        proof {
            assert(states.to_set().contains(initial_state@) <==> states.contains(initial_state@));
        }
        if !cardinalities.contains_key(&initial_state) {
            return Err(StateModelError::UnknownInitialState(initial_state));
        }
        let ghost transitions = parts.transitions;
        let mut t: usize = 0;
        assert(transitions.take(0) =~= Seq::empty());
        while t < self.transitions.len()
            invariant
                t <= self.transitions@.len(),
                parts == self@,
                transitions == parts.transitions,
                states == names_of(parts.states),
                cardinalities@.dom() == states.to_set(),
                transition_fault(states, transitions.take(t as int)) is None,
                parts.name.len() > 0,
                states.len() > 0,
                first_repeat(states) is None,
                parts.initial is Some,
                states.contains(parts.initial->0),
            decreases self.transitions@.len() - t,
        {
            let transition = &self.transitions[t];
            let ghost before = transitions.take(t as int);
            let ghost after = transitions.take(t + 1);
            proof {
                assert(after.drop_last() =~= before);
                assert(after.last() == transition@);
                assert(states.to_set().contains(transition@.0) <==> states.contains(transition@.0));
                assert(states.to_set().contains(transition@.1) <==> states.contains(transition@.1));
                transition_fault_prefix(states, transitions, t + 1);
            }
            if !cardinalities.contains_key(transition.source()) {
                return Err(
                    StateModelError::UnknownTransitionState {
                        transition: transition.duplicate(),
                        endpoint: transition.source().duplicate(),
                    },
                );
            }
            if !cardinalities.contains_key(transition.target()) {
                return Err(
                    StateModelError::UnknownTransitionState {
                        transition: transition.duplicate(),
                        endpoint: transition.target().duplicate(),
                    },
                );
            }
            let repeated = has_transition(
                &self.transitions,
                t,
                transition.source(),
                transition.target(),
            );
            if repeated {
                return Err(StateModelError::DuplicateTransition(transition.duplicate()));
            }
            t = t + 1;
        }
        proof {
            assert(transitions.take(transitions.len() as int) =~= transitions);
            transition_fault_none(states, transitions);
        }
        let next_states = build_transition_table(&states_by_priority, &self.transitions);
        let dropped = match State::new("DROPPED") {
            Ok(state) => state,
            Err(_) => {
                proof {
                    reveal_strlit("DROPPED");
                    assert(false);
                }
                return Err(StateModelError::MissingDroppedState);
            },
        };
        proof {
            assert(states.to_set().contains("DROPPED"@) <==> states.contains("DROPPED"@));
        }
        if !cardinalities.contains_key(&dropped) {
            return Err(StateModelError::MissingDroppedState);
        }
        let mut u: usize = 0;
        while u < states_by_priority.len()
            invariant
                u <= states_by_priority@.len(),
                states_by_priority.deep_view() == states,
                dropped@ == "DROPPED"@,
                states.contains("DROPPED"@),
                parts == self@,
                transitions == parts.transitions,
                states == names_of(parts.states),
                forall|from: Seq<char>, to: Seq<char>| #[trigger]
                    lookup(next_states@, from, to) == next_of(states, transitions, from, to),
                stranded(states, transitions, u as nat) is None,
                parts.name.len() > 0,
                states.len() > 0,
                first_repeat(states) is None,
                parts.initial is Some,
                states.contains(parts.initial->0),
                transition_fault(states, transitions) is None,
            decreases states_by_priority@.len() - u,
        {
            let state = &states_by_priority[u];
            proof {
                assert(state@ == states[u as int]);
                assert(lookup(next_states@, state@, dropped@) == next_of(
                    states,
                    transitions,
                    state@,
                    "DROPPED"@,
                ));
            }
            let reaches = match next_states.get(state) {
                Some(targets) => targets.contains_key(&dropped),
                None => false,
            };
            if !state.same(&dropped) && !reaches {
                proof {
                    assert(stranded(states, transitions, (u + 1) as nat) == Some(state@));
                    stranded_prefix(states, transitions, (u + 1) as nat, states.len());
                }
                return Err(StateModelError::NoPathToDropped(state.duplicate()));
            }
            u = u + 1;
        }
        proof {
            let model = parts.model();
            assert forall|x: Seq<char>|
                model.states.contains(x) && x != "DROPPED"@ implies #[trigger] model.next(
                x,
                "DROPPED"@,
            ) is Some by {
                let j = states.index_of(x);
                stranded_none(states, transitions, states.len(), j);
            }
            assert(model.cardinalities.dom() =~= model.states.to_set());
        }
        Ok(
            StateModelDefinition {
                name: self.name,
                initial_state,
                states_by_priority,
                transitions_by_priority: self.transitions,
                cardinalities,
                next_states,
            },
        )
    }
}

/// A repetition among the first elements decides.
pub proof fn first_repeat_prefix<A>(s: Seq<A>, i: int)
    requires
        0 <= i <= s.len(),
        first_repeat(s.take(i)) is Some,
    ensures
        first_repeat(s) == first_repeat(s.take(i)),
    decreases s.len(),
{
    if i == s.len() {
        assert(s.take(i) =~= s);
    } else {
        assert(s.drop_last().take(i) =~= s.take(i));
        first_repeat_prefix(s.drop_last(), i);
    }
}

proof fn transition_fault_prefix(
    states: Seq<Seq<char>>,
    transitions: Seq<(Seq<char>, Seq<char>)>,
    i: int,
)
    requires
        0 <= i <= transitions.len(),
    ensures
        transition_fault(states, transitions.take(i)) is Some ==> transition_fault(
            states,
            transitions,
        ) == transition_fault(states, transitions.take(i)),
    decreases transitions.len(),
{
    if i == transitions.len() {
        assert(transitions.take(i) =~= transitions);
    } else {
        assert(transitions.drop_last().take(i) =~= transitions.take(i));
        transition_fault_prefix(states, transitions.drop_last(), i);
    }
}

proof fn transition_fault_none(
    states: Seq<Seq<char>>,
    transitions: Seq<(Seq<char>, Seq<char>)>,
)
    requires
        transition_fault(states, transitions) is None,
    ensures
        transitions.no_duplicates(),
        forall|i: int|
            0 <= i < transitions.len() ==> states.contains((#[trigger] transitions[i]).0)
                && states.contains(transitions[i].1),
    decreases transitions.len(),
{
    if transitions.len() > 0 {
        let before = transitions.drop_last();
        transition_fault_none(states, before);
        assert forall|i: int| 0 <= i < transitions.len() implies states.contains(
            (#[trigger] transitions[i]).0,
        ) && states.contains(transitions[i].1) by {
            if i < before.len() {
                assert(before[i] == transitions[i]);
            }
        }
        assert forall|i: int, j: int|
            0 <= i < transitions.len() && 0 <= j < transitions.len() && i
                != j implies transitions[i] != transitions[j] by {
            if i == before.len() {
                assert(before[j] == transitions[j]);
            } else if j == before.len() {
                assert(before[i] == transitions[i]);
            } else {
                assert(before[i] == transitions[i] && before[j] == transitions[j]);
            }
        }
    }
}

proof fn stranded_prefix(
    states: Seq<Seq<char>>,
    transitions: Seq<(Seq<char>, Seq<char>)>,
    i: nat,
    n: nat,
)
    requires
        i <= n,
        stranded(states, transitions, i) is Some,
    ensures
        stranded(states, transitions, n) == stranded(states, transitions, i),
    decreases n,
{
    if i < n {
        stranded_prefix(states, transitions, i, (n - 1) as nat);
    }
}

proof fn stranded_none(
    states: Seq<Seq<char>>,
    transitions: Seq<(Seq<char>, Seq<char>)>,
    n: nat,
    i: int,
)
    requires
        stranded(states, transitions, n) is None,
        0 <= i < n,
    ensures
        states[i] == "DROPPED"@ || next_of(states, transitions, states[i], "DROPPED"@) is Some,
    decreases n,
{
    if i < n - 1 {
        stranded_none(states, transitions, (n - 1) as nat, i);
    }
}

/// Whether one of the first `n` transitions joins `from` to `to`.
fn has_transition(transitions: &Vec<Transition>, n: usize, from: &State, to: &State) -> (r: bool)
    requires
        n <= transitions@.len(),
    ensures
        r == transitions.deep_view().take(n as int).contains((from@, to@)),
{
    let ghost all = transitions.deep_view();
    let mut i: usize = 0;
    while i < n
        invariant
            i <= n <= transitions@.len(),
            all == transitions.deep_view(),
            forall|j: int| 0 <= j < i ==> #[trigger] all[j] != (from@, to@),
        decreases n - i,
    {
        if transitions[i].source().same(from) && transitions[i].target().same(to) {
            assert(all.take(n as int)[i as int] == (from@, to@));
            return true;
        }
        assert(all[i as int] != (from@, to@));
        i = i + 1;
    }
    false
}

/// A known way: its length and its first stop.
type Cell = Option<(usize, usize)>;

/// `c` holds the distance and the hop from `i` to `j` over stops below `k`.
spec fn cell_holds(c: Cell, e: paths::Edges, k: nat, i: int, j: int) -> bool {
    match c {
        Some((d, h)) => paths::distance(e, k, i, j) == Some(d as nat) && paths::hop(e, k, i, j)
            == Some(h as int),
        None => paths::distance(e, k, i, j) is None && paths::hop(e, k, i, j) is None,
    }
}

/// The first `m` cells of a row hold the ways from `i`.
spec fn row_holds(row: Seq<Cell>, e: paths::Edges, k: nat, i: int, m: nat) -> bool {
    row.len() == m && forall|j: int| 0 <= j < m ==> cell_holds(#[trigger] row[j], e, k, i, j)
}

/// The first `m` rows hold the ways between `n` states.
spec fn table_holds(
    rows: Seq<Vec<Cell>>,
    e: paths::Edges,
    k: nat,
    m: nat,
    n: nat,
) -> bool {
    rows.len() == m && forall|i: int| 0 <= i < m ==> row_holds((#[trigger] rows[i])@, e, k, i, n)
}

/// The ways of at most one transition.
fn direct_ways(states: &Vec<State>, transitions: &Vec<Transition>) -> (rows: Vec<Vec<Cell>>)
    ensures
        table_holds(
            rows@,
            edges_of(states.deep_view(), transitions.deep_view()),
            0,
            states@.len(),
            states@.len(),
        ),
{
    let ghost e = edges_of(states.deep_view(), transitions.deep_view());
    let n: usize = states.len();
    let mut rows: Vec<Vec<Cell>> = Vec::new();
    let mut i: usize = 0;
    while i < n
        invariant
            i <= n,
            n == states@.len(),
            e == edges_of(states.deep_view(), transitions.deep_view()),
            table_holds(rows@, e, 0, i as nat, n as nat),
        decreases n - i,
    {
        let mut row: Vec<Cell> = Vec::new();
        let mut j: usize = 0;
        while j < n
            invariant
                i < n,
                j <= n,
                n == states@.len(),
                e == edges_of(states.deep_view(), transitions.deep_view()),
                row_holds(row@, e, 0, i as int, j as nat),
            decreases n - j,
        {
            let direct = has_transition(transitions, transitions.len(), &states[i], &states[j]);
            proof {
                assert(transitions.deep_view().take(transitions@.len() as int)
                    =~= transitions.deep_view());
                assert(direct == e(i as int, j as int));
            }
            let cell: Cell = if direct {
                Some((1, j))
            } else if i == j {
                Some((0, j))
            } else {
                None
            };
            assert(cell_holds(cell, e, 0, i as int, j as int));
            row.push(cell);
            j = j + 1;
        }
        rows.push(row);
        i = i + 1;
    }
    rows
}

/// The ways once state `k` may be a stop too.
fn admit_stop(
    rows: &Vec<Vec<Cell>>,
    k: usize,
    n: usize,
    Ghost(e): Ghost<paths::Edges>,
) -> (next: Vec<Vec<Cell>>)
    requires
        k < n,
        table_holds(rows@, e, k as nat, n as nat, n as nat),
    ensures
        table_holds(next@, e, (k + 1) as nat, n as nat, n as nat),
{
    let mut next: Vec<Vec<Cell>> = Vec::new();
    let mut i: usize = 0;
    while i < n
        invariant
            i <= n,
            k < n,
            table_holds(rows@, e, k as nat, n as nat, n as nat),
            table_holds(next@, e, (k + 1) as nat, i as nat, n as nat),
        decreases n - i,
    {
        let mut row: Vec<Cell> = Vec::new();
        let mut j: usize = 0;
        while j < n
            invariant
                i < n,
                j <= n,
                k < n,
                table_holds(rows@, e, k as nat, n as nat, n as nat),
                row_holds(row@, e, (k + 1) as nat, i as int, j as nat),
            decreases n - j,
        {
            proof {
                assert(row_holds(rows@[i as int]@, e, k as nat, i as int, n as nat));
                assert(row_holds(rows@[k as int]@, e, k as nat, k as int, n as nat));
            }
            let left: Cell = rows[i][k];
            let right: Cell = rows[k][j];
            let known: Cell = rows[i][j];
            let cell: Cell = match (left, right) {
                (Some((l, h)), Some((r, _))) => {
                    match known {
                        None => {
                            proof {
                                paths::distance_bounded(
                                    e,
                                    n as nat,
                                    (k + 1) as nat,
                                    i as int,
                                    j as int,
                                );
                            }
                            Some((l + r, h))
                        },
                        Some((d, old_hop)) => match l.checked_add(r) {
                            Some(sum) => if sum < d {
                                Some((sum, h))
                            } else {
                                Some((d, old_hop))
                            },
                            None => Some((d, old_hop)),
                        },
                    }
                },
                _ => known,
            };
            assert(cell_holds(cell, e, (k + 1) as nat, i as int, j as int));
            row.push(cell);
            j = j + 1;
        }
        next.push(row);
        i = i + 1;
    }
    next
}

proof fn hop_in_range(e: paths::Edges, n: nat, k: nat, i: int, j: int)
    requires
        k <= n,
        0 <= j < n,
        paths::hop(e, k, i, j) is Some,
    ensures
        0 <= paths::hop(e, k, i, j)->0 < n,
    decreases k,
{
    if k > 0 {
        let p = (k - 1) as nat;
        if paths::improves(e, p, i, j) {
            paths::hop_iff_distance(e, p, i, p as int);
            hop_in_range(e, n, p, i, p as int);
        } else {
            hop_in_range(e, n, p, i, j);
        }
    }
}

/// The row of the next-hop table for state number `i`.
spec fn targets_hold(
    targets: Map<Seq<char>, Seq<char>>,
    states: Seq<Seq<char>>,
    e: paths::Edges,
    i: int,
    m: int,
) -> bool {
    forall|j: int|
        0 <= j < states.len() ==> {
            let target = #[trigger] states[j];
            let h = paths::hop(e, states.len(), i, j);
            if j < m && j != i && h is Some {
                targets.dom().contains(target) && targets[target] == states[h->0]
            } else {
                !targets.dom().contains(target)
            }
        }
}

/// The next-hop table: the ordered all-pairs construction, in which a path
/// already known is kept unless a strictly shorter one turns up.
fn build_transition_table(states: &Vec<State>, transitions: &Vec<Transition>) -> (table: OrderedMap<
    State,
    OrderedMap<State, State>,
>)
    requires
        states.deep_view().no_duplicates(),
    ensures
        forall|from: Seq<char>, to: Seq<char>| #[trigger]
            lookup(table@, from, to) == next_of(
                states.deep_view(),
                transitions.deep_view(),
                from,
                to,
            ),
{
    let ghost names = states.deep_view();
    let ghost e = edges_of(names, transitions.deep_view());
    let n: usize = states.len();
    let mut rows = direct_ways(states, transitions);
    let mut k: usize = 0;
    while k < n
        invariant
            k <= n,
            n == states@.len(),
            table_holds(rows@, e, k as nat, n as nat, n as nat),
        decreases n - k,
    {
        rows = admit_stop(&rows, k, n, Ghost(e));
        k = k + 1;
    }
    let mut table: OrderedMap<State, OrderedMap<State, State>> = OrderedMap::new();
    let mut i: usize = 0;
    while i < n
        invariant
            i <= n,
            n == states@.len(),
            names == states.deep_view(),
            names.no_duplicates(),
            table_holds(rows@, e, n as nat, n as nat, n as nat),
            forall|x: Seq<char>| #[trigger]
                table@.dom().contains(x) ==> names.take(i as int).contains(x),
            forall|a: int|
                0 <= a < i ==> table@.dom().contains(#[trigger] names[a]) && targets_hold(
                    table@[names[a]],
                    names,
                    e,
                    a,
                    n as int,
                ) && (forall|x: Seq<char>| #[trigger]
                    table@[names[a]].dom().contains(x) ==> names.contains(x)),
        decreases n - i,
    {
        let mut targets: OrderedMap<State, State> = OrderedMap::new();
        let mut j: usize = 0;
        while j < n
            invariant
                i < n,
                j <= n,
                n == states@.len(),
                names == states.deep_view(),
                names.no_duplicates(),
                table_holds(rows@, e, n as nat, n as nat, n as nat),
                targets_hold(targets@, names, e, i as int, j as int),
                forall|x: Seq<char>| #[trigger] targets@.dom().contains(x) ==> names.contains(x),
            decreases n - j,
        {
            proof {
                assert(row_holds(rows@[i as int]@, e, n as nat, i as int, n as nat));
                assert(cell_holds(rows@[i as int]@[j as int], e, n as nat, i as int, j as int));
            }
            let ghost old_targets = targets@;
            let cell: Cell = rows[i][j];
            if i != j {
                if let Some((_, h)) = cell {
                    proof {
                        hop_in_range(e, n as nat, n as nat, i as int, j as int);
                    }
                    targets.insert(states[j].duplicate(), states[h].duplicate());
                    assert(names[j as int] == states[j as int]@);
                    assert(names.contains(names[j as int]));
                }
            }
            j = j + 1;
        }
        let ghost old_table = table@;
        table.insert(states[i].duplicate(), targets);
        proof {
            assert(states[i as int]@ == names[i as int]);
            assert forall|x: Seq<char>| #[trigger]
                table@.dom().contains(x) implies names.take(i + 1).contains(x) by {
                if x == names[i as int] {
                    assert(names.take(i + 1)[i as int] == x);
                } else {
                    assert(old_table.dom().contains(x));
                    let a = names.take(i as int).index_of(x);
                    assert(names.take(i + 1)[a] == x);
                }
            }
            assert forall|a: int| 0 <= a < i implies names[a] != names[i as int] by {}
        }
        i = i + 1;
    }
    proof {
        assert(names.take(n as int) =~= names);
        assert forall|from: Seq<char>, to: Seq<char>| #[trigger]
            lookup(table@, from, to) == next_of(
                names,
                transitions.deep_view(),
                from,
                to,
            ) by {
            if names.contains(from) {
                let a = names.index_of(from);
                assert(names[a] == from);
                assert(table@.dom().contains(names[a]));
                assert(targets_hold(table@[names[a]], names, e, a, n as int));
                if names.contains(to) {
                    let b = names.index_of(to);
                    assert(names[b] == to);
                    if from != to {
                        assert(a != b);
                    } else {
                        assert(a == b);
                    }
                } else if table@[names[a]].dom().contains(to) {
                    assert(names.contains(to));
                }
            } else if table@.dom().contains(from) {
                assert(names.take(n as int).contains(from));
            }
        }
    }
    table
}

/// Where `n` next hops toward `to` lead from `from`.
pub open spec fn journey(m: StateModelView, from: Seq<char>, to: Seq<char>, n: nat) -> Seq<char>
    decreases n,
{
    if n == 0 || from == to {
        from
    } else {
        match m.next(from, to) {
            Some(stop) => journey(m, stop, to, (n - 1) as nat),
            None => from,
        }
    }
}

/// The transitions taken in order, each beginning where the one before ended.
pub open spec fn is_route(m: StateModelView, route: Seq<Seq<char>>) -> bool {
    &&& route.len() >= 2
    &&& forall|i: int|
        0 <= i < route.len() - 1 ==> m.transitions.contains((#[trigger] route[i], route[i + 1]))
}

/// A route of states is a walk over their positions.
pub proof fn route_walk(m: StateModelView, route: Seq<Seq<char>>) -> (w: Seq<int>)
    requires
        forall|i: int|
            0 <= i < m.transitions.len() ==> m.states.contains((#[trigger] m.transitions[i]).0)
                && m.states.contains(m.transitions[i].1),
        is_route(m, route),
    ensures
        paths::is_walk(edges_of(m.states, m.transitions), w),
        w.len() == route.len(),
        w[0] == m.states.index_of(route[0]),
        w.last() == m.states.index_of(route.last()),
{
    let e = edges_of(m.states, m.transitions);
    let w = Seq::new(route.len(), |a: int| m.states.index_of(route[a]));
    assert forall|a: int| 0 <= a < w.len() - 1 implies e(#[trigger] w[a], w[a + 1]) by {
        let t = (route[a], route[a + 1]);
        assert(m.transitions.contains(t));
        let q = m.transitions.index_of(t);
        assert(m.transitions[q] == t);
        assert(m.states.contains(m.transitions[q].0));
        assert(m.states[w[a]] == route[a]);
        assert(m.states[w[a + 1]] == route[a + 1]);
    }
    w
}

/// The next hop is a transition of the model that leaves exactly one step less
/// to go, and states without a next hop are joined by no route at all.
pub proof fn next_hop_advances(m: StateModelView, from: Seq<char>, to: Seq<char>)
    requires
        m.valid(),
        m.states.contains(from),
        m.states.contains(to),
        from != to,
    ensures
        match m.next(from, to) {
            Some(stop) => {
                &&& m.transitions.contains((from, stop))
                &&& m.states.contains(stop)
                &&& m.steps(from, to) is Some
                &&& stop == to ==> m.steps(from, to) == Some(1nat)
                &&& stop != to ==> m.steps(from, to)->0 > 1 && m.steps(stop, to) == Some(
                    (m.steps(from, to)->0 - 1) as nat,
                )
            },
            None => forall|route: Seq<Seq<char>>| #[trigger]
                is_route(m, route) ==> !(route[0] == from && route.last() == to),
        },
{
    let e = edges_of(m.states, m.transitions);
    let n = m.states.len();
    let i = m.states.index_of(from);
    let j = m.states.index_of(to);
    assert(m.states[i] == from && m.states[j] == to);
    paths::hop_advances(e, n, i, j);
    match m.next(from, to) {
        Some(stop) => {
            let h = paths::hop(e, n, i, j)->0;
            assert(e(i, h));
            assert(m.states.contains(stop));
            assert(m.states[m.states.index_of(stop)] == stop);
            assert(m.states.index_of(stop) == h);
        },
        None => {
            assert forall|route: Seq<Seq<char>>| #[trigger]
                is_route(m, route) implies !(route[0] == from && route.last() == to) by {
                if route[0] == from && route.last() == to {
                    let w = route_walk(m, route);
                }
            }
        },
    }
}

/// Where states are joined by a route, the next hop begins a route that is no
/// longer: no way to the target is shorter than the one that the hops take.
pub proof fn hops_begin_shortest_routes(
    m: StateModelView,
    from: Seq<char>,
    to: Seq<char>,
    route: Seq<Seq<char>>,
) -> (best: Seq<Seq<char>>)
    requires
        m.valid(),
        from != to,
        is_route(m, route),
        route[0] == from,
        route.last() == to,
    ensures
        is_route(m, best),
        best[0] == from,
        best.last() == to,
        best.len() <= route.len(),
        m.next(from, to) == Some(best[1]),
{
    let e = edges_of(m.states, m.transitions);
    let n = m.states.len();
    let i = m.states.index_of(from);
    let j = m.states.index_of(to);
    let w = route_walk(m, route);
    route_states(m, route, 0);
    route_states(m, route, route.len() - 1);
    assert(m.states[i] == from && m.states[j] == to);
    assert forall|a: int| 0 < a < w.len() - 1 implies 0 <= #[trigger] w[a] < n by {
        assert(e(w[a], w[a + 1]));
    }
    paths::distance_is_least(e, n, w, i, j);
    let u = paths::distance_has_walk(e, n, i, j);
    let best = Seq::new(u.len(), |a: int| m.states[u[a]]);
    assert forall|a: int| 0 <= a < best.len() - 1 implies m.transitions.contains(
        (#[trigger] best[a], best[a + 1]),
    ) by {
        assert(e(u[a], u[a + 1]));
    }
    best
}

proof fn route_states(m: StateModelView, route: Seq<Seq<char>>, i: int)
    requires
        m.valid(),
        is_route(m, route),
        0 <= i < route.len(),
    ensures
        m.states.contains(route[i]),
{
    let a = if i == 0 {
        0
    } else {
        i - 1
    };
    assert(m.transitions.contains((route[a], route[a + 1])));
    let q = m.transitions.index_of((route[a], route[a + 1]));
    assert(m.states.contains(m.transitions[q].0));
}

/// A transition of the model is taken directly.
pub proof fn transitions_are_hops(m: StateModelView, from: Seq<char>, to: Seq<char>)
    requires
        m.valid(),
        m.transitions.contains((from, to)),
        from != to,
    ensures
        m.next(from, to) == Some(to),
{
    let route = seq![from, to];
    assert(route[0] == from && route[1] == to);
    assert(is_route(m, route));
    let best = hops_begin_shortest_routes(m, from, to, route);
    assert(best[1] == best.last());
}

/// A direct hop is a transition of the model.
pub proof fn direct_hops_are_transitions(m: StateModelView, from: Seq<char>, to: Seq<char>)
    requires
        m.valid(),
        m.next(from, to) == Some(to),
    ensures
        from != to,
        m.transitions.contains((from, to)),
{
    next_hop_advances(m, from, to);
}

/// Following next hops for as many steps as the way takes ends at the target.
pub proof fn journey_arrives(m: StateModelView, from: Seq<char>, to: Seq<char>)
    requires
        m.valid(),
        m.states.contains(from),
        m.states.contains(to),
        from == to || m.next(from, to) is Some,
    ensures
        from != to ==> m.steps(from, to) is Some && m.steps(from, to)->0 < m.states.len(),
        journey(m, from, to, if from == to { 0 } else { m.steps(from, to)->0 }) == to,
    decreases (if from == to { 0 } else { m.steps(from, to)->0 }),
{
    if from != to {
        next_hop_advances(m, from, to);
        let stop = m.next(from, to)->0;
        let e = edges_of(m.states, m.transitions);
        let n = m.states.len();
        let i = m.states.index_of(from);
        let j = m.states.index_of(to);
        assert(m.states[i] == from && m.states[j] == to);
        paths::distance_bounded(e, n, n, i, j);
        if stop != to {
            let h = m.states.index_of(stop);
            assert(m.states[h] == stop);
            paths::hop_iff_distance(e, n, h, j);
            journey_arrives(m, stop, to);
        } else {
            assert(journey(m, stop, to, 0) == to);
        }
    }
}

/// In every model each state reaches DROPPED in fewer steps than the model
/// has states.
pub proof fn every_state_reaches_dropped(m: StateModelView, from: Seq<char>) -> (n: nat)
    requires
        m.valid(),
        m.states.contains(from),
    ensures
        n < m.states.len(),
        journey(m, from, "DROPPED"@, n) == "DROPPED"@,
{
    if from == "DROPPED"@ {
        0
    } else {
        assert(m.next(from, "DROPPED"@) is Some);
        journey_arrives(m, from, "DROPPED"@);
        m.steps(from, "DROPPED"@)->0
    }
}

/// A published model is valid.
pub proof fn published_model_is_valid(parts: StateModelParts)
    requires
        parts.fault() is None,
    ensures
        parts.model().valid(),
{
    let states = names_of(parts.states);
    let m = parts.model();
    first_repeat_none(states);
    transition_fault_none(states, parts.transitions);
    assert forall|x: Seq<char>| m.states.contains(x) && x != "DROPPED"@ implies #[trigger] m.next(
        x,
        "DROPPED"@,
    ) is Some by {
        stranded_none(states, parts.transitions, states.len(), states.index_of(x));
        assert(states[states.index_of(x)] == x);
    }
    assert(m.cardinalities.dom() =~= m.states.to_set());
}

/// Why parts make no model.
pub enum StateModelFault {
    EmptyModelName,
    NoStates,
    MissingInitialState,
    UnknownInitialState(Seq<char>),
    MissingDroppedState,
    NoPathToDropped(Seq<char>),
    DuplicateState(Seq<char>),
    UnknownTransitionState { transition: (Seq<char>, Seq<char>), endpoint: Seq<char> },
    DuplicateTransition((Seq<char>, Seq<char>)),
}

/// Construction failures for a state-model definition.
#[derive(Clone, Debug, PartialEq, Eq)]
pub enum StateModelError {
    EmptyModelName,
    NoStates,
    MissingInitialState,
    UnknownInitialState(State),
    MissingDroppedState,
    NoPathToDropped(State),
    DuplicateState(State),
    UnknownTransitionState { transition: Transition, endpoint: State },
    DuplicateTransition(Transition),
}

impl View for StateModelError {
    type V = StateModelFault;

    open spec fn view(&self) -> StateModelFault {
        match self {
            StateModelError::EmptyModelName => StateModelFault::EmptyModelName,
            StateModelError::NoStates => StateModelFault::NoStates,
            StateModelError::MissingInitialState => StateModelFault::MissingInitialState,
            StateModelError::UnknownInitialState(state) => StateModelFault::UnknownInitialState(
                state@,
            ),
            StateModelError::MissingDroppedState => StateModelFault::MissingDroppedState,
            StateModelError::NoPathToDropped(state) => StateModelFault::NoPathToDropped(state@),
            StateModelError::DuplicateState(state) => StateModelFault::DuplicateState(state@),
            StateModelError::UnknownTransitionState {
                transition,
                endpoint,
            } => StateModelFault::UnknownTransitionState {
                transition: transition@,
                endpoint: endpoint@,
            },
            StateModelError::DuplicateTransition(
                transition,
            ) => StateModelFault::DuplicateTransition(transition@),
        }
    }
}

impl StateModelFault {
    /// The operator-facing message.
    pub open spec fn text(self) -> Seq<char> {
        match self {
            StateModelFault::EmptyModelName => "state-model name must not be empty"@,
            StateModelFault::NoStates => "state model must contain at least one state"@,
            StateModelFault::MissingInitialState => "state model has no initial state"@,
            StateModelFault::UnknownInitialState(state) => "initial state is not defined: "@
                + state,
            StateModelFault::MissingDroppedState => "state model must contain the DROPPED state"@,
            StateModelFault::NoPathToDropped(state) => "state has no path to DROPPED: "@ + state,
            StateModelFault::DuplicateState(state) => "duplicate state: "@ + state,
            StateModelFault::UnknownTransitionState { transition, endpoint } => "transition "@
                + transition.0 + " -> "@ + transition.1 + " references unknown state "@ + endpoint,
            StateModelFault::DuplicateTransition(transition) => "duplicate transition: "@
                + transition.0 + " -> "@ + transition.1,
        }
    }
}

impl StateModelError {
    /// Return the operator-facing message.
    pub fn to_string(&self) -> (r: String)
        ensures
            r@ == self@.text(),
    {
        match self {
            StateModelError::EmptyModelName => "state-model name must not be empty".to_owned(),
            StateModelError::NoStates => "state model must contain at least one state".to_owned(),
            StateModelError::MissingInitialState => "state model has no initial state".to_owned(),
            StateModelError::UnknownInitialState(state) => "initial state is not defined: "
                .to_owned().concat(state.as_str()),
            StateModelError::MissingDroppedState => "state model must contain the DROPPED state"
                .to_owned(),
            StateModelError::NoPathToDropped(state) => "state has no path to DROPPED: ".to_owned(
            ).concat(state.as_str()),
            StateModelError::DuplicateState(state) => "duplicate state: ".to_owned().concat(
                state.as_str(),
            ),
            StateModelError::UnknownTransitionState { transition, endpoint } => "transition "
                .to_owned().concat(transition.source().as_str()).concat(" -> ").concat(
                transition.target().as_str(),
            ).concat(" references unknown state ").concat(endpoint.as_str()),
            StateModelError::DuplicateTransition(transition) => "duplicate transition: ".to_owned(
            ).concat(transition.source().as_str()).concat(" -> ").concat(
                transition.target().as_str(),
            ),
        }
    }
}

} // verus!
