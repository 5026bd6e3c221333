//! State names, transitions between states, and state cardinalities.
use crate::ordered::{Duplicate, Key};
use crate::text;
use vstd::prelude::*;
use vstd::std_specs::convert::TryFromSpecImpl;
use vstd::string::*;

verus! {

/// An application-defined state name.
#[derive(Debug, PartialEq, Eq, PartialOrd, Ord, Hash)]
pub struct State(String);

impl View for State {
    type V = Seq<char>;

    closed spec fn view(&self) -> Seq<char> {
        self.0@
    }
}

impl DeepView for State {
    type V = Seq<char>;

    open spec fn deep_view(&self) -> Seq<char> {
        self@
    }
}

impl State {
    #[verifier::type_invariant]
    spec fn inv(self) -> bool {
        self.0@.len() > 0
    }

    /// Construct a state from its exact name.
    pub fn new(name: &str) -> (r: Result<State, StateError>)
        ensures
            r matches Ok(state) ==> name@.len() > 0 && state@ == name@,
            r matches Err(error) ==> name@.len() == 0 && error == StateError::EmptyName,
    {
        State::try_from(name.to_owned())
    }

    /// Return the exact state name.
    pub fn as_str(&self) -> (r: &str)
        ensures
            r@ == self@,
            r@.len() > 0,
    {
        proof {
            use_type_invariant(self);
        }
        self.0.as_str()
    }

    /// Return the exact state name as an owned text.
    pub fn to_string(&self) -> (r: String)
        ensures
            r@ == self@,
            r@.len() > 0,
    {
        self.as_str().to_owned()
    }

    /// Return whether this is the built-in leader state.
    pub fn is_leader(&self) -> (r: bool)
        ensures
            r == (self@ == "LEADER"@),
    {
        text::text_eq(self.as_str(), "LEADER")
    }

    /// Return whether this is the built-in standby state.
    pub fn is_standby(&self) -> (r: bool)
        ensures
            r == (self@ == "STANDBY"@),
    {
        text::text_eq(self.as_str(), "STANDBY")
    }

    /// Return whether this is the built-in offline state.
    pub fn is_offline(&self) -> (r: bool)
        ensures
            r == (self@ == "OFFLINE"@),
    {
        text::text_eq(self.as_str(), "OFFLINE")
    }

    /// Return whether this is the built-in dropped state.
    pub fn is_dropped(&self) -> (r: bool)
        ensures
            r == (self@ == "DROPPED"@),
    {
        text::text_eq(self.as_str(), "DROPPED")
    }

    /// Return whether this is the built-in error state.
    pub fn is_error(&self) -> (r: bool)
        ensures
            r == (self@ == "ERROR"@),
    {
        text::text_eq(self.as_str(), "ERROR")
    }
}

impl TryFrom<String> for State {
    type Error = StateError;

    fn try_from(value: String) -> (r: Result<State, StateError>)
        ensures
            r matches Ok(state) ==> value@.len() > 0 && state@ == value@,
            r matches Err(error) ==> value@.len() == 0 && error == StateError::EmptyName,
    {
        if value.as_str().is_empty() {
            Err(StateError::EmptyName)
        } else {
            Ok(State(value))
        }
    }
}

impl TryFromSpecImpl<String> for State {
    open spec fn obeys_try_from_spec() -> bool {
        false
    }

    open spec fn try_from_spec(v: String) -> Result<State, StateError> {
        Err(StateError::EmptyName)
    }
}

impl<'a> TryFrom<&'a str> for State {
    type Error = StateError;

    fn try_from(value: &'a str) -> (r: Result<State, StateError>)
        ensures
            r matches Ok(state) ==> value@.len() > 0 && state@ == value@,
            r matches Err(error) ==> value@.len() == 0 && error == StateError::EmptyName,
    {
        State::new(value)
    }
}

impl<'a> TryFromSpecImpl<&'a str> for State {
    open spec fn obeys_try_from_spec() -> bool {
        false
    }

    open spec fn try_from_spec(v: &'a str) -> Result<State, StateError> {
        Err(StateError::EmptyName)
    }
}

impl Duplicate for State {
    fn duplicate(&self) -> (r: Self) {
        proof {
            use_type_invariant(self);
        }
        State(self.0.clone())
    }
}

impl Clone for State {
    fn clone(&self) -> (r: Self)
        ensures
            r@ == self@,
    {
        self.duplicate()
    }
}

impl Key for State {
    open spec fn before(a: Seq<char>, b: Seq<char>) -> bool {
        text::text_before(a, b)
    }

    proof fn before_irreflexive(a: Seq<char>) {
        text::text_before_irreflexive(a);
    }

    proof fn before_transitive(a: Seq<char>, b: Seq<char>, c: Seq<char>) {
        text::text_before_transitive(a, b, c);
    }

    proof fn before_total(a: Seq<char>, b: Seq<char>) {
        text::text_before_total(a, b);
    }

    fn is_before(&self, other: &Self) -> (r: bool) {
        text::text_lt(self.as_str(), other.as_str())
    }

    fn same(&self, other: &Self) -> (r: bool) {
        text::text_eq(self.as_str(), other.as_str())
    }
}

/// Errors constructing an opaque state name.
#[derive(Clone, Copy, Debug, PartialEq, Eq, Structural)]
pub enum StateError {
    EmptyName,
}

impl StateError {
    /// The operator-facing message.
    pub open spec fn text(self) -> Seq<char> {
        match self {
            StateError::EmptyName => "state name must not be empty"@,
        }
    }

    /// Return the operator-facing message.
    pub fn to_string(&self) -> (r: String)
        ensures
            r@ == self.text(),
    {
        match self {
            StateError::EmptyName => "state name must not be empty".to_owned(),
        }
    }
}

/// A state-machine transition identity.
#[derive(Debug, PartialEq, Eq, PartialOrd, Ord, Hash)]
pub struct Transition {
    source: State,
    target: State,
}

impl View for Transition {
    type V = (Seq<char>, Seq<char>);

    closed spec fn view(&self) -> (Seq<char>, Seq<char>) {
        (self.source@, self.target@)
    }
}

impl DeepView for Transition {
    type V = (Seq<char>, Seq<char>);

    open spec fn deep_view(&self) -> (Seq<char>, Seq<char>) {
        self@
    }
}

impl Transition {
    /// Construct a transition from one state to another.
    pub fn new(source: State, target: State) -> (r: Transition)
        ensures
            r@ == (source@, target@),
    {
        Transition { source, target }
    }

    /// Return the source state.
    pub fn source(&self) -> (r: &State)
        ensures
            r@ == self@.0,
    {
        &self.source
    }

    /// Return the source state using the established transition terminology.
    pub fn from(&self) -> (r: &State)
        ensures
            r@ == self@.0,
    {
        self.source()
    }

    /// Return the destination state.
    pub fn target(&self) -> (r: &State)
        ensures
            r@ == self@.1,
    {
        &self.target
    }

    /// Return the destination state using the established transition terminology.
    pub fn to(&self) -> (r: &State)
        ensures
            r@ == self@.1,
    {
        self.target()
    }

    /// Whether both transitions join the same states.
    pub fn same(&self, other: &Transition) -> (r: bool)
        ensures
            r == (self@ == other@),
    {
        self.source.same(&other.source) && self.target.same(&other.target)
    }
}

impl Duplicate for Transition {
    fn duplicate(&self) -> (r: Self) {
        Transition { source: self.source.duplicate(), target: self.target.duplicate() }
    }
}

impl Clone for Transition {
    fn clone(&self) -> (r: Self)
        ensures
            r@ == self@,
    {
        self.duplicate()
    }
}

/// The symbolic cardinality metadata attached to a state.
#[derive(Clone, Copy, Debug, PartialEq, Eq, Structural)]
pub enum StateCardinality {
    /// A fixed non-negative numeric cardinality.
    Exact(u32),
    /// `R`: all replicas in the resource preference list.
    ReplicaCount,
    /// `N`: all candidate nodes in the cluster.
    NodeCount,
    /// `-1`: no required cardinality.
    Unbounded,
}

impl DeepView for StateCardinality {
    type V = StateCardinality;

    open spec fn deep_view(&self) -> StateCardinality {
        *self
    }
}

impl Duplicate for StateCardinality {
    fn duplicate(&self) -> (r: Self) {
        *self
    }
}

impl StateCardinality {
    /// The cardinality that a symbol or number stands for.
    pub open spec fn of_text(value: Seq<char>) -> Option<StateCardinality> {
        if value == "R"@ {
            Some(StateCardinality::ReplicaCount)
        } else if value == "N"@ {
            Some(StateCardinality::NodeCount)
        } else if value == "-1"@ {
            Some(StateCardinality::Unbounded)
        } else {
            match text::unsigned_number(value) {
                Some(n) if n <= u32::MAX => Some(StateCardinality::Exact(n as u32)),
                _ => None,
            }
        }
    }
}

impl<'a> TryFrom<&'a str> for StateCardinality {
    type Error = StateCardinalityError;

    fn try_from(value: &'a str) -> (r: Result<StateCardinality, StateCardinalityError>)
        ensures
            r matches Ok(cardinality) ==> StateCardinality::of_text(value@) == Some(cardinality),
            r matches Err(StateCardinalityError::InvalidValue(text)) ==> StateCardinality::of_text(
                value@,
            ) is None && text@ == value@,
    {
        if text::text_eq(value, "R") {
            Ok(StateCardinality::ReplicaCount)
        } else if text::text_eq(value, "N") {
            Ok(StateCardinality::NodeCount)
        } else if text::text_eq(value, "-1") {
            Ok(StateCardinality::Unbounded)
        } else {
            match text::parse_u32(value) {
                Some(n) => Ok(StateCardinality::Exact(n)),
                None => Err(StateCardinalityError::InvalidValue(value.to_owned())),
            }
        }
    }
}

impl<'a> TryFromSpecImpl<&'a str> for StateCardinality {
    open spec fn obeys_try_from_spec() -> bool {
        false
    }

    open spec fn try_from_spec(v: &'a str) -> Result<StateCardinality, StateCardinalityError> {
        Ok(StateCardinality::Unbounded)
    }
}

/// An invalid cardinality symbol or numeric value.
#[derive(Clone, Debug, PartialEq, Eq)]
pub enum StateCardinalityError {
    InvalidValue(String),
}

impl StateCardinalityError {
    /// The operator-facing message.
    pub open spec fn text(self) -> Seq<char> {
        match self {
            StateCardinalityError::InvalidValue(value) => "invalid state cardinality: "@ + value@,
        }
    }

    /// Return the operator-facing message.
    pub fn to_string(&self) -> (r: String)
        ensures
            r@ == self.text(),
    {
        match self {
            StateCardinalityError::InvalidValue(value) => "invalid state cardinality: ".to_owned(
            ).concat(value.as_str()),
        }
    }
}

} // verus!
