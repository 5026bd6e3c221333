//! Opaque identities of instances, partitions, resources, and sessions.
use crate::ordered::{Duplicate, Key};
use crate::text;
use vstd::prelude::*;
use vstd::std_specs::convert::TryFromSpecImpl;
use vstd::string::*;

verus! {

/// The kind of cluster-control identifier that failed validation.
#[derive(Clone, Copy, Debug, PartialEq, Eq, Structural)]
pub enum IdentifierKind {
    Instance,
    Partition,
    Resource,
}

impl IdentifierKind {
    /// The name of the kind.
    pub open spec fn label(self) -> Seq<char> {
        match self {
            IdentifierKind::Instance => "instance"@,
            IdentifierKind::Partition => "partition"@,
            IdentifierKind::Resource => "resource"@,
        }
    }

    /// Return the name of the kind.
    pub fn to_string(&self) -> (r: String)
        ensures
            r@ == self.label(),
    {
        match self {
            IdentifierKind::Instance => "instance".to_owned(),
            IdentifierKind::Partition => "partition".to_owned(),
            IdentifierKind::Resource => "resource".to_owned(),
        }
    }
}

/// An invalid cluster-control identifier.
#[derive(Clone, Copy, Debug, PartialEq, Eq, Structural)]
pub enum IdentifierError {
    Empty(IdentifierKind),
}

impl IdentifierError {
    /// The operator-facing message.
    pub open spec fn text(self) -> Seq<char> {
        match self {
            IdentifierError::Empty(kind) => kind.label() + " identifier must not be empty"@,
        }
    }

    /// Return the operator-facing message.
    pub fn to_string(&self) -> (r: String)
        ensures
            r@ == self.text(),
    {
        match self {
            IdentifierError::Empty(kind) => kind.to_string().concat(
                " identifier must not be empty",
            ),
        }
    }
}

fn validate(kind: IdentifierKind, value: String) -> (r: Result<String, IdentifierError>)
    ensures
        r matches Ok(text) ==> value@.len() > 0 && text@ == value@,
        r matches Err(error) ==> value@.len() == 0 && error == IdentifierError::Empty(kind),
{
    if value.as_str().is_empty() {
        Err(IdentifierError::Empty(kind))
    } else {
        Ok(value)
    }
}

/// Stable identity of a participant in the cluster.
#[derive(Debug, PartialEq, Eq, PartialOrd, Ord, Hash)]
pub struct InstanceId(String);

impl View for InstanceId {
    type V = Seq<char>;

    closed spec fn view(&self) -> Seq<char> {
        self.0@
    }
}

impl DeepView for InstanceId {
    type V = Seq<char>;

    open spec fn deep_view(&self) -> Seq<char> {
        self@
    }
}

impl InstanceId {
    #[verifier::type_invariant]
    spec fn inv(self) -> bool {
        self.0@.len() > 0
    }

    /// Construct an instance identity from its exact value.
    pub fn new(value: &str) -> (r: Result<InstanceId, IdentifierError>)
        ensures
            r matches Ok(id) ==> value@.len() > 0 && id@ == value@,
            r matches Err(error) ==> value@.len() == 0 && error == IdentifierError::Empty(
                IdentifierKind::Instance,
            ),
    {
        InstanceId::try_from(value.to_owned())
    }

    /// Return the exact instance name.
    pub fn as_str(&self) -> (r: &str)
        ensures
            r@ == self@,
            r@.len() > 0,
    {
        proof {
            use_type_invariant(self);
        }
        self.0.as_str()
    }

    /// Return the exact instance name as an owned text.
    pub fn to_string(&self) -> (r: String)
        ensures
            r@ == self@,
            r@.len() > 0,
    {
        self.as_str().to_owned()
    }
}

impl TryFrom<String> for InstanceId {
    type Error = IdentifierError;

    fn try_from(value: String) -> (r: Result<InstanceId, IdentifierError>)
        ensures
            r matches Ok(id) ==> value@.len() > 0 && id@ == value@,
            r matches Err(error) ==> value@.len() == 0 && error == IdentifierError::Empty(
                IdentifierKind::Instance,
            ),
    {
        match validate(IdentifierKind::Instance, value) {
            Ok(text) => Ok(InstanceId(text)),
            Err(error) => Err(error),
        }
    }
}

impl TryFromSpecImpl<String> for InstanceId {
    open spec fn obeys_try_from_spec() -> bool {
        false
    }

    open spec fn try_from_spec(v: String) -> Result<InstanceId, IdentifierError> {
        Err(IdentifierError::Empty(IdentifierKind::Instance))
    }
}

impl<'a> TryFrom<&'a str> for InstanceId {
    type Error = IdentifierError;

    fn try_from(value: &'a str) -> (r: Result<InstanceId, IdentifierError>)
        ensures
            r matches Ok(id) ==> value@.len() > 0 && id@ == value@,
            r matches Err(error) ==> value@.len() == 0 && error == IdentifierError::Empty(
                IdentifierKind::Instance,
            ),
    {
        InstanceId::new(value)
    }
}

impl<'a> TryFromSpecImpl<&'a str> for InstanceId {
    open spec fn obeys_try_from_spec() -> bool {
        false
    }

    open spec fn try_from_spec(v: &'a str) -> Result<InstanceId, IdentifierError> {
        Err(IdentifierError::Empty(IdentifierKind::Instance))
    }
}

impl Duplicate for InstanceId {
    fn duplicate(&self) -> (r: Self) {
        proof {
            use_type_invariant(self);
        }
        InstanceId(self.0.clone())
    }
}

impl Clone for InstanceId {
    fn clone(&self) -> (r: Self)
        ensures
            r@ == self@,
    {
        self.duplicate()
    }
}

impl Key for InstanceId {
    open spec fn before(a: Seq<char>, b: Seq<char>) -> bool {
        text::text_before(a, b)
    }

    proof fn before_irreflexive(a: Seq<char>) {
        text::text_before_irreflexive(a);
    }

    proof fn before_transitive(a: Seq<char>, b: Seq<char>, c: Seq<char>) {
        text::text_before_transitive(a, b, c);
    }

    proof fn before_total(a: Seq<char>, b: Seq<char>) {
        text::text_before_total(a, b);
    }

    fn is_before(&self, other: &Self) -> (r: bool) {
        text::text_lt(self.as_str(), other.as_str())
    }

    fn same(&self, other: &Self) -> (r: bool) {
        text::text_eq(self.as_str(), other.as_str())
    }
}

/// Stable identity of a partition in a resource.
#[derive(Debug, PartialEq, Eq, PartialOrd, Ord, Hash)]
pub struct PartitionId(String);

impl View for PartitionId {
    type V = Seq<char>;

    closed spec fn view(&self) -> Seq<char> {
        self.0@
    }
}

impl DeepView for PartitionId {
    type V = Seq<char>;

    open spec fn deep_view(&self) -> Seq<char> {
        self@
    }
}

impl PartitionId {
    #[verifier::type_invariant]
    spec fn inv(self) -> bool {
        self.0@.len() > 0
    }

    /// Construct a partition identity from its exact value.
    pub fn new(value: &str) -> (r: Result<PartitionId, IdentifierError>)
        ensures
            r matches Ok(id) ==> value@.len() > 0 && id@ == value@,
            r matches Err(error) ==> value@.len() == 0 && error == IdentifierError::Empty(
                IdentifierKind::Partition,
            ),
    {
        PartitionId::try_from(value.to_owned())
    }

    /// Return the exact partition name.
    pub fn as_str(&self) -> (r: &str)
        ensures
            r@ == self@,
            r@.len() > 0,
    {
        proof {
            use_type_invariant(self);
        }
        self.0.as_str()
    }

    /// Return the exact partition name as an owned text.
    pub fn to_string(&self) -> (r: String)
        ensures
            r@ == self@,
            r@.len() > 0,
    {
        self.as_str().to_owned()
    }
}

impl TryFrom<String> for PartitionId {
    type Error = IdentifierError;

    fn try_from(value: String) -> (r: Result<PartitionId, IdentifierError>)
        ensures
            r matches Ok(id) ==> value@.len() > 0 && id@ == value@,
            r matches Err(error) ==> value@.len() == 0 && error == IdentifierError::Empty(
                IdentifierKind::Partition,
            ),
    {
        match validate(IdentifierKind::Partition, value) {
            Ok(text) => Ok(PartitionId(text)),
            Err(error) => Err(error),
        }
    }
}

impl TryFromSpecImpl<String> for PartitionId {
    open spec fn obeys_try_from_spec() -> bool {
        false
    }

    open spec fn try_from_spec(v: String) -> Result<PartitionId, IdentifierError> {
        Err(IdentifierError::Empty(IdentifierKind::Partition))
    }
}

impl<'a> TryFrom<&'a str> for PartitionId {
    type Error = IdentifierError;

    fn try_from(value: &'a str) -> (r: Result<PartitionId, IdentifierError>)
        ensures
            r matches Ok(id) ==> value@.len() > 0 && id@ == value@,
            r matches Err(error) ==> value@.len() == 0 && error == IdentifierError::Empty(
                IdentifierKind::Partition,
            ),
    {
        PartitionId::new(value)
    }
}

impl<'a> TryFromSpecImpl<&'a str> for PartitionId {
    open spec fn obeys_try_from_spec() -> bool {
        false
    }

    open spec fn try_from_spec(v: &'a str) -> Result<PartitionId, IdentifierError> {
        Err(IdentifierError::Empty(IdentifierKind::Partition))
    }
}

impl Duplicate for PartitionId {
    fn duplicate(&self) -> (r: Self) {
        proof {
            use_type_invariant(self);
        }
        PartitionId(self.0.clone())
    }
}

impl Clone for PartitionId {
    fn clone(&self) -> (r: Self)
        ensures
            r@ == self@,
    {
        self.duplicate()
    }
}

impl Key for PartitionId {
    open spec fn before(a: Seq<char>, b: Seq<char>) -> bool {
        text::text_before(a, b)
    }

    proof fn before_irreflexive(a: Seq<char>) {
        text::text_before_irreflexive(a);
    }

    proof fn before_transitive(a: Seq<char>, b: Seq<char>, c: Seq<char>) {
        text::text_before_transitive(a, b, c);
    }

    proof fn before_total(a: Seq<char>, b: Seq<char>) {
        text::text_before_total(a, b);
    }

    fn is_before(&self, other: &Self) -> (r: bool) {
        text::text_lt(self.as_str(), other.as_str())
    }

    fn same(&self, other: &Self) -> (r: bool) {
        text::text_eq(self.as_str(), other.as_str())
    }
}

/// Stable identity of a resource in the cluster.
#[derive(Debug, PartialEq, Eq, PartialOrd, Ord, Hash)]
pub struct ResourceId(String);

impl View for ResourceId {
    type V = Seq<char>;

    closed spec fn view(&self) -> Seq<char> {
        self.0@
    }
}

impl DeepView for ResourceId {
    type V = Seq<char>;

    open spec fn deep_view(&self) -> Seq<char> {
        self@
    }
}

impl ResourceId {
    #[verifier::type_invariant]
    spec fn inv(self) -> bool {
        self.0@.len() > 0
    }

    /// Construct a resource identity from its exact value.
    pub fn new(value: &str) -> (r: Result<ResourceId, IdentifierError>)
        ensures
            r matches Ok(id) ==> value@.len() > 0 && id@ == value@,
            r matches Err(error) ==> value@.len() == 0 && error == IdentifierError::Empty(
                IdentifierKind::Resource,
            ),
    {
        ResourceId::try_from(value.to_owned())
    }

    /// Return the exact resource name.
    pub fn as_str(&self) -> (r: &str)
        ensures
            r@ == self@,
            r@.len() > 0,
    {
        proof {
            use_type_invariant(self);
        }
        self.0.as_str()
    }

    /// Return the exact resource name as an owned text.
    pub fn to_string(&self) -> (r: String)
        ensures
            r@ == self@,
            r@.len() > 0,
    {
        self.as_str().to_owned()
    }
}

impl TryFrom<String> for ResourceId {
    type Error = IdentifierError;

    fn try_from(value: String) -> (r: Result<ResourceId, IdentifierError>)
        ensures
            r matches Ok(id) ==> value@.len() > 0 && id@ == value@,
            r matches Err(error) ==> value@.len() == 0 && error == IdentifierError::Empty(
                IdentifierKind::Resource,
            ),
    {
        match validate(IdentifierKind::Resource, value) {
            Ok(text) => Ok(ResourceId(text)),
            Err(error) => Err(error),
        }
    }
}

impl TryFromSpecImpl<String> for ResourceId {
    open spec fn obeys_try_from_spec() -> bool {
        false
    }

    open spec fn try_from_spec(v: String) -> Result<ResourceId, IdentifierError> {
        Err(IdentifierError::Empty(IdentifierKind::Resource))
    }
}

impl<'a> TryFrom<&'a str> for ResourceId {
    type Error = IdentifierError;

    fn try_from(value: &'a str) -> (r: Result<ResourceId, IdentifierError>)
        ensures
            r matches Ok(id) ==> value@.len() > 0 && id@ == value@,
            r matches Err(error) ==> value@.len() == 0 && error == IdentifierError::Empty(
                IdentifierKind::Resource,
            ),
    {
        ResourceId::new(value)
    }
}

impl<'a> TryFromSpecImpl<&'a str> for ResourceId {
    open spec fn obeys_try_from_spec() -> bool {
        false
    }

    open spec fn try_from_spec(v: &'a str) -> Result<ResourceId, IdentifierError> {
        Err(IdentifierError::Empty(IdentifierKind::Resource))
    }
}

impl Duplicate for ResourceId {
    fn duplicate(&self) -> (r: Self) {
        proof {
            use_type_invariant(self);
        }
        ResourceId(self.0.clone())
    }
}

impl Clone for ResourceId {
    fn clone(&self) -> (r: Self)
        ensures
            r@ == self@,
    {
        self.duplicate()
    }
}

impl Key for ResourceId {
    open spec fn before(a: Seq<char>, b: Seq<char>) -> bool {
        text::text_before(a, b)
    }

    proof fn before_irreflexive(a: Seq<char>) {
        text::text_before_irreflexive(a);
    }

    proof fn before_transitive(a: Seq<char>, b: Seq<char>, c: Seq<char>) {
        text::text_before_transitive(a, b, c);
    }

    proof fn before_total(a: Seq<char>, b: Seq<char>) {
        text::text_before_total(a, b);
    }

    fn is_before(&self, other: &Self) -> (r: bool) {
        text::text_lt(self.as_str(), other.as_str())
    }

    fn same(&self, other: &Self) -> (r: bool) {
        text::text_eq(self.as_str(), other.as_str())
    }
}

/// Opaque identity for one participant incarnation.
#[derive(Clone, Copy, Debug, PartialEq, Eq, Structural, PartialOrd, Ord, Hash)]
pub struct SessionId(u64);

impl View for SessionId {
    type V = u64;

    closed spec fn view(&self) -> u64 {
        self.0
    }
}

impl DeepView for SessionId {
    type V = u64;

    open spec fn deep_view(&self) -> u64 {
        self@
    }
}

impl SessionId {
    /// The session with a sequence number.
    pub fn from_sequence(sequence: u64) -> (r: SessionId)
        ensures
            r@ == sequence,
    {
        SessionId(sequence)
    }

    /// The sequence number of the session.
    pub fn sequence(self) -> (r: u64)
        ensures
            r == self@,
    {
        self.0
    }

    /// Return the opaque, backend-independent wire representation.
    pub fn wire_value(self) -> (r: u64)
        ensures
            r == self@,
    {
        self.0
    }

    /// Reconstruct a session token received from a coordination adapter.
    pub fn from_wire_value(value: u64) -> (r: SessionId)
        ensures
            r@ == value,
    {
        SessionId(value)
    }

    /// Equal tokens are the same session.
    pub proof fn token_determines_session(a: SessionId, b: SessionId)
        ensures
            a@ == b@ ==> a == b,
    {
    }
}

impl Duplicate for SessionId {
    fn duplicate(&self) -> (r: Self) {
        *self
    }
}

impl Key for SessionId {
    open spec fn before(a: u64, b: u64) -> bool {
        a < b
    }

    proof fn before_irreflexive(a: u64) {
    }

    proof fn before_transitive(a: u64, b: u64, c: u64) {
    }

    proof fn before_total(a: u64, b: u64) {
    }

    fn is_before(&self, other: &Self) -> (r: bool) {
        self.0 < other.0
    }

    fn same(&self, other: &Self) -> (r: bool) {
        self.0 == other.0
    }
}

} // verus!
