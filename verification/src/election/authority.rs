//! The authority of an elected controller and the fence around its writes.
use crate::coordination::etcd::error::CoordinationFault;
use crate::coordination::etcd::keys;
use crate::coordination::etcd::metadata;
use crate::coordination::etcd::publication;
use crate::coordination::etcd::store;
use crate::coordination::etcd::{
    Condition, CoordinationError, EtcdNamespace, Mutation, Revision, Transaction,
};
use crate::model::{InstanceId, SessionId};
use crate::ordered::{self, Duplicate, Key, OrderedMap};
use crate::text;
use vstd::prelude::*;
use vstd::string::*;
use vstd::utf8::*;

verus! {

/// What a controller authority says.
#[verifier::ext_equal]
pub struct AuthorityView {
    pub namespace: Seq<char>,
    pub controller: Seq<char>,
    pub lease: i64,
}

/// An opaque controller authority. Its lease identity is intentionally private.
#[derive(Clone, PartialEq, Eq)]
pub struct ControllerAuthority {
    namespace: String,
    controller_id: String,
    lease_id: i64,
}

impl View for ControllerAuthority {
    type V = AuthorityView;

    closed spec fn view(&self) -> AuthorityView {
        AuthorityView {
            namespace: self.namespace@,
            controller: self.controller_id@,
            lease: self.lease_id,
        }
    }
}

impl DeepView for ControllerAuthority {
    type V = AuthorityView;

    open spec fn deep_view(&self) -> AuthorityView {
        self@
    }
}

impl Duplicate for ControllerAuthority {
    fn duplicate(&self) -> (r: Self) {
        ControllerAuthority {
            namespace: self.namespace.clone(),
            controller_id: self.controller_id.clone(),
            lease_id: self.lease_id,
        }
    }
}

/// What a commit fence says: whose writes it admits, and the input that they
/// must be based on.
#[verifier::ext_equal]
pub struct FenceView {
    pub namespace: Seq<char>,
    pub controller: Seq<char>,
    pub lease: i64,
    pub observed: i64,
    pub sessions: Map<Seq<char>, u64>,
}

impl AuthorityView {
    /// The fence of this authority around writes based on one input revision.
    pub open spec fn fence(self, observed: i64, sessions: Map<Seq<char>, u64>) -> FenceView {
        FenceView {
            namespace: self.namespace,
            controller: self.controller,
            lease: self.lease,
            observed,
            sessions,
        }
    }
}

impl ControllerAuthority {
    /// The authority of a controller that holds the active record of a
    /// namespace under a lease.
    pub fn new(namespace: String, controller_id: String, lease_id: i64) -> (r: ControllerAuthority)
        ensures
            r@ == (AuthorityView {
                namespace: namespace@,
                controller: controller_id@,
                lease: lease_id,
            }),
    {
        ControllerAuthority { namespace, controller_id, lease_id }
    }

    /// The namespace that the authority holds in.
    pub fn namespace(&self) -> (r: &str)
        ensures
            r@ == self@.namespace,
    {
        self.namespace.as_str()
    }

    /// The controller that holds the authority.
    pub fn controller_id(&self) -> (r: &str)
        ensures
            r@ == self@.controller,
    {
        self.controller_id.as_str()
    }

    /// The lease under which the authority holds.
    pub fn lease_id(&self) -> (r: i64)
        ensures
            r == self@.lease,
    {
        self.lease_id
    }

    /// The fence of this authority around writes based on one input revision.
    pub fn commit_fence(
        &self,
        observed_revision: Revision,
        live_sessions: OrderedMap<InstanceId, SessionId>,
    ) -> (r: ControllerCommitFence)
        ensures
            r@ == self@.fence(observed_revision@, live_sessions@),
    {
        ControllerCommitFence {
            namespace: self.namespace.clone(),
            controller_id: self.controller_id.clone(),
            lease_id: self.lease_id,
            observed_revision,
            live_sessions,
        }
    }

    /// The authority as it may be written to a log: the lease stays out.
    pub fn describe(&self) -> (r: String)
        ensures
            r@ == "ControllerAuthority { controller_id: "@ + text::debug_text(self@.controller)
                + ", .. }"@,
    {
        "ControllerAuthority { controller_id: ".to_owned().concat(
            text::quoted(self.controller_id.as_str()).as_str(),
        ).concat(", .. }")
    }
}

/// The identity under which a controller publishes: whose lease must still be
/// active, and the input revision and live sessions that must still hold.
pub struct ControllerCommitFence {
    namespace: String,
    controller_id: String,
    lease_id: i64,
    observed_revision: Revision,
    live_sessions: OrderedMap<InstanceId, SessionId>,
}

impl View for ControllerCommitFence {
    type V = FenceView;

    closed spec fn view(&self) -> FenceView {
        FenceView {
            namespace: self.namespace@,
            controller: self.controller_id@,
            lease: self.lease_id,
            observed: self.observed_revision@,
            sessions: self.live_sessions@,
        }
    }
}

impl DeepView for ControllerCommitFence {
    type V = FenceView;

    open spec fn deep_view(&self) -> FenceView {
        self@
    }
}

impl Duplicate for ControllerCommitFence {
    fn duplicate(&self) -> (r: Self) {
        ControllerCommitFence {
            namespace: self.namespace.clone(),
            controller_id: self.controller_id.clone(),
            lease_id: self.lease_id,
            observed_revision: self.observed_revision,
            live_sessions: self.live_sessions.duplicate(),
        }
    }
}

impl ControllerCommitFence {
    /// The namespace that the fence holds in.
    pub fn namespace(&self) -> (r: &str)
        ensures
            r@ == self@.namespace,
    {
        self.namespace.as_str()
    }

    /// The controller whose writes the fence admits.
    pub fn controller_id(&self) -> (r: &str)
        ensures
            r@ == self@.controller,
    {
        self.controller_id.as_str()
    }

    /// The lease that must still be active.
    pub fn lease_id(&self) -> (r: i64)
        ensures
            r == self@.lease,
    {
        self.lease_id
    }

    /// The input revision that must still hold.
    pub fn observed_revision(&self) -> (r: Revision)
        ensures
            r@ == self@.observed,
    {
        self.observed_revision
    }

    /// The sessions that must still be live.
    pub fn live_sessions(&self) -> (r: &OrderedMap<InstanceId, SessionId>)
        ensures
            r@ == self@.sessions,
    {
        &self.live_sessions
    }

    /// Whether the fence admits a write: the active controller, its lease, the
    /// input revision, and the live sessions are those of the fence.
    pub fn matches(
        &self,
        active_controller_id: &str,
        active_lease_id: i64,
        input_revision: Revision,
        live_sessions: &OrderedMap<InstanceId, SessionId>,
    ) -> (r: bool)
        ensures
            r == (self@.controller == active_controller_id@ && self@.lease == active_lease_id
                && self@.observed == input_revision@ && self@.sessions == live_sessions@),
    {
        text::text_eq(self.controller_id.as_str(), active_controller_id) && self.lease_id
            == active_lease_id && self.observed_revision.same(&input_revision) && same_sessions(
            &self.live_sessions,
            live_sessions,
        )
    }
}

/// Whether two maps hold the same sessions.
pub fn same_sessions(
    a: &OrderedMap<InstanceId, SessionId>,
    b: &OrderedMap<InstanceId, SessionId>,
) -> (r: bool)
    ensures
        r == (a@ == b@),
{
    if a.len() != b.len() {
        proof {
            if a@ == b@ {
                assert(a.listing() == b.listing());
            }
        }
        return false;
    }
    let mut i: usize = 0;
    while i < a.len()
        invariant
            i <= a.listing().len(),
            a.listing().len() == b.listing().len(),
            ordered::lists::<InstanceId, u64>(a.listing(), a@),
            ordered::lists::<InstanceId, u64>(b.listing(), b@),
            forall|j: int| 0 <= j < i ==> a.listing()[j] == b.listing()[j],
        decreases a.listing().len() - i,
    {
        if !a.key_at(i).same(b.key_at(i)) || a.value_at(i).sequence() != b.value_at(i).sequence() {
            proof {
                if a@ == b@ {
                    assert(a.listing() == b.listing());
                }
            }
            return false;
        }
        i = i + 1;
    }
    proof {
        assert(a.listing() =~= b.listing());
    }
    true
}

/// Write a controller-owned metadata value behind the active record of the
/// authority.
pub open spec fn owned_put(
    prefix: Seq<char>,
    authority: AuthorityView,
    key: Seq<char>,
    value: Seq<u8>,
) -> store::TransactionView {
    let active = publication::active_key(prefix);
    metadata::marked(
        store::no_changes().requiring(
            store::ConditionView::Value { key: active, value: authority.controller },
        ).requiring(store::ConditionView::Lease { key: active, lease: authority.lease }).changing(
            store::MutationView::PutBytes { key: keys::metadata_key_at(prefix, key), value },
        ),
        prefix,
        key,
    )
}

/// Write one controller-owned value behind the authoritative fence. The
/// authority of another namespace is refused.
pub fn put_controller_owned(
    namespace: &EtcdNamespace,
    authority: &ControllerAuthority,
    key: &str,
    value: Vec<u8>,
) -> (r: Result<Transaction, CoordinationError>)
    ensures
        match r {
            Ok(transaction) => authority@.namespace == namespace@.prefix && transaction@
                == owned_put(namespace@.prefix, authority@, key@, value@),
            Err(error) => authority@.namespace != namespace@.prefix && error@
                == CoordinationFault::StaleController,
        },
{
    if !text::text_eq(authority.namespace(), namespace.namespace()) {
        return Err(CoordinationError::StaleController);
    }
    let active = namespace.controller_active_key();
    let transaction = Transaction::new().require(
        Condition::Value { key: active.clone(), value: authority.controller_id().to_owned() },
    ).require(Condition::Lease { key: active, lease: authority.lease_id() }).change(
        Mutation::PutBytes { key: namespace.metadata_key(key), value },
    );
    Ok(metadata::mark(transaction, namespace, key))
}

/// What a controller-owned write comes to: a refusal means that the authority
/// is no longer current.
pub fn owned_write_result(succeeded: bool, header: Option<i64>) -> (r: Result<
    Revision,
    CoordinationError,
>)
    ensures
        match r {
            Ok(revision) => succeeded && store::header_revision(header) == Ok::<
                i64,
                CoordinationFault,
            >(revision@),
            Err(error) => if succeeded {
                store::header_revision(header) == Err::<i64, CoordinationFault>(error@)
            } else {
                error@ == CoordinationFault::StaleController
            },
        },
{
    if !succeeded {
        return Err(CoordinationError::StaleController);
    }
    store::revision_from_header(header)
}

/// A controller-owned write takes effect only while its controller is active
/// under its lease.
pub proof fn owned_write_is_fenced(
    prefix: Seq<char>,
    authority: AuthorityView,
    key: Seq<char>,
    value: Seq<u8>,
    s: store::StoreView,
)
    requires
        owned_put(prefix, authority, key, value).applies(s),
    ensures
        s.dom().contains(publication::active_key(prefix)),
        s[publication::active_key(prefix)].value == encode_utf8(authority.controller),
        s[publication::active_key(prefix)].lease == authority.lease,
{
    let t = owned_put(prefix, authority, key, value);
    assert(t.conditions[0].holds(s));
    assert(t.conditions[1].holds(s));
}

} // verus!
