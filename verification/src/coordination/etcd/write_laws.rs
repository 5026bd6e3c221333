//! What holds of the writes of controllers and participants from one answer of
//! the store to the next.
use crate::coordination::etcd::error::CoordinationFault;
use crate::coordination::etcd::keys;
use crate::coordination::etcd::metadata;
use crate::coordination::etcd::metadata::WatermarkView;
use crate::coordination::etcd::publication;
use crate::coordination::etcd::publication::{
    ExpiryStage, ExpiryView, PublicationStage, PublicationView, MAX_PUBLICATION_ATTEMPTS,
};
use crate::coordination::etcd::registration;
use crate::coordination::etcd::registration::{
    CarriedView, IncarnationView, RegistrationActionView, RegistrationStageView,
    RegistrationStateView, RegistrationView,
};
use crate::coordination::etcd::session;
use crate::coordination::etcd::states;
use crate::coordination::etcd::store;
use crate::election::authority;
use crate::model::{InstanceId, PartitionId};
use crate::ordered;
use crate::participant::execution;
use crate::text;
use crate::text_laws;
use vstd::prelude::*;
use vstd::utf8::*;

verus! {

/// The key of an output of the controller.
pub open spec fn output_key(prefix: Seq<char>, name: Seq<char>) -> Seq<char> {
    keys::metadata_key_at(prefix, "controller/output/"@ + name)
}

/// The key that moves with the input.
pub open spec fn input_key(prefix: Seq<char>) -> Seq<char> {
    keys::metadata_key_at(prefix, "internal/authoritative-input"@)
}

/// The key of the active controller.
pub open spec fn controller_key(prefix: Seq<char>) -> Seq<char> {
    keys::key_at(prefix, "controller/election/active"@)
}

proof fn outputs_have_keys(prefix: Seq<char>)
    ensures
        publication::external_view_key(prefix) == output_key(prefix, "external-view"@),
        publication::pending_key(prefix) == output_key(prefix, "pending-transitions"@),
        publication::processed_key(prefix) == output_key(prefix, "processed-revision"@),
{
    reveal_strlit("controller/output/");
    reveal_strlit("external-view");
    reveal_strlit("pending-transitions");
    reveal_strlit("processed-revision");
    reveal_strlit("controller/output/external-view");
    reveal_strlit("controller/output/pending-transitions");
    reveal_strlit("controller/output/processed-revision");
    assert("controller/output/"@ + "external-view"@ =~= "controller/output/external-view"@);
    assert("controller/output/"@ + "pending-transitions"@
        =~= "controller/output/pending-transitions"@);
    assert("controller/output/"@ + "processed-revision"@
        =~= "controller/output/processed-revision"@);
}

/// Whatever changes the input moves its key without a lease.
pub proof fn marks_move_the_input(prefix: Seq<char>)
    ensures
        metadata::marker_put(prefix) == (store::MutationView::Put {
            key: input_key(prefix),
            value: "1"@,
            lease: None,
        }),
{
}

/// The published revision of an entry, where it can be read.
pub open spec fn published_at(entry: Option<store::EntryView>, revision: i64) -> bool {
    entry is Some && valid_utf8(entry->0.value) && text::signed_number(decode_utf8(entry->0.value))
        == Some(revision as int) && revision > 0
}

/// Outputs are committed where none of a newer input are published: all three
/// of them, behind the controller's lease, the published revision as it was
/// read, the queue as it was planned from, the input that was observed, and
/// every session that was live.
pub proof fn outputs_are_committed(v: PublicationView, entry: Option<store::EntryView>, r: i64)
    requires
        v.stage is Processed,
        entry is None || (published_at(entry, r) && r <= v.fence.observed),
        v.fence.sessions.dom().finite(),
    ensures
        v.read(entry).0 == (PublicationView { stage: PublicationStage::Commit, ..v }),
        v.read(entry).1 matches store::ActionView::Commit(t) && {
            let queue = output_key(v.prefix, "pending-transitions"@);
            let processed = output_key(v.prefix, "processed-revision"@);
            &&& t.mutations == seq![
                store::MutationView::Put {
                    key: output_key(v.prefix, "external-view"@),
                    value: v.external_view,
                    lease: None,
                },
                store::MutationView::Put { key: queue, value: v.pending, lease: None },
                store::MutationView::Put {
                    key: processed,
                    value: text::signed_decimal(v.fence.observed as int),
                    lease: None,
                },
            ]
            &&& t.conditions.contains(
                store::ConditionView::Value {
                    key: controller_key(v.prefix),
                    value: v.fence.controller,
                },
            )
            &&& t.conditions.contains(
                store::ConditionView::Lease {
                    key: controller_key(v.prefix),
                    lease: v.fence.lease,
                },
            )
            &&& t.conditions.contains(
                store::ConditionView::ModRevision {
                    key: input_key(v.prefix),
                    revision: v.fence.observed,
                },
            )
            &&& t.conditions.contains(
                if entry is Some {
                    store::ConditionView::ModRevision {
                        key: processed,
                        revision: entry->0.mod_revision,
                    }
                } else {
                    store::ConditionView::Version { key: processed, version: 0 }
                },
            )
            &&& t.conditions.contains(
                if v.pending_revision is Some {
                    store::ConditionView::ModRevision {
                        key: queue,
                        revision: v.pending_revision->0,
                    }
                } else {
                    store::ConditionView::Version { key: queue, version: 0 }
                },
            )
            &&& forall|i: Seq<char>| #[trigger]
                v.fence.sessions.dom().contains(i) ==> t.conditions.contains(
                    store::ConditionView::Value {
                        key: keys::live_key_at(v.prefix, i),
                        value: text::decimal(v.fence.sessions[i] as nat),
                    },
                )
            &&& t.conditions.len() == 5 + v.fence.sessions.dom().len()
        },
{
    outputs_have_keys(v.prefix);
    let t = v.transaction(entry);
    let fixed = t.conditions;
    assert(fixed[0] == store::ConditionView::Value {
        key: controller_key(v.prefix),
        value: v.fence.controller,
    });
    assert(fixed[1] == store::ConditionView::Lease {
        key: controller_key(v.prefix),
        lease: v.fence.lease,
    });
    assert(fixed[2] == v.processed_condition(entry));
    assert(fixed[3] == publication::pending_condition(
        publication::pending_key(v.prefix),
        v.pending_revision,
    ));
    assert(fixed[4] == store::ConditionView::ModRevision {
        key: input_key(v.prefix),
        revision: v.fence.observed,
    });
    let listing = v.sessions();
    ordered::finite_map_is_listed::<InstanceId, u64>(v.fence.sessions);
    assert forall|i: Seq<char>| #[trigger]
        v.fence.sessions.dom().contains(i) implies t.conditions.contains(
        store::ConditionView::Value {
            key: keys::live_key_at(v.prefix, i),
            value: text::decimal(v.fence.sessions[i] as nat),
        },
    ) by {
        let k = ordered::map_of_position(listing, i);
        ordered::map_of_at::<InstanceId, u64>(listing, k);
        assert(t.conditions[5 + k] == store::ConditionView::Value {
            key: keys::live_key_at(v.prefix, i),
            value: text::decimal(v.fence.sessions[i] as nat),
        });
    }
    ordered::entries_are_counted::<InstanceId, u64>(v.fence.sessions);
}

/// Outputs of an older input than the published one are refused.
pub proof fn older_outputs_are_refused(v: PublicationView, entry: Option<store::EntryView>, r: i64)
    requires
        v.stage is Processed || v.stage is Recheck,
        published_at(entry, r),
        r > v.fence.observed,
    ensures
        v.read(entry).1 == store::ActionView::<i64>::Finish(Err(CoordinationFault::StaleRevision)),
{
}

/// A commit of outputs that is refused is explained: by a controller that holds
/// the leadership no more, by a queue, an input or a session that has changed.
/// Where none of these explains it, it is tried again, a limited number of
/// times.
pub proof fn refused_outputs_are_explained(
    v: PublicationView,
    entry: Option<store::EntryView>,
    header: Option<i64>,
    r: i64,
)
    requires
        v.valid(),
    ensures
        v.outcome(false, header) == (
            PublicationView { stage: PublicationStage::Authority, ..v },
            store::ActionView::<i64>::Read(controller_key(v.prefix)),
        ),
        header is Some && header->0 > 0 ==> v.outcome(true, header).1
            == store::ActionView::<i64>::Finish(Ok(header->0)),
        v.stage is Authority ==> {
            let held = entry is Some && entry->0.value == encode_utf8(v.fence.controller)
                && entry->0.lease == v.fence.lease;
            &&& held ==> v.read(entry) == (
                PublicationView { stage: PublicationStage::Pending, ..v },
                store::ActionView::<i64>::Read(output_key(v.prefix, "pending-transitions"@)),
            )
            &&& !held ==> v.read(entry).1 == store::ActionView::<i64>::Finish(
                Err(CoordinationFault::StaleController),
            )
        },
        v.stage is Pending ==> {
            let same = (entry is Some <==> v.pending_revision is Some) && (entry is Some
                ==> entry->0.mod_revision == v.pending_revision->0);
            &&& same ==> v.read(entry) == (
                PublicationView { stage: PublicationStage::Marker, ..v },
                store::ActionView::<i64>::Read(input_key(v.prefix)),
            )
            &&& !same ==> v.read(entry).1 == store::ActionView::<i64>::Finish(
                Err(CoordinationFault::StaleRevision),
            )
        },
        v.stage is Marker && !(entry is Some && entry->0.mod_revision == v.fence.observed)
            ==> v.read(entry).1 == store::ActionView::<i64>::Finish(
            Err(CoordinationFault::StaleRevision),
        ),
        v.stage is Marker && entry is Some && entry->0.mod_revision == v.fence.observed ==> v.read(
            entry,
        ) == v.check_session(0),
        v.stage matches PublicationStage::Live(i) ==> {
            let (instance, session) = v.sessions()[i as int];
            let same = entry is Some && entry->0.value == encode_utf8(text::decimal(session as nat));
            &&& same ==> v.read(entry) == v.check_session((i + 1) as nat)
            &&& !same ==> v.read(entry).1 == store::ActionView::<i64>::Finish(
                Err(CoordinationFault::StaleRevision),
            )
        },
        v.stage is Recheck && (entry is None || (published_at(entry, r) && r <= v.fence.observed))
            ==> if v.attempts + 1 < MAX_PUBLICATION_ATTEMPTS {
            v.read(entry) == (
                PublicationView {
                    attempts: v.attempts + 1,
                    stage: PublicationStage::Processed,
                    ..v
                },
                store::ActionView::<i64>::Read(output_key(v.prefix, "processed-revision"@)),
            )
        } else {
            v.read(entry).1 == store::ActionView::<i64>::Finish(Err(CoordinationFault::Contention))
        },
{
    outputs_have_keys(v.prefix);
}

/// The sessions of the fence are looked at one after the other, and then the
/// published revision.
pub proof fn fenced_sessions_are_checked(v: PublicationView, i: usize)
    ensures
        i < v.sessions().len() ==> v.check_session(i as nat) == (
            PublicationView { stage: PublicationStage::Live(i), ..v },
            store::ActionView::<i64>::Read(
                keys::live_key_at(v.prefix, v.sessions()[i as int].0),
            ),
        ),
        i >= v.sessions().len() ==> v.check_session(i as nat) == (
            PublicationView { stage: PublicationStage::Recheck, ..v },
            store::ActionView::<i64>::Read(output_key(v.prefix, "processed-revision"@)),
        ),
{
    outputs_have_keys(v.prefix);
}

/// The end of a lease moves the input, where it has not moved since, behind the
/// controller's lease. A controller that holds the leadership no more is
/// refused, and otherwise it is tried again, a limited number of times.
pub proof fn expired_leases_move_the_input(v: ExpiryView, entry: Option<store::EntryView>)
    ensures
        v.stage is Marker && entry is Some && entry->0.mod_revision > 0 && entry->0.mod_revision
            >= v.event ==> v.read(entry).1 == store::ActionView::<i64>::Finish(
            Ok(entry->0.mod_revision),
        ),
        v.stage is Marker && (entry is None || 0 < entry->0.mod_revision < v.event) ==> {
            &&& v.read(entry).0 == (ExpiryView { stage: ExpiryStage::Commit, ..v })
            &&& v.read(entry).1 matches store::ActionView::Commit(t) && t.mutations == seq![
                metadata::marker_put(v.prefix),
            ] && t.conditions == seq![
                store::ConditionView::Value {
                    key: controller_key(v.prefix),
                    value: v.authority.controller,
                },
                store::ConditionView::Lease {
                    key: controller_key(v.prefix),
                    lease: v.authority.lease,
                },
                if entry is Some {
                    store::ConditionView::ModRevision {
                        key: input_key(v.prefix),
                        revision: entry->0.mod_revision,
                    }
                } else {
                    store::ConditionView::Version { key: input_key(v.prefix), version: 0 }
                },
            ]
        },
        v.outcome(false, None) == (
            ExpiryView { stage: ExpiryStage::Authority, ..v },
            store::ActionView::<i64>::Read(controller_key(v.prefix)),
        ),
        v.stage is Authority ==> {
            let held = entry is Some && entry->0.value == encode_utf8(v.authority.controller)
                && entry->0.lease == v.authority.lease;
            &&& !held ==> v.read(entry).1 == store::ActionView::<i64>::Finish(
                Err(CoordinationFault::StaleController),
            )
            &&& held && v.attempts + 1 < MAX_PUBLICATION_ATTEMPTS ==> v.read(entry) == (
                ExpiryView { attempts: v.attempts + 1, stage: ExpiryStage::Marker, ..v },
                store::ActionView::<i64>::Read(input_key(v.prefix)),
            )
        },
{
}

/// A watermark is created, or raised where it is lower than the revision, and
/// left where it is not. It is input like any other metadata.
pub proof fn watermarks_are_raised(v: WatermarkView, entry: store::EntryView, r: i64)
    requires
        entry.mod_revision > 0,
        published_at(Some(entry), r),
    ensures
        r >= v.revision ==> v.read(Some(entry)).1 == store::ActionView::<i64>::Finish(Ok(r)),
        r < v.revision ==> (v.read(Some(entry)).1 matches store::ActionView::Commit(t)
            && t.conditions == seq![
            store::ConditionView::ModRevision {
                key: keys::metadata_key_at(v.prefix, v.key),
                revision: entry.mod_revision,
            },
        ] && t.mutations.len() > 0 && t.mutations[0] == (store::MutationView::Put {
            key: keys::metadata_key_at(v.prefix, v.key),
            value: text::signed_decimal(v.revision as int),
            lease: None,
        }) && v.read(Some(entry)).0.outcome(true, Some(1)).1 == store::ActionView::<i64>::Finish(
            Ok(v.revision),
        )),
        v.read(None).1 matches store::ActionView::Commit(t) && t.conditions == seq![
            store::ConditionView::Version {
                key: keys::metadata_key_at(v.prefix, v.key),
                version: 0,
            },
        ] && t.mutations.len() > 0 && t.mutations[0] == (store::MutationView::Put {
            key: keys::metadata_key_at(v.prefix, v.key),
            value: text::signed_decimal(v.revision as int),
            lease: None,
        }),
{
}

/// Metadata are input unless the controller or a participant writes them as
/// its progress, or they mark the input.
pub proof fn progress_is_no_input(key: Seq<char>)
    ensures
        metadata::authoritative_metadata(key) <==> !(key == "internal/authoritative-input"@
            || "controller/output/"@.is_prefix_of(key) || ("participant/"@.is_prefix_of(key)
            && "/processed-revision"@.is_suffix_of(key))),
{
}

proof fn state_key_parts(
    prefix: Seq<char>,
    instance: Seq<char>,
    session: u64,
    resource: Seq<char>,
    partition: Seq<char>,
)
    ensures
        ({
            let key = encode_utf8(
                keys::current_state_key_at(prefix, instance, session, resource, partition),
            );
            &&& keys::relative_of(prefix, key) is Ok
            &&& text::parts_of(keys::relative_of(prefix, key)->Ok_0, '/') == seq![
                "current-state"@,
                keys::segment_of(instance),
                keys::session_key_text(session),
                keys::segment_of(resource),
                keys::segment_of(partition),
            ]
        }),
{
    let i = keys::segment_of(instance);
    let n = keys::session_key_text(session);
    let r = keys::segment_of(resource);
    let p = keys::segment_of(partition);
    reveal_strlit("current-state/");
    reveal_strlit("current-state");
    reveal_strlit("/");
    let s1 = "current-state"@.push('/') + i;
    let s2 = s1.push('/') + n;
    let s3 = s2.push('/') + r;
    let s4 = s3.push('/') + p;
    assert(keys::current_state_key_at(prefix, instance, session, resource, partition)
        =~= keys::key_at(prefix, s4));
    keys::relative_of_key(prefix, s4);
    keys::segment_has_no_slash(instance);
    keys::segment_has_no_slash(resource);
    keys::segment_has_no_slash(partition);
    session::decimal_has_no_slash(session as nat);
    assert(!"current-state"@.contains('/'));
    text::parts_of_single("current-state"@, '/');
    text::parts_of_join("current-state"@, i, '/');
    text::parts_of_join(s1, n, '/');
    text::parts_of_join(s2, r, '/');
    text::parts_of_join(s3, p, '/');
    assert(text::parts_of(s4, '/') =~= seq!["current-state"@, i, n, r, p]);
}

/// A replica of an earlier session is carried into the new one, in the initial
/// state of its resource.
pub proof fn replicas_are_carried_over(
    prefix: Seq<char>,
    instance: Seq<char>,
    session: u64,
    options: RegistrationView,
    earlier: u64,
    resource: Seq<char>,
    partition: Seq<char>,
    entry: store::EntryView,
)
    requires
        resource.len() > 0,
        partition.len() > 0,
        entry.key == encode_utf8(
            keys::current_state_key_at(prefix, instance, earlier, resource, partition),
        ),
    ensures
        registration::carried_of(prefix, instance, session, options, entry) == Ok::<
            CarriedView,
            CoordinationFault,
        >(
            CarriedView {
                key: keys::current_state_key_at(prefix, instance, session, resource, partition),
                state: if options.initials.dom().contains(resource) {
                    options.initials[resource]
                } else {
                    options.default_initial
                },
            },
        ),
{
    state_key_parts(prefix, instance, earlier, resource, partition);
    keys::segment_round_trip(resource);
    keys::segment_round_trip(partition);
}

/// Every listed replica is carried over, in order, unless one of them cannot
/// be.
pub proof fn all_replicas_are_carried_over(
    prefix: Seq<char>,
    instance: Seq<char>,
    session: u64,
    options: RegistrationView,
    entries: Seq<store::EntryView>,
)
    ensures
        match registration::all_carried(prefix, instance, session, options, entries) {
            Ok(carried) => carried.len() == entries.len() && forall|k: int|
                0 <= k < entries.len() ==> registration::carried_of(
                    prefix,
                    instance,
                    session,
                    options,
                    #[trigger] entries[k],
                ) == Ok::<CarriedView, CoordinationFault>(carried[k]),
            Err(_) => exists|k: int|
                0 <= k < entries.len() && registration::carried_of(
                    prefix,
                    instance,
                    session,
                    options,
                    #[trigger] entries[k],
                ) is Err,
        },
    decreases entries.len(),
{
    if entries.len() > 0 {
        let rest = entries.drop_last();
        let n = entries.len() - 1;
        all_replicas_are_carried_over(prefix, instance, session, options, rest);
        assert(entries[n] == entries.last());
        match registration::all_carried(prefix, instance, session, options, rest) {
            Ok(before) => {
                assert forall|k: int| 0 <= k < n implies registration::carried_of(
                    prefix,
                    instance,
                    session,
                    options,
                    #[trigger] entries[k],
                ) == Ok::<CarriedView, CoordinationFault>(before[k]) by {
                    assert(rest[k] == entries[k]);
                }
            },
            Err(_) => {
                let k = choose|k: int|
                    0 <= k < rest.len() && registration::carried_of(
                        prefix,
                        instance,
                        session,
                        options,
                        #[trigger] rest[k],
                    ) is Err;
                assert(entries[k] == rest[k]);
            },
        }
    }
}

/// A session number is the one after the last that was given, or the first.
/// It is taken only while nobody else takes one.
pub proof fn session_numbers_are_taken_in_turn(
    v: RegistrationStateView,
    entry: store::EntryView,
    last: u64,
    previous: Option<u64>,
    attempts: u32,
)
    requires
        v.stage == (RegistrationStageView::Sequence { previous, attempts }),
        entry.value == encode_utf8(text::decimal(last as nat)),
        0 < last < u64::MAX,
    ensures
        ({
            let key = keys::key_at(v.prefix, "internal/session-sequence"@);
            let first = v.read(None);
            let next = v.read(Some(entry));
            &&& first.0.stage == (RegistrationStageView::Allocate { previous, attempts, session: 1 })
            &&& first.1 matches RegistrationActionView::Commit(t) && t.conditions == seq![
                store::ConditionView::Version { key, version: 0 },
            ] && t.mutations == seq![
                store::MutationView::Put { key, value: text::decimal(1), lease: None },
            ]
            &&& next.0.stage == (RegistrationStageView::Allocate {
                previous,
                attempts,
                session: (last + 1) as u64,
            })
            &&& next.1 matches RegistrationActionView::Commit(t) && t.conditions == seq![
                store::ConditionView::ModRevision { key, revision: entry.mod_revision },
            ] && t.mutations == seq![
                store::MutationView::Put {
                    key,
                    value: text::decimal((last + 1) as nat),
                    lease: None,
                },
            ]
        }),
{
    session::session_round_trip(last);
}

/// A session number that was taken leads to the replicas of the previous
/// session, where there is one, and else to the lease. One that somebody else
/// took is tried again, a limited number of times.
pub proof fn taken_numbers_lead_on(
    v: RegistrationStateView,
    previous: Option<u64>,
    attempts: u32,
    number: u64,
    header: Option<i64>,
)
    requires
        v.stage == (RegistrationStageView::Allocate { previous, attempts, session: number }),
        v.valid(),
    ensures
        previous is None ==> v.outcome(true, header) == (
            RegistrationStateView {
                stage: RegistrationStageView::Grant { session: number, carried: Seq::empty() },
                ..v
            },
            RegistrationActionView::Grant((v.options.ttl / 1_000_000_000) as i64),
        ),
        previous matches Some(before) ==> v.outcome(true, header) == (
            RegistrationStateView {
                stage: RegistrationStageView::Carried { session: number },
                ..v
            },
            RegistrationActionView::List(
                keys::current_state_prefix_at(v.prefix, v.instance, before),
            ),
        ),
        attempts + 1 < session::MAX_CAS_RETRIES ==> v.outcome(false, header) == (
            RegistrationStateView {
                stage: RegistrationStageView::Sequence {
                    previous,
                    attempts: (attempts + 1) as u32,
                },
                ..v
            },
            RegistrationActionView::Read(keys::key_at(v.prefix, "internal/session-sequence"@)),
        ),
        attempts + 1 >= session::MAX_CAS_RETRIES ==> v.outcome(false, header).1
            == RegistrationActionView::Finish(
            Err::<IncarnationView, CoordinationFault>(CoordinationFault::Contention),
        ),
{
}

/// A granted lease registers the session under it, where the instance has no
/// live session: the live record, the mark of the session, the carried
/// replicas, and the mark of the input.
pub proof fn leases_register_sessions(
    v: RegistrationStateView,
    number: u64,
    carried: Seq<CarriedView>,
    lease: i64,
)
    requires
        v.stage == (RegistrationStageView::Grant { session: number, carried }),
    ensures
        ({
            let after = v.granted(lease);
            let live = keys::live_key_at(v.prefix, v.instance);
            &&& after.0 == (RegistrationStateView {
                stage: RegistrationStageView::Register { session: number, lease },
                ..v
            })
            &&& after.1 matches RegistrationActionView::Commit(t) && {
                &&& t.conditions == seq![store::ConditionView::Version { key: live, version: 0 }]
                &&& t.mutations.len() == carried.len() + 3
                &&& t.mutations[0] == (store::MutationView::Put {
                    key: live,
                    value: text::decimal(number as nat),
                    lease: Some(lease),
                })
                &&& t.mutations[1] == (store::MutationView::Put {
                    key: keys::session_key_at(v.prefix, v.instance, number),
                    value: "active"@,
                    lease: None,
                })
                &&& forall|k: int|
                    0 <= k < carried.len() ==> t.mutations[2 + k] == (store::MutationView::Put {
                        key: (#[trigger] carried[k]).key,
                        value: carried[k].state,
                        lease: None,
                    })
                &&& t.mutations[2 + carried.len() as int] == metadata::marker_put(v.prefix)
            }
        }),
{
}

/// A registered session is live under its lease from the revision of the
/// store. Where another was first, the lease is given back.
pub proof fn registered_sessions_are_told(
    v: RegistrationStateView,
    number: u64,
    lease: i64,
    revision: i64,
)
    requires
        v.stage == (RegistrationStageView::Register { session: number, lease }),
        revision > 0,
    ensures
        v.outcome(true, Some(revision)).1 == RegistrationActionView::Finish(
            Ok::<IncarnationView, CoordinationFault>(
                IncarnationView { instance: v.instance, session: number, lease, revision },
            ),
        ),
        v.outcome(false, Some(revision)) == (
            RegistrationStateView { stage: RegistrationStageView::Revoke, ..v },
            RegistrationActionView::Revoke(lease),
        ),
{
}

/// The sessions of an instance are told by their marks: the previous one is
/// among them, and it is the highest.
pub proof fn previous_sessions_are_marked(v: RegistrationStateView, entries: Seq<store::EntryView>)
    requires
        v.stage is Sessions,
    ensures
        v.listed(entries).1 == RegistrationActionView::Read(
            keys::key_at(v.prefix, "internal/session-sequence"@),
        ),
        v.listed(entries).0.stage matches RegistrationStageView::Sequence { previous, attempts }
            && attempts == 0 && {
            &&& previous matches Some(session) ==> exists|i: int|
                0 <= i < entries.len() && registration::marked_session(
                    (#[trigger] entries[i]).key,
                ) == Some(session)
            &&& forall|i: int|
                0 <= i < entries.len() && registration::marked_session(
                    (#[trigger] entries[i]).key,
                ) is Some ==> previous is Some && registration::marked_session(entries[i].key)->0
                    <= previous->0
        },
{
    assert forall|i: int|
        0 <= i < entries.len() && registration::marked_session(
            (#[trigger] entries[i]).key,
        ) is Some implies registration::latest_marked(entries) is Some
        && registration::marked_session(entries[i].key)->0 <= registration::latest_marked(
        entries,
    )->0 by {
        registration::latest_marked_is_highest(entries, i);
    }
    latest_is_marked(entries);
}

proof fn latest_is_marked(entries: Seq<store::EntryView>)
    ensures
        registration::latest_marked(entries) matches Some(session) ==> exists|i: int|
            0 <= i < entries.len() && registration::marked_session((#[trigger] entries[i]).key)
                == Some(session),
    decreases entries.len(),
{
    if entries.len() > 0 {
        let rest = entries.drop_last();
        let n = entries.len() - 1;
        latest_is_marked(rest);
        assert(entries[n] == entries.last());
        if registration::latest_marked(entries) is Some {
            let session = registration::latest_marked(entries)->0;
            if registration::marked_session(entries[n].key) != Some(session) {
                let i = choose|i: int|
                    0 <= i < rest.len() && registration::marked_session((#[trigger] rest[i]).key)
                        == Some(session);
                assert(entries[i] == rest[i]);
            }
        }
    }
}

/// A session is marked under its number.
pub proof fn marks_tell_the_session(prefix: Seq<char>, instance: Seq<char>, number: u64)
    requires
        number > 0,
    ensures
        registration::marked_session(
            encode_utf8(keys::session_key_at(prefix, instance, number)),
        ) == Some(number),
{
    let key = keys::session_key_at(prefix, instance, number);
    encode_utf8_valid_utf8(key);
    encode_utf8_decode_utf8(key);
    reveal_strlit("/");
    let before = prefix + "/"@ + "sessions/"@ + keys::segment_of(instance);
    let digits = keys::session_key_text(number);
    assert(key =~= before.push('/') + digits);
    session::decimal_has_no_slash(number as nat);
    text::parts_of_join(before, digits, '/');
    session::session_round_trip(number);
}

/// The states of a session are published all at once behind the session, each
/// under its key, with the mark of the input.
pub proof fn states_are_published_together(
    prefix: Seq<char>,
    instance: Seq<char>,
    number: u64,
    resource: Seq<char>,
    all: Map<Seq<char>, Seq<char>>,
)
    requires
        all.dom().finite(),
    ensures
        ({
            let t = states::state_publication(prefix, instance, number, resource, all);
            &&& t.conditions == seq![
                store::ConditionView::Value {
                    key: keys::live_key_at(prefix, instance),
                    value: text::decimal(number as nat),
                },
            ]
            &&& t.mutations.contains(metadata::marker_put(prefix))
            &&& forall|p: Seq<char>| #[trigger]
                all.dom().contains(p) ==> t.mutations.contains(
                    store::MutationView::Put {
                        key: keys::current_state_key_at(prefix, instance, number, resource, p),
                        value: all[p],
                        lease: None,
                    },
                )
        }),
{
    let t = states::state_publication(prefix, instance, number, resource, all);
    let listing = ordered::in_order::<PartitionId, Seq<char>>(all);
    ordered::finite_map_is_listed::<PartitionId, Seq<char>>(all);
    assert(t.mutations[listing.len() as int] == metadata::marker_put(prefix));
    assert forall|p: Seq<char>| #[trigger] all.dom().contains(p) implies t.mutations.contains(
        store::MutationView::Put {
            key: keys::current_state_key_at(prefix, instance, number, resource, p),
            value: all[p],
            lease: None,
        },
    ) by {
        let k = ordered::map_of_position(listing, p);
        ordered::map_of_at::<PartitionId, Seq<char>>(listing, k);
        assert(t.mutations[k] == store::MutationView::Put {
            key: keys::current_state_key_at(prefix, instance, number, resource, p),
            value: all[p],
            lease: None,
        });
    }
}

/// A session is revoked behind itself: its live record goes, and the input is
/// marked.
pub proof fn revocations_are_fenced(prefix: Seq<char>, instance: Seq<char>, number: u64)
    ensures
        ({
            let t = states::revocation_of(prefix, instance, number);
            &&& t.conditions == seq![
                store::ConditionView::Value {
                    key: keys::live_key_at(prefix, instance),
                    value: text::decimal(number as nat),
                },
            ]
            &&& t.mutations == seq![
                store::MutationView::Delete { key: keys::live_key_at(prefix, instance) },
                metadata::marker_put(prefix),
            ]
        }),
{
}

/// The state of a replica of the resource, under any session, is deleted with
/// it, and no other one.
pub proof fn states_of_a_resource_are_found(
    prefix: Seq<char>,
    resource: Seq<char>,
    instance: Seq<char>,
    number: u64,
    of: Seq<char>,
    partition: Seq<char>,
    entry: store::EntryView,
)
    requires
        entry.key == encode_utf8(
            keys::current_state_key_at(prefix, instance, number, of, partition),
        ),
    ensures
        states::is_state_of(prefix, resource, entry) <==> of == resource,
{
    state_key_parts(prefix, instance, number, of, partition);
    keys::segment_round_trip(of);
}

/// The entries that hold states of the resource.
pub open spec fn of_resource(prefix: Seq<char>, resource: Seq<char>) -> spec_fn(
    store::EntryView,
) -> bool {
    |e: store::EntryView| states::is_state_of(prefix, resource, e)
}

/// The key of an entry.
pub open spec fn key_of() -> spec_fn(store::EntryView) -> Seq<char> {
    |e: store::EntryView| decode_utf8(e.key)
}

/// The keys to delete are those of all states of the resource, in order.
pub proof fn all_states_of_a_resource_are_deleted(
    prefix: Seq<char>,
    resource: Seq<char>,
    entries: Seq<store::EntryView>,
)
    ensures
        states::state_keys(prefix, resource, entries) == entries.filter(
            of_resource(prefix, resource),
        ).map_values(key_of()),
    decreases entries.len(),
{
    reveal(Seq::filter);
    if entries.len() > 0 {
        let rest = entries.drop_last();
        all_states_of_a_resource_are_deleted(prefix, resource, rest);
        let kept = rest.filter(of_resource(prefix, resource));
        let f = key_of();
        assert(kept.push(entries.last()).map_values(f) =~= kept.map_values(f).push(
            f(entries.last()),
        ));
    }
}

/// A reply of the store carries a positive revision.
pub proof fn replies_carry_a_revision(revision: i64)
    ensures
        store::header_revision(None) == Err::<i64, CoordinationFault>(
            CoordinationFault::MissingRevision,
        ),
        revision > 0 ==> store::header_revision(Some(revision)) == Ok::<i64, CoordinationFault>(
            revision,
        ),
        revision <= 0 ==> store::header_revision(Some(revision)) == Err::<i64, CoordinationFault>(
            CoordinationFault::InvalidRevision(revision),
        ),
{
}

/// A watermark is a positive revision in plain digits, and a session is a
/// positive number.
pub proof fn written_numbers_are_positive(n: i64, number: u64)
    ensures
        n > 0 ==> metadata::watermark_value(text::signed_decimal(n as int)) == Ok::<
            i64,
            CoordinationFault,
        >(n),
        n <= 0 ==> metadata::watermark_value(text::signed_decimal(n as int)) == Err::<
            i64,
            CoordinationFault,
        >(CoordinationFault::InvalidRevision(n)),
        number > 0 ==> session::session_number(text::decimal(number as nat)) == Ok::<
            u64,
            CoordinationFault,
        >(number),
        session::session_number(text::decimal(0)) == Err::<u64, CoordinationFault>(
            CoordinationFault::InvalidSession,
        ),
{
    text_laws::signed_decimals_are_read_back(n as int);
    text::decimal_round_trip(number as nat);
    text::decimal_round_trip(0);
}

/// The lease of a session is given in whole seconds, at least one of them.
pub proof fn leases_last_whole_seconds(ttl: nat)
    ensures
        registration::lease_ttl_is_valid(ttl) <==> ttl >= 1_000_000_000 && ttl / 1_000_000_000
            <= i64::MAX,
{
}

/// Keys are deleted in batches: each key is in the batch of its turn, and no
/// batch is larger than allowed.
pub proof fn keys_are_deleted_in_batches(all: Seq<Seq<char>>, k: int)
    requires
        0 <= k < all.len(),
    ensures
        ({
            let size = states::CURRENT_STATE_DELETE_BATCH as int;
            let batch = states::batch(all, k / size);
            &&& 0 <= k % size < batch.len() <= size
            &&& batch[k % size] == all[k]
        }),
{
    let size = states::CURRENT_STATE_DELETE_BATCH as int;
    let i = k / size;
    assert(k == i * size + k % size && 0 <= k % size < size) by (nonlinear_arith)
        requires
            i == k / size,
            size > 0,
    ;
    assert((i + 1) * size == i * size + size) by (nonlinear_arith);
    assert(0 <= i * size) by (nonlinear_arith)
        requires
            i >= 0,
            size > 0,
    ;
}

/// A deletion deletes every key and marks the input.
pub proof fn deletions_mark_the_input(prefix: Seq<char>, all: Seq<Seq<char>>, k: int)
    ensures
        ({
            let t = states::deletion_of(prefix, all);
            &&& t.conditions.len() == 0
            &&& t.mutations.len() == all.len() + 1
            &&& 0 <= k < all.len() ==> t.mutations[k] == (store::MutationView::Delete {
                key: all[k],
            })
            &&& t.mutations.last() == metadata::marker_put(prefix)
        }),
{
}

/// Metadata are changed behind the revision that they were read at, or behind
/// their absence, and where an instance must not be live also behind that. Each
/// change writes the one value or deletes the one key.
pub proof fn metadata_changes_are_guarded(
    prefix: Seq<char>,
    key: Seq<char>,
    value: Seq<char>,
    lease: Option<i64>,
    revision: i64,
    instance: Seq<char>,
)
    ensures
        ({
            let own = keys::metadata_key_at(prefix, key);
            let read = store::ConditionView::ModRevision { key: own, revision };
            let absent = store::ConditionView::Version {
                key: keys::live_key_at(prefix, instance),
                version: 0,
            };
            let put = store::MutationView::Put { key: own, value, lease: None };
            let plain = metadata::plain_put(prefix, key, value, lease);
            let compared = metadata::compared_put(prefix, key, revision, value);
            let without = metadata::compared_put_if_absent(prefix, key, revision, instance, value);
            let deleted = metadata::compared_delete(prefix, key, revision);
            let first = metadata::absent_put(prefix, key, value);
            &&& plain.conditions.len() == 0 && plain.mutations[0] == (store::MutationView::Put {
                key: own,
                value,
                lease,
            })
            &&& compared.conditions == seq![read] && compared.mutations[0] == put
            &&& without.conditions == seq![read, absent] && without.mutations[0] == put
            &&& deleted.conditions == seq![read] && deleted.mutations[0]
                == (store::MutationView::Delete { key: own })
            &&& first.conditions == seq![store::ConditionView::Version { key: own, version: 0 }]
                && first.mutations[0] == put
            &&& marks_once(plain, prefix, key) && marks_once(compared, prefix, key) && marks_once(
                without,
                prefix,
                key,
            ) && marks_once(deleted, prefix, key) && marks_once(first, prefix, key)
        }),
{
}

/// The transaction makes one change, and marks the input where the metadata are
/// input.
pub open spec fn marks_once(t: store::TransactionView, prefix: Seq<char>, key: Seq<char>) -> bool {
    if key == "internal/authoritative-input"@ || "controller/output/"@.is_prefix_of(key) || (
    "participant/"@.is_prefix_of(key) && "/processed-revision"@.is_suffix_of(key)) {
        t.mutations.len() == 1
    } else {
        t.mutations.len() == 2 && t.mutations[1] == metadata::marker_put(prefix)
    }
}

/// A value that the controller owns is written under its lease, as it is.
pub proof fn owned_values_are_written(
    prefix: Seq<char>,
    a: authority::AuthorityView,
    key: Seq<char>,
    value: Seq<u8>,
)
    ensures
        ({
            let t = authority::owned_put(prefix, a, key, value);
            &&& t.conditions == seq![
                store::ConditionView::Value { key: controller_key(prefix), value: a.controller },
                store::ConditionView::Lease { key: controller_key(prefix), lease: a.lease },
            ]
            &&& t.mutations[0] == (store::MutationView::PutBytes {
                key: keys::metadata_key_at(prefix, key),
                value,
            })
            &&& marks_once(t, prefix, key)
        }),
{
}

/// The progress of a participant is kept under its own key and is no input.
pub proof fn progress_is_kept_apart(instance: Seq<char>, other: Seq<char>)
    ensures
        !metadata::authoritative_metadata(execution::progress_key(instance)),
        execution::progress_key(instance) == execution::progress_key(other) ==> instance == other,
{
    let key = execution::progress_key(instance);
    let start = "participant/"@;
    let end = "/processed-revision"@;
    assert(start.is_prefix_of(key)) by {
        assert(key.subrange(0, start.len() as int) =~= start);
    }
    assert(end.is_suffix_of(key)) by {
        assert(key.subrange(key.len() - end.len(), key.len() as int) =~= end);
    }
    let twin = execution::progress_key(other);
    if key == twin {
        assert(key.subrange(start.len() as int, key.len() - end.len()) =~= instance);
        assert(twin.subrange(start.len() as int, twin.len() - end.len()) =~= other);
    }
}

} // verus!
