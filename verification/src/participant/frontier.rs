//! How far a participant has worked through the queue.
use crate::coordination::etcd::Revision;
use crate::ordered::{self, Duplicate, OrderedMap, OrderedSet};
use vstd::prelude::*;
use vstd::string::*;

verus! {

/// The messages that were observed at each queue revision.
pub type Observed = Map<i64, Set<Seq<char>>>;

/// Some revision mentions the message.
pub open spec fn mentions(m: Observed, id: Seq<char>) -> bool {
    exists|r: i64| #[trigger] m.dom().contains(r) && m[r].contains(id)
}

/// Every message that was observed up to this revision is completed.
pub open spec fn settled(m: Observed, completed: Set<Seq<char>>, r: i64) -> bool {
    m.dom().contains(r) && forall|q: i64| #[trigger]
        m.dom().contains(q) && q <= r ==> m[q].subset_of(completed)
}

/// The highest revision up to which every observed message is completed.
pub open spec fn is_frontier(m: Observed, completed: Set<Seq<char>>, r: i64) -> bool {
    settled(m, completed, r) && forall|q: i64| #[trigger] settled(m, completed, q) ==> q <= r
}

/// The highest revision up to which every observed message is completed, where
/// there is one.
pub open spec fn frontier_of(m: Observed, completed: Set<Seq<char>>) -> Option<i64> {
    if exists|r: i64| is_frontier(m, completed, r) {
        Some(choose|r: i64| is_frontier(m, completed, r))
    } else {
        None
    }
}

/// The revisions that still wait for a message.
pub open spec fn unsettled(m: Observed, completed: Set<Seq<char>>) -> Observed {
    Map::new(|r: i64| m.dom().contains(r) && !settled(m, completed, r), |r: i64| m[r])
}

/// The completed messages that some remaining revision mentions, or that no
/// settled revision mentioned.
pub open spec fn kept(m: Observed, rest: Observed, completed: Set<Seq<char>>) -> Set<Seq<char>> {
    Set::new(|id: Seq<char>| completed.contains(id) && (mentions(rest, id) || !mentions(m, id)))
}

/// How far a participant has worked through the queue.
#[verifier::ext_equal]
pub struct CompletionView {
    pub revisions: Observed,
    pub completed: Set<Seq<char>>,
    pub frontier: Option<i64>,
}

impl CompletionView {
    /// After messages were observed at a revision.
    pub open spec fn observe(self, revision: i64, ids: Seq<Seq<char>>) -> CompletionView {
        let before = if self.revisions.dom().contains(revision) {
            self.revisions[revision]
        } else {
            Set::empty()
        };
        CompletionView {
            revisions: self.revisions.insert(
                revision,
                Set::new(|id: Seq<char>| before.contains(id) || ids.contains(id)),
            ),
            ..self
        }
    }

    /// After a message was completed: settled revisions are forgotten, and with
    /// them the messages that no other revision mentions.
    pub open spec fn complete(self, id: Seq<char>) -> CompletionView {
        let completed = self.completed.insert(id);
        let rest = unsettled(self.revisions, completed);
        let advanced = frontier_of(self.revisions, completed);
        CompletionView {
            revisions: rest,
            completed: kept(self.revisions, rest, completed),
            frontier: if advanced is Some {
                advanced
            } else {
                self.frontier
            },
        }
    }

    /// The revision that completing a message settles.
    pub open spec fn advance(self, id: Seq<char>) -> Option<i64> {
        frontier_of(self.revisions, self.completed.insert(id))
    }
}

/// The processed revision waits for every message that was observed at it or
/// before it.
pub proof fn frontier_waits_for_every_message(v: CompletionView, id: Seq<char>, q: i64)
    requires
        v.advance(id) is Some,
        v.revisions.dom().contains(q),
        q <= v.advance(id)->0,
    ensures
        forall|m: Seq<char>| #[trigger]
            v.revisions[q].contains(m) ==> m == id || v.completed.contains(m),
        !v.complete(id).revisions.dom().contains(q),
{
    let completed = v.completed.insert(id);
    let r = v.advance(id)->0;
    assert(is_frontier(v.revisions, completed, r));
    assert(settled(v.revisions, completed, q));
}

/// What still waits, waits for a message that is not completed, at its own
/// revision or an earlier one.
pub proof fn waiting_revisions_lack_a_message(v: CompletionView, id: Seq<char>, q: i64)
    requires
        v.complete(id).revisions.dom().contains(q),
    ensures
        exists|p: i64, m: Seq<char>| #[trigger]
            v.revisions.dom().contains(p) && p <= q && #[trigger] v.revisions[p].contains(m)
                && !v.completed.insert(id).contains(m),
{
    let completed = v.completed.insert(id);
    let p = choose|p: i64| #[trigger]
        v.revisions.dom().contains(p) && p <= q && !v.revisions[p].subset_of(completed);
    let m = choose|m: Seq<char>| #[trigger] v.revisions[p].contains(m) && !completed.contains(m);
    assert(v.revisions.dom().contains(p) && v.revisions[p].contains(m));
}

/// How far a participant has worked through the queue.
pub struct CompletionState {
    revisions: OrderedMap<Revision, OrderedSet<String>>,
    completed: OrderedSet<String>,
    frontier: Option<Revision>,
}

impl View for CompletionState {
    type V = CompletionView;

    closed spec fn view(&self) -> CompletionView {
        CompletionView {
            revisions: self.revisions@,
            completed: self.completed@,
            frontier: self.frontier.deep_view(),
        }
    }
}

fn all_completed(ids: &OrderedSet<String>, completed: &OrderedSet<String>) -> (r: bool)
    ensures
        r == ids@.subset_of(completed@),
{
    let n: usize = ids.len();
    let ghost all = ids.listing();
    let mut i: usize = 0;
    while i < n
        invariant
            i <= n,
            n == all.len(),
            all == ids.listing(),
            ordered::enumerates::<String>(all, ids@),
            forall|j: int| 0 <= j < i ==> completed@.contains(#[trigger] all[j]),
        decreases n - i,
    {
        if !completed.contains(ids.at(i)) {
            assert(ids@.contains(all[i as int]));
            return false;
        }
        i = i + 1;
    }
    proof {
        assert forall|id: Seq<char>| ids@.contains(id) implies completed@.contains(id) by {
            assert(all.contains(id));
        }
    }
    true
}

fn is_mentioned(revisions: &OrderedMap<Revision, OrderedSet<String>>, id: &String) -> (r: bool)
    ensures
        r == mentions(revisions@, id@),
{
    let n: usize = revisions.len();
    let ghost all = revisions.listing();
    let mut i: usize = 0;
    while i < n
        invariant
            i <= n,
            n == all.len(),
            all == revisions.listing(),
            ordered::lists::<Revision, Set<Seq<char>>>(all, revisions@),
            forall|j: int| 0 <= j < i ==> !(#[trigger] all[j]).1.contains(id@),
        decreases n - i,
    {
        let revision = revisions.key_at(i);
        if revisions.value_at(i).contains(id) {
            assert(revisions@.dom().contains(revision@));
            return true;
        }
        i = i + 1;
    }
    proof {
        if mentions(revisions@, id@) {
            let r = choose|r: i64| #[trigger]
                revisions@.dom().contains(r) && revisions@[r].contains(id@);
            let j = ordered::map_of_position(all, r);
            assert(!all[j].1.contains(id@));
        }
    }
    false
}

fn forget(
    completed: &mut OrderedSet<String>,
    ids: &OrderedSet<String>,
    rest: &OrderedMap<Revision, OrderedSet<String>>,
)
    ensures
        final(completed)@ == Set::new(
            |id: Seq<char>|
                old(completed)@.contains(id) && !(ids@.contains(id) && !mentions(rest@, id)),
        ),
{
    let ghost start = completed@;
    let n: usize = ids.len();
    let ghost all = ids.listing();
    let mut i: usize = 0;
    while i < n
        invariant
            i <= n,
            n == all.len(),
            all == ids.listing(),
            ordered::enumerates::<String>(all, ids@),
            forall|id: Seq<char>| #[trigger]
                completed@.contains(id) == (start.contains(id) && !(all.take(i as int).contains(id)
                    && !mentions(rest@, id))),
        decreases n - i,
    {
        let id = ids.at(i);
        let ghost before = completed@;
        proof {
            assert(all.take(i + 1) =~= all.take(i as int).push(all[i as int]));
            assert forall|x: Seq<char>|
                all.take(i + 1).contains(x) == (all.take(i as int).contains(x) || x
                    == all[i as int]) by {
                if all.take(i as int).contains(x) {
                    let j = all.take(i as int).index_of(x);
                    assert(all.take(i + 1)[j] == x);
                }
                if x == all[i as int] {
                    assert(all.take(i + 1)[i as int] == x);
                }
            }
        }
        if !is_mentioned(rest, id) {
            completed.remove(id);
        }
        i = i + 1;
    }
    proof {
        assert(all.take(n as int) =~= all);
        assert forall|x: Seq<char>| all.contains(x) == ids@.contains(x) by {
            if all.contains(x) {
                let j = all.index_of(x);
                assert(ids@.contains(all[j]));
            }
        }
        assert(completed@ =~= Set::new(
            |id: Seq<char>| start.contains(id) && !(ids@.contains(id) && !mentions(rest@, id)),
        ));
    }
}

/// The revisions above the highest one that was taken.
spec fn above(m: Observed, taken: Option<i64>) -> Observed {
    Map::new(
        |r: i64| m.dom().contains(r) && (taken is None || r > taken->0),
        |r: i64| m[r],
    )
}

proof fn taken_all(m: Observed, completed: Set<Seq<char>>, taken: Option<i64>)
    requires
        taken matches Some(t) ==> settled(m, completed, t),
        forall|q: i64| #[trigger] above(m, taken).dom().contains(q) ==> !settled(m, completed, q),
    ensures
        frontier_of(m, completed) == taken,
        above(m, taken) == unsettled(m, completed),
{
    assert forall|q: i64| settled(m, completed, q) implies taken is Some && q <= taken->0 by {
        if taken is None || q > taken->0 {
            assert(above(m, taken).dom().contains(q));
        }
    }
    if let Some(t) = taken {
        assert(is_frontier(m, completed, t));
        let r = choose|r: i64| is_frontier(m, completed, r);
        assert(settled(m, completed, r) && settled(m, completed, t));
        assert forall|q: i64| #[trigger] m.dom().contains(q) && q <= t implies settled(
            m,
            completed,
            q,
        ) by {}
    } else {
        if exists|r: i64| is_frontier(m, completed, r) {
            let r = choose|r: i64| is_frontier(m, completed, r);
            assert(settled(m, completed, r));
        }
    }
    assert(above(m, taken) =~= unsettled(m, completed));
}

impl CompletionState {
    /// Nothing was observed yet.
    pub fn new() -> (r: CompletionState)
        ensures
            r@ == (CompletionView {
                revisions: Map::empty(),
                completed: Set::empty(),
                frontier: None,
            }),
    {
        CompletionState {
            revisions: OrderedMap::new(),
            completed: OrderedSet::new(),
            frontier: None,
        }
    }

    /// Observe messages at a queue revision.
    pub fn observe(&mut self, revision: Revision, message_ids: &Vec<String>)
        ensures
            final(self)@ == old(self)@.observe(revision@, message_ids.deep_view()),
    {
        let ghost ids = message_ids.deep_view();
        let mut known: OrderedSet<String> = match self.revisions.get(&revision) {
            Some(known) => known.duplicate(),
            None => OrderedSet::new(),
        };
        let ghost before = known@;
        let mut i: usize = 0;
        while i < message_ids.len()
            invariant
                i <= message_ids@.len(),
                ids == message_ids.deep_view(),
                forall|id: Seq<char>| #[trigger]
                    known@.contains(id) == (before.contains(id) || ids.take(i as int).contains(
                        id,
                    )),
            decreases message_ids@.len() - i,
        {
            known.insert(message_ids[i].clone());
            proof {
                assert(ids[i as int] == message_ids@[i as int]@);
                assert(ids.take(i + 1) =~= ids.take(i as int).push(ids[i as int]));
                assert forall|x: Seq<char>|
                    ids.take(i + 1).contains(x) == (ids.take(i as int).contains(x) || x
                        == ids[i as int]) by {
                    if ids.take(i as int).contains(x) {
                        let j = ids.take(i as int).index_of(x);
                        assert(ids.take(i + 1)[j] == x);
                    }
                    if x == ids[i as int] {
                        assert(ids.take(i + 1)[i as int] == x);
                    }
                }
            }
            i = i + 1;
        }
        proof {
            assert(ids.take(ids.len() as int) =~= ids);
            assert(known@ =~= Set::new(
                |id: Seq<char>| before.contains(id) || ids.contains(id),
            ));
        }
        self.revisions.insert(revision, known);
    }

    /// Complete a message. The highest revision that is settled by it, where
    /// there is one.
    pub fn complete(&mut self, message_id: &str) -> (r: Option<Revision>)
        ensures
            r.deep_view() == old(self)@.advance(message_id@),
            final(self)@ == old(self)@.complete(message_id@),
    {
        let ghost m = self.revisions@;
        self.completed.insert(message_id.to_owned());
        let ghost completed = self.completed@;
        let mut taken: Option<Revision> = None;
        let mut n: usize = self.revisions.len();
        proof {
            assert(above(m, None) =~= m);
            assert(kept(m, m, completed) =~= completed);
        }
        loop
            invariant
                n == self.revisions.listing().len(),
                ordered::lists::<Revision, Set<Seq<char>>>(
                    self.revisions.listing(),
                    self.revisions@,
                ),
                self.revisions@ == above(m, taken.deep_view()),
                self.completed@ == kept(m, self.revisions@, completed),
                taken.deep_view() matches Some(t) ==> settled(m, completed, t),
                self.frontier == old(self).frontier,
            ensures
                taken.deep_view() == frontier_of(m, completed),
                self.revisions@ == unsettled(m, completed),
                self.completed@ == kept(m, self.revisions@, completed),
                self.frontier == old(self).frontier,
            decreases n,
        {
            let ghost listing = self.revisions.listing();
            let ghost all = self.revisions@;
            if n == 0 {
                proof {
                    assert forall|q: i64| !#[trigger] all.dom().contains(q) by {
                        if all.dom().contains(q) {
                            let j = ordered::map_of_position(listing, q);
                        }
                    }
                    taken_all(m, completed, taken.deep_view());
                }
                break;
            }
            let revision: Revision = *self.revisions.key_at(0);
            let ghost first = listing[0].1;
            proof {
                assert(first == all[revision@]);
                assert forall|q: i64| #[trigger] all.dom().contains(q) implies q >= revision@ by {
                    let j = ordered::map_of_position(listing, q);
                    if j > 0 {
                        assert(<Revision as ordered::Key>::before(listing[0].0, listing[j].0));
                    }
                }
                assert forall|id: Seq<char>| first.contains(id) implies self.completed@.contains(id)
                    == completed.contains(id) by {
                    assert(all.dom().contains(revision@) && all[revision@].contains(id));
                }
            }
            if !all_completed(self.revisions.value_at(0), &self.completed) {
                proof {
                    assert(!first.subset_of(completed)) by {
                        let id = choose|id: Seq<char>| #[trigger]
                            first.contains(id) && !self.completed@.contains(id);
                        assert(first.contains(id) && !completed.contains(id));
                    }
                    assert forall|q: i64| #[trigger]
                        above(m, taken.deep_view()).dom().contains(q) implies !settled(
                        m,
                        completed,
                        q,
                    ) by {
                        assert(m.dom().contains(revision@));
                    }
                    taken_all(m, completed, taken.deep_view());
                }
                break;
            }
            proof {
                assert(first.subset_of(completed));
                assert(settled(m, completed, revision@)) by {
                    assert forall|q: i64| #[trigger]
                        m.dom().contains(q) && q <= revision@ implies m[q].subset_of(completed) by {
                        if all.dom().contains(q) {
                            assert(q == revision@);
                        } else {
                            assert(q <= taken.deep_view()->0);
                        }
                    }
                }
                ordered::in_order_without::<Revision, Set<Seq<char>>>(listing, 0);
            }
            let ids = self.revisions.remove(&revision);
            let ghost rest = self.revisions@;
            let ghost kept_before = self.completed@;
            if let Some(ids) = ids {
                forget(&mut self.completed, &ids, &self.revisions);
            }
            taken = Some(revision);
            proof {
                assert(rest =~= above(m, Some(revision@)));
                assert forall|id: Seq<char>| self.completed@.contains(id) == kept(
                    m,
                    rest,
                    completed,
                ).contains(id) by {
                    if mentions(rest, id) {
                        let r = choose|r: i64| #[trigger]
                            rest.dom().contains(r) && rest[r].contains(id);
                        assert(all.dom().contains(r) && all[r].contains(id));
                    }
                    if mentions(all, id) && !mentions(rest, id) {
                        let r = choose|r: i64| #[trigger]
                            all.dom().contains(r) && all[r].contains(id);
                        assert(r == revision@ || rest.dom().contains(r));
                        assert(first.contains(id));
                    }
                    if mentions(all, id) {
                        let r = choose|r: i64| #[trigger]
                            all.dom().contains(r) && all[r].contains(id);
                        assert(m.dom().contains(r) && m[r].contains(id));
                    }
                    if first.contains(id) {
                        assert(all.dom().contains(revision@) && all[revision@].contains(id));
                    }
                }
                assert(self.completed@ =~= kept(m, rest, completed));
            }
            n = self.revisions.len();
        }
        if taken.is_some() {
            self.frontier = taken;
        }
        taken
    }

    /// The highest revision that was settled last.
    pub fn frontier(&self) -> (r: Option<Revision>)
        ensures
            r.deep_view() == self@.frontier,
    {
        self.frontier
    }
}

} // verus!
