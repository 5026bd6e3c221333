//! Lists: positions, counts, and stable sorting.
use crate::ordered::Key;
use vstd::prelude::*;

verus! {

/// The first position of `x` in `s`, or the length where it does not occur.
pub open spec fn first_index<A>(s: Seq<A>, x: A) -> nat
    decreases s.len(),
{
    if s.len() == 0 {
        0
    } else {
        let before = first_index(s.drop_last(), x);
        if before < s.len() - 1 {
            before
        } else if s.last() == x {
            (s.len() - 1) as nat
        } else {
            s.len()
        }
    }
}

/// `first_index` finds the first occurrence.
pub proof fn first_index_meaning<A>(s: Seq<A>, x: A)
    ensures
        first_index(s, x) <= s.len(),
        first_index(s, x) < s.len() <==> s.contains(x),
        first_index(s, x) < s.len() ==> s[first_index(s, x) as int] == x,
        forall|i: int| 0 <= i < first_index(s, x) ==> s[i] != x,
    decreases s.len(),
{
    if s.len() > 0 {
        let t = s.drop_last();
        first_index_meaning(t, x);
        assert forall|i: int| 0 <= i < first_index(s, x) implies s[i] != x by {
            if i < t.len() {
                assert(t[i] == s[i]);
            }
        }
        if t.contains(x) {
            assert(s[t.index_of(x)] == x);
        }
        if s.contains(x) && s.last() != x {
            let i = s.index_of(x);
            assert(t[i] == x);
        }
    }
}

/// The first position of `x` among the first elements decides.
pub proof fn first_index_prefix<A>(s: Seq<A>, x: A, i: int)
    requires
        0 <= i <= s.len(),
        first_index(s.take(i), x) < i,
    ensures
        first_index(s, x) == first_index(s.take(i), x),
    decreases s.len(),
{
    if i == s.len() {
        assert(s.take(i) =~= s);
    } else {
        assert(s.drop_last().take(i) =~= s.take(i));
        first_index_prefix(s.drop_last(), x, i);
    }
}

/// Find the first position of `x`.
pub fn position<K: Key>(s: &Vec<K>, x: &K) -> (r: usize)
    ensures
        r == first_index(s.deep_view(), x.deep_view()),
        r <= s@.len(),
{
    let ghost all = s.deep_view();
    let mut i: usize = 0;
    assert(all.take(0) =~= Seq::empty());
    while i < s.len()
        invariant
            i <= s@.len(),
            all == s.deep_view(),
            first_index(all.take(i as int), x.deep_view()) == i,
        decreases s@.len() - i,
    {
        proof {
            assert(all.take(i + 1).drop_last() =~= all.take(i as int));
            assert(all.take(i + 1).last() == s[i as int].deep_view());
        }
        if s[i].same(x) {
            proof {
                first_index_prefix(all, x.deep_view(), i + 1);
            }
            return i;
        }
        i = i + 1;
    }
    assert(all.take(s@.len() as int) =~= all);
    i
}

/// The largest count that fits.
pub open spec fn capped(n: nat) -> usize {
    if n < usize::MAX {
        n as usize
    } else {
        usize::MAX
    }
}

/// The next count, staying at the largest that fits.
pub fn bump(c: usize, Ghost(n): Ghost<nat>) -> (r: usize)
    requires
        c == capped(n),
    ensures
        r == capped(n + 1),
{
    if c < usize::MAX {
        c + 1
    } else {
        c
    }
}

/// Where `x` is inserted into the sorted `s`: before the first element that
/// it must precede.
pub open spec fn slot<A>(lt: spec_fn(A, A) -> bool, s: Seq<A>, x: A) -> nat
    decreases s.len(),
{
    if s.len() == 0 {
        0
    } else {
        let before = slot(lt, s.drop_last(), x);
        if before < s.len() - 1 {
            before
        } else if lt(x, s.last()) {
            (s.len() - 1) as nat
        } else {
            s.len()
        }
    }
}

/// The stable sort of `s` by `lt`.
pub open spec fn stable_sort<A>(lt: spec_fn(A, A) -> bool, s: Seq<A>) -> Seq<A>
    decreases s.len(),
{
    if s.len() == 0 {
        s
    } else {
        let t = stable_sort(lt, s.drop_last());
        t.insert(slot(lt, t, s.last()) as int, s.last())
    }
}

/// A slot is a position.
pub proof fn slot_in_range<A>(lt: spec_fn(A, A) -> bool, s: Seq<A>, x: A)
    ensures
        slot(lt, s, x) <= s.len(),
        forall|i: int| 0 <= i < slot(lt, s, x) ==> !lt(x, s[i]),
        slot(lt, s, x) < s.len() ==> lt(x, s[slot(lt, s, x) as int]),
    decreases s.len(),
{
    if s.len() > 0 {
        let t = s.drop_last();
        slot_in_range(lt, t, x);
        assert forall|i: int| 0 <= i < slot(lt, s, x) implies !lt(x, s[i]) by {
            if i < t.len() {
                assert(t[i] == s[i]);
            }
        }
        if slot(lt, t, x) < t.len() {
            assert(t[slot(lt, t, x) as int] == s[slot(lt, t, x) as int]);
        }
    }
}

/// The slot found among the first elements decides.
pub proof fn slot_prefix<A>(lt: spec_fn(A, A) -> bool, s: Seq<A>, x: A, i: int)
    requires
        0 <= i <= s.len(),
        slot(lt, s.take(i), x) < i,
    ensures
        slot(lt, s, x) == slot(lt, s.take(i), x),
    decreases s.len(),
{
    if i == s.len() {
        assert(s.take(i) =~= s);
    } else {
        assert(s.drop_last().take(i) =~= s.take(i));
        slot_prefix(lt, s.drop_last(), x, i);
    }
}

/// Sorting keeps every element, as often as it occurs.
pub proof fn stable_sort_permutes<A>(lt: spec_fn(A, A) -> bool, s: Seq<A>)
    ensures
        stable_sort(lt, s).to_multiset() == s.to_multiset(),
        stable_sort(lt, s).len() == s.len(),
        forall|x: A|
            #![trigger stable_sort(lt, s).contains(x)]
            #![trigger s.contains(x)]
            stable_sort(lt, s).contains(x) <==> s.contains(x),
    decreases s.len(),
{
    broadcast use vstd::seq_lib::group_to_multiset_ensures;

    if s.len() > 0 {
        let t = s.drop_last();
        let x = s.last();
        stable_sort_permutes(lt, t);
        let u = stable_sort(lt, t);
        slot_in_range(lt, u, x);
        let p = slot(lt, u, x) as int;
        let r = u.insert(p, x);
        assert(s =~= t.push(x));
        vstd::seq_lib::to_multiset_insert(u, p, x);
        assert forall|y: A|
            #![trigger r.contains(y)]
            #![trigger s.contains(y)]
            r.contains(y) <==> s.contains(y) by {
            if r.contains(y) {
                let i = r.index_of(y);
                if i == p {
                    assert(s[s.len() - 1] == y);
                } else {
                    let j = if i < p {
                        i
                    } else {
                        i - 1
                    };
                    assert(u[j] == y);
                    assert(u.contains(y));
                    assert(s[t.index_of(y)] == y);
                }
            }
            if s.contains(y) {
                let i = s.index_of(y);
                if i < t.len() {
                    assert(t[i] == y);
                    assert(u.contains(y));
                    let j = u.index_of(y);
                    if j < p {
                        assert(r[j] == y);
                    } else {
                        assert(r[j + 1] == y);
                    }
                } else {
                    assert(r[p] == y);
                }
            }
        }
    }
}

/// Where `lt` is a strict weak order the result is sorted: no later element
/// must precede an earlier one.
pub proof fn stable_sort_sorts<A>(lt: spec_fn(A, A) -> bool, s: Seq<A>)
    requires
        forall|a: A, b: A| #[trigger] lt(a, b) ==> !lt(b, a),
        forall|a: A, b: A, c: A|
            !#[trigger] lt(b, a) && !#[trigger] lt(c, b) ==> !lt(c, a),
    ensures
        forall|i: int, j: int|
            0 <= i < j < s.len() ==> !lt(
                #[trigger] stable_sort(lt, s)[j],
                #[trigger] stable_sort(lt, s)[i],
            ),
    decreases s.len(),
{
    stable_sort_permutes(lt, s);
    if s.len() > 0 {
        let t = s.drop_last();
        let x = s.last();
        stable_sort_sorts(lt, t);
        stable_sort_permutes(lt, t);
        let u = stable_sort(lt, t);
        slot_in_range(lt, u, x);
        let p = slot(lt, u, x) as int;
        let r = u.insert(p, x);
        assert forall|i: int, j: int| 0 <= i < j < s.len() implies !lt(
            #[trigger] r[j],
            #[trigger] r[i],
        ) by {
            if i < p && j < p {
                assert(r[i] == u[i] && r[j] == u[j]);
            } else if i < p && j == p {
                assert(!lt(x, u[i]));
            } else if i < p {
                assert(r[i] == u[i] && r[j] == u[j - 1]);
            } else if i == p {
                assert(r[j] == u[j - 1]);
                assert(lt(x, u[p]));
                if j - 1 > p {
                    assert(!lt(u[j - 1], u[p]));
                    assert(!lt(u[p], x));
                }
            } else {
                assert(r[i] == u[i - 1] && r[j] == u[j - 1]);
            }
        }
    }
}

} // verus!
