//! Shortest paths over the numbered states of a model.
//!
//! `distance` and `hop` describe the ordered all-pairs construction: vertices
//! are admitted as intermediate stops one by one, and a path through the new
//! vertex replaces the known one only when it is strictly shorter.
use vstd::prelude::*;

verus! {

/// A directed graph over numbered vertices.
pub type Edges = spec_fn(int, int) -> bool;

/// Two parts make a path strictly shorter than the known one.
pub open spec fn shorter(left: Option<nat>, right: Option<nat>, known: Option<nat>) -> bool {
    match (left, right, known) {
        (Some(l), Some(r), Some(d)) => l + r < d,
        (Some(l), Some(r), None) => true,
        _ => false,
    }
}

/// The length found from `i` to `j` once the vertices below `k` may be
/// intermediate stops.
pub open spec fn distance(e: Edges, k: nat, i: int, j: int) -> Option<nat>
    decreases k,
{
    if k == 0 {
        if e(i, j) {
            Some(1)
        } else if i == j {
            Some(0)
        } else {
            None
        }
    } else {
        let p = (k - 1) as nat;
        let left = distance(e, p, i, p as int);
        let right = distance(e, p, p as int, j);
        let known = distance(e, p, i, j);
        if shorter(left, right, known) {
            Some(left->0 + right->0)
        } else {
            known
        }
    }
}

/// Going through vertex `p` is strictly shorter than what was known.
pub open spec fn improves(e: Edges, p: nat, i: int, j: int) -> bool {
    shorter(distance(e, p, i, p as int), distance(e, p, p as int, j), distance(e, p, i, j))
}

/// The first stop from `i` toward `j` once the vertices below `k` may be
/// intermediate stops.
pub open spec fn hop(e: Edges, k: nat, i: int, j: int) -> Option<int>
    decreases k,
{
    if k == 0 {
        if e(i, j) || i == j {
            Some(j)
        } else {
            None
        }
    } else {
        let p = (k - 1) as nat;
        if improves(e, p, i, j) {
            hop(e, p, i, p as int)
        } else {
            hop(e, p, i, j)
        }
    }
}

/// `w` is a walk along the edges.
pub open spec fn is_walk(e: Edges, w: Seq<int>) -> bool {
    &&& w.len() >= 2
    &&& forall|a: int| 0 <= a < w.len() - 1 ==> e(#[trigger] w[a], w[a + 1])
}

/// `w` is a walk from `i` to `j` whose intermediate stops are below `k`.
pub open spec fn walk_below(e: Edges, k: nat, w: Seq<int>, i: int, j: int) -> bool {
    &&& is_walk(e, w)
    &&& w[0] == i
    &&& w.last() == j
    &&& forall|a: int| 0 < a < w.len() - 1 ==> 0 <= #[trigger] w[a] < k
}

proof fn walk_relax(e: Edges, k: nat, l: nat, w: Seq<int>, i: int, j: int)
    requires
        walk_below(e, k, w, i, j),
        k <= l,
    ensures
        walk_below(e, l, w, i, j),
{
}

/// Two walks that meet make one walk.
pub proof fn walk_join(e: Edges, u: Seq<int>, v: Seq<int>)
    requires
        is_walk(e, u),
        is_walk(e, v),
        u.last() == v[0],
    ensures
        is_walk(e, u + v.skip(1)),
        (u + v.skip(1))[0] == u[0],
        (u + v.skip(1)).last() == v.last(),
        (u + v.skip(1)).len() == u.len() + v.len() - 1,
{
    let w = u + v.skip(1);
    assert forall|a: int| 0 <= a < w.len() - 1 implies e(#[trigger] w[a], w[a + 1]) by {
        if a < u.len() - 1 {
            assert(e(u[a], u[a + 1]));
            assert(w[a] == u[a] && w[a + 1] == u[a + 1]);
        } else {
            let b = a - (u.len() - 1);
            assert(e(v[b], v[b + 1]));
            assert(w[a] == v[b]);
            assert(w[a + 1] == v[b + 1]);
        }
    }
}

/// A part of a walk is a walk.
pub proof fn walk_part(e: Edges, w: Seq<int>, a: int, b: int)
    requires
        is_walk(e, w),
        0 <= a < b < w.len(),
    ensures
        is_walk(e, w.subrange(a, b + 1)),
{
    let p = w.subrange(a, b + 1);
    assert forall|c: int| 0 <= c < p.len() - 1 implies e(#[trigger] p[c], p[c + 1]) by {
        assert(e(w[a + c], w[a + c + 1]));
    }
}

/// Distance and hop are known for the same pairs.
pub proof fn hop_iff_distance(e: Edges, k: nat, i: int, j: int)
    ensures
        hop(e, k, i, j) is Some <==> distance(e, k, i, j) is Some,
    decreases k,
{
    if k > 0 {
        let p = (k - 1) as nat;
        hop_iff_distance(e, p, i, j);
        hop_iff_distance(e, p, i, p as int);
    }
}

/// A known distance between different vertices is the length of a walk that
/// begins with the hop.
pub proof fn distance_has_walk(e: Edges, k: nat, i: int, j: int) -> (w: Seq<int>)
    requires
        i != j,
        distance(e, k, i, j) is Some,
    ensures
        walk_below(e, k, w, i, j),
        w.len() == distance(e, k, i, j)->0 + 1,
        hop(e, k, i, j) == Some(w[1]),
    decreases k,
{
    if k == 0 {
        let w = seq![i, j];
        assert(w[0] == i && w[1] == j);
        w
    } else {
        let p = (k - 1) as nat;
        let m = p as int;
        if improves(e, p, i, j) {
            if i == m {
                assert(distance(e, p, i, j) is Some);
                assert(false);
            }
            if j == m {
                assert(distance(e, p, i, j) is Some);
                assert(false);
            }
            let u = distance_has_walk(e, p, i, m);
            let v = distance_has_walk(e, p, m, j);
            walk_join(e, u, v);
            let w = u + v.skip(1);
            assert forall|a: int| 0 < a < w.len() - 1 implies 0 <= #[trigger] w[a] < k by {
                if a < u.len() - 1 {
                    assert(w[a] == u[a]);
                } else if a == u.len() - 1 {
                    assert(w[a] == m);
                } else {
                    assert(w[a] == v[a - (u.len() - 1)]);
                }
            }
            assert(w[1] == u[1]);
            w
        } else {
            let w = distance_has_walk(e, p, i, j);
            walk_relax(e, p, k, w, i, j);
            w
        }
    }
}

/// A walk that does not stop at `p` stays below it.
proof fn walk_passes_by(e: Edges, p: nat, w: Seq<int>, i: int, j: int)
    requires
        walk_below(e, p + 1, w, i, j),
        forall|a: int| 0 < a < w.len() - 1 ==> #[trigger] w[a] != p,
    ensures
        walk_below(e, p, w, i, j),
{
    assert forall|a: int| 0 < a < w.len() - 1 implies 0 <= #[trigger] w[a] < p by {
        assert(0 <= w[a] < p + 1);
    }
}

/// The part of a walk up to its first stop at `p` stays below it.
proof fn walk_to_first_stop(e: Edges, p: nat, w: Seq<int>, i: int, j: int, a: int)
    requires
        walk_below(e, p + 1, w, i, j),
        0 < a < w.len(),
        w[a] == p,
        forall|b: int| 0 < b < a ==> #[trigger] w[b] != p,
    ensures
        walk_below(e, p, w.subrange(0, a + 1), i, p as int),
{
    let u = w.subrange(0, a + 1);
    walk_part(e, w, 0, a);
    assert(u.last() == w[a]);
    assert forall|c: int| 0 < c < u.len() - 1 implies 0 <= #[trigger] u[c] < p by {
        assert(u[c] == w[c]);
        assert(0 <= w[c] < p + 1);
    }
}

/// The part of a walk from its last stop at `p` on stays below it.
proof fn walk_from_last_stop(e: Edges, p: nat, w: Seq<int>, i: int, j: int, b: int)
    requires
        walk_below(e, p + 1, w, i, j),
        0 <= b < w.len() - 1,
        w[b] == p,
        forall|c: int| b < c < w.len() - 1 ==> #[trigger] w[c] != p,
    ensures
        walk_below(e, p, w.subrange(b, w.len() as int), p as int, j),
{
    let v = w.subrange(b, w.len() as int);
    walk_part(e, w, b, w.len() - 1);
    assert(v.last() == w.last());
    assert forall|c: int| 0 < c < v.len() - 1 implies 0 <= #[trigger] v[c] < p by {
        assert(v[c] == w[b + c]);
        assert(0 <= w[b + c] < p + 1);
    }
}

/// No walk is shorter than the known distance.
pub proof fn distance_is_least(e: Edges, k: nat, w: Seq<int>, i: int, j: int)
    requires
        i != j,
        walk_below(e, k, w, i, j),
    ensures
        distance(e, k, i, j) is Some,
        distance(e, k, i, j)->0 <= w.len() - 1,
    decreases k,
{
    if k == 0 {
        if w.len() > 2 {
            assert(0 <= w[1] < k);
        }
        assert(e(w[0], w[1]));
    } else {
        let p = (k - 1) as nat;
        let m = p as int;
        if forall|a: int| 0 < a < w.len() - 1 ==> #[trigger] w[a] != m {
            walk_passes_by(e, p, w, i, j);
            distance_is_least(e, p, w, i, j);
        } else {
            let a = first_stop(w, m);
            let b = last_stop(w, m);
            assert(a <= b);
            let u = w.subrange(0, a + 1);
            let v = w.subrange(b, w.len() as int);
            if i != m {
                walk_to_first_stop(e, p, w, i, j, a);
                distance_is_least(e, p, u, i, m);
            }
            if j != m {
                walk_from_last_stop(e, p, w, i, j, b);
                distance_is_least(e, p, v, m, j);
            }
        }
    }
}

/// The first intermediate stop of `w` at `m`.
proof fn first_stop(w: Seq<int>, m: int) -> (a: int)
    requires
        exists|a: int| 0 < a < w.len() - 1 && #[trigger] w[a] == m,
    ensures
        0 < a < w.len() - 1,
        w[a] == m,
        forall|b: int| 0 < b < a ==> #[trigger] w[b] != m,
    decreases w.len(),
{
    let c = choose|a: int| 0 < a < w.len() - 1 && #[trigger] w[a] == m;
    if exists|b: int| 0 < b < c && #[trigger] w[b] == m {
        let b0 = choose|b: int| 0 < b < c && #[trigger] w[b] == m;
        let t = w.take(c + 1);
        assert(t[b0] == m);
        let a = first_stop(t, m);
        assert forall|b: int| 0 < b < a implies #[trigger] w[b] != m by {
            assert(t[b] == w[b]);
        }
        a
    } else {
        c
    }
}

/// The last intermediate stop of `w` at `m`.
proof fn last_stop(w: Seq<int>, m: int) -> (a: int)
    requires
        exists|a: int| 0 < a < w.len() - 1 && #[trigger] w[a] == m,
    ensures
        0 < a < w.len() - 1,
        w[a] == m,
        forall|b: int| a < b < w.len() - 1 ==> #[trigger] w[b] != m,
    decreases w.len(),
{
    let c = choose|a: int| 0 < a < w.len() - 1 && #[trigger] w[a] == m;
    if exists|b: int| c < b < w.len() - 1 && #[trigger] w[b] == m {
        let b0 = choose|b: int| c < b < w.len() - 1 && #[trigger] w[b] == m;
        let t = w.skip(c);
        assert(t[b0 - c] == m);
        let a = last_stop(t, m);
        assert forall|b: int| a + c < b < w.len() - 1 implies #[trigger] w[b] != m by {
            assert(t[b - c] == w[b]);
        }
        a + c
    } else {
        c
    }
}

/// A sequence of more than `n` numbers below `n` repeats one.
proof fn repeats(s: Seq<int>, n: nat) -> (p: (int, int))
    requires
        s.len() > n,
        forall|a: int| 0 <= a < s.len() ==> 0 <= #[trigger] s[a] < n,
    ensures
        0 <= p.0 < p.1 < s.len(),
        s[p.0] == s[p.1],
{
    if s.no_duplicates() {
        s.unique_seq_to_set();
        let range = vstd::set_lib::set_int_range(0, n as int);
        vstd::set_lib::lemma_int_range(0, n as int);
        assert(s.to_set().subset_of(range));
        vstd::set_lib::lemma_len_subset(s.to_set(), range);
        assert(false);
    }
    let (a, b) = choose|a: int, b: int|
        0 <= a < s.len() && 0 <= b < s.len() && a != b && #[trigger] s[a] == #[trigger] s[b];
    if a < b {
        (a, b)
    } else {
        (b, a)
    }
}

/// Distances among `n` vertices stay below `n`.
pub proof fn distance_bounded(e: Edges, n: nat, k: nat, i: int, j: int)
    requires
        k <= n,
        0 <= i < n,
        0 <= j < n,
        distance(e, k, i, j) is Some,
    ensures
        distance(e, k, i, j)->0 <= n,
        i != j ==> distance(e, k, i, j)->0 < n,
    decreases k,
{
    if i == j {
        if k > 0 {
            diagonal(e, k, i);
        }
    } else {
        let w = distance_has_walk(e, k, i, j);
        if w.len() > n {
            assert forall|a: int| 0 <= a < w.len() implies 0 <= #[trigger] w[a] < n by {
                if a == 0 {
                } else if a == w.len() - 1 {
                } else {
                    assert(0 <= w[a] < k);
                }
            }
            let (a, b) = repeats(w, n);
            let v = w.take(a + 1) + w.skip(b + 1);
            assert(v[0] == i);
            assert(v.last() == j) by {
                if b == w.len() - 1 {
                    assert(w.skip(b + 1).len() == 0);
                    assert(v =~= w.take(a + 1));
                }
            }
            if v.len() < 2 {
                assert(false);
            }
            assert forall|c: int| 0 <= c < v.len() - 1 implies e(#[trigger] v[c], v[c + 1]) by {
                if c < a {
                    assert(e(w[c], w[c + 1]));
                } else if c == a {
                    assert(e(w[b], w[b + 1]));
                } else {
                    let d = c - a + b;
                    assert(e(w[d], w[d + 1]));
                }
            }
            assert forall|c: int| 0 < c < v.len() - 1 implies 0 <= #[trigger] v[c] < k by {
                if c <= a {
                    assert(v[c] == w[c]);
                } else {
                    assert(v[c] == w[c - a + b]);
                }
            }
            distance_is_least(e, k, v, i, j);
            assert(false);
        }
    }
}

/// The distance of a vertex to itself never grows past one.
proof fn diagonal(e: Edges, k: nat, i: int)
    ensures
        distance(e, k, i, i) is Some,
        distance(e, k, i, i)->0 <= 1,
    decreases k,
{
    if k > 0 {
        diagonal(e, (k - 1) as nat, i);
    }
}

/// Each hop is an edge and leaves exactly one step less to go; a pair without
/// a hop has no walk at all.
pub proof fn hop_advances(e: Edges, n: nat, i: int, j: int)
    requires
        0 <= i < n,
        0 <= j < n,
        i != j,
        forall|a: int, b: int| #[trigger] e(a, b) ==> 0 <= a < n && 0 <= b < n,
    ensures
        match hop(e, n, i, j) {
            Some(h) => {
                &&& e(i, h)
                &&& distance(e, n, i, j) is Some
                &&& h == j ==> distance(e, n, i, j) == Some(1nat)
                &&& h != j ==> distance(e, n, h, j) == Some(
                    (distance(e, n, i, j)->0 - 1) as nat,
                ) && distance(e, n, i, j)->0 > 1
            },
            None => forall|w: Seq<int>| #[trigger]
                is_walk(e, w) ==> !(w[0] == i && w.last() == j),
        },
{
    hop_iff_distance(e, n, i, j);
    if hop(e, n, i, j) is Some {
        let d = distance(e, n, i, j)->0;
        let w = distance_has_walk(e, n, i, j);
        let h = w[1];
        assert(e(w[0], w[1]));
        if h == j {
            let s = seq![i, j];
            assert(s[0] == i && s[1] == j);
            assert(walk_below(e, n, s, i, j));
            distance_is_least(e, n, s, i, j);
        } else {
            walk_part(e, w, 1, w.len() - 1);
            let t = w.subrange(1, w.len() as int);
            assert(t[0] == h);
            assert(t.last() == j);
            assert forall|a: int| 0 < a < t.len() - 1 implies 0 <= #[trigger] t[a] < n by {
                assert(t[a] == w[a + 1]);
            }
            distance_is_least(e, n, t, h, j);
            let v = distance_has_walk(e, n, h, j);
            let s = seq![i, h];
            assert(s[0] == i && s[1] == h);
            assert(is_walk(e, s));
            walk_join(e, s, v);
            let u = s + v.skip(1);
            assert forall|a: int| 0 < a < u.len() - 1 implies 0 <= #[trigger] u[a] < n by {
                if a == 1 {
                    assert(u[a] == h);
                } else {
                    assert(u[a] == v[a - 1]);
                }
            }
            distance_is_least(e, n, u, i, j);
        }
    } else {
        assert forall|w: Seq<int>| #[trigger] is_walk(e, w) implies !(w[0] == i && w.last()
            == j) by {
            if w[0] == i && w.last() == j {
                assert forall|a: int| 0 < a < w.len() - 1 implies 0 <= #[trigger] w[a] < n by {
                    assert(e(w[a], w[a + 1]));
                }
                distance_is_least(e, n, w, i, j);
            }
        }
    }
}

} // verus!
