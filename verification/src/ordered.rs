//! A map and a set kept in the order of their keys.
//!
//! The model of a map is a finite `Map`; `in_order` gives its entries in key
//! order, which is the order in which every traversal visits them.
use crate::text;
use vstd::prelude::*;

verus! {

/// A value that can be copied without changing what it stands for.
pub trait Duplicate: DeepView + Sized {
    /// A second value with the same model.
    fn duplicate(&self) -> (r: Self)
        ensures
            r.deep_view() == self.deep_view(),
    ;
}

/// A key: a value with a strict total order on its model.
pub trait Key: Duplicate {
    /// The strict order of keys.
    spec fn before(a: Self::V, b: Self::V) -> bool;

    /// No key comes before itself.
    proof fn before_irreflexive(a: Self::V)
        ensures
            !Self::before(a, a),
    ;

    /// The order is transitive.
    proof fn before_transitive(a: Self::V, b: Self::V, c: Self::V)
        requires
            Self::before(a, b),
            Self::before(b, c),
        ensures
            Self::before(a, c),
    ;

    /// Of two different keys one comes before the other.
    proof fn before_total(a: Self::V, b: Self::V)
        ensures
            a == b || Self::before(a, b) || Self::before(b, a),
    ;

    /// Whether this key comes before `other`.
    fn is_before(&self, other: &Self) -> (r: bool)
        ensures
            r == Self::before(self.deep_view(), other.deep_view()),
    ;

    /// Whether both keys stand for the same value.
    fn same(&self, other: &Self) -> (r: bool)
        ensures
            r == (self.deep_view() == other.deep_view()),
    ;
}

/// The position of `k` among the keys of `s`.
pub open spec fn holds_at<A, B>(s: Seq<(A, B)>, k: A, i: int) -> bool {
    0 <= i < s.len() && s[i].0 == k
}

/// The map with exactly the entries of `s`.
pub open spec fn map_of<A, B>(s: Seq<(A, B)>) -> Map<A, B> {
    Map::new(
        |k: A| exists|i: int| #[trigger] holds_at(s, k, i),
        |k: A| s[choose|i: int| #[trigger] holds_at(s, k, i)].1,
    )
}

/// The keys of `s` are strictly increasing.
pub open spec fn increasing<K: Key, B>(s: Seq<(K::V, B)>) -> bool {
    forall|i: int, j: int| 0 <= i < j < s.len() ==> K::before((#[trigger] s[i]).0, (#[trigger] s[j]).0)
}

/// The entries of `m` by increasing key.
pub open spec fn in_order<K: Key, B>(m: Map<K::V, B>) -> Seq<(K::V, B)> {
    choose|s: Seq<(K::V, B)>| #[trigger] increasing::<K, B>(s) && map_of(s) == m
}

/// The keys of `m` by increasing key.
pub open spec fn keys_in_order<K: Key, B>(m: Map<K::V, B>) -> Seq<K::V> {
    let s = in_order::<K, B>(m);
    Seq::new(s.len(), |i: int| s[i].0)
}

/// `s` lists the entries of `m` in order.
pub open spec fn lists<K: Key, B>(s: Seq<(K::V, B)>, m: Map<K::V, B>) -> bool {
    increasing::<K, B>(s) && map_of(s) == m
}

proof fn holds_at_most_once<K: Key, B>(s: Seq<(K::V, B)>, i: int, j: int)
    requires
        increasing::<K, B>(s),
        0 <= i < s.len(),
        0 <= j < s.len(),
        s[i].0 == s[j].0,
    ensures
        i == j,
{
    K::before_irreflexive(s[i].0);
    if i < j {
        assert(K::before(s[i].0, s[j].0));
    } else if j < i {
        assert(K::before(s[j].0, s[i].0));
    }
}

/// In an increasing sequence different positions have different keys.
pub proof fn keys_differ<K: Key, B>(s: Seq<(K::V, B)>, i: int, j: int)
    requires
        increasing::<K, B>(s),
        0 <= i < s.len(),
        0 <= j < s.len(),
        i != j,
    ensures
        s[i].0 != s[j].0,
{
    if s[i].0 == s[j].0 {
        holds_at_most_once::<K, B>(s, i, j);
    }
}

/// In an increasing sequence each entry is found under its key.
pub proof fn map_of_at<K: Key, B>(s: Seq<(K::V, B)>, i: int)
    requires
        increasing::<K, B>(s),
        0 <= i < s.len(),
    ensures
        map_of(s).dom().contains(s[i].0),
        map_of(s)[s[i].0] == s[i].1,
{
    assert(holds_at(s, s[i].0, i));
    let j = choose|j: int| #[trigger] holds_at(s, s[i].0, j);
    holds_at_most_once::<K, B>(s, i, j);
}

/// A key of the map of `s` stands somewhere in `s`.
pub proof fn map_of_position<A, B>(s: Seq<(A, B)>, k: A) -> (i: int)
    requires
        map_of(s).dom().contains(k),
    ensures
        0 <= i < s.len(),
        s[i].0 == k,
        map_of(s)[k] == s[i].1,
{
    choose|i: int| #[trigger] holds_at(s, k, i)
}

/// An increasing listing of a map is determined by the map.
pub proof fn listing_unique<K: Key, B>(s: Seq<(K::V, B)>, t: Seq<(K::V, B)>)
    requires
        increasing::<K, B>(s),
        increasing::<K, B>(t),
        map_of(s) == map_of(t),
    ensures
        s == t,
    decreases s.len(),
{
    if s.len() == 0 {
        if t.len() > 0 {
            map_of_at::<K, B>(t, 0);
            let i = map_of_position(s, t[0].0);
        }
        assert(s =~= t);
    } else {
        map_of_at::<K, B>(s, 0);
        let j = map_of_position(t, s[0].0);
        map_of_at::<K, B>(t, 0);
        let i = map_of_position(s, t[0].0);
        if j > 0 && i > 0 {
            assert(K::before(t[0].0, t[j].0));
            assert(K::before(s[0].0, s[i].0));
            K::before_transitive(s[0].0, t[0].0, s[0].0);
            K::before_irreflexive(s[0].0);
        } else if j > 0 {
            assert(s[0].0 == t[0].0);
            holds_at_most_once::<K, B>(t, 0, j);
        } else if i > 0 {
            holds_at_most_once::<K, B>(s, 0, i);
        }
        map_of_at::<K, B>(t, j);
        assert(s[0] == t[0]);
        let s1 = s.skip(1);
        let t1 = t.skip(1);
        assert(increasing::<K, B>(s1));
        assert(increasing::<K, B>(t1));
        map_of_skip::<K, B>(s);
        map_of_skip::<K, B>(t);
        listing_unique::<K, B>(s1, t1);
        assert(s =~= seq![s[0]] + s1);
        assert(t =~= seq![t[0]] + t1);
    }
}

proof fn map_of_skip<K: Key, B>(s: Seq<(K::V, B)>)
    requires
        increasing::<K, B>(s),
        s.len() > 0,
    ensures
        increasing::<K, B>(s.skip(1)),
        map_of(s.skip(1)) == map_of(s).remove(s[0].0),
{
    let s1 = s.skip(1);
    assert forall|i: int, j: int| 0 <= i < j < s1.len() implies K::before(
        (#[trigger] s1[i]).0,
        (#[trigger] s1[j]).0,
    ) by {
        assert(K::before(s[i + 1].0, s[j + 1].0));
    }
    let a = map_of(s1);
    let b = map_of(s).remove(s[0].0);
    assert forall|k: K::V| a.dom().contains(k) == b.dom().contains(k) by {
        if a.dom().contains(k) {
            let i = map_of_position(s1, k);
            map_of_at::<K, B>(s, i + 1);
            assert(K::before(s[0].0, s[i + 1].0));
            K::before_irreflexive(k);
        }
        if b.dom().contains(k) {
            let i = map_of_position(s, k);
            assert(i > 0);
            map_of_at::<K, B>(s1, i - 1);
        }
    }
    assert forall|k: K::V| a.dom().contains(k) implies a[k] == b[k] by {
        let i = map_of_position(s1, k);
        map_of_at::<K, B>(s, i + 1);
    }
    assert(a =~= b);
}

/// What `in_order` says of a map that has an increasing listing.
pub proof fn in_order_of_listing<K: Key, B>(s: Seq<(K::V, B)>)
    requires
        increasing::<K, B>(s),
    ensures
        in_order::<K, B>(map_of(s)) == s,
{
    let m = map_of(s);
    assert(increasing::<K, B>(s) && map_of(s) == m);
    let t = in_order::<K, B>(m);
    assert(increasing::<K, B>(t) && map_of(t) == m);
    listing_unique::<K, B>(s, t);
}

/// Where a new key goes among increasing keys.
proof fn slot_of<K: Key, B>(s: Seq<(K::V, B)>, k: K::V) -> (p: int)
    requires
        increasing::<K, B>(s),
        !map_of(s).dom().contains(k),
    ensures
        0 <= p <= s.len(),
        forall|i: int| 0 <= i < p ==> K::before((#[trigger] s[i]).0, k),
        p < s.len() ==> K::before(k, s[p].0),
    decreases s.len(),
{
    if s.len() == 0 {
        0
    } else {
        let last = s.len() - 1;
        let t = s.drop_last();
        map_of_at::<K, B>(s, last);
        K::before_total(s[last].0, k);
        assert forall|i: int, j: int| 0 <= i < j < t.len() implies K::before(
            (#[trigger] t[i]).0,
            (#[trigger] t[j]).0,
        ) by {
            assert(K::before(s[i].0, s[j].0));
        }
        if K::before(s[last].0, k) {
            assert forall|i: int| 0 <= i < s.len() implies K::before((#[trigger] s[i]).0, k) by {
                if i < last {
                    assert(K::before(s[i].0, s[last].0));
                    K::before_transitive(s[i].0, s[last].0, k);
                }
            }
            s.len() as int
        } else {
            if map_of(t).dom().contains(k) {
                let i = map_of_position(t, k);
                map_of_at::<K, B>(s, i);
            }
            let p = slot_of::<K, B>(t, k);
            assert forall|i: int| 0 <= i < p implies K::before((#[trigger] s[i]).0, k) by {
                assert(t[i] == s[i]);
            }
            if p < t.len() {
                assert(t[p] == s[p]);
            }
            p
        }
    }
}

/// Every finite map has a listing.
pub proof fn finite_map_is_listed<K: Key, B>(m: Map<K::V, B>)
    requires
        m.dom().finite(),
    ensures
        lists::<K, B>(in_order::<K, B>(m), m),
    decreases m.dom().len(),
{
    if m.dom().len() == 0 {
        let s = Seq::<(K::V, B)>::empty();
        assert(m =~= Map::empty());
        assert(map_of(s) =~= m) by {
            assert forall|k: K::V| !map_of(s).dom().contains(k) by {
                if map_of(s).dom().contains(k) {
                    let i = map_of_position(s, k);
                }
            }
        }
        in_order_of_listing::<K, B>(s);
    } else {
        let k = m.dom().choose();
        let rest = m.remove(k);
        finite_map_is_listed::<K, B>(rest);
        let s = in_order::<K, B>(rest);
        let p = slot_of::<K, B>(s, k);
        insert_at::<K, B>(s, k, m[k], p);
        assert(rest.insert(k, m[k]) =~= m);
        in_order_of_listing::<K, B>(s.insert(p, (k, m[k])));
    }
}

/// Every finite set is enumerated in order.
pub proof fn finite_set_is_enumerated<K: Key>(s: Set<K::V>)
    requires
        s.finite(),
    ensures
        enumerates::<K>(members_in_order::<K>(s), s),
{
    let m = Map::new(|k: K::V| s.contains(k), |k: K::V| ());
    assert(m.dom() =~= s);
    finite_map_is_listed::<K, ()>(m);
    let l = in_order::<K, ()>(m);
    let t = members_in_order::<K>(s);
    assert forall|i: int, j: int| 0 <= i < j < t.len() implies K::before(
        #[trigger] t[i],
        #[trigger] t[j],
    ) by {
        assert(K::before(l[i].0, l[j].0));
    }
    assert forall|i: int| 0 <= i < t.len() implies s.contains(#[trigger] t[i]) by {
        map_of_at::<K, ()>(l, i);
    }
    assert forall|k: K::V| s.contains(k) implies t.contains(k) by {
        let i = map_of_position(l, k);
        assert(t[i] == k);
    }
}

/// One more entry of an increasing sequence is one more entry of its map.
pub proof fn map_of_step<K: Key, B>(s: Seq<(K::V, B)>, i: int)
    requires
        increasing::<K, B>(s),
        0 <= i < s.len(),
    ensures
        map_of(s.take(i + 1)) == map_of(s.take(i)).insert(s[i].0, s[i].1),
        !map_of(s.take(i)).dom().contains(s[i].0),
{
    let a = s.take(i);
    let b = s.take(i + 1);
    assert(increasing::<K, B>(a)) by {
        assert forall|x: int, y: int| 0 <= x < y < a.len() implies K::before(
            (#[trigger] a[x]).0,
            (#[trigger] a[y]).0,
        ) by {
            assert(a[x] == s[x] && a[y] == s[y]);
        }
    }
    assert(increasing::<K, B>(b)) by {
        assert forall|x: int, y: int| 0 <= x < y < b.len() implies K::before(
            (#[trigger] b[x]).0,
            (#[trigger] b[y]).0,
        ) by {
            assert(b[x] == s[x] && b[y] == s[y]);
        }
    }
    map_of_at::<K, B>(b, i);
    assert(b[i] == s[i]);
    if map_of(a).dom().contains(s[i].0) {
        let j = map_of_position(a, s[i].0);
        assert(a[j] == s[j]);
        keys_differ::<K, B>(s, j, i);
    }
    assert forall|k: K::V|
        map_of(b).dom().contains(k) == map_of(a).insert(s[i].0, s[i].1).dom().contains(k) by {
        if map_of(b).dom().contains(k) && k != s[i].0 {
            let j = map_of_position(b, k);
            assert(b[j] == s[j] && j < i);
            map_of_at::<K, B>(a, j);
            assert(a[j] == s[j]);
        }
        if map_of(a).dom().contains(k) {
            let j = map_of_position(a, k);
            map_of_at::<K, B>(b, j);
            assert(a[j] == s[j] && b[j] == s[j]);
        }
    }
    assert forall|k: K::V| map_of(b).dom().contains(k) implies map_of(b)[k] == map_of(a).insert(
        s[i].0,
        s[i].1,
    )[k] by {
        let j = map_of_position(b, k);
        map_of_at::<K, B>(b, j);
        if j < i {
            map_of_at::<K, B>(a, j);
            assert(a[j] == s[j] && b[j] == s[j]);
            keys_differ::<K, B>(s, j, i);
        }
    }
    assert(map_of(b) =~= map_of(a).insert(s[i].0, s[i].1));
}

/// Removing the entry at a position leaves the other entries in order.
pub proof fn in_order_without<K: Key, B>(s: Seq<(K::V, B)>, p: int)
    requires
        increasing::<K, B>(s),
        0 <= p < s.len(),
    ensures
        lists::<K, B>(s.remove(p), map_of(s).remove(s[p].0)),
        in_order::<K, B>(map_of(s).remove(s[p].0)) == s.remove(p),
{
    remove_at::<K, B>(s, p);
    in_order_of_listing::<K, B>(s.remove(p));
}

/// No entries make the empty map, and all entries make the whole map.
pub proof fn map_of_ends<A, B>(s: Seq<(A, B)>)
    ensures
        map_of(s.take(0)) == Map::<A, B>::empty(),
        s.take(s.len() as int) == s,
{
    assert forall|k: A| !map_of(s.take(0)).dom().contains(k) by {
        if map_of(s.take(0)).dom().contains(k) {
            let i = map_of_position(s.take(0), k);
        }
    }
    assert(map_of(s.take(0)) =~= Map::<A, B>::empty());
    assert(s.take(s.len() as int) =~= s);
}


/// The models of the entries of a vector of pairs.
pub open spec fn models<K: DeepView, V: DeepView>(s: Seq<(K, V)>) -> Seq<(K::V, V::V)> {
    Seq::new(s.len(), |i: int| (s[i].0.deep_view(), s[i].1.deep_view()))
}

/// A map that keeps its entries in key order.
#[derive(Debug, PartialEq, Eq)]
pub struct OrderedMap<K: Key, V: DeepView> {
    items: Vec<(K, V)>,
}

impl<K: Key, V: DeepView> DeepView for OrderedMap<K, V> {
    type V = Map<K::V, V::V>;

    closed spec fn deep_view(&self) -> Map<K::V, V::V> {
        map_of(models(self.items@))
    }
}

impl<K: Key, V: DeepView> View for OrderedMap<K, V> {
    type V = Map<K::V, V::V>;

    open spec fn view(&self) -> Map<K::V, V::V> {
        self.deep_view()
    }
}

impl<K: Key, V: DeepView> OrderedMap<K, V> {
    #[verifier::type_invariant]
    spec fn inv(self) -> bool {
        increasing::<K, V::V>(models(self.items@))
    }

    /// The entries of this map by increasing key.
    pub open spec fn listing(&self) -> Seq<(K::V, V::V)> {
        in_order::<K, V::V>(self@)
    }

    /// An empty map.
    pub fn new() -> (r: Self)
        ensures
            r@ == Map::<K::V, V::V>::empty(),
    {
        let items: Vec<(K, V)> = Vec::new();
        proof {
            assert(models(items@).len() == 0);
            assert(map_of(models(items@)) =~= Map::empty()) by {
                assert forall|k: K::V| !map_of(models(items@)).dom().contains(k) by {
                    if map_of(models(items@)).dom().contains(k) {
                        let i = map_of_position(models(items@), k);
                    }
                }
            }
        }
        OrderedMap { items }
    }

    /// The number of entries. The listing has that many entries, is
    /// increasing, and holds exactly the entries of the map.
    pub fn len(&self) -> (n: usize)
        ensures
            n == self.listing().len(),
            lists::<K, V::V>(self.listing(), self@),
    {
        proof {
            use_type_invariant(self);
            in_order_of_listing::<K, V::V>(models(self.items@));
        }
        self.items.len()
    }

    /// Whether the map has no entry.
    pub fn is_empty(&self) -> (r: bool)
        ensures
            r == (self@ == Map::<K::V, V::V>::empty()),
            r == (self.listing().len() == 0),
            lists::<K, V::V>(self.listing(), self@),
    {
        let n: usize = self.len();
        proof {
            let s = self.listing();
            if n == 0 {
                assert forall|k: K::V| !self@.dom().contains(k) by {
                    if map_of(s).dom().contains(k) {
                        let i = map_of_position(s, k);
                    }
                }
                assert(self@ =~= Map::empty());
            } else {
                map_of_at::<K, V::V>(s, 0);
            }
        }
        n == 0
    }

    /// The key of the entry at position `i`.
    pub fn key_at(&self, i: usize) -> (k: &K)
        requires
            i < self.listing().len(),
        ensures
            k.deep_view() == self.listing()[i as int].0,
            self@.dom().contains(k.deep_view()),
            self@[k.deep_view()] == self.listing()[i as int].1,
    {
        proof {
            use_type_invariant(self);
            in_order_of_listing::<K, V::V>(models(self.items@));
            map_of_at::<K, V::V>(models(self.items@), i as int);
        }
        &self.items[i].0
    }

    /// The value of the entry at position `i`.
    pub fn value_at(&self, i: usize) -> (v: &V)
        requires
            i < self.listing().len(),
        ensures
            v.deep_view() == self.listing()[i as int].1,
    {
        proof {
            use_type_invariant(self);
            in_order_of_listing::<K, V::V>(models(self.items@));
        }
        &self.items[i].1
    }

    /// The first position whose key is not before `key`.
    fn lower_bound(&self, key: &K) -> (p: usize)
        ensures
            p <= self.items@.len(),
            forall|i: int| 0 <= i < p ==> K::before(
                (#[trigger] models(self.items@)[i]).0,
                key.deep_view(),
            ),
            p < self.items@.len() ==> !K::before(models(self.items@)[p as int].0, key.deep_view()),
    {
        let mut p: usize = 0;
        while p < self.items.len() && self.items[p].0.is_before(key)
            invariant
                p <= self.items@.len(),
                forall|i: int| 0 <= i < p ==> K::before(
                    (#[trigger] models(self.items@)[i]).0,
                    key.deep_view(),
                ),
            decreases self.items@.len() - p,
        {
            p = p + 1;
        }
        p
    }

    /// The value stored under `key`.
    pub fn get(&self, key: &K) -> (r: Option<&V>)
        ensures
            match r {
                Some(v) => self@.dom().contains(key.deep_view()) && v.deep_view()
                    == self@[key.deep_view()],
                None => !self@.dom().contains(key.deep_view()),
            },
    {
        proof {
            use_type_invariant(self);
        }
        let ghost s = models(self.items@);
        let ghost k = key.deep_view();
        let p: usize = self.lower_bound(key);
        if p < self.items.len() && self.items[p].0.same(key) {
            proof {
                map_of_at::<K, V::V>(s, p as int);
            }
            Some(&self.items[p].1)
        } else {
            proof {
                absent_at_bound::<K, V::V>(s, k, p as int);
            }
            None
        }
    }

    /// Whether `key` has a value.
    pub fn contains_key(&self, key: &K) -> (r: bool)
        ensures
            r == self@.dom().contains(key.deep_view()),
    {
        self.get(key).is_some()
    }

    /// Store `value` under `key`; whether the key had a value before.
    pub fn insert(&mut self, key: K, value: V) -> (r: bool)
        ensures
            r == old(self)@.dom().contains(key.deep_view()),
            final(self)@ == old(self)@.insert(key.deep_view(), value.deep_view()),
    {
        proof {
            use_type_invariant(&*self);
        }
        let p: usize = self.lower_bound(&key);
        let ghost s = models(self.items@);
        let ghost k = key.deep_view();
        let ghost v = value.deep_view();
        let mut items: Vec<(K, V)> = Vec::new();
        std::mem::swap(&mut items, &mut self.items);
        if p < items.len() && items[p].0.same(&key) {
            items.set(p, (key, value));
            proof {
                assert(models(items@) =~= s.update(p as int, (k, v)));
                replace_at::<K, V::V>(s, k, v, p as int);
            }
            self.items = items;
            true
        } else {
            proof {
                absent_at_bound::<K, V::V>(s, k, p as int);
                if p < s.len() {
                    K::before_total(s[p as int].0, k);
                }
            }
            items.insert(p, (key, value));
            proof {
                assert(models(items@) =~= s.insert(p as int, (k, v)));
                insert_at::<K, V::V>(s, k, v, p as int);
            }
            self.items = items;
            false
        }
    }

    /// Remove the entry of `key`; the value it had.
    pub fn remove(&mut self, key: &K) -> (r: Option<V>)
        ensures
            match r {
                Some(v) => old(self)@.dom().contains(key.deep_view()) && v.deep_view()
                    == old(self)@[key.deep_view()],
                None => !old(self)@.dom().contains(key.deep_view()),
            },
            final(self)@ == old(self)@.remove(key.deep_view()),
    {
        proof {
            use_type_invariant(&*self);
        }
        let p: usize = self.lower_bound(key);
        let ghost s = models(self.items@);
        let ghost k = key.deep_view();
        let mut items: Vec<(K, V)> = Vec::new();
        std::mem::swap(&mut items, &mut self.items);
        if p < items.len() && items[p].0.same(key) {
            let taken = items.remove(p);
            proof {
                assert(models(items@) =~= s.remove(p as int));
                remove_at::<K, V::V>(s, p as int);
            }
            self.items = items;
            Some(taken.1)
        } else {
            proof {
                absent_at_bound::<K, V::V>(s, k, p as int);
                assert(map_of(s) =~= map_of(s).remove(k));
            }
            self.items = items;
            None
        }
    }
}

impl<K: Key, V: Duplicate> Duplicate for OrderedMap<K, V> {
    fn duplicate(&self) -> (r: Self) {
        proof {
            use_type_invariant(self);
        }
        let mut items: Vec<(K, V)> = Vec::new();
        let mut i: usize = 0;
        while i < self.items.len()
            invariant
                i <= self.items@.len(),
                models(items@) == models(self.items@).take(i as int),
            decreases self.items@.len() - i,
        {
            let ghost before = items@;
            let k = self.items[i].0.duplicate();
            let v = self.items[i].1.duplicate();
            items.push((k, v));
            proof {
                assert(models(before).len() == i);
                assert forall|j: int| 0 <= j < i implies models(items@)[j] == models(
                    self.items@,
                ).take(i + 1)[j] by {
                    assert(models(before)[j] == models(self.items@).take(i as int)[j]);
                    assert(before[j] == items@[j]);
                }
                assert(models(items@) =~= models(self.items@).take(i + 1));
            }
            i = i + 1;
        }
        assert(models(items@) =~= models(self.items@));
        OrderedMap { items }
    }
}

impl<K: Key, V: Duplicate> Clone for OrderedMap<K, V> {
    fn clone(&self) -> (r: Self)
        ensures
            r@ == self@,
    {
        self.duplicate()
    }
}

proof fn absent_at_bound<K: Key, B>(s: Seq<(K::V, B)>, k: K::V, p: int)
    requires
        increasing::<K, B>(s),
        0 <= p <= s.len(),
        forall|i: int| 0 <= i < p ==> K::before((#[trigger] s[i]).0, k),
        p < s.len() ==> !K::before(s[p].0, k) && s[p].0 != k,
    ensures
        !map_of(s).dom().contains(k),
{
    if map_of(s).dom().contains(k) {
        let i = map_of_position(s, k);
        K::before_irreflexive(k);
        if i >= p {
            K::before_total(s[p].0, k);
            assert(K::before(k, s[p].0));
            if i > p {
                assert(K::before(s[p].0, s[i].0));
                K::before_transitive(k, s[p].0, k);
            }
        }
    }
}

proof fn replace_at<K: Key, B>(s: Seq<(K::V, B)>, k: K::V, v: B, p: int)
    requires
        increasing::<K, B>(s),
        0 <= p < s.len(),
        s[p].0 == k,
    ensures
        increasing::<K, B>(s.update(p, (k, v))),
        map_of(s.update(p, (k, v))) == map_of(s).insert(k, v),
        map_of(s).dom().contains(k),
{
    let t = s.update(p, (k, v));
    assert forall|i: int, j: int| 0 <= i < j < t.len() implies K::before(
        (#[trigger] t[i]).0,
        (#[trigger] t[j]).0,
    ) by {
        assert(t[i].0 == s[i].0 && t[j].0 == s[j].0);
        assert(K::before(s[i].0, s[j].0));
    }
    map_of_at::<K, B>(s, p);
    let a = map_of(t);
    let b = map_of(s).insert(k, v);
    assert forall|q: K::V| a.dom().contains(q) == b.dom().contains(q) by {
        if a.dom().contains(q) {
            let i = map_of_position(t, q);
            map_of_at::<K, B>(s, i);
        }
        if b.dom().contains(q) && q != k {
            let i = map_of_position(s, q);
            map_of_at::<K, B>(t, i);
        }
        if q == k {
            map_of_at::<K, B>(t, p);
        }
    }
    assert forall|q: K::V| a.dom().contains(q) implies a[q] == b[q] by {
        let i = map_of_position(t, q);
        map_of_at::<K, B>(t, i);
        map_of_at::<K, B>(s, i);
        if q == k {
            holds_at_most_once::<K, B>(s, i, p);
        }
    }
    assert(a =~= b);
}

proof fn insert_at<K: Key, B>(s: Seq<(K::V, B)>, k: K::V, v: B, p: int)
    requires
        increasing::<K, B>(s),
        0 <= p <= s.len(),
        forall|i: int| 0 <= i < p ==> K::before((#[trigger] s[i]).0, k),
        p < s.len() ==> K::before(k, s[p].0),
        !map_of(s).dom().contains(k),
    ensures
        increasing::<K, B>(s.insert(p, (k, v))),
        map_of(s.insert(p, (k, v))) == map_of(s).insert(k, v),
{
    let t = s.insert(p, (k, v));
    assert forall|i: int, j: int| 0 <= i < j < t.len() implies K::before(
        (#[trigger] t[i]).0,
        (#[trigger] t[j]).0,
    ) by {
        let oi = if i < p { i } else { i - 1 };
        let oj = if j < p { j } else { j - 1 };
        if i != p {
            assert(t[i] == s[oi]);
        }
        if j != p {
            assert(t[j] == s[oj]);
        }
        if i == p {
            if oj > p {
                assert(K::before(s[p].0, s[oj].0));
                K::before_transitive(k, s[p].0, s[oj].0);
            }
        } else if j == p {
            assert(K::before(s[i].0, k));
        } else {
            assert(K::before(s[oi].0, s[oj].0));
        }
    }
    let a = map_of(t);
    let b = map_of(s).insert(k, v);
    assert forall|q: K::V| a.dom().contains(q) == b.dom().contains(q) by {
        if a.dom().contains(q) {
            let i = map_of_position(t, q);
            if i < p {
                map_of_at::<K, B>(s, i);
            } else if i > p {
                map_of_at::<K, B>(s, i - 1);
            }
        }
        if b.dom().contains(q) && q != k {
            let i = map_of_position(s, q);
            if i < p {
                assert(t[i] == s[i]);
                map_of_at::<K, B>(t, i);
            } else {
                assert(t[i + 1] == s[i]);
                map_of_at::<K, B>(t, i + 1);
            }
        }
        if q == k {
            assert(t[p] == (k, v));
            map_of_at::<K, B>(t, p);
        }
    }
    assert forall|q: K::V| a.dom().contains(q) implies a[q] == b[q] by {
        let i = map_of_position(t, q);
        map_of_at::<K, B>(t, i);
        if i < p {
            map_of_at::<K, B>(s, i);
        } else if i > p {
            assert(t[i] == s[i - 1]);
            map_of_at::<K, B>(s, i - 1);
        }
    }
    assert(a =~= b);
}

proof fn remove_at<K: Key, B>(s: Seq<(K::V, B)>, p: int)
    requires
        increasing::<K, B>(s),
        0 <= p < s.len(),
    ensures
        increasing::<K, B>(s.remove(p)),
        map_of(s.remove(p)) == map_of(s).remove(s[p].0),
        map_of(s).dom().contains(s[p].0),
        map_of(s)[s[p].0] == s[p].1,
{
    let t = s.remove(p);
    let k = s[p].0;
    map_of_at::<K, B>(s, p);
    assert forall|i: int, j: int| 0 <= i < j < t.len() implies K::before(
        (#[trigger] t[i]).0,
        (#[trigger] t[j]).0,
    ) by {
        let oi = if i < p { i } else { i + 1 };
        let oj = if j < p { j } else { j + 1 };
        assert(t[i] == s[oi] && t[j] == s[oj]);
        assert(K::before(s[oi].0, s[oj].0));
    }
    let a = map_of(t);
    let b = map_of(s).remove(k);
    assert forall|q: K::V| a.dom().contains(q) == b.dom().contains(q) by {
        if a.dom().contains(q) {
            let i = map_of_position(t, q);
            let oi = if i < p { i } else { i + 1 };
            assert(t[i] == s[oi]);
            map_of_at::<K, B>(s, oi);
            if q == k {
                holds_at_most_once::<K, B>(s, oi, p);
            }
        }
        if b.dom().contains(q) {
            let i = map_of_position(s, q);
            let ni = if i < p { i } else { i - 1 };
            assert(t[ni] == s[i]);
            map_of_at::<K, B>(t, ni);
        }
    }
    assert forall|q: K::V| a.dom().contains(q) implies a[q] == b[q] by {
        let i = map_of_position(t, q);
        let oi = if i < p { i } else { i + 1 };
        assert(t[i] == s[oi]);
        map_of_at::<K, B>(s, oi);
    }
    assert(a =~= b);
}

/// A set that keeps its members in order.
#[derive(Debug, PartialEq, Eq)]
pub struct OrderedSet<K: Key> {
    members: OrderedMap<K, ()>,
}

impl<K: Key> DeepView for OrderedSet<K> {
    type V = Set<K::V>;

    closed spec fn deep_view(&self) -> Set<K::V> {
        self.members@.dom()
    }
}

impl<K: Key> View for OrderedSet<K> {
    type V = Set<K::V>;

    open spec fn view(&self) -> Set<K::V> {
        self.deep_view()
    }
}

/// The members of `s` by increasing order.
pub open spec fn members_in_order<K: Key>(s: Set<K::V>) -> Seq<K::V> {
    keys_in_order::<K, ()>(Map::new(|k: K::V| s.contains(k), |k: K::V| ()))
}

/// `t` holds exactly the members of `s`, each once and in order.
pub open spec fn enumerates<K: Key>(t: Seq<K::V>, s: Set<K::V>) -> bool {
    &&& forall|i: int, j: int| 0 <= i < j < t.len() ==> K::before(#[trigger] t[i], #[trigger] t[j])
    &&& forall|i: int| 0 <= i < t.len() ==> s.contains(#[trigger] t[i])
    &&& forall|k: K::V| s.contains(k) ==> t.contains(k)
}

/// A finite set has as many members as its listing.
pub proof fn members_are_counted<K: Key>(s: Set<K::V>)
    requires
        s.finite(),
    ensures
        members_in_order::<K>(s).len() == s.len(),
        members_in_order::<K>(s).no_duplicates(),
        members_in_order::<K>(s).to_set() == s,
{
    let t = members_in_order::<K>(s);
    finite_set_is_enumerated::<K>(s);
    assert forall|i: int, j: int| 0 <= i < j < t.len() implies t[i] != t[j] by {
        K::before_irreflexive(t[i]);
    }
    assert(t.no_duplicates());
    assert(t.to_set() =~= s) by {
        assert forall|k: K::V| #[trigger] t.to_set().contains(k) implies s.contains(k) by {
            assert(t.contains(k));
            assert(s.contains(t[t.index_of(k)]));
        }
    }
    t.unique_seq_to_set();
}

/// The listing of a finite map holds each of its entries once.
pub proof fn entries_are_counted<K: Key, B>(m: Map<K::V, B>)
    requires
        m.dom().finite(),
    ensures
        in_order::<K, B>(m).len() == m.dom().len(),
{
    let s = in_order::<K, B>(m);
    finite_map_is_listed::<K, B>(m);
    let names = Seq::new(s.len(), |k: int| s[k].0);
    assert forall|a: int, b: int|
        0 <= a < names.len() && 0 <= b < names.len() && a != b implies names[a] != names[b] by {
        keys_differ::<K, B>(s, a, b);
    }
    assert(names.no_duplicates());
    names.unique_seq_to_set();
    assert(names.to_set() =~= m.dom()) by {
        assert forall|x: K::V| names.to_set().contains(x) == m.dom().contains(x) by {
            if names.to_set().contains(x) {
                let k = names.index_of(x);
                map_of_at::<K, B>(s, k);
            }
            if m.dom().contains(x) {
                let k = map_of_position(s, x);
                assert(names[k] == x);
            }
        }
    }
}

impl<K: Key> OrderedSet<K> {
    /// The members of this set by increasing order.
    pub open spec fn listing(&self) -> Seq<K::V> {
        members_in_order::<K>(self@)
    }

    /// An empty set.
    pub fn new() -> (r: Self)
        ensures
            r@ == Set::<K::V>::empty(),
    {
        let r = OrderedSet { members: OrderedMap::new() };
        assert(r@ =~= Set::empty());
        r
    }

    /// The number of members.
    pub fn len(&self) -> (n: usize)
        ensures
            n == self.listing().len(),
            enumerates::<K>(self.listing(), self@),
    {
        let n: usize = self.members.len();
        proof {
            self.lemma_listing();
            let s = self.members.listing();
            let t = self.listing();
            assert forall|i: int, j: int| 0 <= i < j < t.len() implies K::before(
                #[trigger] t[i],
                #[trigger] t[j],
            ) by {
                assert(K::before(s[i].0, s[j].0));
            }
            assert forall|i: int| 0 <= i < t.len() implies self@.contains(#[trigger] t[i]) by {
                map_of_at::<K, ()>(s, i);
            }
            assert forall|k: K::V| self@.contains(k) implies t.contains(k) by {
                let i = map_of_position(s, k);
                assert(t[i] == k);
            }
        }
        n
    }

    /// Whether the set has no member.
    pub fn is_empty(&self) -> (r: bool)
        ensures
            r == (self@ == Set::<K::V>::empty()),
    {
        let r = self.members.is_empty();
        proof {
            if r {
                assert(self@ =~= Set::empty());
            } else {
                map_of_at::<K, ()>(self.members.listing(), 0);
                assert(self@.contains(self.members.listing()[0].0));
            }
        }
        r
    }

    /// The member at position `i`.
    pub fn at(&self, i: usize) -> (k: &K)
        requires
            i < self.listing().len(),
        ensures
            k.deep_view() == self.listing()[i as int],
            self@.contains(k.deep_view()),
    {
        proof {
            self.lemma_listing();
        }
        self.members.key_at(i)
    }

    proof fn lemma_listing(&self)
        ensures
            self.listing().len() == self.members.listing().len(),
            forall|i: int|
                0 <= i < self.listing().len() ==> #[trigger] self.listing()[i]
                    == self.members.listing()[i].0,
    {
        assert(Map::new(|k: K::V| self@.contains(k), |k: K::V| ()) =~= self.members@);
    }

    /// Whether `key` is a member.
    pub fn contains(&self, key: &K) -> (r: bool)
        ensures
            r == self@.contains(key.deep_view()),
    {
        self.members.contains_key(key)
    }

    /// Add `key`; whether it was not a member before.
    pub fn insert(&mut self, key: K) -> (r: bool)
        ensures
            r == !old(self)@.contains(key.deep_view()),
            final(self)@ == old(self)@.insert(key.deep_view()),
    {
        let had = self.members.insert(key, ());
        assert(self@ =~= old(self)@.insert(key.deep_view()));
        !had
    }

    /// Remove `key`; whether it was a member before.
    pub fn remove(&mut self, key: &K) -> (r: bool)
        ensures
            r == old(self)@.contains(key.deep_view()),
            final(self)@ == old(self)@.remove(key.deep_view()),
    {
        let had = self.members.remove(key);
        assert(self@ =~= old(self)@.remove(key.deep_view()));
        had.is_some()
    }
}

impl<K: Key> Duplicate for OrderedSet<K> {
    fn duplicate(&self) -> (r: Self) {
        OrderedSet { members: self.members.duplicate() }
    }
}

impl<K: Key> Clone for OrderedSet<K> {
    fn clone(&self) -> (r: Self)
        ensures
            r@ == self@,
    {
        self.duplicate()
    }
}

impl Duplicate for () {
    fn duplicate(&self) -> (r: Self) {
        ()
    }
}

impl Duplicate for bool {
    fn duplicate(&self) -> (r: Self) {
        *self
    }
}

impl Duplicate for u64 {
    fn duplicate(&self) -> (r: Self) {
        *self
    }
}

impl Duplicate for i64 {
    fn duplicate(&self) -> (r: Self) {
        *self
    }
}

impl Duplicate for u32 {
    fn duplicate(&self) -> (r: Self) {
        *self
    }
}

impl Duplicate for usize {
    fn duplicate(&self) -> (r: Self) {
        *self
    }
}

impl Duplicate for String {
    fn duplicate(&self) -> (r: Self) {
        self.clone()
    }
}

impl<T: Duplicate> Duplicate for Option<T> {
    fn duplicate(&self) -> (r: Self) {
        match self {
            Some(x) => Some(x.duplicate()),
            None => None,
        }
    }
}

impl<T: Duplicate> Duplicate for Vec<T> {
    fn duplicate(&self) -> (r: Self) {
        let mut out: Vec<T> = Vec::new();
        let mut i: usize = 0;
        while i < self.len()
            invariant
                i <= self@.len(),
                out@.len() == i,
                forall|j: int|
                    0 <= j < i ==> (#[trigger] out@[j]).deep_view() == self@[j].deep_view(),
            decreases self@.len() - i,
        {
            out.push(self[i].duplicate());
            i = i + 1;
        }
        assert(out.deep_view() =~= self.deep_view());
        out
    }
}

impl Key for String {
    open spec fn before(a: Seq<char>, b: Seq<char>) -> bool {
        text::text_before(a, b)
    }

    proof fn before_irreflexive(a: Seq<char>) {
        text::text_before_irreflexive(a);
    }

    proof fn before_transitive(a: Seq<char>, b: Seq<char>, c: Seq<char>) {
        text::text_before_transitive(a, b, c);
    }

    proof fn before_total(a: Seq<char>, b: Seq<char>) {
        text::text_before_total(a, b);
    }

    fn is_before(&self, other: &Self) -> (r: bool) {
        text::text_lt(self.as_str(), other.as_str())
    }

    fn same(&self, other: &Self) -> (r: bool) {
        text::text_eq(self.as_str(), other.as_str())
    }
}

} // verus!
