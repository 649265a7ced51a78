//! A map from keys to counts that is kept as a list in key order.
//!
//! The list is the map's one representation: two maps with the same entries
//! hold the same list, and walking one visits the keys in increasing order.

use crate::text::{lemma_text_order, same_text, text_before, text_precedes};
use vstd::prelude::*;

verus! {

/// A key with a strict total order that executable code can decide.
///
/// Contracts speak of a key through its view; the order and the equality test
/// are stated over views as well.
pub trait SortKey: View + Sized {
    /// The strict order of the keys.
    spec fn before(a: Self::V, b: Self::V) -> bool;

    /// `before` is irreflexive, transitive and total.
    proof fn lemma_order(a: Self::V, b: Self::V, c: Self::V)
        ensures
            !Self::before(a, a),
            Self::before(a, b) && Self::before(b, c) ==> Self::before(a, c),
            a == b || Self::before(a, b) || Self::before(b, a),
    ;

    /// Whether `self` comes strictly before `other`.
    fn precedes(&self, other: &Self) -> (r: bool)
        ensures
            r == Self::before(self@, other@),
    ;

    /// Whether `self` and `other` are the same key.
    fn same(&self, other: &Self) -> (r: bool)
        ensures
            r == (self@ == other@),
    ;

    /// A copy of the key.
    fn duplicate(&self) -> (r: Self)
        ensures
            r@ == self@,
    ;
}

impl SortKey for String {
    open spec fn before(a: Seq<char>, b: Seq<char>) -> bool {
        text_before(a, b)
    }

    proof fn lemma_order(a: Seq<char>, b: Seq<char>, c: Seq<char>) {
        lemma_text_order(a, b, c);
    }

    fn precedes(&self, other: &Self) -> (r: bool) {
        text_precedes(self.as_str(), other.as_str())
    }

    fn same(&self, other: &Self) -> (r: bool) {
        same_text(self.as_str(), other.as_str())
    }

    fn duplicate(&self) -> (r: Self) {
        self.clone()
    }
}

/// Whether the keys of `e` strictly increase from one entry to the next.
pub open spec fn increasing<K: SortKey>(e: Seq<(K::V, u32)>) -> bool {
    forall|i: int, j: int| 0 <= i < j < e.len() ==> K::before(#[trigger] e[i].0, #[trigger] e[j].0)
}

/// Whether some entry of `e` has the key `k`.
pub open spec fn has_key<V>(e: Seq<(V, u32)>, k: V) -> bool {
    exists|i: int| 0 <= i < e.len() && (#[trigger] e[i]).0 == k
}

/// The position of an entry of `e` with the key `k`, where there is one.
pub open spec fn position<V>(e: Seq<(V, u32)>, k: V) -> int {
    choose|i: int| 0 <= i < e.len() && (#[trigger] e[i]).0 == k
}

/// The map that a list of entries stands for.
pub open spec fn listed<V>(e: Seq<(V, u32)>) -> Map<V, u32> {
    Map::new(|k: V| has_key(e, k), |k: V| e[position(e, k)].1)
}

/// In an increasing list no key occurs twice.
pub proof fn lemma_increasing_distinct<K: SortKey>(e: Seq<(K::V, u32)>)
    requires
        increasing::<K>(e),
    ensures
        forall|i: int, j: int| 0 <= i < e.len() && 0 <= j < e.len() && e[i].0 == e[j].0 ==> i == j,
        forall|i: int| 0 <= i < e.len() ==> position(e, #[trigger] e[i].0) == i,
        forall|i: int|
            0 <= i < e.len() ==> listed(e).contains_key(#[trigger] e[i].0) && listed(e)[e[i].0]
                == e[i].1,
{
    assert forall|i: int, j: int|
        0 <= i < e.len() && 0 <= j < e.len() && e[i].0 == e[j].0 implies i == j by {
        K::lemma_order(e[i].0, e[j].0, e[j].0);
    }
}

/// Without its last entry, an increasing list stands for the same map minus
/// the key of that entry.
pub proof fn lemma_listed_without_last<K: SortKey>(e: Seq<(K::V, u32)>)
    requires
        increasing::<K>(e),
        e.len() > 0,
    ensures
        increasing::<K>(e.drop_last()),
        listed(e.drop_last()) == listed(e).remove(e.last().0),
{
    let front = e.drop_last();
    let last = e.len() - 1;
    assert forall|i: int, j: int| 0 <= i < j < front.len() implies K::before(
        #[trigger] front[i].0,
        #[trigger] front[j].0,
    ) by {
        assert(front[i] == e[i] && front[j] == e[j]);
    }
    lemma_increasing_distinct::<K>(e);
    lemma_increasing_distinct::<K>(front);
    assert forall|k: K::V| has_key(front, k) <==> has_key(e, k) && k != e[last].0 by {
        if has_key(front, k) {
            let p = position(front, k);
            assert(e[p].0 == k);
        }
        if has_key(e, k) && k != e[last].0 {
            let p = position(e, k);
            assert(front[p].0 == k);
        }
    }
    assert forall|k: K::V| has_key(front, k) implies #[trigger] listed(front)[k] == listed(e)[k] by {
        let p = position(front, k);
        assert(front[p].0 == k);
        assert(e[p].0 == k);
        assert(position(e, e[p].0) == p);
    }
    assert(listed(front) =~= listed(e).remove(e[last].0));
}

/// The last key of an increasing list is the greatest of its keys.
proof fn lemma_last_is_greatest<K: SortKey>(e: Seq<(K::V, u32)>, k: K::V)
    requires
        increasing::<K>(e),
        e.len() > 0,
        has_key(e, k),
    ensures
        k == e.last().0 || K::before(k, e.last().0),
{
    let p = position(e, k);
    if p < e.len() - 1 {
        assert(K::before(e[p].0, e[e.len() - 1].0));
    }
}

/// An increasing list is determined by the map it stands for: two such lists
/// for one map are the same list.
pub proof fn lemma_listing_unique<K: SortKey>(a: Seq<(K::V, u32)>, b: Seq<(K::V, u32)>)
    requires
        increasing::<K>(a),
        increasing::<K>(b),
        listed(a) == listed(b),
    ensures
        a == b,
    decreases a.len(),
{
    if a.len() == 0 {
        if b.len() > 0 {
            assert(has_key(b, b[0].0));
            assert(listed(b).contains_key(b[0].0));
            assert(has_key(a, b[0].0));
        }
        assert(a =~= b);
    } else {
        let x = a.last();
        assert(a[a.len() - 1].0 == x.0);
        assert(has_key(a, x.0));
        assert(listed(a).contains_key(x.0));
        assert(has_key(b, x.0));
        let y = b.last();
        assert(b[b.len() - 1].0 == y.0);
        assert(has_key(b, y.0));
        assert(listed(b).contains_key(y.0));
        assert(has_key(a, y.0));
        lemma_last_is_greatest::<K>(b, x.0);
        lemma_last_is_greatest::<K>(a, y.0);
        K::lemma_order(x.0, y.0, x.0);
        assert(x.0 == y.0);
        lemma_increasing_distinct::<K>(a);
        lemma_increasing_distinct::<K>(b);
        assert(listed(a)[a[a.len() - 1].0] == x.1);
        assert(listed(b)[b[b.len() - 1].0] == y.1);
        assert(x == y);
        lemma_listed_without_last::<K>(a);
        lemma_listed_without_last::<K>(b);
        lemma_listing_unique::<K>(a.drop_last(), b.drop_last());
        assert(a =~= a.drop_last().push(x));
        assert(b =~= b.drop_last().push(y));
    }
}

/// The increasing list that stands for the map `m`.
pub open spec fn listing_of<K: SortKey>(m: Map<K::V, u32>) -> Seq<(K::V, u32)> {
    choose|e: Seq<(K::V, u32)>| increasing::<K>(e) && listed(e) == m
}

/// An increasing list is the listing of the map it stands for.
pub proof fn lemma_listing_of<K: SortKey>(e: Seq<(K::V, u32)>)
    requires
        increasing::<K>(e),
    ensures
        listing_of::<K>(listed(e)) == e,
{
    let found = listing_of::<K>(listed(e));
    assert(increasing::<K>(found) && listed(found) == listed(e));
    lemma_listing_unique::<K>(found, e);
}

/// Counts by key, listed in key order.
#[derive(Debug)]
pub struct Counts<K: SortKey> {
    items: Vec<(K, u32)>,
}

impl<K: SortKey> Counts<K> {
    /// The entries in the order in which they are kept and walked.
    pub closed spec fn entries(&self) -> Seq<(K::V, u32)> {
        self.items@.map_values(|e: (K, u32)| (e.0@, e.1))
    }

    /// The keys increase strictly along the list.
    #[verifier::type_invariant]
    pub open spec fn wf(&self) -> bool {
        increasing::<K>(self.entries())
    }

    /// The entries are the listing of the map in key order.
    pub proof fn lemma_entries_are_listing(&self)
        requires
            self.wf(),
        ensures
            self.entries() == listing_of::<K>(self@),
    {
        lemma_listing_of::<K>(self.entries());
    }

    /// Two maps with the same counts list them alike.
    pub proof fn lemma_same_counts_same_entries(&self, other: &Self)
        requires
            self.wf(),
            other.wf(),
            self@ == other@,
        ensures
            self.entries() == other.entries(),
    {
        lemma_listing_unique::<K>(self.entries(), other.entries());
    }

    /// An empty map.
    pub fn new() -> (r: Self)
        ensures
            r.entries() == Seq::<(K::V, u32)>::empty(),
            r@ == Map::<K::V, u32>::empty(),
    {
        let r = Counts { items: Vec::new() };
        assert(r.entries() =~= Seq::<(K::V, u32)>::empty());
        assert(r@ =~= Map::<K::V, u32>::empty());
        r
    }

    /// How many keys the map holds.
    pub fn len(&self) -> (n: usize)
        ensures
            n == self.entries().len(),
    {
        self.items.len()
    }

    /// The key of the entry at position `i`.
    pub fn key(&self, i: usize) -> (k: &K)
        requires
            i < self.entries().len(),
        ensures
            k@ == self.entries()[i as int].0,
    {
        &self.items[i].0
    }

    /// The count of the entry at position `i`.
    pub fn count(&self, i: usize) -> (n: u32)
        requires
            i < self.entries().len(),
        ensures
            n == self.entries()[i as int].1,
    {
        self.items[i].1
    }

    /// The count kept for `key`, if there is one.
    pub fn get(&self, key: &K) -> (r: Option<u32>)
        ensures
            r == (if self@.contains_key(key@) {
                Some(self@[key@])
            } else {
                None
            }),
    {
        proof {
            use_type_invariant(self);
            lemma_increasing_distinct::<K>(self.entries());
        }
        let mut i: usize = 0;
        while i < self.items.len()
            invariant
                i <= self.items.len(),
                self.entries().len() == self.items.len(),
                forall|j: int| 0 <= j < self.items.len() ==> self.entries()[j] == (self.items[j].0@, self.items[j].1),
                forall|j: int| 0 <= j < i ==> self.entries()[j].0 != key@,
                forall|j: int|
                    0 <= j < self.entries().len() ==> self@.contains_key(
                        #[trigger] self.entries()[j].0,
                    ) && self@[self.entries()[j].0] == self.entries()[j].1,
            decreases self.items.len() - i,
        {
            if self.items[i].0.same(key) {
                assert(self.entries()[i as int].0 == key@);
                return Some(self.items[i].1);
            }
            i += 1;
        }
        None
    }

    /// A copy of the map.
    pub fn duplicate(&self) -> (r: Self)
        ensures
            r.entries() == self.entries(),
    {
        proof {
            use_type_invariant(self);
        }
        let mut items: Vec<(K, u32)> = Vec::new();
        let mut i: usize = 0;
        while i < self.items.len()
            invariant
                i <= self.items.len(),
                items@.map_values(|e: (K, u32)| (e.0@, e.1)) == self.entries().take(i as int),
            decreases self.items.len() - i,
        {
            let ghost held = items@.map_values(|e: (K, u32)| (e.0@, e.1));
            items.push((self.items[i].0.duplicate(), self.items[i].1));
            assert(items@.map_values(|e: (K, u32)| (e.0@, e.1)) =~= held.push(
                self.entries()[i as int],
            ));
            assert(held.push(self.entries()[i as int]) =~= self.entries().take(i + 1));
            i += 1;
        }
        assert(self.entries().take(self.items.len() as int) =~= self.entries());
        Counts { items }
    }

    /// Sets the count of `key`, replacing the one it had.
    pub fn insert(&mut self, key: K, count: u32)
        ensures
            final(self)@ == old(self)@.insert(key@, count),
    {
        proof {
            use_type_invariant(&*self);
        }
        let ghost before = self.entries();
        let mut i: usize = 0;
        while i < self.items.len() && self.items[i].0.precedes(&key)
            invariant
                i <= self.items.len(),
                before == self.entries(),
                before.len() == self.items.len(),
                forall|j: int| 0 <= j < self.items.len() ==> before[j] == (self.items[j].0@, self.items[j].1),
                forall|j: int| 0 <= j < i ==> K::before(#[trigger] before[j].0, key@),
            decreases self.items.len() - i,
        {
            i += 1;
        }
        let replace = i < self.items.len() && self.items[i].0.same(&key);
        let ghost after = if replace {
            before.update(i as int, (key@, count))
        } else {
            before.insert(i as int, (key@, count))
        };
        proof {
            lemma_increasing_distinct::<K>(before);
            assert forall|a: int, b: int| 0 <= a < b < after.len() implies K::before(
                #[trigger] after[a].0,
                #[trigger] after[b].0,
            ) by {
                if replace {
                    assert(after[a].0 == before[a].0 && after[b].0 == before[b].0);
                } else {
                    let x = if a < i { a } else { a - 1 };
                    let y = if b < i { b } else { b - 1 };
                    if a != i {
                        assert(after[a] == before[x]);
                    }
                    if b != i {
                        assert(after[b] == before[y]);
                    }
                    if a == i {
                        assert(after[a].0 == key@);
                        K::lemma_order(before[i as int].0, key@, key@);
                        assert(K::before(key@, before[i as int].0));
                        if y > i {
                            assert(K::before(before[i as int].0, before[y].0));
                            K::lemma_order(key@, before[i as int].0, before[y].0);
                        }
                    } else if b == i {
                        assert(after[b].0 == key@);
                        assert(K::before(before[x].0, key@));
                    } else {
                        assert(K::before(before[x].0, before[y].0));
                    }
                }
            }
            assert forall|k: K::V| has_key(after, k) <==> k == key@ || has_key(before, k) by {
                if has_key(after, k) {
                    let p = position(after, k);
                    if !replace && p > i {
                        assert(before[p - 1].0 == k);
                    } else if p != i {
                        assert(before[p].0 == k);
                    }
                }
                if k == key@ {
                    assert(after[i as int].0 == k);
                } else if has_key(before, k) {
                    let p = position(before, k);
                    if !replace && p >= i {
                        assert(after[p + 1].0 == k);
                    } else {
                        assert(after[p].0 == k);
                    }
                }
            }
            lemma_increasing_distinct::<K>(after);
            assert forall|k: K::V| has_key(after, k) implies #[trigger] listed(after)[k] == listed(
                before,
            ).insert(key@, count)[k] by {
                if k == key@ {
                    assert(after[i as int].0 == k);
                    assert(position(after, k) == i);
                } else {
                    assert(has_key(before, k));
                    let q = position(before, k);
                    let q2 = if !replace && q >= i { q + 1 } else { q };
                    assert(after[q2] == before[q]);
                    assert(after[q2].0 == k);
                    assert(position(after, k) == q2);
                }
            }
            assert(listed(after) =~= listed(before).insert(key@, count));
        }
        let mut items: Vec<(K, u32)> = Vec::new();
        core::mem::swap(&mut self.items, &mut items);
        if replace {
            items.set(i, (key, count));
        } else {
            items.insert(i, (key, count));
        }
        assert(items@.map_values(|e: (K, u32)| (e.0@, e.1)) =~= after);
        self.items = items;
    }
}

impl<K: SortKey> View for Counts<K> {
    type V = Map<K::V, u32>;

    open spec fn view(&self) -> Map<K::V, u32> {
        listed(self.entries())
    }
}

} // verus!
