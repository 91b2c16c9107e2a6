//! A small association map kept in a vector.
//!
//! Keys are compared through [`MapKey`], so that keys whose equality is
//! structural (byte arrays, strings, integers) can be used; the map's
//! content is a mathematical `Map` from key models to value views.

use vstd::prelude::*;

verus! {

/// A key of a [`VecMap`]: it has a mathematical model, an equality test
/// that agrees with the model, and a copy operation.
pub trait MapKey: Sized {
    type Model;

    spec fn model(&self) -> Self::Model;

    fn same_key(&self, other: &Self) -> (r: bool)
        ensures
            r == (self.model() == other.model());

    fn key_copy(&self) -> (r: Self)
        ensures
            r.model() == self.model();
}

impl MapKey for i64 {
    type Model = i64;

    open spec fn model(&self) -> i64 {
        *self
    }

    fn same_key(&self, other: &Self) -> (r: bool) {
        *self == *other
    }

    fn key_copy(&self) -> (r: Self) {
        *self
    }
}

impl MapKey for (usize, usize) {
    type Model = (usize, usize);

    open spec fn model(&self) -> (usize, usize) {
        *self
    }

    fn same_key(&self, other: &Self) -> (r: bool) {
        self.0 == other.0 && self.1 == other.1
    }

    fn key_copy(&self) -> (r: Self) {
        (self.0, self.1)
    }
}

impl MapKey for String {
    type Model = Seq<char>;

    open spec fn model(&self) -> Seq<char> {
        self@
    }

    fn same_key(&self, other: &Self) -> (r: bool) {
        *self == *other
    }

    fn key_copy(&self) -> (r: Self) {
        self.clone()
    }
}

/// A validity invariant that the values held in a [`VecMap`] keep.
pub trait Inv {
    spec fn inv(&self) -> bool;
}

impl Inv for u64 {
    open spec fn inv(&self) -> bool {
        true
    }
}

impl Inv for () {
    open spec fn inv(&self) -> bool {
        true
    }
}

/// A value that can be recognised as holding nothing worth keeping.
pub trait Unused: View + Inv + Sized {
    /// The value holds nothing worth keeping.
    spec fn unused_spec(v: Self::V) -> bool;

    fn is_unused(&self) -> (r: bool)
        requires
            self.inv(),
        ensures
            r == Self::unused_spec(self@);
}

/// The content of a list of entries: later entries win (keys are unique in
/// a well-formed map, so the order does not matter).
pub open spec fn entries_map<K: MapKey, V: View>(s: Seq<(K, V)>) -> Map<K::Model, V::V>
    decreases s.len(),
{
    if s.len() == 0 {
        Map::empty()
    } else {
        entries_map(s.drop_last()).insert(s.last().0.model(), s.last().1@)
    }
}

/// No key occurs twice.
pub open spec fn keys_unique<K: MapKey, V>(s: Seq<(K, V)>) -> bool {
    forall|i: int, j: int| 0 <= i < j < s.len() ==> (#[trigger] s[i]).0.model() != (#[trigger] s[j]).0.model()
}

pub proof fn lemma_entries_map_contains<K: MapKey, V: View>(s: Seq<(K, V)>)
    requires
        keys_unique(s),
    ensures
        forall|m: K::Model| #[trigger] entries_map(s).contains_key(m)
            <==> exists|i: int| 0 <= i < s.len() && (#[trigger] s[i]).0.model() == m,
        forall|i: int| 0 <= i < s.len() ==> entries_map(s)[(#[trigger] s[i]).0.model()] == s[i].1@,
        entries_map(s).dom().finite(),
    decreases s.len(),
{
    if s.len() > 0 {
        let t = s.drop_last();
        assert forall|i: int, j: int| 0 <= i < j < t.len() implies (#[trigger] t[i]).0.model() != (#[trigger] t[j]).0.model() by {
            assert(t[i] == s[i]);
            assert(t[j] == s[j]);
        }
        lemma_entries_map_contains(t);
        assert forall|m: K::Model| #[trigger] entries_map(s).contains_key(m)
            <==> exists|i: int| 0 <= i < s.len() && (#[trigger] s[i]).0.model() == m by {
            if entries_map(s).contains_key(m) && m != s.last().0.model() {
                let i = choose|i: int| 0 <= i < t.len() && (#[trigger] t[i]).0.model() == m;
                assert(s[i] == t[i]);
            }
            if exists|i: int| 0 <= i < s.len() && (#[trigger] s[i]).0.model() == m {
                let i = choose|i: int| 0 <= i < s.len() && (#[trigger] s[i]).0.model() == m;
                if i < s.len() - 1 {
                    assert(t[i] == s[i]);
                }
            }
        }
        assert forall|i: int| 0 <= i < s.len() implies entries_map(s)[(#[trigger] s[i]).0.model()] == s[i].1@ by {
            if i < s.len() - 1 {
                assert(t[i] == s[i]);
                assert(s[i].0.model() != s[s.len() - 1].0.model());
            }
        }
    }
}

/// A list of entries with unique keys holds as many keys as entries.
pub proof fn lemma_entries_map_len<K: MapKey, V: View>(s: Seq<(K, V)>)
    requires
        keys_unique(s),
    ensures
        entries_map(s).dom().len() == s.len(),
    decreases s.len(),
{
    if s.len() > 0 {
        let t = s.drop_last();
        assert forall|i: int, j: int| 0 <= i < j < t.len() implies (#[trigger] t[i]).0.model() != (#[trigger] t[j]).0.model() by {
            assert(t[i] == s[i]);
            assert(t[j] == s[j]);
        }
        lemma_entries_map_len(t);
        lemma_entries_map_contains(t);
        let m = s.last().0.model();
        if entries_map(t).contains_key(m) {
            let i = choose|i: int| 0 <= i < t.len() && (#[trigger] t[i]).0.model() == m;
            assert(t[i] == s[i]);
        }
    }
}

/// A map from `K` to `V`, kept as a vector of entries with unique keys.
#[derive(Debug)]
pub struct VecMap<K, V> {
    entries: Vec<(K, V)>,
}

impl<K: MapKey, V: View> View for VecMap<K, V> {
    type V = Map<K::Model, V::V>;

    closed spec fn view(&self) -> Map<K::Model, V::V> {
        entries_map(self.entries@)
    }
}

impl<K: MapKey, V: View + Inv> VecMap<K, V> {
    /// The entries in storage order.
    pub closed spec fn entries(&self) -> Seq<(K, V)> {
        self.entries@
    }

    /// Keys are unique and every value keeps its invariant.
    pub closed spec fn wf(&self) -> bool {
        &&& keys_unique(self.entries@)
        &&& forall|i: int| 0 <= i < self.entries@.len() ==> (#[trigger] self.entries@[i]).1.inv()
    }

    /// Every value keeps its invariant.
    pub proof fn lemma_values_inv(&self)
        requires
            self.wf(),
        ensures
            forall|i: int| 0 <= i < self.entries().len() ==> (#[trigger] self.entries()[i]).1.inv(),
    {
    }

    /// No key occurs twice among the entries.
    pub proof fn lemma_keys_unique(&self)
        requires
            self.wf(),
        ensures
            keys_unique(self.entries()),
    {
    }

    /// The map holds as many keys as entries.
    pub proof fn lemma_len(&self)
        requires
            self.wf(),
        ensures
            self@.dom().len() == self.entries().len(),
    {
        lemma_entries_map_len(self.entries@);
    }

    pub proof fn lemma_view(&self)
        requires
            self.wf(),
        ensures
            forall|m: K::Model| #[trigger] self@.contains_key(m)
                <==> exists|i: int| 0 <= i < self.entries().len() && (#[trigger] self.entries()[i]).0.model() == m,
            forall|i: int| 0 <= i < self.entries().len() ==> self@[(#[trigger] self.entries()[i]).0.model()] == self.entries()[i].1@,
            self@.dom().finite(),
    {
        lemma_entries_map_contains(self.entries@);
        assert(self@ == entries_map(self.entries@));
        assert(self.entries() == self.entries@);
    }

    /// A map whose entries pair up with this one's, key for key, with each
    /// value the image under `f` of the value beside it, has as content this
    /// map's content with `f` applied to every value.
    pub proof fn lemma_entrywise(&self, other: &Self, f: spec_fn(V::V) -> V::V)
        requires
            self.wf(),
            other.wf(),
            other.entries().len() == self.entries().len(),
            forall|j: int| 0 <= j < self.entries().len()
                ==> (#[trigger] other.entries()[j]).0.model() == self.entries()[j].0.model()
                    && other.entries()[j].1@ == f(self.entries()[j].1@),
        ensures
            other@ == self@.map_values(f),
    {
        self.lemma_view();
        other.lemma_view();
        let target = self@.map_values(f);
        assert forall|k: K::Model| #[trigger] other@.contains_key(k) <==> target.contains_key(k) by {
            if other@.contains_key(k) {
                let j = choose|j: int| 0 <= j < other.entries().len() && (#[trigger] other.entries()[j]).0.model() == k;
                assert(self.entries()[j].0.model() == k);
            }
            if self@.contains_key(k) {
                let j = choose|j: int| 0 <= j < self.entries().len() && (#[trigger] self.entries()[j]).0.model() == k;
                assert(other.entries()[j].0.model() == k);
            }
        }
        assert forall|k: K::Model| other@.contains_key(k) implies #[trigger] other@[k] == target[k] by {
            let j = choose|j: int| 0 <= j < other.entries().len() && (#[trigger] other.entries()[j]).0.model() == k;
            assert(self.entries()[j].0.model() == k);
            assert(other@[other.entries()[j].0.model()] == other.entries()[j].1@);
            assert(self@[self.entries()[j].0.model()] == self.entries()[j].1@);
        }
        assert(other@ =~= target);
    }

    /// An empty map.
    pub fn new() -> (r: Self)
        ensures
            r.wf(),
            r@ == Map::<K::Model, V::V>::empty(),
            r.entries().len() == 0,
    {
        VecMap { entries: Vec::new() }
    }

    /// The number of entries.
    pub fn len(&self) -> (r: usize)
        ensures
            r == self.entries().len(),
    {
        self.entries.len()
    }

    /// True when the map has no entry.
    pub fn is_empty(&self) -> (r: bool)
        requires
            self.wf(),
        ensures
            r == (self.entries().len() == 0),
            r == (self@ == Map::<K::Model, V::V>::empty()),
    {
        proof {
            self.lemma_view();
            if self.entries@.len() > 0 {
                assert(self.entries()[0] == self.entries@[0]);
                assert(self@.contains_key(self.entries()[0].0.model()));
            } else {
                assert(self@ =~= Map::<K::Model, V::V>::empty());
            }
        }
        self.entries.len() == 0
    }

    /// The position of the entry for `k`.
    pub fn find(&self, k: &K) -> (r: Option<usize>)
        requires
            self.wf(),
        ensures
            match r {
                Some(i) => i < self.entries().len() && self.entries()[i as int].0.model() == k.model(),
                None => !self@.contains_key(k.model()),
            },
            r is Some <==> self@.contains_key(k.model()),
    {
        proof {
            self.lemma_view();
        }
        let n = self.entries.len();
        let mut i: usize = 0;
        while i < n
            invariant
                n == self.entries@.len(),
                i <= n,
                self.wf(),
                forall|j: int| 0 <= j < i ==> (#[trigger] self.entries@[j]).0.model() != k.model(),
            decreases n - i,
        {
            if self.entries[i].0.same_key(k) {
                proof {
                    self.lemma_view();
                    assert(self.entries()[i as int].0.model() == k.model());
                }
                return Some(i);
            }
            i = i + 1;
        }
        None
    }

    /// The value for `k`, if any.
    pub fn get(&self, k: &K) -> (r: Option<&V>)
        requires
            self.wf(),
        ensures
            r is Some <==> self@.contains_key(k.model()),
            r matches Some(v) ==> v@ == self@[k.model()] && v.inv(),
    {
        match self.find(k) {
            Some(i) => {
                proof {
                    self.lemma_view();
                }
                Some(&self.entries[i].1)
            },
            None => None,
        }
    }

    /// The key stored at position `i`.
    pub fn key_at(&self, i: usize) -> (r: &K)
        requires
            i < self.entries().len(),
        ensures
            *r == self.entries()[i as int].0,
    {
        &self.entries[i].0
    }

    /// The value stored at position `i`.
    pub fn value_at(&self, i: usize) -> (r: &V)
        requires
            i < self.entries().len(),
        ensures
            *r == self.entries()[i as int].1,
    {
        &self.entries[i].1
    }

    /// Mutable access to the value stored at position `i`.
    pub fn value_at_mut(&mut self, i: usize) -> (r: &mut V)
        requires
            old(self).wf(),
            i < old(self).entries().len(),
        ensures
            *r == old(self).entries()[i as int].1,
            final(self).entries() == old(self).entries().update(
                i as int,
                (old(self).entries()[i as int].0, *final(r)),
            ),
            final(self)@ == old(self)@.insert(old(self).entries()[i as int].0.model(), (*final(r))@),
            (*final(r)).inv() ==> final(self).wf(),
    {
        let ghost s0 = self.entries@;
        let r = &mut self.entries[i].1;
        proof {
            Self::lemma_update(s0, i as int, *final(r));
        }
        r
    }

    /// Changing one value keeps the keys unique and changes the content at
    /// that key only.
    pub proof fn lemma_update(s: Seq<(K, V)>, i: int, v: V)
        requires
            keys_unique(s),
            0 <= i < s.len(),
        ensures
            keys_unique(s.update(i, (s[i].0, v))),
            entries_map(s.update(i, (s[i].0, v))) == entries_map(s).insert(s[i].0.model(), v@),
    {
        let t = s.update(i, (s[i].0, v));
        assert(t.len() == s.len());
        assert forall|a: int, b: int| 0 <= a < b < t.len() implies (#[trigger] t[a]).0.model() != (#[trigger] t[b]).0.model() by {
            assert(s[a].0.model() != s[b].0.model());
            assert(t[a].0 == s[a].0);
            assert(t[b].0 == s[b].0);
        }
        lemma_entries_map_contains(s);
        lemma_entries_map_contains(t);
        let m1 = entries_map(t);
        let m2 = entries_map(s).insert(s[i].0.model(), v@);
        assert forall|m: K::Model| #[trigger] m1.contains_key(m) implies m2.contains_key(m) by {
            let j = choose|j: int| 0 <= j < t.len() && (#[trigger] t[j]).0.model() == m;
            assert(t[j].0 == s[j].0);
            assert(s[j].0.model() == m);
            assert(entries_map(s).contains_key(m));
        }
        assert forall|m: K::Model| #[trigger] m2.contains_key(m) implies m1.contains_key(m) by {
            if m == s[i].0.model() {
                assert(t[i].0 == s[i].0);
                assert(t[i].0.model() == m);
            } else {
                assert(entries_map(s).contains_key(m));
                let j = choose|j: int| 0 <= j < s.len() && (#[trigger] s[j]).0.model() == m;
                assert(t[j].0 == s[j].0);
                assert(t[j].0.model() == m);
            }
        }
        assert forall|m: K::Model| m1.contains_key(m) implies #[trigger] m1[m] == m2[m] by {
            let j = choose|j: int| 0 <= j < t.len() && (#[trigger] t[j]).0.model() == m;
            assert(m1[t[j].0.model()] == t[j].1@);
            if j != i {
                assert(t[j] == s[j]);
                assert(entries_map(s)[s[j].0.model()] == s[j].1@);
            }
        }
        assert(m1 =~= m2);
    }

    /// The value for `k`, inserting `default` first when `k` is absent.
    pub fn entry_or_insert(&mut self, k: K, default: V) -> (r: &mut V)
        requires
            old(self).wf(),
            default.inv(),
        ensures
            (*r).inv(),
            (*final(r)).inv() ==> final(self).wf(),
            (*r)@ == if old(self)@.contains_key(k.model()) { old(self)@[k.model()] } else { default@ },
            final(self)@ == old(self)@.insert(k.model(), (*final(r))@),
    {
        match self.find(&k) {
            Some(i) => {
                proof {
                    self.lemma_view();
                    let ghost s = self.entries@;
                }
                let r = self.value_at_mut(i);
                r
            },
            None => {
                let ghost s0 = self.entries@;
                self.entries.push((k, default));
                proof {
                    lemma_entries_map_contains(s0);
                    let t = self.entries@;
                    assert forall|a: int, b: int| 0 <= a < b < t.len() implies (#[trigger] t[a]).0.model() != (#[trigger] t[b]).0.model() by {
                        if b == t.len() - 1 {
                            assert(t[a] == s0[a]);
                        } else {
                            assert(t[a] == s0[a]);
                            assert(t[b] == s0[b]);
                        }
                    }
                    assert(t.drop_last() =~= s0);
                }
                let n = self.entries.len();
                let ghost s1 = self.entries@;
                assert(self.wf()) by {
                    assert forall|i: int| 0 <= i < s1.len() implies (#[trigger] s1[i]).1.inv() by {
                        if i < s1.len() - 1 {
                            assert(s1[i] == s0[i]);
                        }
                    }
                }
                let r = self.value_at_mut(n - 1);
                proof {
                    assert(s1.drop_last() =~= s0);
                }
                r
            },
        }
    }

    /// Removing one entry keeps the keys unique and removes that key.
    pub proof fn lemma_remove(s: Seq<(K, V)>, i: int)
        requires
            keys_unique(s),
            0 <= i < s.len(),
        ensures
            keys_unique(s.remove(i)),
            entries_map(s.remove(i)) == entries_map(s).remove(s[i].0.model()),
    {
        let t = s.remove(i);
        assert forall|a: int, b: int| 0 <= a < b < t.len() implies (#[trigger] t[a]).0.model() != (#[trigger] t[b]).0.model() by {
            let a2 = if a < i { a } else { a + 1 };
            let b2 = if b < i { b } else { b + 1 };
            assert(t[a] == s[a2]);
            assert(t[b] == s[b2]);
            assert(s[a2].0.model() != s[b2].0.model());
        }
        lemma_entries_map_contains(s);
        lemma_entries_map_contains(t);
        let m1 = entries_map(t);
        let m2 = entries_map(s).remove(s[i].0.model());
        assert forall|m: K::Model| #[trigger] m1.contains_key(m) implies m2.contains_key(m) by {
            let j = choose|j: int| 0 <= j < t.len() && (#[trigger] t[j]).0.model() == m;
            let j2 = if j < i { j } else { j + 1 };
            assert(t[j] == s[j2]);
            assert(s[j2].0.model() != s[i].0.model());
            assert(entries_map(s).contains_key(s[j2].0.model()));
        }
        assert forall|m: K::Model| #[trigger] m2.contains_key(m) implies m1.contains_key(m) by {
            let j = choose|j: int| 0 <= j < s.len() && (#[trigger] s[j]).0.model() == m;
            assert(j != i);
            let j2 = if j < i { j } else { j - 1 };
            assert(t[j2] == s[j]);
            assert(t[j2].0.model() == m);
        }
        assert forall|m: K::Model| m1.contains_key(m) implies #[trigger] m1[m] == m2[m] by {
            let j = choose|j: int| 0 <= j < t.len() && (#[trigger] t[j]).0.model() == m;
            let j2 = if j < i { j } else { j + 1 };
            assert(t[j] == s[j2]);
            assert(m1[t[j].0.model()] == t[j].1@);
            assert(entries_map(s)[s[j2].0.model()] == s[j2].1@);
        }
        assert(m1 =~= m2);
    }

    /// Removes the entry at position `i` and returns it.
    pub fn remove_at(&mut self, i: usize) -> (r: (K, V))
        requires
            old(self).wf(),
            i < old(self).entries().len(),
        ensures
            final(self).wf(),
            r == old(self).entries()[i as int],
            final(self).entries() == old(self).entries().remove(i as int),
            final(self)@ == old(self)@.remove(r.0.model()),
    {
        let ghost s0 = self.entries@;
        proof {
            Self::lemma_remove(s0, i as int);
        }
        let r = self.entries.remove(i);
        assert forall|j: int| 0 <= j < self.entries@.len() implies (#[trigger] self.entries@[j]).1.inv() by {
            if j < i {
                assert(self.entries@[j] == s0[j]);
            } else {
                assert(self.entries@[j] == s0[j + 1]);
            }
        }
        r
    }

    /// Removes the entry for `k` and returns its value, if there was one.
    pub fn remove(&mut self, k: &K) -> (r: Option<V>)
        requires
            old(self).wf(),
        ensures
            final(self).wf(),
            final(self)@ == old(self)@.remove(k.model()),
            r is Some <==> old(self)@.contains_key(k.model()),
            r matches Some(v) ==> v@ == old(self)@[k.model()],
    {
        match self.find(k) {
            Some(i) => {
                proof {
                    self.lemma_view();
                }
                let (_, v) = self.remove_at(i);
                Some(v)
            },
            None => {
                assert(self@.remove(k.model()) =~= self@);
                None
            },
        }
    }

    /// Sets the value for `k` and returns the value it replaced, if any.
    pub fn insert(&mut self, k: K, v: V) -> (r: Option<V>)
        requires
            old(self).wf(),
            v.inv(),
        ensures
            final(self).wf(),
            final(self)@ == old(self)@.insert(k.model(), v@),
            r is Some <==> old(self)@.contains_key(k.model()),
            r matches Some(p) ==> p@ == old(self)@[k.model()],
    {
        let prev = self.remove(&k);
        let ghost s0 = self.entries@;
        proof {
            lemma_entries_map_contains(s0);
        }
        self.entries.push((k, v));
        proof {
            let t = self.entries@;
            assert forall|a: int, b: int| 0 <= a < b < t.len() implies (#[trigger] t[a]).0.model() != (#[trigger] t[b]).0.model() by {
                assert(t[a] == s0[a]);
                if b < t.len() - 1 {
                    assert(t[b] == s0[b]);
                } else {
                    assert(entries_map(s0).contains_key(s0[a].0.model()));
                }
            }
            assert(t.drop_last() =~= s0);
            assert(self@ =~= old(self)@.insert(k.model(), v@));
            assert forall|i: int| 0 <= i < t.len() implies (#[trigger] t[i]).1.inv() by {
                if i < t.len() - 1 {
                    assert(t[i] == s0[i]);
                }
            }
        }
        prev
    }
}

/// The keys of `m` whose value holds nothing worth keeping.
pub open spec fn unused_keys<K, V: Unused>(m: Map<K, V::V>) -> Set<K> {
    m.dom().filter(|k: K| V::unused_spec(m[k]))
}

impl<K: MapKey, V: View + Inv + Unused> VecMap<K, V> {
    /// Drops every entry whose value holds nothing worth keeping.
    pub fn drop_unused(&mut self)
        requires
            old(self).wf(),
        ensures
            final(self).wf(),
            final(self)@ == old(self)@.remove_keys(unused_keys::<K::Model, V>(old(self)@)),
    {
        let ghost orig = self.entries@;
        let ghost m0 = self@;
        proof {
            self.lemma_view();
        }
        let mut i = self.entries.len();
        let ghost gone: Set<K::Model> = Set::empty();
        assert(self@ =~= m0.remove_keys(gone));
        while i > 0
            invariant
                self.wf(),
                i <= self.entries@.len(),
                orig.len() <= usize::MAX,
                i <= orig.len(),
                self.entries@.take(i as int) == orig.take(i as int),
                keys_unique(orig),
                m0 == entries_map(orig),
                self@ == m0.remove_keys(gone),
                forall|k: K::Model| gone.contains(k) <==> exists|j: int|
                    i <= j < orig.len() && (#[trigger] orig[j]).0.model() == k && V::unused_spec(orig[j].1@),
            decreases i,
        {
            let ghost before = self.entries@;
            assert(before[i - 1] == orig[i - 1]) by {
                assert(before.take(i as int)[i - 1] == orig.take(i as int)[i - 1]);
            }
            proof {
                self.lemma_values_inv();
            }
            let unused = self.entries[i - 1].1.is_unused();
            if unused {
                proof {
                    Self::lemma_remove(before, i - 1);
                }
                self.entries.remove(i - 1);
                proof {
                    assert forall|j: int| 0 <= j < self.entries@.len() implies (#[trigger] self.entries@[j]).1.inv() by {
                        if j < i - 1 {
                            assert(self.entries@[j] == before[j]);
                        } else {
                            assert(self.entries@[j] == before[j + 1]);
                        }
                    }
                    let k = orig[i - 1].0.model();
                    gone = gone.insert(k);
                    assert(self.entries@.take(i - 1) =~= orig.take(i - 1)) by {
                        assert forall|j: int| 0 <= j < i - 1 implies self.entries@[j] == orig[j] by {
                            assert(self.entries@[j] == before[j]);
                            assert(before.take(i as int)[j] == orig.take(i as int)[j]);
                        }
                    }
                    assert(self@ =~= m0.remove_keys(gone));
                    assert forall|k2: K::Model| gone.contains(k2) <==> exists|j: int|
                        i - 1 <= j < orig.len() && (#[trigger] orig[j]).0.model() == k2 && V::unused_spec(orig[j].1@) by {
                        if k2 == k {
                            assert(orig[i - 1].0.model() == k2);
                        }
                    }
                }
            } else {
                proof {
                    assert(self.entries@.take(i - 1) =~= orig.take(i - 1)) by {
                        assert forall|j: int| 0 <= j < i - 1 implies self.entries@[j] == orig[j] by {
                            assert(before.take(i as int)[j] == orig.take(i as int)[j]);
                        }
                    }
                    assert forall|k2: K::Model| gone.contains(k2) <==> exists|j: int|
                        i - 1 <= j < orig.len() && (#[trigger] orig[j]).0.model() == k2 && V::unused_spec(orig[j].1@) by {
                        if exists|j: int| i - 1 <= j < orig.len() && (#[trigger] orig[j]).0.model() == k2 && V::unused_spec(orig[j].1@) {
                            let j = choose|j: int| i - 1 <= j < orig.len() && (#[trigger] orig[j]).0.model() == k2 && V::unused_spec(orig[j].1@);
                            if j == i - 1 {
                                assert(false);
                            }
                        }
                    }
                }
            }
            i = i - 1;
        }
        proof {
            lemma_entries_map_contains(orig);
            let u = unused_keys::<K::Model, V>(m0);
            assert forall|k: K::Model| gone.contains(k) <==> u.contains(k) by {
                if gone.contains(k) {
                    let j = choose|j: int| 0 <= j < orig.len() && (#[trigger] orig[j]).0.model() == k && V::unused_spec(orig[j].1@);
                    assert(m0[orig[j].0.model()] == orig[j].1@);
                }
                if u.contains(k) {
                    let j = choose|j: int| 0 <= j < orig.len() && (#[trigger] orig[j]).0.model() == k;
                    assert(m0[orig[j].0.model()] == orig[j].1@);
                }
            }
            assert(gone =~= u);
        }
    }
}

} // verus!
