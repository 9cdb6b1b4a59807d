//! A map and a set, kept as vectors in key order.

use crate::coord::{key_before, key_lt, ChunkKey};
use vstd::prelude::*;

verus! {

/// A key with a total order.
pub trait OrderedKey: Sized {
    spec fn before(self, other: Self) -> bool;

    fn lt(&self, other: &Self) -> (r: bool)
        ensures
            r == self.before(*other),
    ;

    /// The same key again.
    fn dup(&self) -> (r: Self)
        ensures
            r == *self,
    ;

    /// The order is total and strict.
    proof fn order_laws()
        ensures
            forall|a: Self| !(#[trigger] a.before(a)),
            forall|a: Self, b: Self| #![trigger a.before(b)] a == b || a.before(b) || b.before(a),
            forall|a: Self, b: Self, c: Self|
                #![trigger a.before(b), b.before(c)]
                a.before(b) && b.before(c) ==> a.before(c),
    ;
}

impl OrderedKey for ChunkKey {
    open spec fn before(self, other: Self) -> bool {
        key_before(self, other)
    }

    fn lt(&self, other: &Self) -> (r: bool) {
        key_lt(*self, *other)
    }

    fn dup(&self) -> (r: Self) {
        *self
    }

    proof fn order_laws() {
    }
}

impl OrderedKey for u32 {
    open spec fn before(self, other: Self) -> bool {
        self < other
    }

    fn lt(&self, other: &Self) -> (r: bool) {
        *self < *other
    }

    fn dup(&self) -> (r: Self) {
        *self
    }

    proof fn order_laws() {
    }
}

impl OrderedKey for u64 {
    open spec fn before(self, other: Self) -> bool {
        self < other
    }

    fn lt(&self, other: &Self) -> (r: bool) {
        *self < *other
    }

    fn dup(&self) -> (r: Self) {
        *self
    }

    proof fn order_laws() {
    }
}

/// A map from `K` to `V`. Its view is the mathematical map.
pub struct SortedMap<K: OrderedKey, V> {
    entries: Vec<(K, V)>,
}

/// A map from brick keys.
pub type KeyMap<V> = SortedMap<ChunkKey, V>;

/// A set of brick keys.
pub type KeySet = SortedSet<ChunkKey>;

/// A change to one value of a map.
pub trait Change<V> {
    /// The change can be made to `value`.
    spec fn allows(&self, value: V) -> bool;

    /// The change takes `before` to `after`.
    spec fn changes(&self, before: V, after: V) -> bool;

    fn apply(&self, value: &mut V)
        requires
            self.allows(*old(value)),
        ensures
            self.changes(*old(value), *final(value)),
    ;
}

/// Entries in strictly ascending key order, hence no key twice.
pub open spec fn ascending<K: OrderedKey, V>(s: Seq<(K, V)>) -> bool {
    forall|i: int, j: int| 0 <= i < j < s.len() ==> (#[trigger] s[i].0).before(#[trigger] s[j].0)
}

/// The map that a sequence of entries spells out.
pub open spec fn map_of<K: OrderedKey, V>(s: Seq<(K, V)>) -> Map<K, V> {
    Map::new(
        |k: K| exists|i: int| 0 <= i < s.len() && #[trigger] s[i].0 == k,
        |k: K| s[choose|i: int| 0 <= i < s.len() && #[trigger] s[i].0 == k].1,
    )
}

proof fn lemma_entry<K: OrderedKey, V>(s: Seq<(K, V)>, i: int)
    requires
        ascending(s),
        0 <= i < s.len(),
    ensures
        map_of(s).dom().contains(s[i].0),
        map_of(s)[s[i].0] == s[i].1,
{
    K::order_laws();
    let k = s[i].0;
    assert(s[i].0 == k);
    let j = choose|j: int| 0 <= j < s.len() && #[trigger] s[j].0 == k;
    if j < i {
        assert((s[j].0).before(s[i].0));
    } else if i < j {
        assert((s[i].0).before(s[j].0));
    }
}

proof fn lemma_finite<K: OrderedKey, V>(s: Seq<(K, V)>)
    requires
        ascending(s),
    ensures
        map_of(s).dom().finite(),
        map_of(s).dom().len() == s.len(),
    decreases s.len(),
{
    K::order_laws();
    let keys = Seq::new(s.len(), |i: int| s[i].0);
    assert(keys.no_duplicates()) by {
        assert forall|i: int, j: int| 0 <= i < keys.len() && 0 <= j < keys.len() && i != j implies keys[i]
            != keys[j] by {
            if i < j {
                assert((s[i].0).before(s[j].0));
            } else {
                assert((s[j].0).before(s[i].0));
            }
        }
    }
    keys.unique_seq_to_set();
    assert(keys.to_set() =~= map_of(s).dom()) by {
        assert forall|k: K| keys.to_set().contains(k) implies map_of(s).dom().contains(k) by {
            let i = choose|i: int| 0 <= i < keys.len() && keys[i] == k;
            assert(s[i].0 == k);
        }
        assert forall|k: K| map_of(s).dom().contains(k) implies keys.to_set().contains(k) by {
            let i = choose|i: int| 0 <= i < s.len() && #[trigger] s[i].0 == k;
            assert(keys[i] == k);
        }
    }
}

proof fn lemma_insert<K: OrderedKey, V>(s: Seq<(K, V)>, at: int, k: K, v: V)
    requires
        ascending(s),
        0 <= at <= s.len(),
        forall|i: int| 0 <= i < at ==> (#[trigger] s[i].0).before(k),
        forall|i: int| at <= i < s.len() ==> (k).before(#[trigger] s[i].0),
    ensures
        ascending(s.insert(at, (k, v))),
        map_of(s.insert(at, (k, v))) == map_of(s).insert(k, v),
        !map_of(s).dom().contains(k),
{
    K::order_laws();
    let t = s.insert(at, (k, v));
    assert(ascending(t));
    assert(map_of(t) =~= map_of(s).insert(k, v)) by {
        assert forall|q: K| map_of(t).dom().contains(q) <==> map_of(s).insert(k, v).dom().contains(q) by {
            if map_of(t).dom().contains(q) {
                let i = choose|i: int| 0 <= i < t.len() && #[trigger] t[i].0 == q;
                if i < at {
                    assert(s[i].0 == q);
                } else if i > at {
                    assert(s[i - 1].0 == q);
                }
            }
            if map_of(s).dom().contains(q) {
                let i = choose|i: int| 0 <= i < s.len() && #[trigger] s[i].0 == q;
                if i < at {
                    assert(t[i].0 == q);
                } else {
                    assert(t[i + 1].0 == q);
                }
            }
            assert(t[at].0 == k);
        }
        assert forall|q: K| map_of(t).dom().contains(q) implies #[trigger] map_of(t)[q] == map_of(s).insert(k, v)[q] by {
            let i = choose|i: int| 0 <= i < t.len() && #[trigger] t[i].0 == q;
            lemma_entry(t, i);
            if i < at {
                lemma_entry(s, i);
                assert(s[i] == t[i]);
            } else if i > at {
                lemma_entry(s, i - 1);
                assert(s[i - 1] == t[i]);
            }
        }
    }
}

proof fn lemma_update<K: OrderedKey, V>(s: Seq<(K, V)>, at: int, v: V)
    requires
        ascending(s),
        0 <= at < s.len(),
    ensures
        ascending(s.update(at, (s[at].0, v))),
        map_of(s.update(at, (s[at].0, v))) == map_of(s).insert(s[at].0, v),
{
    K::order_laws();
    let k = s[at].0;
    let t = s.update(at, (k, v));
    assert(forall|i: int| 0 <= i < s.len() ==> #[trigger] t[i].0 == s[i].0);
    assert(ascending(t)) by {
        assert forall|i: int, j: int| 0 <= i < j < t.len() implies (#[trigger] t[i].0).before(#[trigger] t[j].0) by {
            assert((s[i].0).before(s[j].0));
        }
    }
    assert(map_of(t) =~= map_of(s).insert(k, v)) by {
        assert forall|q: K| map_of(t).dom().contains(q) <==> map_of(s).insert(k, v).dom().contains(q) by {
            if map_of(t).dom().contains(q) {
                let i = choose|i: int| 0 <= i < t.len() && #[trigger] t[i].0 == q;
                assert(s[i].0 == q);
            }
            if map_of(s).dom().contains(q) {
                let i = choose|i: int| 0 <= i < s.len() && #[trigger] s[i].0 == q;
                assert(t[i].0 == q);
            }
            assert(t[at].0 == k);
        }
        assert forall|q: K| map_of(t).dom().contains(q) implies #[trigger] map_of(t)[q] == map_of(s).insert(k, v)[q] by {
            let i = choose|i: int| 0 <= i < t.len() && #[trigger] t[i].0 == q;
            lemma_entry(t, i);
            lemma_entry(s, i);
            if q == k {
                lemma_entry(t, at);
            } else {
                assert(i != at);
            }
        }
    }
}

proof fn lemma_remove<K: OrderedKey, V>(s: Seq<(K, V)>, at: int)
    requires
        ascending(s),
        0 <= at < s.len(),
    ensures
        ascending(s.remove(at)),
        map_of(s.remove(at)) == map_of(s).remove(s[at].0),
{
    K::order_laws();
    let k = s[at].0;
    let t = s.remove(at);
    assert(ascending(t)) by {
        assert forall|i: int, j: int| 0 <= i < j < t.len() implies (#[trigger] t[i].0).before(#[trigger] t[j].0) by {
            let a = if i < at { i } else { i + 1 };
            let b = if j < at { j } else { j + 1 };
            assert((s[a].0).before(s[b].0));
        }
    }
    assert(map_of(t) =~= map_of(s).remove(k)) by {
        assert forall|q: K| map_of(t).dom().contains(q) <==> map_of(s).remove(k).dom().contains(q) by {
            if map_of(t).dom().contains(q) {
                let i = choose|i: int| 0 <= i < t.len() && #[trigger] t[i].0 == q;
                let a = if i < at { i } else { i + 1 };
                assert(s[a].0 == q);
                if a < at {
                    assert((s[a].0).before(s[at].0));
                } else {
                    assert((s[at].0).before(s[a].0));
                }
            }
            if map_of(s).remove(k).dom().contains(q) {
                let i = choose|i: int| 0 <= i < s.len() && #[trigger] s[i].0 == q;
                assert(i != at);
                let b = if i < at { i } else { i - 1 };
                assert(t[b].0 == q);
            }
        }
        assert forall|q: K| map_of(t).dom().contains(q) implies #[trigger] map_of(t)[q] == map_of(s).remove(k)[q] by {
            let i = choose|i: int| 0 <= i < t.len() && #[trigger] t[i].0 == q;
            let a = if i < at { i } else { i + 1 };
            lemma_entry(t, i);
            lemma_entry(s, a);
            assert(s[a] == t[i]);
        }
    }
}

impl<K: OrderedKey, V> View for SortedMap<K, V> {
    type V = Map<K, V>;

    closed spec fn view(&self) -> Map<K, V> {
        map_of(self.entries@)
    }
}

impl<K: OrderedKey, V> SortedMap<K, V> {
    #[verifier::type_invariant]
    spec fn wf(self) -> bool {
        ascending(self.entries@)
    }

    pub fn new() -> (r: Self)
        ensures
            r@ == Map::<K, V>::empty(),
    {
        let r = SortedMap { entries: Vec::new() };
        proof {
            assert(r@ =~= Map::<K, V>::empty());
        }
        r
    }

    /// How many entries lie before `key`.
    fn position(&self, key: &K) -> (r: usize)
        ensures
            r <= self.entries@.len(),
            forall|i: int| 0 <= i < r ==> (#[trigger] self.entries@[i].0).before(*key),
            forall|i: int| r <= i < self.entries@.len() ==> !(#[trigger] self.entries@[i].0).before(*key),
    {
        proof {
            use_type_invariant(self);
            K::order_laws();
        }
        let mut lo: usize = 0;
        let mut hi: usize = self.entries.len();
        while lo < hi
            invariant
                lo <= hi <= self.entries@.len(),
                ascending(self.entries@),
                forall|i: int| 0 <= i < lo ==> (#[trigger] self.entries@[i].0).before(*key),
                forall|i: int| hi <= i < self.entries@.len() ==> !(#[trigger] self.entries@[i].0).before(*key),
            decreases hi - lo,
        {
            let mid: usize = lo + (hi - lo) / 2;
            proof {
                K::order_laws();
            }
            if self.entries[mid].0.lt(key) {
                proof {
                    assert forall|i: int| 0 <= i < mid + 1 implies (#[trigger] self.entries@[i].0).before(*key) by {
                        if i < mid {
                            assert((self.entries@[i].0).before(self.entries@[mid as int].0));
                        }
                    }
                }
                lo = mid + 1;
            } else {
                proof {
                    assert forall|i: int| mid <= i < self.entries@.len() implies !(#[trigger] self.entries@[i].0).before(*key) by {
                        if i > mid {
                            assert((self.entries@[mid as int].0).before(self.entries@[i].0));
                        }
                    }
                }
                hi = mid;
            }
        }
        lo
    }

    /// The index of `key`'s entry, if it has one.
    fn find(&self, key: &K) -> (r: Option<usize>)
        ensures
            match r {
                Some(i) => i < self.entries@.len() && self.entries@[i as int].0 == *key,
                None => !self@.dom().contains(*key),
            },
    {
        let at: usize = self.position(key);
        proof {
            use_type_invariant(self);
            K::order_laws();
        }
        if at < self.entries.len() && !key.lt(&self.entries[at].0) {
            Some(at)
        } else {
            proof {
                if self@.dom().contains(*key) {
                    let i = choose|i: int| 0 <= i < self.entries@.len() && #[trigger] self.entries@[i].0 == *key;
                    assert(!(*key).before(*key));
                    assert(i >= at);
                    if i > at {
                        assert((self.entries@[at as int].0).before(self.entries@[i].0));
                    }
                }
            }
            None
        }
    }

    pub fn contains_key(&self, key: K) -> (r: bool)
        ensures
            r == self@.dom().contains(key),
    {
        match self.find(&key) {
            Some(i) => {
                proof {
                    use_type_invariant(self);
                    lemma_entry(self.entries@, i as int);
                }
                true
            },
            None => false,
        }
    }

    pub fn get(&self, key: K) -> (r: Option<&V>)
        ensures
            match r {
                Some(v) => self@.dom().contains(key) && *v == self@[key],
                None => !self@.dom().contains(key),
            },
    {
        match self.find(&key) {
            Some(i) => {
                proof {
                    use_type_invariant(self);
                    lemma_entry(self.entries@, i as int);
                }
                Some(&self.entries[i].1)
            },
            None => None,
        }
    }

    pub fn len(&self) -> (r: usize)
        ensures
            self@.dom().finite(),
            r as nat == self@.dom().len(),
    {
        proof {
            use_type_invariant(self);
            lemma_finite(self.entries@);
        }
        self.entries.len()
    }

    /// Moves the entries out, leaving the map empty.
    fn take_entries(&mut self) -> (r: Vec<(K, V)>)
        ensures
            r@ == old(self).entries@,
    {
        let mut taken: SortedMap<K, V> = SortedMap::new();
        core::mem::swap(self, &mut taken);
        taken.entries
    }

    /// Binds `key` to `value`, whether or not it was bound before.
    pub fn insert(&mut self, key: K, value: V)
        ensures
            final(self)@ == old(self)@.insert(key, value),
    {
        proof {
            use_type_invariant(&*self);
            K::order_laws();
        }
        let at: usize = self.position(&key);
        let ghost s = self.entries@;
        let mut entries: Vec<(K, V)> = self.take_entries();
        if at < entries.len() && !key.lt(&entries[at].0) {
            proof {
                lemma_update(s, at as int, value);
            }
            entries[at] = (key, value);
        } else {
            proof {
                assert forall|i: int| at <= i < s.len() implies (key).before(#[trigger] s[i].0) by {
                    assert(!s[i].0.before(key));
                    if i > at {
                        assert((s[at as int].0).before(s[i].0));
                    }
                }
                lemma_insert(s, at as int, key, value);
            }
            entries.insert(at, (key, value));
        }
        *self = SortedMap { entries };
    }

    /// Changes the value that `key` is bound to, in place; tells whether it is
    /// bound.
    pub fn modify<C: Change<V>>(&mut self, key: K, change: &C) -> (r: bool)
        requires
            old(self)@.dom().contains(key) ==> change.allows(old(self)@[key]),
        ensures
            r == old(self)@.dom().contains(key),
            !r ==> final(self)@ == old(self)@,
            r ==> final(self)@.dom().contains(key) && final(self)@ == old(self)@.insert(
                key,
                final(self)@[key],
            ) && change.changes(old(self)@[key], final(self)@[key]),
    {
        match self.find(&key) {
            Some(i) => {
                let ghost s = self.entries@;
                proof {
                    use_type_invariant(&*self);
                    lemma_entry(s, i as int);
                }
                let mut entries: Vec<(K, V)> = self.take_entries();
                change.apply(&mut entries[i].1);
                proof {
                    let v = entries@[i as int].1;
                    assert(entries@ =~= s.update(i as int, (key, v)));
                    lemma_update(s, i as int, v);
                    lemma_entry(entries@, i as int);
                    assert(map_of(entries@)[key] == v);
                }
                *self = SortedMap { entries };
                true
            },
            None => false,
        }
    }

    /// Unbinds `key` and hands back what it was bound to.
    pub fn remove(&mut self, key: K) -> (r: Option<V>)
        ensures
            match r {
                Some(v) => old(self)@.dom().contains(key) && v == old(self)@[key] && final(self)@ == old(self)@.remove(key),
                None => !old(self)@.dom().contains(key) && final(self)@ == old(self)@,
            },
    {
        match self.find(&key) {
            Some(i) => {
                proof {
                    use_type_invariant(&*self);
                    lemma_entry(self.entries@, i as int);
                    lemma_remove(self.entries@, i as int);
                }
                let mut entries: Vec<(K, V)> = self.take_entries();
                let e: (K, V) = entries.remove(i);
                *self = SortedMap { entries };
                Some(e.1)
            },
            None => None,
        }
    }

    /// The bound keys, each once, in ascending order.
    pub fn keys(&self) -> (r: Vec<K>)
        ensures
            r@.to_set() == self@.dom(),
            r@.no_duplicates(),
            forall|i: int, j: int| 0 <= i < j < r@.len() ==> (#[trigger] r@[i]).before(#[trigger] r@[j]),
    {
        proof {
            use_type_invariant(self);
        }
        let mut r: Vec<K> = Vec::new();
        let mut i: usize = 0;
        while i < self.entries.len()
            invariant
                i <= self.entries@.len(),
                r@.len() == i,
                forall|k: int| 0 <= k < i ==> #[trigger] r@[k] == self.entries@[k].0,
            decreases self.entries@.len() - i,
        {
            r.push(self.entries[i].0.dup());
            i += 1;
        }
        proof {
            K::order_laws();
            assert forall|a: int, b: int| 0 <= a < b < r@.len() implies (#[trigger] r@[a]).before(#[trigger] r@[b]) by {
                assert((self.entries@[a].0).before(self.entries@[b].0));
            }
            assert(r@.to_set() =~= self@.dom()) by {
                assert forall|k: K| r@.to_set().contains(k) implies self@.dom().contains(k) by {
                    let j = choose|j: int| 0 <= j < r@.len() && r@[j] == k;
                    assert(self.entries@[j].0 == k);
                }
                assert forall|k: K| self@.dom().contains(k) implies r@.to_set().contains(k) by {
                    let j = choose|j: int| 0 <= j < self.entries@.len() && #[trigger] self.entries@[j].0 == k;
                    assert(r@[j] == k);
                }
            }
        }
        r
    }
}

/// A set of `K`. Its view is the mathematical set.
pub struct SortedSet<K: OrderedKey> {
    map: SortedMap<K, ()>,
}

impl<K: OrderedKey> View for SortedSet<K> {
    type V = Set<K>;

    closed spec fn view(&self) -> Set<K> {
        self.map@.dom()
    }
}

impl<K: OrderedKey> SortedSet<K> {
    pub fn new() -> (r: Self)
        ensures
            r@ == Set::<K>::empty(),
    {
        let r = SortedSet { map: SortedMap::new() };
        proof {
            assert(r@ =~= Set::<K>::empty());
        }
        r
    }

    pub fn contains(&self, key: K) -> (r: bool)
        ensures
            r == self@.contains(key),
    {
        self.map.contains_key(key)
    }

    pub fn len(&self) -> (r: usize)
        ensures
            self@.finite(),
            r as nat == self@.len(),
    {
        self.map.len()
    }

    /// Adds `key`; tells whether it was new.
    pub fn insert(&mut self, key: K) -> (r: bool)
        ensures
            r == !old(self)@.contains(key),
            final(self)@ == old(self)@.insert(key),
    {
        let fresh: bool = !self.map.contains_key(key.dup());
        self.map.insert(key, ());
        proof {
            assert(self@ =~= old(self)@.insert(key));
        }
        fresh
    }

    /// Takes `key` out; tells whether it was there.
    pub fn remove(&mut self, key: K) -> (r: bool)
        ensures
            r == old(self)@.contains(key),
            final(self)@ == old(self)@.remove(key),
    {
        match self.map.remove(key) {
            Some(_) => {
                proof {
                    assert(self@ =~= old(self)@.remove(key));
                }
                true
            },
            None => {
                proof {
                    assert(self@ =~= old(self)@.remove(key));
                }
                false
            },
        }
    }

    /// The members, each once, in ascending order.
    pub fn keys(&self) -> (r: Vec<K>)
        ensures
            r@.to_set() == self@,
            r@.no_duplicates(),
            forall|i: int, j: int| 0 <= i < j < r@.len() ==> (#[trigger] r@[i]).before(#[trigger] r@[j]),
    {
        self.map.keys()
    }
}

} // verus!
