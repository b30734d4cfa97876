//! Ordered maps kept as two sorted, parallel vectors.
use vstd::prelude::*;

verus! {

/// A key of a [`SortedMap`]: a value whose view is strictly and totally ordered.
pub trait MapKey: View + Sized {
    /// The strict order of the keys.
    spec fn before(a: Self::V, b: Self::V) -> bool;

    proof fn before_irreflexive(a: Self::V)
        ensures
            !Self::before(a, a),
    ;

    proof fn before_transitive(a: Self::V, b: Self::V, c: Self::V)
        requires
            Self::before(a, b),
            Self::before(b, c),
        ensures
            Self::before(a, c),
    ;

    proof fn before_total(a: Self::V, b: Self::V)
        ensures
            a == b || Self::before(a, b) || Self::before(b, a),
    ;

    /// Whether this key comes strictly before `other`.
    fn precedes(&self, other: &Self) -> (r: bool)
        ensures
            r == Self::before(self@, other@),
    ;

    /// A key with the same view.
    fn copy_key(&self) -> (r: Self)
        ensures
            r@ == self@,
    ;
}

/// `s` lists distinct keys in increasing order.
pub open spec fn is_ordered<K: MapKey>(s: Seq<K::V>) -> bool {
    forall|i: int, j: int| 0 <= i < j < s.len() ==> K::before(#[trigger] s[i], #[trigger] s[j])
}

/// The keys of `m` in increasing order.
pub open spec fn ordered_keys<K: MapKey, T>(m: Map<K::V, T>) -> Seq<K::V> {
    choose|s: Seq<K::V>| is_ordered::<K>(s) && #[trigger] s.to_set() == m.dom()
}

/// The views of values.
pub open spec fn views<T: View>(s: Seq<T>) -> Seq<T::V> {
    Seq::new(s.len(), |i: int| s[i]@)
}

/// Two increasing listings of the same keys are the same listing.
pub proof fn lemma_ordered_unique<K: MapKey>(s: Seq<K::V>, t: Seq<K::V>)
    requires
        is_ordered::<K>(s),
        is_ordered::<K>(t),
        s.to_set() == t.to_set(),
    ensures
        s == t,
    decreases s.len(),
{
    if s.len() == 0 {
        if t.len() > 0 {
            assert(t.to_set().contains(t[0]));
            assert(s.to_set().contains(t[0]));
        }
        assert(s =~= t);
    } else {
        assert(s.to_set().contains(s[0]));
        assert(t.to_set().contains(s[0]));
        let a = s.last();
        let b = t.last();
        assert(t.to_set().contains(b) && s.to_set().contains(a));
        assert(s.contains(b) && t.contains(a));
        let i = choose|i: int| 0 <= i < s.len() && s[i] == b;
        let j = choose|j: int| 0 <= j < t.len() && t[j] == a;
        if a != b {
            assert(K::before(s[i], s[s.len() - 1]));
            assert(K::before(t[j], t[t.len() - 1]));
            K::before_transitive(a, b, a);
            K::before_irreflexive(a);
        }
        let s1 = s.drop_last();
        let t1 = t.drop_last();
        assert forall|x: K::V| s1.to_set().contains(x) <==> t1.to_set().contains(x) by {
            K::before_irreflexive(a);
            if s1.contains(x) {
                let k = choose|k: int| 0 <= k < s1.len() && s1[k] == x;
                assert(K::before(s[k], s[s.len() - 1]));
                assert(s[k] == x);
                assert(s.to_set().contains(x));
                assert(t.contains(x));
                let m = choose|m: int| 0 <= m < t.len() && t[m] == x;
                assert(m != t.len() - 1);
                assert(t1[m] == x);
            }
            if t1.contains(x) {
                let k = choose|k: int| 0 <= k < t1.len() && t1[k] == x;
                assert(K::before(t[k], t[t.len() - 1]));
                assert(t[k] == x);
                assert(t.to_set().contains(x));
                assert(s.contains(x));
                let m = choose|m: int| 0 <= m < s.len() && s[m] == x;
                assert(m != s.len() - 1);
                assert(s1[m] == x);
            }
        }
        assert(s1.to_set() =~= t1.to_set());
        lemma_ordered_unique::<K>(s1, t1);
        assert(s =~= s1.push(a));
        assert(t =~= t1.push(b));
    }
}

/// An increasing listing with one more key in its place.
spec fn listed<K: MapKey>(s: Seq<K::V>, x: K::V) -> Seq<K::V>
    decreases s.len(),
{
    if s.len() == 0 || K::before(s.last(), x) {
        s.push(x)
    } else {
        listed::<K>(s.drop_last(), x).push(s.last())
    }
}

proof fn lemma_listed<K: MapKey>(s: Seq<K::V>, x: K::V)
    requires
        is_ordered::<K>(s),
        !s.contains(x),
    ensures
        is_ordered::<K>(listed::<K>(s, x)),
        listed::<K>(s, x).to_set() == s.to_set().insert(x),
    decreases s.len(),
{
    let r = listed::<K>(s, x);
    if s.len() == 0 || K::before(s.last(), x) {
        s.lemma_push_to_set_commute(x);
        assert forall|i: int, j: int| 0 <= i < j < r.len() implies K::before(
            #[trigger] r[i],
            #[trigger] r[j],
        ) by {
            if j == s.len() && i < s.len() - 1 {
                assert(K::before(s[i], s[s.len() - 1]));
                K::before_transitive(s[i], s.last(), x);
            }
        }
    } else {
        let t = s.drop_last();
        let last = s.last();
        assert(s[s.len() - 1] == last);
        assert forall|y: K::V| t.contains(y) implies s.contains(y) by {
            let i = choose|i: int| 0 <= i < t.len() && t[i] == y;
            assert(s[i] == y);
        }
        lemma_listed::<K>(t, x);
        let u = listed::<K>(t, x);
        K::before_total(last, x);
        assert(K::before(x, last));
        assert forall|i: int, j: int| 0 <= i < j < r.len() implies K::before(
            #[trigger] r[i],
            #[trigger] r[j],
        ) by {
            if j == u.len() {
                assert(u.to_set().contains(u[i]));
                if u[i] != x {
                    assert(t.to_set().contains(u[i]));
                    let k = choose|k: int| 0 <= k < t.len() && t[k] == u[i];
                    assert(K::before(s[k], s[s.len() - 1]));
                }
            }
        }
        u.lemma_push_to_set_commute(last);
        t.lemma_push_to_set_commute(last);
        assert(s =~= t.push(last));
        assert(r.to_set() =~= s.to_set().insert(x));
    }
}

proof fn lemma_listing_exists<K: MapKey>(keys: Set<K::V>) -> (s: Seq<K::V>)
    requires
        keys.finite(),
    ensures
        is_ordered::<K>(s),
        s.to_set() == keys,
    decreases keys.len(),
{
    if keys.len() == 0 {
        let s = Seq::<K::V>::empty();
        assert(s.to_set() =~= keys);
        s
    } else {
        let x = keys.choose();
        let t = lemma_listing_exists::<K>(keys.remove(x));
        assert(!t.to_set().contains(x));
        lemma_listed::<K>(t, x);
        assert(keys =~= keys.remove(x).insert(x));
        listed::<K>(t, x)
    }
}

/// The keys of a finite map are listed each once, in increasing order.
pub proof fn lemma_ordered_keys<K: MapKey, T>(m: Map<K::V, T>)
    requires
        m.dom().finite(),
    ensures
        is_ordered::<K>(ordered_keys::<K, T>(m)),
        ordered_keys::<K, T>(m).to_set() == m.dom(),
{
    let s = lemma_listing_exists::<K>(m.dom());
    assert(is_ordered::<K>(s) && s.to_set() == m.dom());
}

/// Taking out the keys that are not to be kept leaves those that are.
pub proof fn lemma_dropped<K, T>(m: Map<K, T>, keys: Seq<K>, keep: Set<K>)
    requires
        keys.to_set() == m.dom(),
    ensures
        m.remove_keys(keys.filter(|k: K| !keep.contains(k)).to_set()) == m.restrict(keep),
{
    let test = |k: K| !keep.contains(k);
    let gone = keys.filter(test);
    assert forall|k: K| gone.to_set().contains(k) <==> m.contains_key(k) && !keep.contains(k) by {
        if gone.contains(k) {
            let i = choose|i: int| 0 <= i < gone.len() && gone[i] == k;
            assert(test(gone[i]));
            keys.lemma_filter_contains_rev(test, k);
            assert(keys.to_set().contains(k));
        }
        if m.contains_key(k) && !keep.contains(k) {
            assert(keys.to_set().contains(k));
            let i = choose|i: int| 0 <= i < keys.len() && keys[i] == k;
            assert(test(keys[i]));
            assert(gone.contains(keys[i]));
        }
    }
    assert(m.remove_keys(gone.to_set()) =~= m.restrict(keep));
}

/// A map from keys to values, listed in the order of the keys.
#[derive(Debug)]
pub struct SortedMap<K: MapKey, V: View> {
    keys: Vec<K>,
    vals: Vec<V>,
}

impl<K: MapKey, V: View> View for SortedMap<K, V> {
    type V = Map<K::V, V::V>;

    closed spec fn view(&self) -> Map<K::V, V::V> {
        let ks = self.key_views();
        Map::new(|k: K::V| ks.contains(k), |k: K::V| self.vals@[ks.index_of(k)]@)
    }
}

impl<K: MapKey, V: View> SortedMap<K, V> {
    spec fn key_views(self) -> Seq<K::V> {
        Seq::new(self.keys@.len(), |i: int| self.keys@[i]@)
    }

    #[verifier::type_invariant]
    spec fn inv(self) -> bool {
        &&& is_ordered::<K>(self.key_views())
        &&& self.keys@.len() == self.vals@.len()
    }

    /// Each listed key maps to the value beside it, and the listing is `ordered_keys`.
    proof fn lemma_listing(self)
        requires
            self.inv(),
        ensures
            ordered_keys::<K, V::V>(self@) == self.key_views(),
            forall|i: int|
                0 <= i < self.keys@.len() ==> {
                    &&& self@.contains_key(#[trigger] self.keys@[i]@)
                    &&& self@[self.keys@[i]@] == self.vals@[i]@
                },
    {
        let ks = self.key_views();
        assert forall|i: int| 0 <= i < self.keys@.len() implies {
            &&& self@.contains_key(#[trigger] self.keys@[i]@)
            &&& self@[self.keys@[i]@] == self.vals@[i]@
        } by {
            assert(ks[i] == self.keys@[i]@);
            assert(ks.contains(ks[i]));
            let j = ks.index_of(ks[i]);
            assert(ks[j] == ks[i] && 0 <= j < ks.len());
            K::before_irreflexive(ks[i]);
            if i < j {
                assert(K::before(ks[i], ks[j]));
            } else if j < i {
                assert(K::before(ks[j], ks[i]));
            }
        }
        assert(ks.to_set() =~= self@.dom());
        let o = ordered_keys::<K, V::V>(self@);
        assert(is_ordered::<K>(o) && o.to_set() == self@.dom());
        lemma_ordered_unique::<K>(o, ks);
    }

    /// The empty map.
    pub fn new() -> (r: Self)
        ensures
            r@ == Map::<K::V, V::V>::empty(),
    {
        let r = SortedMap { keys: Vec::new(), vals: Vec::new() };
        assert(r@ =~= Map::<K::V, V::V>::empty());
        r
    }

    /// The number of keys.
    pub fn len(&self) -> (r: usize)
        ensures
            r == ordered_keys::<K, V::V>(self@).len(),
    {
        proof {
            use_type_invariant(self);
            self.lemma_listing();
        }
        self.keys.len()
    }

    /// The `i`th key in order.
    pub fn key_at(&self, i: usize) -> (r: &K)
        requires
            i < ordered_keys::<K, V::V>(self@).len(),
        ensures
            r@ == ordered_keys::<K, V::V>(self@)[i as int],
            self@.contains_key(r@),
    {
        proof {
            use_type_invariant(self);
            self.lemma_listing();
        }
        &self.keys[i]
    }

    /// The value of the `i`th key in order.
    pub fn value_at(&self, i: usize) -> (r: &V)
        requires
            i < ordered_keys::<K, V::V>(self@).len(),
        ensures
            self@.contains_key(ordered_keys::<K, V::V>(self@)[i as int]),
            r@ == self@[ordered_keys::<K, V::V>(self@)[i as int]],
    {
        proof {
            use_type_invariant(self);
            self.lemma_listing();
            assert(self.key_views()[i as int] == self.keys@[i as int]@);
        }
        &self.vals[i]
    }

    /// The keys in order.
    pub fn keys(&self) -> (r: Vec<K>)
        ensures
            views(r@) == ordered_keys::<K, V::V>(self@),
            is_ordered::<K>(views(r@)),
            views(r@).to_set() == self@.dom(),
    {
        proof {
            use_type_invariant(self);
            self.lemma_listing();
        }
        let mut r: Vec<K> = Vec::new();
        for i in 0..self.keys.len()
            invariant
                views(r@) == self.key_views().take(i as int),
        {
            let ghost before = views(r@);
            let k = self.keys[i].copy_key();
            r.push(k);
            assert(views(r@) =~= before.push(self.keys@[i as int]@));
            assert(self.key_views().take(i + 1) =~= before.push(self.keys@[i as int]@));
        }
        assert(views(r@) =~= self.key_views());
        assert(self.key_views().to_set() =~= self@.dom());
        r
    }

    /// The number of keys that come strictly before `key`.
    fn rank(&self, key: &K) -> (r: usize)
        ensures
            r <= self.keys@.len(),
            forall|i: int| 0 <= i < r ==> K::before(#[trigger] self.keys@[i]@, key@),
            forall|i: int|
                r <= i < self.keys@.len() ==> !K::before(#[trigger] self.keys@[i]@, key@),
            self@.contains_key(key@) <==> (r < self.keys@.len() && self.keys@[r as int]@ == key@),
    {
        proof {
            use_type_invariant(self);
        }
        let mut i: usize = 0;
        while i < self.keys.len() && self.keys[i].precedes(key)
            invariant
                self.inv(),
                i <= self.keys@.len(),
                forall|j: int| 0 <= j < i ==> K::before(#[trigger] self.keys@[j]@, key@),
            decreases self.keys@.len() - i,
        {
            i = i + 1;
        }
        proof {
            self.lemma_listing();
            let ks = self.key_views();
            assert forall|j: int| i <= j < self.keys@.len() implies !K::before(
                #[trigger] self.keys@[j]@,
                key@,
            ) by {
                if i < j && K::before(self.keys@[j]@, key@) {
                    assert(K::before(ks[i as int], ks[j]));
                    K::before_transitive(ks[i as int], ks[j], key@);
                }
            }
            if self@.contains_key(key@) {
                let j = ks.index_of(key@);
                assert(0 <= j < ks.len() && ks[j] == key@);
                K::before_irreflexive(key@);
                assert(self.keys@[j]@ == key@);
                if i < j {
                    assert(K::before(ks[i as int], ks[j]));
                    assert(K::before(self.keys@[i as int]@, key@));
                }
            }
        }
        i
    }

    /// The position of `key`, if it is in the map.
    fn position(&self, key: &K) -> (r: Option<usize>)
        ensures
            r is Some <==> self@.contains_key(key@),
            r matches Some(i) ==> i < self.keys@.len() && self.keys@[i as int]@ == key@,
    {
        proof {
            use_type_invariant(self);
            self.lemma_listing();
        }
        let i: usize = self.rank(key);
        if i < self.keys.len() {
            proof {
                K::before_total(self.keys@[i as int]@, key@);
                K::before_irreflexive(key@);
            }
            if key.precedes(&self.keys[i]) {
                None
            } else {
                Some(i)
            }
        } else {
            None
        }
    }

    /// Whether `key` is in the map.
    pub fn contains_key(&self, key: &K) -> (r: bool)
        ensures
            r == self@.contains_key(key@),
    {
        self.position(key).is_some()
    }

    /// The value of `key`.
    pub fn get(&self, key: &K) -> (r: Option<&V>)
        ensures
            r is Some <==> self@.contains_key(key@),
            r matches Some(v) ==> v@ == self@[key@],
    {
        proof {
            use_type_invariant(self);
            self.lemma_listing();
        }
        match self.position(key) {
            Some(i) => Some(&self.vals[i]),
            None => None,
        }
    }

    /// The map with `key` and `value` put in at the rank of a key that it lacks.
    proof fn lemma_inserted(self, r: int, key: K, value: V, after: Self)
        requires
            self.inv(),
            0 <= r <= self.keys@.len(),
            forall|i: int| 0 <= i < r ==> K::before(#[trigger] self.keys@[i]@, key@),
            forall|i: int| r <= i < self.keys@.len() ==> !K::before(#[trigger] self.keys@[i]@, key@),
            !self@.contains_key(key@),
            after.keys@ == self.keys@.insert(r, key),
            after.vals@ == self.vals@.insert(r, value),
        ensures
            after.inv(),
            after@ == self@.insert(key@, value@),
    {
        self.lemma_listing();
        let a = after.key_views();
        let b = self.key_views();
        assert forall|i: int| r <= i < self.keys@.len() implies K::before(
            key@,
            #[trigger] self.keys@[i]@,
        ) by {
            K::before_total(self.keys@[i]@, key@);
            assert(b[i] == self.keys@[i]@);
            assert(b.contains(b[i]));
        }
        assert forall|i: int, j: int| 0 <= i < j < a.len() implies K::before(
            #[trigger] a[i],
            #[trigger] a[j],
        ) by {
            let i0 = if i < r { i } else { i - 1 };
            let j0 = if j < r { j } else { j - 1 };
            if i != r && j != r {
                assert(a[i] == b[i0] && a[j] == b[j0]);
            } else if i == r {
                assert(a[j] == self.keys@[j0]@);
            } else {
                assert(a[i] == self.keys@[i0]@);
            }
        }
        after.lemma_listing();
        assert forall|k: K::V| a.contains(k) <==> b.contains(k) || k == key@ by {
            if a.contains(k) {
                let i = choose|i: int| 0 <= i < a.len() && a[i] == k;
                if i < r {
                    assert(b[i] == k);
                } else if i > r {
                    assert(b[i - 1] == k);
                }
            }
            if b.contains(k) {
                let i = choose|i: int| 0 <= i < b.len() && b[i] == k;
                if i < r {
                    assert(a[i] == k);
                } else {
                    assert(a[i + 1] == k);
                }
            }
            assert(a[r] == key@);
        }
        assert(after@.dom() =~= self@.insert(key@, value@).dom());
        assert forall|k: K::V| after@.contains_key(k) implies after@[k] == #[trigger] self@.insert(
            key@,
            value@,
        )[k] by {
            let i = choose|i: int| 0 <= i < a.len() && a[i] == k;
            assert(after.keys@[i]@ == k);
            if i < r {
                assert(self.keys@[i]@ == k);
            } else if i > r {
                assert(self.keys@[i - 1]@ == k);
            }
        }
        assert(after@ =~= self@.insert(key@, value@));
    }

    /// Changing the value at one position changes the value of its key.
    proof fn lemma_updated(self, i: int, value: V, after: Self)
        requires
            self.inv(),
            0 <= i < self.keys@.len(),
            after.keys@ == self.keys@,
            after.vals@ == self.vals@.update(i, value),
        ensures
            after.inv(),
            after@ == self@.insert(self.keys@[i]@, value@),
    {
        self.lemma_listing();
        assert(after.key_views() =~= self.key_views());
        after.lemma_listing();
        let ks = self.key_views();
        assert(ks[i] == self.keys@[i]@);
        assert(ks.contains(ks[i]));
        assert forall|k: K::V| after@.contains_key(k) implies after@[k] == #[trigger] self@.insert(
            self.keys@[i]@,
            value@,
        )[k] by {
            let j = choose|j: int| 0 <= j < ks.len() && ks[j] == k;
            assert(after.keys@[j]@ == k && self.keys@[j]@ == k);
            K::before_irreflexive(k);
            if j < i {
                assert(K::before(ks[j], ks[i]));
            } else if i < j {
                assert(K::before(ks[i], ks[j]));
            }
        }
        assert(after@ =~= self@.insert(self.keys@[i]@, value@));
    }

    /// Dropping one position drops its key.
    proof fn lemma_removed(self, i: int, after: Self)
        requires
            self.inv(),
            0 <= i < self.keys@.len(),
            after.keys@ == self.keys@.remove(i),
            after.vals@ == self.vals@.remove(i),
        ensures
            after.inv(),
            after@ == self@.remove(self.keys@[i]@),
    {
        self.lemma_listing();
        let a = after.key_views();
        let b = self.key_views();
        let gone = self.keys@[i]@;
        assert(b[i] == gone);
        assert forall|x: int, y: int| 0 <= x < y < a.len() implies K::before(
            #[trigger] a[x],
            #[trigger] a[y],
        ) by {
            let x0 = if x < i { x } else { x + 1 };
            let y0 = if y < i { y } else { y + 1 };
            assert(a[x] == b[x0] && a[y] == b[y0]);
        }
        after.lemma_listing();
        K::before_irreflexive(gone);
        assert forall|k: K::V| a.contains(k) <==> b.contains(k) && k != gone by {
            if a.contains(k) {
                let x = choose|x: int| 0 <= x < a.len() && a[x] == k;
                let x0 = if x < i { x } else { x + 1 };
                assert(b[x0] == k);
                if x0 < i {
                    assert(K::before(b[x0], b[i]));
                } else {
                    assert(K::before(b[i], b[x0]));
                }
            }
            if b.contains(k) && k != gone {
                let x = choose|x: int| 0 <= x < b.len() && b[x] == k;
                if x < i {
                    assert(a[x] == k);
                } else {
                    assert(a[x - 1] == k);
                }
            }
        }
        assert(after@.dom() =~= self@.remove(gone).dom());
        assert forall|k: K::V| after@.contains_key(k) implies after@[k] == #[trigger] self@.remove(
            gone,
        )[k] by {
            let x = choose|x: int| 0 <= x < a.len() && a[x] == k;
            assert(after.keys@[x]@ == k);
            if x < i {
                assert(self.keys@[x]@ == k);
            } else {
                assert(self.keys@[x + 1]@ == k);
            }
        }
        assert(after@ =~= self@.remove(gone));
    }

    /// Sets the value of `key`.
    pub fn insert(&mut self, key: K, value: V)
        ensures
            final(self)@ == old(self)@.insert(key@, value@),
    {
        proof {
            use_type_invariant(&*self);
        }
        let at = self.position(&key);
        let r: usize = self.rank(&key);
        let ghost before = *self;
        let ghost v = value;
        let ghost k = key;
        let mut whole: SortedMap<K, V> = SortedMap::new();
        std::mem::swap(&mut whole, self);
        let SortedMap { mut keys, mut vals } = whole;
        match at {
            Some(i) => {
                vals[i] = value;
                proof {
                    before.lemma_updated(i as int, v, SortedMap { keys, vals });
                }
            },
            None => {
                keys.insert(r, key);
                vals.insert(r, value);
                proof {
                    before.lemma_inserted(r as int, k, v, SortedMap { keys, vals });
                }
            },
        }
        *self = SortedMap { keys, vals };
    }

    /// Takes `key` and its value out.
    pub fn remove(&mut self, key: &K) -> (r: Option<V>)
        ensures
            final(self)@ == old(self)@.remove(key@),
            r is Some <==> old(self)@.contains_key(key@),
            r matches Some(v) ==> v@ == old(self)@[key@],
    {
        proof {
            use_type_invariant(&*self);
            self.lemma_listing();
        }
        match self.position(key) {
            None => {
                assert(self@.remove(key@) =~= self@);
                None
            },
            Some(i) => {
                let ghost before = *self;
                let mut whole: SortedMap<K, V> = SortedMap::new();
                std::mem::swap(&mut whole, self);
                let SortedMap { mut keys, mut vals } = whole;
                let _gone = keys.remove(i);
                let value = vals.remove(i);
                proof {
                    before.lemma_removed(i as int, SortedMap { keys, vals });
                }
                *self = SortedMap { keys, vals };
                Some(value)
            },
        }
    }

    /// The value of `key`, to be changed.
    pub fn get_mut(&mut self, key: &K) -> (r: Option<&mut V>)
        ensures
            r is Some <==> old(self)@.contains_key(key@),
            r is None ==> final(self)@ == old(self)@,
            r matches Some(v) ==> (*v)@ == old(self)@[key@] && final(self)@ == old(self)@.insert(
                key@,
                (*final(v))@,
            ),
    {
        proof {
            use_type_invariant(&*self);
            self.lemma_listing();
        }
        let ghost k = key@;
        match self.position(key) {
            Some(i) => {
                let ghost before = *self;
                proof {
                    assert forall|after: Self, v: V|
                        #![trigger after.vals@, before.vals@.update(i as int, v)]
                        after.keys@ == before.keys@ && after.vals@ == before.vals@.update(
                            i as int,
                            v,
                        ) implies after.inv() && after@ == before@.insert(k, v@) by {
                        before.lemma_updated(i as int, v, after);
                    }
                }
                Some(&mut self.vals[i])
            },
            None => None,
        }
    }

    /// The value of `key`, put in as `default` where the map lacks it.
    pub fn or_insert(&mut self, key: K, default: V) -> (r: &mut V)
        ensures
            (*r)@ == (if old(self)@.contains_key(key@) {
                old(self)@[key@]
            } else {
                default@
            }),
            final(self)@ == old(self)@.insert(key@, (*final(r))@),
    {
        proof {
            use_type_invariant(&*self);
            self.lemma_listing();
        }
        let ghost start = self@;
        let ghost k = key@;
        if !self.contains_key(&key) {
            let copy = key.copy_key();
            self.insert(copy, default);
        }
        proof {
            use_type_invariant(&*self);
            self.lemma_listing();
        }
        let at = self.position(&key);
        match at {
            Some(i) => {
                let ghost before = *self;
                proof {
                    assert forall|after: Self, v: V|
                        #![trigger after.vals@, before.vals@.update(i as int, v)]
                        after.keys@ == before.keys@ && after.vals@ == before.vals@.update(
                            i as int,
                            v,
                        ) implies after.inv() && after@ == start.insert(k, v@) by {
                        before.lemma_updated(i as int, v, after);
                        assert(before@.insert(k, v@) =~= start.insert(k, v@));
                    }
                }
                &mut self.vals[i]
            },
            None => {
                proof {
                    assert(false);
                }
                vstd::pervasive::unreached()
            },
        }
    }
}

impl MapKey for u16 {
    open spec fn before(a: u16, b: u16) -> bool {
        a < b
    }

    proof fn before_irreflexive(a: u16) {
    }

    proof fn before_transitive(a: u16, b: u16, c: u16) {
    }

    proof fn before_total(a: u16, b: u16) {
    }

    fn precedes(&self, other: &u16) -> (r: bool) {
        *self < *other
    }

    fn copy_key(&self) -> (r: u16) {
        *self
    }
}

impl MapKey for u64 {
    open spec fn before(a: u64, b: u64) -> bool {
        a < b
    }

    proof fn before_irreflexive(a: u64) {
    }

    proof fn before_transitive(a: u64, b: u64, c: u64) {
    }

    proof fn before_total(a: u64, b: u64) {
    }

    fn precedes(&self, other: &u64) -> (r: bool) {
        *self < *other
    }

    fn copy_key(&self) -> (r: u64) {
        *self
    }
}

} // verus!
