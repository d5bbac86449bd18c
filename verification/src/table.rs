//! A map from texts to values that hands its entries out in the order of their keys.
use vstd::prelude::*;

use crate::text::{rank, Rank};

verus! {

/// Whether texts stand in strictly increasing order.
pub open spec fn increasing(keys: Seq<Seq<char>>) -> bool {
    forall|i: int, j: int|
        0 <= i < j < keys.len() ==> crate::text::text_less(#[trigger] keys[i], #[trigger] keys[j])
}

/// Whether `keys` are the members of `dom`, each once, in increasing order.
pub open spec fn lists_keys(keys: Seq<Seq<char>>, dom: Set<Seq<char>>) -> bool {
    &&& increasing(keys)
    &&& forall|i: int| 0 <= i < keys.len() ==> dom.contains(#[trigger] keys[i])
    &&& forall|k: Seq<char>| #[trigger] dom.contains(k) ==> keys.contains(k)
}

/// The keys of a list of entries.
pub open spec fn keys_of<T>(s: Seq<(Seq<char>, T)>) -> Seq<Seq<char>> {
    s.map_values(|e: (Seq<char>, T)| e.0)
}

/// Whether `s` are the entries of `m`, each once, in the increasing order of their keys.
pub open spec fn lists<T>(s: Seq<(Seq<char>, T)>, m: Map<Seq<char>, T>) -> bool {
    &&& lists_keys(keys_of(s), m.dom())
    &&& forall|i: int| 0 <= i < s.len() ==> m[(#[trigger] s[i]).0] == s[i].1
}

/// The entries of a map in the increasing order of their keys.
pub open spec fn listing<T>(m: Map<Seq<char>, T>) -> Seq<(Seq<char>, T)> {
    choose|s: Seq<(Seq<char>, T)>| lists(s, m)
}

/// Entries that list a map are its listing.
pub proof fn lemma_listing<T>(s: Seq<(Seq<char>, T)>, m: Map<Seq<char>, T>)
    requires
        lists(s, m),
    ensures
        s == listing(m),
{
    lemma_lists_unique(s, listing(m), m);
}

/// A list of entries with one more, in the place of its key.
pub open spec fn insert_entry<T>(s: Seq<(Seq<char>, T)>, key: Seq<char>, value: T) -> Seq<
    (Seq<char>, T),
>
    decreases s.len(),
{
    if s.len() == 0 || crate::text::text_less(s.last().0, key) {
        s.push((key, value))
    } else {
        insert_entry(s.drop_last(), key, value).push(s.last())
    }
}

proof fn lemma_insert_entry<T>(s: Seq<(Seq<char>, T)>, key: Seq<char>, value: T)
    requires
        increasing(keys_of(s)),
        forall|i: int| 0 <= i < s.len() ==> (#[trigger] s[i]).0 != key,
    ensures
        ({
            let t = insert_entry(s, key, value);
            &&& increasing(keys_of(t))
            &&& t.contains((key, value))
            &&& forall|e: (Seq<char>, T)| #[trigger] s.contains(e) ==> t.contains(e)
            &&& forall|i: int|
                0 <= i < t.len() ==> (#[trigger] t[i]) == (key, value) || s.contains(t[i])
        }),
    decreases s.len(),
{
    let t = insert_entry(s, key, value);
    let keys = keys_of(s);
    if s.len() == 0 || crate::text::text_less(s.last().0, key) {
        assert(t[s.len() as int] == (key, value));
        assert forall|e: (Seq<char>, T)| #[trigger] s.contains(e) implies t.contains(e) by {
            let i = choose|i: int| 0 <= i < s.len() && s[i] == e;
            assert(t[i] == e);
        }
        assert forall|i: int, j: int|
            0 <= i < j < keys_of(t).len() implies crate::text::text_less(
            #[trigger] keys_of(t)[i],
            #[trigger] keys_of(t)[j],
        ) by {
            assert(keys_of(t)[i] == keys[i]);
            if j == s.len() {
                if i < s.len() - 1 {
                    assert(crate::text::text_less(keys[i], keys[s.len() - 1]));
                    crate::text::lemma_less_transitive(keys[i], keys[s.len() - 1], key);
                }
            } else {
                assert(keys_of(t)[j] == keys[j]);
            }
        }
        assert forall|i: int| 0 <= i < t.len() implies (#[trigger] t[i]) == (key, value)
            || s.contains(t[i]) by {
            if i < s.len() {
                assert(s[i] == t[i]);
            }
        }
    } else {
        let u = s.drop_last();
        assert(keys_of(u) =~= keys.drop_last());
        lemma_insert_entry(u, key, value);
        let v = insert_entry(u, key, value);
        let last = s.last();
        crate::text::lemma_less_total(last.0, key);
        assert(s[s.len() - 1].0 != key);
        assert(t[v.len() as int] == last);
        let w = choose|w: int| 0 <= w < v.len() && v[w] == (key, value);
        assert(t[w] == (key, value));
        assert forall|e: (Seq<char>, T)| #[trigger] s.contains(e) implies t.contains(e) by {
            let i = choose|i: int| 0 <= i < s.len() && s[i] == e;
            if i < u.len() {
                assert(u[i] == e);
                assert(u.contains(e));
                let j = choose|j: int| 0 <= j < v.len() && v[j] == e;
                assert(t[j] == e);
            }
        }
        assert forall|i: int| 0 <= i < t.len() implies (#[trigger] t[i]) == (key, value)
            || s.contains(t[i]) by {
            if i < v.len() {
                assert(t[i] == v[i]);
                if v[i] != (key, value) {
                    let j = choose|j: int| 0 <= j < u.len() && u[j] == v[i];
                    assert(s[j] == v[i]);
                }
            } else {
                assert(s[s.len() - 1] == last);
            }
        }
        assert forall|i: int, j: int|
            0 <= i < j < keys_of(t).len() implies crate::text::text_less(
            #[trigger] keys_of(t)[i],
            #[trigger] keys_of(t)[j],
        ) by {
            assert(keys_of(t)[i] == keys_of(v)[i]);
            if j < v.len() {
                assert(keys_of(t)[j] == keys_of(v)[j]);
            } else {
                assert(v[i] == (key, value) || u.contains(v[i]));
                if v[i] != (key, value) {
                    let m = choose|m: int| 0 <= m < u.len() && u[m] == v[i];
                    assert(keys[m] == v[i].0);
                    assert(crate::text::text_less(keys[m], keys[s.len() - 1]));
                }
            }
        }
    }
}

/// A finite map has a listing.
pub proof fn lemma_listing_exists<T>(m: Map<Seq<char>, T>)
    requires
        m.dom().finite(),
    ensures
        lists(listing(m), m),
    decreases m.dom().len(),
{
    if m.dom().len() == 0 {
        let s = Seq::<(Seq<char>, T)>::empty();
        assert(m.dom() =~= Set::empty());
        assert(keys_of(s) =~= Seq::<Seq<char>>::empty());
        assert(lists(s, m));
    } else {
        let key = m.dom().choose();
        assert(m.dom().contains(key));
        let fewer = m.remove(key);
        assert(fewer.dom() =~= m.dom().remove(key));
        lemma_listing_exists(fewer);
        let s = listing(fewer);
        let keys = keys_of(s);
        assert forall|i: int| 0 <= i < s.len() implies (#[trigger] s[i]).0 != key by {
            assert(keys[i] == s[i].0);
            assert(fewer.dom().contains(keys[i]));
        }
        lemma_insert_entry(s, key, m[key]);
        let t = insert_entry(s, key, m[key]);
        assert(lists(t, m)) by {
            let tkeys = keys_of(t);
            assert forall|i: int| 0 <= i < t.len() implies m.dom().contains(#[trigger] t[i].0)
                && m[t[i].0] == t[i].1 by {
                if t[i] != (key, m[key]) {
                    let j = choose|j: int| 0 <= j < s.len() && s[j] == t[i];
                    assert(keys[j] == s[j].0);
                    assert(fewer.dom().contains(keys[j]));
                    assert(fewer[s[j].0] == s[j].1);
                }
            }
            assert forall|i: int| 0 <= i < tkeys.len() implies m.dom().contains(
                #[trigger] tkeys[i],
            ) by {
                assert(tkeys[i] == t[i].0);
            }
            assert forall|k: Seq<char>| #[trigger] m.dom().contains(k) implies tkeys.contains(k) by {
                if k == key {
                    let j = choose|j: int| 0 <= j < t.len() && t[j] == (key, m[key]);
                    assert(tkeys[j] == key);
                } else {
                    assert(fewer.dom().contains(k));
                    let j = choose|j: int| 0 <= j < keys.len() && keys[j] == k;
                    assert(s.contains(s[j]));
                    let n = choose|n: int| 0 <= n < t.len() && t[n] == s[j];
                    assert(tkeys[n] == k);
                }
            }
        }
    }
}

/// The keys of a listing are all different.
pub proof fn lemma_increasing_distinct(keys: Seq<Seq<char>>)
    requires
        increasing(keys),
    ensures
        keys.no_duplicates(),
{
    assert forall|i: int, j: int| 0 <= i < keys.len() && 0 <= j < keys.len() && i != j implies keys[i]
        != keys[j] by {
        crate::text::lemma_less_irreflexive(keys[i]);
        if i < j {
            assert(crate::text::text_less(keys[i], keys[j]));
        } else {
            assert(crate::text::text_less(keys[j], keys[i]));
        }
    }
}

/// There is one list of the members of a set in increasing order.
pub proof fn lemma_lists_keys_unique(a: Seq<Seq<char>>, b: Seq<Seq<char>>, dom: Set<Seq<char>>)
    requires
        lists_keys(a, dom),
        lists_keys(b, dom),
    ensures
        a == b,
    decreases a.len(),
{
    if a.len() == 0 {
        if b.len() > 0 {
            assert(dom.contains(b[0]));
            assert(a.contains(b[0]));
        }
        assert(a =~= b);
    } else {
        assert(dom.contains(a[0]));
        assert(b.contains(a[0]));
        assert(dom.contains(b[0]));
        assert(a.contains(b[0]));
        if a[0] != b[0] {
            let i = choose|i: int| 0 <= i < b.len() && b[i] == a[0];
            let j = choose|j: int| 0 <= j < a.len() && a[j] == b[0];
            assert(crate::text::text_less(b[0], b[i]));
            assert(crate::text::text_less(a[0], a[j]));
            crate::text::lemma_less_transitive(a[0], b[0], a[0]);
            crate::text::lemma_less_irreflexive(a[0]);
        }
        let x = a.drop_first();
        let y = b.drop_first();
        let d = dom.remove(a[0]);
        assert forall|i: int| 0 <= i < x.len() implies d.contains(#[trigger] x[i]) by {
            assert(x[i] == a[i + 1]);
            assert(crate::text::text_less(a[0], a[i + 1]));
            crate::text::lemma_less_irreflexive(a[0]);
        }
        assert forall|i: int| 0 <= i < y.len() implies d.contains(#[trigger] y[i]) by {
            assert(y[i] == b[i + 1]);
            assert(crate::text::text_less(b[0], b[i + 1]));
            crate::text::lemma_less_irreflexive(b[0]);
        }
        assert forall|k: Seq<char>| #[trigger] d.contains(k) implies x.contains(k) by {
            assert(a.contains(k));
            let i = choose|i: int| 0 <= i < a.len() && a[i] == k;
            assert(x[i - 1] == k);
        }
        assert forall|k: Seq<char>| #[trigger] d.contains(k) implies y.contains(k) by {
            assert(b.contains(k));
            let i = choose|i: int| 0 <= i < b.len() && b[i] == k;
            assert(y[i - 1] == k);
        }
        lemma_lists_keys_unique(x, y, d);
        assert(a =~= seq![a[0]] + x);
        assert(b =~= seq![b[0]] + y);
    }
}

/// There is one list of the entries of a map in the order of their keys.
pub proof fn lemma_lists_unique<T>(
    a: Seq<(Seq<char>, T)>,
    b: Seq<(Seq<char>, T)>,
    m: Map<Seq<char>, T>,
)
    requires
        lists(a, m),
        lists(b, m),
    ensures
        a == b,
{
    lemma_lists_keys_unique(keys_of(a), keys_of(b), m.dom());
    assert(a.len() == keys_of(a).len());
    assert(b.len() == keys_of(b).len());
    assert forall|i: int| 0 <= i < a.len() implies a[i] == b[i] by {
        assert(keys_of(a)[i] == a[i].0);
        assert(keys_of(b)[i] == b[i].0);
        assert(m[a[i].0] == a[i].1);
        assert(m[b[i].0] == b[i].1);
    }
    assert(a =~= b);
}

/// A map from texts to values, kept in the order of the keys.
#[verifier::reject_recursive_types(V)]
pub struct TextMap<V> {
    entries: Vec<(String, V)>,
}

impl<V> View for TextMap<V> {
    type V = Map<Seq<char>, V>;

    closed spec fn view(&self) -> Map<Seq<char>, V> {
        Map::new(|k: Seq<char>| exists|i: int| self.at(i, k), |k: Seq<char>| self.entries@[self.place(k)].1)
    }
}

impl<V: DeepView> DeepView for TextMap<V> {
    type V = Map<Seq<char>, V::V>;

    open spec fn deep_view(&self) -> Map<Seq<char>, V::V> {
        self@.map_values(|v: V| v.deep_view())
    }
}

impl<V> TextMap<V> {
    closed spec fn at(&self, i: int, k: Seq<char>) -> bool {
        0 <= i < self.entries@.len() && self.entries@[i].0@ == k
    }

    closed spec fn place(&self, k: Seq<char>) -> int {
        choose|i: int| self.at(i, k)
    }

    /// The keys stand in strictly increasing order.
    pub closed spec fn wf(&self) -> bool {
        forall|i: int, j: int|
            0 <= i < j < self.entries@.len() ==> crate::text::text_less(
                (#[trigger] self.entries@[i]).0@,
                (#[trigger] self.entries@[j]).0@,
            )
    }

    proof fn lemma_place(&self, i: int)
        requires
            self.wf(),
            0 <= i < self.entries@.len(),
        ensures
            self.place(self.entries@[i].0@) == i,
            self@.contains_key(self.entries@[i].0@),
            self@[self.entries@[i].0@] == self.entries@[i].1,
    {
        let k = self.entries@[i].0@;
        assert(self.at(i, k));
        let j = self.place(k);
        assert(self.at(j, k));
        crate::text::lemma_less_irreflexive(k);
        if i < j {
            assert(crate::text::text_less(self.entries@[i].0@, self.entries@[j].0@));
        } else if j < i {
            assert(crate::text::text_less(self.entries@[j].0@, self.entries@[i].0@));
        }
    }

    /// A table has finitely many keys.
    pub proof fn lemma_finite(&self)
        ensures
            self@.dom().finite(),
    {
        let keys = Seq::new(self.entries@.len(), |i: int| self.entries@[i].0@);
        vstd::seq_lib::seq_to_set_is_finite(keys);
        assert forall|k: Seq<char>| self@.dom().contains(k) == keys.to_set().contains(k) by {
            if self@.dom().contains(k) {
                let i = choose|i: int| self.at(i, k);
                assert(keys[i] == k);
            }
            if keys.contains(k) {
                let i = choose|i: int| 0 <= i < keys.len() && keys[i] == k;
                assert(self.at(i, k));
            }
        }
        assert(self@.dom() =~= keys.to_set());
    }

    /// A map without entries.
    pub fn new() -> (r: Self)
        ensures
            r.wf(),
            r@ == Map::<Seq<char>, V>::empty(),
    {
        let r = TextMap { entries: Vec::new() };
        assert(r@ =~= Map::<Seq<char>, V>::empty());
        r
    }

    /// Where the key stands, or where it would.
    fn find(&self, key: &str) -> (r: (usize, bool))
        requires
            self.wf(),
        ensures
            r.0 <= self.entries@.len(),
            forall|i: int|
                0 <= i < r.0 ==> crate::text::text_less((#[trigger] self.entries@[i]).0@, key@),
            r.1 ==> r.0 < self.entries@.len() && self.entries@[r.0 as int].0@ == key@,
            !r.1 ==> forall|i: int|
                r.0 <= i < self.entries@.len() ==> crate::text::text_less(
                    key@,
                    (#[trigger] self.entries@[i]).0@,
                ),
            r.1 == self@.contains_key(key@),
    {
        let mut lo: usize = 0;
        let mut hi: usize = self.entries.len();
        while lo < hi
            invariant
                self.wf(),
                lo <= hi <= self.entries@.len(),
                forall|i: int|
                    0 <= i < lo ==> crate::text::text_less((#[trigger] self.entries@[i]).0@, key@),
                forall|i: int|
                    hi <= i < self.entries@.len() ==> crate::text::text_less(
                        key@,
                        (#[trigger] self.entries@[i]).0@,
                    ),
            decreases hi - lo,
        {
            let mid: usize = lo + (hi - lo) / 2;
            match rank(self.entries[mid].0.as_str(), key) {
                Rank::Same => {
                    assert forall|i: int| 0 <= i < mid implies crate::text::text_less(
                        (#[trigger] self.entries@[i]).0@,
                        key@,
                    ) by {
                        assert(crate::text::text_less(
                            self.entries@[i].0@,
                            self.entries@[mid as int].0@,
                        ));
                    }
                    assert(self.at(mid as int, key@));
                    return (mid, true);
                },
                Rank::Before => {
                    assert forall|i: int| 0 <= i < mid + 1 implies crate::text::text_less(
                        (#[trigger] self.entries@[i]).0@,
                        key@,
                    ) by {
                        if i < mid {
                            crate::text::lemma_less_transitive(
                                self.entries@[i].0@,
                                self.entries@[mid as int].0@,
                                key@,
                            );
                        }
                    }
                    lo = mid + 1;
                },
                Rank::After => {
                    assert forall|i: int| mid <= i < self.entries@.len() implies crate::text::text_less(
                        key@,
                        (#[trigger] self.entries@[i]).0@,
                    ) by {
                        if i > mid {
                            crate::text::lemma_less_transitive(
                                key@,
                                self.entries@[mid as int].0@,
                                self.entries@[i].0@,
                            );
                        }
                    }
                    hi = mid;
                },
            }
        }
        proof {
            if self@.contains_key(key@) {
                let i = choose|i: int| self.at(i, key@);
                crate::text::lemma_less_irreflexive(key@);
                assert(self.entries@[i].0@ == key@);
                assert(false);
            }
        }
        (lo, false)
    }

    /// The value of a key.
    pub fn get(&self, key: &str) -> (r: Option<&V>)
        requires
            self.wf(),
        ensures
            match r {
                Some(v) => self@.contains_key(key@) && *v == self@[key@],
                None => !self@.contains_key(key@),
            },
    {
        let (at, found) = self.find(key);
        if found {
            proof {
                self.lemma_place(at as int);
            }
            Some(&self.entries[at].1)
        } else {
            None
        }
    }

    /// Whether a key is there.
    pub fn contains_key(&self, key: &str) -> (r: bool)
        requires
            self.wf(),
        ensures
            r == self@.contains_key(key@),
    {
        self.find(key).1
    }

    /// Gives a key a value.
    pub fn insert(&mut self, key: String, value: V)
        requires
            old(self).wf(),
        ensures
            final(self).wf(),
            final(self)@ == old(self)@.insert(key@, value),
    {
        let (at, found) = self.find(key.as_str());
        let ghost before = *self;
        let ghost k = key@;
        if found {
            let ghost old_key = self.entries@[at as int].0;
            self.entries.remove(at);
            self.entries.insert(at, (key, value));
            assert(self.entries@ =~= before.entries@.update(at as int, (key, value)));
        } else {
            self.entries.insert(at, (key, value));
        }
        proof {
            assert(self.wf());
            self.lemma_place(at as int);
            assert forall|q: Seq<char>| #[trigger] self@.contains_key(q) implies q == k
                || (before@.contains_key(q) && self@[q] == before@[q]) by {
                if q != k {
                    let i = choose|i: int| self.at(i, q);
                    self.lemma_place(i);
                    let j = if found || i < at {
                        i
                    } else {
                        i - 1
                    };
                    assert(before.entries@[j] == self.entries@[i]);
                    before.lemma_place(j);
                }
            }
            assert forall|q: Seq<char>| #[trigger] before@.contains_key(q) implies self@.contains_key(q) by {
                let j = choose|j: int| before.at(j, q);
                let i = if found || j < at {
                    j
                } else {
                    j + 1
                };
                assert(self.entries@[i].0@ == q);
                assert(self.at(i, q));
            }
            assert(self@ =~= before@.insert(k, value));
        }
    }

    /// Takes a key and its value out.
    pub fn remove(&mut self, key: &str)
        requires
            old(self).wf(),
        ensures
            final(self).wf(),
            final(self)@ == old(self)@.remove(key@),
    {
        let (at, found) = self.find(key);
        let ghost before = *self;
        if found {
            self.entries.remove(at);
            proof {
                before.lemma_place(at as int);
                assert forall|q: Seq<char>| #[trigger] self@.contains_key(q) implies q != key@
                    && before@.contains_key(q) && self@[q] == before@[q] by {
                    let i = choose|i: int| self.at(i, q);
                    self.lemma_place(i);
                    let j = if i < at {
                        i
                    } else {
                        i + 1
                    };
                    assert(before.entries@[j] == self.entries@[i]);
                    before.lemma_place(j);
                }
                assert forall|q: Seq<char>| #[trigger]
                    before@.contains_key(q) && q != key@ implies self@.contains_key(q) by {
                    let j = choose|j: int| before.at(j, q);
                    before.lemma_place(j);
                    let i = if j < at {
                        j
                    } else {
                        j - 1
                    };
                    assert(self.entries@[i].0@ == q);
                    assert(self.at(i, q));
                }
                assert(self@ =~= before@.remove(key@));
            }
        } else {
            assert(self@ =~= before@.remove(key@));
        }
    }

    /// The keys in increasing order.
    pub fn keys(&self) -> (r: Vec<String>)
        requires
            self.wf(),
        ensures
            lists_keys(r.deep_view(), self@.dom()),
    {
        let mut out: Vec<String> = Vec::new();
        let mut i: usize = 0;
        while i < self.entries.len()
            invariant
                i <= self.entries.len(),
                out.len() == i,
                forall|j: int| 0 <= j < i ==> (#[trigger] out@[j])@ == self.entries@[j].0@,
            decreases self.entries.len() - i,
        {
            out.push(self.entries[i].0.clone());
            i = i + 1;
        }
        proof {
            let d = out.deep_view();
            assert forall|j: int| 0 <= j < d.len() implies self@.dom().contains(#[trigger] d[j]) by {
                self.lemma_place(j);
                assert(d[j] == out@[j]@);
            }
            assert forall|k: Seq<char>| #[trigger] self@.dom().contains(k) implies d.contains(k) by {
                let j = choose|j: int| self.at(j, k);
                assert(d[j] == out@[j]@);
            }
        }
        out
    }

    /// The entries in the increasing order of their keys.
    pub fn into_entries(self) -> (r: Vec<(String, V)>)
        requires
            self.wf(),
        ensures
            lists(r@.map_values(|e: (String, V)| (e.0@, e.1)), self@),
    {
        proof {
            let s = self.entries@.map_values(|e: (String, V)| (e.0@, e.1));
            let d = keys_of(s);
            assert forall|j: int| 0 <= j < d.len() implies self@.dom().contains(#[trigger] d[j]) by {
                self.lemma_place(j);
            }
            assert forall|k: Seq<char>| #[trigger] self@.dom().contains(k) implies d.contains(k) by {
                let j = choose|j: int| self.at(j, k);
                assert(d[j] == k);
            }
            assert forall|i: int| 0 <= i < s.len() implies self@[(#[trigger] s[i]).0] == s[i].1 by {
                self.lemma_place(i);
            }
        }
        self.entries
    }
}

/// A map with the same entries, where copies of values hold what the values hold.
pub fn copied<V: DeepView + Clone>(map: &TextMap<V>) -> (r: TextMap<V>)
    requires
        map.wf(),
        forall|a: V, b: V| #[trigger] cloned(a, b) ==> a.deep_view() == b.deep_view(),
    ensures
        r.wf(),
        r.deep_view() == map.deep_view(),
{
    let mut out: TextMap<V> = TextMap::new();
    let keys = map.keys();
    let ghost d = keys.deep_view();
    let mut i: usize = 0;
    while i < keys.len()
        invariant
            i <= keys.len(),
            map.wf(),
            forall|a: V, b: V| #[trigger] cloned(a, b) ==> a.deep_view() == b.deep_view(),
            d == keys.deep_view(),
            lists_keys(d, map@.dom()),
            out.wf(),
            forall|k: Seq<char>| #[trigger] out@.contains_key(k) <==> d.take(i as int).contains(k),
            forall|k: Seq<char>| #[trigger]
                out@.contains_key(k) ==> map@.contains_key(k) && out@[k].deep_view()
                    == map@[k].deep_view(),
        decreases keys.len() - i,
    {
        let ghost before = out@;
        assert(d[i as int] == keys@[i as int]@);
        assert(map@.dom().contains(d[i as int]));
        match map.get(keys[i].as_str()) {
            Some(v) => {
                let copy = v.clone();
                assert(cloned(*v, copy));
                out.insert(keys[i].clone(), copy);
            },
            None => {},
        }
        proof {
            let pre = d.take(i as int);
            let post = d.take(i + 1);
            assert(post =~= pre.push(d[i as int]));
            assert forall|k: Seq<char>| #[trigger] out@.contains_key(k) <==> post.contains(k) by {
                if pre.contains(k) {
                    let j = choose|j: int| 0 <= j < pre.len() && pre[j] == k;
                    assert(post[j] == k);
                }
                assert(post[i as int] == d[i as int]);
                if post.contains(k) && k != d[i as int] {
                    let j = choose|j: int| 0 <= j < post.len() && post[j] == k;
                    assert(pre[j] == k);
                }
                assert(out@.contains_key(k) <==> before.contains_key(k) || k == d[i as int]);
            }
        }
        i = i + 1;
    }
    proof {
        assert(d.take(d.len() as int) =~= d);
        assert forall|k: Seq<char>| out@.contains_key(k) <==> map@.contains_key(k) by {
            assert(map@.dom().contains(k) ==> d.contains(k));
            if d.contains(k) {
                let j = choose|j: int| 0 <= j < d.len() && d[j] == k;
                assert(map@.dom().contains(d[j]));
            }
        }
        assert(out.deep_view() =~= map.deep_view());
    }
    out
}

/// The entries of a map in the increasing order of their keys.
pub fn listed<V: DeepView>(map: TextMap<V>) -> (r: Vec<(String, V)>)
    requires
        map.wf(),
    ensures
        r.deep_view() == listing(map.deep_view()),
        lists(r.deep_view(), map.deep_view()),
{
    let ghost m = map@;
    let ghost dm = map.deep_view();
    let r = map.into_entries();
    proof {
        let shallow = r@.map_values(|e: (String, V)| (e.0@, e.1));
        assert(keys_of(r.deep_view()) =~= keys_of(shallow));
        assert(dm.dom() =~= m.dom());
        assert forall|j: int| 0 <= j < r.deep_view().len() implies dm[(
        #[trigger] r.deep_view()[j]).0] == r.deep_view()[j].1 by {
            assert(m[shallow[j].0] == shallow[j].1);
            assert(keys_of(shallow)[j] == shallow[j].0);
        }
        lemma_listing(r.deep_view(), dm);
    }
    r
}

} // verus!
