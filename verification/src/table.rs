//! A string-keyed table: an association list whose lookups find the first
//! entry with the key, and whose writes never add a second entry for a key
//! already present, so it behaves as a map from key text to value.
use vstd::prelude::*;

verus! {

/// `==` on two string slices (`<str as PartialEq>::eq`).
#[verifier::external_body]
pub fn str_eq(a: &str, b: &str) -> (r: bool)
    ensures
        r == (a@ == b@),
{
    a == b
}

/// A map from string keys to values, kept as a list of entries.
#[derive(Debug, Clone)]
pub struct StrMap<V> {
    pub entries: Vec<(String, V)>,
}

/// Position of the first entry with key `k`.
pub open spec fn index_in<V>(e: Seq<(String, V)>, k: Seq<char>) -> Option<int>
    decreases e.len(),
{
    if e.len() == 0 {
        None
    } else if e[0].0@ == k {
        Some(0)
    } else {
        match index_in(e.drop_first(), k) {
            Some(i) => Some(i + 1),
            None => None,
        }
    }
}

/// The value stored under `k`.
pub open spec fn lookup<V>(e: Seq<(String, V)>, k: Seq<char>) -> Option<V> {
    match index_in(e, k) {
        Some(i) => Some(e[i].1),
        None => None,
    }
}

/// The keys of the entries, as text, in order.
pub open spec fn keys_of<V>(e: Seq<(String, V)>) -> Seq<Seq<char>> {
    e.map_values(|p: (String, V)| p.0@)
}

/// No key occurs twice.
pub open spec fn keys_unique<V>(e: Seq<(String, V)>) -> bool {
    forall|i: int, j: int| 0 <= i < j < e.len() ==> e[i].0@ != e[j].0@
}

pub proof fn lemma_index_in<V>(e: Seq<(String, V)>, k: Seq<char>)
    ensures
        match index_in(e, k) {
            Some(i) => 0 <= i < e.len() && e[i].0@ == k && forall|j: int|
                0 <= j < i ==> e[j].0@ != k,
            None => forall|j: int| 0 <= j < e.len() ==> e[j].0@ != k,
        },
    decreases e.len(),
{
    if e.len() > 0 && e[0].0@ != k {
        lemma_index_in(e.drop_first(), k);
        match index_in(e.drop_first(), k) {
            Some(i) => {
                assert forall|j: int| 0 <= j < i + 1 implies e[j].0@ != k by {
                    if j > 0 {
                        assert(e[j] == e.drop_first()[j - 1]);
                    }
                }
            },
            None => {
                assert forall|j: int| 0 <= j < e.len() implies e[j].0@ != k by {
                    if j > 0 {
                        assert(e[j] == e.drop_first()[j - 1]);
                    }
                }
            },
        }
    }
}

pub proof fn lemma_index_in_is<V>(e: Seq<(String, V)>, k: Seq<char>, i: int)
    requires
        0 <= i < e.len(),
        e[i].0@ == k,
        forall|j: int| 0 <= j < i ==> e[j].0@ != k,
    ensures
        index_in(e, k) == Some(i),
{
    lemma_index_in(e, k);
    match index_in(e, k) {
        Some(m) => {
            if m < i {
                assert(e[m].0@ != k);
            }
            if i < m {
                assert(e[i].0@ != k);
            }
        },
        None => {
            assert(e[i].0@ != k);
        },
    }
}

pub proof fn lemma_index_in_none<V>(e: Seq<(String, V)>, k: Seq<char>)
    requires
        forall|j: int| 0 <= j < e.len() ==> e[j].0@ != k,
    ensures
        index_in(e, k) is None,
{
    lemma_index_in(e, k);
    if let Some(m) = index_in(e, k) {
        assert(e[m].0@ != k);
    }
}

/// Lookups in `e.update(i, (key, v))` when `e[i]` already has that key.
pub proof fn lemma_lookup_update<V>(e: Seq<(String, V)>, i: int, kv: (String, V), k: Seq<char>)
    requires
        0 <= i < e.len(),
        e[i].0@ == kv.0@,
    ensures
        lookup(e.update(i, kv), k) == if k == kv.0@ && index_in(e, k) == Some(i) {
            Some(kv.1)
        } else {
            lookup(e, k)
        },
        index_in(e.update(i, kv), k) == index_in(e, k),
{
    let e2 = e.update(i, kv);
    lemma_index_in(e, k);
    match index_in(e, k) {
        Some(m) => {
            assert(e2[m].0@ == k);
            assert forall|j: int| 0 <= j < m implies e2[j].0@ != k by {
                assert(e2[j].0@ == e[j].0@);
            }
            lemma_index_in_is(e2, k, m);
        },
        None => {
            assert forall|j: int| 0 <= j < e2.len() implies e2[j].0@ != k by {
                assert(e2[j].0@ == e[j].0@);
            }
            lemma_index_in_none(e2, k);
        },
    }
}

/// Lookups in `e.push(kv)` when `kv.0` is a new key.
pub proof fn lemma_lookup_push<V>(e: Seq<(String, V)>, kv: (String, V), k: Seq<char>)
    requires
        index_in(e, kv.0@) is None,
    ensures
        lookup(e.push(kv), k) == if k == kv.0@ {
            Some(kv.1)
        } else {
            lookup(e, k)
        },
{
    let e2 = e.push(kv);
    lemma_index_in(e, k);
    lemma_index_in(e, kv.0@);
    match index_in(e, k) {
        Some(m) => {
            assert(e2[m] == e[m]);
            assert forall|j: int| 0 <= j < m implies e2[j].0@ != k by {
                assert(e2[j] == e[j]);
            }
            lemma_index_in_is(e2, k, m);
        },
        None => {
            if k == kv.0@ {
                assert forall|j: int| 0 <= j < e.len() implies e2[j].0@ != k by {
                    assert(e2[j] == e[j]);
                }
                lemma_index_in_is(e2, k, e.len() as int);
            } else {
                assert forall|j: int| 0 <= j < e2.len() implies e2[j].0@ != k by {
                    if j < e.len() {
                        assert(e2[j] == e[j]);
                    }
                }
                lemma_index_in_none(e2, k);
            }
        },
    }
}

/// The entries after `k` is stored with `v`: in place of its entry, or
/// appended when there is none.
pub open spec fn put<V>(e: Seq<(String, V)>, k: String, v: V) -> Seq<(String, V)> {
    match index_in(e, k@) {
        Some(i) => e.update(i, (k, v)),
        None => e.push((k, v)),
    }
}

impl<V> StrMap<V> {
    /// The value stored under `k`, if any.
    pub open spec fn spec_get(&self, k: Seq<char>) -> Option<V> {
        lookup(self.entries@, k)
    }

    /// An empty table.
    pub fn new() -> (m: Self)
        ensures
            m.entries@ == Seq::<(String, V)>::empty(),
    {
        StrMap { entries: Vec::new() }
    }

    /// Number of entries.
    pub fn len(&self) -> (n: usize)
        ensures
            n == self.entries@.len(),
    {
        self.entries.len()
    }

    /// Position of the entry with key `k`.
    pub fn index_of(&self, k: &str) -> (r: Option<usize>)
        ensures
            match r {
                Some(i) => index_in(self.entries@, k@) == Some(i as int),
                None => index_in(self.entries@, k@) is None,
            },
    {
        let mut i: usize = 0;
        while i < self.entries.len()
            invariant
                0 <= i <= self.entries.len(),
                forall|j: int| 0 <= j < i ==> self.entries@[j].0@ != k@,
            decreases self.entries.len() - i,
        {
            if str_eq(self.entries[i].0.as_str(), k) {
                proof {
                    lemma_index_in_is(self.entries@, k@, i as int);
                }
                return Some(i);
            }
            i = i + 1;
        }
        proof {
            lemma_index_in_none(self.entries@, k@);
        }
        None
    }

    /// Is there an entry with key `k`?
    pub fn contains_key(&self, k: &str) -> (b: bool)
        ensures
            b == (self.spec_get(k@) is Some),
    {
        self.index_of(k).is_some()
    }

    /// The value stored under `k`.
    pub fn get(&self, k: &str) -> (r: Option<&V>)
        ensures
            match r {
                Some(v) => self.spec_get(k@) == Some(*v),
                None => self.spec_get(k@) is None,
            },
    {
        match self.index_of(k) {
            Some(i) => {
                proof {
                    lemma_index_in(self.entries@, k@);
                }
                Some(&self.entries[i].1)
            },
            None => None,
        }
    }

    /// `HashMap::insert`: store `v` under `k`, replacing any value there.
    pub fn insert(&mut self, k: String, v: V)
        ensures
            forall|q: Seq<char>|
                #![trigger final(self).spec_get(q)]
                final(self).spec_get(q) == if q == k@ {
                    Some(v)
                } else {
                    old(self).spec_get(q)
                },
            keys_of(final(self).entries@).to_set() == keys_of(old(self).entries@).to_set().insert(
                k@,
            ),
            keys_unique(old(self).entries@) ==> keys_unique(final(self).entries@),
            final(self).entries@ == put(old(self).entries@, k, v),
    {
        match self.index_of(k.as_str()) {
            Some(i) => {
                let ghost e = self.entries@;
                let ghost kk = k@;
                proof {
                    lemma_index_in(e, kk);
                }
                let ghost kv = (k, v);
                self.entries.set(i, (k, v));
                proof {
                    assert(self.entries@ == e.update(i as int, kv));
                    assert forall|q: Seq<char>| #[trigger]
                        self.spec_get(q) == if q == kk {
                            Some(kv.1)
                        } else {
                            lookup(e, q)
                        } by {
                        lemma_lookup_update(e, i as int, kv, q);
                    }
                    assert(keys_of(self.entries@) =~= keys_of(e));
                    assert(keys_of(e)[i as int] == kk);
                    assert(keys_of(e).to_set().insert(kk) =~= keys_of(e).to_set());
                }
            },
            None => {
                let ghost e = self.entries@;
                let ghost kv = (k, v);
                self.entries.push((k, v));
                proof {
                    assert forall|q: Seq<char>| #[trigger]
                        self.spec_get(q) == if q == kv.0@ {
                            Some(kv.1)
                        } else {
                            lookup(e, q)
                        } by {
                        lemma_lookup_push(e, kv, q);
                    }
                    assert(keys_of(self.entries@) =~= keys_of(e).push(kv.0@));
                    broadcast use vstd::seq_lib::group_seq_properties;
                    assert(keys_of(e).push(kv.0@).to_set() =~= keys_of(e).to_set().insert(kv.0@));
                    lemma_index_in(e, kv.0@);
                }
            },
        }
    }
}

/// The items stored under `k`; empty when there is no entry.
pub open spec fn items_of<T>(e: Seq<(String, Vec<T>)>, k: Seq<char>) -> Seq<T> {
    match lookup(e, k) {
        Some(v) => v@,
        None => Seq::empty(),
    }
}

impl<T> StrMap<Vec<T>> {
    /// `entry(k).or_insert_with(Vec::new).push(x)`.
    pub fn push_to(&mut self, k: String, x: T)
        ensures
            forall|q: Seq<char>|
                #![trigger final(self).spec_get(q)]
                (final(self).spec_get(q) is Some) == (q == k@ || old(self).spec_get(q) is Some),
            forall|q: Seq<char>|
                #![trigger final(self).spec_get(q)]
                q != k@ ==> final(self).spec_get(q) == old(self).spec_get(q),
            forall|q: Seq<char>|
                #![trigger items_of(final(self).entries@, q)]
                items_of(final(self).entries@, q) == if q == k@ {
                    items_of(old(self).entries@, k@).push(x)
                } else {
                    items_of(old(self).entries@, q)
                },
            keys_of(final(self).entries@).to_set() == keys_of(old(self).entries@).to_set().insert(
                k@,
            ),
            keys_unique(old(self).entries@) ==> keys_unique(final(self).entries@),
    {
        let ghost e = self.entries@;
        match self.index_of(k.as_str()) {
            Some(i) => {
                proof {
                    lemma_index_in(e, k@);
                }
                let mut pair = self.entries.remove(i);
                pair.1.push(x);
                let ghost kv = pair;
                self.entries.insert(i, pair);
                proof {
                    assert(self.entries@ =~= e.update(i as int, kv));
                    assert forall|q: Seq<char>| #[trigger] self.spec_get(q) == if q == k@ {
                        Some(kv.1)
                    } else {
                        lookup(e, q)
                    } by {
                        lemma_lookup_update(e, i as int, kv, q);
                    }
                    assert forall|q: Seq<char>| #[trigger]
                        items_of(self.entries@, q) == if q == k@ {
                            items_of(e, k@).push(x)
                        } else {
                            items_of(e, q)
                        } by {
                        assert(self.spec_get(q) == lookup(self.entries@, q));
                    }
                    assert(keys_of(self.entries@) =~= keys_of(e));
                    assert(keys_of(e)[i as int] == k@);
                    assert(keys_of(e).to_set().insert(k@) =~= keys_of(e).to_set());
                }
            },
            None => {
                let mut v: Vec<T> = Vec::new();
                v.push(x);
                let ghost kv = (k, v);
                self.entries.push((k, v));
                proof {
                    assert forall|q: Seq<char>| #[trigger] self.spec_get(q) == if q == kv.0@ {
                        Some(kv.1)
                    } else {
                        lookup(e, q)
                    } by {
                        lemma_lookup_push(e, kv, q);
                    }
                    assert(kv.1@ =~= Seq::<T>::empty().push(x));
                    assert forall|q: Seq<char>| #[trigger]
                        items_of(self.entries@, q) == if q == kv.0@ {
                            items_of(e, kv.0@).push(x)
                        } else {
                            items_of(e, q)
                        } by {
                        assert(self.spec_get(q) == lookup(self.entries@, q));
                    }
                    assert(keys_of(self.entries@) =~= keys_of(e).push(kv.0@));
                    broadcast use vstd::seq_lib::group_seq_properties;
                    assert(keys_of(e).push(kv.0@).to_set() =~= keys_of(e).to_set().insert(kv.0@));
                    lemma_index_in(e, kv.0@);
                }
            },
        }
    }
}

} // verus!
