//! The header mapping of a message: keys as received, one value for each key,
//! the last write winning, kept in the order in which the keys first came.
use crate::text::first_index;
use crate::text::lemma_first_index;
use crate::text::lemma_first_index_unique;
use vstd::prelude::*;

verus! {

/// Mathematical model of a header mapping: its `(key, value)` pairs in order.
pub type Entries = Seq<(Seq<char>, Seq<char>)>;

/// The keys of `e`, in order.
pub open spec fn keys(e: Entries) -> Seq<Seq<char>> {
    Seq::new(e.len(), |i: int| e[i].0)
}

/// Index of the pair with key `k`, or `e.len()` when there is none.
pub open spec fn key_index(e: Entries, k: Seq<char>) -> int {
    first_index(keys(e), k)
}

/// The value that `e` holds for `k`.
pub open spec fn lookup(e: Entries, k: Seq<char>) -> Option<Seq<char>> {
    let i = key_index(e, k);
    if i < e.len() {
        Some(e[i].1)
    } else {
        None
    }
}

/// `e` after writing `v` under `k`: in place where `k` is present, at the end
/// where it is not.
pub open spec fn put(e: Entries, k: Seq<char>, v: Seq<char>) -> Entries {
    let i = key_index(e, k);
    if i < e.len() {
        e.update(i, (k, v))
    } else {
        e.push((k, v))
    }
}

/// Whether no key occurs twice in `e`.
pub open spec fn distinct(e: Entries) -> bool {
    forall|i: int, j: int| 0 <= i < j < e.len() ==> e[i].0 != e[j].0
}

/// `e` as a mapping from key to value.
pub open spec fn as_map(e: Entries) -> Map<Seq<char>, Seq<char>> {
    Map::new(|k: Seq<char>| lookup(e, k) is Some, |k: Seq<char>| lookup(e, k)->0)
}

/// `key_index` is the place of `k` in `e`.
pub proof fn lemma_key_index(e: Entries, k: Seq<char>)
    ensures
        0 <= key_index(e, k) <= e.len(),
        forall|j: int| 0 <= j < key_index(e, k) ==> e[j].0 != k,
        key_index(e, k) < e.len() ==> e[key_index(e, k)].0 == k,
{
    lemma_first_index(keys(e), k);
    let i = key_index(e, k);
    assert forall|j: int| 0 <= j < i implies e[j].0 != k by {
        assert(keys(e)[j] == e[j].0);
    }
    if i < e.len() {
        assert(keys(e)[i] == e[i].0);
    }
}

/// Writing keeps the keys distinct.
pub proof fn lemma_put_distinct(e: Entries, k: Seq<char>, v: Seq<char>)
    requires
        distinct(e),
    ensures
        distinct(put(e, k, v)),
{
    lemma_key_index(e, k);
}

/// Writing `v` under `k` makes `k` map to `v` and leaves every other key as it
/// was: on the mapping, `put` is an insertion.
pub proof fn lemma_put_lookup(e: Entries, k: Seq<char>, v: Seq<char>, q: Seq<char>)
    ensures
        lookup(put(e, k, v), q) == if q == k {
            Some(v)
        } else {
            lookup(e, q)
        },
{
    lemma_key_index(e, k);
    lemma_key_index(e, q);
    let p = put(e, k, v);
    let i = key_index(e, k);
    if q == k {
        assert forall|j: int| 0 <= j < i implies keys(p)[j] != k by {
            assert(p[j].0 == e[j].0);
        }
        assert(keys(p)[i] == k);
        lemma_first_index_unique(keys(p), k, i);
    } else {
        let n = key_index(e, q);
        if n < e.len() {
            assert(n != i);
            assert forall|j: int| 0 <= j < n implies keys(p)[j] != q by {
                assert(p[j].0 == if j == i {
                    k
                } else {
                    e[j].0
                });
            }
            assert(keys(p)[n] == q);
            lemma_first_index_unique(keys(p), q, n);
        } else {
            assert forall|j: int| 0 <= j < p.len() implies keys(p)[j] != q by {
                if j < e.len() {
                    assert(p[j].0 == if j == i {
                        k
                    } else {
                        e[j].0
                    });
                }
            }
            lemma_first_index_unique(keys(p), q, p.len() as int);
        }
    }
}

/// On the mapping, `put` is `Map::insert`.
pub proof fn lemma_put_as_map(e: Entries, k: Seq<char>, v: Seq<char>)
    ensures
        as_map(put(e, k, v)) == as_map(e).insert(k, v),
{
    assert forall|q: Seq<char>| lookup(put(e, k, v), q) == if q == k {
        Some(v)
    } else {
        lookup(e, q)
    } by {
        lemma_put_lookup(e, k, v, q);
    }
    assert(as_map(put(e, k, v)) =~= as_map(e).insert(k, v));
}

/// The pairs of `v`, each string by its view.
pub open spec fn pairs_view(v: Seq<(String, String)>) -> Entries {
    Seq::new(v.len(), |i: int| (v[i].0@, v[i].1@))
}

/// The headers of one message.
#[derive(Debug)]
pub struct Headers {
    entries: Vec<(String, String)>,
}

impl View for Headers {
    type V = Map<Seq<char>, Seq<char>>;

    /// The mapping from key to value.
    open spec fn view(&self) -> Map<Seq<char>, Seq<char>> {
        as_map(self.entries())
    }
}

impl Headers {
    /// The `(key, value)` pairs in the order in which the keys first came.
    pub closed spec fn entries(&self) -> Entries {
        pairs_view(self.entries@)
    }

    /// No key occurs twice.
    #[verifier::type_invariant]
    pub closed spec fn inv(&self) -> bool {
        distinct(self.entries())
    }

    /// The value under `key`, in contracts.
    pub open spec fn spec_get(&self, key: Seq<char>) -> Option<Seq<char>> {
        lookup(self.entries(), key)
    }

    /// A mapping without keys.
    pub fn new() -> (r: Headers)
        ensures
            r.entries() == Entries::empty(),
    {
        let r = Headers { entries: Vec::new() };
        assert(r.entries() =~= Entries::empty());
        r
    }

    /// Number of keys.
    pub fn len(&self) -> (r: usize)
        ensures
            r == self.entries().len(),
    {
        self.entries.len()
    }

    /// Whether there is no key.
    pub fn is_empty(&self) -> (r: bool)
        ensures
            r == (self.entries().len() == 0),
    {
        self.entries.len() == 0
    }

    /// The key of the pair at `i`.
    pub fn key_at(&self, i: usize) -> (r: &String)
        requires
            i < self.entries().len(),
        ensures
            r@ == self.entries()[i as int].0,
    {
        &self.entries[i].0
    }

    /// The value of the pair at `i`.
    pub fn value_at(&self, i: usize) -> (r: &String)
        requires
            i < self.entries().len(),
        ensures
            r@ == self.entries()[i as int].1,
    {
        &self.entries[i].1
    }

    /// Place of `key` among the pairs; the number of pairs when it is absent.
    fn position(&self, key: &String) -> (r: usize)
        ensures
            r == key_index(self.entries(), key@),
            r <= self.entries().len(),
    {
        let mut i: usize = 0;
        while i < self.entries.len() && !(self.entries[i].0 == *key)
            invariant
                i <= self.entries@.len(),
                forall|j: int| 0 <= j < i ==> self.entries@[j].0@ != key@,
            decreases self.entries@.len() - i,
        {
            i += 1;
        }
        proof {
            let ks = keys(self.entries());
            lemma_first_index_unique(ks, key@, i as int);
        }
        i
    }

    /// The value under `key`.
    pub fn get(&self, key: &str) -> (r: Option<&String>)
        ensures
            match r {
                Some(v) => self.spec_get(key@) == Some(v@),
                None => self.spec_get(key@) is None,
            },
    {
        let k: String = key.to_owned();
        let i = self.position(&k);
        if i < self.entries.len() {
            Some(&self.entries[i].1)
        } else {
            None
        }
    }

    /// Whether there is a value under `key`.
    pub fn contains_key(&self, key: &str) -> (r: bool)
        ensures
            r == self.spec_get(key@) is Some,
    {
        let k: String = key.to_owned();
        self.position(&k) < self.entries.len()
    }

    /// Writes `value` under `key` and returns the value that stood there.
    pub fn insert(&mut self, key: String, value: String) -> (r: Option<String>)
        ensures
            final(self).entries() == put(old(self).entries(), key@, value@),
            match r {
                Some(v) => old(self).spec_get(key@) == Some(v@),
                None => old(self).spec_get(key@) is None,
            },
    {
        proof {
            use_type_invariant(&*self);
            lemma_put_distinct(self.entries(), key@, value@);
        }
        let i = self.position(&key);
        let ghost before = self.entries();
        let mut entries: Vec<(String, String)> = Vec::new();
        std::mem::swap(&mut self.entries, &mut entries);
        let n = entries.len();
        entries.push((key, value));
        let r = if i < n {
            let replaced = entries.swap_remove(i);
            Some(replaced.1)
        } else {
            None
        };
        assert(pairs_view(entries@) =~= put(before, key@, value@));
        self.entries = entries;
        r
    }
}

impl Clone for Headers {
    fn clone(&self) -> (r: Headers)
        ensures
            r.entries() == self.entries(),
    {
        proof {
            use_type_invariant(self);
        }
        let mut entries: Vec<(String, String)> = Vec::new();
        let mut i: usize = 0;
        while i < self.entries.len()
            invariant
                i <= self.entries@.len(),
                entries@.len() == i,
                pairs_view(entries@) == pairs_view(self.entries@).take(i as int),
            decreases self.entries@.len() - i,
        {
            let ghost before = entries@;
            let key = self.entries[i].0.clone();
            let value = self.entries[i].1.clone();
            entries.push((key, value));
            proof {
                let now = pairs_view(entries@);
                let want = pairs_view(self.entries@).take(i + 1);
                assert forall|j: int| 0 <= j < now.len() implies now[j] == want[j] by {
                    if j < i {
                        assert(entries@[j] == before[j]);
                        assert(pairs_view(before)[j] == pairs_view(self.entries@).take(i as int)[j]);
                    }
                }
                assert(now =~= want);
            }
            i += 1;
        }
        assert(pairs_view(entries@) =~= pairs_view(self.entries@));
        Headers { entries }
    }
}

impl Default for Headers {
    fn default() -> (r: Headers)
        ensures
            r.entries() == Entries::empty(),
    {
        Headers::new()
    }
}

} // verus!
