//! The in-memory engine: one key-value store per collection, and the shared
//! cache of those stores that persistence is deferred from.

use vstd::prelude::*;

use crate::registry::AegCore;

verus! {

/// The keys of a list of pairs.
pub open spec fn keys_of(v: Seq<(String, String)>) -> Seq<Seq<char>> {
    v.map_values(|p: (String, String)| p.0@)
}

/// The mapping that a list of pairs with unique keys stands for.
pub open spec fn store_view(v: Seq<(String, String)>) -> Map<Seq<char>, Seq<char>> {
    Map::new(
        |k: Seq<char>| keys_of(v).contains(k),
        |k: Seq<char>| v[keys_of(v).index_of(k)].1@,
    )
}

/// The mapping built by inserting the pairs in order: a later pair wins.
pub open spec fn map_of_pairs(v: Seq<(String, String)>) -> Map<Seq<char>, Seq<char>>
    decreases v.len(),
{
    if v.len() == 0 {
        Map::empty()
    } else {
        map_of_pairs(v.drop_last()).insert(v.last().0@, v.last().1@)
    }
}

/// Two lists of pairs with the same texts, position by position.
pub open spec fn same_pairs(a: Seq<(String, String)>, b: Seq<(String, String)>) -> bool {
    &&& a.len() == b.len()
    &&& forall|i: int| 0 <= i < a.len() ==> a[i].0@ == b[i].0@ && a[i].1@ == b[i].1@
}

/// In a sequence without duplicates, an element's index is where it stands.
pub(crate) proof fn lemma_index_of_unique<A>(s: Seq<A>, i: int)
    requires
        s.no_duplicates(),
        0 <= i < s.len(),
    ensures
        s.index_of(s[i]) == i,
{
    assert(s.contains(s[i]));
}

proof fn lemma_same_pairs_view(a: Seq<(String, String)>, b: Seq<(String, String)>)
    requires
        same_pairs(a, b),
    ensures
        keys_of(a) == keys_of(b),
        store_view(a) == store_view(b),
{
    assert(keys_of(a) =~= keys_of(b));
    assert(store_view(a) =~= store_view(b));
}

/// One collection's key-value store.
pub struct AegMemoryEngine {
    pub store: Vec<(String, String)>,
    pub collection_name: String,
}

/// The position of `key` among the keys of `v`.
fn key_position(v: &Vec<(String, String)>, key: &String) -> (r: Option<usize>)
    ensures
        r matches Some(i) ==> i < v@.len() && v@[i as int].0@ == key@,
        r is None ==> !keys_of(v@).contains(key@),
{
    let mut i: usize = 0;
    while i < v.len()
        invariant
            i <= v@.len(),
            forall|j: int| 0 <= j < i ==> v@[j].0@ != key@,
        decreases v@.len() - i,
    {
        if v[i].0 == *key {
            return Some(i);
        }
        i = i + 1;
    }
    assert(!keys_of(v@).contains(key@)) by {
        if keys_of(v@).contains(key@) {
            let j = choose|j: int| 0 <= j < keys_of(v@).len() && keys_of(v@)[j] == key@;
            assert(v@[j].0@ == key@);
        }
    }
    None
}

impl AegMemoryEngine {
    /// The store's contents.
    pub open spec fn view(&self) -> Map<Seq<char>, Seq<char>> {
        store_view(self.store@)
    }

    /// No key twice.
    pub open spec fn wf(&self) -> bool {
        keys_of(self.store@).no_duplicates()
    }

    /// An empty store for `collection_name`.
    pub fn new(collection_name: &str) -> (r: AegMemoryEngine)
        ensures
            r.wf(),
            r.view() == Map::<Seq<char>, Seq<char>>::empty(),
            r.collection_name@ == collection_name@,
    {
        let r = AegMemoryEngine { store: Vec::new(), collection_name: collection_name.to_owned() };
        assert(r.view() =~= Map::<Seq<char>, Seq<char>>::empty());
        r
    }

    /// A copy of this store.
    pub fn duplicate(&self) -> (r: AegMemoryEngine)
        requires
            self.wf(),
        ensures
            r.wf(),
            r.view() == self.view(),
            same_pairs(r.store@, self.store@),
            r.collection_name@ == self.collection_name@,
    {
        let mut store: Vec<(String, String)> = Vec::new();
        let mut i: usize = 0;
        while i < self.store.len()
            invariant
                i <= self.store@.len(),
                same_pairs(store@, self.store@.take(i as int)),
            decreases self.store@.len() - i,
        {
            let k = self.store[i].0.clone();
            let v = self.store[i].1.clone();
            store.push((k, v));
            i = i + 1;
        }
        assert(self.store@.take(self.store@.len() as int) =~= self.store@);
        proof {
            lemma_same_pairs_view(store@, self.store@);
        }
        AegMemoryEngine { store, collection_name: self.collection_name.clone() }
    }

    /// Sets `key` to `value` in this store alone.
    fn put_local(&mut self, key: String, value: String)
        requires
            old(self).wf(),
        ensures
            final(self).wf(),
            final(self).view() == old(self).view().insert(key@, value@),
            final(self).collection_name == old(self).collection_name,
    {
        let ghost before = self.store@;
        match key_position(&self.store, &key) {
            Some(j) => {
                let ghost k = key@;
                let ghost val = value@;
                self.store.set(j, (key, value));
                assert(keys_of(self.store@) =~= keys_of(before));
                assert(store_view(self.store@) =~= store_view(before).insert(k, val)) by {
                    lemma_index_of_unique(keys_of(before), j as int);
                }
            },
            None => {
                let ghost k = key@;
                let ghost val = value@;
                self.store.push((key, value));
                let ghost after = self.store@;
                assert(keys_of(after) =~= keys_of(before).push(k));
                assert(keys_of(after).no_duplicates()) by {
                    let s = keys_of(after);
                    assert forall|a: int, b: int| 0 <= a < s.len() && 0 <= b < s.len() && a != b implies s[a]
                        != s[b] by {
                        if a < before.len() && b < before.len() {
                            assert(keys_of(before)[a] == s[a] && keys_of(before)[b] == s[b]);
                        } else if a < before.len() {
                            assert(keys_of(before)[a] == s[a]);
                        } else {
                            assert(keys_of(before)[b] == s[b]);
                        }
                    }
                }
                assert(store_view(after) =~= store_view(before).insert(k, val)) by {
                    lemma_index_of_unique(keys_of(after), before.len() as int);
                    assert(keys_of(after)[before.len() as int] == k);
                    assert forall|x: Seq<char>| #[trigger] keys_of(after).contains(x) implies keys_of(
                        before,
                    ).contains(x) || x == k by {
                        let i = choose|i: int| 0 <= i < keys_of(after).len() && keys_of(after)[i] == x;
                        if i < before.len() {
                            assert(keys_of(before)[i] == x);
                        }
                    }
                    assert forall|x: Seq<char>| #[trigger] keys_of(before).contains(x) implies keys_of(
                        after,
                    ).contains(x) && store_view(after)[x] == store_view(before)[x] by {
                        let i = keys_of(before).index_of(x);
                        assert(keys_of(before)[i] == x);
                        lemma_index_of_unique(keys_of(before), i);
                        assert(keys_of(after)[i] == x);
                        lemma_index_of_unique(keys_of(after), i);
                    }
                }
            },
        }
    }

    /// Removes `key` from this store alone.
    fn remove_local(&mut self, key: &String)
        requires
            old(self).wf(),
        ensures
            final(self).wf(),
            final(self).view() == old(self).view().remove(key@),
            final(self).collection_name == old(self).collection_name,
    {
        let ghost before = self.store@;
        match key_position(&self.store, key) {
            Some(j) => {
                self.store.remove(j);
                let ghost after = self.store@;
                assert(keys_of(after) =~= keys_of(before).remove(j as int));
                assert(keys_of(after).no_duplicates()) by {
                    let s = keys_of(after);
                    assert forall|a: int, b: int| 0 <= a < s.len() && 0 <= b < s.len() && a != b implies s[a]
                        != s[b] by {
                        let a2 = if a < j { a } else { a + 1 };
                        let b2 = if b < j { b } else { b + 1 };
                        assert(keys_of(before)[a2] == s[a] && keys_of(before)[b2] == s[b]);
                    }
                }
                assert(store_view(after) =~= store_view(before).remove(key@)) by {
                    lemma_index_of_unique(keys_of(before), j as int);
                    assert forall|x: Seq<char>| #[trigger] keys_of(after).contains(x) implies store_view(
                        after,
                    )[x] == store_view(before)[x] && x != key@ by {
                        let i = keys_of(after).index_of(x);
                        assert(keys_of(after)[i] == x);
                        lemma_index_of_unique(keys_of(after), i);
                        let i2 = if i < j { i } else { i + 1 };
                        assert(keys_of(before)[i2] == x);
                        lemma_index_of_unique(keys_of(before), i2);
                    }
                    assert forall|x: Seq<char>| #[trigger] keys_of(before).contains(x) && x != key@ implies keys_of(
                        after,
                    ).contains(x) by {
                        let i = keys_of(before).index_of(x);
                        assert(keys_of(before)[i] == x);
                        assert(i != j);
                        let i2 = if i < j { i } else { i - 1 };
                        assert(keys_of(after)[i2] == x);
                    }
                }
            },
            None => {
                assert(store_view(before) =~= store_view(before).remove(key@));
            },
        }
    }

    /// The value stored under `key`.
    pub fn get(&self, key: &str) -> (r: Option<String>)
        requires
            self.wf(),
        ensures
            r is Some <==> self.view().contains_key(key@),
            r matches Some(v) ==> v@ == self.view()[key@],
    {
        let key = key.to_owned();
        match key_position(&self.store, &key) {
            Some(j) => {
                proof {
                    lemma_index_of_unique(keys_of(self.store@), j as int);
                    assert(keys_of(self.store@)[j as int] == key@);
                }
                Some(self.store[j].1.clone())
            },
            None => None,
        }
    }

    /// Every pair of the store, each key once.
    pub fn list(&self) -> (r: Vec<(String, String)>)
        requires
            self.wf(),
        ensures
            same_pairs(r@, self.store@),
            keys_of(r@).no_duplicates(),
            store_view(r@) == self.view(),
    {
        let r = self.duplicate();
        proof {
            lemma_same_pairs_view(r.store@, self.store@);
        }
        r.store
    }
}

/// The collection names of a list of stores.
pub open spec fn names_in(v: Seq<AegMemoryEngine>) -> Seq<Seq<char>> {
    v.map_values(|e: AegMemoryEngine| e.collection_name@)
}

/// The contents of every cached collection, by name.
pub type CacheView = Map<Seq<char>, Map<Seq<char>, Seq<char>>>;

/// The contents of `name` in a cache; a collection not cached yet is empty.
pub open spec fn store_in(cache: CacheView, name: Seq<char>) -> Map<Seq<char>, Seq<char>> {
    if cache.contains_key(name) {
        cache[name]
    } else {
        Map::empty()
    }
}

/// The value under `key` in the collection `name` of a cache.
pub open spec fn cache_get(cache: CacheView, name: Seq<char>, key: Seq<char>) -> Option<Seq<char>> {
    if store_in(cache, name).contains_key(key) {
        Some(store_in(cache, name)[key])
    } else {
        None
    }
}

/// The cache after `key` is set to `value` in the collection `name`.
pub open spec fn cache_put(cache: CacheView, name: Seq<char>, key: Seq<char>, value: Seq<char>) -> CacheView {
    cache.insert(name, store_in(cache, name).insert(key, value))
}

/// The shared cache: the in-memory store of each collection that has been
/// used since the process started. Persistence reads from it.
pub struct MemoryCache {
    pub engines: Vec<AegMemoryEngine>,
}

/// The position of the store of `name` in `v`.
fn engine_position(v: &Vec<AegMemoryEngine>, name: &String) -> (r: Option<usize>)
    ensures
        r matches Some(i) ==> i < v@.len() && v@[i as int].collection_name@ == name@,
        r is None ==> !names_in(v@).contains(name@),
{
    let mut i: usize = 0;
    while i < v.len()
        invariant
            i <= v@.len(),
            forall|j: int| 0 <= j < i ==> v@[j].collection_name@ != name@,
        decreases v@.len() - i,
    {
        if v[i].collection_name == *name {
            return Some(i);
        }
        i = i + 1;
    }
    assert(!names_in(v@).contains(name@)) by {
        if names_in(v@).contains(name@) {
            let j = choose|j: int| 0 <= j < names_in(v@).len() && names_in(v@)[j] == name@;
            assert(v@[j].collection_name@ == name@);
        }
    }
    None
}

impl MemoryCache {
    /// Each cached collection's contents, by name.
    pub open spec fn view(&self) -> CacheView {
        Map::new(
            |n: Seq<char>| names_in(self.engines@).contains(n),
            |n: Seq<char>| self.engines@[names_in(self.engines@).index_of(n)].view(),
        )
    }

    /// No collection twice, and each store well formed.
    pub open spec fn wf(&self) -> bool {
        &&& names_in(self.engines@).no_duplicates()
        &&& forall|i: int| 0 <= i < self.engines@.len() ==> #[trigger] self.engines@[i].wf()
    }

    /// An empty cache.
    pub fn new() -> (r: MemoryCache)
        ensures
            r.wf(),
            r.view() == CacheView::empty(),
    {
        let r = MemoryCache { engines: Vec::new() };
        assert(r.view() =~= CacheView::empty());
        r
    }

    /// Whether `name` is cached.
    pub fn contains(&self, name: &str) -> (r: bool)
        ensures
            r == self.view().contains_key(name@),
    {
        let name = name.to_owned();
        match engine_position(&self.engines, &name) {
            Some(j) => {
                assert(names_in(self.engines@)[j as int] == name@);
                true
            },
            None => false,
        }
    }

    /// A copy of the cached store of `name`.
    pub fn lookup(&self, name: &str) -> (r: Option<AegMemoryEngine>)
        requires
            self.wf(),
        ensures
            r is Some <==> self.view().contains_key(name@),
            r matches Some(e) ==> e.wf() && e.view() == self.view()[name@] && e.collection_name@
                == name@,
    {
        let name = name.to_owned();
        match engine_position(&self.engines, &name) {
            Some(j) => {
                proof {
                    assert(names_in(self.engines@)[j as int] == name@);
                    lemma_index_of_unique(names_in(self.engines@), j as int);
                    assert(self.engines@[j as int].wf());
                }
                Some(self.engines[j].duplicate())
            },
            None => None,
        }
    }

    /// Puts a copy of `engine` in the cache, in place of what it held for
    /// that collection.
    pub fn publish(&mut self, engine: &AegMemoryEngine)
        requires
            old(self).wf(),
            engine.wf(),
        ensures
            final(self).wf(),
            final(self).view() == old(self).view().insert(engine.collection_name@, engine.view()),
    {
        let ghost before = self.engines@;
        let copy = engine.duplicate();
        let ghost n = copy.collection_name@;
        let ghost m = copy.view();
        match engine_position(&self.engines, &engine.collection_name) {
            Some(j) => {
                self.engines.set(j, copy);
                let ghost after = self.engines@;
                assert(names_in(after) =~= names_in(before));
                assert forall|i: int| 0 <= i < after.len() implies #[trigger] after[i].wf() by {
                    if i != j {
                        assert(before[i].wf());
                    }
                }
                assert(self.view() =~= Map::new(
                    |x: Seq<char>| names_in(before).contains(x),
                    |x: Seq<char>| before[names_in(before).index_of(x)].view(),
                ).insert(n, m)) by {
                    lemma_index_of_unique(names_in(before), j as int);
                }
            },
            None => {
                self.engines.push(copy);
                let ghost after = self.engines@;
                assert(names_in(after) =~= names_in(before).push(n));
                assert(names_in(after).no_duplicates()) by {
                    let s = names_in(after);
                    assert forall|a: int, b: int| 0 <= a < s.len() && 0 <= b < s.len() && a != b implies s[a]
                        != s[b] by {
                        if a < before.len() && b < before.len() {
                            assert(names_in(before)[a] == s[a] && names_in(before)[b] == s[b]);
                        } else if a < before.len() {
                            assert(names_in(before)[a] == s[a]);
                        } else {
                            assert(names_in(before)[b] == s[b]);
                        }
                    }
                }
                assert forall|i: int| 0 <= i < after.len() implies #[trigger] after[i].wf() by {
                    if i < before.len() {
                        assert(before[i].wf());
                    }
                }
                let ghost old_view = Map::new(
                    |x: Seq<char>| names_in(before).contains(x),
                    |x: Seq<char>| before[names_in(before).index_of(x)].view(),
                );
                assert(self.view() =~= old_view.insert(n, m)) by {
                    lemma_index_of_unique(names_in(after), before.len() as int);
                    assert(names_in(after)[before.len() as int] == n);
                    assert forall|x: Seq<char>| #[trigger] names_in(after).contains(x) implies names_in(
                        before,
                    ).contains(x) || x == n by {
                        let i = choose|i: int| 0 <= i < names_in(after).len() && names_in(after)[i] == x;
                        if i < before.len() {
                            assert(names_in(before)[i] == x);
                        }
                    }
                    assert forall|x: Seq<char>| #[trigger] names_in(before).contains(x) implies names_in(
                        after,
                    ).contains(x) && self.view()[x] == old_view[x] by {
                        let i = names_in(before).index_of(x);
                        assert(names_in(before)[i] == x);
                        lemma_index_of_unique(names_in(before), i);
                        assert(names_in(after)[i] == x);
                        lemma_index_of_unique(names_in(after), i);
                    }
                }
            },
        }
    }

    /// Copies of every cached store, for persistence.
    pub fn snapshot(&self) -> (r: Vec<AegMemoryEngine>)
        requires
            self.wf(),
        ensures
            r@.len() == self.engines@.len(),
            names_in(r@) == names_in(self.engines@),
            forall|i: int| 0 <= i < r@.len() ==> #[trigger] r@[i].wf() && r@[i].view()
                == self.engines@[i].view(),
            forall|n: Seq<char>| #[trigger] self.view().contains_key(n) ==> (exists|i: int|
                0 <= i < r@.len() && r@[i].collection_name@ == n && r@[i].view() == self.view()[n]),
    {
        let mut r: Vec<AegMemoryEngine> = Vec::new();
        let mut i: usize = 0;
        while i < self.engines.len()
            invariant
                self.wf(),
                i <= self.engines@.len(),
                r@.len() == i,
                forall|k: int| 0 <= k < i ==> #[trigger] r@[k].wf(),
                forall|k: int| 0 <= k < i ==> #[trigger] r@[k].view() == self.engines@[k].view(),
                forall|k: int|
                    0 <= k < i ==> #[trigger] r@[k].collection_name@ == self.engines@[k].collection_name@,
            decreases self.engines@.len() - i,
        {
            assert(self.engines@[i as int].wf());
            r.push(self.engines[i].duplicate());
            i = i + 1;
        }
        assert(names_in(r@) =~= names_in(self.engines@));
        assert forall|n: Seq<char>| #[trigger] self.view().contains_key(n) implies (exists|i: int|
            0 <= i < r@.len() && r@[i].collection_name@ == n && r@[i].view() == self.view()[n]) by {
            let i = names_in(self.engines@).index_of(n);
            assert(names_in(self.engines@)[i] == n);
            assert(r@[i].collection_name@ == n);
            assert(r@[i].view() == self.view()[n]);
        }
        r
    }
}

impl AegMemoryEngine {
    /// Sets `key` to `value`, then publishes the store to the cache. Nothing
    /// is written to disk.
    pub fn insert(&mut self, key: &str, value: &str, cache: &mut MemoryCache)
        requires
            old(self).wf(),
            old(cache).wf(),
        ensures
            final(self).wf(),
            final(self).view() == old(self).view().insert(key@, value@),
            final(self).collection_name == old(self).collection_name,
            final(cache).wf(),
            final(cache).view() == old(cache).view().insert(
                old(self).collection_name@,
                final(self).view(),
            ),
    {
        self.put_local(key.to_owned(), value.to_owned());
        cache.publish(self);
    }

    /// Removes `key`, then publishes the store to the cache. Nothing is
    /// written to disk.
    pub fn delete(&mut self, key: &str, cache: &mut MemoryCache)
        requires
            old(self).wf(),
            old(cache).wf(),
        ensures
            final(self).wf(),
            final(self).view() == old(self).view().remove(key@),
            final(self).collection_name == old(self).collection_name,
            final(cache).wf(),
            final(cache).view() == old(cache).view().insert(
                old(self).collection_name@,
                final(self).view(),
            ),
    {
        let key = key.to_owned();
        self.remove_local(&key);
        cache.publish(self);
    }

    /// Removes every key, then publishes the store to the cache. Nothing is
    /// written to disk.
    pub fn clear(&mut self, cache: &mut MemoryCache)
        requires
            old(self).wf(),
            old(cache).wf(),
        ensures
            final(self).wf(),
            final(self).view() == Map::<Seq<char>, Seq<char>>::empty(),
            final(self).collection_name == old(self).collection_name,
            final(cache).wf(),
            final(cache).view() == old(cache).view().insert(
                old(self).collection_name@,
                Map::<Seq<char>, Seq<char>>::empty(),
            ),
    {
        self.store = Vec::new();
        assert(self.view() =~= Map::<Seq<char>, Seq<char>>::empty());
        cache.publish(self);
    }

    /// A store for `collection_name` holding the pairs inserted in order, a
    /// later pair winning over an earlier one with the same key.
    pub fn from_pairs(collection_name: &str, pairs: Vec<(String, String)>) -> (r: AegMemoryEngine)
        ensures
            r.wf(),
            r.view() == map_of_pairs(pairs@),
            r.collection_name@ == collection_name@,
    {
        let mut r = AegMemoryEngine::new(collection_name);
        let mut i: usize = 0;
        while i < pairs.len()
            invariant
                i <= pairs@.len(),
                r.wf(),
                r.view() == map_of_pairs(pairs@.take(i as int)),
                r.collection_name@ == collection_name@,
            decreases pairs@.len() - i,
        {
            let k = pairs[i].0.clone();
            let v = pairs[i].1.clone();
            r.put_local(k, v);
            assert(pairs@.take(i + 1).drop_last() =~= pairs@.take(i as int));
            i = i + 1;
        }
        assert(pairs@.take(pairs@.len() as int) =~= pairs@);
        r
    }

    /// The store of `collection`: the cached one when there is one; else the
    /// one read from disk (`stored`), or an empty one when nothing usable was
    /// read. A store not cached before is cached afterwards.
    pub fn load(cache: &mut MemoryCache, collection: &str, stored: Option<AegMemoryEngine>) -> (r:
        AegMemoryEngine)
        requires
            old(cache).wf(),
            stored matches Some(e) ==> e.wf(),
        ensures
            r.wf(),
            r.collection_name@ == collection@,
            final(cache).wf(),
            old(cache).view().contains_key(collection@) ==> r.view() == old(cache).view()[collection@]
                && final(cache).view() == old(cache).view(),
            !old(cache).view().contains_key(collection@) ==> r.view() == (match stored {
                Some(e) => e.view(),
                None => Map::<Seq<char>, Seq<char>>::empty(),
            }) && final(cache).view() == old(cache).view().insert(collection@, r.view()),
    {
        if let Some(e) = cache.lookup(collection) {
            return e;
        }
        let mut r = AegMemoryEngine::new(collection);
        if let Some(e) = stored {
            r.store = e.store;
        }
        cache.publish(&r);
        r
    }
}

impl MemoryCache {
    /// Drops the cached store of `name`, as when its collection is deleted.
    pub fn discard(&mut self, name: &str)
        requires
            old(self).wf(),
        ensures
            final(self).wf(),
            final(self).view() == old(self).view().remove(name@),
    {
        let ghost before = self.engines@;
        let ghost old_view = self.view();
        let name = name.to_owned();
        match engine_position(&self.engines, &name) {
            Some(j) => {
                self.engines.remove(j);
                let ghost after = self.engines@;
                assert(names_in(after) =~= names_in(before).remove(j as int));
                assert(names_in(after).no_duplicates()) by {
                    let s = names_in(after);
                    assert forall|a: int, b: int| 0 <= a < s.len() && 0 <= b < s.len() && a != b implies s[a]
                        != s[b] by {
                        let a2 = if a < j { a } else { a + 1 };
                        let b2 = if b < j { b } else { b + 1 };
                        assert(names_in(before)[a2] == s[a] && names_in(before)[b2] == s[b]);
                    }
                }
                assert forall|i: int| 0 <= i < after.len() implies #[trigger] after[i].wf() by {
                    let i2 = if i < j { i } else { i + 1 };
                    assert(before[i2].wf());
                    assert(after[i] == before[i2]);
                }
                assert(self.view() =~= old_view.remove(name@)) by {
                    lemma_index_of_unique(names_in(before), j as int);
                    assert forall|x: Seq<char>| #[trigger] names_in(after).contains(x) implies self.view()[x]
                        == old_view[x] && x != name@ by {
                        let i = names_in(after).index_of(x);
                        assert(names_in(after)[i] == x);
                        lemma_index_of_unique(names_in(after), i);
                        let i2 = if i < j { i } else { i + 1 };
                        assert(names_in(before)[i2] == x);
                        lemma_index_of_unique(names_in(before), i2);
                    }
                    assert forall|x: Seq<char>| #[trigger] names_in(before).contains(x) && x != name@ implies names_in(
                        after,
                    ).contains(x) by {
                        let i = names_in(before).index_of(x);
                        assert(names_in(before)[i] == x);
                        assert(i != j);
                        let i2 = if i < j { i } else { i - 1 };
                        assert(names_in(after)[i2] == x);
                    }
                }
            },
            None => {
                assert(old_view =~= old_view.remove(name@));
            },
        }
    }
}

proof fn lemma_store_view_push(v: Seq<(String, String)>)
    requires
        v.len() > 0,
        keys_of(v).no_duplicates(),
    ensures
        keys_of(v.drop_last()).no_duplicates(),
        store_view(v) == store_view(v.drop_last()).insert(v.last().0@, v.last().1@),
{
    let before = v.drop_last();
    let n = before.len() as int;
    assert(keys_of(before) =~= keys_of(v).drop_last());
    assert(keys_of(before).no_duplicates()) by {
        let s = keys_of(before);
        assert forall|a: int, b: int| 0 <= a < s.len() && 0 <= b < s.len() && a != b implies s[a]
            != s[b] by {
            assert(keys_of(v)[a] == s[a] && keys_of(v)[b] == s[b]);
        }
    }
    let k = v.last().0@;
    lemma_index_of_unique(keys_of(v), n);
    assert(keys_of(v)[n] == k);
    assert forall|x: Seq<char>| #[trigger] keys_of(v).contains(x) implies keys_of(before).contains(x)
        || x == k by {
        let i = choose|i: int| 0 <= i < keys_of(v).len() && keys_of(v)[i] == x;
        if i < n {
            assert(keys_of(before)[i] == x);
        }
    }
    assert forall|x: Seq<char>| #[trigger] keys_of(before).contains(x) implies keys_of(v).contains(x)
        && store_view(v)[x] == store_view(before)[x] by {
        let i = keys_of(before).index_of(x);
        assert(keys_of(before)[i] == x);
        lemma_index_of_unique(keys_of(before), i);
        assert(keys_of(v)[i] == x);
        lemma_index_of_unique(keys_of(v), i);
    }
    assert(store_view(v) =~= store_view(before).insert(k, v.last().1@));
}

/// Rebuilding a store from the pairs it lists, inserted in order, gives the
/// same contents.
pub proof fn lemma_listed_pairs_rebuild(v: Seq<(String, String)>)
    requires
        keys_of(v).no_duplicates(),
    ensures
        map_of_pairs(v) == store_view(v),
    decreases v.len(),
{
    if v.len() == 0 {
        assert(store_view(v) =~= Map::<Seq<char>, Seq<char>>::empty());
    } else {
        lemma_store_view_push(v);
        lemma_listed_pairs_rebuild(v.drop_last());
    }
}

/// A value set in a collection is read back from the cache, with nothing
/// written to disk in between.
pub proof fn lemma_put_then_get(cache: CacheView, name: Seq<char>, key: Seq<char>, value: Seq<char>)
    ensures
        cache_get(cache_put(cache, name, key, value), name, key) == Some(value),
{
}

/// Rebuilding a store from the pairs that `list` gives, in their order, gives
/// back its contents: the step of reloading a flushed collection that follows
/// opening its file.
pub proof fn lemma_reload_gives_contents(e: AegMemoryEngine, listed: Seq<(String, String)>)
    requires
        e.wf(),
        same_pairs(listed, e.store@),
    ensures
        map_of_pairs(listed) == e.view(),
{
    lemma_same_pairs_view(listed, e.store@);
    lemma_listed_pairs_rebuild(listed);
}

impl AegCore {
    /// The active collection's store in `cache`, or an empty one.
    fn active_engine(&self, cache: &MemoryCache) -> (r: AegMemoryEngine)
        requires
            cache.wf(),
        ensures
            r.wf(),
            r.view() == store_in(cache.view(), self.active_collection@),
            r.collection_name@ == self.active_collection@,
    {
        match cache.lookup(self.active_collection.as_str()) {
            Some(e) => e,
            None => AegMemoryEngine::new(self.active_collection.as_str()),
        }
    }

    /// Sets `key` to `value` in the active collection, in memory only; the
    /// saver or an explicit flush persists it later.
    pub fn put_value(&self, cache: &mut MemoryCache, key: &str, value: &str)
        requires
            old(cache).wf(),
        ensures
            final(cache).wf(),
            final(cache).view() == cache_put(old(cache).view(), self.active_collection@, key@, value@),
    {
        let mut engine = self.active_engine(cache);
        engine.insert(key, value, cache);
    }

    /// The value under `key` in the active collection, from memory.
    pub fn get_value(&self, cache: &MemoryCache, key: &str) -> (r: Option<String>)
        requires
            cache.wf(),
        ensures
            r is Some <==> cache_get(cache.view(), self.active_collection@, key@) is Some,
            r matches Some(v) ==> cache_get(cache.view(), self.active_collection@, key@) == Some(
                v@,
            ),
    {
        let engine = self.active_engine(cache);
        engine.get(key)
    }

    /// Removes `key` from the active collection, in memory only. Returns
    /// whether the key was there; when it was not, nothing changes.
    pub fn delete_value(&self, cache: &mut MemoryCache, key: &str) -> (r: bool)
        requires
            old(cache).wf(),
        ensures
            final(cache).wf(),
            r == store_in(old(cache).view(), self.active_collection@).contains_key(key@),
            r ==> final(cache).view() == old(cache).view().insert(
                self.active_collection@,
                store_in(old(cache).view(), self.active_collection@).remove(key@),
            ),
            !r ==> final(cache).view() == old(cache).view(),
    {
        let mut engine = self.active_engine(cache);
        if engine.get(key).is_some() {
            engine.delete(key, cache);
            true
        } else {
            false
        }
    }

    /// Removes every key of the active collection, in memory only.
    pub fn clear_values(&self, cache: &mut MemoryCache)
        requires
            old(cache).wf(),
        ensures
            final(cache).wf(),
            final(cache).view() == old(cache).view().insert(
                self.active_collection@,
                Map::<Seq<char>, Seq<char>>::empty(),
            ),
    {
        let mut engine = self.active_engine(cache);
        engine.clear(cache);
    }

    /// What an immediate flush writes: a copy of every cached store, taken at
    /// once so that the cache is held only for the copy.
    pub fn flush_now(cache: &MemoryCache) -> (r: Vec<AegMemoryEngine>)
        requires
            cache.wf(),
        ensures
            names_in(r@).no_duplicates(),
            forall|i: int| 0 <= i < r@.len() ==> #[trigger] r@[i].wf(),
            forall|n: Seq<char>| #[trigger] cache.view().contains_key(n) ==> (exists|i: int|
                0 <= i < r@.len() && r@[i].collection_name@ == n && r@[i].view() == cache.view()[n]),
            forall|i: int| 0 <= i < r@.len() ==> cache.view().contains_key(#[trigger] r@[i].collection_name@),
    {
        let r = cache.snapshot();
        assert forall|i: int| 0 <= i < r@.len() implies cache.view().contains_key(#[trigger] r@[i].collection_name@) by {
            assert(names_in(r@)[i] == r@[i].collection_name@);
            assert(names_in(cache.engines@)[i] == r@[i].collection_name@);
        }
        r
    }
}

} // verus!
