//! An unencrypted key-value cache whose entries may expire. Expiry is checked
//! lazily, only when the exact key is read; times are seconds since the epoch,
//! supplied by the caller.

use vstd::prelude::*;

use crate::memory::lemma_index_of_unique;

verus! {

/// A cached value and the time from which it is gone, if any.
pub struct CacheEntry {
    pub value: String,
    pub expires_at: Option<u64>,
}

/// A key and its entry.
pub struct CacheSlot {
    pub key: String,
    pub entry: CacheEntry,
}

/// The expiring cache.
pub struct TtlCache {
    pub slots: Vec<CacheSlot>,
}

/// An entry as values: its text and its expiry.
pub type EntryView = (Seq<char>, Option<u64>);

/// The keys of a list of slots.
pub open spec fn slot_keys(v: Seq<CacheSlot>) -> Seq<Seq<char>> {
    v.map_values(|s: CacheSlot| s.key@)
}

/// The entry of a slot, as values.
pub open spec fn entry_view(s: CacheSlot) -> EntryView {
    (s.entry.value@, s.entry.expires_at)
}

/// The expiry of an entry set at `now` with a time to live: `now + ttl`,
/// capped at the largest time.
pub open spec fn expiry_of(ttl: Option<u64>, now: u64) -> Option<u64> {
    match ttl {
        Some(t) => Some(if now + t > u64::MAX { u64::MAX } else { (now + t) as u64 }),
        None => None,
    }
}

/// Whether an entry with this expiry is gone at `now`.
pub open spec fn expired(expires_at: Option<u64>, now: u64) -> bool {
    expires_at matches Some(t) && now >= t
}

/// What a read of `key` at `now` returns.
pub open spec fn ttl_lookup(m: Map<Seq<char>, EntryView>, key: Seq<char>, now: u64) -> Option<
    Seq<char>,
> {
    if m.contains_key(key) && !expired(m[key].1, now) {
        Some(m[key].0)
    } else {
        None
    }
}

/// The cache after a read of `key` at `now`: an expired entry is dropped.
pub open spec fn ttl_after_read(m: Map<Seq<char>, EntryView>, key: Seq<char>, now: u64) -> Map<
    Seq<char>,
    EntryView,
> {
    if m.contains_key(key) && expired(m[key].1, now) {
        m.remove(key)
    } else {
        m
    }
}

/// The entries set by the slots in order: a later slot wins.
pub open spec fn map_of_slots(v: Seq<CacheSlot>) -> Map<Seq<char>, EntryView>
    decreases v.len(),
{
    if v.len() == 0 {
        Map::empty()
    } else {
        map_of_slots(v.drop_last()).insert(v.last().key@, entry_view(v.last()))
    }
}

/// An entry set with a time to live of zero is gone at every later read.
pub proof fn lemma_zero_ttl_expires(
    m: Map<Seq<char>, EntryView>,
    key: Seq<char>,
    value: Seq<char>,
    set_at: u64,
    read_at: u64,
)
    requires
        set_at <= read_at,
    ensures
        ttl_lookup(m.insert(key, (value, expiry_of(Some(0u64), set_at))), key, read_at) is None,
{
}

/// An entry set without a time to live is read back at any time.
pub proof fn lemma_no_ttl_persists(
    m: Map<Seq<char>, EntryView>,
    key: Seq<char>,
    value: Seq<char>,
    set_at: u64,
    read_at: u64,
)
    ensures
        ttl_lookup(m.insert(key, (value, expiry_of(None, set_at))), key, read_at) == Some(value),
        ttl_after_read(m.insert(key, (value, expiry_of(None, set_at))), key, read_at) == m.insert(
            key,
            (value, expiry_of(None, set_at)),
        ),
{
}

/// The position of `key` among the slots.
fn slot_position(v: &Vec<CacheSlot>, key: &String) -> (r: Option<usize>)
    ensures
        r matches Some(i) ==> i < v@.len() && v@[i as int].key@ == key@,
        r is None ==> !slot_keys(v@).contains(key@),
{
    let mut i: usize = 0;
    while i < v.len()
        invariant
            i <= v@.len(),
            forall|j: int| 0 <= j < i ==> v@[j].key@ != key@,
        decreases v@.len() - i,
    {
        if v[i].key == *key {
            return Some(i);
        }
        i = i + 1;
    }
    assert(!slot_keys(v@).contains(key@)) by {
        if slot_keys(v@).contains(key@) {
            let j = choose|j: int| 0 <= j < slot_keys(v@).len() && slot_keys(v@)[j] == key@;
            assert(v@[j].key@ == key@);
        }
    }
    None
}

impl TtlCache {
    /// Each key's entry.
    pub open spec fn view(&self) -> Map<Seq<char>, EntryView> {
        Map::new(
            |k: Seq<char>| slot_keys(self.slots@).contains(k),
            |k: Seq<char>| entry_view(self.slots@[slot_keys(self.slots@).index_of(k)]),
        )
    }

    /// No key twice.
    pub open spec fn wf(&self) -> bool {
        slot_keys(self.slots@).no_duplicates()
    }

    /// An empty cache.
    pub fn new() -> (r: TtlCache)
        ensures
            r.wf(),
            r.view() == Map::<Seq<char>, EntryView>::empty(),
    {
        let r = TtlCache { slots: Vec::new() };
        assert(r.view() =~= Map::<Seq<char>, EntryView>::empty());
        r
    }

    /// Stores `value` under `key` at time `now`, to expire `ttl` seconds
    /// later, or never without a `ttl`.
    pub fn set(&mut self, key: &str, value: &str, ttl: Option<u64>, now: u64)
        requires
            old(self).wf(),
        ensures
            final(self).wf(),
            final(self).view() == old(self).view().insert(key@, (value@, expiry_of(ttl, now))),
    {
        let expires_at = match ttl {
            Some(t) => Some(
                if t > u64::MAX - now {
                    u64::MAX
                } else {
                    now + t
                },
            ),
            None => None,
        };
        let slot = CacheSlot {
            key: key.to_owned(),
            entry: CacheEntry { value: value.to_owned(), expires_at },
        };
        self.put_slot(slot);
    }

    fn put_slot(&mut self, slot: CacheSlot)
        requires
            old(self).wf(),
        ensures
            final(self).wf(),
            final(self).view() == old(self).view().insert(slot.key@, entry_view(slot)),
    {
        let ghost before = self.slots@;
        let ghost k = slot.key@;
        let ghost e = entry_view(slot);
        match slot_position(&self.slots, &slot.key) {
            Some(j) => {
                self.slots.set(j, slot);
                assert(slot_keys(self.slots@) =~= slot_keys(before));
                assert(self.view() =~= Map::new(
                    |x: Seq<char>| slot_keys(before).contains(x),
                    |x: Seq<char>| entry_view(before[slot_keys(before).index_of(x)]),
                ).insert(k, e)) by {
                    lemma_index_of_unique(slot_keys(before), j as int);
                }
            },
            None => {
                self.slots.push(slot);
                let ghost after = self.slots@;
                assert(slot_keys(after) =~= slot_keys(before).push(k));
                assert(slot_keys(after).no_duplicates()) by {
                    let s = slot_keys(after);
                    assert forall|a: int, b: int| 0 <= a < s.len() && 0 <= b < s.len() && a != b implies s[a]
                        != s[b] by {
                        if a < before.len() && b < before.len() {
                            assert(slot_keys(before)[a] == s[a] && slot_keys(before)[b] == s[b]);
                        } else if a < before.len() {
                            assert(slot_keys(before)[a] == s[a]);
                        } else {
                            assert(slot_keys(before)[b] == s[b]);
                        }
                    }
                }
                let ghost old_view = Map::new(
                    |x: Seq<char>| slot_keys(before).contains(x),
                    |x: Seq<char>| entry_view(before[slot_keys(before).index_of(x)]),
                );
                assert(self.view() =~= old_view.insert(k, e)) by {
                    lemma_index_of_unique(slot_keys(after), before.len() as int);
                    assert(slot_keys(after)[before.len() as int] == k);
                    assert forall|x: Seq<char>| #[trigger] slot_keys(after).contains(x) implies slot_keys(
                        before,
                    ).contains(x) || x == k by {
                        let i = choose|i: int| 0 <= i < slot_keys(after).len() && slot_keys(after)[i] == x;
                        if i < before.len() {
                            assert(slot_keys(before)[i] == x);
                        }
                    }
                    assert forall|x: Seq<char>| #[trigger] slot_keys(before).contains(x) implies slot_keys(
                        after,
                    ).contains(x) && self.view()[x] == old_view[x] by {
                        let i = slot_keys(before).index_of(x);
                        assert(slot_keys(before)[i] == x);
                        lemma_index_of_unique(slot_keys(before), i);
                        assert(slot_keys(after)[i] == x);
                        lemma_index_of_unique(slot_keys(after), i);
                    }
                }
            },
        }
    }

    /// The value under `key` at time `now`. An entry whose expiry has come is
    /// removed, and nothing is returned for it.
    pub fn get(&mut self, key: &str, now: u64) -> (r: Option<String>)
        requires
            old(self).wf(),
        ensures
            final(self).wf(),
            r is Some <==> ttl_lookup(old(self).view(), key@, now) is Some,
            r matches Some(v) ==> ttl_lookup(old(self).view(), key@, now) == Some(v@),
            final(self).view() == ttl_after_read(old(self).view(), key@, now),
    {
        let key = key.to_owned();
        let ghost before = self.slots@;
        let ghost old_view = self.view();
        match slot_position(&self.slots, &key) {
            Some(j) => {
                proof {
                    lemma_index_of_unique(slot_keys(before), j as int);
                    assert(slot_keys(before)[j as int] == key@);
                }
                let gone = match self.slots[j].entry.expires_at {
                    Some(t) => now >= t,
                    None => false,
                };
                if gone {
                    self.slots.remove(j);
                    let ghost after = self.slots@;
                    assert(slot_keys(after) =~= slot_keys(before).remove(j as int));
                    assert(slot_keys(after).no_duplicates()) by {
                        let s = slot_keys(after);
                        assert forall|a: int, b: int| 0 <= a < s.len() && 0 <= b < s.len() && a != b implies s[a]
                            != s[b] by {
                            let a2 = if a < j { a } else { a + 1 };
                            let b2 = if b < j { b } else { b + 1 };
                            assert(slot_keys(before)[a2] == s[a] && slot_keys(before)[b2] == s[b]);
                        }
                    }
                    assert(self.view() =~= old_view.remove(key@)) by {
                        assert forall|x: Seq<char>| #[trigger] slot_keys(after).contains(x) implies self.view()[x]
                            == old_view[x] && x != key@ by {
                            let i = slot_keys(after).index_of(x);
                            assert(slot_keys(after)[i] == x);
                            lemma_index_of_unique(slot_keys(after), i);
                            let i2 = if i < j { i } else { i + 1 };
                            assert(slot_keys(before)[i2] == x);
                            lemma_index_of_unique(slot_keys(before), i2);
                        }
                        assert forall|x: Seq<char>| #[trigger] slot_keys(before).contains(x) && x != key@ implies slot_keys(
                            after,
                        ).contains(x) by {
                            let i = slot_keys(before).index_of(x);
                            assert(slot_keys(before)[i] == x);
                            assert(i != j);
                            let i2 = if i < j { i } else { i - 1 };
                            assert(slot_keys(after)[i2] == x);
                        }
                    }
                    None
                } else {
                    Some(self.slots[j].entry.value.clone())
                }
            },
            None => None,
        }
    }

    /// A cache holding the given slots set in order, a later slot winning
    /// over an earlier one with the same key. Expired entries are kept: they
    /// are dropped only when read.
    pub fn from_slots(slots: Vec<CacheSlot>) -> (r: TtlCache)
        ensures
            r.wf(),
            r.view() == map_of_slots(slots@),
    {
        let mut r = TtlCache::new();
        let mut i: usize = 0;
        while i < slots.len()
            invariant
                i <= slots@.len(),
                r.wf(),
                r.view() == map_of_slots(slots@.take(i as int)),
            decreases slots@.len() - i,
        {
            let slot = CacheSlot {
                key: slots[i].key.clone(),
                entry: CacheEntry {
                    value: slots[i].entry.value.clone(),
                    expires_at: slots[i].entry.expires_at,
                },
            };
            r.put_slot(slot);
            assert(slots@.take(i + 1).drop_last() =~= slots@.take(i as int));
            i = i + 1;
        }
        assert(slots@.take(slots@.len() as int) =~= slots@);
        r
    }
}

} // verus!
