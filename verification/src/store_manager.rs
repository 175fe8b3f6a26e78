//! The cache engine: a bounded store that evicts the least recently used
//! key and treats expired items as absent.

pub mod list;

use crate::clock::unix_now;
use crate::item::{Item, ItemView};
use list::{moved_to_front, promoted, List};
use vstd::hash_map::StringHashMap;
use vstd::prelude::*;

verus! {

/// The capacity of a store that is made without naming one.
pub const MAX_ALLOWED_ITEMS: usize = 5;

/// What a cache holds: its items by key, the keys from the most recently
/// used to the least recently used, and the number of items it has room for.
pub struct CacheState {
    pub entries: Map<Seq<char>, ItemView>,
    pub order: Seq<Seq<char>>,
    pub capacity: nat,
}

impl CacheState {
    /// Every key stands exactly once in the order, the order holds nothing
    /// but the keys, and there are no more keys than the capacity allows.
    pub open spec fn inv(self) -> bool {
        &&& self.capacity >= 1
        &&& self.order.no_duplicates()
        &&& self.order.to_set() == self.entries.dom()
        &&& self.order.len() <= self.capacity
    }

    /// An empty cache with room for `capacity` items.
    pub open spec fn empty(capacity: nat) -> CacheState {
        CacheState { entries: Map::empty(), order: Seq::empty(), capacity }
    }

    /// The cache after `key` was used.
    pub open spec fn touched(self, key: Seq<char>) -> CacheState {
        CacheState { order: promoted(self.order, key), ..self }
    }

    /// The cache after `item` was stored under `key`. A key that is there
    /// keeps its place in the store and is used; a new key comes in as the
    /// most recently used, and where the cache is full, the least recently
    /// used key leaves for it, expired or not.
    pub open spec fn inserted(self, key: Seq<char>, item: ItemView) -> CacheState {
        if self.entries.contains_key(key) {
            CacheState { entries: self.entries.insert(key, item), ..self.touched(key) }
        } else if self.order.len() < self.capacity {
            CacheState {
                entries: self.entries.insert(key, item),
                order: seq![key] + self.order,
                ..self
            }
        } else {
            CacheState {
                entries: self.entries.remove(self.order.last()).insert(key, item),
                order: seq![key] + self.order.drop_last(),
                ..self
            }
        }
    }

    /// Whether `key` holds an item that has not expired at `now`.
    pub open spec fn live(self, key: Seq<char>, now: i64) -> bool {
        self.entries.contains_key(key) && !self.entries[key].expired_at(now)
    }

    /// What a read of `key` at `now` yields: the item, unless it is absent
    /// or expired.
    pub open spec fn lookup(self, key: Seq<char>, now: i64) -> Option<ItemView> {
        if self.live(key, now) {
            Some(self.entries[key])
        } else {
            None
        }
    }

    /// The cache after a read of `key` at `now`: a hit uses the key, a miss
    /// changes nothing, so an expired item stays where it is.
    pub open spec fn read(self, key: Seq<char>, now: i64) -> CacheState {
        if self.live(key, now) {
            self.touched(key)
        } else {
            self
        }
    }

    /// The cache after the value of `key` was overwritten. The flags, the
    /// expiry and the recency of the key stay as they are; an absent key
    /// changes nothing.
    pub open spec fn updated(self, key: Seq<char>, value: Seq<char>, length: usize) -> CacheState {
        if self.entries.contains_key(key) {
            CacheState {
                entries: self.entries.insert(
                    key,
                    ItemView { value, value_length: length, ..self.entries[key] },
                ),
                ..self
            }
        } else {
            self
        }
    }
}

/// Moving an element to the front neither adds nor loses one.
pub proof fn lemma_moved_to_front<A>(s: Seq<A>, i: int)
    requires
        0 <= i < s.len(),
    ensures
        moved_to_front(s, i).len() == s.len(),
        forall|x: A| moved_to_front(s, i).contains(x) <==> s.contains(x),
        s.no_duplicates() ==> moved_to_front(s, i).no_duplicates(),
{
    let t = moved_to_front(s, i);
    assert forall|x: A| t.contains(x) <==> s.contains(x) by {
        if s.contains(x) {
            let q = choose|q: int| 0 <= q < s.len() && s[q] == x;
            assert(t[if q == i { 0 } else if q < i { q + 1 } else { q }] == x);
        }
    }
}

/// Promoting a key neither adds nor loses one.
pub proof fn lemma_promoted<A>(s: Seq<A>, v: A)
    ensures
        promoted(s, v).len() == s.len(),
        forall|x: A| promoted(s, v).contains(x) <==> s.contains(x),
        s.no_duplicates() ==> promoted(s, v).no_duplicates(),
        promoted(s, v).to_set() == s.to_set(),
        s.contains(v) ==> promoted(s, v)[0] == v,
{
    s.index_of_first_ensures(v);
    match s.index_of_first(v) {
        Some(i) => {
            lemma_moved_to_front(s, i);
        },
        None => {},
    }
}

/// Storing an item keeps a cache in order.
pub proof fn lemma_inserted_keeps_inv(state: CacheState, key: Seq<char>, item: ItemView)
    requires
        state.inv(),
    ensures
        state.inserted(key, item).inv(),
        state.inserted(key, item).entries.contains_key(key),
        state.inserted(key, item).entries[key] == item,
        state.inserted(key, item).order[0] == key,
{
    let after = state.inserted(key, item);
    if state.entries.contains_key(key) {
        lemma_promoted(state.order, key);
        assert(after.entries.dom() =~= state.entries.dom());
    } else {
        // The order is the new key in front of the old keys, without the
        // last of them where the cache was full.
        let kept = if state.order.len() < state.capacity {
            state.order
        } else {
            state.order.drop_last()
        };
        assert(after.order == seq![key] + kept);
        assert(!state.order.contains(key)) by {
            assert(!state.order.to_set().contains(key));
        }
        assert forall|p: int| 0 <= p < kept.len() implies after.order[p + 1]
            == #[trigger] state.order[p] by {}
        assert forall|x: Seq<char>| after.order.to_set().contains(x)
            <==> after.entries.dom().contains(x) by {
            assert(after.order[0] == key);
            assert(state.order.to_set().contains(x) <==> state.entries.dom().contains(x));
            if state.order.contains(x) {
                let q = choose|q: int| 0 <= q < state.order.len() && state.order[q] == x;
                if q < kept.len() {
                    assert(after.order[q + 1] == x);
                }
            }
        }
        assert(after.order.to_set() =~= after.entries.dom());
    }
}

/// Using a key keeps a cache in order, and keeps what it holds.
pub proof fn lemma_touched_keeps_inv(state: CacheState, key: Seq<char>)
    requires
        state.inv(),
    ensures
        state.touched(key).inv(),
        state.touched(key).entries == state.entries,
{
    lemma_promoted(state.order, key);
}

/// A read keeps a cache in order, and keeps what it holds.
pub proof fn lemma_read_keeps_inv(state: CacheState, key: Seq<char>, now: i64)
    requires
        state.inv(),
    ensures
        state.read(key, now).inv(),
        state.read(key, now).entries == state.entries,
{
    lemma_touched_keeps_inv(state, key);
}

/// Overwriting a value keeps a cache in order, its keys and their recency.
pub proof fn lemma_updated_keeps_inv(
    state: CacheState,
    key: Seq<char>,
    value: Seq<char>,
    length: usize,
)
    requires
        state.inv(),
    ensures
        state.updated(key, value, length).inv(),
        state.updated(key, value, length).order == state.order,
        state.updated(key, value, length).entries.dom() == state.entries.dom(),
{
    assert(state.updated(key, value, length).entries.dom() =~= state.entries.dom());
}

/// The cache after a run of writes, the first of them first.
pub open spec fn inserted_all(state: CacheState, writes: Seq<(Seq<char>, ItemView)>) -> CacheState
    decreases writes.len(),
{
    if writes.len() == 0 {
        state
    } else {
        inserted_all(state, writes.drop_last()).inserted(writes.last().0, writes.last().1)
    }
}

/// Whatever is stored and in whatever order, after each write the cache is
/// in order: it holds no more items than its capacity allows, and the keys
/// of its entries are the keys of its recency order.
pub proof fn lemma_inserts_keep_inv(state: CacheState, writes: Seq<(Seq<char>, ItemView)>)
    requires
        state.inv(),
    ensures
        forall|n: int|
            0 <= n <= writes.len() ==> {
                let after = #[trigger] inserted_all(state, writes.take(n));
                &&& after.inv()
                &&& after.entries.len() <= after.capacity
                &&& after.entries.dom() == after.order.to_set()
                &&& after.capacity == state.capacity
            },
{
    assert forall|n: int| 0 <= n <= writes.len() implies {
        let after = #[trigger] inserted_all(state, writes.take(n));
        &&& after.inv()
        &&& after.entries.len() <= after.capacity
        &&& after.entries.dom() == after.order.to_set()
        &&& after.capacity == state.capacity
    } by {
        lemma_inserted_all(state, writes.take(n));
        lemma_inv_bounds_entries(inserted_all(state, writes.take(n)));
    }
}

/// A run of writes keeps a cache in order.
proof fn lemma_inserted_all(state: CacheState, writes: Seq<(Seq<char>, ItemView)>)
    requires
        state.inv(),
    ensures
        inserted_all(state, writes).inv(),
        inserted_all(state, writes).capacity == state.capacity,
    decreases writes.len(),
{
    if writes.len() > 0 {
        lemma_inserted_all(state, writes.drop_last());
        lemma_inserted_keeps_inv(
            inserted_all(state, writes.drop_last()),
            writes.last().0,
            writes.last().1,
        );
    }
}

/// A cache in order holds as many items as its order has keys, and so no
/// more than its capacity.
pub proof fn lemma_inv_bounds_entries(state: CacheState)
    requires
        state.inv(),
    ensures
        state.entries.dom().finite(),
        state.entries.len() == state.order.len(),
        state.entries.len() <= state.capacity,
{
    state.order.unique_seq_to_set();
}

struct Entry {
    item: Item,
    slot: usize,
}

/// The cache engine.
pub struct StoreManager {
    store: StringHashMap<Entry>,
    max_allowed_items: usize,
    list: List,
}

impl View for StoreManager {
    type V = CacheState;

    closed spec fn view(&self) -> CacheState {
        CacheState {
            entries: self.store@.map_values(|e: Entry| e.item@),
            order: self.list@,
            capacity: self.max_allowed_items as nat,
        }
    }
}

impl StoreManager {
    /// The store and the recency list agree: they hold the same keys, each
    /// key once, each entry knows the slot of its node, and the capacity is
    /// kept.
    pub closed spec fn wf(&self) -> bool {
        &&& self.list.wf()
        &&& self.max_allowed_items >= 1
        &&& self.list@.no_duplicates()
        &&& self.list@.len() <= self.max_allowed_items
        &&& forall|k: Seq<char>| self.store@.contains_key(k) <==> self.list@.contains(k)
        &&& forall|k: Seq<char>| #[trigger]
            self.store@.contains_key(k) ==> self.list.slots().contains(self.store@[k].slot)
                && self.list.key_at(self.store@[k].slot) == k
    }

    /// A well-formed store is a cache in order.
    pub proof fn lemma_wf_inv(&self)
        requires
            self.wf(),
        ensures
            self@.inv(),
    {
        assert(self@.order.to_set() =~= self@.entries.dom());
    }

    /// An empty store with room for `max_allowed_items` items.
    pub fn new(max_allowed_items: usize) -> (r: StoreManager)
        requires
            max_allowed_items >= 1,
        ensures
            r.wf(),
            r@ == CacheState::empty(max_allowed_items as nat),
    {
        let r = StoreManager {
            store: StringHashMap::new(),
            max_allowed_items,
            list: List::new(),
        };
        assert(r@.entries =~= Map::empty());
        r
    }

    /// The number of items in the store, expired ones included.
    pub fn len(&self) -> (n: usize)
        requires
            self.wf(),
        ensures
            n == self@.order.len(),
            n == self@.entries.len(),
            n <= self@.capacity,
    {
        proof {
            self.lemma_wf_inv();
            lemma_inv_bounds_entries(self@);
        }
        self.list.len()
    }

    /// The number of items that the store has room for.
    pub fn max_allowed_items(&self) -> (n: usize)
        ensures
            n == self@.capacity,
    {
        self.max_allowed_items
    }

    /// Whether `key` is in the store, expired or not.
    pub fn contains(&self, key: &str) -> (r: bool)
        ensures
            r == self@.entries.contains_key(key@),
    {
        self.store.contains_key(key)
    }

    /// The item under `key`, expired or not. Looking does not use the key.
    pub fn peek(&self, key: &str) -> (r: Option<&Item>)
        ensures
            match r {
                Some(item) => self@.entries.contains_key(key@) && item@ == self@.entries[key@],
                None => !self@.entries.contains_key(key@),
            },
    {
        match self.store.get(key) {
            Some(entry) => Some(&entry.item),
            None => None,
        }
    }

    /// Moves `key`, which is in the store, to the front of the recency list.
    fn touch(&mut self, key: &str)
        requires
            old(self).wf(),
            old(self)@.entries.contains_key(key@),
        ensures
            final(self).wf(),
            final(self)@ == old(self)@.touched(key@),
            final(self).store == old(self).store,
    {
        let ghost before = *self;
        let slot: usize = match self.store.get(key) {
            Some(entry) => entry.slot,
            None => {
                return ;
            },
        };
        let ghost at = before.list.slots().index_of(slot);
        proof {
            before.list.lemma_slots();
            before.list@.index_of_first_ensures(key@);
            lemma_moved_to_front(before.list@, at);
            lemma_moved_to_front(before.list.slots(), at);
        }
        self.list.move_to_front(slot);
        proof {
            assert forall|k: Seq<char>| self.store@.contains_key(k) <==> self.list@.contains(
                k,
            ) by {
                assert(before.store@.contains_key(k) <==> before.list@.contains(k));
            }
        }
    }

    /// Takes the least recently used key out of the store.
    fn evict(&mut self)
        requires
            old(self).wf(),
            old(self)@.order.len() > 0,
        ensures
            final(self).wf(),
            final(self)@ == (CacheState {
                entries: old(self)@.entries.remove(old(self)@.order.last()),
                order: old(self)@.order.drop_last(),
                ..old(self)@
            }),
    {
        let ghost before = *self;
        proof {
            before.list.lemma_slots();
        }
        match self.list.pop_back() {
            Some(victim) => {
                self.store.remove(victim.as_str());
                proof {
                    let n = before.list@.len() as int;
                    let last = before.list@[n - 1];
                    assert forall|k: Seq<char>| self.store@.contains_key(k)
                        <==> self.list@.contains(k) by {
                        assert(before.store@.contains_key(k) <==> before.list@.contains(k));
                        if self.store@.contains_key(k) {
                            let q = choose|q: int| 0 <= q < n && before.list@[q] == k;
                            assert(self.list@[q] == k);
                        }
                    }
                    assert forall|k: Seq<char>| #[trigger]
                        self.store@.contains_key(k) implies self.list.slots().contains(
                        self.store@[k].slot,
                    ) && self.list.key_at(self.store@[k].slot) == k by {
                        let h = before.store@[k].slot;
                        let q = choose|q: int|
                            0 <= q < before.list.slots().len() && before.list.slots()[q] == h;
                        assert(self.list.slots()[q] == h);
                    }
                    assert(self@.entries =~= before@.entries.remove(last));
                }
            },
            None => {},
        }
    }

    /// Stores `value` under `key`, which is not in the store, as the most
    /// recently used key. There is room for it.
    fn admit_new(&mut self, key: String, value: Item)
        requires
            old(self).wf(),
            !old(self)@.entries.contains_key(key@),
            old(self)@.order.len() < old(self)@.capacity,
        ensures
            final(self).wf(),
            final(self)@ == (CacheState {
                entries: old(self)@.entries.insert(key@, value@),
                order: seq![key@] + old(self)@.order,
                ..old(self)@
            }),
    {
        let ghost before = *self;
        let slot: usize = self.list.push_front(key.clone());
        self.store.insert(key, Entry { item: value, slot });
        proof {
            assert forall|p: int| 0 <= p < before.list@.len() implies self.list@[p + 1]
                == #[trigger] before.list@[p] by {}
            let keys = self.list@;
            assert forall|a: int, b: int|
                0 <= a < keys.len() && 0 <= b < keys.len() && a != b implies keys[a]
                != keys[b] by {
                if a > 0 {
                    assert(before.list@.contains(before.list@[a - 1]));
                }
                if b > 0 {
                    assert(before.list@.contains(before.list@[b - 1]));
                }
            }
            assert forall|k: Seq<char>| self.store@.contains_key(k) <==> self.list@.contains(
                k,
            ) by {
                assert(self.list@[0] == key@);
                assert(before.store@.contains_key(k) <==> before.list@.contains(k));
            }
            assert forall|k: Seq<char>| #[trigger]
                self.store@.contains_key(k) implies self.list.slots().contains(
                self.store@[k].slot,
            ) && self.list.key_at(self.store@[k].slot) == k by {
                if k == key@ {
                    assert(self.list.slots()[0] == slot);
                } else {
                    let h = before.store@[k].slot;
                    let q = choose|q: int|
                        0 <= q < before.list.slots().len() && before.list.slots()[q] == h;
                    assert(self.list.slots()[q + 1] == h);
                }
            }
            assert(self@.entries =~= before@.entries.insert(key@, value@));
        }
    }

    /// Stores `value` under `key` and makes `key` the most recently used.
    /// Where the key is new and the store is full, the least recently used
    /// key is evicted first.
    pub fn insert_or_update(&mut self, key: String, value: Item)
        requires
            old(self).wf(),
        ensures
            final(self).wf(),
            final(self)@ == old(self)@.inserted(key@, value@),
            final(self)@.inv(),
    {
        let ghost before = *self;
        proof {
            before.lemma_wf_inv();
            lemma_inserted_keeps_inv(before@, key@, value@);
        }
        let slot: Option<usize> = match self.store.get(key.as_str()) {
            Some(entry) => Some(entry.slot),
            None => None,
        };
        match slot {
            Some(slot) => {
                self.touch(key.as_str());
                self.store.insert(key, Entry { item: value, slot });
                proof {
                    assert(self@.entries =~= before@.entries.insert(key@, value@));
                }
            },
            None => {
                if self.list.len() >= self.max_allowed_items {
                    self.evict();
                }
                self.admit_new(key, value);
            },
        }
    }

    /// Reads `key` at `now`. A hit makes the key the most recently used. A
    /// miss, for an absent key or an expired item, changes nothing.
    pub fn get_at(&mut self, key: String, now: i64) -> (r: Option<&Item>)
        requires
            old(self).wf(),
        ensures
            final(self).wf(),
            final(self)@ == old(self)@.read(key@, now),
            match r {
                Some(item) => old(self)@.lookup(key@, now) == Some(item@),
                None => old(self)@.lookup(key@, now) is None,
            },
    {
        let live: bool = match self.store.get(key.as_str()) {
            Some(entry) => !entry.item.expired_at(now),
            None => false,
        };
        if !live {
            return None;
        }
        self.touch(key.as_str());
        self.peek(key.as_str())
    }

    /// Reads `key` now.
    pub fn get(&mut self, key: String) -> (r: Option<&Item>)
        requires
            old(self).wf(),
        ensures
            final(self).wf(),
            exists|now: i64|
                final(self)@ == #[trigger] old(self)@.read(key@, now) && (match r {
                    Some(item) => old(self)@.lookup(key@, now) == Some(item@),
                    None => old(self)@.lookup(key@, now) is None,
                }),
    {
        let now: i64 = unix_now();
        self.get_at(key, now)
    }

    /// Overwrites the value of `key` and its length, and tells whether the
    /// key is in the store. The key is not used by this.
    pub fn update_value(&mut self, key: String, new_value: String, new_length: usize) -> (r: bool)
        requires
            old(self).wf(),
        ensures
            final(self).wf(),
            r == old(self)@.entries.contains_key(key@),
            final(self)@ == old(self)@.updated(key@, new_value@, new_length),
    {
        let ghost before = *self;
        let entry: Entry = match self.store.get(key.as_str()) {
            Some(entry) => Entry {
                item: Item {
                    flags: entry.item.flags,
                    expires_at: entry.item.expires_at,
                    value: new_value,
                    value_length: new_length,
                },
                slot: entry.slot,
            },
            None => {
                return false;
            },
        };
        self.store.insert(key, entry);
        proof {
            assert(self@.entries =~= before@.updated(key@, new_value@, new_length).entries);
        }
        true
    }
}

impl Default for StoreManager {
    fn default() -> (r: StoreManager)
        ensures
            r.wf(),
            r@ == CacheState::empty(MAX_ALLOWED_ITEMS as nat),
    {
        StoreManager::new(MAX_ALLOWED_ITEMS)
    }
}

} // verus!
