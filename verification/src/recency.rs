//! Recency bookkeeping for the bounded stores.
//!
//! Every bounded collection of the store is a [`RecencyList`]: a slab of
//! records plus an `lru::LruCache` over slot numbers. The cache decides which
//! record is the least recently used one and therefore which slot is reused
//! when the collection is full; the slab holds the records themselves. The
//! abstract view of a [`RecencyList`] is the sequence of its records, most
//! recently used first.

use lru::LruCache;
use std::num::NonZeroUsize;
use vstd::prelude::*;

verus! {

#[verifier::external_type_specification]
#[verifier::external_body]
#[verifier::reject_recursive_types(K)]
#[verifier::reject_recursive_types(V)]
#[verifier::reject_recursive_types(S)]
pub struct ExLruCache<K, V, S>(LruCache<K, V, S>);

/// The entries of an `lru::LruCache` of slot numbers, most recently used first
/// (the order in which `LruCache::iter` visits them).
pub uninterp spec fn lru_entries(cache: LruCache<u64, u64>) -> Seq<(u64, u64)>;

/// The capacity an `lru::LruCache` was created with.
pub uninterp spec fn lru_capacity(cache: LruCache<u64, u64>) -> nat;

/// The keys of a sequence of cache entries, in the same order.
pub open spec fn entry_keys(entries: Seq<(u64, u64)>) -> Seq<u64> {
    entries.map_values(|e: (u64, u64)| e.0)
}

/// `LruCache::new`: an empty cache holding at most `capacity` entries.
#[verifier::external_body]
fn lru_new(capacity: usize) -> (cache: LruCache<u64, u64>)
    requires
        capacity >= 1,
    ensures
        lru_entries(cache) == Seq::<(u64, u64)>::empty(),
        lru_capacity(cache) == capacity,
{
    LruCache::new(NonZeroUsize::new(capacity).unwrap())
}

/// `LruCache::put` of a key that is not in the cache while the cache has room:
/// the entry becomes the most recently used one and nothing is evicted.
#[verifier::external_body]
fn lru_put_fresh(cache: &mut LruCache<u64, u64>, key: u64, value: u64)
    requires
        !entry_keys(lru_entries(*old(cache))).contains(key),
        lru_entries(*old(cache)).len() < lru_capacity(*old(cache)),
    ensures
        lru_entries(*final(cache)) == seq![(key, value)] + lru_entries(*old(cache)),
        lru_capacity(*final(cache)) == lru_capacity(*old(cache)),
{
    cache.put(key, value);
}

/// `LruCache::pop_lru`: removes and returns the least recently used entry.
#[verifier::external_body]
fn lru_pop_lru(cache: &mut LruCache<u64, u64>) -> (popped: Option<(u64, u64)>)
    ensures
        lru_capacity(*final(cache)) == lru_capacity(*old(cache)),
        lru_entries(*old(cache)).len() == 0 ==> popped is None && lru_entries(*final(cache))
            == lru_entries(*old(cache)),
        lru_entries(*old(cache)).len() > 0 ==> popped == Some(lru_entries(*old(cache)).last())
            && lru_entries(*final(cache)) == lru_entries(*old(cache)).drop_last(),
{
    cache.pop_lru()
}

/// `LruCache::promote`: makes the entry with `key` the most recently used one;
/// a key that is not in the cache leaves it unchanged.
#[verifier::external_body]
fn lru_promote(cache: &mut LruCache<u64, u64>, key: &u64)
    requires
        entry_keys(lru_entries(*old(cache))).no_duplicates(),
    ensures
        lru_capacity(*final(cache)) == lru_capacity(*old(cache)),
        forall|i: int|
            0 <= i < lru_entries(*old(cache)).len() && lru_entries(*old(cache))[i].0 == *key
                ==> lru_entries(*final(cache)) == seq![lru_entries(*old(cache))[i]]
                + lru_entries(*old(cache)).remove(i),
        !entry_keys(lru_entries(*old(cache))).contains(*key) ==> lru_entries(*final(cache))
            == lru_entries(*old(cache)),
{
    cache.promote(key)
}

/// `LruCache::iter`, keys only: the keys from the most to the least recently used.
#[verifier::external_body]
fn lru_keys(cache: &LruCache<u64, u64>) -> (keys: Vec<u64>)
    ensures
        keys@ == entry_keys(lru_entries(*cache)),
{
    cache.iter().map(|(k, _)| *k).collect()
}


/// Values that can be copied without changing them.
pub trait Duplicate: Sized {
    fn duplicate(&self) -> (r: Self)
        ensures
            r == *self,
    ;
}

/// A bounded collection of records kept in recency order.
pub struct RecencyList<T> {
    order: LruCache<u64, u64>,
    slots: Vec<T>,
    limit: usize,
}

impl<T> RecencyList<T> {
    /// Slot numbers, most recently used first.
    pub closed spec fn keys(&self) -> Seq<u64> {
        entry_keys(lru_entries(self.order))
    }

    /// Most recently used record first.
    pub closed spec fn view(&self) -> Seq<T> {
        self.keys().map_values(|k: u64| self.slots@[k as int])
    }

    /// The most records the collection holds.
    pub closed spec fn capacity(&self) -> nat {
        lru_capacity(self.order)
    }

    pub closed spec fn wf(&self) -> bool {
        &&& self.capacity() >= 1
        &&& self.capacity() == self.limit
        &&& self.slots@.len() <= self.capacity()
        &&& self.keys().len() == self.slots@.len()
        &&& self.keys().no_duplicates()
        &&& forall|i: int| 0 <= i < self.keys().len() ==> #[trigger] self.keys()[i] < self.slots@.len()
        &&& forall|i: int| 0 <= i < self.keys().len() ==> #[trigger] lru_entries(self.order)[i].1
            == lru_entries(self.order)[i].0
    }

    /// An empty collection that holds at most `capacity` records.
    pub fn new(capacity: usize) -> (r: Self)
        requires
            capacity >= 1,
        ensures
            r.wf(),
            r@ == Seq::<T>::empty(),
            r.capacity() == capacity,
    {
        let r = RecencyList { order: lru_new(capacity), slots: Vec::new(), limit: capacity };
        assert(r.keys() =~= Seq::<u64>::empty());
        assert(r@ =~= Seq::<T>::empty());
        r
    }

    /// The collection never holds more than its capacity.
    pub proof fn lemma_bounded(&self)
        requires
            self.wf(),
        ensures
            self@.len() <= self.capacity(),
            self.capacity() >= 1,
    {
    }

    pub fn len(&self) -> (n: usize)
        requires
            self.wf(),
        ensures
            n == self@.len(),
    {
        self.slots.len()
    }

    /// Slot numbers in recency order; `slot_order()[i]` holds `self@[i]`.
    pub fn slot_order(&self) -> (keys: Vec<u64>)
        requires
            self.wf(),
        ensures
            keys@ == self.keys(),
            keys@.len() == self@.len(),
            forall|i: int| 0 <= i < keys@.len() ==> #[trigger] keys@[i] < self@.len(),
            forall|i: int| 0 <= i < keys@.len() ==> #[trigger] self.slot(keys@[i]) == self@[i],
    {
        lru_keys(&self.order)
    }

    pub closed spec fn slot(&self, k: u64) -> T {
        self.slots@[k as int]
    }

    /// The slot at position `i` holds the record at position `i`.
    pub proof fn slot_order_spec(&self)
        requires
            self.wf(),
        ensures
            forall|i: int| 0 <= i < self@.len() ==> #[trigger] self.keys()[i] < self@.len(),
            forall|i: int| 0 <= i < self@.len() ==> #[trigger] self.slot(self.keys()[i]) == self@[i],
            self.keys().len() == self@.len(),
    {
    }

    /// The record in slot `k`.
    pub fn get_slot(&self, k: u64) -> (r: &T)
        requires
            self.wf(),
            k < self@.len(),
        ensures
            *r == self.slot(k),
    {
        &self.slots[k as usize]
    }

    /// Copies of the records, most recently used first.
    pub fn items(&self) -> (r: Vec<T>) where T: Duplicate
        requires
            self.wf(),
        ensures
            r@ == self@,
    {
        let keys = self.slot_order();
        let mut out: Vec<T> = Vec::new();
        let mut p: usize = 0;
        while p < keys.len()
            invariant
                self.wf(),
                keys@ == self.keys(),
                keys@.len() == self@.len(),
                forall|i: int| 0 <= i < keys@.len() ==> #[trigger] keys@[i] < self@.len(),
                forall|i: int| 0 <= i < keys@.len() ==> #[trigger] self.slot(keys@[i]) == self@[i],
                0 <= p <= keys@.len(),
                out@ =~= self@.take(p as int),
            decreases keys@.len() - p,
        {
            assert(self.slot(keys@[p as int]) == self@[p as int]);
            let x = self.get_slot(keys[p]).duplicate();
            out.push(x);
            p = p + 1;
        }
        assert(self@.take(keys@.len() as int) =~= self@);
        out
    }

    /// Makes the record at position `p` (in slot `k`) the most recently used
    /// one and hands it out for an update in place.
    pub fn promote_mut(&mut self, p: usize, k: u64) -> (r: &mut T)
        requires
            old(self).wf(),
            p < old(self)@.len(),
            old(self).keys()[p as int] == k,
        ensures
            *r == old(self)@[p as int],
            final(self).wf(),
            final(self).capacity() == old(self).capacity(),
            final(self)@ == seq![*final(r)] + old(self)@.remove(p as int),
    {
        let ghost old_keys = self.keys();
        let ghost old_view = self@;
        lru_promote(&mut self.order, &k);
        assert(self.keys() =~= seq![k] + old_keys.remove(p as int));
        assert(self.keys().no_duplicates()) by {
            assert forall|i: int, j: int| 0 <= i < j < self.keys().len() implies self.keys()[i] != self.keys()[j] by {
                if i == 0 {
                    assert(self.keys()[j] == old_keys.remove(p as int)[j - 1]);
                } else {
                    assert(self.keys()[i] == old_keys.remove(p as int)[i - 1]);
                }
            }
        }
        let r = &mut self.slots[k as usize];
        r
    }

    /// Adds `item` as the most recently used record, evicting the least
    /// recently used one when the collection is full.
    pub fn push_front(&mut self, item: T)
        requires
            old(self).wf(),
        ensures
            final(self).wf(),
            final(self).capacity() == old(self).capacity(),
            final(self)@ == pushed_front(old(self)@, item, old(self).capacity()),
    {
        let n = self.slots.len();
        proof {
            assert(self.keys() == entry_keys(lru_entries(self.order)));
        }
        if n < self.limit {
            // room left: the new record takes a fresh slot
            let ghost old_keys = self.keys();
            let ghost old_view = self@;
            assert(!old_keys.contains(n as u64)) by {
                if old_keys.contains(n as u64) {
                    let i = choose|i: int| 0 <= i < old_keys.len() && old_keys[i] == n as u64;
                    assert(old_keys[i] < self.slots@.len());
                }
            }
            self.slots.push(item);
            lru_put_fresh(&mut self.order, n as u64, n as u64);
            assert(self.keys() =~= seq![n as u64] + old_keys);
            assert(self@ =~= seq![item] + old_view) by {
                assert forall|i: int| 0 <= i < old_view.len() implies self@[i + 1] == old_view[i] by {
                    assert(old_keys[i] < n);
                }
            }
        } else {
            // full: reuse the slot of the least recently used record
            let ghost old_keys = self.keys();
            let ghost old_view = self@;
            let popped = lru_pop_lru(&mut self.order);
            let (k, _) = popped.unwrap();
            assert(k == old_keys.last());
            assert(self.keys() =~= old_keys.drop_last());
            assert(!self.keys().contains(k)) by {
                if self.keys().contains(k) {
                    let i = choose|i: int| 0 <= i < self.keys().len() && self.keys()[i] == k;
                    assert(old_keys[i] == old_keys[old_keys.len() - 1]);
                }
            }
            self.slots.set(k as usize, item);
            lru_put_fresh(&mut self.order, k, k);
            assert(self.keys() =~= seq![k] + old_keys.drop_last());
            assert(self@ =~= seq![item] + old_view.drop_last()) by {
                assert forall|i: int| 0 <= i < old_view.len() - 1 implies self@[i + 1] == old_view[i] by {
                    assert(old_keys[i] != k);
                }
            }
        }
    }
}

/// `item` added in front of `s`, the last element of `s` dropped when `s`
/// already holds `capacity` elements.
pub open spec fn pushed_front<T>(s: Seq<T>, item: T, capacity: nat) -> Seq<T> {
    if s.len() >= capacity {
        seq![item] + s.drop_last()
    } else {
        seq![item] + s
    }
}

} // verus!
