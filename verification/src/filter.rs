//! The duplicate-suppression filter: a bounded LRU set of directed
//! `from || to` peer-pair keys. Insertion refreshes recency and, at
//! capacity, evicts the least-recently-inserted key; lookup refreshes
//! nothing.

use vstd::prelude::*;
use vstd::string::StringExecFns;

verus! {

/// An LRU set of string keys, backed by `lru::LruCache` with unit values.
/// The cache is held opaquely; the contracts below speak of its keys
/// through `lru_keys` and `lru_cap`.
#[verifier::external_body]
pub struct LruSet {
    cache: lru::LruCache<String, ()>,
}

/// The keys held by the cache, most recently inserted first.
pub uninterp spec fn lru_keys(c: LruSet) -> Seq<Seq<char>>;

/// The capacity the cache was built with.
pub uninterp spec fn lru_cap(c: LruSet) -> nat;

/// Relies on `lru::LruCache::new`.
#[verifier::external_body]
fn lru_new(cap: usize) -> (r: LruSet)
    requires
        cap >= 1,
    ensures
        lru_keys(r) == Seq::<Seq<char>>::empty(),
        lru_cap(r) == cap as nat,
{
    LruSet { cache: lru::LruCache::new(core::num::NonZeroUsize::new(cap).unwrap()) }
}

/// Relies on `lru::LruCache::contains`, which probes without refreshing
/// recency.
#[verifier::external_body]
fn lru_contains(c: &LruSet, k: &str) -> (r: bool)
    ensures
        r == lru_keys(*c).contains(k@),
{
    c.cache.contains(k)
}

/// Relies on `lru::LruCache::len`.
#[verifier::external_body]
fn lru_len(c: &LruSet) -> (r: usize)
    ensures
        r == lru_keys(*c).len(),
{
    c.cache.len()
}

/// What one insertion does to the recency-ordered keys: a present key is
/// moved to the front; a new key is put in front, evicting the last key
/// when the cache is full.
pub open spec fn put_keys(keys: Seq<Seq<char>>, cap: nat, k: Seq<char>) -> Seq<Seq<char>> {
    if keys.contains(k) {
        seq![k] + keys.remove_value(k)
    } else if keys.len() < cap {
        seq![k] + keys
    } else {
        seq![k] + keys.drop_last()
    }
}

/// Relies on `lru::LruCache::put`: a present key is promoted to most
/// recent; a new key is inserted, evicting the least recent entry when
/// the cache is at capacity.
#[verifier::external_body]
fn lru_put(c: &mut LruSet, k: String)
    ensures
        lru_keys(*final(c)) == put_keys(lru_keys(*old(c)), lru_cap(*old(c)), k@),
        lru_cap(*final(c)) == lru_cap(*old(c)),
{
    c.cache.put(k, ());
}

/// The filter's capacity.
pub const FILTER_CAPACITY: usize = 6000;

/// Bounded LRU set of suppression keys.
pub struct DuplicateFilter {
    cache: LruSet,
}

impl DuplicateFilter {
    /// The held keys, most recently inserted first.
    pub closed spec fn keys(self) -> Seq<Seq<char>> {
        lru_keys(self.cache)
    }

    pub closed spec fn cap(self) -> nat {
        lru_cap(self.cache)
    }

    pub open spec fn wf(self) -> bool {
        self.cap() == FILTER_CAPACITY
    }

    /// An empty filter with the fixed capacity.
    pub fn new() -> (r: DuplicateFilter)
        ensures
            r.wf(),
            r.keys() == Seq::<Seq<char>>::empty(),
    {
        DuplicateFilter { cache: lru_new(FILTER_CAPACITY) }
    }

    /// Whether the key is held; recency is not refreshed.
    pub fn contains(&self, key: &str) -> (r: bool)
        ensures
            r == self.keys().contains(key@),
    {
        lru_contains(&self.cache, key)
    }

    /// Inserts the key.
    pub fn put(&mut self, key: String)
        ensures
            final(self).keys() == put_keys(old(self).keys(), old(self).cap(), key@),
            final(self).cap() == old(self).cap(),
            final(self).keys().contains(key@),
    {
        lru_put(&mut self.cache, key);
        proof {
            assert(self.keys()[0] == key@);
        }
    }

    /// How many keys are held.
    pub fn len(&self) -> (r: usize)
        ensures
            r == self.keys().len(),
    {
        lru_len(&self.cache)
    }
}

/// The suppression key for a directed peer pair: the plain concatenation
/// `from || to`, with no separator, on both insert and lookup.
pub fn key_for_filter(from: &str, to: &str) -> (r: String)
    ensures
        r@ == from@ + to@,
{
    let mut s = from.to_owned();
    s.append(to);
    s
}

} // verus!
