use vstd::prelude::*;

use lru::LruCache;

use crate::value::{json, jsons, Json, Value};

verus! {

/// Number of filter results that the query cache keeps.
pub const QUERY_CACHE_SIZE: usize = 100;

/// A cached filter result: the collection it was computed on, the filter
/// specification as given, and the matching documents.
pub struct CachedFind {
    pub collection: String,
    pub filter: Value,
    pub docs: Vec<Value>,
}

impl CachedFind {
    pub open spec fn view(&self) -> (Seq<char>, Json, Seq<Json>) {
        (self.collection@, json(self.filter), jsons(self.docs@))
    }
}

/// The LRU cache of the `lru` crate, opaque here: its contents are known
/// through `lru_contents` and `lru_capacity`.
#[verifier::external_type_specification]
#[verifier::external_body]
#[verifier::reject_recursive_types(K)]
#[verifier::reject_recursive_types(V)]
#[verifier::reject_recursive_types(S)]
pub struct ExLruCache<K, V, S>(LruCache<K, V, S>);

/// The hasher that `lru::LruCache` uses by default, opaque here.
#[verifier::external_type_specification]
#[verifier::external_body]
pub struct ExDefaultHasher(lru::DefaultHasher);

/// The entries of a query cache, most recently used first.
pub uninterp spec fn lru_contents(c: LruCache<u64, CachedFind>) -> Seq<(u64, (Seq<char>, Json, Seq<Json>))>;

/// The number of entries that a query cache holds at most.
pub uninterp spec fn lru_capacity(c: LruCache<u64, CachedFind>) -> nat;

/// Relies on lru::LruCache::new: an empty cache that holds at most `cap` entries.
#[verifier::external_body]
pub(crate) fn cache_new(cap: usize) -> (r: LruCache<u64, CachedFind>)
    requires
        cap > 0,
    ensures
        lru_contents(r) == Seq::<(u64, (Seq<char>, Json, Seq<Json>))>::empty(),
        lru_capacity(r) == cap,
{
    LruCache::new(std::num::NonZeroUsize::new(cap).unwrap())
}

/// Relies on lru::LruCache::peek: the entry under `k`, if any, leaving the
/// order of use unchanged.
#[verifier::external_body]
pub(crate) fn cache_peek<'a>(c: &'a LruCache<u64, CachedFind>, k: u64) -> (r: Option<&'a CachedFind>)
    ensures
        match r {
            Some(v) => exists|i: int|
                0 <= i < lru_contents(*c).len() && #[trigger] lru_contents(*c)[i] == (k, v.view()),
            None => forall|i: int|
                0 <= i < lru_contents(*c).len() ==> #[trigger] lru_contents(*c)[i].0 != k,
        },
{
    c.peek(&k)
}

/// Relies on lru::LruCache::promote: the entry under `k`, if any, becomes the
/// most recently used one.
#[verifier::external_body]
pub(crate) fn cache_promote(c: &mut LruCache<u64, CachedFind>, k: u64)
    ensures
        lru_capacity(*final(c)) == lru_capacity(*old(c)),
        (exists|i: int| 0 <= i < lru_contents(*old(c)).len() && #[trigger] lru_contents(*old(c))[i].0 == k)
            ==> exists|i: int|
            0 <= i < lru_contents(*old(c)).len() && #[trigger] lru_contents(*old(c))[i].0 == k
                && lru_contents(*final(c)) == seq![lru_contents(*old(c))[i]] + lru_contents(
                *old(c),
            ).remove(i),
        (forall|i: int| 0 <= i < lru_contents(*old(c)).len() ==> #[trigger] lru_contents(*old(c))[i].0 != k)
            ==> lru_contents(*final(c)) == lru_contents(*old(c)),
{
    c.promote(&k);
}

/// Relies on lru::LruCache::put: `v` is stored under `k` as the most
/// recently used entry; an earlier entry under `k` is replaced, and a new key
/// in a full cache evicts the least recently used entry.
#[verifier::external_body]
pub(crate) fn cache_put(c: &mut LruCache<u64, CachedFind>, k: u64, v: CachedFind)
    ensures
        lru_capacity(*final(c)) == lru_capacity(*old(c)),
        (exists|i: int| 0 <= i < lru_contents(*old(c)).len() && #[trigger] lru_contents(*old(c))[i].0 == k)
            ==> exists|i: int|
            0 <= i < lru_contents(*old(c)).len() && #[trigger] lru_contents(*old(c))[i].0 == k
                && lru_contents(*final(c)) == seq![(k, v.view())] + lru_contents(*old(c)).remove(i),
        (forall|i: int| 0 <= i < lru_contents(*old(c)).len() ==> #[trigger] lru_contents(*old(c))[i].0 != k)
            ==> lru_contents(*final(c)) == seq![(k, v.view())] + if lru_contents(*old(c)).len()
            == lru_capacity(*old(c)) {
            lru_contents(*old(c)).drop_last()
        } else {
            lru_contents(*old(c))
        },
{
    c.put(k, v);
}

} // verus!
