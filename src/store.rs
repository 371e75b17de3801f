use vstd::prelude::*;

use lru::LruCache;

use crate::cache::{
    cache_new, cache_peek, cache_promote, cache_put, lru_capacity, lru_contents, CachedFind,
    QUERY_CACHE_SIZE,
};
use crate::query::{
    apply_all, compile_filter, compile_update, is_text, matches_all, reports, Fault, QueryEngine,
    QueryOperator, UpdateOperator,
};
use crate::value::{
    copy_value, copy_values, find_key, json, jsons, key_index, lemma_arr_view, lemma_obj_view, same_value, DbError,
    Json, Value,
};

verus! {

broadcast use vstd::std_specs::vec::group_vec_axioms;

pub type QTerm = (Seq<Seq<char>>, QueryOperator, Json);

pub type UTerm = (Seq<Seq<char>>, UpdateOperator, Json);

/// The documents that inserting `v` adds: the items of an array one by one,
/// any other value as one document.
pub open spec fn spliced(v: Json) -> Seq<Json> {
    match v {
        Json::Arr(a) => a,
        _ => seq![v],
    }
}

/// The documents of `d` that match every term of `ts`, in their order.
pub open spec fn select(d: Seq<Json>, ts: Seq<QTerm>) -> Seq<Json> {
    d.filter(|x: Json| matches_all(x, ts))
}

/// `d` after the update `us`, applied to the documents that match `fs`
/// (to every document where there is no filter).
pub open spec fn update_docs(d: Seq<Json>, us: Seq<UTerm>, fs: Option<Seq<QTerm>>) -> Seq<Json> {
    Seq::new(
        d.len(),
        |i: int|
            if fs is None || matches_all(d[i], fs->Some_0) {
                apply_all(d[i], us)
            } else {
                d[i]
            },
    )
}

pub open spec fn filter_terms(q: Json) -> Result<Seq<QTerm>, Fault> {
    match q {
        Json::Obj(e) => compile_filter(e),
        _ => Err(Fault::Shape),
    }
}

pub open spec fn update_terms(u: Json) -> Result<Seq<UTerm>, Fault> {
    match u {
        Json::Obj(e) => compile_update(e),
        _ => Err(Fault::Shape),
    }
}

pub open spec fn opt_json(q: Option<&Value>) -> Option<Json> {
    match q {
        Some(v) => Some(json(*v)),
        None => None,
    }
}

/// What a find returns on collections `m`.
pub open spec fn find_spec(m: Map<Seq<char>, Seq<Json>>, name: Seq<char>, q: Option<Json>) -> Result<
    Seq<Json>,
    Fault,
> {
    if !m.contains_key(name) {
        Err(Fault::Missing)
    } else {
        match q {
            None => Ok(m[name]),
            Some(f) => match filter_terms(f) {
                Ok(ts) => Ok(select(m[name], ts)),
                Err(x) => Err(x),
            },
        }
    }
}

/// The new documents of collection `name` after an update on collections `m`.
pub open spec fn update_spec(
    m: Map<Seq<char>, Seq<Json>>,
    name: Seq<char>,
    u: Json,
    q: Option<Json>,
) -> Result<Seq<Json>, Fault> {
    if !m.contains_key(name) {
        Err(Fault::Missing)
    } else {
        match update_terms(u) {
            Err(x) => Err(x),
            Ok(us) => match q {
                None => Ok(update_docs(m[name], us, None)),
                Some(f) => match filter_terms(f) {
                    Err(x) => Err(x),
                    Ok(ts) => Ok(update_docs(m[name], us, Some(ts))),
                },
            },
        }
    }
}

/// The documents of collection `name` in `m`; none where it does not exist.
pub open spec fn docs_or_empty(m: Map<Seq<char>, Seq<Json>>, name: Seq<char>) -> Seq<Json> {
    if m.contains_key(name) {
        m[name]
    } else {
        seq![]
    }
}

/// Collections `m` after inserting `v` into collection `name`, which is
/// created where it does not exist.
pub open spec fn with_inserted(m: Map<Seq<char>, Seq<Json>>, name: Seq<char>, v: Json) -> Map<
    Seq<char>,
    Seq<Json>,
> {
    m.insert(name, docs_or_empty(m, name) + spliced(v))
}

/// Collections `m` after inserting, in order, the value of each entry of an
/// import document into the collection that its key names.
pub open spec fn load_all(m: Map<Seq<char>, Seq<Json>>, e: Seq<(Seq<char>, Json)>) -> Map<
    Seq<char>,
    Seq<Json>,
>
    decreases e.len(),
{
    if e.len() == 0 {
        m
    } else {
        with_inserted(load_all(m, e.drop_last()), e.last().0, e.last().1)
    }
}

/// A cached result that is still the result of its filter on collections `m`.
pub open spec fn cache_entry_ok(m: Map<Seq<char>, Seq<Json>>, e: (Seq<char>, Json, Seq<Json>)) -> bool {
    m.contains_key(e.0) && filter_terms(e.1) is Ok && e.2 == select(m[e.0], filter_terms(e.1)->Ok_0)
}

/// An in-memory document store: named collections of documents, and a cache
/// of filter results.
pub struct Bison {
    collections: Vec<(String, Vec<Value>)>,
    query_cache: LruCache<u64, CachedFind>,
    model: Ghost<Map<Seq<char>, Seq<Json>>>,
}

impl View for Bison {
    type V = Map<Seq<char>, Seq<Json>>;

    closed spec fn view(&self) -> Map<Seq<char>, Seq<Json>> {
        self.model@
    }
}

/// The model records exactly the collections of `c`, whose names are
/// unique; the documents of collection `skip` may differ from the model's.
spec fn names_ok(c: Seq<(String, Vec<Value>)>, m: Map<Seq<char>, Seq<Json>>, skip: int) -> bool {
    &&& forall|i: int, j: int| 0 <= i < j < c.len() ==> (#[trigger] c[i]).0@ != (#[trigger] c[j]).0@
    &&& forall|i: int| 0 <= i < c.len() ==> m.contains_key((#[trigger] c[i]).0@)
    &&& forall|i: int| 0 <= i < c.len() && i != skip ==> m[(#[trigger] c[i]).0@] == jsons(c[i].1@)
    &&& forall|n: Seq<char>| #[trigger] m.contains_key(n) ==> exists|i: int|
            0 <= i < c.len() && (#[trigger] c[i]).0@ == n
}

/// Every cached result is the current result of its filter on `m`.
spec fn cache_ok(q: LruCache<u64, CachedFind>, m: Map<Seq<char>, Seq<Json>>) -> bool {
    &&& lru_capacity(q) == QUERY_CACHE_SIZE
    &&& forall|i: int| 0 <= i < lru_contents(q).len() ==> cache_entry_ok(m, (#[trigger] lru_contents(q)[i]).1)
}

impl Bison {
    /// Well-formedness, except that collection `skip` may hold documents that
    /// the model does not record yet.
    closed spec fn wf_but(&self, skip: int) -> bool {
        &&& names_ok(self.collections@, self.model@, skip)
        &&& cache_ok(self.query_cache, self.model@)
    }

    /// The store's invariant: the model records exactly the collections held,
    /// names are unique, and every cached result is the current result of its
    /// filter.
    pub closed spec fn wf(&self) -> bool {
        self.wf_but(-1)
    }

    /// An empty store.
    pub fn new() -> (r: Bison)
        ensures
            r.wf(),
            r@ == Map::<Seq<char>, Seq<Json>>::empty(),
    {
        Bison {
            collections: Vec::new(),
            query_cache: cache_new(QUERY_CACHE_SIZE),
            model: Ghost(Map::empty()),
        }
    }

    /// Position of collection `name`.
    fn index_of(&self, name: &str) -> (r: Option<usize>)
        requires
            self.wf(),
        ensures
            match r {
                Some(i) => i < self.collections.len() && self.collections@[i as int].0@ == name@
                    && self@.contains_key(name@),
                None => !self@.contains_key(name@),
            },
    {
        let mut i: usize = 0;
        while i < self.collections.len()
            invariant
                self.wf(),
                i <= self.collections.len(),
                forall|j: int| 0 <= j < i ==> (#[trigger] self.collections@[j]).0@ != name@,
            decreases self.collections.len() - i,
        {
            if is_text(self.collections[i].0.as_str(), name) {
                return Some(i);
            }
            i = i + 1;
        }
        None
    }

    /// Whether collection `name` exists.
    pub fn contains(&self, name: &str) -> (r: bool)
        requires
            self.wf(),
        ensures
            r == self@.contains_key(name@),
    {
        self.index_of(name).is_some()
    }

    /// Adds collection `name`, empty.
    fn add_empty(&mut self, name: &str) -> (i: usize)
        requires
            old(self).wf(),
            !old(self)@.contains_key(name@),
        ensures
            final(self).wf(),
            final(self)@ == old(self)@.insert(name@, seq![]),
            i < final(self).collections.len(),
            final(self).collections@[i as int].0@ == name@,
    {
        let ghost m = self.model@;
        self.collections.push((String::from_str(name), Vec::new()));
        self.model = Ghost(m.insert(name@, seq![]));
        let i = self.collections.len() - 1;
        proof {
            assert(jsons(Seq::<Value>::empty()) =~= seq![]);
            assert forall|n: Seq<char>| #[trigger] self.model@.contains_key(n) implies exists|
                j: int,
            |
                0 <= j < self.collections.len() && (#[trigger] self.collections@[j]).0@ == n by {
                if n == name@ {
                    assert(self.collections@[i as int].0@ == n);
                } else {
                    let j = choose|j: int|
                        0 <= j < old(self).collections.len() && (#[trigger] old(
                            self,
                        ).collections@[j]).0@ == n;
                    assert(self.collections@[j].0@ == n);
                }
            }
            assert forall|j: int|
                0 <= j < lru_contents(self.query_cache).len() implies cache_entry_ok(
                self.model@,
                (#[trigger] lru_contents(self.query_cache)[j]).1,
            ) by {
                assert(cache_entry_ok(m, lru_contents(self.query_cache)[j].1));
            }
        }
        i
    }

    /// Makes `docs` the documents of collection `i`, and empties the cache.
    fn replace_collection(&mut self, i: usize, docs: Vec<Value>)
        requires
            old(self).wf_but(i as int),
            i < old(self).collections.len(),
        ensures
            final(self).wf(),
            final(self)@ == old(self)@.insert(old(self).collections@[i as int].0@, jsons(docs@)),
    {
        let ghost name = self.collections@[i as int].0@;
        let ghost m = self.model@;
        let mut entry: (String, Vec<Value>) = (String::new(), Vec::new());
        self.collections.set_and_swap(i, &mut entry);
        let (key, _) = entry;
        self.collections.set(i, (key, docs));
        self.model = Ghost(m.insert(name, jsons(docs@)));
        self.query_cache = cache_new(QUERY_CACHE_SIZE);
        proof {
            assert forall|n: Seq<char>| #[trigger] self.model@.contains_key(n) implies exists|
                j: int,
            |
                0 <= j < self.collections.len() && (#[trigger] self.collections@[j]).0@ == n by {
                if n == name {
                    assert(self.collections@[i as int].0@ == n);
                } else {
                    let j = choose|j: int|
                        0 <= j < old(self).collections.len() && (#[trigger] old(
                            self,
                        ).collections@[j]).0@ == n;
                    assert(self.collections@[j].0@ == n);
                }
            }
        }
    }

    /// Takes the documents of collection `i` out, leaving it empty until
    /// `replace_collection` puts new ones in.
    fn take_docs(&mut self, i: usize) -> (d: Vec<Value>)
        requires
            old(self).wf(),
            i < old(self).collections.len(),
        ensures
            final(self).wf_but(i as int),
            final(self)@ == old(self)@,
            final(self).collections.len() == old(self).collections.len(),
            final(self).collections@[i as int].0@ == old(self).collections@[i as int].0@,
            old(self)@[old(self).collections@[i as int].0@] == jsons(d@),
    {
        let mut entry: (String, Vec<Value>) = (String::new(), Vec::new());
        self.collections.set_and_swap(i, &mut entry);
        let (key, docs) = entry;
        self.collections.set(i, (key, Vec::new()));
        proof {
            assert forall|n: Seq<char>| #[trigger] self.model@.contains_key(n) implies exists|
                j: int,
            |
                0 <= j < self.collections.len() && (#[trigger] self.collections@[j]).0@ == n by {
                let j = choose|j: int|
                    0 <= j < old(self).collections.len() && (#[trigger] old(
                        self,
                    ).collections@[j]).0@ == n;
                assert(self.collections@[j].0@ == n);
            }
        }
        docs
    }
}

/// The documents of `docs` that `engine` matches, in their order.
fn select_docs(docs: &Vec<Value>, engine: &QueryEngine<QueryOperator>) -> (r: Vec<Value>)
    ensures
        jsons(r@) == select(jsons(docs@), engine.terms()),
{
    let ghost d = jsons(docs@);
    let ghost ts = engine.terms();
    let mut out: Vec<Value> = Vec::new();
    let mut i: usize = 0;
    proof {
        reveal(Seq::filter);
        assert(d.subrange(0, 0) =~= seq![]);
        assert(jsons(out@) =~= seq![]);
    }
    while i < docs.len()
        invariant
            i <= docs.len(),
            d == jsons(docs@),
            ts == engine.terms(),
            jsons(out@) == select(d.subrange(0, i as int), ts),
        decreases docs.len() - i,
    {
        let ghost before = out@;
        let ghost s1 = d.subrange(0, i + 1);
        proof {
            reveal(Seq::filter);
            assert(s1.drop_last() =~= d.subrange(0, i as int));
            assert(s1.last() == json(docs@[i as int]));
        }
        if engine.execute(&docs[i]) {
            let c = copy_value(&docs[i]);
            out.push(c);
            assert(jsons(out@) =~= jsons(before).push(json(c)));
        }
        i = i + 1;
    }
    assert(d.subrange(0, docs.len() as int) =~= d);
    out
}

impl Bison {
    /// The documents of collection `collection_name` that match the filter
    /// specification `maybe_query`, in their order; all of them where there is
    /// no filter. A result found in the cache is the one that computing it
    /// anew would give.
    pub fn find(&mut self, collection_name: &str, maybe_query: Option<&Value>) -> (r: Result<
        Vec<Value>,
        DbError,
    >)
        requires
            old(self).wf(),
        ensures
            final(self).wf(),
            final(self)@ == old(self)@,
            match find_spec(old(self)@, collection_name@, opt_json(maybe_query)) {
                Ok(d) => r matches Ok(v) && jsons(v@) == d,
                Err(f) => r matches Err(e) && reports(e, f),
            },
    {
        let i = match self.index_of(collection_name) {
            Some(i) => i,
            None => {
                return Err(DbError::NotFound(String::from_str(collection_name)));
            },
        };
        let q = match maybe_query {
            None => {
                return Ok(copy_values(&self.collections[i].1));
            },
            Some(q) => q,
        };
        let e = match q {
            Value::Object(e) => e,
            _ => {
                return Err(DbError::Shape(String::from_str("a filter must be an object")));
            },
        };
        let ghost m = self.model@;
        let h = value_hash(q);
        match cache_peek(&self.query_cache, h) {
            Some(hit) => {
                if is_text(hit.collection.as_str(), collection_name) && same_value(&hit.filter, q) {
                    let docs = copy_values(&hit.docs);
                    let ghost c0 = lru_contents(self.query_cache);
                    proof {
                        let k0 = choose|k: int|
                            0 <= k < c0.len() && #[trigger] c0[k] == (h, hit.view());
                        assert(c0[k0].0 == h);
                    }
                    cache_promote(&mut self.query_cache, h);
                    proof {
                        assert forall|j: int|
                            0 <= j < lru_contents(self.query_cache).len() implies cache_entry_ok(
                            m,
                            (#[trigger] lru_contents(self.query_cache)[j]).1,
                        ) by {
                            let k = choose|k: int| 0 <= k < c0.len() && #[trigger] c0[k].0 == h
                                && lru_contents(self.query_cache) == seq![c0[k]] + c0.remove(k);
                            if j > 0 {
                                if j - 1 < k {
                                    assert(lru_contents(self.query_cache)[j] == c0[j - 1]);
                                } else {
                                    assert(lru_contents(self.query_cache)[j] == c0[j]);
                                }
                            }
                        }
                    }
                    return Ok(docs);
                }
            },
            None => {},
        }
        let engine = match QueryEngine::<QueryOperator>::new(e) {
            Ok(x) => x,
            Err(err) => {
                return Err(err);
            },
        };
        let found = select_docs(&self.collections[i].1, &engine);
        let entry = CachedFind {
            collection: String::from_str(collection_name),
            filter: copy_value(q),
            docs: copy_values(&found),
        };
        let ghost c0 = lru_contents(self.query_cache);
        let ghost ev = entry.view();
        cache_put(&mut self.query_cache, h, entry);
        proof {
            let c1 = lru_contents(self.query_cache);
            assert forall|j: int| 0 <= j < c1.len() implies cache_entry_ok(
                m,
                (#[trigger] c1[j]).1,
            ) by {
                if j > 0 {
                    if exists|k: int| 0 <= k < c0.len() && #[trigger] c0[k].0 == h {
                        let k = choose|k: int|
                            0 <= k < c0.len() && #[trigger] c0[k].0 == h && c1 == seq![(h, ev)]
                                + c0.remove(k);
                        if j - 1 < k {
                            assert(c1[j] == c0[j - 1]);
                        } else {
                            assert(c1[j] == c0[j]);
                        }
                    } else {
                        assert(c1[j] == c0[j - 1]);
                    }
                }
            }
        }
        Ok(found)
    }
}

pub open spec fn opt_terms(f: Option<QueryEngine<QueryOperator>>) -> Option<Seq<QTerm>> {
    match f {
        Some(e) => Some(e.terms()),
        None => None,
    }
}

/// Applies `upd` to the documents of `docs` that `flt` matches (to all of
/// them where there is no filter).
fn update_all(
    docs: &mut Vec<Value>,
    upd: &QueryEngine<UpdateOperator>,
    flt: &Option<QueryEngine<QueryOperator>>,
)
    ensures
        jsons(final(docs)@) == update_docs(jsons(old(docs)@), upd.terms(), opt_terms(*flt)),
{
    let ghost d0 = jsons(old(docs)@);
    let ghost want = update_docs(d0, upd.terms(), opt_terms(*flt));
    let mut i: usize = 0;
    while i < docs.len()
        invariant
            i <= docs.len(),
            docs.len() == old(docs).len(),
            d0 == jsons(old(docs)@),
            want == update_docs(d0, upd.terms(), opt_terms(*flt)),
            forall|j: int| 0 <= j < i ==> json(#[trigger] docs@[j]) == want[j],
            forall|j: int| i <= j < docs.len() ==> #[trigger] docs@[j] == old(docs)@[j],
        decreases docs.len() - i,
    {
        let hit = match flt {
            None => true,
            Some(f) => f.execute(&docs[i]),
        };
        if hit {
            let mut doc = Value::Null;
            docs.set_and_swap(i, &mut doc);
            upd.execute(&mut doc);
            docs.set(i, doc);
        }
        i = i + 1;
    }
    assert(jsons(docs@) =~= want);
}

impl Bison {
    /// Applies the update specification `update_query` to the documents of
    /// collection `collection_name` that match the filter specification
    /// `maybe_query` (to all of them where there is no filter), and empties
    /// the cache. Where either specification does not compile, or the
    /// collection does not exist, nothing changes. With `return_result`, the
    /// collection's new documents are returned.
    pub fn update(
        &mut self,
        collection_name: &str,
        update_query: &Value,
        maybe_query: Option<&Value>,
        return_result: bool,
    ) -> (r: Result<Option<Vec<Value>>, DbError>)
        requires
            old(self).wf(),
        ensures
            final(self).wf(),
            match update_spec(
                old(self)@,
                collection_name@,
                json(*update_query),
                opt_json(maybe_query),
            ) {
                Ok(d) => {
                    &&& final(self)@ == old(self)@.insert(collection_name@, d)
                    &&& r matches Ok(res)
                    &&& return_result ==> (res matches Some(v) && jsons(v@) == d)
                    &&& !return_result ==> res is None
                },
                Err(f) => {
                    &&& final(self)@ == old(self)@
                    &&& r matches Err(e) && reports(e, f)
                },
            },
    {
        let i = match self.index_of(collection_name) {
            Some(i) => i,
            None => {
                return Err(DbError::NotFound(String::from_str(collection_name)));
            },
        };
        let upd = match update_query {
            Value::Object(e) => match QueryEngine::<UpdateOperator>::new(e) {
                Ok(x) => x,
                Err(err) => {
                    return Err(err);
                },
            },
            _ => {
                return Err(DbError::Shape(String::from_str("an update must be an object")));
            },
        };
        let flt = match maybe_query {
            None => None,
            Some(q) => match q {
                Value::Object(e) => match QueryEngine::<QueryOperator>::new(e) {
                    Ok(x) => Some(x),
                    Err(err) => {
                        return Err(err);
                    },
                },
                _ => {
                    return Err(DbError::Shape(String::from_str("a filter must be an object")));
                },
            },
        };
        let mut docs = self.take_docs(i);
        update_all(&mut docs, &upd, &flt);
        let result = if return_result {
            Some(copy_values(&docs))
        } else {
            None
        };
        self.replace_collection(i, docs);
        Ok(result)
    }

    /// Adds `insert_value` to collection `collection_name`, creating it where
    /// it does not exist: an array's items one by one, any other value as one
    /// document. Empties the cache.
    fn insert_in_collection(&mut self, collection_name: &str, insert_value: Value)
        requires
            old(self).wf(),
        ensures
            final(self).wf(),
            final(self)@ == with_inserted(old(self)@, collection_name@, json(insert_value)),
    {
        let i = match self.index_of(collection_name) {
            Some(i) => i,
            None => self.add_empty(collection_name),
        };
        let mut docs = self.take_docs(i);
        let ghost d0 = docs@;
        match insert_value {
            Value::Array(a) => {
                let mut a = a;
                proof {
                    lemma_arr_view(a);
                    assert(jsons(a@) =~= json(Value::Array(a))->Arr_0);
                }
                docs.append(&mut a);
            },
            other => {
                docs.push(other);
            },
        }
        assert(jsons(docs@) =~= jsons(d0) + spliced(json(insert_value)));
        self.replace_collection(i, docs);
        assert(self@ =~= with_inserted(old(self)@, collection_name@, json(insert_value)));
    }

    /// Inserts `document` into collection `collection_name`, creating it where
    /// it does not exist; an array's items are inserted one by one.
    pub fn insert(&mut self, collection_name: &str, document: Value)
        requires
            old(self).wf(),
        ensures
            final(self).wf(),
            final(self)@ == with_inserted(old(self)@, collection_name@, json(document)),
    {
        self.insert_in_collection(collection_name, document)
    }

    /// Appends `documents`, in order, to collection `collection_name`, creating
    /// it where it does not exist.
    pub fn insert_many(&mut self, collection_name: &str, documents: Vec<Value>)
        requires
            old(self).wf(),
        ensures
            final(self).wf(),
            final(self)@ == old(self)@.insert(
                collection_name@,
                docs_or_empty(old(self)@, collection_name@) + jsons(documents@),
            ),
    {
        proof {
            lemma_arr_view(documents);
            assert(jsons(documents@) =~= json(Value::Array(documents))->Arr_0);
        }
        self.insert_in_collection(collection_name, Value::Array(documents))
    }

    /// Appends the items of `document`, which must be an array, to collection
    /// `collection_name`, creating it where it does not exist.
    pub fn insert_many_from_document(&mut self, collection_name: &str, document: Value) -> (r:
        Result<(), DbError>)
        requires
            old(self).wf(),
        ensures
            final(self).wf(),
            json(document) is Arr ==> r is Ok && final(self)@ == old(self)@.insert(
                collection_name@,
                docs_or_empty(old(self)@, collection_name@) + json(document)->Arr_0,
            ),
            !(json(document) is Arr) ==> (r matches Err(e) && e is Shape),
            !(json(document) is Arr) ==> final(self)@ == old(self)@,
    {
        match document {
            Value::Array(a) => {
                self.insert_in_collection(collection_name, Value::Array(a));
                Ok(())
            },
            _ => Err(DbError::Shape(String::from_str("the document is not an array"))),
        }
    }

    /// Inserts, in order, the value of each entry of an import document into
    /// the collection that its key names.
    pub fn load_from_document(&mut self, document: Value) -> (r: Result<(), DbError>)
        requires
            old(self).wf(),
        ensures
            final(self).wf(),
            json(document) is Obj ==> r is Ok && final(self)@ == load_all(
                old(self)@,
                json(document)->Obj_0,
            ),
            !(json(document) is Obj) ==> (r matches Err(e) && e is Shape),
            !(json(document) is Obj) ==> final(self)@ == old(self)@,
    {
        match document {
            Value::Object(e) => {
                let mut e = e;
                let ghost je = json(Value::Object(e))->Obj_0;
                proof {
                    lemma_obj_view(e);
                    assert(je.subrange(0, 0) =~= seq![]);
                }
                let n = e.len();
                let mut i: usize = 0;
                while i < n
                    invariant
                        self.wf(),
                        n == e.len(),
                        i <= n,
                        je.len() == n,
                        forall|j: int| i <= j < n ==> #[trigger] je[j] == (e@[j].0@, json(e@[j].1)),
                        self@ == load_all(old(self)@, je.subrange(0, i as int)),
                    decreases n - i,
                {
                    let mut entry: (String, Value) = (String::new(), Value::Null);
                    e.set_and_swap(i, &mut entry);
                    let (key, value) = entry;
                    proof {
                        assert(je.subrange(0, i + 1).drop_last() =~= je.subrange(0, i as int));
                    }
                    self.insert_in_collection(key.as_str(), value);
                    i = i + 1;
                }
                assert(je.subrange(0, n as int) =~= je);
                Ok(())
            },
            _ => Err(DbError::Shape(String::from_str("an import document must be an object"))),
        }
    }
}

impl Bison {
    /// Creates collection `collection_name`, empty, where it does not exist.
    pub fn create_collection(&mut self, collection_name: &str)
        requires
            old(self).wf(),
        ensures
            final(self).wf(),
            old(self)@.contains_key(collection_name@) ==> final(self)@ == old(self)@,
            !old(self)@.contains_key(collection_name@) ==> final(self)@ == old(self)@.insert(
                collection_name@,
                seq![],
            ),
    {
        if self.index_of(collection_name).is_none() {
            self.add_empty(collection_name);
        }
    }

    /// Makes `documents` the contents of collection `collection_name`, as read
    /// from its file, and empties the cache.
    pub fn load_collection(&mut self, collection_name: &str, documents: Vec<Value>)
        requires
            old(self).wf(),
        ensures
            final(self).wf(),
            final(self)@ == old(self)@.insert(collection_name@, jsons(documents@)),
    {
        let i = match self.index_of(collection_name) {
            Some(i) => i,
            None => self.add_empty(collection_name),
        };
        self.replace_collection(i, documents);
        assert(self@ =~= old(self)@.insert(collection_name@, jsons(documents@)));
    }

    /// Removes collection `collection_name`, and empties the cache.
    pub fn drop_collection(&mut self, collection_name: &str)
        requires
            old(self).wf(),
        ensures
            final(self).wf(),
            final(self)@ == old(self)@.remove(collection_name@),
    {
        match self.index_of(collection_name) {
            None => {
                assert(self@.remove(collection_name@) =~= self@);
            },
            Some(i) => {
                let ghost m = self.model@;
                let ghost c0 = self.collections@;
                self.collections.remove(i);
                self.model = Ghost(m.remove(collection_name@));
                self.query_cache = cache_new(QUERY_CACHE_SIZE);
                proof {
                    assert forall|n: Seq<char>| #[trigger] self.model@.contains_key(n) implies exists|
                        j: int,
                    |
                        0 <= j < self.collections.len() && (#[trigger] self.collections@[j]).0@
                            == n by {
                        let j = choose|j: int|
                            0 <= j < c0.len() && (#[trigger] c0[j]).0@ == n;
                        assert(j != i);
                        if j < i {
                            assert(self.collections@[j] == c0[j]);
                        } else {
                            assert(self.collections@[j - 1] == c0[j]);
                        }
                    }
                    assert forall|a: int, b: int|
                        0 <= a < b < self.collections.len() implies (#[trigger] self.collections@[a]).0@
                        != (#[trigger] self.collections@[b]).0@ by {
                        let a0 = if a < i { a } else { a + 1 };
                        let b0 = if b < i { b } else { b + 1 };
                        assert(self.collections@[a] == c0[a0]);
                        assert(self.collections@[b] == c0[b0]);
                        assert(c0[a0].0@ != c0[b0].0@);
                    }
                    assert forall|a: int| 0 <= a < self.collections.len() implies self.model@.contains_key(
                        (#[trigger] self.collections@[a]).0@,
                    ) && self.model@[self.collections@[a].0@] == jsons(self.collections@[a].1@) by {
                        let a0 = if a < i { a } else { a + 1 };
                        assert(self.collections@[a] == c0[a0]);
                        assert(c0[a0].0@ != c0[i as int].0@);
                    }
                }
            },
        }
    }

    /// Removes every collection, and empties the cache.
    pub fn drop_all(&mut self)
        requires
            old(self).wf(),
        ensures
            final(self).wf(),
            final(self)@ == Map::<Seq<char>, Seq<Json>>::empty(),
    {
        self.collections = Vec::new();
        self.model = Ghost(Map::empty());
        self.query_cache = cache_new(QUERY_CACHE_SIZE);
    }

    /// Empties the cache of filter results.
    pub fn clear_cache(&mut self)
        requires
            old(self).wf(),
        ensures
            final(self).wf(),
            final(self)@ == old(self)@,
    {
        self.query_cache = cache_new(QUERY_CACHE_SIZE);
    }

    /// A copy of the documents of collection `collection_name`, as they are to
    /// be written to its file.
    pub fn documents(&self, collection_name: &str) -> (r: Result<Vec<Value>, DbError>)
        requires
            self.wf(),
        ensures
            self@.contains_key(collection_name@) ==> (r matches Ok(v) && jsons(v@)
                == self@[collection_name@]),
            !self@.contains_key(collection_name@) ==> (r matches Err(e) && e is NotFound),
    {
        match self.index_of(collection_name) {
            Some(i) => Ok(copy_values(&self.collections[i].1)),
            None => Err(DbError::NotFound(String::from_str(collection_name))),
        }
    }

    /// The names of the collections held, each once.
    pub fn collection_names(&self) -> (r: Vec<String>)
        requires
            self.wf(),
        ensures
            r.len() == self@.dom().len(),
            forall|n: Seq<char>|
                self@.contains_key(n) <==> exists|i: int| 0 <= i < r.len() && (#[trigger] r@[i])@ == n,
    {
        let mut out: Vec<String> = Vec::new();
        let mut i: usize = 0;
        while i < self.collections.len()
            invariant
                self.wf(),
                i <= self.collections.len(),
                out.len() == i,
                forall|j: int| 0 <= j < i ==> (#[trigger] out@[j])@ == self.collections@[j].0@,
            decreases self.collections.len() - i,
        {
            out.push(self.collections[i].0.clone());
            i = i + 1;
        }
        proof {
            assert forall|n: Seq<char>|
                self@.contains_key(n) implies exists|j: int| 0 <= j < out.len() && (#[trigger] out@[j])@ == n by {
                let j = choose|j: int|
                    0 <= j < self.collections.len() && (#[trigger] self.collections@[j]).0@ == n;
                assert(out@[j]@ == n);
            }
            let names = self.collections@.map_values(|c: (String, Vec<Value>)| c.0@);
            assert(names.no_duplicates()) by {
                assert forall|a: int, b: int| 0 <= a < names.len() && 0 <= b < names.len() && a != b implies names[a] != names[b] by {
                    if a < b {
                        assert(self.collections@[a].0@ != self.collections@[b].0@);
                    } else {
                        assert(self.collections@[b].0@ != self.collections@[a].0@);
                    }
                }
            }
            assert(names.to_set() =~= self@.dom()) by {
                assert forall|n: Seq<char>| names.to_set().contains(n) implies self@.dom().contains(n) by {
                    let j = choose|j: int| 0 <= j < names.len() && names[j] == n;
                    assert(self.model@.contains_key(self.collections@[j].0@));
                }
                assert forall|n: Seq<char>| self@.dom().contains(n) implies names.to_set().contains(n) by {
                    let j = choose|j: int|
                        0 <= j < self.collections.len() && (#[trigger] self.collections@[j]).0@ == n;
                    assert(names[j] == n);
                }
            }
            names.unique_seq_to_set();
        }
        out
    }

    /// The documents of a collection file whose top level is `json_value`: it
    /// must be an array, whose items are the documents.
    pub fn collection_documents(json_value: Value) -> (r: Result<Vec<Value>, DbError>)
        ensures
            json(json_value) is Arr ==> (r matches Ok(v) && jsons(v@) == json(json_value)->Arr_0),
            !(json(json_value) is Arr) ==> (r matches Err(e) && e is Shape),
    {
        match json_value {
            Value::Array(a) => {
                proof {
                    lemma_arr_view(a);
                    assert(jsons(a@) =~= json(Value::Array(a))->Arr_0);
                }
                Ok(a)
            },
            _ => Err(DbError::Shape(String::from_str("a collection file must hold an array"))),
        }
    }

    /// The documents under key `collection_name` of an object `json_value`,
    /// which must be an array.
    pub fn extract_collection(json_value: Value, collection_name: String) -> (r: Result<
        Vec<Value>,
        DbError,
    >)
        ensures
            ({
                let ok = json(json_value) is Obj && key_index(json(json_value)->Obj_0, collection_name@)
                    >= 0 && json(json_value)->Obj_0[key_index(
                    json(json_value)->Obj_0,
                    collection_name@,
                )].1 is Arr;
                &&& ok ==> (r matches Ok(v) && jsons(v@) == json(json_value)->Obj_0[key_index(
                    json(json_value)->Obj_0,
                    collection_name@,
                )].1->Arr_0)
                &&& !ok ==> (r matches Err(e) && e is Shape)
            }),
    {
        match json_value {
            Value::Object(e) => {
                proof {
                    lemma_obj_view(e);
                }
                match find_key(&e, &collection_name) {
                    Some(j) => {
                        let mut e = e;
                        let mut entry: (String, Value) = (String::new(), Value::Null);
                        e.set_and_swap(j, &mut entry);
                        let (_, v) = entry;
                        Bison::collection_documents(v)
                    },
                    None => Err(
                        DbError::Shape(String::from_str("the collection is not in the document")),
                    ),
                }
            },
            _ => Err(DbError::Shape(String::from_str("the document is not an object"))),
        }
    }
}

/// A hash of a specification value in which the order of an object's keys
/// does not count.
fn value_hash(v: &Value) -> u64
    decreases v,
{
    match v {
        Value::Null => 1,
        Value::Bool(b) => if *b {
            2
        } else {
            3
        },
        Value::Number(n) => (*n as u64).wrapping_mul(0x9e3779b97f4a7c15u64) ^ 4,
        Value::String(s) => text_hash(s) ^ 5,
        Value::Array(a) => {
            let mut h: u64 = 6;
            let mut i: usize = 0;
            while i < a.len()
                invariant
                    *v == Value::Array(*a),
                    i <= a.len(),
                decreases a.len() - i,
            {
                proof {
                    assert(decreases_to!(*v => (*v)->Array_0));
                    assert(decreases_to!((*v)->Array_0 => (*v)->Array_0[i as int]));
                }
                h = h.wrapping_mul(31).wrapping_add(value_hash(&a[i]));
                i = i + 1;
            }
            h
        },
        Value::Object(e) => {
            let mut h: u64 = 7;
            let mut i: usize = 0;
            while i < e.len()
                invariant
                    *v == Value::Object(*e),
                    i <= e.len(),
                decreases e.len() - i,
            {
                proof {
                    assert(decreases_to!(*v => (*v)->Object_0));
                    assert(decreases_to!((*v)->Object_0 => (*v)->Object_0[i as int]));
                    assert(decreases_to!((*v)->Object_0[i as int] => (*v)->Object_0[i as int].1));
                }
                let kh = text_hash(&e[i].0);
                let vh = value_hash(&e[i].1);
                h = h.wrapping_add(kh.wrapping_mul(0x100000001b3u64) ^ vh);
                i = i + 1;
            }
            h
        },
    }
}

fn text_hash(s: &String) -> u64 {
    let b = s.as_str().as_bytes();
    let mut h: u64 = 0xcbf29ce484222325u64;
    let mut i: usize = 0;
    while i < b.len()
        invariant
            i <= b.len(),
        decreases b.len() - i,
    {
        h = (h ^ (b[i] as u64)).wrapping_mul(0x100000001b3u64);
        i = i + 1;
    }
    h
}

} // verus!
