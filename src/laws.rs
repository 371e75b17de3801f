use vstd::prelude::*;

use crate::query::{
    apply_all, apply_op, clause_ops, fits, flat_entries, flat_value, is_op_token, matches_all,
    query_ops, term_holds, update_at, update_op_of, update_ops, UpdateOperator,
};
use crate::store::{filter_terms, find_spec, select, update_docs, update_spec, update_terms, QTerm};
use crate::value::{json, jsons, key_index, lemma_arr_view, lemma_key_index_range, lookup, Json, Value};

verus! {

/// An update specification `{f: {op: null}}`.
pub open spec fn single_update(f: Seq<char>, op: Seq<char>) -> Json {
    Json::Obj(seq![(f, Json::Obj(seq![(op, Json::Null)]))])
}

/// The keys of an object's entries are pairwise distinct.
pub open spec fn keys_unique(e: Seq<(Seq<char>, Json)>) -> bool {
    forall|a: int, b: int| 0 <= a < b < e.len() ==> e[a].0 != e[b].0
}

proof fn lemma_key_index_same_keys(e1: Seq<(Seq<char>, Json)>, e2: Seq<(Seq<char>, Json)>, k: Seq<char>)
    requires
        e1.len() == e2.len(),
        forall|i: int| 0 <= i < e1.len() ==> e1[i].0 == e2[i].0,
    ensures
        key_index(e1, k) == key_index(e2, k),
    decreases e1.len(),
{
    if e1.len() > 0 {
        lemma_key_index_same_keys(e1.drop_last(), e2.drop_last(), k);
    }
}

proof fn lemma_key_index_absent(e: Seq<(Seq<char>, Json)>, k: Seq<char>)
    requires
        forall|i: int| 0 <= i < e.len() ==> e[i].0 != k,
    ensures
        key_index(e, k) < 0,
{
    lemma_key_index_range(e, k);
}

/// A find without a filter returns the collection's documents, all of them
/// and in their order.
pub proof fn find_without_filter_returns_all(m: Map<Seq<char>, Seq<Json>>, name: Seq<char>)
    requires
        m.contains_key(name),
    ensures
        find_spec(m, name, None) == Ok::<Seq<Json>, crate::query::Fault>(m[name]),
{
}

/// A literal under a field is the same filter as that literal under `$eq`.
pub proof fn literal_is_equality(f: Seq<char>, v: Json)
    requires
        !is_op_token(f),
        !(v is Obj),
    ensures
        filter_terms(Json::Obj(seq![(f, v)])) == filter_terms(
            Json::Obj(seq![(f, Json::Obj(seq![("$eq"@, v)]))]),
        ),
{
    reveal_strlit("$eq");
    let e1 = seq![(f, v)];
    let inner = seq![("$eq"@, v)];
    let e2 = seq![(f, Json::Obj(inner))];
    assert(is_op_token("$eq"@));
    assert(flat_value(v, seq![].push(f)) == Some(seq![(seq![f], None::<Seq<char>>, v)])) by {
        assert(seq![].push(f) =~= seq![f]);
    }
    assert(flat_entries(e1, 0, seq![]) == Some(Seq::<(Seq<Seq<char>>, Option<Seq<char>>, Json)>::empty()));
    assert(flat_entries(e1, 1, seq![]) == Some(seq![(seq![f], None::<Seq<char>>, v)])) by {
        assert(seq![].push(f) =~= seq![f]);
        assert(Seq::<(Seq<Seq<char>>, Option<Seq<char>>, Json)>::empty() + seq![(seq![f], None::<Seq<char>>, v)]
            =~= seq![(seq![f], None::<Seq<char>>, v)]);
    }
    assert(flat_entries(inner, 0, seq![f]) == Some(Seq::<(Seq<Seq<char>>, Option<Seq<char>>, Json)>::empty()));
    assert(flat_entries(inner, 1, seq![f]) == Some(seq![(seq![f], Some("$eq"@), v)])) by {
        assert(Seq::<(Seq<Seq<char>>, Option<Seq<char>>, Json)>::empty().push((seq![f], Some("$eq"@), v))
            =~= seq![(seq![f], Some("$eq"@), v)]);
    }
    assert(flat_entries(e2, 0, seq![]) == Some(Seq::<(Seq<Seq<char>>, Option<Seq<char>>, Json)>::empty()));
    assert(flat_entries(e2, 1, seq![]) == Some(seq![(seq![f], Some("$eq"@), v)])) by {
        assert(seq![].push(f) =~= seq![f]);
        assert(flat_value(Json::Obj(inner), seq![f]) == flat_entries(inner, 1, seq![f]));
        assert(Seq::<(Seq<Seq<char>>, Option<Seq<char>>, Json)>::empty() + seq![(seq![f], Some("$eq"@), v)]
            =~= seq![(seq![f], Some("$eq"@), v)]);
    }
    let s1 = seq![(seq![f], None::<Seq<char>>, v)];
    let s2 = seq![(seq![f], Some("$eq"@), v)];
    assert(s1.drop_last() =~= seq![]);
    assert(s2.drop_last() =~= seq![]);
    assert(query_ops()("$eq"@) == Some(crate::query::QueryOperator::Equal));
    assert(clause_ops(s1, query_ops(), crate::query::QueryOperator::Equal) == clause_ops(
        s2,
        query_ops(),
        crate::query::QueryOperator::Equal,
    ));
}

/// A document in which a term's path does not resolve matches no filter
/// holding that term, whatever its operator (`$ne` included); so no find
/// with that filter returns it.
pub proof fn missing_field_never_matches(d: Seq<Json>, doc: Json, ts: Seq<QTerm>, i: int)
    requires
        0 <= i < ts.len(),
        lookup(doc, ts[i].0) is None,
    ensures
        !matches_all(doc, ts),
        forall|j: int| 0 <= j < select(d, ts).len() ==> select(d, ts)[j] != doc,
{
    assert(!term_holds(doc, ts[i]));
    assert forall|j: int| 0 <= j < select(d, ts).len() implies select(d, ts)[j] != doc by {
        d.lemma_filter_pred(|x: Json| matches_all(x, ts), j);
    }
}

proof fn lemma_update_tokens()
    ensures
        is_op_token("$inc"@),
        is_op_token("$delete"@),
        update_op_of("$inc"@) == Some(UpdateOperator::Increment),
        update_op_of("$delete"@) == Some(UpdateOperator::Delete),
{
    reveal_strlit("$inc");
    reveal_strlit("$delete");
    reveal_strlit("$set");
    reveal_strlit("$add");
    reveal_strlit("$substract");
    reveal_strlit("$dec");
    assert("$inc"@[1] != "$set"@[1]);
    assert("$inc"@ != "$add"@) by {
        assert("$inc"@[1] != "$add"@[1]);
    }
    assert("$delete"@[1] != "$set"@[1]);
    assert("$delete"@.len() != "$add"@.len());
    assert("$delete"@.len() != "$substract"@.len());
    assert("$delete"@.len() != "$inc"@.len());
    assert("$delete"@.len() != "$dec"@.len());
}

proof fn lemma_single_update_terms(f: Seq<char>, op: Seq<char>, o: UpdateOperator)
    requires
        !is_op_token(f),
        is_op_token(op),
        update_op_of(op) == Some(o),
    ensures
        update_terms(single_update(f, op)) == Ok::<Seq<(Seq<Seq<char>>, UpdateOperator, Json)>, crate::query::Fault>(
            seq![(seq![f], o, Json::Null)],
        ),
{
    let inner = seq![(op, Json::Null)];
    let e = seq![(f, Json::Obj(inner))];
    assert(flat_entries(inner, 0, seq![f]) == Some(Seq::<(Seq<Seq<char>>, Option<Seq<char>>, Json)>::empty()));
    assert(flat_entries(inner, 1, seq![f]) == Some(seq![(seq![f], Some(op), Json::Null)])) by {
        assert(Seq::<(Seq<Seq<char>>, Option<Seq<char>>, Json)>::empty().push((seq![f], Some(op), Json::Null))
            =~= seq![(seq![f], Some(op), Json::Null)]);
    }
    assert(flat_entries(e, 0, seq![]) == Some(Seq::<(Seq<Seq<char>>, Option<Seq<char>>, Json)>::empty()));
    assert(flat_entries(e, 1, seq![]) == Some(seq![(seq![f], Some(op), Json::Null)])) by {
        assert(seq![].push(f) =~= seq![f]);
        assert(flat_value(Json::Obj(inner), seq![f]) == flat_entries(inner, 1, seq![f]));
        assert(Seq::<(Seq<Seq<char>>, Option<Seq<char>>, Json)>::empty() + seq![(seq![f], Some(op), Json::Null)]
            =~= seq![(seq![f], Some(op), Json::Null)]);
    }
    let s = seq![(seq![f], Some(op), Json::Null)];
    assert(e.len() == 1);
    assert(s.drop_last() =~= seq![]);
    assert(update_ops()(op) == Some(o));
    assert(clause_ops(s.drop_last(), update_ops(), UpdateOperator::SetValue) == Ok::<
        Seq<(Seq<Seq<char>>, UpdateOperator, Json)>,
        Seq<char>,
    >(seq![]));
    assert(Seq::<(Seq<Seq<char>>, UpdateOperator, Json)>::empty().push((seq![f], o, Json::Null))
        =~= seq![(seq![f], o, Json::Null)]);
}

/// Incrementing a field that holds `n` leaves `n + 1` there.
proof fn lemma_increment_field(doc: Json, f: Seq<char>, n: int)
    requires
        lookup(doc, seq![f]) == Some(Json::Num(n)),
        fits(n + 1),
    ensures
        lookup(apply_all(doc, seq![(seq![f], UpdateOperator::Increment, Json::Null)]), seq![f])
            == Some(Json::Num(n + 1)),
{
    let ts = seq![(seq![f], UpdateOperator::Increment, Json::Null)];
    let p = seq![f];
    assert(ts.drop_last() =~= seq![]);
    assert(p.drop_last() =~= Seq::<Seq<char>>::empty());
    assert(lookup(doc, p.drop_last()) == Some(doc));
    assert(p.last() == f && p[0] == f);
    let e = doc->Obj_0;
    let j = key_index(e, f);
    lemma_key_index_range(e, f);
    assert(j >= 0);
    let e2 = e.update(j, (e[j].0, apply_op(UpdateOperator::Increment, e[j].1, Json::Null)));
    assert(apply_all(doc, ts.drop_last()) == doc);
    assert(update_at(doc, p, UpdateOperator::Increment, Json::Null) == Json::Obj(e2));
    lemma_key_index_same_keys(e, e2, f);
    assert(lookup(Json::Obj(e2), p.drop_last()) == Some(Json::Obj(e2)));
}

/// `$inc` adds exactly one to a numeric field of each document that the
/// filter matches, and leaves the other documents as they were.
pub proof fn increment_adds_one(
    m: Map<Seq<char>, Seq<Json>>,
    name: Seq<char>,
    f: Seq<char>,
    q: Option<Json>,
    i: int,
    n: int,
)
    requires
        m.contains_key(name),
        !is_op_token(f),
        q is Some ==> filter_terms(q->Some_0) is Ok,
        0 <= i < m[name].len(),
        lookup(m[name][i], seq![f]) == Some(Json::Num(n)),
        fits(n + 1),
    ensures
        update_spec(m, name, single_update(f, "$inc"@), q) matches Ok(d) && d.len() == m[name].len()
            && if q is None || matches_all(m[name][i], filter_terms(q->Some_0)->Ok_0) {
            lookup(d[i], seq![f]) == Some(Json::Num(n + 1))
        } else {
            d[i] == m[name][i]
        },
{
    lemma_update_tokens();
    lemma_single_update_terms(f, "$inc"@, UpdateOperator::Increment);
    if q is None || matches_all(m[name][i], filter_terms(q->Some_0)->Ok_0) {
        lemma_increment_field(m[name][i], f, n);
    }
}

/// Incrementing the same numeric field twice, with no filter, adds exactly two.
pub proof fn increment_twice_adds_two(
    m: Map<Seq<char>, Seq<Json>>,
    name: Seq<char>,
    f: Seq<char>,
    i: int,
    n: int,
)
    requires
        m.contains_key(name),
        !is_op_token(f),
        0 <= i < m[name].len(),
        lookup(m[name][i], seq![f]) == Some(Json::Num(n)),
        fits(n),
        fits(n + 2),
    ensures
        update_spec(m, name, single_update(f, "$inc"@), None) matches Ok(d1) && update_spec(
            m.insert(name, d1),
            name,
            single_update(f, "$inc"@),
            None,
        ) matches Ok(d2) && d2.len() == m[name].len() && lookup(d2[i], seq![f]) == Some(
            Json::Num(n + 2),
        ),
{
    lemma_update_tokens();
    lemma_single_update_terms(f, "$inc"@, UpdateOperator::Increment);
    lemma_increment_field(m[name][i], f, n);
    let d1 = update_docs(m[name], seq![(seq![f], UpdateOperator::Increment, Json::Null)], None);
    lemma_increment_field(d1[i], f, n + 1);
}

/// `$delete` removes the field from every document, so that afterwards no
/// equality filter on it matches any document.
pub proof fn delete_removes_field(
    m: Map<Seq<char>, Seq<Json>>,
    name: Seq<char>,
    f: Seq<char>,
    i: int,
    v: Json,
)
    requires
        m.contains_key(name),
        !is_op_token(f),
        0 <= i < m[name].len(),
        m[name][i] is Obj ==> keys_unique(m[name][i]->Obj_0),
    ensures
        update_spec(m, name, single_update(f, "$delete"@), None) matches Ok(d) && d.len()
            == m[name].len() && lookup(d[i], seq![f]) is None && !matches_all(
            d[i],
            seq![(seq![f], crate::query::QueryOperator::Equal, v)],
        ),
{
    lemma_update_tokens();
    lemma_single_update_terms(f, "$delete"@, UpdateOperator::Delete);
    let ts = seq![(seq![f], UpdateOperator::Delete, Json::Null)];
    let doc = m[name][i];
    let d = update_docs(m[name], ts, None);
    assert(ts.drop_last() =~= seq![]);
    assert(seq![f].drop_last() =~= Seq::<Seq<char>>::empty());
    assert(apply_all(doc, ts.drop_last()) == doc);
    assert(d[i] == update_at(doc, seq![f], UpdateOperator::Delete, Json::Null));
    let p = seq![f];
    assert(p.drop_last() =~= Seq::<Seq<char>>::empty());
    assert(p.last() == f && p[0] == f);
    if doc is Obj {
        let e = doc->Obj_0;
        let j = key_index(e, f);
        lemma_key_index_range(e, f);
        if j >= 0 {
            let e2 = e.remove(j);
            assert forall|k: int| 0 <= k < e2.len() implies e2[k].0 != f by {
                if k < j {
                    assert(e2[k] == e[k]);
                } else {
                    assert(e2[k] == e[k + 1]);
                }
            }
            lemma_key_index_absent(e2, f);
            assert(d[i] == Json::Obj(e2));
            assert(lookup(d[i], p.drop_last()) == Some(d[i]));
        } else {
            assert(lookup(d[i], p.drop_last()) == Some(d[i]));
        }
    }
    assert(lookup(d[i], p) is None);
    let qs = seq![(seq![f], crate::query::QueryOperator::Equal, v)];
    assert(!term_holds(d[i], qs[0]));
}

/// After an update, a find on the collection computes its result on the
/// updated documents, not on those that an earlier find saw.
pub proof fn find_after_update_sees_it(
    m: Map<Seq<char>, Seq<Json>>,
    name: Seq<char>,
    u: Json,
    q0: Option<Json>,
    q: Json,
)
    requires
        update_spec(m, name, u, q0) is Ok,
        filter_terms(q) is Ok,
    ensures
        find_spec(m.insert(name, update_spec(m, name, u, q0)->Ok_0), name, Some(q)) == Ok::<
            Seq<Json>,
            crate::query::Fault,
        >(select(update_spec(m, name, u, q0)->Ok_0, filter_terms(q)->Ok_0)),
{
}

/// A collection written as the array of its documents reads back as the same
/// documents, in the same order.
pub proof fn written_collection_reads_back(docs: Vec<Value>)
    ensures
        json(Value::Array(docs)) is Arr,
        json(Value::Array(docs))->Arr_0 == jsons(docs@),
{
    lemma_arr_view(docs);
    assert(json(Value::Array(docs))->Arr_0 =~= jsons(docs@));
}

/// After a collection is dropped, a find on it reports that it is missing.
pub proof fn find_after_drop_is_missing(m: Map<Seq<char>, Seq<Json>>, name: Seq<char>, q: Option<Json>)
    ensures
        find_spec(m.remove(name), name, q) == Err::<Seq<Json>, crate::query::Fault>(
            crate::query::Fault::Missing,
        ),
{
}

} // verus!
