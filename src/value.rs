use vstd::prelude::*;

verus! {

broadcast use vstd::std_specs::vec::group_vec_axioms;

/// The mathematical picture of a JSON-like value: what every contract speaks of.
pub enum Json {
    Null,
    Bool(bool),
    Num(int),
    Str(Seq<char>),
    Arr(Seq<Json>),
    Obj(Seq<(Seq<char>, Json)>),
}

/// A document value. Numbers are integers; an object keeps its keys in
/// insertion order, and its keys are meant to be unique.
#[derive(Debug)]
pub enum Value {
    Null,
    Bool(bool),
    Number(i64),
    String(String),
    Array(Vec<Value>),
    Object(Vec<(String, Value)>),
}

/// The errors that the store reports.
#[derive(Debug)]
pub enum DbError {
    /// A file could not be opened, created or renamed.
    Io(String),
    /// A file did not hold well-formed JSON.
    Deserialization(String),
    /// A value did not have the shape that the operation needs.
    Shape(String),
    /// A `$` token that names no operator; carries the token.
    UnknownOperator(String),
    /// The named collection is not known.
    NotFound(String),
}

pub open spec fn json(v: Value) -> Json
    decreases v,
{
    match v {
        Value::Null => Json::Null,
        Value::Bool(b) => Json::Bool(b),
        Value::Number(n) => Json::Num(n as int),
        Value::String(s) => Json::Str(s@),
        Value::Array(a) => Json::Arr(
            Seq::new(a.len() as nat, |i: int| if 0 <= i < a.len() { json(a[i]) } else { Json::Null }),
        ),
        Value::Object(e) => Json::Obj(
            Seq::new(
                e.len() as nat,
                |i: int|
                    if 0 <= i < e.len() {
                        (e[i].0@, json(e[i].1))
                    } else {
                        (Seq::empty(), Json::Null)
                    },
            ),
        ),
    }
}

pub open spec fn jsons(s: Seq<Value>) -> Seq<Json> {
    s.map_values(|v: Value| json(v))
}

pub open spec fn keys(p: Seq<String>) -> Seq<Seq<char>> {
    p.map_values(|s: String| s@)
}

/// Position of key `k` among the entries of an object (its last occurrence), or -1.
pub open spec fn key_index(e: Seq<(Seq<char>, Json)>, k: Seq<char>) -> int
    decreases e.len(),
{
    if e.len() == 0 {
        -1
    } else if e.last().0 == k {
        e.len() - 1
    } else {
        key_index(e.drop_last(), k)
    }
}

/// The value reached from `v` by following the keys of `path` through nested objects.
pub open spec fn lookup(v: Json, path: Seq<Seq<char>>) -> Option<Json>
    decreases path.len(),
{
    if path.len() == 0 {
        Some(v)
    } else {
        match lookup(v, path.drop_last()) {
            Some(Json::Obj(e)) => {
                let j = key_index(e, path.last());
                if j >= 0 {
                    Some(e[j].1)
                } else {
                    None
                }
            },
            _ => None,
        }
    }
}

/// Value equality: same kind and same content; objects are compared as
/// mappings, so the order of their keys does not matter.
pub open spec fn json_eq(a: Json, b: Json) -> bool
    decreases a,
{
    match a {
        Json::Null => b is Null,
        Json::Bool(x) => b == Json::Bool(x),
        Json::Num(x) => b == Json::Num(x),
        Json::Str(x) => b == Json::Str(x),
        Json::Arr(x) => match b {
            Json::Arr(y) => x.len() == y.len() && forall|i: int|
                0 <= i < x.len() ==> json_eq(#[trigger] x[i], y[i]),
            _ => false,
        },
        Json::Obj(x) => match b {
            Json::Obj(y) => x.len() == y.len() && forall|i: int|
                0 <= i < x.len() ==> {
                    let k = key_index(y, #[trigger] x[i].0);
                    k >= 0 && json_eq(x[i].1, y[k].1)
                },
            _ => false,
        },
    }
}

pub proof fn lemma_key_index_range(e: Seq<(Seq<char>, Json)>, k: Seq<char>)
    ensures
        -1 <= key_index(e, k) < e.len(),
        key_index(e, k) >= 0 ==> e[key_index(e, k)].0 == k,
        key_index(e, k) < 0 ==> forall|i: int| 0 <= i < e.len() ==> e[i].0 != k,
    decreases e.len(),
{
    if e.len() > 0 && e.last().0 != k {
        lemma_key_index_range(e.drop_last(), k);
        assert forall|i: int| 0 <= i < e.len() && key_index(e, k) < 0 implies e[i].0 != k by {
            if i < e.len() - 1 {
                assert(e.drop_last()[i] == e[i]);
            }
        }
    }
}

/// A path that fails part-way fails for every longer path too.
pub proof fn lemma_lookup_stuck(v: Json, path: Seq<Seq<char>>, n: int)
    requires
        0 <= n <= path.len(),
        !(lookup(v, path.subrange(0, n)) matches Some(Json::Obj(_))),
        n < path.len(),
    ensures
        lookup(v, path) is None,
    decreases path.len() - n,
{
    let next = path.subrange(0, n + 1);
    assert(next.drop_last() =~= path.subrange(0, n));
    if n + 1 < path.len() {
        lemma_lookup_stuck(v, path, n + 1);
    } else {
        assert(next =~= path);
    }
}

pub proof fn lemma_obj_view(e: Vec<(String, Value)>)
    ensures
        json(Value::Object(e)) is Obj,
        json(Value::Object(e))->Obj_0.len() == e.len(),
        forall|j: int|
            0 <= j < e.len() ==> #[trigger] json(Value::Object(e))->Obj_0[j] == (
            e@[j].0@,
            json(e@[j].1),
        ),
{
}

pub proof fn lemma_arr_view(a: Vec<Value>)
    ensures
        json(Value::Array(a)) is Arr,
        json(Value::Array(a))->Arr_0.len() == a.len(),
        forall|j: int|
            0 <= j < a.len() ==> #[trigger] json(Value::Array(a))->Arr_0[j] == json(a@[j]),
{
}

/// Index of key `k` among `e`, as `key_index` gives it.
pub fn find_key(e: &Vec<(String, Value)>, k: &String) -> (r: Option<usize>)
    ensures
        match r {
            Some(j) => j < e.len() && key_index(json(Value::Object(*e))->Obj_0, k@) == j,
            None => key_index(json(Value::Object(*e))->Obj_0, k@) < 0,
        },
{
    let ghost je = json(Value::Object(*e))->Obj_0;
    let mut i: usize = e.len();
    assert(je.subrange(0, e.len() as int) =~= je);
    assert forall|j: int| 0 <= j < e.len() implies #[trigger] je[j].0 == e@[j].0@ by {
        reveal_with_fuel(json, 1);
    }
    while i > 0
        invariant
            i <= e.len(),
            je == json(Value::Object(*e))->Obj_0,
            je.len() == e.len(),
            forall|j: int| 0 <= j < e.len() ==> #[trigger] je[j].0 == e@[j].0@,
            key_index(je, k@) == key_index(je.subrange(0, i as int), k@),
        decreases i,
    {
        let ghost sub = je.subrange(0, i as int);
        assert(sub.last() == je[i - 1]);
        if e[i - 1].0 == *k {
            assert(sub.len() == i);
            assert(sub.last().0 == k@);
            assert(key_index(sub, k@) == i - 1);
            return Some(i - 1);
        }
        assert(sub.drop_last() =~= je.subrange(0, i - 1));
        i = i - 1;
    }
    assert(je.subrange(0, 0).len() == 0);
    None
}

/// A deep copy of `v`.
pub fn copy_value(v: &Value) -> (r: Value)
    ensures
        json(r) == json(*v),
    decreases v,
{
    match v {
        Value::Null => Value::Null,
        Value::Bool(b) => Value::Bool(*b),
        Value::Number(n) => Value::Number(*n),
        Value::String(s) => Value::String(s.clone()),
        Value::Array(a) => {
            let mut out: Vec<Value> = Vec::new();
            let mut i: usize = 0;
            while i < a.len()
                invariant
                    *v == Value::Array(*a),
                    i <= a.len(),
                    out.len() == i,
                    forall|j: int| 0 <= j < i ==> json(#[trigger] out@[j]) == json(a@[j]),
                decreases a.len() - i,
            {
                proof {
                    assert(decreases_to!(*v => (*v)->Array_0));
                    assert(decreases_to!((*v)->Array_0 => (*v)->Array_0[i as int]));
                }
                let c = copy_value(&a[i]);
                out.push(c);
                i = i + 1;
            }
            proof {
                lemma_arr_view(out);
                lemma_arr_view(*a);
                assert(json(Value::Array(out))->Arr_0 =~= json(Value::Array(*a))->Arr_0);
            }
            Value::Array(out)
        },
        Value::Object(e) => {
            let mut out: Vec<(String, Value)> = Vec::new();
            let mut i: usize = 0;
            while i < e.len()
                invariant
                    *v == Value::Object(*e),
                    i <= e.len(),
                    out.len() == i,
                    forall|j: int|
                        0 <= j < i ==> (#[trigger] out@[j]).0@ == e@[j].0@ && json(out@[j].1)
                            == json(e@[j].1),
                decreases e.len() - i,
            {
                let k = e[i].0.clone();
                proof {
                    assert(decreases_to!(*v => (*v)->Object_0));
                    assert(decreases_to!((*v)->Object_0 => (*v)->Object_0[i as int]));
                    assert(decreases_to!((*v)->Object_0[i as int] => (*v)->Object_0[i as int].1));
                }
                let c = copy_value(&e[i].1);
                out.push((k, c));
                i = i + 1;
            }
            proof {
                lemma_obj_view(out);
                lemma_obj_view(*e);
                assert(json(Value::Object(out))->Obj_0 =~= json(Value::Object(*e))->Obj_0);
            }
            Value::Object(out)
        },
    }
}

/// A deep copy of each value of `s`.
pub fn copy_values(s: &Vec<Value>) -> (r: Vec<Value>)
    ensures
        jsons(r@) == jsons(s@),
{
    let mut out: Vec<Value> = Vec::new();
    let mut i: usize = 0;
    while i < s.len()
        invariant
            i <= s.len(),
            jsons(out@) == jsons(s@.subrange(0, i as int)),
        decreases s.len() - i,
    {
        let c = copy_value(&s[i]);
        let ghost before = out@;
        out.push(c);
        assert(out@ == before.push(c));
        proof {
            assert(jsons(out@) =~= jsons(s@.subrange(0, i as int)).push(json(s@[i as int])));
        }
        i = i + 1;
        assert(jsons(out@) =~= jsons(s@.subrange(0, i as int)));
    }
    assert(s@.subrange(0, s.len() as int) =~= s@);
    out
}

/// Decides `json_eq` on two values.
pub fn values_equal(a: &Value, b: &Value) -> (r: bool)
    ensures
        r == json_eq(json(*a), json(*b)),
    decreases a,
{
    match a {
        Value::Null => match b {
            Value::Null => true,
            _ => false,
        },
        Value::Bool(x) => match b {
            Value::Bool(y) => *x == *y,
            _ => false,
        },
        Value::Number(x) => match b {
            Value::Number(y) => *x == *y,
            _ => false,
        },
        Value::String(x) => match b {
            Value::String(y) => *x == *y,
            _ => false,
        },
        Value::Array(x) => match b {
            Value::Array(y) => {
                proof {
                    lemma_arr_view(*x);
                    lemma_arr_view(*y);
                }
                if x.len() != y.len() {
                    return false;
                }
                let ghost jx = json(Value::Array(*x))->Arr_0;
                let ghost jy = json(Value::Array(*y))->Arr_0;
                let mut i: usize = 0;
                while i < x.len()
                    invariant
                        *a == Value::Array(*x),
                        *b == Value::Array(*y),
                        i <= x.len(),
                        x.len() == y.len(),
                        jx == json(Value::Array(*x))->Arr_0,
                        jy == json(Value::Array(*y))->Arr_0,
                        jx.len() == x.len(),
                        jy.len() == y.len(),
                        forall|j: int| 0 <= j < x.len() ==> #[trigger] jx[j] == json(x@[j]),
                        forall|j: int| 0 <= j < y.len() ==> #[trigger] jy[j] == json(y@[j]),
                        forall|j: int| 0 <= j < i ==> json_eq(#[trigger] jx[j], jy[j]),
                    decreases x.len() - i,
                {
                    if !values_equal(&x[i], &y[i]) {
                        assert(!json_eq(jx[i as int], jy[i as int]));
                        return false;
                    }
                    i = i + 1;
                }
                true
            },
            _ => false,
        },
        Value::Object(x) => match b {
            Value::Object(y) => {
                proof {
                    lemma_obj_view(*x);
                    lemma_obj_view(*y);
                }
                if x.len() != y.len() {
                    return false;
                }
                let ghost jx = json(Value::Object(*x))->Obj_0;
                let ghost jy = json(Value::Object(*y))->Obj_0;
                let mut i: usize = 0;
                while i < x.len()
                    invariant
                        *a == Value::Object(*x),
                        *b == Value::Object(*y),
                        i <= x.len(),
                        x.len() == y.len(),
                        jx == json(Value::Object(*x))->Obj_0,
                        jy == json(Value::Object(*y))->Obj_0,
                        jx.len() == x.len(),
                        jy.len() == y.len(),
                        forall|j: int|
                            0 <= j < x.len() ==> #[trigger] jx[j] == (x@[j].0@, json(x@[j].1)),
                        forall|j: int|
                            0 <= j < y.len() ==> #[trigger] jy[j] == (y@[j].0@, json(y@[j].1)),
                        forall|j: int|
                            0 <= j < i ==> {
                                let k = key_index(jy, #[trigger] jx[j].0);
                                k >= 0 && json_eq(jx[j].1, jy[k].1)
                            },
                    decreases x.len() - i,
                {
                    match find_key(y, &x[i].0) {
                        None => {
                            assert(key_index(jy, jx[i as int].0) < 0);
                            return false;
                        },
                        Some(k) => {
                            if !values_equal(&x[i].1, &y[k].1) {
                                assert(key_index(jy, jx[i as int].0) == k);
                                return false;
                            }
                        },
                    }
                    i = i + 1;
                }
                true
            },
            _ => false,
        },
    }
}

/// Decides whether two values have the same view: same kinds, same
/// contents, and object keys in the same order.
pub fn same_value(a: &Value, b: &Value) -> (r: bool)
    ensures
        r == (json(*a) == json(*b)),
    decreases a,
{
    match a {
        Value::Null => match b {
            Value::Null => true,
            _ => false,
        },
        Value::Bool(x) => match b {
            Value::Bool(y) => *x == *y,
            _ => false,
        },
        Value::Number(x) => match b {
            Value::Number(y) => *x == *y,
            _ => false,
        },
        Value::String(x) => match b {
            Value::String(y) => *x == *y,
            _ => false,
        },
        Value::Array(x) => match b {
            Value::Array(y) => {
                proof {
                    lemma_arr_view(*x);
                    lemma_arr_view(*y);
                }
                if x.len() != y.len() {
                    return false;
                }
                let ghost jx = json(Value::Array(*x))->Arr_0;
                let ghost jy = json(Value::Array(*y))->Arr_0;
                let mut i: usize = 0;
                while i < x.len()
                    invariant
                        *a == Value::Array(*x),
                        *b == Value::Array(*y),
                        i <= x.len(),
                        x.len() == y.len(),
                        jx == json(Value::Array(*x))->Arr_0,
                        jy == json(Value::Array(*y))->Arr_0,
                        jx.len() == x.len(),
                        jy.len() == y.len(),
                        forall|j: int| 0 <= j < x.len() ==> #[trigger] jx[j] == json(x@[j]),
                        forall|j: int| 0 <= j < y.len() ==> #[trigger] jy[j] == json(y@[j]),
                        forall|j: int| 0 <= j < i ==> #[trigger] jx[j] == jy[j],
                    decreases x.len() - i,
                {
                    if !same_value(&x[i], &y[i]) {
                        assert(jx[i as int] != jy[i as int]);
                        return false;
                    }
                    i = i + 1;
                }
                assert(jx =~= jy);
                true
            },
            _ => false,
        },
        Value::Object(x) => match b {
            Value::Object(y) => {
                proof {
                    lemma_obj_view(*x);
                    lemma_obj_view(*y);
                }
                if x.len() != y.len() {
                    return false;
                }
                let ghost jx = json(Value::Object(*x))->Obj_0;
                let ghost jy = json(Value::Object(*y))->Obj_0;
                let mut i: usize = 0;
                while i < x.len()
                    invariant
                        *a == Value::Object(*x),
                        *b == Value::Object(*y),
                        i <= x.len(),
                        x.len() == y.len(),
                        jx == json(Value::Object(*x))->Obj_0,
                        jy == json(Value::Object(*y))->Obj_0,
                        jx.len() == x.len(),
                        jy.len() == y.len(),
                        forall|j: int|
                            0 <= j < x.len() ==> #[trigger] jx[j] == (x@[j].0@, json(x@[j].1)),
                        forall|j: int|
                            0 <= j < y.len() ==> #[trigger] jy[j] == (y@[j].0@, json(y@[j].1)),
                        forall|j: int| 0 <= j < i ==> #[trigger] jx[j] == jy[j],
                    decreases x.len() - i,
                {
                    if x[i].0 != y[i].0 {
                        assert(jx[i as int] != jy[i as int]);
                        return false;
                    }
                    if !same_value(&x[i].1, &y[i].1) {
                        assert(jx[i as int] != jy[i as int]);
                        return false;
                    }
                    i = i + 1;
                }
                assert(jx =~= jy);
                true
            },
            _ => false,
        },
    }
}

/// The value that `path` reaches in `doc`, if any.
pub fn resolve<'a>(doc: &'a Value, path: &Vec<String>) -> (r: Option<&'a Value>)
    ensures
        match r {
            Some(v) => lookup(json(*doc), keys(path@)) == Some(json(*v)),
            None => lookup(json(*doc), keys(path@)) is None,
        },
{
    let ghost p = keys(path@);
    let mut cur: &Value = doc;
    let mut i: usize = 0;
    assert(p.subrange(0, 0).len() == 0);
    while i < path.len()
        invariant
            i <= path.len(),
            p == keys(path@),
            lookup(json(*doc), p.subrange(0, i as int)) == Some(json(*cur)),
        decreases path.len() - i,
    {
        let ghost next = p.subrange(0, i + 1);
        assert(next.drop_last() =~= p.subrange(0, i as int));
        assert(next.last() == path@[i as int]@);
        match cur {
            Value::Object(e) => {
                proof {
                    lemma_obj_view(*e);
                }
                match find_key(e, &path[i]) {
                    Some(j) => {
                        cur = &e[j].1;
                    },
                    None => {
                        proof {
                            if i + 1 < path.len() {
                                lemma_lookup_stuck(json(*doc), p, i + 1);
                            } else {
                                assert(next =~= p);
                            }
                        }
                        return None;
                    },
                }
            },
            _ => {
                proof {
                    lemma_lookup_stuck(json(*doc), p, i as int);
                }
                return None;
            },
        }
        i = i + 1;
    }
    assert(p.subrange(0, path.len() as int) =~= p);
    Some(cur)
}

} // verus!
