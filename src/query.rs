use vstd::prelude::*;

use crate::value::{
    copy_value, find_key, json, key_index, keys, lemma_obj_view, lookup,
    json_eq, resolve, values_equal, DbError, Json, Value,
};

verus! {

broadcast use vstd::std_specs::vec::group_vec_axioms;

/// Comparison operators of a filter.
#[derive(PartialEq, Eq, Structural, Clone, Copy, Debug)]
pub enum QueryOperator {
    Equal,
    NotEqual,
    GreaterThan,
    GreaterThanEqual,
    LessThan,
    LessThanEqual,
}

/// Mutation operators of an update.
#[derive(PartialEq, Eq, Structural, Clone, Copy, Debug)]
pub enum UpdateOperator {
    SetValue,
    Add,
    Substract,
    Increment,
    Decrement,
    Delete,
}

/// One compiled condition or mutation: a field path, an operator and a literal.
pub struct Query<T> {
    pub fields: Vec<String>,
    pub value: Value,
    pub operator: T,
}

/// A compiled filter or update: its queries apply together.
pub struct QueryEngine<T> {
    pub queries: Vec<Query<T>>,
}

/// Why a specification does not compile.
pub enum Fault {
    Shape,
    Unknown(Seq<char>),
    Missing,
}

/// A path, the operator token found at its end (if any) and the literal.
pub type Clause = (Seq<Seq<char>>, Option<Seq<char>>, Json);

pub open spec fn query_op_of(t: Seq<char>) -> Option<QueryOperator> {
    if t == "$eq"@ {
        Some(QueryOperator::Equal)
    } else if t == "$ne"@ {
        Some(QueryOperator::NotEqual)
    } else if t == "$gt"@ {
        Some(QueryOperator::GreaterThan)
    } else if t == "$gte"@ {
        Some(QueryOperator::GreaterThanEqual)
    } else if t == "$lt"@ {
        Some(QueryOperator::LessThan)
    } else if t == "$lte"@ {
        Some(QueryOperator::LessThanEqual)
    } else {
        None
    }
}

pub open spec fn update_op_of(t: Seq<char>) -> Option<UpdateOperator> {
    if t == "$set"@ {
        Some(UpdateOperator::SetValue)
    } else if t == "$add"@ {
        Some(UpdateOperator::Add)
    } else if t == "$substract"@ {
        Some(UpdateOperator::Substract)
    } else if t == "$inc"@ {
        Some(UpdateOperator::Increment)
    } else if t == "$dec"@ {
        Some(UpdateOperator::Decrement)
    } else if t == "$delete"@ {
        Some(UpdateOperator::Delete)
    } else {
        None
    }
}

pub open spec fn is_op_token(k: Seq<char>) -> bool {
    k.len() > 0 && k[0] == '$'
}

/// The clauses that a specification value `v` reached at `path` yields: an
/// object fans out over its keys, anything else is an implicit-operator literal.
pub open spec fn flat_value(v: Json, path: Seq<Seq<char>>) -> Option<Seq<Clause>>
    decreases v, 0nat,
{
    match v {
        Json::Obj(e) => if e.len() == 0 {
            None
        } else {
            flat_entries(e, e.len(), path)
        },
        _ => Some(seq![(path, None, v)]),
    }
}

/// The clauses of the first `n` entries of an object reached at `path`. A
/// `$` key ends the path: its value is the literal.
pub open spec fn flat_entries(e: Seq<(Seq<char>, Json)>, n: nat, path: Seq<Seq<char>>) -> Option<
    Seq<Clause>,
>
    decreases e, n,
{
    if n == 0 || n > e.len() {
        Some(seq![])
    } else {
        match flat_entries(e, (n - 1) as nat, path) {
            None => None,
            Some(s) => {
                let k = e[n - 1].0;
                if is_op_token(k) {
                    if path.len() == 0 {
                        None
                    } else {
                        Some(s.push((path, Some(k), e[n - 1].1)))
                    }
                } else {
                    match flat_value(e[n - 1].1, path.push(k)) {
                        None => None,
                        Some(t) => Some(s + t),
                    }
                }
            },
        }
    }
}

/// Operators for the clauses, in order; the first unknown token is the error.
pub open spec fn clause_ops<T>(
    s: Seq<Clause>,
    op_of: spec_fn(Seq<char>) -> Option<T>,
    default: T,
) -> Result<Seq<(Seq<Seq<char>>, T, Json)>, Seq<char>>
    decreases s.len(),
{
    if s.len() == 0 {
        Ok(seq![])
    } else {
        match clause_ops(s.drop_last(), op_of, default) {
            Err(t) => Err(t),
            Ok(ts) => {
                let c = s.last();
                match c.1 {
                    None => Ok(ts.push((c.0, default, c.2))),
                    Some(t) => match op_of(t) {
                        Some(op) => Ok(ts.push((c.0, op, c.2))),
                        None => Err(t),
                    },
                }
            },
        }
    }
}

pub open spec fn compile_spec<T>(
    e: Seq<(Seq<char>, Json)>,
    op_of: spec_fn(Seq<char>) -> Option<T>,
    default: T,
) -> Result<Seq<(Seq<Seq<char>>, T, Json)>, Fault> {
    match flat_entries(e, e.len(), seq![]) {
        None => Err(Fault::Shape),
        Some(s) => match clause_ops(s, op_of, default) {
            Ok(ts) => Ok(ts),
            Err(t) => Err(Fault::Unknown(t)),
        },
    }
}

pub open spec fn query_ops() -> spec_fn(Seq<char>) -> Option<QueryOperator> {
    |t: Seq<char>| query_op_of(t)
}

pub open spec fn update_ops() -> spec_fn(Seq<char>) -> Option<UpdateOperator> {
    |t: Seq<char>| update_op_of(t)
}

/// The terms of a filter specification given by its entries.
pub open spec fn compile_filter(e: Seq<(Seq<char>, Json)>) -> Result<
    Seq<(Seq<Seq<char>>, QueryOperator, Json)>,
    Fault,
> {
    compile_spec(e, query_ops(), QueryOperator::Equal)
}

/// The terms of an update specification given by its entries.
pub open spec fn compile_update(e: Seq<(Seq<char>, Json)>) -> Result<
    Seq<(Seq<Seq<char>>, UpdateOperator, Json)>,
    Fault,
> {
    compile_spec(e, update_ops(), UpdateOperator::SetValue)
}

pub open spec fn reports(e: DbError, f: Fault) -> bool {
    match f {
        Fault::Shape => e is Shape,
        Fault::Unknown(t) => e matches DbError::UnknownOperator(s) && s@ == t,
        Fault::Missing => e is NotFound,
    }
}

pub open spec fn clause_view(c: (Vec<String>, Option<String>, Value)) -> Clause {
    (
        keys(c.0@),
        match c.1 {
            Some(t) => Some(t@),
            None => None,
        },
        json(c.2),
    )
}

pub open spec fn clause_views(s: Seq<(Vec<String>, Option<String>, Value)>) -> Seq<Clause> {
    s.map_values(|c: (Vec<String>, Option<String>, Value)| clause_view(c))
}

/// Whether a found value satisfies `op` against the literal. Ordering
/// holds only between two numbers.
pub open spec fn op_holds(op: QueryOperator, found: Json, lit: Json) -> bool {
    match op {
        QueryOperator::Equal => json_eq(lit, found),
        QueryOperator::NotEqual => !json_eq(lit, found),
        QueryOperator::GreaterThan => found is Num && lit is Num && found->Num_0 > lit->Num_0,
        QueryOperator::GreaterThanEqual => found is Num && lit is Num && found->Num_0
            >= lit->Num_0,
        QueryOperator::LessThan => found is Num && lit is Num && found->Num_0 < lit->Num_0,
        QueryOperator::LessThanEqual => found is Num && lit is Num && found->Num_0 <= lit->Num_0,
    }
}

/// A term holds of a document when its path resolves and the operator holds there.
pub open spec fn term_holds(doc: Json, t: (Seq<Seq<char>>, QueryOperator, Json)) -> bool {
    match lookup(doc, t.0) {
        Some(v) => op_holds(t.1, v, t.2),
        None => false,
    }
}

/// A document matches a filter when every term holds.
pub open spec fn matches_all(doc: Json, ts: Seq<(Seq<Seq<char>>, QueryOperator, Json)>) -> bool {
    forall|i: int| 0 <= i < ts.len() ==> term_holds(doc, #[trigger] ts[i])
}

pub open spec fn fits(n: int) -> bool {
    i64::MIN <= n <= i64::MAX
}

/// The integer `n` as a value, or `cur` unchanged where it does not fit.
pub open spec fn num_or(n: int, cur: Json) -> Json {
    if fits(n) {
        Json::Num(n)
    } else {
        cur
    }
}

/// The new value of a field under `op`. Arithmetic needs numbers and a
/// result that fits; otherwise the field keeps its value.
pub open spec fn apply_op(op: UpdateOperator, cur: Json, lit: Json) -> Json {
    match op {
        UpdateOperator::SetValue => lit,
        UpdateOperator::Increment => if cur is Num {
            num_or(cur->Num_0 + 1, cur)
        } else {
            cur
        },
        UpdateOperator::Decrement => if cur is Num {
            num_or(cur->Num_0 - 1, cur)
        } else {
            cur
        },
        UpdateOperator::Add => if cur is Num && lit is Num {
            num_or(cur->Num_0 + lit->Num_0, cur)
        } else {
            cur
        },
        UpdateOperator::Substract => if cur is Num && lit is Num {
            num_or(cur->Num_0 - lit->Num_0, cur)
        } else {
            cur
        },
        UpdateOperator::Delete => cur,
    }
}

/// `doc` after one mutation at `path`. Nothing is created: where a key of the
/// path is missing or leads to a non-object, the document is unchanged.
pub open spec fn update_at(doc: Json, path: Seq<Seq<char>>, op: UpdateOperator, lit: Json) -> Json
    decreases path.len(),
{
    if path.len() == 0 {
        doc
    } else {
        match doc {
            Json::Obj(e) => {
                let j = key_index(e, path[0]);
                if j < 0 {
                    doc
                } else if path.len() == 1 {
                    if op == UpdateOperator::Delete {
                        Json::Obj(e.remove(j))
                    } else {
                        Json::Obj(e.update(j, (e[j].0, apply_op(op, e[j].1, lit))))
                    }
                } else {
                    Json::Obj(e.update(j, (e[j].0, update_at(e[j].1, path.drop_first(), op, lit))))
                }
            },
            _ => doc,
        }
    }
}

/// `doc` after the mutations of `ts`, applied in order.
pub open spec fn apply_all(doc: Json, ts: Seq<(Seq<Seq<char>>, UpdateOperator, Json)>) -> Json
    decreases ts.len(),
{
    if ts.len() == 0 {
        doc
    } else {
        let t = ts.last();
        update_at(apply_all(doc, ts.drop_last()), t.0, t.1, t.2)
    }
}

impl<T> Query<T> {
    pub open spec fn term(&self) -> (Seq<Seq<char>>, T, Json) {
        (keys(self.fields@), self.operator, json(self.value))
    }
}

pub open spec fn terms_of<T>(qs: Seq<Query<T>>) -> Seq<(Seq<Seq<char>>, T, Json)> {
    qs.map_values(|q: Query<T>| q.term())
}

impl<T> QueryEngine<T> {
    pub open spec fn terms(&self) -> Seq<(Seq<Seq<char>>, T, Json)> {
        terms_of(self.queries@)
    }
}

/// Decides whether `s` and `t` hold the same characters.
pub(crate) fn is_text(s: &str, t: &str) -> (r: bool)
    ensures
        r == (s@ == t@),
{
    let n = s.unicode_len();
    if n != t.unicode_len() {
        return false;
    }
    let mut i: usize = 0;
    while i < n
        invariant
            n == s@.len(),
            n == t@.len(),
            i <= n,
            forall|j: int| 0 <= j < i ==> s@[j] == t@[j],
        decreases n - i,
    {
        if s.get_char(i) != t.get_char(i) {
            return false;
        }
        i = i + 1;
    }
    assert(s@ =~= t@);
    true
}

fn is_operator_token(k: &str) -> (r: bool)
    ensures
        r == is_op_token(k@),
{
    k.unicode_len() > 0 && k.get_char(0) == '$'
}

impl QueryOperator {
    /// The filter operator that a `$` token names.
    pub fn from_str(token: &str) -> (r: Option<QueryOperator>)
        ensures
            r == query_op_of(token@),
    {
        if is_text(token, "$eq") {
            Some(QueryOperator::Equal)
        } else if is_text(token, "$ne") {
            Some(QueryOperator::NotEqual)
        } else if is_text(token, "$gt") {
            Some(QueryOperator::GreaterThan)
        } else if is_text(token, "$gte") {
            Some(QueryOperator::GreaterThanEqual)
        } else if is_text(token, "$lt") {
            Some(QueryOperator::LessThan)
        } else if is_text(token, "$lte") {
            Some(QueryOperator::LessThanEqual)
        } else {
            None
        }
    }
}

impl UpdateOperator {
    /// The update operator that a `$` token names.
    pub fn from_str(token: &str) -> (r: Option<UpdateOperator>)
        ensures
            r == update_op_of(token@),
    {
        if is_text(token, "$set") {
            Some(UpdateOperator::SetValue)
        } else if is_text(token, "$add") {
            Some(UpdateOperator::Add)
        } else if is_text(token, "$substract") {
            Some(UpdateOperator::Substract)
        } else if is_text(token, "$inc") {
            Some(UpdateOperator::Increment)
        } else if is_text(token, "$dec") {
            Some(UpdateOperator::Decrement)
        } else if is_text(token, "$delete") {
            Some(UpdateOperator::Delete)
        } else {
            None
        }
    }
}

fn copy_path(p: &Vec<String>) -> (r: Vec<String>)
    ensures
        r@ == p@,
{
    let mut out: Vec<String> = Vec::new();
    let mut i: usize = 0;
    while i < p.len()
        invariant
            i <= p.len(),
            out@ == p@.subrange(0, i as int),
        decreases p.len() - i,
    {
        out.push(p[i].clone());
        i = i + 1;
        assert(out@ =~= p@.subrange(0, i as int));
    }
    assert(p@.subrange(0, p.len() as int) =~= p@);
    out
}

/// Every prefix that fails to flatten makes each longer prefix fail.
proof fn lemma_flat_none_extends(e: Seq<(Seq<char>, Json)>, n: nat, m: nat, path: Seq<Seq<char>>)
    requires
        1 <= n <= m <= e.len(),
        flat_entries(e, n, path) is None,
    ensures
        flat_entries(e, m, path) is None,
    decreases m - n,
{
    if n < m {
        lemma_flat_none_extends(e, n, (m - 1) as nat, path);
    }
}

/// Once an unknown token is met, the whole sequence of clauses fails with it.
proof fn lemma_ops_err_extends<T>(
    s: Seq<Clause>,
    n: int,
    op_of: spec_fn(Seq<char>) -> Option<T>,
    default: T,
)
    requires
        0 <= n <= s.len(),
        clause_ops(s.subrange(0, n), op_of, default) is Err,
    ensures
        clause_ops(s, op_of, default) == clause_ops(s.subrange(0, n), op_of, default),
    decreases s.len() - n,
{
    if n < s.len() {
        let s1 = s.subrange(0, n + 1);
        assert(s1.drop_last() =~= s.subrange(0, n));
        lemma_ops_err_extends(s, n + 1, op_of, default);
    } else {
        assert(s.subrange(0, n) =~= s);
    }
}

fn push_clause(
    out: &mut Vec<(Vec<String>, Option<String>, Value)>,
    c: (Vec<String>, Option<String>, Value),
)
    ensures
        clause_views(final(out)@) == clause_views(old(out)@).push(clause_view(c)),
{
    out.push(c);
    assert(clause_views(final(out)@) =~= clause_views(old(out)@).push(clause_view(c)));
}

/// Appends the clauses of specification value `v` reached at `path`.
fn flatten_value(
    v: &Value,
    path: &Vec<String>,
    out: &mut Vec<(Vec<String>, Option<String>, Value)>,
) -> (ok: bool)
    ensures
        ok == flat_value(json(*v), keys(path@)) is Some,
        ok ==> clause_views(final(out)@) == clause_views(old(out)@) + flat_value(
            json(*v),
            keys(path@),
        )->Some_0,
    decreases v,
{
    match v {
        Value::Object(e) => {
            proof {
                lemma_obj_view(*e);
                assert(decreases_to!(*v => (*v)->Object_0));
            }
            if e.len() == 0 {
                return false;
            }
            flatten_entries(e, path, out)
        },
        _ => {
            let c = (copy_path(path), None, copy_value(v));
            push_clause(out, c);
            assert(clause_views(final(out)@) =~= clause_views(old(out)@) + flat_value(
                json(*v),
                keys(path@),
            )->Some_0);
            true
        },
    }
}

/// Appends the clauses of the entries `e` of an object reached at `path`.
fn flatten_entries(
    e: &Vec<(String, Value)>,
    path: &Vec<String>,
    out: &mut Vec<(Vec<String>, Option<String>, Value)>,
) -> (ok: bool)
    ensures
        ok == flat_entries(json(Value::Object(*e))->Obj_0, e.len() as nat, keys(path@)) is Some,
        ok ==> clause_views(final(out)@) == clause_views(old(out)@) + flat_entries(
            json(Value::Object(*e))->Obj_0,
            e.len() as nat,
            keys(path@),
        )->Some_0,
    decreases e,
{
    let ghost je = json(Value::Object(*e))->Obj_0;
    let ghost kp = keys(path@);
    proof {
        lemma_obj_view(*e);
    }
    let mut i: usize = 0;
    while i < e.len()
        invariant
            i <= e.len(),
            je == json(Value::Object(*e))->Obj_0,
            kp == keys(path@),
            je.len() == e.len(),
            forall|j: int| 0 <= j < e.len() ==> #[trigger] je[j] == (e@[j].0@, json(e@[j].1)),
            flat_entries(je, i as nat, kp) is Some,
            clause_views(out@) == clause_views(old(out)@) + flat_entries(
                je,
                i as nat,
                kp,
            )->Some_0,
        decreases e.len() - i,
    {
        let ghost before = clause_views(out@);
        let ghost prev = flat_entries(je, i as nat, kp)->Some_0;
        if is_operator_token(e[i].0.as_str()) {
            if path.len() == 0 {
                proof {
                    if i + 1 < e.len() {
                        lemma_flat_none_extends(je, (i + 1) as nat, e.len() as nat, kp);
                    }
                }
                return false;
            }
            let c = (copy_path(path), Some(e[i].0.clone()), copy_value(&e[i].1));
            push_clause(out, c);
            assert(clause_views(out@) =~= clause_views(old(out)@) + flat_entries(
                je,
                (i + 1) as nat,
                kp,
            )->Some_0);
        } else {
            let mut child_path = copy_path(path);
            child_path.push(e[i].0.clone());
            assert(keys(child_path@) =~= kp.push(je[i as int].0));
            proof {
                assert(decreases_to!(*e => e[i as int]));
                assert(decreases_to!(e[i as int] => e[i as int].1));
            }
            let ok = flatten_value(&e[i].1, &child_path, out);
            if !ok {
                proof {
                    if i + 1 < e.len() {
                        lemma_flat_none_extends(je, (i + 1) as nat, e.len() as nat, kp);
                    }
                }
                return false;
            }
            assert(clause_views(out@) =~= clause_views(old(out)@) + flat_entries(
                je,
                (i + 1) as nat,
                kp,
            )->Some_0);
        }
        i = i + 1;
    }
    true
}

/// The clauses of a whole specification, or `None` where its shape is wrong.
fn flatten_spec(spec: &Vec<(String, Value)>) -> (r: Option<Vec<(Vec<String>, Option<String>, Value)>>)
    ensures
        match flat_entries(json(Value::Object(*spec))->Obj_0, spec.len() as nat, seq![]) {
            Some(s) => r matches Some(c) && clause_views(c@) == s,
            None => r is None,
        },
{
    let mut out: Vec<(Vec<String>, Option<String>, Value)> = Vec::new();
    let root: Vec<String> = Vec::new();
    assert(keys(root@) =~= seq![]);
    if flatten_entries(spec, &root, &mut out) {
        assert(clause_views(out@) =~= flat_entries(
            json(Value::Object(*spec))->Obj_0,
            spec.len() as nat,
            seq![],
        )->Some_0);
        Some(out)
    } else {
        None
    }
}

impl Query<QueryOperator> {
    /// Whether this condition holds of `doc`.
    pub fn execute(&self, doc: &Value) -> (r: bool)
        ensures
            r == term_holds(json(*doc), self.term()),
    {
        match resolve(doc, &self.fields) {
            Some(found) => self._execute_operator(found),
            None => false,
        }
    }

    /// Whether the operator holds between a found value and the literal.
    pub fn _execute_operator(&self, last_value: &Value) -> (r: bool)
        ensures
            r == op_holds(self.operator, json(*last_value), json(self.value)),
    {
        match self.operator {
            QueryOperator::Equal => values_equal(&self.value, last_value),
            QueryOperator::NotEqual => !values_equal(&self.value, last_value),
            QueryOperator::GreaterThan => match (last_value, &self.value) {
                (Value::Number(a), Value::Number(b)) => *a > *b,
                _ => false,
            },
            QueryOperator::GreaterThanEqual => match (last_value, &self.value) {
                (Value::Number(a), Value::Number(b)) => *a >= *b,
                _ => false,
            },
            QueryOperator::LessThan => match (last_value, &self.value) {
                (Value::Number(a), Value::Number(b)) => *a < *b,
                _ => false,
            },
            QueryOperator::LessThanEqual => match (last_value, &self.value) {
                (Value::Number(a), Value::Number(b)) => *a <= *b,
                _ => false,
            },
        }
    }
}

/// The value of a field under `op`, given its current value `cur`.
fn apply_operator(op: UpdateOperator, cur: Value, lit: &Value) -> (r: Value)
    ensures
        json(r) == apply_op(op, json(cur), json(*lit)),
{
    match op {
        UpdateOperator::SetValue => copy_value(lit),
        UpdateOperator::Increment => match cur {
            Value::Number(n) => match n.checked_add(1) {
                Some(m) => Value::Number(m),
                None => Value::Number(n),
            },
            other => other,
        },
        UpdateOperator::Decrement => match cur {
            Value::Number(n) => match n.checked_sub(1) {
                Some(m) => Value::Number(m),
                None => Value::Number(n),
            },
            other => other,
        },
        UpdateOperator::Add => match (cur, lit) {
            (Value::Number(n), Value::Number(m)) => match n.checked_add(*m) {
                Some(x) => Value::Number(x),
                None => Value::Number(n),
            },
            (other, _) => other,
        },
        UpdateOperator::Substract => match (cur, lit) {
            (Value::Number(n), Value::Number(m)) => match n.checked_sub(*m) {
                Some(x) => Value::Number(x),
                None => Value::Number(n),
            },
            (other, _) => other,
        },
        UpdateOperator::Delete => cur,
    }
}

/// Applies one mutation to `v` at the part of `path` that starts at `i`.
fn update_value(v: &mut Value, path: &Vec<String>, i: usize, op: UpdateOperator, lit: &Value)
    requires
        i < path.len(),
    ensures
        json(*final(v)) == update_at(
            json(*old(v)),
            keys(path@).subrange(i as int, path.len() as int),
            op,
            json(*lit),
        ),
    decreases path.len() - i,
{
    let ghost p = keys(path@).subrange(i as int, path.len() as int);
    assert(p[0] == path@[i as int]@);
    assert(p.drop_first() =~= keys(path@).subrange(i + 1, path.len() as int));
    let mut cur = Value::Null;
    core::mem::swap(v, &mut cur);
    match cur {
        Value::Object(mut e) => {
            let ghost e0 = e;
            proof {
                lemma_obj_view(e0);
            }
            let ghost je = json(Value::Object(e0))->Obj_0;
            match find_key(&e, &path[i]) {
                None => {
                    *v = Value::Object(e);
                },
                Some(j) => {
                    if i + 1 == path.len() && op == UpdateOperator::Delete {
                        e.remove(j);
                        proof {
                            lemma_obj_view(e);
                            assert(json(Value::Object(e))->Obj_0 =~= je.remove(j as int));
                        }
                    } else {
                        let mut slot: (String, Value) = (String::new(), Value::Null);
                        e.set_and_swap(j, &mut slot);
                        let (k, child) = slot;
                        let mut child = child;
                        if i + 1 == path.len() {
                            child = apply_operator(op, child, lit);
                        } else {
                            update_value(&mut child, path, i + 1, op, lit);
                        }
                        let ghost newc = child;
                        e.set(j, (k, child));
                        proof {
                            lemma_obj_view(e);
                            assert(e@ == e0@.update(j as int, (e0@[j as int].0, newc)));
                            assert(json(Value::Object(e))->Obj_0 =~= je.update(
                                j as int,
                                (je[j as int].0, json(newc)),
                            ));
                        }
                    }
                    *v = Value::Object(e);
                },
            }
        },
        other => {
            *v = other;
        },
    }
}

impl Query<UpdateOperator> {
    /// Applies this mutation to `doc`.
    pub fn execute(&self, doc: &mut Value)
        ensures
            json(*final(doc)) == update_at(
                json(*old(doc)),
                self.term().0,
                self.operator,
                json(self.value),
            ),
    {
        if self.fields.len() == 0 {
            return;
        }
        update_value(doc, &self.fields, 0, self.operator, &self.value);
        assert(keys(self.fields@).subrange(0, self.fields.len() as int) =~= keys(self.fields@));
    }

    /// Replaces a found value by its new value under this mutation.
    pub fn _execute_operator(&self, last_value: &mut Value)
        ensures
            json(*final(last_value)) == apply_op(
                self.operator,
                json(*old(last_value)),
                json(self.value),
            ),
    {
        let mut cur = Value::Null;
        core::mem::swap(last_value, &mut cur);
        *last_value = apply_operator(self.operator, cur, &self.value);
    }
}

impl QueryEngine<QueryOperator> {
    /// Compiles a filter specification, given by its entries.
    pub fn new(unparsed_query: &Vec<(String, Value)>) -> (r: Result<Self, DbError>)
        ensures
            match compile_filter(json(Value::Object(*unparsed_query))->Obj_0) {
                Ok(ts) => r matches Ok(q) && q.terms() == ts,
                Err(f) => r matches Err(e) && reports(e, f),
            },
    {
        let clauses = match flatten_spec(unparsed_query) {
            Some(c) => c,
            None => {
                return Err(DbError::Shape(String::from_str("malformed filter specification")));
            },
        };
        let ghost cs = clause_views(clauses@);
        let ghost op_of = query_ops();
        let mut queries: Vec<Query<QueryOperator>> = Vec::new();
        let mut i: usize = 0;
        proof {
            lemma_obj_view(*unparsed_query);
            assert(cs.subrange(0, 0) =~= seq![]);
            assert(terms_of(queries@) =~= seq![]);
        }
        while i < clauses.len()
            invariant
                i <= clauses.len(),
                cs == clause_views(clauses@),
                op_of == query_ops(),
                json(Value::Object(*unparsed_query))->Obj_0.len() == unparsed_query.len(),
                flat_entries(json(Value::Object(*unparsed_query))->Obj_0, unparsed_query.len() as nat, seq![]) == Some(cs),
                clause_ops(cs.subrange(0, i as int), op_of, QueryOperator::Equal) == Ok::<
                    Seq<(Seq<Seq<char>>, QueryOperator, Json)>,
                    Seq<char>,
                >(terms_of(queries@)),
            decreases clauses.len() - i,
        {
            let ghost s1 = cs.subrange(0, i + 1);
            assert(s1.drop_last() =~= cs.subrange(0, i as int));
            assert(s1.last() == clause_view(clauses@[i as int]));
            let operator = match &clauses[i].1 {
                None => QueryOperator::Equal,
                Some(t) => match QueryOperator::from_str(t.as_str()) {
                    Some(op) => op,
                    None => {
                        proof {
                            lemma_ops_err_extends(cs, i + 1, op_of, QueryOperator::Equal);
                            assert(cs.subrange(0, cs.len() as int) =~= cs);
                        }
                        return Err(DbError::UnknownOperator(t.clone()));
                    },
                },
            };
            let q = Query {
                fields: copy_path(&clauses[i].0),
                value: copy_value(&clauses[i].2),
                operator,
            };
            let ghost before = queries@;
            queries.push(q);
            assert(terms_of(queries@) =~= terms_of(before).push(q.term()));
            i = i + 1;
        }
        assert(cs.subrange(0, cs.len() as int) =~= cs);
        Ok(QueryEngine { queries })
    }

    /// Whether every condition holds of `doc`.
    pub fn execute(&self, doc: &Value) -> (r: bool)
        ensures
            r == matches_all(json(*doc), self.terms()),
    {
        let mut i: usize = 0;
        while i < self.queries.len()
            invariant
                i <= self.queries.len(),
                forall|j: int| 0 <= j < i ==> term_holds(json(*doc), #[trigger] self.terms()[j]),
            decreases self.queries.len() - i,
        {
            if !self.queries[i].execute(doc) {
                assert(!term_holds(json(*doc), self.terms()[i as int]));
                return false;
            }
            i = i + 1;
        }
        true
    }
}

impl QueryEngine<UpdateOperator> {
    /// Compiles an update specification, given by its entries.
    pub fn new(unparsed_query: &Vec<(String, Value)>) -> (r: Result<Self, DbError>)
        ensures
            match compile_update(json(Value::Object(*unparsed_query))->Obj_0) {
                Ok(ts) => r matches Ok(q) && q.terms() == ts,
                Err(f) => r matches Err(e) && reports(e, f),
            },
    {
        let clauses = match flatten_spec(unparsed_query) {
            Some(c) => c,
            None => {
                return Err(DbError::Shape(String::from_str("malformed update specification")));
            },
        };
        let ghost cs = clause_views(clauses@);
        let ghost op_of = update_ops();
        let mut queries: Vec<Query<UpdateOperator>> = Vec::new();
        let mut i: usize = 0;
        proof {
            lemma_obj_view(*unparsed_query);
            assert(cs.subrange(0, 0) =~= seq![]);
            assert(terms_of(queries@) =~= seq![]);
        }
        while i < clauses.len()
            invariant
                i <= clauses.len(),
                cs == clause_views(clauses@),
                op_of == update_ops(),
                json(Value::Object(*unparsed_query))->Obj_0.len() == unparsed_query.len(),
                flat_entries(json(Value::Object(*unparsed_query))->Obj_0, unparsed_query.len() as nat, seq![]) == Some(cs),
                clause_ops(cs.subrange(0, i as int), op_of, UpdateOperator::SetValue) == Ok::<
                    Seq<(Seq<Seq<char>>, UpdateOperator, Json)>,
                    Seq<char>,
                >(terms_of(queries@)),
            decreases clauses.len() - i,
        {
            let ghost s1 = cs.subrange(0, i + 1);
            assert(s1.drop_last() =~= cs.subrange(0, i as int));
            assert(s1.last() == clause_view(clauses@[i as int]));
            let operator = match &clauses[i].1 {
                None => UpdateOperator::SetValue,
                Some(t) => match UpdateOperator::from_str(t.as_str()) {
                    Some(op) => op,
                    None => {
                        proof {
                            lemma_ops_err_extends(cs, i + 1, op_of, UpdateOperator::SetValue);
                            assert(cs.subrange(0, cs.len() as int) =~= cs);
                        }
                        return Err(DbError::UnknownOperator(t.clone()));
                    },
                },
            };
            let q = Query {
                fields: copy_path(&clauses[i].0),
                value: copy_value(&clauses[i].2),
                operator,
            };
            let ghost before = queries@;
            queries.push(q);
            assert(terms_of(queries@) =~= terms_of(before).push(q.term()));
            i = i + 1;
        }
        assert(cs.subrange(0, cs.len() as int) =~= cs);
        Ok(QueryEngine { queries })
    }

    /// Applies every mutation to `doc`, in order.
    pub fn execute(&self, doc: &mut Value)
        ensures
            json(*final(doc)) == apply_all(json(*old(doc)), self.terms()),
    {
        let ghost ts = self.terms();
        let mut i: usize = 0;
        assert(ts.subrange(0, 0) =~= seq![]);
        while i < self.queries.len()
            invariant
                i <= self.queries.len(),
                ts == self.terms(),
                json(*doc) == apply_all(json(*old(doc)), ts.subrange(0, i as int)),
            decreases self.queries.len() - i,
        {
            self.queries[i].execute(doc);
            assert(ts.subrange(0, i + 1).drop_last() =~= ts.subrange(0, i as int));
            i = i + 1;
        }
        assert(ts.subrange(0, ts.len() as int) =~= ts);
    }
}

} // verus!
