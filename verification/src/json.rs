//! Reading and changing a JSON document at a path.
use vstd::prelude::*;

use crate::error::JsonError;
use crate::operation::{Operator, OperatorModel};
use crate::path::{Path, PathElement, PathKey, index_at, key_at};
use crate::sub_type::{SubTypeName, SubTypeFunctions, SubTypeFunctionsHolder, builtin_apply_spec, opt_ref_view,
    sub_type_apply};
use crate::value::{Json, Value, values_view, entries_view, lemma_array_view, lemma_object_view, key_pos,
    entries_get, entries_insert, entries_remove, find_key, entries_set, entries_delete, lemma_key_pos_range,
    copy_values, copy_entries};

verus! {

#[derive(Debug)]
pub enum RouteError {
    /// A scalar was reached while this part of the path remained.
    ReachLeafNode(Path),
    /// A key was needed; the element found instead (`None`: the path ended).
    ExpectKeyPath { actual: Option<PathElement> },
    /// An index was needed; the element found instead (`None`: the path ended).
    ExpectIndexPath { actual: Option<PathElement> },
}

pub type RouteResult<T> = std::result::Result<T, RouteError>;

/// The model of a routing error.
pub enum RouteFault {
    ReachLeafNode(Seq<PathKey>),
    ExpectKeyPath(Option<PathKey>),
    ExpectIndexPath(Option<PathKey>),
}

/// The model of an optional path element.
pub open spec fn opt_key(e: Option<PathElement>) -> Option<PathKey> {
    match e {
        Some(x) => Some(x@),
        None => None,
    }
}

impl RouteError {
    pub open spec fn view(&self) -> RouteFault {
        match self {
            RouteError::ReachLeafNode(p) => RouteFault::ReachLeafNode(p@),
            RouteError::ExpectKeyPath { actual } => RouteFault::ExpectKeyPath(opt_key(*actual)),
            RouteError::ExpectIndexPath { actual } => RouteFault::ExpectIndexPath(opt_key(*actual)),
        }
    }
}

#[derive(Debug)]
pub enum ApplyError {
    RouteError(RouteError),
    InvalidApplyTarget { operator: Operator, value: Value },
    /// The functions of a sub type refused the operand or the value.
    SubTypeError(Box<JsonError>),
}

pub type ApplyResult<T> = std::result::Result<T, ApplyError>;

/// The model of an error of applying an operator.
pub enum ApplyFault {
    Route(RouteFault),
    InvalidTarget(OperatorModel, Json),
    SubTypeFailed,
}

impl ApplyError {
    pub open spec fn view(&self) -> ApplyFault {
        match self {
            ApplyError::RouteError(e) => ApplyFault::Route(e@),
            ApplyError::InvalidApplyTarget { operator, value } => ApplyFault::InvalidTarget(operator@, value@),
            ApplyError::SubTypeError(_) => ApplyFault::SubTypeFailed,
        }
    }
}

/// The first element of a path, if any.
pub open spec fn first_key(p: Seq<PathKey>) -> Option<PathKey> {
    if p.len() > 0 {
        Some(p[0])
    } else {
        None
    }
}

/// What reading `p` from `v` gives: the value found, nothing (a missing index or
/// key, or a null on the way), or an error.
pub open spec fn route_get_spec(v: Json, p: Seq<PathKey>) -> Result<Option<Json>, RouteFault>
    decreases p.len(),
{
    match v {
        Json::Array(items) => match index_at(p, 0) {
            None => Err(RouteFault::ExpectKeyPath(first_key(p))),
            Some(i) => if i < items.len() {
                if p.len() == 1 {
                    Ok(Some(items[i as int]))
                } else {
                    route_get_spec(items[i as int], p.skip(1))
                }
            } else {
                Ok(None)
            },
        },
        Json::Object(es) => match key_at(p, 0) {
            None => Err(RouteFault::ExpectKeyPath(first_key(p))),
            Some(k) => match entries_get(es, k) {
                Some(x) => if p.len() == 1 {
                    Ok(Some(x))
                } else {
                    route_get_spec(x, p.skip(1))
                },
                None => Ok(None),
            },
        },
        Json::Null => Ok(None),
        _ => if p.len() == 0 {
            Ok(Some(v))
        } else {
            Err(RouteFault::ReachLeafNode(p))
        },
    }
}

/// An element of a path, copied.
fn element_at(paths: &Path, i: usize) -> (r: Option<PathElement>)
    requires
        i <= paths@.len(),
    ensures
        opt_key(r) == first_key(paths@.skip(i as int)),
{
    assert(i < paths@.len() ==> paths@.skip(i as int)[0] == paths@[i as int]);
    match paths.get(i) {
        Some(e) => Some(e.clone()),
        None => None,
    }
}

/// Reads the value at `paths@.skip(depth)` below `v`.
fn route_get_from<'a>(v: &'a Value, paths: &Path, depth: usize) -> (r: RouteResult<Option<&'a Value>>)
    requires
        depth <= paths@.len(),
    ensures
        match route_get_spec(v@, paths@.skip(depth as int)) {
            Ok(Some(x)) => r is Ok && r->Ok_0 is Some && r->Ok_0->0@ == x,
            Ok(None) => r is Ok && r->Ok_0 is None,
            Err(f) => r is Err && r->Err_0@ == f,
        },
    decreases paths@.len() - depth,
{
    let ghost rest = paths@.skip(depth as int);
    assert(forall|j: int| 0 <= j < rest.len() ==> rest[j] == paths@[depth + j]);
    match v {
        Value::Array(array) => {
            proof {
                lemma_array_view(*array);
            }
            let i = match paths.get_index_at(depth) {
                Some(i) => *i,
                None => return Err(RouteError::ExpectKeyPath { actual: element_at(paths, depth) }),
            };
            if i < array.len() {
                if paths.len() - depth <= 1 {
                    Ok(Some(&array[i]))
                } else {
                    assert(rest.skip(1) =~= paths@.skip(depth + 1));
                    route_get_from(&array[i], paths, depth + 1)
                }
            } else {
                Ok(None)
            }
        },
        Value::Object(obj) => {
            proof {
                lemma_object_view(*obj);
            }
            let k = match paths.get_key_at(depth) {
                Some(k) => k,
                None => return Err(RouteError::ExpectKeyPath { actual: element_at(paths, depth) }),
            };
            match find_key(obj, k) {
                Some(pos) => {
                    proof {
                        lemma_key_pos_range(entries_view(obj@), k@);
                    }
                    if paths.len() - depth <= 1 {
                        Ok(Some(&obj[pos].1))
                    } else {
                        assert(rest.skip(1) =~= paths@.skip(depth + 1));
                        route_get_from(&obj[pos].1, paths, depth + 1)
                    }
                },
                None => Ok(None),
            }
        },
        Value::Null => Ok(None),
        _ => {
            if depth == paths.len() {
                Ok(Some(v))
            } else {
                let (_, remain) = paths.split_at(depth);
                Err(RouteError::ReachLeafNode(remain))
            }
        },
    }
}

/// What reading `p` from `v` for a change gives: as `route_get_spec`, except
/// that a null is a leaf like any other scalar, and an array met with a key (or
/// no path) asks for an index.
pub open spec fn route_get_mut_spec(v: Json, p: Seq<PathKey>) -> Result<Option<Json>, RouteFault>
    decreases p.len(),
{
    match v {
        Json::Array(items) => match index_at(p, 0) {
            None => Err(RouteFault::ExpectIndexPath(first_key(p))),
            Some(i) => if i < items.len() {
                if p.len() == 1 {
                    Ok(Some(items[i as int]))
                } else {
                    route_get_mut_spec(items[i as int], p.skip(1))
                }
            } else {
                Ok(None)
            },
        },
        Json::Object(es) => match key_at(p, 0) {
            None => Err(RouteFault::ExpectKeyPath(first_key(p))),
            Some(k) => match entries_get(es, k) {
                Some(x) => if p.len() == 1 {
                    Ok(Some(x))
                } else {
                    route_get_mut_spec(x, p.skip(1))
                },
                None => Ok(None),
            },
        },
        _ => if p.len() == 0 {
            Ok(Some(v))
        } else {
            Err(RouteFault::ReachLeafNode(p))
        },
    }
}

/// `v` with the value that `route_get_mut_spec` finds at `p` replaced by `x`.
pub open spec fn set_at(v: Json, p: Seq<PathKey>, x: Json) -> Json
    decreases p.len(),
{
    if p.len() == 0 {
        x
    } else {
        match v {
            Json::Array(items) => match index_at(p, 0) {
                Some(i) => if i < items.len() {
                    Json::Array(items.update(i as int, set_at(items[i as int], p.skip(1), x)))
                } else {
                    v
                },
                None => v,
            },
            Json::Object(es) => match key_at(p, 0) {
                Some(k) => if key_pos(es, k) >= 0 {
                    Json::Object(
                        es.update(key_pos(es, k), (es[key_pos(es, k)].0, set_at(es[key_pos(es, k)].1, p.skip(1), x))),
                    )
                } else {
                    v
                },
                None => v,
            },
            _ => v,
        }
    }
}

pub(crate) proof fn lemma_views_all()
    ensures
        forall|x: Value| x is Array ==> #[trigger] x@ == Json::Array(values_view(x->Array_0@)),
        forall|x: Value| x is Object ==> #[trigger] x@ == Json::Object(entries_view(x->Object_0@)),
        forall|s: Seq<Value>, i: int, x: Value|
            0 <= i < s.len() ==> #[trigger] values_view(s.update(i, x)) == values_view(s).update(i, x@),
        forall|s: Seq<(String, Value)>, i: int, x: (String, Value)|
            0 <= i < s.len() ==> #[trigger] entries_view(s.update(i, x)) == entries_view(s).update(i, (x.0@, x.1@)),
{
    assert forall|x: Value| x is Array implies #[trigger] x@ == Json::Array(values_view(x->Array_0@)) by {
        lemma_array_view(x->Array_0);
    }
    assert forall|x: Value| x is Object implies #[trigger] x@ == Json::Object(entries_view(x->Object_0@)) by {
        lemma_object_view(x->Object_0);
    }
    assert forall|s: Seq<Value>, i: int, x: Value|
        0 <= i < s.len() implies #[trigger] values_view(s.update(i, x)) == values_view(s).update(i, x@) by {
        lemma_values_update(s, i, x);
    }
    assert forall|s: Seq<(String, Value)>, i: int, x: (String, Value)|
        0 <= i < s.len() implies #[trigger] entries_view(s.update(i, x)) == entries_view(s).update(i, (x.0@, x.1@)) by {
        assert(entries_view(s.update(i, x)) =~= entries_view(s).update(i, (x.0@, x.1@)));
    }
}

/// Finds the value at `paths@.skip(depth)` below `v`, to change it.
/// The element `i` of the array `v`, to change in place.
fn element_mut<'a>(v: &'a mut Value, i: usize) -> (r: &'a mut Value)
    requires
        *old(v) matches Value::Array(a) && i < a.len(),
    ensures
        *old(v) matches Value::Array(a) && (*r == a@[i as int] && final(v)@ == Json::Array(
            values_view(a@).update(i as int, final(r)@),
        )),
{
    proof {
        lemma_views_all();
    }
    match v {
        Value::Array(array) => &mut array[i],
        _ => {
            proof {
                assert(false);
            }
            v
        },
    }
}

fn route_get_mut_from<'a>(v: &'a mut Value, paths: &Path, depth: usize) -> (r: RouteResult<Option<&'a mut Value>>)
    requires
        depth <= paths@.len(),
    ensures
        match r {
            Ok(Some(m)) => route_get_mut_spec(old(v)@, paths@.skip(depth as int)) == Ok::<Option<Json>, RouteFault>(
                Some(m@),
            ) && final(v)@ == set_at(old(v)@, paths@.skip(depth as int), final(m)@),
            Ok(None) => route_get_mut_spec(old(v)@, paths@.skip(depth as int)) == Ok::<Option<Json>, RouteFault>(None)
                && final(v)@ == old(v)@,
            Err(e) => route_get_mut_spec(old(v)@, paths@.skip(depth as int)) == Err::<Option<Json>, RouteFault>(e@)
                && final(v)@ == old(v)@,
        },
    decreases paths@.len() - depth,
{
    let ghost rest = paths@.skip(depth as int);
    assert(forall|j: int| 0 <= j < rest.len() ==> rest[j] == paths@[depth + j]);
    proof {
        lemma_views_all();
    }
    match v {
        Value::Array(_) => {
            let len = match &*v {
                Value::Array(array) => array.len(),
                _ => 0,
            };
            let i = match paths.get_index_at(depth) {
                Some(i) => *i,
                None => return Err(RouteError::ExpectIndexPath { actual: element_at(paths, depth) }),
            };
            if i < len {
                if paths.len() - depth <= 1 {
                    proof {
                        let a = old(v)->Array_0;
                        assert(old(v)@ == Json::Array(values_view(a@)));
                        assert(rest.len() == 1);
                        assert(i < a.len());
                        assert(index_at(rest, 0) == Some(i));
                        assert forall|x: Json| #[trigger] set_at(old(v)@, rest, x) == Json::Array(values_view(a@).update(i as int, x)) by {
                            assert(rest.skip(1).len() == 0);
                            assert(set_at(values_view(a@)[i as int], rest.skip(1), x) == x);
                        }
                        assert(route_get_mut_spec(old(v)@, rest) == Ok::<Option<Json>, RouteFault>(Some(a@[i as int]@)));
                    }
                    return Ok(Some(element_mut(v, i)));
                } else {
                    assert(rest.skip(1) =~= paths@.skip(depth + 1));
                    proof {
                        let a = old(v)->Array_0;
                        assert(old(v)@ == Json::Array(values_view(a@)));
                        assert(index_at(rest, 0) == Some(i));
                        assert(i < a.len());
                        assert forall|x: Json| #[trigger] set_at(old(v)@, rest, x) == Json::Array(
                            values_view(a@).update(i as int, set_at(a@[i as int]@, rest.skip(1), x)),
                        ) by {}
                        assert(route_get_mut_spec(old(v)@, rest) == route_get_mut_spec(a@[i as int]@, rest.skip(1)));
                        assert(values_view(a@).update(i as int, a@[i as int]@) =~= values_view(a@));
                    }
                    return route_get_mut_from(element_mut(v, i), paths, depth + 1);
                }
            } else {
                Ok(None)
            }
        },
        Value::Object(obj) => {
            proof {
                lemma_object_view(*obj);
            }
            let k = match paths.get_key_at(depth) {
                Some(k) => k,
                None => return Err(RouteError::ExpectKeyPath { actual: element_at(paths, depth) }),
            };
            match find_key(obj, k) {
                Some(pos) => {
                    proof {
                        lemma_key_pos_range(entries_view(obj@), k@);
                    }
                    if paths.len() - depth <= 1 {
                        proof {
                            let ev = entries_view(obj@);
                            assert(rest.skip(1).len() == 0);
                            assert forall|x: Json| #[trigger] set_at(old(v)@, rest, x) == Json::Object(
                                ev.update(pos as int, (ev[pos as int].0, x)),
                            ) by {
                                assert(set_at(ev[pos as int].1, rest.skip(1), x) == x);
                            }
                        }
                        return Ok(Some(&mut obj[pos].1));
                    } else {
                        assert(rest.skip(1) =~= paths@.skip(depth + 1));
                        proof {
                            let ev = entries_view(obj@);
                            assert(ev.update(pos as int, (ev[pos as int].0, ev[pos as int].1)) =~= ev);
                            assert forall|x: Json| #[trigger] set_at(old(v)@, rest, x) == Json::Object(
                                ev.update(pos as int, (ev[pos as int].0, set_at(ev[pos as int].1, rest.skip(1), x))),
                            ) by {}
                        }
                        return route_get_mut_from(&mut obj[pos].1, paths, depth + 1);
                    }
                },
                None => Ok(None),
            }
        },
        _ => {
            if depth == paths.len() {
                return Ok(Some(v));
            } else {
                let (_, remain) = paths.split_at(depth);
                Err(RouteError::ReachLeafNode(remain))
            }
        },
    }
}

impl Value {
    /// The value found at `paths`: `None` where an index or key is missing, or a
    /// null lies on the way.
    pub fn route_get(&self, paths: &Path) -> (r: RouteResult<Option<&Value>>)
        ensures
            match route_get_spec(self@, paths@) {
                Ok(Some(x)) => r is Ok && r->Ok_0 is Some && r->Ok_0->0@ == x,
                Ok(None) => r is Ok && r->Ok_0 is None,
                Err(f) => r is Err && r->Err_0@ == f,
            },
    {
        assert(paths@.skip(0) =~= paths@);
        route_get_from(self, paths, 0)
    }

    /// The value found at `paths`, to change in place: `None` where an index or key
    /// is missing. A null is a leaf here, and what is written through the result
    /// lands at `paths` (`set_at`).
    pub fn route_get_mut(&mut self, paths: &Path) -> (r: RouteResult<Option<&mut Value>>)
        ensures
            match r {
                Ok(Some(m)) => route_get_mut_spec(old(self)@, paths@) == Ok::<Option<Json>, RouteFault>(Some(m@))
                    && final(self)@ == set_at(old(self)@, paths@, final(m)@),
                Ok(None) => route_get_mut_spec(old(self)@, paths@) == Ok::<Option<Json>, RouteFault>(None)
                    && final(self)@ == old(self)@,
                Err(e) => route_get_mut_spec(old(self)@, paths@) == Err::<Option<Json>, RouteFault>(e@)
                    && final(self)@ == old(self)@,
            },
    {
        assert(paths@.skip(0) =~= paths@);
        route_get_mut_from(self, paths, 0)
    }
}

// ---------------------------------------------------------------------------
// Applying an operator.

/// Applies `op` to the element `i` of an array holding `items`.
pub open spec fn apply_list_spec(items: Seq<Json>, i: usize, op: OperatorModel) -> Result<Json, ApplyFault> {
    let v = Json::Array(items);
    let len = items.len();
    match op {
        OperatorModel::SubType(t, operand) => match builtin_apply_spec(
            t,
            if i < len {
                Some(items[i as int])
            } else {
                None
            },
            operand,
        ) {
            None => Err(ApplyFault::SubTypeFailed),
            Some(None) => Ok(v),
            Some(Some(nv)) => if i < len {
                Ok(Json::Array(items.update(i as int, nv)))
            } else {
                Err(ApplyFault::InvalidTarget(op, v))
            },
        },
        OperatorModel::ListInsert(x) => if i > len {
            Ok(Json::Array(items.push(x)))
        } else {
            Ok(Json::Array(items.insert(i as int, x)))
        },
        OperatorModel::ListDelete(_) => if i < len {
            Ok(Json::Array(items.remove(i as int)))
        } else {
            Ok(v)
        },
        OperatorModel::ListReplace(n, _) => if i < len {
            Ok(Json::Array(items.update(i as int, n)))
        } else {
            Ok(v)
        },
        OperatorModel::ListMove(to) => if i < len && i != to {
            if to < len {
                Ok(Json::Array(items.remove(i as int).insert(to as int, items[i as int])))
            } else {
                Err(ApplyFault::InvalidTarget(op, v))
            }
        } else {
            Ok(v)
        },
        _ => Err(ApplyFault::InvalidTarget(op, v)),
    }
}

/// Applies `op` to the member `k` of an object holding `es`.
pub open spec fn apply_object_spec(es: Seq<(Seq<char>, Json)>, k: Seq<char>, op: OperatorModel) -> Result<
    Json,
    ApplyFault,
> {
    let v = Json::Object(es);
    match op {
        OperatorModel::SubType(t, operand) => match builtin_apply_spec(t, entries_get(es, k), operand) {
            None => Err(ApplyFault::SubTypeFailed),
            Some(None) => Ok(v),
            Some(Some(nv)) => Ok(Json::Object(entries_insert(es, k, nv))),
        },
        OperatorModel::ObjectInsert(x) => Ok(Json::Object(entries_insert(es, k, x))),
        OperatorModel::ObjectDelete(_) => Ok(Json::Object(entries_remove(es, k))),
        OperatorModel::ObjectReplace(n, _) => if entries_get(es, k) is Some {
            Ok(Json::Object(entries_insert(es, k, n)))
        } else {
            Ok(v)
        },
        _ => Err(ApplyFault::InvalidTarget(op, v)),
    }
}

/// Applies `op` at the last element `rest[0]` of a path, below `v`.
pub open spec fn apply_here_spec(v: Json, rest: Seq<PathKey>, op: OperatorModel) -> Result<Json, ApplyFault> {
    match v {
        Json::Array(items) => match index_at(rest, 0) {
            None => Err(ApplyFault::Route(RouteFault::ExpectIndexPath(first_key(rest)))),
            Some(i) => apply_list_spec(items, i, op),
        },
        Json::Object(es) => match key_at(rest, 0) {
            None => Err(ApplyFault::Route(RouteFault::ExpectKeyPath(first_key(rest)))),
            Some(k) => apply_object_spec(es, k, op),
        },
        _ => match op {
            OperatorModel::SubType(t, operand) => match builtin_apply_spec(t, Some(v), operand) {
                None => Err(ApplyFault::SubTypeFailed),
                Some(None) => Ok(v),
                Some(Some(nv)) => Ok(nv),
            },
            _ => Err(ApplyFault::InvalidTarget(op, v)),
        },
    }
}

/// Applies `op` at the end of `rest` below `v`; `full` is the whole path, named by
/// the error for a missing index or key on the way.
pub open spec fn apply_down_spec(v: Json, rest: Seq<PathKey>, full: Seq<PathKey>, op: OperatorModel) -> Result<
    Json,
    ApplyFault,
>
    decreases rest.len(),
{
    if rest.len() <= 1 {
        apply_here_spec(v, rest, op)
    } else {
        match v {
            Json::Array(items) => match index_at(rest, 0) {
                None => Err(ApplyFault::Route(RouteFault::ExpectIndexPath(first_key(rest)))),
                Some(i) => if i < items.len() {
                    match apply_down_spec(items[i as int], rest.skip(1), full, op) {
                        Ok(nv) => Ok(Json::Array(items.update(i as int, nv))),
                        Err(e) => Err(e),
                    }
                } else {
                    Err(ApplyFault::Route(RouteFault::ReachLeafNode(full)))
                },
            },
            Json::Object(es) => match key_at(rest, 0) {
                None => Err(ApplyFault::Route(RouteFault::ExpectKeyPath(first_key(rest)))),
                Some(k) => if key_pos(es, k) >= 0 {
                    match apply_down_spec(es[key_pos(es, k)].1, rest.skip(1), full, op) {
                        Ok(nv) => Ok(Json::Object(es.update(key_pos(es, k), (k, nv)))),
                        Err(e) => Err(e),
                    }
                } else {
                    Err(ApplyFault::Route(RouteFault::ReachLeafNode(full)))
                },
            },
            _ => Err(ApplyFault::Route(RouteFault::ReachLeafNode(rest.take(rest.len() - 1)))),
        }
    }
}

/// What applying `op` at `path` makes of `v`, or the error it meets.
pub open spec fn apply_spec(v: Json, path: Seq<PathKey>, op: OperatorModel) -> Result<Json, ApplyFault> {
    apply_down_spec(v, path, path, op)
}

/// The operator is of a custom sub type, whose functions decide what it does.
pub open spec fn is_custom_op(op: OperatorModel) -> bool {
    op matches OperatorModel::SubType(SubTypeName::Custom(_), _)
}

/// The value that a sub type operator at the element `i` of an array holding
/// `items` works on: the element, or `None` where there is none.
pub open spec fn sub_target_list(items: Seq<Json>, i: usize) -> Option<Json> {
    if i < items.len() {
        Some(items[i as int])
    } else {
        None
    }
}

/// Applies the sub type operator `op` at the element `i` of an array holding
/// `items`, as `apply_list_spec` does, where `res` is what the sub type makes of
/// that element: a new value, no change (`Some(None)`), or an error (`None`).
pub open spec fn sub_list_spec(items: Seq<Json>, i: usize, op: OperatorModel, res: Option<Option<Json>>) -> Result<
    Json,
    ApplyFault,
> {
    match res {
        None => Err(ApplyFault::SubTypeFailed),
        Some(None) => Ok(Json::Array(items)),
        Some(Some(nv)) => if i < items.len() {
            Ok(Json::Array(items.update(i as int, nv)))
        } else {
            Err(ApplyFault::InvalidTarget(op, Json::Array(items)))
        },
    }
}

/// Applies a sub type operator at the member `k` of an object holding `es`, as
/// `apply_object_spec` does, where `res` is what the sub type makes of that
/// member.
pub open spec fn sub_object_spec(es: Seq<(Seq<char>, Json)>, k: Seq<char>, res: Option<Option<Json>>) -> Result<
    Json,
    ApplyFault,
> {
    match res {
        None => Err(ApplyFault::SubTypeFailed),
        Some(None) => Ok(Json::Object(es)),
        Some(Some(nv)) => Ok(Json::Object(entries_insert(es, k, nv))),
    }
}

/// The value that a sub type operator at the last element `rest[0]` of a path,
/// below `v`, works on.
pub open spec fn sub_target_here(v: Json, rest: Seq<PathKey>) -> Option<Json> {
    match v {
        Json::Array(items) => match index_at(rest, 0) {
            Some(i) => sub_target_list(items, i),
            None => None,
        },
        Json::Object(es) => match key_at(rest, 0) {
            Some(k) => entries_get(es, k),
            None => None,
        },
        _ => Some(v),
    }
}

/// Applies the sub type operator `op` at the last element `rest[0]` of a path,
/// below `v`, as `apply_here_spec` does, where `res` is what the sub type makes of
/// the value it works on.
pub open spec fn sub_here_spec(v: Json, rest: Seq<PathKey>, op: OperatorModel, res: Option<Option<Json>>) -> Result<
    Json,
    ApplyFault,
> {
    match v {
        Json::Array(items) => match index_at(rest, 0) {
            None => Err(ApplyFault::Route(RouteFault::ExpectIndexPath(first_key(rest)))),
            Some(i) => sub_list_spec(items, i, op, res),
        },
        Json::Object(es) => match key_at(rest, 0) {
            None => Err(ApplyFault::Route(RouteFault::ExpectKeyPath(first_key(rest)))),
            Some(k) => sub_object_spec(es, k, res),
        },
        _ => match res {
            None => Err(ApplyFault::SubTypeFailed),
            Some(None) => Ok(v),
            Some(Some(nv)) => Ok(nv),
        },
    }
}

/// The value that a sub type operator at the end of `rest`, below `v`, works on.
pub open spec fn sub_target_down(v: Json, rest: Seq<PathKey>) -> Option<Json>
    decreases rest.len(),
{
    if rest.len() <= 1 {
        sub_target_here(v, rest)
    } else {
        match v {
            Json::Array(items) => match index_at(rest, 0) {
                Some(i) => if i < items.len() {
                    sub_target_down(items[i as int], rest.skip(1))
                } else {
                    None
                },
                None => None,
            },
            Json::Object(es) => match key_at(rest, 0) {
                Some(k) => if key_pos(es, k) >= 0 {
                    sub_target_down(es[key_pos(es, k)].1, rest.skip(1))
                } else {
                    None
                },
                None => None,
            },
            _ => None,
        }
    }
}

/// Applies the sub type operator `op` at the end of `rest` below `v`, as
/// `apply_down_spec` does, where `res` is what the sub type makes of the value it
/// works on there.
pub open spec fn sub_down_spec(
    v: Json,
    rest: Seq<PathKey>,
    full: Seq<PathKey>,
    op: OperatorModel,
    res: Option<Option<Json>>,
) -> Result<Json, ApplyFault>
    decreases rest.len(),
{
    if rest.len() <= 1 {
        sub_here_spec(v, rest, op, res)
    } else {
        match v {
            Json::Array(items) => match index_at(rest, 0) {
                None => Err(ApplyFault::Route(RouteFault::ExpectIndexPath(first_key(rest)))),
                Some(i) => if i < items.len() {
                    match sub_down_spec(items[i as int], rest.skip(1), full, op, res) {
                        Ok(nv) => Ok(Json::Array(items.update(i as int, nv))),
                        Err(e) => Err(e),
                    }
                } else {
                    Err(ApplyFault::Route(RouteFault::ReachLeafNode(full)))
                },
            },
            Json::Object(es) => match key_at(rest, 0) {
                None => Err(ApplyFault::Route(RouteFault::ExpectKeyPath(first_key(rest)))),
                Some(k) => if key_pos(es, k) >= 0 {
                    match sub_down_spec(es[key_pos(es, k)].1, rest.skip(1), full, op, res) {
                        Ok(nv) => Ok(Json::Object(es.update(key_pos(es, k), (k, nv)))),
                        Err(e) => Err(e),
                    }
                } else {
                    Err(ApplyFault::Route(RouteFault::ReachLeafNode(full)))
                },
            },
            _ => Err(ApplyFault::Route(RouteFault::ReachLeafNode(rest.take(rest.len() - 1)))),
        }
    }
}

proof fn lemma_values_update(s: Seq<Value>, i: int, x: Value)
    requires
        0 <= i < s.len(),
    ensures
        values_view(s.update(i, x)) == values_view(s).update(i, x@),
{
    assert(values_view(s.update(i, x)) =~= values_view(s).update(i, x@));
}

proof fn lemma_values_insert(s: Seq<Value>, i: int, x: Value)
    requires
        0 <= i <= s.len(),
    ensures
        values_view(s.insert(i, x)) == values_view(s).insert(i, x@),
{
    assert(values_view(s.insert(i, x)) =~= values_view(s).insert(i, x@));
}

proof fn lemma_values_remove(s: Seq<Value>, i: int)
    requires
        0 <= i < s.len(),
    ensures
        values_view(s.remove(i)) == values_view(s).remove(i),
{
    assert(values_view(s.remove(i)) =~= values_view(s).remove(i));
}

proof fn lemma_values_push(s: Seq<Value>, x: Value)
    ensures
        values_view(s.push(x)) == values_view(s).push(x@),
{
    assert(values_view(s.push(x)) =~= values_view(s).push(x@));
}

/// The model of an optional reference to a value.
pub open spec fn opt_value(v: Option<&Value>) -> Option<Json> {
    match v {
        Some(x) => Some(x@),
        None => None,
    }
}

/// The model of what a sub type operator gives: a new value, no change
/// (`Some(None)`), or an error (`None`).
pub open spec fn sub_result_view(r: crate::error::Result<Option<Value>>) -> Option<Option<Json>> {
    match r {
        Ok(Some(x)) => Some(Some(x@)),
        Ok(None) => Some(None),
        Err(_) => None,
    }
}

/// `res` is what the functions of the custom sub type `name` make of `target`
/// with the operand `o`: some functions registered for it in `h` give `res`, or,
/// where none are registered, `res` is an error (`None`).
pub open spec fn custom_apply_result(
    h: &SubTypeFunctionsHolder,
    name: Seq<char>,
    target: Option<Json>,
    o: Json,
    res: Option<Option<Json>>,
) -> bool {
    if h.has(name) {
        exists|f: Box<dyn SubTypeFunctions>| #[trigger] f.apply_result(target, o) == res
    } else {
        res is None
    }
}

/// `r`, and the document going from `before` to `after`, are what `expected`
/// says: its result, or its error with the document unchanged.
pub open spec fn outcome_is(r: ApplyResult<()>, before: Json, after: Json, expected: Result<Json, ApplyFault>) -> bool {
    match expected {
        Ok(nv) => r is Ok && after == nv,
        Err(e) => r is Err && r->Err_0@ == e && after == before,
    }
}

/// Applies `op` at element `i` of an array.
fn apply_list(items: &mut Vec<Value>, i: usize, op: &Operator, functions: &SubTypeFunctionsHolder) -> (r:
    ApplyResult<()>)
    ensures
        !is_custom_op(op@) ==> match apply_list_spec(values_view(old(items)@), i, op@) {
            Ok(nv) => r is Ok && Json::Array(values_view(final(items)@)) == nv,
            Err(f) => r is Err && r->Err_0@ == f && final(items)@ == old(items)@,
        },
        r is Err ==> final(items)@ == old(items)@,
        !is_custom_op(op@) ==> (r matches Err(ApplyError::SubTypeError(e)) ==> *e is InvalidOperation),
        op@ matches OperatorModel::SubType(SubTypeName::Custom(name), o) ==> (functions.has(name) ==> exists|
            f: Box<dyn SubTypeFunctions>,
        |
            outcome_is(
                r,
                Json::Array(values_view(old(items)@)),
                Json::Array(values_view(final(items)@)),
                sub_list_spec(
                    values_view(old(items)@),
                    i,
                    op@,
                    #[trigger] f.apply_result(sub_target_list(values_view(old(items)@), i), o),
                ),
            )),
        op@ matches OperatorModel::SubType(SubTypeName::Custom(name), _) ==> (!functions.has(name) ==> outcome_is(
            r,
            Json::Array(values_view(old(items)@)),
            Json::Array(values_view(final(items)@)),
            sub_list_spec(values_view(old(items)@), i, op@, None),
        )),
{
    let ghost iv = values_view(items@);
    let len = items.len();
    match op {
        Operator::SubType(t, operand) => {
            let target = if i < len {
                Some(&items[i])
            } else {
                None
            };
            let ghost tv = opt_value(target);
            assert(tv == if i < len {
                Some(iv[i as int])
            } else {
                None::<Json>
            });
            assert(tv == opt_ref_view(target));
            let res = sub_type_apply(t, functions, target, operand);
            let ghost f0 = choose|f: Box<dyn SubTypeFunctions>| #[trigger] f.apply_result(tv, operand@)
                == sub_result_view(res);
            let ghost res_v = sub_result_view(res);
            proof {
                if t@ matches SubTypeName::Custom(name) && functions.has(name) {
                    assert(f0.apply_result(tv, operand@) == res_v);
                }
            }
            let r = match res {
                Err(e) => Err(ApplyError::SubTypeError(Box::new(e))),
                Ok(None) => Ok(()),
                Ok(Some(v)) => {
                    if i < len {
                        items.set(i, v);
                        proof {
                            lemma_values_update(old(items)@, i as int, items@[i as int]);
                        }
                        Ok(())
                    } else {
                        let a = Value::Array(copy_values(items));
                        proof {
                            lemma_array_view(*items);
                            lemma_array_view(a->Array_0);
                        }
                        Err(ApplyError::InvalidApplyTarget { operator: op.clone(), value: a })
                    }
                },
            };
            proof {
                match op@ {
                    OperatorModel::SubType(SubTypeName::Custom(name), o) => {
                        if functions.has(name) {
                            assert(t@ == SubTypeName::Custom(name));
                            assert(f0.apply_result(tv, operand@) == res_v);
                            assert(o == operand@);
                            assert(iv == values_view(old(items)@));
                            assert(f0.apply_result(tv, o) == f0.apply_result(if i < len { Some(iv[i as int]) } else { None::<Json> }, o));
                            let ghost sp = sub_list_spec(values_view(old(items)@), i, op@, res_v);
                            if res_v is None {
                                assert(sp == Err::<Json, ApplyFault>(ApplyFault::SubTypeFailed));
                                assert(r is Err);
                            } else if res_v->0 is None {
                                assert(r is Ok);
                                assert(sp == Ok::<Json, ApplyFault>(Json::Array(iv)));
                            } else {
                                assert(sp is Ok ==> r is Ok);
                            }
                            assert(outcome_is(
                                r,
                                Json::Array(values_view(old(items)@)),
                                Json::Array(values_view(items@)),
                                sub_list_spec(values_view(old(items)@), i, op@, res_v),
                            ));
                        } else {
                            assert(t@ == SubTypeName::Custom(name));
                            assert(res_v is None);
                            assert(r is Err);
                            assert(outcome_is(
                                r,
                                Json::Array(values_view(old(items)@)),
                                Json::Array(values_view(items@)),
                                sub_list_spec(values_view(old(items)@), i, op@, None),
                            ));
                        }
                    },
                    _ => {},
                }
            }
            r
        },
        Operator::ListInsert(v) => {
            if i > len {
                items.push(v.clone());
                proof {
                    lemma_values_push(old(items)@, items@[len as int]);
                }
            } else {
                items.insert(i, v.clone());
                proof {
                    lemma_values_insert(old(items)@, i as int, items@[i as int]);
                }
            }
            Ok(())
        },
        Operator::ListDelete(_) => {
            if i < len {
                items.remove(i);
                proof {
                    lemma_values_remove(old(items)@, i as int);
                }
            }
            Ok(())
        },
        Operator::ListReplace(new_v, _) => {
            if i < len {
                items.set(i, new_v.clone());
                proof {
                    lemma_values_update(old(items)@, i as int, items@[i as int]);
                }
            }
            Ok(())
        },
        Operator::ListMove(new_index) => {
            if i < len && i != *new_index {
                if *new_index >= len {
                    let a = Value::Array(copy_values(items));
                    proof {
                        lemma_array_view(*items);
                        lemma_array_view(a->Array_0);
                    }
                    return Err(ApplyError::InvalidApplyTarget { operator: op.clone(), value: a });
                }
                let moved = items.remove(i);
                let ghost mid = items@;
                proof {
                    lemma_values_remove(old(items)@, i as int);
                }
                items.insert(*new_index, moved);
                proof {
                    lemma_values_insert(mid, *new_index as int, items@[*new_index as int]);
                }
            }
            Ok(())
        },
        _ => {
            let a = Value::Array(copy_values(items));
            proof {
                lemma_array_view(*items);
                lemma_array_view(a->Array_0);
            }
            Err(ApplyError::InvalidApplyTarget { operator: op.clone(), value: a })
        },
    }
}

/// Applies `op` at member `k` of an object.
fn apply_object(
    es: &mut Vec<(String, Value)>,
    k: &String,
    op: &Operator,
    functions: &SubTypeFunctionsHolder,
) -> (r: ApplyResult<()>)
    ensures
        !is_custom_op(op@) ==> match apply_object_spec(entries_view(old(es)@), k@, op@) {
            Ok(nv) => r is Ok && Json::Object(entries_view(final(es)@)) == nv,
            Err(f) => r is Err && r->Err_0@ == f && final(es)@ == old(es)@,
        },
        r is Err ==> final(es)@ == old(es)@,
        !is_custom_op(op@) ==> (r matches Err(ApplyError::SubTypeError(e)) ==> *e is InvalidOperation),
        op@ matches OperatorModel::SubType(SubTypeName::Custom(name), o) ==> (functions.has(name) ==> exists|
            f: Box<dyn SubTypeFunctions>,
        |
            outcome_is(
                r,
                Json::Object(entries_view(old(es)@)),
                Json::Object(entries_view(final(es)@)),
                sub_object_spec(
                    entries_view(old(es)@),
                    k@,
                    #[trigger] f.apply_result(entries_get(entries_view(old(es)@), k@), o),
                ),
            )),
        op@ matches OperatorModel::SubType(SubTypeName::Custom(name), _) ==> (!functions.has(name) ==> outcome_is(
            r,
            Json::Object(entries_view(old(es)@)),
            Json::Object(entries_view(final(es)@)),
            sub_object_spec(entries_view(old(es)@), k@, None),
        )),
{
    let ghost ev = entries_view(es@);
    let pos = find_key(es, k);
    proof {
        lemma_key_pos_range(ev, k@);
    }
    match op {
        Operator::SubType(t, operand) => {
            let target = match pos {
                Some(p) => Some(&es[p].1),
                None => None,
            };
            assert(opt_value(target) == entries_get(ev, k@));
            let ghost tv = opt_value(target);
            assert(tv == opt_ref_view(target));
            let res = sub_type_apply(t, functions, target, operand);
            let ghost f0 = choose|f: Box<dyn SubTypeFunctions>| #[trigger] f.apply_result(tv, operand@)
                == sub_result_view(res);
            let ghost res_v = sub_result_view(res);
            proof {
                if t@ matches SubTypeName::Custom(name) && functions.has(name) {
                    assert(f0.apply_result(tv, operand@) == res_v);
                }
            }
            let r = match res {
                Err(e) => Err(ApplyError::SubTypeError(Box::new(e))),
                Ok(None) => Ok(()),
                Ok(Some(v)) => {
                    entries_set(es, k.clone(), v);
                    Ok(())
                },
            };
            proof {
                match op@ {
                    OperatorModel::SubType(SubTypeName::Custom(name), o) => {
                        if functions.has(name) {
                            assert(t@ == SubTypeName::Custom(name));
                            assert(f0.apply_result(tv, operand@) == res_v);
                            assert(outcome_is(
                                r,
                                Json::Object(entries_view(old(es)@)),
                                Json::Object(entries_view(es@)),
                                sub_object_spec(entries_view(old(es)@), k@, res_v),
                            ));
                        } else {
                            assert(t@ == SubTypeName::Custom(name));
                            assert(res_v is None);
                            assert(outcome_is(
                                r,
                                Json::Object(entries_view(old(es)@)),
                                Json::Object(entries_view(es@)),
                                sub_object_spec(entries_view(old(es)@), k@, None),
                            ));
                        }
                    },
                    _ => {},
                }
            }
            r
        },
        Operator::ObjectInsert(v) => {
            entries_set(es, k.clone(), v.clone());
            Ok(())
        },
        Operator::ObjectDelete(_) => {
            entries_delete(es, k);
            Ok(())
        },
        Operator::ObjectReplace(new_v, _) => {
            if pos.is_some() {
                entries_set(es, k.clone(), new_v.clone());
            }
            Ok(())
        },
        _ => {
            let o = Value::Object(copy_entries(es));
            proof {
                lemma_object_view(*es);
                lemma_object_view(o->Object_0);
            }
            Err(ApplyError::InvalidApplyTarget { operator: op.clone(), value: o })
        },
    }
}

/// Applies `op` at the last element of `paths`, which is element `depth`.
fn apply_here(v: &mut Value, paths: &Path, depth: usize, op: &Operator, functions: &SubTypeFunctionsHolder) -> (r:
    ApplyResult<()>)
    requires
        depth <= paths@.len() <= depth + 1,
    ensures
        !is_custom_op(op@) ==> match apply_here_spec(old(v)@, paths@.skip(depth as int), op@) {
            Ok(nv) => r is Ok && final(v)@ == nv,
            Err(f) => r is Err && r->Err_0@ == f && final(v)@ == old(v)@,
        },
        r is Err ==> final(v)@ == old(v)@,
        !is_custom_op(op@) ==> (r matches Err(ApplyError::SubTypeError(e)) ==> *e is InvalidOperation),
        op@ matches OperatorModel::SubType(SubTypeName::Custom(name), o) ==> (functions.has(name) ==> exists|
            f: Box<dyn SubTypeFunctions>,
        |
            outcome_is(
                r,
                old(v)@,
                final(v)@,
                sub_here_spec(
                    old(v)@,
                    paths@.skip(depth as int),
                    op@,
                    #[trigger] f.apply_result(sub_target_here(old(v)@, paths@.skip(depth as int)), o),
                ),
            )),
        op@ matches OperatorModel::SubType(SubTypeName::Custom(name), _) ==> (!functions.has(name) ==> outcome_is(
            r,
            old(v)@,
            final(v)@,
            sub_here_spec(old(v)@, paths@.skip(depth as int), op@, None),
        )),
{
    let ghost rest = paths@.skip(depth as int);
    let ghost v0 = v@;
    assert(depth < paths@.len() ==> rest[0] == paths@[depth as int]);
    let ghost fw: Box<dyn SubTypeFunctions> = vstd::pervasive::arbitrary();
    let r = match v {
        Value::Array(items) => {
            proof {
                lemma_array_view(*items);
            }
            match paths.get_index_at(depth) {
                Some(i) => {
                    let i = *i;
                    let r = apply_list(items, i, op, functions);
                    proof {
                        lemma_array_view(*items);
                    }
                    r
                },
                None => Err(
                    ApplyError::RouteError(RouteError::ExpectIndexPath { actual: element_at(paths, depth) }),
                ),
            }
        },
        Value::Object(es) => {
            proof {
                lemma_object_view(*es);
            }
            match paths.get_key_at(depth) {
                Some(k) => {
                    let r = apply_object(es, k, op, functions);
                    proof {
                        lemma_object_view(*es);
                    }
                    r
                },
                None => Err(
                    ApplyError::RouteError(RouteError::ExpectKeyPath { actual: element_at(paths, depth) }),
                ),
            }
        },
        _ => match op {
            Operator::SubType(t, operand) => {
                let ghost tv = Some(v@);
                assert(tv == opt_ref_view(Some(&*v)));
                let res = sub_type_apply(t, functions, Some(&*v), operand);
                let ghost res_v = sub_result_view(res);
                let ghost f0 = choose|f: Box<dyn SubTypeFunctions>| #[trigger] f.apply_result(tv, operand@) == res_v;
                let r = match res {
                    Err(e) => Err(ApplyError::SubTypeError(Box::new(e))),
                    Ok(None) => Ok(()),
                    Ok(Some(nv)) => {
                        *v = nv;
                        Ok(())
                    },
                };
                proof {
                    match op@ {
                        OperatorModel::SubType(SubTypeName::Custom(name), o) => {
                            if functions.has(name) {
                                assert(t@ == SubTypeName::Custom(name));
                                assert(f0.apply_result(tv, operand@) == res_v);
                                assert(sub_target_here(v0, rest) == tv);
                                assert(outcome_is(r, v0, v@, sub_here_spec(v0, rest, op@, res_v)));
                            } else {
                                assert(t@ == SubTypeName::Custom(name));
                                assert(res_v is None);
                                assert(outcome_is(r, v0, v@, sub_here_spec(v0, rest, op@, None)));
                            }
                        },
                        _ => {},
                    }
                }
                r
            },
            _ => Err(ApplyError::InvalidApplyTarget { operator: op.clone(), value: v.clone() }),
        },
    };
    proof {
        match op@ {
            OperatorModel::SubType(SubTypeName::Custom(name), o) => {
                if functions.has(name) {
                    if r is Err && !(v0 is Array || v0 is Object) {
                    } else {
                        assert(exists|f: Box<dyn SubTypeFunctions>|
                            outcome_is(
                                r,
                                v0,
                                v@,
                                sub_here_spec(v0, rest, op@, #[trigger] f.apply_result(sub_target_here(v0, rest), o)),
                            )) by {
                            match v0 {
                                Json::Array(items) => {
                                    match index_at(rest, 0) {
                                        Some(i) => {},
                                        None => {
                                            assert(outcome_is(r, v0, v@, sub_here_spec(v0, rest, op@, fw.apply_result(sub_target_here(v0, rest), o))));
                                        },
                                    }
                                },
                                Json::Object(es) => {
                                    match key_at(rest, 0) {
                                        Some(k) => {},
                                        None => {
                                            assert(outcome_is(r, v0, v@, sub_here_spec(v0, rest, op@, fw.apply_result(sub_target_here(v0, rest), o))));
                                        },
                                    }
                                },
                                _ => {},
                            }
                        }
                    }
                }
            },
            _ => {},
        }
    }
    r
}

/// Applies `op` at the end of `paths`, below `v`, which the first `depth`
/// elements of `paths` lead to.
fn apply_down(v: &mut Value, paths: &Path, depth: usize, op: &Operator, functions: &SubTypeFunctionsHolder) -> (r:
    ApplyResult<()>)
    requires
        depth <= paths@.len(),
    ensures
        !is_custom_op(op@) ==> match apply_down_spec(old(v)@, paths@.skip(depth as int), paths@, op@) {
            Ok(nv) => r is Ok && final(v)@ == nv,
            Err(f) => r is Err && r->Err_0@ == f && final(v)@ == old(v)@,
        },
        r is Err ==> final(v)@ == old(v)@,
        !is_custom_op(op@) ==> (r matches Err(ApplyError::SubTypeError(e)) ==> *e is InvalidOperation),
        op@ matches OperatorModel::SubType(SubTypeName::Custom(name), o) ==> (functions.has(name) ==> exists|
            f: Box<dyn SubTypeFunctions>,
        |
            outcome_is(
                r,
                old(v)@,
                final(v)@,
                sub_down_spec(
                    old(v)@,
                    paths@.skip(depth as int),
                    paths@,
                    op@,
                    #[trigger] f.apply_result(sub_target_down(old(v)@, paths@.skip(depth as int)), o),
                ),
            )),
        op@ matches OperatorModel::SubType(SubTypeName::Custom(name), _) ==> (!functions.has(name) ==> outcome_is(
            r,
            old(v)@,
            final(v)@,
            sub_down_spec(old(v)@, paths@.skip(depth as int), paths@, op@, None),
        )),
    decreases paths@.len() - depth,
{
    let ghost rest = paths@.skip(depth as int);
    let ghost v0 = v@;
    assert(forall|j: int| 0 <= j < rest.len() ==> rest[j] == paths@[depth + j]);
    if paths.len() - depth <= 1 {
        let r = apply_here(v, paths, depth, op, functions);
        proof {
            match op@ {
                OperatorModel::SubType(SubTypeName::Custom(name), o) => {
                    if functions.has(name) {
                        let f1 = choose|f: Box<dyn SubTypeFunctions>|
                            outcome_is(
                                r,
                                v0,
                                v@,
                                sub_here_spec(v0, rest, op@, #[trigger] f.apply_result(sub_target_here(v0, rest), o)),
                            );
                        assert(sub_target_down(v0, rest) == sub_target_here(v0, rest));
                        assert(outcome_is(
                            r,
                            v0,
                            v@,
                            sub_down_spec(v0, rest, paths@, op@, f1.apply_result(sub_target_down(v0, rest), o)),
                        ));
                    } else {
                        assert(outcome_is(r, v0, v@, sub_down_spec(v0, rest, paths@, op@, None)));
                    }
                },
                _ => {},
            }
        }
        return r;
    }
    assert(rest.skip(1) =~= paths@.skip(depth + 1));
    match v {
        Value::Array(items) => {
            proof {
                lemma_array_view(*items);
            }
            let i = match paths.get_index_at(depth) {
                Some(i) => *i,
                None => {
                    let r = Err(
                        ApplyError::RouteError(RouteError::ExpectIndexPath { actual: element_at(paths, depth) }),
                    );
                    proof {
                        let fw: Box<dyn SubTypeFunctions> = vstd::pervasive::arbitrary();
                        if let OperatorModel::SubType(SubTypeName::Custom(name), o) = op@ {
                            assert(outcome_is(
                                r,
                                v0,
                                v0,
                                sub_down_spec(v0, rest, paths@, op@, fw.apply_result(sub_target_down(v0, rest), o)),
                            ));
                        }
                    }
                    return r;
                },
            };
            if i < items.len() {
                let ghost before = items@;
                let mut child = Value::Null;
                items.set_and_swap(i, &mut child);
                let ghost child0 = child@;
                let r = apply_down(&mut child, paths, depth + 1, op, functions);
                let ghost child1 = child@;
                items.set(i, child);
                proof {
                    assert(items@ =~= before.update(i as int, items@[i as int]));
                    lemma_values_update(before, i as int, items@[i as int]);
                    if r is Err {
                        assert(values_view(items@) =~= values_view(before));
                    }
                    lemma_array_view(*items);
                    assert(old(v)@ == Json::Array(values_view(before)));
                    assert(final(v)@ == Json::Array(values_view(items@)));
                    match op@ {
                        OperatorModel::SubType(SubTypeName::Custom(name), o) => {
                            if functions.has(name) {
                                let f1 = choose|f: Box<dyn SubTypeFunctions>|
                                    outcome_is(
                                        r,
                                        child0,
                                        child1,
                                        sub_down_spec(
                                            child0,
                                            rest.skip(1),
                                            paths@,
                                            op@,
                                            #[trigger] f.apply_result(sub_target_down(child0, rest.skip(1)), o),
                                        ),
                                    );
                                assert(child0 == values_view(before)[i as int]);
                                assert(sub_target_down(v0, rest) == sub_target_down(child0, rest.skip(1)));
                                assert(outcome_is(
                                    r,
                                    v0,
                                    Json::Array(values_view(items@)),
                                    sub_down_spec(v0, rest, paths@, op@, f1.apply_result(sub_target_down(v0, rest), o)),
                                ));
                            } else {
                                assert(child0 == values_view(before)[i as int]);
                                assert(outcome_is(
                                    r,
                                    v0,
                                    Json::Array(values_view(items@)),
                                    sub_down_spec(v0, rest, paths@, op@, None),
                                ));
                            }
                        },
                        _ => {},
                    }
                }
                r
            } else {
                let r = Err(ApplyError::RouteError(RouteError::ReachLeafNode(paths.clone())));
                proof {
                    let fw: Box<dyn SubTypeFunctions> = vstd::pervasive::arbitrary();
                    if let OperatorModel::SubType(SubTypeName::Custom(name), o) = op@ {
                        assert(outcome_is(
                            r,
                            v0,
                            v0,
                            sub_down_spec(v0, rest, paths@, op@, fw.apply_result(sub_target_down(v0, rest), o)),
                        ));
                    }
                }
                r
            }
        },
        Value::Object(es) => {
            proof {
                lemma_object_view(*es);
            }
            let k = match paths.get_key_at(depth) {
                Some(k) => k,
                None => {
                    let r = Err(
                        ApplyError::RouteError(RouteError::ExpectKeyPath { actual: element_at(paths, depth) }),
                    );
                    proof {
                        let fw: Box<dyn SubTypeFunctions> = vstd::pervasive::arbitrary();
                        if let OperatorModel::SubType(SubTypeName::Custom(name), o) = op@ {
                            assert(outcome_is(
                                r,
                                v0,
                                v0,
                                sub_down_spec(v0, rest, paths@, op@, fw.apply_result(sub_target_down(v0, rest), o)),
                            ));
                        }
                    }
                    return r;
                },
            };
            match find_key(es, k) {
                Some(pos) => {
                    proof {
                        lemma_key_pos_range(entries_view(es@), k@);
                    }
                    let ghost before = es@;
                    let mut entry = (String::new(), Value::Null);
                    es.set_and_swap(pos, &mut entry);
                    let ghost child0 = entry.1@;
                    let r = apply_down(&mut entry.1, paths, depth + 1, op, functions);
                    let ghost child1 = entry.1@;
                    es.set(pos, entry);
                    proof {
                        assert(es@ =~= before.update(pos as int, es@[pos as int]));
                        assert(entries_view(es@) =~= entries_view(before).update(
                            pos as int,
                            (before[pos as int].0@, es@[pos as int].1@),
                        ));
                        if r is Err {
                            assert(entries_view(es@) =~= entries_view(before));
                        }
                        lemma_object_view(*es);
                        match op@ {
                            OperatorModel::SubType(SubTypeName::Custom(name), o) => {
                                if functions.has(name) {
                                    let f1 = choose|f: Box<dyn SubTypeFunctions>|
                                        outcome_is(
                                            r,
                                            child0,
                                            child1,
                                            sub_down_spec(
                                                child0,
                                                rest.skip(1),
                                                paths@,
                                                op@,
                                                #[trigger] f.apply_result(sub_target_down(child0, rest.skip(1)), o),
                                            ),
                                        );
                                    assert(child0 == entries_view(before)[pos as int].1);
                                    assert(sub_target_down(v0, rest) == sub_target_down(child0, rest.skip(1)));
                                    assert(outcome_is(
                                        r,
                                        v0,
                                        Json::Object(entries_view(es@)),
                                        sub_down_spec(
                                            v0,
                                            rest,
                                            paths@,
                                            op@,
                                            f1.apply_result(sub_target_down(v0, rest), o),
                                        ),
                                    ));
                                } else {
                                    assert(child0 == entries_view(before)[pos as int].1);
                                    assert(outcome_is(
                                        r,
                                        v0,
                                        Json::Object(entries_view(es@)),
                                        sub_down_spec(v0, rest, paths@, op@, None),
                                    ));
                                }
                            },
                            _ => {},
                        }
                    }
                    r
                },
                None => {
                    let r = Err(ApplyError::RouteError(RouteError::ReachLeafNode(paths.clone())));
                    proof {
                    let fw: Box<dyn SubTypeFunctions> = vstd::pervasive::arbitrary();
                    if let OperatorModel::SubType(SubTypeName::Custom(name), o) = op@ {
                        assert(outcome_is(
                            r,
                            v0,
                            v0,
                            sub_down_spec(v0, rest, paths@, op@, fw.apply_result(sub_target_down(v0, rest), o)),
                        ));
                    }
                }
                    r
                },
            }
        },
        _ => {
            let (left, _) = paths.split_at(paths.len() - 1);
            let (_, remain) = left.split_at(depth);
            assert(remain@ =~= rest.take(rest.len() - 1));
            let r = Err(ApplyError::RouteError(RouteError::ReachLeafNode(remain)));
            proof {
                    let fw: Box<dyn SubTypeFunctions> = vstd::pervasive::arbitrary();
                    if let OperatorModel::SubType(SubTypeName::Custom(name), o) = op@ {
                        assert(outcome_is(
                            r,
                            v0,
                            v0,
                            sub_down_spec(v0, rest, paths@, op@, fw.apply_result(sub_target_down(v0, rest), o)),
                        ));
                    }
                }
            r
        },
    }
}

impl Value {
    /// Applies `operator` at `paths`: the document becomes what `apply_spec` makes
    /// of it, or stays as it was where an error comes. The last element of the path
    /// names the list element or object member that the operator changes; with an
    /// empty path, only a sub type operator on a scalar applies. The functions of
    /// custom sub types come from `functions`: for a registered one, the outcome is
    /// what `sub_down_spec` makes of the result that its `apply` gives for the value
    /// at the end of the path (`sub_target_down`) and the operand.
    pub fn apply(&mut self, paths: Path, operator: Operator, functions: &SubTypeFunctionsHolder) -> (r:
        ApplyResult<()>)
        ensures
            !is_custom_op(operator@) ==> match apply_spec(old(self)@, paths@, operator@) {
                Ok(nv) => r is Ok && final(self)@ == nv,
                Err(f) => r is Err && r->Err_0@ == f && final(self)@ == old(self)@,
            },
            r is Err ==> final(self)@ == old(self)@,
            !is_custom_op(operator@) ==> (r matches Err(ApplyError::SubTypeError(e)) ==> *e is InvalidOperation),
            operator@ matches OperatorModel::SubType(SubTypeName::Custom(name), o) ==> (functions.has(name)
                ==> exists|f: Box<dyn SubTypeFunctions>|
                outcome_is(
                    r,
                    old(self)@,
                    final(self)@,
                    sub_down_spec(
                        old(self)@,
                        paths@,
                        paths@,
                        operator@,
                        #[trigger] f.apply_result(sub_target_down(old(self)@, paths@), o),
                    ),
                )),
            operator@ matches OperatorModel::SubType(SubTypeName::Custom(name), o) ==> exists|res: Option<Option<Json>>|
                custom_apply_result(functions, name, sub_target_down(old(self)@, paths@), o, res) && #[trigger] outcome_is(
                    r,
                    old(self)@,
                    final(self)@,
                    sub_down_spec(old(self)@, paths@, paths@, operator@, res),
                ),
    {
        assert(paths@.skip(0) =~= paths@);
        let ghost v0 = self@;
        let r = apply_down(self, &paths, 0, &operator, functions);
        proof {
            if let OperatorModel::SubType(SubTypeName::Custom(name), o) = operator@ {
                if functions.has(name) {
                    let f1 = choose|f: Box<dyn SubTypeFunctions>|
                        outcome_is(
                            r,
                            v0,
                            self@,
                            sub_down_spec(v0, paths@, paths@, operator@, #[trigger] f.apply_result(sub_target_down(v0, paths@), o)),
                        );
                    let res = f1.apply_result(sub_target_down(v0, paths@), o);
                    assert(custom_apply_result(functions, name, sub_target_down(v0, paths@), o, res));
                    assert(outcome_is(r, v0, self@, sub_down_spec(v0, paths@, paths@, operator@, res)));
                } else {
                    assert(custom_apply_result(functions, name, sub_target_down(v0, paths@), o, None));
                    assert(outcome_is(r, v0, self@, sub_down_spec(v0, paths@, paths@, operator@, None)));
                }
            }
        }
        r
    }
}

} // verus!
