//! Properties of the library as a whole: what holds of every input, or across
//! several calls.
use vstd::prelude::*;

use crate::operation::{ComponentModel, ListBuilderModel, ObjectBuilderModel, OperatorModel, TextBuilderModel, append_spec, component_valid, compose_spec,
    invert_spec, is_move_in_place, list_builder_operator, merge_spec, object_builder_operator, text_builder_operand};
use crate::transformer::{common_len, consumed, is_noop_equiv, object_new_value, lemma_common_len_unique, sub_type_components_spec, transform_component_spec,
    transform_spec};
use crate::apply_components_spec;
use crate::sub_type::{member_nat, member_str, text_apply_spec, text_merge_spec, text_invert_all_spec, text_invert_object_spec,
    text_invert_spec};
use crate::json::{ApplyFault, RouteFault, apply_down_spec, apply_here_spec, apply_list_spec, apply_object_spec, apply_spec,
    route_get_spec};
use crate::path::{PathKey, index_at, is_common_prefix_len, key_at};
use crate::sub_type::{SubTypeName, builtin_apply_spec, builtin_operand_valid, builtin_transform_spec};
use crate::value::{Json, json_wf, keys_distinct, members_wf, lemma_members_wf, lemma_items_wf, lemma_json_eq_refl,
    lemma_items_eq, lemma_members_eq, member_ok, entries_get, entries_remove, json_eq, entries_insert, is_first_key, json_member, key_pos, lemma_key_pos_absent,
    lemma_key_pos_found, lemma_key_pos_range};

verus! {

// ---------------------------------------------------------------------------
// Inverting.

/// A text edit written as the builders write it: the offset `p`, then either the
/// text `i` to insert or the text `d` to delete, and nothing else.
pub open spec fn is_plain_text_edit(v: Json) -> bool {
    match v {
        Json::Object(es) => es.len() == 2 && es[0].0 == "p"@ && (es[1].0 == "i"@ || es[1].0 == "d"@),
        _ => false,
    }
}

/// A text operand made of plain edits: one, or an array of them.
pub open spec fn is_plain_text_operand(v: Json) -> bool {
    match v {
        Json::Array(items) => forall|i: int| 0 <= i < items.len() ==> is_plain_text_edit(#[trigger] items[i]),
        _ => is_plain_text_edit(v),
    }
}

/// Text operands, if any, are made of plain edits.
pub open spec fn has_plain_text(c: ComponentModel) -> bool {
    match c.op {
        OperatorModel::SubType(SubTypeName::Text, v) => is_plain_text_operand(v),
        _ => true,
    }
}

proof fn lemma_keys_differ()
    ensures
        "p"@ != "i"@,
        "p"@ != "d"@,
        "i"@ != "d"@,
{
    reveal_strlit("p");
    reveal_strlit("i");
    reveal_strlit("d");
    assert("p"@[0] != "i"@[0]);
    assert("p"@[0] != "d"@[0]);
    assert("i"@[0] != "d"@[0]);
}

proof fn lemma_plain_edit_members(v: Json)
    requires
        is_plain_text_edit(v),
    ensures
        json_member(v, "p"@) == Some(v->Object_0[0].1),
        v->Object_0[1].0 == "i"@ ==> json_member(v, "i"@) == Some(v->Object_0[1].1) && json_member(v, "d"@) is None,
        v->Object_0[1].0 == "d"@ ==> json_member(v, "d"@) == Some(v->Object_0[1].1) && json_member(v, "i"@) is None,
{
    lemma_keys_differ();
    let es = v->Object_0;
    lemma_key_pos_found(es, "p"@, 0);
    if es[1].0 == "i"@ {
        assert(is_first_key(es, "i"@, 1));
        lemma_key_pos_found(es, "i"@, 1);
        lemma_key_pos_absent(es, "d"@);
    } else {
        assert(is_first_key(es, "d"@, 1));
        lemma_key_pos_found(es, "d"@, 1);
        lemma_key_pos_absent(es, "i"@);
    }
}

/// Inverting a plain text edit twice gives it back, and the inverse is plain.
proof fn lemma_text_edit_invert_twice(v: Json)
    requires
        is_plain_text_edit(v),
    ensures
        text_invert_object_spec(v->Object_0) is Some,
        is_plain_text_edit(Json::Object(text_invert_object_spec(v->Object_0)->0)),
        text_invert_object_spec(text_invert_object_spec(v->Object_0)->0) == Some(v->Object_0),
{
    lemma_keys_differ();
    let es = v->Object_0;
    lemma_plain_edit_members(v);
    let inv = text_invert_object_spec(es)->0;
    assert(inv =~= seq![("p"@, es[0].1), (if es[1].0 == "i"@ { "d"@ } else { "i"@ }, es[1].1)]);
    lemma_plain_edit_members(Json::Object(inv));
    assert(text_invert_object_spec(inv)->0 =~= es);
}

/// Inverting a plain text operand twice gives it back.
proof fn lemma_text_invert_twice(v: Json)
    requires
        is_plain_text_operand(v),
        text_invert_spec(v) is Some,
    ensures
        text_invert_spec(text_invert_spec(v)->0->SubType_1) == Some(OperatorModel::SubType(SubTypeName::Text, v)),
{
    match v {
        Json::Array(items) => {
            let inv = text_invert_all_spec(items)->0;
            assert forall|i: int| 0 <= i < inv.len() implies (#[trigger] inv[i] is Object && text_invert_object_spec(
                inv[i]->Object_0,
            ) is Some) by {
                lemma_text_edit_invert_twice(items[i]);
            }
            let back = text_invert_all_spec(inv)->0;
            assert forall|i: int| 0 <= i < items.len() implies #[trigger] back[i] == items[i] by {
                lemma_text_edit_invert_twice(items[i]);
            }
            assert(back =~= items);
        },
        _ => {
            lemma_text_edit_invert_twice(v);
        },
    }
}

/// Inverting a component twice gives it back: the inverse of the inverse of a
/// valid component is the component itself (for text operands written as plain
/// edits).
pub proof fn law_invert_twice(c: ComponentModel)
    requires
        has_plain_text(c),
        invert_spec(c) is Some,
    ensures
        invert_spec(invert_spec(c)->0) == Some(c),
{
    let d = invert_spec(c)->0;
    match c.op {
        OperatorModel::SubType(SubTypeName::Text, v) => {
            lemma_text_invert_twice(v);
        },
        OperatorModel::ListMove(to) => {
            assert(d.path.update(d.path.len() - 1, c.path.last()) =~= c.path);
        },
        _ => {},
    }
}

// ---------------------------------------------------------------------------
// Reading what was written.

/// Setting a key and then reading it gives the value set.
proof fn lemma_entries_get_insert(es: Seq<(Seq<char>, Json)>, k: Seq<char>, x: Json)
    ensures
        entries_get(entries_insert(es, k, x), k) == Some(x),
{
    lemma_key_pos_range(es, k);
    let es2 = entries_insert(es, k, x);
    if key_pos(es, k) >= 0 {
        let pos = key_pos(es, k);
        assert(is_first_key(es2, k, pos));
        lemma_key_pos_found(es2, k, pos);
    } else {
        assert(is_first_key(es2, k, es.len() as int));
        lemma_key_pos_found(es2, k, es.len() as int);
    }
}

proof fn lemma_read_after_insert_down(v: Json, rest: Seq<PathKey>, full: Seq<PathKey>, x: Json)
    requires
        apply_down_spec(v, rest, full, OperatorModel::ObjectInsert(x)) is Ok,
    ensures
        route_get_spec(apply_down_spec(v, rest, full, OperatorModel::ObjectInsert(x))->Ok_0, rest) == Ok::<
            Option<Json>,
            RouteFault,
        >(Some(x)),
    decreases rest.len(),
{
    let op = OperatorModel::ObjectInsert(x);
    if rest.len() <= 1 {
        match v {
            Json::Object(es) => {
                let k = key_at(rest, 0)->0;
                lemma_entries_get_insert(es, k, x);
            },
            _ => {},
        }
    } else {
        match v {
            Json::Array(items) => {
                let i = index_at(rest, 0)->0;
                lemma_read_after_insert_down(items[i as int], rest.skip(1), full, x);
            },
            Json::Object(es) => {
                let k = key_at(rest, 0)->0;
                let pos = key_pos(es, k);
                lemma_key_pos_range(es, k);
                let nv = apply_down_spec(es[pos].1, rest.skip(1), full, op)->Ok_0;
                let es2 = es.update(pos, (k, nv));
                assert(is_first_key(es2, k, pos));
                lemma_key_pos_found(es2, k, pos);
                lemma_read_after_insert_down(es[pos].1, rest.skip(1), full, x);
            },
            _ => {},
        }
    }
}

/// Reading gives back what was written: after an object insertion at a path has
/// applied, the value at that path is the inserted one.
pub proof fn law_read_after_insert(v: Json, path: Seq<PathKey>, x: Json)
    requires
        apply_spec(v, path, OperatorModel::ObjectInsert(x)) is Ok,
    ensures
        route_get_spec(apply_spec(v, path, OperatorModel::ObjectInsert(x))->Ok_0, path) == Ok::<
            Option<Json>,
            RouteFault,
        >(Some(x)),
{
    lemma_read_after_insert_down(v, path, path, x);
}

// ---------------------------------------------------------------------------
// Concurrent insertions into and deletions from a list.

/// An insertion (`insert`) or a deletion of the element `i` of the list at `q`.
pub open spec fn list_edit(q: Seq<PathKey>, insert: bool, i: usize, x: Json) -> ComponentModel {
    ComponentModel {
        path: q.push(PathKey::Index(i)),
        op: if insert {
            OperatorModel::ListInsert(x)
        } else {
            OperatorModel::ListDelete(x)
        },
    }
}

/// Where the edit of element `i` lands when the edit of element `j` happens
/// first; `None` where it vanishes (both delete the same element). An insertion
/// at the place of another goes after it on the right side.
pub open spec fn edit_after(insert: bool, i: usize, base_insert: bool, j: usize, right: bool) -> Option<usize> {
    if base_insert {
        if j < i || (j == i && (!insert || right)) {
            Some((i + 1) as usize)
        } else {
            Some(i)
        }
    } else {
        if j < i {
            Some((i - 1) as usize)
        } else if j == i && !insert {
            None
        } else {
            Some(i)
        }
    }
}

/// The components that an edit becomes after another of the same list.
pub open spec fn edits_after(
    q: Seq<PathKey>,
    insert: bool,
    i: usize,
    x: Json,
    base_insert: bool,
    j: usize,
    right: bool,
) -> Seq<ComponentModel> {
    match edit_after(insert, i, base_insert, j, right) {
        Some(k) => seq![list_edit(q, insert, k, x)],
        None => Seq::empty(),
    }
}

proof fn lemma_transform_edits(
    q: Seq<PathKey>,
    insert: bool,
    i: usize,
    x: Json,
    base_insert: bool,
    j: usize,
    y: Json,
    right: bool,
)
    requires
        i < usize::MAX,
    ensures
        transform_component_spec(list_edit(q, insert, i, x), list_edit(q, base_insert, j, y), right) == Some(
            edits_after(q, insert, i, x, base_insert, j, right),
        ),
{
    reveal(transform_component_spec);
    let new = list_edit(q, insert, i, x);
    let base = list_edit(q, base_insert, j, y);
    let n: int = if i == j {
        q.len() + 1int
    } else {
        q.len() as int
    };
    assert(is_common_prefix_len(base.path, new.path, n));
    lemma_common_len_unique(base.path, new.path, n);
    if i == j {
        assert(base.path =~= new.path);
    } else {
        assert(!base.path.is_prefix_of(new.path)) by {
            assert(base.path[q.len() as int] != new.path[q.len() as int]);
        }
    }
    match edit_after(insert, i, base_insert, j, right) {
        Some(k) => {
            assert(new.path.update(q.len() as int, PathKey::Index(k)) =~= list_edit(q, insert, k, x).path);
        },
        None => {},
    }
}

/// The list that an edit makes of `items`.
pub open spec fn edited(items: Seq<Json>, insert: bool, i: usize, x: Json) -> Seq<Json> {
    if insert {
        items.insert(i as int, x)
    } else {
        items.remove(i as int)
    }
}

/// The edit can apply to `items`: an insertion at most at the end, a deletion of
/// an element that is there.
pub open spec fn edit_fits(items: Seq<Json>, insert: bool, i: usize) -> bool {
    if insert {
        i <= items.len()
    } else {
        i < items.len()
    }
}

proof fn lemma_apply_two(v: Json, c1: ComponentModel, c2: ComponentModel)
    requires
        apply_spec(v, c1.path, c1.op) is Ok,
    ensures
        apply_components_spec(v, seq![c1, c2]) == match apply_spec(apply_spec(v, c1.path, c1.op)->Ok_0, c2.path, c2.op) {
            Ok(w) => Ok::<Json, (ApplyFault, Json)>(w),
            Err(f) => Err((f, apply_spec(v, c1.path, c1.op)->Ok_0)),
        },
{
    assert(seq![c1, c2].drop_last() =~= seq![c1]);
    assert(seq![c1].drop_last() =~= Seq::<ComponentModel>::empty());
    assert(seq![c1, c2].last() == c2);
    assert(seq![c1].last() == c1);
    assert(apply_components_spec(v, Seq::<ComponentModel>::empty()) == Ok::<Json, (ApplyFault, Json)>(v));
    assert(apply_components_spec(v, seq![c1]) == Ok::<Json, (ApplyFault, Json)>(
        apply_spec(v, c1.path, c1.op)->Ok_0,
    ));
}

proof fn lemma_apply_one(v: Json, c1: ComponentModel)
    requires
        apply_spec(v, c1.path, c1.op) is Ok,
    ensures
        apply_components_spec(v, seq![c1]) == Ok::<Json, (ApplyFault, Json)>(apply_spec(v, c1.path, c1.op)->Ok_0),
{
    assert(seq![c1].drop_last() =~= Seq::<ComponentModel>::empty());
    assert(seq![c1].last() == c1);
    assert(apply_components_spec(v, Seq::<ComponentModel>::empty()) == Ok::<Json, (ApplyFault, Json)>(v));
}

proof fn lemma_insert_insert(items: Seq<Json>, i: int, x: Json, j: int, y: Json)
    requires
        0 <= i <= items.len(),
        0 <= j <= items.len(),
    ensures
        j < i ==> items.insert(j, y).insert(i + 1, x) == items.insert(i, x).insert(j, y),
        i <= j ==> items.insert(j, y).insert(i, x) == items.insert(i, x).insert(j + 1, y),
{
    if j < i {
        assert(items.insert(j, y).insert(i + 1, x) =~= items.insert(i, x).insert(j, y));
    } else {
        assert(items.insert(j, y).insert(i, x) =~= items.insert(i, x).insert(j + 1, y));
    }
}

proof fn lemma_insert_remove(items: Seq<Json>, i: int, x: Json, j: int)
    requires
        0 <= i <= items.len(),
        0 <= j < items.len(),
    ensures
        j < i ==> items.remove(j).insert(i - 1, x) == items.insert(i, x).remove(j),
        i <= j ==> items.remove(j).insert(i, x) == items.insert(i, x).remove(j + 1),
{
    if j < i {
        assert(items.remove(j).insert(i - 1, x) =~= items.insert(i, x).remove(j));
    } else {
        assert(items.remove(j).insert(i, x) =~= items.insert(i, x).remove(j + 1));
    }
}

proof fn lemma_remove_remove(items: Seq<Json>, i: int, j: int)
    requires
        0 <= i < items.len(),
        0 <= j < items.len(),
    ensures
        j < i ==> items.remove(j).remove(i - 1) == items.remove(i).remove(j),
{
    if j < i {
        assert(items.remove(j).remove(i - 1) =~= items.remove(i).remove(j));
    }
}

/// Applying the edit `(insert, i)` and then the other one transformed gives the
/// list that applying the other first and then this one transformed gives.
#[verifier::spinoff_prover]
proof fn lemma_edits_commute(items: Seq<Json>, insert: bool, i: usize, x: Json, base_insert: bool, j: usize, y: Json)
    requires
        edit_fits(items, insert, i),
        edit_fits(items, base_insert, j),
        items.len() < usize::MAX,
    ensures
        ({
            let a = edit_after(insert, i, base_insert, j, false);
            let b = edit_after(base_insert, j, insert, i, true);
            let l = edited(items, base_insert, j, y);
            let r = edited(items, insert, i, x);
            &&& a is Some ==> edit_fits(l, insert, a->0)
            &&& b is Some ==> edit_fits(r, base_insert, b->0)
            &&& (a is Some <==> b is Some)
            &&& a is Some ==> edited(l, insert, a->0, x) == edited(r, base_insert, b->0, y)
            &&& a is None ==> l == r
        }),
{
    let ii = i as int;
    let jj = j as int;
    if insert && base_insert {
        lemma_insert_insert(items, ii, x, jj, y);
    } else if insert && !base_insert {
        lemma_insert_remove(items, ii, x, jj);
    } else if !insert && base_insert {
        lemma_insert_remove(items, jj, y, ii);
    } else {
        lemma_remove_remove(items, ii, jj);
        lemma_remove_remove(items, jj, ii);
    }
}

// ---------------------------------------------------------------------------
// Values inside documents.

/// The value at the path `q` below `v`, reached through existing list elements
/// and object members.
pub open spec fn value_at(v: Json, q: Seq<PathKey>) -> Option<Json>
    decreases q.len(),
{
    if q.len() == 0 {
        Some(v)
    } else {
        match v {
            Json::Array(items) => match index_at(q, 0) {
                Some(i) => if i < items.len() {
                    value_at(items[i as int], q.skip(1))
                } else {
                    None
                },
                None => None,
            },
            Json::Object(es) => match key_at(q, 0) {
                Some(k) => if key_pos(es, k) >= 0 {
                    value_at(es[key_pos(es, k)].1, q.skip(1))
                } else {
                    None
                },
                None => None,
            },
            _ => None,
        }
    }
}

/// `v` with the value at the path `q` replaced by `w`.
pub open spec fn replace_at(v: Json, q: Seq<PathKey>, w: Json) -> Json
    decreases q.len(),
{
    if q.len() == 0 {
        w
    } else {
        match v {
            Json::Array(items) => match index_at(q, 0) {
                Some(i) => if i < items.len() {
                    Json::Array(items.update(i as int, replace_at(items[i as int], q.skip(1), w)))
                } else {
                    v
                },
                None => v,
            },
            Json::Object(es) => match key_at(q, 0) {
                Some(k) => if key_pos(es, k) >= 0 {
                    Json::Object(es.update(key_pos(es, k), (k, replace_at(es[key_pos(es, k)].1, q.skip(1), w))))
                } else {
                    v
                },
                None => v,
            },
            _ => v,
        }
    }
}

/// Applying an operator at `q` followed by `l` changes the value at `q` as
/// applying it at `l` there does.
proof fn lemma_apply_at(v: Json, q: Seq<PathKey>, l: PathKey, f: Seq<PathKey>, op: OperatorModel)
    requires
        value_at(v, q) is Some,
    ensures
        apply_down_spec(v, q.push(l), f, op) == match apply_here_spec(value_at(v, q)->0, seq![l], op) {
            Ok(w) => Ok::<Json, ApplyFault>(replace_at(v, q, w)),
            Err(e) => Err(e),
        },
    decreases q.len(),
{
    let rest = q.push(l);
    if q.len() == 0 {
        assert(rest =~= seq![l]);
    } else {
        assert(rest.skip(1) =~= q.skip(1).push(l));
        assert(rest[0] == q[0]);
        match v {
            Json::Array(items) => {
                let i = index_at(q, 0)->0;
                lemma_apply_at(items[i as int], q.skip(1), l, f, op);
            },
            Json::Object(es) => {
                let k = key_at(q, 0)->0;
                lemma_key_pos_range(es, k);
                lemma_apply_at(es[key_pos(es, k)].1, q.skip(1), l, f, op);
            },
            _ => {},
        }
    }
}

/// After replacing the value at `q`, the value at `q` is the new one, and a
/// second replacement overrides the first.
proof fn lemma_replace_at(v: Json, q: Seq<PathKey>, a: Json, b: Json)
    requires
        value_at(v, q) is Some,
    ensures
        value_at(replace_at(v, q, a), q) == Some(a),
        replace_at(replace_at(v, q, a), q, b) == replace_at(v, q, b),
    decreases q.len(),
{
    if q.len() > 0 {
        match v {
            Json::Array(items) => {
                let i = index_at(q, 0)->0;
                lemma_replace_at(items[i as int], q.skip(1), a, b);
                let ia = items.update(i as int, replace_at(items[i as int], q.skip(1), a));
                assert(ia.update(i as int, replace_at(ia[i as int], q.skip(1), b)) =~= items.update(
                    i as int,
                    replace_at(items[i as int], q.skip(1), b),
                ));
            },
            Json::Object(es) => {
                let k = key_at(q, 0)->0;
                lemma_key_pos_range(es, k);
                let pos = key_pos(es, k);
                lemma_replace_at(es[pos].1, q.skip(1), a, b);
                let ea = es.update(pos, (k, replace_at(es[pos].1, q.skip(1), a)));
                assert(is_first_key(ea, k, pos));
                lemma_key_pos_found(ea, k, pos);
                assert(ea.update(pos, (k, replace_at(ea[pos].1, q.skip(1), b))) =~= es.update(
                    pos,
                    (k, replace_at(es[pos].1, q.skip(1), b)),
                ));
            },
            _ => {},
        }
    }
}

proof fn lemma_apply_edit(items: Seq<Json>, insert: bool, i: usize, x: Json)
    requires
        edit_fits(items, insert, i),
    ensures
        apply_here_spec(Json::Array(items), seq![PathKey::Index(i)], list_edit(Seq::empty(), insert, i, x).op)
            == Ok::<Json, ApplyFault>(Json::Array(edited(items, insert, i, x))),
{
}

/// Applying the edit `(insert, i, x)` of the list at `q` in `v`.
proof fn lemma_apply_list_edit(v: Json, q: Seq<PathKey>, items: Seq<Json>, insert: bool, i: usize, x: Json)
    requires
        value_at(v, q) == Some(Json::Array(items)),
        edit_fits(items, insert, i),
    ensures
        apply_spec(v, list_edit(q, insert, i, x).path, list_edit(q, insert, i, x).op) == Ok::<Json, ApplyFault>(
            replace_at(v, q, Json::Array(edited(items, insert, i, x))),
        ),
{
    let c = list_edit(q, insert, i, x);
    lemma_apply_at(v, q, PathKey::Index(i), c.path, c.op);
    lemma_apply_edit(items, insert, i, x);
}

/// Concurrent insertions into and deletions from a list converge: transformed
/// against each other, applying either one and then the other transformed gives
/// the same document.
#[verifier::spinoff_prover]
#[verifier::rlimit(40)]
pub proof fn law_list_edits_converge(
    v: Json,
    q: Seq<PathKey>,
    insert: bool,
    i: usize,
    x: Json,
    base_insert: bool,
    j: usize,
    y: Json,
)
    requires
        value_at(v, q) matches Some(Json::Array(items)) && edit_fits(items, insert, i) && edit_fits(
            items,
            base_insert,
            j,
        ) && items.len() < usize::MAX,
    ensures
        transform_spec(seq![list_edit(q, insert, i, x)], seq![list_edit(q, base_insert, j, y)]) matches Some(
            (a, b),
        ) && {
            &&& apply_components_spec(v, seq![list_edit(q, base_insert, j, y)] + a) is Ok
            &&& apply_components_spec(v, seq![list_edit(q, base_insert, j, y)] + a) == apply_components_spec(
                v,
                seq![list_edit(q, insert, i, x)] + b,
            )
        },
{
    let items = value_at(v, q)->0->Array_0;
    let new = list_edit(q, insert, i, x);
    let base = list_edit(q, base_insert, j, y);
    lemma_transform_edits(q, insert, i, x, base_insert, j, y, false);
    lemma_transform_edits(q, base_insert, j, y, insert, i, x, true);
    let a = edits_after(q, insert, i, x, base_insert, j, false);
    let b = edits_after(q, base_insert, j, y, insert, i, true);
    assert(transform_spec(seq![new], seq![base]) == Some((a, b)));
    lemma_edits_commute(items, insert, i, x, base_insert, j, y);
    let l = edited(items, base_insert, j, y);
    let r = edited(items, insert, i, x);
    lemma_apply_list_edit(v, q, items, base_insert, j, y);
    lemma_apply_list_edit(v, q, items, insert, i, x);
    let vl = replace_at(v, q, Json::Array(l));
    let vr = replace_at(v, q, Json::Array(r));
    match edit_after(insert, i, base_insert, j, false) {
        Some(ka) => {
            let kb = edit_after(base_insert, j, insert, i, true)->0;
            assert(seq![base] + a =~= seq![base, a[0]]);
            assert(seq![new] + b =~= seq![new, b[0]]);
            lemma_apply_two(v, base, a[0]);
            lemma_apply_two(v, new, b[0]);
            lemma_replace_at(v, q, Json::Array(l), Json::Array(edited(l, insert, ka, x)));
            lemma_replace_at(v, q, Json::Array(r), Json::Array(edited(r, base_insert, kb, y)));
            lemma_apply_list_edit(vl, q, l, insert, ka, x);
            lemma_apply_list_edit(vr, q, r, base_insert, kb, y);
        },
        None => {
            assert(seq![base] + a =~= seq![base]);
            assert(seq![new] + b =~= seq![new]);
            lemma_apply_one(v, base);
            lemma_apply_one(v, new);
        },
    }
}

// ---------------------------------------------------------------------------
// Concurrent insertions under one key.

/// An insertion of `x` under the key `k` of the object at `q`.
pub open spec fn member_insert(q: Seq<PathKey>, k: Seq<char>, x: Json) -> ComponentModel {
    ComponentModel { path: q.push(PathKey::Key(k)), op: OperatorModel::ObjectInsert(x) }
}

/// Concurrent insertions under the same key of an object converge on the value
/// of the one transformed on the left side: after the other, it becomes a
/// replacement, and the other, after it, does nothing.
#[verifier::spinoff_prover]
#[verifier::rlimit(40)]
pub proof fn law_member_inserts_converge(v: Json, q: Seq<PathKey>, k: Seq<char>, x: Json, y: Json)
    requires
        value_at(v, q) matches Some(Json::Object(_)),
    ensures
        transform_spec(seq![member_insert(q, k, x)], seq![member_insert(q, k, y)]) == Some(
            (
                seq![ComponentModel { path: q.push(PathKey::Key(k)), op: OperatorModel::ObjectReplace(x, y) }],
                Seq::<ComponentModel>::empty(),
            ),
        ),
        apply_components_spec(
            v,
            seq![
                member_insert(q, k, y),
                ComponentModel { path: q.push(PathKey::Key(k)), op: OperatorModel::ObjectReplace(x, y) },
            ],
        ) is Ok,
        apply_components_spec(
            v,
            seq![
                member_insert(q, k, y),
                ComponentModel { path: q.push(PathKey::Key(k)), op: OperatorModel::ObjectReplace(x, y) },
            ],
        ) == apply_components_spec(v, seq![member_insert(q, k, x)]),
{
    let new = member_insert(q, k, x);
    let base = member_insert(q, k, y);
    let rep = ComponentModel { path: q.push(PathKey::Key(k)), op: OperatorModel::ObjectReplace(x, y) };
    assert(transform_component_spec(new, base, false) == Some(seq![rep])) by {
        reveal(transform_component_spec);
        lemma_common_len_unique(base.path, new.path, new.path.len() as int);
    }
    assert(transform_component_spec(base, new, true) == Some(Seq::<ComponentModel>::empty())) by {
        reveal(transform_component_spec);
        lemma_common_len_unique(new.path, base.path, new.path.len() as int);
    }
    let es = value_at(v, q)->0->Object_0;
    let l = PathKey::Key(k);
    let es_y = entries_insert(es, k, y);
    let es_x = entries_insert(es, k, x);
    lemma_apply_at(v, q, l, base.path, base.op);
    lemma_apply_at(v, q, l, new.path, new.op);
    let vy = replace_at(v, q, Json::Object(es_y));
    lemma_replace_at(v, q, Json::Object(es_y), Json::Object(es_x));
    lemma_apply_at(vy, q, l, rep.path, rep.op);
    lemma_entries_get_insert(es, k, y);
    lemma_key_pos_range(es, k);
    assert(entries_insert(es_y, k, x) =~= es_x) by {
        if key_pos(es, k) >= 0 {
            let pos = key_pos(es, k);
            assert(is_first_key(es_y, k, pos));
            lemma_key_pos_found(es_y, k, pos);
        } else {
            assert(is_first_key(es_y, k, es.len() as int));
            lemma_key_pos_found(es_y, k, es.len() as int);
        }
    }
    lemma_apply_two(v, base, rep);
    lemma_apply_one(v, new);
}

// ---------------------------------------------------------------------------
// Undoing.

/// Applying `op1` at `l1` in `pv` and then `op2` at `l2` gives `pv` back.
pub open spec fn undone_here(pv: Json, l1: PathKey, op1: OperatorModel, l2: PathKey, op2: OperatorModel) -> bool {
    match apply_here_spec(pv, seq![l1], op1) {
        Ok(pw) => apply_here_spec(pw, seq![l2], op2) == Ok::<Json, ApplyFault>(pv),
        Err(_) => false,
    }
}

/// Putting back the value found at `q` changes nothing.
proof fn lemma_replace_same(v: Json, q: Seq<PathKey>)
    requires
        value_at(v, q) is Some,
    ensures
        replace_at(v, q, value_at(v, q)->0) == v,
    decreases q.len(),
{
    if q.len() > 0 {
        match v {
            Json::Array(items) => {
                let i = index_at(q, 0)->0;
                lemma_replace_same(items[i as int], q.skip(1));
                assert(items.update(i as int, items[i as int]) =~= items);
            },
            Json::Object(es) => {
                let k = key_at(q, 0)->0;
                lemma_key_pos_range(es, k);
                let pos = key_pos(es, k);
                lemma_replace_same(es[pos].1, q.skip(1));
                assert(es.update(pos, (k, es[pos].1)) =~= es);
            },
            _ => {},
        }
    }
}

/// Applying `op` at `last` in the container `pv` can be undone by its inverse:
/// the element or member it changes is there and holds what the operator says it
/// holds, an insertion goes into a list at most at its end or under a key not yet
/// there, additions do not overflow, and a text edit applies to a text, an
/// insertion at its start. Deleting a member (which moves the member to the end
/// when put back) is left out.
pub open spec fn undo_fits(pv: Json, last: PathKey, op: OperatorModel) -> bool {
    match (pv, last) {
        (Json::Array(items), PathKey::Index(i)) => match op {
            OperatorModel::ListInsert(_) => i <= items.len(),
            OperatorModel::ListDelete(x) => i < items.len() && items[i as int] == x,
            OperatorModel::ListReplace(_, o) => i < items.len() && items[i as int] == o,
            OperatorModel::ListMove(to) => i < items.len() && to < items.len(),
            OperatorModel::SubType(SubTypeName::NumberAdd, Json::Number(n)) => i < items.len()
                && number_fits(items[i as int], n),
            OperatorModel::SubType(SubTypeName::Text, t) => i < items.len() && text_undo_fits(items[i as int], t),
            _ => false,
        },
        (Json::Object(es), PathKey::Key(k)) => match op {
            OperatorModel::ObjectInsert(_) => entries_get(es, k) is None,
            OperatorModel::ObjectReplace(_, o) => entries_get(es, k) == Some(o),
            OperatorModel::SubType(SubTypeName::NumberAdd, Json::Number(n)) => entries_get(es, k) matches Some(
                m,
            ) && number_fits(m, n),
            OperatorModel::SubType(SubTypeName::Text, t) => entries_get(es, k) matches Some(x) && text_undo_fits(x, t),
            _ => false,
        },
        (Json::Array(_), _) => false,
        (Json::Object(_), _) => false,
        _ => match op {
            OperatorModel::SubType(SubTypeName::NumberAdd, Json::Number(n)) => number_fits(pv, n),
            OperatorModel::SubType(SubTypeName::Text, t) => text_undo_fits(pv, t),
            _ => false,
        },
    }
}

/// The text edit `t` applies to the text `x`, and an insertion is at its start
/// (where the inverse, a deletion, can apply).
pub open spec fn text_undo_fits(x: Json, t: Json) -> bool {
    &&& x is Str
    &&& t is Object
    &&& text_apply_spec(Some(x), t) matches Some(Some(_))
    &&& json_member(t, "i"@) is Some ==> member_nat(t, "p"@) == Some(0i64)
}

/// The inverse of a text edit that can be undone puts the text back.
proof fn lemma_text_undone(x: Json, t: Json)
    requires
        text_undo_fits(x, t),
    ensures
        text_invert_spec(t) matches Some(OperatorModel::SubType(SubTypeName::Text, it)) && text_apply_spec(
            text_apply_spec(Some(x), t)->0,
            it,
        ) == Some(Some(x)),
{
    lemma_keys_differ();
    let es = t->Object_0;
    let s = x->Str_0;
    let p = json_member(t, "p"@)->0;
    let p64 = member_nat(t, "p"@)->0;
    let inv = text_invert_object_spec(es)->0;
    let it = Json::Object(inv);
    assert(is_first_key(inv, "p"@, 0));
    lemma_key_pos_found(inv, "p"@, 0);
    assert(json_member(it, "p"@) == Some(p));
    if json_member(t, "i"@) is Some {
        let ins = member_str(t, "i"@)->0;
        assert(inv == seq![("p"@, p), ("d"@, Json::Str(ins))]);
        assert(is_first_key(inv, "d"@, 1));
        lemma_key_pos_found(inv, "d"@, 1);
        lemma_key_pos_absent(inv, "i"@);
        let s2 = s.take(0) + ins + s.skip(0);
        assert(s2.subrange(0, ins.len() as int) =~= ins);
        assert(s2.take(0) + s2.skip(0 + ins.len() as int) =~= s);
    } else {
        let d = member_str(t, "d"@)->0;
        assert(inv == seq![("p"@, p), ("i"@, Json::Str(d))]);
        assert(is_first_key(inv, "i"@, 1));
        lemma_key_pos_found(inv, "i"@, 1);
        assert(d.len() == s.subrange(p64 as int, d.len() as int).len());
        assert(p64 == 0);
        let s2 = s.take(0) + s.skip(d.len() as int);
        assert(s2.take(0) + d + s2.skip(0) =~= s);
    }
}

/// `v` is a number to which `n` adds without overflow, and `n` can be negated.
pub open spec fn number_fits(v: Json, n: i64) -> bool {
    &&& v matches Json::Number(m) && i64::MIN <= m + n <= i64::MAX
    &&& n != i64::MIN
}

proof fn lemma_undone_here(pv: Json, c: ComponentModel)
    requires
        invert_spec(c) is Some,
        undo_fits(pv, c.path.last(), c.op),
    ensures
        undone_here(pv, c.path.last(), c.op, invert_spec(c)->0.path.last(), invert_spec(c)->0.op),
{
    let l = c.path.last();
    let d = invert_spec(c)->0;
    match pv {
        Json::Array(items) => {
            let i = l->Index_0 as int;
            match c.op {
                OperatorModel::ListInsert(x) => {
                    assert(items.insert(i, x).remove(i) =~= items);
                },
                OperatorModel::ListDelete(x) => {
                    assert(items.remove(i).insert(i, x) =~= items);
                },
                OperatorModel::ListReplace(n, o) => {
                    assert(items.update(i, n).update(i, o) =~= items);
                },
                OperatorModel::ListMove(to) => {
                    if i != to {
                        let w = items.remove(i).insert(to as int, items[i]);
                        assert(w[to as int] == items[i]);
                        assert(w.remove(to as int).insert(i, w[to as int]) =~= items);
                    }
                },
                OperatorModel::SubType(SubTypeName::NumberAdd, Json::Number(n)) => {
                    let m = items[i]->Number_0;
                    assert(items.update(i, Json::Number((m + n) as i64)).update(i, Json::Number(m)) =~= items);
                },
                OperatorModel::SubType(SubTypeName::Text, t) => {
                    lemma_text_undone(items[i], t);
                    let x2 = text_apply_spec(Some(items[i]), t)->0->0;
                    assert(items.update(i, x2).update(i, items[i]) =~= items);
                },
                _ => {},
            }
        },
        Json::Object(es) => {
            let k = l->Key_0;
            lemma_key_pos_range(es, k);
            match c.op {
                OperatorModel::ObjectInsert(x) => {
                    let es2 = es.push((k, x));
                    assert(is_first_key(es2, k, es.len() as int));
                    lemma_key_pos_found(es2, k, es.len() as int);
                    assert(es2.remove(es.len() as int) =~= es);
                },
                OperatorModel::ObjectReplace(n, o) => {
                    let pos = key_pos(es, k);
                    let es2 = es.update(pos, (k, n));
                    assert(is_first_key(es2, k, pos));
                    lemma_key_pos_found(es2, k, pos);
                    assert(es2.update(pos, (k, o)) =~= es);
                },
                OperatorModel::SubType(SubTypeName::NumberAdd, Json::Number(n)) => {
                    let pos = key_pos(es, k);
                    let m = es[pos].1->Number_0;
                    let es2 = es.update(pos, (k, Json::Number((m + n) as i64)));
                    assert(is_first_key(es2, k, pos));
                    lemma_key_pos_found(es2, k, pos);
                    assert(es2.update(pos, (k, Json::Number(m))) =~= es);
                },
                OperatorModel::SubType(SubTypeName::Text, t) => {
                    let pos = key_pos(es, k);
                    lemma_text_undone(es[pos].1, t);
                    let x2 = text_apply_spec(Some(es[pos].1), t)->0->0;
                    let es2 = es.update(pos, (k, x2));
                    assert(is_first_key(es2, k, pos));
                    lemma_key_pos_found(es2, k, pos);
                    assert(es2.update(pos, (k, es[pos].1)) =~= es);
                },
                _ => {},
            }
        },
        _ => {
            match c.op {
                OperatorModel::SubType(SubTypeName::Text, t) => {
                    lemma_text_undone(pv, t);
                },
                _ => {},
            }
        },
    }
}

/// Inverting undoes: applying a component and then its inverse gives the
/// document back, where the component can be undone in the container it changes
/// (as `undo_fits` says).
pub proof fn law_apply_then_invert_restores(v: Json, c: ComponentModel)
    requires
        invert_spec(c) is Some,
        value_at(v, c.path.drop_last()) matches Some(pv) && undo_fits(pv, c.path.last(), c.op),
    ensures
        apply_spec(v, c.path, c.op) matches Ok(w) && apply_spec(w, invert_spec(c)->0.path, invert_spec(c)->0.op)
            == Ok::<Json, ApplyFault>(v),
{
    let d = invert_spec(c)->0;
    let q = c.path.drop_last();
    let pv = value_at(v, q)->0;
    lemma_undone_here(pv, c);
    assert(c.path =~= q.push(c.path.last()));
    assert(d.path =~= q.push(d.path.last()));
    lemma_apply_at(v, q, c.path.last(), c.path, c.op);
    let pw = apply_here_spec(pv, seq![c.path.last()], c.op)->Ok_0;
    lemma_replace_at(v, q, pw, pv);
    lemma_apply_at(replace_at(v, q, pw), q, d.path.last(), d.path, d.op);
    lemma_replace_same(v, q);
}

/// An operator that applies reaches the value at its parent path.
proof fn lemma_apply_needs_parent(v: Json, q: Seq<PathKey>, l: PathKey, f: Seq<PathKey>, op: OperatorModel)
    requires
        apply_down_spec(v, q.push(l), f, op) is Ok,
    ensures
        value_at(v, q) is Some,
    decreases q.len(),
{
    if q.len() > 0 {
        let rest = q.push(l);
        assert(rest.skip(1) =~= q.skip(1).push(l));
        assert(rest[0] == q[0]);
        match v {
            Json::Array(items) => {
                let i = index_at(q, 0)->0;
                lemma_apply_needs_parent(items[i as int], q.skip(1), l, f, op);
            },
            Json::Object(es) => {
                let k = key_at(q, 0)->0;
                lemma_key_pos_range(es, k);
                lemma_apply_needs_parent(es[key_pos(es, k)].1, q.skip(1), l, f, op);
            },
            _ => {},
        }
    }
}

// ---------------------------------------------------------------------------
// Appending.

/// The value that an operator at `l` in `pv` changes: the element or member
/// there, or `pv` itself where it is no list or object.
pub open spec fn target_of(pv: Json, l: PathKey) -> Option<Json> {
    match (pv, l) {
        (Json::Array(items), PathKey::Index(i)) => element_of(items, i),
        (Json::Object(es), PathKey::Key(k)) => entries_get(es, k),
        (Json::Array(_), _) => None,
        (Json::Object(_), _) => None,
        _ => Some(pv),
    }
}

/// Where merging `b` into `a` at `l` in the container `pv` gives what applying
/// them in turn gives: a list insertion at most at the end of the list, an
/// object insertion under a key not yet there, text edits written as the
/// builders write them applied to a text, and no deletion of a member followed
/// by its insertion.
pub open spec fn merge_applies(pv: Json, l: PathKey, a: OperatorModel, b: OperatorModel) -> bool {
    match a {
        OperatorModel::ListInsert(_) => match (pv, l) {
            (Json::Array(items), PathKey::Index(i)) => i <= items.len(),
            _ => false,
        },
        OperatorModel::ObjectInsert(_) => match b {
            OperatorModel::ObjectDelete(_) => match (pv, l) {
                (Json::Object(es), PathKey::Key(k)) => entries_get(es, k) is None,
                _ => false,
            },
            _ => true,
        },
        OperatorModel::ObjectDelete(_) => false,
        OperatorModel::SubType(SubTypeName::Text, ta) => match b {
            OperatorModel::SubType(SubTypeName::Text, tb) => is_plain_text_edit(ta) && is_plain_text_edit(tb)
                && target_of(pv, l) matches Some(Json::Str(_)),
            _ => false,
        },
        _ => true,
    }
}

/// Two text edits that merge, applied in turn to a text, give what their merge
/// gives.
proof fn lemma_text_merge(x: Json, ta: Json, tb: Json)
    requires
        x is Str,
        is_plain_text_edit(ta),
        is_plain_text_edit(tb),
        text_merge_spec(ta, OperatorModel::SubType(SubTypeName::Text, tb)) is Some,
        text_apply_spec(Some(x), ta) matches Some(Some(x1)) && text_apply_spec(Some(x1), tb) is Some,
    ensures
        text_merge_spec(ta, OperatorModel::SubType(SubTypeName::Text, tb)) matches Some(
            OperatorModel::SubType(SubTypeName::Text, m),
        ) && text_apply_spec(Some(x), m) == text_apply_spec(text_apply_spec(Some(x), ta)->0, tb),
{
    lemma_keys_differ();
    lemma_plain_edit_members(ta);
    lemma_plain_edit_members(tb);
    let s = x->Str_0;
    let bp = member_nat(ta, "p"@)->0 as int;
    let opp = member_nat(tb, "p"@)->0 as int;
    let m = text_merge_spec(ta, OperatorModel::SubType(SubTypeName::Text, tb))->0->SubType_1;
    let me = m->Object_0;
    assert(is_first_key(me, "p"@, 0));
    lemma_key_pos_found(me, "p"@, 0);
    if json_member(ta, "i"@) is Some {
        let bi = member_str(ta, "i"@)->0;
        let oi = member_str(tb, "i"@)->0;
        let k = opp - bp;
        assert(is_first_key(me, "i"@, 1));
        lemma_key_pos_found(me, "i"@, 1);
        let s1 = s.take(bp) + bi + s.skip(bp);
        assert(s1.take(opp) =~= s.take(bp) + bi.take(k));
        assert(s1.skip(opp) =~= bi.skip(k) + s.skip(bp));
        assert(s1.take(opp) + oi + s1.skip(opp) =~= s.take(bp) + (bi.take(k) + oi + bi.skip(k)) + s.skip(bp));
    } else {
        let bd = member_str(ta, "d"@)->0;
        let od = member_str(tb, "d"@)->0;
        assert(is_first_key(me, "d"@, 1));
        lemma_key_pos_found(me, "d"@, 1);
        lemma_key_pos_absent(me, "i"@);
        assert(bd.len() == s.subrange(bp, bd.len() as int).len());
        assert(bp == 0);
        let s1 = s.take(0) + s.skip(bd.len() as int);
        assert(od.len() == s1.subrange(opp, od.len() as int).len());
        assert(opp == 0);
        let d = od.take(0) + bd + od.skip(0);
        assert(d =~= bd + od);
        assert(s.subrange(0, bd.len() as int) =~= bd);
        assert(s1.subrange(0, od.len() as int) =~= od);
        assert(s.subrange(0, d.len() as int) =~= d) by {
            assert forall|t: int| 0 <= t < d.len() implies s.subrange(0, d.len() as int)[t] == d[t] by {
                if t < bd.len() {
                    assert(s.subrange(0, bd.len() as int)[t] == s[t]);
                } else {
                    assert(s1.subrange(0, od.len() as int)[t - bd.len()] == s1[t - bd.len()]);
                    assert(s1[t - bd.len()] == s[t]);
                }
            }
        }
        assert(s.take(0) + s.skip(d.len() as int) =~= s1.take(0) + s1.skip(od.len() as int));
    }
}

proof fn lemma_merge_here(pv: Json, l: PathKey, a: OperatorModel, b: OperatorModel)
    requires
        merge_spec(a, b) is Some,
        merge_applies(pv, l, a, b),
        apply_here_spec(pv, seq![l], a) matches Ok(pw) && apply_here_spec(pw, seq![l], b) is Ok,
    ensures
        merge_spec(a, b)->0 is Noop ==> apply_here_spec(apply_here_spec(pv, seq![l], a)->Ok_0, seq![l], b) == Ok::<
            Json,
            ApplyFault,
        >(pv),
        !(merge_spec(a, b)->0 is Noop) ==> apply_here_spec(pv, seq![l], merge_spec(a, b)->0) == apply_here_spec(
            apply_here_spec(pv, seq![l], a)->Ok_0,
            seq![l],
            b,
        ),
{
    match pv {
        Json::Array(items) => {
            let i = l->Index_0 as int;
            match a {
                OperatorModel::ListInsert(x) => {
                    match b {
                        OperatorModel::ListDelete(_) => {
                            assert(items.insert(i, x).remove(i) =~= items);
                        },
                        OperatorModel::ListReplace(n, _) => {
                            assert(items.insert(i, x).update(i, n) =~= items.insert(i, n));
                        },
                        _ => {},
                    }
                },
                OperatorModel::ListReplace(n1, _) => {
                    if i < items.len() {
                        match b {
                            OperatorModel::ListReplace(n2, _) => {
                                assert(items.update(i, n1).update(i, n2) =~= items.update(i, n2));
                            },
                            OperatorModel::ListDelete(_) => {
                                assert(items.update(i, n1).remove(i) =~= items.remove(i));
                            },
                            _ => {},
                        }
                    }
                },
                OperatorModel::SubType(SubTypeName::NumberAdd, xo) => {
                    let x = xo->Number_0;
                    let y = b->SubType_1->Number_0;
                    let m = items[i]->Number_0;
                    assert(items.update(i, Json::Number((m + x) as i64)).update(i, Json::Number((m + x + y) as i64))
                        =~= items.update(i, Json::Number((m + (x + y)) as i64)));
                },
                OperatorModel::SubType(SubTypeName::Text, ta) => {
                    let tb = b->SubType_1;
                    lemma_text_merge(items[i], ta, tb);
                    let x1 = text_apply_spec(Some(items[i]), ta)->0->0;
                    let x2 = text_apply_spec(Some(x1), tb)->0->0;
                    assert(items.update(i, x1).update(i, x2) =~= items.update(i, x2));
                },
                _ => {},
            }
        },
        Json::Object(es) => {
            let k = l->Key_0;
            lemma_key_pos_range(es, k);
            match a {
                OperatorModel::ObjectInsert(x) => {
                    let es2 = entries_insert(es, k, x);
                    lemma_entries_get_insert(es, k, x);
                    match b {
                        OperatorModel::ObjectDelete(_) => {
                            assert(is_first_key(es2, k, es.len() as int));
                            lemma_key_pos_found(es2, k, es.len() as int);
                            assert(es2.remove(es.len() as int) =~= es);
                        },
                        OperatorModel::ObjectReplace(n, _) => {
                            lemma_entries_insert_twice(es, k, x, n);
                        },
                        _ => {},
                    }
                },
                OperatorModel::ObjectReplace(n1, _) => {
                    if key_pos(es, k) >= 0 {
                        let pos = key_pos(es, k);
                        let es2 = es.update(pos, (k, n1));
                        assert(is_first_key(es2, k, pos));
                        lemma_key_pos_found(es2, k, pos);
                        match b {
                            OperatorModel::ObjectReplace(n2, _) => {
                                assert(es2.update(pos, (k, n2)) =~= es.update(pos, (k, n2)));
                            },
                            OperatorModel::ObjectDelete(_) => {
                                assert(es2.remove(pos) =~= es.remove(pos));
                            },
                            _ => {},
                        }
                    }
                },
                OperatorModel::SubType(SubTypeName::NumberAdd, xo) => {
                    let x = xo->Number_0;
                    let y = b->SubType_1->Number_0;
                    let w1 = match entries_get(es, k) {
                        Some(Json::Number(m)) => Json::Number((m + x) as i64),
                        _ => xo,
                    };
                    lemma_entries_get_insert(es, k, w1);
                    let w2 = Json::Number((w1->Number_0 + y) as i64);
                    lemma_entries_insert_twice(es, k, w1, w2);
                },
                OperatorModel::SubType(SubTypeName::Text, ta) => {
                    let tb = b->SubType_1;
                    let x0 = entries_get(es, k)->0;
                    let x1 = text_apply_spec(Some(x0), ta)->0->0;
                    lemma_entries_get_insert(es, k, x1);
                    lemma_text_merge(x0, ta, tb);
                    let x2 = text_apply_spec(Some(x1), tb)->0->0;
                    lemma_entries_insert_twice(es, k, x1, x2);
                },
                _ => {},
            }
        },
        _ => {
            match a {
                OperatorModel::SubType(SubTypeName::Text, ta) => {
                    lemma_text_merge(pv, ta, b->SubType_1);
                },
                _ => {},
            }
        },
    }
}

/// Setting a key twice leaves the second value, as setting it once does.
proof fn lemma_entries_insert_twice(es: Seq<(Seq<char>, Json)>, k: Seq<char>, x: Json, y: Json)
    ensures
        entries_insert(entries_insert(es, k, x), k, y) == entries_insert(es, k, y),
{
    lemma_key_pos_range(es, k);
    let es2 = entries_insert(es, k, x);
    if key_pos(es, k) >= 0 {
        let pos = key_pos(es, k);
        assert(is_first_key(es2, k, pos));
        lemma_key_pos_found(es2, k, pos);
        assert(es2.update(pos, (k, y)) =~= es.update(pos, (k, y)));
    } else {
        assert(is_first_key(es2, k, es.len() as int));
        lemma_key_pos_found(es2, k, es.len() as int);
        assert(es2.update(es.len() as int, (k, y)) =~= es.push((k, y)));
    }
}

/// Applying `s` with `x` added at the end applies `s`, then `x`.
proof fn lemma_apply_push(v: Json, s: Seq<ComponentModel>, x: ComponentModel)
    ensures
        apply_components_spec(v, s.push(x)) == match apply_components_spec(v, s) {
            Ok(w) => match apply_spec(w, x.path, x.op) {
                Ok(w2) => Ok::<Json, (ApplyFault, Json)>(w2),
                Err(f) => Err((f, w)),
            },
            Err(e) => Err(e),
        },
{
    assert(s.push(x).drop_last() =~= s);
    assert(s.push(x).last() == x);
}

/// A merge of `c` into the last component of `ops`, where appending makes one,
/// applies as the two do in turn after `ops` without its last component (as
/// `merge_applies` says).
pub open spec fn merge_keeps(v: Json, ops: Seq<ComponentModel>, c: ComponentModel) -> bool {
    ops.len() > 0 && ops.last().path == c.path && merge_spec(ops.last().op, c.op) is Some ==> (value_at(
        apply_components_spec(v, ops.drop_last())->Ok_0,
        c.path.drop_last(),
    ) matches Some(pv) && merge_applies(pv, c.path.last(), ops.last().op, c.op))
}

/// Appending a component to an operation keeps what the operation does: where
/// applying the operation and then the component succeeds, applying the result
/// of appending gives the same document, provided that a merge with the last
/// component applies as the two do in turn (as `merge_keeps` says).
#[verifier::spinoff_prover]
#[verifier::rlimit(40)]
pub proof fn law_append_applies_in_sequence(v: Json, ops: Seq<ComponentModel>, c: ComponentModel)
    requires
        c.path.len() > 0,
        apply_components_spec(v, ops.push(c)) is Ok,
        merge_keeps(v, ops, c),
    ensures
        apply_components_spec(v, append_spec(ops, c)) == apply_components_spec(v, ops.push(c)),
{
    lemma_apply_push(v, ops, c);
    let w = apply_components_spec(v, ops)->Ok_0;
    let q = c.path.drop_last();
    let l = c.path.last();
    assert(c.path =~= q.push(l));
    if is_move_in_place(c) {
        lemma_apply_needs_parent(w, q, l, c.path, c.op);
        lemma_apply_at(w, q, l, c.path, c.op);
        lemma_replace_same(w, q);
    } else if ops.len() == 0 {
        assert(append_spec(ops, c) =~= ops.push(c));
    } else if ops.last().path == c.path && merge_spec(ops.last().op, c.op) is Some {
        let last = ops.last();
        let rest = ops.drop_last();
        assert(ops =~= rest.push(last));
        lemma_apply_push(v, rest, last);
        let w0 = apply_components_spec(v, rest)->Ok_0;
        let pv = value_at(w0, q)->0;
        lemma_apply_at(w0, q, l, last.path, last.op);
        let pw = apply_here_spec(pv, seq![l], last.op)->Ok_0;
        lemma_replace_at(w0, q, pw, pw);
        lemma_apply_at(w, q, l, c.path, c.op);
        let pw2 = apply_here_spec(pw, seq![l], c.op)->Ok_0;
        lemma_replace_at(w0, q, pw, pw2);
        lemma_merge_here(pv, l, last.op, c.op);
        let n = merge_spec(last.op, c.op)->0;
        if n is Noop {
            lemma_replace_same(w0, q);
        } else {
            let m = ComponentModel { path: last.path, op: n };
            lemma_apply_push(v, rest, m);
            lemma_apply_at(w0, q, l, m.path, m.op);
        }
    }
}

// ---------------------------------------------------------------------------
// Concurrent moves.

/// A move of the element `f` of the list at `q` to `t`.
pub open spec fn list_move(q: Seq<PathKey>, f: usize, t: usize) -> ComponentModel {
    ComponentModel { path: q.push(PathKey::Index(f)), op: OperatorModel::ListMove(t) }
}

/// Where an insertion at `i` lands after the element `f` moved to `t`.
pub open spec fn insert_after_move(i: usize, f: usize, t: usize) -> int {
    i - (if i > f { 1int } else { 0int }) + (if i > t { 1int } else { 0int })
}

/// Where an index `n` lands after an insertion at `i`.
pub open spec fn index_after_insert(n: usize, i: usize) -> int {
    if i <= n {
        n + 1
    } else {
        n as int
    }
}

proof fn lemma_transform_insert_move(q: Seq<PathKey>, i: usize, x: Json, f: usize, t: usize, r1: bool, r2: bool)
    requires
        i < usize::MAX,
        f < usize::MAX,
        t < usize::MAX,
    ensures
        transform_component_spec(list_edit(q, true, i, x), list_move(q, f, t), r1) == Some(
            seq![list_edit(q, true, insert_after_move(i, f, t) as usize, x)],
        ),
        transform_component_spec(list_move(q, f, t), list_edit(q, true, i, x), r2) == Some(
            seq![
                if f == t {
                    list_move(q, f, t)
                } else {
                    list_move(q, index_after_insert(f, i) as usize, index_after_insert(t, i) as usize)
                },
            ],
        ),
{
    reveal(transform_component_spec);
    let ins = list_edit(q, true, i, x);
    let mv = list_move(q, f, t);
    let n: int = if i == f {
        q.len() + 1int
    } else {
        q.len() as int
    };
    assert(is_common_prefix_len(mv.path, ins.path, n));
    assert(is_common_prefix_len(ins.path, mv.path, n));
    lemma_common_len_unique(mv.path, ins.path, n);
    lemma_common_len_unique(ins.path, mv.path, n);
    if i == f {
        assert(mv.path =~= ins.path);
    } else {
        assert(!mv.path.is_prefix_of(ins.path)) by {
            assert(mv.path[q.len() as int] != ins.path[q.len() as int]);
        }
        assert(!ins.path.is_prefix_of(mv.path)) by {
            assert(mv.path[q.len() as int] != ins.path[q.len() as int]);
        }
    }
    let qi = q.len() as int;
    let ia = insert_after_move(i, f, t) as usize;
    assert(list_edit(q, true, ia, x).path =~= ins.path.update(qi, PathKey::Index(ia)));
    if i > f && i > t {
        assert(ins.path.update(qi, PathKey::Index((i - 1) as usize)).update(qi, PathKey::Index(i)) =~= ins.path);
    } else if i > f {
        assert(ins.path.update(qi, PathKey::Index((i - 1) as usize)) =~= list_edit(q, true, ia, x).path);
    } else if i > t {
        assert(ins.path.update(qi, PathKey::Index((i + 1) as usize)) =~= list_edit(q, true, ia, x).path);
    }
    let fb = index_after_insert(f, i) as usize;
    assert(list_move(q, fb, t).path =~= mv.path.update(qi, PathKey::Index(fb)));
}

proof fn lemma_move_insert_commute(items: Seq<Json>, i: int, x: Json, f: int, t: int)
    requires
        0 <= i <= items.len(),
        0 <= f < items.len(),
        0 <= t < items.len(),
        f != t,
    ensures
        ({
            let e = items[f];
            let ia = i - (if i > f { 1int } else { 0int }) + (if i > t { 1int } else { 0int });
            let fb = if i <= f { f + 1 } else { f };
            let tb = if i <= t { t + 1 } else { t };
            items.remove(f).insert(t, e).insert(ia, x) == items.insert(i, x).remove(fb).insert(tb, e)
        }),
{
    let e = items[f];
    let ia = i - (if i > f { 1int } else { 0int }) + (if i > t { 1int } else { 0int });
    let fb = if i <= f { f + 1 } else { f };
    let tb = if i <= t { t + 1 } else { t };
    let a = items.remove(f).insert(t, e).insert(ia, x);
    let b = items.insert(i, x).remove(fb).insert(tb, e);
    assert(a.len() == b.len());
    assert forall|k: int| 0 <= k < a.len() implies a[k] == b[k] by {
        if i <= f && i <= t {
            if f < t {
                if k < i {} else if k == i {} else if k <= f {} else if k <= t {} else if k == t + 1 {} else {}
            } else {
                if k < i {} else if k == i {} else if k <= t {} else if k == t + 1 {} else if k <= f + 1 {} else {}
            }
        } else if i > f && i > t {
            if f < t {
                if k < f {} else if k < t {} else if k == t {} else if k < i {} else if k == i {} else {}
            } else {
                if k < t {} else if k == t {} else if k <= f {} else if k < i {} else if k == i {} else {}
            }
        } else if i > f {
            if k < f {} else if k < i - 1 {} else if k == i - 1 {} else if k <= t {} else if k == t + 1 {} else {}
        } else {
            if k < t {} else if k == t {} else if k < i + 1 {} else if k == i + 1 {} else if k <= f + 1 {} else {}
        }
    }
    assert(a =~= b);
}

/// The list that a move makes of `items`.
#[verifier::opaque]
pub open spec fn moved(items: Seq<Json>, f: usize, t: usize) -> Seq<Json> {
    if f == t {
        items
    } else {
        items.remove(f as int).insert(t as int, items[f as int])
    }
}

proof fn lemma_apply_list_move(v: Json, q: Seq<PathKey>, items: Seq<Json>, f: usize, t: usize)
    requires
        value_at(v, q) == Some(Json::Array(items)),
        f < items.len(),
        t < items.len(),
    ensures
        apply_spec(v, list_move(q, f, t).path, list_move(q, f, t).op) == Ok::<Json, ApplyFault>(
            replace_at(v, q, Json::Array(moved(items, f, t))),
        ),
{
    reveal(moved);
    let c = list_move(q, f, t);
    lemma_apply_at(v, q, PathKey::Index(f), c.path, c.op);
    if f == t {
        lemma_replace_same(v, q);
    }
}

/// A concurrent insertion into a list and move of one of its elements converge:
/// transformed against each other, applying either one and then the other
/// transformed gives the same document.
#[verifier::spinoff_prover]
#[verifier::rlimit(40)]
pub proof fn law_insert_and_move_converge(v: Json, q: Seq<PathKey>, i: usize, x: Json, f: usize, t: usize)
    requires
        value_at(v, q) matches Some(Json::Array(items)) && i <= items.len() && f < items.len() && t < items.len()
            && items.len() < usize::MAX,
    ensures
        transform_spec(seq![list_edit(q, true, i, x)], seq![list_move(q, f, t)]) matches Some((a, b)) && {
            &&& apply_components_spec(v, seq![list_move(q, f, t)] + a) is Ok
            &&& apply_components_spec(v, seq![list_move(q, f, t)] + a) == apply_components_spec(
                v,
                seq![list_edit(q, true, i, x)] + b,
            )
        },
{
    reveal(moved);
    let items = value_at(v, q)->0->Array_0;
    let ins = list_edit(q, true, i, x);
    let mv = list_move(q, f, t);
    lemma_transform_insert_move(q, i, x, f, t, false, true);
    let ia = insert_after_move(i, f, t) as usize;
    let mb = if f == t {
        mv
    } else {
        list_move(q, index_after_insert(f, i) as usize, index_after_insert(t, i) as usize)
    };
    let a = seq![list_edit(q, true, ia, x)];
    let b = seq![mb];
    assert(transform_spec(seq![ins], seq![mv]) == Some((a, b)));
    assert(seq![mv] + a =~= seq![mv, a[0]]);
    assert(seq![ins] + b =~= seq![ins, b[0]]);
    let ml = moved(items, f, t);
    let il = edited(items, true, i, x);
    lemma_apply_list_move(v, q, items, f, t);
    lemma_apply_list_edit(v, q, items, true, i, x);
    let vm = replace_at(v, q, Json::Array(ml));
    let vi = replace_at(v, q, Json::Array(il));
    lemma_apply_two(v, mv, a[0]);
    lemma_apply_two(v, ins, b[0]);
    let fb = mb.path.last()->Index_0;
    let tb = mb.op->ListMove_0;
    lemma_replace_at(v, q, Json::Array(ml), Json::Array(edited(ml, true, ia, x)));
    lemma_replace_at(v, q, Json::Array(il), Json::Array(moved(il, fb, tb)));
    lemma_apply_list_edit(vm, q, ml, true, ia, x);
    assert(mb.path =~= list_move(q, fb, tb).path);
    lemma_apply_list_move(vi, q, il, fb, tb);
    if f == t {
        assert(edited(ml, true, ia, x) =~= moved(il, fb, tb));
    } else {
        lemma_move_insert_commute(items, i as int, x, f as int, t as int);
        assert(il[fb as int] == items[f as int]);
    }
}

/// Where the source of a move lands after the deletion of element `j`.
pub open spec fn from_after_delete(f: usize, j: usize) -> int {
    if j < f {
        f - 1
    } else {
        f as int
    }
}

/// Where the target of a move from `f` lands after the deletion of element `j`.
pub open spec fn to_after_delete(f: usize, t: usize, j: usize) -> int {
    if j < t || (j == t && f < t) {
        t - 1
    } else {
        t as int
    }
}

/// Where a deletion of element `j` lands after the element `f` moved to `t`.
pub open spec fn delete_after_move(j: usize, f: usize, t: usize) -> int {
    if j == f {
        t as int
    } else {
        j - (if f < j { 1int } else { 0int }) + (if t < j || (j == t && t < f) { 1int } else { 0int })
    }
}

proof fn lemma_transform_move_delete(q: Seq<PathKey>, f: usize, t: usize, j: usize, y: Json, r1: bool, r2: bool)
    requires
        f < usize::MAX,
        t < usize::MAX,
        j < usize::MAX,
    ensures
        transform_component_spec(list_move(q, f, t), list_edit(q, false, j, y), r1) == Some(
            if f == t {
                seq![list_move(q, f, t)]
            } else if j == f {
                Seq::empty()
            } else {
                seq![list_move(q, from_after_delete(f, j) as usize, to_after_delete(f, t, j) as usize)]
            },
        ),
        transform_component_spec(list_edit(q, false, j, y), list_move(q, f, t), r2) == Some(
            if f == t {
                seq![list_edit(q, false, j, y)]
            } else {
                seq![list_edit(q, false, delete_after_move(j, f, t) as usize, y)]
            },
        ),
{
    reveal(transform_component_spec);
    let del = list_edit(q, false, j, y);
    let mv = list_move(q, f, t);
    let n: int = if j == f {
        q.len() + 1int
    } else {
        q.len() as int
    };
    assert(is_common_prefix_len(mv.path, del.path, n));
    assert(is_common_prefix_len(del.path, mv.path, n));
    lemma_common_len_unique(mv.path, del.path, n);
    lemma_common_len_unique(del.path, mv.path, n);
    if j == f {
        assert(mv.path =~= del.path);
    } else {
        assert(!mv.path.is_prefix_of(del.path)) by {
            assert(mv.path[q.len() as int] != del.path[q.len() as int]);
        }
        assert(!del.path.is_prefix_of(mv.path)) by {
            assert(mv.path[q.len() as int] != del.path[q.len() as int]);
        }
    }
    let qi = q.len() as int;
    let fa = from_after_delete(f, j) as usize;
    let jb = delete_after_move(j, f, t) as usize;
    assert(list_move(q, fa, t).path =~= mv.path.update(qi, PathKey::Index(fa)));
    assert(list_edit(q, false, jb, y).path =~= del.path.update(qi, PathKey::Index(jb)));
    if f < j && (t < j || (j == t && t < f)) {
        assert(del.path.update(qi, PathKey::Index((j - 1) as usize)).update(qi, PathKey::Index(j)) =~= del.path);
    }
}

proof fn lemma_move_delete_commute(items: Seq<Json>, f: int, t: int, j: int)
    requires
        0 <= f < items.len(),
        0 <= t < items.len(),
        0 <= j < items.len(),
        f != t,
        j != f,
    ensures
        ({
            let e = items[f];
            let fa = if j < f { f - 1 } else { f };
            let ta = if j < t || (j == t && f < t) { t - 1 } else { t };
            let jb = j - (if f < j { 1int } else { 0int }) + (if t < j || (j == t && t < f) { 1int } else { 0int });
            let r = items.remove(j);
            let a = if fa == ta { r } else { r.remove(fa).insert(ta, r[fa]) };
            a == items.remove(f).insert(t, e).remove(jb)
        }),
{
    let e = items[f];
    let fa = if j < f { f - 1 } else { f };
    let ta = if j < t || (j == t && f < t) { t - 1 } else { t };
    let jb = j - (if f < j { 1int } else { 0int }) + (if t < j || (j == t && t < f) { 1int } else { 0int });
    let r = items.remove(j);
    assert(r[fa] == e);
    let a = if fa == ta { r } else { r.remove(fa).insert(ta, r[fa]) };
    let b = items.remove(f).insert(t, e).remove(jb);
    assert(a.len() == b.len());
    assert forall|k: int| 0 <= k < a.len() implies a[k] == b[k] by {
        if f < t {
            if j < f {
                if k < j {} else if k < f - 1 {} else if k < t - 1 {} else if k == t - 1 {} else {}
            } else if j <= t {
                if k < f {} else if k < j - 1 {} else if k < t - 1 {} else if k == t - 1 {} else {}
            } else {
                if k < f {} else if k < t {} else if k == t {} else if k < j - 1 {} else {}
            }
        } else {
            if j < t {
                if k < j {} else if k < t - 1 {} else if k == t - 1 {} else if k < f {} else {}
            } else if j < f {
                if k < t {} else if k == t {} else if k < j {} else if k < f {} else {}
            } else {
                if k < t {} else if k == t {} else if k <= f {} else if k < j {} else {}
            }
        }
    }
    assert(a =~= b);
}

/// A concurrent move of an element of a list and deletion of an element of the
/// same list converge: transformed against each other, applying either one and
/// then the other transformed gives the same document.
#[verifier::spinoff_prover]
#[verifier::rlimit(40)]
pub proof fn law_move_and_delete_converge(v: Json, q: Seq<PathKey>, f: usize, t: usize, j: usize, y: Json)
    requires
        value_at(v, q) matches Some(Json::Array(items)) && f < items.len() && t < items.len() && j < items.len()
            && items.len() < usize::MAX,
    ensures
        transform_spec(seq![list_move(q, f, t)], seq![list_edit(q, false, j, y)]) matches Some((a, b)) && {
            &&& apply_components_spec(v, seq![list_edit(q, false, j, y)] + a) is Ok
            &&& apply_components_spec(v, seq![list_edit(q, false, j, y)] + a) == apply_components_spec(
                v,
                seq![list_move(q, f, t)] + b,
            )
        },
{
    reveal(moved);
    let items = value_at(v, q)->0->Array_0;
    let del = list_edit(q, false, j, y);
    let mv = list_move(q, f, t);
    lemma_transform_move_delete(q, f, t, j, y, false, true);
    let a = transform_component_spec(mv, del, false)->0;
    let b = transform_component_spec(del, mv, true)->0;
    assert(transform_spec(seq![mv], seq![del]) == Some((a, b)));
    let r = edited(items, false, j, y);
    let ml = moved(items, f, t);
    lemma_apply_list_edit(v, q, items, false, j, y);
    lemma_apply_list_move(v, q, items, f, t);
    let vr = replace_at(v, q, Json::Array(r));
    let vm = replace_at(v, q, Json::Array(ml));
    assert(seq![mv] + b =~= seq![mv, b[0]]);
    lemma_apply_two(v, mv, b[0]);
    if f == t {
        assert(seq![del] + a =~= seq![del, a[0]]);
        lemma_apply_two(v, del, a[0]);
        lemma_replace_at(v, q, Json::Array(r), Json::Array(moved(r, f, t)));
        lemma_apply_at(vr, q, PathKey::Index(f), a[0].path, a[0].op);
        lemma_replace_at(v, q, Json::Array(ml), Json::Array(edited(ml, false, j, y)));
        lemma_apply_list_edit(vm, q, ml, false, j, y);
        lemma_replace_at(v, q, Json::Array(r), Json::Array(r));
        lemma_replace_same(vr, q);
    } else {
        let jb = delete_after_move(j, f, t) as usize;
        lemma_replace_at(v, q, Json::Array(ml), Json::Array(edited(ml, false, jb, y)));
        lemma_apply_list_edit(vm, q, ml, false, jb, y);
        if j == f {
            assert(seq![del] + a =~= seq![del]);
            lemma_apply_one(v, del);
            assert(r =~= edited(ml, false, jb, y));
        } else {
            let fa = from_after_delete(f, j) as usize;
            let ta = to_after_delete(f, t, j) as usize;
            assert(seq![del] + a =~= seq![del, a[0]]);
            lemma_apply_two(v, del, a[0]);
            lemma_replace_at(v, q, Json::Array(r), Json::Array(moved(r, fa, ta)));
            lemma_apply_list_move(vr, q, r, fa, ta);
            lemma_move_delete_commute(items, f as int, t as int, j as int);
        }
    }
}

/// The index in a list, before the element `f` moved to `t`, of the element
/// found at `k` after the move.
pub open spec fn moved_from(f: int, t: int, k: int) -> int {
    if f < t {
        if f <= k < t {
            k + 1
        } else if k == t {
            f
        } else {
            k
        }
    } else if t < f {
        if k == t {
            f
        } else if t < k <= f {
            k - 1
        } else {
            k
        }
    } else {
        k
    }
}

/// The element found at `k` after a move is the one at `moved_from` before it.
proof fn lemma_moved_from(items: Seq<Json>, f: usize, t: usize)
    requires
        f < items.len(),
        t < items.len(),
    ensures
        moved(items, f, t).len() == items.len(),
        forall|k: int|
            0 <= k < items.len() ==> 0 <= moved_from(f as int, t as int, k) < items.len() && #[trigger] moved(
                items,
                f,
                t,
            )[k] == items[moved_from(f as int, t as int, k)],
{
    reveal(moved);
}

/// Where the source of the move from `f` to `t` lands after the move from `g` to
/// `u`.
pub open spec fn from_after_move(f: int, g: int, u: int) -> int {
    f - (if g < f { 1int } else { 0int }) + (if u < f || (f == u && u < g) { 1int } else { 0int })
}

/// Where the target `t` of the move from `f` lands after the move from `g` to `u`.
pub open spec fn to_after_move(t: int, f: int, g: int, u: int, right: bool) -> int {
    let n2 = if g < t || (t == g && f < t) {
        t - 1
    } else {
        t
    };
    if u < t {
        n2 + 1
    } else if t == u {
        if (g < u && f < t) || (u < g && t < f) {
            if right {
                n2 + 1
            } else {
                n2
            }
        } else if f < t {
            n2 + 1
        } else if t == g {
            n2 - 1
        } else {
            n2
        }
    } else {
        n2
    }
}

proof fn lemma_moves_commute_at(len: int, f: int, t: int, g: int, u: int, k: int)
    requires
        0 <= f < len,
        0 <= t < len,
        0 <= g < len,
        0 <= u < len,
        f != t,
        g != u,
        f != g,
        0 <= k < len,
    ensures
        0 <= from_after_move(f, g, u) < len,
        0 <= to_after_move(t, f, g, u, false) < len,
        0 <= from_after_move(g, f, t) < len,
        0 <= to_after_move(u, g, f, t, true) < len,
        moved_from(g, u, moved_from(from_after_move(f, g, u), to_after_move(t, f, g, u, false), k)) == moved_from(
            f,
            t,
            moved_from(from_after_move(g, f, t), to_after_move(u, g, f, t, true), k),
        ),
{
}

/// What the move from `f` to `t` becomes after the move from `g` to `u` of the
/// same list (`right`: it gives way where both move the same element).
pub open spec fn move_after_move(q: Seq<PathKey>, f: usize, t: usize, g: usize, u: usize, right: bool) -> Seq<
    ComponentModel,
> {
    if f == t || g == u {
        seq![list_move(q, f, t)]
    } else if f == g {
        if t == u || right {
            Seq::empty()
        } else {
            seq![list_move(q, u, t)]
        }
    } else {
        seq![
            list_move(
                q,
                from_after_move(f as int, g as int, u as int) as usize,
                to_after_move(t as int, f as int, g as int, u as int, right) as usize,
            ),
        ]
    }
}

proof fn lemma_transform_moves(q: Seq<PathKey>, f: usize, t: usize, g: usize, u: usize, len: int, right: bool)
    requires
        f < len,
        t < len,
        g < len,
        u < len,
        len < usize::MAX,
    ensures
        transform_component_spec(list_move(q, f, t), list_move(q, g, u), right) == Some(
            move_after_move(q, f, t, g, u, right),
        ),
{
    if f == t || g == u {
        lemma_transform_moves_in_place(q, f, t, g, u, right);
    } else if f == g {
        lemma_transform_moves_same(q, f, t, u, right);
    } else {
        lemma_transform_moves_apart(q, f, t, g, u, len, right);
    }
}

proof fn lemma_transform_moves_in_place(q: Seq<PathKey>, f: usize, t: usize, g: usize, u: usize, right: bool)
    requires
        f == t || g == u,
    ensures
        transform_component_spec(list_move(q, f, t), list_move(q, g, u), right) == Some(
            move_after_move(q, f, t, g, u, right),
        ),
{
    reveal(transform_component_spec);
}

proof fn lemma_transform_moves_same(q: Seq<PathKey>, f: usize, t: usize, u: usize, right: bool)
    requires
        f != t,
        f != u,
    ensures
        transform_component_spec(list_move(q, f, t), list_move(q, f, u), right) == Some(
            move_after_move(q, f, t, f, u, right),
        ),
{
    reveal(transform_component_spec);
    let nw = list_move(q, f, t);
    let bs = list_move(q, f, u);
    assert(is_common_prefix_len(bs.path, nw.path, nw.path.len() as int));
    lemma_common_len_unique(bs.path, nw.path, nw.path.len() as int);
    assert(bs.path =~= nw.path);
    assert(nw.path.update(q.len() as int, PathKey::Index(u)) =~= list_move(q, u, t).path);
}

proof fn lemma_transform_moves_apart(q: Seq<PathKey>, f: usize, t: usize, g: usize, u: usize, len: int, right: bool)
    requires
        f < len,
        t < len,
        g < len,
        u < len,
        len < usize::MAX,
        f != t,
        g != u,
        f != g,
    ensures
        transform_component_spec(list_move(q, f, t), list_move(q, g, u), right) == Some(
            move_after_move(q, f, t, g, u, right),
        ),
{
    reveal(transform_component_spec);
    let nw = list_move(q, f, t);
    let bs = list_move(q, g, u);
    let qi = q.len() as int;
    assert(is_common_prefix_len(bs.path, nw.path, qi));
    lemma_common_len_unique(bs.path, nw.path, qi);
    assert(!bs.path.is_prefix_of(nw.path)) by {
        assert(bs.path[qi] != nw.path[qi]);
    }
    assert(0 <= to_after_move(t as int, f as int, g as int, u as int, right) < len) by {
        lemma_moves_commute_at(len, f as int, t as int, g as int, u as int, 0);
        lemma_moves_commute_at(len, g as int, u as int, f as int, t as int, 0);
    }
    let fa = from_after_move(f as int, g as int, u as int) as usize;
    assert(list_move(q, fa, 0).path =~= nw.path.update(qi, PathKey::Index(fa)));
    if g < f && (u < f || (f == u && u < g)) {
        assert(nw.path.update(qi, PathKey::Index((f - 1) as usize)).update(qi, PathKey::Index(f)) =~= nw.path);
    }
}

proof fn lemma_move_twice(items: Seq<Json>, f: usize, u: usize, t: usize)
    requires
        f < items.len(),
        u < items.len(),
        t < items.len(),
    ensures
        moved(moved(items, f, u), u, t) == moved(items, f, t),
{
    lemma_moved_from(items, f, u);
    lemma_moved_from(moved(items, f, u), u, t);
    lemma_moved_from(items, f, t);
    assert(moved(moved(items, f, u), u, t) =~= moved(items, f, t));
}

proof fn lemma_moves_commute(items: Seq<Json>, f: usize, t: usize, g: usize, u: usize)
    requires
        f < items.len(),
        t < items.len(),
        g < items.len(),
        u < items.len(),
        f != t,
        g != u,
        f != g,
    ensures
        ({
            let fa = from_after_move(f as int, g as int, u as int) as usize;
            let ta = to_after_move(t as int, f as int, g as int, u as int, false) as usize;
            let gb = from_after_move(g as int, f as int, t as int) as usize;
            let ub = to_after_move(u as int, g as int, f as int, t as int, true) as usize;
            &&& fa < items.len() && ta < items.len() && gb < items.len() && ub < items.len()
            &&& moved(moved(items, g, u), fa, ta) == moved(moved(items, f, t), gb, ub)
        }),
{
    let len = items.len() as int;
    lemma_moves_commute_at(len, f as int, t as int, g as int, u as int, 0);
    let fa = from_after_move(f as int, g as int, u as int) as usize;
    let ta = to_after_move(t as int, f as int, g as int, u as int, false) as usize;
    let gb = from_after_move(g as int, f as int, t as int) as usize;
    let ub = to_after_move(u as int, g as int, f as int, t as int, true) as usize;
    let mg = moved(items, g, u);
    let mf = moved(items, f, t);
    lemma_moved_from(items, g, u);
    lemma_moved_from(items, f, t);
    lemma_moved_from(mg, fa, ta);
    lemma_moved_from(mf, gb, ub);
    assert forall|k: int| 0 <= k < len implies moved(mg, fa, ta)[k] == moved(mf, gb, ub)[k] by {
        lemma_moves_commute_at(len, f as int, t as int, g as int, u as int, k);
    }
    assert(moved(mg, fa, ta) =~= moved(mf, gb, ub));
}

/// Concurrent moves of elements of the same list converge: transformed against
/// each other, applying either one and then the other transformed gives the same
/// document.
#[verifier::spinoff_prover]
#[verifier::rlimit(40)]
pub proof fn law_moves_converge(v: Json, q: Seq<PathKey>, f: usize, t: usize, g: usize, u: usize)
    requires
        value_at(v, q) matches Some(Json::Array(items)) && f < items.len() && t < items.len() && g < items.len()
            && u < items.len() && items.len() < usize::MAX,
    ensures
        transform_spec(seq![list_move(q, f, t)], seq![list_move(q, g, u)]) matches Some((a, b)) && {
            &&& apply_components_spec(v, seq![list_move(q, g, u)] + a) is Ok
            &&& apply_components_spec(v, seq![list_move(q, g, u)] + a) == apply_components_spec(
                v,
                seq![list_move(q, f, t)] + b,
            )
        },
{
    let items = value_at(v, q)->0->Array_0;
    let len = items.len() as int;
    let nw = list_move(q, f, t);
    let bs = list_move(q, g, u);
    lemma_transform_moves(q, f, t, g, u, len, false);
    lemma_transform_moves(q, g, u, f, t, len, true);
    let a = move_after_move(q, f, t, g, u, false);
    let b = move_after_move(q, g, u, f, t, true);
    assert(transform_spec(seq![nw], seq![bs]) == Some((a, b)));
    let mg = moved(items, g, u);
    let mf = moved(items, f, t);
    lemma_moved_from(items, g, u);
    lemma_moved_from(items, f, t);
    lemma_apply_list_move(v, q, items, g, u);
    lemma_apply_list_move(v, q, items, f, t);
    let vg = replace_at(v, q, Json::Array(mg));
    let vf = replace_at(v, q, Json::Array(mf));
    if a.len() == 1 && b.len() == 1 {
        let fa = a[0].path.last()->Index_0;
        let ta = a[0].op->ListMove_0;
        let gb = b[0].path.last()->Index_0;
        let ub = b[0].op->ListMove_0;
        assert(a[0] == list_move(q, fa, ta)) by {
            assert(a[0].path =~= list_move(q, fa, ta).path);
        }
        assert(b[0] == list_move(q, gb, ub)) by {
            assert(b[0].path =~= list_move(q, gb, ub).path);
        }
        if f == t || g == u {
            assert(fa == f && ta == t && gb == g && ub == u);
            reveal(moved);
            assert(moved(mg, f, t) =~= moved(mf, g, u));
        } else {
            lemma_moves_commute(items, f, t, g, u);
        }
        assert(seq![bs] + a =~= seq![bs, a[0]]);
        assert(seq![nw] + b =~= seq![nw, b[0]]);
        lemma_apply_two(v, bs, a[0]);
        lemma_apply_two(v, nw, b[0]);
        lemma_replace_at(v, q, Json::Array(mg), Json::Array(moved(mg, fa, ta)));
        lemma_replace_at(v, q, Json::Array(mf), Json::Array(moved(mf, gb, ub)));
        lemma_apply_list_move(vg, q, mg, fa, ta);
        lemma_apply_list_move(vf, q, mf, gb, ub);
    } else if a.len() == 1 {
        // the same element moved to different places: the left move wins
        assert(f == g && t != u);
        assert(seq![bs] + a =~= seq![bs, a[0]]);
        assert(seq![nw] + b =~= seq![nw]);
        lemma_apply_two(v, bs, a[0]);
        lemma_apply_one(v, nw);
        assert(a[0] == list_move(q, u, t));
        lemma_replace_at(v, q, Json::Array(mg), Json::Array(moved(mg, u, t)));
        lemma_apply_list_move(vg, q, mg, u, t);
        lemma_move_twice(items, f, u, t);
    } else {
        assert(f == g && t == u);
        assert(seq![bs] + a =~= seq![bs]);
        assert(seq![nw] + b =~= seq![nw]);
        lemma_apply_one(v, bs);
        lemma_apply_one(v, nw);
    }
}

/// A concurrent move of an element of a list and insertion into the list
/// converge, with the move on the left side as well.
pub proof fn law_move_and_insert_converge(v: Json, q: Seq<PathKey>, f: usize, t: usize, i: usize, x: Json)
    requires
        value_at(v, q) matches Some(Json::Array(items)) && i <= items.len() && f < items.len() && t < items.len()
            && items.len() < usize::MAX,
    ensures
        transform_spec(seq![list_move(q, f, t)], seq![list_edit(q, true, i, x)]) matches Some((a, b)) && {
            &&& apply_components_spec(v, seq![list_edit(q, true, i, x)] + a) is Ok
            &&& apply_components_spec(v, seq![list_edit(q, true, i, x)] + a) == apply_components_spec(
                v,
                seq![list_move(q, f, t)] + b,
            )
        },
{
    law_insert_and_move_converge(v, q, i, x, f, t);
    lemma_transform_insert_move(q, i, x, f, t, false, true);
    lemma_transform_insert_move(q, i, x, f, t, true, false);
}

/// A concurrent deletion of an element of a list and move of an element of the
/// list converge, with the deletion on the left side as well.
pub proof fn law_delete_and_move_converge(v: Json, q: Seq<PathKey>, j: usize, y: Json, f: usize, t: usize)
    requires
        value_at(v, q) matches Some(Json::Array(items)) && f < items.len() && t < items.len() && j < items.len()
            && items.len() < usize::MAX,
    ensures
        transform_spec(seq![list_edit(q, false, j, y)], seq![list_move(q, f, t)]) matches Some((a, b)) && {
            &&& apply_components_spec(v, seq![list_move(q, f, t)] + a) is Ok
            &&& apply_components_spec(v, seq![list_move(q, f, t)] + a) == apply_components_spec(
                v,
                seq![list_edit(q, false, j, y)] + b,
            )
        },
{
    law_move_and_delete_converge(v, q, f, t, j, y);
    lemma_transform_move_delete(q, f, t, j, y, false, true);
    lemma_transform_move_delete(q, f, t, j, y, true, false);
}

// ---------------------------------------------------------------------------
// Concurrent replacements of list elements.

/// A replacement of the element `i` of the list at `q`: `n` takes the place of `o`.
pub open spec fn list_replace(q: Seq<PathKey>, i: usize, n: Json, o: Json) -> ComponentModel {
    ComponentModel { path: q.push(PathKey::Index(i)), op: OperatorModel::ListReplace(n, o) }
}

/// Where the element `i` lands after the element `f` moved to `t`.
pub open spec fn index_after_move(i: usize, f: usize, t: usize) -> int {
    if i == f {
        t as int
    } else {
        i - (if i > f { 1int } else { 0int }) + (if i > t || (i == t && f > t) { 1int } else { 0int })
    }
}

proof fn lemma_transform_replace_insert(q: Seq<PathKey>, i: usize, n: Json, o: Json, j: usize, y: Json, r1: bool, r2: bool)
    requires
        i < usize::MAX,
        !json_eq(n, o),
    ensures
        transform_component_spec(list_replace(q, i, n, o), list_edit(q, true, j, y), r1) == Some(
            seq![list_replace(q, index_after_insert(i, j) as usize, n, o)],
        ),
        transform_component_spec(list_edit(q, true, j, y), list_replace(q, i, n, o), r2) == Some(
            seq![list_edit(q, true, j, y)],
        ),
{
    reveal(transform_component_spec);
    let rp = list_replace(q, i, n, o);
    let ins = list_edit(q, true, j, y);
    let c: int = if i == j {
        q.len() + 1int
    } else {
        q.len() as int
    };
    assert(is_common_prefix_len(rp.path, ins.path, c));
    assert(is_common_prefix_len(ins.path, rp.path, c));
    lemma_common_len_unique(rp.path, ins.path, c);
    lemma_common_len_unique(ins.path, rp.path, c);
    if i == j {
        assert(rp.path =~= ins.path);
    } else {
        assert(!rp.path.is_prefix_of(ins.path)) by {
            assert(rp.path[q.len() as int] != ins.path[q.len() as int]);
        }
        assert(!ins.path.is_prefix_of(rp.path)) by {
            assert(rp.path[q.len() as int] != ins.path[q.len() as int]);
        }
    }
    assert(rp.path.update(q.len() as int, PathKey::Index((i + 1) as usize)) =~= list_replace(
        q,
        (i + 1) as usize,
        n,
        o,
    ).path);
}

proof fn lemma_transform_replace_delete(q: Seq<PathKey>, i: usize, n: Json, o: Json, j: usize, y: Json, r1: bool, r2: bool)
    requires
        !json_eq(n, o),
    ensures
        transform_component_spec(list_replace(q, i, n, o), list_edit(q, false, j, y), r1) == Some(
            if i == j {
                seq![list_edit(q, true, i, n)]
            } else if j < i {
                seq![list_replace(q, (i - 1) as usize, n, o)]
            } else {
                seq![list_replace(q, i, n, o)]
            },
        ),
        transform_component_spec(list_edit(q, false, j, y), list_replace(q, i, n, o), r2) == Some(
            if i == j {
                Seq::empty()
            } else {
                seq![list_edit(q, false, j, y)]
            },
        ),
{
    reveal(transform_component_spec);
    let rp = list_replace(q, i, n, o);
    let del = list_edit(q, false, j, y);
    let c: int = if i == j {
        q.len() + 1int
    } else {
        q.len() as int
    };
    assert(is_common_prefix_len(rp.path, del.path, c));
    assert(is_common_prefix_len(del.path, rp.path, c));
    lemma_common_len_unique(rp.path, del.path, c);
    lemma_common_len_unique(del.path, rp.path, c);
    if i == j {
        assert(rp.path =~= del.path);
    } else {
        assert(!rp.path.is_prefix_of(del.path)) by {
            assert(rp.path[q.len() as int] != del.path[q.len() as int]);
        }
        assert(!del.path.is_prefix_of(rp.path)) by {
            assert(rp.path[q.len() as int] != del.path[q.len() as int]);
        }
    }
    if j < i {
        assert(rp.path.update(q.len() as int, PathKey::Index((i - 1) as usize)) =~= list_replace(
            q,
            (i - 1) as usize,
            n,
            o,
        ).path);
    }
}

proof fn lemma_transform_replaces(q: Seq<PathKey>, i: usize, n1: Json, o1: Json, j: usize, n2: Json, o2: Json, right: bool)
    requires
        !json_eq(n1, o1),
        !json_eq(n2, o2),
    ensures
        transform_component_spec(list_replace(q, i, n1, o1), list_replace(q, j, n2, o2), right) == Some(
            if i != j {
                seq![list_replace(q, i, n1, o1)]
            } else if right {
                Seq::empty()
            } else {
                seq![list_replace(q, i, n1, n2)]
            },
        ),
{
    reveal(transform_component_spec);
    let r1 = list_replace(q, i, n1, o1);
    let r2 = list_replace(q, j, n2, o2);
    let c: int = if i == j {
        q.len() + 1int
    } else {
        q.len() as int
    };
    assert(is_common_prefix_len(r2.path, r1.path, c));
    lemma_common_len_unique(r2.path, r1.path, c);
    if i == j {
        assert(r1.path =~= r2.path);
    } else {
        assert(!r2.path.is_prefix_of(r1.path)) by {
            assert(r1.path[q.len() as int] != r2.path[q.len() as int]);
        }
    }
}

proof fn lemma_transform_replace_move(q: Seq<PathKey>, i: usize, n: Json, o: Json, f: usize, t: usize, len: int, r1: bool, r2: bool)
    requires
        !json_eq(n, o),
        i < len,
        f < len,
        t < len,
        len < usize::MAX,
    ensures
        transform_component_spec(list_replace(q, i, n, o), list_move(q, f, t), r1) == Some(
            seq![list_replace(q, if f == t { i } else { index_after_move(i, f, t) as usize }, n, o)],
        ),
        transform_component_spec(list_move(q, f, t), list_replace(q, i, n, o), r2) == Some(seq![list_move(q, f, t)]),
{
    reveal(transform_component_spec);
    let rp = list_replace(q, i, n, o);
    let mv = list_move(q, f, t);
    let qi = q.len() as int;
    let c: int = if i == f {
        q.len() + 1int
    } else {
        qi
    };
    assert(is_common_prefix_len(rp.path, mv.path, c));
    assert(is_common_prefix_len(mv.path, rp.path, c));
    lemma_common_len_unique(rp.path, mv.path, c);
    lemma_common_len_unique(mv.path, rp.path, c);
    if i == f {
        assert(rp.path =~= mv.path);
    } else {
        assert(!rp.path.is_prefix_of(mv.path)) by {
            assert(rp.path[qi] != mv.path[qi]);
        }
        assert(!mv.path.is_prefix_of(rp.path)) by {
            assert(rp.path[qi] != mv.path[qi]);
        }
    }
    let ia = index_after_move(i, f, t) as usize;
    assert(list_replace(q, ia, n, o).path =~= rp.path.update(qi, PathKey::Index(ia)));
    if i > f && (i > t || (i == t && f > t)) {
        assert(rp.path.update(qi, PathKey::Index((i - 1) as usize)).update(qi, PathKey::Index(i)) =~= rp.path);
    }
}

proof fn lemma_apply_list_replace(v: Json, q: Seq<PathKey>, items: Seq<Json>, i: usize, n: Json, o: Json)
    requires
        value_at(v, q) == Some(Json::Array(items)),
        i < items.len(),
    ensures
        apply_spec(v, list_replace(q, i, n, o).path, list_replace(q, i, n, o).op) == Ok::<Json, ApplyFault>(
            replace_at(v, q, Json::Array(items.update(i as int, n))),
        ),
{
    let c = list_replace(q, i, n, o);
    lemma_apply_at(v, q, PathKey::Index(i), c.path, c.op);
}

/// The two sequences of two components apply to `v` with the same result.
pub open spec fn converge(v: Json, c1: ComponentModel, a: Seq<ComponentModel>, c2: ComponentModel, b: Seq<
    ComponentModel,
>) -> bool {
    &&& apply_components_spec(v, seq![c1] + a) is Ok
    &&& apply_components_spec(v, seq![c1] + a) == apply_components_spec(v, seq![c2] + b)
}

/// Applying a component at `q` and then, where there is one, a second component
/// there: the results of both as edits of the list at `q`.
proof fn lemma_apply_pair(v: Json, q: Seq<PathKey>, c1: ComponentModel, a: Seq<ComponentModel>, l1: Seq<Json>, l2: Seq<Json>)
    requires
        apply_spec(v, c1.path, c1.op) == Ok::<Json, ApplyFault>(replace_at(v, q, Json::Array(l1))),
        value_at(v, q) is Some,
        a.len() <= 1,
        a.len() == 0 ==> l2 == l1,
        a.len() == 1 ==> apply_spec(replace_at(v, q, Json::Array(l1)), a[0].path, a[0].op) == Ok::<Json, ApplyFault>(
            replace_at(replace_at(v, q, Json::Array(l1)), q, Json::Array(l2)),
        ),
    ensures
        apply_components_spec(v, seq![c1] + a) == Ok::<Json, (ApplyFault, Json)>(replace_at(v, q, Json::Array(l2))),
{
    lemma_replace_at(v, q, Json::Array(l1), Json::Array(l2));
    if a.len() == 0 {
        assert(seq![c1] + a =~= seq![c1]);
        lemma_apply_one(v, c1);
    } else {
        assert(seq![c1] + a =~= seq![c1, a[0]]);
        lemma_apply_two(v, c1, a[0]);
    }
}

/// A concurrent replacement of an element of a list and insertion into the list
/// converge (a replacement by an equal value, which transforms as nothing, left
/// out).
pub proof fn law_replace_and_insert_converge(v: Json, q: Seq<PathKey>, i: usize, n: Json, o: Json, j: usize, y: Json)
    requires
        value_at(v, q) matches Some(Json::Array(items)) && i < items.len() && j <= items.len() && items.len()
            < usize::MAX,
        !json_eq(n, o),
    ensures
        transform_spec(seq![list_replace(q, i, n, o)], seq![list_edit(q, true, j, y)]) matches Some((a, b))
            && converge(v, list_edit(q, true, j, y), a, list_replace(q, i, n, o), b),
        transform_spec(seq![list_edit(q, true, j, y)], seq![list_replace(q, i, n, o)]) matches Some((a, b))
            && converge(v, list_replace(q, i, n, o), a, list_edit(q, true, j, y), b),
{
    let items = value_at(v, q)->0->Array_0;
    let rp = list_replace(q, i, n, o);
    let ins = list_edit(q, true, j, y);
    lemma_transform_replace_insert(q, i, n, o, j, y, false, true);
    lemma_transform_replace_insert(q, i, n, o, j, y, true, false);
    let ia = index_after_insert(i, j) as usize;
    let li = items.insert(j as int, y);
    let lr = items.update(i as int, n);
    assert(li.update(ia as int, n) =~= lr.insert(j as int, y));
    lemma_apply_list_edit(v, q, items, true, j, y);
    lemma_apply_list_replace(v, q, items, i, n, o);
    let vi = replace_at(v, q, Json::Array(li));
    let vr = replace_at(v, q, Json::Array(lr));
    lemma_replace_at(v, q, Json::Array(li), Json::Array(lr));
    lemma_replace_at(v, q, Json::Array(lr), Json::Array(li));
    lemma_apply_list_replace(vi, q, li, ia, n, o);
    lemma_apply_list_edit(vr, q, lr, true, j, y);
    lemma_apply_pair(v, q, ins, seq![list_replace(q, ia, n, o)], li, li.update(ia as int, n));
    lemma_apply_pair(v, q, rp, seq![ins], lr, lr.insert(j as int, y));
}

/// A concurrent replacement and deletion of elements of a list converge; where
/// both reach the same element, the replacement puts its value back in.
pub proof fn law_replace_and_delete_converge(v: Json, q: Seq<PathKey>, i: usize, n: Json, o: Json, j: usize, y: Json)
    requires
        value_at(v, q) matches Some(Json::Array(items)) && i < items.len() && j < items.len() && items.len()
            < usize::MAX,
        !json_eq(n, o),
    ensures
        transform_spec(seq![list_replace(q, i, n, o)], seq![list_edit(q, false, j, y)]) matches Some((a, b))
            && converge(v, list_edit(q, false, j, y), a, list_replace(q, i, n, o), b),
        transform_spec(seq![list_edit(q, false, j, y)], seq![list_replace(q, i, n, o)]) matches Some((a, b))
            && converge(v, list_replace(q, i, n, o), a, list_edit(q, false, j, y), b),
{
    let items = value_at(v, q)->0->Array_0;
    let rp = list_replace(q, i, n, o);
    let del = list_edit(q, false, j, y);
    lemma_transform_replace_delete(q, i, n, o, j, y, false, true);
    lemma_transform_replace_delete(q, i, n, o, j, y, true, false);
    let ld = items.remove(j as int);
    let lr = items.update(i as int, n);
    let fin = if i == j {
        ld.insert(j as int, n)
    } else if j < i {
        ld.update(i - 1, n)
    } else {
        ld.update(i as int, n)
    };
    assert(fin =~= if i == j { lr } else { lr.remove(j as int) });
    lemma_apply_list_edit(v, q, items, false, j, y);
    lemma_apply_list_replace(v, q, items, i, n, o);
    let vd = replace_at(v, q, Json::Array(ld));
    let vr = replace_at(v, q, Json::Array(lr));
    lemma_replace_at(v, q, Json::Array(ld), Json::Array(fin));
    lemma_replace_at(v, q, Json::Array(lr), Json::Array(fin));
    let a = transform_component_spec(rp, del, false)->0;
    let b = transform_component_spec(del, rp, true)->0;
    if i == j {
        lemma_apply_list_edit(vd, q, ld, true, i, n);
    } else if j < i {
        lemma_apply_list_replace(vd, q, ld, (i - 1) as usize, n, o);
        lemma_apply_list_edit(vr, q, lr, false, j, y);
    } else {
        lemma_apply_list_replace(vd, q, ld, i, n, o);
        lemma_apply_list_edit(vr, q, lr, false, j, y);
    }
    lemma_apply_pair(v, q, del, a, ld, fin);
    lemma_apply_pair(v, q, rp, b, lr, fin);
}

/// Concurrent replacements of elements of a list converge; where both replace
/// the same element, the value of the left one stays.
pub proof fn law_replaces_converge(v: Json, q: Seq<PathKey>, i: usize, n1: Json, o1: Json, j: usize, n2: Json, o2: Json)
    requires
        value_at(v, q) matches Some(Json::Array(items)) && i < items.len() && j < items.len(),
        !json_eq(n1, o1),
        !json_eq(n2, o2),
    ensures
        transform_spec(seq![list_replace(q, i, n1, o1)], seq![list_replace(q, j, n2, o2)]) matches Some((a, b))
            && converge(v, list_replace(q, j, n2, o2), a, list_replace(q, i, n1, o1), b),
{
    let items = value_at(v, q)->0->Array_0;
    let r1 = list_replace(q, i, n1, o1);
    let r2 = list_replace(q, j, n2, o2);
    lemma_transform_replaces(q, i, n1, o1, j, n2, o2, false);
    lemma_transform_replaces(q, j, n2, o2, i, n1, o1, true);
    let l2 = items.update(j as int, n2);
    let l1 = items.update(i as int, n1);
    let fin = if i == j { l1 } else { l2.update(i as int, n1) };
    assert(fin =~= if i == j { l1 } else { l1.update(j as int, n2) });
    assert(l2.update(i as int, n1) =~= fin);
    lemma_apply_list_replace(v, q, items, i, n1, o1);
    lemma_apply_list_replace(v, q, items, j, n2, o2);
    let v2 = replace_at(v, q, Json::Array(l2));
    let v1 = replace_at(v, q, Json::Array(l1));
    lemma_replace_at(v, q, Json::Array(l2), Json::Array(fin));
    lemma_replace_at(v, q, Json::Array(l1), Json::Array(fin));
    let a = transform_component_spec(r1, r2, false)->0;
    let b = transform_component_spec(r2, r1, true)->0;
    if i == j {
        lemma_apply_list_replace(v2, q, l2, i, n1, n2);
    } else {
        lemma_apply_list_replace(v2, q, l2, i, n1, o1);
        lemma_apply_list_replace(v1, q, l1, j, n2, o2);
    }
    lemma_apply_pair(v, q, r2, a, l2, fin);
    lemma_apply_pair(v, q, r1, b, l1, fin);
}

/// A concurrent replacement of an element of a list and move of an element of
/// the list converge: the replacement follows the element it replaces.
#[verifier::spinoff_prover]
pub proof fn law_replace_and_move_converge(v: Json, q: Seq<PathKey>, i: usize, n: Json, o: Json, f: usize, t: usize)
    requires
        value_at(v, q) matches Some(Json::Array(items)) && i < items.len() && f < items.len() && t < items.len()
            && items.len() < usize::MAX,
        !json_eq(n, o),
    ensures
        transform_spec(seq![list_replace(q, i, n, o)], seq![list_move(q, f, t)]) matches Some((a, b))
            && converge(v, list_move(q, f, t), a, list_replace(q, i, n, o), b),
        transform_spec(seq![list_move(q, f, t)], seq![list_replace(q, i, n, o)]) matches Some((a, b))
            && converge(v, list_replace(q, i, n, o), a, list_move(q, f, t), b),
{
    let items = value_at(v, q)->0->Array_0;
    let len = items.len() as int;
    let rp = list_replace(q, i, n, o);
    let mv = list_move(q, f, t);
    lemma_transform_replace_move(q, i, n, o, f, t, len, false, true);
    lemma_transform_replace_move(q, i, n, o, f, t, len, true, false);
    let ia = if f == t { i } else { index_after_move(i, f, t) as usize };
    let lm = moved(items, f, t);
    let lr = items.update(i as int, n);
    lemma_moved_from(items, f, t);
    lemma_moved_from(lr, f, t);
    assert(ia < len);
    let fin = lm.update(ia as int, n);
    assert(fin =~= moved(lr, f, t));
    lemma_apply_list_move(v, q, items, f, t);
    lemma_apply_list_replace(v, q, items, i, n, o);
    let vm = replace_at(v, q, Json::Array(lm));
    let vr = replace_at(v, q, Json::Array(lr));
    lemma_replace_at(v, q, Json::Array(lm), Json::Array(fin));
    lemma_replace_at(v, q, Json::Array(lr), Json::Array(fin));
    lemma_apply_list_replace(vm, q, lm, ia, n, o);
    lemma_apply_list_move(vr, q, lr, f, t);
    lemma_apply_pair(v, q, mv, seq![list_replace(q, ia, n, o)], lm, fin);
    lemma_apply_pair(v, q, rp, seq![mv], lr, fin);
}

// ---------------------------------------------------------------------------
// Concurrent edits of one object member.

/// An object operator `op` under the key `k` of the object at `q`.
pub open spec fn member_op(q: Seq<PathKey>, k: Seq<char>, op: OperatorModel) -> ComponentModel {
    ComponentModel { path: q.push(PathKey::Key(k)), op }
}

proof fn lemma_same_path(q: Seq<PathKey>, k: Seq<char>, a: OperatorModel, b: OperatorModel)
    ensures
        common_len(member_op(q, k, a).path, member_op(q, k, b).path) == q.len() + 1,
        member_op(q, k, a).path.is_prefix_of(member_op(q, k, b).path),
{
    let p = member_op(q, k, a).path;
    assert(member_op(q, k, b).path =~= p);
    lemma_common_len_unique(p, p, p.len() as int);
}

/// Applying the object operator `op` under `k` of the object at `q`.
proof fn lemma_apply_member(v: Json, q: Seq<PathKey>, es: Seq<(Seq<char>, Json)>, k: Seq<char>, op: OperatorModel)
    requires
        value_at(v, q) == Some(Json::Object(es)),
        apply_object_spec(es, k, op) is Ok,
    ensures
        apply_spec(v, member_op(q, k, op).path, op) == Ok::<Json, ApplyFault>(
            replace_at(v, q, apply_object_spec(es, k, op)->Ok_0),
        ),
{
    lemma_apply_at(v, q, PathKey::Key(k), member_op(q, k, op).path, op);
}

/// Concurrent replacements of the same member of an object converge on the
/// value of the left one (replacements by an equal value left out).
pub proof fn law_member_replaces_converge(v: Json, q: Seq<PathKey>, k: Seq<char>, n1: Json, o1: Json, n2: Json, o2: Json)
    requires
        value_at(v, q) matches Some(Json::Object(_)),
        !json_eq(n1, o1),
        !json_eq(n2, o2),
    ensures
        transform_spec(
            seq![member_op(q, k, OperatorModel::ObjectReplace(n1, o1))],
            seq![member_op(q, k, OperatorModel::ObjectReplace(n2, o2))],
        ) == Some(
            (seq![member_op(q, k, OperatorModel::ObjectReplace(n1, n2))], Seq::<ComponentModel>::empty()),
        ),
        converge(
            v,
            member_op(q, k, OperatorModel::ObjectReplace(n2, o2)),
            seq![member_op(q, k, OperatorModel::ObjectReplace(n1, n2))],
            member_op(q, k, OperatorModel::ObjectReplace(n1, o1)),
            Seq::empty(),
        ),
{
    let a1 = OperatorModel::ObjectReplace(n1, o1);
    let a2 = OperatorModel::ObjectReplace(n2, o2);
    let a3 = OperatorModel::ObjectReplace(n1, n2);
    lemma_same_path(q, k, a1, a2);
    lemma_same_path(q, k, a2, a1);
    assert(transform_component_spec(member_op(q, k, a1), member_op(q, k, a2), false) == Some(
        seq![member_op(q, k, a3)],
    )) by {
        reveal(transform_component_spec);
    }
    assert(transform_component_spec(member_op(q, k, a2), member_op(q, k, a1), true) == Some(
        Seq::<ComponentModel>::empty(),
    )) by {
        reveal(transform_component_spec);
    }
    let es = value_at(v, q)->0->Object_0;
    let e2 = apply_object_spec(es, k, a2)->Ok_0->Object_0;
    let e1 = apply_object_spec(es, k, a1)->Ok_0->Object_0;
    lemma_apply_member(v, q, es, k, a2);
    lemma_apply_member(v, q, es, k, a1);
    lemma_key_pos_range(es, k);
    if key_pos(es, k) >= 0 {
        lemma_entries_get_insert(es, k, n2);
        lemma_entries_insert_twice(es, k, n2, n1);
    }
    let v2 = replace_at(v, q, Json::Object(e2));
    lemma_replace_at(v, q, Json::Object(e2), Json::Object(e1));
    lemma_apply_member(v2, q, e2, k, a3);
    assert(seq![member_op(q, k, a2)] + seq![member_op(q, k, a3)] =~= seq![member_op(q, k, a2), member_op(q, k, a3)]);
    assert(seq![member_op(q, k, a1)] + Seq::<ComponentModel>::empty() =~= seq![member_op(q, k, a1)]);
    lemma_apply_two(v, member_op(q, k, a2), member_op(q, k, a3));
    lemma_apply_one(v, member_op(q, k, a1));
}

/// Concurrent deletions of the same member of an object converge: both become
/// nothing.
pub proof fn law_member_deletes_converge(v: Json, q: Seq<PathKey>, k: Seq<char>, x: Json, y: Json)
    requires
        value_at(v, q) matches Some(Json::Object(_)),
    ensures
        transform_spec(
            seq![member_op(q, k, OperatorModel::ObjectDelete(x))],
            seq![member_op(q, k, OperatorModel::ObjectDelete(y))],
        ) == Some((Seq::<ComponentModel>::empty(), Seq::<ComponentModel>::empty())),
        converge(
            v,
            member_op(q, k, OperatorModel::ObjectDelete(y)),
            Seq::empty(),
            member_op(q, k, OperatorModel::ObjectDelete(x)),
            Seq::empty(),
        ),
{
    let a1 = OperatorModel::ObjectDelete(x);
    let a2 = OperatorModel::ObjectDelete(y);
    lemma_same_path(q, k, a1, a2);
    lemma_same_path(q, k, a2, a1);
    assert(transform_component_spec(member_op(q, k, a1), member_op(q, k, a2), false) == Some(
        Seq::<ComponentModel>::empty(),
    )) by {
        reveal(transform_component_spec);
    }
    assert(transform_component_spec(member_op(q, k, a2), member_op(q, k, a1), true) == Some(
        Seq::<ComponentModel>::empty(),
    )) by {
        reveal(transform_component_spec);
    }
    let es = value_at(v, q)->0->Object_0;
    lemma_apply_member(v, q, es, k, a2);
    lemma_apply_member(v, q, es, k, a1);
    assert(seq![member_op(q, k, a2)] + Seq::<ComponentModel>::empty() =~= seq![member_op(q, k, a2)]);
    assert(seq![member_op(q, k, a1)] + Seq::<ComponentModel>::empty() =~= seq![member_op(q, k, a1)]);
    lemma_apply_one(v, member_op(q, k, a2));
    lemma_apply_one(v, member_op(q, k, a1));
}

/// A concurrent deletion of a member of an object and insertion under the same
/// key converge when the deletion is on the left side: the member is gone.
pub proof fn law_member_delete_and_insert_converge(v: Json, q: Seq<PathKey>, k: Seq<char>, x: Json, y: Json)
    requires
        value_at(v, q) matches Some(Json::Object(_)),
    ensures
        transform_spec(
            seq![member_op(q, k, OperatorModel::ObjectDelete(x))],
            seq![member_op(q, k, OperatorModel::ObjectInsert(y))],
        ) == Some((seq![member_op(q, k, OperatorModel::ObjectDelete(x))], Seq::<ComponentModel>::empty())),
        converge(
            v,
            member_op(q, k, OperatorModel::ObjectInsert(y)),
            seq![member_op(q, k, OperatorModel::ObjectDelete(x))],
            member_op(q, k, OperatorModel::ObjectDelete(x)),
            Seq::empty(),
        ),
{
    let d = OperatorModel::ObjectDelete(x);
    let ins = OperatorModel::ObjectInsert(y);
    lemma_same_path(q, k, d, ins);
    lemma_same_path(q, k, ins, d);
    assert(transform_component_spec(member_op(q, k, d), member_op(q, k, ins), false) == Some(
        seq![member_op(q, k, d)],
    )) by {
        reveal(transform_component_spec);
    }
    assert(transform_component_spec(member_op(q, k, ins), member_op(q, k, d), true) == Some(
        Seq::<ComponentModel>::empty(),
    )) by {
        reveal(transform_component_spec);
    }
    let es = value_at(v, q)->0->Object_0;
    let ei = entries_insert(es, k, y);
    let ed = entries_remove(es, k);
    lemma_apply_member(v, q, es, k, ins);
    lemma_apply_member(v, q, es, k, d);
    lemma_key_pos_range(es, k);
    assert(entries_remove(ei, k) =~= ed) by {
        if key_pos(es, k) >= 0 {
            let pos = key_pos(es, k);
            assert(is_first_key(ei, k, pos));
            lemma_key_pos_found(ei, k, pos);
        } else {
            assert(is_first_key(ei, k, es.len() as int));
            lemma_key_pos_found(ei, k, es.len() as int);
        }
    }
    let vi = replace_at(v, q, Json::Object(ei));
    lemma_replace_at(v, q, Json::Object(ei), Json::Object(ed));
    lemma_apply_member(vi, q, ei, k, d);
    assert(seq![member_op(q, k, ins)] + seq![member_op(q, k, d)] =~= seq![member_op(q, k, ins), member_op(q, k, d)]);
    assert(seq![member_op(q, k, d)] + Seq::<ComponentModel>::empty() =~= seq![member_op(q, k, d)]);
    lemma_apply_two(v, member_op(q, k, ins), member_op(q, k, d));
    lemma_apply_one(v, member_op(q, k, d));
}

// ---------------------------------------------------------------------------
// Concurrent additions and text insertions.

/// An addition of `n` at `path`.
pub open spec fn number_add(path: Seq<PathKey>, n: i64) -> ComponentModel {
    ComponentModel { path, op: OperatorModel::SubType(SubTypeName::NumberAdd, Json::Number(n)) }
}

proof fn lemma_transform_adds(path: Seq<PathKey>, a: i64, b: i64, right: bool)
    requires
        path.len() > 0,
    ensures
        transform_component_spec(number_add(path, a), number_add(path, b), right) == Some(seq![number_add(path, a)]),
{
    reveal(transform_component_spec);
    lemma_common_len_unique(path, path, path.len() as int);
    let cs = sub_type_components_spec(path, SubTypeName::NumberAdd, seq![Json::Number(a)])->0;
    assert(cs =~= seq![number_add(path, a)]);
}

/// Concurrent additions to the same number converge: neither changes, and both
/// orders add both numbers (where no sum overflows).
pub proof fn law_number_adds_converge(v: Json, path: Seq<PathKey>, a: i64, b: i64)
    requires
        path.len() > 0,
        apply_components_spec(v, seq![number_add(path, b), number_add(path, a)]) is Ok,
        apply_components_spec(v, seq![number_add(path, a), number_add(path, b)]) is Ok,
    ensures
        transform_spec(seq![number_add(path, a)], seq![number_add(path, b)]) == Some(
            (seq![number_add(path, a)], seq![number_add(path, b)]),
        ),
        converge(v, number_add(path, b), seq![number_add(path, a)], number_add(path, a), seq![number_add(path, b)]),
{
    lemma_transform_adds(path, a, b, false);
    lemma_transform_adds(path, b, a, true);
    let ca = number_add(path, a);
    let cb = number_add(path, b);
    assert(seq![cb] + seq![ca] =~= seq![cb, ca]);
    assert(seq![ca] + seq![cb] =~= seq![ca, cb]);
    lemma_apply_push(v, seq![cb], ca);
    lemma_apply_push(v, seq![ca], cb);
    assert(seq![cb].push(ca) =~= seq![cb, ca]);
    assert(seq![ca].push(cb) =~= seq![ca, cb]);
    lemma_apply_push(v, Seq::empty(), cb);
    lemma_apply_push(v, Seq::empty(), ca);
    assert(Seq::<ComponentModel>::empty().push(cb) =~= seq![cb]);
    assert(Seq::<ComponentModel>::empty().push(ca) =~= seq![ca]);
    assert(apply_components_spec(v, Seq::<ComponentModel>::empty()) == Ok::<Json, (ApplyFault, Json)>(v));
    let q = path.drop_last();
    let l = path.last();
    assert(path =~= q.push(l));
    lemma_apply_needs_parent(v, q, l, path, ca.op);
    let pv = value_at(v, q)->0;
    lemma_apply_at(v, q, l, path, ca.op);
    lemma_apply_at(v, q, l, path, cb.op);
    let pa = apply_here_spec(pv, seq![l], ca.op)->Ok_0;
    let pb = apply_here_spec(pv, seq![l], cb.op)->Ok_0;
    let va = replace_at(v, q, pa);
    let vb = replace_at(v, q, pb);
    lemma_replace_at(v, q, pa, pa);
    lemma_replace_at(v, q, pb, pb);
    lemma_apply_at(va, q, l, path, cb.op);
    lemma_apply_at(vb, q, l, path, ca.op);
    let pab = apply_here_spec(pa, seq![l], cb.op)->Ok_0;
    let pba = apply_here_spec(pb, seq![l], ca.op)->Ok_0;
    lemma_replace_at(v, q, pa, pab);
    lemma_replace_at(v, q, pb, pba);
    lemma_adds_commute_here(pv, l, a, b);
}

/// Adding `a` then `b` at `l` in `pv` gives what adding `b` then `a` gives.
proof fn lemma_adds_commute_here(pv: Json, l: PathKey, a: i64, b: i64)
    requires
        apply_here_spec(pv, seq![l], number_add(seq![l], a).op) matches Ok(pa) && apply_here_spec(
            pa,
            seq![l],
            number_add(seq![l], b).op,
        ) is Ok,
        apply_here_spec(pv, seq![l], number_add(seq![l], b).op) matches Ok(pb) && apply_here_spec(
            pb,
            seq![l],
            number_add(seq![l], a).op,
        ) is Ok,
    ensures
        apply_here_spec(apply_here_spec(pv, seq![l], number_add(seq![l], a).op)->Ok_0, seq![l], number_add(seq![l], b).op)
            == apply_here_spec(
            apply_here_spec(pv, seq![l], number_add(seq![l], b).op)->Ok_0,
            seq![l],
            number_add(seq![l], a).op,
        ),
{
    match pv {
        Json::Array(items) => {
            let i = l->Index_0 as int;
            let m = items[i]->Number_0;
            assert(items.update(i, Json::Number((m + a) as i64)).update(i, Json::Number((m + a + b) as i64))
                =~= items.update(i, Json::Number((m + b) as i64)).update(i, Json::Number((m + b + a) as i64)));
        },
        Json::Object(es) => {
            let k = l->Key_0;
            lemma_key_pos_range(es, k);
            let wa = match entries_get(es, k) {
                Some(Json::Number(m)) => Json::Number((m + a) as i64),
                _ => Json::Number(a),
            };
            let wb = match entries_get(es, k) {
                Some(Json::Number(m)) => Json::Number((m + b) as i64),
                _ => Json::Number(b),
            };
            lemma_entries_get_insert(es, k, wa);
            lemma_entries_get_insert(es, k, wb);
            let wab = Json::Number((wa->Number_0 + b) as i64);
            lemma_entries_insert_twice(es, k, wa, wab);
            lemma_entries_insert_twice(es, k, wb, wab);
        },
        _ => {},
    }
}

/// The value at `q` followed by `l` is the value at `l` in the value at `q`, and
/// replacing it replaces it there.
proof fn lemma_value_at_push(v: Json, q: Seq<PathKey>, l: PathKey, x: Json)
    requires
        value_at(v, q) is Some,
    ensures
        value_at(v, q.push(l)) == value_at(value_at(v, q)->0, seq![l]),
        replace_at(v, q.push(l), x) == replace_at(v, q, replace_at(value_at(v, q)->0, seq![l], x)),
    decreases q.len(),
{
    let p = q.push(l);
    if q.len() == 0 {
        assert(p =~= seq![l]);
    } else {
        assert(p.skip(1) =~= q.skip(1).push(l));
        assert(p[0] == q[0]);
        match v {
            Json::Array(items) => {
                let i = index_at(q, 0)->0;
                lemma_value_at_push(items[i as int], q.skip(1), l, x);
            },
            Json::Object(es) => {
                let k = key_at(q, 0)->0;
                lemma_key_pos_range(es, k);
                lemma_value_at_push(es[key_pos(es, k)].1, q.skip(1), l, x);
            },
            _ => {},
        }
    }
}

/// A built-in sub type operator applies to the value at its path, which it
/// replaces by what its function makes of it.
proof fn lemma_apply_sub_type(v: Json, path: Seq<PathKey>, t: SubTypeName, operand: Json, x: Json, y: Json)
    requires
        path.len() > 0,
        value_at(v, path) == Some(x),
        builtin_apply_spec(t, Some(x), operand) == Some(Some(y)),
    ensures
        apply_spec(v, path, OperatorModel::SubType(t, operand)) == Ok::<Json, ApplyFault>(replace_at(v, path, y)),
{
    let q = path.drop_last();
    let l = path.last();
    assert(path =~= q.push(l));
    let op = OperatorModel::SubType(t, operand);
    assert(value_at(v, q) is Some) by {
        if value_at(v, q) is None {
            lemma_value_at_none_push(v, q, l);
        }
    }
    lemma_value_at_push(v, q, l, y);
    lemma_apply_at(v, q, l, path, op);
    let pv = value_at(v, q)->0;
    assert(seq![l].skip(1) =~= Seq::<PathKey>::empty());
    match pv {
        Json::Array(items) => {
            let i = l->Index_0 as int;
            assert(value_at(items[i], seq![l].skip(1)) == Some(items[i]));
            assert(replace_at(items[i], seq![l].skip(1), y) == y);
            assert(items[i] == x);
            assert(seq![l][0] == l);
            assert(apply_list_spec(items, l->Index_0, op) == Ok::<Json, ApplyFault>(Json::Array(items.update(i, y))));
            assert(apply_here_spec(pv, seq![l], op) == Ok::<Json, ApplyFault>(Json::Array(items.update(i, y))));
            assert(replace_at(pv, seq![l], y) == Json::Array(items.update(i, y)));
        },
        Json::Object(es) => {
            let k = l->Key_0;
            lemma_key_pos_range(es, k);
            assert(replace_at(es[key_pos(es, k)].1, seq![l].skip(1), y) == y);
            assert(seq![l][0] == l);
            assert(value_at(es[key_pos(es, k)].1, seq![l].skip(1)) == Some(es[key_pos(es, k)].1));
            assert(entries_get(es, k) == Some(x));
            assert(apply_object_spec(es, k, op) == Ok::<Json, ApplyFault>(Json::Object(entries_insert(es, k, y))));
        },
        _ => {},
    }
    assert(apply_here_spec(pv, seq![l], op) == Ok::<Json, ApplyFault>(replace_at(pv, seq![l], y)));
    assert(apply_spec(v, path, op) == apply_down_spec(v, q.push(l), path, op));
}

/// Nothing is found below a path that leads nowhere.
proof fn lemma_value_at_none_push(v: Json, q: Seq<PathKey>, l: PathKey)
    requires
        value_at(v, q) is None,
    ensures
        value_at(v, q.push(l)) is None,
    decreases q.len(),
{
    let p = q.push(l);
    if q.len() > 0 {
        assert(p.skip(1) =~= q.skip(1).push(l));
        assert(p[0] == q[0]);
        match v {
            Json::Array(items) => {
                let i = index_at(q, 0);
                if i is Some && i->0 < items.len() {
                    lemma_value_at_none_push(items[i->0 as int], q.skip(1), l);
                }
            },
            Json::Object(es) => {
                let k = key_at(q, 0);
                if k is Some && key_pos(es, k->0) >= 0 {
                    lemma_value_at_none_push(es[key_pos(es, k->0)].1, q.skip(1), l);
                }
            },
            _ => {},
        }
    }
}

/// A text insertion of `s` at the offset `p` of the string at `path`, its operand
/// written as the builder writes it.
pub open spec fn text_insert(path: Seq<PathKey>, p: i64, s: Seq<char>) -> ComponentModel {
    ComponentModel {
        path,
        op: OperatorModel::SubType(SubTypeName::Text, Json::Object(seq![("p"@, Json::Number(p)), ("i"@, Json::Str(s))])),
    }
}

/// A text insertion of `s` at `p`, its operand written as a transformation writes
/// it.
pub open spec fn transformed_text_insert(path: Seq<PathKey>, p: i64, s: Seq<char>) -> ComponentModel {
    ComponentModel {
        path,
        op: OperatorModel::SubType(SubTypeName::Text, Json::Object(seq![("i"@, Json::Str(s)), ("p"@, Json::Number(p))])),
    }
}

/// Where a text insertion at `p1` lands after an insertion of `n2` characters at
/// `p2`; on the right side an insertion at the same offset goes after.
pub open spec fn text_offset_after(p1: i64, p2: i64, n2: nat, right: bool) -> int {
    if p2 < p1 || (p2 == p1 && right) {
        p1 + n2
    } else {
        p1 as int
    }
}

proof fn lemma_text_members(p: i64, s: Seq<char>, first_p: bool)
    ensures
        ({
            let es = if first_p {
                seq![("p"@, Json::Number(p)), ("i"@, Json::Str(s))]
            } else {
                seq![("i"@, Json::Str(s)), ("p"@, Json::Number(p))]
            };
            &&& json_member(Json::Object(es), "p"@) == Some(Json::Number(p))
            &&& json_member(Json::Object(es), "i"@) == Some(Json::Str(s))
            &&& json_member(Json::Object(es), "d"@) is None
        }),
{
    lemma_keys_differ();
    let es = if first_p {
        seq![("p"@, Json::Number(p)), ("i"@, Json::Str(s))]
    } else {
        seq![("i"@, Json::Str(s)), ("p"@, Json::Number(p))]
    };
    lemma_key_pos_absent(es, "d"@);
    if first_p {
        lemma_key_pos_found(es, "p"@, 0);
        assert(is_first_key(es, "i"@, 1));
        lemma_key_pos_found(es, "i"@, 1);
    } else {
        lemma_key_pos_found(es, "i"@, 0);
        assert(is_first_key(es, "p"@, 1));
        lemma_key_pos_found(es, "p"@, 1);
    }
}

proof fn lemma_transform_text_inserts(path: Seq<PathKey>, p1: i64, s1: Seq<char>, p2: i64, s2: Seq<char>, right: bool)
    requires
        path.len() > 0,
        0 <= p1,
        0 <= p2,
        p1 + s2.len() <= i64::MAX,
        p1 + s2.len() <= usize::MAX,
        p2 <= usize::MAX,
    ensures
        transform_component_spec(text_insert(path, p1, s1), text_insert(path, p2, s2), right) == Some(
            seq![transformed_text_insert(path, text_offset_after(p1, p2, s2.len(), right) as i64, s1)],
        ),
{
    reveal(transform_component_spec);
    lemma_common_len_unique(path, path, path.len() as int);
    lemma_text_members(p1, s1, true);
    lemma_text_members(p2, s2, true);
    let tp = text_offset_after(p1, p2, s2.len(), right) as i64;
    lemma_text_members(tp, s1, false);
    let out = seq![Json::Object(seq![("i"@, Json::Str(s1)), ("p"@, Json::Number(tp))])];
    assert(builtin_transform_spec(SubTypeName::Text, text_insert(path, p1, s1).op->SubType_1, text_insert(path, p2, s2).op->SubType_1, right) == Some(out));
    let cs = sub_type_components_spec(path, SubTypeName::Text, out)->0;
    assert(cs =~= seq![transformed_text_insert(path, tp, s1)]);
}

/// The string that inserting `s` at `p` makes of `t`.
pub open spec fn inserted_text(t: Seq<char>, p: int, s: Seq<char>) -> Seq<char> {
    t.take(p) + s + t.skip(p)
}

proof fn lemma_apply_text_insert(v: Json, path: Seq<PathKey>, t: Seq<char>, p: i64, s: Seq<char>, first_p: bool)
    requires
        path.len() > 0,
        value_at(v, path) == Some(Json::Str(t)),
        0 <= p <= t.len(),
    ensures
        ({
            let c = if first_p {
                text_insert(path, p, s)
            } else {
                transformed_text_insert(path, p, s)
            };
            apply_spec(v, c.path, c.op) == Ok::<Json, ApplyFault>(replace_at(v, path, Json::Str(inserted_text(t, p as int, s))))
        }),
{
    lemma_text_members(p, s, first_p);
    let c = if first_p {
        text_insert(path, p, s)
    } else {
        transformed_text_insert(path, p, s)
    };
    let operand = c.op->SubType_1;
    assert(builtin_apply_spec(SubTypeName::Text, Some(Json::Str(t)), operand) == Some(
        Some(Json::Str(inserted_text(t, p as int, s))),
    ));
    lemma_apply_sub_type(v, path, SubTypeName::Text, operand, Json::Str(t), Json::Str(inserted_text(t, p as int, s)));
}

/// Concurrent insertions into the same text converge: transformed against each
/// other, applying either one and then the other transformed gives the same
/// document; at the same offset, the text of the left one comes first.
#[verifier::spinoff_prover]
#[verifier::rlimit(40)]
pub proof fn law_text_inserts_converge(v: Json, path: Seq<PathKey>, t: Seq<char>, p1: i64, s1: Seq<char>, p2: i64, s2: Seq<char>)
    requires
        path.len() > 0,
        value_at(v, path) == Some(Json::Str(t)),
        0 <= p1 <= t.len(),
        0 <= p2 <= t.len(),
        p1 + s2.len() <= i64::MAX,
        p2 + s1.len() <= i64::MAX,
        p1 + s2.len() <= usize::MAX,
        p2 + s1.len() <= usize::MAX,
    ensures
        transform_spec(seq![text_insert(path, p1, s1)], seq![text_insert(path, p2, s2)]) matches Some((a, b))
            && converge(v, text_insert(path, p2, s2), a, text_insert(path, p1, s1), b),
{
    let c1 = text_insert(path, p1, s1);
    let c2 = text_insert(path, p2, s2);
    lemma_transform_text_inserts(path, p1, s1, p2, s2, false);
    lemma_transform_text_inserts(path, p2, s2, p1, s1, true);
    let tp1 = text_offset_after(p1, p2, s2.len(), false) as i64;
    let tp2 = text_offset_after(p2, p1, s1.len(), true) as i64;
    let a = seq![transformed_text_insert(path, tp1, s1)];
    let b = seq![transformed_text_insert(path, tp2, s2)];
    lemma_text_members(p1, s1, true);
    lemma_text_members(p2, s2, true);
    assert(transform_spec(seq![c1], seq![c2]) == Some((a, b)));
    let t2 = inserted_text(t, p2 as int, s2);
    let t1 = inserted_text(t, p1 as int, s1);
    lemma_apply_text_insert(v, path, t, p2, s2, true);
    lemma_apply_text_insert(v, path, t, p1, s1, true);
    let v2 = replace_at(v, path, Json::Str(t2));
    let v1 = replace_at(v, path, Json::Str(t1));
    lemma_replace_at(v, path, Json::Str(t2), Json::Str(t2));
    lemma_replace_at(v, path, Json::Str(t1), Json::Str(t1));
    lemma_apply_text_insert(v2, path, t2, tp1, s1, false);
    lemma_apply_text_insert(v1, path, t1, tp2, s2, false);
    let t21 = inserted_text(t2, tp1 as int, s1);
    let t12 = inserted_text(t1, tp2 as int, s2);
    if p2 < p1 {
        assert(t21 =~= t.take(p2 as int) + s2 + t.subrange(p2 as int, p1 as int) + s1 + t.skip(p1 as int));
        assert(t12 =~= t.take(p2 as int) + s2 + t.subrange(p2 as int, p1 as int) + s1 + t.skip(p1 as int));
    } else {
        assert(t21 =~= t.take(p1 as int) + s1 + t.subrange(p1 as int, p2 as int) + s2 + t.skip(p2 as int));
        assert(t12 =~= t.take(p1 as int) + s1 + t.subrange(p1 as int, p2 as int) + s2 + t.skip(p2 as int));
    }
    lemma_replace_at(v, path, Json::Str(t2), Json::Str(t21));
    lemma_replace_at(v, path, Json::Str(t1), Json::Str(t12));
    assert(seq![c2] + a =~= seq![c2, a[0]]);
    assert(seq![c1] + b =~= seq![c1, b[0]]);
    lemma_apply_two(v, c2, a[0]);
    lemma_apply_two(v, c1, b[0]);
}


// ---------------------------------------------------------------------------
// Edits below different members or elements.

/// Applying an operator at `q` followed by `r` (not empty) changes the value at
/// `q` as applying it at `r` there does.
proof fn lemma_apply_below(v: Json, q: Seq<PathKey>, r: Seq<PathKey>, f: Seq<PathKey>, op: OperatorModel)
    requires
        value_at(v, q) is Some,
        r.len() > 0,
    ensures
        apply_down_spec(v, q + r, f, op) == match apply_down_spec(value_at(v, q)->0, r, f, op) {
            Ok(w) => Ok::<Json, ApplyFault>(replace_at(v, q, w)),
            Err(e) => Err(e),
        },
    decreases q.len(),
{
    if q.len() == 0 {
        assert(q + r =~= r);
    } else {
        assert((q + r).skip(1) =~= q.skip(1) + r);
        assert((q + r)[0] == q[0]);
        match v {
            Json::Array(items) => {
                let i = index_at(q, 0)->0;
                lemma_apply_below(items[i as int], q.skip(1), r, f, op);
            },
            Json::Object(es) => {
                let k = key_at(q, 0)->0;
                lemma_key_pos_range(es, k);
                lemma_apply_below(es[key_pos(es, k)].1, q.skip(1), r, f, op);
            },
            _ => {},
        }
    }
}

/// An operator that applies at `p` reaches every value on the way there.
proof fn lemma_applies_through(v: Json, p: Seq<PathKey>, f: Seq<PathKey>, op: OperatorModel, d: int)
    requires
        apply_down_spec(v, p, f, op) is Ok,
        0 <= d < p.len(),
    ensures
        value_at(v, p.take(d)) is Some,
    decreases d,
{
    if d > 0 {
        assert(p.take(d).skip(1) =~= p.skip(1).take(d - 1));
        assert(p.take(d)[0] == p[0]);
        match v {
            Json::Array(items) => {
                let i = index_at(p, 0)->0;
                lemma_applies_through(items[i as int], p.skip(1), f, op, d - 1);
            },
            Json::Object(es) => {
                let k = key_at(p, 0)->0;
                lemma_key_pos_range(es, k);
                lemma_applies_through(es[key_pos(es, k)].1, p.skip(1), f, op, d - 1);
            },
            _ => {},
        }
    }
}

/// Changing an entry of an object without changing its key keeps the position
/// of every key.
proof fn lemma_key_pos_kept(es: Seq<(Seq<char>, Json)>, pos: int, w: Json, k: Seq<char>)
    requires
        0 <= pos < es.len(),
    ensures
        key_pos(es.update(pos, (es[pos].0, w)), k) == key_pos(es, k),
{
    let es1 = es.update(pos, (es[pos].0, w));
    lemma_key_pos_range(es, k);
    if key_pos(es, k) >= 0 {
        assert(is_first_key(es1, k, key_pos(es, k)));
        lemma_key_pos_found(es1, k, key_pos(es, k));
    } else {
        lemma_key_pos_absent(es1, k);
    }
}

/// Replacing the values at two paths that part at their last elements: neither
/// replacement changes the value at the other path, and the two commute.
proof fn lemma_replace_apart(v: Json, q: Seq<PathKey>, a: PathKey, b: PathKey, w1: Json, w2: Json)
    requires
        a != b,
        value_at(v, q.push(a)) is Some,
        value_at(v, q.push(b)) is Some,
    ensures
        value_at(replace_at(v, q.push(a), w1), q.push(b)) == value_at(v, q.push(b)),
        replace_at(replace_at(v, q.push(a), w1), q.push(b), w2) == replace_at(replace_at(v, q.push(b), w2), q.push(a), w1),
    decreases q.len(),
{
    let pa = q.push(a);
    let pb = q.push(b);
    if q.len() == 0 {
        assert(pa.skip(1) =~= Seq::<PathKey>::empty());
        assert(pb.skip(1) =~= Seq::<PathKey>::empty());
        match v {
            Json::Array(items) => {
                let i = index_at(pa, 0)->0;
                let j = index_at(pb, 0)->0;
                assert(i != j);
                assert(replace_at(items[i as int], pa.skip(1), w1) == w1);
                assert(replace_at(items[j as int], pb.skip(1), w2) == w2);
                let l1 = items.update(i as int, w1);
                let l2 = items.update(j as int, w2);
                assert(replace_at(v, pa, w1) == Json::Array(l1));
                assert(replace_at(v, pb, w2) == Json::Array(l2));
                assert(value_at(l1[j as int], pb.skip(1)) == Some(l1[j as int]));
                assert(replace_at(l1[j as int], pb.skip(1), w2) == w2);
                assert(replace_at(l2[i as int], pa.skip(1), w1) == w1);
                assert(l1.update(j as int, w2) =~= l2.update(i as int, w1));
            },
            Json::Object(es) => {
                let k1 = key_at(pa, 0)->0;
                let k2 = key_at(pb, 0)->0;
                assert(k1 != k2);
                lemma_key_pos_range(es, k1);
                lemma_key_pos_range(es, k2);
                let p1 = key_pos(es, k1);
                let p2 = key_pos(es, k2);
                lemma_key_pos_kept(es, p1, w1, k2);
                lemma_key_pos_kept(es, p2, w2, k1);
                let e1 = es.update(p1, (k1, w1));
                let e2 = es.update(p2, (k2, w2));
                assert(replace_at(es[p1].1, pa.skip(1), w1) == w1);
                assert(replace_at(es[p2].1, pb.skip(1), w2) == w2);
                assert(replace_at(v, pa, w1) == Json::Object(e1));
                assert(replace_at(v, pb, w2) == Json::Object(e2));
                assert(key_pos(e1, k2) == p2);
                assert(key_pos(e2, k1) == p1);
                assert(value_at(e1[p2].1, pb.skip(1)) == Some(e1[p2].1));
                assert(replace_at(e1[p2].1, pb.skip(1), w2) == w2);
                assert(replace_at(e2[p1].1, pa.skip(1), w1) == w1);
                assert(e1.update(p2, (k2, w2)) =~= e2.update(p1, (k1, w1)));
            },
            _ => {},
        }
    } else {
        assert(pa.skip(1) =~= q.skip(1).push(a));
        assert(pb.skip(1) =~= q.skip(1).push(b));
        assert(pa[0] == q[0] && pb[0] == q[0]);
        match v {
            Json::Array(items) => {
                let i = index_at(q, 0)->0;
                let c = items[i as int];
                lemma_replace_apart(c, q.skip(1), a, b, w1, w2);
                let c1 = replace_at(c, q.skip(1).push(a), w1);
                let c2 = replace_at(c, q.skip(1).push(b), w2);
                assert(items.update(i as int, c1).update(i as int, replace_at(c1, q.skip(1).push(b), w2))
                    =~= items.update(i as int, c2).update(i as int, replace_at(c2, q.skip(1).push(a), w1)));
            },
            Json::Object(es) => {
                let k = key_at(q, 0)->0;
                lemma_key_pos_range(es, k);
                let pos = key_pos(es, k);
                let c = es[pos].1;
                lemma_replace_apart(c, q.skip(1), a, b, w1, w2);
                let c1 = replace_at(c, q.skip(1).push(a), w1);
                let c2 = replace_at(c, q.skip(1).push(b), w2);
                lemma_key_pos_kept(es, pos, c1, k);
                lemma_key_pos_kept(es, pos, c2, k);
                assert(es.update(pos, (k, c1)).update(pos, (k, replace_at(c1, q.skip(1).push(b), w2)))
                    =~= es.update(pos, (k, c2)).update(pos, (k, replace_at(c2, q.skip(1).push(a), w1))));
            },
            _ => {},
        }
    }
}

/// Transforming a component against another whose path parts from its own
/// before the value either one changes leaves it as it is.
proof fn lemma_transform_apart(
    q: Seq<PathKey>,
    a: PathKey,
    s1: Seq<PathKey>,
    op1: OperatorModel,
    b: PathKey,
    s2: Seq<PathKey>,
    op2: OperatorModel,
    right: bool,
)
    requires
        a != b,
        s1.len() > 0,
        s2.len() > 0,
    ensures
        transform_component_spec(
            ComponentModel { path: q.push(a) + s1, op: op1 },
            ComponentModel { path: q.push(b) + s2, op: op2 },
            right,
        ) == Some(seq![ComponentModel { path: q.push(a) + s1, op: op1 }]),
{
    reveal(transform_component_spec);
    let p1 = q.push(a) + s1;
    let p2 = q.push(b) + s2;
    assert(is_common_prefix_len(p2, p1, q.len() as int)) by {
        assert(p1[q.len() as int] == a);
        assert(p2[q.len() as int] == b);
        assert forall|i: int| 0 <= i < q.len() implies p2[i] == p1[i] by {
            assert(p1[i] == q[i]);
            assert(p2[i] == q[i]);
        }
    }
    lemma_common_len_unique(p2, p1, q.len() as int);
}

/// Edits below different members or elements of a list or an object are
/// independent: transformed against each other they stay as they are, and where
/// each applies to the document, applying either one and then the other gives the
/// same document.
pub proof fn law_separate_edits_converge(
    v: Json,
    q: Seq<PathKey>,
    a: PathKey,
    s1: Seq<PathKey>,
    op1: OperatorModel,
    b: PathKey,
    s2: Seq<PathKey>,
    op2: OperatorModel,
)
    requires
        a != b,
        s1.len() > 0,
        s2.len() > 0,
        component_valid(ComponentModel { path: q.push(a) + s1, op: op1 }),
        component_valid(ComponentModel { path: q.push(b) + s2, op: op2 }),
        apply_spec(v, q.push(a) + s1, op1) is Ok,
        apply_spec(v, q.push(b) + s2, op2) is Ok,
    ensures
        transform_spec(
            seq![ComponentModel { path: q.push(a) + s1, op: op1 }],
            seq![ComponentModel { path: q.push(b) + s2, op: op2 }],
        ) == Some((
            seq![ComponentModel { path: q.push(a) + s1, op: op1 }],
            seq![ComponentModel { path: q.push(b) + s2, op: op2 }],
        )),
        converge(
            v,
            ComponentModel { path: q.push(b) + s2, op: op2 },
            seq![ComponentModel { path: q.push(a) + s1, op: op1 }],
            ComponentModel { path: q.push(a) + s1, op: op1 },
            seq![ComponentModel { path: q.push(b) + s2, op: op2 }],
        ),
{
    let pa = q.push(a);
    let pb = q.push(b);
    let p1 = pa + s1;
    let p2 = pb + s2;
    let c1 = ComponentModel { path: p1, op: op1 };
    let c2 = ComponentModel { path: p2, op: op2 };
    lemma_transform_apart(q, a, s1, op1, b, s2, op2, false);
    lemma_transform_apart(q, b, s2, op2, a, s1, op1, true);
    assert(p1.take(pa.len() as int) =~= pa);
    assert(p2.take(pb.len() as int) =~= pb);
    lemma_applies_through(v, p1, p1, op1, pa.len() as int);
    lemma_applies_through(v, p2, p2, op2, pb.len() as int);
    let x1 = value_at(v, pa)->0;
    let x2 = value_at(v, pb)->0;
    lemma_apply_below(v, pa, s1, p1, op1);
    lemma_apply_below(v, pb, s2, p2, op2);
    let w1 = apply_down_spec(x1, s1, p1, op1)->Ok_0;
    let w2 = apply_down_spec(x2, s2, p2, op2)->Ok_0;
    let v1 = replace_at(v, pa, w1);
    let v2 = replace_at(v, pb, w2);
    lemma_replace_apart(v, q, a, b, w1, w2);
    lemma_replace_apart(v, q, b, a, w2, w1);
    lemma_apply_below(v1, pb, s2, p2, op2);
    lemma_apply_below(v2, pa, s1, p1, op1);
    lemma_apply_two(v, c2, c1);
    lemma_apply_two(v, c1, c2);
    assert(seq![c2] + seq![c1] =~= seq![c2, c1]);
    assert(seq![c1] + seq![c2] =~= seq![c1, c2]);
}


// ---------------------------------------------------------------------------
// Edits of lists and objects against changes below their elements or members.

/// Where an operator applies, the path named by its errors makes no difference.
proof fn lemma_apply_down_named(x: Json, r: Seq<PathKey>, f1: Seq<PathKey>, f2: Seq<PathKey>, op: OperatorModel)
    requires
        apply_down_spec(x, r, f1, op) is Ok,
    ensures
        apply_down_spec(x, r, f2, op) == apply_down_spec(x, r, f1, op),
    decreases r.len(),
{
    if r.len() > 1 {
        match x {
            Json::Array(items) => {
                let i = index_at(r, 0)->0;
                lemma_apply_down_named(items[i as int], r.skip(1), f1, f2, op);
            },
            Json::Object(es) => {
                let k = key_at(r, 0)->0;
                lemma_apply_down_named(es[key_pos(es, k)].1, r.skip(1), f1, f2, op);
            },
            _ => {},
        }
    }
}

/// A component with the operator `op` at `s` below the element `i` of the list
/// at `q` (at the element itself where `s` is empty).
pub open spec fn edit_below(q: Seq<PathKey>, i: usize, s: Seq<PathKey>, op: OperatorModel) -> ComponentModel {
    ComponentModel { path: q.push(PathKey::Index(i)) + s, op }
}

/// The operator `op` at `s` changes an element, or a value below it: `s` leads
/// below the element, or `op` is a sub type operator at the element itself.
pub open spec fn changes_element(s: Seq<PathKey>, op: OperatorModel) -> bool {
    s.len() > 0 || op is SubType
}

/// The element `k` of a list, if there is one.
pub open spec fn element_of(l: Seq<Json>, k: usize) -> Option<Json> {
    if k < l.len() {
        Some(l[k as int])
    } else {
        None
    }
}

/// What the operator `op` at `s` below an element `x` (`None`: no element there)
/// makes of it: the new element, no change (`Some(None)`), or an error (`None`).
pub open spec fn element_change(x: Option<Json>, s: Seq<PathKey>, op: OperatorModel) -> Option<Option<Json>> {
    if s.len() > 0 {
        match x {
            Some(e) => match apply_down_spec(e, s, s, op) {
                Ok(w) => Some(Some(w)),
                Err(_) => None,
            },
            None => None,
        }
    } else {
        match op {
            OperatorModel::SubType(t, o) => match builtin_apply_spec(t, x, o) {
                None => None,
                Some(None) => Some(None),
                Some(Some(nv)) => if x is Some {
                    Some(Some(nv))
                } else {
                    None
                },
            },
            _ => None,
        }
    }
}

/// The list that the operator `op` at `s` below its element `k` makes of `l`;
/// `None` for an error.
pub open spec fn changed_list(l: Seq<Json>, k: usize, s: Seq<PathKey>, op: OperatorModel) -> Option<Seq<Json>> {
    match element_change(element_of(l, k), s, op) {
        None => None,
        Some(None) => Some(l),
        Some(Some(w)) => Some(l.update(k as int, w)),
    }
}

/// Where the element `i` of a list lands after the edit `(base_insert, j)` of the
/// list; `None` where that edit deletes it.
pub open spec fn element_after(i: usize, base_insert: bool, j: usize) -> Option<usize> {
    if base_insert {
        if j <= i {
            Some((i + 1) as usize)
        } else {
            Some(i)
        }
    } else {
        if j < i {
            Some((i - 1) as usize)
        } else if j == i {
            None
        } else {
            Some(i)
        }
    }
}

/// What a component below the element `i` becomes after the edit `(base_insert,
/// j)` of the list.
pub open spec fn below_after(
    q: Seq<PathKey>,
    i: usize,
    s: Seq<PathKey>,
    op: OperatorModel,
    base_insert: bool,
    j: usize,
) -> Seq<ComponentModel> {
    match element_after(i, base_insert, j) {
        Some(k) => seq![edit_below(q, k, s, op)],
        None => Seq::empty(),
    }
}

/// What the edit `(base_insert, j, y)` of the list becomes after a component
/// below its element `i`: a deletion of that element removes it as changed.
pub open spec fn list_edit_after_below(
    q: Seq<PathKey>,
    base_insert: bool,
    j: usize,
    y: Json,
    i: usize,
    s: Seq<PathKey>,
    op: OperatorModel,
) -> ComponentModel {
    if !base_insert && i == j {
        list_edit(q, false, j, consumed(y, s, op))
    } else {
        list_edit(q, base_insert, j, y)
    }
}

proof fn lemma_transform_edit_and_below(
    q: Seq<PathKey>,
    i: usize,
    s: Seq<PathKey>,
    op: OperatorModel,
    base_insert: bool,
    j: usize,
    y: Json,
    right: bool,
)
    requires
        changes_element(s, op),
        s.len() == 0 ==> base_insert || i != j,
        base_insert ==> i < usize::MAX,
        !is_noop_equiv(edit_below(q, i, s, op)),
    ensures
        transform_component_spec(edit_below(q, i, s, op), list_edit(q, base_insert, j, y), right) == Some(
            below_after(q, i, s, op, base_insert, j),
        ),
        transform_component_spec(list_edit(q, base_insert, j, y), edit_below(q, i, s, op), right) == Some(
            seq![list_edit_after_below(q, base_insert, j, y, i, s, op)],
        ),
{
    reveal(transform_component_spec);
    let c = edit_below(q, i, s, op);
    let e = list_edit(q, base_insert, j, y);
    let n: int = if i == j {
        q.len() + 1int
    } else {
        q.len() as int
    };
    assert(c.path[q.len() as int] == PathKey::Index(i));
    assert(forall|t: int| 0 <= t < q.len() ==> c.path[t] == q[t]);
    assert(is_common_prefix_len(e.path, c.path, n));
    assert(is_common_prefix_len(c.path, e.path, n));
    lemma_common_len_unique(e.path, c.path, n);
    lemma_common_len_unique(c.path, e.path, n);
    if i == j {
        assert(e.path.is_prefix_of(c.path)) by {
            assert(c.path.take(e.path.len() as int) =~= e.path);
        }
        assert(c.path.skip(q.len() + 1int) =~= s);
    } else {
        assert(!e.path.is_prefix_of(c.path)) by {
            assert(e.path[q.len() as int] != c.path[q.len() as int]);
        }
    }
    match element_after(i, base_insert, j) {
        Some(k) => {
            assert(c.path.update(q.len() as int, PathKey::Index(k)) =~= edit_below(q, k, s, op).path);
        },
        None => {},
    }
}

/// The lists that a component below element `i` and an edit of the list make
/// in either order are the same.
proof fn lemma_edit_and_below_commute(items: Seq<Json>, i: usize, w: Json, base_insert: bool, j: usize, y: Json, y2: Json)
    requires
        i < items.len(),
        edit_fits(items, base_insert, j),
        items.len() < usize::MAX,
        base_insert ==> y2 == y,
    ensures
        match element_after(i, base_insert, j) {
            Some(k) => edited(items, base_insert, j, y).update(k as int, w) == edited(items.update(i as int, w), base_insert, j, y2)
                && k < edited(items, base_insert, j, y).len() && edited(items, base_insert, j, y)[k as int] == items[i as int],
            None => edited(items, base_insert, j, y) == edited(items.update(i as int, w), base_insert, j, y2),
        },
{
    let u = items.update(i as int, w);
    if base_insert {
        if j <= i {
            assert(items.insert(j as int, y).update(i + 1, w) =~= u.insert(j as int, y));
        } else {
            assert(items.insert(j as int, y).update(i as int, w) =~= u.insert(j as int, y));
        }
    } else {
        if j < i {
            assert(items.remove(j as int).update(i - 1, w) =~= u.remove(j as int));
        } else if j == i {
            assert(items.remove(j as int) =~= u.remove(j as int));
        } else {
            assert(items.remove(j as int).update(i as int, w) =~= u.remove(j as int));
        }
    }
}

/// The element `k` of a list, as a path of one index reaches it.
proof fn lemma_value_at_index(l: Seq<Json>, k: usize, w: Json)
    ensures
        value_at(Json::Array(l), seq![PathKey::Index(k)]) == if k < l.len() {
            Some(l[k as int])
        } else {
            None::<Json>
        },
        k < l.len() ==> replace_at(Json::Array(l), seq![PathKey::Index(k)], w) == Json::Array(l.update(k as int, w)),
{
    let e = seq![PathKey::Index(k)];
    assert(e[0] == PathKey::Index(k));
    assert(index_at(e, 0) == Some(k));
    assert(e.skip(1) =~= Seq::<PathKey>::empty());
    if k < l.len() {
        assert(value_at(l[k as int], e.skip(1)) == Some(l[k as int]));
        assert(replace_at(l[k as int], e.skip(1), w) == w);
    }
}

/// Applying the operator `op` at `s` below the element `k` of the list at `q`,
/// which holds `l`, succeeds exactly where `changed_list` has a list, and puts that
/// list there.
proof fn lemma_apply_change(v: Json, q: Seq<PathKey>, l: Seq<Json>, k: usize, s: Seq<PathKey>, op: OperatorModel)
    requires
        value_at(v, q) == Some(Json::Array(l)),
        changes_element(s, op),
    ensures
        (apply_spec(v, edit_below(q, k, s, op).path, op) is Ok) == (changed_list(l, k, s, op) is Some),
        changed_list(l, k, s, op) matches Some(l2) ==> apply_spec(v, edit_below(q, k, s, op).path, op) == Ok::<
            Json,
            ApplyFault,
        >(replace_at(v, q, Json::Array(l2))),
{
    let pk = q.push(PathKey::Index(k));
    let p = edit_below(q, k, s, op).path;
    assert(p =~= pk + s);
    if s.len() > 0 {
        lemma_value_at_push(v, q, PathKey::Index(k), Json::Null);
        lemma_value_at_index(l, k, Json::Null);
        if k < l.len() {
            lemma_apply_below(v, pk, s, p, op);
            if apply_down_spec(l[k as int], s, p, op) is Ok {
                lemma_apply_down_named(l[k as int], s, p, s, op);
                let w = apply_down_spec(l[k as int], s, p, op)->Ok_0;
                lemma_value_at_push(v, q, PathKey::Index(k), w);
                lemma_value_at_index(l, k, w);
            } else if apply_down_spec(l[k as int], s, s, op) is Ok {
                lemma_apply_down_named(l[k as int], s, s, p, op);
            }
        } else if apply_spec(v, p, op) is Ok {
            lemma_applies_through(v, p, p, op, pk.len() as int);
            assert(p.take(pk.len() as int) =~= pk);
        }
    } else {
        assert(p =~= pk);
        lemma_apply_at(v, q, PathKey::Index(k), p, op);
        let e = seq![PathKey::Index(k)];
        assert(e[0] == PathKey::Index(k));
        assert(index_at(e, 0) == Some(k));
        if k < l.len() {
            assert(l.update(k as int, l[k as int]) =~= l);
        }
    }
}

/// A change of an element follows it across an edit of its list: where the
/// element lands, the change makes of the edited list what the edit makes of the
/// changed one.
proof fn lemma_edit_and_change_commute(
    items: Seq<Json>,
    i: usize,
    s: Seq<PathKey>,
    op: OperatorModel,
    base_insert: bool,
    j: usize,
    y: Json,
    y2: Json,
)
    requires
        edit_fits(items, base_insert, j),
        items.len() < usize::MAX,
        changed_list(items, i, s, op) is Some,
        base_insert ==> y2 == y && i < usize::MAX,
    ensures
        match element_after(i, base_insert, j) {
            Some(k) => changed_list(edited(items, base_insert, j, y), k, s, op) == Some(
                edited(changed_list(items, i, s, op)->0, base_insert, j, y2),
            ),
            None => edited(items, base_insert, j, y) == edited(changed_list(items, i, s, op)->0, base_insert, j, y2),
        },
{
    let x = element_of(items, i);
    let l1 = edited(items, base_insert, j, y);
    match element_after(i, base_insert, j) {
        Some(k) => {
            if base_insert {
                if j <= i {
                    if i < items.len() {
                        assert(l1[i + 1] == items[i as int]);
                    }
                }
            } else if j < i {
                if i < items.len() {
                    assert(l1[i - 1] == items[i as int]);
                }
            }
            assert(element_of(l1, k) == x);
        },
        None => {},
    }
    match element_change(x, s, op) {
        Some(Some(w)) => {
            lemma_edit_and_below_commute(items, i, w, base_insert, j, y, y2);
        },
        _ => {},
    }
}

/// A change of an element follows it across a move in its list.
proof fn lemma_move_and_change_commute(items: Seq<Json>, i: usize, s: Seq<PathKey>, op: OperatorModel, f: usize, t: usize)
    requires
        f < items.len(),
        t < items.len(),
        items.len() < usize::MAX,
        changed_list(items, i, s, op) is Some,
    ensures
        changed_list(moved(items, f, t), if f == t { i } else { index_after_move(i, f, t) as usize }, s, op) == Some(
            moved(changed_list(items, i, s, op)->0, f, t),
        ),
{
    let ia = if f == t { i } else { index_after_move(i, f, t) as usize };
    let lm = moved(items, f, t);
    lemma_moved_from(items, f, t);
    if i < items.len() {
        assert(ia < items.len());
        assert(lm[ia as int] == items[i as int]);
    } else {
        assert(ia == i);
    }
    assert(element_of(lm, ia) == element_of(items, i));
    match element_change(element_of(items, i), s, op) {
        Some(Some(w)) => {
            let lc = items.update(i as int, w);
            lemma_moved_from(lc, f, t);
            assert(lm.update(ia as int, w) =~= moved(lc, f, t));
        },
        _ => {},
    }
}

/// A concurrent insertion into or deletion from a list and change of one of its
/// elements (by a sub type operator at the element, or below it) converge: the
/// change follows its element, and is dropped where the element is deleted,
/// which then takes the change in. Transformed against each other, on either
/// side, applying either one and then the other transformed gives the same
/// document (a change that does nothing, such as a replacement by an equal
/// value, left out; so is a sub type operator at the element that is deleted,
/// which the transformation keeps there).
#[verifier::spinoff_prover]
#[verifier::rlimit(40)]
pub proof fn law_list_edit_and_change_below_converge(
    v: Json,
    q: Seq<PathKey>,
    i: usize,
    s: Seq<PathKey>,
    op: OperatorModel,
    base_insert: bool,
    j: usize,
    y: Json,
)
    requires
        value_at(v, q) matches Some(Json::Array(items)) && edit_fits(items, base_insert, j) && items.len()
            < usize::MAX,
        changes_element(s, op),
        s.len() == 0 ==> base_insert || i != j,
        base_insert ==> i < usize::MAX,
        !is_noop_equiv(edit_below(q, i, s, op)),
        component_valid(edit_below(q, i, s, op)),
        apply_spec(v, edit_below(q, i, s, op).path, op) is Ok,
    ensures
        transform_spec(seq![edit_below(q, i, s, op)], seq![list_edit(q, base_insert, j, y)]) matches Some((a, b))
            && converge(v, list_edit(q, base_insert, j, y), a, edit_below(q, i, s, op), b),
        transform_spec(seq![list_edit(q, base_insert, j, y)], seq![edit_below(q, i, s, op)]) matches Some((a, b))
            && converge(v, edit_below(q, i, s, op), a, list_edit(q, base_insert, j, y), b),
{
    let items = value_at(v, q)->0->Array_0;
    let c = edit_below(q, i, s, op);
    let e = list_edit(q, base_insert, j, y);
    lemma_apply_change(v, q, items, i, s, op);
    let lc = changed_list(items, i, s, op)->0;
    lemma_transform_edit_and_below(q, i, s, op, base_insert, j, y, false);
    lemma_transform_edit_and_below(q, i, s, op, base_insert, j, y, true);
    let cb = below_after(q, i, s, op, base_insert, j);
    let e2 = list_edit_after_below(q, base_insert, j, y, i, s, op);
    assert(transform_spec(seq![c], seq![e]) == Some((cb, seq![e2])));
    assert(transform_spec(seq![e], seq![c]) == Some((seq![e2], cb)));
    // The change first, then the edit as it became.
    let vc = replace_at(v, q, Json::Array(lc));
    lemma_replace_at(v, q, Json::Array(lc), Json::Array(lc));
    let y2 = e2.op->ListDelete_0;
    let ye = if base_insert { y } else { y2 };
    assert(e2 == list_edit(q, base_insert, j, ye));
    let l2 = edited(lc, base_insert, j, ye);
    lemma_apply_list_edit(vc, q, lc, base_insert, j, ye);
    lemma_replace_at(v, q, Json::Array(lc), Json::Array(l2));
    lemma_apply_two(v, c, e2);
    assert(seq![c] + seq![e2] =~= seq![c, e2]);
    // The edit first, then the change as it became.
    let l1 = edited(items, base_insert, j, y);
    lemma_apply_list_edit(v, q, items, base_insert, j, y);
    let ve = replace_at(v, q, Json::Array(l1));
    lemma_replace_at(v, q, Json::Array(l1), Json::Array(l1));
    lemma_edit_and_change_commute(items, i, s, op, base_insert, j, y, ye);
    match element_after(i, base_insert, j) {
        Some(k) => {
            lemma_apply_change(ve, q, l1, k, s, op);
            lemma_replace_at(v, q, Json::Array(l1), Json::Array(l2));
            lemma_apply_two(v, e, cb[0]);
            assert(seq![e] + cb =~= seq![e, cb[0]]);
        },
        None => {
            lemma_apply_one(v, e);
            assert(seq![e] + cb =~= seq![e]);
        },
    }
}

/// Changes of different elements of one list (by sub type operators at the
/// elements, or below them) are independent: transformed against each other they
/// stay as they are, and where each applies to the document, applying either one
/// and then the other gives the same document.
#[verifier::spinoff_prover]
pub proof fn law_element_changes_converge(
    v: Json,
    q: Seq<PathKey>,
    i: usize,
    s1: Seq<PathKey>,
    op1: OperatorModel,
    j: usize,
    s2: Seq<PathKey>,
    op2: OperatorModel,
)
    requires
        value_at(v, q) matches Some(Json::Array(_)),
        i != j,
        changes_element(s1, op1),
        changes_element(s2, op2),
        component_valid(edit_below(q, i, s1, op1)),
        component_valid(edit_below(q, j, s2, op2)),
        apply_spec(v, edit_below(q, i, s1, op1).path, op1) is Ok,
        apply_spec(v, edit_below(q, j, s2, op2).path, op2) is Ok,
    ensures
        transform_spec(seq![edit_below(q, i, s1, op1)], seq![edit_below(q, j, s2, op2)]) == Some((
            seq![edit_below(q, i, s1, op1)],
            seq![edit_below(q, j, s2, op2)],
        )),
        converge(
            v,
            edit_below(q, j, s2, op2),
            seq![edit_below(q, i, s1, op1)],
            edit_below(q, i, s1, op1),
            seq![edit_below(q, j, s2, op2)],
        ),
{
    let items = value_at(v, q)->0->Array_0;
    let c1 = edit_below(q, i, s1, op1);
    let c2 = edit_below(q, j, s2, op2);
    assert(transform_spec(seq![c1], seq![c2]) == Some((seq![c1], seq![c2]))) by {
        reveal(transform_component_spec);
        let qi = q.len() as int;
        assert(c1.path[qi] == PathKey::Index(i));
        assert(c2.path[qi] == PathKey::Index(j));
        assert(forall|x: int| 0 <= x < q.len() ==> c1.path[x] == q[x] && c2.path[x] == q[x]);
        assert(is_common_prefix_len(c2.path, c1.path, qi));
        assert(is_common_prefix_len(c1.path, c2.path, qi));
        lemma_common_len_unique(c2.path, c1.path, qi);
        lemma_common_len_unique(c1.path, c2.path, qi);
    }
    lemma_apply_change(v, q, items, i, s1, op1);
    lemma_apply_change(v, q, items, j, s2, op2);
    let l1 = changed_list(items, i, s1, op1)->0;
    let l2 = changed_list(items, j, s2, op2)->0;
    assert(element_of(l1, j) == element_of(items, j));
    assert(element_of(l2, i) == element_of(items, i));
    let fin = match element_change(element_of(items, j), s2, op2) {
        Some(Some(w2)) => l1.update(j as int, w2),
        _ => l1,
    };
    match element_change(element_of(items, i), s1, op1) {
        Some(Some(w1)) => {
            match element_change(element_of(items, j), s2, op2) {
                Some(Some(w2)) => {
                    assert(l2.update(i as int, w1) =~= fin);
                },
                _ => {},
            }
        },
        _ => {},
    }
    assert(changed_list(l1, j, s2, op2) == Some(fin));
    assert(changed_list(l2, i, s1, op1) == Some(fin));
    let v1 = replace_at(v, q, Json::Array(l1));
    let v2 = replace_at(v, q, Json::Array(l2));
    lemma_replace_at(v, q, Json::Array(l1), Json::Array(fin));
    lemma_replace_at(v, q, Json::Array(l2), Json::Array(fin));
    lemma_replace_at(v, q, Json::Array(l1), Json::Array(l1));
    lemma_replace_at(v, q, Json::Array(l2), Json::Array(l2));
    lemma_apply_change(v1, q, l1, j, s2, op2);
    lemma_apply_change(v2, q, l2, i, s1, op1);
    lemma_apply_pair(v, q, c2, seq![c1], l2, fin);
    lemma_apply_pair(v, q, c1, seq![c2], l1, fin);
}

/// The member `k` of an object, as a path of one key reaches it.
proof fn lemma_value_at_key(es: Seq<(Seq<char>, Json)>, k: Seq<char>, w: Json)
    ensures
        value_at(Json::Object(es), seq![PathKey::Key(k)]) == if key_pos(es, k) >= 0 {
            Some(es[key_pos(es, k)].1)
        } else {
            None::<Json>
        },
        key_pos(es, k) >= 0 ==> replace_at(Json::Object(es), seq![PathKey::Key(k)], w) == Json::Object(
            es.update(key_pos(es, k), (k, w)),
        ),
{
    let e = seq![PathKey::Key(k)];
    assert(e[0] == PathKey::Key(k));
    assert(key_at(e, 0) == Some(k));
    assert(e.skip(1) =~= Seq::<PathKey>::empty());
    lemma_key_pos_range(es, k);
    if key_pos(es, k) >= 0 {
        let pos = key_pos(es, k);
        assert(value_at(es[pos].1, e.skip(1)) == Some(es[pos].1));
        assert(replace_at(es[pos].1, e.skip(1), w) == w);
    }
}

/// A component with the operator `op` at `s` below the member `k` of the object
/// at `q`.
pub open spec fn change_below_member(q: Seq<PathKey>, k: Seq<char>, s: Seq<PathKey>, op: OperatorModel) -> ComponentModel {
    ComponentModel { path: q.push(PathKey::Key(k)) + s, op }
}

/// Applying a component below the member `k` of the object at `q`, which holds
/// `es`, with `w` what it makes of the member.
proof fn lemma_apply_below_member(
    v: Json,
    q: Seq<PathKey>,
    es: Seq<(Seq<char>, Json)>,
    k: Seq<char>,
    s: Seq<PathKey>,
    op: OperatorModel,
    f: Seq<PathKey>,
    w: Json,
)
    requires
        value_at(v, q) == Some(Json::Object(es)),
        key_pos(es, k) >= 0,
        s.len() > 0,
        apply_down_spec(es[key_pos(es, k)].1, s, f, op) == Ok::<Json, ApplyFault>(w),
    ensures
        apply_spec(v, change_below_member(q, k, s, op).path, op) == Ok::<Json, ApplyFault>(
            replace_at(v, q, Json::Object(es.update(key_pos(es, k), (k, w)))),
        ),
{
    let pk = q.push(PathKey::Key(k));
    let p = change_below_member(q, k, s, op).path;
    assert(p =~= pk + s);
    lemma_value_at_push(v, q, PathKey::Key(k), w);
    lemma_value_at_key(es, k, w);
    lemma_apply_below(v, pk, s, p, op);
    lemma_apply_down_named(es[key_pos(es, k)].1, s, f, p, op);
}

/// An object operator of `member_op` that inserts, deletes or replaces a member.
pub open spec fn is_member_edit(op: OperatorModel) -> bool {
    op is ObjectInsert || op is ObjectDelete || op is ObjectReplace
}

/// What the member edit `mop` under `k` becomes after a change below the member
/// `k2`: a deletion or replacement of that member takes the change in.
pub open spec fn member_edit_after_below(
    q: Seq<PathKey>,
    k: Seq<char>,
    mop: OperatorModel,
    k2: Seq<char>,
    s: Seq<PathKey>,
    op: OperatorModel,
) -> ComponentModel {
    if k == k2 {
        match mop {
            OperatorModel::ObjectDelete(y) => member_op(q, k, OperatorModel::ObjectDelete(consumed(y, s, op))),
            OperatorModel::ObjectReplace(n, o) => member_op(q, k, OperatorModel::ObjectReplace(n, consumed(o, s, op))),
            _ => member_op(q, k, mop),
        }
    } else {
        member_op(q, k, mop)
    }
}

/// What a change below the member `k2` becomes after the member edit of `k`:
/// dropped where that edit deletes or replaces the member.
pub open spec fn below_member_after(
    q: Seq<PathKey>,
    k2: Seq<char>,
    s: Seq<PathKey>,
    op: OperatorModel,
    k: Seq<char>,
) -> Seq<ComponentModel> {
    if k == k2 {
        Seq::empty()
    } else {
        seq![change_below_member(q, k2, s, op)]
    }
}

proof fn lemma_transform_member_and_below(
    q: Seq<PathKey>,
    k: Seq<char>,
    mop: OperatorModel,
    k2: Seq<char>,
    s: Seq<PathKey>,
    op: OperatorModel,
    right: bool,
)
    requires
        changes_element(s, op),
        is_member_edit(mop),
        !(mop is ObjectInsert && k == k2),
        !is_noop_equiv(member_op(q, k, mop)),
        !is_noop_equiv(change_below_member(q, k2, s, op)),
    ensures
        transform_component_spec(change_below_member(q, k2, s, op), member_op(q, k, mop), right) == Some(
            below_member_after(q, k2, s, op, k),
        ),
        transform_component_spec(member_op(q, k, mop), change_below_member(q, k2, s, op), right) == Some(
            seq![member_edit_after_below(q, k, mop, k2, s, op)],
        ),
{
    reveal(transform_component_spec);
    let c = change_below_member(q, k2, s, op);
    let e = member_op(q, k, mop);
    let n: int = if k == k2 {
        q.len() + 1int
    } else {
        q.len() as int
    };
    assert(c.path[q.len() as int] == PathKey::Key(k2));
    assert(forall|t: int| 0 <= t < q.len() ==> c.path[t] == q[t]);
    assert(is_common_prefix_len(e.path, c.path, n));
    assert(is_common_prefix_len(c.path, e.path, n));
    lemma_common_len_unique(e.path, c.path, n);
    lemma_common_len_unique(c.path, e.path, n);
    if k == k2 {
        assert(e.path.is_prefix_of(c.path)) by {
            assert(c.path.take(e.path.len() as int) =~= e.path);
        }
        assert(c.path.skip(q.len() + 1int) =~= s);
    } else {
        assert(!e.path.is_prefix_of(c.path)) by {
            assert(e.path[q.len() as int] != c.path[q.len() as int]);
        }
    }
}

/// The entries that a change of the member `k2` to `w` and the member edit `mop`
/// of `k` make in either order are the same; where `k` is not `k2`, the edit
/// leaves the member `k2` where the change finds it.
proof fn lemma_member_edit_and_below_commute(
    es: Seq<(Seq<char>, Json)>,
    k2: Seq<char>,
    w: Json,
    k: Seq<char>,
    mop: OperatorModel,
    mop2: OperatorModel,
)
    requires
        key_pos(es, k2) >= 0,
        is_member_edit(mop),
        !(mop is ObjectInsert && k == k2),
        k == k2 ==> (mop is ObjectDelete && mop2 is ObjectDelete) || (mop matches OperatorModel::ObjectReplace(n, _)
            && mop2 matches OperatorModel::ObjectReplace(n2, _) && n2 == n),
        k != k2 ==> mop2 == mop,
    ensures
        apply_object_spec(es, k, mop) matches Ok(Json::Object(eb)) && apply_object_spec(
            es.update(key_pos(es, k2), (k2, w)),
            k,
            mop2,
        ) matches Ok(Json::Object(ec)) && if k == k2 {
            eb == ec
        } else {
            key_pos(eb, k2) >= 0 && eb[key_pos(eb, k2)].1 == es[key_pos(es, k2)].1 && eb.update(
                key_pos(eb, k2),
                (k2, w),
            ) == ec
        },
{
    lemma_key_pos_range(es, k2);
    lemma_key_pos_range(es, k);
    let p2 = key_pos(es, k2);
    let pk = key_pos(es, k);
    let esc = es.update(p2, (k2, w));
    lemma_key_pos_kept(es, p2, w, k);
    lemma_key_pos_kept(es, p2, w, k2);
    if k == k2 {
        match mop {
            OperatorModel::ObjectDelete(_) => {
                assert(es.remove(p2) =~= esc.remove(p2));
            },
            OperatorModel::ObjectReplace(n, _) => {
                assert(es.update(p2, (k, n)) =~= esc.update(p2, (k, n)));
            },
            _ => {},
        }
    } else {
        match mop {
            OperatorModel::ObjectInsert(x) => {
                if pk >= 0 {
                    let ei = es.update(pk, (k, x));
                    lemma_key_pos_kept(es, pk, x, k2);
                    assert(ei.update(p2, (k2, w)) =~= esc.update(pk, (k, x)));
                } else {
                    let ei = es.push((k, x));
                    assert(is_first_key(ei, k2, p2));
                    lemma_key_pos_found(ei, k2, p2);
                    assert(ei.update(p2, (k2, w)) =~= esc.push((k, x)));
                }
            },
            OperatorModel::ObjectReplace(n, _) => {
                if pk >= 0 {
                    let ei = es.update(pk, (k, n));
                    lemma_key_pos_kept(es, pk, n, k2);
                    assert(ei.update(p2, (k2, w)) =~= esc.update(pk, (k, n)));
                }
            },
            OperatorModel::ObjectDelete(_) => {
                if pk >= 0 {
                    let er = es.remove(pk);
                    let p2r: int = if p2 < pk {
                        p2
                    } else {
                        p2 - 1
                    };
                    assert(is_first_key(er, k2, p2r)) by {
                        assert(er[p2r] == es[p2]);
                        assert forall|t: int| 0 <= t < p2r implies er[t].0 != k2 by {
                            if t < pk {
                                assert(er[t] == es[t]);
                            } else {
                                assert(er[t] == es[t + 1]);
                            }
                        }
                    }
                    lemma_key_pos_found(er, k2, p2r);
                    assert(er.update(p2r, (k2, w)) =~= esc.remove(pk));
                }
            },
            _ => {},
        }
    }
}

/// A concurrent insertion, deletion or replacement of a member of an object and
/// change below one of its members converge: changes of different members stay
/// as they are, and a change below a member that is deleted or replaced is
/// dropped, the deletion or replacement taking it in. Transformed against each
/// other, on either side, applying either one and then the other transformed
/// gives the same document (edits that do nothing, and an insertion under the
/// key of the member changed below, left out).
#[verifier::spinoff_prover]
#[verifier::rlimit(40)]
pub proof fn law_member_edit_and_change_below_converge(
    v: Json,
    q: Seq<PathKey>,
    k: Seq<char>,
    mop: OperatorModel,
    k2: Seq<char>,
    s: Seq<PathKey>,
    op: OperatorModel,
)
    requires
        value_at(v, q) matches Some(Json::Object(_)),
        is_member_edit(mop),
        !(mop is ObjectInsert && k == k2),
        !is_noop_equiv(member_op(q, k, mop)),
        s.len() > 0,
        !is_noop_equiv(change_below_member(q, k2, s, op)),
        component_valid(change_below_member(q, k2, s, op)),
        apply_spec(v, change_below_member(q, k2, s, op).path, op) is Ok,
    ensures
        transform_spec(seq![change_below_member(q, k2, s, op)], seq![member_op(q, k, mop)]) matches Some((a, b))
            && converge(v, member_op(q, k, mop), a, change_below_member(q, k2, s, op), b),
        transform_spec(seq![member_op(q, k, mop)], seq![change_below_member(q, k2, s, op)]) matches Some((a, b))
            && converge(v, change_below_member(q, k2, s, op), a, member_op(q, k, mop), b),
{
    let es = value_at(v, q)->0->Object_0;
    let c = change_below_member(q, k2, s, op);
    let e = member_op(q, k, mop);
    let pk2 = q.push(PathKey::Key(k2));
    assert(c.path.take(pk2.len() as int) =~= pk2);
    assert(c.path =~= pk2 + s);
    lemma_applies_through(v, c.path, c.path, op, pk2.len() as int);
    lemma_value_at_push(v, q, PathKey::Key(k2), Json::Null);
    lemma_value_at_key(es, k2, Json::Null);
    let p2 = key_pos(es, k2);
    assert(p2 >= 0);
    lemma_apply_below(v, pk2, s, c.path, op);
    let w = apply_down_spec(es[p2].1, s, c.path, op)->Ok_0;
    lemma_apply_below_member(v, q, es, k2, s, op, c.path, w);
    lemma_transform_member_and_below(q, k, mop, k2, s, op, false);
    lemma_transform_member_and_below(q, k, mop, k2, s, op, true);
    let cb = below_member_after(q, k2, s, op, k);
    let e2 = member_edit_after_below(q, k, mop, k2, s, op);
    assert(component_valid(e) && component_valid(e2));
    assert(transform_spec(seq![c], seq![e]) == Some((cb, seq![e2])));
    assert(transform_spec(seq![e], seq![c]) == Some((seq![e2], cb)));
    lemma_member_edit_and_below_commute(es, k2, w, k, mop, e2.op);
    // The change first, then the edit as it became.
    let esc = es.update(p2, (k2, w));
    let vc = replace_at(v, q, Json::Object(esc));
    lemma_replace_at(v, q, Json::Object(esc), Json::Object(esc));
    let ec = apply_object_spec(esc, k, e2.op)->Ok_0;
    lemma_apply_member(vc, q, esc, k, e2.op);
    assert(e2 == member_op(q, k, e2.op));
    lemma_replace_at(v, q, Json::Object(esc), ec);
    lemma_apply_two(v, c, e2);
    assert(seq![c] + seq![e2] =~= seq![c, e2]);
    // The edit first, then the change as it became.
    let eb = apply_object_spec(es, k, mop)->Ok_0;
    lemma_apply_member(v, q, es, k, mop);
    let vb = replace_at(v, q, eb);
    lemma_replace_at(v, q, eb, eb);
    if k == k2 {
        lemma_apply_one(v, e);
        assert(seq![e] + cb =~= seq![e]);
    } else {
        let ebs = eb->Object_0;
        let pb = key_pos(ebs, k2);
        lemma_apply_below_member(vb, q, ebs, k2, s, op, c.path, w);
        lemma_replace_at(v, q, eb, Json::Object(ebs.update(pb, (k2, w))));
        lemma_apply_two(v, e, cb[0]);
        assert(seq![e] + cb =~= seq![e, cb[0]]);
    }
}


proof fn lemma_transform_move_and_below(
    q: Seq<PathKey>,
    i: usize,
    s: Seq<PathKey>,
    op: OperatorModel,
    f: usize,
    t: usize,
    len: int,
    right: bool,
)
    requires
        changes_element(s, op),
        f < len,
        t < len,
        len < usize::MAX,
        !is_noop_equiv(edit_below(q, i, s, op)),
    ensures
        transform_component_spec(edit_below(q, i, s, op), list_move(q, f, t), right) == Some(
            seq![edit_below(q, if f == t { i } else { index_after_move(i, f, t) as usize }, s, op)],
        ),
        transform_component_spec(list_move(q, f, t), edit_below(q, i, s, op), right) == Some(seq![list_move(q, f, t)]),
{
    reveal(transform_component_spec);
    let c = edit_below(q, i, s, op);
    let mv = list_move(q, f, t);
    let qi = q.len() as int;
    let n: int = if i == f {
        q.len() + 1int
    } else {
        qi
    };
    assert(c.path[qi] == PathKey::Index(i));
    assert(forall|x: int| 0 <= x < q.len() ==> c.path[x] == q[x]);
    assert(is_common_prefix_len(mv.path, c.path, n));
    assert(is_common_prefix_len(c.path, mv.path, n));
    lemma_common_len_unique(mv.path, c.path, n);
    lemma_common_len_unique(c.path, mv.path, n);
    if i == f {
        assert(mv.path.is_prefix_of(c.path)) by {
            assert(c.path.take(mv.path.len() as int) =~= mv.path);
        }
    } else {
        assert(!mv.path.is_prefix_of(c.path)) by {
            assert(mv.path[qi] != c.path[qi]);
        }
    }
    let ia = index_after_move(i, f, t) as usize;
    assert(edit_below(q, ia, s, op).path =~= c.path.update(qi, PathKey::Index(ia)));
    if i > f && (i > t || (i == t && f > t)) {
        assert(c.path.update(qi, PathKey::Index((i - 1) as usize)).update(qi, PathKey::Index(i)) =~= c.path);
    }
}

/// A concurrent move of an element of a list and change of one of its elements
/// (by a sub type operator at the element, or below it) converge: the change
/// follows its element. Transformed against each other, on either side, applying
/// either one and then the other transformed gives the same document (a change
/// that does nothing left out).
#[verifier::spinoff_prover]
#[verifier::rlimit(40)]
pub proof fn law_move_and_change_below_converge(
    v: Json,
    q: Seq<PathKey>,
    i: usize,
    s: Seq<PathKey>,
    op: OperatorModel,
    f: usize,
    t: usize,
)
    requires
        value_at(v, q) matches Some(Json::Array(items)) && f < items.len() && t < items.len() && items.len()
            < usize::MAX,
        changes_element(s, op),
        !is_noop_equiv(edit_below(q, i, s, op)),
        component_valid(edit_below(q, i, s, op)),
        apply_spec(v, edit_below(q, i, s, op).path, op) is Ok,
    ensures
        transform_spec(seq![edit_below(q, i, s, op)], seq![list_move(q, f, t)]) matches Some((a, b)) && converge(
            v,
            list_move(q, f, t),
            a,
            edit_below(q, i, s, op),
            b,
        ),
        transform_spec(seq![list_move(q, f, t)], seq![edit_below(q, i, s, op)]) matches Some((a, b)) && converge(
            v,
            edit_below(q, i, s, op),
            a,
            list_move(q, f, t),
            b,
        ),
{
    let items = value_at(v, q)->0->Array_0;
    let len = items.len() as int;
    let c = edit_below(q, i, s, op);
    let mv = list_move(q, f, t);
    lemma_apply_change(v, q, items, i, s, op);
    let lc = changed_list(items, i, s, op)->0;
    lemma_transform_move_and_below(q, i, s, op, f, t, len, false);
    lemma_transform_move_and_below(q, i, s, op, f, t, len, true);
    let ia = if f == t { i } else { index_after_move(i, f, t) as usize };
    let cm = edit_below(q, ia, s, op);
    assert(component_valid(mv));
    assert(transform_spec(seq![c], seq![mv]) == Some((seq![cm], seq![mv])));
    assert(transform_spec(seq![mv], seq![c]) == Some((seq![mv], seq![cm])));
    let lm = moved(items, f, t);
    lemma_move_and_change_commute(items, i, s, op, f, t);
    let fin = moved(lc, f, t);
    lemma_moved_from(items, f, t);
    lemma_apply_list_move(v, q, items, f, t);
    let vm = replace_at(v, q, Json::Array(lm));
    let vc = replace_at(v, q, Json::Array(lc));
    lemma_replace_at(v, q, Json::Array(lm), Json::Array(fin));
    lemma_replace_at(v, q, Json::Array(lc), Json::Array(fin));
    lemma_replace_at(v, q, Json::Array(lm), Json::Array(lm));
    lemma_replace_at(v, q, Json::Array(lc), Json::Array(lc));
    lemma_apply_change(vm, q, lm, ia, s, op);
    lemma_apply_list_move(vc, q, lc, f, t);
    lemma_apply_pair(v, q, mv, seq![cm], lm, fin);
    lemma_apply_pair(v, q, c, seq![mv], lc, fin);
}

proof fn lemma_transform_replace_and_below(
    q: Seq<PathKey>,
    i: usize,
    s: Seq<PathKey>,
    op: OperatorModel,
    j: usize,
    n: Json,
    o: Json,
    right: bool,
)
    requires
        changes_element(s, op),
        s.len() == 0 ==> i != j,
        !json_eq(n, o),
        !is_noop_equiv(edit_below(q, i, s, op)),
    ensures
        transform_component_spec(edit_below(q, i, s, op), list_replace(q, j, n, o), right) == Some(
            if i == j {
                Seq::empty()
            } else {
                seq![edit_below(q, i, s, op)]
            },
        ),
        transform_component_spec(list_replace(q, j, n, o), edit_below(q, i, s, op), right) == Some(
            seq![list_replace(q, j, n, if i == j { consumed(o, s, op) } else { o })],
        ),
{
    reveal(transform_component_spec);
    let c = edit_below(q, i, s, op);
    let e = list_replace(q, j, n, o);
    let qi = q.len() as int;
    let m: int = if i == j {
        q.len() + 1int
    } else {
        qi
    };
    assert(c.path[qi] == PathKey::Index(i));
    assert(forall|x: int| 0 <= x < q.len() ==> c.path[x] == q[x]);
    assert(is_common_prefix_len(e.path, c.path, m));
    assert(is_common_prefix_len(c.path, e.path, m));
    lemma_common_len_unique(e.path, c.path, m);
    lemma_common_len_unique(c.path, e.path, m);
    if i == j {
        assert(e.path.is_prefix_of(c.path)) by {
            assert(c.path.take(e.path.len() as int) =~= e.path);
        }
        assert(c.path.skip(q.len() + 1int) =~= s);
    } else {
        assert(!e.path.is_prefix_of(c.path)) by {
            assert(e.path[qi] != c.path[qi]);
        }
    }
}

/// A concurrent replacement of an element of a list and change of one of its
/// elements (by a sub type operator at the element, or below it) converge: a
/// change below the replaced element is dropped, the replacement taking it in,
/// and one of another element stays. Transformed against each other, on either
/// side, applying either one and then the other transformed gives the same
/// document (a replacement by an equal value, and a change that does nothing,
/// left out; so is a sub type operator at the replaced element, which the
/// transformation keeps there).
#[verifier::spinoff_prover]
#[verifier::rlimit(40)]
pub proof fn law_replace_and_change_below_converge(
    v: Json,
    q: Seq<PathKey>,
    i: usize,
    s: Seq<PathKey>,
    op: OperatorModel,
    j: usize,
    n: Json,
    o: Json,
)
    requires
        value_at(v, q) matches Some(Json::Array(items)) && j < items.len(),
        !json_eq(n, o),
        changes_element(s, op),
        s.len() == 0 ==> i != j,
        !is_noop_equiv(edit_below(q, i, s, op)),
        component_valid(edit_below(q, i, s, op)),
        apply_spec(v, edit_below(q, i, s, op).path, op) is Ok,
    ensures
        transform_spec(seq![edit_below(q, i, s, op)], seq![list_replace(q, j, n, o)]) matches Some((a, b))
            && converge(v, list_replace(q, j, n, o), a, edit_below(q, i, s, op), b),
        transform_spec(seq![list_replace(q, j, n, o)], seq![edit_below(q, i, s, op)]) matches Some((a, b))
            && converge(v, edit_below(q, i, s, op), a, list_replace(q, j, n, o), b),
{
    let items = value_at(v, q)->0->Array_0;
    let c = edit_below(q, i, s, op);
    let e = list_replace(q, j, n, o);
    lemma_apply_change(v, q, items, i, s, op);
    let lc = changed_list(items, i, s, op)->0;
    lemma_transform_replace_and_below(q, i, s, op, j, n, o, false);
    lemma_transform_replace_and_below(q, i, s, op, j, n, o, true);
    let o2 = if i == j { consumed(o, s, op) } else { o };
    let e2 = list_replace(q, j, n, o2);
    let cb: Seq<ComponentModel> = if i == j { Seq::empty() } else { seq![c] };
    assert(component_valid(e));
    assert(transform_spec(seq![c], seq![e]) == Some((cb, seq![e2])));
    assert(transform_spec(seq![e], seq![c]) == Some((seq![e2], cb)));
    let lr = items.update(j as int, n);
    let fin = lc.update(j as int, n);
    let vc = replace_at(v, q, Json::Array(lc));
    let vr = replace_at(v, q, Json::Array(lr));
    lemma_replace_at(v, q, Json::Array(lc), Json::Array(fin));
    lemma_replace_at(v, q, Json::Array(lr), Json::Array(fin));
    lemma_replace_at(v, q, Json::Array(lr), Json::Array(lr));
    lemma_replace_at(v, q, Json::Array(lc), Json::Array(lc));
    lemma_apply_list_replace(v, q, items, j, n, o);
    lemma_apply_list_replace(vc, q, lc, j, n, o2);
    lemma_apply_pair(v, q, c, seq![e2], lc, fin);
    if i == j {
        assert(lr =~= fin);
        lemma_apply_pair(v, q, e, Seq::empty(), lr, fin);
    } else {
        assert(element_of(lr, i) == element_of(items, i));
        match element_change(element_of(items, i), s, op) {
            Some(Some(w)) => {
                assert(lr.update(i as int, w) =~= fin);
            },
            _ => {},
        }
        assert(changed_list(lr, i, s, op) == Some(fin));
        lemma_apply_change(vr, q, lr, i, s, op);
        lemma_apply_pair(v, q, e, seq![c], lr, fin);
    }
}

// ---------------------------------------------------------------------------
// Edits of different members of one object, equal as JSON.

/// Removing an entry with another key moves a key's first position down past it.
proof fn lemma_key_pos_remove(es: Seq<(Seq<char>, Json)>, pos: int, kk: Seq<char>)
    requires
        0 <= pos < es.len(),
        es[pos].0 != kk,
    ensures
        key_pos(es.remove(pos), kk) == if key_pos(es, kk) < 0 {
            -1
        } else if key_pos(es, kk) < pos {
            key_pos(es, kk)
        } else {
            key_pos(es, kk) - 1
        },
{
    let r = es.remove(pos);
    lemma_key_pos_range(es, kk);
    let p = key_pos(es, kk);
    if p >= 0 {
        let p2: int = if p < pos {
            p
        } else {
            p - 1
        };
        assert(is_first_key(r, kk, p2)) by {
            assert(r[p2] == es[p]);
            assert forall|t: int| 0 <= t < p2 implies r[t].0 != kk by {
                if t < pos {
                    assert(r[t] == es[t]);
                } else {
                    assert(r[t] == es[t + 1]);
                }
            }
        }
        lemma_key_pos_found(r, kk, p2);
    } else {
        assert forall|t: int| 0 <= t < r.len() implies r[t].0 != kk by {
            if t < pos {
                assert(r[t] == es[t]);
            } else {
                assert(r[t] == es[t + 1]);
            }
        }
        lemma_key_pos_absent(r, kk);
    }
}

/// Adding an entry with another key keeps a key's first position.
proof fn lemma_key_pos_push(es: Seq<(Seq<char>, Json)>, k: Seq<char>, x: Json, kk: Seq<char>)
    requires
        k != kk,
    ensures
        key_pos(es.push((k, x)), kk) == key_pos(es, kk),
{
    let r = es.push((k, x));
    lemma_key_pos_range(es, kk);
    if key_pos(es, kk) >= 0 {
        assert(is_first_key(r, kk, key_pos(es, kk)));
        lemma_key_pos_found(r, kk, key_pos(es, kk));
    } else {
        lemma_key_pos_absent(r, kk);
    }
}

/// The value under `k` after the member edit `mop` of `k`.
pub open spec fn member_after_edit(es: Seq<(Seq<char>, Json)>, k: Seq<char>, mop: OperatorModel) -> Option<Json> {
    match mop {
        OperatorModel::ObjectInsert(x) => Some(x),
        OperatorModel::ObjectDelete(_) => None,
        OperatorModel::ObjectReplace(n, _) => if entries_get(es, k) is Some {
            Some(n)
        } else {
            None
        },
        _ => entries_get(es, k),
    }
}

/// The value that a member edit puts in, if any, is well formed.
pub open spec fn new_value_wf(op: OperatorModel) -> bool {
    match object_new_value(op) {
        Some(x) => json_wf(x),
        None => true,
    }
}

/// What a member edit makes of the entries of an object without two entries
/// with the same key: the value under its key as `member_after_edit` says, the
/// others as they were, still no key twice, one entry more or less as the key
/// comes or goes, and well-formed values where they were.
proof fn lemma_member_edit_facts(es: Seq<(Seq<char>, Json)>, k: Seq<char>, mop: OperatorModel)
    requires
        keys_distinct(es),
        is_member_edit(mop),
    ensures
        apply_object_spec(es, k, mop) matches Ok(Json::Object(r)) && {
            &&& keys_distinct(r)
            &&& forall|kk: Seq<char>| kk != k ==> #[trigger] entries_get(r, kk) == entries_get(es, kk)
            &&& entries_get(r, k) == member_after_edit(es, k, mop)
            &&& r.len() + (if entries_get(es, k) is Some { 1int } else { 0int }) == es.len() + (if entries_get(
                r,
                k,
            ) is Some {
                1int
            } else {
                0int
            })
            &&& (members_wf(es, es.len()) && new_value_wf(mop)) ==> members_wf(r, r.len())
        },
{
    lemma_key_pos_range(es, k);
    lemma_members_wf(es, es.len());
    let pos = key_pos(es, k);
    let r = apply_object_spec(es, k, mop)->Ok_0->Object_0;
    if pos >= 0 {
        match mop {
            OperatorModel::ObjectDelete(_) => {
                assert(r == es.remove(pos));
                assert forall|kk: Seq<char>| kk != k implies #[trigger] entries_get(r, kk) == entries_get(es, kk) by {
                    lemma_key_pos_remove(es, pos, kk);
                    lemma_key_pos_range(es, kk);
                    if key_pos(es, kk) >= 0 && key_pos(es, kk) > pos {
                        assert(r[key_pos(es, kk) - 1] == es[key_pos(es, kk)]);
                    }
                }
                assert forall|t: int| 0 <= t < r.len() implies r[t].0 != k by {
                    if t < pos {
                        assert(r[t] == es[t]);
                    } else {
                        assert(r[t] == es[t + 1]);
                    }
                }
                lemma_key_pos_absent(r, k);
                assert(keys_distinct(r)) by {
                    assert forall|i: int, j: int| 0 <= i < j < r.len() implies r[i].0 != r[j].0 by {
                        let i2 = if i < pos { i } else { i + 1 };
                        let j2 = if j < pos { j } else { j + 1 };
                        assert(r[i] == es[i2]);
                        assert(r[j] == es[j2]);
                    }
                }
                lemma_members_wf(r, r.len());
                assert(members_wf(es, es.len()) ==> forall|t: int| 0 <= t < r.len() ==> #[trigger] json_wf(r[t].1))
                    by {
                    if members_wf(es, es.len()) {
                        assert forall|t: int| 0 <= t < r.len() implies #[trigger] json_wf(r[t].1) by {
                            if t < pos {
                                assert(r[t] == es[t]);
                            } else {
                                assert(r[t] == es[t + 1]);
                            }
                        }
                    }
                }
            },
            _ => {
                let x = object_new_value(mop)->0;
                assert(r == es.update(pos, (k, x)));
                assert forall|kk: Seq<char>| kk != k implies #[trigger] entries_get(r, kk) == entries_get(es, kk) by {
                    lemma_key_pos_kept(es, pos, x, kk);
                    lemma_key_pos_range(es, kk);
                }
                lemma_key_pos_kept(es, pos, x, k);
                lemma_members_wf(r, r.len());
            },
        }
    } else {
        match mop {
            OperatorModel::ObjectInsert(x) => {
                assert(r == es.push((k, x)));
                assert forall|kk: Seq<char>| kk != k implies #[trigger] entries_get(r, kk) == entries_get(es, kk) by {
                    lemma_key_pos_push(es, k, x, kk);
                    lemma_key_pos_range(es, kk);
                }
                assert(is_first_key(r, k, es.len() as int));
                lemma_key_pos_found(r, k, es.len() as int);
                lemma_members_wf(r, r.len());
            },
            _ => {
                assert(r == es);
            },
        }
    }
}

/// Two objects without a key twice, with as many entries and the same value
/// under each key, the values well formed, are equal as JSON.
proof fn lemma_same_members(a: Seq<(Seq<char>, Json)>, b: Seq<(Seq<char>, Json)>)
    requires
        keys_distinct(a),
        a.len() == b.len(),
        forall|kk: Seq<char>| #[trigger] entries_get(a, kk) == entries_get(b, kk),
        members_wf(a, a.len()),
    ensures
        json_eq(Json::Object(a), Json::Object(b)),
{
    lemma_members_wf(a, a.len());
    assert forall|i: int| 0 <= i < a.len() implies #[trigger] member_ok(a, b, i) by {
        let kk = a[i].0;
        assert(is_first_key(a, kk, i));
        lemma_key_pos_found(a, kk, i);
        assert(entries_get(a, kk) == Some(a[i].1));
        assert(entries_get(b, kk) == Some(a[i].1));
        lemma_json_eq_refl(a[i].1);
    }
    lemma_members_eq(a, b, a.len());
}

/// Replacing the value at a path by values equal as JSON gives documents equal
/// as JSON.
proof fn lemma_json_eq_replace_at(v: Json, q: Seq<PathKey>, a: Json, b: Json)
    requires
        json_wf(v),
        value_at(v, q) is Some,
        json_eq(a, b),
    ensures
        json_eq(replace_at(v, q, a), replace_at(v, q, b)),
    decreases q.len(),
{
    if q.len() > 0 {
        match v {
            Json::Array(items) => {
                let i = index_at(q, 0)->0;
                lemma_items_wf(items, items.len());
                lemma_json_eq_replace_at(items[i as int], q.skip(1), a, b);
                let x = items.update(i as int, replace_at(items[i as int], q.skip(1), a));
                let y = items.update(i as int, replace_at(items[i as int], q.skip(1), b));
                assert forall|j: int| 0 <= j < x.len() implies #[trigger] json_eq(x[j], y[j]) by {
                    if j != i {
                        lemma_json_eq_refl(items[j]);
                    }
                }
                lemma_items_eq(x, y, x.len());
            },
            Json::Object(es) => {
                let k = key_at(q, 0)->0;
                lemma_key_pos_range(es, k);
                let pos = key_pos(es, k);
                lemma_members_wf(es, es.len());
                lemma_json_eq_replace_at(es[pos].1, q.skip(1), a, b);
                let x = es.update(pos, (k, replace_at(es[pos].1, q.skip(1), a)));
                let y = es.update(pos, (k, replace_at(es[pos].1, q.skip(1), b)));
                assert forall|t: int| 0 <= t < x.len() implies #[trigger] member_ok(x, y, t) by {
                    assert(is_first_key(y, x[t].0, t));
                    lemma_key_pos_found(y, x[t].0, t);
                    if t != pos {
                        lemma_json_eq_refl(es[t].1);
                    }
                }
                lemma_members_eq(x, y, x.len());
            },
            _ => {},
        }
    }
}

/// The two sequences of components apply to `v`, with results equal as JSON.
pub open spec fn converge_as_json(v: Json, c1: ComponentModel, a: Seq<ComponentModel>, c2: ComponentModel, b: Seq<
    ComponentModel,
>) -> bool {
    &&& apply_components_spec(v, seq![c1] + a) matches Ok(x)
    &&& apply_components_spec(v, seq![c2] + b) matches Ok(y)
    &&& json_eq(x, y)
}

/// Concurrent insertions, deletions and replacements of different members of
/// an object converge: transformed against each other they stay as they are,
/// and applying either one and then the other gives documents equal as JSON
/// (their entries may come in another order), for documents and values without
/// an object that holds a key twice.
#[verifier::spinoff_prover]
#[verifier::rlimit(40)]
pub proof fn law_member_edits_converge(
    v: Json,
    q: Seq<PathKey>,
    k1: Seq<char>,
    op1: OperatorModel,
    k2: Seq<char>,
    op2: OperatorModel,
)
    requires
        json_wf(v),
        value_at(v, q) matches Some(Json::Object(_)),
        k1 != k2,
        is_member_edit(op1),
        is_member_edit(op2),
        new_value_wf(op1),
        new_value_wf(op2),
    ensures
        transform_spec(seq![member_op(q, k1, op1)], seq![member_op(q, k2, op2)]) == Some((
            seq![member_op(q, k1, op1)],
            seq![member_op(q, k2, op2)],
        )),
        converge_as_json(v, member_op(q, k2, op2), seq![member_op(q, k1, op1)], member_op(q, k1, op1), seq![member_op(q, k2, op2)]),
{
    let c1 = member_op(q, k1, op1);
    let c2 = member_op(q, k2, op2);
    assert(transform_spec(seq![c1], seq![c2]) == Some((seq![c1], seq![c2]))) by {
        reveal(transform_component_spec);
        assert(c1.path[q.len() as int] != c2.path[q.len() as int]);
        assert(is_common_prefix_len(c2.path, c1.path, q.len() as int));
        assert(is_common_prefix_len(c1.path, c2.path, q.len() as int));
        lemma_common_len_unique(c2.path, c1.path, q.len() as int);
        lemma_common_len_unique(c1.path, c2.path, q.len() as int);
        assert(!c2.path.is_prefix_of(c1.path)) by {
            assert(c1.path[q.len() as int] != c2.path[q.len() as int]);
        }
        assert(!c1.path.is_prefix_of(c2.path)) by {
            assert(c1.path[q.len() as int] != c2.path[q.len() as int]);
        }
    }
    let es = value_at(v, q)->0->Object_0;
    lemma_value_wf_at(v, q);
    lemma_member_edit_facts(es, k1, op1);
    lemma_member_edit_facts(es, k2, op2);
    let e1 = apply_object_spec(es, k1, op1)->Ok_0->Object_0;
    let e2 = apply_object_spec(es, k2, op2)->Ok_0->Object_0;
    lemma_member_edit_facts(e1, k2, op2);
    lemma_member_edit_facts(e2, k1, op1);
    let e12 = apply_object_spec(e1, k2, op2)->Ok_0->Object_0;
    let e21 = apply_object_spec(e2, k1, op1)->Ok_0->Object_0;
    assert(entries_get(e1, k2) == entries_get(es, k2));
    assert(entries_get(e2, k1) == entries_get(es, k1));
    assert(member_after_edit(e1, k2, op2) == member_after_edit(es, k2, op2));
    assert(member_after_edit(e2, k1, op1) == member_after_edit(es, k1, op1));
    assert forall|kk: Seq<char>| #[trigger] entries_get(e21, kk) == entries_get(e12, kk) by {
        if kk != k1 && kk != k2 {
            assert(entries_get(e21, kk) == entries_get(e2, kk));
            assert(entries_get(e12, kk) == entries_get(e1, kk));
        } else if kk == k1 {
            assert(entries_get(e12, kk) == entries_get(e1, kk));
        } else {
            assert(entries_get(e21, kk) == entries_get(e2, kk));
        }
    }
    lemma_same_members(e21, e12);
    lemma_apply_member(v, q, es, k2, op2);
    lemma_apply_member(v, q, es, k1, op1);
    let v2 = replace_at(v, q, Json::Object(e2));
    let v1 = replace_at(v, q, Json::Object(e1));
    lemma_replace_at(v, q, Json::Object(e2), Json::Object(e21));
    lemma_replace_at(v, q, Json::Object(e1), Json::Object(e12));
    lemma_apply_member(v2, q, e2, k1, op1);
    lemma_apply_member(v1, q, e1, k2, op2);
    lemma_apply_two(v, c2, c1);
    lemma_apply_two(v, c1, c2);
    assert(seq![c2] + seq![c1] =~= seq![c2, c1]);
    assert(seq![c1] + seq![c2] =~= seq![c1, c2]);
    lemma_json_eq_replace_at(v, q, Json::Object(e21), Json::Object(e12));
}

/// The value at a path of a well-formed document is well formed.
proof fn lemma_value_wf_at(v: Json, q: Seq<PathKey>)
    requires
        json_wf(v),
        value_at(v, q) is Some,
    ensures
        json_wf(value_at(v, q)->0),
    decreases q.len(),
{
    if q.len() > 0 {
        match v {
            Json::Array(items) => {
                let i = index_at(q, 0)->0;
                lemma_items_wf(items, items.len());
                lemma_value_wf_at(items[i as int], q.skip(1));
            },
            Json::Object(es) => {
                let k = key_at(q, 0)->0;
                lemma_key_pos_range(es, k);
                lemma_members_wf(es, es.len());
                lemma_value_wf_at(es[key_pos(es, k)].1, q.skip(1));
            },
            _ => {},
        }
    }
}


/// A concurrent insertion under a key of an object and deletion of the member
/// under that key converge when the insertion is on the left side: the
/// insertion stays, the deletion is dropped, and applying either one and then
/// the other gives documents equal as JSON (the member may come in another
/// place), for documents and values without an object that holds a key twice.
#[verifier::spinoff_prover]
pub proof fn law_member_insert_and_delete_converge(v: Json, q: Seq<PathKey>, k: Seq<char>, x: Json, y: Json)
    requires
        json_wf(v),
        json_wf(x),
        value_at(v, q) matches Some(Json::Object(_)),
    ensures
        transform_spec(
            seq![member_op(q, k, OperatorModel::ObjectInsert(x))],
            seq![member_op(q, k, OperatorModel::ObjectDelete(y))],
        ) == Some((seq![member_op(q, k, OperatorModel::ObjectInsert(x))], Seq::<ComponentModel>::empty())),
        converge_as_json(
            v,
            member_op(q, k, OperatorModel::ObjectDelete(y)),
            seq![member_op(q, k, OperatorModel::ObjectInsert(x))],
            member_op(q, k, OperatorModel::ObjectInsert(x)),
            Seq::empty(),
        ),
{
    let ins = OperatorModel::ObjectInsert(x);
    let d = OperatorModel::ObjectDelete(y);
    lemma_same_path(q, k, d, ins);
    lemma_same_path(q, k, ins, d);
    assert(transform_component_spec(member_op(q, k, ins), member_op(q, k, d), false) == Some(
        seq![member_op(q, k, ins)],
    )) by {
        reveal(transform_component_spec);
    }
    assert(transform_component_spec(member_op(q, k, d), member_op(q, k, ins), true) == Some(
        Seq::<ComponentModel>::empty(),
    )) by {
        reveal(transform_component_spec);
    }
    let es = value_at(v, q)->0->Object_0;
    lemma_value_wf_at(v, q);
    lemma_member_edit_facts(es, k, d);
    lemma_member_edit_facts(es, k, ins);
    let ed = apply_object_spec(es, k, d)->Ok_0->Object_0;
    let ei = apply_object_spec(es, k, ins)->Ok_0->Object_0;
    lemma_member_edit_facts(ed, k, ins);
    let edi = apply_object_spec(ed, k, ins)->Ok_0->Object_0;
    assert forall|kk: Seq<char>| #[trigger] entries_get(edi, kk) == entries_get(ei, kk) by {
        if kk != k {
            assert(entries_get(edi, kk) == entries_get(ed, kk));
        }
    }
    lemma_same_members(edi, ei);
    lemma_apply_member(v, q, es, k, d);
    lemma_apply_member(v, q, es, k, ins);
    let vd = replace_at(v, q, Json::Object(ed));
    lemma_replace_at(v, q, Json::Object(ed), Json::Object(edi));
    lemma_apply_member(vd, q, ed, k, ins);
    lemma_apply_two(v, member_op(q, k, d), member_op(q, k, ins));
    lemma_apply_one(v, member_op(q, k, ins));
    assert(seq![member_op(q, k, d)] + seq![member_op(q, k, ins)] =~= seq![member_op(q, k, d), member_op(q, k, ins)]);
    assert(seq![member_op(q, k, ins)] + Seq::<ComponentModel>::empty() =~= seq![member_op(q, k, ins)]);
    lemma_json_eq_replace_at(v, q, Json::Object(edi), Json::Object(ei));
}

/// Deleting a member of an object and then applying the inverse, which inserts
/// the deleted value under its key again, gives the document back as JSON (the
/// member may come in another place), where the deletion names the value that
/// the member holds and no object holds a key twice.
pub proof fn law_member_delete_then_invert_restores(v: Json, q: Seq<PathKey>, k: Seq<char>, y: Json)
    requires
        json_wf(v),
        value_at(v, q) matches Some(Json::Object(es)) && entries_get(es, k) == Some(y),
    ensures
        invert_spec(member_op(q, k, OperatorModel::ObjectDelete(y))) == Some(
            member_op(q, k, OperatorModel::ObjectInsert(y)),
        ),
        apply_components_spec(
            v,
            seq![member_op(q, k, OperatorModel::ObjectDelete(y)), member_op(q, k, OperatorModel::ObjectInsert(y))],
        ) matches Ok(w) && json_eq(w, v),
{
    let ins = OperatorModel::ObjectInsert(y);
    let d = OperatorModel::ObjectDelete(y);
    let es = value_at(v, q)->0->Object_0;
    lemma_value_wf_at(v, q);
    lemma_members_wf(es, es.len());
    lemma_key_pos_range(es, k);
    assert(json_wf(y));
    lemma_member_edit_facts(es, k, d);
    let ed = apply_object_spec(es, k, d)->Ok_0->Object_0;
    lemma_member_edit_facts(ed, k, ins);
    let edi = apply_object_spec(ed, k, ins)->Ok_0->Object_0;
    assert forall|kk: Seq<char>| #[trigger] entries_get(edi, kk) == entries_get(es, kk) by {
        if kk != k {
            assert(entries_get(edi, kk) == entries_get(ed, kk));
        }
    }
    lemma_same_members(edi, es);
    lemma_apply_member(v, q, es, k, d);
    let vd = replace_at(v, q, Json::Object(ed));
    lemma_replace_at(v, q, Json::Object(ed), Json::Object(edi));
    lemma_apply_member(vd, q, ed, k, ins);
    lemma_apply_two(v, member_op(q, k, d), member_op(q, k, ins));
    lemma_json_eq_replace_at(v, q, Json::Object(edi), Json::Object(es));
    lemma_replace_same(v, q);
}


// ---------------------------------------------------------------------------
// Additions and text edits at object members.

/// The value under `k` after the sub type operator `t` with operand `o` at the
/// member `k`: the new value, or the one there where the operator changes
/// nothing.
pub open spec fn member_after_sub_type(es: Seq<(Seq<char>, Json)>, k: Seq<char>, t: SubTypeName, o: Json) -> Option<Json> {
    match builtin_apply_spec(t, entries_get(es, k), o) {
        Some(Some(nv)) => Some(nv),
        _ => entries_get(es, k),
    }
}

/// What a built-in sub type operator makes of a member of an object without a
/// key twice, as `lemma_member_edit_facts` says of the member edits.
proof fn lemma_member_sub_type_facts(es: Seq<(Seq<char>, Json)>, k: Seq<char>, t: SubTypeName, o: Json)
    requires
        keys_distinct(es),
        builtin_apply_spec(t, entries_get(es, k), o) is Some,
    ensures
        apply_object_spec(es, k, OperatorModel::SubType(t, o)) matches Ok(Json::Object(r)) && {
            &&& keys_distinct(r)
            &&& forall|kk: Seq<char>| kk != k ==> #[trigger] entries_get(r, kk) == entries_get(es, kk)
            &&& entries_get(r, k) == member_after_sub_type(es, k, t, o)
            &&& r.len() + (if entries_get(es, k) is Some { 1int } else { 0int }) == es.len() + (if entries_get(
                r,
                k,
            ) is Some {
                1int
            } else {
                0int
            })
            &&& (members_wf(es, es.len()) && (builtin_apply_spec(t, entries_get(es, k), o) matches Some(Some(nv))
                ==> json_wf(nv))) ==> members_wf(r, r.len())
        },
{
    match builtin_apply_spec(t, entries_get(es, k), o) {
        Some(Some(nv)) => {
            lemma_member_edit_facts(es, k, OperatorModel::ObjectInsert(nv));
        },
        _ => {},
    }
}

/// What a valid built-in sub type operator makes of a value is well formed.
proof fn lemma_sub_type_result_wf(t: SubTypeName, x: Option<Json>, o: Json)
    requires
        builtin_operand_valid(t, o),
    ensures
        builtin_apply_spec(t, x, o) matches Some(Some(nv)) ==> json_wf(nv),
{
}

/// A concurrent insertion, deletion or replacement of a member of an object and
/// addition or text edit at one of its members converge: at different members
/// both stay as they are, and the change of a member that is deleted or replaced
/// is dropped, the deletion or replacement taking it in. Transformed against each
/// other, on either side, applying either one and then the other transformed
/// gives documents equal as JSON (their entries may come in another order), for
/// documents and values without an object that holds a key twice (a replacement
/// by an equal value left out; so are an insertion under the key of the member
/// changed, and a replacement of a member that is not there, which the change
/// would add).
#[verifier::spinoff_prover]
#[verifier::rlimit(60)]
pub proof fn law_member_edit_and_member_change_converge(
    v: Json,
    q: Seq<PathKey>,
    k: Seq<char>,
    mop: OperatorModel,
    k2: Seq<char>,
    t: SubTypeName,
    o: Json,
)
    requires
        json_wf(v),
        value_at(v, q) matches Some(Json::Object(es)) && (mop is ObjectReplace && k == k2 && entries_get(es, k) is None
            ==> !(builtin_apply_spec(t, None, o) matches Some(Some(_)))),
        is_member_edit(mop),
        new_value_wf(mop),
        !(mop is ObjectInsert && k == k2),
        !is_noop_equiv(member_op(q, k, mop)),
        component_valid(member_op(q, k2, OperatorModel::SubType(t, o))),
        apply_spec(v, member_op(q, k2, OperatorModel::SubType(t, o)).path, OperatorModel::SubType(t, o)) is Ok,
    ensures
        transform_spec(seq![member_op(q, k2, OperatorModel::SubType(t, o))], seq![member_op(q, k, mop)]) matches Some(
            (a, b),
        ) && converge_as_json(v, member_op(q, k, mop), a, member_op(q, k2, OperatorModel::SubType(t, o)), b),
        transform_spec(seq![member_op(q, k, mop)], seq![member_op(q, k2, OperatorModel::SubType(t, o))]) matches Some(
            (a, b),
        ) && converge_as_json(v, member_op(q, k2, OperatorModel::SubType(t, o)), a, member_op(q, k, mop), b),
{
    let op = OperatorModel::SubType(t, o);
    let es = value_at(v, q)->0->Object_0;
    let c = member_op(q, k2, op);
    let e = member_op(q, k, mop);
    let empty = Seq::<PathKey>::empty();
    assert(change_below_member(q, k2, empty, op).path =~= c.path);
    assert(change_below_member(q, k2, empty, op) == c);
    lemma_transform_member_and_below(q, k, mop, k2, empty, op, false);
    lemma_transform_member_and_below(q, k, mop, k2, empty, op, true);
    let cb = below_member_after(q, k2, empty, op, k);
    let e2 = member_edit_after_below(q, k, mop, k2, empty, op);
    assert(component_valid(e) && component_valid(e2));
    assert(transform_spec(seq![c], seq![e]) == Some((cb, seq![e2])));
    assert(transform_spec(seq![e], seq![c]) == Some((seq![e2], cb)));
    lemma_value_wf_at(v, q);
    lemma_apply_at(v, q, PathKey::Key(k2), c.path, op);
    let kp = seq![PathKey::Key(k2)];
    assert(kp[0] == PathKey::Key(k2));
    assert(key_at(kp, 0) == Some(k2));
    assert(apply_object_spec(es, k2, op) is Ok);
    lemma_sub_type_result_wf(t, entries_get(es, k2), o);
    // The change first, then the edit as it became.
    lemma_member_sub_type_facts(es, k2, t, o);
    let ec = apply_object_spec(es, k2, op)->Ok_0->Object_0;
    lemma_member_edit_facts(ec, k, e2.op);
    let ecb = apply_object_spec(ec, k, e2.op)->Ok_0->Object_0;
    lemma_apply_member(v, q, es, k2, op);
    let vc = replace_at(v, q, Json::Object(ec));
    lemma_replace_at(v, q, Json::Object(ec), Json::Object(ecb));
    lemma_apply_member(vc, q, ec, k, e2.op);
    assert(e2 == member_op(q, k, e2.op));
    lemma_apply_two(v, c, e2);
    assert(seq![c] + seq![e2] =~= seq![c, e2]);
    // The edit first, then the change as it became.
    lemma_member_edit_facts(es, k, mop);
    let eb = apply_object_spec(es, k, mop)->Ok_0->Object_0;
    lemma_apply_member(v, q, es, k, mop);
    let vb = replace_at(v, q, Json::Object(eb));
    let fin = if k == k2 {
        eb
    } else {
        lemma_member_sub_type_facts(eb, k2, t, o);
        apply_object_spec(eb, k2, op)->Ok_0->Object_0
    };
    if k == k2 {
        lemma_apply_one(v, e);
        assert(seq![e] + cb =~= seq![e]);
        assert(entries_get(ecb, k) == entries_get(eb, k));
    } else {
        assert(entries_get(eb, k2) == entries_get(es, k2));
        lemma_replace_at(v, q, Json::Object(eb), Json::Object(fin));
        lemma_apply_member(vb, q, eb, k2, op);
        lemma_apply_two(v, e, c);
        assert(cb == seq![c]);
        assert(seq![e] + cb =~= seq![e, c]);
        assert(entries_get(ec, k) == entries_get(es, k));
        assert(member_after_edit(ec, k, mop) == member_after_edit(es, k, mop));
        assert(member_after_sub_type(eb, k2, t, o) == member_after_sub_type(es, k2, t, o));
        assert(entries_get(ecb, k2) == entries_get(ec, k2));
        assert(entries_get(fin, k) == entries_get(eb, k));
    }
    assert forall|kk: Seq<char>| #[trigger] entries_get(fin, kk) == entries_get(ecb, kk) by {
        if kk != k && kk != k2 {
            assert(entries_get(ecb, kk) == entries_get(ec, kk));
            assert(entries_get(eb, kk) == entries_get(es, kk));
            if k != k2 {
                assert(entries_get(fin, kk) == entries_get(eb, kk));
            }
        }
    }
    assert(fin.len() == ecb.len());
    lemma_same_members(fin, ecb);
    lemma_same_members(ecb, fin);
    lemma_json_eq_replace_at(v, q, Json::Object(fin), Json::Object(ecb));
    lemma_json_eq_replace_at(v, q, Json::Object(ecb), Json::Object(fin));
}


/// Concurrent additions or text edits at different members of an object
/// converge: transformed against each other they stay as they are, and where each
/// applies, applying either one and then the other gives documents equal as JSON
/// (members they add may come in another order), for documents without an
/// object that holds a key twice.
#[verifier::spinoff_prover]
#[verifier::rlimit(40)]
pub proof fn law_member_changes_converge(
    v: Json,
    q: Seq<PathKey>,
    k1: Seq<char>,
    t1: SubTypeName,
    o1: Json,
    k2: Seq<char>,
    t2: SubTypeName,
    o2: Json,
)
    requires
        json_wf(v),
        value_at(v, q) matches Some(Json::Object(_)),
        k1 != k2,
        component_valid(member_op(q, k1, OperatorModel::SubType(t1, o1))),
        component_valid(member_op(q, k2, OperatorModel::SubType(t2, o2))),
        apply_spec(v, member_op(q, k1, OperatorModel::SubType(t1, o1)).path, OperatorModel::SubType(t1, o1)) is Ok,
        apply_spec(v, member_op(q, k2, OperatorModel::SubType(t2, o2)).path, OperatorModel::SubType(t2, o2)) is Ok,
    ensures
        transform_spec(
            seq![member_op(q, k1, OperatorModel::SubType(t1, o1))],
            seq![member_op(q, k2, OperatorModel::SubType(t2, o2))],
        ) == Some((
            seq![member_op(q, k1, OperatorModel::SubType(t1, o1))],
            seq![member_op(q, k2, OperatorModel::SubType(t2, o2))],
        )),
        converge_as_json(
            v,
            member_op(q, k2, OperatorModel::SubType(t2, o2)),
            seq![member_op(q, k1, OperatorModel::SubType(t1, o1))],
            member_op(q, k1, OperatorModel::SubType(t1, o1)),
            seq![member_op(q, k2, OperatorModel::SubType(t2, o2))],
        ),
{
    let op1 = OperatorModel::SubType(t1, o1);
    let op2 = OperatorModel::SubType(t2, o2);
    let c1 = member_op(q, k1, op1);
    let c2 = member_op(q, k2, op2);
    assert(transform_spec(seq![c1], seq![c2]) == Some((seq![c1], seq![c2]))) by {
        reveal(transform_component_spec);
        let qi = q.len() as int;
        assert(c1.path[qi] != c2.path[qi]);
        assert(is_common_prefix_len(c2.path, c1.path, qi));
        assert(is_common_prefix_len(c1.path, c2.path, qi));
        lemma_common_len_unique(c2.path, c1.path, qi);
        lemma_common_len_unique(c1.path, c2.path, qi);
    }
    let es = value_at(v, q)->0->Object_0;
    lemma_value_wf_at(v, q);
    lemma_apply_at(v, q, PathKey::Key(k1), c1.path, op1);
    lemma_apply_at(v, q, PathKey::Key(k2), c2.path, op2);
    let kp1 = seq![PathKey::Key(k1)];
    let kp2 = seq![PathKey::Key(k2)];
    assert(kp1[0] == PathKey::Key(k1) && key_at(kp1, 0) == Some(k1));
    assert(kp2[0] == PathKey::Key(k2) && key_at(kp2, 0) == Some(k2));
    assert(apply_object_spec(es, k1, op1) is Ok);
    assert(apply_object_spec(es, k2, op2) is Ok);
    lemma_sub_type_result_wf(t1, entries_get(es, k1), o1);
    lemma_sub_type_result_wf(t2, entries_get(es, k2), o2);
    lemma_member_sub_type_facts(es, k1, t1, o1);
    lemma_member_sub_type_facts(es, k2, t2, o2);
    let e1 = apply_object_spec(es, k1, op1)->Ok_0->Object_0;
    let e2 = apply_object_spec(es, k2, op2)->Ok_0->Object_0;
    assert(entries_get(e1, k2) == entries_get(es, k2));
    assert(entries_get(e2, k1) == entries_get(es, k1));
    lemma_member_sub_type_facts(e1, k2, t2, o2);
    lemma_member_sub_type_facts(e2, k1, t1, o1);
    let e12 = apply_object_spec(e1, k2, op2)->Ok_0->Object_0;
    let e21 = apply_object_spec(e2, k1, op1)->Ok_0->Object_0;
    assert(member_after_sub_type(e1, k2, t2, o2) == member_after_sub_type(es, k2, t2, o2));
    assert(member_after_sub_type(e2, k1, t1, o1) == member_after_sub_type(es, k1, t1, o1));
    assert forall|kk: Seq<char>| #[trigger] entries_get(e21, kk) == entries_get(e12, kk) by {
        if kk != k1 && kk != k2 {
            assert(entries_get(e21, kk) == entries_get(e2, kk));
            assert(entries_get(e12, kk) == entries_get(e1, kk));
        } else if kk == k1 {
            assert(entries_get(e12, kk) == entries_get(e1, kk));
        } else {
            assert(entries_get(e21, kk) == entries_get(e2, kk));
        }
    }
    lemma_same_members(e21, e12);
    lemma_apply_member(v, q, es, k2, op2);
    lemma_apply_member(v, q, es, k1, op1);
    let v2 = replace_at(v, q, Json::Object(e2));
    let v1 = replace_at(v, q, Json::Object(e1));
    lemma_replace_at(v, q, Json::Object(e2), Json::Object(e21));
    lemma_replace_at(v, q, Json::Object(e1), Json::Object(e12));
    lemma_apply_member(v2, q, e2, k1, op1);
    lemma_apply_member(v1, q, e1, k2, op2);
    lemma_apply_two(v, c2, c1);
    lemma_apply_two(v, c1, c2);
    assert(seq![c2] + seq![c1] =~= seq![c2, c1]);
    assert(seq![c1] + seq![c2] =~= seq![c1, c2]);
    lemma_json_eq_replace_at(v, q, Json::Object(e21), Json::Object(e12));
}


/// A concurrent addition or text edit at a member of an object and change below
/// another of its members are independent: transformed against each other they
/// stay as they are, and where each applies, applying either one and then the
/// other gives the same document.
#[verifier::spinoff_prover]
#[verifier::rlimit(40)]
pub proof fn law_member_change_and_change_below_converge(
    v: Json,
    q: Seq<PathKey>,
    k1: Seq<char>,
    t1: SubTypeName,
    o1: Json,
    k2: Seq<char>,
    s2: Seq<PathKey>,
    op2: OperatorModel,
)
    requires
        value_at(v, q) matches Some(Json::Object(_)),
        k1 != k2,
        s2.len() > 0,
        component_valid(member_op(q, k1, OperatorModel::SubType(t1, o1))),
        component_valid(change_below_member(q, k2, s2, op2)),
        apply_spec(v, member_op(q, k1, OperatorModel::SubType(t1, o1)).path, OperatorModel::SubType(t1, o1)) is Ok,
        apply_spec(v, change_below_member(q, k2, s2, op2).path, op2) is Ok,
    ensures
        transform_spec(seq![member_op(q, k1, OperatorModel::SubType(t1, o1))], seq![change_below_member(q, k2, s2, op2)])
            == Some((seq![member_op(q, k1, OperatorModel::SubType(t1, o1))], seq![change_below_member(q, k2, s2, op2)])),
        converge(
            v,
            change_below_member(q, k2, s2, op2),
            seq![member_op(q, k1, OperatorModel::SubType(t1, o1))],
            member_op(q, k1, OperatorModel::SubType(t1, o1)),
            seq![change_below_member(q, k2, s2, op2)],
        ),
{
    let op1 = OperatorModel::SubType(t1, o1);
    let c1 = member_op(q, k1, op1);
    let c2 = change_below_member(q, k2, s2, op2);
    let qi = q.len() as int;
    assert(transform_spec(seq![c1], seq![c2]) == Some((seq![c1], seq![c2]))) by {
        reveal(transform_component_spec);
        assert(c1.path[qi] == PathKey::Key(k1));
        assert(c2.path[qi] == PathKey::Key(k2));
        assert(forall|x: int| 0 <= x < q.len() ==> c1.path[x] == q[x] && c2.path[x] == q[x]);
        assert(is_common_prefix_len(c2.path, c1.path, qi));
        assert(is_common_prefix_len(c1.path, c2.path, qi));
        lemma_common_len_unique(c2.path, c1.path, qi);
        lemma_common_len_unique(c1.path, c2.path, qi);
    }
    let es = value_at(v, q)->0->Object_0;
    // The change below `k2`.
    let pk2 = q.push(PathKey::Key(k2));
    assert(c2.path.take(pk2.len() as int) =~= pk2);
    assert(c2.path =~= pk2 + s2);
    lemma_applies_through(v, c2.path, c2.path, op2, pk2.len() as int);
    lemma_value_at_push(v, q, PathKey::Key(k2), Json::Null);
    lemma_value_at_key(es, k2, Json::Null);
    let p2 = key_pos(es, k2);
    lemma_apply_below(v, pk2, s2, c2.path, op2);
    let w = apply_down_spec(es[p2].1, s2, c2.path, op2)->Ok_0;
    lemma_apply_below_member(v, q, es, k2, s2, op2, c2.path, w);
    let esc = es.update(p2, (k2, w));
    // The change at `k1`.
    lemma_apply_at(v, q, PathKey::Key(k1), c1.path, op1);
    let kp1 = seq![PathKey::Key(k1)];
    assert(kp1[0] == PathKey::Key(k1) && key_at(kp1, 0) == Some(k1));
    assert(apply_object_spec(es, k1, op1) is Ok);
    lemma_apply_member(v, q, es, k1, op1);
    let eb = apply_object_spec(es, k1, op1)->Ok_0;
    lemma_key_pos_range(es, k2);
    lemma_key_pos_kept(es, p2, w, k1);
    assert(entries_get(esc, k1) == entries_get(es, k1));
    let fin = apply_object_spec(esc, k1, op1)->Ok_0;
    let vc = replace_at(v, q, Json::Object(esc));
    lemma_replace_at(v, q, Json::Object(esc), fin);
    lemma_apply_member(vc, q, esc, k1, op1);
    let vb = replace_at(v, q, eb);
    lemma_replace_at(v, q, eb, fin);
    match builtin_apply_spec(t1, entries_get(es, k1), o1) {
        Some(Some(nv)) => {
            let ins = OperatorModel::ObjectInsert(nv);
            assert(apply_object_spec(es, k1, ins) == Ok::<Json, ApplyFault>(eb));
            assert(apply_object_spec(esc, k1, ins) == Ok::<Json, ApplyFault>(fin));
            lemma_member_edit_and_below_commute(es, k2, w, k1, ins, ins);
            let ebs = eb->Object_0;
            lemma_apply_below_member(vb, q, ebs, k2, s2, op2, c2.path, w);
        },
        _ => {
            assert(eb == Json::Object(es));
            lemma_apply_below_member(vb, q, es, k2, s2, op2, c2.path, w);
        },
    }
    lemma_apply_two(v, c2, c1);
    lemma_apply_two(v, c1, c2);
    assert(seq![c2] + seq![c1] =~= seq![c2, c1]);
    assert(seq![c1] + seq![c2] =~= seq![c1, c2]);
}


// ---------------------------------------------------------------------------
// Composing.

/// Composing keeps what the operations do: where applying the components of
/// one operation and then those of the other succeeds, applying the composition
/// gives the same document, provided that each merge that composing makes
/// applies as the two components do in turn (as `merge_keeps` says).
#[verifier::spinoff_prover]
pub proof fn law_compose_applies_in_sequence(v: Json, ops: Seq<ComponentModel>, others: Seq<ComponentModel>)
    requires
        forall|i: int| 0 <= i < others.len() ==> (#[trigger] others[i]).path.len() > 0,
        apply_components_spec(v, ops + others) is Ok,
        forall|j: int|
            0 <= j < others.len() ==> merge_keeps(v, compose_spec(ops, others.take(j)), #[trigger] others[j]),
    ensures
        apply_components_spec(v, compose_spec(ops, others)) == apply_components_spec(v, ops + others),
    decreases others.len(),
{
    if others.len() == 0 {
        assert(ops + others =~= ops);
    } else {
        let pre = others.drop_last();
        let c = others.last();
        let n = others.len() - 1;
        assert((ops + others).take((ops + pre).len() as int) =~= ops + pre);
        if apply_components_spec(v, ops + pre) is Err {
            crate::lemma_apply_components_fails(v, ops + others, (ops + pre).len() as int);
        }
        assert forall|j: int| 0 <= j < pre.len() implies merge_keeps(v, compose_spec(ops, pre.take(j)), #[trigger] pre[j])
            by {
            assert(pre.take(j) =~= others.take(j));
            assert(pre[j] == others[j]);
        }
        law_compose_applies_in_sequence(v, ops, pre);
        let cp = compose_spec(ops, pre);
        lemma_apply_push(v, cp, c);
        lemma_apply_push(v, ops + pre, c);
        assert((ops + pre).push(c) =~= ops + others);
        assert(others.take(n) =~= pre);
        assert(merge_keeps(v, compose_spec(ops, others.take(n)), others[n]));
        assert(others[n] == c);
        law_append_applies_in_sequence(v, cp, c);
    }
}

// ---------------------------------------------------------------------------
// Builders and merges.

/// A list builder given a replacement (an old and a new value, and no move)
/// builds a component that writes the new value at its index, and whose inverse
/// puts the old value back where the old value was there.
pub proof fn law_list_builder_replace_writes_new(b: ListBuilderModel, v: Json, items: Seq<Json>, i: usize, o: Json, n: Json)
    requires
        b.move_to is None,
        b.delete == Some(o),
        b.insert == Some(n),
        b.path.len() > 0,
        b.path.last() == PathKey::Index(i),
        value_at(v, b.path.drop_last()) == Some(Json::Array(items)),
        i < items.len(),
    ensures
        apply_spec(v, b.path, list_builder_operator(b)) == Ok::<Json, ApplyFault>(
            replace_at(v, b.path.drop_last(), Json::Array(items.update(i as int, n))),
        ),
        items[i as int] == o ==> ({
            let c = ComponentModel { path: b.path, op: list_builder_operator(b) };
            &&& invert_spec(c) is Some
            &&& apply_spec(v, c.path, c.op) matches Ok(w) && apply_spec(w, invert_spec(c)->0.path, invert_spec(c)->0.op)
                == Ok::<Json, ApplyFault>(v)
        }),
{
    let q = b.path.drop_last();
    assert(b.path =~= q.push(PathKey::Index(i)));
    let op = list_builder_operator(b);
    lemma_apply_at(v, q, PathKey::Index(i), b.path, op);
    if items[i as int] == o {
        let c = ComponentModel { path: b.path, op };
        law_apply_then_invert_restores(v, c);
    }
}

/// Two replacements of the same member in a row merge into one that replaces the
/// value the member held before both, by the value of the second: applying the
/// merged component and then its inverse gives the document back.
pub proof fn law_member_replacements_merge_keep_first_old(v: Json, path: Seq<PathKey>, n1: Json, o1: Json, n2: Json, o2: Json)
    requires
        path.len() > 0,
        path.last() is Key,
        value_at(v, path.drop_last()) matches Some(pv) && undo_fits(pv, path.last(), OperatorModel::ObjectReplace(n1, o1)),
        json_eq(n1, o2),
    ensures
        merge_spec(OperatorModel::ObjectReplace(n1, o1), OperatorModel::ObjectReplace(n2, o2)) matches Some(m) && ({
            let c = ComponentModel { path, op: m };
            &&& invert_spec(c) is Some
            &&& apply_spec(v, path, m) matches Ok(w) && apply_spec(w, invert_spec(c)->0.path, invert_spec(c)->0.op)
                == Ok::<Json, ApplyFault>(v)
        }),
{
    let m = OperatorModel::ObjectReplace(n2, o1);
    assert(merge_spec(OperatorModel::ObjectReplace(n1, o1), OperatorModel::ObjectReplace(n2, o2)) == Some(m));
    law_apply_then_invert_restores(v, ComponentModel { path, op: m });
}

/// Two replacements of the same list element in a row merge into one that
/// replaces the value the element held before both, by the value of the second:
/// applying the merged component and then its inverse gives the document back.
pub proof fn law_element_replacements_merge_keep_first_old(v: Json, path: Seq<PathKey>, n1: Json, o1: Json, n2: Json, o2: Json)
    requires
        path.len() > 0,
        path.last() is Index,
        value_at(v, path.drop_last()) matches Some(pv) && undo_fits(pv, path.last(), OperatorModel::ListReplace(n1, o1)),
        json_eq(n1, o2),
    ensures
        merge_spec(OperatorModel::ListReplace(n1, o1), OperatorModel::ListReplace(n2, o2)) matches Some(m) && ({
            let c = ComponentModel { path, op: m };
            &&& invert_spec(c) is Some
            &&& apply_spec(v, path, m) matches Ok(w) && apply_spec(w, invert_spec(c)->0.path, invert_spec(c)->0.op)
                == Ok::<Json, ApplyFault>(v)
        }),
{
    let m = OperatorModel::ListReplace(n2, o1);
    assert(merge_spec(OperatorModel::ListReplace(n1, o1), OperatorModel::ListReplace(n2, o2)) == Some(m));
    law_apply_then_invert_restores(v, ComponentModel { path, op: m });
}

/// A text builder with an insertion and no deletion builds an operand with the
/// offset under "p", the text under "i" and nothing under "d", which inserts the
/// text at the offset; with a deletion and no insertion, the offset under "p",
/// the text under "d" and nothing under "i", which removes that text from the
/// start of a text that begins with it.
pub proof fn law_text_builder_operand(b: TextBuilderModel, t: Seq<char>)
    requires
        b.offset <= i64::MAX,
    ensures
        b.insert matches Some(s) ==> (b.delete is None ==> (text_builder_operand(b) matches Some(o) && {
            &&& json_member(o, "p"@) == Some(Json::Number(b.offset as i64))
            &&& json_member(o, "i"@) == Some(Json::Str(s))
            &&& json_member(o, "d"@) is None
            &&& b.offset <= t.len() ==> text_apply_spec(Some(Json::Str(t)), o) == Some(
                Some(Json::Str(t.take(b.offset as int) + s + t.skip(b.offset as int))),
            )
        })),
        b.delete matches Some(s) ==> (b.insert is None ==> (text_builder_operand(b) matches Some(o) && {
            &&& json_member(o, "p"@) == Some(Json::Number(b.offset as i64))
            &&& json_member(o, "d"@) == Some(Json::Str(s))
            &&& json_member(o, "i"@) is None
            &&& b.offset == 0 && s.len() <= t.len() && t.take(s.len() as int) == s ==> text_apply_spec(
                Some(Json::Str(t)),
                o,
            ) == Some(Some(Json::Str(t.skip(s.len() as int))))
        })),
{
    lemma_keys_differ();
    let p = b.offset as i64;
    match (b.insert, b.delete) {
        (Some(s), None) => {
            lemma_text_members(p, s, true);
        },
        (None, Some(s)) => {
            lemma_delete_members(p, s);
            if b.offset == 0 && s.len() <= t.len() && t.take(s.len() as int) == s {
                assert(t.subrange(0, s.len() as int) =~= t.take(s.len() as int));
                assert(t.take(0) + t.skip(s.len() as int) =~= t.skip(s.len() as int));
            }
        },
        _ => {},
    }
}

proof fn lemma_delete_members(p: i64, s: Seq<char>)
    ensures
        ({
            let es = seq![("p"@, Json::Number(p)), ("d"@, Json::Str(s))];
            &&& json_member(Json::Object(es), "p"@) == Some(Json::Number(p))
            &&& json_member(Json::Object(es), "d"@) == Some(Json::Str(s))
            &&& json_member(Json::Object(es), "i"@) is None
        }),
{
    lemma_keys_differ();
    let es = seq![("p"@, Json::Number(p)), ("d"@, Json::Str(s))];
    lemma_key_pos_absent(es, "i"@);
    lemma_key_pos_found(es, "p"@, 0);
    assert(is_first_key(es, "d"@, 1));
    lemma_key_pos_found(es, "d"@, 1);
}

/// A text deletion of `s` at the offset `p` of the string at `path`, its operand
/// written as the builder writes it.
pub open spec fn text_delete(path: Seq<PathKey>, p: i64, s: Seq<char>) -> ComponentModel {
    ComponentModel {
        path,
        op: OperatorModel::SubType(SubTypeName::Text, Json::Object(seq![("p"@, Json::Number(p)), ("d"@, Json::Str(s))])),
    }
}

/// A text insertion made concurrently with a deletion that lies wholly before it
/// moves left by the length of the deleted text when transformed against it, and
/// the two converge: applying the deletion and then the transformed insertion
/// gives the same text as applying the insertion and then the deletion.
#[verifier::spinoff_prover]
#[verifier::rlimit(40)]
pub proof fn law_text_insert_after_delete_converges(
    v: Json,
    path: Seq<PathKey>,
    t: Seq<char>,
    pos: i64,
    x: Seq<char>,
    q: i64,
    d: Seq<char>,
    right: bool,
)
    requires
        path.len() > 0,
        value_at(v, path) == Some(Json::Str(t)),
        text_apply_spec(Some(Json::Str(t)), text_delete(path, q, d).op->SubType_1) matches Some(Some(_)),
        0 <= q,
        q + d.len() <= pos <= t.len(),
        pos <= usize::MAX,
    ensures
        transform_component_spec(text_insert(path, pos, x), text_delete(path, q, d), right) == Some(
            seq![transformed_text_insert(path, (pos - d.len()) as i64, x)],
        ),
        apply_spec(v, path, text_delete(path, q, d).op) matches Ok(w) && apply_spec(
            v,
            path,
            text_insert(path, pos, x).op,
        ) matches Ok(u) && apply_spec(u, path, text_delete(path, q, d).op) is Ok && apply_spec(
            w,
            path,
            transformed_text_insert(path, (pos - d.len()) as i64, x).op,
        ) == apply_spec(u, path, text_delete(path, q, d).op),
{
    let ci = text_insert(path, pos, x);
    let cd = text_delete(path, q, d);
    let tp = (pos - d.len()) as i64;
    lemma_keys_differ();
    lemma_delete_members(q, d);
    lemma_text_members(pos, x, true);
    lemma_text_members(tp, x, false);
    // The deletion applies only where it starts at the start of the text.
    assert(d.len() == t.subrange(q as int, d.len() as int).len());
    assert(q == 0);
    // The transformation.
    reveal(transform_component_spec);
    lemma_common_len_unique(path, path, path.len() as int);
    let out = seq![Json::Object(seq![("i"@, Json::Str(x)), ("p"@, Json::Number(tp))])];
    assert(builtin_transform_spec(SubTypeName::Text, ci.op->SubType_1, cd.op->SubType_1, right) == Some(out));
    let cs = sub_type_components_spec(path, SubTypeName::Text, out)->0;
    assert(cs =~= seq![transformed_text_insert(path, tp, x)]);
    // Deleting, then inserting.
    let t1 = t.skip(d.len() as int);
    assert(t.take(0) + t.skip(0 + d.len() as int) =~= t1);
    lemma_apply_sub_type(v, path, SubTypeName::Text, cd.op->SubType_1, Json::Str(t), Json::Str(t1));
    let w = replace_at(v, path, Json::Str(t1));
    lemma_replace_at(v, path, Json::Str(t1), Json::Str(t1));
    lemma_apply_text_insert(w, path, t1, tp, x, false);
    let t12 = inserted_text(t1, tp as int, x);
    lemma_replace_at(v, path, Json::Str(t1), Json::Str(t12));
    // Inserting, then deleting.
    lemma_apply_text_insert(v, path, t, pos, x, true);
    let t2 = inserted_text(t, pos as int, x);
    let u = replace_at(v, path, Json::Str(t2));
    lemma_replace_at(v, path, Json::Str(t2), Json::Str(t2));
    assert(t2.subrange(0, d.len() as int) =~= t.subrange(0, d.len() as int));
    let t21 = t2.skip(d.len() as int);
    assert(t2.take(0) + t2.skip(0 + d.len() as int) =~= t21);
    assert(text_apply_spec(Some(Json::Str(t2)), cd.op->SubType_1) == Some(Some(Json::Str(t21))));
    lemma_apply_sub_type(u, path, SubTypeName::Text, cd.op->SubType_1, Json::Str(t2), Json::Str(t21));
    lemma_replace_at(v, path, Json::Str(t2), Json::Str(t21));
    assert(t12 =~= t21);
}

/// An object builder given a replacement (an old and a new value) builds a
/// component that, where the member is there, makes it hold the new value, and
/// whose inverse puts the old value back where the old value was there.
pub proof fn law_object_builder_replace_writes_new(
    b: ObjectBuilderModel,
    v: Json,
    es: Seq<(Seq<char>, Json)>,
    k: Seq<char>,
    o: Json,
    n: Json,
)
    requires
        b.delete == Some(o),
        b.insert == Some(n),
        b.path.len() > 0,
        b.path.last() == PathKey::Key(k),
        value_at(v, b.path.drop_last()) == Some(Json::Object(es)),
        entries_get(es, k) is Some,
    ensures
        apply_spec(v, b.path, object_builder_operator(b)) == Ok::<Json, ApplyFault>(
            replace_at(v, b.path.drop_last(), Json::Object(entries_insert(es, k, n))),
        ),
        entries_get(entries_insert(es, k, n), k) == Some(n),
        entries_get(es, k) == Some(o) ==> ({
            let c = ComponentModel { path: b.path, op: object_builder_operator(b) };
            &&& invert_spec(c) is Some
            &&& apply_spec(v, c.path, c.op) matches Ok(w) && apply_spec(w, invert_spec(c)->0.path, invert_spec(c)->0.op)
                == Ok::<Json, ApplyFault>(v)
        }),
{
    let q = b.path.drop_last();
    assert(b.path =~= q.push(PathKey::Key(k)));
    let op = object_builder_operator(b);
    lemma_apply_at(v, q, PathKey::Key(k), b.path, op);
    lemma_entries_get_insert(es, k, n);
    if entries_get(es, k) == Some(o) {
        law_apply_then_invert_restores(v, ComponentModel { path: b.path, op });
    }
}

/// A replacement of a list element followed by the deletion of the new value
/// merges into the deletion of the value the element held before both: applying
/// the merged component and then its inverse gives the document back.
pub proof fn law_element_replace_then_delete_merge_keeps_first_old(v: Json, path: Seq<PathKey>, n1: Json, o1: Json, y: Json)
    requires
        path.len() > 0,
        path.last() is Index,
        value_at(v, path.drop_last()) matches Some(pv) && undo_fits(pv, path.last(), OperatorModel::ListReplace(n1, o1)),
        json_eq(n1, y),
    ensures
        merge_spec(OperatorModel::ListReplace(n1, o1), OperatorModel::ListDelete(y)) matches Some(m) && ({
            let c = ComponentModel { path, op: m };
            &&& invert_spec(c) is Some
            &&& apply_spec(v, path, m) matches Ok(w) && apply_spec(w, invert_spec(c)->0.path, invert_spec(c)->0.op)
                == Ok::<Json, ApplyFault>(v)
        }),
{
    let m = OperatorModel::ListDelete(o1);
    assert(merge_spec(OperatorModel::ListReplace(n1, o1), OperatorModel::ListDelete(y)) == Some(m));
    law_apply_then_invert_restores(v, ComponentModel { path, op: m });
}

/// A deletion of a member followed by an insertion under the same key merges into
/// a replacement of the deleted value by the inserted one: applying it and then
/// its inverse gives the document back.
pub proof fn law_member_delete_then_insert_merge_restores(v: Json, path: Seq<PathKey>, x: Json, y: Json)
    requires
        path.len() > 0,
        path.last() is Key,
        value_at(v, path.drop_last()) matches Some(pv) && undo_fits(pv, path.last(), OperatorModel::ObjectReplace(y, x)),
    ensures
        merge_spec(OperatorModel::ObjectDelete(x), OperatorModel::ObjectInsert(y)) matches Some(m) && ({
            let c = ComponentModel { path, op: m };
            &&& invert_spec(c) is Some
            &&& apply_spec(v, path, m) matches Ok(w) && apply_spec(w, invert_spec(c)->0.path, invert_spec(c)->0.op)
                == Ok::<Json, ApplyFault>(v)
        }),
{
    let m = OperatorModel::ObjectReplace(y, x);
    assert(merge_spec(OperatorModel::ObjectDelete(x), OperatorModel::ObjectInsert(y)) == Some(m));
    law_apply_then_invert_restores(v, ComponentModel { path, op: m });
}

/// A text insertion made concurrently with a deletion that covers its offset
/// lands, transformed against the deletion, where the deleted text was: applying
/// the deletion and then the transformed insertion puts its text in place of the
/// deleted one.
#[verifier::spinoff_prover]
#[verifier::rlimit(40)]
pub proof fn law_text_insert_inside_delete_lands_in_its_place(
    v: Json,
    path: Seq<PathKey>,
    t: Seq<char>,
    pos: i64,
    x: Seq<char>,
    q: i64,
    d: Seq<char>,
    right: bool,
)
    requires
        path.len() > 0,
        value_at(v, path) == Some(Json::Str(t)),
        text_apply_spec(Some(Json::Str(t)), text_delete(path, q, d).op->SubType_1) matches Some(Some(_)),
        0 <= q <= pos <= q + d.len(),
        q + d.len() <= usize::MAX,
    ensures
        transform_component_spec(text_insert(path, pos, x), text_delete(path, q, d), right) == Some(
            seq![transformed_text_insert(path, q, x)],
        ),
        apply_spec(v, path, text_delete(path, q, d).op) matches Ok(w) && apply_spec(
            w,
            path,
            transformed_text_insert(path, q, x).op,
        ) == Ok::<Json, ApplyFault>(
            replace_at(v, path, Json::Str(t.take(q as int) + x + t.skip(q + d.len()))),
        ),
{
    let ci = text_insert(path, pos, x);
    let cd = text_delete(path, q, d);
    lemma_keys_differ();
    lemma_delete_members(q, d);
    lemma_text_members(pos, x, true);
    lemma_text_members(q, x, false);
    assert(d.len() == t.subrange(q as int, d.len() as int).len());
    assert(q == 0);
    reveal(transform_component_spec);
    lemma_common_len_unique(path, path, path.len() as int);
    let out = seq![Json::Object(seq![("i"@, Json::Str(x)), ("p"@, Json::Number(q))])];
    assert(builtin_transform_spec(SubTypeName::Text, ci.op->SubType_1, cd.op->SubType_1, right) == Some(out));
    let cs = sub_type_components_spec(path, SubTypeName::Text, out)->0;
    assert(cs =~= seq![transformed_text_insert(path, q, x)]);
    let t1 = t.skip(d.len() as int);
    assert(t.take(0) + t.skip(0 + d.len() as int) =~= t1);
    lemma_apply_sub_type(v, path, SubTypeName::Text, cd.op->SubType_1, Json::Str(t), Json::Str(t1));
    let w = replace_at(v, path, Json::Str(t1));
    lemma_replace_at(v, path, Json::Str(t1), Json::Str(t1));
    lemma_apply_text_insert(w, path, t1, q, x, false);
    let t12 = inserted_text(t1, q as int, x);
    lemma_replace_at(v, path, Json::Str(t1), Json::Str(t12));
    assert(t12 =~= t.take(q as int) + x + t.skip(q + d.len()));
}

} // verus!
