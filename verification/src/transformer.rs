//! Transformation of concurrent operations against each other.
//!
//! When two operations were made on the same document, transforming one
//! against the other gives what it must become to apply after the other.
use vstd::prelude::*;

use crate::common::Validation;
use crate::error::{JsonError, Result, invalid_operation};
use crate::json::{apply_spec, is_custom_op, outcome_is, sub_down_spec, sub_target_down};
use crate::operation::{ComponentModel, Operation, OperationComponent, Operator, OperatorModel, all_valid,
    custom_operand_refused, custom_operands_accepted, validate_custom_operands,
    component_valid, components_view, operate_path_len_spec};
use crate::path::{Path, PathElement, PathKey, index_at, is_common_prefix_len, key_le, key_lt};
use crate::sub_type::{SubType, SubTypeFunctions, SubTypeFunctionsHolder, SubTypeName, builtin_transform_spec,
    is_right_side, sub_type_transform, sub_type_validate};
use crate::value::{Json, Value, json_eq, values_view};

verus! {

/// Which of two concurrent operations goes first where they collide: the
/// operation transformed on the left side wins.
#[derive(PartialEq, Eq, Structural, Debug, Clone, Copy)]
pub enum TransformSide {
    LEFT,
    RIGHT,
}

// ---------------------------------------------------------------------------
// The model of transformation.

/// A component that changes nothing: no operator, a replacement of a value by an
/// equal one, or a move of an element to where it already is.
pub open spec fn is_noop_equiv(c: ComponentModel) -> bool {
    match c.op {
        OperatorModel::Noop => true,
        OperatorModel::ListReplace(n, o) => json_eq(n, o),
        OperatorModel::ObjectReplace(n, o) => json_eq(n, o),
        OperatorModel::ListMove(lm) => c.path.len() > 0 && c.path.last() == PathKey::Index(lm),
        _ => false,
    }
}

/// The length of the longest common prefix of two paths.
pub open spec fn common_len(a: Seq<PathKey>, b: Seq<PathKey>) -> int {
    choose|n: int| is_common_prefix_len(a, b, n)
}

/// There is only one length of longest common prefix.
pub proof fn lemma_common_len_unique(a: Seq<PathKey>, b: Seq<PathKey>, n: int)
    requires
        is_common_prefix_len(a, b, n),
    ensures
        common_len(a, b) == n,
{
    let m = common_len(a, b);
    assert(is_common_prefix_len(a, b, m));
    if m < n {
        assert(a[m] == b[m]);
    } else if n < m {
        assert(a[n] == b[n]);
    }
}

/// `p` with the index at `i` one larger; `None` where it would overflow. An element
/// that is no index stays as it is.
pub open spec fn inc_at(p: Seq<PathKey>, i: int) -> Option<Seq<PathKey>> {
    match index_at(p, i) {
        Some(n) => if n == usize::MAX {
            None
        } else {
            Some(p.update(i, PathKey::Index((n + 1) as usize)))
        },
        None => Some(p),
    }
}

/// `p` with the index at `i` one smaller. An element that is no index stays as it is.
pub open spec fn dec_at(p: Seq<PathKey>, i: int) -> Seq<PathKey> {
    match index_at(p, i) {
        Some(n) => p.update(i, PathKey::Index((n - 1) as usize)),
        None => p,
    }
}

/// A single component.
pub open spec fn one(c: ComponentModel) -> Seq<ComponentModel> {
    seq![c]
}

/// The component `c` with another path.
pub open spec fn at_path(c: ComponentModel, p: Seq<PathKey>) -> ComponentModel {
    ComponentModel { path: p, op: c.op }
}

/// What a value removed or replaced by a component becomes when `op` has changed
/// it at `p` below it first; the value stays as it is where `op` cannot apply.
pub open spec fn consumed(v: Json, p: Seq<PathKey>, op: OperatorModel) -> Json {
    match apply_spec(v, p, op) {
        Ok(nv) => nv,
        Err(_) => v,
    }
}

/// The operator removes or replaces a value, which it holds.
pub open spec fn holds_removed_value(op: OperatorModel) -> bool {
    ||| op is ListDelete
    ||| op is ListReplace
    ||| op is ObjectDelete
    ||| op is ObjectReplace
}

/// `new`, whose path is a prefix of the path of `base`, removes or replaces a value
/// that `base` changes inside: the removed value takes in the change of `base`.
pub open spec fn consume_spec(new: ComponentModel, m: int, base: ComponentModel) -> ComponentModel {
    let p = base.path.skip(m);
    let op = match new.op {
        OperatorModel::ListDelete(v) => OperatorModel::ListDelete(consumed(v, p, base.op)),
        OperatorModel::ListReplace(n, v) => OperatorModel::ListReplace(n, consumed(v, p, base.op)),
        OperatorModel::ObjectDelete(v) => OperatorModel::ObjectDelete(consumed(v, p, base.op)),
        OperatorModel::ObjectReplace(n, v) => OperatorModel::ObjectReplace(n, consumed(v, p, base.op)),
        _ => new.op,
    };
    ComponentModel { path: new.path, op }
}

/// The components at `path` with the sub type operator `t` and each of `xs` as
/// operand, when all are valid.
pub open spec fn sub_type_components_spec(path: Seq<PathKey>, t: SubTypeName, xs: Seq<Json>) -> Option<
    Seq<ComponentModel>,
> {
    let cs = Seq::new(xs.len(), |i: int| ComponentModel { path, op: OperatorModel::SubType(t, xs[i]) });
    if forall|i: int| 0 <= i < cs.len() ==> component_valid(#[trigger] cs[i]) {
        Some(cs)
    } else {
        None
    }
}

/// `base` is a sub type operator at a path that `new` reaches.
pub open spec fn against_sub_type(new: ComponentModel, base: ComponentModel, right: bool) -> Option<Seq<ComponentModel>> {
    match (base.op, new.op) {
        (OperatorModel::SubType(bt, bo), OperatorModel::SubType(nt, no)) => if bt == nt {
            match builtin_transform_spec(bt, no, bo, right) {
                Some(xs) => sub_type_components_spec(base.path, bt, xs),
                None => None,
            }
        } else {
            Some(one(new))
        },
        _ => Some(one(new)),
    }
}

/// The operand of a sub type operator (`Null` for any other operator).
pub open spec fn sub_operand(op: OperatorModel) -> Json {
    match op {
        OperatorModel::SubType(_, o) => o,
        _ => Json::Null,
    }
}

/// What `new` becomes against the sub type operator `base` of a custom sub type,
/// as `against_sub_type` says, where `res` is what the functions of that sub type
/// make of the two operands (`None` for an error).
pub open spec fn against_custom_sub_type(new: ComponentModel, base: ComponentModel, res: Option<Seq<Json>>) -> Option<
    Seq<ComponentModel>,
> {
    match (base.op, new.op) {
        (OperatorModel::SubType(bt, _), OperatorModel::SubType(nt, _)) => if bt == nt {
            match res {
                Some(xs) => sub_type_components_spec(base.path, bt, xs),
                None => None,
            }
        } else {
            Some(one(new))
        },
        _ => Some(one(new)),
    }
}

/// The value that an operator which removes or replaces a value holds (`Null`
/// for any other operator).
pub open spec fn removed_value(op: OperatorModel) -> Json {
    match op {
        OperatorModel::ListDelete(v) => v,
        OperatorModel::ListReplace(_, v) => v,
        OperatorModel::ObjectDelete(v) => v,
        OperatorModel::ObjectReplace(_, v) => v,
        _ => Json::Null,
    }
}

/// `consumed` for an operator of a custom sub type, where `res` is what its
/// functions make of the value at the end of `p` below `v`.
pub open spec fn consumed_with(v: Json, p: Seq<PathKey>, op: OperatorModel, res: Option<Option<Json>>) -> Json {
    match sub_down_spec(v, p, p, op, res) {
        Ok(nv) => nv,
        Err(_) => v,
    }
}

/// `consume_spec` where `base` is an operator of a custom sub type, whose
/// functions make `res` of the value that they change.
pub open spec fn consume_custom_spec(new: ComponentModel, m: int, base: ComponentModel, res: Option<Option<Json>>) -> ComponentModel {
    let p = base.path.skip(m);
    let op = match new.op {
        OperatorModel::ListDelete(v) => OperatorModel::ListDelete(consumed_with(v, p, base.op, res)),
        OperatorModel::ListReplace(n, v) => OperatorModel::ListReplace(n, consumed_with(v, p, base.op, res)),
        OperatorModel::ObjectDelete(v) => OperatorModel::ObjectDelete(consumed_with(v, p, base.op, res)),
        OperatorModel::ObjectReplace(n, v) => OperatorModel::ObjectReplace(n, consumed_with(v, p, base.op, res)),
        _ => new.op,
    };
    ComponentModel { path: new.path, op }
}

/// What `new` becomes against `base`, an operator of a custom sub type, as
/// `transform_component_spec` says, where the functions of that sub type make
/// `tres` of the two operands and `ares` of the value that `new` removes, below
/// it where `base` applies.
pub open spec fn transform_component_custom_spec(
    new: ComponentModel,
    base: ComponentModel,
    tres: Option<Seq<Json>>,
    ares: Option<Option<Json>>,
) -> Option<Seq<ComponentModel>> {
    if is_noop_equiv(new) || is_noop_equiv(base) {
        Some(one(new))
    } else {
        let m = common_len(base.path, new.path);
        let nol = operate_path_len_spec(new);
        let bol = operate_path_len_spec(base);
        if m < nol && m < bol {
            Some(one(new))
        } else if bol > nol {
            if new.path.is_prefix_of(base.path) {
                Some(one(consume_custom_spec(new, m, base, ares)))
            } else {
                Some(one(new))
            }
        } else {
            against_custom_sub_type(new, base, tres)
        }
    }
}

/// What the functions of a custom sub type give when a component is transformed
/// against one of theirs: what they make of the two operands, and of the value
/// that the component removes (`transform_component_custom_spec`).
pub type CustomTransform = (Option<Seq<Json>>, Option<Option<Json>>);

/// What `new` becomes against `base`: `transform_component_spec` for a built-in
/// `base`; for one of a custom sub type, `transform_component_custom_spec` with
/// `x`, what its functions give.
pub open spec fn transform_component_with(
    new: ComponentModel,
    base: ComponentModel,
    right: bool,
    x: CustomTransform,
) -> Option<Seq<ComponentModel>> {
    if is_custom_op(base.op) {
        transform_component_custom_spec(new, base, x.0, x.1)
    } else {
        transform_component_spec(new, base, right)
    }
}

/// Where `base` is of a custom sub type, `x` is what its functions in `h` give
/// for `new` against it on the side `right`: some functions registered for it
/// give both parts of `x`, or, where none are registered, both are errors.
pub open spec fn custom_transform_fits(
    h: &SubTypeFunctionsHolder,
    new: ComponentModel,
    base: ComponentModel,
    right: bool,
    x: CustomTransform,
) -> bool {
    match base.op {
        OperatorModel::SubType(SubTypeName::Custom(name), bo) => if h.has(name) {
            exists|f: Box<dyn SubTypeFunctions>|
                #![trigger f.transform_result(sub_operand(new.op), bo, right)]
                x.0 == f.transform_result(sub_operand(new.op), bo, right) && x.1 == f.apply_result(
                    sub_target_down(removed_value(new.op), base.path.skip(common_len(base.path, new.path))),
                    bo,
                )
        } else {
            x.0 is None && x.1 is None
        },
        _ => true,
    }
}

/// `base` replaces the list element `li`; `sp`: same operand, `bp`: the path of
/// `base` is a prefix of that of `new`.
pub open spec fn against_list_replace(new: ComponentModel, li: Json, right: bool, sp: bool, bp: bool) -> Option<
    Seq<ComponentModel>,
> {
    if bp {
        if !sp {
            Some(Seq::empty())
        } else {
            match new.op {
                OperatorModel::ListReplace(nl, _) => if !right {
                    let c = ComponentModel { path: new.path, op: OperatorModel::ListReplace(nl, li) };
                    if component_valid(c) {
                        Some(one(c))
                    } else {
                        None
                    }
                } else {
                    Some(Seq::empty())
                },
                OperatorModel::ListDelete(_) => Some(Seq::empty()),
                _ => Some(one(new)),
            }
        }
    } else {
        Some(one(new))
    }
}

/// `base` inserts into a list, at element `bol` of its path.
pub open spec fn against_list_insert(
    new: ComponentModel,
    base: ComponentModel,
    right: bool,
    sp: bool,
    bp: bool,
    bol: int,
) -> Option<Seq<ComponentModel>> {
    if new.op is ListInsert && sp && bp {
        if right {
            match inc_at(new.path, bol) {
                Some(p) => Some(one(at_path(new, p))),
                None => None,
            }
        } else {
            Some(one(new))
        }
    } else {
        let p1 = if bol < base.path.len() && bol < new.path.len() && key_le(base.path[bol], new.path[bol]) {
            inc_at(new.path, bol)
        } else {
            Some(new.path)
        };
        match p1 {
            None => None,
            Some(p) => match new.op {
                OperatorModel::ListMove(lm) => if sp && bol < base.path.len() && key_le(
                    base.path[bol],
                    PathKey::Index(lm),
                ) {
                    if lm == usize::MAX {
                        None
                    } else {
                        Some(one(ComponentModel { path: p, op: OperatorModel::ListMove((lm + 1) as usize) }))
                    }
                } else {
                    Some(one(at_path(new, p)))
                },
                _ => Some(one(at_path(new, p))),
            },
        }
    }
}

/// `new` moves an element within the list from which `base` deletes element `bop`:
/// where the element lands afterwards.
pub open spec fn moved_after_delete(op: OperatorModel, bop: PathKey, nop: PathKey, sp: bool) -> OperatorModel {
    match op {
        OperatorModel::ListMove(lm) => if sp && (key_lt(bop, PathKey::Index(lm)) || (bop == PathKey::Index(lm)
            && key_lt(nop, PathKey::Index(lm)))) {
            OperatorModel::ListMove((lm - 1) as usize)
        } else {
            op
        },
        _ => op,
    }
}

/// `base` deletes from a list, at element `bol` of its path.
pub open spec fn against_list_delete(
    new: ComponentModel,
    base: ComponentModel,
    sp: bool,
    bp: bool,
    bol: int,
) -> Option<Seq<ComponentModel>> {
    if !(0 <= bol < base.path.len() && bol < new.path.len()) {
        None
    } else if new.op is ListMove && sp && bp {
        Some(Seq::empty())
    } else {
        let bop = base.path[bol];
        let nop = new.path[bol];
        let op2 = moved_after_delete(new.op, bop, nop, sp);
        if key_lt(bop, nop) {
            Some(one(ComponentModel { path: dec_at(new.path, bol), op: op2 }))
        } else if bp {
            if !sp {
                Some(Seq::empty())
            } else {
                match op2 {
                    OperatorModel::ListDelete(_) => Some(Seq::empty()),
                    OperatorModel::ListReplace(li, _) => {
                        let c = ComponentModel { path: new.path, op: OperatorModel::ListInsert(li) };
                        if component_valid(c) {
                            Some(one(c))
                        } else {
                            None
                        }
                    },
                    _ => Some(one(ComponentModel { path: new.path, op: op2 })),
                }
            }
        } else {
            Some(one(ComponentModel { path: new.path, op: op2 }))
        }
    }
}

/// The value that `new` inserts into or sets in an object, if it does.
pub open spec fn object_new_value(op: OperatorModel) -> Option<Json> {
    match op {
        OperatorModel::ObjectReplace(n, _) => Some(n),
        OperatorModel::ObjectInsert(n) => Some(n),
        _ => None,
    }
}

/// `base` replaces the object member `oi`.
pub open spec fn against_object_replace(new: ComponentModel, oi: Json, right: bool, sp: bool, bp: bool) -> Option<
    Seq<ComponentModel>,
> {
    if bp {
        if !sp {
            Some(Seq::empty())
        } else {
            match object_new_value(new.op) {
                Some(n) => if right {
                    Some(Seq::empty())
                } else {
                    Some(one(ComponentModel { path: new.path, op: OperatorModel::ObjectReplace(n, oi) }))
                },
                None => Some(Seq::empty()),
            }
        }
    } else {
        Some(one(new))
    }
}

/// `base` inserts the object member `boi`.
pub open spec fn against_object_insert(
    new: ComponentModel,
    base: ComponentModel,
    boi: Json,
    right: bool,
    sp: bool,
    bp: bool,
) -> Option<Seq<ComponentModel>> {
    if bp {
        match object_new_value(new.op) {
            Some(n) => if !right {
                if sp {
                    Some(one(ComponentModel { path: base.path, op: OperatorModel::ObjectReplace(n, boi) }))
                } else {
                    Some(seq![ComponentModel { path: base.path, op: OperatorModel::ObjectDelete(boi) }, new])
                }
            } else {
                Some(Seq::empty())
            },
            None => if new.op is ObjectDelete && right {
                Some(Seq::empty())
            } else {
                Some(one(new))
            },
        }
    } else {
        Some(one(new))
    }
}

/// `base` deletes an object member.
pub open spec fn against_object_delete(new: ComponentModel, right: bool, sp: bool, bp: bool) -> Option<
    Seq<ComponentModel>,
> {
    if bp {
        if !sp {
            Some(Seq::empty())
        } else {
            match object_new_value(new.op) {
                Some(n) => if !right {
                    Some(one(ComponentModel { path: new.path, op: OperatorModel::ObjectInsert(n) }))
                } else {
                    Some(Seq::empty())
                },
                None => Some(Seq::empty()),
            }
        }
    } else {
        Some(one(new))
    }
}

/// Where the element moved by `new` lands when `base` has moved element `ofrom`
/// of the same list to `oto` first: the new target, before the bounds check.
pub open spec fn move_target(
    new_lm: int,
    from: PathKey,
    ofrom: PathKey,
    oto: PathKey,
    right: bool,
) -> (int, int) {
    let to = PathKey::Index(new_lm as usize);
    let c1 = key_lt(oto, from);
    let c2 = from == oto && key_lt(oto, ofrom);
    let n1 = if !c1 && c2 && from == to {
        new_lm + 1
    } else {
        new_lm
    };
    let n2 = if key_lt(ofrom, to) || (to == ofrom && key_lt(from, to)) {
        n1 - 1
    } else {
        n1
    };
    let n3 = if key_lt(oto, to) {
        n2 + 1
    } else if to == oto {
        if (key_lt(ofrom, oto) && key_lt(from, to)) || (key_lt(oto, ofrom) && key_lt(to, from)) {
            if right {
                n2 + 1
            } else {
                n2
            }
        } else if key_lt(from, to) {
            n2 + 1
        } else if to == ofrom {
            n2 - 1
        } else {
            n2
        }
    } else {
        n2
    };
    (n1, n3)
}

/// Both `new` and `base` move elements of the same list, from different places.
pub open spec fn move_against_move(
    new: ComponentModel,
    new_lm: usize,
    from: PathKey,
    ofrom: PathKey,
    oto: PathKey,
    right: bool,
    bol: int,
) -> Option<Seq<ComponentModel>> {
    let p1 = if key_lt(ofrom, from) {
        dec_at(new.path, bol)
    } else {
        new.path
    };
    let p2 = if key_lt(oto, from) || (from == oto && key_lt(oto, ofrom)) {
        inc_at(p1, bol)
    } else {
        Some(p1)
    };
    let (n1, n3) = move_target(new_lm as int, from, ofrom, oto, right);
    if n1 > usize::MAX || n3 < 0 || n3 > usize::MAX {
        None
    } else {
        match p2 {
            None => None,
            Some(p) => Some(one(ComponentModel { path: p, op: OperatorModel::ListMove(n3 as usize) })),
        }
    }
}

/// `base` moves element `bol` of its path to `lm`.
pub open spec fn against_list_move(
    new: ComponentModel,
    base: ComponentModel,
    lm: usize,
    right: bool,
    sp: bool,
    bol: int,
    nol: int,
) -> Option<Seq<ComponentModel>> {
    if sp && new.op is ListMove {
        let new_lm = new.op->ListMove_0;
        let ofrom = base.path[nol];
        let oto = PathKey::Index(lm);
        let from = new.path[nol];
        let to = PathKey::Index(new_lm);
        if !(0 <= nol < base.path.len()) {
            None
        } else if ofrom == oto {
            Some(one(new))
        } else if !(nol < new.path.len()) {
            None
        } else {
            if from == ofrom {
                if to == oto {
                    Some(Seq::empty())
                } else if !right {
                    let op = if from == to {
                        base.op
                    } else {
                        new.op
                    };
                    Some(one(ComponentModel { path: new.path.update(bol, oto), op }))
                } else {
                    Some(Seq::empty())
                }
            } else {
                move_against_move(new, new_lm, from, ofrom, oto, right, bol)
            }
        }
    } else if !(0 <= bol < base.path.len() && bol < new.path.len()) {
        None
    } else {
        let from = base.path[bol];
        let p = new.path[bol];
        let to = PathKey::Index(lm);
        if sp && new.op is ListInsert {
            let p1 = if key_lt(from, p) {
                dec_at(new.path, bol)
            } else {
                new.path
            };
            if key_lt(to, p) {
                match inc_at(p1, bol) {
                    Some(p2) => Some(one(at_path(new, p2))),
                    None => None,
                }
            } else {
                Some(one(at_path(new, p1)))
            }
        } else if p == from {
            Some(one(at_path(new, new.path.update(bol, to))))
        } else {
            let p1 = if key_lt(from, p) {
                dec_at(new.path, bol)
            } else {
                new.path
            };
            if key_lt(to, p) || (p == to && key_lt(to, from)) {
                match inc_at(p1, bol) {
                    Some(p2) => Some(one(at_path(new, p2))),
                    None => None,
                }
            } else {
                Some(one(at_path(new, p1)))
            }
        }
    }
}

/// What the component `new` becomes when `base`, made concurrently on the same
/// document, applies first; `right` says that `new` loses where both collide.
/// `None` stands for an error.
#[verifier::opaque]
pub open spec fn transform_component_spec(new: ComponentModel, base: ComponentModel, right: bool) -> Option<
    Seq<ComponentModel>,
> {
    if is_noop_equiv(new) || is_noop_equiv(base) {
        Some(one(new))
    } else {
        let m = common_len(base.path, new.path);
        let nol = operate_path_len_spec(new);
        let bol = operate_path_len_spec(base);
        if m < nol && m < bol {
            Some(one(new))
        } else if bol > nol {
            if new.path.is_prefix_of(base.path) {
                Some(one(consume_spec(new, m, base)))
            } else {
                Some(one(new))
            }
        } else {
            let sp = base.path.len() == new.path.len();
            let bp = base.path.is_prefix_of(new.path);
            match base.op {
                OperatorModel::SubType(_, _) => against_sub_type(new, base, right),
                OperatorModel::ListReplace(li, _) => against_list_replace(new, li, right, sp, bp),
                OperatorModel::ListInsert(_) => against_list_insert(new, base, right, sp, bp, bol),
                OperatorModel::ListDelete(_) => against_list_delete(new, base, sp, bp, bol),
                OperatorModel::ObjectReplace(oi, _) => against_object_replace(new, oi, right, sp, bp),
                OperatorModel::ObjectInsert(boi) => against_object_insert(new, base, boi, right, sp, bp),
                OperatorModel::ObjectDelete(_) => against_object_delete(new, right, sp, bp),
                OperatorModel::ListMove(lm) => against_list_move(new, base, lm, right, sp, bol, nol),
                OperatorModel::Noop => Some(one(new)),
            }
        }
    }
}

/// No component is of a custom sub type.
pub open spec fn all_builtin(s: Seq<ComponentModel>) -> bool {
    forall|i: int| 0 <= i < s.len() ==> !is_custom_op(#[trigger] s[i].op)
}

/// The component, unless it does nothing.
pub open spec fn not_noop_spec(c: ComponentModel) -> Option<ComponentModel> {
    if c.op is Noop {
        None
    } else {
        Some(c)
    }
}

/// One step of transforming the components of an operation against one base
/// component: `acc` holds what the components so far became and what the base
/// component became after them.
pub open spec fn multi_step(acc: Option<(Seq<ComponentModel>, Option<ComponentModel>)>, op: ComponentModel) -> Option<
    (Seq<ComponentModel>, Option<ComponentModel>),
> {
    match acc {
        None => None,
        Some((out, base)) => match base {
            None => Some((out.push(op), None)),
            Some(b) => match transform_component_spec(op, b, false) {
                None => None,
                Some(a) => match transform_component_spec(b, op, true) {
                    None => None,
                    Some(bs) => if bs.len() == 1 {
                        Some((out + a, Some(bs[0])))
                    } else {
                        None
                    },
                },
            },
        },
    }
}

/// The components of `ops` transformed one after the other against `base`, and
/// what `base` became after them all.
pub open spec fn multi_fold(ops: Seq<ComponentModel>, base: Option<ComponentModel>) -> Option<
    (Seq<ComponentModel>, Option<ComponentModel>),
>
    decreases ops.len(),
{
    if ops.len() == 0 {
        Some((Seq::empty(), base))
    } else {
        multi_step(multi_fold(ops.drop_last(), base), ops.last())
    }
}

/// `ops` transformed against each component of `bases` in turn, and what the
/// components of `bases` became.
pub open spec fn matrix_fold(ops: Seq<ComponentModel>, bases: Seq<ComponentModel>) -> Option<
    (Seq<ComponentModel>, Seq<ComponentModel>),
>
    decreases bases.len(),
{
    if bases.len() == 0 {
        Some((ops, Seq::empty()))
    } else {
        match matrix_fold(ops, bases.drop_last()) {
            None => None,
            Some((o, outb)) => match multi_fold(o, not_noop_spec(bases.last())) {
                None => None,
                Some((a, b)) => Some((a, push_some(outb, b))),
            },
        }
    }
}

/// `s` with `x` added at the end, if there is one.
pub open spec fn push_some(s: Seq<ComponentModel>, x: Option<ComponentModel>) -> Seq<ComponentModel> {
    match x {
        Some(c) => s.push(c),
        None => s,
    }
}

/// `ops` and `bases` transformed against each other, component by component.
pub open spec fn transform_matrix_spec(ops: Seq<ComponentModel>, bases: Seq<ComponentModel>) -> Option<
    (Seq<ComponentModel>, Seq<ComponentModel>),
> {
    if ops.len() == 0 || bases.len() == 0 {
        Some((ops, bases))
    } else {
        matrix_fold(ops, bases)
    }
}

/// What two concurrent operations become: `ops` to apply after `bases`, and
/// `bases` to apply after `ops`. `None` stands for an error.
pub open spec fn transform_spec(ops: Seq<ComponentModel>, bases: Seq<ComponentModel>) -> Option<
    (Seq<ComponentModel>, Seq<ComponentModel>),
> {
    if bases.len() == 0 {
        Some((ops, Seq::empty()))
    } else if !all_valid(ops) || !all_valid(bases) {
        None
    } else if ops.len() == 1 && bases.len() == 1 {
        match transform_component_spec(ops[0], bases[0], false) {
            None => None,
            Some(a) => match transform_component_spec(bases[0], ops[0], true) {
                None => None,
                Some(b) => Some((a, b)),
            },
        }
    } else {
        transform_matrix_spec(ops, bases)
    }
}

/// Transforming components of the built-in kinds gives components of the
/// built-in kinds.
pub proof fn lemma_transform_keeps_builtin(new: ComponentModel, base: ComponentModel, right: bool)
    requires
        !is_custom_op(new.op),
        !is_custom_op(base.op),
    ensures
        transform_component_spec(new, base, right) matches Some(s) ==> all_builtin(s),
{
    reveal(transform_component_spec);
}

/// Once transforming a prefix of the components fails, transforming all fails.
pub proof fn lemma_multi_fold_fails(ops: Seq<ComponentModel>, base: Option<ComponentModel>, j: int)
    requires
        0 <= j <= ops.len(),
        multi_fold(ops.take(j), base) is None,
    ensures
        multi_fold(ops, base) is None,
    decreases ops.len(),
{
    if j < ops.len() {
        assert(ops.drop_last().take(j) =~= ops.take(j));
        lemma_multi_fold_fails(ops.drop_last(), base, j);
    } else {
        assert(ops.take(j) =~= ops);
    }
}

/// Once transforming against a prefix of the base components fails, transforming
/// against all fails.
pub proof fn lemma_matrix_fold_fails(ops: Seq<ComponentModel>, bases: Seq<ComponentModel>, j: int)
    requires
        0 <= j <= bases.len(),
        matrix_fold(ops, bases.take(j)) is None,
    ensures
        matrix_fold(ops, bases) is None,
    decreases bases.len(),
{
    if j < bases.len() {
        assert(bases.drop_last().take(j) =~= bases.take(j));
        lemma_matrix_fold_fails(ops, bases.drop_last(), j);
    } else {
        assert(bases.take(j) =~= bases);
    }
}

/// A `CustomTransform` that fits what the functions in `h` may give, where one
/// is needed but no call was made.
pub open spec fn some_fit(h: &SubTypeFunctionsHolder, new: ComponentModel, base: ComponentModel, right: bool) -> CustomTransform {
    choose|x: CustomTransform| custom_transform_fits(h, new, base, right, x)
}

proof fn lemma_some_fit(h: &SubTypeFunctionsHolder, new: ComponentModel, base: ComponentModel, right: bool)
    ensures
        custom_transform_fits(h, new, base, right, some_fit(h, new, base, right)),
{
    let fw: Box<dyn SubTypeFunctions> = vstd::pervasive::arbitrary();
    match base.op {
        OperatorModel::SubType(SubTypeName::Custom(name), bo) => if h.has(name) {
            let x = (
                fw.transform_result(sub_operand(new.op), bo, right),
                fw.apply_result(
                    sub_target_down(removed_value(new.op), base.path.skip(common_len(base.path, new.path))),
                    bo,
                ),
            );
            assert(custom_transform_fits(h, new, base, right, x));
        } else {
            assert(custom_transform_fits(h, new, base, right, (None, None)));
        },
        _ => {
            assert(custom_transform_fits(h, new, base, right, (None, None)));
        },
    }
}

/// `multi_step`, where the transformations against a base component of a custom
/// sub type go by `xl` (the component against the base) and `xr` (the base
/// against the component).
pub open spec fn multi_step_with(
    acc: Option<(Seq<ComponentModel>, Option<ComponentModel>)>,
    op: ComponentModel,
    xl: CustomTransform,
    xr: CustomTransform,
) -> Option<(Seq<ComponentModel>, Option<ComponentModel>)> {
    match acc {
        None => None,
        Some((out, base)) => match base {
            None => Some((out.push(op), None)),
            Some(b) => match transform_component_with(op, b, false, xl) {
                None => None,
                Some(a) => match transform_component_with(b, op, true, xr) {
                    None => None,
                    Some(bs) => if bs.len() == 1 {
                        Some((out + a, Some(bs[0])))
                    } else {
                        None
                    },
                },
            },
        },
    }
}

/// `multi_fold`, where the step of the component at `k` goes by `xs[k]`.
pub open spec fn multi_fold_with(
    ops: Seq<ComponentModel>,
    base: Option<ComponentModel>,
    xs: Seq<(CustomTransform, CustomTransform)>,
) -> Option<(Seq<ComponentModel>, Option<ComponentModel>)>
    decreases ops.len(),
{
    if ops.len() == 0 {
        Some((Seq::empty(), base))
    } else {
        let k = ops.len() - 1;
        multi_step_with(multi_fold_with(ops.drop_last(), base, xs), ops.last(), xs[k].0, xs[k].1)
    }
}

/// Where the step of the component at `k` of `ops` meets a base component,
/// `xs[k]` is what the functions in `h` give for the two transformations.
pub open spec fn multi_fits(
    ops: Seq<ComponentModel>,
    base: Option<ComponentModel>,
    xs: Seq<(CustomTransform, CustomTransform)>,
    h: &SubTypeFunctionsHolder,
    k: int,
) -> bool {
    match multi_fold_with(ops.take(k), base, xs) {
        Some((_, Some(b))) => custom_transform_fits(h, ops[k], b, false, xs[k].0) && custom_transform_fits(
            h,
            b,
            ops[k],
            true,
            xs[k].1,
        ),
        _ => true,
    }
}

proof fn lemma_multi_with_prefix(
    ops: Seq<ComponentModel>,
    base: Option<ComponentModel>,
    xs1: Seq<(CustomTransform, CustomTransform)>,
    xs2: Seq<(CustomTransform, CustomTransform)>,
)
    requires
        forall|k: int| 0 <= k < ops.len() ==> xs1[k] == xs2[k],
    ensures
        multi_fold_with(ops, base, xs1) == multi_fold_with(ops, base, xs2),
    decreases ops.len(),
{
    if ops.len() > 0 {
        lemma_multi_with_prefix(ops.drop_last(), base, xs1, xs2);
    }
}

proof fn lemma_multi_with_fails(
    ops: Seq<ComponentModel>,
    base: Option<ComponentModel>,
    xs: Seq<(CustomTransform, CustomTransform)>,
    j: int,
)
    requires
        0 <= j <= ops.len(),
        multi_fold_with(ops.take(j), base, xs) is None,
    ensures
        multi_fold_with(ops, base, xs) is None,
    decreases ops.len(),
{
    if j < ops.len() {
        assert(ops.drop_last().take(j) =~= ops.take(j));
        lemma_multi_with_fails(ops.drop_last(), base, xs, j);
    } else {
        assert(ops.take(j) =~= ops);
    }
}

/// Once the step at `m` of `ops` fails under `xs`, padding `xs` to the length of
/// `ops` keeps every fit and gives a failing fold.
proof fn lemma_multi_with_failed(
    ops: Seq<ComponentModel>,
    base: Option<ComponentModel>,
    xs: Seq<(CustomTransform, CustomTransform)>,
    h: &SubTypeFunctionsHolder,
    m: int,
) -> (full: Seq<(CustomTransform, CustomTransform)>)
    requires
        0 <= m < ops.len(),
        xs.len() == m + 1,
        forall|k: int| 0 <= k <= m ==> #[trigger] multi_fits(ops, base, xs, h, k),
        multi_fold_with(ops.take(m + 1), base, xs) is None,
    ensures
        full.len() == ops.len(),
        forall|k: int| 0 <= k < ops.len() ==> #[trigger] multi_fits(ops, base, full, h, k),
        multi_fold_with(ops, base, full) is None,
{
    let none: CustomTransform = (None, None);
    let full = xs + Seq::new((ops.len() - m - 1) as nat, |k: int| (none, none));
    lemma_multi_with_prefix(ops.take(m + 1), base, xs, full);
    lemma_multi_with_fails(ops, base, full, m + 1);
    assert forall|k: int| 0 <= k < ops.len() implies #[trigger] multi_fits(ops, base, full, h, k) by {
        if k <= m {
            assert(multi_fits(ops, base, xs, h, k));
            lemma_multi_with_prefix(ops.take(k), base, xs, full);
        } else {
            assert(ops.take(k).take(m + 1) =~= ops.take(m + 1));
            lemma_multi_with_fails(ops.take(k), base, full, m + 1);
        }
    }
    full
}

/// `matrix_fold`, where transforming against the base component at `i` goes by
/// `xss[i]` (`multi_fold_with`).
pub open spec fn matrix_fold_with(
    ops: Seq<ComponentModel>,
    bases: Seq<ComponentModel>,
    xss: Seq<Seq<(CustomTransform, CustomTransform)>>,
) -> Option<(Seq<ComponentModel>, Seq<ComponentModel>)>
    decreases bases.len(),
{
    if bases.len() == 0 {
        Some((ops, Seq::empty()))
    } else {
        match matrix_fold_with(ops, bases.drop_last(), xss) {
            None => None,
            Some((o, outb)) => match multi_fold_with(o, not_noop_spec(bases.last()), xss[bases.len() - 1]) {
                None => None,
                Some((a, b)) => Some((a, push_some(outb, b))),
            },
        }
    }
}

/// Where transforming against the base component at `i` is reached, `xss[i]` is
/// what the functions in `h` give for each of its steps (`multi_fits`).
pub open spec fn matrix_fits(
    ops: Seq<ComponentModel>,
    bases: Seq<ComponentModel>,
    xss: Seq<Seq<(CustomTransform, CustomTransform)>>,
    h: &SubTypeFunctionsHolder,
    i: int,
) -> bool {
    match matrix_fold_with(ops, bases.take(i), xss) {
        Some((o, _)) => xss[i].len() == o.len() && forall|k: int|
            0 <= k < o.len() ==> #[trigger] multi_fits(o, not_noop_spec(bases[i]), xss[i], h, k),
        None => true,
    }
}

proof fn lemma_matrix_with_prefix(
    ops: Seq<ComponentModel>,
    bases: Seq<ComponentModel>,
    xss1: Seq<Seq<(CustomTransform, CustomTransform)>>,
    xss2: Seq<Seq<(CustomTransform, CustomTransform)>>,
)
    requires
        forall|k: int| 0 <= k < bases.len() ==> xss1[k] == xss2[k],
    ensures
        matrix_fold_with(ops, bases, xss1) == matrix_fold_with(ops, bases, xss2),
    decreases bases.len(),
{
    if bases.len() > 0 {
        lemma_matrix_with_prefix(ops, bases.drop_last(), xss1, xss2);
    }
}

proof fn lemma_matrix_with_fails(
    ops: Seq<ComponentModel>,
    bases: Seq<ComponentModel>,
    xss: Seq<Seq<(CustomTransform, CustomTransform)>>,
    j: int,
)
    requires
        0 <= j <= bases.len(),
        matrix_fold_with(ops, bases.take(j), xss) is None,
    ensures
        matrix_fold_with(ops, bases, xss) is None,
    decreases bases.len(),
{
    if j < bases.len() {
        assert(bases.drop_last().take(j) =~= bases.take(j));
        lemma_matrix_with_fails(ops, bases.drop_last(), xss, j);
    } else {
        assert(bases.take(j) =~= bases);
    }
}

/// What the components `op` and `base` become against each other: `op` on the
/// left side, `base` on the right, where `x` holds what the functions of custom
/// sub types give for each of the two (`transform_component_with`).
pub open spec fn pair_with(op: ComponentModel, base: ComponentModel, x: (CustomTransform, CustomTransform)) -> Option<
    (Seq<ComponentModel>, Seq<ComponentModel>),
> {
    match transform_component_with(op, base, false, x.0) {
        None => None,
        Some(a) => match transform_component_with(base, op, true, x.1) {
            None => None,
            Some(b) => Some((a, b)),
        },
    }
}

/// What two concurrent operations, valid and with a non-empty `bases`, become:
/// as `transform_spec` says, where the transformations against components of
/// custom sub types go by `xss` (`transform_component_with`, `matrix_fold_with`).
pub open spec fn transform_with(
    ops: Seq<ComponentModel>,
    bases: Seq<ComponentModel>,
    xss: Seq<Seq<(CustomTransform, CustomTransform)>>,
) -> Option<(Seq<ComponentModel>, Seq<ComponentModel>)> {
    if ops.len() == 1 && bases.len() == 1 {
        pair_with(ops[0], bases[0], xss[0][0])
    } else if ops.len() == 0 {
        Some((ops, bases))
    } else {
        matrix_fold_with(ops, bases, xss)
    }
}

/// `xss` is what the functions in `h` give where `transform_with` meets
/// components of custom sub types.
pub open spec fn transform_fits(
    ops: Seq<ComponentModel>,
    bases: Seq<ComponentModel>,
    xss: Seq<Seq<(CustomTransform, CustomTransform)>>,
    h: &SubTypeFunctionsHolder,
) -> bool {
    if ops.len() == 1 && bases.len() == 1 {
        custom_transform_fits(h, ops[0], bases[0], false, xss[0][0].0) && custom_transform_fits(
            h,
            bases[0],
            ops[0],
            true,
            xss[0][0].1,
        )
    } else {
        xss.len() == bases.len() && forall|i: int|
            0 <= i < bases.len() ==> #[trigger] matrix_fits(ops, bases, xss, h, i)
    }
}

proof fn lemma_matrix_empty_ops(bases: Seq<ComponentModel>, xss: Seq<Seq<(CustomTransform, CustomTransform)>>)
    ensures
        matrix_fold_with(Seq::empty(), bases, xss) matches Some((o, _)) && o.len() == 0,
    decreases bases.len(),
{
    if bases.len() > 0 {
        lemma_matrix_empty_ops(bases.drop_last(), xss);
    }
}

// ---------------------------------------------------------------------------
// Transforming components.

/// Whether a component changes nothing.
pub fn is_equivalent_to_noop(op: &OperationComponent) -> (r: bool)
    ensures
        r == is_noop_equiv(op@),
{
    match &op.operator {
        Operator::Noop() => true,
        Operator::ListReplace(new_v, old_v) => new_v.eq(old_v),
        Operator::ObjectReplace(new_v, old_v) => new_v.eq(old_v),
        Operator::ListMove(lm) => {
            let n = op.path.len();
            if n == 0 {
                return false;
            }
            match op.path.get(n - 1) {
                Some(p) => *p == PathElement::Index(*lm),
                None => false,
            }
        },
        _ => false,
    }
}

/// A vector of one component.
fn single(c: OperationComponent) -> (r: Vec<OperationComponent>)
    ensures
        components_view(r@) == one(c@),
        r@.len() == 1,
        r@[0]@ == c@,
{
    let mut v: Vec<OperationComponent> = Vec::new();
    v.push(c);
    assert(components_view(v@) =~= one(c@));
    v
}

/// No components.
fn nothing() -> (r: Vec<OperationComponent>)
    ensures
        components_view(r@) == Seq::<ComponentModel>::empty(),
{
    let v: Vec<OperationComponent> = Vec::new();
    assert(components_view(v@) =~= Seq::<ComponentModel>::empty());
    v
}

/// Increments the index at `i` of `path`; an error where it would overflow.
fn inc_path(path: &mut Path, i: usize) -> (r: Result<()>)
    ensures
        match inc_at(old(path)@, i as int) {
            Some(p) => r is Ok && final(path)@ == p,
            None => r matches Err(JsonError::InvalidOperation(_)) && final(path)@ == old(path)@,
        },
{
    if let Some(n) = path.get_index_at(i) {
        if *n == usize::MAX {
            return Err(invalid_operation("path index overflows"));
        }
    }
    path.increase_index(i);
    Ok(())
}

/// The components at `path` with the sub type operator `t` and each of
/// `operands` as operand; an error where one of them is not valid.
pub fn sub_type_components(path: &Path, t: &SubType, operands: Vec<Value>) -> (r: Result<Vec<OperationComponent>>)
    ensures
        match sub_type_components_spec(path@, t@, values_view(operands@)) {
            Some(cs) => r is Ok && components_view(r->Ok_0@) == cs,
            None => r matches Err(JsonError::InvalidOperation(_)),
        },
{
    let ghost xs = values_view(operands@);
    let ghost cs = Seq::new(
        xs.len(),
        |i: int| ComponentModel { path: path@, op: OperatorModel::SubType(t@, xs[i]) },
    );
    let mut out: Vec<OperationComponent> = Vec::new();
    let mut i: usize = 0;
    while i < operands.len()
        invariant
            i <= operands.len(),
            xs == values_view(operands@),
            cs.len() == xs.len(),
            forall|j: int| 0 <= j < cs.len() ==> #[trigger] cs[j] == (ComponentModel {
                path: path@,
                op: OperatorModel::SubType(t@, xs[j]),
            }),
            out.len() == i,
            forall|j: int| 0 <= j < i ==> #[trigger] out@[j]@ == cs[j] && component_valid(cs[j]),
        decreases operands.len() - i,
    {
        let c = match OperationComponent::new(path.clone(), Operator::SubType(t.clone(), operands[i].clone())) {
            Ok(c) => c,
            Err(e) => {
                assert(!component_valid(cs[i as int]));
                assert(!(forall|j: int| 0 <= j < cs.len() ==> component_valid(#[trigger] cs[j])));
                assert(cs =~= Seq::new(
                    xs.len(),
                    |j: int| ComponentModel { path: path@, op: OperatorModel::SubType(t@, xs[j]) },
                ));
                return Err(e);
            },
        };
        out.push(c);
        i = i + 1;
    }
    assert(components_view(out@) =~= cs);
    Ok(out)
}

/// Transforms against a sub type operator.
fn transform_sub_type(
    new_op: OperationComponent,
    base_op: &OperationComponent,
    side: TransformSide,
    functions: &SubTypeFunctionsHolder,
) -> (r: Result<Vec<OperationComponent>>)
    ensures
        !is_custom_op(base_op@.op) ==> match against_sub_type(new_op@, base_op@, side == TransformSide::RIGHT) {
            Some(s) => r is Ok && components_view(r->Ok_0@) == s,
            None => r matches Err(JsonError::InvalidOperation(_)),
        },
        base_op@.op matches OperatorModel::SubType(SubTypeName::Custom(name), bo) ==> (functions.has(name) ==> exists|
            f: Box<dyn SubTypeFunctions>,
        |
            match against_custom_sub_type(
                new_op@,
                base_op@,
                #[trigger] f.transform_result(sub_operand(new_op@.op), bo, is_right_side(side)),
            ) {
                Some(s) => r is Ok && components_view(r->Ok_0@) == s,
                None => r is Err,
            }),
        base_op@.op matches OperatorModel::SubType(SubTypeName::Custom(name), _) ==> (!functions.has(name) ==> match
            against_custom_sub_type(new_op@, base_op@, None) {
            Some(s) => r is Ok && components_view(r->Ok_0@) == s,
            None => r is Err,
        }),
{
    let ghost fw: Box<dyn SubTypeFunctions> = vstd::pervasive::arbitrary();
    if let Operator::SubType(bt, bo) = &base_op.operator {
        if let Operator::SubType(nt, no) = &new_op.operator {
            if bt.eq(nt) {
                let xs = match sub_type_transform(bt, functions, no, bo, side) {
                    Ok(xs) => xs,
                    Err(e) => {
                        proof {
                            if let OperatorModel::SubType(SubTypeName::Custom(name), bo0) = base_op@.op {
                                if functions.has(name) {
                                    let f1 = choose|f: Box<dyn SubTypeFunctions>|
                                        #[trigger] f.transform_result(no@, bo@, is_right_side(side)) == None::<Seq<Json>>;
                                    assert(f1.transform_result(sub_operand(new_op@.op), bo0, is_right_side(side))
                                        == None::<Seq<Json>>);
                                }
                            }
                        }
                        return Err(e);
                    },
                };
                let ghost vs = values_view(xs@);
                let r = sub_type_components(&base_op.path, bt, xs);
                proof {
                    if let OperatorModel::SubType(SubTypeName::Custom(name), bo0) = base_op@.op {
                        if functions.has(name) {
                            let f1 = choose|f: Box<dyn SubTypeFunctions>|
                                #[trigger] f.transform_result(no@, bo@, is_right_side(side)) == Some(vs);
                            assert(f1.transform_result(sub_operand(new_op@.op), bo0, is_right_side(side))
                                == Some(vs));
                        }
                    }
                }
                return r;
            }
        }
    }
    let r = Ok(single(new_op));
    proof {
        if let OperatorModel::SubType(SubTypeName::Custom(name), bo0) = base_op@.op {
            assert(against_custom_sub_type(
                new_op@,
                base_op@,
                fw.transform_result(sub_operand(new_op@.op), bo0, is_right_side(side)),
            ) == Some(one(new_op@)));
        }
    }
    r
}

/// Transforms against the replacement of the list element `li`.
fn transform_list_replace(new_op: OperationComponent, li: &Value, side: TransformSide, sp: bool, bp: bool) -> (r:
    Result<Vec<OperationComponent>>)
    ensures
        match against_list_replace(new_op@, li@, side == TransformSide::RIGHT, sp, bp) {
            Some(s) => r is Ok && components_view(r->Ok_0@) == s,
            None => r matches Err(JsonError::InvalidOperation(_)),
        },
{
    if bp {
        if !sp {
            return Ok(nothing());
        }
        match &new_op.operator {
            Operator::ListReplace(nl, _) => {
                if side == TransformSide::LEFT {
                    let c = OperationComponent::new(new_op.path.clone(), Operator::ListReplace(nl.clone(), li.clone()))?;
                    return Ok(single(c));
                } else {
                    return Ok(nothing());
                }
            },
            Operator::ListDelete(_) => {
                return Ok(nothing());
            },
            _ => {},
        }
    }
    Ok(single(new_op))
}

/// Transforms against an insertion into a list at element `bol` of its path.
fn transform_list_insert(
    new_op: OperationComponent,
    base_op: &OperationComponent,
    side: TransformSide,
    sp: bool,
    bp: bool,
    bol: usize,
) -> (r: Result<Vec<OperationComponent>>)
    ensures
        match against_list_insert(new_op@, base_op@, side == TransformSide::RIGHT, sp, bp, bol as int) {
            Some(s) => r is Ok && components_view(r->Ok_0@) == s,
            None => r matches Err(JsonError::InvalidOperation(_)),
        },
{
    let mut new_op = new_op;
    if let Operator::ListInsert(_) = new_op.operator {
        if sp && bp {
            if side == TransformSide::RIGHT {
                inc_path(&mut new_op.path, bol)?;
            }
            return Ok(single(new_op));
        }
    }
    let shift = match (base_op.path.get(bol), new_op.path.get(bol)) {
        (Some(p1), Some(p2)) => *p1 <= *p2,
        _ => false,
    };
    if shift {
        inc_path(&mut new_op.path, bol)?;
    }
    if let Operator::ListMove(lm) = new_op.operator {
        if sp {
            let moved = match base_op.path.get(bol) {
                Some(p) => *p <= PathElement::Index(lm),
                None => false,
            };
            if moved {
                if lm == usize::MAX {
                    return Err(invalid_operation("list move target overflows"));
                }
                new_op.operator = Operator::ListMove(lm + 1);
            }
        }
    }
    Ok(single(new_op))
}

/// Transforms against a deletion from a list at element `bol` of its path.
fn transform_list_delete(new_op: OperationComponent, base_op: &OperationComponent, sp: bool, bp: bool, bol: usize) -> (r:
    Result<Vec<OperationComponent>>)
    ensures
        match against_list_delete(new_op@, base_op@, sp, bp, bol as int) {
            Some(s) => r is Ok && components_view(r->Ok_0@) == s,
            None => r matches Err(JsonError::InvalidOperation(_)),
        },
{
    let mut new_op = new_op;
    let ghost new0 = new_op@;
    let bop = match base_op.path.get(bol) {
        Some(p) => p.clone(),
        None => return Err(invalid_operation("path of list delete operator is too short")),
    };
    let nop = match new_op.path.get(bol) {
        Some(p) => p.clone(),
        None => return Err(invalid_operation("path of operator is too short")),
    };
    if let Operator::ListMove(lm) = new_op.operator {
        if sp {
            if bp {
                return Ok(nothing());
            }
            let to = PathElement::Index(lm);
            if bop < to || (bop == to && nop < to) {
                new_op.operator = Operator::ListMove(lm - 1);
            }
        }
    }
    assert(new_op@.op == moved_after_delete(new0.op, bop@, nop@, sp));
    if bop < nop {
        new_op.path.decrease_index(bol);
    } else if bp {
        if !sp {
            return Ok(nothing());
        }
        match &new_op.operator {
            Operator::ListDelete(_) => {
                return Ok(nothing());
            },
            Operator::ListReplace(li, _) => {
                let c = OperationComponent::new(new_op.path.clone(), Operator::ListInsert(li.clone()))?;
                return Ok(single(c));
            },
            _ => {},
        }
    }
    Ok(single(new_op))
}

/// The value that an operator inserts into or sets in an object, if it does.
fn object_new_value_of(op: &Operator) -> (r: Option<Value>)
    ensures
        match object_new_value(op@) {
            Some(n) => r is Some && r->0@ == n,
            None => r is None,
        },
{
    match op {
        Operator::ObjectReplace(n, _) => Some(n.clone()),
        Operator::ObjectInsert(n) => Some(n.clone()),
        _ => None,
    }
}

/// Transforms against the replacement of the object member `oi`.
fn transform_object_replace(new_op: OperationComponent, oi: &Value, side: TransformSide, sp: bool, bp: bool) -> (r:
    Result<Vec<OperationComponent>>)
    ensures
        match against_object_replace(new_op@, oi@, side == TransformSide::RIGHT, sp, bp) {
            Some(s) => r is Ok && components_view(r->Ok_0@) == s,
            None => r matches Err(JsonError::InvalidOperation(_)),
        },
{
    if bp {
        if !sp {
            return Ok(nothing());
        }
        match object_new_value_of(&new_op.operator) {
            Some(n) => {
                if side == TransformSide::RIGHT {
                    return Ok(nothing());
                }
                return Ok(
                    single(OperationComponent { path: new_op.path, operator: Operator::ObjectReplace(n, oi.clone()) }),
                );
            },
            None => {
                return Ok(nothing());
            },
        }
    }
    Ok(single(new_op))
}

/// Transforms against the insertion of the object member `boi`.
fn transform_object_insert(
    new_op: OperationComponent,
    base_op: &OperationComponent,
    boi: &Value,
    side: TransformSide,
    sp: bool,
    bp: bool,
) -> (r: Result<Vec<OperationComponent>>)
    ensures
        match against_object_insert(new_op@, base_op@, boi@, side == TransformSide::RIGHT, sp, bp) {
            Some(s) => r is Ok && components_view(r->Ok_0@) == s,
            None => r matches Err(JsonError::InvalidOperation(_)),
        },
{
    if bp {
        match object_new_value_of(&new_op.operator) {
            Some(n) => {
                if side == TransformSide::LEFT {
                    if sp {
                        return Ok(
                            single(
                                OperationComponent {
                                    path: base_op.path.clone(),
                                    operator: Operator::ObjectReplace(n, boi.clone()),
                                },
                            ),
                        );
                    }
                    let first = OperationComponent {
                        path: base_op.path.clone(),
                        operator: Operator::ObjectDelete(boi.clone()),
                    };
                    let ghost second = new_op@;
                    let ghost f = first@;
                    let mut out = single(first);
                    out.push(new_op);
                    assert(out@[0]@ == f);
                    assert(out@[1]@ == second);
                    assert(components_view(out@) =~= seq![f, second]);
                    return Ok(out);
                } else {
                    return Ok(nothing());
                }
            },
            None => {
                if let Operator::ObjectDelete(_) = new_op.operator {
                    if side == TransformSide::RIGHT {
                        return Ok(nothing());
                    }
                }
            },
        }
    }
    Ok(single(new_op))
}

/// Transforms against the deletion of an object member.
fn transform_object_delete(new_op: OperationComponent, side: TransformSide, sp: bool, bp: bool) -> (r: Result<
    Vec<OperationComponent>,
>)
    ensures
        match against_object_delete(new_op@, side == TransformSide::RIGHT, sp, bp) {
            Some(s) => r is Ok && components_view(r->Ok_0@) == s,
            None => r matches Err(JsonError::InvalidOperation(_)),
        },
{
    if bp {
        if !sp {
            return Ok(nothing());
        }
        match object_new_value_of(&new_op.operator) {
            Some(n) => {
                if side == TransformSide::LEFT {
                    return Ok(single(OperationComponent { path: new_op.path, operator: Operator::ObjectInsert(n) }));
                } else {
                    return Ok(nothing());
                }
            },
            None => {
                return Ok(nothing());
            },
        }
    }
    Ok(single(new_op))
}

/// Transforms a move against a move of another element of the same list, from
/// `ofrom` to `oto`; `from` is where `new_op` moves its element from.
fn transform_move_move(
    new_op: OperationComponent,
    new_lm: usize,
    from: PathElement,
    ofrom: PathElement,
    oto: PathElement,
    side: TransformSide,
    bol: usize,
) -> (r: Result<Vec<OperationComponent>>)
    requires
        bol < new_op@.path.len(),
        from@ == new_op@.path[bol as int],
        ofrom@ != oto@,
        oto is Index,
    ensures
        match move_against_move(new_op@, new_lm, from@, ofrom@, oto@, side == TransformSide::RIGHT, bol as int) {
            Some(s) => r is Ok && components_view(r->Ok_0@) == s,
            None => r matches Err(JsonError::InvalidOperation(_)),
        },
{
    let mut new_op = new_op;
    let ghost right = side == TransformSide::RIGHT;
    let ghost targets = move_target(new_lm as int, from@, ofrom@, oto@, right);
    let to = PathElement::Index(new_lm);
    let mut n: usize = new_lm;
    if from > ofrom {
        new_op.path.decrease_index(bol);
    }
    if from > oto {
        inc_path(&mut new_op.path, bol)?;
    } else if from == oto && ofrom > oto {
        inc_path(&mut new_op.path, bol)?;
        if from == to {
            if n == usize::MAX {
                return Err(invalid_operation("list move target overflows"));
            }
            n = n + 1;
        }
    }
    assert(n == targets.0);
    if to > ofrom || (to == ofrom && to > from) {
        n = n - 1;
    }
    if to > oto {
        if n == usize::MAX {
            return Err(invalid_operation("list move target overflows"));
        }
        n = n + 1;
    } else if to == oto {
        if (oto > ofrom && to > from) || (oto < ofrom && to < from) {
            if side == TransformSide::RIGHT {
                if n == usize::MAX {
                    return Err(invalid_operation("list move target overflows"));
                }
                n = n + 1;
            }
        } else if to > from {
            if n == usize::MAX {
                return Err(invalid_operation("list move target overflows"));
            }
            n = n + 1;
        } else if to == ofrom {
            n = n - 1;
        }
    }
    assert(n == targets.1);
    new_op.operator = Operator::ListMove(n);
    Ok(single(new_op))
}

/// Transforms against a move of element `bol` of the path of `base_op` to `lm`.
fn transform_list_move(
    new_op: OperationComponent,
    base_op: &OperationComponent,
    lm: usize,
    side: TransformSide,
    sp: bool,
    bol: usize,
    nol: usize,
) -> (r: Result<Vec<OperationComponent>>)
    requires
        base_op@.op == OperatorModel::ListMove(lm),
        bol == operate_path_len_spec(base_op@),
        nol == operate_path_len_spec(new_op@),
        sp == (base_op@.path.len() == new_op@.path.len()),
    ensures
        match against_list_move(new_op@, base_op@, lm, side == TransformSide::RIGHT, sp, bol as int, nol as int) {
            Some(s) => r is Ok && components_view(r->Ok_0@) == s,
            None => r matches Err(JsonError::InvalidOperation(_)),
        },
{
    let mut new_op = new_op;
    if sp {
        if let Operator::ListMove(new_lm) = new_op.operator {
            let ofrom = match base_op.path.get(nol) {
                Some(p) => p.clone(),
                None => return Err(invalid_operation("path of list move operator is too short")),
            };
            let oto = PathElement::Index(lm);
            if ofrom == oto {
                return Ok(single(new_op));
            }
            let from = match new_op.path.get(nol) {
                Some(p) => p.clone(),
                None => return Err(invalid_operation("path of list move operator is too short")),
            };
            let to = PathElement::Index(new_lm);
            if from == ofrom {
                if to == oto {
                    return Ok(nothing());
                }
                if side == TransformSide::LEFT {
                    new_op.path.replace(bol, oto);
                    if from == to {
                        new_op.operator = base_op.operator.clone();
                    }
                    return Ok(single(new_op));
                } else {
                    return Ok(nothing());
                }
            }
            return transform_move_move(new_op, new_lm, from, ofrom, oto, side, bol);
        }
    }
    let from = match base_op.path.get(bol) {
        Some(p) => p.clone(),
        None => return Err(invalid_operation("path of list move operator is too short")),
    };
    let p = match new_op.path.get(bol) {
        Some(p) => p.clone(),
        None => return Err(invalid_operation("path of operator is too short")),
    };
    let to = PathElement::Index(lm);
    if sp {
        if let Operator::ListInsert(_) = new_op.operator {
            if p > from {
                new_op.path.decrease_index(bol);
            }
            if p > to {
                inc_path(&mut new_op.path, bol)?;
            }
            return Ok(single(new_op));
        }
    }
    if p == from {
        new_op.path.replace(bol, to);
    } else {
        if p > from {
            new_op.path.decrease_index(bol);
        }
        if p > to || (p == to && from > to) {
            inc_path(&mut new_op.path, bol)?;
        }
    }
    Ok(single(new_op))
}

/// What a value that an operator removes becomes when `other` applies at `p`
/// below it: the changed value, or the value as it was where `other` cannot
/// apply there.
fn consume_value(v: Value, p: Path, other: &Operator, functions: &SubTypeFunctionsHolder) -> (r: Value)
    ensures
        !is_custom_op(other@) ==> r@ == consumed(v@, p@, other@),
        other@ matches OperatorModel::SubType(SubTypeName::Custom(name), o) ==> (functions.has(name) ==> exists|
            f: Box<dyn SubTypeFunctions>,
        | r@ == consumed_with(v@, p@, other@, #[trigger] f.apply_result(sub_target_down(v@, p@), o))),
        other@ matches OperatorModel::SubType(SubTypeName::Custom(name), _) ==> (!functions.has(name) ==> r@
            == consumed_with(v@, p@, other@, None)),
{
    let mut v = v;
    let _ = v.apply(p, other.clone(), functions);
    v
}

/// Transforms operations against each other. The functions of custom sub types
/// come with each call.
pub struct Transformer {}

impl Transformer {
    pub fn new() -> (r: Transformer) {
        Transformer {  }
    }

    /// `op`, whose path is a prefix of that of `other`, removes or replaces a value
    /// that `other` changes inside: the value it removes takes in that change, and
    /// stays as it is where the change cannot apply to it. Where `other` is of a
    /// registered custom sub type, the change is what its `apply` makes of the value
    /// that `other` reaches inside the removed one (`consume_custom_spec`).
    pub fn consume(
        &self,
        op: &mut OperationComponent,
        common_path: &Path,
        other: &OperationComponent,
        functions: &SubTypeFunctionsHolder,
    ) -> (r: Result<()>)
        requires
            holds_removed_value(old(op)@.op) ==> common_path@.len() <= other@.path.len(),
        ensures
            r is Ok,
            final(op)@.path == old(op)@.path,
            !holds_removed_value(old(op)@.op) ==> final(op)@ == old(op)@,
            !is_custom_op(other@.op) ==> final(op)@ == consume_spec(old(op)@, common_path@.len() as int, other@),
            other@.op matches OperatorModel::SubType(SubTypeName::Custom(name), o) ==> (functions.has(name) ==> exists|
                f: Box<dyn SubTypeFunctions>,
            |
                final(op)@ == consume_custom_spec(
                    old(op)@,
                    common_path@.len() as int,
                    other@,
                    #[trigger] f.apply_result(
                        sub_target_down(removed_value(old(op)@.op), other@.path.skip(common_path@.len() as int)),
                        o,
                    ),
                )),
            other@.op matches OperatorModel::SubType(SubTypeName::Custom(name), _) ==> (!functions.has(name)
                ==> final(op)@ == consume_custom_spec(old(op)@, common_path@.len() as int, other@, None)),
    {
        match &op.operator {
            Operator::ListDelete(_) | Operator::ListReplace(_, _) | Operator::ObjectDelete(_) | Operator::ObjectReplace(
                _,
                _,
            ) => {},
            _ => {
                proof {
                    let fw: Box<dyn SubTypeFunctions> = vstd::pervasive::arbitrary();
                    if let OperatorModel::SubType(SubTypeName::Custom(name), o) = other@.op {
                        let m = common_path@.len() as int;
                        assert(op@ == consume_custom_spec(
                            op@,
                            m,
                            other@,
                            fw.apply_result(sub_target_down(removed_value(op@.op), other@.path.skip(m)), o),
                        ));
                    }
                }
                return Ok(());
            },
        }
        let (_, p2) = other.path.split_at(common_path.len());
        let mut operator = Operator::Noop();
        std::mem::swap(&mut operator, &mut op.operator);
        op.operator = match operator {
            Operator::ListDelete(v) => Operator::ListDelete(consume_value(v, p2, &other.operator, functions)),
            Operator::ListReplace(n, v) => Operator::ListReplace(n, consume_value(v, p2, &other.operator, functions)),
            Operator::ObjectDelete(v) => Operator::ObjectDelete(consume_value(v, p2, &other.operator, functions)),
            Operator::ObjectReplace(n, v) => Operator::ObjectReplace(
                n,
                consume_value(v, p2, &other.operator, functions),
            ),
            o => o,
        };
        Ok(())
    }

    /// What `new_op` becomes when `base_op`, made concurrently, applies first; on
    /// the right side `new_op` gives way where the two collide. Where `base_op` is of
    /// a registered custom sub type, its functions decide as
    /// `transform_component_custom_spec` says.
    pub fn transform_component(
        &self,
        new_op: OperationComponent,
        base_op: &OperationComponent,
        side: TransformSide,
        functions: &SubTypeFunctionsHolder,
    ) -> (r: Result<Vec<OperationComponent>>)
        ensures
            !is_custom_op(base_op@.op) ==> match transform_component_spec(
                new_op@,
                base_op@,
                side == TransformSide::RIGHT,
            ) {
                Some(s) => r is Ok && components_view(r->Ok_0@) == s,
                None => r matches Err(JsonError::InvalidOperation(_)),
            },
            base_op@.op matches OperatorModel::SubType(SubTypeName::Custom(name), bo) ==> (functions.has(name)
                ==> exists|f: Box<dyn SubTypeFunctions>|
                #![trigger f.transform_result(sub_operand(new_op@.op), bo, is_right_side(side))]
                match transform_component_custom_spec(
                    new_op@,
                    base_op@,
                    f.transform_result(sub_operand(new_op@.op), bo, is_right_side(side)),
                    f.apply_result(
                        sub_target_down(
                            removed_value(new_op@.op),
                            base_op@.path.skip(common_len(base_op@.path, new_op@.path)),
                        ),
                        bo,
                    ),
                ) {
                    Some(s) => r is Ok && components_view(r->Ok_0@) == s,
                    None => r is Err,
                }),
            base_op@.op matches OperatorModel::SubType(SubTypeName::Custom(name), _) ==> (!functions.has(name)
                ==> match transform_component_custom_spec(new_op@, base_op@, None, None) {
                Some(s) => r is Ok && components_view(r->Ok_0@) == s,
                None => r is Err,
            }),
            exists|x: CustomTransform|
                #![trigger transform_component_with(new_op@, base_op@, is_right_side(side), x)]
                custom_transform_fits(functions, new_op@, base_op@, is_right_side(side), x) && match transform_component_with(
                    new_op@,
                    base_op@,
                    is_right_side(side),
                    x,
                ) {
                    Some(s) => r is Ok && components_view(r->Ok_0@) == s,
                    None => r is Err,
                },
    {
        let r = self.transform_component_inner(new_op, base_op, side, functions);
        proof {
            let right = is_right_side(side);
            match base_op@.op {
                OperatorModel::SubType(SubTypeName::Custom(name), bo) => {
                    if functions.has(name) {
                        let m = common_len(base_op@.path, new_op@.path);
                        let f1 = choose|f: Box<dyn SubTypeFunctions>|
                            #![trigger f.transform_result(sub_operand(new_op@.op), bo, right)]
                            match transform_component_custom_spec(
                                new_op@,
                                base_op@,
                                f.transform_result(sub_operand(new_op@.op), bo, right),
                                f.apply_result(sub_target_down(removed_value(new_op@.op), base_op@.path.skip(m)), bo),
                            ) {
                                Some(s) => r is Ok && components_view(r->Ok_0@) == s,
                                None => r is Err,
                            };
                        let x = (
                            f1.transform_result(sub_operand(new_op@.op), bo, right),
                            f1.apply_result(sub_target_down(removed_value(new_op@.op), base_op@.path.skip(m)), bo),
                        );
                        assert(custom_transform_fits(functions, new_op@, base_op@, right, x));
                        assert(transform_component_with(new_op@, base_op@, right, x)
                            == transform_component_custom_spec(new_op@, base_op@, x.0, x.1));
                    } else {
                        let x: CustomTransform = (None, None);
                        assert(custom_transform_fits(functions, new_op@, base_op@, right, x));
                        assert(transform_component_with(new_op@, base_op@, right, x)
                            == transform_component_custom_spec(new_op@, base_op@, None, None));
                    }
                },
                _ => {
                    let x: CustomTransform = (None, None);
                    assert(custom_transform_fits(functions, new_op@, base_op@, right, x));
                    assert(transform_component_with(new_op@, base_op@, right, x) == transform_component_spec(
                        new_op@,
                        base_op@,
                        right,
                    ));
                },
            }
        }
        r
    }

    fn transform_component_inner(
        &self,
        new_op: OperationComponent,
        base_op: &OperationComponent,
        side: TransformSide,
        functions: &SubTypeFunctionsHolder,
    ) -> (r: Result<Vec<OperationComponent>>)
        ensures
            !is_custom_op(base_op@.op) ==> match transform_component_spec(
                new_op@,
                base_op@,
                side == TransformSide::RIGHT,
            ) {
                Some(s) => r is Ok && components_view(r->Ok_0@) == s,
                None => r matches Err(JsonError::InvalidOperation(_)),
            },
            base_op@.op matches OperatorModel::SubType(SubTypeName::Custom(name), bo) ==> (functions.has(name)
                ==> exists|f: Box<dyn SubTypeFunctions>|
                #![trigger f.transform_result(sub_operand(new_op@.op), bo, is_right_side(side))]
                match transform_component_custom_spec(
                    new_op@,
                    base_op@,
                    f.transform_result(sub_operand(new_op@.op), bo, is_right_side(side)),
                    f.apply_result(
                        sub_target_down(
                            removed_value(new_op@.op),
                            base_op@.path.skip(common_len(base_op@.path, new_op@.path)),
                        ),
                        bo,
                    ),
                ) {
                    Some(s) => r is Ok && components_view(r->Ok_0@) == s,
                    None => r is Err,
                }),
            base_op@.op matches OperatorModel::SubType(SubTypeName::Custom(name), _) ==> (!functions.has(name)
                ==> match transform_component_custom_spec(new_op@, base_op@, None, None) {
                Some(s) => r is Ok && components_view(r->Ok_0@) == s,
                None => r is Err,
            }),
    {
        reveal(transform_component_spec);
        let mut new_op = new_op;
        if is_equivalent_to_noop(&new_op) || is_equivalent_to_noop(base_op) {
            proof {
                let fw: Box<dyn SubTypeFunctions> = vstd::pervasive::arbitrary();
                if let OperatorModel::SubType(SubTypeName::Custom(name), bo) = base_op@.op {
                    let tres = fw.transform_result(sub_operand(new_op@.op), bo, is_right_side(side));
                    let m = common_len(base_op@.path, new_op@.path);
                    let ares = fw.apply_result(sub_target_down(removed_value(new_op@.op), base_op@.path.skip(m)), bo);
                    assert(transform_component_custom_spec(new_op@, base_op@, tres, ares) == Some(one(new_op@)));
                }
            }
            return Ok(single(new_op));
        }
        let max_common_path = base_op.path.max_common_path(&new_op.path);
        proof {
            lemma_common_len_unique(base_op@.path, new_op@.path, max_common_path@.len() as int);
        }
        let new_operate_path_len = new_op.operate_path_len();
        let base_operate_path_len = base_op.operate_path_len();
        if max_common_path.len() < new_operate_path_len && max_common_path.len() < base_operate_path_len {
            proof {
                let fw: Box<dyn SubTypeFunctions> = vstd::pervasive::arbitrary();
                if let OperatorModel::SubType(SubTypeName::Custom(name), bo) = base_op@.op {
                    let tres = fw.transform_result(sub_operand(new_op@.op), bo, is_right_side(side));
                    let m = common_len(base_op@.path, new_op@.path);
                    let ares = fw.apply_result(sub_target_down(removed_value(new_op@.op), base_op@.path.skip(m)), bo);
                    assert(transform_component_custom_spec(new_op@, base_op@, tres, ares) == Some(one(new_op@)));
                }
            }
            return Ok(single(new_op));
        }
        if base_operate_path_len > new_operate_path_len {
            let ghost n0 = new_op@;
            if new_op.path.is_prefix_of(&base_op.path) {
                self.consume(&mut new_op, &max_common_path, base_op, functions)?;
                proof {
                    if let OperatorModel::SubType(SubTypeName::Custom(name), bo) = base_op@.op {
                        if functions.has(name) {
                            let m = common_len(base_op@.path, n0.path);
                            let f1 = choose|f: Box<dyn SubTypeFunctions>|
                                new_op@ == consume_custom_spec(
                                    n0,
                                    m,
                                    base_op@,
                                    #[trigger] f.apply_result(sub_target_down(removed_value(n0.op), base_op@.path.skip(m)), bo),
                                );
                            let tres = f1.transform_result(sub_operand(n0.op), bo, is_right_side(side));
                            let ares = f1.apply_result(sub_target_down(removed_value(n0.op), base_op@.path.skip(m)), bo);
                            assert(transform_component_custom_spec(n0, base_op@, tres, ares) == Some(one(new_op@)));
                        }
                    }
                }
            } else {
                proof {
                    let fw: Box<dyn SubTypeFunctions> = vstd::pervasive::arbitrary();
                    if let OperatorModel::SubType(SubTypeName::Custom(name), bo) = base_op@.op {
                        let tres = fw.transform_result(sub_operand(n0.op), bo, is_right_side(side));
                        let m = common_len(base_op@.path, n0.path);
                        let ares = fw.apply_result(sub_target_down(removed_value(n0.op), base_op@.path.skip(m)), bo);
                        assert(transform_component_custom_spec(n0, base_op@, tres, ares) == Some(one(n0)));
                    }
                }
            }
            return Ok(single(new_op));
        }
        let same_operand = base_op.path.len() == new_op.path.len();
        let base_op_is_prefix = base_op.path.is_prefix_of(&new_op.path);
        match &base_op.operator {
            Operator::SubType(_, _) => transform_sub_type(new_op, base_op, side, functions),
            Operator::ListReplace(li, _) => transform_list_replace(new_op, li, side, same_operand, base_op_is_prefix),
            Operator::ListInsert(_) => transform_list_insert(
                new_op,
                base_op,
                side,
                same_operand,
                base_op_is_prefix,
                base_operate_path_len,
            ),
            Operator::ListDelete(_) => transform_list_delete(
                new_op,
                base_op,
                same_operand,
                base_op_is_prefix,
                base_operate_path_len,
            ),
            Operator::ObjectReplace(oi, _) => transform_object_replace(
                new_op,
                oi,
                side,
                same_operand,
                base_op_is_prefix,
            ),
            Operator::ObjectInsert(boi) => transform_object_insert(
                new_op,
                base_op,
                boi,
                side,
                same_operand,
                base_op_is_prefix,
            ),
            Operator::ObjectDelete(_) => transform_object_delete(new_op, side, same_operand, base_op_is_prefix),
            Operator::ListMove(lm) => transform_list_move(
                new_op,
                base_op,
                *lm,
                side,
                same_operand,
                base_operate_path_len,
                new_operate_path_len,
            ),
            Operator::Noop() => Ok(single(new_op)),
        }
    }

    /// Transforms the components of `operation` one after the other against
    /// `base_op`, which is transformed against each of them in turn; gives the
    /// transformed components and what `base_op` became (`multi_fold_with`, with
    /// what the functions of custom sub types give, `multi_fits`).
    pub fn transform_multi(
        &self,
        operation: Operation,
        base_op: OperationComponent,
        functions: &SubTypeFunctionsHolder,
    ) -> (r: Result<(Operation, Option<OperationComponent>)>)
        ensures
            all_builtin(operation@) && !is_custom_op(base_op@.op) ==> match multi_fold(
                operation@,
                not_noop_spec(base_op@),
            ) {
                Some((a, b)) => r is Ok && r->Ok_0.0@ == a && match r->Ok_0.1 {
                    Some(c) => b == Some(c@),
                    None => b is None,
                },
                None => r matches Err(JsonError::InvalidOperation(_)),
            },
            all_builtin(operation@) && !is_custom_op(base_op@.op) && r is Ok ==> all_builtin(r->Ok_0.0@),
            exists|xs: Seq<(CustomTransform, CustomTransform)>|
                #![trigger multi_fold_with(operation@, not_noop_spec(base_op@), xs)]
                {
                    &&& xs.len() == operation@.len()
                    &&& forall|k: int|
                        0 <= k < operation@.len() ==> #[trigger] multi_fits(
                            operation@,
                            not_noop_spec(base_op@),
                            xs,
                            functions,
                            k,
                        )
                    &&& match multi_fold_with(operation@, not_noop_spec(base_op@), xs) {
                        Some((a, b)) => r is Ok && r->Ok_0.0@ == a && match r->Ok_0.1 {
                            Some(c) => b == Some(c@),
                            None => b is None,
                        },
                        None => r is Err,
                    }
                },
    {
        let ghost ops_model = operation@;
        let ghost base0 = not_noop_spec(base_op@);
        let ghost mut xs: Seq<(CustomTransform, CustomTransform)> = Seq::empty();
        let ghost none: CustomTransform = (None, None);
        let ghost builtin = all_builtin(operation@) && !is_custom_op(base_op@.op);
        let ops = operation.into_components();
        let mut out: Vec<OperationComponent> = Vec::new();
        let mut base = base_op.not_noop();
        let mut i: usize = 0;
        assert(ops_model.take(0) =~= Seq::<ComponentModel>::empty());
        while i < ops.len()
            invariant
                i <= ops.len(),
                components_view(ops@) == ops_model,
                ops_model == operation@,
                base0 == not_noop_spec(base_op@),
                builtin == (all_builtin(operation@) && !is_custom_op(base_op@.op)),
                builtin ==> all_builtin(ops_model),
                builtin ==> all_builtin(components_view(out@)),
                builtin ==> match base {
                    Some(c) => !is_custom_op(c@.op),
                    None => true,
                },
                builtin ==> multi_fold(ops_model.take(i as int), base0) == Some(
                    (
                        components_view(out@),
                        match base {
                            Some(c) => Some(c@),
                            None => None,
                        },
                    ),
                ),
                xs.len() == i,
                forall|k: int| 0 <= k < i ==> #[trigger] multi_fits(ops_model, base0, xs, functions, k),
                multi_fold_with(ops_model.take(i as int), base0, xs) == Some(
                    (
                        components_view(out@),
                        match base {
                            Some(c) => Some(c@),
                            None => None,
                        },
                    ),
                ),
            decreases ops.len() - i,
        {
            let ghost xs0 = xs;
            let ghost out0 = components_view(out@);
            let op = ops[i].clone();
            let ghost opm = op@;
            assert(ops_model.take(i + 1).drop_last() =~= ops_model.take(i as int));
            assert(ops_model[i as int] == opm);
            assert(ops_model.take(i + 1).last() == opm);
            assert(builtin ==> !is_custom_op(ops_model[i as int].op));
            match base {
                Some(b) => {
                    let backup = op.clone();
                    let ghost bm = b@;
                    let ra = self.transform_component(op, &b, TransformSide::LEFT, functions);
                    let ghost xl = choose|x: CustomTransform|
                        #[trigger] custom_transform_fits(functions, opm, bm, false, x) && match transform_component_with(
                            opm,
                            bm,
                            false,
                            x,
                        ) {
                            Some(s) => ra is Ok && components_view(ra->Ok_0@) == s,
                            None => ra is Err,
                        };
                    proof {
                        assert(is_right_side(TransformSide::LEFT) == false);
                        lemma_some_fit(functions, bm, opm, true);
                        lemma_multi_with_prefix(ops_model.take(i as int), base0, xs0, xs0.push((xl, some_fit(functions, bm, opm, true))));
                    }
                    let a = match ra {
                        Ok(a) => a,
                        Err(e) => {
                            proof {
                                if builtin {
                                    assert(multi_fold(ops_model.take(i + 1), base0) is None);
                                    lemma_multi_fold_fails(ops_model, base0, i + 1);
                                }
                                let xs1 = xs0.push((xl, some_fit(functions, bm, opm, true)));
                                assert(multi_fold_with(ops_model.take(i + 1), base0, xs1) is None);
                                assert forall|k: int| 0 <= k <= i implies #[trigger] multi_fits(ops_model, base0, xs1, functions, k) by {
                                    if k < i {
                                        assert(multi_fits(ops_model, base0, xs0, functions, k));
                                        lemma_multi_with_prefix(ops_model.take(k), base0, xs0, xs1);
                                    }
                                }
                                let full = lemma_multi_with_failed(ops_model, base0, xs1, functions, i as int);
                                assert(multi_fold_with(ops_model, base0, full) is None);
                            }
                            return Err(e);
                        },
                    };
                    let rb = self.transform_component(b, &backup, TransformSide::RIGHT, functions);
                    let ghost xr = choose|x: CustomTransform|
                        #[trigger] custom_transform_fits(functions, bm, opm, true, x) && match transform_component_with(
                            bm,
                            opm,
                            true,
                            x,
                        ) {
                            Some(s) => rb is Ok && components_view(rb->Ok_0@) == s,
                            None => rb is Err,
                        };
                    let ghost xs1 = xs0.push((xl, xr));
                    proof {
                        assert(is_right_side(TransformSide::RIGHT) == true);
                        lemma_multi_with_prefix(ops_model.take(i as int), base0, xs0, xs1);
                        assert forall|k: int| 0 <= k <= i implies #[trigger] multi_fits(ops_model, base0, xs1, functions, k) by {
                            if k < i {
                                assert(multi_fits(ops_model, base0, xs0, functions, k));
                                lemma_multi_with_prefix(ops_model.take(k), base0, xs0, xs1);
                            }
                        }
                    }
                    let mut bs = match rb {
                        Ok(bs) => bs,
                        Err(e) => {
                            proof {
                                if builtin {
                                    assert(multi_fold(ops_model.take(i + 1), base0) is None);
                                    lemma_multi_fold_fails(ops_model, base0, i + 1);
                                }
                                assert(multi_fold_with(ops_model.take(i + 1), base0, xs1) is None);
                                let full = lemma_multi_with_failed(ops_model, base0, xs1, functions, i as int);
                                assert(multi_fold_with(ops_model, base0, full) is None);
                            }
                            return Err(e);
                        },
                    };
                    if bs.len() != 1 {
                        proof {
                            if builtin {
                                lemma_multi_fold_fails(ops_model, base0, i + 1);
                            }
                            assert(multi_fold_with(ops_model.take(i + 1), base0, xs1) is None);
                            let full = lemma_multi_with_failed(ops_model, base0, xs1, functions, i as int);
                            assert(multi_fold_with(ops_model, base0, full) is None);
                        }
                        return Err(invalid_operation("a base component must transform into exactly one component"));
                    }
                    proof {
                        if builtin {
                            lemma_transform_keeps_builtin(opm, b@, false);
                            lemma_transform_keeps_builtin(b@, opm, true);
                        }
                    }
                    let ghost out_before = components_view(out@);
                    let ghost a_model = components_view(a@);
                    let ghost bs_model = components_view(bs@);
                    base = bs.pop();
                    let mut a = a;
                    out.append(&mut a);
                    proof {
                        assert(components_view(out@) =~= out_before + a_model);
                        assert(bs_model[0] == base->0@);
                        xs = xs1;
                    }
                },
                None => {
                    let ghost out_before = components_view(out@);
                    out.push(op);
                    proof {
                        assert(components_view(out@) =~= out_before.push(opm));
                        let xs1 = xs0.push((none, none));
                        lemma_multi_with_prefix(ops_model.take(i as int), base0, xs0, xs1);
                        assert forall|k: int| 0 <= k <= i implies #[trigger] multi_fits(ops_model, base0, xs1, functions, k) by {
                            if k < i {
                                assert(multi_fits(ops_model, base0, xs0, functions, k));
                                lemma_multi_with_prefix(ops_model.take(k), base0, xs0, xs1);
                            }
                        }
                        xs = xs1;
                    }
                },
            }
            i = i + 1;
        }
        assert(ops_model.take(i as int) =~= ops_model);
        assert(multi_fold_with(ops_model, base0, xs) == multi_fold_with(ops_model.take(i as int), base0, xs));
        Ok((Operation::from_components(out), base))
    }

    /// Transforms `operation` against each component of `base_operation` in turn;
    /// gives the transformed operation and what the components of
    /// `base_operation` became (`matrix_fold_with`, with what the functions of
    /// custom sub types give, `matrix_fits`).
    pub fn transform_matrix(
        &self,
        operation: Operation,
        base_operation: Operation,
        functions: &SubTypeFunctionsHolder,
    ) -> (r: Result<(Operation, Operation)>)
        ensures
            all_builtin(operation@) && all_builtin(base_operation@) ==> match transform_matrix_spec(
                operation@,
                base_operation@,
            ) {
                Some((a, b)) => r is Ok && r->Ok_0.0@ == a && r->Ok_0.1@ == b,
                None => r matches Err(JsonError::InvalidOperation(_)),
            },
            base_operation@.len() == 0 ==> r is Ok && r->Ok_0.0@ == operation@ && r->Ok_0.1@
                == Seq::<ComponentModel>::empty(),
            operation@.len() == 0 ==> r is Ok && r->Ok_0.0@ == operation@ && r->Ok_0.1@ == base_operation@,
            operation@.len() > 0 && base_operation@.len() > 0 ==> exists|
                xss: Seq<Seq<(CustomTransform, CustomTransform)>>,
            |
                #![trigger matrix_fold_with(operation@, base_operation@, xss)]
                {
                    &&& xss.len() == base_operation@.len()
                    &&& forall|i: int|
                        0 <= i < base_operation@.len() ==> #[trigger] matrix_fits(
                            operation@,
                            base_operation@,
                            xss,
                            functions,
                            i,
                        )
                    &&& match matrix_fold_with(operation@, base_operation@, xss) {
                        Some((a, b)) => r is Ok && r->Ok_0.0@ == a && r->Ok_0.1@ == b,
                        None => r is Err,
                    }
                },
    {
        if operation.is_empty() || base_operation.is_empty() {
            return Ok((operation, base_operation));
        }
        let ghost ops_model = operation@;
        let ghost bases_model = base_operation@;
        let ghost mut xss: Seq<Seq<(CustomTransform, CustomTransform)>> = Seq::empty();
        let ghost builtin = all_builtin(operation@) && all_builtin(base_operation@);
        let bases = base_operation.into_components();
        let mut out_b: Vec<OperationComponent> = Vec::new();
        let mut ops = operation;
        let mut i: usize = 0;
        assert(bases_model.take(0) =~= Seq::<ComponentModel>::empty());
        while i < bases.len()
            invariant
                i <= bases.len(),
                components_view(bases@) == bases_model,
                ops_model == operation@,
                bases_model == base_operation@,
                builtin == (all_builtin(operation@) && all_builtin(base_operation@)),
                ops_model.len() > 0,
                bases_model.len() > 0,
                builtin ==> all_builtin(ops@),
                builtin ==> matrix_fold(ops_model, bases_model.take(i as int)) == Some(
                    (ops@, components_view(out_b@)),
                ),
                xss.len() == i,
                forall|k: int| 0 <= k < i ==> #[trigger] matrix_fits(ops_model, bases_model, xss, functions, k),
                matrix_fold_with(ops_model, bases_model.take(i as int), xss) == Some((ops@, components_view(out_b@))),
            decreases bases.len() - i,
        {
            let base_op = bases[i].clone();
            let ghost bm = base_op@;
            let ghost o = ops@;
            let ghost xss0 = xss;
            assert(bases_model[i as int] == bm);
            assert(bases_model.take(i + 1).drop_last() =~= bases_model.take(i as int));
            assert(bases_model.take(i + 1).last() == bm);
            assert(builtin ==> !is_custom_op(bases_model[i as int].op));
            let rm = self.transform_multi(ops, base_op, functions);
            let ghost xs = choose|xs: Seq<(CustomTransform, CustomTransform)>|
                {
                    &&& xs.len() == o.len()
                    &&& forall|k: int|
                        0 <= k < o.len() ==> #[trigger] multi_fits(o, not_noop_spec(bm), xs, functions, k)
                    &&& match #[trigger] multi_fold_with(o, not_noop_spec(bm), xs) {
                        Some((a, b)) => rm is Ok && rm->Ok_0.0@ == a && match rm->Ok_0.1 {
                            Some(c) => b == Some(c@),
                            None => b is None,
                        },
                        None => rm is Err,
                    }
                };
            let ghost xss1 = xss0.push(xs);
            proof {
                lemma_matrix_with_prefix(ops_model, bases_model.take(i as int), xss0, xss1);
                assert forall|k: int| 0 <= k <= i implies #[trigger] matrix_fits(ops_model, bases_model, xss1, functions, k) by {
                    lemma_matrix_with_prefix(ops_model, bases_model.take(k), xss0, xss1);
                    if k < i {
                        assert(matrix_fits(ops_model, bases_model, xss0, functions, k));
                    } else {
                        assert(bases_model[k] == bm);
                    }
                }
            }
            let (a, b) = match rm {
                Ok(x) => x,
                Err(e) => {
                    proof {
                        if builtin {
                            assert(matrix_fold(ops_model, bases_model.take(i + 1)) is None);
                            lemma_matrix_fold_fails(ops_model, bases_model, i + 1);
                        }
                        assert(matrix_fold_with(ops_model, bases_model.take(i + 1), xss1) is None);
                        let full = xss1 + Seq::new(
                            (bases_model.len() - i - 1) as nat,
                            |k: int| Seq::<(CustomTransform, CustomTransform)>::empty(),
                        );
                        lemma_matrix_with_prefix(ops_model, bases_model.take(i + 1), xss1, full);
                        lemma_matrix_with_fails(ops_model, bases_model, full, i + 1);
                        assert forall|k: int| 0 <= k < bases_model.len() implies #[trigger] matrix_fits(
                            ops_model,
                            bases_model,
                            full,
                            functions,
                            k,
                        ) by {
                            if k <= i {
                                assert(matrix_fits(ops_model, bases_model, xss1, functions, k));
                                lemma_matrix_with_prefix(ops_model, bases_model.take(k), xss1, full);
                            } else {
                                assert(bases_model.take(k).take(i + 1) =~= bases_model.take(i + 1));
                                lemma_matrix_with_fails(ops_model, bases_model.take(k), full, i + 1);
                            }
                        }
                        assert(matrix_fold_with(ops_model, bases_model, full) is None);
                    }
                    return Err(e);
                },
            };
            let ghost out_before = components_view(out_b@);
            ops = a;
            if let Some(o) = b {
                out_b.push(o);
                proof {
                    assert(components_view(out_b@) =~= out_before.push(o@));
                }
            }
            proof {
                assert(bases_model.take(i + 1).drop_last() =~= bases_model.take(i as int));
                assert(matrix_fold_with(ops_model, bases_model.take(i + 1), xss1) == Some(
                    (ops@, components_view(out_b@)),
                ));
                xss = xss1;
            }
            i = i + 1;
        }
        assert(bases_model.take(i as int) =~= bases_model);
        Ok((ops, Operation::from_components(out_b)))
    }

    /// `op` transformed against `base` on the left side, and `base` against `op` on
    /// the right side.
    fn transform_pair(
        &self,
        op: &OperationComponent,
        base: &OperationComponent,
        functions: &SubTypeFunctionsHolder,
    ) -> (r: Result<(Operation, Operation)>)
        ensures
            !is_custom_op(op@.op) && !is_custom_op(base@.op) ==> match transform_component_spec(op@, base@, false) {
                None => r matches Err(JsonError::InvalidOperation(_)),
                Some(a) => match transform_component_spec(base@, op@, true) {
                    None => r matches Err(JsonError::InvalidOperation(_)),
                    Some(b) => r is Ok && r->Ok_0.0@ == a && r->Ok_0.1@ == b,
                },
            },
            exists|x: (CustomTransform, CustomTransform)|
                custom_transform_fits(functions, op@, base@, false, x.0) && custom_transform_fits(
                    functions,
                    base@,
                    op@,
                    true,
                    x.1,
                ) && match #[trigger] pair_with(op@, base@, x) {
                    Some((a, b)) => r is Ok && r->Ok_0.0@ == a && r->Ok_0.1@ == b,
                    None => r is Err,
                },
    {
        let ghost om = op@;
        let ghost bm = base@;
        let ra = self.transform_component(op.clone(), base, TransformSide::LEFT, functions);
        let ghost xl = choose|x: CustomTransform|
            #[trigger] custom_transform_fits(functions, om, bm, false, x) && match transform_component_with(
                om,
                bm,
                false,
                x,
            ) {
                Some(s) => ra is Ok && components_view(ra->Ok_0@) == s,
                None => ra is Err,
            };
        proof {
            assert(is_right_side(TransformSide::LEFT) == false);
            assert(is_right_side(TransformSide::RIGHT) == true);
            lemma_some_fit(functions, bm, om, true);
        }
        let a = match ra {
            Ok(a) => a,
            Err(e) => {
                proof {
                    let x = (xl, some_fit(functions, bm, om, true));
                    assert(pair_with(om, bm, x) is None);
                }
                return Err(e);
            },
        };
        let rb = self.transform_component(base.clone(), op, TransformSide::RIGHT, functions);
        let ghost xr = choose|x: CustomTransform|
            #[trigger] custom_transform_fits(functions, bm, om, true, x) && match transform_component_with(
                bm,
                om,
                true,
                x,
            ) {
                Some(s) => rb is Ok && components_view(rb->Ok_0@) == s,
                None => rb is Err,
            };
        let b = match rb {
            Ok(b) => b,
            Err(e) => {
                proof {
                    assert(pair_with(om, bm, (xl, xr)) is None);
                }
                return Err(e);
            },
        };
        let r = (Operation::from_components(a), Operation::from_components(b));
        proof {
            assert(pair_with(om, bm, (xl, xr)) == Some((r.0@, r.1@)));
        }
        Ok(r)
    }

    /// `transform` on valid operations with a non-empty `base_operation`.
    fn transform_valid(
        &self,
        operation: &Operation,
        base_operation: &Operation,
        functions: &SubTypeFunctionsHolder,
    ) -> (r: Result<(Operation, Operation)>)
        requires
            base_operation@.len() > 0,
            all_valid(operation@),
            all_valid(base_operation@),
        ensures
            all_builtin(operation@) && all_builtin(base_operation@) ==> match transform_spec(
                operation@,
                base_operation@,
            ) {
                Some((a, b)) => r is Ok && r->Ok_0.0@ == a && r->Ok_0.1@ == b,
                None => r matches Err(JsonError::InvalidOperation(_)),
            },
            exists|xss: Seq<Seq<(CustomTransform, CustomTransform)>>|
                #![trigger transform_with(operation@, base_operation@, xss)]
                transform_fits(operation@, base_operation@, xss, functions) && match transform_with(
                    operation@,
                    base_operation@,
                    xss,
                ) {
                    Some((a, b)) => r is Ok && r->Ok_0.0@ == a && r->Ok_0.1@ == b,
                    None => r is Err,
                },
    {
        if operation.len() == 1 && base_operation.len() == 1 {
            let op = match operation.get(0) {
                Some(c) => c,
                None => return Err(invalid_operation("operation has no component")),
            };
            let base = match base_operation.get(0) {
                Some(c) => c,
                None => return Err(invalid_operation("operation has no component")),
            };
            proof {
                if all_builtin(operation@) && all_builtin(base_operation@) {
                    assert(!is_custom_op(base_operation@[0].op));
                    assert(!is_custom_op(operation@[0].op));
                }
            }
            let r = self.transform_pair(op, base, functions);
            proof {
                let x = choose|x: (CustomTransform, CustomTransform)|
                    custom_transform_fits(functions, op@, base@, false, x.0) && custom_transform_fits(
                        functions,
                        base@,
                        op@,
                        true,
                        x.1,
                    ) && match #[trigger] pair_with(op@, base@, x) {
                        Some((a, b)) => r is Ok && r->Ok_0.0@ == a && r->Ok_0.1@ == b,
                        None => r is Err,
                    };
                let xss = seq![seq![x]];
                assert(transform_fits(operation@, base_operation@, xss, functions));
                assert(transform_with(operation@, base_operation@, xss) == pair_with(op@, base@, x));
            }
            return r;
        }
        let rm = self.transform_matrix(operation.clone(), base_operation.clone(), functions);
        proof {
            if operation@.len() == 0 {
                let xss: Seq<Seq<(CustomTransform, CustomTransform)>> = Seq::new(
                    base_operation@.len(),
                    |i: int| Seq::<(CustomTransform, CustomTransform)>::empty(),
                );
                assert forall|i: int| 0 <= i < base_operation@.len() implies #[trigger] matrix_fits(
                    operation@,
                    base_operation@,
                    xss,
                    functions,
                    i,
                ) by {
                    assert(operation@ =~= Seq::<ComponentModel>::empty());
                    lemma_matrix_empty_ops(base_operation@.take(i), xss);
                    assert(xss[i].len() == 0);
                }
                assert(transform_fits(operation@, base_operation@, xss, functions));
                assert(transform_with(operation@, base_operation@, xss) == Some((operation@, base_operation@)));
            } else {
                let xss = choose|xss: Seq<Seq<(CustomTransform, CustomTransform)>>|
                    {
                        &&& xss.len() == base_operation@.len()
                        &&& forall|i: int|
                            0 <= i < base_operation@.len() ==> #[trigger] matrix_fits(
                                operation@,
                                base_operation@,
                                xss,
                                functions,
                                i,
                            )
                        &&& match #[trigger] matrix_fold_with(operation@, base_operation@, xss) {
                            Some((a, b)) => rm is Ok && rm->Ok_0.0@ == a && rm->Ok_0.1@ == b,
                            None => rm is Err,
                        }
                    };
                assert(transform_fits(operation@, base_operation@, xss, functions));
                assert(transform_with(operation@, base_operation@, xss) == matrix_fold_with(
                    operation@,
                    base_operation@,
                    xss,
                ));
            }
        }
        rm
    }

    /// Transforms two concurrent operations against each other: gives `operation`
    /// as it must apply after `base_operation`, and `base_operation` as it must
    /// apply after `operation`. Both must be valid, unless `base_operation` is
    /// empty. Components of custom sub types must have their sub types registered,
    /// with functions that accept their operands; transforming against them goes by
    /// what those functions give (`transform_with`).
    pub fn transform(
        &self,
        operation: &Operation,
        base_operation: &Operation,
        functions: &SubTypeFunctionsHolder,
    ) -> (r: Result<(Operation, Operation)>)
        ensures
            all_builtin(operation@) && all_builtin(base_operation@) ==> match transform_spec(
                operation@,
                base_operation@,
            ) {
                Some((a, b)) => r is Ok && r->Ok_0.0@ == a && r->Ok_0.1@ == b,
                None => r matches Err(JsonError::InvalidOperation(_)),
            },
            base_operation@.len() == 0 ==> r is Ok && r->Ok_0.0@ == operation@ && r->Ok_0.1@
                == Seq::<ComponentModel>::empty(),
            base_operation@.len() > 0 ==> match r {
                Ok((a, b)) => {
                    &&& all_valid(operation@) && all_valid(base_operation@)
                    &&& custom_operands_accepted(operation@, functions)
                    &&& custom_operands_accepted(base_operation@, functions)
                    &&& exists|xss: Seq<Seq<(CustomTransform, CustomTransform)>>|
                        #![trigger transform_with(operation@, base_operation@, xss)]
                        transform_fits(operation@, base_operation@, xss, functions) && transform_with(
                            operation@,
                            base_operation@,
                            xss,
                        ) == Some((a@, b@))
                },
                Err(_) => {
                    ||| !all_valid(operation@) || !all_valid(base_operation@)
                    ||| custom_operand_refused(operation@, functions)
                    ||| custom_operand_refused(base_operation@, functions)
                    ||| exists|xss: Seq<Seq<(CustomTransform, CustomTransform)>>|
                        #![trigger transform_with(operation@, base_operation@, xss)]
                        transform_fits(operation@, base_operation@, xss, functions) && transform_with(
                            operation@,
                            base_operation@,
                            xss,
                        ) is None
                },
            },
    {
        if base_operation.is_empty() {
            return Ok((operation.clone(), Operation::empty_operation()));
        }
        operation.validates()?;
        base_operation.validates()?;
        validate_custom_operands(operation, functions)?;
        validate_custom_operands(base_operation, functions)?;
        self.transform_valid(operation, base_operation, functions)
    }
}

} // verus!
