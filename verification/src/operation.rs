//! Operations on JSON documents: operators, components (an operator at a path)
//! and operations (sequences of components), with their builders.
use vstd::prelude::*;
use vstd::std_specs::cmp::PartialEqSpecImpl;
use vstd::std_specs::convert::FromSpecImpl;

pub use crate::common::Validation;
use crate::error::{JsonError, Result, invalid_operation};
use crate::json::is_custom_op;
use crate::path::{Path, PathElement, PathKey, path_of_json};
use crate::sub_type::{SubType, SubTypeName, SubTypeFunctions, SubTypeFunctionsHolder, sub_type_of_name, function_ref_value,
    sub_type_validate,
    sub_type_supported, builtin_operand_valid, validate_builtin_operand,
    number_add_invert, number_add_invert_spec, text_invert, text_invert_spec, number_add_merge,
    number_add_merge_spec, text_merge, text_merge_spec};
use crate::value::{Json, Value, json_eq, json_member, entries_view, lemma_object_view, lemma_array_view,
    lemma_two_entries, lemma_two_entries_absent,
    values_view};

verus! {

/// What an operator does at the end of its path.
#[derive(Debug)]
pub enum Operator {
    Noop(),
    SubType(SubType, Value),
    ListInsert(Value),
    ListDelete(Value),
    /// The new value, then the old one.
    ListReplace(Value, Value),
    ListMove(usize),
    ObjectInsert(Value),
    ObjectDelete(Value),
    /// The new value, then the old one.
    ObjectReplace(Value, Value),
}

/// The model of an operator.
pub enum OperatorModel {
    Noop,
    SubType(SubTypeName, Json),
    ListInsert(Json),
    ListDelete(Json),
    ListReplace(Json, Json),
    ListMove(usize),
    ObjectInsert(Json),
    ObjectDelete(Json),
    ObjectReplace(Json, Json),
}

impl Operator {
    pub open spec fn view(&self) -> OperatorModel {
        match self {
            Operator::Noop() => OperatorModel::Noop,
            Operator::SubType(t, v) => OperatorModel::SubType(t@, v@),
            Operator::ListInsert(v) => OperatorModel::ListInsert(v@),
            Operator::ListDelete(v) => OperatorModel::ListDelete(v@),
            Operator::ListReplace(n, o) => OperatorModel::ListReplace(n@, o@),
            Operator::ListMove(i) => OperatorModel::ListMove(*i),
            Operator::ObjectInsert(v) => OperatorModel::ObjectInsert(v@),
            Operator::ObjectDelete(v) => OperatorModel::ObjectDelete(v@),
            Operator::ObjectReplace(n, o) => OperatorModel::ObjectReplace(n@, o@),
        }
    }
}

/// Equality of operators: same kind, and equal values (as JSON) and indices.
pub open spec fn operator_eq(a: OperatorModel, b: OperatorModel) -> bool {
    match (a, b) {
        (OperatorModel::Noop, OperatorModel::Noop) => true,
        (OperatorModel::SubType(t1, v1), OperatorModel::SubType(t2, v2)) => t1 == t2 && json_eq(v1, v2),
        (OperatorModel::ListInsert(v1), OperatorModel::ListInsert(v2)) => json_eq(v1, v2),
        (OperatorModel::ListDelete(v1), OperatorModel::ListDelete(v2)) => json_eq(v1, v2),
        (OperatorModel::ListReplace(n1, o1), OperatorModel::ListReplace(n2, o2)) => json_eq(n1, n2)
            && json_eq(o1, o2),
        (OperatorModel::ListMove(i1), OperatorModel::ListMove(i2)) => i1 == i2,
        (OperatorModel::ObjectInsert(v1), OperatorModel::ObjectInsert(v2)) => json_eq(v1, v2),
        (OperatorModel::ObjectDelete(v1), OperatorModel::ObjectDelete(v2)) => json_eq(v1, v2),
        (OperatorModel::ObjectReplace(n1, o1), OperatorModel::ObjectReplace(n2, o2)) => json_eq(n1, n2)
            && json_eq(o1, o2),
        _ => false,
    }
}

impl Clone for Operator {
    fn clone(&self) -> (r: Self)
        ensures
            r@ == self@,
    {
        match self {
            Operator::Noop() => Operator::Noop(),
            Operator::SubType(t, v) => Operator::SubType(t.clone(), v.clone()),
            Operator::ListInsert(v) => Operator::ListInsert(v.clone()),
            Operator::ListDelete(v) => Operator::ListDelete(v.clone()),
            Operator::ListReplace(n, o) => Operator::ListReplace(n.clone(), o.clone()),
            Operator::ListMove(i) => Operator::ListMove(*i),
            Operator::ObjectInsert(v) => Operator::ObjectInsert(v.clone()),
            Operator::ObjectDelete(v) => Operator::ObjectDelete(v.clone()),
            Operator::ObjectReplace(n, o) => Operator::ObjectReplace(n.clone(), o.clone()),
        }
    }
}

impl PartialEq for Operator {
    fn eq(&self, other: &Self) -> (r: bool) {
        match (self, other) {
            (Operator::Noop(), Operator::Noop()) => true,
            (Operator::SubType(t1, v1), Operator::SubType(t2, v2)) => t1.eq(t2) && v1.json_equals(v2),
            (Operator::ListInsert(v1), Operator::ListInsert(v2)) => v1.json_equals(v2),
            (Operator::ListDelete(v1), Operator::ListDelete(v2)) => v1.json_equals(v2),
            (Operator::ListReplace(n1, o1), Operator::ListReplace(n2, o2)) => n1.json_equals(n2)
                && o1.json_equals(o2),
            (Operator::ListMove(i1), Operator::ListMove(i2)) => *i1 == *i2,
            (Operator::ObjectInsert(v1), Operator::ObjectInsert(v2)) => v1.json_equals(v2),
            (Operator::ObjectDelete(v1), Operator::ObjectDelete(v2)) => v1.json_equals(v2),
            (Operator::ObjectReplace(n1, o1), Operator::ObjectReplace(n2, o2)) => n1.json_equals(n2)
                && o1.json_equals(o2),
            _ => false,
        }
    }
}

impl PartialEqSpecImpl for Operator {
    open spec fn obeys_eq_spec() -> bool {
        true
    }

    open spec fn eq_spec(&self, other: &Operator) -> bool {
        operator_eq(self@, other@)
    }
}

/// The model of an operation component: the path and the operator.
pub struct ComponentModel {
    pub path: Seq<PathKey>,
    pub op: OperatorModel,
}

/// An operator applied at a path.
#[derive(Debug)]
pub struct OperationComponent {
    pub path: Path,
    pub operator: Operator,
}

impl OperationComponent {
    pub open spec fn view(&self) -> ComponentModel {
        ComponentModel { path: self.path@, op: self.operator@ }
    }
}

impl Clone for OperationComponent {
    fn clone(&self) -> (r: Self)
        ensures
            r@ == self@,
    {
        OperationComponent { path: self.path.clone(), operator: self.operator.clone() }
    }
}

impl PartialEq for OperationComponent {
    fn eq(&self, other: &Self) -> (r: bool) {
        self.path == other.path && self.operator == other.operator
    }
}

impl PartialEqSpecImpl for OperationComponent {
    open spec fn obeys_eq_spec() -> bool {
        true
    }

    open spec fn eq_spec(&self, other: &OperationComponent) -> bool {
        self@.path == other@.path && operator_eq(self@.op, other@.op)
    }
}

/// The models of a sequence of components.
pub open spec fn components_view(s: Seq<OperationComponent>) -> Seq<ComponentModel> {
    Seq::new(s.len(), |i: int| s[i]@)
}

/// A sequence of operation components, applied in order.
#[derive(Debug)]
pub struct Operation {
    operations: Vec<OperationComponent>,
}

impl Operation {
    pub closed spec fn view(&self) -> Seq<ComponentModel> {
        components_view(self.operations@)
    }
}

// ---------------------------------------------------------------------------
// Validity.

/// A sub type operator's operand suits its sub type (checked for the built-in ones).
pub open spec fn operator_valid(op: OperatorModel) -> bool {
    match op {
        OperatorModel::SubType(t, v) => builtin_operand_valid(t, v),
        _ => true,
    }
}

/// A component is valid when its path is not empty and its operator is valid.
pub open spec fn component_valid(c: ComponentModel) -> bool {
    c.path.len() > 0 && operator_valid(c.op)
}

impl Validation for Operator {
    fn validates(&self) -> (r: Result<()>)
        ensures
            r is Ok <==> operator_valid(self@),
            r matches Err(e) ==> e is InvalidOperation,
    {
        match self {
            Operator::SubType(t, operand) => validate_builtin_operand(t, operand),
            _ => Ok(()),
        }
    }
}

impl Validation for OperationComponent {
    fn validates(&self) -> (r: Result<()>)
        ensures
            r is Ok <==> component_valid(self@),
            r matches Err(e) ==> e is InvalidOperation,
    {
        if self.path.is_empty() {
            return Err(invalid_operation("Path is empty"));
        }
        self.operator.validates()
    }
}

impl Validation for Vec<OperationComponent> {
    fn validates(&self) -> (r: Result<()>)
        ensures
            r is Ok <==> forall|i: int| 0 <= i < self@.len() ==> component_valid(#[trigger] self@[i]@),
            r matches Err(e) ==> e is InvalidOperation,
    {
        let mut i: usize = 0;
        while i < self.len()
            invariant
                i <= self.len(),
                forall|j: int| 0 <= j < i ==> component_valid(#[trigger] self@[j]@),
            decreases self.len() - i,
        {
            self[i].validates()?;
            i = i + 1;
        }
        Ok(())
    }
}

// ---------------------------------------------------------------------------
// Components.

/// The inverse of a valid component: what undoes it.
pub open spec fn invert_operator_spec(c: ComponentModel) -> Option<ComponentModel> {
    let p = c.path;
    match c.op {
        OperatorModel::Noop => Some(c),
        OperatorModel::SubType(SubTypeName::NumberAdd, v) => match number_add_invert_spec(v) {
            Some(o) => Some(ComponentModel { path: p, op: o }),
            None => None,
        },
        OperatorModel::SubType(SubTypeName::Text, v) => match text_invert_spec(v) {
            Some(o) => Some(ComponentModel { path: p, op: o }),
            None => None,
        },
        OperatorModel::SubType(SubTypeName::Custom(_), _) => None,
        OperatorModel::ListInsert(v) => Some(ComponentModel { path: p, op: OperatorModel::ListDelete(v) }),
        OperatorModel::ListDelete(v) => Some(ComponentModel { path: p, op: OperatorModel::ListInsert(v) }),
        OperatorModel::ListReplace(n, o) => Some(ComponentModel { path: p, op: OperatorModel::ListReplace(o, n) }),
        OperatorModel::ListMove(to) => match p.last() {
            PathKey::Index(from) => Some(
                ComponentModel { path: p.update(p.len() - 1, PathKey::Index(to)), op: OperatorModel::ListMove(from) },
            ),
            PathKey::Key(_) => None,
        },
        OperatorModel::ObjectInsert(v) => Some(ComponentModel { path: p, op: OperatorModel::ObjectDelete(v) }),
        OperatorModel::ObjectDelete(v) => Some(ComponentModel { path: p, op: OperatorModel::ObjectInsert(v) }),
        OperatorModel::ObjectReplace(n, o) => Some(ComponentModel { path: p, op: OperatorModel::ObjectReplace(o, n) }),
    }
}

/// The inverse of a component, when the component is valid, has an inverse, and
/// the inverse is valid.
pub open spec fn invert_spec(c: ComponentModel) -> Option<ComponentModel> {
    if !component_valid(c) {
        None
    } else {
        match invert_operator_spec(c) {
            Some(i) => if component_valid(i) {
                Some(i)
            } else {
                None
            },
            None => None,
        }
    }
}

/// The operator that does `a` then `b` at the same path, where the two combine.
pub open spec fn merge_spec(a: OperatorModel, b: OperatorModel) -> Option<OperatorModel> {
    match a {
        OperatorModel::Noop => Some(b),
        OperatorModel::SubType(SubTypeName::NumberAdd, bv) => number_add_merge_spec(bv, b),
        OperatorModel::SubType(SubTypeName::Text, bv) => text_merge_spec(bv, b),
        OperatorModel::SubType(SubTypeName::Custom(_), _) => None,
        OperatorModel::ListInsert(v1) => match b {
            OperatorModel::ListDelete(v2) => if json_eq(v1, v2) {
                Some(OperatorModel::Noop)
            } else {
                None
            },
            OperatorModel::ListReplace(n2, o2) => if json_eq(o2, v1) {
                Some(OperatorModel::ListInsert(n2))
            } else {
                None
            },
            _ => None,
        },
        OperatorModel::ListReplace(n1, o1) => match b {
            OperatorModel::ListDelete(v2) => if json_eq(n1, v2) {
                Some(OperatorModel::ListDelete(o1))
            } else {
                None
            },
            OperatorModel::ListReplace(n2, o2) => if json_eq(n1, o2) {
                Some(OperatorModel::ListReplace(n2, o1))
            } else {
                None
            },
            _ => None,
        },
        OperatorModel::ObjectInsert(v1) => match b {
            OperatorModel::ObjectDelete(v2) => if json_eq(v1, v2) {
                Some(OperatorModel::Noop)
            } else {
                None
            },
            OperatorModel::ObjectReplace(n2, o2) => if json_eq(v1, o2) {
                Some(OperatorModel::ObjectInsert(n2))
            } else {
                None
            },
            _ => None,
        },
        OperatorModel::ObjectDelete(v1) => match b {
            OperatorModel::ObjectInsert(v2) => Some(OperatorModel::ObjectReplace(v2, v1)),
            _ => None,
        },
        OperatorModel::ObjectReplace(n1, o1) => match b {
            OperatorModel::ObjectDelete(v2) => if json_eq(n1, v2) {
                Some(OperatorModel::ObjectDelete(o1))
            } else {
                None
            },
            OperatorModel::ObjectReplace(n2, o2) => if json_eq(n1, o2) {
                Some(OperatorModel::ObjectReplace(n2, o1))
            } else {
                None
            },
            _ => None,
        },
        _ => None,
    }
}

/// The length of the part of a path that leads to the value an operator
/// changes: the whole path for sub types, all but the last element otherwise.
pub open spec fn operate_path_len_spec(c: ComponentModel) -> int {
    if c.op is SubType {
        c.path.len() as int
    } else if c.path.len() > 0 {
        c.path.len() - 1
    } else {
        0
    }
}

impl OperationComponent {
    /// A component, when it is valid.
    pub fn new(path: Path, operator: Operator) -> (r: Result<OperationComponent>)
        ensures
            match r {
                Ok(c) => c@ == (ComponentModel { path: path@, op: operator@ }) && component_valid(c@),
                Err(e) => !component_valid(ComponentModel { path: path@, op: operator@ })
                    && e is InvalidOperation,
            },
    {
        let op = OperationComponent { path, operator };
        op.validates()?;
        Ok(op)
    }

    /// A component that does nothing at the same path.
    pub fn noop(&self) -> (r: OperationComponent)
        ensures
            r@ == (ComponentModel { path: self@.path, op: OperatorModel::Noop }),
    {
        OperationComponent { path: self.path.clone(), operator: Operator::Noop() }
    }

    /// A copy of the component, unless it does nothing.
    pub fn clone_not_noop(&self) -> (r: Option<OperationComponent>)
        ensures
            match r {
                Some(c) => !(self@.op is Noop) && c@ == self@,
                None => self@.op is Noop,
            },
    {
        if let Operator::Noop() = self.operator {
            None
        } else {
            Some(self.clone())
        }
    }

    /// The component, unless it does nothing.
    pub fn not_noop(self) -> (r: Option<OperationComponent>)
        ensures
            match r {
                Some(c) => !(self@.op is Noop) && c == self,
                None => self@.op is Noop,
            },
    {
        if let Operator::Noop() = self.operator {
            None
        } else {
            Some(self)
        }
    }

    /// The component that undoes this one; the operator of a custom sub type is
    /// inverted by the functions registered for it in `functions`, which also check
    /// its operand.
    pub fn invert(&self, functions: &SubTypeFunctionsHolder) -> (r: Result<OperationComponent>)
        ensures
            !is_custom_op(self@.op) ==> match invert_spec(self@) {
                Some(c) => r is Ok && r->Ok_0@ == c,
                None => r matches Err(JsonError::InvalidOperation(_)),
            },
            self@.op matches OperatorModel::SubType(SubTypeName::Custom(name), _) && !functions.has(name) ==> r matches Err(
                JsonError::InvalidOperation(_),
            ),
            self@.op matches OperatorModel::SubType(SubTypeName::Custom(_), o) ==> (r is Ok ==> {
                &&& component_valid(self@)
                &&& r->Ok_0@.path == self@.path
                &&& component_valid(r->Ok_0@)
                &&& exists|f: Box<dyn SubTypeFunctions>|
                    f.operand_valid(o) && #[trigger] f.invert_result(self@.path, o) == Some(r->Ok_0@.op)
            }),
    {
        self.validates()?;
        let mut path = self.path.clone();
        let operator = match &self.operator {
            Operator::Noop() => Operator::Noop(),
            Operator::SubType(SubType::NumberAdd, o) => number_add_invert(o)?,
            Operator::SubType(SubType::Text, o) => text_invert(o)?,
            Operator::SubType(SubType::Custome(name), o) => match functions.get(name) {
                Some(f) => {
                    let fv = function_ref_value(&f);
                    fv.validate_operand(o)?;
                    fv.invert(&path, o)?
                },
                None => {
                    return Err(invalid_operation("no sub type functions for this sub type"));
                },
            },
            Operator::ListInsert(v) => Operator::ListDelete(v.clone()),
            Operator::ListDelete(v) => Operator::ListInsert(v.clone()),
            Operator::ListReplace(new_v, old_v) => Operator::ListReplace(old_v.clone(), new_v.clone()),
            Operator::ListMove(new) => {
                let last = path.len() - 1;
                let old_p = path.replace(last, PathElement::Index(*new));
                match old_p {
                    Some(PathElement::Index(i)) => Operator::ListMove(i),
                    _ => {
                        return Err(
                            invalid_operation(
                                "invalid lm operation, last path in operation is not index path type",
                            ),
                        );
                    },
                }
            },
            Operator::ObjectInsert(v) => Operator::ObjectDelete(v.clone()),
            Operator::ObjectDelete(v) => Operator::ObjectInsert(v.clone()),
            Operator::ObjectReplace(new_v, old_v) => Operator::ObjectReplace(old_v.clone(), new_v.clone()),
        };
        OperationComponent::new(path, operator)
    }

    /// Combines `op`, which comes after this component at the same path, into this
    /// component where the two combine (and gives back nothing); otherwise leaves
    /// this component as it is and gives `op` back.
    /// The operator of a custom sub type merges as the functions registered for it
    /// in `functions` say; without them it does not merge.
    pub fn merge(&mut self, op: OperationComponent, functions: &SubTypeFunctionsHolder) -> (r: Option<
        OperationComponent,
    >)
        ensures
            !is_custom_op(old(self)@.op) ==> match merge_spec(old(self)@.op, op@.op) {
                Some(n) => r is None && final(self)@ == (ComponentModel { path: old(self)@.path, op: n }),
                None => r == Some(op) && final(self)@ == old(self)@,
            },
            old(self)@.op matches OperatorModel::SubType(SubTypeName::Custom(name), bv) ==> match r {
                None => functions.has(name) && final(self)@.path == old(self)@.path && exists|
                    f: Box<dyn SubTypeFunctions>,
                | #[trigger] f.merge_result(bv, op@.op) == Some(final(self)@.op),
                Some(x) => x == op && final(self)@ == old(self)@ && (functions.has(name) ==> exists|
                    f: Box<dyn SubTypeFunctions>,
                | #[trigger] f.merge_result(bv, op@.op) is None),
            },
    {
        let new_operator = match &self.operator {
            Operator::Noop() => Some(op.operator.clone()),
            Operator::SubType(SubType::NumberAdd, base_v) => number_add_merge(base_v, &op.operator),
            Operator::SubType(SubType::Text, base_v) => text_merge(base_v, &op.operator),
            Operator::SubType(SubType::Custome(name), base_v) => match functions.get(name) {
                Some(f) => function_ref_value(&f).merge(base_v, &op.operator),
                None => None,
            },
            Operator::ListInsert(v1) => match &op.operator {
                Operator::ListDelete(v2) => if v1.json_equals(v2) {
                    Some(Operator::Noop())
                } else {
                    None
                },
                Operator::ListReplace(new_v, old_v) => if old_v.json_equals(v1) {
                    Some(Operator::ListInsert(new_v.clone()))
                } else {
                    None
                },
                _ => None,
            },
            Operator::ListReplace(new_v1, old_v1) => match &op.operator {
                Operator::ListDelete(v2) => if new_v1.json_equals(v2) {
                    Some(Operator::ListDelete(old_v1.clone()))
                } else {
                    None
                },
                Operator::ListReplace(new_v2, old_v2) => if new_v1.json_equals(old_v2) {
                    Some(Operator::ListReplace(new_v2.clone(), old_v1.clone()))
                } else {
                    None
                },
                _ => None,
            },
            Operator::ObjectInsert(v1) => match &op.operator {
                Operator::ObjectDelete(v2) => if v1.json_equals(v2) {
                    Some(Operator::Noop())
                } else {
                    None
                },
                Operator::ObjectReplace(new_v2, old_v2) => if v1.json_equals(old_v2) {
                    Some(Operator::ObjectInsert(new_v2.clone()))
                } else {
                    None
                },
                _ => None,
            },
            Operator::ObjectDelete(v1) => match &op.operator {
                Operator::ObjectInsert(v2) => Some(Operator::ObjectReplace(v2.clone(), v1.clone())),
                _ => None,
            },
            Operator::ObjectReplace(new_v1, old_v1) => match &op.operator {
                Operator::ObjectDelete(v2) => if new_v1.json_equals(v2) {
                    Some(Operator::ObjectDelete(old_v1.clone()))
                } else {
                    None
                },
                Operator::ObjectReplace(new_v2, old_v2) => if new_v1.json_equals(old_v2) {
                    Some(Operator::ObjectReplace(new_v2.clone(), old_v1.clone()))
                } else {
                    None
                },
                _ => None,
            },
            _ => None,
        };
        match new_operator {
            Some(n) => {
                self.operator = n;
                None
            },
            None => Some(op),
        }
    }

    /// The length of the part of the path that leads to the value the operator changes.
    pub fn operate_path_len(&self) -> (r: usize)
        ensures
            r == operate_path_len_spec(self@),
    {
        match self.operator {
            Operator::SubType(_, _) => self.path.len(),
            _ => if self.path.len() > 0 {
                self.path.len() - 1
            } else {
                0
            },
        }
    }
}

// ---------------------------------------------------------------------------
// Operations.

/// Two components are equal: same path, equal operators.
pub open spec fn component_eq(a: ComponentModel, b: ComponentModel) -> bool {
    a.path == b.path && operator_eq(a.op, b.op)
}

/// A move of an element to the index it already has.
pub open spec fn is_move_in_place(c: ComponentModel) -> bool {
    c.op is ListMove && c.path.len() > 0 && c.path.last() == PathKey::Index(c.op->ListMove_0)
}

/// The components after appending `c`: a move in place is dropped; a component
/// at the same path as the last one is merged into it where the two combine (and
/// both go where they cancel out); otherwise `c` is added at the end.
pub open spec fn append_spec(ops: Seq<ComponentModel>, c: ComponentModel) -> Seq<ComponentModel> {
    append_merged(
        ops,
        c,
        if ops.len() > 0 {
            merge_spec(ops.last().op, c.op)
        } else {
            None
        },
    )
}

/// The components after appending `c`, with `m` what the last component and `c`
/// merge into (`None`: they do not merge), as `append_spec` says.
pub open spec fn append_merged(ops: Seq<ComponentModel>, c: ComponentModel, m: Option<OperatorModel>) -> Seq<
    ComponentModel,
> {
    if is_move_in_place(c) {
        ops
    } else if ops.len() == 0 {
        seq![c]
    } else if ops.last().path == c.path {
        match m {
            Some(n) => if n is Noop {
                ops.drop_last()
            } else {
                ops.drop_last().push(ComponentModel { path: ops.last().path, op: n })
            },
            None => ops.push(c),
        }
    } else {
        ops.push(c)
    }
}

/// `m` is what the functions of the custom sub type `name` merge its operand
/// `bv` and the operator `c` into: some functions registered for it in `h` give
/// `m`, or, where none are registered, it does not merge.
pub open spec fn custom_merge_fits(
    h: &SubTypeFunctionsHolder,
    name: Seq<char>,
    bv: Json,
    c: OperatorModel,
    m: Option<OperatorModel>,
) -> bool {
    if h.has(name) {
        exists|f: Box<dyn SubTypeFunctions>| #[trigger] f.merge_result(bv, c) == m
    } else {
        m is None
    }
}

/// Appending `c` to `ops`: as `append_spec` says, except that where the last
/// component is of a custom sub type, it and `c` merge into `m`.
pub open spec fn append_with(ops: Seq<ComponentModel>, c: ComponentModel, m: Option<OperatorModel>) -> Seq<
    ComponentModel,
> {
    if ops.len() > 0 && is_custom_op(ops.last().op) {
        append_merged(ops, c, m)
    } else {
        append_spec(ops, c)
    }
}

/// `ops` composed with `others`, as `compose_spec` says, where appending the
/// component at `k` of `others` goes by the merge `ms[k]` (`append_with`).
pub open spec fn compose_with(ops: Seq<ComponentModel>, others: Seq<ComponentModel>, ms: Seq<Option<OperatorModel>>) -> Seq<
    ComponentModel,
>
    decreases others.len(),
{
    if others.len() == 0 {
        ops
    } else {
        append_with(compose_with(ops, others.drop_last(), ms), others.last(), ms[others.len() - 1])
    }
}

/// Where the component at `k` of `others` is appended after a component of a
/// custom sub type, `ms[k]` is what the functions of that sub type in `h` merge
/// the two into (`custom_merge_fits`).
pub open spec fn compose_merge_fits(
    ops: Seq<ComponentModel>,
    others: Seq<ComponentModel>,
    ms: Seq<Option<OperatorModel>>,
    h: &SubTypeFunctionsHolder,
    k: int,
) -> bool {
    let prev = compose_with(ops, others.take(k), ms);
    prev.len() > 0 ==> match prev.last().op {
        OperatorModel::SubType(SubTypeName::Custom(name), bv) => custom_merge_fits(h, name, bv, others[k].op, ms[k]),
        _ => true,
    }
}

proof fn lemma_compose_prefix(
    ops: Seq<ComponentModel>,
    others: Seq<ComponentModel>,
    ms1: Seq<Option<OperatorModel>>,
    ms2: Seq<Option<OperatorModel>>,
)
    requires
        forall|k: int| 0 <= k < others.len() ==> ms1[k] == ms2[k],
    ensures
        compose_with(ops, others, ms1) == compose_with(ops, others, ms2),
    decreases others.len(),
{
    if others.len() > 0 {
        lemma_compose_prefix(ops, others.drop_last(), ms1, ms2);
    }
}

/// No component is of a custom sub type.
pub open spec fn all_builtin_components(s: Seq<ComponentModel>) -> bool {
    forall|i: int| 0 <= i < s.len() ==> !is_custom_op(#[trigger] s[i].op)
}

/// Appending a component of a built-in kind to components of built-in kinds
/// gives components of built-in kinds.
proof fn lemma_append_builtin(ops: Seq<ComponentModel>, c: ComponentModel)
    requires
        all_builtin_components(ops),
        !is_custom_op(c.op),
    ensures
        all_builtin_components(append_spec(ops, c)),
{
    let r = append_spec(ops, c);
    if ops.len() > 0 && ops.last().path == c.path && !is_move_in_place(c) {
        match merge_spec(ops.last().op, c.op) {
            Some(n) => {
                assert(!is_custom_op(ops.last().op));
                assert(!is_custom_op(n));
                assert forall|i: int| 0 <= i < r.len() implies !is_custom_op(#[trigger] r[i].op) by {
                    if i < ops.len() - 1 {
                        assert(r[i] == ops[i]);
                    }
                }
            },
            None => {
                assert forall|i: int| 0 <= i < r.len() implies !is_custom_op(#[trigger] r[i].op) by {
                    if i < ops.len() {
                        assert(r[i] == ops[i]);
                    }
                }
            },
        }
    } else if !is_move_in_place(c) && ops.len() > 0 {
        assert forall|i: int| 0 <= i < r.len() implies !is_custom_op(#[trigger] r[i].op) by {
            if i < ops.len() {
                assert(r[i] == ops[i]);
            }
        }
    }
}

/// The components after appending each of `others` in turn.
pub open spec fn compose_spec(ops: Seq<ComponentModel>, others: Seq<ComponentModel>) -> Seq<ComponentModel>
    decreases others.len(),
{
    if others.len() == 0 {
        ops
    } else {
        append_spec(compose_spec(ops, others.drop_last()), others.last())
    }
}

impl Operation {
    /// An operation with no components.
    pub fn empty_operation() -> (r: Operation)
        ensures
            r@ == Seq::<ComponentModel>::empty(),
    {
        let r = Operation { operations: Vec::new() };
        assert(r@ =~= Seq::<ComponentModel>::empty());
        r
    }

    /// An operation made of `operations`, when each of them is valid.
    pub fn new(operations: Vec<OperationComponent>) -> (r: Result<Operation>)
        ensures
            match r {
                Ok(o) => o@ == components_view(operations@) && forall|i: int|
                    0 <= i < operations@.len() ==> component_valid(#[trigger] operations@[i]@),
                Err(e) => e is InvalidOperation && exists|i: int|
                    0 <= i < operations@.len() && !component_valid(#[trigger] operations@[i]@),
            },
    {
        operations.validates()?;
        Ok(Operation { operations })
    }

    /// An operation made of one component.
    pub fn from_component(input: OperationComponent) -> (r: Operation)
        ensures
            r@ == seq![input@],
    {
        let mut operations: Vec<OperationComponent> = Vec::new();
        let ghost c = input@;
        operations.push(input);
        let r = Operation { operations };
        assert(r@ =~= seq![c]);
        r
    }

    /// An operation made of the given components, unchecked.
    pub fn from_components(operations: Vec<OperationComponent>) -> (r: Operation)
        ensures
            r@ == components_view(operations@),
    {
        Operation { operations }
    }

    /// The components, in order.
    pub fn components(&self) -> (r: &Vec<OperationComponent>)
        ensures
            components_view(r@) == self@,
    {
        &self.operations
    }

    /// The components, in order.
    pub fn into_components(self) -> (r: Vec<OperationComponent>)
        ensures
            components_view(r@) == self@,
    {
        self.operations
    }

    pub fn len(&self) -> (r: usize)
        ensures
            r == self@.len(),
    {
        self.operations.len()
    }

    pub fn is_empty(&self) -> (r: bool)
        ensures
            r == (self@.len() == 0),
    {
        self.operations.len() == 0
    }

    pub fn get(&self, index: usize) -> (r: Option<&OperationComponent>)
        ensures
            match r {
                Some(c) => index < self@.len() && c@ == self@[index as int],
                None => index >= self@.len(),
            },
    {
        if index < self.operations.len() {
            Some(&self.operations[index])
        } else {
            None
        }
    }

    /// Adds a component at the end, as it is.
    pub fn push(&mut self, op: OperationComponent)
        ensures
            final(self)@ == old(self)@.push(op@),
    {
        let ghost c = op@;
        self.operations.push(op);
        assert(self@ =~= old(self)@.push(c));
    }

    /// Removes the last component and gives it back.
    pub fn pop(&mut self) -> (r: Option<OperationComponent>)
        ensures
            match r {
                Some(c) => old(self)@.len() > 0 && c@ == old(self)@.last() && final(self)@
                    == old(self)@.drop_last(),
                None => old(self)@.len() == 0 && final(self)@ == old(self)@,
            },
    {
        let r = self.operations.pop();
        assert(self@ =~= old(self)@.subrange(0, self@.len() as int));
        r
    }

    /// Appends a component, combining it with the last one where they combine.
    /// Where the last component is of a custom sub type, the functions registered
    /// for it in `functions` decide whether and into what the two merge.
    pub fn append(&mut self, op: OperationComponent, functions: &SubTypeFunctionsHolder) -> (r: Result<()>)
        requires
            op@.op is ListMove ==> op@.path.len() > 0,
        ensures
            r is Ok,
            old(self)@.len() == 0 || !is_custom_op(old(self)@.last().op) ==> final(self)@ == append_spec(
                old(self)@,
                op@,
            ),
            old(self)@.len() > 0 ==> (old(self)@.last().op matches OperatorModel::SubType(SubTypeName::Custom(name), bv)
                ==> exists|m: Option<OperatorModel>|
                #![trigger append_merged(old(self)@, op@, m)]
                final(self)@ == append_merged(old(self)@, op@, m) && custom_merge_fits(functions, name, bv, op@.op, m)),
    {
        let ghost fw: Box<dyn SubTypeFunctions> = vstd::pervasive::arbitrary();
        proof {
            if self@.len() > 0 {
                if let OperatorModel::SubType(SubTypeName::Custom(name), bv) = self@.last().op {
                    if functions.has(name) {
                        assert(custom_merge_fits(functions, name, bv, op@.op, fw.merge_result(bv, op@.op)));
                    }
                }
            }
        }
        if let Operator::ListMove(m) = op.operator {
            let last_index = op.path.len() - 1;
            if op.path.get(last_index).unwrap().eq(&PathElement::Index(m)) {
                assert(self@ == append_merged(self@, op@, None));
                proof {
                    if self@.len() > 0 {
                        if let OperatorModel::SubType(SubTypeName::Custom(name), bv) = self@.last().op {
                            assert(self@ == append_merged(self@, op@, fw.merge_result(bv, op@.op)));
                        }
                    }
                }
                return Ok(());
            }
        }
        if self.is_empty() {
            self.push(op);
            assert(self@ =~= seq![op@]);
            return Ok(());
        }
        let ghost ops = self@;
        let ghost c = op@;
        let mut last = self.pop().unwrap();
        if last.path.eq(&op.path) {
            match last.merge(op, functions) {
                Some(o) => {
                    self.push(last);
                    self.push(o);
                    assert(self@ == append_merged(ops, c, None));
                },
                None => {
                    if !last.operator.eq(&Operator::Noop()) {
                        self.push(last);
                    }
                    assert(self@ == append_merged(ops, c, Some(last@.op)));
                },
            }
        } else {
            self.push(last);
            self.push(op);
            assert(self@ == append_merged(ops, c, None));
            proof {
                if let OperatorModel::SubType(SubTypeName::Custom(name), bv) = ops.last().op {
                    assert(self@ == append_merged(ops, c, fw.merge_result(bv, c.op)));
                }
            }
        }
        Ok(())
    }

    /// Appends each component of `other` in turn (`compose_with`). Components of
    /// custom sub types merge as the functions registered for them in `functions`
    /// say (`compose_merge_fits`).
    pub fn compose(&mut self, other: Operation, functions: &SubTypeFunctionsHolder) -> (r: Result<()>)
        requires
            forall|i: int|
                0 <= i < other@.len() ==> (#[trigger] other@[i]).op is ListMove ==> other@[i].path.len() > 0,
        ensures
            r is Ok,
            all_builtin_components(old(self)@) && all_builtin_components(other@) ==> final(self)@ == compose_spec(
                old(self)@,
                other@,
            ),
            exists|ms: Seq<Option<OperatorModel>>|
                #![trigger compose_with(old(self)@, other@, ms)]
                {
                    &&& ms.len() == other@.len()
                    &&& forall|k: int|
                        0 <= k < other@.len() ==> #[trigger] compose_merge_fits(old(self)@, other@, ms, functions, k)
                    &&& final(self)@ == compose_with(old(self)@, other@, ms)
                },
    {
        let ghost s0 = self@;
        let ghost mut ms: Seq<Option<OperatorModel>> = Seq::empty();
        let mut i: usize = 0;
        assert(other@.take(0) =~= Seq::<ComponentModel>::empty());
        while i < other.operations.len()
            invariant
                i <= other.operations.len(),
                other@ == components_view(other.operations@),
                forall|j: int|
                    0 <= j < other@.len() ==> (#[trigger] other@[j]).op is ListMove ==> other@[j].path.len() > 0,
                all_builtin_components(old(self)@) && all_builtin_components(other@) ==> self@ == compose_spec(
                    old(self)@,
                    other@.take(i as int),
                ) && all_builtin_components(self@),
                s0 == old(self)@,
                ms.len() == i,
                forall|k: int| 0 <= k < i ==> #[trigger] compose_merge_fits(s0, other@, ms, functions, k),
                self@ == compose_with(s0, other@.take(i as int), ms),
            decreases other.operations.len() - i,
        {
            let c = other.operations[i].clone();
            assert(c@ == other@[i as int]);
            let ghost before = self@;
            self.append(c, functions)?;
            let ghost m: Option<OperatorModel> = if before.len() > 0 {
                match before.last().op {
                    OperatorModel::SubType(SubTypeName::Custom(name), bv) => choose|m: Option<OperatorModel>|
                        #[trigger] append_merged(before, c@, m) == self@ && custom_merge_fits(functions, name, bv, c@.op, m),
                    _ => None,
                }
            } else {
                None
            };
            proof {
                let ms2 = ms.push(m);
                let ot = other@.take(i + 1);
                assert(ot.drop_last() =~= other@.take(i as int));
                assert(ot.last() == c@);
                lemma_compose_prefix(s0, other@.take(i as int), ms, ms2);
                assert(self@ == append_with(before, c@, m));
                assert(self@ == compose_with(s0, ot, ms2));
                assert forall|k: int| 0 <= k < i + 1 implies #[trigger] compose_merge_fits(s0, other@, ms2, functions, k) by {
                    if k < i {
                        assert(compose_merge_fits(s0, other@, ms, functions, k));
                        lemma_compose_prefix(s0, other@.take(k), ms, ms2);
                    } else {
                        assert(other@[k] == c@);
                    }
                }
                ms = ms2;
            }
            proof {
                if all_builtin_components(old(self)@) && all_builtin_components(other@) {
                    assert(!is_custom_op(c@.op));
                    if before.len() > 0 {
                        assert(!is_custom_op(before.last().op));
                    }
                    lemma_append_builtin(before, c@);
                }
            }
            assert(other@.take(i + 1).drop_last() =~= other@.take(i as int));
            i = i + 1;
        }
        assert(other@.take(i as int) =~= other@);
        assert(self@ == compose_with(s0, other@, ms));
        Ok(())
    }
}

impl Validation for Operation {
    fn validates(&self) -> (r: Result<()>)
        ensures
            r is Ok <==> forall|i: int| 0 <= i < self@.len() ==> component_valid(#[trigger] self@[i]),
            r matches Err(e) ==> e is InvalidOperation,
    {
        let r = self.operations.validates();
        proof {
            if r is Ok {
                assert forall|i: int| 0 <= i < self@.len() implies component_valid(#[trigger] self@[i]) by {
                    assert(component_valid(self.operations@[i]@));
                }
            } else {
                let k = choose|k: int| 0 <= k < self.operations@.len() && !component_valid(#[trigger] self.operations@[k]@);
                assert(self@[k] == self.operations@[k]@);
            }
        }
        r
    }
}

impl Clone for Operation {
    fn clone(&self) -> (r: Self)
        ensures
            r@ == self@,
    {
        let mut out: Vec<OperationComponent> = Vec::new();
        let mut i: usize = 0;
        while i < self.operations.len()
            invariant
                i <= self.operations.len(),
                out.len() == i,
                forall|j: int| 0 <= j < i ==> #[trigger] out@[j]@ == self.operations@[j]@,
            decreases self.operations.len() - i,
        {
            out.push(self.operations[i].clone());
            i = i + 1;
        }
        let r = Operation { operations: out };
        assert(r@ =~= self@);
        r
    }
}

impl PartialEq for Operation {
    fn eq(&self, other: &Self) -> (r: bool) {
        if self.operations.len() != other.operations.len() {
            return false;
        }
        let mut i: usize = 0;
        while i < self.operations.len()
            invariant
                i <= self.operations.len(),
                self.operations.len() == other.operations.len(),
                forall|j: int| 0 <= j < i ==> component_eq(#[trigger] self@[j], other@[j]),
            decreases self.operations.len() - i,
        {
            if !self.operations[i].eq(&other.operations[i]) {
                assert(self@[i as int] == self.operations@[i as int]@);
                assert(other@[i as int] == other.operations@[i as int]@);
                return false;
            }
            assert(self@[i as int] == self.operations@[i as int]@);
            assert(other@[i as int] == other.operations@[i as int]@);
            i = i + 1;
        }
        true
    }
}

impl PartialEqSpecImpl for Operation {
    open spec fn obeys_eq_spec() -> bool {
        true
    }

    open spec fn eq_spec(&self, other: &Operation) -> bool {
        self@.len() == other@.len() && forall|i: int| 0 <= i < self@.len() ==> component_eq(#[trigger] self@[i], other@[i])
    }
}

// ---------------------------------------------------------------------------
// Builders.

/// Builds a list operator at a path: a move, a replacement, a deletion, an
/// insertion, or nothing, in that order of precedence.
pub struct ListOperationBuilder {
    path: Path,
    insert: Option<Value>,
    delete: Option<Value>,
    move_to: Option<usize>,
}

/// What a list builder holds.
pub struct ListBuilderModel {
    pub path: Seq<PathKey>,
    pub insert: Option<Json>,
    pub delete: Option<Json>,
    pub move_to: Option<usize>,
}

/// The model of an optional value.
pub open spec fn opt_view(v: Option<Value>) -> Option<Json> {
    match v {
        Some(x) => Some(x@),
        None => None,
    }
}

/// The operator that a list builder builds.
pub open spec fn list_builder_operator(b: ListBuilderModel) -> OperatorModel {
    match b.move_to {
        Some(i) => OperatorModel::ListMove(i),
        None => match b.delete {
            Some(d) => match b.insert {
                Some(n) => OperatorModel::ListReplace(n, d),
                None => OperatorModel::ListDelete(d),
            },
            None => match b.insert {
                Some(n) => OperatorModel::ListInsert(n),
                None => OperatorModel::Noop,
            },
        },
    }
}

impl ListOperationBuilder {
    pub closed spec fn view(&self) -> ListBuilderModel {
        ListBuilderModel {
            path: self.path@,
            insert: opt_view(self.insert),
            delete: opt_view(self.delete),
            move_to: self.move_to,
        }
    }

    pub(crate) fn new(path: Path) -> (r: ListOperationBuilder)
        ensures
            r@ == (ListBuilderModel { path: path@, insert: None, delete: None, move_to: None }),
    {
        ListOperationBuilder { path, insert: None, delete: None, move_to: None }
    }

    pub fn insert(self, val: Value) -> (r: Self)
        ensures
            r@ == (ListBuilderModel { insert: Some(val@), ..self@ }),
    {
        ListOperationBuilder { insert: Some(val), ..self }
    }

    pub fn delete(self, val: Value) -> (r: Self)
        ensures
            r@ == (ListBuilderModel { delete: Some(val@), ..self@ }),
    {
        ListOperationBuilder { delete: Some(val), ..self }
    }

    pub fn replace(self, old: Value, new: Value) -> (r: Self)
        ensures
            r@ == (ListBuilderModel { insert: Some(new@), delete: Some(old@), ..self@ }),
    {
        ListOperationBuilder { insert: Some(new), delete: Some(old), ..self }
    }

    pub fn move_to(self, new_index: usize) -> (r: Self)
        ensures
            r@ == (ListBuilderModel { move_to: Some(new_index), ..self@ }),
    {
        ListOperationBuilder { move_to: Some(new_index), ..self }
    }

    pub fn build(self) -> (r: Result<OperationComponent>)
        ensures
            match r {
                Ok(c) => self@.path.len() > 0 && c@ == (ComponentModel {
                    path: self@.path,
                    op: list_builder_operator(self@),
                }),
                Err(e) => self@.path.len() == 0 && e is InvalidOperation,
            },
    {
        if let Some(new_index) = self.move_to {
            return OperationComponent::new(self.path, Operator::ListMove(new_index));
        }
        if let Some(del_val) = self.delete {
            if let Some(ins_val) = self.insert {
                return OperationComponent::new(self.path, Operator::ListReplace(ins_val, del_val));
            }
            return OperationComponent::new(self.path, Operator::ListDelete(del_val));
        }
        if let Some(ins_val) = self.insert {
            return OperationComponent::new(self.path, Operator::ListInsert(ins_val));
        }
        OperationComponent::new(self.path, Operator::Noop())
    }
}

/// Builds an object operator at a path: a replacement, a deletion, an insertion,
/// or nothing, in that order of precedence.
pub struct ObjectOperationBuilder {
    path: Path,
    insert: Option<Value>,
    delete: Option<Value>,
}

/// What an object builder holds.
pub struct ObjectBuilderModel {
    pub path: Seq<PathKey>,
    pub insert: Option<Json>,
    pub delete: Option<Json>,
}

/// The operator that an object builder builds.
pub open spec fn object_builder_operator(b: ObjectBuilderModel) -> OperatorModel {
    match b.delete {
        Some(d) => match b.insert {
            Some(n) => OperatorModel::ObjectReplace(n, d),
            None => OperatorModel::ObjectDelete(d),
        },
        None => match b.insert {
            Some(n) => OperatorModel::ObjectInsert(n),
            None => OperatorModel::Noop,
        },
    }
}

impl ObjectOperationBuilder {
    pub closed spec fn view(&self) -> ObjectBuilderModel {
        ObjectBuilderModel { path: self.path@, insert: opt_view(self.insert), delete: opt_view(self.delete) }
    }

    pub(crate) fn new(path: Path) -> (r: ObjectOperationBuilder)
        ensures
            r@ == (ObjectBuilderModel { path: path@, insert: None, delete: None }),
    {
        ObjectOperationBuilder { path, insert: None, delete: None }
    }

    pub fn insert(self, val: Value) -> (r: Self)
        ensures
            r@ == (ObjectBuilderModel { insert: Some(val@), ..self@ }),
    {
        ObjectOperationBuilder { insert: Some(val), ..self }
    }

    pub fn delete(self, val: Value) -> (r: Self)
        ensures
            r@ == (ObjectBuilderModel { delete: Some(val@), ..self@ }),
    {
        ObjectOperationBuilder { delete: Some(val), ..self }
    }

    pub fn replace(self, old: Value, new: Value) -> (r: Self)
        ensures
            r@ == (ObjectBuilderModel { insert: Some(new@), delete: Some(old@), ..self@ }),
    {
        ObjectOperationBuilder { insert: Some(new), delete: Some(old), ..self }
    }

    pub fn build(self) -> (r: Result<OperationComponent>)
        ensures
            match r {
                Ok(c) => self@.path.len() > 0 && c@ == (ComponentModel {
                    path: self@.path,
                    op: object_builder_operator(self@),
                }),
                Err(e) => self@.path.len() == 0 && e is InvalidOperation,
            },
    {
        if let Some(del_val) = self.delete {
            if let Some(ins_val) = self.insert {
                return OperationComponent::new(self.path, Operator::ObjectReplace(ins_val, del_val));
            }
            return OperationComponent::new(self.path, Operator::ObjectDelete(del_val));
        }
        if let Some(ins_val) = self.insert {
            return OperationComponent::new(self.path, Operator::ObjectInsert(ins_val));
        }
        OperationComponent::new(self.path, Operator::Noop())
    }
}

/// Builds a number addition at a path.
pub struct NumberAddOperationBuilder {
    path: Path,
    number_i64: Option<i64>,
}

impl NumberAddOperationBuilder {
    pub closed spec fn path(&self) -> Seq<PathKey> {
        self.path@
    }

    pub closed spec fn number(&self) -> Option<i64> {
        self.number_i64
    }

    pub fn new(path: Path) -> (r: NumberAddOperationBuilder)
        ensures
            r.path() == path@,
            r.number() is None,
    {
        NumberAddOperationBuilder { path, number_i64: None }
    }

    pub fn add_int(self, num: i64) -> (r: Self)
        ensures
            r.path() == self.path(),
            r.number() == Some(num),
    {
        NumberAddOperationBuilder { number_i64: Some(num), ..self }
    }

    /// The addition of the number given, at the path given.
    pub fn build(self) -> (r: Result<OperationComponent>)
        ensures
            match r {
                Ok(c) => self.path().len() > 0 && self.number() is Some && c@ == (ComponentModel {
                    path: self.path(),
                    op: OperatorModel::SubType(SubTypeName::NumberAdd, Json::Number(self.number()->0)),
                }),
                Err(e) => (self.path().len() == 0 || self.number() is None) && e is InvalidOperation,
            },
    {
        match self.number_i64 {
            Some(v) => OperationComponent::new(self.path, Operator::SubType(SubType::NumberAdd, Value::Number(v))),
            None => Err(invalid_operation("need a number to add")),
        }
    }
}

/// Builds a text edit at a path: an insertion or a deletion at an offset.
pub struct TextOperationBuilder {
    path: Path,
    offset: usize,
    insert_val: Option<String>,
    delete_val: Option<String>,
}

/// What a text builder holds.
pub struct TextBuilderModel {
    pub path: Seq<PathKey>,
    pub offset: usize,
    pub insert: Option<Seq<char>>,
    pub delete: Option<Seq<char>>,
}

/// The characters of an optional text.
pub open spec fn opt_text(v: Option<String>) -> Option<Seq<char>> {
    match v {
        Some(x) => Some(x@),
        None => None,
    }
}

/// The operand of the edit that a text builder builds, when it builds one.
pub open spec fn text_builder_operand(b: TextBuilderModel) -> Option<Json> {
    if b.offset > i64::MAX {
        None
    } else {
        match (b.insert, b.delete) {
            (Some(i), None) => Some(Json::Object(seq![("p"@, Json::Number(b.offset as i64)), ("i"@, Json::Str(i))])),
            (None, Some(d)) => Some(Json::Object(seq![("p"@, Json::Number(b.offset as i64)), ("d"@, Json::Str(d))])),
            _ => None,
        }
    }
}

impl TextOperationBuilder {
    pub closed spec fn view(&self) -> TextBuilderModel {
        TextBuilderModel {
            path: self.path@,
            offset: self.offset,
            insert: opt_text(self.insert_val),
            delete: opt_text(self.delete_val),
        }
    }

    pub fn new(path: Path) -> (r: TextOperationBuilder)
        ensures
            r@ == (TextBuilderModel { path: path@, offset: 0, insert: None, delete: None }),
    {
        TextOperationBuilder { path, offset: 0, insert_val: None, delete_val: None }
    }

    pub fn insert_string(self, offset: usize, insert: String) -> (r: Self)
        ensures
            r@ == (TextBuilderModel { offset: offset, insert: Some(insert@), ..self@ }),
    {
        TextOperationBuilder { insert_val: Some(insert), offset, ..self }
    }

    pub fn insert_str(self, offset: usize, insert: &str) -> (r: Self)
        ensures
            r@ == (TextBuilderModel { offset: offset, insert: Some(insert@), ..self@ }),
    {
        TextOperationBuilder { insert_val: Some(String::from_str(insert)), offset, ..self }
    }

    pub fn delete_string(self, offset: usize, delete: String) -> (r: Self)
        ensures
            r@ == (TextBuilderModel { offset: offset, delete: Some(delete@), ..self@ }),
    {
        TextOperationBuilder { delete_val: Some(delete), offset, ..self }
    }

    pub fn delete_str(self, offset: usize, delete: &str) -> (r: Self)
        ensures
            r@ == (TextBuilderModel { offset: offset, delete: Some(delete@), ..self@ }),
    {
        TextOperationBuilder { delete_val: Some(String::from_str(delete)), offset, ..self }
    }

    /// The edit: exactly one of an insertion and a deletion must have been given.
    pub fn build(self) -> (r: Result<OperationComponent>)
        ensures
            match r {
                Ok(c) => self@.path.len() > 0 && text_builder_operand(self@) is Some && c@ == (ComponentModel {
                    path: self@.path,
                    op: OperatorModel::SubType(SubTypeName::Text, text_builder_operand(self@)->0),
                }),
                Err(e) => (self@.path.len() == 0 || text_builder_operand(self@) is None) && e is InvalidOperation,
            },
    {
        if self.insert_val.is_none() && self.delete_val.is_none() || (self.insert_val.is_some()
            && self.delete_val.is_some()) {
            return Err(invalid_operation("text operation must either insert or delete"));
        }
        if (self.offset as u64) > (i64::MAX as u64) {
            return Err(invalid_operation("text offset is too large"));
        }
        let ghost b = self@;
        let mut op_map: Vec<(String, Value)> = Vec::new();
        op_map.push((String::from_str("p"), Value::Number(self.offset as i64)));
        let path = self.path;
        match self.insert_val {
            Some(v) => {
                op_map.push((String::from_str("i"), Value::String(v)));
            },
            None => match self.delete_val {
                Some(v) => {
                    op_map.push((String::from_str("d"), Value::String(v)));
                },
                None => {},
            },
        }
        proof {
            lemma_object_view(op_map);
            assert(entries_view(op_map@) =~= text_builder_operand(b)->0->Object_0);
        }
        let o = Value::Object(op_map);
        proof {
            reveal_strlit("p");
            reveal_strlit("i");
            reveal_strlit("d");
            assert("p"@[0] == 'p' && "i"@[0] == 'i' && "d"@[0] == 'd');
            assert("p"@ != "i"@ && "p"@ != "d"@ && "i"@ != "d"@);
            let es = o@->Object_0;
            assert(es[0].0 == "p"@);
            lemma_two_entries(es[0].0, es[0].1, es[1].0, es[1].1);
            if es[1].0 == "i"@ {
                lemma_two_entries_absent(es[0].0, es[0].1, es[1].0, es[1].1, "d"@);
            } else {
                lemma_two_entries_absent(es[0].0, es[0].1, es[1].0, es[1].1, "i"@);
            }
            assert(builtin_operand_valid(SubTypeName::Text, o@));
        }
        OperationComponent::new(path, Operator::SubType(SubType::Text, o))
    }
}

/// Builds an operator of a custom sub type at a path.
pub struct SubTypeOperationBuilder<'a> {
    path: Path,
    sub_type: SubType,
    sub_type_operator: Option<Value>,
    registered: Option<dashmap::mapref::one::Ref<'a, String, Box<dyn SubTypeFunctions>>>,
    sub_type_function: Option<Box<dyn SubTypeFunctions>>,
}

impl<'a> SubTypeOperationBuilder<'a> {
    pub closed spec fn path(&self) -> Seq<PathKey> {
        self.path@
    }

    pub closed spec fn sub_type(&self) -> SubTypeName {
        self.sub_type@
    }

    pub closed spec fn operand(&self) -> Option<Json> {
        opt_view(self.sub_type_operator)
    }

    /// Functions are at hand, registered or given.
    pub closed spec fn has_functions(&self) -> bool {
        self.registered is Some || self.sub_type_function is Some
    }

    pub(crate) fn new(
        path: Path,
        sub_type: SubType,
        registered: Option<dashmap::mapref::one::Ref<'a, String, Box<dyn SubTypeFunctions>>>,
    ) -> (r: SubTypeOperationBuilder<'a>)
        ensures
            r.path() == path@,
            r.sub_type() == sub_type@,
            r.operand() is None,
            r.has_functions() == registered is Some,
    {
        SubTypeOperationBuilder { path, sub_type, sub_type_operator: None, registered, sub_type_function: None }
    }

    pub fn sub_type_operand(self, val: Value) -> (r: Self)
        ensures
            r.path() == self.path(),
            r.sub_type() == self.sub_type(),
            r.operand() == Some(val@),
            r.has_functions() == self.has_functions(),
    {
        SubTypeOperationBuilder { sub_type_operator: Some(val), ..self }
    }

    pub fn sub_type_functions(self, val: Box<dyn SubTypeFunctions>) -> (r: Self)
        ensures
            r.path() == self.path(),
            r.sub_type() == self.sub_type(),
            r.operand() == self.operand(),
            r.has_functions(),
    {
        SubTypeOperationBuilder { sub_type_function: Some(val), ..self }
    }

    /// The operator, with the operand given; the functions at hand (those given to
    /// the builder, else the registered ones) check the operand: the component is
    /// built exactly when they accept it and the component is valid.
    pub fn build(self) -> (r: Result<OperationComponent>)
        ensures
            r is Ok ==> self.operand() is Some && self.has_functions() && self.path().len() > 0
                && r->Ok_0@ == (ComponentModel {
                path: self.path(),
                op: OperatorModel::SubType(self.sub_type(), self.operand()->0),
            }),
            self.operand() is None ==> r matches Err(JsonError::InvalidOperation(_)),
            !self.has_functions() ==> r matches Err(JsonError::InvalidOperation(_)),
            self.operand() matches Some(o) ==> (self.has_functions() ==> exists|f: Box<dyn SubTypeFunctions>|
                (r is Ok <==> #[trigger] f.operand_valid(o) && component_valid(
                    ComponentModel { path: self.path(), op: OperatorModel::SubType(self.sub_type(), o) },
                ))),
    {
        let o = match self.sub_type_operator {
            Some(o) => o,
            None => return Err(invalid_operation("sub type operator is required")),
        };
        match self.sub_type_function {
            Some(f) => {
                f.validate_operand(&o)?;
            },
            None => match self.registered {
                Some(f) => {
                    function_ref_value(&f).validate_operand(&o)?;
                },
                None => return Err(invalid_operation("sub type functions is required")),
            },
        }
        let c = OperationComponent::new(self.path, Operator::SubType(self.sub_type, o))?;
        Ok(c)
    }
}

/// Every component of a custom sub type has its sub type registered in `h`, with
/// functions that accept its operand.
pub open spec fn custom_operands_accepted(s: Seq<ComponentModel>, h: &SubTypeFunctionsHolder) -> bool {
    forall|k: int|
        0 <= k < s.len() ==> match #[trigger] s[k].op {
            OperatorModel::SubType(SubTypeName::Custom(name), o) => h.has(name) && exists|f: Box<dyn SubTypeFunctions>|
                #[trigger] f.operand_valid(o),
            _ => true,
        }
}

/// Some component of a custom sub type has its sub type not registered in `h`,
/// or functions for it that refuse its operand.
pub open spec fn custom_operand_refused(s: Seq<ComponentModel>, h: &SubTypeFunctionsHolder) -> bool {
    exists|k: int|
        0 <= k < s.len() && match #[trigger] s[k].op {
            OperatorModel::SubType(SubTypeName::Custom(name), o) => !h.has(name) || exists|f: Box<dyn SubTypeFunctions>|
                !#[trigger] f.operand_valid(o),
            _ => false,
        }
}

/// Checks the operands of the custom sub type operators of `operation` with the
/// functions registered for them; the operators of the built-in kinds pass.
pub(crate) fn validate_custom_operands(operation: &Operation, functions: &SubTypeFunctionsHolder) -> (r: Result<()>)
    ensures
        all_builtin_components(operation@) ==> r is Ok,
        r is Ok ==> custom_operands_accepted(operation@, functions),
        r is Err ==> custom_operand_refused(operation@, functions),
{
    let comps = operation.components();
    let mut i: usize = 0;
    while i < comps.len()
        invariant
            i <= comps.len(),
            components_view(comps@) == operation@,
            custom_operands_accepted(operation@.take(i as int), functions),
        decreases comps.len() - i,
    {
        assert(operation@[i as int] == comps@[i as int]@);
        if let Operator::SubType(t, operand) = &comps[i].operator {
            if let SubType::Custome(_) = t {
                assert(is_custom_op(operation@[i as int].op));
                let rv = sub_type_validate(t, functions, operand);
                if rv.is_err() {
                    assert(custom_operand_refused(operation@, functions)) by {
                        match operation@[i as int].op {
                            OperatorModel::SubType(SubTypeName::Custom(name), o) => {
                                if functions.has(name) {
                                    let f = choose|f: Box<dyn SubTypeFunctions>| #[trigger] f.operand_valid(o) == (rv is Ok);
                                    assert(!f.operand_valid(o));
                                }
                            },
                            _ => {},
                        }
                    }
                    return rv;
                }
            }
        }
        assert(custom_operands_accepted(operation@.take(i + 1), functions)) by {
            assert forall|k: int| 0 <= k < i + 1 implies match #[trigger] operation@.take(i + 1)[k].op {
                OperatorModel::SubType(SubTypeName::Custom(name), o) => functions.has(name) && exists|
                    f: Box<dyn SubTypeFunctions>,
                | #[trigger] f.operand_valid(o),
                _ => true,
            } by {
                if k < i {
                    assert(operation@.take(i + 1)[k] == operation@.take(i as int)[k]);
                } else {
                    assert(operation@.take(i + 1)[k] == operation@[i as int]);
                }
            }
        }
        i = i + 1;
    }
    assert(operation@.take(i as int) =~= operation@);
    Ok(())
}

// ---------------------------------------------------------------------------
// Reading operations from JSON.

/// The operator that the members of a JSON object describe, when they describe
/// one: "na", "t" (with "o"), "lm", "li"/"ld", "oi"/"od", looked for in that order,
/// each with exactly the members it needs besides the path "p".
pub open spec fn map_to_operator_spec(es: Seq<(Seq<char>, Json)>, h: &SubTypeFunctionsHolder) -> Option<OperatorModel> {
    let v = Json::Object(es);
    let n = es.len();
    if json_member(v, "na"@) is Some {
        if n == 2 {
            Some(OperatorModel::SubType(SubTypeName::NumberAdd, json_member(v, "na"@)->0))
        } else {
            None
        }
    } else if json_member(v, "t"@) is Some {
        if n != 3 {
            None
        } else {
            match json_member(v, "t"@)->0 {
                Json::Str(name) => {
                    let st = sub_type_of_name(name);
                    if sub_type_supported(h, st) {
                        Some(
                            OperatorModel::SubType(
                                st,
                                match json_member(v, "o"@) {
                                    Some(o) => o,
                                    None => Json::Null,
                                },
                            ),
                        )
                    } else {
                        None
                    }
                },
                _ => None,
            }
        }
    } else if json_member(v, "lm"@) is Some {
        if n != 2 {
            None
        } else {
            match json_member(v, "lm"@)->0 {
                Json::Number(i) => if i >= 0 {
                    Some(OperatorModel::ListMove(#[verifier::truncate] (i as usize)))
                } else {
                    None
                },
                _ => None,
            }
        }
    } else if json_member(v, "li"@) is Some {
        if json_member(v, "ld"@) is Some {
            if n == 3 {
                Some(OperatorModel::ListReplace(json_member(v, "li"@)->0, json_member(v, "ld"@)->0))
            } else {
                None
            }
        } else if n == 2 {
            Some(OperatorModel::ListInsert(json_member(v, "li"@)->0))
        } else {
            None
        }
    } else if json_member(v, "ld"@) is Some {
        if n == 2 {
            Some(OperatorModel::ListDelete(json_member(v, "ld"@)->0))
        } else {
            None
        }
    } else if json_member(v, "oi"@) is Some {
        if json_member(v, "od"@) is Some {
            if n == 3 {
                Some(OperatorModel::ObjectReplace(json_member(v, "oi"@)->0, json_member(v, "od"@)->0))
            } else {
                None
            }
        } else if n == 2 {
            Some(OperatorModel::ObjectInsert(json_member(v, "oi"@)->0))
        } else {
            None
        }
    } else if json_member(v, "od"@) is Some {
        if n == 2 {
            Some(OperatorModel::ObjectDelete(json_member(v, "od"@)->0))
        } else {
            None
        }
    } else if n == 1 {
        Some(OperatorModel::Noop)
    } else {
        None
    }
}

/// Reading the JSON object `v` as a component, past a valid path, meets a number
/// addition ("na", with no other member besides the path) after the functions of
/// the built-in sub types were removed: there is nothing then to build it with.
pub open spec fn meets_missing_number_add(v: Json, h: &SubTypeFunctionsHolder) -> bool {
    &&& !h.has_builtins()
    &&& match json_member(v, "p"@) {
        Some(p) => path_of_json(p) is Some,
        None => false,
    }
    &&& match v {
        Json::Object(es) => json_member(v, "na"@) is Some && es.len() == 2,
        _ => false,
    }
}

/// Reading the operation that `v` describes meets such a number addition before
/// any component fails.
pub open spec fn reading_meets_missing_number_add(v: Json, h: &SubTypeFunctionsHolder) -> bool {
    match v {
        Json::Array(items) => exists|i: int|
            0 <= i < items.len() && #[trigger] meets_missing_number_add(items[i], h) && forall|j: int|
                0 <= j < i ==> component_of_json(#[trigger] items[j], h) is Some,
        _ => meets_missing_number_add(v, h),
    }
}

/// The component that a JSON object describes: its path under "p" and its operator.
pub open spec fn component_of_json(v: Json, h: &SubTypeFunctionsHolder) -> Option<ComponentModel> {
    match json_member(v, "p"@) {
        None => None,
        Some(p) => match path_of_json(p) {
            None => None,
            Some(path) => match v {
                Json::Object(es) => match map_to_operator_spec(es, h) {
                    Some(op) => Some(ComponentModel { path, op }),
                    None => None,
                },
                _ => None,
            },
        },
    }
}

/// The JSON object of a component has a path member that describes no path.
pub open spec fn has_bad_path(v: Json) -> bool {
    match json_member(v, "p"@) {
        Some(p) => path_of_json(p) is None,
        None => false,
    }
}

/// The components that a JSON array of component objects describes.
pub open spec fn components_of_json(items: Seq<Json>, h: &SubTypeFunctionsHolder) -> Option<Seq<ComponentModel>> {
    if forall|i: int| 0 <= i < items.len() ==> component_of_json(#[trigger] items[i], h) is Some {
        Some(Seq::new(items.len(), |i: int| component_of_json(items[i], h)->0))
    } else {
        None
    }
}

/// `f` is the first item of `items` that describes no component.
pub open spec fn is_first_failing(items: Seq<Json>, h: &SubTypeFunctionsHolder, f: int) -> bool {
    &&& 0 <= f < items.len()
    &&& component_of_json(items[f], h) is None
    &&& forall|j: int| 0 <= j < f ==> component_of_json(#[trigger] items[j], h) is Some
}

/// Reading the operation fails on a path: the first item that describes no
/// component (or the document itself, where it is no array) has a path member
/// that describes no path.
pub open spec fn path_error_of_json(v: Json, h: &SubTypeFunctionsHolder) -> bool {
    match v {
        Json::Array(items) => exists|f: int| is_first_failing(items, h, f) && has_bad_path(items[f]),
        _ => component_of_json(v, h) is None && has_bad_path(v),
    }
}

/// Every component is valid.
pub open spec fn all_valid(s: Seq<ComponentModel>) -> bool {
    forall|i: int| 0 <= i < s.len() ==> component_valid(#[trigger] s[i])
}

/// The components that a JSON document describes: an array of components or one
/// component.
pub open spec fn json_components(v: Json, h: &SubTypeFunctionsHolder) -> Option<Seq<ComponentModel>> {
    match v {
        Json::Array(items) => components_of_json(items, h),
        _ => match component_of_json(v, h) {
            Some(c) => Some(seq![c]),
            None => None,
        },
    }
}

/// The operation that a JSON document describes, when each of its components is
/// valid.
pub open spec fn operation_of_json(v: Json, h: &SubTypeFunctionsHolder) -> Option<Seq<ComponentModel>> {
    match json_components(v, h) {
        Some(s) => if all_valid(s) {
            Some(s)
        } else {
            None
        },
        None => None,
    }
}

/// Makes operations and their builders.
pub struct OperationFactory {
    pub(crate) sub_type_holder: SubTypeFunctionsHolder,
}

impl OperationFactory {
    /// The functions of the custom sub types that the factory knows.
    pub closed spec fn functions(&self) -> SubTypeFunctionsHolder {
        self.sub_type_holder
    }

    pub fn new(sub_type_holder: SubTypeFunctionsHolder) -> (r: OperationFactory)
        ensures
            r.functions() == sub_type_holder,
    {
        OperationFactory { sub_type_holder }
    }

    /// The functions of the custom sub types.
    pub fn sub_type_holder(&self) -> (r: &SubTypeFunctionsHolder)
        ensures
            *r == self.functions(),
    {
        &self.sub_type_holder
    }

    /// The functions of the custom sub types, to change them.
    pub(crate) fn sub_type_holder_mut(&mut self) -> (r: &mut SubTypeFunctionsHolder)
        ensures
            *r == old(self).functions(),
            final(self).functions() == *final(r),
    {
        &mut self.sub_type_holder
    }

    /// Build an Operation by JSON Value. The operands of components of custom sub
    /// types are then checked by the functions registered for them.
    pub fn from_value(&self, value: Value) -> (r: Result<Operation>)
        requires
            !reading_meets_missing_number_add(value@, &self.functions()),
        ensures
            match operation_of_json(value@, &self.functions()) {
                Some(s) => match r {
                    Ok(o) => o@ == s && custom_operands_accepted(s, &self.functions()),
                    Err(_) => custom_operand_refused(s, &self.functions()),
                },
                None => r matches Err(e) && (e is InvalidOperation || e is PathError) && (e is PathError
                    <==> path_error_of_json(value@, &self.functions())),
            },
    {
        let mut operations: Vec<OperationComponent> = Vec::new();
        match &value {
            Value::Array(arr) => {
                proof {
                    lemma_array_view(*arr);
                }
                let ghost items = values_view(arr@);
                let mut i: usize = 0;
                while i < arr.len()
                    invariant
                        i <= arr.len(),
                        items == values_view(arr@),
                        value@ == Json::Array(items),
                        !reading_meets_missing_number_add(value@, &self.functions()),
                        operations.len() == i,
                        forall|j: int|
                            0 <= j < i ==> component_of_json(#[trigger] items[j], &self.functions())
                                == Some(operations@[j]@),
                    decreases arr.len() - i,
                {
                    assert(!meets_missing_number_add(items[i as int], &self.functions())) by {
                        assert forall|j: int| 0 <= j < i implies component_of_json(
                            #[trigger] items[j],
                            &self.functions(),
                        ) is Some by {
                            assert(component_of_json(items[j], &self.functions()) == Some(operations@[j]@));
                        }
                    }
                    match self.operation_component_from_value(&arr[i]) {
                        Ok(op) => {
                            operations.push(op);
                        },
                        Err(e) => {
                            assert(component_of_json(items[i as int], &self.functions()) is None);
                            assert(is_first_failing(items, &self.functions(), i as int));
                            assert forall|f: int| #[trigger] is_first_failing(items, &self.functions(), f) implies f
                                == i by {
                                if f < i {
                                    assert(component_of_json(items[f], &self.functions()) is Some);
                                } else if f > i {
                                    assert(component_of_json(items[i as int], &self.functions()) is Some);
                                }
                            }
                            return Err(e);
                        },
                    }
                    i = i + 1;
                }
                proof {
                    assert(components_view(operations@) =~= components_of_json(items, &self.functions())->0);
                }
            },
            _ => {
                let op = self.operation_component_from_value(&value)?;
                operations.push(op);
                proof {
                    assert(components_view(operations@) =~= seq![component_of_json(value@, &self.functions())->0]);
                }
            },
        }
        let ghost cs = components_view(operations@);
        let ghost ops_v = operations@;
        let r = Operation::new(operations);
        proof {
            if value@ is Array {
                assert(components_of_json(value@->Array_0, &self.functions()) == Some(cs));
            } else {
                assert(component_of_json(value@, &self.functions()) is Some);
            }
            if r is Err {
                let k = choose|k: int| 0 <= k < ops_v.len() && !component_valid(#[trigger] ops_v[k]@);
                assert(cs[k] == ops_v[k]@);
                assert(!component_valid(cs[k]));
                assert(!(forall|i: int| 0 <= i < cs.len() ==> component_valid(#[trigger] cs[i])));
                if value@ is Array {
                    assert(operation_of_json(value@, &self.functions()) is None);
                } else {
                    assert(cs == seq![component_of_json(value@, &self.functions())->0]);
                    assert(operation_of_json(value@, &self.functions()) is None);
                }
            } else {
                assert forall|i: int| 0 <= i < cs.len() implies component_valid(#[trigger] cs[i]) by {
                    assert(component_valid(ops_v[i]@));
                }
            }
        }
        let o = r?;
        validate_custom_operands(&o, &self.sub_type_holder)?;
        Ok(o)
    }

    pub fn list_operation_builder(&self, path: Path) -> (r: ListOperationBuilder)
        ensures
            r@ == (ListBuilderModel { path: path@, insert: None, delete: None, move_to: None }),
    {
        ListOperationBuilder::new(path)
    }

    pub fn object_operation_builder(&self, path: Path) -> (r: ObjectOperationBuilder)
        ensures
            r@ == (ObjectBuilderModel { path: path@, insert: None, delete: None }),
    {
        ObjectOperationBuilder::new(path)
    }

    pub fn number_add_operation_builder(&self, path: Path) -> (r: NumberAddOperationBuilder)
        requires
            self.functions().has_builtins(),
        ensures
            r.path() == path@,
            r.number() is None,
    {
        NumberAddOperationBuilder::new(path)
    }

    pub fn text_operation_builder(&self, path: Path) -> (r: TextOperationBuilder)
        requires
            self.functions().has_builtins(),
        ensures
            r@ == (TextBuilderModel { path: path@, offset: 0, insert: None, delete: None }),
    {
        TextOperationBuilder::new(path)
    }

    /// A builder for the custom sub type `sub_type_name`, with the functions
    /// registered for it, if any.
    pub fn sub_type_operation_builder(&self, path: Path, sub_type_name: String) -> (r: SubTypeOperationBuilder<'_>)
        ensures
            r.path() == path@,
            r.sub_type() == SubTypeName::Custom(sub_type_name@),
            r.operand() is None,
            r.has_functions() == self.functions().has(sub_type_name@),
    {
        let f = self.sub_type_holder.get(&sub_type_name);
        let sub_type = SubType::Custome(sub_type_name);
        SubTypeOperationBuilder::new(path, sub_type, f)
    }

    /// The component that one JSON object describes, as `component_of_json` says;
    /// its operands are not checked here.
    pub fn operation_component_from_value(&self, value: &Value) -> (r: Result<OperationComponent>)
        requires
            !meets_missing_number_add(value@, &self.functions()),
        ensures
            match component_of_json(value@, &self.functions()) {
                Some(c) => r is Ok && r->Ok_0@ == c,
                None => r matches Err(e) && (e is PathError <==> has_bad_path(value@)) && (e is InvalidOperation
                    || e is PathError),
            },
    {
        let path_value = match value.get("p") {
            Some(p) => p,
            None => return Err(invalid_operation("Missing path")),
        };
        let paths = match Path::from_value(path_value) {
            Ok(p) => p,
            Err(e) => return Err(JsonError::PathError(e)),
        };
        let operator = self.operator_from_value(value)?;
        Ok(OperationComponent { path: paths, operator })
    }

    fn operator_from_value(&self, value: &Value) -> (r: Result<Operator>)
        requires
            value@ matches Json::Object(es) ==> (json_member(value@, "na"@) is Some && es.len() == 2
                ==> self.functions().has_builtins()),
        ensures
            match value@ {
                Json::Object(es) => match map_to_operator_spec(es, &self.functions()) {
                    Some(o) => r is Ok && r->Ok_0@ == o,
                    None => r matches Err(JsonError::InvalidOperation(_)),
                },
                _ => r matches Err(JsonError::InvalidOperation(_)),
            },
    {
        match value {
            Value::Object(obj) => {
                proof {
                    lemma_object_view(*obj);
                }
                self.map_to_operator(value)
            },
            _ => Err(invalid_operation("Operator can only be parsed from JSON Object")),
        }
    }

    fn map_to_operator(&self, obj: &Value) -> (r: Result<Operator>)
        requires
            obj@ is Object,
            json_member(obj@, "na"@) is Some && obj@->Object_0.len() == 2 ==> self.functions().has_builtins(),
        ensures
            match map_to_operator_spec(obj@->Object_0, &self.functions()) {
                Some(o) => r is Ok && r->Ok_0@ == o,
                None => r matches Err(JsonError::InvalidOperation(_)),
            },
    {
        let size = match obj {
            Value::Object(es) => {
                proof {
                    lemma_object_view(*es);
                }
                es.len()
            },
            _ => 0,
        };
        if let Some(na) = obj.get("na") {
            self.validate_operation_object_size(size, 2)?;
            return Ok(Operator::SubType(SubType::NumberAdd, na.clone()));
        }
        if let Some(t) = obj.get("t") {
            self.validate_operation_object_size(size, 3)?;
            let sub_type = SubType::from_value(t)?;
            let op = match obj.get("o") {
                Some(o) => o.clone(),
                None => Value::Null,
            };
            if !self.sub_type_holder.supports(&sub_type) {
                return Err(invalid_operation("no sub type functions for this sub type"));
            }
            return Ok(Operator::SubType(sub_type, op));
        }
        if let Some(lm) = obj.get("lm") {
            self.validate_operation_object_size(size, 2)?;
            let i = Operator::value_to_index(lm)?;
            return Ok(Operator::ListMove(i));
        }
        if let Some(li) = obj.get("li") {
            if let Some(ld) = obj.get("ld") {
                self.validate_operation_object_size(size, 3)?;
                return Ok(Operator::ListReplace(li.clone(), ld.clone()));
            }
            self.validate_operation_object_size(size, 2)?;
            return Ok(Operator::ListInsert(li.clone()));
        }
        if let Some(ld) = obj.get("ld") {
            self.validate_operation_object_size(size, 2)?;
            return Ok(Operator::ListDelete(ld.clone()));
        }
        if let Some(oi) = obj.get("oi") {
            if let Some(od) = obj.get("od") {
                self.validate_operation_object_size(size, 3)?;
                return Ok(Operator::ObjectReplace(oi.clone(), od.clone()));
            }
            self.validate_operation_object_size(size, 2)?;
            return Ok(Operator::ObjectInsert(oi.clone()));
        }
        if let Some(od) = obj.get("od") {
            self.validate_operation_object_size(size, 2)?;
            return Ok(Operator::ObjectDelete(od.clone()));
        }
        self.validate_operation_object_size(size, 1)?;
        Ok(Operator::Noop())
    }

    fn validate_operation_object_size(&self, size: usize, expect_size: usize) -> (r: Result<()>)
        ensures
            r is Ok <==> size == expect_size,
            r matches Err(e) ==> e is InvalidOperation,
    {
        if size != expect_size {
            return Err(invalid_operation("JSON object size bigger than operator required"));
        }
        Ok(())
    }
}

impl Operator {
    /// The index that a JSON number stands for, when it is not negative.
    pub fn value_to_index(val: &Value) -> (r: Result<usize>)
        ensures
            match val@ {
                Json::Number(i) => if i >= 0 {
                    r == Ok::<usize, JsonError>(#[verifier::truncate] (i as usize))
                } else {
                    r matches Err(JsonError::InvalidOperation(_))
                },
                _ => r matches Err(JsonError::InvalidOperation(_)),
            },
    {
        if let Some(i) = val.as_i64() {
            if i >= 0 {
                return Ok(#[verifier::truncate] (i as usize));
            }
        }
        Err(invalid_operation("value can not parsed to index"))
    }
}

} // verus!
