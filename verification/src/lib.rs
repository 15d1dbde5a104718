//! Operational transformation of JSON documents: operations that insert,
//! delete, replace and move values, or change them through sub types (adding
//! to numbers, editing texts, or functions that users register), applied to
//! documents and transformed against concurrent operations.
use vstd::prelude::*;

mod common;
pub mod error;
pub mod json;
pub mod laws;
pub mod operation;
pub mod path;
pub mod sub_type;
pub mod transformer;
pub mod value;

use crate::error::{JsonError, Result};
use crate::json::{ApplyFault, apply_spec, custom_apply_result, is_custom_op, outcome_is, route_get_spec, sub_down_spec,
    sub_target_down};
use crate::operation::{ComponentModel, Operation, OperationFactory, OperatorModel, all_valid, custom_operand_refused,
    custom_operands_accepted};
use crate::path::Path;
use crate::sub_type::{SubTypeFunctions, SubTypeFunctionsHolder, SubTypeName, is_builtin_name};
use crate::transformer::{CustomTransform, Transformer, all_builtin, transform_fits, transform_spec, transform_with};
use crate::value::{Json, Value};

verus! {

/// What applying the components `cs` in order makes of `v`; at the first that
/// fails, its error and the document as the components before it left it.
pub open spec fn apply_components_spec(v: Json, cs: Seq<ComponentModel>) -> core::result::Result<
    Json,
    (ApplyFault, Json),
>
    decreases cs.len(),
{
    if cs.len() == 0 {
        Ok(v)
    } else {
        match apply_components_spec(v, cs.drop_last()) {
            Ok(w) => match apply_spec(w, cs.last().path, cs.last().op) {
                Ok(x) => Ok(x),
                Err(f) => Err((f, w)),
            },
            Err(e) => Err(e),
        }
    }
}

/// What applying the operations `ops` in order makes of `v`, as
/// `apply_components_spec` says of their components one after the other.
pub open spec fn apply_operations_spec(v: Json, ops: Seq<Seq<ComponentModel>>) -> core::result::Result<
    Json,
    (ApplyFault, Json),
>
    decreases ops.len(),
{
    if ops.len() == 0 {
        Ok(v)
    } else {
        match apply_operations_spec(v, ops.drop_last()) {
            Ok(w) => apply_components_spec(w, ops.last()),
            Err(e) => Err(e),
        }
    }
}

/// What applying the component `c` makes of `w`: `apply_spec` for a built-in
/// operator; for one of a custom sub type, `sub_down_spec`, where `res` is what its
/// functions make of the value they change.
pub open spec fn component_outcome(w: Json, c: ComponentModel, res: Option<Option<Json>>) -> core::result::Result<
    Json,
    ApplyFault,
> {
    if is_custom_op(c.op) {
        sub_down_spec(w, c.path, c.path, c.op, res)
    } else {
        apply_spec(w, c.path, c.op)
    }
}

/// What applying the components `cs` in order makes of `v`, as
/// `apply_components_spec` says, where the component at `k`, if it is of a custom
/// sub type, goes by the result `res[k]` of its functions.
pub open spec fn apply_components_with(
    v: Json,
    cs: Seq<ComponentModel>,
    res: Seq<Option<Option<Json>>>,
) -> core::result::Result<Json, (ApplyFault, Json)>
    decreases cs.len(),
{
    if cs.len() == 0 {
        Ok(v)
    } else {
        match apply_components_with(v, cs.drop_last(), res) {
            Ok(w) => match component_outcome(w, cs.last(), res[cs.len() - 1]) {
                Ok(x) => Ok(x),
                Err(f) => Err((f, w)),
            },
            Err(e) => Err(e),
        }
    }
}

/// Where applying the components of `cs` to `v` reaches the component at `k`,
/// of a custom sub type, `res[k]` is what its functions in `h` make of the value
/// that it changes there (`custom_apply_result`).
pub open spec fn custom_result_fits(
    v: Json,
    cs: Seq<ComponentModel>,
    res: Seq<Option<Option<Json>>>,
    h: &SubTypeFunctionsHolder,
    k: int,
) -> bool {
    match cs[k].op {
        OperatorModel::SubType(SubTypeName::Custom(name), o) => match apply_components_with(v, cs.take(k), res) {
            Ok(w) => custom_apply_result(h, name, sub_target_down(w, cs[k].path), o, res[k]),
            Err(_) => true,
        },
        _ => true,
    }
}

/// Every component of a custom sub type in `cs` goes by what its functions give.
pub open spec fn custom_results_fit(
    v: Json,
    cs: Seq<ComponentModel>,
    res: Seq<Option<Option<Json>>>,
    h: &SubTypeFunctionsHolder,
) -> bool {
    forall|k: int| 0 <= k < cs.len() ==> #[trigger] custom_result_fits(v, cs, res, h, k)
}

/// The components of the operations `ops`, one operation after the other.
pub open spec fn all_components(ops: Seq<Seq<ComponentModel>>) -> Seq<ComponentModel>
    decreases ops.len(),
{
    if ops.len() == 0 {
        Seq::empty()
    } else {
        all_components(ops.drop_last()) + ops.last()
    }
}

proof fn lemma_all_prefix(ops: Seq<Seq<ComponentModel>>, i: int)
    requires
        0 <= i <= ops.len(),
    ensures
        all_components(ops.take(i)).len() <= all_components(ops).len(),
        all_components(ops).take(all_components(ops.take(i)).len() as int) == all_components(ops.take(i)),
    decreases ops.len(),
{
    if i == ops.len() {
        assert(ops.take(i) =~= ops);
        assert(all_components(ops).take(all_components(ops).len() as int) =~= all_components(ops));
    } else {
        assert(ops.drop_last().take(i) =~= ops.take(i));
        lemma_all_prefix(ops.drop_last(), i);
        let a = all_components(ops.drop_last());
        let p = all_components(ops.take(i));
        assert((a + ops.last()).take(p.len() as int) =~= a.take(p.len() as int));
    }
}

proof fn lemma_with_prefix(v: Json, cs: Seq<ComponentModel>, res1: Seq<Option<Option<Json>>>, res2: Seq<
    Option<Option<Json>>,
>)
    requires
        forall|k: int| 0 <= k < cs.len() ==> res1[k] == res2[k],
    ensures
        apply_components_with(v, cs, res1) == apply_components_with(v, cs, res2),
    decreases cs.len(),
{
    if cs.len() > 0 {
        lemma_with_prefix(v, cs.drop_last(), res1, res2);
    }
}

proof fn lemma_with_fails(v: Json, cs: Seq<ComponentModel>, res: Seq<Option<Option<Json>>>, m: int)
    requires
        0 <= m <= cs.len(),
        apply_components_with(v, cs.take(m), res) is Err,
    ensures
        apply_components_with(v, cs, res) == apply_components_with(v, cs.take(m), res),
    decreases cs.len(),
{
    if m < cs.len() {
        assert(cs.drop_last().take(m) =~= cs.take(m));
        lemma_with_fails(v, cs.drop_last(), res, m);
    } else {
        assert(cs.take(m) =~= cs);
    }
}

/// Pushing the component `c`, with the result `x` of its functions, keeps every
/// earlier component's fit and adds the fit of `c` where it is reached.
proof fn lemma_fit_push(
    v: Json,
    cs: Seq<ComponentModel>,
    res: Seq<Option<Option<Json>>>,
    h: &SubTypeFunctionsHolder,
    c: ComponentModel,
    x: Option<Option<Json>>,
)
    requires
        res.len() == cs.len(),
        custom_results_fit(v, cs, res, h),
        custom_result_fits(v, cs.push(c), res.push(x), h, cs.len() as int),
    ensures
        custom_results_fit(v, cs.push(c), res.push(x), h),
        apply_components_with(v, cs, res.push(x)) == apply_components_with(v, cs, res),
{
    let cs2 = cs.push(c);
    let res2 = res.push(x);
    lemma_with_prefix(v, cs, res, res2);
    assert forall|k: int| 0 <= k < cs2.len() implies #[trigger] custom_result_fits(v, cs2, res2, h, k) by {
        if k < cs.len() {
            assert(cs2.take(k) =~= cs.take(k));
            lemma_with_prefix(v, cs.take(k), res, res2);
            assert(custom_result_fits(v, cs, res, h, k));
        }
    }
}

/// The models of a sequence of operations.
pub open spec fn operations_view(ops: Seq<Operation>) -> Seq<Seq<ComponentModel>> {
    Seq::new(ops.len(), |i: int| ops[i]@)
}

/// No operation holds a component of a custom sub type.
pub open spec fn operations_builtin(ops: Seq<Seq<ComponentModel>>) -> bool {
    forall|i: int| 0 <= i < ops.len() ==> all_builtin(#[trigger] ops[i])
}

proof fn lemma_apply_components_fails(v: Json, cs: Seq<ComponentModel>, j: int)
    requires
        0 <= j <= cs.len(),
        apply_components_spec(v, cs.take(j)) is Err,
    ensures
        apply_components_spec(v, cs) == apply_components_spec(v, cs.take(j)),
    decreases cs.len(),
{
    if j < cs.len() {
        assert(cs.drop_last().take(j) =~= cs.take(j));
        lemma_apply_components_fails(v, cs.drop_last(), j);
    } else {
        assert(cs.take(j) =~= cs);
    }
}

proof fn lemma_apply_operations_fails(v: Json, ops: Seq<Seq<ComponentModel>>, j: int)
    requires
        0 <= j <= ops.len(),
        apply_operations_spec(v, ops.take(j)) is Err,
    ensures
        apply_operations_spec(v, ops) == apply_operations_spec(v, ops.take(j)),
    decreases ops.len(),
{
    if j < ops.len() {
        assert(ops.drop_last().take(j) =~= ops.take(j));
        lemma_apply_operations_fails(v, ops.drop_last(), j);
    } else {
        assert(ops.take(j) =~= ops);
    }
}

/// The entry point of the library: makes operations, applies them to documents
/// and transforms them against each other, with the functions of the custom sub
/// types registered here.
pub struct Json0 {
    transformer: Transformer,
    operation_faction: OperationFactory,
}

impl Json0 {
    /// The functions of the custom sub types registered here.
    pub closed spec fn functions(&self) -> SubTypeFunctionsHolder {
        self.operation_faction.functions()
    }

    pub fn new() -> (r: Json0)
        ensures
            r.functions().names() == Set::<Seq<char>>::empty(),
            r.functions().has_builtins(),
    {
        let functions = SubTypeFunctionsHolder::new();
        let transformer = Transformer::new();
        let operation_faction = OperationFactory::new(functions);
        Json0 { transformer, operation_faction }
    }

    /// Registers functions for the custom sub type `sub_type`. The names of the
    /// built-in sub types are refused; functions already registered under that
    /// name are replaced and handed back.
    pub fn register_subtype(&mut self, sub_type: String, o: Box<dyn SubTypeFunctions>) -> (r: Result<
        Option<Box<dyn SubTypeFunctions>>,
    >)
        ensures
            is_builtin_name(sub_type@) ==> (r matches Err(JsonError::ConflictSubType(n)) && n@ == sub_type@)
                && final(self).functions().names() == old(self).functions().names(),
            !is_builtin_name(sub_type@) ==> r is Ok && final(self).functions().names() == old(
                self,
            ).functions().names().insert(sub_type@) && (r->Ok_0 is Some <==> old(self).functions().has(sub_type@)),
            final(self).functions().has_builtins() == old(self).functions().has_builtins(),
    {
        self.operation_faction.sub_type_holder_mut().register_subtype(sub_type, o)
    }

    /// Removes the functions of the custom sub type `sub_type` and hands them back;
    /// the built-in sub types cannot be removed.
    pub fn unregister_subtype(&mut self, sub_type: &String) -> (r: Option<Box<dyn SubTypeFunctions>>)
        ensures
            is_builtin_name(sub_type@) ==> r is None && final(self).functions().names() == old(
                self,
            ).functions().names(),
            !is_builtin_name(sub_type@) ==> final(self).functions().names() == old(
                self,
            ).functions().names().remove(sub_type@) && (r is Some <==> old(self).functions().has(sub_type@)),
            final(self).functions().has_builtins() == old(self).functions().has_builtins(),
    {
        self.operation_faction.sub_type_holder_mut().unregister_subtype(sub_type)
    }

    /// Removes all registered functions, those of the built-in sub types too.
    pub fn clear_registered_subtype(&mut self)
        ensures
            final(self).functions().names() == Set::<Seq<char>>::empty(),
            !final(self).functions().has_builtins(),
    {
        self.operation_faction.sub_type_holder_mut().clear();
    }

    /// The factory of operations, which knows the sub types registered here.
    pub fn operation_factory(&self) -> (r: &OperationFactory)
        ensures
            r.functions() == self.functions(),
    {
        &self.operation_faction
    }

    /// Applies the components of `operations` to `value` in order. At the first
    /// that fails, gives its error, and `value` holds what the components before
    /// it made of the document. A component of a custom sub type goes by what the
    /// functions registered for it make of the value it changes
    /// (`apply_components_with`, `custom_results_fit`).
    pub fn apply(&self, value: &mut Value, operations: Vec<Operation>) -> (r: Result<()>)
        ensures
            operations_builtin(operations_view(operations@)) ==> match apply_operations_spec(
                old(value)@,
                operations_view(operations@),
            ) {
                Ok(v) => r is Ok && final(value)@ == v,
                Err((f, v)) => r matches Err(JsonError::ApplyOperationError(e)) && e@ == f && final(value)@ == v,
            },
            exists|res: Seq<Option<Option<Json>>>|
                #![trigger custom_results_fit(old(value)@, all_components(operations_view(operations@)), res, &self.functions())]
                {
                    &&& res.len() == all_components(operations_view(operations@)).len()
                    &&& custom_results_fit(
                        old(value)@,
                        all_components(operations_view(operations@)),
                        res,
                        &self.functions(),
                    )
                    &&& match apply_components_with(old(value)@, all_components(operations_view(operations@)), res) {
                        Ok(v) => r is Ok && final(value)@ == v,
                        Err((f, v)) => r matches Err(JsonError::ApplyOperationError(e)) && e@ == f && final(value)@
                            == v,
                    }
                },
    {
        let ghost v0 = value@;
        let ghost ops = operations_view(operations@);
        let ghost builtin = operations_builtin(ops);
        let ghost h = self.functions();
        let ghost all = all_components(ops);
        let ghost mut done: Seq<ComponentModel> = Seq::empty();
        let ghost mut res: Seq<Option<Option<Json>>> = Seq::empty();
        let functions = self.operation_faction.sub_type_holder();
        let mut i: usize = 0;
        assert(ops.take(0) =~= Seq::<Seq<ComponentModel>>::empty());
        while i < operations.len()
            invariant
                i <= operations.len(),
                v0 == old(value)@,
                ops == operations_view(operations@),
                builtin == operations_builtin(ops),
                builtin ==> apply_operations_spec(v0, ops.take(i as int)) == Ok::<Json, (ApplyFault, Json)>(value@),
                *functions == h,
                h == self.functions(),
                all == all_components(ops),
                done == all_components(ops.take(i as int)),
                res.len() == done.len(),
                custom_results_fit(v0, done, res, &h),
                apply_components_with(v0, done, res) == Ok::<Json, (ApplyFault, Json)>(value@),
            decreases operations.len() - i,
        {
            let comps = operations[i].components();
            let ghost cs = ops[i as int];
            let ghost w = value@;
            let ghost done0 = done;
            assert(cs == operations@[i as int]@);
            assert(ops.take(i + 1).drop_last() =~= ops.take(i as int));
            assert(ops.take(i + 1).last() == cs);
            assert(builtin ==> all_builtin(cs));
            let mut j: usize = 0;
            assert(cs.take(0) =~= Seq::<ComponentModel>::empty());
            assert(done =~= done0 + cs.take(0));
            while j < comps.len()
                invariant
                    j <= comps.len(),
                    crate::operation::components_view(comps@) == cs,
                    v0 == old(value)@,
                    ops == operations_view(operations@),
                    builtin == operations_builtin(ops),
                    i < ops.len(),
                    cs == ops[i as int],
                    ops.take(i + 1).drop_last() == ops.take(i as int),
                    ops.take(i + 1).last() == cs,
                    builtin ==> apply_operations_spec(v0, ops.take(i as int)) == Ok::<Json, (ApplyFault, Json)>(w),
                    builtin ==> all_builtin(cs),
                    builtin ==> apply_components_spec(w, cs.take(j as int)) == Ok::<Json, (ApplyFault, Json)>(
                        value@,
                    ),
                    *functions == h,
                    h == self.functions(),
                    all == all_components(ops),
                    done0 == all_components(ops.take(i as int)),
                    done == done0 + cs.take(j as int),
                    res.len() == done.len(),
                    custom_results_fit(v0, done, res, &h),
                    apply_components_with(v0, done, res) == Ok::<Json, (ApplyFault, Json)>(value@),
                decreases comps.len() - j,
            {
                let op = &comps[j];
                let ghost c = op@;
                let ghost u = value@;
                assert(cs[j as int] == op@);
                assert(cs.take(j + 1).drop_last() =~= cs.take(j as int));
                assert(cs.take(j + 1).last() == op@);
                assert(builtin ==> !is_custom_op(cs[j as int].op));
                let r0 = value.apply(op.path.clone(), op.operator.clone(), functions);
                let ghost x: Option<Option<Json>> = match c.op {
                    OperatorModel::SubType(SubTypeName::Custom(name), o) => choose|y: Option<Option<Json>>|
                        custom_apply_result(functions, name, sub_target_down(u, c.path), o, y) && #[trigger] outcome_is(
                            r0,
                            u,
                            value@,
                            sub_down_spec(u, c.path, c.path, c.op, y),
                        ),
                    _ => None,
                };
                proof {
                    assert(outcome_is(r0, u, value@, component_outcome(u, c, x)));
                    let done2 = done.push(c);
                    let res2 = res.push(x);
                    assert(done2.take(done.len() as int) =~= done);
                    lemma_with_prefix(v0, done, res, res2);
                    assert(custom_result_fits(v0, done2, res2, &h, done.len() as int));
                    lemma_fit_push(v0, done, res, &h, c, x);
                    assert(done2.drop_last() =~= done);
                    assert(done2 =~= done0 + cs.take(j + 1));
                    done = done2;
                    res = res2;
                }
                match r0 {
                    Ok(()) => {},
                    Err(e) => {
                        proof {
                            if builtin {
                                lemma_apply_components_fails(w, cs, j + 1);
                                assert(apply_operations_spec(v0, ops.take(i + 1)) == apply_components_spec(w, cs));
                                lemma_apply_operations_fails(v0, ops, i + 1);
                            }
                            lemma_all_prefix(ops, i + 1);
                            let full = all_components(ops.take(i + 1));
                            assert(full =~= done0 + cs);
                            assert(all.take(full.len() as int) == full);
                            assert(done.len() <= full.len());
                            assert(full.take(done.len() as int) =~= done);
                            assert(all.take(done.len() as int) =~= done);
                            let m = done.len() as int;
                            let res_full = res + Seq::new((all.len() - m) as nat, |k: int| None::<Option<Json>>);
                            lemma_with_prefix(v0, done, res, res_full);
                            lemma_with_fails(v0, all, res_full, m);
                            assert forall|k: int| 0 <= k < all.len() implies #[trigger] custom_result_fits(
                                v0,
                                all,
                                res_full,
                                &h,
                                k,
                            ) by {
                                if k < m {
                                    assert(all.take(k) =~= done.take(k));
                                    assert(all[k] == done[k]);
                                    lemma_with_prefix(v0, done.take(k), res, res_full);
                                    assert(custom_result_fits(v0, done, res, &h, k));
                                } else {
                                    assert(all.take(k).take(m) =~= done);
                                    lemma_with_fails(v0, all.take(k), res_full, m);
                                }
                            }
                            assert(custom_results_fit(v0, all, res_full, &h));
                        }
                        return Err(JsonError::ApplyOperationError(e));
                    },
                }
                j = j + 1;
            }
            proof {
                assert(cs.take(j as int) =~= cs);
                assert(done == all_components(ops.take(i + 1)));
            }
            i = i + 1;
        }
        assert(ops.take(i as int) =~= ops);
        assert(custom_results_fit(v0, all, res, &h));
        Ok(())
    }

    /// The value found at `paths` in `value`, as `Value::route_get` finds it.
    pub fn get_by_path<'a>(&self, value: &'a mut Value, paths: &Path) -> (r: Result<Option<&'a Value>>)
        ensures
            *final(value) == *old(value),
            match route_get_spec(old(value)@, paths@) {
                Ok(Some(x)) => r is Ok && r->Ok_0 is Some && r->Ok_0->0@ == x,
                Ok(None) => r is Ok && r->Ok_0 is None,
                Err(f) => r matches Err(JsonError::RouteError(e)) && e@ == f,
            },
    {
        match value.route_get(paths) {
            Ok(x) => Ok(x),
            Err(e) => Err(JsonError::RouteError(e)),
        }
    }

    /// Transforms two concurrent operations against each other, as
    /// `Transformer::transform` does.
    pub fn transform(&self, operation: &Operation, base_operation: &Operation) -> (r: Result<(Operation, Operation)>)
        ensures
            all_builtin(operation@) && all_builtin(base_operation@) ==> match transform_spec(
                operation@,
                base_operation@,
            ) {
                Some((a, b)) => r is Ok && r->Ok_0.0@ == a && r->Ok_0.1@ == b,
                None => r matches Err(JsonError::InvalidOperation(_)),
            },
            base_operation@.len() == 0 ==> r is Ok && r->Ok_0.0@ == operation@ && r->Ok_0.1@
                == Seq::<ComponentModel>::empty(),
            base_operation@.len() > 0 ==> match r {
                Ok((a, b)) => {
                    &&& all_valid(operation@) && all_valid(base_operation@)
                    &&& custom_operands_accepted(operation@, &self.functions())
                    &&& custom_operands_accepted(base_operation@, &self.functions())
                    &&& exists|xss: Seq<Seq<(CustomTransform, CustomTransform)>>|
                        #![trigger transform_with(operation@, base_operation@, xss)]
                        transform_fits(operation@, base_operation@, xss, &self.functions()) && transform_with(
                            operation@,
                            base_operation@,
                            xss,
                        ) == Some((a@, b@))
                },
                Err(_) => {
                    ||| !all_valid(operation@) || !all_valid(base_operation@)
                    ||| custom_operand_refused(operation@, &self.functions())
                    ||| custom_operand_refused(base_operation@, &self.functions())
                    ||| exists|xss: Seq<Seq<(CustomTransform, CustomTransform)>>|
                        #![trigger transform_with(operation@, base_operation@, xss)]
                        transform_fits(operation@, base_operation@, xss, &self.functions()) && transform_with(
                            operation@,
                            base_operation@,
                            xss,
                        ) is None
                },
            },
    {
        self.transformer.transform(operation, base_operation, self.operation_faction.sub_type_holder())
    }
}

impl Default for Json0 {
    fn default() -> (r: Self)
        ensures
            r.functions().names() == Set::<Seq<char>>::empty(),
            r.functions().has_builtins(),
    {
        Json0::new()
    }
}

} // verus!
