use json0::error::{invalid_operation, JsonError};
use json0::json::{ApplyError, RouteError};
use json0::operation::{Operation, OperationComponent, Operator};
use json0::path::{Path, PathBuilder, PathElement};
use json0::sub_type::{SubTypeFunctions, SubTypeFunctionsHolder};
use json0::transformer::{TransformSide, Transformer};
use json0::value::{Json, Value};
use json0::operation::OperatorModel;
use json0::path::PathKey;
use vstd::seq::Seq;
use json0::Json0;

fn to_value(v: &serde_json::Value) -> Value {
    match v {
        serde_json::Value::Null => Value::Null,
        serde_json::Value::Bool(b) => Value::Bool(*b),
        serde_json::Value::Number(n) => Value::Number(n.as_i64().unwrap()),
        serde_json::Value::String(s) => Value::String(s.clone()),
        serde_json::Value::Array(a) => Value::Array(a.iter().map(to_value).collect()),
        serde_json::Value::Object(o) => {
            Value::Object(o.iter().map(|(k, x)| (k.clone(), to_value(x))).collect())
        }
    }
}

fn to_serde(v: &Value) -> serde_json::Value {
    match v {
        Value::Null => serde_json::Value::Null,
        Value::Bool(b) => serde_json::Value::Bool(*b),
        Value::Number(n) => serde_json::Value::from(*n),
        Value::String(s) => serde_json::Value::String(s.clone()),
        Value::Array(a) => serde_json::Value::Array(a.iter().map(to_serde).collect()),
        Value::Object(o) => {
            let mut m = serde_json::Map::new();
            for (k, x) in o {
                m.insert(k.clone(), to_serde(x));
            }
            serde_json::Value::Object(m)
        }
    }
}

fn parse(s: &str) -> Value {
    to_value(&serde_json::from_str::<serde_json::Value>(s).unwrap())
}

fn op(json0: &Json0, s: &str) -> Operation {
    json0.operation_factory().from_value(parse(s)).unwrap()
}

fn key_path(keys: &[&str]) -> Path {
    let mut b = PathBuilder::new();
    for k in keys {
        b = b.add_key_path(k.to_string());
    }
    b.build().unwrap()
}

fn apply(json0: &Json0, doc: &str, ops: &[&str]) -> Result<serde_json::Value, JsonError> {
    let mut v = parse(doc);
    let operations = ops.iter().map(|o| op(json0, o)).collect();
    json0.apply(&mut v, operations)?;
    Ok(to_serde(&v))
}

fn expect(s: &str) -> serde_json::Value {
    serde_json::from_str(s).unwrap()
}

fn transform(json0: &Json0, a: &str, b: &str) -> (Operation, Operation) {
    json0.transform(&op(json0, a), &op(json0, b)).unwrap()
}

// ----- applying operations

#[test]
fn apply_list_operations() {
    let j = Json0::new();
    assert_eq!(apply(&j, r#"[1,2,3]"#, &[r#"{"p":[1],"li":9}"#]).unwrap(), expect("[1,9,2,3]"));
    assert_eq!(apply(&j, r#"[1,2,3]"#, &[r#"{"p":[7],"li":9}"#]).unwrap(), expect("[1,2,3,9]"));
    assert_eq!(apply(&j, r#"[1,2,3]"#, &[r#"{"p":[0],"ld":1}"#]).unwrap(), expect("[2,3]"));
    assert_eq!(apply(&j, r#"[1,2,3]"#, &[r#"{"p":[5],"ld":1}"#]).unwrap(), expect("[1,2,3]"));
    assert_eq!(apply(&j, r#"[1,2,3]"#, &[r#"{"p":[2],"li":7,"ld":3}"#]).unwrap(), expect("[1,2,7]"));
    assert_eq!(apply(&j, r#"[1,2,3]"#, &[r#"{"p":[0],"lm":2}"#]).unwrap(), expect("[2,3,1]"));
    assert_eq!(apply(&j, r#"[1,2,3]"#, &[r#"{"p":[2],"lm":0}"#]).unwrap(), expect("[3,1,2]"));
}

#[test]
fn apply_object_operations() {
    let j = Json0::new();
    assert_eq!(apply(&j, r#"{"a":1}"#, &[r#"{"p":["b"],"oi":2}"#]).unwrap(), expect(r#"{"a":1,"b":2}"#));
    assert_eq!(apply(&j, r#"{"a":1}"#, &[r#"{"p":["a"],"oi":2}"#]).unwrap(), expect(r#"{"a":2}"#));
    assert_eq!(apply(&j, r#"{"a":1,"b":2}"#, &[r#"{"p":["a"],"od":1}"#]).unwrap(), expect(r#"{"b":2}"#));
    assert_eq!(apply(&j, r#"{"a":1}"#, &[r#"{"p":["a"],"oi":5,"od":1}"#]).unwrap(), expect(r#"{"a":5}"#));
    assert_eq!(apply(&j, r#"{"a":1}"#, &[r#"{"p":["z"],"oi":5,"od":1}"#]).unwrap(), expect(r#"{"a":1}"#));
    assert_eq!(
        apply(&j, r#"{"a":{"b":[1,{"c":2}]}}"#, &[r#"{"p":["a","b",1,"d"],"oi":3}"#]).unwrap(),
        expect(r#"{"a":{"b":[1,{"c":2,"d":3}]}}"#)
    );
}

#[test]
fn apply_sub_type_operations() {
    let j = Json0::new();
    assert_eq!(apply(&j, r#"{"n":5}"#, &[r#"{"p":["n"],"na":-7}"#]).unwrap(), expect(r#"{"n":-2}"#));
    assert_eq!(apply(&j, r#"{}"#, &[r#"{"p":["n"],"na":3}"#]).unwrap(), expect(r#"{"n":3}"#));
    assert_eq!(
        apply(&j, r#"{"t":"ab"}"#, &[r#"{"p":["t"],"t":"text","o":{"p":1,"i":"xy"}}"#]).unwrap(),
        expect(r#"{"t":"axyb"}"#)
    );
    assert_eq!(
        apply(&j, r#"{"t":"abc"}"#, &[r#"{"p":["t"],"t":"text","o":{"p":0,"d":"ab"}}"#]).unwrap(),
        expect(r#"{"t":"c"}"#)
    );
    assert_eq!(
        apply(&j, r#"["x"]"#, &[r#"{"p":[0],"t":"text","o":{"p":1,"i":"é"}}"#]).unwrap(),
        expect(r#"["xé"]"#)
    );
}

#[test]
fn apply_several_operations_in_order() {
    let j = Json0::new();
    let r = apply(
        &j,
        r#"{"l":[]}"#,
        &[r#"[{"p":["l",0],"li":"a"},{"p":["l",1],"li":"b"}]"#, r#"{"p":["l",0],"lm":1}"#],
    )
    .unwrap();
    assert_eq!(r, expect(r#"{"l":["b","a"]}"#));
}

#[test]
fn apply_errors() {
    let j = Json0::new();
    let e = apply(&j, r#"{"a":1}"#, &[r#"{"p":["a","b","c"],"oi":1}"#]).unwrap_err();
    assert!(matches!(e, JsonError::ApplyOperationError(ApplyError::RouteError(RouteError::ReachLeafNode(_)))));
    let e = apply(&j, r#"{"a":1}"#, &[r#"{"p":["x","y"],"oi":1}"#]).unwrap_err();
    assert!(matches!(e, JsonError::ApplyOperationError(ApplyError::RouteError(RouteError::ReachLeafNode(_)))));
    let e = apply(&j, r#"{"a":1}"#, &[r#"{"p":["a","b"],"oi":1}"#]).unwrap_err();
    assert!(matches!(e, JsonError::ApplyOperationError(ApplyError::InvalidApplyTarget { .. })));
    let e = apply(&j, r#"{"a":1}"#, &[r#"{"p":["a"],"li":1}"#]).unwrap_err();
    assert!(matches!(e, JsonError::ApplyOperationError(ApplyError::InvalidApplyTarget { .. })));
    let e = apply(&j, r#"[1]"#, &[r#"{"p":["a"],"li":1}"#]).unwrap_err();
    assert!(matches!(
        e,
        JsonError::ApplyOperationError(ApplyError::RouteError(RouteError::ExpectIndexPath { .. }))
    ));
    let e = apply(&j, r#"{"a":"x"}"#, &[r#"{"p":["a"],"na":1}"#]).unwrap_err();
    assert!(matches!(e, JsonError::ApplyOperationError(ApplyError::SubTypeError(_))));
    // the text to delete is looked for between its offset and its length
    let e = apply(&j, r#"{"t":"abc"}"#, &[r#"{"p":["t"],"t":"text","o":{"p":1,"d":"b"}}"#]).unwrap_err();
    assert!(matches!(e, JsonError::ApplyOperationError(ApplyError::SubTypeError(_))));
}

#[test]
fn apply_stops_at_the_first_failure() {
    let j = Json0::new();
    let mut v = parse(r#"{"a":1}"#);
    let ops = vec![op(&j, r#"{"p":["b"],"oi":2}"#), op(&j, r#"{"p":["a","x"],"oi":3}"#), op(&j, r#"{"p":["c"],"oi":4}"#)];
    assert!(j.apply(&mut v, ops).is_err());
    assert_eq!(to_serde(&v), expect(r#"{"a":1,"b":2}"#));
}

#[test]
fn get_by_path_reads_values() {
    let j = Json0::new();
    let mut v = parse(r#"{"a":[1,{"b":"c"}]}"#);
    let p = PathBuilder::new().add_key_path("a".into()).add_index_path(1).add_key_path("b".into()).build().unwrap();
    assert_eq!(to_serde(j.get_by_path(&mut v, &p).unwrap().unwrap()), expect(r#""c""#));
    let p = PathBuilder::new().add_key_path("a".into()).add_index_path(5).build().unwrap();
    assert!(j.get_by_path(&mut v, &p).unwrap().is_none());
    let p = PathBuilder::new().add_index_path(0).build().unwrap();
    assert!(matches!(j.get_by_path(&mut v, &p), Err(JsonError::RouteError(RouteError::ExpectKeyPath { .. }))));
}

#[test]
fn read_after_insert_gives_the_inserted_value() {
    let j = Json0::new();
    let mut v = parse(r#"{"a":{"b":1}}"#);
    j.apply(&mut v, vec![op(&j, r#"{"p":["a","c"],"oi":[1,2]}"#)]).unwrap();
    let got = j.get_by_path(&mut v, &key_path(&["a", "c"])).unwrap().unwrap();
    assert_eq!(to_serde(got), expect("[1,2]"));
}

// ----- inverting

#[test]
fn invert_components() {
    let j = Json0::new();
    let cases = [
        (r#"{"p":[1],"li":2}"#, r#"{"p":[1],"ld":2}"#),
        (r#"{"p":[1],"ld":2}"#, r#"{"p":[1],"li":2}"#),
        (r#"{"p":[1],"li":2,"ld":3}"#, r#"{"p":[1],"li":3,"ld":2}"#),
        (r#"{"p":[1],"lm":4}"#, r#"{"p":[4],"lm":1}"#),
        (r#"{"p":["k"],"oi":2}"#, r#"{"p":["k"],"od":2}"#),
        (r#"{"p":["k"],"od":2}"#, r#"{"p":["k"],"oi":2}"#),
        (r#"{"p":["k"],"oi":2,"od":3}"#, r#"{"p":["k"],"oi":3,"od":2}"#),
        (r#"{"p":["k"],"na":5}"#, r#"{"p":["k"],"na":-5}"#),
        (r#"{"p":["k"],"t":"text","o":{"p":2,"i":"ab"}}"#, r#"{"p":["k"],"t":"text","o":{"p":2,"d":"ab"}}"#),
    ];
    for (a, b) in cases {
        let c = op(&j, a);
        let inv = c.get(0).unwrap().invert(j.operation_factory().sub_type_holder()).unwrap();
        assert_eq!(&inv, op(&j, b).get(0).unwrap(), "{}", a);
        assert_eq!(&inv.invert(j.operation_factory().sub_type_holder()).unwrap(), c.get(0).unwrap(), "{}", a);
    }
}

#[test]
fn invert_refuses_what_cannot_be_undone() {
    let j = Json0::new();
    let c = op(&j, &format!(r#"{{"p":["k"],"na":{}}}"#, i64::MIN));
    assert!(matches!(c.get(0).unwrap().invert(j.operation_factory().sub_type_holder()), Err(JsonError::InvalidOperation(_))));
    let c = op(&j, r#"{"p":["k"],"lm":1}"#);
    assert!(matches!(c.get(0).unwrap().invert(j.operation_factory().sub_type_holder()), Err(JsonError::InvalidOperation(_))));
}

// ----- composing

#[test]
fn compose_merges_components_at_the_same_path() {
    let j = Json0::new();
    let mut a = op(&j, r#"{"p":["n"],"na":2}"#);
    a.compose(op(&j, r#"{"p":["n"],"na":3}"#), j.operation_factory().sub_type_holder()).unwrap();
    assert_eq!(a, op(&j, r#"{"p":["n"],"na":5}"#));

    let mut a = op(&j, r#"{"p":[0],"li":"x"}"#);
    a.compose(op(&j, r#"{"p":[0],"ld":"x"}"#), j.operation_factory().sub_type_holder()).unwrap();
    assert!(a.is_empty());

    let mut a = op(&j, r#"{"p":[0],"li":"x"}"#);
    a.compose(op(&j, r#"[{"p":[1],"lm":1},{"p":[1],"li":"y"}]"#), j.operation_factory().sub_type_holder()).unwrap();
    assert_eq!(a, op(&j, r#"[{"p":[0],"li":"x"},{"p":[1],"li":"y"}]"#));

    let mut a = op(&j, r#"{"p":["t"],"t":"text","o":{"p":1,"i":"ab"}}"#);
    a.compose(op(&j, r#"{"p":["t"],"t":"text","o":{"p":2,"i":"X"}}"#), j.operation_factory().sub_type_holder()).unwrap();
    assert_eq!(a, op(&j, r#"{"p":["t"],"t":"text","o":{"p":1,"i":"aXb"}}"#));
}

// ----- transforming

#[test]
fn transform_against_nothing_keeps_the_operation() {
    let j = Json0::new();
    let a = op(&j, r#"{"p":[0],"li":1}"#);
    let (l, r) = j.transform(&a, &Operation::empty_operation()).unwrap();
    assert_eq!(l, a);
    assert!(r.is_empty());
}

#[test]
fn transform_list_inserts() {
    let j = Json0::new();
    let (l, r) = transform(&j, r#"{"p":[0],"li":"a"}"#, r#"{"p":[0],"li":"b"}"#);
    assert_eq!(l, op(&j, r#"{"p":[0],"li":"a"}"#));
    assert_eq!(r, op(&j, r#"{"p":[1],"li":"b"}"#));
    let (l, r) = transform(&j, r#"{"p":[2],"li":"a"}"#, r#"{"p":[1],"li":"b"}"#);
    assert_eq!(l, op(&j, r#"{"p":[3],"li":"a"}"#));
    assert_eq!(r, op(&j, r#"{"p":[1],"li":"b"}"#));
}

#[test]
fn transformed_list_inserts_converge() {
    let j = Json0::new();
    for (a, b) in [(0, 0), (0, 2), (3, 1), (2, 2)] {
        let oa = format!(r#"{{"p":[{}],"li":"a"}}"#, a);
        let ob = format!(r#"{{"p":[{}],"li":"b"}}"#, b);
        let (l, r) = transform(&j, &oa, &ob);
        let mut x = parse("[1,2,3]");
        j.apply(&mut x, vec![op(&j, &ob), l]).unwrap();
        let mut y = parse("[1,2,3]");
        j.apply(&mut y, vec![op(&j, &oa), r]).unwrap();
        assert_eq!(to_serde(&x), to_serde(&y));
    }
}

#[test]
fn transform_list_deletes() {
    let j = Json0::new();
    let (l, r) = transform(&j, r#"{"p":[1],"ld":"x"}"#, r#"{"p":[1],"ld":"x"}"#);
    assert!(l.is_empty());
    assert!(r.is_empty());
    let (l, _) = transform(&j, r#"{"p":[3],"li":"a"}"#, r#"{"p":[1],"ld":"x"}"#);
    assert_eq!(l, op(&j, r#"{"p":[2],"li":"a"}"#));
    let (l, _) = transform(&j, r#"{"p":[1],"li":"a","ld":"x"}"#, r#"{"p":[1],"ld":"x"}"#);
    assert_eq!(l, op(&j, r#"{"p":[1],"li":"a"}"#));
    let (l, _) = transform(&j, r#"{"p":[1,"k"],"oi":1}"#, r#"{"p":[1],"ld":{}}"#);
    assert!(l.is_empty());
}

#[test]
fn transform_list_replacements() {
    let j = Json0::new();
    let (l, r) = transform(&j, r#"{"p":[1],"li":"a","ld":"x"}"#, r#"{"p":[1],"li":"b","ld":"x"}"#);
    assert_eq!(l, op(&j, r#"{"p":[1],"li":"a","ld":"b"}"#));
    assert!(r.is_empty());
}

#[test]
fn transform_list_moves() {
    let j = Json0::new();
    let (l, r) = transform(&j, r#"{"p":[2],"li":"a"}"#, r#"{"p":[0],"lm":3}"#);
    assert_eq!(l, op(&j, r#"{"p":[1],"li":"a"}"#));
    assert_eq!(r, op(&j, r#"{"p":[0],"lm":4}"#));
    let (l, r) = transform(&j, r#"{"p":[1],"lm":3}"#, r#"{"p":[1],"lm":0}"#);
    assert_eq!(l, op(&j, r#"{"p":[0],"lm":3}"#));
    assert!(r.is_empty());
    let (l, r) = transform(&j, r#"{"p":[0,"k"],"oi":1}"#, r#"{"p":[0],"lm":2}"#);
    assert_eq!(l, op(&j, r#"{"p":[2,"k"],"oi":1}"#));
    assert_eq!(r, op(&j, r#"{"p":[0],"lm":2}"#));
}

#[test]
fn transform_object_operations() {
    let j = Json0::new();
    let (l, r) = transform(&j, r#"{"p":["k"],"oi":1}"#, r#"{"p":["k"],"oi":2}"#);
    assert_eq!(l, op(&j, r#"{"p":["k"],"oi":1,"od":2}"#));
    assert!(r.is_empty());
    let (l, r) = transform(&j, r#"{"p":["p1","p2"],"oi":"v1"}"#, r#"{"p":["p1"],"oi":"v2"}"#);
    assert_eq!(l, op(&j, r#"[{"p":["p1"],"od":"v2"},{"p":["p1","p2"],"oi":"v1"}]"#));
    assert_eq!(r, op(&j, r#"{"p":["p1"],"oi":"v2"}"#));
    let (l, _) = transform(&j, r#"{"p":["k"],"oi":1}"#, r#"{"p":["k"],"od":0}"#);
    assert_eq!(l, op(&j, r#"{"p":["k"],"oi":1}"#));
    let (l, _) = transform(&j, r#"{"p":["k","x"],"oi":1}"#, r#"{"p":["k"],"od":0}"#);
    assert!(l.is_empty());
    let (l, r) = transform(&j, r#"{"p":["a"],"oi":1}"#, r#"{"p":["b"],"oi":2}"#);
    assert_eq!(l, op(&j, r#"{"p":["a"],"oi":1}"#));
    assert_eq!(r, op(&j, r#"{"p":["b"],"oi":2}"#));
}

#[test]
fn transform_deletion_takes_in_changes_below() {
    let j = Json0::new();
    let (l, r) = transform(&j, r#"{"p":["a",0],"ld":{"x":1}}"#, r#"{"p":["a",0,"y"],"oi":2}"#);
    assert_eq!(l, op(&j, r#"{"p":["a",0],"ld":{"x":1,"y":2}}"#));
    assert!(r.is_empty());
    let (l, _) = transform(&j, r#"{"p":["n"],"od":{"c":1}}"#, r#"{"p":["n","c"],"na":4}"#);
    assert_eq!(l, op(&j, r#"{"p":["n"],"od":{"c":5}}"#));
}

#[test]
fn transform_sub_types() {
    let j = Json0::new();
    let (l, r) = transform(&j, r#"{"p":["n"],"na":1}"#, r#"{"p":["n"],"na":2}"#);
    assert_eq!(l, op(&j, r#"{"p":["n"],"na":1}"#));
    assert_eq!(r, op(&j, r#"{"p":["n"],"na":2}"#));
    let (l, r) = transform(
        &j,
        r#"{"p":["t"],"t":"text","o":{"p":3,"i":"x"}}"#,
        r#"{"p":["t"],"t":"text","o":{"p":1,"i":"ab"}}"#,
    );
    assert_eq!(l, op(&j, r#"{"p":["t"],"t":"text","o":{"p":5,"i":"x"}}"#));
    assert_eq!(r, op(&j, r#"{"p":["t"],"t":"text","o":{"p":1,"i":"ab"}}"#));
}

#[test]
fn transform_operations_of_several_components() {
    let j = Json0::new();
    let (l, r) = transform(&j, r#"[{"p":[0],"li":"a"},{"p":[5],"li":"c"}]"#, r#"[{"p":[1],"li":"b"},{"p":[9],"oi":1}]"#);
    assert_eq!(l, op(&j, r#"[{"p":[0],"li":"a"},{"p":[6],"li":"c"}]"#));
    assert_eq!(r, op(&j, r#"[{"p":[2],"li":"b"},{"p":[11],"oi":1}]"#));
}

#[test]
fn transform_refuses_invalid_operations() {
    let j = Json0::new();
    let root = PathBuilder::new().add_index_path(0).build().unwrap().next_level();
    let bad = Operation::from_component(OperationComponent { path: root, operator: Operator::ListInsert(Value::Null) });
    let good = op(&j, r#"{"p":[0],"li":1}"#);
    assert!(matches!(j.transform(&bad, &good), Err(JsonError::InvalidOperation(_))));
    assert!(matches!(j.transform(&good, &bad), Err(JsonError::InvalidOperation(_))));
}

#[test]
fn transformer_consume_applies_the_change_to_the_deleted_value() {
    let j = Json0::new();
    let t = Transformer::new();
    let mut c = op(&j, r#"{"p":["a"],"od":[1,2]}"#).get(0).unwrap().clone();
    let other = op(&j, r#"{"p":["a",0],"ld":1}"#).get(0).unwrap().clone();
    let common = key_path(&["a"]);
    t.consume(&mut c, &common, &other, j.operation_factory().sub_type_holder()).unwrap();
    assert_eq!(&c, op(&j, r#"{"p":["a"],"od":[2]}"#).get(0).unwrap());
}

#[test]
fn transformer_consume_leaves_an_operator_that_holds_no_removed_value() {
    let j = Json0::new();
    let t = Transformer::new();
    let mut c = op(&j, r#"{"p":["a","b","c"],"oi":1}"#).get(0).unwrap().clone();
    let before = c.clone();
    let other = op(&j, r#"{"p":["a"],"od":2}"#).get(0).unwrap().clone();
    let common = key_path(&["a", "b", "c"]);
    t.consume(&mut c, &common, &other, j.operation_factory().sub_type_holder()).unwrap();
    assert_eq!(c, before);
}

#[test]
fn transform_component_sides() {
    let j = Json0::new();
    let t = Transformer::new();
    let a = op(&j, r#"{"p":["k"],"oi":1}"#).get(0).unwrap().clone();
    let b = op(&j, r#"{"p":["k"],"oi":2}"#).get(0).unwrap().clone();
    let h = SubTypeFunctionsHolder::new();
    let left = t.transform_component(a.clone(), &b, TransformSide::LEFT, &h).unwrap();
    assert_eq!(left.len(), 1);
    assert!(matches!(left[0].operator, Operator::ObjectReplace(_, _)));
    let right = t.transform_component(a, &b, TransformSide::RIGHT, &h).unwrap();
    assert!(right.is_empty());
}

// ----- sub types registered by users

/// A sub type whose operator sets the value to its operand: a later setting
/// wins when two merge, a setting survives transformation as it is, and the
/// inverse of a setting does nothing.
struct Setter;

impl SubTypeFunctions for Setter {
    fn invert_result(&self, _path: Seq<PathKey>, _operand: Json) -> Option<OperatorModel> {
        Some(OperatorModel::Noop)
    }
    fn merge_result(&self, _base: Json, other: OperatorModel) -> Option<OperatorModel> {
        Some(other)
    }
    fn transform_result(&self, new: Json, _base: Json, _right: bool) -> Option<Seq<Json>> {
        Some(Seq::empty().push(new))
    }
    fn apply_result(&self, _val: Option<Json>, operand: Json) -> Option<Option<Json>> {
        Some(Some(operand))
    }
    fn operand_valid(&self, _operand: Json) -> bool {
        true
    }
    fn invert(&self, _path: &Path, _operand: &Value) -> json0::error::Result<Operator> {
        Ok(Operator::Noop())
    }
    fn merge(&self, _base: &Value, other: &Operator) -> Option<Operator> {
        Some(other.clone())
    }
    fn transform(&self, new: &Value, _base: &Value, _side: TransformSide) -> json0::error::Result<Vec<Value>> {
        Ok(vec![new.clone()])
    }
    fn apply(&self, _val: Option<&Value>, operand: &Value) -> json0::error::Result<Option<Value>> {
        Ok(Some(operand.clone()))
    }
    fn validate_operand(&self, _val: &Value) -> json0::error::Result<()> {
        Ok(())
    }
}

#[test]
fn register_and_unregister_sub_types() {
    let mut j = Json0::new();
    assert!(matches!(j.register_subtype("na".into(), Box::new(Setter)), Err(JsonError::ConflictSubType(_))));
    assert!(matches!(j.register_subtype("text".into(), Box::new(Setter)), Err(JsonError::ConflictSubType(_))));
    let custom = r#"{"p":["c"],"t":"counter","o":7}"#;
    assert!(j.operation_factory().from_value(parse(custom)).is_err());
    assert!(j.register_subtype("counter".into(), Box::new(Setter)).unwrap().is_none());
    assert!(j.register_subtype("counter".into(), Box::new(Setter)).unwrap().is_some());
    let mut v = parse(r#"{"c":1}"#);
    j.apply(&mut v, vec![op(&j, custom)]).unwrap();
    assert_eq!(to_serde(&v), expect(r#"{"c":7}"#));
    assert!(j.unregister_subtype(&"counter".to_string()).is_some());
    assert!(j.unregister_subtype(&"counter".to_string()).is_none());
    assert!(j.unregister_subtype(&"na".to_string()).is_none());
    assert!(j.operation_factory().from_value(parse(custom)).is_err());
    j.register_subtype("counter".into(), Box::new(Setter)).unwrap();
    j.clear_registered_subtype();
    assert!(j.operation_factory().from_value(parse(custom)).is_err());
}

#[test]
fn value_apply_on_an_empty_path_changes_the_value_itself() {
    let h = SubTypeFunctionsHolder::new();
    let root = PathBuilder::new().add_index_path(0).build().unwrap().next_level();
    let mut v = Value::Number(4);
    v.apply(root, Operator::SubType(json0::sub_type::SubType::NumberAdd, Value::Number(3)), &h).unwrap();
    assert_eq!(to_serde(&v), expect("7"));
    let root = PathBuilder::new().add_index_path(0).build().unwrap().next_level();
    let mut v = parse("[1]");
    assert!(v.apply(root, Operator::ListInsert(Value::Null), &h).is_err());
    assert_eq!(to_serde(&v), expect("[1]"));
}

#[test]
fn path_elements_compare_as_indices() {
    assert!(PathElement::Index(1) < PathElement::Index(2));
    assert!(!(PathElement::Key("a".into()) < PathElement::Index(2)));
    assert!(PathElement::Key("a".into()) <= PathElement::Key("a".into()));
}

#[test]
fn applying_the_inverse_restores_the_document() {
    let j = Json0::new();
    let doc = r#"{"a":{"l":[1,2,3],"n":4,"k":"v"}}"#;
    let components = [
        r#"{"p":["a","l",1],"li":9}"#,
        r#"{"p":["a","l",1],"ld":2}"#,
        r#"{"p":["a","l",2],"li":8,"ld":3}"#,
        r#"{"p":["a","l",0],"lm":2}"#,
        r#"{"p":["a","z"],"oi":true}"#,
        r#"{"p":["a","k"],"oi":"w","od":"v"}"#,
        r#"{"p":["a","n"],"na":-10}"#,
        r#"{"p":["a","k"],"t":"text","o":{"p":0,"i":"xy"}}"#,
        r#"{"p":["a","k"],"t":"text","o":{"p":0,"d":"v"}}"#,
    ];
    for c in components {
        let o = op(&j, c);
        let inv = Operation::from_component(o.get(0).unwrap().invert(j.operation_factory().sub_type_holder()).unwrap());
        let mut v = parse(doc);
        j.apply(&mut v, vec![o]).unwrap();
        assert_ne!(to_serde(&v), expect(doc), "{}", c);
        j.apply(&mut v, vec![inv]).unwrap();
        assert_eq!(to_serde(&v), expect(doc), "{}", c);
    }
}

#[test]
fn transformed_list_edits_converge_in_nested_lists() {
    let j = Json0::new();
    let doc = r#"{"x":[0,{"l":["a","b","c","d"]}]}"#;
    let edits = |k: &str, i: usize| match k {
        "i" => format!(r#"{{"p":["x",1,"l",{}],"li":"n"}}"#, i),
        _ => format!(r#"{{"p":["x",1,"l",{}],"ld":"?"}}"#, i),
    };
    for (ka, ia) in [("i", 0), ("i", 2), ("d", 1), ("d", 3), ("i", 4)] {
        for (kb, ib) in [("i", 2), ("d", 2), ("d", 0), ("i", 4)] {
            let oa = edits(ka, ia);
            let ob = edits(kb, ib);
            let (l, r) = transform(&j, &oa, &ob);
            let mut x = parse(doc);
            j.apply(&mut x, vec![op(&j, &ob), l]).unwrap();
            let mut y = parse(doc);
            j.apply(&mut y, vec![op(&j, &oa), r]).unwrap();
            assert_eq!(to_serde(&x), to_serde(&y), "{} {}", oa, ob);
        }
    }
}

#[test]
fn appending_applies_as_applying_in_turn() {
    let j = Json0::new();
    let doc = r#"{"l":[1,2],"o":{"a":1},"n":3,"t":"wxyz"}"#;
    let pairs = [
        (r#"{"p":["l",1],"li":"x"}"#, r#"{"p":["l",1],"ld":"x"}"#),
        (r#"{"p":["l",1],"li":"x"}"#, r#"{"p":["l",1],"li":"y","ld":"x"}"#),
        (r#"{"p":["l",0],"li":"x","ld":1}"#, r#"{"p":["l",0],"ld":"x"}"#),
        (r#"{"p":["o","b"],"oi":5}"#, r#"{"p":["o","b"],"oi":6,"od":5}"#),
        (r#"{"p":["o","a"],"oi":2,"od":1}"#, r#"{"p":["o","a"],"od":2}"#),
        (r#"{"p":["n"],"na":4}"#, r#"{"p":["n"],"na":-1}"#),
        (r#"{"p":["l",0],"li":7}"#, r#"{"p":["l",0],"lm":0}"#),
        (r#"{"p":["t"],"t":"text","o":{"p":1,"i":"ab"}}"#, r#"{"p":["t"],"t":"text","o":{"p":2,"i":"X"}}"#),
        (r#"{"p":["t"],"t":"text","o":{"p":0,"d":"wx"}}"#, r#"{"p":["t"],"t":"text","o":{"p":0,"d":"y"}}"#),
    ];
    for (a, b) in pairs {
        let mut composed = op(&j, a);
        composed.compose(op(&j, b), j.operation_factory().sub_type_holder()).unwrap();
        let mut x = parse(doc);
        j.apply(&mut x, vec![composed]).unwrap();
        let mut y = parse(doc);
        j.apply(&mut y, vec![op(&j, a), op(&j, b)]).unwrap();
        assert_eq!(to_serde(&x), to_serde(&y), "{} {}", a, b);
    }
}

#[test]
fn concurrent_inserts_under_one_key_converge() {
    let j = Json0::new();
    let a = r#"{"p":["o","k"],"oi":"left"}"#;
    let b = r#"{"p":["o","k"],"oi":"right"}"#;
    let (l, r) = transform(&j, a, b);
    let mut x = parse(r#"{"o":{}}"#);
    j.apply(&mut x, vec![op(&j, b), l]).unwrap();
    let mut y = parse(r#"{"o":{}}"#);
    j.apply(&mut y, vec![op(&j, a), r]).unwrap();
    assert_eq!(to_serde(&x), to_serde(&y));
    assert_eq!(to_serde(&x), expect(r#"{"o":{"k":"left"}}"#));
}

#[test]
fn transformed_insert_and_move_converge() {
    let j = Json0::new();
    let doc = r#"[["a","b","c","d"]]"#;
    for i in 0..=4 {
        for (f, t) in [(0, 2), (3, 1), (1, 1), (2, 3), (3, 0)] {
            let oa = format!(r#"{{"p":[0,{}],"li":"x"}}"#, i);
            let ob = format!(r#"{{"p":[0,{}],"lm":{}}}"#, f, t);
            let (l, r) = transform(&j, &oa, &ob);
            let mut x = parse(doc);
            j.apply(&mut x, vec![op(&j, &ob), l]).unwrap();
            let mut y = parse(doc);
            j.apply(&mut y, vec![op(&j, &oa), r]).unwrap();
            assert_eq!(to_serde(&x), to_serde(&y), "{} {}", oa, ob);
        }
    }
}

#[test]
fn transformed_moves_converge() {
    let j = Json0::new();
    let doc = r#"["a","b","c","d"]"#;
    let mut failures = Vec::new();
    for f in 0..4 {
        for t in 0..4 {
            for g in 0..4 {
                for u in 0..4 {
                    let oa = format!(r#"{{"p":[{}],"lm":{}}}"#, f, t);
                    let ob = format!(r#"{{"p":[{}],"lm":{}}}"#, g, u);
                    let (l, r) = transform(&j, &oa, &ob);
                    let mut x = parse(doc);
                    let ra = j.apply(&mut x, vec![op(&j, &ob), l]);
                    let mut y = parse(doc);
                    let rb = j.apply(&mut y, vec![op(&j, &oa), r]);
                    if ra.is_err() || rb.is_err() || to_serde(&x) != to_serde(&y) {
                        failures.push((f, t, g, u));
                    }
                }
            }
        }
    }
    assert!(failures.is_empty(), "{:?}", failures);
}

#[test]
fn transformed_list_operations_converge_in_any_order() {
    let j = Json0::new();
    let doc = r#"{"l":["a","b","c","d"]}"#;
    let mut comps = Vec::new();
    for i in 0..4 {
        comps.push(format!(r#"{{"p":["l",{}],"ld":"?"}}"#, i));
        for t in 0..4 {
            comps.push(format!(r#"{{"p":["l",{}],"lm":{}}}"#, i, t));
        }
    }
    for i in 0..=4 {
        comps.push(format!(r#"{{"p":["l",{}],"li":"x"}}"#, i));
    }
    for oa in &comps {
        for ob in &comps {
            let (l, r) = transform(&j, oa, ob);
            let mut x = parse(doc);
            j.apply(&mut x, vec![op(&j, ob), l]).unwrap();
            let mut y = parse(doc);
            j.apply(&mut y, vec![op(&j, oa), r]).unwrap();
            assert_eq!(to_serde(&x), to_serde(&y), "{} {}", oa, ob);
        }
    }
}

#[test]
fn transformed_text_inserts_and_additions_converge() {
    let j = Json0::new();
    let doc = r#"{"t":"hello","n":10}"#;
    let texts = |p: usize, s: &str| format!(r#"{{"p":["t"],"t":"text","o":{{"p":{},"i":"{}"}}}}"#, p, s);
    for (pa, pb) in [(0, 0), (1, 3), (4, 2), (5, 5), (2, 2)] {
        let oa = texts(pa, "AB");
        let ob = texts(pb, "xyz");
        let (l, r) = transform(&j, &oa, &ob);
        let mut x = parse(doc);
        j.apply(&mut x, vec![op(&j, &ob), l]).unwrap();
        let mut y = parse(doc);
        j.apply(&mut y, vec![op(&j, &oa), r]).unwrap();
        assert_eq!(to_serde(&x), to_serde(&y), "{} {}", oa, ob);
    }
    let (l, r) = transform(&j, r#"{"p":["n"],"na":5}"#, r#"{"p":["n"],"na":-3}"#);
    let mut x = parse(doc);
    j.apply(&mut x, vec![op(&j, r#"{"p":["n"],"na":-3}"#), l]).unwrap();
    let mut y = parse(doc);
    j.apply(&mut y, vec![op(&j, r#"{"p":["n"],"na":5}"#), r]).unwrap();
    assert_eq!(to_serde(&x), to_serde(&y));
    assert_eq!(to_serde(&x), expect(r#"{"t":"hello","n":12}"#));
}

#[test]
fn edits_below_different_members_stay_and_commute() {
    let j = Json0::new();
    let doc = r#"{"a":[1,2],"b":{"c":"xy"},"l":[[0],[5]]}"#;
    let pairs = [
        (r#"{"p":["a",0],"li":9}"#, r#"{"p":["b","c"],"t":"text","o":{"p":1,"i":"Q"}}"#),
        (r#"{"p":["l",0,0],"ld":0}"#, r#"{"p":["l",1,0],"na":3}"#),
        (r#"{"p":["b","d"],"oi":true}"#, r#"{"p":["a",1],"lm":0}"#),
    ];
    for (oa, ob) in pairs {
        let (l, r) = transform(&j, oa, ob);
        assert_eq!(l, op(&j, oa));
        assert_eq!(r, op(&j, ob));
        let mut x = parse(doc);
        j.apply(&mut x, vec![op(&j, ob), l]).unwrap();
        let mut y = parse(doc);
        j.apply(&mut y, vec![op(&j, oa), r]).unwrap();
        assert_eq!(to_serde(&x), to_serde(&y), "{} {}", oa, ob);
    }
    let mut x = parse(doc);
    j.apply(&mut x, vec![op(&j, r#"{"p":["l",0,0],"ld":0}"#), op(&j, r#"{"p":["l",1,0],"na":3}"#)]).unwrap();
    assert_eq!(to_serde(&x), expect(r#"{"a":[1,2],"b":{"c":"xy"},"l":[[],[8]]}"#));
}

#[test]
fn list_edit_and_change_below_an_element_converge() {
    let j = Json0::new();
    let doc = r#"[{"a":1},{"a":2},{"a":3}]"#;
    let edits = [r#"{"p":[0],"li":"x"}"#, r#"{"p":[1],"li":"x"}"#, r#"{"p":[3],"li":"x"}"#,
        r#"{"p":[0],"ld":{"a":1}}"#, r#"{"p":[1],"ld":{"a":2}}"#, r#"{"p":[2],"ld":{"a":3}}"#];
    for e in edits {
        let c = r#"{"p":[1,"a"],"na":10}"#;
        for (oa, ob) in [(c, e), (e, c)] {
            let (l, r) = transform(&j, oa, ob);
            let mut x = parse(doc);
            j.apply(&mut x, vec![op(&j, ob), l]).unwrap();
            let mut y = parse(doc);
            j.apply(&mut y, vec![op(&j, oa), r]).unwrap();
            assert_eq!(to_serde(&x), to_serde(&y), "{} {}", oa, ob);
        }
    }
    let (l, r) = transform(&j, r#"{"p":[1,"a"],"na":10}"#, r#"{"p":[0],"li":"x"}"#);
    assert_eq!(l, op(&j, r#"{"p":[2,"a"],"na":10}"#));
    assert_eq!(r, op(&j, r#"{"p":[0],"li":"x"}"#));
    let (l, r) = transform(&j, r#"{"p":[1,"a"],"na":10}"#, r#"{"p":[1],"ld":{"a":2}}"#);
    assert!(l.is_empty());
    assert_eq!(r, op(&j, r#"{"p":[1],"ld":{"a":12}}"#));
}

#[test]
fn member_edit_and_change_below_a_member_converge() {
    let j = Json0::new();
    let doc = r#"{"a":{"n":1},"b":{"n":2}}"#;
    let edits = [r#"{"p":["c"],"oi":3}"#, r#"{"p":["a"],"oi":3}"#, r#"{"p":["a"],"od":{"n":1}}"#,
        r#"{"p":["b"],"od":{"n":2}}"#, r#"{"p":["b"],"oi":7,"od":{"n":2}}"#, r#"{"p":["a"],"oi":7,"od":{"n":1}}"#];
    for e in edits {
        let c = r#"{"p":["b","n"],"na":10}"#;
        for (oa, ob) in [(c, e), (e, c)] {
            let (l, r) = transform(&j, oa, ob);
            let mut x = parse(doc);
            j.apply(&mut x, vec![op(&j, ob), l]).unwrap();
            let mut y = parse(doc);
            j.apply(&mut y, vec![op(&j, oa), r]).unwrap();
            assert_eq!(to_serde(&x), to_serde(&y), "{} {}", oa, ob);
        }
    }
    let (l, r) = transform(&j, r#"{"p":["b","n"],"na":10}"#, r#"{"p":["b"],"od":{"n":2}}"#);
    assert!(l.is_empty());
    assert_eq!(r, op(&j, r#"{"p":["b"],"od":{"n":12}}"#));
}

#[test]
fn move_or_replacement_and_change_below_an_element_converge() {
    let j = Json0::new();
    let doc = r#"[[1],[2],[3],[4]]"#;
    let c = r#"{"p":[1,0],"na":10}"#;
    let edits = [r#"{"p":[1],"lm":3}"#, r#"{"p":[3],"lm":0}"#, r#"{"p":[0],"lm":2}"#, r#"{"p":[2],"lm":1}"#,
        r#"{"p":[1],"li":"r","ld":[2]}"#, r#"{"p":[2],"li":"r","ld":[3]}"#];
    for e in edits {
        for (oa, ob) in [(c, e), (e, c)] {
            let (l, r) = transform(&j, oa, ob);
            let mut x = parse(doc);
            j.apply(&mut x, vec![op(&j, ob), l]).unwrap();
            let mut y = parse(doc);
            j.apply(&mut y, vec![op(&j, oa), r]).unwrap();
            assert_eq!(to_serde(&x), to_serde(&y), "{} {}", oa, ob);
        }
    }
    let (l, _) = transform(&j, c, r#"{"p":[1],"lm":3}"#);
    assert_eq!(l, op(&j, r#"{"p":[3,0],"na":10}"#));
    let (l, r) = transform(&j, c, r#"{"p":[1],"li":"r","ld":[2]}"#);
    assert!(l.is_empty());
    assert_eq!(r, op(&j, r#"{"p":[1],"li":"r","ld":[12]}"#));
}

#[test]
fn edits_of_different_members_converge_as_json() {
    let j = Json0::new();
    let doc = r#"{"a":1,"b":2,"c":3}"#;
    let edits = [r#"{"p":["x"],"oi":10}"#, r#"{"p":["y"],"oi":[1]}"#, r#"{"p":["a"],"od":1}"#,
        r#"{"p":["b"],"oi":20,"od":2}"#, r#"{"p":["c"],"oi":30}"#];
    for ea in edits {
        for eb in edits {
            if ea == eb {
                continue;
            }
            let (l, r) = transform(&j, ea, eb);
            assert_eq!(l, op(&j, ea));
            assert_eq!(r, op(&j, eb));
            let mut x = parse(doc);
            j.apply(&mut x, vec![op(&j, eb), l]).unwrap();
            let mut y = parse(doc);
            j.apply(&mut y, vec![op(&j, ea), r]).unwrap();
            assert_eq!(x, y, "{} {}", ea, eb);
        }
    }
}

#[test]
fn member_insert_against_its_deletion_converges_as_json() {
    let j = Json0::new();
    let doc = r#"{"a":1,"b":2}"#;
    let ins = r#"{"p":["a"],"oi":5}"#;
    let del = r#"{"p":["a"],"od":1}"#;
    let (l, r) = transform(&j, ins, del);
    assert_eq!(l, op(&j, ins));
    assert!(r.is_empty());
    let mut x = parse(doc);
    j.apply(&mut x, vec![op(&j, del), l]).unwrap();
    let mut y = parse(doc);
    j.apply(&mut y, vec![op(&j, ins), r]).unwrap();
    assert_eq!(x, y);
    assert_eq!(x, parse(r#"{"b":2,"a":5}"#));
}

#[test]
fn deleting_a_member_and_inverting_restores_the_document() {
    let j = Json0::new();
    let mut x = parse(r#"{"a":{"n":[1,2]},"b":2}"#);
    let del = op(&j, r#"{"p":["a"],"od":{"n":[1,2]}}"#);
    let inv = del.get(0).unwrap().invert(j.operation_factory().sub_type_holder()).unwrap();
    j.apply(&mut x, vec![del, Operation::from_component(inv)]).unwrap();
    assert_eq!(x, parse(r#"{"a":{"n":[1,2]},"b":2}"#));
}

#[test]
fn reading_an_operation_reports_the_first_failing_component() {
    let j = Json0::new();
    let f = j.operation_factory();
    let bad_op = r#"{"p":[0],"xx":1}"#;
    let bad_path = r#"{"p":[-1],"li":1}"#;
    let good = r#"{"p":[0],"li":1}"#;
    let read = |s: String| f.from_value(parse(&s));
    assert!(matches!(read(format!("[{},{}]", bad_op, bad_path)), Err(JsonError::InvalidOperation(_))));
    assert!(matches!(read(format!("[{},{}]", bad_path, bad_op)), Err(JsonError::PathError(_))));
    assert!(matches!(read(format!("[{},{}]", good, bad_path)), Err(JsonError::PathError(_))));
    assert!(matches!(read(bad_path.to_string()), Err(JsonError::PathError(_))));
    assert!(matches!(read(bad_op.to_string()), Err(JsonError::InvalidOperation(_))));
    assert!(matches!(read(format!("[{},{}]", good, good)), Ok(_)));
}

#[test]
fn composing_operations_applies_as_applying_them_in_turn() {
    let j = Json0::new();
    let doc = r#"{"l":[1,2],"o":{"a":1},"n":3}"#;
    let a = r#"[{"p":["l",0],"li":"x"},{"p":["n"],"na":2},{"p":["o","b"],"oi":5}]"#;
    let b = r#"[{"p":["o","b"],"oi":6,"od":5},{"p":["n"],"na":4},{"p":["l",2],"ld":2},{"p":["l",0],"ld":"x"}]"#;
    let mut composed = op(&j, a);
    composed.compose(op(&j, b), j.operation_factory().sub_type_holder()).unwrap();
    let mut x = parse(doc);
    j.apply(&mut x, vec![composed]).unwrap();
    let mut y = parse(doc);
    j.apply(&mut y, vec![op(&j, a), op(&j, b)]).unwrap();
    assert_eq!(x, y);
    assert_eq!(x, parse(r#"{"l":[1],"o":{"a":1,"b":6},"n":9}"#));
}

#[test]
fn transformed_replacements_and_member_edits_converge() {
    let j = Json0::new();
    let doc = r#"{"l":["a","b","c"],"o":{"k":1}}"#;
    let mut comps = Vec::new();
    for i in 0..3 {
        comps.push(format!(r#"{{"p":["l",{}],"li":"r{}","ld":"?"}}"#, i, i));
        comps.push(format!(r#"{{"p":["l",{}],"ld":"?"}}"#, i));
        comps.push(format!(r#"{{"p":["l",{}],"lm":{}}}"#, i, 2 - i));
    }
    comps.push(r#"{"p":["l",1],"li":"x"}"#.to_string());
    for oa in &comps {
        for ob in &comps {
            let (l, r) = transform(&j, oa, ob);
            let mut x = parse(doc);
            j.apply(&mut x, vec![op(&j, ob), l]).unwrap();
            let mut y = parse(doc);
            j.apply(&mut y, vec![op(&j, oa), r]).unwrap();
            assert_eq!(to_serde(&x), to_serde(&y), "{} {}", oa, ob);
        }
    }
    let members = [(r#"{"p":["o","k"],"oi":2,"od":1}"#, r#"{"p":["o","k"],"oi":3,"od":1}"#),
        (r#"{"p":["o","k"],"od":1}"#, r#"{"p":["o","k"],"od":1}"#),
        (r#"{"p":["o","k"],"od":1}"#, r#"{"p":["o","k"],"oi":9}"#)];
    for (oa, ob) in members {
        let (l, r) = transform(&j, oa, ob);
        let mut x = parse(doc);
        j.apply(&mut x, vec![op(&j, ob), l]).unwrap();
        let mut y = parse(doc);
        j.apply(&mut y, vec![op(&j, oa), r]).unwrap();
        assert_eq!(x, y, "{} {}", oa, ob);
    }
}

#[test]
fn sub_type_change_of_an_element_follows_it() {
    let j = Json0::new();
    let doc = r#"[1,2,3]"#;
    let c = r#"{"p":[1],"na":10}"#;
    let edits = [r#"{"p":[0],"li":"x"}"#, r#"{"p":[1],"li":"x"}"#, r#"{"p":[3],"li":"x"}"#,
        r#"{"p":[0],"ld":1}"#, r#"{"p":[2],"ld":3}"#, r#"{"p":[1],"lm":2}"#, r#"{"p":[0],"lm":2}"#,
        r#"{"p":[0],"li":"r","ld":1}"#];
    for e in edits {
        for (oa, ob) in [(c, e), (e, c)] {
            let (l, r) = transform(&j, oa, ob);
            let mut x = parse(doc);
            j.apply(&mut x, vec![op(&j, ob), l]).unwrap();
            let mut y = parse(doc);
            j.apply(&mut y, vec![op(&j, oa), r]).unwrap();
            assert_eq!(x, y, "{} {}", oa, ob);
        }
    }
    let (l, _) = transform(&j, c, r#"{"p":[0],"li":"x"}"#);
    assert_eq!(l, op(&j, r#"{"p":[2],"na":10}"#));
    let absent = r#"{"p":[5],"t":"text","o":{"p":0,"d":"x"}}"#;
    let (l, r) = transform(&j, absent, r#"{"p":[0],"li":"z"}"#);
    assert_eq!(l, op(&j, r#"{"p":[6],"t":"text","o":{"p":0,"d":"x"}}"#));
    let mut x = parse(doc);
    j.apply(&mut x, vec![op(&j, r#"{"p":[0],"li":"z"}"#), l]).unwrap();
    let mut y = parse(doc);
    j.apply(&mut y, vec![op(&j, absent), r]).unwrap();
    assert_eq!(x, y);
    assert_eq!(x, parse(r#"["z",1,2,3]"#));
}

#[test]
fn changes_of_different_elements_stay_and_commute() {
    let j = Json0::new();
    let doc = r#"[1,"ab",[5]]"#;
    let changes = [r#"{"p":[0],"na":3}"#, r#"{"p":[1],"t":"text","o":{"p":1,"i":"X"}}"#, r#"{"p":[2,0],"na":-5}"#];
    for oa in changes {
        for ob in changes {
            if oa == ob {
                continue;
            }
            let (l, r) = transform(&j, oa, ob);
            assert_eq!(l, op(&j, oa));
            assert_eq!(r, op(&j, ob));
            let mut x = parse(doc);
            j.apply(&mut x, vec![op(&j, ob), l]).unwrap();
            let mut y = parse(doc);
            j.apply(&mut y, vec![op(&j, oa), r]).unwrap();
            assert_eq!(x, y, "{} {}", oa, ob);
        }
    }
    let mut x = parse(doc);
    j.apply(&mut x, changes.iter().map(|c| op(&j, c)).collect()).unwrap();
    assert_eq!(x, parse(r#"[4,"aXb",[0]]"#));
}

#[test]
fn member_edit_and_addition_at_a_member_converge_as_json() {
    let j = Json0::new();
    let doc = r#"{"c":5,"d":1}"#;
    let changes = [r#"{"p":["c"],"na":2}"#, r#"{"p":["n"],"na":2}"#];
    let edits = [r#"{"p":["c"],"od":5}"#, r#"{"p":["c"],"oi":7,"od":5}"#, r#"{"p":["x"],"oi":true}"#,
        r#"{"p":["d"],"od":1}"#, r#"{"p":["d"],"oi":0,"od":1}"#];
    for c in changes {
        for e in edits {
            for (oa, ob) in [(c, e), (e, c)] {
                let (l, r) = transform(&j, oa, ob);
                let mut x = parse(doc);
                j.apply(&mut x, vec![op(&j, ob), l]).unwrap();
                let mut y = parse(doc);
                j.apply(&mut y, vec![op(&j, oa), r]).unwrap();
                assert_eq!(x, y, "{} {}", oa, ob);
            }
        }
    }
    let (l, r) = transform(&j, r#"{"p":["c"],"na":2}"#, r#"{"p":["c"],"od":5}"#);
    assert!(l.is_empty());
    assert_eq!(r, op(&j, r#"{"p":["c"],"od":7}"#));
}

#[test]
fn additions_at_different_members_converge_as_json() {
    let j = Json0::new();
    let doc = r#"{"t":"ab","n":1}"#;
    let changes = [r#"{"p":["a"],"na":1}"#, r#"{"p":["b"],"na":2}"#, r#"{"p":["n"],"na":5}"#,
        r#"{"p":["t"],"t":"text","o":{"p":0,"i":"X"}}"#];
    for oa in changes {
        for ob in changes {
            if oa == ob {
                continue;
            }
            let (l, r) = transform(&j, oa, ob);
            assert_eq!(l, op(&j, oa));
            assert_eq!(r, op(&j, ob));
            let mut x = parse(doc);
            j.apply(&mut x, vec![op(&j, ob), l]).unwrap();
            let mut y = parse(doc);
            j.apply(&mut y, vec![op(&j, oa), r]).unwrap();
            assert_eq!(x, y, "{} {}", oa, ob);
        }
    }
}

#[test]
fn addition_at_a_member_and_change_below_another_stay_and_commute() {
    let j = Json0::new();
    let doc = r#"{"n":1,"o":{"x":[1]}}"#;
    let changes = [r#"{"p":["n"],"na":2}"#, r#"{"p":["m"],"na":2}"#];
    let below = [r#"{"p":["o","x",0],"li":0}"#, r#"{"p":["o","y"],"oi":3}"#];
    for c in changes {
        for b in below {
            for (oa, ob) in [(c, b), (b, c)] {
                let (l, r) = transform(&j, oa, ob);
                assert_eq!(l, op(&j, oa));
                assert_eq!(r, op(&j, ob));
                let mut x = parse(doc);
                j.apply(&mut x, vec![op(&j, ob), l]).unwrap();
                let mut y = parse(doc);
                j.apply(&mut y, vec![op(&j, oa), r]).unwrap();
                assert_eq!(to_serde(&x), to_serde(&y), "{} {}", oa, ob);
            }
        }
    }
}

#[test]
fn invalid_operation_keeps_its_message() {
    assert!(matches!(invalid_operation("bad operand"), JsonError::InvalidOperation(m) if m == "bad operand"));
}

#[test]
fn deleting_then_inserting_a_member_merges_into_a_replacement_new_value_first() {
    let j = Json0::new();
    let mut a = op(&j, r#"{"p":["k"],"od":1}"#);
    a.compose(op(&j, r#"{"p":["k"],"oi":2}"#), j.operation_factory().sub_type_holder()).unwrap();
    assert_eq!(a, op(&j, r#"{"p":["k"],"oi":2,"od":1}"#));
    let mut v = parse(r#"{"k":1}"#);
    j.apply(&mut v, vec![a]).unwrap();
    assert_eq!(v, parse(r#"{"k":2}"#));
}

#[test]
fn custom_sub_types_invert_merge_and_transform_through_their_functions() {
    let mut j = Json0::new();
    j.register_subtype("set".into(), Box::new(Setter)).unwrap();
    let set = |n: i64| format!(r#"{{"p":["c"],"t":"set","o":{}}}"#, n);
    let h = j.operation_factory().sub_type_holder();
    let c = op(&j, &set(7));
    let inv = c.get(0).unwrap().invert(h).unwrap();
    assert_eq!(inv.operator, Operator::Noop());
    let mut a = op(&j, &set(7));
    a.compose(op(&j, &set(9)), h).unwrap();
    assert_eq!(a, op(&j, &set(9)));
    let (l, r) = transform(&j, &set(1), &set(2));
    assert_eq!(l, op(&j, &set(1)));
    assert_eq!(r, op(&j, &set(2)));
    let mut v = parse(r#"{"c":1}"#);
    j.apply(&mut v, vec![op(&j, &set(3))]).unwrap();
    assert_eq!(v, parse(r#"{"c":3}"#));
    let mut k = op(&j, &set(7));
    let other = Json0::new();
    k.compose(op(&j, &set(9)), other.operation_factory().sub_type_holder()).unwrap();
    assert_eq!(k.len(), 2);
    assert!(matches!(c.get(0).unwrap().invert(other.operation_factory().sub_type_holder()), Err(JsonError::InvalidOperation(_))));
}

#[test]
fn custom_sub_types_apply_where_the_path_leads() {
    let mut j = Json0::new();
    j.register_subtype("set".into(), Box::new(Setter)).unwrap();
    let mut v = parse(r#"{"a":[1,2],"b":{"c":3}}"#);
    j.apply(&mut v, vec![op(&j, r#"{"p":["a",1],"t":"set","o":5}"#)]).unwrap();
    assert_eq!(v, parse(r#"{"a":[1,5],"b":{"c":3}}"#));
    j.apply(&mut v, vec![op(&j, r#"{"p":["b","d"],"t":"set","o":6}"#)]).unwrap();
    assert_eq!(v, parse(r#"{"a":[1,5],"b":{"c":3,"d":6}}"#));
    let r = j.apply(&mut v, vec![op(&j, r#"{"p":["x","y"],"t":"set","o":7}"#)]);
    assert!(matches!(r, Err(JsonError::ApplyOperationError(_))));
    assert_eq!(v, parse(r#"{"a":[1,5],"b":{"c":3,"d":6}}"#));
}

#[test]
fn a_removed_value_takes_in_a_custom_change_made_inside_it() {
    let mut j = Json0::new();
    j.register_subtype("set".into(), Box::new(Setter)).unwrap();
    let t = Transformer::new();
    let h = j.operation_factory().sub_type_holder();
    let del = op(&j, r#"{"p":["a"],"od":{"c":1}}"#).get(0).unwrap().clone();
    let set = op(&j, r#"{"p":["a","c"],"t":"set","o":5}"#).get(0).unwrap().clone();
    let out = t.transform_component(del, &set, TransformSide::LEFT, h).unwrap();
    assert_eq!(out.len(), 1);
    assert_eq!(&out[0], op(&j, r#"{"p":["a"],"od":{"c":5}}"#).get(0).unwrap());
}

#[test]
fn sub_type_operation_builder_needs_an_operand_and_functions() {
    let mut j = Json0::new();
    let path = || key_path(&["c"]);
    let none = j.operation_factory().sub_type_operation_builder(path(), "set".into());
    assert!(matches!(none.sub_type_operand(Value::Number(1)).build(), Err(JsonError::InvalidOperation(_))));
    let given = j
        .operation_factory()
        .sub_type_operation_builder(path(), "set".into())
        .sub_type_functions(Box::new(Setter))
        .sub_type_operand(Value::Number(2))
        .build()
        .unwrap();
    j.register_subtype("set".into(), Box::new(Setter)).unwrap();
    assert_eq!(&given, op(&j, r#"{"p":["c"],"t":"set","o":2}"#).get(0).unwrap());
    let no_operand = j.operation_factory().sub_type_operation_builder(path(), "set".into());
    assert!(matches!(no_operand.build(), Err(JsonError::InvalidOperation(_))));
    let registered = j
        .operation_factory()
        .sub_type_operation_builder(path(), "set".into())
        .sub_type_operand(Value::Number(3))
        .build()
        .unwrap();
    assert_eq!(&registered, op(&j, r#"{"p":["c"],"t":"set","o":3}"#).get(0).unwrap());
}

#[test]
fn clearing_removes_the_built_in_sub_types_too() {
    let mut j = Json0::new();
    let add = op(&j, r#"{"p":["n"],"na":2}"#);
    let text = r#"{"p":["s"],"t":"text","o":{"p":0,"i":"a"}}"#;
    assert!(j.operation_factory().from_value(parse(text)).is_ok());
    assert!(j.operation_factory().sub_type_holder().builtins_registered());
    j.clear_registered_subtype();
    assert!(!j.operation_factory().sub_type_holder().builtins_registered());
    assert!(matches!(j.operation_factory().from_value(parse(text)), Err(JsonError::InvalidOperation(_))));
    assert!(matches!(j.register_subtype("na".into(), Box::new(Setter)), Err(JsonError::ConflictSubType(_))));
    let mut v = parse(r#"{"n":1}"#);
    j.apply(&mut v, vec![add]).unwrap();
    assert_eq!(v, parse(r#"{"n":3}"#));
}

/// A sub type like `Setter` whose operands must be numbers.
struct Picky;

impl SubTypeFunctions for Picky {
    fn invert_result(&self, _path: Seq<PathKey>, _operand: Json) -> Option<OperatorModel> {
        Some(OperatorModel::Noop)
    }
    fn merge_result(&self, _base: Json, other: OperatorModel) -> Option<OperatorModel> {
        Some(other)
    }
    fn transform_result(&self, new: Json, _base: Json, _right: bool) -> Option<Seq<Json>> {
        Some(Seq::empty().push(new))
    }
    fn apply_result(&self, _val: Option<Json>, operand: Json) -> Option<Option<Json>> {
        Some(Some(operand))
    }
    fn operand_valid(&self, operand: Json) -> bool {
        matches!(operand, Json::Number(_))
    }
    fn invert(&self, _path: &Path, _operand: &Value) -> json0::error::Result<Operator> {
        Ok(Operator::Noop())
    }
    fn merge(&self, _base: &Value, other: &Operator) -> Option<Operator> {
        Some(other.clone())
    }
    fn transform(&self, new: &Value, _base: &Value, _side: TransformSide) -> json0::error::Result<Vec<Value>> {
        Ok(vec![new.clone()])
    }
    fn apply(&self, _val: Option<&Value>, operand: &Value) -> json0::error::Result<Option<Value>> {
        Ok(Some(operand.clone()))
    }
    fn validate_operand(&self, val: &Value) -> json0::error::Result<()> {
        match val {
            Value::Number(_) => Ok(()),
            _ => Err(invalid_operation("operand must be a number")),
        }
    }
}

#[test]
fn reading_an_operation_checks_custom_operands_with_their_functions() {
    let mut j = Json0::new();
    j.register_subtype("picky".into(), Box::new(Picky)).unwrap();
    assert!(j.operation_factory().from_value(parse(r#"{"p":["c"],"t":"picky","o":1}"#)).is_ok());
    let bad = j.operation_factory().from_value(parse(r#"[{"p":["a"],"oi":1},{"p":["c"],"t":"picky","o":"x"}]"#));
    assert!(matches!(bad, Err(JsonError::InvalidOperation(_))));
}

#[test]
fn operations_of_several_components_transform_against_custom_ones() {
    let mut j = Json0::new();
    j.register_subtype("set".into(), Box::new(Setter)).unwrap();
    let (a, b) = transform(
        &j,
        r#"[{"p":["c"],"t":"set","o":1},{"p":["l",0],"li":5}]"#,
        r#"[{"p":["c"],"t":"set","o":2},{"p":["l",0],"li":6}]"#,
    );
    assert_eq!(a, op(&j, r#"[{"p":["c"],"t":"set","o":1},{"p":["l",0],"li":5}]"#));
    assert_eq!(b, op(&j, r#"[{"p":["c"],"t":"set","o":2},{"p":["l",1],"li":6}]"#));
}

#[test]
fn composing_merges_several_custom_components() {
    let mut j = Json0::new();
    j.register_subtype("set".into(), Box::new(Setter)).unwrap();
    let h = j.operation_factory().sub_type_holder();
    let mut a = op(&j, r#"[{"p":["c"],"t":"set","o":1},{"p":["d"],"t":"set","o":2}]"#);
    a.compose(op(&j, r#"[{"p":["d"],"t":"set","o":3},{"p":["d"],"t":"set","o":4},{"p":["e"],"oi":5}]"#), h).unwrap();
    assert_eq!(a, op(&j, r#"[{"p":["c"],"t":"set","o":1},{"p":["d"],"t":"set","o":4},{"p":["e"],"oi":5}]"#));
}

#[test]
fn route_get_mut_changes_the_value_in_place() {
    let mut v = parse(r#"{"a":[1,{"b":2}],"n":null}"#);
    let p = PathBuilder::new().add_key_path("a".into()).add_index_path(1).add_key_path("b".into()).build().unwrap();
    match v.route_get_mut(&p).unwrap() {
        Some(x) => *x = Value::Number(7),
        None => panic!("the value is there"),
    }
    assert_eq!(v, parse(r#"{"a":[1,{"b":7}],"n":null}"#));
    let missing = PathBuilder::new().add_key_path("a".into()).add_index_path(5).build().unwrap();
    assert!(v.route_get_mut(&missing).unwrap().is_none());
    let key_in_array = PathBuilder::new().add_key_path("a".into()).add_key_path("x".into()).build().unwrap();
    assert!(matches!(v.route_get_mut(&key_in_array), Err(RouteError::ExpectIndexPath { .. })));
    let below_null = PathBuilder::new().add_key_path("n".into()).add_key_path("x".into()).build().unwrap();
    assert!(matches!(v.route_get_mut(&below_null), Err(RouteError::ReachLeafNode(_))));
    assert!(v.route_get(&below_null).unwrap().is_none());
}

#[test]
fn a_text_deletion_against_an_insertion_becomes_no_edit() {
    let j = Json0::new();
    let del = r#"{"p":["s"],"t":"text","o":{"p":0,"d":"a"}}"#;
    let ins = r#"{"p":["s"],"t":"text","o":{"p":0,"i":"x"}}"#;
    let (del2, ins2) = transform(&j, del, ins);
    assert!(del2.is_empty());
    let doc = r#"{"s":"abc"}"#;
    let mut first = parse(doc);
    j.apply(&mut first, vec![op(&j, del), ins2]).unwrap();
    let mut second = parse(doc);
    j.apply(&mut second, vec![op(&j, ins), del2]).unwrap();
    assert_eq!(first, parse(r#"{"s":"xbc"}"#));
    assert_eq!(second, parse(r#"{"s":"xabc"}"#));
}
