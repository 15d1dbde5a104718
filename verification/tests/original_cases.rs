use json0::operation::{Operator, OperationFactory};
use json0::path::{Path, PathBuilder, PathError};
use json0::sub_type::{SubType, SubTypeFunctionsHolder};
use json0::value::Value;
use json0::Json0;

fn to_value(v: &serde_json::Value) -> Value {
    match v {
        serde_json::Value::Null => Value::Null,
        serde_json::Value::Bool(b) => Value::Bool(*b),
        serde_json::Value::Number(n) => Value::Number(n.as_i64().unwrap()),
        serde_json::Value::String(s) => Value::String(s.clone()),
        serde_json::Value::Array(a) => Value::Array(a.iter().map(to_value).collect()),
        serde_json::Value::Object(o) => {
            Value::Object(o.iter().map(|(k, x)| (k.clone(), to_value(x))).collect())
        }
    }
}

fn to_serde(v: &Value) -> serde_json::Value {
    match v {
        Value::Null => serde_json::Value::Null,
        Value::Bool(b) => serde_json::Value::Bool(*b),
        Value::Number(n) => serde_json::Value::from(*n),
        Value::String(s) => serde_json::Value::String(s.clone()),
        Value::Array(a) => serde_json::Value::Array(a.iter().map(to_serde).collect()),
        Value::Object(o) => {
            let mut m = serde_json::Map::new();
            for (k, x) in o {
                m.insert(k.clone(), to_serde(x));
            }
            serde_json::Value::Object(m)
        }
    }
}

fn parse(s: &str) -> Value {
    to_value(&serde_json::from_str::<serde_json::Value>(s).unwrap())
}

fn path_from(s: &str) -> Result<Path, PathError> {
    let parsed = serde_json::from_str::<serde_json::Value>(s).ok().map(|v| to_value(&v));
    Path::from_parsed_text(s, parsed)
}

#[test]
fn test_route_get_by_path_only_has_object() {
    let json = parse(r#"{"level1":"world", "level12":{"level2":"world2"}}"#);

    let paths = path_from(r#"["level1"]"#).unwrap();
    assert_eq!(
        to_serde(json.route_get(&paths).unwrap().unwrap()).to_string(),
        r#""world""#
    );
    let paths = path_from(r#"["level12", "level2"]"#).unwrap();
    assert_eq!(
        to_serde(json.route_get(&paths).unwrap().unwrap()).to_string(),
        r#""world2""#
    );
    let paths = path_from(r#"["level3"]"#).unwrap();
    assert!(json.route_get(&paths).unwrap().is_none());

    let json = parse(r#"{"level1":[1,{"hello":[1,[7,8]]}], "level12":"world"}"#);
    let paths = path_from(r#"["level1", 1, "hello"]"#).unwrap();
    assert_eq!(
        to_serde(json.route_get(&paths).unwrap().unwrap()).to_string(),
        r#"[1,[7,8]]"#
    );
}

#[test]
fn test_route_get_by_path_has_array() {
    let json = parse(r#"{"level1":["a","b"], "level12":[123, {"level2":["c","d"]}]}"#);
    let paths = path_from(r#"["level1", 1]"#).unwrap();
    assert_eq!(
        to_serde(json.route_get(&paths).unwrap().unwrap()).to_string(),
        r#""b""#
    );
    let paths = path_from(r#"["level12", 0]"#).unwrap();
    assert_eq!(
        to_serde(json.route_get(&paths).unwrap().unwrap()).to_string(),
        r#"123"#
    );
    let paths = path_from(r#"["level12", 1, "level2"]"#).unwrap();
    assert_eq!(
        to_serde(json.route_get(&paths).unwrap().unwrap()).to_string(),
        r#"["c","d"]"#
    );
    let json = parse(r#"{"level1":[1,{"hello":[1,[7,8]]}], "level12":"world"}"#);
    let paths = path_from(r#"["level1", 1, "hello", 1]"#).unwrap();
    assert_eq!(
        to_serde(json.route_get(&paths).unwrap().unwrap()).to_string(),
        r#"[7,8]"#
    );
}

#[test]
fn test_apply_object_operation() {
    let json0 = Json0::new();

    let mut json_to_operate = Value::Object(Vec::new());

    let path = PathBuilder::new().add_key_path("key".to_string()).build().unwrap();
    let op = json0
        .operation_factory()
        .object_operation_builder(path)
        .insert(Value::String("world".into()))
        .build()
        .unwrap();
    let op = json0::operation::Operation::from_component(op);

    json0.apply(&mut json_to_operate, vec![op]).unwrap();

    let expect_value: serde_json::Value = serde_json::from_str("{\"key\":\"world\"}").unwrap();
    assert_eq!(expect_value, to_serde(&json_to_operate));
}

#[test]
fn test_number_add_operator() {
    let path = path_from(r#"["p1","p2"]"#).unwrap();
    let op_factory = OperationFactory::new(SubTypeFunctionsHolder::new());
    let op = op_factory
        .number_add_operation_builder(path)
        .add_int(100)
        .build()
        .unwrap();

    let Operator::SubType(sub_type, op_value) = op.operator else {
        panic!()
    };
    assert_eq!(SubType::NumberAdd, sub_type);
    assert_eq!(serde_json::to_value(100).unwrap(), to_serde(&op_value));
}

#[test]
fn test_text_operator() {
    let sub_type_operand: serde_json::Value = serde_json::from_str(r#"{"p":1, "i":"hello"}"#).unwrap();
    let path = path_from(r#"["p1","p2"]"#).unwrap();
    let op_factory = OperationFactory::new(SubTypeFunctionsHolder::new());
    let op = op_factory
        .text_operation_builder(path)
        .insert_str(1, "hello")
        .build()
        .unwrap();

    let Operator::SubType(sub_type, op_value) = op.operator else {
        panic!()
    };
    assert_eq!(SubType::Text, sub_type);
    assert_eq!(sub_type_operand, to_serde(&op_value));
}

#[test]
fn test_parse_invalid_path() {
    assert!(matches!(
        path_from("]").unwrap_err(),
        PathError::ParsePathFromJsonFailed { reason: _ }
    ));
    assert!(matches!(
        path_from("[").unwrap_err(),
        PathError::ParsePathFromJsonFailed { reason: _ }
    ));
    assert!(matches!(
        path_from("").unwrap_err(),
        PathError::ParsePathFromJsonFailed { reason: _ }
    ));
    assert!(matches!(
        path_from("[]").unwrap_err(),
        PathError::ParsePathFromJsonFailed { reason: _ }
    ));
    assert!(matches!(
        path_from("hello").unwrap_err(),
        PathError::ParsePathFromJsonFailed { reason: _ }
    ));
    assert!(matches!(
        path_from("[hello]").unwrap_err(),
        PathError::ParsePathFromJsonFailed { reason: _ }
    ));
}

#[test]
fn test_parse_index_path() {
    let paths = path_from("[1]").unwrap();
    assert_eq!(1, paths.len());
    assert_eq!(1, *paths.first_index_path().unwrap());
    let paths = path_from("[2, 3, 4]").unwrap();
    assert_eq!(3, paths.len());
    assert_eq!(2, *paths.first_index_path().unwrap());
    let paths = paths.next_level();
    assert_eq!(2, paths.len());
    assert_eq!(3, *paths.first_index_path().unwrap());
    let paths = paths.next_level();
    assert_eq!(1, paths.len());
    assert_eq!(4, *paths.first_index_path().unwrap());
    let paths = paths.next_level();
    assert!(paths.is_empty());
}

#[test]
fn test_parse_key_path() {
    let paths = path_from("[\"hello\"]").unwrap();
    assert_eq!(1, paths.len());
    assert_eq!("hello", paths.first_key_path().unwrap());
    let paths = path_from("[\"hello\", \"word\", \"hello\"]").unwrap();
    assert_eq!(3, paths.len());
    assert_eq!("hello", paths.first_key_path().unwrap());
    let paths = paths.next_level();
    assert_eq!(2, paths.len());
    assert_eq!("word", paths.first_key_path().unwrap());
    let paths = paths.next_level();
    assert_eq!(1, paths.len());
    assert_eq!("hello", paths.first_key_path().unwrap());
    let paths = paths.next_level();
    assert!(paths.is_empty());
}

#[test]
fn test_parse_path_with_blanks() {
    let paths = path_from("[ \"hello \"  ,  1,  \"  world \",  4  ]").unwrap();
    assert_eq!(4, paths.len());
    assert_eq!("hello ", paths.first_key_path().unwrap());
    let paths = paths.next_level();
    assert_eq!(3, paths.len());
    assert_eq!(1, *paths.first_index_path().unwrap());
    let paths = paths.next_level();
    assert_eq!(2, paths.len());
    assert_eq!("  world ", paths.first_key_path().unwrap());
    let paths = paths.next_level();
    assert_eq!(4, *paths.first_index_path().unwrap());
    let paths = paths.next_level();
    assert!(paths.is_empty());
}

#[test]
fn test_increase_decrease_path() {
    let mut paths = path_from("[ \"hello \"  ,  1,  \"  world \",  4  ]").unwrap();
    assert!(paths.increase_index(1));
    assert_eq!(2, *paths.get_index_at(1).unwrap());
    assert!(paths.increase_index(3));
    assert_eq!(5, *paths.get_index_at(3).unwrap());
    assert!(paths.decrease_index(1));
    assert_eq!(1, *paths.get_index_at(1).unwrap());
    assert!(paths.decrease_index(3));
    assert_eq!(4, *paths.get_index_at(3).unwrap());

    assert!(!paths.decrease_index(0));
    assert!(!paths.increase_index(0));
}

#[test]
fn test_empty_path() {
    assert!(matches!(PathBuilder::new().build(), Err(PathError::EmptyPath)));
}
