//! Sub types: operators whose meaning is given by a family of functions. Two
//! families are built in: number addition ("na") and text editing ("text").
use vstd::prelude::*;
use vstd::std_specs::cmp::PartialEqSpecImpl;

use crate::error::{JsonError, Result, invalid_operation};
use crate::operation::{Operator, OperatorModel};
use crate::path::{Path, PathKey};
use crate::transformer::TransformSide;
use crate::value::{Json, Value, json_member, lemma_object_view, lemma_array_view, entries_view, values_view};

verus! {

/// The kind of a sub type operator.
#[derive(Debug)]
pub enum SubType {
    NumberAdd,
    Text,
    Custome(String),
}

/// The model of a sub type.
pub enum SubTypeName {
    NumberAdd,
    Text,
    Custom(Seq<char>),
}

impl SubType {
    pub open spec fn view(&self) -> SubTypeName {
        match self {
            SubType::NumberAdd => SubTypeName::NumberAdd,
            SubType::Text => SubTypeName::Text,
            SubType::Custome(s) => SubTypeName::Custom(s@),
        }
    }
}

impl Clone for SubType {
    fn clone(&self) -> (r: Self)
        ensures
            r == *self,
    {
        match self {
            SubType::NumberAdd => SubType::NumberAdd,
            SubType::Text => SubType::Text,
            SubType::Custome(s) => SubType::Custome(s.clone()),
        }
    }
}

impl PartialEq for SubType {
    fn eq(&self, other: &Self) -> (r: bool) {
        match (self, other) {
            (SubType::NumberAdd, SubType::NumberAdd) => true,
            (SubType::Text, SubType::Text) => true,
            (SubType::Custome(a), SubType::Custome(b)) => a.eq(b),
            _ => false,
        }
    }
}

impl PartialEqSpecImpl for SubType {
    open spec fn obeys_eq_spec() -> bool {
        true
    }

    open spec fn eq_spec(&self, other: &SubType) -> bool {
        self@ == other@
    }
}

/// The sub type that a name stands for.
pub open spec fn sub_type_of_name(s: Seq<char>) -> SubTypeName {
    if s == "na"@ {
        SubTypeName::NumberAdd
    } else if s == "text"@ {
        SubTypeName::Text
    } else {
        SubTypeName::Custom(s)
    }
}

/// Whether `a` and `b` hold the same text.
pub fn str_equal(a: &str, b: &str) -> (r: bool)
    ensures
        r == (a@ == b@),
{
    let x = String::from_str(a);
    let y = String::from_str(b);
    x.eq(&y)
}

impl SubType {
    /// The sub type named by a JSON string: "na", "text", or any other name.
    pub fn from_value(value: &Value) -> (r: Result<SubType>)
        ensures
            match value@ {
                Json::Str(s) => r is Ok && r->Ok_0@ == sub_type_of_name(s),
                _ => r matches Err(JsonError::InvalidOperation(_)),
            },
    {
        match value {
            Value::String(sub) => {
                if str_equal(sub.as_str(), "na") {
                    return Ok(SubType::NumberAdd);
                }
                if str_equal(sub.as_str(), "text") {
                    return Ok(SubType::Text);
                }
                Ok(SubType::Custome(sub.clone()))
            },
            _ => Err(invalid_operation("invalid sub type")),
        }
    }

    /// The name of the sub type.
    pub fn name(&self) -> (r: String)
        ensures
            sub_type_of_name(r@) == self@ || self@ is Custom,
            self@ matches SubTypeName::Custom(s) ==> r@ == s,
    {
        proof {
            reveal_strlit("na");
            reveal_strlit("text");
            assert("na"@.len() == 2);
            assert("text"@.len() == 4);
            assert("text"@ != "na"@);
        }
        match self {
            SubType::NumberAdd => String::from_str("na"),
            SubType::Text => String::from_str("text"),
            SubType::Custome(t) => t.clone(),
        }
    }
}

// ---------------------------------------------------------------------------
// Reading the members of an operand.

/// Member `k` as a non-negative integer.
pub open spec fn member_nat(v: Json, k: Seq<char>) -> Option<i64> {
    match json_member(v, k) {
        Some(Json::Number(n)) => if n >= 0 {
            Some(n)
        } else {
            None
        },
        _ => None,
    }
}

/// Member `k` as an integer.
pub open spec fn member_int(v: Json, k: Seq<char>) -> Option<i64> {
    match json_member(v, k) {
        Some(Json::Number(n)) => Some(n),
        _ => None,
    }
}

/// Member `k` as a string.
pub open spec fn member_str(v: Json, k: Seq<char>) -> Option<Seq<char>> {
    match json_member(v, k) {
        Some(Json::Str(s)) => Some(s),
        _ => None,
    }
}

pub fn get_nat(v: &Value, k: &str) -> (r: Option<i64>)
    ensures
        r == member_nat(v@, k@),
{
    match v.get(k) {
        Some(x) => match x.as_i64() {
            Some(n) => if n >= 0 {
                Some(n)
            } else {
                None
            },
            None => None,
        },
        None => None,
    }
}

pub fn get_int(v: &Value, k: &str) -> (r: Option<i64>)
    ensures
        r == member_int(v@, k@),
{
    match v.get(k) {
        Some(x) => x.as_i64(),
        None => None,
    }
}

pub fn get_str<'a>(v: &'a Value, k: &str) -> (r: Option<&'a str>)
    ensures
        match member_str(v@, k@) {
            Some(s) => r is Some && r->0@ == s,
            None => r is None,
        },
{
    match v.get(k) {
        Some(x) => x.as_str(),
        None => None,
    }
}

pub fn has_member(v: &Value, k: &str) -> (r: bool)
    ensures
        r == json_member(v@, k@) is Some,
{
    v.get(k).is_some()
}

// ---------------------------------------------------------------------------
// Validation of operands.

/// Whether an operand suits a built-in sub type (operands of other sub types are
/// not checked here).
pub open spec fn builtin_operand_valid(t: SubTypeName, v: Json) -> bool {
    match t {
        SubTypeName::NumberAdd => v is Number,
        SubTypeName::Text => {
            &&& json_member(v, "p"@) is Some
            &&& json_member(v, "i"@) is Some ==> member_str(v, "i"@) is Some
            &&& json_member(v, "d"@) is Some ==> member_str(v, "d"@) is Some
        },
        SubTypeName::Custom(_) => true,
    }
}

pub fn validate_builtin_operand(t: &SubType, v: &Value) -> (r: Result<()>)
    ensures
        r is Ok <==> builtin_operand_valid(t@, v@),
        r matches Err(e) ==> e is InvalidOperation,
{
    match t {
        SubType::NumberAdd => match v {
            Value::Number(_) => Ok(()),
            _ => Err(invalid_operation("Value in AddNumber operator is not a number")),
        },
        SubType::Text => {
            if !has_member(v, "p") {
                return Err(invalid_operation("text sub type operand does not contains Offset"));
            }
            if has_member(v, "i") && get_str(v, "i").is_none() {
                return Err(invalid_operation("text insert non-string value"));
            }
            if has_member(v, "d") && get_str(v, "d").is_none() {
                return Err(invalid_operation("text delete non-string value"));
            }
            Ok(())
        },
        SubType::Custome(_) => Ok(()),
    }
}

// ---------------------------------------------------------------------------
// Number addition.

/// The inverse of adding `operand`: adding its negation.
pub open spec fn number_add_invert_spec(operand: Json) -> Option<OperatorModel> {
    match operand {
        Json::Number(n) => if n == i64::MIN {
            None
        } else {
            Some(OperatorModel::SubType(SubTypeName::NumberAdd, Json::Number((-n) as i64)))
        },
        _ => None,
    }
}

pub fn number_add_invert(operand: &Value) -> (r: Result<Operator>)
    ensures
        match number_add_invert_spec(operand@) {
            Some(o) => r is Ok && r->Ok_0@ == o,
            None => r matches Err(JsonError::InvalidOperation(_)),
        },
{
    match operand {
        Value::Number(n) => {
            if *n == i64::MIN {
                return Err(invalid_operation("the negation of the NumberAdd operand overflows"));
            }
            Ok(Operator::SubType(SubType::NumberAdd, Value::Number(-*n)))
        },
        _ => Err(invalid_operation("invalid operand for NumberAdd sub type")),
    }
}

/// Two additions merge into one addition of the sum, when both operands are
/// numbers and the sum does not overflow.
pub open spec fn number_add_merge_spec(base: Json, other: OperatorModel) -> Option<OperatorModel> {
    match other {
        OperatorModel::SubType(_, Json::Number(b)) => match base {
            Json::Number(a) => if i64::MIN <= a + b <= i64::MAX {
                Some(OperatorModel::SubType(SubTypeName::NumberAdd, Json::Number((a + b) as i64)))
            } else {
                None
            },
            _ => None,
        },
        _ => None,
    }
}

pub fn number_add_merge(base: &Value, other: &Operator) -> (r: Option<Operator>)
    ensures
        match number_add_merge_spec(base@, other@) {
            Some(o) => r is Some && r->0@ == o,
            None => r is None,
        },
{
    match other {
        Operator::SubType(_, Value::Number(b)) => match base {
            Value::Number(a) => match a.checked_add(*b) {
                Some(s) => Some(Operator::SubType(SubType::NumberAdd, Value::Number(s))),
                None => None,
            },
            _ => None,
        },
        _ => None,
    }
}

/// The result of adding `operand` to `val` (`None` where `val` is missing); the
/// outer `None` stands for an error.
pub open spec fn number_add_apply_spec(val: Option<Json>, operand: Json) -> Option<Option<Json>> {
    match operand {
        Json::Number(b) => match val {
            Some(Json::Number(a)) => if i64::MIN <= a + b <= i64::MAX {
                Some(Some(Json::Number((a + b) as i64)))
            } else {
                None
            },
            Some(_) => None,
            None => Some(Some(operand)),
        },
        _ => None,
    }
}

pub fn number_add_apply(val: Option<&Value>, operand: &Value) -> (r: Result<Option<Value>>)
    ensures
        match number_add_apply_spec(
            match val {
                Some(v) => Some(v@),
                None => None,
            },
            operand@,
        ) {
            Some(res) => r is Ok && match res {
                Some(x) => r->Ok_0 is Some && r->Ok_0->0@ == x,
                None => r->Ok_0 is None,
            },
            None => r matches Err(JsonError::InvalidOperation(_)),
        },
{
    match operand {
        Value::Number(b) => match val {
            Some(old_v) => match old_v {
                Value::Number(a) => match a.checked_add(*b) {
                    Some(s) => Ok(Some(Value::Number(s))),
                    None => Err(invalid_operation("number addition overflows")),
                },
                _ => Err(invalid_operation("NumberAdd applied to a value that is not a number")),
            },
            None => Ok(Some(operand.clone())),
        },
        _ => Err(invalid_operation("operand for NumberAdd sub type is not a number")),
    }
}

// ---------------------------------------------------------------------------
// Text editing. Offsets count characters.

/// The inverse of one text edit: an insertion becomes a deletion and back.
pub open spec fn text_invert_object_spec(es: Seq<(Seq<char>, Json)>) -> Option<Seq<(Seq<char>, Json)>> {
    let v = Json::Object(es);
    let base = match json_member(v, "p"@) {
        Some(p) => seq![("p"@, p)],
        None => Seq::empty(),
    };
    match json_member(v, "i"@) {
        Some(i) => Some(base.push(("d"@, i))),
        None => match json_member(v, "d"@) {
            Some(d) => Some(base.push(("i"@, d))),
            None => None,
        },
    }
}

fn text_invert_object(op: &Value) -> (r: Result<Vec<(String, Value)>>)
    requires
        op@ is Object,
    ensures
        match text_invert_object_spec(op@->Object_0) {
            Some(es) => r is Ok && entries_view(r->Ok_0@) == es,
            None => r matches Err(JsonError::InvalidOperation(_)),
        },
{
    let mut new_op: Vec<(String, Value)> = Vec::new();
    if let Some(p) = op.get("p") {
        new_op.push((String::from_str("p"), p.clone()));
    }
    let ghost base = entries_view(new_op@);
    assert(base =~= match json_member(op@, "p"@) {
        Some(p) => seq![("p"@, p)],
        None => Seq::<(Seq<char>, Json)>::empty(),
    });
    if let Some(i) = op.get("i") {
        new_op.push((String::from_str("d"), i.clone()));
        assert(entries_view(new_op@) =~= base.push(("d"@, json_member(op@, "i"@)->0)));
    } else if let Some(d) = op.get("d") {
        new_op.push((String::from_str("i"), d.clone()));
        assert(entries_view(new_op@) =~= base.push(("i"@, json_member(op@, "d"@)->0)));
    } else {
        return Err(invalid_operation("invalid sub type operand for TextSubType"));
    }
    Ok(new_op)
}

/// The inverted edits of an array of edits, if each is an object that inverts.
pub open spec fn text_invert_all_spec(ops: Seq<Json>) -> Option<Seq<Json>> {
    if forall|i: int|
        0 <= i < ops.len() ==> (#[trigger] ops[i] is Object && text_invert_object_spec(
            ops[i]->Object_0,
        ) is Some) {
        Some(Seq::new(ops.len(), |i: int| Json::Object(text_invert_object_spec(ops[i]->Object_0)->0)))
    } else {
        None
    }
}

/// The inverse of a text operator: an edit, or an array of edits.
pub open spec fn text_invert_spec(operand: Json) -> Option<OperatorModel> {
    match operand {
        Json::Array(ops) => match text_invert_all_spec(ops) {
            Some(new_ops) => Some(OperatorModel::SubType(SubTypeName::Text, Json::Array(new_ops))),
            None => None,
        },
        Json::Object(es) => match text_invert_object_spec(es) {
            Some(new_es) => Some(OperatorModel::SubType(SubTypeName::Text, Json::Object(new_es))),
            None => None,
        },
        _ => None,
    }
}

pub fn text_invert(operand: &Value) -> (r: Result<Operator>)
    ensures
        match text_invert_spec(operand@) {
            Some(o) => r is Ok && r->Ok_0@ == o,
            None => r matches Err(JsonError::InvalidOperation(_)),
        },
{
    match operand {
        Value::Array(ops) => {
            proof {
                lemma_array_view(*ops);
            }
            let ghost items = values_view(ops@);
            let mut new_ops: Vec<Value> = Vec::new();
            let mut i: usize = 0;
            while i < ops.len()
                invariant
                    i <= ops.len(),
                    items == values_view(ops@),
                    operand@ == Json::Array(items),
                    new_ops.len() == i,
                    forall|j: int|
                        0 <= j < i ==> (#[trigger] items[j] is Object && text_invert_object_spec(
                            items[j]->Object_0,
                        ) is Some && new_ops@[j]@ == Json::Object(
                            text_invert_object_spec(items[j]->Object_0)->0,
                        )),
                decreases ops.len() - i,
            {
                match &ops[i] {
                    Value::Object(o) => {
                        match text_invert_object(&ops[i]) {
                            Ok(inv) => {
                                proof {
                                    lemma_object_view(inv);
                                }
                                new_ops.push(Value::Object(inv));
                            },
                            Err(e) => {
                                assert(text_invert_object_spec(items[i as int]->Object_0) is None);
                                return Err(e);
                            },
                        }
                    },
                    _ => {
                        assert(!(items[i as int] is Object));
                        return Err(invalid_operation("text operand item is not an object"));
                    },
                }
                i = i + 1;
            }
            proof {
                lemma_array_view(new_ops);
                assert(values_view(new_ops@) =~= text_invert_all_spec(items)->0);
            }
            Ok(Operator::SubType(SubType::Text, Value::Array(new_ops)))
        },
        Value::Object(_) => {
            let inv = text_invert_object(operand)?;
            proof {
                lemma_object_view(inv);
            }
            Ok(Operator::SubType(SubType::Text, Value::Object(inv)))
        },
        _ => Err(invalid_operation("invalid sub type operand for TextSubType")),
    }
}

/// Two text edits merge into one: two insertions where the second falls inside
/// the first, or two deletions where the first falls inside the second.
pub open spec fn text_merge_spec(base: Json, other: OperatorModel) -> Option<OperatorModel> {
    match other {
        OperatorModel::SubType(SubTypeName::Text, o) => {
            if member_nat(base, "p"@) is None || member_nat(o, "p"@) is None {
                None
            } else {
                let bp = member_nat(base, "p"@)->0 as int;
                let opp = member_nat(o, "p"@)->0 as int;
                let ins_case = json_member(base, "i"@) is Some && json_member(o, "i"@) is Some;
                let del_case = json_member(base, "d"@) is Some && json_member(o, "d"@) is Some;
                if ins_case && bp <= opp && member_str(base, "i"@) is None {
                    None
                } else if ins_case && bp <= opp && opp <= bp + member_str(base, "i"@)->0.len() {
                    match member_str(o, "i"@) {
                        None => None,
                        Some(oi) => {
                            let bi = member_str(base, "i"@)->0;
                            let k = opp - bp;
                            Some(
                                OperatorModel::SubType(
                                    SubTypeName::Text,
                                    Json::Object(
                                        seq![("p"@, Json::Number(bp as i64)), ("i"@, Json::Str(bi.take(k) + oi + bi.skip(k)))],
                                    ),
                                ),
                            )
                        },
                    }
                } else if del_case && opp <= bp && member_str(o, "d"@) is None {
                    None
                } else if del_case && opp <= bp && bp <= opp + member_str(o, "d"@)->0.len() {
                    match member_str(base, "d"@) {
                        None => None,
                        Some(bd) => {
                            let od = member_str(o, "d"@)->0;
                            let k = bp - opp;
                            Some(
                                OperatorModel::SubType(
                                    SubTypeName::Text,
                                    Json::Object(
                                        seq![("p"@, Json::Number(opp as i64)), ("d"@, Json::Str(od.take(k) + bd + od.skip(k)))],
                                    ),
                                ),
                            )
                        },
                    }
                } else {
                    None
                }
            }
        },
        _ => None,
    }
}

/// The text made of `a`, then `b`, then `c`.
fn concat3(a: &str, b: &str, c: &str) -> (r: String)
    ensures
        r@ == a@ + b@ + c@,
{
    let mut s = String::from_str(a);
    s.append(b);
    s.append(c);
    s
}

/// A text edit object: offset `p`, then `k` holding `text`.
fn edit_object(p: i64, k: &str, text: String) -> (r: Value)
    ensures
        r@ == Json::Object(seq![("p"@, Json::Number(p)), (k@, Json::Str(text@))]),
{
    let mut m: Vec<(String, Value)> = Vec::new();
    m.push((String::from_str("p"), Value::Number(p)));
    m.push((String::from_str(k), Value::String(text)));
    proof {
        lemma_object_view(m);
        assert(entries_view(m@) =~= seq![("p"@, Json::Number(p)), (k@, Json::Str(m@[1].1->String_0@))]);
    }
    Value::Object(m)
}

pub fn text_merge(base: &Value, other: &Operator) -> (r: Option<Operator>)
    ensures
        match text_merge_spec(base@, other@) {
            Some(o) => r is Some && r->0@ == o,
            None => r is None,
        },
{
    match other {
        Operator::SubType(SubType::Text, o) => {
            let bp = match get_nat(base, "p") {
                Some(x) => x,
                None => return None,
            };
            let opp = match get_nat(o, "p") {
                Some(x) => x,
                None => return None,
            };
            let ins_case = has_member(base, "i") && has_member(o, "i");
            if ins_case && bp <= opp {
                let bi = match get_str(base, "i") {
                    Some(x) => x,
                    None => return None,
                };
                let blen = bi.unicode_len();
                if ((opp - bp) as u64) <= (blen as u64) {
                    let oi = match get_str(o, "i") {
                        Some(x) => x,
                        None => return None,
                    };
                    let k = (opp - bp) as usize;
                    let text = concat3(bi.substring_char(0, k), oi, bi.substring_char(k, blen));
                    proof {
                        assert(bi@.subrange(0, k as int) =~= bi@.take(k as int));
                        assert(bi@.subrange(k as int, blen as int) =~= bi@.skip(k as int));
                    }
                    return Some(Operator::SubType(SubType::Text, edit_object(bp, "i", text)));
                }
            }
            let del_case = has_member(base, "d") && has_member(o, "d");
            if del_case && opp <= bp {
                let od = match get_str(o, "d") {
                    Some(x) => x,
                    None => return None,
                };
                let olen = od.unicode_len();
                if ((bp - opp) as u64) <= (olen as u64) {
                    let bd = match get_str(base, "d") {
                        Some(x) => x,
                        None => return None,
                    };
                    let k = (bp - opp) as usize;
                    let text = concat3(od.substring_char(0, k), bd, od.substring_char(k, olen));
                    proof {
                        assert(od@.subrange(0, k as int) =~= od@.take(k as int));
                        assert(od@.subrange(k as int, olen as int) =~= od@.skip(k as int));
                    }
                    return Some(Operator::SubType(SubType::Text, edit_object(opp, "d", text)));
                }
            }
            None
        },
        _ => None,
    }
}

/// The result of applying a text edit to `val` (`None` where `val` is missing);
/// the outer `None` stands for an error. An insertion puts its text at the
/// offset; a deletion checks the text between the offset and the length of the
/// deleted text, then removes that many characters at the offset.
pub open spec fn text_apply_spec(val: Option<Json>, operand: Json) -> Option<Option<Json>> {
    match member_nat(operand, "p"@) {
        None => None,
        Some(p64) => {
            let p = p64 as int;
            match val {
                Some(Json::Str(s)) => if json_member(operand, "i"@) is Some {
                    match member_str(operand, "i"@) {
                        None => None,
                        Some(ins) => if p > s.len() {
                            None
                        } else {
                            Some(Some(Json::Str(s.take(p) + ins + s.skip(p))))
                        },
                    }
                } else {
                    match member_str(operand, "d"@) {
                        None => None,
                        Some(d) => if p > d.len() || d.len() > s.len() {
                            None
                        } else if d != s.subrange(p, d.len() as int) {
                            None
                        } else {
                            Some(Some(Json::Str(s.take(p) + s.skip(p + d.len()))))
                        },
                    }
                },
                Some(Json::Null) | None => match json_member(operand, "i"@) {
                    Some(ins) => Some(Some(ins)),
                    None => Some(None),
                },
                Some(_) => None,
            }
        },
    }
}

pub fn text_apply(val: Option<&Value>, operand: &Value) -> (r: Result<Option<Value>>)
    ensures
        match text_apply_spec(
            match val {
                Some(v) => Some(v@),
                None => None,
            },
            operand@,
        ) {
            Some(res) => r is Ok && match res {
                Some(x) => r->Ok_0 is Some && r->Ok_0->0@ == x,
                None => r->Ok_0 is None,
            },
            None => r matches Err(JsonError::InvalidOperation(_)),
        },
{
    let p = match get_nat(operand, "p") {
        Some(x) => x,
        None => return Err(invalid_operation("text operand has no valid offset")),
    };
    if let Some(v) = val {
        match v {
            Value::Null => {},
            Value::String(s) => {
                let slen = s.as_str().unicode_len();
                if has_member(operand, "i") {
                    let ins = match get_str(operand, "i") {
                        Some(x) => x,
                        None => return Err(invalid_operation("text insert non-string value")),
                    };
                    if (p as u64) > (slen as u64) {
                        return Err(invalid_operation("text offset is beyond the end of the text"));
                    }
                    let k = p as usize;
                    let text = concat3(s.as_str().substring_char(0, k), ins, s.as_str().substring_char(k, slen));
                    proof {
                        assert(s@.subrange(0, k as int) =~= s@.take(k as int));
                        assert(s@.subrange(k as int, slen as int) =~= s@.skip(k as int));
                    }
                    return Ok(Some(Value::String(text)));
                } else {
                    let d = match get_str(operand, "d") {
                        Some(x) => x,
                        None => return Err(invalid_operation("text delete non-string value")),
                    };
                    let dlen = d.unicode_len();
                    if (p as u64) > (dlen as u64) || dlen > slen {
                        return Err(invalid_operation("text to delete is out of range"));
                    }
                    let k = p as usize;
                    let deleted = s.as_str().substring_char(k, dlen);
                    if !str_equal(d, deleted) {
                        return Err(invalid_operation(
                            "text to delete in text operation is not match target text",
                        ));
                    }
                    // the check above leaves only an offset of zero
                    assert(k == 0);
                    let text = concat3(s.as_str().substring_char(0, k), "", s.as_str().substring_char(k + dlen, slen));
                    proof {
                        reveal_strlit("");
                        assert(s@.subrange(0, k as int) =~= s@.take(k as int));
                        assert(s@.subrange((k + dlen) as int, slen as int) =~= s@.skip(k + dlen));
                        assert(text@ =~= s@.take(k as int) + s@.skip(k + dlen));
                    }
                    return Ok(Some(Value::String(text)));
                }
            },
            _ => {
                return Err(invalid_operation("can not apply text sub operation on this value"));
            },
        }
    }
    match operand.get("i") {
        Some(ins) => Ok(Some(ins.clone())),
        None => Ok(None),
    }
}

/// Where position `pos` moves when the text edit `op` happens first; `None`
/// where the edit's members are not of the kind it needs.
pub open spec fn transform_position_spec(pos: usize, op: Json, insert_after: bool) -> Option<usize> {
    match member_int(op, "p"@) {
        None => None,
        Some(p64) => {
            let p = (p64 as usize) as int;
            if json_member(op, "i"@) is Some {
                if p < pos || (p == pos && insert_after) {
                    match member_str(op, "i"@) {
                        None => None,
                        Some(i) => if pos + i.len() <= usize::MAX {
                            Some((pos + i.len()) as usize)
                        } else {
                            None
                        },
                    }
                } else {
                    Some(pos)
                }
            } else if pos <= p {
                Some(pos)
            } else {
                match member_str(op, "d"@) {
                    None => None,
                    Some(d) => if p + d.len() > usize::MAX {
                        None
                    } else if pos <= p + d.len() {
                        Some(p as usize)
                    } else {
                        Some((pos - d.len()) as usize)
                    },
                }
            }
        },
    }
}

pub fn transform_position(pos: usize, op: &Value, insert_after: bool) -> (r: Option<usize>)
    ensures
        r == transform_position_spec(pos, op@, insert_after),
{
    let p = match get_int(op, "p") {
        Some(x) => #[verifier::truncate] (x as usize),
        None => return None,
    };
    if has_member(op, "i") {
        if p < pos || (p == pos && insert_after) {
            let i = match get_str(op, "i") {
                Some(x) => x,
                None => return None,
            };
            return pos.checked_add(i.unicode_len());
        } else {
            return Some(pos);
        }
    }
    if pos <= p {
        return Some(pos);
    }
    let d = match get_str(op, "d") {
        Some(x) => x,
        None => return None,
    };
    let dlen = d.unicode_len();
    match p.checked_add(dlen) {
        None => None,
        Some(end) => if pos <= end {
            Some(p)
        } else {
            Some(pos - dlen)
        },
    }
}

/// The edits that a text edit `new` becomes when the edit `base` happens first.
/// An insertion moves with `transform_position`; a deletion becomes no edit at
/// all (its pieces are worked out and then not kept). `None` stands for an error.
pub open spec fn text_transform_spec(new: Json, base: Json, right: bool) -> Option<Seq<Json>> {
    match json_member(new, "i"@) {
        Some(i) => match member_int(new, "p"@) {
            None => None,
            Some(np) => match transform_position_spec((np as usize), base, right) {
                None => None,
                Some(tp) => if tp > i64::MAX {
                    None
                } else {
                    Some(seq![Json::Object(seq![("i"@, i), ("p"@, Json::Number(tp as i64))])])
                },
            },
        },
        None => match member_str(new, "d"@) {
            None => None,
            Some(d) => match json_member(base, "i"@) {
                None => Some(Seq::empty()),
                Some(_) => if member_nat(base, "p"@) is None || member_nat(new, "p"@) is None {
                    None
                } else {
                    let bp = member_nat(base, "p"@)->0 as int;
                    let np = member_nat(new, "p"@)->0 as int;
                    if np < bp && bp - np > d.len() {
                        None
                    } else {
                        let rest_len = if np < bp {
                            d.len() - (bp - np)
                        } else {
                            d.len() as int
                        };
                        if rest_len == 0 {
                            Some(Seq::empty())
                        } else if member_str(base, "i"@) is None {
                            None
                        } else if np + member_str(base, "i"@)->0.len() > usize::MAX {
                            None
                        } else {
                            Some(Seq::empty())
                        }
                    }
                },
            },
        },
    }
}

pub fn text_transform(new: &Value, base: &Value, side: TransformSide) -> (r: Result<Vec<Value>>)
    ensures
        match text_transform_spec(new@, base@, side == TransformSide::RIGHT) {
            Some(vs) => r is Ok && values_view(r->Ok_0@) == vs,
            None => r matches Err(JsonError::InvalidOperation(_)),
        },
{
    if let Some(i) = new.get("i") {
        let np = match get_int(new, "p") {
            Some(x) => #[verifier::truncate] (x as usize),
            None => return Err(invalid_operation("text operand has no integer offset")),
        };
        let tp = match transform_position(np, base, side == TransformSide::RIGHT) {
            Some(x) => x,
            None => return Err(invalid_operation("text operand cannot be transformed")),
        };
        if (tp as u64) > (i64::MAX as u64) {
            return Err(invalid_operation("transformed text offset is too large"));
        }
        let mut op: Vec<(String, Value)> = Vec::new();
        op.push((String::from_str("i"), i.clone()));
        op.push((String::from_str("p"), Value::Number(tp as i64)));
        proof {
            lemma_object_view(op);
            assert(entries_view(op@) =~= seq![("i"@, json_member(new@, "i"@)->0), ("p"@, Json::Number(tp as i64))]);
        }
        let mut out: Vec<Value> = Vec::new();
        out.push(Value::Object(op));
        proof {
            assert(values_view(out@) =~= text_transform_spec(new@, base@, side == TransformSide::RIGHT)->0);
        }
        return Ok(out);
    }
    let d = match get_str(new, "d") {
        Some(x) => x,
        None => return Err(invalid_operation("text delete non-string value")),
    };
    let out: Vec<Value> = Vec::new();
    proof {
        assert(values_view(out@) =~= Seq::<Json>::empty());
    }
    if has_member(base, "i") {
        let bp = match get_nat(base, "p") {
            Some(x) => x,
            None => return Err(invalid_operation("text operand has no valid offset")),
        };
        let np = match get_nat(new, "p") {
            Some(x) => x,
            None => return Err(invalid_operation("text operand has no valid offset")),
        };
        let dlen = d.unicode_len();
        let mut rest_len: u64 = dlen as u64;
        if np < bp {
            if ((bp - np) as u64) > (dlen as u64) {
                return Err(invalid_operation("text to delete is out of range"));
            }
            rest_len = (dlen as u64) - ((bp - np) as u64);
        }
        if rest_len != 0 {
            let bi = match get_str(base, "i") {
                Some(x) => x,
                None => return Err(invalid_operation("text insert non-string value")),
            };
            if (np as u64) > (usize::MAX as u64) || (np as usize).checked_add(bi.unicode_len()).is_none() {
                return Err(invalid_operation("text offset overflows"));
            }
        }
    }
    Ok(out)
}

/// The parts of a text operand: an offset, and either a text to insert or a text
/// to delete.
pub struct TextOperand {
    pub offset: usize,
    pub insert: Option<String>,
    pub delete: Option<String>,
}

impl TextOperand {
    /// Reads a text operand: `p` must be an integer; `i` (checked first) or `d`
    /// must be a string.
    pub fn from_value(val: &Value) -> (r: Result<TextOperand>)
        ensures
            match r {
                Ok(t) => {
                    &&& member_int(val@, "p"@) matches Some(p) && t.offset == p as usize
                    &&& if json_member(val@, "i"@) is Some {
                        member_str(val@, "i"@) matches Some(s) && t.insert matches Some(x) && x@ == s
                            && t.delete is None
                    } else {
                        member_str(val@, "d"@) matches Some(s) && t.delete matches Some(x) && x@ == s
                            && t.insert is None
                    }
                },
                Err(e) => e is InvalidOperation && (member_int(val@, "p"@) is None || (json_member(
                    val@,
                    "i"@,
                ) is Some && member_str(val@, "i"@) is None) || (json_member(val@, "i"@) is None
                    && member_str(val@, "d"@) is None)),
            },
    {
        let p = match val.get("p") {
            Some(x) => x,
            None => return Err(invalid_operation("text sub type operand does not contains Offset")),
        };
        let offset = match p.as_i64() {
            Some(n) => #[verifier::truncate] (n as usize),
            None => return Err(invalid_operation("offset in text sub type operand is not value number")),
        };
        if let Some(insert) = val.get("i") {
            return match insert.as_str() {
                Some(s) => Ok(TextOperand { offset, insert: Some(String::from_str(s)), delete: None }),
                None => Err(invalid_operation("text insert non-string value")),
            };
        }
        if let Some(delete) = val.get("d") {
            return match delete.as_str() {
                Some(s) => Ok(TextOperand { offset, insert: None, delete: Some(String::from_str(s)) }),
                None => Err(invalid_operation("text delete non-string value")),
            };
        }
        Err(invalid_operation("invalid text operand"))
    }
}

// ---------------------------------------------------------------------------
// Sub types registered by users.

/// The functions that give a custom sub type its meaning. Users implement this
/// trait and register the implementation under the sub type's name. Each
/// function is a function of its arguments: the same arguments give the same
/// result, which the spec functions of the implementation name.
pub trait SubTypeFunctions {
    /// The inverse that `invert` gives of `operand` at `path`; `None` for an error.
    spec fn invert_result(&self, path: Seq<PathKey>, operand: Json) -> Option<OperatorModel>;

    /// The operator that `merge` makes of `base` followed by `other`, if they merge.
    spec fn merge_result(&self, base: Json, other: OperatorModel) -> Option<OperatorModel>;

    /// The operands that `transform` makes of `new` after `base` (`right`: on the
    /// right side); `None` for an error.
    spec fn transform_result(&self, new: Json, base: Json, right: bool) -> Option<Seq<Json>>;

    /// What `apply` makes of `val` (`None`: no value there) with `operand`: the new
    /// value, no change (`Some(None)`), or an error (`None`).
    spec fn apply_result(&self, val: Option<Json>, operand: Json) -> Option<Option<Json>>;

    /// Whether `validate_operand` accepts `operand`.
    spec fn operand_valid(&self, operand: Json) -> bool;

    fn invert(&self, path: &Path, sub_type_operand: &Value) -> (r: Result<Operator>)
        ensures
            self.invert_result(path@, sub_type_operand@) == match r {
                Ok(o) => Some(o@),
                Err(_) => None::<OperatorModel>,
            },
    ;

    fn merge(&self, base_operand: &Value, other: &Operator) -> (r: Option<Operator>)
        ensures
            self.merge_result(base_operand@, other@) == match r {
                Some(o) => Some(o@),
                None => None::<OperatorModel>,
            },
    ;

    fn transform(&self, new: &Value, base: &Value, side: TransformSide) -> (r: Result<Vec<Value>>)
        ensures
            self.transform_result(new@, base@, is_right_side(side)) == match r {
                Ok(vs) => Some(values_view(vs@)),
                Err(_) => None::<Seq<Json>>,
            },
    ;

    fn apply(&self, val: Option<&Value>, sub_type_operand: &Value) -> (r: Result<Option<Value>>)
        ensures
            self.apply_result(opt_ref_view(val), sub_type_operand@) == match r {
                Ok(Some(x)) => Some(Some(x@)),
                Ok(None) => Some(None::<Json>),
                Err(_) => None::<Option<Json>>,
            },
    ;

    fn validate_operand(&self, val: &Value) -> (r: Result<()>)
        ensures
            self.operand_valid(val@) == (r is Ok),
    ;
}

/// The side is the right one, which gives way where both edits collide.
pub open spec fn is_right_side(side: TransformSide) -> bool {
    side == TransformSide::RIGHT
}

/// The model of an optional value.
pub open spec fn opt_ref_view(v: Option<&Value>) -> Option<Json> {
    match v {
        Some(x) => Some(x@),
        None => None,
    }
}

/// Whether `name` is one of the names of the built-in sub types.
pub open spec fn is_builtin_name(name: Seq<char>) -> bool {
    name == "na"@ || name == "text"@
}

/// The type of the map of functions of custom sub types.
#[verifier::external_type_specification]
#[verifier::external_body]
#[verifier::reject_recursive_types(K)]
#[verifier::reject_recursive_types(V)]
#[verifier::reject_recursive_types(S)]
pub struct ExDashMap<K, V, S>(dashmap::DashMap<K, V, S>);

/// The type of a read guard on an entry of that map.
#[verifier::external_type_specification]
#[verifier::external_body]
#[verifier::reject_recursive_types(K)]
#[verifier::reject_recursive_types(V)]
#[verifier::reject_recursive_types(S)]
pub struct ExDashMapRef<'a, K, V, S>(dashmap::mapref::one::Ref<'a, K, V, S>);

/// The names under which a map of sub type functions holds functions.
pub uninterp spec fn function_map_names(m: dashmap::DashMap<String, Box<dyn SubTypeFunctions>>) -> Set<Seq<char>>;

/// `DashMap::new`: a map with no entry.
#[verifier::external_body]
fn function_map_new() -> (r: dashmap::DashMap<String, Box<dyn SubTypeFunctions>>)
    ensures
        function_map_names(r) == Set::<Seq<char>>::empty(),
{
    dashmap::DashMap::new()
}

/// `DashMap::insert`: the functions go under `name`, replacing those that were
/// there, which are handed back.
#[verifier::external_body]
fn function_map_insert(
    m: &mut dashmap::DashMap<String, Box<dyn SubTypeFunctions>>,
    name: String,
    f: Box<dyn SubTypeFunctions>,
) -> (r: Option<Box<dyn SubTypeFunctions>>)
    ensures
        function_map_names(*final(m)) == function_map_names(*old(m)).insert(name@),
        r is Some <==> function_map_names(*old(m)).contains(name@),
{
    m.insert(name, f)
}

/// `DashMap::remove`: the entry under `name` leaves the map; its functions are
/// handed back.
#[verifier::external_body]
fn function_map_remove(m: &mut dashmap::DashMap<String, Box<dyn SubTypeFunctions>>, name: &String) -> (r: Option<
    Box<dyn SubTypeFunctions>,
>)
    ensures
        function_map_names(*final(m)) == function_map_names(*old(m)).remove(name@),
        r is Some <==> function_map_names(*old(m)).contains(name@),
{
    m.remove(name).map(|entry| entry.1)
}

/// `DashMap::clear`: every entry leaves the map.
#[verifier::external_body]
fn function_map_clear(m: &mut dashmap::DashMap<String, Box<dyn SubTypeFunctions>>)
    ensures
        function_map_names(*final(m)) == Set::<Seq<char>>::empty(),
{
    m.clear()
}

/// `DashMap::contains_key`: whether functions are held under `name`.
#[verifier::external_body]
fn function_map_contains(m: &dashmap::DashMap<String, Box<dyn SubTypeFunctions>>, name: &String) -> (r: bool)
    ensures
        r == function_map_names(*m).contains(name@),
{
    m.contains_key(name)
}

/// `DashMap::get`: a read guard on the entry under `name`, if there is one.
#[verifier::external_body]
fn function_map_get<'a>(m: &'a dashmap::DashMap<String, Box<dyn SubTypeFunctions>>, name: &String) -> (r: Option<
    dashmap::mapref::one::Ref<'a, String, Box<dyn SubTypeFunctions>>,
>)
    ensures
        r is Some <==> function_map_names(*m).contains(name@),
{
    m.get(name)
}

/// `Ref::value`: the functions that a read guard holds.
#[verifier::external_body]
pub(crate) fn function_ref_value<'a, 'b>(r: &'b dashmap::mapref::one::Ref<'a, String, Box<dyn SubTypeFunctions>>) -> &'b Box<
    dyn SubTypeFunctions,
> {
    r.value()
}

/// The functions of the custom sub types, each under its name, and whether those
/// of the built-in sub types, whose code is this library's own, are still there.
pub struct SubTypeFunctionsHolder {
    subtype_operators: dashmap::DashMap<String, Box<dyn SubTypeFunctions>>,
    builtins: bool,
}

impl SubTypeFunctionsHolder {
    /// The names of the registered custom sub types.
    pub closed spec fn names(&self) -> Set<Seq<char>> {
        function_map_names(self.subtype_operators)
    }

    /// Whether functions are registered for the custom sub type `name`.
    pub open spec fn has(&self, name: Seq<char>) -> bool {
        self.names().contains(name)
    }

    /// Whether the functions of the built-in sub types are still registered: from
    /// the start, until `clear` removes them with the others.
    pub closed spec fn has_builtins(&self) -> bool {
        self.builtins
    }

    pub fn new() -> (r: SubTypeFunctionsHolder)
        ensures
            r.names() == Set::<Seq<char>>::empty(),
            r.has_builtins(),
    {
        SubTypeFunctionsHolder { subtype_operators: function_map_new(), builtins: true }
    }

    /// Registers functions for the custom sub type `sub_type`. The names of the
    /// built-in sub types are refused; functions already registered under that
    /// name are replaced and handed back.
    pub fn register_subtype(&mut self, sub_type: String, o: Box<dyn SubTypeFunctions>) -> (r: Result<
        Option<Box<dyn SubTypeFunctions>>,
    >)
        ensures
            is_builtin_name(sub_type@) ==> (r matches Err(JsonError::ConflictSubType(n)) && n@ == sub_type@)
                && final(self).names() == old(self).names(),
            !is_builtin_name(sub_type@) ==> r is Ok && final(self).names() == old(self).names().insert(sub_type@)
                && (r->Ok_0 is Some <==> old(self).has(sub_type@)),
            final(self).has_builtins() == old(self).has_builtins(),
    {
        if str_equal(sub_type.as_str(), "na") || str_equal(sub_type.as_str(), "text") {
            return Err(JsonError::ConflictSubType(sub_type));
        }
        Ok(function_map_insert(&mut self.subtype_operators, sub_type, o))
    }

    /// Removes the functions of the custom sub type `sub_type` and hands them back;
    /// the built-in sub types cannot be removed.
    pub fn unregister_subtype(&mut self, sub_type: &String) -> (r: Option<Box<dyn SubTypeFunctions>>)
        ensures
            is_builtin_name(sub_type@) ==> r is None && final(self).names() == old(self).names(),
            !is_builtin_name(sub_type@) ==> final(self).names() == old(self).names().remove(sub_type@)
                && (r is Some <==> old(self).has(sub_type@)),
            final(self).has_builtins() == old(self).has_builtins(),
    {
        if str_equal(sub_type.as_str(), "na") || str_equal(sub_type.as_str(), "text") {
            return None;
        }
        function_map_remove(&mut self.subtype_operators, sub_type)
    }

    /// Removes all functions: those of every custom sub type, and those of the
    /// built-in sub types, which cannot be registered again.
    pub fn clear(&mut self)
        ensures
            final(self).names() == Set::<Seq<char>>::empty(),
            !final(self).has_builtins(),
    {
        function_map_clear(&mut self.subtype_operators);
        self.builtins = false;
    }

    /// Whether the functions of the built-in sub types are still registered.
    pub fn builtins_registered(&self) -> (r: bool)
        ensures
            r == self.has_builtins(),
    {
        self.builtins
    }

    /// A read guard on the functions registered for the custom sub type `name`.
    pub fn get(&self, name: &String) -> (r: Option<dashmap::mapref::one::Ref<'_, String, Box<dyn SubTypeFunctions>>>)
        ensures
            r is Some <==> self.has(name@),
    {
        function_map_get(&self.subtype_operators, name)
    }

    /// Whether functions are registered for a sub type.
    pub fn supports(&self, sub_type: &SubType) -> (r: bool)
        ensures
            r == sub_type_supported(self, sub_type@),
    {
        match sub_type {
            SubType::Custome(name) => function_map_contains(&self.subtype_operators, name),
            _ => self.builtins,
        }
    }
}

/// Functions are registered for a sub type: for a built-in one until `clear`, for
/// the others after registration.
pub open spec fn sub_type_supported(h: &SubTypeFunctionsHolder, t: SubTypeName) -> bool {
    match t {
        SubTypeName::Custom(name) => h.has(name),
        _ => h.has_builtins(),
    }
}

impl Default for SubTypeFunctionsHolder {
    fn default() -> (r: Self)
        ensures
            r.names() == Set::<Seq<char>>::empty(),
    {
        SubTypeFunctionsHolder::new()
    }
}

/// The result of applying a built-in sub type operator to `val`; the outer
/// `None` stands for an error.
pub open spec fn builtin_apply_spec(t: SubTypeName, val: Option<Json>, operand: Json) -> Option<Option<Json>> {
    match t {
        SubTypeName::NumberAdd => number_add_apply_spec(val, operand),
        SubTypeName::Text => text_apply_spec(val, operand),
        SubTypeName::Custom(_) => None,
    }
}

/// Applies a sub type operator to `val`: the built-in sub types as their
/// functions say, the others through their registered functions.
pub fn sub_type_apply(
    t: &SubType,
    functions: &SubTypeFunctionsHolder,
    val: Option<&Value>,
    operand: &Value,
) -> (r: Result<Option<Value>>)
    ensures
        !(t@ is Custom) ==> match builtin_apply_spec(
            t@,
            match val {
                Some(v) => Some(v@),
                None => None,
            },
            operand@,
        ) {
            Some(res) => r is Ok && match res {
                Some(x) => r->Ok_0 is Some && r->Ok_0->0@ == x,
                None => r->Ok_0 is None,
            },
            None => r matches Err(JsonError::InvalidOperation(_)),
        },
        t@ matches SubTypeName::Custom(name) && !functions.has(name) ==> r matches Err(
            JsonError::InvalidOperation(_),
        ),
        t@ matches SubTypeName::Custom(name) && functions.has(name) ==> exists|f: Box<dyn SubTypeFunctions>|
            #[trigger] f.apply_result(opt_ref_view(val), operand@) == match r {
                Ok(Some(x)) => Some(Some(x@)),
                Ok(None) => Some(None::<Json>),
                Err(_) => None::<Option<Json>>,
            },
{
    match t {
        SubType::NumberAdd => number_add_apply(val, operand),
        SubType::Text => text_apply(val, operand),
        SubType::Custome(name) => match functions.get(name) {
            Some(f) => function_ref_value(&f).apply(val, operand),
            None => Err(invalid_operation("no sub type functions for this sub type")),
        },
    }
}

/// The operands that a built-in sub type operand `new` becomes when `base`
/// happens first; `None` stands for an error.
pub open spec fn builtin_transform_spec(t: SubTypeName, new: Json, base: Json, right: bool) -> Option<Seq<Json>> {
    match t {
        SubTypeName::NumberAdd => Some(seq![new]),
        SubTypeName::Text => text_transform_spec(new, base, right),
        SubTypeName::Custom(_) => None,
    }
}

/// Transforms a sub type operand against another of the same sub type.
pub fn sub_type_transform(
    t: &SubType,
    functions: &SubTypeFunctionsHolder,
    new: &Value,
    base: &Value,
    side: TransformSide,
) -> (r: Result<Vec<Value>>)
    ensures
        !(t@ is Custom) ==> match builtin_transform_spec(t@, new@, base@, side == TransformSide::RIGHT) {
            Some(vs) => r is Ok && values_view(r->Ok_0@) == vs,
            None => r matches Err(JsonError::InvalidOperation(_)),
        },
        t@ matches SubTypeName::Custom(name) && !functions.has(name) ==> r matches Err(
            JsonError::InvalidOperation(_),
        ),
        t@ matches SubTypeName::Custom(name) && functions.has(name) ==> exists|f: Box<dyn SubTypeFunctions>|
            #[trigger] f.transform_result(new@, base@, is_right_side(side)) == match r {
                Ok(vs) => Some(values_view(vs@)),
                Err(_) => None::<Seq<Json>>,
            },
{
    match t {
        SubType::NumberAdd => {
            let mut out: Vec<Value> = Vec::new();
            out.push(new.clone());
            assert(values_view(out@) =~= seq![new@]);
            Ok(out)
        },
        SubType::Text => text_transform(new, base, side),
        SubType::Custome(name) => match functions.get(name) {
            Some(f) => function_ref_value(&f).transform(new, base, side),
            None => Err(invalid_operation("no sub type functions for this sub type")),
        },
    }
}

/// Checks an operand: the built-in sub types as `builtin_operand_valid` says, the
/// others through their registered functions.
pub fn sub_type_validate(t: &SubType, functions: &SubTypeFunctionsHolder, operand: &Value) -> (r: Result<()>)
    ensures
        !(t@ is Custom) ==> (r is Ok <==> builtin_operand_valid(t@, operand@)),
        !(t@ is Custom) ==> (r matches Err(e) ==> e is InvalidOperation),
        t@ matches SubTypeName::Custom(name) && !functions.has(name) ==> r matches Err(
            JsonError::InvalidOperation(_),
        ),
        t@ matches SubTypeName::Custom(name) && functions.has(name) ==> exists|f: Box<dyn SubTypeFunctions>|
            #[trigger] f.operand_valid(operand@) == (r is Ok),
{
    match t {
        SubType::Custome(name) => match functions.get(name) {
            Some(f) => function_ref_value(&f).validate_operand(operand),
            None => Err(invalid_operation("no sub type functions for this sub type")),
        },
        _ => validate_builtin_operand(t, operand),
    }
}

} // verus!
