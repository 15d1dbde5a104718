//! JSON values as the library holds them, and their mathematical model.
//!
//! A `Value` is an executable JSON document. Its model `Json` uses
//! sequences for arrays and, for objects, the sequence of entries in their
//! order of insertion. Two documents are equal as JSON (`json_eq`) when they
//! hold the same scalars, arrays of pairwise equal items, and objects whose
//! keys map to equal values, whatever the order of the entries.
use vstd::prelude::*;

verus! {

/// The model of a JSON document.
pub enum Json {
    Null,
    Bool(bool),
    Number(i64),
    Str(Seq<char>),
    Array(Seq<Json>),
    Object(Seq<(Seq<char>, Json)>),
}

/// A JSON document. Numbers are integers; objects keep their entries in order
/// of insertion.
#[derive(Debug)]
pub enum Value {
    Null,
    Bool(bool),
    Number(i64),
    String(String),
    Array(Vec<Value>),
    Object(Vec<(String, Value)>),
}

impl Value {
    pub open spec fn view(&self) -> Json
        decreases self,
    {
        match self {
            Value::Null => Json::Null,
            Value::Bool(b) => Json::Bool(*b),
            Value::Number(n) => Json::Number(*n),
            Value::String(s) => Json::Str(s@),
            Value::Array(a) => Json::Array(
                Seq::new(
                    a.len() as nat,
                    |i: int|
                        if 0 <= i < a.len() {
                            a@[i].view()
                        } else {
                            Json::Null
                        },
                ),
            ),
            Value::Object(o) => Json::Object(
                Seq::new(
                    o.len() as nat,
                    |i: int|
                        if 0 <= i < o.len() {
                            (o@[i].0@, o@[i].1.view())
                        } else {
                            (Seq::empty(), Json::Null)
                        },
                ),
            ),
        }
    }
}

/// The models of a sequence of values.
pub open spec fn values_view(s: Seq<Value>) -> Seq<Json> {
    Seq::new(s.len(), |i: int| s[i]@)
}

/// The models of a sequence of object entries.
pub open spec fn entries_view(s: Seq<(String, Value)>) -> Seq<(Seq<char>, Json)> {
    Seq::new(s.len(), |i: int| (s[i].0@, s[i].1@))
}

/// The model of an array holds the models of its items.
pub proof fn lemma_array_view(a: Vec<Value>)
    ensures
        Value::Array(a)@ == Json::Array(values_view(a@)),
{
    let v = Value::Array(a);
    assert(v@->Array_0 =~= values_view(a@));
}

/// The model of an object holds the models of its entries.
pub proof fn lemma_object_view(o: Vec<(String, Value)>)
    ensures
        Value::Object(o)@ == Json::Object(entries_view(o@)),
{
    let v = Value::Object(o);
    assert(v@->Object_0 =~= entries_view(o@));
}

/// `i` is the first position of an entry with key `k`.
pub open spec fn is_first_key(es: Seq<(Seq<char>, Json)>, k: Seq<char>, i: int) -> bool {
    &&& 0 <= i < es.len()
    &&& es[i].0 == k
    &&& forall|j: int| 0 <= j < i ==> es[j].0 != k
}

/// The position of the first entry with key `k`, or -1.
pub open spec fn key_pos(es: Seq<(Seq<char>, Json)>, k: Seq<char>) -> int {
    if exists|i: int| is_first_key(es, k, i) {
        choose|i: int| is_first_key(es, k, i)
    } else {
        -1
    }
}

/// A first entry with key `k` is where `key_pos` points.
pub proof fn lemma_key_pos_found(es: Seq<(Seq<char>, Json)>, k: Seq<char>, i: int)
    requires
        is_first_key(es, k, i),
    ensures
        key_pos(es, k) == i,
{
    let j = choose|j: int| is_first_key(es, k, j);
    assert(is_first_key(es, k, j));
    if j < i {
        assert(es[j].0 != k);
    }
    if i < j {
        assert(es[i].0 != k);
    }
}

/// Without an entry with key `k`, `key_pos` is -1.
pub proof fn lemma_key_pos_absent(es: Seq<(Seq<char>, Json)>, k: Seq<char>)
    requires
        forall|j: int| 0 <= j < es.len() ==> es[j].0 != k,
    ensures
        key_pos(es, k) == -1,
{
}

/// `key_pos` points at the first entry with its key, or is -1 when there is none.
pub proof fn lemma_key_pos_range(es: Seq<(Seq<char>, Json)>, k: Seq<char>)
    ensures
        -1 <= key_pos(es, k) < es.len(),
        key_pos(es, k) >= 0 ==> is_first_key(es, k, key_pos(es, k)),
        key_pos(es, k) < 0 ==> forall|j: int| 0 <= j < es.len() ==> es[j].0 != k,
{
    if exists|i: int| is_first_key(es, k, i) {
        let i = choose|i: int| is_first_key(es, k, i);
        assert(is_first_key(es, k, i));
    } else {
        assert forall|j: int| 0 <= j < es.len() implies es[j].0 != k by {
            if es[j].0 == k {
                lemma_first_exists(es, k, j);
            }
        }
    }
}

proof fn lemma_first_exists(es: Seq<(Seq<char>, Json)>, k: Seq<char>, j: int)
    requires
        0 <= j < es.len(),
        es[j].0 == k,
    ensures
        exists|i: int| is_first_key(es, k, i),
    decreases j,
{
    if forall|l: int| 0 <= l < j ==> es[l].0 != k {
        assert(is_first_key(es, k, j));
    } else {
        let l = choose|l: int| 0 <= l < j && es[l].0 == k;
        lemma_first_exists(es, k, l);
    }
}

/// The value under key `k` in an object's entries (the first entry with that key).
pub open spec fn entries_get(es: Seq<(Seq<char>, Json)>, k: Seq<char>) -> Option<Json> {
    if key_pos(es, k) >= 0 {
        Some(es[key_pos(es, k)].1)
    } else {
        None
    }
}

/// The entries after setting key `k` to `v`: the first entry with key `k` gets the
/// new value, or a new entry is added at the end.
pub open spec fn entries_insert(es: Seq<(Seq<char>, Json)>, k: Seq<char>, v: Json) -> Seq<(Seq<char>, Json)> {
    if key_pos(es, k) >= 0 {
        es.update(key_pos(es, k), (k, v))
    } else {
        es.push((k, v))
    }
}

/// The entries after removing the first entry with key `k`, if there is one.
pub open spec fn entries_remove(es: Seq<(Seq<char>, Json)>, k: Seq<char>) -> Seq<(Seq<char>, Json)> {
    if key_pos(es, k) >= 0 {
        es.remove(key_pos(es, k))
    } else {
        es
    }
}

/// The member `k` of a JSON document: present only for objects.
pub open spec fn json_member(v: Json, k: Seq<char>) -> Option<Json> {
    match v {
        Json::Object(es) => entries_get(es, k),
        _ => None,
    }
}

/// Equality of JSON documents: objects compare by their keys and values, whatever
/// the order of their entries.
pub open spec fn json_eq(a: Json, b: Json) -> bool
    decreases a, 0nat,
{
    match a {
        Json::Array(xs) => match b {
            Json::Array(ys) => xs.len() == ys.len() && items_eq(xs, ys, xs.len()),
            _ => false,
        },
        Json::Object(xs) => match b {
            Json::Object(ys) => xs.len() == ys.len() && members_eq(xs, ys, xs.len()),
            _ => false,
        },
        _ => a == b,
    }
}

/// The first `n` items of `xs` equal those of `ys`.
pub open spec fn items_eq(xs: Seq<Json>, ys: Seq<Json>, n: nat) -> bool
    decreases xs, n,
{
    if n == 0 || n > xs.len() {
        n == 0
    } else {
        items_eq(xs, ys, (n - 1) as nat) && json_eq(xs[n - 1], ys[n - 1])
    }
}

/// Entry `i` of `xs` has its key in `ys`, with an equal value.
pub open spec fn member_ok(xs: Seq<(Seq<char>, Json)>, ys: Seq<(Seq<char>, Json)>, i: int) -> bool
    decreases xs, i,
{
    &&& 0 <= i < xs.len()
    &&& key_pos(ys, xs[i].0) >= 0
    &&& json_eq(xs[i].1, ys[key_pos(ys, xs[i].0)].1)
}

/// Each of the first `n` entries of `xs` has its key in `ys`, with an equal value.
pub open spec fn members_eq(xs: Seq<(Seq<char>, Json)>, ys: Seq<(Seq<char>, Json)>, n: nat) -> bool
    decreases xs, n,
{
    if n == 0 || n > xs.len() {
        n == 0
    } else {
        &&& members_eq(xs, ys, (n - 1) as nat)
        &&& member_ok(xs, ys, n - 1)
    }
}

/// `items_eq` holds when each of the first `n` items are equal as JSON.
pub proof fn lemma_items_eq(xs: Seq<Json>, ys: Seq<Json>, n: nat)
    requires
        n <= xs.len(),
    ensures
        items_eq(xs, ys, n) <==> forall|i: int| 0 <= i < n ==> #[trigger] json_eq(xs[i], ys[i]),
    decreases n,
{
    if n > 0 {
        lemma_items_eq(xs, ys, (n - 1) as nat);
        assert(items_eq(xs, ys, n) == (items_eq(xs, ys, (n - 1) as nat) && json_eq(xs[n - 1], ys[n - 1])));
    }
}

/// `members_eq` holds when each of the first `n` entries has its match.
pub proof fn lemma_members_eq(xs: Seq<(Seq<char>, Json)>, ys: Seq<(Seq<char>, Json)>, n: nat)
    requires
        n <= xs.len(),
    ensures
        members_eq(xs, ys, n) <==> forall|i: int| 0 <= i < n ==> #[trigger] member_ok(xs, ys, i),
    decreases n,
{
    if n > 0 {
        lemma_members_eq(xs, ys, (n - 1) as nat);
        assert(members_eq(xs, ys, n) == (members_eq(xs, ys, (n - 1) as nat) && member_ok(xs, ys, n - 1)));
    }
}

/// No two entries of the object have the same key.
pub open spec fn keys_distinct(es: Seq<(Seq<char>, Json)>) -> bool {
    forall|i: int, j: int| 0 <= i < j < es.len() ==> es[i].0 != es[j].0
}

/// No object anywhere in the document holds two entries with the same key, as
/// no document read from JSON text or changed by an operation does.
pub open spec fn json_wf(a: Json) -> bool
    decreases a, 0nat,
{
    match a {
        Json::Array(xs) => items_wf(xs, xs.len()),
        Json::Object(es) => keys_distinct(es) && members_wf(es, es.len()),
        _ => true,
    }
}

/// The first `n` items of `xs` are well formed.
pub open spec fn items_wf(xs: Seq<Json>, n: nat) -> bool
    decreases xs, n,
{
    if n == 0 || n > xs.len() {
        n == 0
    } else {
        items_wf(xs, (n - 1) as nat) && json_wf(xs[n - 1])
    }
}

/// The values of the first `n` entries of `es` are well formed.
pub open spec fn members_wf(es: Seq<(Seq<char>, Json)>, n: nat) -> bool
    decreases es, n,
{
    if n == 0 || n > es.len() {
        n == 0
    } else {
        members_wf(es, (n - 1) as nat) && json_wf(es[n - 1].1)
    }
}

/// `items_wf` holds when each of the first `n` items is well formed.
pub proof fn lemma_items_wf(xs: Seq<Json>, n: nat)
    requires
        n <= xs.len(),
    ensures
        items_wf(xs, n) <==> forall|i: int| 0 <= i < n ==> #[trigger] json_wf(xs[i]),
    decreases n,
{
    if n > 0 {
        lemma_items_wf(xs, (n - 1) as nat);
        assert(items_wf(xs, n) == (items_wf(xs, (n - 1) as nat) && json_wf(xs[n - 1])));
    }
}

/// `members_wf` holds when the value of each of the first `n` entries is well
/// formed.
pub proof fn lemma_members_wf(es: Seq<(Seq<char>, Json)>, n: nat)
    requires
        n <= es.len(),
    ensures
        members_wf(es, n) <==> forall|i: int| 0 <= i < n ==> #[trigger] json_wf(es[i].1),
    decreases n,
{
    if n > 0 {
        lemma_members_wf(es, (n - 1) as nat);
        assert(members_wf(es, n) == (members_wf(es, (n - 1) as nat) && json_wf(es[n - 1].1)));
    }
}

/// A well-formed document is equal as JSON to itself.
pub proof fn lemma_json_eq_refl(a: Json)
    requires
        json_wf(a),
    ensures
        json_eq(a, a),
    decreases a,
{
    match a {
        Json::Array(xs) => {
            lemma_items_wf(xs, xs.len());
            assert forall|i: int| 0 <= i < xs.len() implies #[trigger] json_eq(xs[i], xs[i]) by {
                lemma_json_eq_refl(xs[i]);
            }
            lemma_items_eq(xs, xs, xs.len());
        },
        Json::Object(es) => {
            lemma_members_wf(es, es.len());
            assert forall|i: int| 0 <= i < es.len() implies #[trigger] member_ok(es, es, i) by {
                assert(is_first_key(es, es[i].0, i));
                lemma_key_pos_found(es, es[i].0, i);
                lemma_json_eq_refl(es[i].1);
            }
            lemma_members_eq(es, es, es.len());
        },
        _ => {},
    }
}

/// The first position in `es` whose key is `k`.
pub fn find_key(es: &Vec<(String, Value)>, k: &String) -> (r: Option<usize>)
    ensures
        match r {
            Some(i) => key_pos(entries_view(es@), k@) == i as int,
            None => key_pos(entries_view(es@), k@) == -1,
        },
{
    let ghost ev = entries_view(es@);
    let mut i: usize = 0;
    while i < es.len()
        invariant
            i <= es.len(),
            ev == entries_view(es@),
            forall|j: int| 0 <= j < i ==> ev[j].0 != k@,
        decreases es.len() - i,
    {
        if es[i].0 == *k {
            proof {
                assert(is_first_key(ev, k@, i as int));
                lemma_key_pos_found(ev, k@, i as int);
            }
            return Some(i);
        }
        i = i + 1;
    }
    proof {
        lemma_key_pos_absent(ev, k@);
    }
    None
}

impl Value {
    /// The member `key` of an object; `None` for a missing key or another kind of value.
    pub fn get(&self, key: &str) -> (r: Option<&Value>)
        ensures
            match r {
                Some(v) => json_member(self@, key@) == Some(v@),
                None => json_member(self@, key@) is None,
            },
    {
        match self {
            Value::Object(es) => {
                proof {
                    lemma_object_view(*es);
                }
                let k = String::from_str(key);
                match find_key(es, &k) {
                    Some(i) => Some(&es[i].1),
                    None => None,
                }
            },
            _ => None,
        }
    }

    pub fn is_null(&self) -> (r: bool)
        ensures
            r == (self@ is Null),
    {
        match self {
            Value::Null => true,
            _ => false,
        }
    }

    /// The integer held by a number; `None` for any other value.
    pub fn as_i64(&self) -> (r: Option<i64>)
        ensures
            match self@ {
                Json::Number(n) => r == Some(n),
                _ => r is None,
            },
    {
        match self {
            Value::Number(n) => Some(*n),
            _ => None,
        }
    }

    /// The text held by a string; `None` for any other value.
    pub fn as_str(&self) -> (r: Option<&str>)
        ensures
            match self@ {
                Json::Str(s) => r is Some && r->0@ == s,
                _ => r is None,
            },
    {
        match self {
            Value::String(s) => Some(s.as_str()),
            _ => None,
        }
    }

    /// Whether two documents are equal as JSON.
    pub fn json_equals(&self, other: &Value) -> (r: bool)
        ensures
            r == json_eq(self@, other@),
        decreases self,
    {
        match self {
            Value::Null => match other {
                Value::Null => {
                    assert(json_eq(self@, other@));
                    true
                },
                _ => {
                    assert(!json_eq(self@, other@));
                    false
                },
            },
            Value::Bool(a) => match other {
                Value::Bool(b) => {
                    let r = *a == *b;
                    assert(r == json_eq(self@, other@));
                    r
                },
                _ => {
                    assert(!json_eq(self@, other@));
                    false
                },
            },
            Value::Number(a) => match other {
                Value::Number(b) => {
                    let r = *a == *b;
                    assert(r == json_eq(self@, other@));
                    r
                },
                _ => {
                    assert(!json_eq(self@, other@));
                    false
                },
            },
            Value::String(a) => match other {
                Value::String(b) => {
                    let r = a.eq(b);
                    assert(r == json_eq(self@, other@));
                    r
                },
                _ => {
                    assert(!json_eq(self@, other@));
                    false
                },
            },
            Value::Array(xs) => {
                proof {
                    lemma_array_view(*xs);
                }
                match other {
                Value::Array(ys) => {
                    proof {
                        lemma_array_view(*ys);
                    }
                    if xs.len() != ys.len() {
                        return false;
                    }
                    let ghost xv = values_view(xs@);
                    let ghost yv = values_view(ys@);
                    let mut i: usize = 0;
                    while i < xs.len()
                        invariant
                            i <= xs.len(),
                            xs.len() == ys.len(),
                            *self == Value::Array(*xs),
                            *other == Value::Array(*ys),
                            xv == values_view(xs@),
                            yv == values_view(ys@),
                            self@ == Json::Array(xv),
                            other@ == Json::Array(yv),
                            forall|j: int| 0 <= j < i ==> #[trigger] json_eq(xv[j], yv[j]),
                        decreases xs.len() - i,
                    {
                        proof {
                            assert(decreases_to!(*self => self->Array_0@[i as int]));
                        }
                        if !xs[i].json_equals(&ys[i]) {
                            assert(!json_eq(xv[i as int], yv[i as int]));
                            proof {
                                lemma_items_eq(xv, yv, xv.len());
                                assert(json_eq(self@, other@) == (xv.len() == yv.len() && items_eq(xv, yv, xv.len())));
                            }
                            return false;
                        }
                        i = i + 1;
                    }
                    proof {
                        lemma_items_eq(xv, yv, xv.len());
                        assert(json_eq(self@, other@) == (xv.len() == yv.len() && items_eq(xv, yv, xv.len())));
                    }
                    assert(json_eq(self@, other@));
                    true
                },
                _ => {
                    assert(!json_eq(self@, other@));
                    false
                },
            }
            },
            Value::Object(xs) => {
                proof {
                    lemma_object_view(*xs);
                }
                match other {
                Value::Object(ys) => {
                    proof {
                        lemma_object_view(*ys);
                    }
                    if xs.len() != ys.len() {
                        return false;
                    }
                    let ghost xv = entries_view(xs@);
                    let ghost yv = entries_view(ys@);
                    let mut i: usize = 0;
                    while i < xs.len()
                        invariant
                            i <= xs.len(),
                            xs.len() == ys.len(),
                            *self == Value::Object(*xs),
                            *other == Value::Object(*ys),
                            xv == entries_view(xs@),
                            yv == entries_view(ys@),
                            self@ == Json::Object(xv),
                            other@ == Json::Object(yv),
                            forall|j: int| 0 <= j < i ==> #[trigger] member_ok(xv, yv, j),
                        decreases xs.len() - i,
                    {
                        match find_key(ys, &xs[i].0) {
                            None => {
                                proof {
                                    lemma_members_eq(xv, yv, xv.len());
                                    assert(!member_ok(xv, yv, i as int));
                                    assert(json_eq(self@, other@) == (xv.len() == yv.len() && members_eq(xv, yv, xv.len())));
                                }
                                return false;
                            },
                            Some(k) => {
                                proof {
                                    lemma_key_pos_range(yv, xv[i as int].0);
                                    assert(decreases_to!(*self => self->Object_0@[i as int].1));
                                }
                                if !xs[i].1.json_equals(&ys[k].1) {
                                    proof {
                                        lemma_members_eq(xv, yv, xv.len());
                                        assert(!member_ok(xv, yv, i as int));
                                        assert(json_eq(self@, other@) == (xv.len() == yv.len() && members_eq(xv, yv, xv.len())));
                                    }
                                    return false;
                                }
                            },
                        }
                        assert(member_ok(xv, yv, i as int));
                        i = i + 1;
                    }
                    proof {
                        lemma_members_eq(xv, yv, xv.len());
                        assert(json_eq(self@, other@) == (xv.len() == yv.len() && members_eq(xv, yv, xv.len())));
                    }
                    assert(json_eq(self@, other@));
                    true
                },
                _ => {
                    assert(!json_eq(self@, other@));
                    false
                },
            }
            },
        }
    }

    /// A copy of the document.
    pub fn copy(&self) -> (r: Value)
        ensures
            r@ == self@,
        decreases self,
    {
        match self {
            Value::Null => Value::Null,
            Value::Bool(b) => Value::Bool(*b),
            Value::Number(n) => Value::Number(*n),
            Value::String(s) => Value::String(s.clone()),
            Value::Array(a) => {
                let mut out: Vec<Value> = Vec::new();
                let mut i: usize = 0;
                while i < a.len()
                    invariant
                        i <= a.len(),
                        out.len() == i,
                        *self == Value::Array(*a),
                        forall|j: int| 0 <= j < i ==> #[trigger] out@[j]@ == a@[j]@,
                    decreases a.len() - i,
                {
                    proof {
                        assert(decreases_to!(*self => self->Array_0@[i as int]));
                    }
                    let c = a[i].copy();
                    out.push(c);
                    i = i + 1;
                }
                proof {
                    lemma_array_view(out);
                    lemma_array_view(*a);
                    assert(values_view(out@) =~= values_view(a@));
                }
                Value::Array(out)
            },
            Value::Object(o) => {
                let mut out: Vec<(String, Value)> = Vec::new();
                let mut i: usize = 0;
                while i < o.len()
                    invariant
                        i <= o.len(),
                        out.len() == i,
                        *self == Value::Object(*o),
                        forall|j: int|
                            0 <= j < i ==> #[trigger] out@[j].1@ == o@[j].1@ && out@[j].0@ == o@[j].0@,
                    decreases o.len() - i,
                {
                    proof {
                        assert(decreases_to!(*self => self->Object_0@[i as int].1));
                    }
                    let k = o[i].0.clone();
                    let c = o[i].1.copy();
                    out.push((k, c));
                    i = i + 1;
                }
                proof {
                    lemma_object_view(out);
                    lemma_object_view(*o);
                    assert(entries_view(out@) =~= entries_view(o@));
                }
                Value::Object(out)
            },
        }
    }
}

impl Clone for Value {
    fn clone(&self) -> (r: Self)
        ensures
            r@ == self@,
    {
        self.copy()
    }
}

impl PartialEq for Value {
    fn eq(&self, other: &Self) -> (r: bool) {
        self.json_equals(other)
    }
}

impl vstd::std_specs::cmp::PartialEqSpecImpl for Value {
    open spec fn obeys_eq_spec() -> bool {
        true
    }

    open spec fn eq_spec(&self, other: &Value) -> bool {
        json_eq(self@, other@)
    }
}

/// Sets key `k` of the entries to `v`, as `entries_insert` says.
pub fn entries_set(es: &mut Vec<(String, Value)>, k: String, v: Value)
    ensures
        entries_view(final(es)@) == entries_insert(entries_view(old(es)@), k@, v@),
{
    let ghost kv = k@;
    let ghost vv = v@;
    match find_key(es, &k) {
        Some(i) => {
            es.set(i, (k, v));
            assert(entries_view(es@) =~= entries_view(old(es)@).update(i as int, (kv, vv)));
        },
        None => {
            es.push((k, v));
            assert(entries_view(es@) =~= entries_view(old(es)@).push((kv, vv)));
        },
    }
}

/// Removes the first entry with key `k`, as `entries_remove` says.
pub fn entries_delete(es: &mut Vec<(String, Value)>, k: &String)
    ensures
        entries_view(final(es)@) == entries_remove(entries_view(old(es)@), k@),
{
    match find_key(es, k) {
        Some(i) => {
            es.remove(i);
            assert(entries_view(es@) =~= entries_view(old(es)@).remove(i as int));
        },
        None => {},
    }
}

/// Lookups in an object of two entries with different keys.
pub proof fn lemma_two_entries(k1: Seq<char>, v1: Json, k2: Seq<char>, v2: Json)
    requires
        k1 != k2,
    ensures
        entries_get(seq![(k1, v1), (k2, v2)], k1) == Some(v1),
        entries_get(seq![(k1, v1), (k2, v2)], k2) == Some(v2),
{
    let es = seq![(k1, v1), (k2, v2)];
    assert(is_first_key(es, k1, 0));
    lemma_key_pos_found(es, k1, 0);
    assert(is_first_key(es, k2, 1));
    lemma_key_pos_found(es, k2, 1);
}

/// A lookup of a key that no entry of two has.
pub proof fn lemma_two_entries_absent(k1: Seq<char>, v1: Json, k2: Seq<char>, v2: Json, k: Seq<char>)
    requires
        k != k1,
        k != k2,
    ensures
        entries_get(seq![(k1, v1), (k2, v2)], k) is None,
{
    lemma_key_pos_absent(seq![(k1, v1), (k2, v2)], k);
}

/// A copy of an array's items.
pub fn copy_values(a: &Vec<Value>) -> (r: Vec<Value>)
    ensures
        values_view(r@) == values_view(a@),
{
    let mut out: Vec<Value> = Vec::new();
    let mut i: usize = 0;
    while i < a.len()
        invariant
            i <= a.len(),
            out.len() == i,
            forall|j: int| 0 <= j < i ==> #[trigger] out@[j]@ == a@[j]@,
        decreases a.len() - i,
    {
        out.push(a[i].copy());
        i = i + 1;
    }
    assert(values_view(out@) =~= values_view(a@));
    out
}

/// A copy of an object's entries.
pub fn copy_entries(o: &Vec<(String, Value)>) -> (r: Vec<(String, Value)>)
    ensures
        entries_view(r@) == entries_view(o@),
{
    let mut out: Vec<(String, Value)> = Vec::new();
    let mut i: usize = 0;
    while i < o.len()
        invariant
            i <= o.len(),
            out.len() == i,
            forall|j: int| 0 <= j < i ==> #[trigger] out@[j].1@ == o@[j].1@ && out@[j].0@ == o@[j].0@,
        decreases o.len() - i,
    {
        out.push((o[i].0.clone(), o[i].1.copy()));
        i = i + 1;
    }
    assert(entries_view(out@) =~= entries_view(o@));
    out
}

} // verus!
