//! JSON values, as the configuration stores them.

use crate::data::Duplicate;
use crate::text::{joined, same_text};
use vstd::prelude::*;

verus! {

/// A number, by the text that JSON writes it with.
#[derive(Debug, PartialEq, Eq)]
pub struct Number {
    pub text: String,
}

/// A JSON value. The entries of an object stand in the order in which it is
/// walked and written.
#[derive(Debug, PartialEq, Eq)]
pub enum Json {
    Null,
    Bool(bool),
    Number(Number),
    String(String),
    Array(Vec<Json>),
    Object(Vec<(String, Json)>),
}

/// A [`Json`] as contracts speak of it.
pub enum ValueView {
    Null,
    Bool(bool),
    Number(Seq<char>),
    String(Seq<char>),
    Array(Seq<ValueView>),
    Object(Seq<(Seq<char>, ValueView)>),
}

impl DeepView for Number {
    type V = Seq<char>;

    open spec fn deep_view(&self) -> Seq<char> {
        self.text@
    }
}

impl DeepView for Json {
    type V = ValueView;

    open spec fn deep_view(&self) -> ValueView {
        value_view(*self)
    }
}

/// What a [`Json`] means.
pub open spec fn value_view(v: Json) -> ValueView
    decreases v,
{
    match v {
        Json::Null => ValueView::Null,
        Json::Bool(b) => ValueView::Bool(b),
        Json::Number(n) => ValueView::Number(n.text@),
        Json::String(s) => ValueView::String(s@),
        Json::Array(a) => ValueView::Array(
            Seq::new(
                a@.len(),
                |i: int| if 0 <= i < a@.len() { value_view(a@[i]) } else { ValueView::Null },
            ),
        ),
        Json::Object(o) => ValueView::Object(
            Seq::new(
                o@.len(),
                |i: int|
                    if 0 <= i < o@.len() {
                        (o@[i].0@, value_view(o@[i].1))
                    } else {
                        (seq![], ValueView::Null)
                    },
            ),
        ),
    }
}

impl Duplicate for Number {
    fn duplicate(&self) -> (r: Self) {
        Number { text: self.text.clone() }
    }
}

impl Duplicate for Json {
    fn duplicate(&self) -> (r: Self) {
        copy_value(self)
    }
}

impl Clone for Json {
    fn clone(&self) -> (r: Self)
        ensures
            r.deep_view() == self.deep_view(),
    {
        copy_value(self)
    }
}

fn copy_value(v: &Json) -> (r: Json)
    ensures
        r.deep_view() == v.deep_view(),
    decreases v,
{
    match v {
        Json::Null => Json::Null,
        Json::Bool(b) => Json::Bool(*b),
        Json::Number(n) => Json::Number(n.duplicate()),
        Json::String(s) => Json::String(s.clone()),
        Json::Array(a) => {
            let mut out: Vec<Json> = Vec::new();
            let mut i: usize = 0;
            while i < a.len()
                invariant
                    v matches Json::Array(x) && x == *a,
                    i <= a@.len(),
                    out@.len() == i,
                    forall|j: int| 0 <= j < i ==> value_view(#[trigger] out@[j]) == value_view(a@[j]),
                decreases a@.len() - i,
            {
                out.push(copy_value(&a[i]));
                i += 1;
            }
            let r = Json::Array(out);
            assert(value_view(r)->Array_0 =~= value_view(*v)->Array_0);
            r
        },
        Json::Object(o) => {
            let mut out: Vec<(String, Json)> = Vec::new();
            let mut i: usize = 0;
            while i < o.len()
                invariant
                    v matches Json::Object(x) && x == *o,
                    i <= o@.len(),
                    out@.len() == i,
                    forall|j: int|
                        0 <= j < i ==> (#[trigger] out@[j]).0@ == o@[j].0@ && value_view(out@[j].1)
                            == value_view(o@[j].1),
                decreases o@.len() - i,
            {
                out.push((o[i].0.clone(), copy_value(&o[i].1)));
                i += 1;
            }
            let r = Json::Object(out);
            assert(value_view(r)->Object_0 =~= value_view(*v)->Object_0);
            r
        },
    }
}

/// True where the two values mean the same.
pub fn same_value(a: &Json, b: &Json) -> (r: bool)
    ensures
        r == (a.deep_view() == b.deep_view()),
    decreases a,
{
    match (a, b) {
        (Json::Null, Json::Null) => true,
        (Json::Bool(x), Json::Bool(y)) => *x == *y,
        (Json::Number(x), Json::Number(y)) => same_text(x.text.as_str(), y.text.as_str()),
        (Json::String(x), Json::String(y)) => same_text(x.as_str(), y.as_str()),
        (Json::Array(x), Json::Array(y)) => {
            if x.len() != y.len() {
                assert(value_view(*a)->Array_0.len() != value_view(*b)->Array_0.len());
                return false;
            }
            let mut i: usize = 0;
            while i < x.len()
                invariant
                    *a == Json::Array(*x),
                    *b == Json::Array(*y),
                    i <= x@.len() == y@.len(),
                    forall|j: int| 0 <= j < i ==> value_view(#[trigger] x@[j]) == value_view(y@[j]),
                decreases x@.len() - i,
            {
                if !same_value(&x[i], &y[i]) {
                    assert(value_view(*a)->Array_0[i as int] != value_view(*b)->Array_0[i as int]);
                    return false;
                }
                i += 1;
            }
            assert(value_view(*a)->Array_0 =~= value_view(*b)->Array_0);
            true
        },
        (Json::Object(x), Json::Object(y)) => {
            if x.len() != y.len() {
                assert(value_view(*a)->Object_0.len() != value_view(*b)->Object_0.len());
                return false;
            }
            let mut i: usize = 0;
            while i < x.len()
                invariant
                    *a == Json::Object(*x),
                    *b == Json::Object(*y),
                    i <= x@.len() == y@.len(),
                    forall|j: int|
                        0 <= j < i ==> (#[trigger] x@[j]).0@ == y@[j].0@ && value_view(x@[j].1)
                            == value_view(y@[j].1),
                decreases x@.len() - i,
            {
                if !same_text(x[i].0.as_str(), y[i].0.as_str()) || !same_value(&x[i].1, &y[i].1) {
                    assert(value_view(*a)->Object_0[i as int] != value_view(*b)->Object_0[i as int]);
                    return false;
                }
                i += 1;
            }
            assert(value_view(*a)->Object_0 =~= value_view(*b)->Object_0);
            true
        },
        _ => false,
    }
}

// ---- Reading JSON ----------------------------------------------------------

/// `serde_json::Value`, a JSON value.
#[verifier::external_type_specification]
#[verifier::external_body]
pub struct ExJsonValue(serde_json::Value);

/// What a `serde_json::Value` holds.
pub uninterp spec fn json_tree(v: serde_json::Value) -> ValueView;

/// What `serde_json::from_slice` reads to a `serde_json::Value`, if it can.
pub uninterp spec fn json_parsed(bytes: Seq<u8>) -> Option<ValueView>;

/// A `serde_json::Value` with its outermost layer told apart.
enum JsonNode {
    Null,
    Bool(bool),
    Number(String),
    String(String),
    Array(Vec<serde_json::Value>),
    Object(Vec<(String, serde_json::Value)>),
}

impl JsonNode {
    /// What the node holds.
    spec fn tree(self) -> ValueView {
        match self {
            JsonNode::Null => ValueView::Null,
            JsonNode::Bool(b) => ValueView::Bool(b),
            JsonNode::Number(n) => ValueView::Number(n@),
            JsonNode::String(s) => ValueView::String(s@),
            JsonNode::Array(a) => ValueView::Array(
                a@.map_values(|v: serde_json::Value| json_tree(v)),
            ),
            JsonNode::Object(o) => ValueView::Object(
                o@.map_values(|e: (String, serde_json::Value)| (e.0@, json_tree(e.1))),
            ),
        }
    }
}

/// `serde_json::Value`'s variants told apart: the node holds what the value held, a
/// number by its text, and an object by its entries in the order of its iterator.
#[verifier::external_body]
fn json_open(v: serde_json::Value) -> (r: JsonNode)
    ensures
        r.tree() == json_tree(v),
{
    match v {
        serde_json::Value::Null => JsonNode::Null,
        serde_json::Value::Bool(b) => JsonNode::Bool(b),
        serde_json::Value::Number(n) => JsonNode::Number(n.to_string()),
        serde_json::Value::String(s) => JsonNode::String(s),
        serde_json::Value::Array(a) => JsonNode::Array(a),
        serde_json::Value::Object(o) => JsonNode::Object(o.into_iter().collect()),
    }
}

/// `serde_json::from_slice` to a `serde_json::Value`; its result goes by the name
/// [`json_parsed`].
#[verifier::external_body]
fn json_parse(bytes: &[u8]) -> (r: Option<serde_json::Value>)
    ensures
        match r {
            Some(v) => json_parsed(bytes@) == Some(json_tree(v)),
            None => json_parsed(bytes@) is None,
        },
{
    serde_json::from_slice(bytes).ok()
}

fn json_from(v: serde_json::Value) -> (r: Json)
    ensures
        r.deep_view() == json_tree(v),
    decreases json_tree(v),
{
    let ghost t = json_tree(v);
    match json_open(v) {
        JsonNode::Null => Json::Null,
        JsonNode::Bool(b) => Json::Bool(b),
        JsonNode::Number(text) => Json::Number(Number { text }),
        JsonNode::String(s) => Json::String(s),
        JsonNode::Array(a) => {
            let mut rest = a;
            let ghost items = t->Array_0;
            let mut out: Vec<Json> = Vec::new();
            let ghost mut done: int = 0;
            while rest.len() > 0
                invariant
                    t == ValueView::Array(items),
                    t == json_tree(v),
                    0 <= done <= items.len(),
                    rest@.len() == items.len() - done,
                    forall|j: int|
                        0 <= j < rest@.len() ==> json_tree(#[trigger] rest@[j]) == items[done + j],
                    out@.len() == done,
                    forall|j: int| 0 <= j < done ==> value_view(#[trigger] out@[j]) == items[j],
                decreases rest@.len(),
            {
                let ghost before = rest@;
                let x = rest.remove(0);
                assert(before[0] == x);
                assert(json_tree(x) == items[done]);
                assert(decreases_to!(t => t->Array_0));
                assert(decreases_to!(items => items[done]));
                out.push(json_from(x));
                proof {
                    assert forall|j: int| 0 <= j < rest@.len() implies json_tree(
                        #[trigger] rest@[j],
                    ) == items[done + 1 + j] by {
                        assert(rest@[j] == before[j + 1]);
                    }
                    done = done + 1;
                }
            }
            let r = Json::Array(out);
            assert(value_view(r)->Array_0 =~= items);
            r
        },
        JsonNode::Object(o) => {
            let mut rest = o;
            let ghost items = t->Object_0;
            let mut out: Vec<(String, Json)> = Vec::new();
            let ghost mut done: int = 0;
            while rest.len() > 0
                invariant
                    t == ValueView::Object(items),
                    t == json_tree(v),
                    0 <= done <= items.len(),
                    rest@.len() == items.len() - done,
                    forall|j: int|
                        0 <= j < rest@.len() ==> (#[trigger] rest@[j]).0@ == items[done + j].0
                            && json_tree(rest@[j].1) == items[done + j].1,
                    out@.len() == done,
                    forall|j: int|
                        0 <= j < done ==> (#[trigger] out@[j]).0@ == items[j].0 && value_view(
                            out@[j].1,
                        ) == items[j].1,
                decreases rest@.len(),
            {
                let ghost before = rest@;
                let (key, x) = rest.remove(0);
                assert(before[0] == (key, x));
                assert(json_tree(x) == items[done].1);
                assert(decreases_to!(t => t->Object_0));
                assert(decreases_to!(items => items[done]));
                assert(decreases_to!(items[done] => items[done].1));
                out.push((key, json_from(x)));
                proof {
                    assert forall|j: int| 0 <= j < rest@.len() implies (#[trigger] rest@[j]).0@
                        == items[done + 1 + j].0 && json_tree(rest@[j].1) == items[done + 1 + j].1 by {
                        assert(rest@[j] == before[j + 1]);
                    }
                    done = done + 1;
                }
            }
            let r = Json::Object(out);
            assert(value_view(r)->Object_0 =~= items);
            r
        },
    }
}

/// Reads a JSON text; nothing where it is none.
pub fn parse_json(bytes: &[u8]) -> (r: Option<Json>)
    ensures
        r.deep_view() == json_parsed(bytes@),
{
    match json_parse(bytes) {
        Some(v) => Some(json_from(v)),
        None => None,
    }
}

// ---- JSON text -------------------------------------------------------------

/// A JSON string literal, as `serde_json` writes it: quoted and escaped.
pub uninterp spec fn json_quoted(s: Seq<char>) -> Seq<char>;

/// `serde_json::Value::to_string` on a string: its JSON literal.
#[verifier::external_body]
fn json_quote(s: &str) -> (r: String)
    ensures
        r@ == json_quoted(s@),
{
    serde_json::Value::String(s.to_owned()).to_string()
}

/// The compact JSON text of a value.
pub open spec fn json_text(v: ValueView) -> Seq<char>
    decreases v,
{
    match v {
        ValueView::Null => "null"@,
        ValueView::Bool(b) => bool_text(b),
        ValueView::Number(n) => n,
        ValueView::String(s) => json_quoted(s),
        ValueView::Array(a) => "["@ + joined(json_items(a), ","@) + "]"@,
        ValueView::Object(o) => "{"@ + joined(json_members(o), ","@) + "}"@,
    }
}

/// The JSON texts of the items of an array.
pub open spec fn json_items(a: Seq<ValueView>) -> Seq<Seq<char>>
    decreases a,
{
    if a.len() == 0 {
        seq![]
    } else {
        json_items(a.drop_last()).push(json_text(a.last()))
    }
}

/// The JSON texts of the members of an object.
pub open spec fn json_members(o: Seq<(Seq<char>, ValueView)>) -> Seq<Seq<char>>
    decreases o,
{
    if o.len() == 0 {
        seq![]
    } else {
        json_members(o.drop_last()).push(json_quoted(o.last().0) + ":"@ + json_text(o.last().1))
    }
}

/// `true` or `false`.
pub open spec fn bool_text(b: bool) -> Seq<char> {
    if b {
        "true"@
    } else {
        "false"@
    }
}

/// `true` or `false`.
pub fn bool_to_text(b: bool) -> (s: &'static str)
    ensures
        s@ == bool_text(b),
{
    if b {
        "true"
    } else {
        "false"
    }
}

/// The compact JSON text of a value.
pub fn to_json(v: &Json) -> (r: String)
    ensures
        r@ == json_text(v.deep_view()),
    decreases v,
{
    match v {
        Json::Null => "null".to_owned(),
        Json::Bool(b) => bool_to_text(*b).to_owned(),
        Json::Number(n) => n.text.clone(),
        Json::String(s) => json_quote(s.as_str()),
        Json::Array(a) => {
            let mut parts: Vec<String> = Vec::new();
            let mut i: usize = 0;
            let ghost w = value_view(*v)->Array_0;
            assert(parts.deep_view() =~= json_items(w.take(0)));
            while i < a.len()
                invariant
                    v matches Json::Array(x) && x == *a,
                    i <= a@.len(),
                    w == value_view(*v)->Array_0,
                    parts.deep_view() == json_items(w.take(i as int)),
                decreases a@.len() - i,
            {
                let ghost before = parts.deep_view();
                parts.push(to_json(&a[i]));
                proof {
                    assert(w.take(i + 1).drop_last() =~= w.take(i as int));
                    assert(parts.deep_view() =~= before.push(json_text(w[i as int])));
                }
                i += 1;
            }
            let mut r = String::new();
            r.append("[");
            r.append(crate::text::join(&parts, ",").as_str());
            r.append("]");
            proof {
                assert(w.take(w.len() as int) =~= w);
                assert(r@ =~= json_text(value_view(*v)));
            }
            r
        },
        Json::Object(o) => {
            let mut parts: Vec<String> = Vec::new();
            let mut i: usize = 0;
            let ghost w = value_view(*v)->Object_0;
            assert(parts.deep_view() =~= json_members(w.take(0)));
            while i < o.len()
                invariant
                    v matches Json::Object(x) && x == *o,
                    i <= o@.len(),
                    w == value_view(*v)->Object_0,
                    parts.deep_view() == json_members(w.take(i as int)),
                decreases o@.len() - i,
            {
                let ghost before = parts.deep_view();
                let mut part = json_quote(o[i].0.as_str());
                part.append(":");
                part.append(to_json(&o[i].1).as_str());
                parts.push(part);
                proof {
                    assert(w.take(i + 1).drop_last() =~= w.take(i as int));
                    assert(parts.deep_view() =~= before.push(
                        json_quoted(w[i as int].0) + ":"@ + json_text(w[i as int].1),
                    ));
                }
                i += 1;
            }
            let mut r = String::new();
            r.append("{");
            r.append(crate::text::join(&parts, ",").as_str());
            r.append("}");
            proof {
                assert(w.take(w.len() as int) =~= w);
                assert(r@ =~= json_text(value_view(*v)));
            }
            r
        },
    }
}

/// The plain text of a stored value: a string as it is, nothing for `null`, and
/// the JSON text of anything else.
pub open spec fn plain_text(v: ValueView) -> Seq<char> {
    match v {
        ValueView::String(s) => s,
        ValueView::Null => seq![],
        other => json_text(other),
    }
}

/// The plain text of a stored value.
pub fn value_to_string(v: &Json) -> (r: String)
    ensures
        r@ == plain_text(v.deep_view()),
{
    match v {
        Json::String(s) => s.clone(),
        Json::Null => String::new(),
        other => to_json(other),
    }
}

} // verus!
