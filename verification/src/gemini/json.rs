//! JSON as far as the Gemini API needs it: requests as plain trees, and
//! replies as documents that are read by pointer.
use vstd::prelude::*;
use crate::text;

verus! {

// ---------------------------------------------------------------------------
// Requests
// ---------------------------------------------------------------------------

/// A JSON value of a request.
#[derive(Debug)]
pub enum Json {
    Flag(bool),
    Text(String),
    List(Vec<Json>),
    Object(Vec<(String, Json)>),
}

/// A [`Json`] by its characters.
pub enum JsonModel {
    Flag(bool),
    Text(Seq<char>),
    List(Seq<JsonModel>),
    Object(Seq<(Seq<char>, JsonModel)>),
}

impl Json {
    pub open spec fn model(self) -> JsonModel
        decreases self,
    {
        match self {
            Json::Flag(b) => JsonModel::Flag(b),
            Json::Text(s) => JsonModel::Text(s@),
            Json::List(v) => JsonModel::List(
                Seq::new(
                    v@.len(),
                    |i: int|
                        if 0 <= i < v@.len() {
                            v@[i].model()
                        } else {
                            arbitrary()
                        },
                ),
            ),
            Json::Object(v) => JsonModel::Object(
                Seq::new(
                    v@.len(),
                    |i: int|
                        if 0 <= i < v@.len() {
                            (v@[i].0@, v@[i].1.model())
                        } else {
                            arbitrary()
                        },
                ),
            ),
        }
    }
}

impl View for Json {
    type V = JsonModel;

    open spec fn view(&self) -> JsonModel {
        self.model()
    }
}

pub fn flag(b: bool) -> (r: Json)
    ensures
        r@ == JsonModel::Flag(b),
{
    Json::Flag(b)
}

pub fn words(s: &str) -> (r: Json)
    ensures
        r@ == JsonModel::Text(s@),
{
    Json::Text(text::owned(s))
}

/// A list of one value.
pub fn one(v: Json) -> (r: Json)
    ensures
        r@ == JsonModel::List(seq![v@]),
{
    let items = vec![v];
    let r = Json::List(items);
    assert(r@->List_0 =~= seq![v@]);
    r
}

/// An object with nothing in it.
pub fn nothing() -> (r: Json)
    ensures
        r@ == JsonModel::Object(Seq::empty()),
{
    let r = Json::Object(Vec::new());
    assert(r@->Object_0 =~= Seq::empty());
    r
}

/// The object `o` with one more field at its end.
pub fn with(o: Json, key: &str, value: Json) -> (r: Json)
    requires
        o@ is Object,
    ensures
        r@ == JsonModel::Object(o@->Object_0.push((key@, value@))),
{
    let ghost before = o@->Object_0;
    match o {
        Json::Object(fields) => {
            let mut fields = fields;
            fields.push((text::owned(key), value));
            let r = Json::Object(fields);
            assert(r@->Object_0 =~= before.push((key@, value@)));
            r
        },
        other => other,
    }
}

/// An object of one field.
pub fn only(key: &str, value: Json) -> (r: Json)
    ensures
        r@ == JsonModel::Object(seq![(key@, value@)]),
{
    let r = with(nothing(), key, value);
    assert(Seq::<(Seq<char>, JsonModel)>::empty().push((key@, value@)) =~= seq![(key@, value@)]);
    r
}

// ---------------------------------------------------------------------------
// Replies
// ---------------------------------------------------------------------------

/// What a place of a JSON document holds, as far as it is read.
pub enum Node {
    Text(Seq<char>),
    Flag(bool),
    Other,
}

#[verifier::external_type_specification]
#[verifier::external_body]
pub struct ExValue(serde_json::Value);

/// The places of a JSON document, by JSON pointer.
pub uninterp spec fn json_nodes(v: serde_json::Value) -> Map<Seq<char>, Node>;

/// The places of the JSON document that a text holds, if it holds one.
pub uninterp spec fn json_read(s: Seq<char>) -> Option<Map<Seq<char>, Node>>;

/// The text at a place of a document, if there is a text.
pub open spec fn text_node(m: Map<Seq<char>, Node>, p: Seq<char>) -> Option<Seq<char>> {
    if m.contains_key(p) {
        match m[p] {
            Node::Text(t) => Some(t),
            _ => None,
        }
    } else {
        None
    }
}

/// `serde_json::from_str` reads a JSON document from a text, or fails. Which
/// texts it accepts is only named here, and so is what the document holds.
#[verifier::external_body]
pub(crate) fn read_json(s: &str) -> (r: Option<serde_json::Value>)
    ensures
        r is Some <==> json_read(s@) is Some,
        r matches Some(v) ==> json_read(s@) == Some(json_nodes(v)),
{
    serde_json::from_str::<serde_json::Value>(s).ok()
}

/// `serde_json::Value::pointer` finds the value at a JSON pointer, if there is
/// one. Texts and booleans are handed on, other values only as being there.
#[verifier::external_body]
pub(crate) fn node_at(v: &serde_json::Value, pointer: &str) -> (r: Option<Leaf>)
    ensures
        r is Some <==> json_nodes(*v).contains_key(pointer@),
        r matches Some(l) ==> l@ == json_nodes(*v)[pointer@],
{
    match v.pointer(pointer)? {
        serde_json::Value::String(s) => Some(Leaf::Text(s.clone())),
        serde_json::Value::Bool(b) => Some(Leaf::Flag(*b)),
        _ => Some(Leaf::Other),
    }
}

/// What a place of a JSON document holds, as far as it is read.
#[derive(Debug)]
pub enum Leaf {
    Text(String),
    Flag(bool),
    Other,
}

impl View for Leaf {
    type V = Node;

    open spec fn view(&self) -> Node {
        match self {
            Leaf::Text(s) => Node::Text(s@),
            Leaf::Flag(b) => Node::Flag(*b),
            Leaf::Other => Node::Other,
        }
    }
}

/// The text at a pointer, if there is a text.
pub(crate) fn text_at(v: &serde_json::Value, pointer: &str) -> (r: Option<String>)
    ensures
        match r {
            Some(s) => text_node(json_nodes(*v), pointer@) == Some(s@),
            None => text_node(json_nodes(*v), pointer@) is None,
        },
{
    match node_at(v, pointer) {
        Some(Leaf::Text(s)) => Some(s),
        _ => None,
    }
}

} // verus!
