//! JSON documents.
use vstd::prelude::*;
use crate::text::same;

verus! {

broadcast use vstd::string::group_string_axioms;

/// A JSON value. Of a number only its value as an unsigned whole number is
/// kept, where it has one.
#[derive(Debug)]
pub enum Json {
    Null,
    Bool(bool),
    Number(Option<u64>),
    Text(String),
    Array(Vec<Json>),
    Object(Vec<(String, Json)>),
}

/// What a JSON value holds.
#[verifier::ext_equal]
pub enum JsonTree {
    Null,
    Bool(bool),
    Number(Option<u64>),
    Text(Seq<char>),
    Array(Seq<JsonTree>),
    Object(Seq<(Seq<char>, JsonTree)>),
}

impl Json {
    /// What the value holds.
    pub open spec fn tree(self) -> JsonTree
        decreases self,
    {
        match self {
            Json::Null => JsonTree::Null,
            Json::Bool(b) => JsonTree::Bool(b),
            Json::Number(n) => JsonTree::Number(n),
            Json::Text(s) => JsonTree::Text(s@),
            Json::Array(items) => JsonTree::Array(
                Seq::new(
                    items@.len(),
                    |i: int|
                        if 0 <= i < items@.len() {
                            items@[i].tree()
                        } else {
                            JsonTree::Null
                        },
                ),
            ),
            Json::Object(fields) => JsonTree::Object(
                Seq::new(
                    fields@.len(),
                    |i: int|
                        if 0 <= i < fields@.len() {
                            (fields@[i].0@, fields@[i].1.tree())
                        } else {
                            (Seq::empty(), JsonTree::Null)
                        },
                ),
            ),
        }
    }
}


// ---------------------------------------------------------------------------
// Trusted: reading JSON
// ---------------------------------------------------------------------------

/// `serde_json::Value`, a parsed JSON value.
#[verifier::external_type_specification]
#[verifier::external_body]
pub struct ExValue(serde_json::Value);

/// What a parsed value holds.
pub uninterp spec fn value_tree(v: serde_json::Value) -> JsonTree;

/// What a text holds as JSON, or the parser's message where it is none.
pub uninterp spec fn json_text(text: Seq<char>) -> Result<JsonTree, Seq<char>>;

/// One level of a parsed value.
pub enum Layer {
    Null,
    Bool(bool),
    Number(Option<u64>),
    Text(String),
    Array(Vec<serde_json::Value>),
    Object(Vec<(String, serde_json::Value)>),
}

impl Layer {
    /// What the value of this level holds.
    pub open spec fn tree(self) -> JsonTree {
        match self {
            Layer::Null => JsonTree::Null,
            Layer::Bool(b) => JsonTree::Bool(b),
            Layer::Number(n) => JsonTree::Number(n),
            Layer::Text(s) => JsonTree::Text(s@),
            Layer::Array(items) => JsonTree::Array(
                Seq::new(items@.len(), |i: int| value_tree(items@[i])),
            ),
            Layer::Object(fields) => JsonTree::Object(
                Seq::new(fields@.len(), |i: int| (fields@[i].0@, value_tree(fields@[i].1))),
            ),
        }
    }
}

/// `serde_json::from_str`: the value that a text holds, or the parser's message.
#[verifier::external_body]
fn parse_value(text: &str) -> (r: Result<serde_json::Value, String>)
    ensures
        match r {
            Ok(v) => json_text(text@) == Ok::<JsonTree, Seq<char>>(value_tree(v)),
            Err(e) => json_text(text@) == Err::<JsonTree, Seq<char>>(e@),
        },
{
    serde_json::from_str(text).map_err(|err: serde_json::Error| err.to_string())
}

/// The variant of a `serde_json::Value` with what it holds; of a number, what
/// `serde_json::Number::as_u64` gives.
#[verifier::external_body]
fn open_value(v: serde_json::Value) -> (r: Layer)
    ensures
        value_tree(v) == r.tree(),
{
    match v {
        serde_json::Value::Null => Layer::Null,
        serde_json::Value::Bool(b) => Layer::Bool(b),
        serde_json::Value::Number(n) => Layer::Number(n.as_u64()),
        serde_json::Value::String(s) => Layer::Text(s),
        serde_json::Value::Array(items) => Layer::Array(items),
        serde_json::Value::Object(fields) => Layer::Object(fields.into_iter().collect()),
    }
}

/// The parsed value as a value of this library.
fn from_value(v: serde_json::Value) -> (r: Json)
    ensures
        r.tree() == value_tree(v),
    decreases value_tree(v),
{
    match open_value(v) {
        Layer::Null => Json::Null,
        Layer::Bool(b) => Json::Bool(b),
        Layer::Number(n) => Json::Number(n),
        Layer::Text(s) => Json::Text(s),
        Layer::Array(items) => {
            let ghost all = items@;
            let ghost trees = value_tree(v)->Array_0;
            let mut out: Vec<Json> = Vec::new();
            for item in it: items
                invariant
                    it.seq() == all,
                    value_tree(v) == JsonTree::Array(trees),
                    trees == Seq::new(all.len(), |i: int| value_tree(all[i])),
                    out@.len() == it.index(),
                    forall|i: int|
                        0 <= i < it.index() ==> (#[trigger] out@[i]).tree() == value_tree(all[i]),
            {
                assert(trees[it.index() as int] == value_tree(item));
                assert(decreases_to!(value_tree(v) => value_tree(v)->Array_0));
                assert(decreases_to!(trees => trees[it.index() as int]));
                out.push(from_value(item));
            }
            let r = Json::Array(out);
            assert(r.tree()->Array_0 =~= trees);
            r
        },
        Layer::Object(fields) => {
            let ghost all = fields@;
            let ghost trees = value_tree(v)->Object_0;
            let mut out: Vec<(String, Json)> = Vec::new();
            for field in it: fields
                invariant
                    it.seq() == all,
                    value_tree(v) == JsonTree::Object(trees),
                    trees == Seq::new(all.len(), |i: int| (all[i].0@, value_tree(all[i].1))),
                    out@.len() == it.index(),
                    forall|i: int|
                        0 <= i < it.index() ==> (#[trigger] out@[i]).0@ == all[i].0@
                            && out@[i].1.tree() == value_tree(all[i].1),
            {
                assert(trees[it.index() as int].1 == value_tree(field.1));
                assert(decreases_to!(value_tree(v) => value_tree(v)->Object_0));
                assert(decreases_to!(trees => trees[it.index() as int]));
                assert(decreases_to!(trees[it.index() as int] => trees[it.index() as int].1));
                out.push((field.0, from_value(field.1)));
            }
            let r = Json::Object(out);
            assert(r.tree()->Object_0 =~= trees);
            r
        },
    }
}

/// The value that a text holds, or the parser's message where it holds none.
pub fn parse(text: &str) -> (r: Result<Json, String>)
    ensures
        match r {
            Ok(j) => json_text(text@) == Ok::<JsonTree, Seq<char>>(j.tree()),
            Err(e) => json_text(text@) == Err::<JsonTree, Seq<char>>(e@),
        },
{
    match parse_value(text) {
        Ok(v) => Ok(from_value(v)),
        Err(e) => Err(e),
    }
}

// ---------------------------------------------------------------------------
// Looking into a value
// ---------------------------------------------------------------------------

/// The first field of that name, from field `i` on.
pub open spec fn field_from(fields: Seq<(Seq<char>, JsonTree)>, name: Seq<char>, i: int) -> Option<
    JsonTree,
>
    decreases fields.len() - i,
{
    if i < 0 || i >= fields.len() {
        None
    } else if fields[i].0 == name {
        Some(fields[i].1)
    } else {
        field_from(fields, name, i + 1)
    }
}

impl JsonTree {
    /// The field of that name, where the value is an object that has it.
    pub open spec fn field(self, name: Seq<char>) -> Option<JsonTree> {
        match self {
            JsonTree::Object(fields) => field_from(fields, name, 0),
            _ => None,
        }
    }

    /// The text, where the value is one.
    pub open spec fn text(self) -> Option<Seq<char>> {
        match self {
            JsonTree::Text(s) => Some(s),
            _ => None,
        }
    }
}

impl Json {
    /// The field of that name, where the value is an object that has it.
    pub fn field(&self, name: &str) -> (r: Option<&Json>)
        ensures
            match r {
                Some(j) => self.tree().field(name@) == Some(j.tree()),
                None => self.tree().field(name@) is None,
            },
    {
        match self {
            Json::Object(fields) => {
                let ghost trees = self.tree()->Object_0;
                let mut i: usize = 0;
                while i < fields.len()
                    invariant
                        i <= fields.len(),
                        trees.len() == fields.len(),
                        *self == Json::Object(*fields),
                        trees == self.tree()->Object_0,
                        field_from(trees, name@, 0) == field_from(trees, name@, i as int),
                    decreases fields.len() - i,
                {
                    assert(trees[i as int] == (fields@[i as int].0@, fields@[i as int].1.tree()));
                    if same(fields[i].0.as_str(), name) {
                        return Some(&fields[i].1);
                    }
                    i += 1;
                }
                None
            },
            _ => None,
        }
    }

    /// The text, where the value is one.
    pub fn as_text(&self) -> (r: Option<&str>)
        ensures
            crate::text::option_slice_view(r) == self.tree().text(),
    {
        match self {
            Json::Text(s) => Some(s.as_str()),
            _ => None,
        }
    }

    /// Whether the value is the null.
    pub fn is_null(&self) -> (r: bool)
        ensures
            r == (self.tree() == JsonTree::Null),
    {
        match self {
            Json::Null => true,
            _ => false,
        }
    }
}

} // verus!
