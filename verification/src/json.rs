//! JSON documents as plain trees.

use crate::scalar::Scalar;
use crate::text::text_eq;
use vstd::prelude::*;

verus! {

/// The outside type of a parsed document.
#[verifier::external_type_specification]
#[verifier::external_body]
pub struct ExValue(serde_json::Value);

/// The outside type of a parse failure.
#[verifier::external_type_specification]
#[verifier::external_body]
pub struct ExJsonError(serde_json::Error);

/// A JSON document.
#[derive(Debug)]
pub enum Json {
    Null,
    Bool(bool),
    /// The number as an unsigned integer, where it is one, and as a double.
    Number { unsigned: Option<u64>, double: Option<Scalar> },
    Text(String),
    Array(Vec<Json>),
    Object(Vec<(String, Json)>),
}

/// The model of a JSON document.
pub enum JsonTree {
    Null,
    Bool(bool),
    Number { unsigned: Option<u64>, double: Option<Scalar> },
    Text(Seq<char>),
    Array(Seq<JsonTree>),
    Object(Seq<(Seq<char>, JsonTree)>),
}

impl Json {
    pub open spec fn tree(self) -> JsonTree
        decreases self,
    {
        match self {
            Json::Null => JsonTree::Null,
            Json::Bool(b) => JsonTree::Bool(b),
            Json::Number { unsigned, double } => JsonTree::Number { unsigned, double },
            Json::Text(text) => JsonTree::Text(text@),
            Json::Array(items) => JsonTree::Array(
                Seq::new(
                    items@.len(),
                    |i: int|
                        if 0 <= i < items@.len() {
                            items@[i].tree()
                        } else {
                            JsonTree::Null
                        },
                ),
            ),
            Json::Object(members) => JsonTree::Object(
                Seq::new(
                    members@.len(),
                    |i: int|
                        if 0 <= i < members@.len() {
                            (members@[i].0@, members@[i].1.tree())
                        } else {
                            (Seq::empty(), JsonTree::Null)
                        },
                ),
            ),
        }
    }
}

impl View for Json {
    type V = JsonTree;

    open spec fn view(&self) -> JsonTree {
        self.tree()
    }
}

/// The tree that a `serde_json::Value` holds: for a number, what
/// `Number::as_u64` and the bit pattern of `Number::as_f64` give; for an object,
/// its members in the order in which `serde_json::Map` is walked.
pub uninterp spec fn value_tree(value: serde_json::Value) -> JsonTree;

/// The tree that `serde_json::from_slice` reads from a text, if it accepts it.
pub uninterp spec fn json_text(bytes: Seq<u8>) -> Option<JsonTree>;

/// `serde_json::from_slice` at the type `serde_json::Value`. What it accepts and
/// what it reads depends on the bytes alone; nothing more is claimed of it.
#[verifier::external_body]
fn parse_value(bytes: &[u8]) -> (parsed: Result<serde_json::Value, serde_json::Error>)
    ensures
        match parsed {
            Ok(value) => json_text(bytes@) == Some(value_tree(value)),
            Err(_) => json_text(bytes@) is None,
        },
{
    serde_json::from_slice(bytes)
}

/// The outermost layer of an outside document.
enum Layer {
    Null,
    Bool(bool),
    Number { unsigned: Option<u64>, double: Option<Scalar> },
    Text(String),
    Array(Vec<serde_json::Value>),
    Object(Vec<(String, serde_json::Value)>),
}

impl Layer {
    /// The tree of a document with this outermost layer.
    spec fn tree(self) -> JsonTree {
        match self {
            Layer::Null => JsonTree::Null,
            Layer::Bool(b) => JsonTree::Bool(b),
            Layer::Number { unsigned, double } => JsonTree::Number { unsigned, double },
            Layer::Text(text) => JsonTree::Text(text@),
            Layer::Array(items) => JsonTree::Array(
                Seq::new(items@.len(), |i: int| value_tree(items@[i])),
            ),
            Layer::Object(members) => JsonTree::Object(
                Seq::new(members@.len(), |i: int| (members@[i].0@, value_tree(members@[i].1))),
            ),
        }
    }
}

/// Takes the outermost layer off a `serde_json::Value`, with
/// `serde_json::Number::as_u64` and `serde_json::Number::as_f64` for a number.
/// The tree of the value is that layer with the trees of the values in it.
#[verifier::external_body]
fn layer_of(value: serde_json::Value) -> (layer: Layer)
    ensures
        layer.tree() == value_tree(value),
{
    match value {
        serde_json::Value::Null => Layer::Null,
        serde_json::Value::Bool(b) => Layer::Bool(b),
        serde_json::Value::Number(n) => Layer::Number {
            unsigned: n.as_u64(),
            double: n.as_f64().map(|x| Scalar { bits: x.to_bits() }),
        },
        serde_json::Value::String(text) => Layer::Text(text),
        serde_json::Value::Array(items) => Layer::Array(items),
        serde_json::Value::Object(members) => Layer::Object(members.into_iter().collect()),
    }
}

/// The document that an outside document holds.
fn json_of(value: serde_json::Value) -> (json: Json)
    ensures
        json@ == value_tree(value),
    decreases value_tree(value),
{
    let ghost tree = value_tree(value);
    match layer_of(value) {
        Layer::Null => Json::Null,
        Layer::Bool(b) => Json::Bool(b),
        Layer::Number { unsigned, double } => Json::Number { unsigned, double },
        Layer::Text(text) => Json::Text(text),
        Layer::Array(items) => {
            let mut out: Vec<Json> = Vec::new();
            for item in it: items
                invariant
                    tree == value_tree(value),
                    tree is Array,
                    tree->Array_0.len() == it.seq().len(),
                    forall|i: int|
                        0 <= i < it.seq().len() ==> tree->Array_0[i] == value_tree(
                            #[trigger] it.seq()[i],
                        ),
                    out@.len() == it.index(),
                    forall|i: int| 0 <= i < out@.len() ==> (#[trigger] out@[i])@ == tree->Array_0[i],
            {
                assert(decreases_to!(tree => tree->Array_0[it.index() as int]));
                out.push(json_of(item));
            }
            let json = Json::Array(out);
            assert(json@->Array_0 =~= tree->Array_0);
            json
        },
        Layer::Object(members) => {
            let mut out: Vec<(String, Json)> = Vec::new();
            for entry in it: members
                invariant
                    tree == value_tree(value),
                    tree is Object,
                    tree->Object_0.len() == it.seq().len(),
                    forall|i: int|
                        0 <= i < it.seq().len() ==> tree->Object_0[i] == (
                            (#[trigger] it.seq()[i]).0@,
                            value_tree(it.seq()[i].1),
                        ),
                    out@.len() == it.index(),
                    forall|i: int|
                        0 <= i < out@.len() ==> (
                            (#[trigger] out@[i]).0@,
                            out@[i].1@,
                        ) == tree->Object_0[i],
            {
                assert(decreases_to!(tree => tree->Object_0[it.index() as int].1));
                out.push((entry.0, json_of(entry.1)));
            }
            let json = Json::Object(out);
            assert(json@->Object_0 =~= tree->Object_0);
            json
        },
    }
}

/// Reads a JSON text.
pub fn parse_json(bytes: &[u8]) -> (json: Option<Json>)
    ensures
        match json {
            Some(document) => json_text(bytes@) == Some(document@),
            None => json_text(bytes@) is None,
        },
{
    match parse_value(bytes) {
        Ok(value) => Some(json_of(value)),
        Err(_) => None,
    }
}

/// The value of the first member of the given name.
pub open spec fn lookup(members: Seq<(Seq<char>, JsonTree)>, name: Seq<char>) -> Option<JsonTree>
    decreases members.len(),
{
    if members.len() == 0 {
        None
    } else if members[0].0 == name {
        Some(members[0].1)
    } else {
        lookup(members.skip(1), name)
    }
}

/// The member of the given name, where the tree is an object that has one.
pub open spec fn member(tree: JsonTree, name: Seq<char>) -> Option<JsonTree> {
    match tree {
        JsonTree::Object(members) => lookup(members, name),
        _ => None,
    }
}

/// The model of an optional document.
pub open spec fn optional_tree(json: Option<&Json>) -> Option<JsonTree> {
    match json {
        Some(json) => Some(json@),
        None => None,
    }
}

impl Json {
    /// The member of the given name, where the document is an object that has one.
    pub fn get<'a>(&'a self, name: &str) -> (found: Option<&'a Json>)
        ensures
            optional_tree(found) == member(self@, name@),
    {
        match self {
            Json::Object(members) => {
                let ghost models = self@->Object_0;
                assert(models.skip(0) == models);
                for i in 0..members.len()
                    invariant
                        *self == Json::Object(*members),
                        models == self@->Object_0,
                        lookup(models, name@) == lookup(models.skip(i as int), name@),
                {
                    assert(models[i as int] == (members@[i as int].0@, members@[i as int].1@));
                    if text_eq(members[i].0.as_str(), name) {
                        return Some(&members[i].1);
                    }
                    assert(models.skip(i as int).skip(1) == models.skip(i + 1));
                }
                None
            },
            _ => None,
        }
    }

    /// The text, where the document is one.
    pub fn as_text(&self) -> (text: Option<&str>)
        ensures
            text is Some <==> self@ is Text,
            text matches Some(t) ==> self@ == JsonTree::Text(t@),
    {
        match self {
            Json::Text(text) => Some(text.as_str()),
            _ => None,
        }
    }

    /// The number as an unsigned integer, where the document is one.
    pub fn as_unsigned(&self) -> (unsigned: Option<u64>)
        ensures
            unsigned == unsigned_of(self@),
    {
        match self {
            Json::Number { unsigned, .. } => *unsigned,
            _ => None,
        }
    }

    /// The number as a double, where the document is a number.
    pub fn as_double(&self) -> (double: Option<Scalar>)
        ensures
            double == double_of(self@),
    {
        match self {
            Json::Number { double, .. } => *double,
            _ => None,
        }
    }

    /// Whether the document is an object.
    pub fn is_object(&self) -> (object: bool)
        ensures
            object == (self@ is Object),
    {
        match self {
            Json::Object(_) => true,
            _ => false,
        }
    }
}

pub open spec fn unsigned_of(tree: JsonTree) -> Option<u64> {
    match tree {
        JsonTree::Number { unsigned, .. } => unsigned,
        _ => None,
    }
}

pub open spec fn double_of(tree: JsonTree) -> Option<Scalar> {
    match tree {
        JsonTree::Number { double, .. } => double,
        _ => None,
    }
}

/// A member is found exactly where the object has one of that name, and what is
/// found is the value of such a member, before which no other has the name.
pub proof fn lookups_find_the_first_member_of_the_name(
    members: Seq<(Seq<char>, JsonTree)>,
    name: Seq<char>,
)
    ensures
        lookup(members, name) is None <==> forall|i: int|
            0 <= i < members.len() ==> (#[trigger] members[i]).0 != name,
        lookup(members, name) matches Some(value) ==> exists|i: int|
            0 <= i < members.len() && #[trigger] members[i] == (name, value) && forall|j: int|
                0 <= j < i ==> (#[trigger] members[j]).0 != name,
    decreases members.len(),
{
    if members.len() > 0 {
        let rest = members.skip(1);
        lookups_find_the_first_member_of_the_name(rest, name);
        if members[0].0 == name {
            assert(members[0] == (name, members[0].1));
        } else {
            assert forall|i: int| 0 <= i < rest.len() implies #[trigger] rest[i] == members[i
                + 1] by {}
            if lookup(members, name) is Some {
                let value = lookup(members, name)->0;
                let i = choose|i: int|
                    0 <= i < rest.len() && #[trigger] rest[i] == (name, value) && forall|j: int|
                        0 <= j < i ==> (#[trigger] rest[j]).0 != name;
                assert(members[i + 1] == (name, value));
                assert forall|j: int| 0 <= j < i + 1 implies (#[trigger] members[j]).0 != name by {
                    if j > 0 {
                        assert(rest[j - 1] == members[j]);
                    }
                }
            } else {
                assert forall|i: int| 0 <= i < members.len() implies (#[trigger] members[i]).0
                    != name by {
                    if i > 0 {
                        assert(rest[i - 1] == members[i]);
                    }
                }
            }
            if forall|i: int| 0 <= i < members.len() ==> (#[trigger] members[i]).0 != name {
                assert forall|i: int| 0 <= i < rest.len() implies (#[trigger] rest[i]).0
                    != name by {
                    assert(rest[i] == members[i + 1]);
                }
            }
        }
    }
}

} // verus!
