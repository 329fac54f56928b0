//! JSON documents, as far as the broker reads them.
//!
//! Text is parsed by `serde_json`.  What it yields is copied, node for node,
//! into [`Json`], a tree of plain values that the rest of the library reads.
//! The parser itself is not verified: the two functions that call it are
//! believed to do what their contracts say.

use vstd::prelude::*;
use vstd::string::*;

verus! {

#[verifier::external_type_specification]
#[verifier::external_body]
pub struct ExValue(serde_json::Value);

#[verifier::external_type_specification]
#[verifier::external_body]
pub struct ExError(serde_json::Error);

/// A JSON number, by the two readings the broker takes of it.
#[derive(Debug, Clone, Copy)]
pub struct JsonNumber {
    /// The number as a signed 64-bit integer, where it is one.
    pub integer: Option<i64>,
    /// The bit pattern of the number as an IEEE-754 double, where it has one.
    pub double: Option<u64>,
}

/// What a JSON document holds.
pub enum JsonView {
    Null,
    Bool(bool),
    Number(JsonNumber),
    Text(Seq<char>),
    Array(Seq<JsonView>),
    Object(Seq<(Seq<char>, JsonView)>),
}

/// A JSON document.  An object lists its members in the order in which the
/// parser keeps them, each key once.
#[derive(Debug)]
pub enum Json {
    Null,
    Bool(bool),
    Number(JsonNumber),
    Text(String),
    Array(Vec<Json>),
    Object(Vec<(String, Json)>),
}

/// What a document holds.
pub open spec fn tree_of(json: Json) -> JsonView
    decreases json,
{
    match json {
        Json::Null => JsonView::Null,
        Json::Bool(b) => JsonView::Bool(b),
        Json::Number(n) => JsonView::Number(n),
        Json::Text(s) => JsonView::Text(s@),
        Json::Array(items) => JsonView::Array(
            Seq::new(
                items@.len(),
                |i: int|
                    if 0 <= i < items@.len() {
                        tree_of(items@[i])
                    } else {
                        JsonView::Null
                    },
            ),
        ),
        Json::Object(members) => JsonView::Object(
            Seq::new(
                members@.len(),
                |i: int|
                    if 0 <= i < members@.len() {
                        (members@[i].0@, tree_of(members@[i].1))
                    } else {
                        (Seq::empty(), JsonView::Null)
                    },
            ),
        ),
    }
}

impl View for Json {
    type V = JsonView;

    open spec fn view(&self) -> JsonView {
        tree_of(*self)
    }
}

/// The value of the first of `members` whose key is `key`.
pub open spec fn member_of(members: Seq<(Seq<char>, JsonView)>, key: Seq<char>) -> Option<JsonView>
    decreases members.len(),
{
    if members.len() == 0 {
        None
    } else if members[0].0 == key {
        Some(members[0].1)
    } else {
        member_of(members.drop_first(), key)
    }
}

impl JsonView {
    /// The member `key` of an object; `None` for anything else.
    pub open spec fn get(self, key: Seq<char>) -> Option<JsonView> {
        match self {
            JsonView::Object(members) => member_of(members, key),
            _ => None,
        }
    }

    /// The elements of an array; `None` for anything else.
    pub open spec fn as_array(self) -> Option<Seq<JsonView>> {
        match self {
            JsonView::Array(items) => Some(items),
            _ => None,
        }
    }

    /// The characters of a string; `None` for anything else.
    pub open spec fn as_str(self) -> Option<Seq<char>> {
        match self {
            JsonView::Text(s) => Some(s),
            _ => None,
        }
    }

    /// A number as a signed 64-bit integer, where it is one; `None` for
    /// anything else.
    pub open spec fn as_i64(self) -> Option<i64> {
        match self {
            JsonView::Number(n) => n.integer,
            _ => None,
        }
    }

    /// The bit pattern of a number as a double; `None` for anything else.
    pub open spec fn as_double(self) -> Option<u64> {
        match self {
            JsonView::Number(n) => n.double,
            _ => None,
        }
    }
}

/// The document that `serde_json` reads from `text`, or `None` where it
/// reports an error.
pub uninterp spec fn json_document(text: Seq<char>) -> Option<JsonView>;

/// What a value of `serde_json` holds.
pub uninterp spec fn json_tree(value: serde_json::Value) -> JsonView;

/// Calls `serde_json::from_str` for a `serde_json::Value`.  Believed: the call
/// succeeds exactly where `json_document` is defined on the text, and the
/// value that it returns then holds that document.
#[verifier::external_body]
fn json_from_str(text: &str) -> (parsed: Result<serde_json::Value, serde_json::Error>)
    ensures
        match parsed {
            Ok(value) => json_document(text@) == Some(json_tree(value)),
            Err(_) => json_document(text@) is None,
        },
{
    serde_json::from_str(text)
}

/// Copies a `serde_json::Value` into a [`Json`], variant for variant; of a
/// number it keeps what `Number::as_i64` and `Number::as_f64` return.
/// Believed: the copy holds what the value holds.
#[verifier::external_body]
fn json_convert(value: &serde_json::Value) -> (copy: Json)
    ensures
        copy@ == json_tree(*value),
{
    match value {
        serde_json::Value::Null => Json::Null,
        serde_json::Value::Bool(b) => Json::Bool(*b),
        serde_json::Value::Number(n) => Json::Number(
            JsonNumber { integer: n.as_i64(), double: n.as_f64().map(|x| x.to_bits()) },
        ),
        serde_json::Value::String(s) => Json::Text(s.clone()),
        serde_json::Value::Array(a) => Json::Array(a.iter().map(json_convert).collect()),
        serde_json::Value::Object(o) => Json::Object(
            o.iter().map(|(k, v)| (k.clone(), json_convert(v))).collect(),
        ),
    }
}

/// Reads a JSON document from `text`.
pub fn parse_json(text: &str) -> (document: Option<Json>)
    ensures
        match document {
            Some(json) => json_document(text@) == Some(json@),
            None => json_document(text@) is None,
        },
{
    match json_from_str(text) {
        Ok(value) => Some(json_convert(&value)),
        Err(_) => None,
    }
}

impl Json {
    /// The member `key` of an object; `None` for anything else.
    pub fn get(&self, key: &str) -> (member: Option<&Json>)
        ensures
            match member {
                Some(json) => self@.get(key@) == Some(json@),
                None => self@.get(key@) is None,
            },
    {
        match self {
            Json::Object(members) => {
                let wanted = key.to_owned();
                let ghost all = self@->Object_0;
                proof {
                    assert(all.skip(0) =~= all);
                }
                let mut i: usize = 0;
                while i < members.len()
                    invariant
                        i <= members@.len(),
                        wanted@ == key@,
                        self@ == JsonView::Object(all),
                        all.len() == members@.len(),
                        forall|j: int|
                            0 <= j < members@.len() ==> #[trigger] all[j] == (
                                members@[j].0@,
                                members@[j].1@,
                            ),
                        member_of(all, key@) == member_of(all.skip(i as int), key@),
                    decreases members@.len() - i,
                {
                    proof {
                        assert(all.skip(i as int).drop_first() =~= all.skip(i + 1));
                        assert(all.skip(i as int)[0] == all[i as int]);
                    }
                    if members[i].0 == wanted {
                        return Some(&members[i].1);
                    }
                    i += 1;
                }
                None
            },
            _ => None,
        }
    }

    /// The elements of an array; `None` for anything else.
    pub fn as_array(&self) -> (items: Option<&Vec<Json>>)
        ensures
            match items {
                Some(list) => {
                    &&& self@.as_array() matches Some(elements)
                    &&& elements.len() == list@.len()
                    &&& forall|i: int| 0 <= i < list@.len() ==> elements[i] == (#[trigger] list@[i])@
                },
                None => self@.as_array() is None,
            },
    {
        match self {
            Json::Array(items) => Some(items),
            _ => None,
        }
    }

    /// The characters of a string; `None` for anything else.
    pub fn as_str(&self) -> (text: Option<&str>)
        ensures
            match text {
                Some(s) => self@.as_str() == Some(s@),
                None => self@.as_str() is None,
            },
    {
        match self {
            Json::Text(s) => Some(s.as_str()),
            _ => None,
        }
    }

    /// A number as a signed 64-bit integer, where it is one; `None` for
    /// anything else.
    pub fn as_i64(&self) -> (integer: Option<i64>)
        ensures
            integer == self@.as_i64(),
    {
        match self {
            Json::Number(n) => n.integer,
            _ => None,
        }
    }

    /// The bit pattern of a number as a double; `None` for anything else.
    pub fn as_double(&self) -> (bits: Option<u64>)
        ensures
            bits == self@.as_double(),
    {
        match self {
            Json::Number(n) => n.double,
            _ => None,
        }
    }
}

} // verus!
