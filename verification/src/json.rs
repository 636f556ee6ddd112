//! JSON documents as plain values. The grammar is `serde_json`'s; what a
//! document means to this crate is decided on the tree that this module
//! hands out.

use vstd::prelude::*;
use vstd::string::StringExecFns;

verus! {

/// A JSON document. A number keeps its value where it is an integer in the
/// range of `i64`, and nothing else of it. An object lists its members with
/// their names.
#[derive(Debug, PartialEq)]
pub enum Json {
    Null,
    Flag(bool),
    Number(Option<i64>),
    Text(String),
    Array(Vec<Json>),
    Object(Vec<(String, Json)>),
}

/// The mathematical value of a [`Json`].
pub enum JsonValue {
    Null,
    Flag(bool),
    Number(Option<i64>),
    Text(Seq<char>),
    Array(Seq<JsonValue>),
    Object(Seq<(Seq<char>, JsonValue)>),
}

impl View for Json {
    type V = JsonValue;

    open spec fn view(&self) -> JsonValue {
        json_value(*self)
    }
}

/// The mathematical value of a document.
pub open spec fn json_value(json: Json) -> JsonValue
    decreases json, 0nat,
{
    match json {
        Json::Null => JsonValue::Null,
        Json::Flag(b) => JsonValue::Flag(b),
        Json::Number(n) => JsonValue::Number(n),
        Json::Text(s) => JsonValue::Text(s@),
        Json::Array(items) => JsonValue::Array(values_upto(items@, items@.len())),
        Json::Object(members) => JsonValue::Object(members_upto(members@, members@.len())),
    }
}

/// The values of the first `n` documents of `items`.
pub open spec fn values_upto(items: Seq<Json>, n: nat) -> Seq<JsonValue>
    decreases items, n,
{
    if n == 0 || n > items.len() {
        Seq::empty()
    } else {
        values_upto(items, (n - 1) as nat).push(json_value(items[n - 1]))
    }
}

/// The first `n` members of `members`, each with the value of its document.
pub open spec fn members_upto(members: Seq<(String, Json)>, n: nat) -> Seq<(Seq<char>, JsonValue)>
    decreases members, n,
{
    if n == 0 || n > members.len() {
        Seq::empty()
    } else {
        members_upto(members, (n - 1) as nat).push(
            (members[n - 1].0@, json_value(members[n - 1].1)),
        )
    }
}

/// The view of an optional document.
pub open spec fn optional_view(doc: Option<Json>) -> Option<JsonValue> {
    match doc {
        Some(json) => Some(json@),
        None => None,
    }
}

/// The view of an optional reference to a document.
pub open spec fn optional_ref_view(doc: Option<&Json>) -> Option<JsonValue> {
    match doc {
        Some(json) => Some(json@),
        None => None,
    }
}

/// The document that `serde_json` reads from `bytes`, or `None` where it
/// reports an error.
pub uninterp spec fn json_document(bytes: Seq<u8>) -> Option<JsonValue>;

/// `serde_json::Value`, the tree that `serde_json` reads a document into. It
/// is carried from the parser to the conversion and not looked into.
#[verifier::external_type_specification]
#[verifier::external_body]
pub struct ExJsonTree(serde_json::Value);

/// `serde_json::from_slice` at the type `serde_json::Value`, its result
/// carried over into a [`Json`] by `json_of_tree`; an error of the parser
/// becomes `None`. The contract claims that the outcome depends on the bytes
/// alone, and gives it the name `json_document`.
#[verifier::external_body]
pub(crate) fn parse_json(bytes: &[u8]) -> (doc: Option<Json>)
    ensures
        optional_view(doc) == json_document(bytes@),
{
    match serde_json::from_slice::<serde_json::Value>(bytes) {
        Ok(tree) => Some(json_of_tree(tree)),
        Err(_) => None,
    }
}

/// Carries a `serde_json::Value` over into a [`Json`], variant by variant:
/// the items of an array and the members of an object in the order in which
/// `serde_json` hands them out, and of a number what `Number::as_i64`
/// returns. It is the second half of `parse_json` and claims nothing of its
/// own.
#[verifier::external_body]
fn json_of_tree(tree: serde_json::Value) -> Json {
    match tree {
        serde_json::Value::Null => Json::Null,
        serde_json::Value::Bool(b) => Json::Flag(b),
        serde_json::Value::Number(n) => Json::Number(n.as_i64()),
        serde_json::Value::String(s) => Json::Text(s),
        serde_json::Value::Array(items) => Json::Array(items.into_iter().map(json_of_tree).collect()),
        serde_json::Value::Object(members) => Json::Object(
            members.into_iter().map(|(name, value)| (name, json_of_tree(value))).collect(),
        ),
    }
}

/// The value of the first member named `name` at or after `from`.
pub open spec fn member_from(
    members: Seq<(Seq<char>, JsonValue)>,
    name: Seq<char>,
    from: int,
) -> Option<JsonValue>
    decreases members.len() - from,
{
    if from < 0 || from >= members.len() {
        None
    } else if members[from].0 == name {
        Some(members[from].1)
    } else {
        member_from(members, name, from + 1)
    }
}

/// The value of the member named `name`, if the object has one.
pub open spec fn member(members: Seq<(Seq<char>, JsonValue)>, name: Seq<char>) -> Option<
    JsonValue,
> {
    member_from(members, name, 0)
}

/// The members of `doc`, if it is an object.
pub open spec fn members_of(doc: JsonValue) -> Option<Seq<(Seq<char>, JsonValue)>> {
    match doc {
        JsonValue::Object(members) => Some(members),
        _ => None,
    }
}

/// The member of `doc` named `name`, if `doc` is an object that has one.
pub open spec fn field(doc: JsonValue, name: Seq<char>) -> Option<JsonValue> {
    match doc {
        JsonValue::Object(members) => member(members, name),
        _ => None,
    }
}

/// `values_upto` lists the values of the first `n` documents in order.
pub proof fn lemma_values_upto(items: Seq<Json>, n: nat)
    requires
        n <= items.len(),
    ensures
        values_upto(items, n).len() == n,
        forall|i: int| 0 <= i < n ==> #[trigger] values_upto(items, n)[i] == json_value(items[i]),
    decreases n,
{
    if n > 0 {
        lemma_values_upto(items, (n - 1) as nat);
    }
}

/// `members_upto` lists the first `n` members in order.
pub proof fn lemma_members_upto(members: Seq<(String, Json)>, n: nat)
    requires
        n <= members.len(),
    ensures
        members_upto(members, n).len() == n,
        forall|i: int|
            0 <= i < n ==> #[trigger] members_upto(members, n)[i] == (
                members[i].0@,
                json_value(members[i].1),
            ),
    decreases n,
{
    if n > 0 {
        lemma_members_upto(members, (n - 1) as nat);
    }
}

impl Json {
    /// The member named `name`, if this is an object that has one.
    pub fn get(&self, name: &str) -> (r: Option<&Json>)
        ensures
            optional_ref_view(r) == field(self@, name@),
    {
        match self {
            Json::Object(members) => {
                let wanted = String::from_str(name);
                let mut i: usize = 0;
                proof {
                    lemma_members_upto(members@, members@.len());
                }
                while i < members.len()
                    invariant
                        i <= members.len(),
                        wanted@ == name@,
                        self@ == JsonValue::Object(members_of(self@).unwrap()),
                        members_of(self@).unwrap().len() == members@.len(),
                        forall|j: int|
                            0 <= j < members@.len() ==> #[trigger] members_of(self@).unwrap()[j]
                                == (members@[j].0@, json_value(members@[j].1)),
                        field(self@, name@) == member_from(
                            members_of(self@).unwrap(),
                            name@,
                            i as int,
                        ),
                    decreases members.len() - i,
                {
                    if members[i].0 == wanted {
                        return Some(&members[i].1);
                    }
                    i += 1;
                }
                None
            },
            _ => None,
        }
    }
}

/// A text that may be absent: `Some(None)` where the member is missing or
/// null, `Some(Some(t))` where it is the text `t`, `None` where it is
/// anything else.
pub open spec fn optional_text(value: Option<JsonValue>) -> Option<Option<Seq<char>>> {
    match value {
        None => Some(None),
        Some(JsonValue::Null) => Some(None),
        Some(JsonValue::Text(t)) => Some(Some(t)),
        Some(_) => None,
    }
}

/// The view of an optional optional text.
pub open spec fn fragment_view(r: Option<Option<String>>) -> Option<Option<Seq<char>>> {
    match r {
        None => None,
        Some(None) => Some(None),
        Some(Some(s)) => Some(Some(s@)),
    }
}

/// Reads a member as a text that may be absent.
pub fn read_optional_text(value: Option<&Json>) -> (r: Option<Option<String>>)
    ensures
        fragment_view(r) == optional_text(optional_ref_view(value)),
{
    match value {
        None => Some(None),
        Some(Json::Null) => Some(None),
        Some(Json::Text(t)) => Some(Some(t.clone())),
        Some(_) => None,
    }
}

} // verus!
