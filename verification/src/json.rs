//! JSON documents as plain values.

use serde_json::Value;
use vstd::prelude::*;

use crate::text::same_text;

verus! {

/// The `serde_json` crate's own representation of a document.
#[verifier::external_type_specification]
#[verifier::external_body]
pub struct ExValue(Value);

/// The reason why `serde_json` refused a text.
#[verifier::external_type_specification]
#[verifier::external_body]
pub struct ExError(serde_json::Error);

/// A JSON document. The members of an object stand in the order in which the
/// parser hands them out; a number that is no 64-bit integer is kept as text.
#[derive(Debug, PartialEq)]
pub enum Json {
    Null,
    Bool(bool),
    Unsigned(u64),
    Negative(i64),
    Float(String),
    Text(String),
    Array(Vec<Json>),
    Object(Vec<(String, Json)>),
}

/// A JSON document as a mathematical value.
pub enum JsonView {
    Null,
    Bool(bool),
    Unsigned(u64),
    Negative(i64),
    Float(Seq<char>),
    Text(Seq<char>),
    Array(Seq<JsonView>),
    Object(Seq<(Seq<char>, JsonView)>),
}

impl View for Json {
    type V = JsonView;

    open spec fn view(&self) -> JsonView {
        json_view(*self)
    }
}

/// The mathematical value of a document.
pub open spec fn json_view(json: Json) -> JsonView
    decreases json,
{
    match json {
        Json::Null => JsonView::Null,
        Json::Bool(b) => JsonView::Bool(b),
        Json::Unsigned(n) => JsonView::Unsigned(n),
        Json::Negative(n) => JsonView::Negative(n),
        Json::Float(s) => JsonView::Float(s@),
        Json::Text(s) => JsonView::Text(s@),
        Json::Array(items) => JsonView::Array(
            Seq::new(
                items@.len(),
                |i: int|
                    if 0 <= i < items@.len() {
                        json_view(items@[i])
                    } else {
                        JsonView::Null
                    },
            ),
        ),
        Json::Object(members) => JsonView::Object(
            Seq::new(
                members@.len(),
                |i: int|
                    if 0 <= i < members@.len() {
                        (members@[i].0@, json_view(members@[i].1))
                    } else {
                        (Seq::empty(), JsonView::Null)
                    },
            ),
        ),
    }
}

/// The document that a `serde_json` value holds.
pub uninterp spec fn contents(value: Value) -> JsonView;

/// The document that a text denotes, where `serde_json` accepts it.
pub uninterp spec fn json_document(text: Seq<char>) -> Option<JsonView>;

/// The most arrays and objects that the parser lets stand inside each other.
pub const MAX_NESTING: u32 = 127;

/// At most `depth` arrays and objects stand inside each other.
pub open spec fn nested_at_most(json: JsonView, depth: nat) -> bool
    decreases depth,
{
    match json {
        JsonView::Array(items) => depth > 0 && forall|i: int|
            0 <= i < items.len() ==> nested_at_most(#[trigger] items[i], (depth - 1) as nat),
        JsonView::Object(members) => depth > 0 && forall|i: int|
            0 <= i < members.len() ==> nested_at_most(
                (#[trigger] members[i]).1,
                (depth - 1) as nat,
            ),
        _ => true,
    }
}

/// `serde_json::from_str` accepts a text or refuses it, and the value that it
/// makes of an accepted one depends on the text alone. It refuses a text with
/// more than 127 arrays and objects inside each other.
#[verifier::external_body]
fn parse_value(text: &str) -> (res: Result<Value, serde_json::Error>)
    ensures
        match res {
            Ok(value) => json_document(text@) == Some(contents(value)) && nested_at_most(
                contents(value),
                MAX_NESTING as nat,
            ),
            Err(_) => json_document(text@) is None,
        },
{
    serde_json::from_str(text)
}

/// A `serde_json::Value` as a plain value, variant by variant. Of a number,
/// `as_u64` and `as_i64` tell whether it is an integer, and `to_string` writes
/// down any other. The conversion goes as deep as the value, so deeper values
/// than the parser makes are left out.
#[verifier::external_body]
fn plain_value(value: Value) -> (json: Json)
    requires
        nested_at_most(contents(value), MAX_NESTING as nat),
    ensures
        json@ == contents(value),
{
    match value {
        Value::Null => Json::Null,
        Value::Bool(b) => Json::Bool(b),
        Value::Number(n) => match (n.as_u64(), n.as_i64()) {
            (Some(u), _) => Json::Unsigned(u),
            (None, Some(i)) => Json::Negative(i),
            (None, None) => Json::Float(n.to_string()),
        },
        Value::String(s) => Json::Text(s),
        Value::Array(items) => Json::Array(items.into_iter().map(plain_value).collect()),
        Value::Object(map) => Json::Object(map.into_iter().map(|(k, v)| (k, plain_value(v))).collect()),
    }
}

/// The document that a text denotes.
pub fn parse_json(text: &str) -> (res: Result<Json, serde_json::Error>)
    ensures
        match res {
            Ok(json) => json_document(text@) == Some(json@),
            Err(_) => json_document(text@) is None,
        },
{
    match parse_value(text) {
        Ok(value) => Ok(plain_value(value)),
        Err(error) => Err(error),
    }
}

/// The values of a list of documents.
pub open spec fn json_views(items: Seq<Json>) -> Seq<JsonView> {
    items.map_values(|item: Json| item@)
}

/// The value of an optional document.
pub open spec fn opt_json(json: Option<Json>) -> Option<JsonView> {
    match json {
        Some(json) => Some(json@),
        None => None,
    }
}

/// The member `key` of a list of members: the first one, where it occurs twice.
pub open spec fn lookup(members: Seq<(Seq<char>, JsonView)>, key: Seq<char>) -> Option<JsonView>
    decreases members.len(),
{
    if members.len() == 0 {
        None
    } else if members.first().0 == key {
        Some(members.first().1)
    } else {
        lookup(members.drop_first(), key)
    }
}

/// The member `key` of a document, where it is an object that has one.
pub open spec fn member(json: JsonView, key: Seq<char>) -> Option<JsonView> {
    match json {
        JsonView::Object(members) => lookup(members, key),
        _ => None,
    }
}

/// The members of an object as mathematical values.
pub open spec fn member_views(members: Seq<(String, Json)>) -> Seq<(Seq<char>, JsonView)> {
    members.map_values(|entry: (String, Json)| (entry.0@, entry.1@))
}

/// What an array and an object hold, element by element.
pub proof fn lemma_json_parts(json: Json)
    ensures
        json matches Json::Array(items) ==> json@ == JsonView::Array(json_views(items@)),
        json matches Json::Object(members) ==> json@ == JsonView::Object(member_views(members@)),
{
    match json {
        Json::Array(items) => {
            assert(json@->Array_0 =~= json_views(items@));
        },
        Json::Object(members) => {
            assert(json@->Object_0 =~= member_views(members@));
        },
        _ => {},
    }
}

/// The position of the member `key`.
pub fn member_index(members: &Vec<(String, Json)>, key: &str) -> (res: Option<usize>)
    ensures
        match res {
            Some(i) => i < members@.len() && lookup(member_views(members@), key@) == Some(
                members@[i as int].1@,
            ),
            None => lookup(member_views(members@), key@) is None,
        },
{
    let ghost all = member_views(members@);
    let mut i: usize = 0;
    assert(all.skip(0) =~= all);
    while i < members.len()
        invariant
            i <= members.len(),
            all == member_views(members@),
            lookup(all, key@) == lookup(all.skip(i as int), key@),
        decreases members.len() - i,
    {
        assert(all.skip(i as int).first() == (members@[i as int].0@, members@[i as int].1@));
        if same_text(members[i].0.as_str(), key) {
            return Some(i);
        }
        assert(all.skip(i as int).drop_first() =~= all.skip(i + 1));
        i += 1;
    }
    None
}

impl Json {
    /// The member `key`, where the document is an object that has one.
    pub fn get(&self, key: &str) -> (res: Option<&Json>)
        ensures
            match res {
                Some(json) => member(self@, key@) == Some(json@),
                None => member(self@, key@) is None,
            },
    {
        proof {
            lemma_json_parts(*self);
        }
        match self {
            Json::Object(members) => match member_index(members, key) {
                Some(i) => Some(&members[i].1),
                None => None,
            },
            _ => None,
        }
    }
}

/// The member of a key is that of its first occurrence, and there is none where
/// the key does not occur; only objects have members.
pub proof fn law_member_is_the_first_of_its_name(
    members: Seq<(Seq<char>, JsonView)>,
    json: JsonView,
    key: Seq<char>,
)
    ensures
        match member(JsonView::Object(members), key) {
            Some(value) => exists|i: int|
                {
                    &&& 0 <= i < members.len()
                    &&& #[trigger] members[i] == (key, value)
                    &&& forall|j: int| 0 <= j < i ==> (#[trigger] members[j]).0 != key
                },
            None => forall|i: int| 0 <= i < members.len() ==> (#[trigger] members[i]).0 != key,
        },
        !(json is Object) ==> member(json, key) is None,
    decreases members.len(),
{
    if members.len() > 0 && members.first().0 != key {
        let rest = members.drop_first();
        law_member_is_the_first_of_its_name(rest, json, key);
        match member(JsonView::Object(rest), key) {
            Some(value) => {
                let i = choose|i: int|
                    {
                        &&& 0 <= i < rest.len()
                        &&& #[trigger] rest[i] == (key, value)
                        &&& forall|j: int| 0 <= j < i ==> (#[trigger] rest[j]).0 != key
                    };
                assert(members[i + 1] == (key, value));
                assert forall|j: int| 0 <= j < i + 1 implies (#[trigger] members[j]).0 != key by {
                    if j > 0 {
                        assert(members[j] == rest[j - 1]);
                    }
                }
            },
            None => {
                assert forall|i: int| 0 <= i < members.len() implies (#[trigger] members[i]).0
                    != key by {
                    if i > 0 {
                        assert(members[i] == rest[i - 1]);
                    }
                }
            },
        }
    } else if members.len() > 0 {
        assert(members[0] == (key, members.first().1));
    }
}

/// A document stands for what it holds, part by part.
pub proof fn law_documents_stand_for_their_parts(json: Json, i: int)
    ensures
        match json {
            Json::Null => json@ == JsonView::Null,
            Json::Bool(b) => json@ == JsonView::Bool(b),
            Json::Unsigned(n) => json@ == JsonView::Unsigned(n),
            Json::Negative(n) => json@ == JsonView::Negative(n),
            Json::Float(s) => json@ == JsonView::Float(s@),
            Json::Text(s) => json@ == JsonView::Text(s@),
            Json::Array(items) => json@ matches JsonView::Array(views) && views.len()
                == items@.len() && (0 <= i < items@.len() ==> views[i] == items@[i]@),
            Json::Object(members) => json@ matches JsonView::Object(views) && views.len()
                == members@.len() && (0 <= i < members@.len() ==> views[i] == (
                members@[i].0@,
                members@[i].1@,
            )),
        },
{
}

} // verus!
