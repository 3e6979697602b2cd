//! JSON values, as far as the trailer of a log needs them. The text of a
//! value is read and written by `serde_json`; what a value holds is looked at
//! here.

use vstd::prelude::*;
use vstd::string::*;

verus! {

// ---------------------------------------------------------------------------
// Values
// ---------------------------------------------------------------------------
/// A JSON value. Of a number only the unsigned integer of 64 bits that it is,
/// if it is one, is held. The members of an object that was read stand
/// sorted by their names, each name once, for so `serde_json` hands them
/// out; when an object is written, `serde_json` sorts its members by their
/// names again, whatever their order here, and of members with one name it
/// writes the last.
#[derive(Debug, PartialEq, Eq)]
pub enum Json {
    Null,
    Bool(bool),
    Number(Option<u64>),
    Text(String),
    Array(Vec<Json>),
    Object(Vec<(String, Json)>),
}

/// The mathematical value of a [`Json`].
pub enum JsonView {
    Null,
    Bool(bool),
    Number(Option<u64>),
    Text(Seq<char>),
    Array(Seq<JsonView>),
    Object(Seq<(Seq<char>, JsonView)>),
}

/// The values of `items`.
pub open spec fn json_items_view(items: Seq<Json>) -> Seq<JsonView>
    decreases items, 0nat,
{
    if items.len() == 0 {
        Seq::empty()
    } else {
        json_items_view(items.drop_last()).push(json_view(items.last()))
    }
}

/// The names and the values of `members`.
pub open spec fn json_members_view(members: Seq<(String, Json)>) -> Seq<(Seq<char>, JsonView)>
    decreases members, 0nat,
{
    if members.len() == 0 {
        Seq::empty()
    } else {
        json_members_view(members.drop_last()).push(
            (members.last().0@, json_view(members.last().1)),
        )
    }
}

/// The value of `json`.
pub open spec fn json_view(json: Json) -> JsonView
    decreases json, 1nat,
{
    match json {
        Json::Null => JsonView::Null,
        Json::Bool(b) => JsonView::Bool(b),
        Json::Number(n) => JsonView::Number(n),
        Json::Text(s) => JsonView::Text(s@),
        Json::Array(items) => JsonView::Array(json_items_view(items@)),
        Json::Object(members) => JsonView::Object(json_members_view(members@)),
    }
}

impl View for Json {
    type V = JsonView;

    open spec fn view(&self) -> JsonView {
        json_view(*self)
    }
}

/// Whether every number of the value is held: none stands for a number
/// that is no unsigned integer of 64 bits.
pub open spec fn numbers_held(json: JsonView) -> bool
    decreases json,
{
    match json {
        JsonView::Number(n) => n is Some,
        JsonView::Array(items) => forall|i: int|
            0 <= i < items.len() ==> numbers_held(#[trigger] items[i]),
        JsonView::Object(members) => forall|i: int|
            0 <= i < members.len() ==> numbers_held((#[trigger] members[i]).1),
        _ => true,
    }
}

/// The members of an object, one by one.
pub proof fn lemma_json_members_view(members: Seq<(String, Json)>)
    ensures
        json_members_view(members).len() == members.len(),
        forall|i: int|
            0 <= i < members.len() ==> #[trigger] json_members_view(members)[i] == (
                members[i].0@,
                members[i].1@,
            ),
    decreases members.len(),
{
    if members.len() > 0 {
        lemma_json_members_view(members.drop_last());
        assert forall|i: int| 0 <= i < members.len() implies #[trigger] json_members_view(
            members,
        )[i] == (members[i].0@, members[i].1@) by {
            if i < members.len() - 1 {
                assert(members.drop_last()[i] == members[i]);
            }
        }
    }
}

// ---------------------------------------------------------------------------
// Text
// ---------------------------------------------------------------------------
/// Makes `serde_json::Value` known, so that a value of it can be handed
/// from one function to the next; nothing is said of what it holds.
#[verifier::external_type_specification]
#[verifier::external_body]
pub struct ExValue(serde_json::Value);

/// What `serde_json::from_str` reads from a text as a `serde_json::Value`:
/// nothing where the text is no JSON.
pub uninterp spec fn json_of_text(text: Seq<char>) -> Option<JsonView>;

/// What `serde_json::to_string` writes for a value.
pub uninterp spec fn text_of_json(json: JsonView) -> Seq<char>;

/// Turns a `serde_json::Value` into a [`Json`], variant by variant; of a
/// number it takes what `as_u64` gives. Nothing is claimed of the result.
#[verifier::external_body]
fn json_of_value(value: serde_json::Value) -> Json {
    match value {
        serde_json::Value::Null => Json::Null,
        serde_json::Value::Bool(b) => Json::Bool(b),
        serde_json::Value::Number(n) => Json::Number(n.as_u64()),
        serde_json::Value::String(s) => Json::Text(s),
        serde_json::Value::Array(items) => Json::Array(
            items.into_iter().map(json_of_value).collect(),
        ),
        serde_json::Value::Object(members) => Json::Object(
            members.into_iter().map(|(k, v)| (k, json_of_value(v))).collect(),
        ),
    }
}

/// Turns a [`Json`] into a `serde_json::Value`, variant by variant; a number
/// goes through the conversion that `serde_json` has for an optional
/// integer. Nothing is claimed of the result.
#[verifier::external_body]
fn value_of_json(json: &Json) -> serde_json::Value {
    match json {
        Json::Null => serde_json::Value::Null,
        Json::Bool(b) => serde_json::Value::Bool(*b),
        Json::Number(n) => serde_json::Value::from(*n),
        Json::Text(s) => serde_json::Value::String(s.clone()),
        Json::Array(items) => serde_json::Value::Array(items.iter().map(value_of_json).collect()),
        Json::Object(members) => serde_json::Value::Object(
            members.iter().map(|(k, v)| (k.clone(), value_of_json(v))).collect(),
        ),
    }
}

/// Calls `serde_json::from_str` for a `serde_json::Value`. The contract only
/// names the result.
#[verifier::external_body]
pub(crate) fn parse_json(text: &str) -> (r: Option<Json>)
    ensures
        match r {
            Some(json) => json_of_text(text@) == Some(json@),
            None => json_of_text(text@) is None,
        },
{
    match serde_json::from_str::<serde_json::Value>(text) {
        Ok(value) => Some(json_of_value(value)),
        Err(_) => None,
    }
}

/// Calls `serde_json::to_string` on the value, in which every number has to
/// be held. The contract only names the result.
#[verifier::external_body]
pub(crate) fn write_json(json: &Json) -> (s: String)
    requires
        numbers_held(json@),
    ensures
        s@ == text_of_json(json@),
{
    serde_json::to_string(&value_of_json(json)).unwrap_or_default()
}

// ---------------------------------------------------------------------------
// Members
// ---------------------------------------------------------------------------
/// The value of the first member with the name `key` among `members[i..]`.
pub open spec fn member_from(members: Seq<(Seq<char>, JsonView)>, key: Seq<char>, i: int) -> Option<
    JsonView,
>
    decreases members.len() - i,
{
    if i < 0 || i >= members.len() {
        None
    } else if members[i].0 == key {
        Some(members[i].1)
    } else {
        member_from(members, key, i + 1)
    }
}

/// The value of the first member with the name `key`.
pub open spec fn member(members: Seq<(Seq<char>, JsonView)>, key: Seq<char>) -> Option<JsonView> {
    member_from(members, key, 0)
}

/// The text of the member `key`, where there is such a member and it is a
/// text.
pub open spec fn text_member(members: Seq<(Seq<char>, JsonView)>, key: Seq<char>) -> Option<
    Seq<char>,
> {
    match member(members, key) {
        Some(JsonView::Text(s)) => Some(s),
        _ => None,
    }
}

/// The value of the first member with the name `key`.
pub fn find_member<'a>(members: &'a Vec<(String, Json)>, key: &str) -> (r: Option<&'a Json>)
    ensures
        match r {
            Some(json) => member(json_members_view(members@), key@) == Some(json@),
            None => member(json_members_view(members@), key@) is None,
        },
{
    let ghost mv = json_members_view(members@);
    let mut i: usize = 0;
    proof {
        lemma_json_members_view(members@);
    }
    while i < members.len()
        invariant
            0 <= i <= members.len(),
            mv == json_members_view(members@),
            mv.len() == members@.len(),
            forall|k: int|
                0 <= k < members@.len() ==> #[trigger] mv[k] == (members@[k].0@, members@[k].1@),
            member(mv, key@) == member_from(mv, key@, i as int),
        decreases members.len() - i,
    {
        if crate::text::str_equal(members[i].0.as_str(), key) {
            return Some(&members[i].1);
        }
        i += 1;
    }
    None
}

/// The text of the member `key`.
pub fn find_text_member(members: &Vec<(String, Json)>, key: &str) -> (r: Option<String>)
    ensures
        r.deep_view() == text_member(json_members_view(members@), key@),
{
    match find_member(members, key) {
        Some(Json::Text(s)) => Some(s.clone()),
        _ => None,
    }
}

} // verus!
