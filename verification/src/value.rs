use std::collections::HashMap;
use vstd::prelude::*;

verus! {

/// A JSON value as a mathematical object.
pub enum Json {
    Null,
    Bool(bool),
    Number(int),
    String(Seq<char>),
    /// The elements in the order in which the text gives them.
    Array(Seq<Json>),
    /// The members by key; the order in which the text gives them is forgotten.
    Object(Map<Seq<char>, Json>),
}

/// A parsed JSON value.
#[derive(Debug, PartialEq)]
pub enum JsonValue {
    Null,
    Bool(bool),
    Number(i64),
    String(String),
    Array(Vec<JsonValue>),
    Object(HashMap<String, JsonValue>),
}

/// The entries of a map keyed by strings, with each key replaced by its characters.
pub open spec fn entries(m: Map<String, JsonValue>) -> Map<Seq<char>, JsonValue> {
    Map::new(
        |k: Seq<char>| exists|s: String| #[trigger] m.contains_key(s) && s@ == k,
        |k: Seq<char>| m[choose|s: String| #[trigger] m.contains_key(s) && s@ == k],
    )
}

impl View for JsonValue {
    type V = Json;

    open spec fn view(&self) -> Json
        decreases self,
    {
        match self {
            JsonValue::Null => Json::Null,
            JsonValue::Bool(b) => Json::Bool(*b),
            JsonValue::Number(n) => Json::Number(*n as int),
            JsonValue::String(s) => Json::String(s@),
            JsonValue::Array(items) => Json::Array(
                Seq::new(
                    items@.len(),
                    |i: int|
                        if 0 <= i < items@.len() {
                            items@[i].view()
                        } else {
                            Json::Null
                        },
                ),
            ),
            JsonValue::Object(members) => Json::Object(
                Map::new(
                    |k: Seq<char>| entries(members@).contains_key(k),
                    |k: Seq<char>|
                        if entries(members@).contains_key(k) {
                            entries(members@)[k].view()
                        } else {
                            Json::Null
                        },
                ),
            ),
        }
    }
}

/// The elements of an array, each as a mathematical value.
pub open spec fn array_view(items: Seq<JsonValue>) -> Seq<Json> {
    Seq::new(items.len(), |i: int| items[i]@)
}

/// The members of an object, each value as a mathematical value.
pub open spec fn object_view(members: Map<String, JsonValue>) -> Map<Seq<char>, Json> {
    Map::new(|k: Seq<char>| entries(members).contains_key(k), |k: Seq<char>| entries(members)[k]@)
}

/// An array is seen as the sequence of its elements' views.
pub proof fn lemma_array_view(items: Vec<JsonValue>)
    ensures
        JsonValue::Array(items)@ == Json::Array(array_view(items@)),
{
    assert(JsonValue::Array(items)@->Array_0 =~= array_view(items@));
}

/// An object is seen as the map from its keys' characters to its values' views.
pub proof fn lemma_object_view(members: HashMap<String, JsonValue>)
    ensures
        JsonValue::Object(members)@ == Json::Object(object_view(members@)),
{
    assert(JsonValue::Object(members)@->Object_0 =~= object_view(members@));
}

/// Appending an element appends its view.
pub proof fn lemma_array_view_push(items: Seq<JsonValue>, item: JsonValue)
    ensures
        array_view(items.push(item)) == array_view(items).push(item@),
{
    assert(array_view(items.push(item)) =~= array_view(items).push(item@));
}

/// A map without entries is seen as the empty map.
pub proof fn lemma_object_view_empty()
    ensures
        object_view(Map::empty()) == Map::<Seq<char>, Json>::empty(),
{
    assert(object_view(Map::empty()) =~= Map::<Seq<char>, Json>::empty());
}

/// Binding a key's characters to a value binds them to the value's view.
pub proof fn lemma_object_view_insert(
    before: Map<String, JsonValue>,
    after: Map<String, JsonValue>,
    key: Seq<char>,
    value: JsonValue,
)
    requires
        entries(after) == entries(before).insert(key, value),
    ensures
        object_view(after) == object_view(before).insert(key, value@),
{
    assert(object_view(after) =~= object_view(before).insert(key, value@));
}

/// Binds `key` to `value` in `members`, in place of any value that `key` had.
///
/// This is std's `HashMap::insert`. vstd describes it only for key types that it
/// knows to hash and compare by their contents, and `String` is not among them.
/// The contract states what std documents: afterwards the key's characters lead
/// to the new value, and every other entry is as it was.
#[verifier::external_body]
pub(crate) fn insert_member(
    members: &mut HashMap<String, JsonValue>,
    key: String,
    value: JsonValue,
)
    ensures
        entries(final(members)@) == entries(old(members)@).insert(key@, value),
{
    members.insert(key, value);
}

/// Appends `c` to `text`.
///
/// This is std's `String::push`, of which vstd says nothing.
#[verifier::external_body]
pub(crate) fn push_char(text: &mut String, c: char)
    ensures
        final(text)@ == old(text)@.push(c),
{
    text.push(c);
}

} // verus!
