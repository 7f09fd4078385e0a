//! JSON values, as `serde_json` builds and prints them.
//!
//! A `serde_json::Value` is opaque to the verifier. What it holds is named
//! by [`json_value`], a tree of [`Json`]; every function in this module that
//! makes such a value says which tree it holds. None of these contracts is
//! proved: they restate what `serde_json` does, with the feature that keeps
//! the members of an object in the order of their insertion.

use vstd::prelude::*;

verus! {

/// `serde_json::Value`: a JSON value, opaque here.
#[verifier::external_type_specification]
#[verifier::external_body]
pub struct ExValue(serde_json::Value);

/// `serde_json::Map`: the members of a JSON object, opaque here.
#[verifier::external_type_specification]
#[verifier::external_body]
#[verifier::reject_recursive_types(K)]
#[verifier::reject_recursive_types(V)]
pub struct ExMap<K, V>(serde_json::Map<K, V>);

/// `serde_json::Error`: why a value could not be written or read, opaque
/// here.
#[verifier::external_type_specification]
#[verifier::external_body]
pub struct ExError(serde_json::Error);

/// The content of a JSON value. Numbers are integers here: no other number
/// is ever built. The members of an object are in order.
pub enum Json {
    Null,
    Bool(bool),
    Number(int),
    String(Seq<char>),
    Array(Seq<Json>),
    Object(Seq<(Seq<char>, Json)>),
}

/// What a `serde_json::Value` holds.
pub uninterp spec fn json_value(value: serde_json::Value) -> Json;

/// What a `serde_json::Map` holds: its members, in the order of iteration.
pub uninterp spec fn json_members(map: serde_json::Map<String, serde_json::Value>) -> Seq<
    (Seq<char>, Json),
>;

/// The text that `serde_json::to_string_pretty` gives for a value that holds
/// `json`.
pub uninterp spec fn pretty_text(json: Json) -> Seq<char>;

/// What each of `values` holds, in order.
pub open spec fn json_values(values: Seq<serde_json::Value>) -> Seq<Json> {
    values.map_values(|value: serde_json::Value| json_value(value))
}

/// The keys of `members`, in order.
pub open spec fn member_keys(members: Seq<(Seq<char>, Json)>) -> Seq<Seq<char>> {
    members.map_values(|member: (Seq<char>, Json)| member.0)
}

/// The position of the member with key `key`, or the length of `members`
/// where none has it.
pub open spec fn member_index(members: Seq<(Seq<char>, Json)>, key: Seq<char>) -> int
    decreases members.len(),
{
    if members.len() == 0 {
        0
    } else if members[0].0 == key {
        0
    } else {
        1 + member_index(members.drop_first(), key)
    }
}

/// `members` after the insertion of `key` with `value`: a member with that
/// key keeps its place and takes the new value; a new key goes to the end.
pub open spec fn members_insert(
    members: Seq<(Seq<char>, Json)>,
    key: Seq<char>,
    value: Json,
) -> Seq<(Seq<char>, Json)> {
    let at = member_index(members, key);
    if at < members.len() {
        members.update(at, (key, value))
    } else {
        members.push((key, value))
    }
}

/// `member_index` gives the first member with the key, where there is one.
pub proof fn lemma_member_index(members: Seq<(Seq<char>, Json)>, key: Seq<char>)
    ensures
        0 <= member_index(members, key) <= members.len(),
        member_index(members, key) < members.len() ==> members[member_index(members, key)].0
            == key,
        forall|i: int| 0 <= i < member_index(members, key) ==> (#[trigger] members[i]).0 != key,
    decreases members.len(),
{
    if members.len() > 0 && members[0].0 != key {
        let rest = members.drop_first();
        lemma_member_index(rest, key);
        assert forall|i: int| 0 <= i < member_index(members, key) implies (#[trigger] members[i]).0
            != key by {
            if i > 0 {
                assert(members[i] == rest[i - 1]);
            }
        }
    }
}

/// An insertion leaves the keys as they are where the key is among them,
/// and puts the key last where it is not.
pub proof fn lemma_members_insert_keys(
    members: Seq<(Seq<char>, Json)>,
    key: Seq<char>,
    value: Json,
)
    ensures
        member_keys(members_insert(members, key, value)) == if member_keys(members).contains(key) {
            member_keys(members)
        } else {
            member_keys(members).push(key)
        },
{
    lemma_member_index(members, key);
    let at = member_index(members, key);
    let keys = member_keys(members);
    if at < members.len() {
        assert(keys[at] == key);
        assert(member_keys(members.update(at, (key, value))) =~= keys);
    } else {
        if keys.contains(key) {
            let i = choose|i: int| 0 <= i < keys.len() && keys[i] == key;
            assert(members[i].0 == key);
        }
        assert(member_keys(members.push((key, value))) =~= keys.push(key));
    }
}

/// `serde_json::Value::Null`.
#[verifier::external_body]
pub(crate) fn null() -> (value: serde_json::Value)
    ensures
        json_value(value) == Json::Null,
{
    serde_json::Value::Null
}

/// `Value::from(bool)`: the value is `Value::Bool` of that boolean.
#[verifier::external_body]
pub(crate) fn boolean(b: bool) -> (value: serde_json::Value)
    ensures
        json_value(value) == Json::Bool(b),
{
    serde_json::Value::from(b)
}

/// `Value::from(i64)`: the value is `Value::Number` of that integer.
#[verifier::external_body]
pub(crate) fn number(n: i64) -> (value: serde_json::Value)
    ensures
        json_value(value) == Json::Number(n as int),
{
    serde_json::Value::from(n)
}

/// `Value::from(&str)`: the value is `Value::String` of a copy of the text.
#[verifier::external_body]
pub(crate) fn string(text: &str) -> (value: serde_json::Value)
    ensures
        json_value(value) == Json::String(text@),
{
    serde_json::Value::from(text)
}

/// `Value::Array`: the value holds the given elements, in order.
#[verifier::external_body]
pub(crate) fn array(elements: Vec<serde_json::Value>) -> (value: serde_json::Value)
    ensures
        json_value(value) == Json::Array(json_values(elements@)),
{
    serde_json::Value::Array(elements)
}

/// `Value::Object`: the value holds the members of the map, in its order.
#[verifier::external_body]
pub(crate) fn object(map: serde_json::Map<String, serde_json::Value>) -> (value: serde_json::Value)
    ensures
        json_value(value) == Json::Object(json_members(map)),
{
    serde_json::Value::Object(map)
}

/// `Map::new`: a map without members.
#[verifier::external_body]
pub(crate) fn new_map() -> (map: serde_json::Map<String, serde_json::Value>)
    ensures
        json_members(map) == Seq::<(Seq<char>, Json)>::empty(),
{
    serde_json::Map::new()
}

/// `Map::insert`, which is the insertion of the index map beneath it: where
/// the key is present, its member keeps its place in the order and takes
/// the new value; where it is not, the new member is the last in order.
#[verifier::external_body]
pub(crate) fn insert(
    map: &mut serde_json::Map<String, serde_json::Value>,
    key: String,
    value: serde_json::Value,
)
    ensures
        json_members(*final(map)) == members_insert(
            json_members(*old(map)),
            key@,
            json_value(value),
        ),
{
    map.insert(key, value);
}

/// `serde_json::to_string_pretty` on a value. The call succeeds, and the
/// text depends on what the value holds alone; it is named [`pretty_text`].
///
/// The printer can fail in two ways: a value whose serialization fails, and
/// a writer that fails. A `Value` serializes itself by the calls of the
/// printer alone, variant by variant, with strings for the keys of an
/// object. The printer turns into an error nothing but a failure of its
/// writer, and the writer here is a byte vector in memory.
#[verifier::external_body]
pub(crate) fn to_string_pretty(value: &serde_json::Value) -> (result: Result<
    String,
    serde_json::Error,
>)
    ensures
        result is Ok,
        result matches Ok(text) ==> text@ == pretty_text(json_value(*value)),
{
    serde_json::to_string_pretty(value)
}

} // verus!
