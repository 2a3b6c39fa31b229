use crate::index::entry_pairs;
use vstd::prelude::*;

verus! {

#[verifier::external_type_specification]
#[verifier::external_body]
pub struct ExJsonError(serde_json::Error);

/// The JSON text of an object with the given (key, string value) members.
pub uninterp spec fn json_object_text(members: Seq<(Seq<char>, Seq<char>)>) -> Seq<char>;

/// The (key, value) pairs that a JSON text yields when read as a map from
/// string to string; `None` where it is not such a map.
pub uninterp spec fn json_object_members(text: Seq<char>) -> Option<Seq<(Seq<char>, Seq<char>)>>;

/// Relies on `serde_json::to_string` of a `serde_json::Map` holding each pair
/// as a string member; it fails only for a failing `Serialize` impl or a map
/// with non-string keys, neither of which a map of strings has.
#[verifier::external_body]
pub(crate) fn encode_object(members: &Vec<(String, String)>) -> (r: Result<String, serde_json::Error>)
    ensures
        r is Ok,
        r is Ok ==> r->Ok_0@ == json_object_text(entry_pairs(members@)),
{
    let map: serde_json::Map<String, serde_json::Value> = members
        .iter()
        .map(|(k, v)| (k.clone(), serde_json::Value::String(v.clone())))
        .collect();
    serde_json::to_string(&map)
}

/// Relies on `serde_json::from_str` into a `BTreeMap<String, String>`: it
/// succeeds exactly on an object of string members, which it hands back.
#[verifier::external_body]
pub(crate) fn decode_object(text: &str) -> (r: Result<Vec<(String, String)>, serde_json::Error>)
    ensures
        r is Ok <==> json_object_members(text@) is Some,
        r is Ok ==> entry_pairs(r->Ok_0@) == json_object_members(text@)->Some_0,
{
    serde_json::from_str::<std::collections::BTreeMap<String, String>>(text).map(|m| m.into_iter().collect())
}

} // verus!
