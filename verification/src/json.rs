//! Reading JSON: the members of an object, and the values that are read of them.
use crate::model::texts;
use crate::text::same_text;
use serde_json::value::RawValue;
use std::collections::BTreeMap;
use vstd::prelude::*;

verus! {

/// `serde_json::Error`: why a text is not the JSON that was asked for.
#[verifier::external_type_specification]
#[verifier::external_body]
pub struct ExJsonError(serde_json::Error);

/// Names of members and the JSON texts of their values.
pub type Members = Vec<(String, String)>;

/// What [`Members`] hold, as mathematical values.
pub open spec fn members_view(members: Seq<(String, String)>) -> Seq<(Seq<char>, Seq<char>)> {
    members.map_values(|m: (String, String)| (m.0@, m.1@))
}

/// The members of the JSON object that `bytes` hold, by name, each with the JSON
/// text of its value; nothing if they hold no JSON object.
pub uninterp spec fn json_object_of(bytes: Seq<u8>) -> Option<Seq<(Seq<char>, Seq<char>)>>;

/// Calls `serde_json::from_slice` for an object, and hands out the JSON text of the
/// value of each of its members; of a name that comes twice the last one counts. The
/// result is named: it is a function of the bytes alone.
#[verifier::external_body]
pub(crate) fn json_object(bytes: &[u8]) -> (res: Result<Members, serde_json::Error>)
    ensures
        match res {
            Ok(members) => json_object_of(bytes@) == Some(members_view(members@)),
            Err(_) => json_object_of(bytes@) is None,
        },
{
    let members: BTreeMap<String, Box<RawValue>> = serde_json::from_slice(bytes)?;
    Ok(members.into_iter().map(|(name, value)| (name, value.get().to_string())).collect())
}

/// The JSON texts of the items of the JSON array that `bytes` hold, in order; nothing if
/// they hold no JSON array.
pub uninterp spec fn json_array_of(bytes: Seq<u8>) -> Option<Seq<Seq<char>>>;

/// Calls `serde_json::from_slice` for an array, and hands out the JSON text of each of
/// its items. The result is named: it is a function of the bytes alone.
#[verifier::external_body]
pub(crate) fn json_array(bytes: &[u8]) -> (res: Result<Vec<String>, serde_json::Error>)
    ensures
        match res {
            Ok(items) => json_array_of(bytes@) == Some(texts(items@)),
            Err(_) => json_array_of(bytes@) is None,
        },
{
    let items: Vec<Box<RawValue>> = serde_json::from_slice(bytes)?;
    Ok(items.into_iter().map(|item| item.get().to_string()).collect())
}

/// The string that `json` is the JSON text of; nothing if it is none of a string.
pub uninterp spec fn json_string_of(json: Seq<char>) -> Option<Seq<char>>;

/// Calls `serde_json::from_str` for a string. The result is named: it is a
/// function of the text alone.
#[verifier::external_body]
pub(crate) fn json_string(json: &str) -> (res: Result<String, serde_json::Error>)
    ensures
        match res {
            Ok(text) => json_string_of(json@) == Some(text@),
            Err(_) => json_string_of(json@) is None,
        },
{
    serde_json::from_str(json)
}

/// The strings that `json` is the JSON text of a list of; nothing if it is none of a
/// list of strings.
pub uninterp spec fn json_strings_of(json: Seq<char>) -> Option<Seq<Seq<char>>>;

/// Calls `serde_json::from_str` for a list of strings. The result is named: it is a
/// function of the text alone.
#[verifier::external_body]
pub(crate) fn json_strings(json: &str) -> (res: Result<Vec<String>, serde_json::Error>)
    ensures
        match res {
            Ok(names) => json_strings_of(json@) == Some(texts(names@)),
            Err(_) => json_strings_of(json@) is None,
        },
{
    serde_json::from_str(json)
}

/// The number that `json` is the JSON text of; nothing if it is none of a 64-bit
/// unsigned integer.
pub uninterp spec fn json_u64_of(json: Seq<char>) -> Option<u64>;

/// Calls `serde_json::from_str` for a 64-bit unsigned integer. The result is named:
/// it is a function of the text alone.
#[verifier::external_body]
pub(crate) fn json_u64(json: &str) -> (res: Result<u64, serde_json::Error>)
    ensures
        match res {
            Ok(number) => json_u64_of(json@) == Some(number),
            Err(_) => json_u64_of(json@) is None,
        },
{
    serde_json::from_str(json)
}

/// Writes `err` as its `Display` does. The wording is that of `serde_json`.
#[verifier::external_body]
pub(crate) fn json_error_text(err: &serde_json::Error) -> (text: String) {
    err.to_string()
}

/// The JSON text of the member `name`, if there is one.
pub open spec fn member_of(members: Seq<(Seq<char>, Seq<char>)>, name: Seq<char>) -> Option<
    Seq<char>,
>
    decreases members.len(),
{
    if members.len() == 0 {
        None
    } else if members[0].0 == name {
        Some(members[0].1)
    } else {
        member_of(members.skip(1), name)
    }
}

/// The string that is the member `name` of the JSON object `bytes`, if there is one.
pub open spec fn string_member_of(bytes: Seq<u8>, name: Seq<char>) -> Option<Seq<char>> {
    match json_object_of(bytes) {
        Some(members) => match member_of(members, name) {
            Some(json) => json_string_of(json),
            None => None,
        },
        None => None,
    }
}

/// What an optional text holds.
pub open spec fn text_view(text: Option<String>) -> Option<Seq<char>> {
    match text {
        Some(t) => Some(t@),
        None => None,
    }
}

/// Finds the JSON text of the member `name`.
pub fn member(members: &Members, name: &str) -> (res: Option<String>)
    ensures
        text_view(res) == member_of(members_view(members@), name@),
{
    let ghost all = members_view(members@);
    assert(all.skip(0) =~= all);
    for i in 0..members.len()
        invariant
            all == members_view(members@),
            member_of(all.skip(i as int), name@) == member_of(all, name@),
    {
        let (key, value) = &members[i];
        assert(all.skip(i as int)[0] == (key@, value@));
        assert(all.skip(i as int).skip(1) =~= all.skip(i + 1));
        if same_text(key.as_str(), name) {
            return Some(value.clone());
        }
    }
    None
}

/// What a record with the one field `name` holds, that `bytes` are the JSON of: the JSON
/// text of the field, or nothing where it is left out. A record is an object, or an
/// array of its fields. Nothing at all if they are the JSON of no such record.
pub open spec fn record_of(bytes: Seq<u8>, name: Seq<char>) -> Option<Option<Seq<char>>> {
    match json_object_of(bytes) {
        Some(members) => Some(member_of(members, name)),
        None => match json_array_of(bytes) {
            Some(items) => if items.len() == 1 {
                Some(Some(items[0]))
            } else {
                None
            },
            None => None,
        },
    }
}

/// Reads a record with the one field `name`.
pub fn read_record(bytes: &[u8], name: &str) -> (res: Result<Option<String>, serde_json::Error>)
    ensures
        match res {
            Ok(field) => record_of(bytes@, name@) == Some(text_view(field)),
            Err(_) => record_of(bytes@, name@) is None,
        },
{
    match json_object(bytes) {
        Ok(members) => Ok(member(&members, name)),
        Err(e) => match json_array(bytes) {
            Ok(items) => {
                if items.len() == 1 {
                    let item = items[0].clone();
                    assert(texts(items@)[0] == item@);
                    Ok(Some(item))
                } else {
                    Err(e)
                }
            },
            Err(_) => Err(e),
        },
    }
}

/// The member found is the first with that name, and none is found only where no member
/// has it.
pub proof fn lemma_member(members: Seq<(Seq<char>, Seq<char>)>, name: Seq<char>)
    ensures
        match member_of(members, name) {
            Some(json) => exists|i: int|
                0 <= i < members.len() && #[trigger] members[i] == (name, json) && forall|j: int|
                    0 <= j < i ==> (#[trigger] members[j]).0 != name,
            None => forall|i: int| 0 <= i < members.len() ==> (#[trigger] members[i]).0 != name,
        },
    decreases members.len(),
{
    if members.len() > 0 && members[0].0 != name {
        let rest = members.skip(1);
        lemma_member(rest, name);
        match member_of(rest, name) {
            Some(json) => {
                let i = choose|i: int|
                    0 <= i < rest.len() && #[trigger] rest[i] == (name, json) && forall|j: int|
                        0 <= j < i ==> (#[trigger] rest[j]).0 != name;
                assert(members[i + 1] == (name, json));
                assert forall|j: int| 0 <= j < i + 1 implies (#[trigger] members[j]).0 != name by {
                    if j > 0 {
                        assert(rest[j - 1] == members[j]);
                    }
                }
            },
            None => {
                assert forall|i: int| 0 <= i < members.len() implies (#[trigger] members[i]).0
                    != name by {
                    if i > 0 {
                        assert(rest[i - 1] == members[i]);
                    }
                }
            },
        }
    } else if members.len() > 0 {
        assert(members[0] == (name, members[0].1));
    }
}

/// The members are those of the vector, in order.
pub proof fn lemma_members_view(members: Seq<(String, String)>)
    ensures
        members_view(members).len() == members.len(),
        forall|i: int|
            0 <= i < members.len() ==> #[trigger] members_view(members)[i] == (
                members[i].0@,
                members[i].1@,
            ),
{
}

/// A record is read from an object by the name of its field, and from an array of one
/// item by its place.
pub proof fn lemma_record(bytes: Seq<u8>, name: Seq<char>)
    ensures
        json_object_of(bytes) matches Some(members) ==> record_of(bytes, name) == Some(
            member_of(members, name),
        ),
        json_object_of(bytes) is None ==> (record_of(bytes, name) is Some <==> (json_array_of(
            bytes,
        ) matches Some(items) && items.len() == 1)),
        json_object_of(bytes) is None ==> (json_array_of(bytes) matches Some(items)
            ==> items.len() == 1 ==> record_of(bytes, name) == Some(Some(items[0]))),
{
}

/// The view of an optional text loses nothing of it.
pub proof fn lemma_text_view(text: Option<String>)
    ensures
        text_view(text) is Some <==> text is Some,
        text is Some ==> text_view(text)->0 == text->0@,
{
}

/// A string member is found in an object that has it and is of that kind.
pub proof fn lemma_string_member(bytes: Seq<u8>, name: Seq<char>)
    ensures
        string_member_of(bytes, name) is Some <==> json_object_of(bytes) is Some && member_of(
            json_object_of(bytes)->0,
            name,
        ) is Some && json_string_of(member_of(json_object_of(bytes)->0, name)->0) is Some,
        string_member_of(bytes, name) is Some ==> string_member_of(bytes, name) == json_string_of(
            member_of(json_object_of(bytes)->0, name)->0,
        ),
{
}

} // verus!
