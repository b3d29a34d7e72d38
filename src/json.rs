//! JSON documents as plain values, and reading members out of them.

use vstd::prelude::*;
use crate::text::same_text;

verus! {

/// A JSON document as the library reads it.
///
/// Numbers are kept only where they are non-negative integers that fit in `u64`;
/// an object's members keep their order, with distinct keys.
pub enum JsonValue {
    Null,
    Bool(bool),
    Number(Option<u64>),
    Str(String),
    Array(Vec<JsonValue>),
    Object(Vec<(String, JsonValue)>),
}

/// The value of the first member named `key`.
pub open spec fn member(fields: Seq<(String, JsonValue)>, key: Seq<char>) -> Option<JsonValue>
    decreases fields.len(),
{
    if fields.len() == 0 {
        None
    } else if fields[0].0@ == key {
        Some(fields[0].1)
    } else {
        member(fields.drop_first(), key)
    }
}

/// Looks up the member named `key`.
pub fn get_member<'a>(fields: &'a Vec<(String, JsonValue)>, key: &str) -> (r: Option<&'a JsonValue>)
    ensures
        r matches Some(v) ==> member(fields@, key@) == Some(*v),
        r is None ==> member(fields@, key@) is None,
{
    let mut i: usize = 0;
    assert(fields@.skip(0) =~= fields@);
    while i < fields.len()
        invariant
            i <= fields@.len(),
            member(fields@, key@) == member(fields@.skip(i as int), key@),
        decreases fields@.len() - i,
    {
        assert(fields@.skip(i as int).drop_first() =~= fields@.skip(i + 1));
        if same_text(fields[i].0.as_str(), key) {
            return Some(&fields[i].1);
        }
        i = i + 1;
    }
    None
}

/// The string held under `key` in `v`, where `v` is an object with such a member.
pub open spec fn string_member(v: JsonValue, key: Seq<char>) -> Option<Seq<char>> {
    match v {
        JsonValue::Object(fields) => match member(fields@, key) {
            Some(JsonValue::Str(s)) => Some(s@),
            _ => None,
        },
        _ => None,
    }
}

/// The strings under `key` of the items that have one, in order; other items are passed over.
pub open spec fn string_members(items: Seq<JsonValue>, key: Seq<char>) -> Seq<Seq<char>>
    decreases items.len(),
{
    if items.len() == 0 {
        seq![]
    } else {
        let rest = string_members(items.drop_last(), key);
        match string_member(items.last(), key) {
            Some(s) => rest.push(s),
            None => rest,
        }
    }
}

/// The characters of each string, in order.
pub open spec fn texts(v: Seq<String>) -> Seq<Seq<char>> {
    v.map_values(|s: String| s@)
}

/// Every item is an object.
pub open spec fn all_objects(items: Seq<JsonValue>) -> bool {
    forall|i: int| 0 <= i < items.len() ==> items[i] is Object
}

/// Gathers the strings under `key` of the items that are objects with such a member.
pub fn collect_string_members(items: &Vec<JsonValue>, key: &str) -> (r: Vec<String>)
    ensures
        texts(r@) == string_members(items@, key@),
{
    let mut out: Vec<String> = Vec::new();
    let mut i: usize = 0;
    while i < items.len()
        invariant
            i <= items@.len(),
            texts(out@) == string_members(items@.take(i as int), key@),
        decreases items@.len() - i,
    {
        assert(items@.take(i + 1).drop_last() =~= items@.take(i as int));
        assert(items@.take(i + 1).last() == items@[i as int]);
        if let JsonValue::Object(fields) = &items[i] {
            if let Some(JsonValue::Str(s)) = get_member(fields, key) {
                out.push(s.clone());
                assert(texts(out@) =~= string_members(items@.take(i as int), key@).push(s@));
            }
        }
        i = i + 1;
    }
    assert(items@.take(items@.len() as int) =~= items@);
    out
}

/// Whether every item is an object.
pub fn check_all_objects(items: &Vec<JsonValue>) -> (r: bool)
    ensures
        r == all_objects(items@),
{
    let mut i: usize = 0;
    while i < items.len()
        invariant
            i <= items@.len(),
            forall|j: int| 0 <= j < i ==> items@[j] is Object,
        decreases items@.len() - i,
    {
        if !matches!(&items[i], JsonValue::Object(_)) {
            return false;
        }
        i = i + 1;
    }
    true
}

} // verus!
