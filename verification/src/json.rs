//! A JSON document as plain values, and the reads the library makes of it.
use vstd::prelude::*;
use crate::text::str_eq;

verus! {

/// A JSON value. Numbers keep only their value as a 64-bit signed integer, when they
/// have one.
pub enum JsonValue {
    Null,
    Bool(bool),
    Number(Option<i64>),
    Str(String),
    Array(Vec<JsonValue>),
    Object(Vec<(String, JsonValue)>),
}

/// The member `key` of an object (its first entry with that key); nothing for other values.
pub open spec fn json_get(v: JsonValue, key: Seq<char>) -> Option<JsonValue> {
    match v {
        JsonValue::Object(entries) => member(entries@, key),
        _ => None,
    }
}

/// The value of the first entry with the key.
pub open spec fn member(s: Seq<(String, JsonValue)>, key: Seq<char>) -> Option<JsonValue>
    decreases s.len(),
{
    if s.len() == 0 {
        None
    } else if s[0].0@ == key {
        Some(s[0].1)
    } else {
        member(s.skip(1), key)
    }
}

/// The text of a string value.
pub open spec fn json_str(v: Option<JsonValue>) -> Option<Seq<char>> {
    match v {
        Some(JsonValue::Str(s)) => Some(s@),
        _ => None,
    }
}

/// The integer of a number that has one.
pub open spec fn json_i64(v: Option<JsonValue>) -> Option<i64> {
    match v {
        Some(JsonValue::Number(n)) => n,
        _ => None,
    }
}

/// The string items of a sequence of values, in order.
pub open spec fn string_items(items: Seq<JsonValue>) -> Seq<Seq<char>>
    decreases items.len(),
{
    if items.len() == 0 {
        Seq::empty()
    } else {
        match items[0] {
            JsonValue::Str(s) => seq![s@] + string_items(items.skip(1)),
            _ => string_items(items.skip(1)),
        }
    }
}

/// The strings of an array value; empty for anything else.
pub open spec fn json_strings(v: Option<JsonValue>) -> Seq<Seq<char>> {
    match v {
        Some(JsonValue::Array(items)) => string_items(items@),
        _ => Seq::empty(),
    }
}

/// The member `key` of an object value.
pub fn get<'a>(v: &'a JsonValue, key: &str) -> (r: Option<&'a JsonValue>)
    ensures
        match r {
            Some(x) => json_get(*v, key@) == Some(*x),
            None => json_get(*v, key@) is None,
        },
{
    match v {
        JsonValue::Object(entries) => {
            let mut i: usize = 0;
            assert(entries@.skip(0) =~= entries@);
            while i < entries.len()
                invariant
                    i <= entries@.len(),
                    json_get(*v, key@) == member(entries@.skip(i as int), key@),
                decreases entries.len() - i,
            {
                proof {
                    assert(entries@.skip(i as int).skip(1) =~= entries@.skip(i + 1));
                    assert(entries@.skip(i as int)[0] == entries@[i as int]);
                }
                if str_eq(entries[i].0.as_str(), key) {
                    assert(member(entries@.skip(i as int), key@) == Some(entries@[i as int].1));
                    return Some(&entries[i].1);
                }
                i = i + 1;
            }
            assert(entries@.skip(i as int) =~= Seq::<(String, JsonValue)>::empty());
            None
        },
        _ => None,
    }
}

/// The text of a string value.
pub fn as_str<'a>(v: Option<&'a JsonValue>) -> (r: Option<&'a String>)
    ensures
        match r {
            Some(s) => json_str(
                match v {
                    Some(x) => Some(*x),
                    None => None,
                },
            ) == Some(s@),
            None => json_str(
                match v {
                    Some(x) => Some(*x),
                    None => None,
                },
            ) is None,
        },
{
    match v {
        Some(JsonValue::Str(s)) => Some(s),
        _ => None,
    }
}

/// The string items of a value (empty unless it is an array).
pub fn strings_of(v: Option<&JsonValue>) -> (r: Vec<String>)
    ensures
        r@.map_values(|s: String| s@) == json_strings(
            match v {
                Some(x) => Some(*x),
                None => None,
            },
        ),
{
    match v {
        Some(JsonValue::Array(items)) => {
            let mut r: Vec<String> = Vec::new();
            let mut i: usize = 0;
            assert(items@.skip(0) =~= items@);
            while i < items.len()
                invariant
                    i <= items@.len(),
                    string_items(items@) == r@.map_values(|s: String| s@) + string_items(
                        items@.skip(i as int),
                    ),
                decreases items.len() - i,
            {
                proof {
                    assert(items@.skip(i as int).skip(1) =~= items@.skip(i + 1));
                    assert(items@.skip(i as int)[0] == items@[i as int]);
                }
                match &items[i] {
                    JsonValue::Str(s) => {
                        let ghost before = r@;
                        r.push(s.clone());
                        assert(r@.map_values(|s: String| s@) =~= before.map_values(|s: String| s@).push(
                            s@,
                        ));
                        assert(r@.map_values(|s: String| s@) + string_items(items@.skip(i + 1))
                            =~= before.map_values(|s: String| s@) + (seq![s@] + string_items(
                            items@.skip(i + 1),
                        )));
                    },
                    _ => {},
                }
                i = i + 1;
            }
            assert(items@.skip(i as int) =~= Seq::<JsonValue>::empty());
            assert(r@.map_values(|s: String| s@) + Seq::<Seq<char>>::empty() =~= r@.map_values(
                |s: String| s@,
            ));
            r
        },
        _ => Vec::new(),
    }
}

} // verus!
