use crate::text::{chars_equal, chars_of};
use vstd::prelude::*;

verus! {

/// A JSON number as the header injector reads it: its decimal rendering,
/// and the same value rounded to zero decimal places.
pub struct JsonNumber {
    pub text: String,
    pub rounded: String,
}

/// A JSON document, objects keeping their members in order.
pub enum Json {
    Null,
    Bool(bool),
    Number(JsonNumber),
    Str(String),
    Array(Vec<Json>),
    Object(Vec<(String, Json)>),
}

/// The value of the first member named `key`.
pub open spec fn member(es: Seq<(String, Json)>, key: Seq<char>) -> Option<Json>
    decreases es.len(),
{
    if es.len() == 0 {
        None
    } else if es[0].0@ == key {
        Some(es[0].1)
    } else {
        member(es.drop_first(), key)
    }
}

/// The value under `key` when `j` is an object that has it.
pub open spec fn field(j: Json, key: Seq<char>) -> Option<Json> {
    match j {
        Json::Object(es) => member(es@, key),
        _ => None,
    }
}

/// The value reached from `j` by following the keys in turn.
pub open spec fn at_path(j: Json, keys: Seq<Seq<char>>) -> Option<Json>
    decreases keys.len(),
{
    if keys.len() == 0 {
        Some(j)
    } else {
        match field(j, keys[0]) {
            Some(v) => at_path(v, keys.drop_first()),
            None => None,
        }
    }
}

/// The string at a path, if the value there is a string.
pub open spec fn text_at(j: Json, keys: Seq<Seq<char>>) -> Option<Seq<char>> {
    match at_path(j, keys) {
        Some(Json::Str(s)) => Some(s@),
        _ => None,
    }
}

/// The number at a path, if the value there is a number.
pub open spec fn number_at(j: Json, keys: Seq<Seq<char>>) -> Option<JsonNumber> {
    match at_path(j, keys) {
        Some(Json::Number(n)) => Some(n),
        _ => None,
    }
}

impl Json {
    /// The value under `key` when this is an object that has it.
    pub fn get(&self, key: &str) -> (r: Option<&Json>)
        ensures
            r is Some <==> field(*self, key@) is Some,
            r matches Some(v) ==> field(*self, key@) == Some(*v),
    {
        match self {
            Json::Object(es) => {
                let k = chars_of(key);
                let mut i: usize = 0;
                assert(es@.skip(0) =~= es@);
                while i < es.len()
                    invariant
                        i <= es@.len(),
                        k@ == key@,
                        field(*self, key@) == member(es@, key@),
                        member(es@, key@) == member(es@.skip(i as int), key@),
                    decreases es.len() - i,
                {
                    assert(es@.skip(i as int)[0] == es@[i as int]);
                    assert(es@.skip(i as int).drop_first() =~= es@.skip(i + 1));
                    let name = chars_of(es[i].0.as_str());
                    if chars_equal(&name, &k) {
                        assert(es@[i as int].0@ == key@);
                        assert(member(es@.skip(i as int), key@) == Some(es@[i as int].1));
                        return Some(&es[i].1);
                    }
                    i = i + 1;
                }
                None
            },
            _ => None,
        }
    }

    /// The string content when this is a string.
    pub fn as_str(&self) -> (r: Option<&String>)
        ensures
            r is Some <==> *self is Str,
            r matches Some(s) ==> *self == Json::Str(*s),
    {
        match self {
            Json::Str(s) => Some(s),
            _ => None,
        }
    }

    /// The number when this is a number.
    pub fn as_number(&self) -> (r: Option<&JsonNumber>)
        ensures
            r is Some <==> *self is Number,
            r matches Some(n) ==> *self == Json::Number(*n),
    {
        match self {
            Json::Number(n) => Some(n),
            _ => None,
        }
    }
}

} // verus!
