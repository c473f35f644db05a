//! A JSON value held as plain data, as tool arguments and results carry it.
use vstd::prelude::*;

use crate::text::{chars_occur_at, to_chars};

verus! {

/// A JSON number: a non-negative integer, a negative integer, or a
/// floating-point number held by its decimal text.
#[derive(Debug)]
pub enum JsonNumber {
    PosInt(u64),
    NegInt(i64),
    Float(String),
}

/// A JSON value. Object members keep the order in which they are iterated.
#[derive(Debug)]
pub enum JsonValue {
    Null,
    Bool(bool),
    Number(JsonNumber),
    Str(String),
    Array(Vec<JsonValue>),
    Object(Vec<(String, JsonValue)>),
}

/// A JSON value together with its compact serialization.
#[derive(Debug)]
pub struct JsonDoc {
    pub value: JsonValue,
    pub text: String,
}

/// A JSON number as plain values.
pub enum Num {
    PosInt(u64),
    NegInt(i64),
    Float(Seq<char>),
}

/// A JSON value as plain values: strings as characters, arrays and objects
/// as sequences.
pub enum Json {
    Null,
    Bool(bool),
    Number(Num),
    Str(Seq<char>),
    Array(Seq<Json>),
    Object(Seq<(Seq<char>, Json)>),
}

pub open spec fn num_view(n: JsonNumber) -> Num {
    match n {
        JsonNumber::PosInt(u) => Num::PosInt(u),
        JsonNumber::NegInt(i) => Num::NegInt(i),
        JsonNumber::Float(t) => Num::Float(t@),
    }
}

/// The plain-value view of a JSON value.
pub open spec fn json_view(j: JsonValue) -> Json
    decreases j,
{
    match j {
        JsonValue::Null => Json::Null,
        JsonValue::Bool(b) => Json::Bool(b),
        JsonValue::Number(n) => Json::Number(num_view(n)),
        JsonValue::Str(s) => Json::Str(s@),
        JsonValue::Array(v) => Json::Array(items_view(v@)),
        JsonValue::Object(m) => Json::Object(entries_view(m@)),
    }
}

/// The views of a sequence of values.
pub open spec fn items_view(s: Seq<JsonValue>) -> Seq<Json>
    decreases s,
{
    if s.len() == 0 {
        Seq::empty()
    } else {
        items_view(s.subrange(0, s.len() - 1)).push(json_view(s[s.len() - 1]))
    }
}

/// The views of a sequence of object members.
pub open spec fn entries_view(s: Seq<(String, JsonValue)>) -> Seq<(Seq<char>, Json)>
    decreases s,
{
    if s.len() == 0 {
        Seq::empty()
    } else {
        entries_view(s.subrange(0, s.len() - 1)).push((s[s.len() - 1].0@, json_view(s[s.len() - 1].1)))
    }
}

impl View for JsonValue {
    type V = Json;

    open spec fn view(&self) -> Json {
        json_view(*self)
    }
}

proof fn lemma_entries_view(s: Seq<(String, JsonValue)>)
    ensures
        entries_view(s) == s.map_values(|e: (String, JsonValue)| (e.0@, e.1@)),
    decreases s.len(),
{
    if s.len() > 0 {
        lemma_entries_view(s.subrange(0, s.len() - 1));
    }
    assert(entries_view(s) =~= s.map_values(|e: (String, JsonValue)| (e.0@, e.1@)));
}

proof fn lemma_items_view(s: Seq<JsonValue>)
    ensures
        items_view(s) == s.map_values(|x: JsonValue| x@),
    decreases s.len(),
{
    if s.len() > 0 {
        lemma_items_view(s.subrange(0, s.len() - 1));
    }
    assert(items_view(s) =~= s.map_values(|x: JsonValue| x@));
}

/// The view of an object is the view of its members, in order.
pub proof fn lemma_object_view(m: Vec<(String, JsonValue)>)
    ensures
        JsonValue::Object(m)@ == Json::Object(m@.map_values(|e: (String, JsonValue)| (e.0@, e.1@))),
{
    lemma_entries_view(m@);
}

/// The view of an array is the view of its items, in order.
pub proof fn lemma_array_view(v: Vec<JsonValue>)
    ensures
        JsonValue::Array(v)@ == Json::Array(v@.map_values(|x: JsonValue| x@)),
{
    lemma_items_view(v@);
}

/// Position of the first member of `members` named `key`, if any.
pub open spec fn member_index(members: Seq<(String, JsonValue)>, key: Seq<char>) -> Option<int>
    decreases members.len(),
{
    if members.len() == 0 {
        None
    } else if members[0].0@ == key {
        Some(0)
    } else {
        match member_index(members.drop_first(), key) {
            Some(i) => Some(i + 1),
            None => None,
        }
    }
}

/// `Value::get(key)`: the member named `key` of an object.
pub open spec fn get_spec(v: JsonValue, key: Seq<char>) -> Option<JsonValue> {
    match v {
        JsonValue::Object(members) => match member_index(members@, key) {
            Some(i) => Some(members@[i].1),
            None => None,
        },
        _ => None,
    }
}

/// `Value::as_str`.
pub open spec fn str_spec(v: Option<JsonValue>) -> Option<Seq<char>> {
    match v {
        Some(JsonValue::Str(s)) => Some(s@),
        _ => None,
    }
}

/// `Value::as_u64`.
pub open spec fn u64_spec(v: Option<JsonValue>) -> Option<u64> {
    match v {
        Some(JsonValue::Number(JsonNumber::PosInt(n))) => Some(n),
        _ => None,
    }
}

/// `Value::as_bool`.
pub open spec fn bool_spec(v: Option<JsonValue>) -> Option<bool> {
    match v {
        Some(JsonValue::Bool(b)) => Some(b),
        _ => None,
    }
}

/// The string member `key` of `v`, as `v[key].as_str()` reads it.
pub open spec fn str_field(v: JsonValue, key: Seq<char>) -> Option<Seq<char>> {
    str_spec(get_spec(v, key))
}

/// The unsigned integer member `key` of `v`, as `v[key].as_u64()` reads it.
pub open spec fn u64_field(v: JsonValue, key: Seq<char>) -> Option<u64> {
    u64_spec(get_spec(v, key))
}

/// The boolean member `key` of `v`, as `v[key].as_bool()` reads it.
pub open spec fn bool_field(v: JsonValue, key: Seq<char>) -> Option<bool> {
    bool_spec(get_spec(v, key))
}

proof fn lemma_member_index_bounds(members: Seq<(String, JsonValue)>, key: Seq<char>)
    ensures
        match member_index(members, key) {
            Some(i) => 0 <= i < members.len() && members[i].0@ == key && forall|k: int|
                0 <= k < i ==> members[k].0@ != key,
            None => forall|k: int| 0 <= k < members.len() ==> members[k].0@ != key,
        },
    decreases members.len(),
{
    if members.len() > 0 && members[0].0@ != key {
        let t = members.drop_first();
        lemma_member_index_bounds(t, key);
        assert forall|k: int| 0 < k < members.len() implies members[k] == t[k - 1] by {}
    }
}

impl JsonValue {
    /// `Value::get` for a string key.
    pub fn get(&self, key: &str) -> (r: Option<&JsonValue>)
        ensures
            match r {
                Some(x) => get_spec(*self, key@) == Some(*x),
                None => get_spec(*self, key@) is None,
            },
    {
        match self {
            JsonValue::Object(members) => {
                let kv = to_chars(key);
                let mut i: usize = 0;
                proof {
                    lemma_member_index_bounds(members@, key@);
                }
                while i < members.len()
                    invariant
                        i <= members@.len(),
                        forall|k: int| 0 <= k < i ==> members@[k].0@ != key@,
                        kv@ == key@,
                        *self == JsonValue::Object(*members),
                    decreases members@.len() - i,
                {
                    let name = to_chars(members[i].0.as_str());
                    if name.len() == kv.len() && chars_occur_at(name.as_slice(), kv.as_slice(), 0) {
                        assert(name@.subrange(0, kv@.len() as int) =~= name@);
                        proof {
                            lemma_member_index_bounds(members@, key@);
                            assert(members@[i as int].0@ == key@);
                            match member_index(members@, key@) {
                                Some(j) => {
                                    if j > i {
                                        assert(members@[i as int].0@ != key@);
                                    }
                                },
                                None => {
                                    assert(members@[i as int].0@ != key@);
                                },
                            }
                        }
                        return Some(&members[i].1);
                    }
                    proof {
                        if name@ == kv@ {
                            assert(name@.subrange(0, kv@.len() as int) =~= name@);
                        }
                    }
                    i = i + 1;
                }
                proof {
                    lemma_member_index_bounds(members@, key@);
                }
                None
            },
            _ => None,
        }
    }

    /// `Value::as_str`.
    pub fn as_str(&self) -> (r: Option<&str>)
        ensures
            match r {
                Some(s) => str_spec(Some(*self)) == Some(s@),
                None => str_spec(Some(*self)) is None,
            },
    {
        match self {
            JsonValue::Str(s) => Some(s.as_str()),
            _ => None,
        }
    }

    /// `Value::as_array`.
    pub fn as_array(&self) -> (r: Option<&Vec<JsonValue>>)
        ensures
            match *self {
                JsonValue::Array(v) => r == Some(&v),
                _ => r is None,
            },
    {
        match self {
            JsonValue::Array(v) => Some(v),
            _ => None,
        }
    }

    /// `Value::as_u64`.
    pub fn as_u64(&self) -> (r: Option<u64>)
        ensures
            r == u64_spec(Some(*self)),
    {
        match self {
            JsonValue::Number(JsonNumber::PosInt(n)) => Some(*n),
            _ => None,
        }
    }

    /// `Value::as_bool`.
    pub fn as_bool(&self) -> (r: Option<bool>)
        ensures
            r == bool_spec(Some(*self)),
    {
        match self {
            JsonValue::Bool(b) => Some(*b),
            _ => None,
        }
    }

    /// `v[key].as_str()`.
    pub fn str_field(&self, key: &str) -> (r: Option<&str>)
        ensures
            match r {
                Some(s) => str_field(*self, key@) == Some(s@),
                None => str_field(*self, key@) is None,
            },
    {
        match self.get(key) {
            Some(x) => x.as_str(),
            None => None,
        }
    }

    /// `v[key].as_u64()`.
    pub fn u64_field(&self, key: &str) -> (r: Option<u64>)
        ensures
            r == u64_field(*self, key@),
    {
        match self.get(key) {
            Some(x) => x.as_u64(),
            None => None,
        }
    }

    /// `v[key].as_bool()`.
    pub fn bool_field(&self, key: &str) -> (r: Option<bool>)
        ensures
            r == bool_field(*self, key@),
    {
        match self.get(key) {
            Some(x) => x.as_bool(),
            None => None,
        }
    }
}

} // verus!
