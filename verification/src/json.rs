//! JSON documents, as the proxy reads and edits request and response bodies.
use vstd::prelude::*;

use crate::text::{str_eq};

verus! {

/// A JSON number: its value when it is an integer that fits in `i64`, and
/// its text as serde_json prints it. The text is what gets written back.
#[derive(Debug)]
pub struct JsonNumber {
    pub int: Option<i64>,
    pub text: String,
}

/// A JSON document. Parsed objects come with their members in key order,
/// each key once, as serde_json's map holds them; when written, members are
/// put in key order and a repeated key keeps its last value.
#[derive(Debug)]
pub enum JsonValue {
    Null,
    Bool(bool),
    Number(JsonNumber),
    Str(String),
    Array(Vec<JsonValue>),
    Object(Vec<(String, JsonValue)>),
}

/// The document serde_json parses `bytes` into, if they are JSON.
pub uninterp spec fn json_parse(bytes: Seq<u8>) -> Option<JsonValue>;


#[verifier::external_type_specification]
#[verifier::external_body]
pub struct ExSerdeJsonValue(serde_json::Value);

/// Converts a serde_json document into the library's form, member for member.
#[verifier::external_body]
fn from_serde(v: serde_json::Value) -> JsonValue {
    match v {
        serde_json::Value::Null => JsonValue::Null,
        serde_json::Value::Bool(b) => JsonValue::Bool(b),
        serde_json::Value::Number(n) => JsonValue::Number(JsonNumber { int: n.as_i64(), text: n.to_string() }),
        serde_json::Value::String(s) => JsonValue::Str(s),
        serde_json::Value::Array(a) => JsonValue::Array(a.into_iter().map(from_serde).collect()),
        serde_json::Value::Object(m) => JsonValue::Object(m.into_iter().map(|(k, x)| (k, from_serde(x))).collect()),
    }
}

/// Converts the library's form into a serde_json document, member for member;
/// a number is read back from its text (text that is no JSON number becomes
/// `null`).
#[verifier::external_body]
fn to_serde(v: &JsonValue) -> serde_json::Value {
    match v {
        JsonValue::Null => serde_json::Value::Null,
        JsonValue::Bool(b) => serde_json::Value::Bool(*b),
        JsonValue::Number(n) => n.text.parse().map(serde_json::Value::Number).unwrap_or(serde_json::Value::Null),
        JsonValue::Str(s) => serde_json::Value::String(s.clone()),
        JsonValue::Array(a) => serde_json::Value::Array(a.iter().map(to_serde).collect()),
        JsonValue::Object(m) => serde_json::Value::Object(m.iter().map(|(k, x)| (k.clone(), to_serde(x))).collect()),
    }
}

/// `serde_json::from_slice::<Value>`: the document `bytes` hold, or `None`
/// when they are not JSON.
#[verifier::external_body]
pub fn parse_json(bytes: &[u8]) -> (r: Option<JsonValue>)
    ensures
        r == json_parse(bytes@),
{
    serde_json::from_slice::<serde_json::Value>(bytes).ok().map(from_serde)
}

/// `serde_json::to_vec`: the bytes of `v` (a `Value` always serializes).
#[verifier::external_body]
pub fn json_to_vec(v: &JsonValue) -> (r: Vec<u8>)
    ensures
        r@ == json_bytes(data_of(*v)),
{
    serde_json::to_vec(&to_serde(v)).unwrap_or_default()
}

/// Index of the member named `key` in `m`, searching from `k`.
pub open spec fn member_index(m: Seq<(String, JsonValue)>, key: Seq<char>, k: int) -> Option<int>
    decreases m.len() - k,
{
    if k < 0 || k >= m.len() {
        None
    } else if m[k].0@ == key {
        Some(k)
    } else {
        member_index(m, key, k + 1)
    }
}

/// The member `key` of an object; `None` for other values or a missing key.
pub open spec fn get(v: JsonValue, key: Seq<char>) -> Option<JsonValue> {
    match v {
        JsonValue::Object(m) => match member_index(m@, key, 0) {
            Some(i) => Some(m@[i].1),
            None => None,
        },
        _ => None,
    }
}

/// `Value::as_i64`.
pub open spec fn as_i64(v: JsonValue) -> Option<i64> {
    match v {
        JsonValue::Number(n) => n.int,
        _ => None,
    }
}

/// `get(key)` then `as_i64`.
pub open spec fn get_i64(v: JsonValue, key: Seq<char>) -> Option<i64> {
    match get(v, key) {
        Some(x) => as_i64(x),
        None => None,
    }
}

pub open spec fn opt_get(v: Option<JsonValue>, key: Seq<char>) -> Option<JsonValue> {
    match v {
        Some(x) => get(x, key),
        None => None,
    }
}

pub open spec fn opt_get_i64(v: Option<JsonValue>, key: Seq<char>) -> Option<i64> {
    match v {
        Some(x) => get_i64(x, key),
        None => None,
    }
}

fn member_index_exec(m: &Vec<(String, JsonValue)>, key: &str) -> (r: Option<usize>)
    ensures
        match r {
            Some(i) => member_index(m@, key@, 0) == Some(i as int) && i < m.len(),
            None => member_index(m@, key@, 0) is None,
        },
{
    let mut i: usize = 0;
    while i < m.len()
        invariant
            i <= m.len(),
            member_index(m@, key@, 0) == member_index(m@, key@, i as int),
        decreases m.len() - i,
    {
        if str_eq(m[i].0.as_str(), key) {
            return Some(i);
        }
        i = i + 1;
    }
    None
}

impl JsonValue {
    pub fn get(&self, key: &str) -> (r: Option<&JsonValue>)
        ensures
            match r {
                Some(x) => get(*self, key@) == Some(*x),
                None => get(*self, key@) is None,
            },
    {
        match self {
            JsonValue::Object(m) => match member_index_exec(m, key) {
                Some(i) => Some(&m[i].1),
                None => None,
            },
            _ => None,
        }
    }

    pub fn as_i64(&self) -> (r: Option<i64>)
        ensures
            r == as_i64(*self),
    {
        match self {
            JsonValue::Number(n) => n.int,
            _ => None,
        }
    }

    pub fn as_str(&self) -> (r: Option<&str>)
        ensures
            match r {
                Some(s) => *self matches JsonValue::Str(t) && t@ == s@,
                None => !(*self is Str),
            },
    {
        match self {
            JsonValue::Str(s) => Some(s.as_str()),
            _ => None,
        }
    }

    pub fn as_bool(&self) -> (r: Option<bool>)
        ensures
            match r {
                Some(b) => *self == JsonValue::Bool(b),
                None => !(*self is Bool),
            },
    {
        match self {
            JsonValue::Bool(b) => Some(*b),
            _ => None,
        }
    }
}

/// `get(key)` then `as_i64`, through an optional value.
pub fn opt_get_i64_exec(v: Option<&JsonValue>, key: &str) -> (r: Option<i64>)
    ensures
        r == opt_get_i64(
            match v {
                Some(x) => Some(*x),
                None => None,
            },
            key@,
        ),
{
    match v {
        Some(x) => match x.get(key) {
            Some(y) => y.as_i64(),
            None => None,
        },
        None => None,
    }
}

} // verus!

verus! {

/// `Map::insert`: the value of an existing member is replaced in place,
/// otherwise the member is appended.
pub open spec fn insert_member(m: Seq<(String, JsonValue)>, key: String, val: JsonValue) -> Seq<(String, JsonValue)> {
    match member_index(m, key@, 0) {
        Some(i) => m.update(i, (m[i].0, val)),
        None => m.push((key, val)),
    }
}

/// `Map::remove`: the member named `key` is dropped, if there is one.
pub open spec fn remove_member(m: Seq<(String, JsonValue)>, key: Seq<char>) -> Seq<(String, JsonValue)> {
    match member_index(m, key, 0) {
        Some(i) => m.remove(i),
        None => m,
    }
}

/// Set member `key` of an object to `val`.
pub fn insert_member_exec(m: &mut Vec<(String, JsonValue)>, key: String, val: JsonValue)
    ensures
        final(m)@ == insert_member(old(m)@, key, val),
{
    match member_index_exec(m, key.as_str()) {
        Some(i) => {
            let k = m[i].0.clone();
            m.set(i, (k, val));
        },
        None => {
            m.push((key, val));
        },
    }
}

/// Drop member `key` of an object, returning its value.
pub fn remove_member_exec(m: &mut Vec<(String, JsonValue)>, key: &str) -> (r: Option<JsonValue>)
    ensures
        final(m)@ == remove_member(old(m)@, key@),
        r == (match member_index(old(m)@, key@, 0) {
            Some(i) => Some(old(m)@[i].1),
            None => None::<JsonValue>,
        }),
{
    match member_index_exec(m, key) {
        Some(i) => {
            let (_, v) = m.remove(i);
            Some(v)
        },
        None => None,
    }
}

} // verus!

verus! {

/// What a JSON document denotes, with its strings as character sequences.
pub enum JsonData {
    Null,
    Bool(bool),
    Number(Option<i64>, Seq<char>),
    Str(Seq<char>),
    Array(Seq<JsonData>),
    Object(Seq<(Seq<char>, JsonData)>),
}

/// The bytes serde_json writes for a document (what it writes depends only
/// on what the document denotes).
pub uninterp spec fn json_bytes(v: JsonData) -> Seq<u8>;

/// The value a document denotes: its strings as character sequences.
pub open spec fn data_of(v: JsonValue) -> JsonData
    decreases v, 1nat,
{
    match v {
        JsonValue::Null => JsonData::Null,
        JsonValue::Bool(b) => JsonData::Bool(b),
        JsonValue::Number(n) => JsonData::Number(n.int, n.text@),
        JsonValue::Str(s) => JsonData::Str(s@),
        JsonValue::Array(a) => JsonData::Array(data_items(a@)),
        JsonValue::Object(m) => JsonData::Object(data_members(m@)),
    }
}

pub open spec fn data_items(s: Seq<JsonValue>) -> Seq<JsonData>
    decreases s, 0nat,
{
    if s.len() == 0 {
        Seq::empty()
    } else {
        data_items(s.drop_last()).push(data_of(s.last()))
    }
}

pub open spec fn data_members(s: Seq<(String, JsonValue)>) -> Seq<(Seq<char>, JsonData)>
    decreases s, 0nat,
{
    if s.len() == 0 {
        Seq::empty()
    } else {
        data_members(s.drop_last()).push((s.last().0@, data_of(s.last().1)))
    }
}

} // verus!

verus! {

/// Index of the member named `key`, searching from `k`.
pub open spec fn data_index(m: Seq<(Seq<char>, JsonData)>, key: Seq<char>, k: int) -> Option<int>
    decreases m.len() - k,
{
    if k < 0 || k >= m.len() {
        None
    } else if m[k].0 == key {
        Some(k)
    } else {
        data_index(m, key, k + 1)
    }
}

/// The member `key` of an object value.
pub open spec fn data_get(v: JsonData, key: Seq<char>) -> Option<JsonData> {
    match v {
        JsonData::Object(m) => match data_index(m, key, 0) {
            Some(i) => Some(m[i].1),
            None => None,
        },
        _ => None,
    }
}

/// Setting member `key`: replaced in place when present, else appended.
pub open spec fn data_insert(m: Seq<(Seq<char>, JsonData)>, key: Seq<char>, val: JsonData) -> Seq<(Seq<char>, JsonData)> {
    match data_index(m, key, 0) {
        Some(i) => m.update(i, (key, val)),
        None => m.push((key, val)),
    }
}

/// Dropping member `key`, if present.
pub open spec fn data_remove(m: Seq<(Seq<char>, JsonData)>, key: Seq<char>) -> Seq<(Seq<char>, JsonData)> {
    match data_index(m, key, 0) {
        Some(i) => m.remove(i),
        None => m,
    }
}

pub proof fn lemma_data_members(m: Seq<(String, JsonValue)>)
    ensures
        data_members(m).len() == m.len(),
        forall|i: int| 0 <= i < m.len() ==> #[trigger] data_members(m)[i] == (m[i].0@, data_of(m[i].1)),
    decreases m.len(),
{
    if m.len() > 0 {
        lemma_data_members(m.drop_last());
    }
}

pub proof fn lemma_data_items(s: Seq<JsonValue>)
    ensures
        data_items(s).len() == s.len(),
        forall|i: int| 0 <= i < s.len() ==> #[trigger] data_items(s)[i] == data_of(s[i]),
    decreases s.len(),
{
    if s.len() > 0 {
        lemma_data_items(s.drop_last());
    }
}

pub proof fn lemma_data_index(m: Seq<(String, JsonValue)>, key: Seq<char>, k: int)
    ensures
        member_index(m, key, k) == data_index(data_members(m), key, k),
        member_index(m, key, k) matches Some(i) ==> k <= i < m.len() && m[i].0@ == key,
    decreases m.len() - k,
{
    lemma_data_members(m);
    if 0 <= k < m.len() {
        lemma_data_index(m, key, k + 1);
    }
}

pub proof fn lemma_data_insert(m: Seq<(String, JsonValue)>, key: String, val: JsonValue)
    ensures
        data_members(insert_member(m, key, val)) == data_insert(data_members(m), key@, data_of(val)),
{
    lemma_data_members(m);
    lemma_data_members(insert_member(m, key, val));
    lemma_data_index(m, key@, 0);
    assert(data_members(insert_member(m, key, val)) =~= data_insert(data_members(m), key@, data_of(val))) by {
        match member_index(m, key@, 0) {
            Some(i) => {
                assert(insert_member(m, key, val)[i] == (m[i].0, val));
            },
            None => {
                assert(insert_member(m, key, val).last() == (key, val));
            },
        }
    }
}

pub proof fn lemma_data_remove(m: Seq<(String, JsonValue)>, key: Seq<char>)
    ensures
        data_members(remove_member(m, key)) == data_remove(data_members(m), key),
{
    lemma_data_members(m);
    lemma_data_members(remove_member(m, key));
    lemma_data_index(m, key, 0);
    assert(data_members(remove_member(m, key)) =~= data_remove(data_members(m), key)) by {
        match member_index(m, key, 0) {
            Some(i) => {
                assert forall|j: int| 0 <= j < m.len() - 1 implies
                    #[trigger] remove_member(m, key)[j] == (if j < i { m[j] } else { m[j + 1] }) by {}
            },
            None => {},
        }
    }
}

pub proof fn lemma_data_get(v: JsonValue, key: Seq<char>)
    ensures
        data_get(data_of(v), key) == (match get(v, key) {
            Some(x) => Some(data_of(x)),
            None => None::<JsonData>,
        }),
{
    if let JsonValue::Object(m) = v {
        lemma_data_members(m@);
        lemma_data_index(m@, key, 0);
        if let Some(i) = member_index(m@, key, 0) {
            assert(data_members(m@)[i] == (m@[i].0@, data_of(m@[i].1)));
        }
    }
}

} // verus!
