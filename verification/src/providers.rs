//! What each upstream dialect changes in the bodies the proxy forwards and
//! returns.
use vstd::prelude::*;

use crate::json::{
    data_get, data_index, data_insert, data_items, data_members, data_of, data_remove, insert_member_exec,
    lemma_data_get, lemma_data_insert, lemma_data_members, lemma_data_remove, remove_member_exec, JsonData,
    JsonValue, json_bytes, json_parse, json_to_vec, parse_json,
};
use crate::models::ProviderType;
use crate::text::{chars_of, concat, copy_bytes, push_range, str_eq, string_of_range};

verus! {

/// `inject_default_shadow`: an object answers under the client-facing model
/// name and the proxy's fingerprint; other values are left alone.
pub open spec fn shadowed(v: JsonData, model: Seq<char>) -> JsonData {
    match v {
        JsonData::Object(m) => JsonData::Object(
            data_insert(data_insert(m, "model"@, JsonData::Str(model)), "system_fingerprint"@, JsonData::Str("ait-proxy"@)),
        ),
        _ => v,
    }
}

/// Set `key` of an object document to `val`; other documents stay as they are.
fn set_member(v: &mut JsonValue, key: &str, val: JsonValue)
    ensures
        data_of(*final(v)) == (match data_of(*old(v)) {
            JsonData::Object(m) => JsonData::Object(data_insert(m, key@, data_of(val))),
            d => d,
        }),
{
    match v {
        JsonValue::Object(m) => {
            let k = key.to_string();
            proof { lemma_data_insert(m@, k, val); }
            insert_member_exec(m, k, val);
        },
        _ => {},
    }
}

pub fn inject_default_shadow(val: &mut JsonValue, model_name: &str)
    ensures
        data_of(*final(val)) == shadowed(data_of(*old(val)), model_name@),
{
    let m = JsonValue::Str(model_name.to_string());
    set_member(val, "model", m);
    let f = JsonValue::Str("ait-proxy".to_string());
    set_member(val, "system_fingerprint", f);
}

} // verus!

verus! {

/// An object without its `timings` member (llama.cpp's server timings).
pub open spec fn without_timings(v: JsonData) -> JsonData {
    match v {
        JsonData::Object(m) => JsonData::Object(data_remove(m, "timings"@)),
        _ => v,
    }
}

pub fn remove_timings(v: &mut JsonValue)
    ensures
        data_of(*final(v)) == without_timings(data_of(*old(v))),
{
    match v {
        JsonValue::Object(m) => {
            proof { lemma_data_remove(m@, "timings"@); }
            let _ = remove_member_exec(m, "timings");
        },
        _ => {},
    }
}

/// An object's `reasoning` member, if any, moved to `reasoning_content`.
pub open spec fn moved_reasoning(m: Seq<(Seq<char>, JsonData)>) -> Seq<(Seq<char>, JsonData)> {
    match data_index(m, "reasoning"@, 0) {
        Some(i) => data_insert(data_remove(m, "reasoning"@), "reasoning_content"@, m[i].1),
        None => m,
    }
}

/// Ollama's `reasoning` renamed to `reasoning_content` at every depth.
pub open spec fn renamed(v: JsonData) -> JsonData
    decreases v, 1nat,
{
    match v {
        JsonData::Object(m) => JsonData::Object(moved_reasoning(renamed_members(m))),
        JsonData::Array(a) => JsonData::Array(renamed_items(a)),
        _ => v,
    }
}

pub open spec fn renamed_items(s: Seq<JsonData>) -> Seq<JsonData>
    decreases s, 0nat,
{
    if s.len() == 0 {
        s
    } else {
        renamed_items(s.drop_last()).push(renamed(s.last()))
    }
}

pub open spec fn renamed_members(s: Seq<(Seq<char>, JsonData)>) -> Seq<(Seq<char>, JsonData)>
    decreases s, 0nat,
{
    if s.len() == 0 {
        s
    } else {
        renamed_members(s.drop_last()).push((s.last().0, renamed(s.last().1)))
    }
}

proof fn lemma_renamed_items(s: Seq<JsonData>)
    ensures
        renamed_items(s).len() == s.len(),
        forall|i: int| 0 <= i < s.len() ==> #[trigger] renamed_items(s)[i] == renamed(s[i]),
    decreases s.len(),
{
    if s.len() > 0 {
        lemma_renamed_items(s.drop_last());
    }
}

proof fn lemma_renamed_members(s: Seq<(Seq<char>, JsonData)>)
    ensures
        renamed_members(s).len() == s.len(),
        forall|i: int| 0 <= i < s.len() ==> #[trigger] renamed_members(s)[i] == (s[i].0, renamed(s[i].1)),
    decreases s.len(),
{
    if s.len() > 0 {
        lemma_renamed_members(s.drop_last());
    }
}

proof fn lemma_data_items(s: Seq<JsonValue>)
    ensures
        data_items(s).len() == s.len(),
        forall|i: int| 0 <= i < s.len() ==> #[trigger] data_items(s)[i] == data_of(s[i]),
    decreases s.len(),
{
    if s.len() > 0 {
        lemma_data_items(s.drop_last());
    }
}

/// Rename `reasoning` to `reasoning_content` in every object of `v`.
pub fn rename_reasoning_key(v: &mut JsonValue)
    ensures
        data_of(*final(v)) == renamed(data_of(*old(v))),
    decreases *old(v),
{
    match v {
        JsonValue::Object(m) => {
            let ghost m0 = m@;
            let ghost vec0 = *m;
            assert(*old(v) == JsonValue::Object(vec0));
            let mut i: usize = 0;
            while i < m.len()
                invariant
                    i <= m.len(),
                    *old(v) == JsonValue::Object(vec0),
                    vec0@ == m0,
                    m.len() == m0.len(),
                    forall|j: int| i <= j < m0.len() ==> #[trigger] m@[j] == m0[j],
                    forall|j: int| 0 <= j < i ==> (#[trigger] m@[j]).0 == m0[j].0
                        && data_of(m@[j].1) == renamed(data_of(m0[j].1)),
                decreases m0.len() - i,
            {
                proof {
                    assert(decreases_to!(*old(v) => (*old(v))->Object_0));
                    assert(decreases_to!(vec0 => vec0@));
                    assert(decreases_to!(vec0@ => vec0@[i as int]));
                    assert(decreases_to!(vec0@[i as int] => vec0@[i as int].1));
                }
                rename_reasoning_key(&mut m[i].1);
                i = i + 1;
            }
            proof {
                lemma_data_members(m0);
                lemma_data_members(m@);
                lemma_renamed_members(data_members(m0));
                assert(data_members(m@) =~= renamed_members(data_members(m0)));
            }
            let ghost m1 = m@;
            proof {
                lemma_data_remove(m1, "reasoning"@);
                lemma_data_get(JsonValue::Object(*m), "reasoning"@);
            }
            match remove_member_exec(m, "reasoning") {
                Some(r) => {
                    let k = "reasoning_content".to_string();
                    proof { lemma_data_insert(m@, k, r); }
                    insert_member_exec(m, k, r);
                },
                None => {},
            }
        },
        JsonValue::Array(a) => {
            let ghost a0 = a@;
            let ghost vec0 = *a;
            assert(*old(v) == JsonValue::Array(vec0));
            let mut i: usize = 0;
            while i < a.len()
                invariant
                    i <= a.len(),
                    *old(v) == JsonValue::Array(vec0),
                    vec0@ == a0,
                    a.len() == a0.len(),
                    forall|j: int| i <= j < a0.len() ==> #[trigger] a@[j] == a0[j],
                    forall|j: int| 0 <= j < i ==> data_of(#[trigger] a@[j]) == renamed(data_of(a0[j])),
                decreases a0.len() - i,
            {
                proof {
                    assert(decreases_to!(*old(v) => (*old(v))->Array_0));
                    assert(decreases_to!(vec0 => vec0@));
                    assert(decreases_to!(vec0@ => vec0@[i as int]));
                }
                rename_reasoning_key(&mut a[i]);
                i = i + 1;
            }
            proof {
                lemma_data_items(a0);
                lemma_data_items(a@);
                lemma_renamed_items(data_items(a0));
                assert(data_items(a@) =~= renamed_items(data_items(a0)));
            }
        },
        _ => {},
    }
}

} // verus!

verus! {

/// What a provider of type `kind` hands back to clients for a response
/// document, answering under the model name `model`.
pub open spec fn response_shape(kind: ProviderType, v: JsonData, model: Seq<char>) -> JsonData {
    match kind {
        ProviderType::Llamacpp => without_timings(shadowed(v, model)),
        ProviderType::Ollama => renamed(shadowed(v, model)),
        _ => shadowed(v, model),
    }
}

/// The bytes a provider of type `kind` returns for an upstream body: the
/// reshaped document, or the body unchanged when it is not JSON.
pub open spec fn transformed_body(kind: ProviderType, body: Seq<u8>, model: Seq<char>) -> Seq<u8> {
    match json_parse(body) {
        Some(v) => json_bytes(response_shape(kind, data_of(v), model)),
        None => body,
    }
}

/// `UpstreamProvider::transform_response` for each provider type.
pub fn transform_response(kind: ProviderType, body: &[u8], model_name: &str) -> (r: Vec<u8>)
    ensures
        r@ == transformed_body(kind, body@, model_name@),
{
    match parse_json(body) {
        None => copy_bytes(body),
        Some(v) => {
            let mut v = v;
            inject_default_shadow(&mut v, model_name);
            match kind {
                ProviderType::Llamacpp => remove_timings(&mut v),
                ProviderType::Ollama => rename_reasoning_key(&mut v),
                _ => {},
            }
            json_to_vec(&v)
        },
    }
}

} // verus!

verus! {

/// `v[key] = val` on an object; other documents are left alone.
pub open spec fn with_member(v: JsonData, key: Seq<char>, val: JsonData) -> JsonData {
    match v {
        JsonData::Object(m) => JsonData::Object(data_insert(m, key, val)),
        _ => v,
    }
}

/// `v` without member `key`, when it is an object.
pub open spec fn without_member(v: JsonData, key: Seq<char>) -> JsonData {
    match v {
        JsonData::Object(m) => JsonData::Object(data_remove(m, key)),
        _ => v,
    }
}

/// Indexing a `null` for writing makes it an empty object first.
pub open spec fn as_object(v: JsonData) -> JsonData {
    match v {
        JsonData::Null => JsonData::Object(Seq::empty()),
        _ => v,
    }
}

/// `{"include_usage": true}`.
pub open spec fn include_usage() -> JsonData {
    JsonData::Object(seq![("include_usage"@, JsonData::Bool(true))])
}

/// The body sent upstream: a string `model` names the upstream model; a
/// streamed request says so, and asks for usage unless it goes to the
/// Responses API, which reports usage in its terminal event anyway.
pub open spec fn request_shape(v: JsonData, stream: bool, upstream_model: Seq<char>, path: Seq<char>) -> JsonData {
    let v1 = if data_get(v, "model"@) matches Some(JsonData::Str(_)) {
        with_member(v, "model"@, JsonData::Str(upstream_model))
    } else {
        v
    };
    if stream {
        let v2 = with_member(as_object(v1), "stream"@, JsonData::Bool(true));
        if path != "/responses"@ {
            with_member(v2, "stream_options"@, include_usage())
        } else {
            v2
        }
    } else {
        v1
    }
}

/// Whether a document can take the writes of `request_shape`: indexing
/// anything but an object or `null` for writing panics.
pub open spec fn writable(v: JsonData) -> bool {
    v is Object || v is Null
}

/// The body edits of `ProviderCore::finalize_request`.
pub fn finalize_body(body: &mut JsonValue, stream: bool, upstream_model: &str, upstream_path: &str)
    requires
        stream ==> writable(data_of(*old(body))),
    ensures
        data_of(*final(body)) == request_shape(data_of(*old(body)), stream, upstream_model@, upstream_path@),
{
    proof { lemma_data_get(*body, "model"@); }
    let has_model = match body.get("model") {
        Some(m) => m.as_str().is_some(),
        None => false,
    };
    if has_model {
        let m = JsonValue::Str(upstream_model.to_string());
        set_member(body, "model", m);
    }
    if stream {
        if let JsonValue::Null = body {
            *body = JsonValue::Object(Vec::new());
            assert(data_members(Seq::<(String, JsonValue)>::empty()) =~= Seq::empty());
        }
        set_member(body, "stream", JsonValue::Bool(true));
        if !str_eq(upstream_path, "/responses") {
            let mut opts: Vec<(String, JsonValue)> = Vec::new();
            opts.push(("include_usage".to_string(), JsonValue::Bool(true)));
            let o = JsonValue::Object(opts);
            proof {
                lemma_data_members(opts@);
                assert(data_members(opts@) =~= seq![("include_usage"@, JsonData::Bool(true))]);
            }
            set_member(body, "stream_options", o);
        }
    }
}

/// llama.cpp takes no `reasoning_effort`: `"none"` turns thinking off and
/// the named levels turn it on, through `chat_template_kwargs`.
pub open spec fn llamacpp_shape(v: JsonData) -> JsonData {
    match data_get(v, "reasoning_effort"@) {
        Some(JsonData::Str(e)) => if e == "none"@ {
            with_member(without_member(v, "reasoning_effort"@), "chat_template_kwargs"@, thinking(false))
        } else if e == "low"@ || e == "medium"@ || e == "high"@ || e == "max"@ {
            with_member(without_member(v, "reasoning_effort"@), "chat_template_kwargs"@, thinking(true))
        } else {
            v
        },
        _ => v,
    }
}

/// `{"enable_thinking": on}`.
pub open spec fn thinking(on: bool) -> JsonData {
    JsonData::Object(seq![("enable_thinking"@, JsonData::Bool(on))])
}

/// Drop member `key` of an object document.
fn drop_member(v: &mut JsonValue, key: &str)
    ensures
        data_of(*final(v)) == without_member(data_of(*old(v)), key@),
{
    match v {
        JsonValue::Object(m) => {
            proof { lemma_data_remove(m@, key@); }
            let _ = remove_member_exec(m, key);
        },
        _ => {},
    }
}

/// The `reasoning_effort` mapping of the llama.cpp provider.
pub fn apply_reasoning_effort(body: &mut JsonValue)
    ensures
        data_of(*final(body)) == llamacpp_shape(data_of(*old(body))),
{
    proof { lemma_data_get(*body, "reasoning_effort"@); }
    let level: Option<u8> = match body.get("reasoning_effort") {
        Some(e) => match e.as_str() {
            Some(s) => if str_eq(s, "none") {
                Some(0)
            } else if str_eq(s, "low") || str_eq(s, "medium") || str_eq(s, "high") || str_eq(s, "max") {
                Some(1)
            } else {
                None
            },
            None => None,
        },
        None => None,
    };
    match level {
        Some(l) => {
            drop_member(body, "reasoning_effort");
            let mut kw: Vec<(String, JsonValue)> = Vec::new();
            kw.push(("enable_thinking".to_string(), JsonValue::Bool(l == 1)));
            let o = JsonValue::Object(kw);
            proof {
                lemma_data_members(kw@);
                assert(data_members(kw@) =~= seq![("enable_thinking"@, JsonData::Bool(l == 1))]);
            }
            set_member(body, "chat_template_kwargs", o);
        },
        None => {},
    }
}

/// The body a provider of type `kind` sends upstream.
pub open spec fn upstream_body(kind: ProviderType, v: JsonData, stream: bool, upstream_model: Seq<char>, path: Seq<char>) -> JsonData {
    match kind {
        ProviderType::Llamacpp => request_shape(llamacpp_shape(v), stream, upstream_model, path),
        _ => request_shape(v, stream, upstream_model, path),
    }
}

} // verus!

verus! {

/// `s` without its trailing slashes (`trim_end_matches('/')`).
pub open spec fn trim_slashes(s: Seq<char>) -> Seq<char>
    decreases s.len(),
{
    if s.len() > 0 && s.last() == '/' {
        trim_slashes(s.drop_last())
    } else {
        s
    }
}

/// The URL of `path` under a provider's base URL.
pub fn upstream_url(base_url: &str, path: &str) -> (r: String)
    ensures
        r@ == trim_slashes(base_url@) + path@,
{
    let v = chars_of(base_url);
    let mut end = v.len();
    assert(v@.take(end as int) == v@);
    while end > 0 && v[end - 1] == '/'
        invariant
            end <= v.len(),
            trim_slashes(v@.take(end as int)) == trim_slashes(v@),
        decreases end,
    {
        assert(v@.take(end - 1) == v@.take(end as int).drop_last());
        end = end - 1;
    }
    assert(trim_slashes(v@.take(end as int)) == v@.take(end as int));
    let mut r = string_of_range(&v, 0, end);
    let p = chars_of(path);
    push_range(&mut r, &p, 0, p.len());
    assert(p@.subrange(0, p@.len() as int) == p@);
    assert(v@.subrange(0, end as int) == v@.take(end as int));
    r
}

/// The `Authorization` value for a provider's key.
pub fn auth_header_value(api_key: Option<&str>) -> (r: Option<String>)
    ensures
        match api_key {
            Some(k) => r matches Some(h) && h@ == "Bearer "@ + k@,
            None => r is None,
        },
{
    match api_key {
        Some(k) => Some(concat("Bearer ", k)),
        None => None,
    }
}

/// A request ready to be sent upstream with POST and a JSON content type.
#[derive(Debug)]
pub struct UpstreamRequest {
    pub url: String,
    pub authorization: Option<String>,
    pub body: Vec<u8>,
}

/// The request a provider of type `kind` sends for `body`.
pub fn build_upstream_request(
    kind: ProviderType,
    base_url: &str,
    api_key: Option<&str>,
    body: JsonValue,
    stream: bool,
    upstream_model: &str,
    upstream_path: &str,
) -> (r: UpstreamRequest)
    requires
        stream ==> writable(data_of(body)),
    ensures
        r.url@ == trim_slashes(base_url@) + upstream_path@,
        match api_key {
            Some(k) => r.authorization matches Some(h) && h@ == "Bearer "@ + k@,
            None => r.authorization is None,
        },
        r.body@ == json_bytes(upstream_body(kind, data_of(body), stream, upstream_model@, upstream_path@)),
{
    let mut body = body;
    match kind {
        ProviderType::Llamacpp => apply_reasoning_effort(&mut body),
        _ => {},
    }
    finalize_body(&mut body, stream, upstream_model, upstream_path);
    UpstreamRequest {
        url: upstream_url(base_url, upstream_path),
        authorization: auth_header_value(api_key),
        body: json_to_vec(&body),
    }
}

} // verus!

verus! {

/// Whether no two members of an object share a key, as in every parsed
/// document.
pub open spec fn unique_keys(m: Seq<(Seq<char>, JsonData)>) -> bool {
    forall|i: int, j: int| 0 <= i < j < m.len() ==> m[i].0 != m[j].0
}

/// `data_index` finds the first member with the key at or after `k`.
proof fn lemma_index_found(m: Seq<(Seq<char>, JsonData)>, key: Seq<char>, k: int)
    requires
        0 <= k,
    ensures
        match data_index(m, key, k) {
            Some(i) => k <= i < m.len() && m[i].0 == key && forall|j: int| k <= j < i ==> m[j].0 != key,
            None => forall|j: int| k <= j < m.len() ==> m[j].0 != key,
        },
    decreases m.len() - k,
{
    if k < m.len() && m[k].0 != key {
        lemma_index_found(m, key, k + 1);
    }
}

/// The member `key` of an object whose members are `m`, stated by position.
proof fn lemma_get_by_position(m: Seq<(Seq<char>, JsonData)>, key: Seq<char>)
    ensures
        (forall|j: int| 0 <= j < m.len() ==> m[j].0 != key) ==> data_get(JsonData::Object(m), key) is None,
        forall|i: int| 0 <= i < m.len() && m[i].0 == key && (forall|j: int| 0 <= j < i ==> m[j].0 != key)
            ==> data_get(JsonData::Object(m), key) == Some(m[i].1),
{
    lemma_index_found(m, key, 0);
    assert forall|i: int| 0 <= i < m.len() && m[i].0 == key && (forall|j: int| 0 <= j < i ==> m[j].0 != key)
        implies data_get(JsonData::Object(m), key) == Some(m[i].1) by {
        match data_index(m, key, 0) {
            Some(x) => {
                if x < i {
                } else if x > i {
                    assert(m[i].0 != key);
                }
            },
            None => {
                assert(m[i].0 != key);
            },
        }
    }
}

/// After setting `key`, reading `key` gives the value set, and reading any
/// other key gives what it gave before.
proof fn lemma_insert_get(m: Seq<(Seq<char>, JsonData)>, key: Seq<char>, val: JsonData, other: Seq<char>)
    requires
        other != key,
    ensures
        data_get(JsonData::Object(data_insert(m, key, val)), key) == Some(val),
        data_get(JsonData::Object(data_insert(m, key, val)), other) == data_get(JsonData::Object(m), other),
{
    lemma_index_found(m, key, 0);
    let m2 = data_insert(m, key, val);
    lemma_get_by_position(m2, key);
    lemma_get_by_position(m2, other);
    lemma_get_by_position(m, other);
    lemma_index_found(m, other, 0);
    match data_index(m, key, 0) {
        Some(i) => {
            assert(m2[i] == (key, val));
            assert forall|j: int| 0 <= j < m2.len() && j != i implies m2[j] == m[j] by {}
            match data_index(m, other, 0) {
                Some(x) => {
                    assert(m2[x] == m[x]);
                    assert forall|j: int| 0 <= j < x implies m2[j].0 != other by {
                        if j != i { assert(m2[j] == m[j]); }
                    }
                },
                None => {
                    assert forall|j: int| 0 <= j < m2.len() implies m2[j].0 != other by {
                        if j != i { assert(m2[j] == m[j]); }
                    }
                },
            }
        },
        None => {
            assert(m2[m.len() as int] == (key, val));
            assert forall|j: int| 0 <= j < m.len() implies m2[j] == m[j] by {}
            match data_index(m, other, 0) {
                Some(x) => {
                    assert(m2[x] == m[x]);
                },
                None => {
                    assert forall|j: int| 0 <= j < m2.len() implies m2[j].0 != other by {
                        if j < m.len() { assert(m2[j] == m[j]); }
                    }
                },
            }
        },
    }
}

/// After dropping `key` from an object with distinct keys, `key` is gone
/// and every other key reads as before.
proof fn lemma_remove_get(m: Seq<(Seq<char>, JsonData)>, key: Seq<char>, other: Seq<char>)
    requires
        unique_keys(m),
        other != key,
    ensures
        data_get(JsonData::Object(data_remove(m, key)), key) is None,
        data_get(JsonData::Object(data_remove(m, key)), other) == data_get(JsonData::Object(m), other),
{
    lemma_index_found(m, key, 0);
    lemma_index_found(m, other, 0);
    let m2 = data_remove(m, key);
    lemma_get_by_position(m2, key);
    lemma_get_by_position(m2, other);
    lemma_get_by_position(m, other);
    match data_index(m, key, 0) {
        Some(i) => {
            assert forall|j: int| 0 <= j < m2.len() implies m2[j] == (if j < i { m[j] } else { m[j + 1] }) by {}
            assert forall|j: int| 0 <= j < m2.len() implies m2[j].0 != key by {
                if j >= i {
                    assert(m[j + 1].0 != m[i].0);
                }
            }
            match data_index(m, other, 0) {
                Some(x) => {
                    assert(x != i);
                    let y = if x < i { x } else { x - 1 };
                    assert(m2[y] == m[x]);
                    assert forall|j: int| 0 <= j < y implies m2[j].0 != other by {
                        if j >= i { assert(m2[j] == m[j + 1]); }
                    }
                },
                None => {
                    assert forall|j: int| 0 <= j < m2.len() implies m2[j].0 != other by {
                        if j >= i { assert(m2[j] == m[j + 1]); }
                    }
                },
            }
        },
        None => {},
    }
}

/// llama.cpp gets no `reasoning_effort`: for each of the levels `low`,
/// `medium`, `high` and `max` the member is dropped and
/// `chat_template_kwargs.enable_thinking` is set to `true`; for `none` it is
/// set to `false`. Every other member is left as it was.
pub proof fn lemma_reasoning_levels(m: Seq<(Seq<char>, JsonData)>, level: Seq<char>, other: Seq<char>)
    requires
        unique_keys(m),
        data_get(JsonData::Object(m), "reasoning_effort"@) == Some(JsonData::Str(level)),
        level == "none"@ || level == "low"@ || level == "medium"@ || level == "high"@ || level == "max"@,
        other != "reasoning_effort"@,
        other != "chat_template_kwargs"@,
    ensures
        data_get(llamacpp_shape(JsonData::Object(m)), "reasoning_effort"@) is None,
        match data_get(llamacpp_shape(JsonData::Object(m)), "chat_template_kwargs"@) {
            Some(kw) => data_get(kw, "enable_thinking"@) == Some(JsonData::Bool(level != "none"@)),
            None => false,
        },
        data_get(llamacpp_shape(JsonData::Object(m)), other) == data_get(JsonData::Object(m), other),
{
    reveal_strlit("reasoning_effort");
    reveal_strlit("chat_template_kwargs");
    reveal_strlit("enable_thinking");
    reveal_strlit("none");
    reveal_strlit("low");
    reveal_strlit("medium");
    reveal_strlit("high");
    reveal_strlit("max");
    let re = "reasoning_effort"@;
    let ck = "chat_template_kwargs"@;
    assert(re != ck) by {
        assert(re.len() != ck.len());
    }
    let on = level != "none"@;
    let w = data_remove(m, re);
    lemma_remove_get(m, re, other);
    lemma_remove_get(m, re, ck);
    lemma_insert_get(w, ck, thinking(on), re);
    lemma_insert_get(w, ck, thinking(on), other);
    lemma_get_by_position(seq![("enable_thinking"@, JsonData::Bool(on))], "enable_thinking"@);
    assert(llamacpp_shape(JsonData::Object(m)) == JsonData::Object(data_insert(w, ck, thinking(on))));
}

/// Any other `reasoning_effort` value, a non-string one, or none at all
/// leaves the body as it is.
pub proof fn lemma_other_effort_untouched(m: Seq<(Seq<char>, JsonData)>)
    requires
        !(data_get(JsonData::Object(m), "reasoning_effort"@) matches Some(JsonData::Str(e)) && (e == "none"@
            || e == "low"@ || e == "medium"@ || e == "high"@ || e == "max"@)),
    ensures
        llamacpp_shape(JsonData::Object(m)) == JsonData::Object(m),
{
}

} // verus!
