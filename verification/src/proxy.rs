//! The decisions the proxy makes on each client request before and after it
//! goes upstream.
use vstd::prelude::*;

use crate::dlp::{leaf_hit, DlpScanner};
use crate::error::AitError;
use crate::json::{data_of, get, json_parse, parse_json, JsonValue};
use crate::models::{db_name, spec_supports, ProviderType};
use crate::providers::{transform_response, transformed_body};
use crate::text::{char_utf8_len, chars_eq, chars_of, concat, decimal, decimal_string, extend_bytes, str_eq, string_of_range, utf8_len, utf8_len_exceeds};
use crate::usage::{parse_usage, usage_of, UsageTokens};
use vstd::utf8::{decode_utf8, valid_utf8};
use crate::utils::{mask_sensitive_value, masked};

verus! {

/// A rough prompt-token count until the upstream reports usage: the body
/// length over the configured divisor; nothing for an empty body.
pub fn count_prompt_tokens(body_len: usize, divisor: u64) -> (r: Option<i64>)
    requires
        1 <= divisor <= i64::MAX,
        body_len <= i64::MAX,
    ensures
        body_len == 0 ==> r is None,
        body_len > 0 ==> r == Some(((body_len as int) / (divisor as int)) as i64),
{
    if body_len == 0 {
        None
    } else {
        Some(body_len as i64 / divisor as i64)
    }
}

/// The request body, parsed; a body that is not JSON is refused.
pub fn parse_body(body: &[u8]) -> (r: Result<(JsonValue, usize), AitError>)
    ensures
        match json_parse(body@) {
            Some(v) => r matches Ok((x, n)) && x == v && n == body@.len(),
            None => r matches Err(e) && e.code == 400 && e.message@ == "invalid request body"@
                && e.detail is None,
        },
{
    match parse_json(body) {
        Some(v) => Ok((v, body.len())),
        None => Err(AitError::bad_request("invalid request body")),
    }
}

/// The `model` a request names, if it is a string.
pub open spec fn requested_model(body: JsonValue) -> Option<Seq<char>> {
    match get(body, "model"@) {
        Some(JsonValue::Str(s)) => Some(s@),
        _ => None,
    }
}

/// Why a request was blocked by a sensitive-data rule, as its log records
/// it: the matched value with all but its first three and last two
/// characters hidden.
pub open spec fn dlp_reason(value: Seq<char>) -> Seq<char> {
    "blocked by DLP: sensitive value '"@ + masked(value, 3, 2) + "' matched"@
}

/// What the log of a blocked request records.
#[derive(Debug)]
pub struct DlpBlock {
    /// The requested model, or `blocked` when the body names none.
    pub model_name: String,
    pub reason: String,
}

/// Whether a body of `body_len` bytes exceeds the cap (`0` disables it).
pub open spec fn too_large(body_len: nat, max_request_body: nat) -> bool {
    max_request_body > 0 && body_len > max_request_body
}

fn model_name(body: &JsonValue) -> (r: Option<&str>)
    ensures
        match requested_model(*body) {
            Some(m) => r matches Some(s) && s@ == m,
            None => r is None,
        },
{
    match body.get("model") {
        Some(m) => m.as_str(),
        None => None,
    }
}

/// The checks a request passes before its model is resolved: the body
/// size cap, then the sensitive-data rules, then a string `model`, which is
/// returned.
pub fn check_request(body: &JsonValue, body_len: usize, max_request_body: u64, dlp: &DlpScanner) -> (r: Result<
    String,
    (AitError, Option<DlpBlock>),
>)
    requires
        dlp.wf(),
    ensures
        too_large(body_len as nat, max_request_body as nat) ==> {
            &&& r matches Err((e, None))
            &&& e.code == 400
            &&& e.message@ == "request body exceeds max allowed size"@
            &&& e.detail is None
        },
        !too_large(body_len as nat, max_request_body as nat) ==> match dlp.outcome(*body) {
            Some(idx) => {
                &&& r matches Err((e, Some(b)))
                &&& e.code == 400
                &&& e.message@ == "request blocked by sensitive data rule"@
                &&& e.detail is None
                &&& b.reason@ == dlp_reason(dlp.rules_view()[idx as int])
                &&& b.model_name@ == (match requested_model(*body) {
                    Some(m) => m,
                    None => "blocked"@,
                })
            },
            None => match requested_model(*body) {
                Some(m) => r matches Ok(s) && s@ == m,
                None => {
                    &&& r matches Err((e, None))
                    &&& e.code == 400
                    &&& e.message@ == "Missing 'model' field in request body"@
                    &&& e.detail is None
                },
            },
        },
        !too_large(body_len as nat, max_request_body as nat) && dlp.active()
            && leaf_hit(*body, dlp.rules_view(), dlp.numbers_scanned()) ==> r matches Err((_, Some(_))),
{
    if max_request_body > 0 && body_len as u64 > max_request_body {
        return Err((AitError::bad_request("request body exceeds max allowed size"), None));
    }
    proof { dlp.lemma_inactive_reports_nothing(*body); }
    if dlp.is_enabled() {
        match dlp.scan(body) {
            Some(value) => {
                let masked_value = mask_sensitive_value(value, 3, 2);
                let head = concat("blocked by DLP: sensitive value '", masked_value.as_str());
                let reason = concat(head.as_str(), "' matched");
                let name = match model_name(body) {
                    Some(m) => m.to_string(),
                    None => "blocked".to_string(),
                };
                return Err((
                    AitError::bad_request("request blocked by sensitive data rule"),
                    Some(DlpBlock { model_name: name, reason }),
                ));
            },
            None => {},
        }
    }
    match model_name(body) {
        Some(m) => Ok(m.to_string()),
        None => Err((AitError::bad_request("Missing 'model' field in request body"), None)),
    }
}

/// The refusal sent when a provider does not serve an endpoint.
pub open spec fn unsupported_message(kind: ProviderType, path: Seq<char>) -> Seq<char> {
    "provider type '"@ + db_name(kind) + "' does not support endpoint '"@ + path + "'"@
}

/// A provider only serves the endpoints of its type.
pub fn check_endpoint(kind: ProviderType, upstream_path: &str) -> (r: Result<(), AitError>)
    ensures
        r is Ok <==> spec_supports(kind, upstream_path@),
        r matches Err(e) ==> e.code == 400 && e.message@ == unsupported_message(kind, upstream_path@)
            && e.detail is None,
{
    if kind.supports_endpoint(upstream_path) {
        return Ok(());
    }
    let a = concat("provider type '", kind.to_db());
    let b = concat(a.as_str(), "' does not support endpoint '");
    let c = concat(b.as_str(), upstream_path);
    let msg = concat(c.as_str(), "'");
    Err(AitError::bad_request(msg.as_str()))
}

/// A request streams when it asks to and streaming is enabled.
pub open spec fn wants_stream(body: JsonValue, stream_enabled: bool) -> bool {
    stream_enabled && get(body, "stream"@) == Some(JsonValue::Bool(true))
}

pub fn is_streaming(body: &JsonValue, stream_enabled: bool) -> (r: bool)
    ensures
        r == wants_stream(*body, stream_enabled),
{
    let asked = match body.get("stream") {
        Some(s) => match s.as_bool() {
            Some(b) => b,
            None => false,
        },
        None => false,
    };
    asked && stream_enabled
}

/// What the log records of a failed request: the internal detail when
/// there is one, else the client-facing message.
pub fn log_error_message(e: &AitError) -> (r: String)
    ensures
        r@ == (match e.detail {
            Some(d) => d@,
            None => e.message@,
        }),
{
    match &e.detail {
        Some(d) => d.clone(),
        None => e.message.clone(),
    }
}

} // verus!

verus! {

/// Whether an upstream response header is passed on to the client: the
/// `x-*` headers and `retry-after`, compared without regard to ASCII case.
pub open spec fn forwarded_header(name: Seq<char>) -> bool {
    let l = ascii_lower(name);
    (l.len() >= 2 && l.take(2) == "x-"@) || l == "retry-after"@
}

/// `str::to_ascii_lowercase`.
pub open spec fn ascii_lower(s: Seq<char>) -> Seq<char> {
    s.map_values(|c: char| if 'A' <= c <= 'Z' { ((c as u32) + 32) as char } else { c })
}

pub fn keeps_header(name: &str) -> (r: bool)
    ensures
        r == forwarded_header(name@),
{
    let v = chars_of(name);
    let mut l: Vec<char> = Vec::new();
    let mut i: usize = 0;
    while i < v.len()
        invariant
            i <= v@.len(),
            v@ == name@,
            l@ == ascii_lower(v@.take(i as int)),
        decreases v.len() - i,
    {
        let c = v[i];
        let d = if 'A' <= c && c <= 'Z' { ((c as u8) + 32u8) as char } else { c };
        l.push(d);
        i = i + 1;
        assert(l@ =~= ascii_lower(v@.take(i as int)));
    }
    assert(v@.take(v@.len() as int) =~= v@);
    proof {
        reveal_strlit("x-");
        reveal_strlit("retry-after");
    }
    let x_prefix = l.len() >= 2 && l[0] == 'x' && l[1] == '-';
    assert(x_prefix == (l@.len() >= 2 && l@.take(2) == "x-"@)) by {
        if l@.len() >= 2 && l@.take(2) == "x-"@ {
            assert(l@.take(2)[0] == l@[0] && l@.take(2)[1] == l@[1]);
        }
        if x_prefix {
            assert(l@.take(2) =~= "x-"@);
        }
    }
    let retry: Vec<char> = chars_of("retry-after");
    x_prefix || chars_eq(&l, &retry)
}

/// Header pairs as character sequences.
pub open spec fn header_views(s: Seq<(String, String)>) -> Seq<(Seq<char>, Seq<char>)> {
    s.map_values(|p: (String, String)| (p.0@, p.1@))
}

/// The upstream headers handed on to the client, in their order.
pub open spec fn forwarded_headers(h: Seq<(Seq<char>, Seq<char>)>) -> Seq<(Seq<char>, Seq<char>)> {
    h.filter(|p: (Seq<char>, Seq<char>)| forwarded_header(p.0))
}

/// Keep the `x-*` and `retry-after` headers of an upstream response.
pub fn collect_x_headers(headers: &Vec<(String, String)>) -> (r: Vec<(String, String)>)
    ensures
        header_views(r@) == forwarded_headers(header_views(headers@)),
{
    let mut out: Vec<(String, String)> = Vec::new();
    let mut i: usize = 0;
    while i < headers.len()
        invariant
            i <= headers@.len(),
            header_views(out@) == forwarded_headers(header_views(headers@.take(i as int))),
        decreases headers.len() - i,
    {
        proof {
            reveal_with_fuel(Seq::<_>::filter, 1);
            assert(header_views(headers@.take(i + 1)).drop_last() =~= header_views(headers@.take(i as int)));
            assert(header_views(headers@.take(i + 1)).last() == (headers@[i as int].0@, headers@[i as int].1@));
        }
        let ghost prev = out@;
        if keeps_header(headers[i].0.as_str()) {
            out.push((headers[i].0.clone(), headers[i].1.clone()));
            assert(header_views(out@) =~= header_views(prev).push((headers@[i as int].0@, headers@[i as int].1@)));
        }
        i = i + 1;
    }
    assert(headers@.take(headers@.len() as int) =~= headers@);
    out
}

/// The error for an upstream that answers with a redirect, which the
/// proxy never follows.
pub fn redirect_error() -> (r: AitError)
    ensures
        r.code == 502,
        r.error_type@ == "upstream_error"@,
        r.message@ == "Ait does not support redirect policy. If the provider's base_url has changed, please update the provider configuration."@,
        r.detail is None,
{
    AitError::upstream_error(
        502,
        "Ait does not support redirect policy. If the provider's base_url has changed, please update the provider configuration.",
    )
}

/// The refusal of a model that is unknown or disabled (404).
pub fn model_unavailable(model_name: &str) -> (r: (u16, AitError))
    ensures
        r.0 == 404,
        r.1.code == 404,
        r.1.message@ == "Model '"@ + model_name@ + "' not found or disabled"@,
        r.1.detail is None,
{
    let a = concat("Model '", model_name);
    let m = concat(a.as_str(), "' not found or disabled");
    crate::error::not_found(m.as_str())
}

/// The error for an upstream body that did not arrive within the request
/// timeout (408).
pub fn read_timeout_error() -> (r: AitError)
    ensures
        r.code == 408,
        r.message@ == "upstream read timeout"@,
        r.detail is None,
{
    AitError::upstream_error(408, "upstream read timeout")
}

/// The error for an upstream body over the response cap (502).
pub fn oversized_response_error() -> (r: AitError)
    ensures
        r.code == 502,
        r.message@ == "upstream response too large"@,
        r.detail is None,
{
    AitError::upstream_error(502, "upstream response too large")
}

/// The text `String::from_utf8_lossy` makes of some bytes.
pub uninterp spec fn lossy_text(b: Seq<u8>) -> Seq<char>;

/// `String::from_utf8_lossy`: the bytes as text, each invalid sequence
/// replaced by U+FFFD; UTF-8 comes through as it is.
#[verifier::external_body]
fn text_of(b: &[u8]) -> (r: String)
    ensures
        r@ == lossy_text(b@),
        valid_utf8(b@) ==> r@ == decode_utf8(b@),
{
    String::from_utf8_lossy(b).into_owned()
}

/// The number of leading characters of `s` that fit in `max` UTF-8 bytes.
pub open spec fn fitting(s: Seq<char>, max: nat, k: int) -> int
    decreases s.len() - k,
{
    if 0 <= k < s.len() && utf8_len(s.take(k + 1)) <= max {
        fitting(s, max, k + 1)
    } else {
        k
    }
}

/// An upstream error body as logged: at most 512 bytes, cut at a character
/// boundary and marked with `...` when cut.
pub open spec fn truncated_detail(s: Seq<char>) -> Seq<char> {
    if utf8_len(s) > 512 {
        s.take(fitting(s, 512, 0)) + "..."@
    } else {
        s
    }
}

/// The number of bytes of `c` in UTF-8.
fn char_width(c: char) -> (w: usize)
    ensures
        w == char_utf8_len(c),
{
    let u = c as u32;
    if u < 0x80 {
        1
    } else if u < 0x800 {
        2
    } else if u < 0x10000 {
        3
    } else {
        4
    }
}

/// Truncate an upstream error body for the log.
pub fn truncate_detail(s: &str) -> (r: String)
    ensures
        r@ == truncated_detail(s@),
{
    let v = chars_of(s);
    if !utf8_len_exceeds(&v, 512) {
        return s.to_string();
    }
    let mut n: usize = 0;
    let mut k: usize = 0;
    while k < v.len() && char_width(v[k]) <= 512 - n
        invariant
            k <= v@.len(),
            v@ == s@,
            n == utf8_len(v@.take(k as int)),
            n <= 512,
            fitting(v@, 512, 0) == fitting(v@, 512, k as int),
        decreases v.len() - k,
    {
        proof {
            assert(v@.take(k + 1).drop_last() == v@.take(k as int));
            assert(v@.take(k + 1).last() == v@[k as int]);
        }
        n = n + char_width(v[k]);
        k = k + 1;
    }
    proof {
        if k < v.len() {
            assert(v@.take(k + 1).drop_last() == v@.take(k as int));
            assert(v@.take(k + 1).last() == v@[k as int]);
        }
    }
    let mut r = string_of_range(&v, 0, k);
    assert(v@.subrange(0, k as int) == v@.take(k as int));
    r.push('.');
    r.push('.');
    r.push('.');
    proof { reveal_strlit("..."); }
    assert(r@ =~= v@.take(k as int) + "..."@);
    r
}

/// What the log records of an upstream error response body.
pub fn error_detail(body: &[u8]) -> (r: String)
    ensures
        r@ == truncated_detail(lossy_text(body@)),
{
    let t = text_of(body);
    truncate_detail(t.as_str())
}

/// The error for an upstream that answers with a failure status: the
/// client sees the status and a generic message, the log gets the body.
pub fn upstream_failure(status: u16, detail: &str) -> (r: AitError)
    ensures
        r.code == status,
        r.error_type@ == "upstream_error"@,
        r.message@ == "upstream request failed"@,
        r.detail matches Some(d) && d@ == detail@,
{
    AitError::upstream_error(status, "upstream request failed").with_detail(detail)
}

/// Take in a chunk of a non-streamed response unless the body would exceed
/// `max` bytes, which fails the request.
pub fn append_limited(body: &mut Vec<u8>, chunk: &[u8], max: usize) -> (ok: bool)
    ensures
        ok == (old(body)@.len() + chunk@.len() <= max),
        ok ==> final(body)@ == old(body)@ + chunk@,
        !ok ==> final(body)@ == old(body)@,
{
    if chunk.len() > max || body.len() > max - chunk.len() {
        return false;
    }
    extend_bytes(body, chunk);
    true
}

/// The body forwarded for a successful non-streamed response, the usage it
/// reports, and the size of what upstream sent.
pub fn finish_response(kind: ProviderType, body: &[u8], model_name: &str) -> (r: (Vec<u8>, UsageTokens, usize))
    ensures
        r.0@ == transformed_body(kind, body@, model_name@),
        r.1 == usage_of(transformed_body(kind, body@, model_name@)),
        r.2 == body@.len(),
{
    let out = transform_response(kind, body, model_name);
    let usage = parse_usage(out.as_slice());
    (out, usage, body.len())
}

/// The limits of a streamed response: its longest duration in seconds and
/// its largest size in bytes; a configured zero means no limit.
pub fn stream_limits(max_duration_secs: u64, max_response_bytes: u64) -> (r: (Option<u64>, usize))
    ensures
        r.0 == (if max_duration_secs == 0 { None } else { Some(max_duration_secs) }),
        r.1 == (if max_response_bytes == 0 || max_response_bytes > usize::MAX { usize::MAX } else { max_response_bytes as usize }),
{
    let d = if max_duration_secs == 0 { None } else { Some(max_duration_secs) };
    let b = if max_response_bytes == 0 || max_response_bytes > usize::MAX as u64 {
        usize::MAX
    } else {
        max_response_bytes as usize
    };
    (d, b)
}

} // verus!

verus! {

/// The uptime shown by the health check: hours, minutes and seconds, as in
/// `2h3m4s`.
pub open spec fn uptime_text(total_secs: nat) -> Seq<char> {
    decimal(total_secs / 3600) + "h"@ + decimal((total_secs % 3600) / 60) + "m"@ + decimal(total_secs % 60) + "s"@
}

/// Seconds of uptime since `start` at `now`; a clock that went back counts
/// as zero.
pub fn uptime_secs(start: i64, now: i64) -> (r: u64)
    ensures
        r == (if now as int - start as int <= 0 { 0 } else { (now - start) as int }),
{
    if now <= start {
        0
    } else {
        (now as i128 - start as i128) as u64
    }
}

pub fn format_uptime(total_secs: u64) -> (r: String)
    ensures
        r@ == uptime_text(total_secs as nat),
{
    let hours = total_secs / 3600;
    let mins = (total_secs % 3600) / 60;
    let secs = total_secs % 60;
    let a = concat(decimal_string(hours).as_str(), "h");
    let b = concat(a.as_str(), decimal_string(mins).as_str());
    let c = concat(b.as_str(), "m");
    let d = concat(c.as_str(), decimal_string(secs).as_str());
    concat(d.as_str(), "s")
}

/// A model as the model listing reads it.
pub struct ModelRow {
    pub name: String,
    pub provider_id: String,
    pub enabled: bool,
    pub created_at: i64,
}

/// A provider's id and name.
pub struct ProviderRow {
    pub id: String,
    pub name: String,
}

/// One entry of the OpenAI-style model list.
#[derive(Debug)]
pub struct ListedModel {
    pub id: String,
    pub created: i64,
    pub owned_by: String,
}

/// The name of the provider with id `id` (the last one listed under it),
/// or `unknown`.
pub open spec fn owner_of(providers: Seq<ProviderRow>, id: Seq<char>) -> Seq<char>
    decreases providers.len(),
{
    if providers.len() == 0 {
        "unknown"@
    } else if providers.last().id@ == id {
        providers.last().name@
    } else {
        owner_of(providers.drop_last(), id)
    }
}

/// The listing of the enabled models, in order, each owned by its
/// provider's name.
pub open spec fn listed(models: Seq<ModelRow>, providers: Seq<ProviderRow>) -> Seq<(Seq<char>, i64, Seq<char>)>
    decreases models.len(),
{
    if models.len() == 0 {
        Seq::empty()
    } else {
        let rest = listed(models.drop_last(), providers);
        let m = models.last();
        if m.enabled {
            rest.push((m.name@, m.created_at, owner_of(providers, m.provider_id@)))
        } else {
            rest
        }
    }
}

pub open spec fn listed_views(v: Seq<ListedModel>) -> Seq<(Seq<char>, i64, Seq<char>)> {
    v.map_values(|m: ListedModel| (m.id@, m.created, m.owned_by@))
}

fn owner_name(providers: &Vec<ProviderRow>, id: &str) -> (r: String)
    ensures
        r@ == owner_of(providers@, id@),
{
    let mut i = providers.len();
    assert(providers@.take(i as int) =~= providers@);
    while i > 0
        invariant
            i <= providers@.len(),
            owner_of(providers@, id@) == owner_of(providers@.take(i as int), id@),
        decreases i,
    {
        assert(providers@.take(i - 1) =~= providers@.take(i as int).drop_last());
        assert(providers@.take(i as int).last() == providers@[i - 1]);
        if str_eq(providers[i - 1].id.as_str(), id) {
            return providers[i - 1].name.clone();
        }
        i = i - 1;
    }
    "unknown".to_string()
}

/// The model list the proxy serves: enabled models only.
pub fn list_models(models: &Vec<ModelRow>, providers: &Vec<ProviderRow>) -> (r: Vec<ListedModel>)
    ensures
        listed_views(r@) == listed(models@, providers@),
{
    let mut out: Vec<ListedModel> = Vec::new();
    let mut i: usize = 0;
    while i < models.len()
        invariant
            i <= models@.len(),
            listed_views(out@) == listed(models@.take(i as int), providers@),
        decreases models.len() - i,
    {
        assert(models@.take(i + 1).drop_last() =~= models@.take(i as int));
        assert(models@.take(i + 1).last() == models@[i as int]);
        let ghost prev = out@;
        if models[i].enabled {
            let owned_by = owner_name(providers, models[i].provider_id.as_str());
            out.push(ListedModel { id: models[i].name.clone(), created: models[i].created_at, owned_by });
            assert(listed_views(out@) =~= listed_views(prev).push(
                (models@[i as int].name@, models@[i as int].created_at, owner_of(providers@, models@[i as int].provider_id@)),
            ));
        }
        i = i + 1;
    }
    assert(models@.take(models.len() as int) =~= models@);
    out
}

} // verus!
