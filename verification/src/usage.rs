//! Token usage reported by upstream responses, and how it updates a log event.
use vstd::prelude::*;

use crate::json::{get, opt_get, opt_get_i64, opt_get_i64_exec, json_parse, parse_json, JsonValue};

verus! {

/// Token counts an upstream reported; absent counts are `None`.
#[derive(Debug)]
pub struct UsageTokens {
    pub prompt_tokens: Option<i64>,
    pub completion_tokens: Option<i64>,
    pub total_tokens: Option<i64>,
    pub cached_tokens: Option<i64>,
}

pub open spec fn or_else(a: Option<i64>, b: Option<i64>) -> Option<i64> {
    match a {
        Some(x) => Some(x),
        None => b,
    }
}

pub open spec fn or_else_value(a: Option<JsonValue>, b: Option<JsonValue>) -> Option<JsonValue> {
    match a {
        Some(x) => Some(x),
        None => b,
    }
}

/// The usage object: top-level `usage`, or `response.usage` as the Responses
/// API's terminal streaming events carry it.
pub open spec fn usage_object(val: JsonValue) -> Option<JsonValue> {
    or_else_value(get(val, "usage"@), opt_get(get(val, "response"@), "usage"@))
}

/// The usage a document reports. Chat Completions names the counts
/// `prompt_tokens`/`completion_tokens`, the Responses API `input_tokens`/
/// `output_tokens`; a missing total is the wrapping sum of the two when both
/// are known. Cached tokens come from `prompt_tokens_details` (or, when that
/// is absent, `completion_tokens_details`), then `input_tokens_details`, then
/// a top-level `cached_tokens`.
pub open spec fn usage_of_value(val: JsonValue) -> UsageTokens {
    let u = usage_object(val);
    let prompt = or_else(opt_get_i64(u, "prompt_tokens"@), opt_get_i64(u, "input_tokens"@));
    let completion = or_else(opt_get_i64(u, "completion_tokens"@), opt_get_i64(u, "output_tokens"@));
    let total = or_else(
        opt_get_i64(u, "total_tokens"@),
        match (prompt, completion) {
            (Some(p), Some(c)) => Some(p.wrapping_add(c)),
            _ => None,
        },
    );
    let details = or_else_value(opt_get(u, "prompt_tokens_details"@), opt_get(u, "completion_tokens_details"@));
    let cached = or_else(
        opt_get_i64(details, "cached_tokens"@),
        or_else(
            opt_get_i64(opt_get(u, "input_tokens_details"@), "cached_tokens"@),
            opt_get_i64(u, "cached_tokens"@),
        ),
    );
    UsageTokens { prompt_tokens: prompt, completion_tokens: completion, total_tokens: total, cached_tokens: cached }
}

pub open spec fn no_usage() -> UsageTokens {
    UsageTokens { prompt_tokens: None, completion_tokens: None, total_tokens: None, cached_tokens: None }
}

/// The usage `body` reports; nothing when it is not JSON.
pub open spec fn usage_of(body: Seq<u8>) -> UsageTokens {
    match json_parse(body) {
        Some(v) => usage_of_value(v),
        None => no_usage(),
    }
}

fn first_some(a: Option<i64>, b: Option<i64>) -> (r: Option<i64>)
    ensures
        r == or_else(a, b),
{
    match a {
        Some(x) => Some(x),
        None => b,
    }
}

/// The usage a parsed document reports.
pub fn usage_from_value(val: &JsonValue) -> (u: UsageTokens)
    ensures
        u == usage_of_value(*val),
{
    let usage: Option<&JsonValue> = match val.get("usage") {
        Some(x) => Some(x),
        None => match val.get("response") {
            Some(r) => r.get("usage"),
            None => None,
        },
    };
    let prompt = first_some(opt_get_i64_exec(usage, "prompt_tokens"), opt_get_i64_exec(usage, "input_tokens"));
    let completion = first_some(
        opt_get_i64_exec(usage, "completion_tokens"),
        opt_get_i64_exec(usage, "output_tokens"),
    );
    let total = match opt_get_i64_exec(usage, "total_tokens") {
        Some(t) => Some(t),
        None => match (prompt, completion) {
            (Some(p), Some(c)) => Some(p.wrapping_add(c)),
            _ => None,
        },
    };
    let details: Option<&JsonValue> = match usage {
        Some(u) => match u.get("prompt_tokens_details") {
            Some(d) => Some(d),
            None => u.get("completion_tokens_details"),
        },
        None => None,
    };
    let input_details: Option<&JsonValue> = match usage {
        Some(u) => u.get("input_tokens_details"),
        None => None,
    };
    let cached = first_some(
        opt_get_i64_exec(details, "cached_tokens"),
        first_some(
            opt_get_i64_exec(input_details, "cached_tokens"),
            opt_get_i64_exec(usage, "cached_tokens"),
        ),
    );
    UsageTokens { prompt_tokens: prompt, completion_tokens: completion, total_tokens: total, cached_tokens: cached }
}

/// The usage `body` reports; all counts absent when it is not JSON.
pub fn parse_usage(body: &[u8]) -> (u: UsageTokens)
    ensures
        u == usage_of(body@),
{
    match parse_json(body) {
        Some(v) => usage_from_value(&v),
        None => UsageTokens { prompt_tokens: None, completion_tokens: None, total_tokens: None, cached_tokens: None },
    }
}

/// Token counts of a proxy log event.
#[derive(Debug)]
pub struct EventTokens {
    pub prompt_tokens: Option<i64>,
    pub completion_tokens: Option<i64>,
    pub total_tokens: Option<i64>,
    pub cached_tokens: Option<i64>,
}

/// The counts recorded once a request ends: the upstream's, except that a
/// prompt estimate seeded before the request stays when the upstream reports
/// no prompt count.
pub open spec fn merged(seeded: EventTokens, usage: UsageTokens) -> EventTokens {
    EventTokens {
        prompt_tokens: or_else(usage.prompt_tokens, seeded.prompt_tokens),
        completion_tokens: usage.completion_tokens,
        total_tokens: usage.total_tokens,
        cached_tokens: usage.cached_tokens,
    }
}

/// Record the upstream's usage over the seeded counts.
pub fn apply_usage(event: &mut EventTokens, usage: &UsageTokens)
    ensures
        *final(event) == merged(*old(event), *usage),
{
    event.prompt_tokens = first_some(usage.prompt_tokens, event.prompt_tokens);
    event.completion_tokens = usage.completion_tokens;
    event.total_tokens = usage.total_tokens;
    event.cached_tokens = usage.cached_tokens;
}

/// Whether streamed usage counts as reported: some count is positive.
pub open spec fn usage_reported(u: UsageTokens) -> bool {
    ||| u.prompt_tokens matches Some(v) && v > 0
    ||| u.completion_tokens matches Some(v) && v > 0
    ||| u.total_tokens matches Some(v) && v > 0
}

pub fn is_usage_reported(u: &UsageTokens) -> (b: bool)
    ensures
        b == usage_reported(*u),
{
    (match u.prompt_tokens { Some(v) => v > 0, None => false })
        || (match u.completion_tokens { Some(v) => v > 0, None => false })
        || (match u.total_tokens { Some(v) => v > 0, None => false })
}

} // verus!
