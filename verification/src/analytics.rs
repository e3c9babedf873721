//! Time ranges and paging for the analytics and log queries.
use vstd::prelude::*;

use crate::error::AitError;
use crate::text::concat;

verus! {

/// Whether chrono can represent `secs` seconds after the Unix epoch as a UTC
/// date-time (`DateTime::from_timestamp(secs, 0)` is `Some`).
pub uninterp spec fn timestamp_valid(secs: i64) -> bool;

/// `chrono::DateTime::<Utc>::from_timestamp(secs, 0).is_some()`. Its source
/// refuses a day count (`secs` div 86400 plus the epoch's day number) outside
/// `i32`, so a valid `secs` lies well within two hundred trillion of zero.
#[verifier::external_body]
pub fn is_valid_timestamp(secs: i64) -> (r: bool)
    ensures
        r == timestamp_valid(secs),
        r ==> -200_000_000_000_000 <= secs <= 200_000_000_000_000,
{
    chrono::DateTime::from_timestamp(secs, 0).is_some()
}

/// `chrono::Utc::now().timestamp()`: the current Unix time in seconds.
/// Nothing is promised of the value.
#[verifier::external_body]
pub fn now_secs() -> (r: i64) {
    chrono::Utc::now().timestamp()
}

/// A normalized, inclusive analytics range in Unix seconds.
#[derive(Debug)]
pub struct ValidatedRange {
    pub start: i64,
    pub end: i64,
}

pub struct AnalyticsQuery {
    pub start_ts: Option<i64>,
    pub end_ts: Option<i64>,
}

pub struct StatsQuery {
    pub start_ts: Option<i64>,
    pub end_ts: Option<i64>,
}

/// The range an analytics query covers at `now`: by default the last 30 days;
/// `end` no later than an hour ahead; a reversed range becomes the day before
/// `end`; a range longer than the retention plus one day is cut to that
/// length, ending at `end`. `Err` names the timestamp chrono cannot represent.
pub open spec fn ts_range(start_ts: Option<i64>, end_ts: Option<i64>, retention_days: u64, now: i64) -> Result<(int, int), Seq<char>> {
    let start: int = match start_ts {
        Some(s) => s as int,
        None => now - 30 * 86400,
    };
    let end0: int = match end_ts {
        Some(e) => e as int,
        None => now as int,
    };
    let max_range: int = (retention_days + 1) * 86400;
    let end: int = if end0 <= now + 3600 { end0 } else { now + 3600 };
    if !timestamp_valid(start as i64) {
        Err("invalid start_ts"@)
    } else if !timestamp_valid(end0 as i64) {
        Err("invalid end_ts"@)
    } else if start >= end {
        Ok((end - 86400, end))
    } else if end - start > max_range {
        Ok((end - max_range, end))
    } else {
        Ok((start, end))
    }
}

/// Every accepted range is non-empty, ends no later than an hour after
/// `now`, and spans at most the retention plus one day.
pub proof fn lemma_ts_range_bounds(start_ts: Option<i64>, end_ts: Option<i64>, retention_days: u64, now: i64)
    ensures
        ts_range(start_ts, end_ts, retention_days, now) matches Ok((s, e)) ==> {
            &&& s < e
            &&& e <= now + 3600
            &&& e - s <= (retention_days + 1) * 86400
        },
{
}

/// Normalize a timestamp range for analytics queries at `now`.
pub fn validate_ts_range_at(
    start_ts: Option<i64>,
    end_ts: Option<i64>,
    retention_days: u64,
    now: i64,
) -> (r: Result<ValidatedRange, (u16, AitError)>)
    requires
        i64::MIN + 30 * 86400 <= now <= i64::MAX - 3600,
        retention_days <= 106_751_991_167_299,
    ensures
        match r {
            Ok(range) => ts_range(start_ts, end_ts, retention_days, now) == Ok::<(int, int), Seq<char>>((range.start as int, range.end as int)),
            Err(e) => e.0 == 400 && e.1.code == 400 && ts_range(start_ts, end_ts, retention_days, now) == Err::<(int, int), Seq<char>>(e.1.message@),
        },
{
    let start = match start_ts {
        Some(s) => s,
        None => now - 30 * 86400,
    };
    let end = match end_ts {
        Some(e) => e,
        None => now,
    };
    if !is_valid_timestamp(start) {
        return Err(AitError::bad_request("invalid start_ts").into_response());
    }
    if !is_valid_timestamp(end) {
        return Err(AitError::bad_request("invalid end_ts").into_response());
    }
    let max_range: i64 = (retention_days as i64 + 1) * 86400;
    let end = if end <= now + 3600 { end } else { now + 3600 };
    if start >= end {
        Ok(ValidatedRange { start: end - 86400, end })
    } else if end - start > max_range {
        Ok(ValidatedRange { start: end - max_range, end })
    } else {
        Ok(ValidatedRange { start, end })
    }
}

/// Normalize a timestamp range for analytics queries at the current time.
pub fn validate_ts_range(start_ts: Option<i64>, end_ts: Option<i64>, retention_days: u64) -> (r: Result<ValidatedRange, (u16, AitError)>)
    requires
        retention_days <= 106_751_991_167_299,
    ensures
        exists|now: i64| #![trigger ts_range(start_ts, end_ts, retention_days, now)] match r {
            Ok(range) => ts_range(start_ts, end_ts, retention_days, now) == Ok::<(int, int), Seq<char>>((range.start as int, range.end as int)),
            Err(e) => e.0 == 400 && ts_range(start_ts, end_ts, retention_days, now) == Err::<(int, int), Seq<char>>(e.1.message@),
        },
{
    let clock = now_secs();
    // The clock is far inside these bounds; they only rule out overflow.
    let now = if clock < i64::MIN + 30 * 86400 {
        i64::MIN + 30 * 86400
    } else if clock > i64::MAX - 3600 {
        i64::MAX - 3600
    } else {
        clock
    };
    validate_ts_range_at(start_ts, end_ts, retention_days, now)
}

} // verus!

verus! {

/// Filters of a proxy-log listing as the client sends them.
pub struct ProxyLogQuery {
    pub page: Option<u64>,
    pub per_page: Option<u64>,
    pub start_ts: Option<i64>,
    pub end_ts: Option<i64>,
    pub model_name: Option<String>,
    pub provider_name: Option<String>,
    pub status: Option<String>,
    pub api_key_name: Option<String>,
    pub endpoint: Option<String>,
    pub is_streaming: Option<bool>,
    pub upstream_model: Option<String>,
    pub provider_type: Option<String>,
    pub client_ip: Option<String>,
}

/// Filters of a proxy-log listing as the log store receives them.
#[derive(Debug)]
pub struct ProxyLogQueryParams {
    pub page: u64,
    pub per_page: u64,
    pub start_ts: Option<i64>,
    pub end_ts: Option<i64>,
    pub model_name: Option<String>,
    pub provider_name: Option<String>,
    pub status: Option<String>,
    pub api_key_name: Option<String>,
    pub endpoint: Option<String>,
    pub is_streaming: Option<bool>,
    pub upstream_model: Option<String>,
    pub provider_type: Option<String>,
    pub client_ip: Option<String>,
}

pub const MAX_PER_PAGE: u64 = 100;

/// Upper bound for `page`, so that `page * per_page` cannot overflow.
pub const MAX_PAGE: u64 = 1_000_000;

pub open spec fn clamp(x: u64, lo: u64, hi: u64) -> u64 {
    if x < lo { lo } else if x > hi { hi } else { x }
}

/// Paging and time filters of a log listing: page defaults to 1 and is kept
/// within 1 to a million; per-page defaults to 20 and is kept within 1 to
/// 100; a timestamp chrono cannot represent is refused.
pub fn proxy_log_params(q: ProxyLogQuery) -> (r: Result<ProxyLogQueryParams, (u16, AitError)>)
    ensures
        match r {
            Ok(p) => p.page == clamp(
                match q.page { Some(x) => x, None => 1 },
                1,
                MAX_PAGE,
            ) && p.per_page == clamp(
                match q.per_page { Some(x) => x, None => 20 },
                1,
                MAX_PER_PAGE,
            ) && p.start_ts == q.start_ts && p.end_ts == q.end_ts
                && (q.start_ts matches Some(s) ==> timestamp_valid(s))
                && (q.end_ts matches Some(e) ==> timestamp_valid(e))
                && p.model_name == q.model_name && p.provider_name == q.provider_name
                && p.status == q.status && p.api_key_name == q.api_key_name
                && p.endpoint == q.endpoint && p.is_streaming == q.is_streaming
                && p.upstream_model == q.upstream_model && p.provider_type == q.provider_type
                && p.client_ip == q.client_ip,
            Err(e) => e.0 == 400 && (
                (q.start_ts matches Some(s) && !timestamp_valid(s) && e.1.message@ == "invalid start_ts"@)
                || ((q.start_ts matches Some(s) ==> timestamp_valid(s)) && (q.end_ts matches Some(t)
                    && !timestamp_valid(t) && e.1.message@ == "invalid end_ts"@))),
        },
{
    let page0 = match q.page {
        Some(x) => x,
        None => 1,
    };
    let per0 = match q.per_page {
        Some(x) => x,
        None => 20,
    };
    let page = if page0 < 1 { 1 } else if page0 > MAX_PAGE { MAX_PAGE } else { page0 };
    let per_page = if per0 < 1 { 1 } else if per0 > MAX_PER_PAGE { MAX_PER_PAGE } else { per0 };
    if let Some(ts) = q.start_ts {
        if !is_valid_timestamp(ts) {
            return Err(AitError::bad_request("invalid start_ts").into_response());
        }
    }
    if let Some(ts) = q.end_ts {
        if !is_valid_timestamp(ts) {
            return Err(AitError::bad_request("invalid end_ts").into_response());
        }
    }
    Ok(ProxyLogQueryParams {
        page,
        per_page,
        start_ts: q.start_ts,
        end_ts: q.end_ts,
        model_name: q.model_name,
        provider_name: q.provider_name,
        status: q.status,
        api_key_name: q.api_key_name,
        endpoint: q.endpoint,
        is_streaming: q.is_streaming,
        upstream_model: q.upstream_model,
        provider_type: q.provider_type,
        client_ip: q.client_ip,
    })
}

/// Why an analytics query gave no answer, as opposed to an empty one.
#[derive(Clone, Copy, Debug, PartialEq, Eq, Structural)]
pub enum AnalyticsError {
    /// The query ran past the analytics timeout.
    Timeout,
    /// No worker could take the query.
    Unavailable,
    /// The log store refused the query; its detail stays in the log.
    Failed,
}

pub open spec fn analytics_message(e: AnalyticsError) -> Seq<char> {
    match e {
        AnalyticsError::Timeout => "analytics query timed out"@,
        AnalyticsError::Unavailable => "analytics service unavailable"@,
        AnalyticsError::Failed => "analytics query failed"@,
    }
}

impl AnalyticsError {
    /// The message a failed query is answered with.
    pub fn message(&self) -> (s: &'static str)
        ensures
            s@ == analytics_message(*self),
    {
        match self {
            AnalyticsError::Timeout => "analytics query timed out",
            AnalyticsError::Unavailable => "analytics service unavailable",
            AnalyticsError::Failed => "analytics query failed",
        }
    }

    /// A failed query as a 503.
    pub fn into_response(self) -> (r: (u16, AitError))
        ensures
            r.0 == 503,
            r.1.code == 503,
            r.1.message@ == analytics_message(self),
            r.1.error_type@ == "service_unavailable"@,
            r.1.detail is None,
            r.1.request_id is None,
    {
        (503, AitError {
            message: self.message().to_string(),
            code: 503,
            error_type: "service_unavailable".to_string(),
            detail: None,
            request_id: None,
        })
    }
}

/// One row of a proxy-log listing.
#[derive(Debug)]
pub struct ProxyLogEntryResponse {
    pub timestamp: i64,
    pub api_key_name: Option<String>,
    pub model_name: String,
    pub provider_name: String,
    pub prompt_tokens: Option<i64>,
    pub completion_tokens: Option<i64>,
    pub total_tokens: Option<i64>,
    pub cached_tokens: Option<i64>,
    pub latency_ms: i64,
    pub status: String,
    pub endpoint: String,
    pub is_streaming: bool,
    pub time_to_first_token_ms: Option<i64>,
    pub upstream_model: String,
    pub provider_type: String,
    pub response_body_size: Option<i64>,
    pub error_message: Option<String>,
    pub client_ip: Option<String>,
    /// Correlation id, unique per request.
    pub request_id: String,
}

/// One page of a proxy-log listing and the number of rows that match.
#[derive(Debug)]
pub struct ProxyLogQueryResult {
    pub items: Vec<ProxyLogEntryResponse>,
    pub total: u64,
}

/// Count of requests or tokens in one time bucket.
pub struct BucketEntry {
    pub timestamp: i64,
    pub count: u64,
}

/// Requests served per model.
pub struct ModelDistEntry {
    pub model: String,
    pub count: u64,
}

/// Tokens per category.
#[derive(Debug)]
pub struct TokenDistEntry {
    pub category: String,
    pub count: u64,
}

/// All analytics aggregates the console overview needs.
pub struct OverviewMetrics {
    pub total_requests: u64,
    pub total_tokens: u64,
    pub request_buckets: Vec<BucketEntry>,
    pub token_buckets: Vec<BucketEntry>,
    pub model_dist: Vec<ModelDistEntry>,
    pub token_dist: Vec<TokenDistEntry>,
}

pub open spec fn nonneg(x: i64) -> nat {
    if x < 0 { 0 } else { x as nat }
}

/// Split token sums into uncached input, cached input (never more than the
/// input) and output; negative sums count as zero.
pub fn token_dist_from_sums(prompt: i64, completion: i64, cached: i64) -> (r: Vec<TokenDistEntry>)
    ensures
        r.len() == 3,
        r[0].category@ == "uncached_input"@,
        r[1].category@ == "cached_input"@,
        r[2].category@ == "output"@,
        r[1].count == if nonneg(cached) <= nonneg(prompt) { nonneg(cached) } else { nonneg(prompt) },
        r[0].count == nonneg(prompt) - r[1].count,
        r[2].count == nonneg(completion),
{
    let prompt: u64 = if prompt < 0 { 0 } else { prompt as u64 };
    let completion: u64 = if completion < 0 { 0 } else { completion as u64 };
    let cached: u64 = if cached < 0 { 0 } else { cached as u64 };
    let cached_in = if cached <= prompt { cached } else { prompt };
    let uncached_input = prompt - cached_in;
    let mut v = Vec::new();
    v.push(TokenDistEntry { category: "uncached_input".to_string(), count: uncached_input });
    v.push(TokenDistEntry { category: "cached_input".to_string(), count: cached_in });
    v.push(TokenDistEntry { category: "output".to_string(), count: completion });
    v
}

} // verus!

verus! {

/// A bound parameter of a log query.
#[derive(Debug)]
pub enum SqlParam {
    /// A UTC date-time, as Unix seconds.
    Timestamp(i64),
    Text(String),
    Flag(bool),
    Int(i64),
}

/// What a bound parameter carries.
pub enum ParamData {
    Timestamp(i64),
    Text(Seq<char>),
    Flag(bool),
    Int(i64),
}

pub open spec fn param_data(p: SqlParam) -> ParamData {
    match p {
        SqlParam::Timestamp(t) => ParamData::Timestamp(t),
        SqlParam::Text(s) => ParamData::Text(s@),
        SqlParam::Flag(b) => ParamData::Flag(b),
        SqlParam::Int(i) => ParamData::Int(i),
    }
}

/// A timestamp bound as chrono gives it: out of range, the epoch.
pub open spec fn bound_time(ts: i64) -> i64 {
    if timestamp_valid(ts) { ts } else { 0 }
}

pub open spec fn time_filter(cond: Seq<char>, ts: Option<i64>) -> Seq<(Seq<char>, ParamData)> {
    match ts {
        Some(t) => seq![(cond, ParamData::Timestamp(bound_time(t)))],
        None => Seq::empty(),
    }
}

/// An equality filter on a text column; an empty value filters nothing.
pub open spec fn text_filter(column: Seq<char>, v: Option<String>) -> Seq<(Seq<char>, ParamData)> {
    match v {
        Some(s) => if s@.len() > 0 { seq![(column + " = ?"@, ParamData::Text(s@))] } else { Seq::empty() },
        None => Seq::empty(),
    }
}

pub open spec fn flag_filter(column: Seq<char>, v: Option<bool>) -> Seq<(Seq<char>, ParamData)> {
    match v {
        Some(b) => seq![(column + " = ?"@, ParamData::Flag(b))],
        None => Seq::empty(),
    }
}

/// The conditions of a log listing, in order, each with its parameter.
pub open spec fn log_filters(p: ProxyLogQueryParams) -> Seq<(Seq<char>, ParamData)> {
    time_filter("timestamp >= ?"@, p.start_ts) + time_filter("timestamp < ?"@, p.end_ts)
        + text_filter("model_name"@, p.model_name) + text_filter("provider_name"@, p.provider_name)
        + text_filter("status"@, p.status) + text_filter("api_key_name"@, p.api_key_name)
        + text_filter("endpoint"@, p.endpoint) + flag_filter("is_streaming"@, p.is_streaming)
        + text_filter("upstream_model"@, p.upstream_model) + text_filter("provider_type"@, p.provider_type)
        + text_filter("client_ip"@, p.client_ip)
}

/// `conds` joined with ` AND `.
pub open spec fn join_and(conds: Seq<Seq<char>>) -> Seq<char>
    decreases conds.len(),
{
    if conds.len() == 0 {
        Seq::empty()
    } else if conds.len() == 1 {
        conds[0]
    } else {
        join_and(conds.drop_last()) + " AND "@ + conds.last()
    }
}

/// The `WHERE` clause of a listing: nothing without conditions.
pub open spec fn where_clause(conds: Seq<Seq<char>>) -> Seq<char> {
    if conds.len() == 0 { Seq::empty() } else { " WHERE "@ + join_and(conds) }
}

/// A log listing as SQL: the clause shared by its two statements and the
/// parameters it binds.
pub struct LogQuery {
    pub where_clause: String,
    pub params: Vec<SqlParam>,
}

fn push_filter(conds: &mut Vec<String>, params: &mut Vec<SqlParam>, cond: String, p: SqlParam)
    ensures
        final(conds)@.map_values(|c: String| c@) == old(conds)@.map_values(|c: String| c@).push(cond@),
        final(params)@.map_values(|q: SqlParam| param_data(q)) == old(params)@.map_values(|q: SqlParam| param_data(q)).push(param_data(p)),
{
    conds.push(cond);
    params.push(p);
    assert(conds@.map_values(|c: String| c@) =~= old(conds)@.map_values(|c: String| c@).push(cond@));
    assert(params@.map_values(|q: SqlParam| param_data(q)) =~= old(params)@.map_values(|q: SqlParam| param_data(q)).push(param_data(p)));
}

pub open spec fn conds_of(f: Seq<(Seq<char>, ParamData)>) -> Seq<Seq<char>> {
    f.map_values(|x: (Seq<char>, ParamData)| x.0)
}

pub open spec fn params_of(f: Seq<(Seq<char>, ParamData)>) -> Seq<ParamData> {
    f.map_values(|x: (Seq<char>, ParamData)| x.1)
}

fn add_time(conds: &mut Vec<String>, params: &mut Vec<SqlParam>, cond: &str, ts: Option<i64>)
    ensures
        final(conds)@.map_values(|c: String| c@) == old(conds)@.map_values(|c: String| c@) + conds_of(time_filter(cond@, ts)),
        final(params)@.map_values(|q: SqlParam| param_data(q)) == old(params)@.map_values(|q: SqlParam| param_data(q)) + params_of(time_filter(cond@, ts)),
{
    match ts {
        Some(t) => {
            let bound = if is_valid_timestamp(t) { t } else { 0 };
            push_filter(conds, params, cond.to_string(), SqlParam::Timestamp(bound));
            assert(conds_of(time_filter(cond@, ts)) =~= seq![cond@]);
            assert(params_of(time_filter(cond@, ts)) =~= seq![ParamData::Timestamp(bound)]);
        },
        None => {
            assert(conds_of(time_filter(cond@, ts)) =~= Seq::<Seq<char>>::empty());
            assert(params_of(time_filter(cond@, ts)) =~= Seq::<ParamData>::empty());
        },
    }
}

fn add_text(conds: &mut Vec<String>, params: &mut Vec<SqlParam>, column: &str, v: &Option<String>)
    ensures
        final(conds)@.map_values(|c: String| c@) == old(conds)@.map_values(|c: String| c@) + conds_of(text_filter(column@, *v)),
        final(params)@.map_values(|q: SqlParam| param_data(q)) == old(params)@.map_values(|q: SqlParam| param_data(q)) + params_of(text_filter(column@, *v)),
{
    match v {
        Some(s) => {
            if !s.as_str().is_empty() {
                let cond = concat(column, " = ?");
                push_filter(conds, params, cond, SqlParam::Text(s.clone()));
                assert(conds_of(text_filter(column@, *v)) =~= seq![column@ + " = ?"@]);
                assert(params_of(text_filter(column@, *v)) =~= seq![ParamData::Text(s@)]);
            } else {
                assert(conds_of(text_filter(column@, *v)) =~= Seq::<Seq<char>>::empty());
                assert(params_of(text_filter(column@, *v)) =~= Seq::<ParamData>::empty());
            }
        },
        None => {
            assert(conds_of(text_filter(column@, *v)) =~= Seq::<Seq<char>>::empty());
            assert(params_of(text_filter(column@, *v)) =~= Seq::<ParamData>::empty());
        },
    }
}

fn add_flag(conds: &mut Vec<String>, params: &mut Vec<SqlParam>, column: &str, v: Option<bool>)
    ensures
        final(conds)@.map_values(|c: String| c@) == old(conds)@.map_values(|c: String| c@) + conds_of(flag_filter(column@, v)),
        final(params)@.map_values(|q: SqlParam| param_data(q)) == old(params)@.map_values(|q: SqlParam| param_data(q)) + params_of(flag_filter(column@, v)),
{
    match v {
        Some(b) => {
            let cond = concat(column, " = ?");
            push_filter(conds, params, cond, SqlParam::Flag(b));
            assert(conds_of(flag_filter(column@, v)) =~= seq![column@ + " = ?"@]);
            assert(params_of(flag_filter(column@, v)) =~= seq![ParamData::Flag(b)]);
        },
        None => {
            assert(conds_of(flag_filter(column@, v)) =~= Seq::<Seq<char>>::empty());
            assert(params_of(flag_filter(column@, v)) =~= Seq::<ParamData>::empty());
        },
    }
}

proof fn lemma_filters_concat(a: Seq<(Seq<char>, ParamData)>, b: Seq<(Seq<char>, ParamData)>)
    ensures
        conds_of(a + b) == conds_of(a) + conds_of(b),
        params_of(a + b) == params_of(a) + params_of(b),
{
    assert(conds_of(a + b) =~= conds_of(a) + conds_of(b));
    assert(params_of(a + b) =~= params_of(a) + params_of(b));
}

} // verus!

verus! {

/// `conds` joined with ` AND `, behind ` WHERE ` when there are any.
fn where_of(conds: &Vec<String>) -> (r: String)
    ensures
        r@ == where_clause(conds@.map_values(|c: String| c@)),
{
    let ghost cv = conds@.map_values(|c: String| c@);
    if conds.len() == 0 {
        return String::new();
    }
    let mut joined = conds[0].clone();
    let mut i: usize = 1;
    assert(cv.take(1) =~= seq![cv[0]]);
    while i < conds.len()
        invariant
            1 <= i <= conds.len(),
            cv == conds@.map_values(|c: String| c@),
            joined@ == join_and(cv.take(i as int)),
        decreases conds.len() - i,
    {
        let a = concat(joined.as_str(), " AND ");
        joined = concat(a.as_str(), conds[i].as_str());
        assert(cv.take(i + 1).drop_last() =~= cv.take(i as int));
        i = i + 1;
    }
    assert(cv.take(i as int) =~= cv);
    concat(" WHERE ", joined.as_str())
}

/// The `WHERE` clause and parameters of a log listing: one condition per
/// filter given, empty text filters ignored.
pub fn build_log_query(p: &ProxyLogQueryParams) -> (r: LogQuery)
    ensures
        r.where_clause@ == where_clause(conds_of(log_filters(*p))),
        r.params@.map_values(|q: SqlParam| param_data(q)) == params_of(log_filters(*p)),
{
    let mut conds: Vec<String> = Vec::new();
    let mut params: Vec<SqlParam> = Vec::new();
    assert(conds@.map_values(|c: String| c@) =~= Seq::<Seq<char>>::empty());
    assert(params@.map_values(|q: SqlParam| param_data(q)) =~= Seq::<ParamData>::empty());
    add_time(&mut conds, &mut params, "timestamp >= ?", p.start_ts);
    add_time(&mut conds, &mut params, "timestamp < ?", p.end_ts);
    add_text(&mut conds, &mut params, "model_name", &p.model_name);
    add_text(&mut conds, &mut params, "provider_name", &p.provider_name);
    add_text(&mut conds, &mut params, "status", &p.status);
    add_text(&mut conds, &mut params, "api_key_name", &p.api_key_name);
    add_text(&mut conds, &mut params, "endpoint", &p.endpoint);
    add_flag(&mut conds, &mut params, "is_streaming", p.is_streaming);
    add_text(&mut conds, &mut params, "upstream_model", &p.upstream_model);
    add_text(&mut conds, &mut params, "provider_type", &p.provider_type);
    add_text(&mut conds, &mut params, "client_ip", &p.client_ip);
    proof {
        let f1 = time_filter("timestamp >= ?"@, p.start_ts);
        let f2 = time_filter("timestamp < ?"@, p.end_ts);
        let f3 = text_filter("model_name"@, p.model_name);
        let f4 = text_filter("provider_name"@, p.provider_name);
        let f5 = text_filter("status"@, p.status);
        let f6 = text_filter("api_key_name"@, p.api_key_name);
        let f7 = text_filter("endpoint"@, p.endpoint);
        let f8 = flag_filter("is_streaming"@, p.is_streaming);
        let f9 = text_filter("upstream_model"@, p.upstream_model);
        let f10 = text_filter("provider_type"@, p.provider_type);
        let f11 = text_filter("client_ip"@, p.client_ip);
        lemma_filters_concat(f1, f2);
        lemma_filters_concat(f1 + f2, f3);
        lemma_filters_concat(f1 + f2 + f3, f4);
        lemma_filters_concat(f1 + f2 + f3 + f4, f5);
        lemma_filters_concat(f1 + f2 + f3 + f4 + f5, f6);
        lemma_filters_concat(f1 + f2 + f3 + f4 + f5 + f6, f7);
        lemma_filters_concat(f1 + f2 + f3 + f4 + f5 + f6 + f7, f8);
        lemma_filters_concat(f1 + f2 + f3 + f4 + f5 + f6 + f7 + f8, f9);
        lemma_filters_concat(f1 + f2 + f3 + f4 + f5 + f6 + f7 + f8 + f9, f10);
        lemma_filters_concat(f1 + f2 + f3 + f4 + f5 + f6 + f7 + f8 + f9 + f10, f11);
        assert(Seq::<Seq<char>>::empty() + conds_of(f1) + conds_of(f2) + conds_of(f3) + conds_of(f4) + conds_of(f5)
            + conds_of(f6) + conds_of(f7) + conds_of(f8) + conds_of(f9) + conds_of(f10) + conds_of(f11)
            =~= conds_of(log_filters(*p)));
        assert(Seq::<ParamData>::empty() + params_of(f1) + params_of(f2) + params_of(f3) + params_of(f4)
            + params_of(f5) + params_of(f6) + params_of(f7) + params_of(f8) + params_of(f9) + params_of(f10)
            + params_of(f11) =~= params_of(log_filters(*p)));
    }
    let w = where_of(&conds);
    LogQuery { where_clause: w, params }
}

/// The statement counting the rows of a listing.
pub fn count_sql(where_clause: &str) -> (r: String)
    ensures
        r@ == "SELECT COUNT(*) FROM proxy_log"@ + where_clause@,
{
    concat("SELECT COUNT(*) FROM proxy_log", where_clause)
}

/// The columns a listing returns, in order.
pub open spec fn log_columns() -> Seq<char> {
    "SELECT timestamp, api_key_name, model_name, provider_name, prompt_tokens, completion_tokens, total_tokens, cached_tokens, latency_ms, status, endpoint, is_streaming, time_to_first_token_ms, upstream_model, provider_type, response_body_size, error_message, client_ip, request_id FROM proxy_log"@
}

/// The statement selecting one page of a listing, newest first; its limit
/// and offset are bound after the filter parameters.
pub fn data_sql(where_clause: &str) -> (r: String)
    ensures
        r@ == log_columns() + where_clause@ + " ORDER BY timestamp DESC LIMIT ? OFFSET ?"@,
{
    let head = concat(
        "SELECT timestamp, api_key_name, model_name, provider_name, prompt_tokens, completion_tokens, total_tokens, cached_tokens, latency_ms, status, endpoint, is_streaming, time_to_first_token_ms, upstream_model, provider_type, response_body_size, error_message, client_ip, request_id FROM proxy_log",
        where_clause,
    );
    concat(head.as_str(), " ORDER BY timestamp DESC LIMIT ? OFFSET ?")
}

/// The rows skipped before a page: `(page - 1) * per_page`, saturating.
pub open spec fn page_offset(page: u64, per_page: u64) -> u64 {
    let before: int = if page == 0 { 0 } else { page - 1 };
    if before * per_page > u64::MAX { u64::MAX } else { (before * per_page) as u64 }
}

/// The limit and offset of a page of a listing of `total` rows; `None` for
/// a page past the end, which is answered with no rows without a scan.
pub fn page_window(page: u64, per_page: u64, total: u64) -> (r: Option<(i64, i64)>)
    ensures
        page_offset(page, per_page) >= total ==> r is None,
        page_offset(page, per_page) < total ==> r == Some((per_page as i64, page_offset(page, per_page) as i64)),
{
    let before = if page == 0 { 0 } else { page - 1 };
    let offset = match before.checked_mul(per_page) {
        Some(x) => x,
        None => u64::MAX,
    };
    if offset >= total {
        None
    } else {
        Some((per_page as i64, offset as i64))
    }
}

} // verus!

verus! {

/// A stored proxy-log row as a listing's conditions read it: its time, its
/// text columns that are not NULL, and its streaming flag.
pub struct LogRow {
    pub timestamp: i64,
    pub text: Map<Seq<char>, Seq<char>>,
    pub is_streaming: bool,
}

/// The comparison operators a condition `column op ?` may use.
pub open spec fn sql_ops() -> Seq<Seq<char>> {
    seq!["="@, "<"@, "<="@, ">"@, ">="@]
}

/// SQL's integer comparison `x op y`.
pub open spec fn int_relation(x: int, op: Seq<char>, y: int) -> bool {
    if op == "="@ {
        x == y
    } else if op == "<"@ {
        x < y
    } else if op == "<="@ {
        x <= y
    } else if op == ">"@ {
        x > y
    } else if op == ">="@ {
        x >= y
    } else {
        false
    }
}

/// Whether `row`'s column `col` compares by `op` with the bound parameter;
/// a NULL text column compares with nothing.
pub open spec fn compares(row: LogRow, col: Seq<char>, op: Seq<char>, param: ParamData) -> bool {
    match param {
        ParamData::Timestamp(t) => col == "timestamp"@ && int_relation(row.timestamp as int, op, t as int),
        ParamData::Text(s) => op == "="@ && row.text.contains_key(col) && row.text[col] == s,
        ParamData::Flag(b) => col == "is_streaming"@ && op == "="@ && row.is_streaming == b,
        ParamData::Int(i) => false,
    }
}

/// The columns of the proxy log a condition may name.
pub open spec fn filter_columns() -> Seq<Seq<char>> {
    seq![
        "timestamp"@, "model_name"@, "provider_name"@, "status"@, "api_key_name"@, "endpoint"@,
        "is_streaming"@, "upstream_model"@, "provider_type"@, "client_ip"@,
    ]
}

/// What SQL makes of a condition `col op ?` with its bound parameter.
pub open spec fn cond_holds(cond: Seq<char>, param: ParamData, row: LogRow) -> bool {
    forall|col: Seq<char>, op: Seq<char>|
        filter_columns().contains(col) && sql_ops().contains(op) && #[trigger] (col + " "@ + op + " ?"@) == cond
            ==> compares(row, col, op, param)
}

/// Whether a row passes every condition of a listing.
pub open spec fn filters_hold(f: Seq<(Seq<char>, ParamData)>, row: LogRow) -> bool {
    forall|i: int| 0 <= i < f.len() ==> cond_holds(#[trigger] f[i].0, f[i].1, row)
}

proof fn lemma_hold_split(a: Seq<(Seq<char>, ParamData)>, b: Seq<(Seq<char>, ParamData)>, row: LogRow)
    requires
        filters_hold(a + b, row),
    ensures
        filters_hold(a, row),
        filters_hold(b, row),
{
    assert forall|i: int| 0 <= i < a.len() implies cond_holds(#[trigger] a[i].0, a[i].1, row) by {
        assert((a + b)[i] == a[i]);
    }
    assert forall|i: int| 0 <= i < b.len() implies cond_holds(#[trigger] b[i].0, b[i].1, row) by {
        assert((a + b)[a.len() + i] == b[i]);
    }
}

/// Whether a text filter set to a non-empty value is met by `row`: its
/// column holds exactly that value. An unset or empty filter is met by all.
pub open spec fn column_equals(row: LogRow, column: Seq<char>, v: Option<String>) -> bool {
    match v {
        Some(m) => m@.len() > 0 ==> row.text.contains_key(column) && row.text[column] == m@,
        None => true,
    }
}

/// A text filter on `column` with a non-empty value passes only rows whose
/// column holds exactly that value.
proof fn lemma_text_filter(column: Seq<char>, v: Option<String>, row: LogRow)
    requires
        filter_columns().contains(column),
        filters_hold(text_filter(column, v), row),
    ensures
        column_equals(row, column, v),
{
    if v is Some && v->0@.len() > 0 {
        reveal_strlit("=");
        reveal_strlit(" ");
        reveal_strlit(" ?");
        reveal_strlit(" = ?");
        assert(column + " "@ + "="@ + " ?"@ =~= column + " = ?"@);
        assert(sql_ops()[0] == "="@);
        assert(sql_ops().contains("="@));
        assert(text_filter(column, v)[0].0 == column + " = ?"@);
    }
}

/// What a proxy-log listing returns: with `start_ts` set, only rows at or
/// after it; with `end_ts` set, only rows strictly before it (the end is an
/// upper bound); with a text filter set to a non-empty value, only rows whose
/// column equals it; with `is_streaming` set, only rows with that flag.
/// Timestamps are read as chrono reads them.
pub proof fn lemma_listing_returns_matching_rows(p: ProxyLogQueryParams, row: LogRow)
    requires
        filters_hold(log_filters(p), row),
    ensures
        p.start_ts matches Some(s) ==> row.timestamp >= bound_time(s),
        p.end_ts matches Some(t) ==> row.timestamp < bound_time(t),
        column_equals(row, "model_name"@, p.model_name),
        column_equals(row, "provider_name"@, p.provider_name),
        column_equals(row, "status"@, p.status),
        column_equals(row, "api_key_name"@, p.api_key_name),
        column_equals(row, "endpoint"@, p.endpoint),
        p.is_streaming matches Some(b) ==> row.is_streaming == b,
        column_equals(row, "upstream_model"@, p.upstream_model),
        column_equals(row, "provider_type"@, p.provider_type),
        column_equals(row, "client_ip"@, p.client_ip),
{
    reveal_strlit("=");
    reveal_strlit("<");
    reveal_strlit("<=");
    reveal_strlit(">");
    reveal_strlit(">=");
    reveal_strlit(" ");
    reveal_strlit(" ?");
    reveal_strlit(" = ?");
    reveal_strlit("timestamp");
    reveal_strlit("timestamp >= ?");
    reveal_strlit("timestamp < ?");
    reveal_strlit("is_streaming");
    let f1 = time_filter("timestamp >= ?"@, p.start_ts);
    let f2 = time_filter("timestamp < ?"@, p.end_ts);
    let f3 = text_filter("model_name"@, p.model_name);
    let f4 = text_filter("provider_name"@, p.provider_name);
    let f5 = text_filter("status"@, p.status);
    let f6 = text_filter("api_key_name"@, p.api_key_name);
    let f7 = text_filter("endpoint"@, p.endpoint);
    let f8 = flag_filter("is_streaming"@, p.is_streaming);
    let f9 = text_filter("upstream_model"@, p.upstream_model);
    let f10 = text_filter("provider_type"@, p.provider_type);
    let f11 = text_filter("client_ip"@, p.client_ip);
    assert(log_filters(p) == f1 + f2 + f3 + f4 + f5 + f6 + f7 + f8 + f9 + f10 + f11);
    lemma_hold_split(f1 + f2 + f3 + f4 + f5 + f6 + f7 + f8 + f9 + f10, f11, row);
    lemma_hold_split(f1 + f2 + f3 + f4 + f5 + f6 + f7 + f8 + f9, f10, row);
    lemma_hold_split(f1 + f2 + f3 + f4 + f5 + f6 + f7 + f8, f9, row);
    lemma_hold_split(f1 + f2 + f3 + f4 + f5 + f6 + f7, f8, row);
    lemma_hold_split(f1 + f2 + f3 + f4 + f5 + f6, f7, row);
    lemma_hold_split(f1 + f2 + f3 + f4 + f5, f6, row);
    lemma_hold_split(f1 + f2 + f3 + f4, f5, row);
    lemma_hold_split(f1 + f2 + f3, f4, row);
    lemma_hold_split(f1 + f2, f3, row);
    lemma_hold_split(f1, f2, row);
    let cols = filter_columns();
    assert(cols[0] == "timestamp"@ && cols[1] == "model_name"@ && cols[2] == "provider_name"@
        && cols[3] == "status"@ && cols[4] == "api_key_name"@ && cols[5] == "endpoint"@
        && cols[6] == "is_streaming"@ && cols[7] == "upstream_model"@ && cols[8] == "provider_type"@
        && cols[9] == "client_ip"@);
    assert(cols.contains("timestamp"@) && cols.contains("model_name"@) && cols.contains("provider_name"@)
        && cols.contains("status"@) && cols.contains("api_key_name"@) && cols.contains("endpoint"@)
        && cols.contains("is_streaming"@) && cols.contains("upstream_model"@) && cols.contains("provider_type"@)
        && cols.contains("client_ip"@));
    lemma_text_filter("model_name"@, p.model_name, row);
    lemma_text_filter("provider_name"@, p.provider_name, row);
    lemma_text_filter("status"@, p.status, row);
    lemma_text_filter("api_key_name"@, p.api_key_name, row);
    lemma_text_filter("endpoint"@, p.endpoint, row);
    lemma_text_filter("upstream_model"@, p.upstream_model, row);
    lemma_text_filter("provider_type"@, p.provider_type, row);
    lemma_text_filter("client_ip"@, p.client_ip, row);
    assert(sql_ops()[0] == "="@);
    assert(sql_ops()[1] == "<"@);
    assert(sql_ops()[4] == ">="@);
    assert(sql_ops().contains("="@));
    assert(sql_ops().contains("<"@));
    assert(sql_ops().contains(">="@));
    if let Some(s) = p.start_ts {
        assert("timestamp"@ + " "@ + ">="@ + " ?"@ =~= "timestamp >= ?"@);
        assert(f1[0].0 == "timestamp >= ?"@);
        assert(f1[0].1 == ParamData::Timestamp(bound_time(s)));
        assert(cond_holds(f1[0].0, f1[0].1, row));
        assert(compares(row, "timestamp"@, ">="@, f1[0].1));
        assert(">="@ != "="@ && ">="@ != "<"@ && ">="@ != "<="@ && ">="@ != ">"@) by {
            assert(">="@[1] != "="@[0] || ">="@.len() != "="@.len());
            assert(">="@[0] != "<"@[0]);
            assert(">="@[0] != "<="@[0]);
            assert(">="@.len() != ">"@.len());
        }
    }
    if let Some(t) = p.end_ts {
        assert("timestamp"@ + " "@ + "<"@ + " ?"@ =~= "timestamp < ?"@);
        assert(f2[0].0 == "timestamp < ?"@);
        assert(f2[0].1 == ParamData::Timestamp(bound_time(t)));
        assert(cond_holds(f2[0].0, f2[0].1, row));
        assert(compares(row, "timestamp"@, "<"@, f2[0].1));
        assert("<"@ != "="@) by {
            assert("<"@[0] != "="@[0]);
        }
    }
    if p.is_streaming matches Some(b) {
        assert("is_streaming"@ + " "@ + "="@ + " ?"@ =~= "is_streaming"@ + " = ?"@);
        assert(cond_holds(f8[0].0, f8[0].1, row));
    }
}


/// Whether a text holds no space.
pub open spec fn no_space(x: Seq<char>) -> bool {
    forall|i: int| 0 <= i < x.len() ==> x[i] != ' '
}

/// A condition `col op ?` names its column and operator unambiguously when
/// neither holds a space.
proof fn lemma_cond_parse(col: Seq<char>, op: Seq<char>, c0: Seq<char>, op0: Seq<char>)
    requires
        no_space(col),
        no_space(c0),
        no_space(op),
        no_space(op0),
        col + " "@ + op + " ?"@ == c0 + " "@ + op0 + " ?"@,
    ensures
        col == c0,
        op == op0,
{
    reveal_strlit(" ");
    reveal_strlit(" ?");
    let s1 = col + " "@ + op + " ?"@;
    let s2 = c0 + " "@ + op0 + " ?"@;
    if col.len() < c0.len() {
        assert(s1[col.len() as int] == ' ');
        assert(s2[col.len() as int] == c0[col.len() as int]);
    } else if col.len() > c0.len() {
        assert(s2[c0.len() as int] == ' ');
        assert(s1[c0.len() as int] == col[c0.len() as int]);
    }
    assert(col =~= s1.subrange(0, col.len() as int));
    assert(c0 =~= s2.subrange(0, c0.len() as int));
    assert(op =~= s1.subrange(col.len() + 1int, col.len() + 1int + op.len()));
    assert(op0 =~= s2.subrange(c0.len() + 1int, c0.len() + 1int + op0.len()));
}

proof fn lemma_names_have_no_space()
    ensures
        forall|i: int| 0 <= i < filter_columns().len() ==> no_space(#[trigger] filter_columns()[i]),
        forall|i: int| 0 <= i < sql_ops().len() ==> no_space(#[trigger] sql_ops()[i]),
{
    reveal_strlit("timestamp");
    reveal_strlit("model_name");
    reveal_strlit("provider_name");
    reveal_strlit("status");
    reveal_strlit("api_key_name");
    reveal_strlit("endpoint");
    reveal_strlit("is_streaming");
    reveal_strlit("upstream_model");
    reveal_strlit("provider_type");
    reveal_strlit("client_ip");
    reveal_strlit("=");
    reveal_strlit("<");
    reveal_strlit("<=");
    reveal_strlit(">");
    reveal_strlit(">=");
}

/// A row that compares as intended with the condition's own column and
/// operator meets the condition.
proof fn lemma_cond_met(c0: Seq<char>, op0: Seq<char>, param: ParamData, row: LogRow)
    requires
        filter_columns().contains(c0),
        sql_ops().contains(op0),
        compares(row, c0, op0, param),
    ensures
        cond_holds(c0 + " "@ + op0 + " ?"@, param, row),
{
    lemma_names_have_no_space();
    assert forall|col: Seq<char>, op: Seq<char>|
        filter_columns().contains(col) && sql_ops().contains(op) && #[trigger] (col + " "@ + op + " ?"@) == c0
            + " "@ + op0 + " ?"@ implies compares(row, col, op, param) by {
        lemma_cond_parse(col, op, c0, op0);
    }
}

proof fn lemma_hold_join(a: Seq<(Seq<char>, ParamData)>, b: Seq<(Seq<char>, ParamData)>, row: LogRow)
    requires
        filters_hold(a, row),
        filters_hold(b, row),
    ensures
        filters_hold(a + b, row),
{
    assert forall|i: int| 0 <= i < (a + b).len() implies cond_holds(#[trigger] (a + b)[i].0, (a + b)[i].1, row) by {
        if i < a.len() {
            assert((a + b)[i] == a[i]);
        } else {
            assert((a + b)[i] == b[i - a.len()]);
        }
    }
}

/// Whether `row` lies at or after an optional start and strictly before an
/// optional end.
pub open spec fn in_time_window(row: LogRow, start: Option<i64>, end: Option<i64>) -> bool {
    &&& (match start {
        Some(s) => row.timestamp >= bound_time(s),
        None => true,
    })
    &&& (match end {
        Some(t) => row.timestamp < bound_time(t),
        None => true,
    })
}

pub open spec fn flag_equals(row: LogRow, v: Option<bool>) -> bool {
    match v {
        Some(b) => row.is_streaming == b,
        None => true,
    }
}

proof fn lemma_text_filter_met(column: Seq<char>, v: Option<String>, row: LogRow)
    requires
        filter_columns().contains(column),
        column_equals(row, column, v),
    ensures
        filters_hold(text_filter(column, v), row),
{
    if v is Some && v->0@.len() > 0 {
        reveal_strlit("=");
        reveal_strlit(" ");
        reveal_strlit(" ?");
        reveal_strlit(" = ?");
        assert(sql_ops()[0] == "="@);
        assert(column + " "@ + "="@ + " ?"@ =~= column + " = ?"@);
        lemma_cond_met(column, "="@, ParamData::Text(v->0@), row);
    }
}

/// Conversely, every row in the time window whose columns equal the set
/// text filters and whose flag equals the set streaming filter is listed:
/// the listing drops no matching row.
pub proof fn lemma_matching_rows_listed(p: ProxyLogQueryParams, row: LogRow)
    requires
        in_time_window(row, p.start_ts, p.end_ts),
        column_equals(row, "model_name"@, p.model_name),
        column_equals(row, "provider_name"@, p.provider_name),
        column_equals(row, "status"@, p.status),
        column_equals(row, "api_key_name"@, p.api_key_name),
        column_equals(row, "endpoint"@, p.endpoint),
        flag_equals(row, p.is_streaming),
        column_equals(row, "upstream_model"@, p.upstream_model),
        column_equals(row, "provider_type"@, p.provider_type),
        column_equals(row, "client_ip"@, p.client_ip),
    ensures
        filters_hold(log_filters(p), row),
{
    reveal_strlit("=");
    reveal_strlit("<");
    reveal_strlit("<=");
    reveal_strlit(">");
    reveal_strlit(">=");
    reveal_strlit(" ");
    reveal_strlit(" ?");
    reveal_strlit(" = ?");
    reveal_strlit("timestamp");
    reveal_strlit("timestamp >= ?");
    reveal_strlit("timestamp < ?");
    reveal_strlit("is_streaming");
    let cols = filter_columns();
    assert(cols[0] == "timestamp"@ && cols[1] == "model_name"@ && cols[2] == "provider_name"@
        && cols[3] == "status"@ && cols[4] == "api_key_name"@ && cols[5] == "endpoint"@
        && cols[6] == "is_streaming"@ && cols[7] == "upstream_model"@ && cols[8] == "provider_type"@
        && cols[9] == "client_ip"@);
    assert(cols.contains("timestamp"@) && cols.contains("model_name"@) && cols.contains("provider_name"@)
        && cols.contains("status"@) && cols.contains("api_key_name"@) && cols.contains("endpoint"@)
        && cols.contains("is_streaming"@) && cols.contains("upstream_model"@) && cols.contains("provider_type"@)
        && cols.contains("client_ip"@));
    let ops = sql_ops();
    assert(ops[0] == "="@ && ops[1] == "<"@ && ops[4] == ">="@);
    assert(ops.contains("="@) && ops.contains("<"@) && ops.contains(">="@));
    assert(">="@ != "="@ && ">="@ != "<"@ && ">="@ != "<="@ && ">="@ != ">"@) by {
        assert(">="@.len() != "="@.len());
        assert(">="@[0] != "<"@[0]);
        assert(">="@[0] != "<="@[0]);
        assert(">="@.len() != ">"@.len());
    }
    assert("<"@ != "="@) by {
        assert("<"@[0] != "="@[0]);
    }
    let f1 = time_filter("timestamp >= ?"@, p.start_ts);
    let f2 = time_filter("timestamp < ?"@, p.end_ts);
    let f3 = text_filter("model_name"@, p.model_name);
    let f4 = text_filter("provider_name"@, p.provider_name);
    let f5 = text_filter("status"@, p.status);
    let f6 = text_filter("api_key_name"@, p.api_key_name);
    let f7 = text_filter("endpoint"@, p.endpoint);
    let f8 = flag_filter("is_streaming"@, p.is_streaming);
    let f9 = text_filter("upstream_model"@, p.upstream_model);
    let f10 = text_filter("provider_type"@, p.provider_type);
    let f11 = text_filter("client_ip"@, p.client_ip);
    if let Some(s) = p.start_ts {
        assert("timestamp"@ + " "@ + ">="@ + " ?"@ =~= "timestamp >= ?"@);
        lemma_cond_met("timestamp"@, ">="@, ParamData::Timestamp(bound_time(s)), row);
        assert(f1 =~= seq![("timestamp >= ?"@, ParamData::Timestamp(bound_time(s)))]);
    }
    if let Some(t) = p.end_ts {
        assert("timestamp"@ + " "@ + "<"@ + " ?"@ =~= "timestamp < ?"@);
        lemma_cond_met("timestamp"@, "<"@, ParamData::Timestamp(bound_time(t)), row);
        assert(f2 =~= seq![("timestamp < ?"@, ParamData::Timestamp(bound_time(t)))]);
    }
    if let Some(b) = p.is_streaming {
        assert("is_streaming"@ + " "@ + "="@ + " ?"@ =~= "is_streaming"@ + " = ?"@);
        lemma_cond_met("is_streaming"@, "="@, ParamData::Flag(b), row);
    }
    lemma_text_filter_met("model_name"@, p.model_name, row);
    lemma_text_filter_met("provider_name"@, p.provider_name, row);
    lemma_text_filter_met("status"@, p.status, row);
    lemma_text_filter_met("api_key_name"@, p.api_key_name, row);
    lemma_text_filter_met("endpoint"@, p.endpoint, row);
    lemma_text_filter_met("upstream_model"@, p.upstream_model, row);
    lemma_text_filter_met("provider_type"@, p.provider_type, row);
    lemma_text_filter_met("client_ip"@, p.client_ip, row);
    lemma_hold_join(f1, f2, row);
    lemma_hold_join(f1 + f2, f3, row);
    lemma_hold_join(f1 + f2 + f3, f4, row);
    lemma_hold_join(f1 + f2 + f3 + f4, f5, row);
    lemma_hold_join(f1 + f2 + f3 + f4 + f5, f6, row);
    lemma_hold_join(f1 + f2 + f3 + f4 + f5 + f6, f7, row);
    lemma_hold_join(f1 + f2 + f3 + f4 + f5 + f6 + f7, f8, row);
    lemma_hold_join(f1 + f2 + f3 + f4 + f5 + f6 + f7 + f8, f9, row);
    lemma_hold_join(f1 + f2 + f3 + f4 + f5 + f6 + f7 + f8 + f9, f10, row);
    lemma_hold_join(f1 + f2 + f3 + f4 + f5 + f6 + f7 + f8 + f9 + f10, f11, row);
}

/// The conditions of a listing are all required at once: with none there is
/// no `WHERE` clause, one stands alone after ` WHERE `, and each further
/// one is joined to the others by ` AND `.
pub proof fn lemma_conditions_conjoined(conds: Seq<Seq<char>>, c: Seq<char>)
    ensures
        where_clause(Seq::empty()) == Seq::<char>::empty(),
        where_clause(seq![c]) == " WHERE "@ + c,
        conds.len() > 0 ==> where_clause(conds.push(c)) == where_clause(conds) + " AND "@ + c,
{
    assert(seq![c].len() == 1);
    if conds.len() > 0 {
        assert(conds.push(c).drop_last() == conds);
        assert(conds.push(c).last() == c);
        assert(" WHERE "@ + (join_and(conds) + " AND "@ + c) == " WHERE "@ + join_and(conds) + " AND "@ + c);
    }
}

} // verus!
