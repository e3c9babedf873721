use ait::analytics::{
    build_log_query, count_sql, data_sql, page_window, proxy_log_params, token_dist_from_sums,
    validate_ts_range, validate_ts_range_at, AnalyticsError, ProxyLogQuery, ProxyLogQueryParams, SqlParam,
};
use ait::config::DlpConfig;
use ait::dlp::DlpScanner;
use ait::json::{parse_json, JsonValue};
use ait::models::ProviderType;
use ait::proxy::{
    append_limited, check_endpoint, check_request, collect_x_headers, error_detail,
    format_uptime, is_streaming, list_models, log_error_message, model_unavailable, oversized_response_error,
    read_timeout_error, redirect_error, stream_limits, truncate_detail, upstream_failure, uptime_secs, ModelRow,
    ProviderRow,
};
use ait::ssrf::pin_key;

const NOW: i64 = 1_700_000_000;

fn json(text: &str) -> JsonValue {
    parse_json(text.as_bytes()).expect("test body is JSON")
}

fn scanner(values: &[&str]) -> DlpScanner {
    DlpScanner::new(&DlpConfig {
        enabled: true,
        sensitive_values: values.iter().map(|s| s.to_string()).collect(),
        scan_numbers: false,
    })
}

fn headers(pairs: &[(&str, &str)]) -> Vec<(String, String)> {
    pairs.iter().map(|(k, v)| (k.to_string(), v.to_string())).collect()
}

// ── analytics ranges ──

#[test]
fn defaults_to_last_30_days() {
    let range = validate_ts_range_at(None, None, 30, NOW).unwrap();
    assert_eq!(range.end, NOW);
    assert_eq!(range.start, NOW - 30 * 86400);
}

#[test]
fn start_after_end_normalizes_to_one_day() {
    let range = validate_ts_range_at(Some(NOW), Some(NOW - 86400), 30, NOW).unwrap();
    assert_eq!(range.end, NOW - 86400);
    assert_eq!(range.start, range.end - 86400);
}

#[test]
fn range_exceeding_retention_is_clamped() {
    let range = validate_ts_range_at(Some(NOW - 90 * 86400), Some(NOW), 30, NOW).unwrap();
    assert_eq!(range.end, NOW);
    assert_eq!(range.start, NOW - (30 + 1) * 86400);
}

#[test]
fn future_end_is_clamped_to_now() {
    let range = validate_ts_range_at(Some(NOW - 3600), Some(NOW + 7200), 30, NOW).unwrap();
    assert_eq!(range.end, NOW + 3600);
    assert_eq!(range.start, NOW - 3600);
}

#[test]
fn future_end_is_clamped_even_when_start_after_end() {
    let range = validate_ts_range_at(Some(NOW + 10_000), Some(NOW + 20_000), 30, NOW).unwrap();
    assert_eq!(range.end, NOW + 3600);
    assert_eq!(range.start, NOW + 3600 - 86400);
}

#[test]
fn valid_range_passes_through() {
    let range = validate_ts_range_at(Some(NOW - 7200), Some(NOW - 3600), 30, NOW).unwrap();
    assert_eq!(range.start, NOW - 7200);
    assert_eq!(range.end, NOW - 3600);
}

#[test]
fn invalid_timestamps_rejected() {
    let err = validate_ts_range_at(Some(i64::MAX), None, 30, NOW).unwrap_err();
    assert_eq!(err.0, 400);
    assert_eq!(err.1.message, "invalid start_ts");
    let err = validate_ts_range_at(None, Some(i64::MIN), 30, NOW).unwrap_err();
    assert_eq!(err.0, 400);
    assert_eq!(err.1.message, "invalid end_ts");
}

#[test]
fn validate_ts_range_uses_the_clock() {
    let range = validate_ts_range(Some(1_000), Some(2_000), 30).unwrap();
    assert_eq!((range.start, range.end), (1_000, 2_000));
    assert!(validate_ts_range(Some(i64::MAX), None, 30).is_err());
}

// ── log listings ──

fn query() -> ProxyLogQuery {
    ProxyLogQuery {
        page: None,
        per_page: None,
        start_ts: None,
        end_ts: None,
        model_name: None,
        provider_name: None,
        status: None,
        api_key_name: None,
        endpoint: None,
        is_streaming: None,
        upstream_model: None,
        provider_type: None,
        client_ip: None,
    }
}

fn params() -> ProxyLogQueryParams {
    proxy_log_params(query()).unwrap()
}

#[test]
fn log_params_default_and_clamp_paging() {
    let p = params();
    assert_eq!((p.page, p.per_page), (1, 20));
    let p = proxy_log_params(ProxyLogQuery { page: Some(0), per_page: Some(1000), ..query() }).unwrap();
    assert_eq!((p.page, p.per_page), (1, 100));
    let p = proxy_log_params(ProxyLogQuery { page: Some(u64::MAX), per_page: Some(0), ..query() }).unwrap();
    assert_eq!((p.page, p.per_page), (1_000_000, 1));
    let e = proxy_log_params(ProxyLogQuery { end_ts: Some(i64::MIN), ..query() }).unwrap_err();
    assert_eq!((e.0, e.1.message.as_str()), (400, "invalid end_ts"));
}

#[test]
fn log_query_without_filters_has_no_where() {
    let q = build_log_query(&params());
    assert_eq!(q.where_clause, "");
    assert!(q.params.is_empty());
    assert_eq!(count_sql(&q.where_clause), "SELECT COUNT(*) FROM proxy_log");
}

#[test]
fn log_query_binds_each_given_filter_in_order() {
    let mut p = params();
    p.start_ts = Some(100);
    p.model_name = Some("gpt-4o".to_string());
    p.status = Some(String::new());
    p.is_streaming = Some(true);
    p.client_ip = Some("10.0.0.1".to_string());
    let q = build_log_query(&p);
    assert_eq!(
        q.where_clause,
        " WHERE timestamp >= ? AND model_name = ? AND is_streaming = ? AND client_ip = ?"
    );
    assert_eq!(q.params.len(), 4);
    assert!(matches!(q.params[0], SqlParam::Timestamp(100)));
    assert!(matches!(&q.params[1], SqlParam::Text(s) if s == "gpt-4o"));
    assert!(matches!(q.params[2], SqlParam::Flag(true)));
    assert!(matches!(&q.params[3], SqlParam::Text(s) if s == "10.0.0.1"));
    assert!(data_sql(&q.where_clause).ends_with(
        " FROM proxy_log WHERE timestamp >= ? AND model_name = ? AND is_streaming = ? AND client_ip = ? ORDER BY timestamp DESC LIMIT ? OFFSET ?"
    ));
}

#[test]
fn page_window_skips_pages_past_the_end() {
    assert_eq!(page_window(1, 20, 45), Some((20, 0)));
    assert_eq!(page_window(3, 20, 45), Some((20, 40)));
    assert_eq!(page_window(4, 20, 45), None);
    assert_eq!(page_window(1, 20, 0), None);
}

#[test]
fn token_dist_splits_cached_input() {
    let d = token_dist_from_sums(100, 40, 30);
    let counts: Vec<(&str, u64)> = d.iter().map(|e| (e.category.as_str(), e.count)).collect();
    assert_eq!(counts, vec![("uncached_input", 70), ("cached_input", 30), ("output", 40)]);
    let d = token_dist_from_sums(10, -5, 50);
    assert_eq!((d[0].count, d[1].count, d[2].count), (0, 10, 0));
}

// ── upstream responses ──

#[test]
fn collect_x_headers_filters_x_and_retry_after() {
    let h = headers(&[
        ("x-request-id", "abc123"),
        ("x-ratelimit-remaining", "100"),
        ("retry-after", "60"),
        ("content-type", "application/json"),
        ("authorization", "Bearer sk-x"),
    ]);
    let collected = collect_x_headers(&h);
    assert_eq!(collected.len(), 3);
    let names: Vec<String> = collected.iter().map(|(n, _)| n.clone()).collect();
    assert!(names.contains(&"x-request-id".to_string()));
    assert!(names.contains(&"x-ratelimit-remaining".to_string()));
    assert!(names.contains(&"retry-after".to_string()));
}

#[test]
fn collect_x_headers_empty_when_no_matches() {
    let h = headers(&[("content-type", "application/json"), ("content-length", "42")]);
    assert!(collect_x_headers(&h).is_empty());
}

#[test]
fn collect_x_headers_ignores_ascii_case() {
    let h = headers(&[("X-Trace", "1"), ("Retry-After", "5"), ("xray", "no")]);
    assert_eq!(collect_x_headers(&h), headers(&[("X-Trace", "1"), ("Retry-After", "5")]));
}

#[test]
fn redirect_error_returns_502() {
    let e = redirect_error();
    assert_eq!(e.status_code(), 502);
    assert_eq!(e.code, 502);
    assert!(e.message.contains("redirect"));
}

#[test]
fn upstream_failures_keep_the_body_for_the_log() {
    let e = upstream_failure(503, "overloaded");
    assert_eq!((e.code, e.message.as_str()), (503, "upstream request failed"));
    assert_eq!(log_error_message(&e), "overloaded");
    assert_eq!(error_detail(b"bad \xff byte"), "bad \u{FFFD} byte");
    let long = "é".repeat(300);
    let cut = truncate_detail(&long);
    assert!(cut.ends_with("..."));
    assert_eq!(cut.len(), 512 + 3);
    assert_eq!(truncate_detail("short"), "short");
}

#[test]
fn append_limited_refuses_past_the_cap() {
    let mut body = b"abc".to_vec();
    assert!(append_limited(&mut body, b"de", 5));
    assert_eq!(body, b"abcde");
    assert!(!append_limited(&mut body, b"f", 5));
    assert_eq!(body, b"abcde");
}

#[test]
fn stream_limits_treat_zero_as_unlimited() {
    assert_eq!(stream_limits(0, 0), (None, usize::MAX));
    assert_eq!(stream_limits(1800, 1024), (Some(1800), 1024));
}

#[test]
fn pinned_client_caches_per_host_and_port() {
    assert_eq!(pin_key("upstream.test", 80), pin_key("upstream.test", 80));
    assert_ne!(pin_key("upstream.test", 80), pin_key("upstream.test", 8080));
    assert_eq!(pin_key("upstream.test", 8080), "upstream.test:8080");
}

// ── request checks ──

#[test]
fn oversized_body_is_refused_first() {
    let body = json(r#"{"model":"m","messages":[]}"#);
    let (e, block) = check_request(&body, 2048, 1024, &scanner(&["secret"])).unwrap_err();
    assert_eq!(e.message, "request body exceeds max allowed size");
    assert!(block.is_none());
    assert_eq!(check_request(&body, 2048, 0, &scanner(&[])).unwrap(), "m");
}

#[test]
fn dlp_block_records_masked_value_and_model() {
    let body = json(r#"{"model":"gpt-4o","messages":[{"content":"call 13800138000 now"}]}"#);
    let (e, block) = check_request(&body, 10, 1024, &scanner(&["13800138000"])).unwrap_err();
    assert_eq!(e.code, 400);
    assert_eq!(e.message, "request blocked by sensitive data rule");
    let block = block.unwrap();
    assert_eq!(block.model_name, "gpt-4o");
    assert_eq!(block.reason, "blocked by DLP: sensitive value '138******00' matched");

    let nameless = json(r#"{"prompt":"13800138000"}"#);
    let (_, block) = check_request(&nameless, 10, 1024, &scanner(&["13800138000"])).unwrap_err();
    assert_eq!(block.unwrap().model_name, "blocked");
}

#[test]
fn missing_model_is_refused() {
    let body = json(r#"{"model":42}"#);
    let (e, block) = check_request(&body, 10, 1024, &scanner(&[])).unwrap_err();
    assert_eq!(e.message, "Missing 'model' field in request body");
    assert!(block.is_none());
}

#[test]
fn endpoint_support_follows_the_provider_type() {
    assert!(check_endpoint(ProviderType::DeepSeek, "/chat/completions").is_ok());
    let e = check_endpoint(ProviderType::DeepSeek, "/embeddings").unwrap_err();
    assert_eq!(e.message, "provider type 'deepseek' does not support endpoint '/embeddings'");
}

#[test]
fn streaming_needs_the_request_and_the_gateway() {
    let body = json(r#"{"model":"m","stream":true}"#);
    assert!(is_streaming(&body, true));
    assert!(!is_streaming(&body, false));
    assert!(!is_streaming(&json(r#"{"stream":"yes"}"#), true));
}

// ── model listing and uptime ──

#[test]
fn list_models_shows_enabled_models_with_owner() {
    let models = vec![
        ModelRow { name: "a".to_string(), provider_id: "p1".to_string(), enabled: true, created_at: 5 },
        ModelRow { name: "b".to_string(), provider_id: "p2".to_string(), enabled: false, created_at: 6 },
        ModelRow { name: "c".to_string(), provider_id: "p9".to_string(), enabled: true, created_at: 7 },
    ];
    let providers = vec![
        ProviderRow { id: "p1".to_string(), name: "openai".to_string() },
        ProviderRow { id: "p2".to_string(), name: "local".to_string() },
    ];
    let listed = list_models(&models, &providers);
    let view: Vec<(&str, i64, &str)> =
        listed.iter().map(|m| (m.id.as_str(), m.created, m.owned_by.as_str())).collect();
    assert_eq!(view, vec![("a", 5, "openai"), ("c", 7, "unknown")]);
}

#[test]
fn uptime_is_rendered_in_hours_minutes_seconds() {
    assert_eq!(format_uptime(0), "0h0m0s");
    assert_eq!(format_uptime(3725), "1h2m5s");
    assert_eq!(format_uptime(90000), "25h0m0s");
    assert_eq!(uptime_secs(100, 50), 0);
    assert_eq!(uptime_secs(100, 160), 60);
}

#[test]
fn analytics_failures_are_answered_with_503() {
    let (status, e) = AnalyticsError::Timeout.into_response();
    assert_eq!((status, e.code), (503, 503));
    assert_eq!(e.message, "analytics query timed out");
    assert_eq!(e.error_type, "service_unavailable");
    assert_eq!(AnalyticsError::Unavailable.into_response().1.message, "analytics service unavailable");
    assert_eq!(AnalyticsError::Failed.message(), "analytics query failed");
}

#[test]
fn unknown_models_and_read_failures_have_fixed_answers() {
    let (status, e) = model_unavailable("gpt-x");
    assert_eq!((status, e.message.as_str()), (404, "Model 'gpt-x' not found or disabled"));
    assert_eq!(read_timeout_error().code, 408);
    assert_eq!(oversized_response_error().message, "upstream response too large");
}
