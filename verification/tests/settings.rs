use ait::cli::{log_filter, parse_config_path, parse_level, LogLevel};
use ait::config::{ConfigApp, LokiConfig};
use ait::json::json_to_vec;
use ait::streams::{build_push_payload, PushEntry};
use ait::loki::{
    event_to_labels, is_valid_label_name, loki_settings, sanitize_static_labels, LabelSource,
    LokiInitError,
};

fn get<'a>(labels: &'a [(String, String)], name: &str) -> Option<&'a String> {
    labels.iter().find(|(k, _)| k == name).map(|(_, v)| v)
}

fn static_labels() -> Vec<(String, String)> {
    vec![("app".to_string(), "ait".to_string())]
}

fn rejection(config: ConfigApp) -> String {
    config.validate().err().expect("the settings must be refused")
}

// ── configuration ──

#[test]
fn test_default_config() {
    let config = ConfigApp::defaults().validate().ok().unwrap();
    assert_eq!(config.server.host, "127.0.0.1");
    assert_eq!(config.server.port, 8000);
    assert_eq!(config.server.trusted_proxy_hops, 1);
    assert!(config.auth.enabled);
    assert_eq!(config.database.path, "./data/ait.db");
    assert_eq!(config.log.path, "./data/ait-logs.duckdb");
    assert_eq!(config.log.retention_days, 30);
    assert_eq!(config.log.flush_interval_secs, 10);
    assert_eq!(config.log.flush_batch, 100);
    assert_eq!(config.log.channel_cap, 10000);
    assert_eq!(config.log.retention_every, 100);
    assert_eq!(config.log.level, "info");
    assert_eq!(config.log.axum, "info");
    assert_eq!(config.log.tower_http_trace, "info");
    assert_eq!(config.log.analytics_timeout_secs, 10);
    assert_eq!(config.proxy.prompt_token_divisor, 3);
}

#[test]
fn config_toml_override() {
    let mut config = ConfigApp::defaults();
    config.server.port = 9090;
    config.server.health_detail = true;
    let config = config.validate().ok().unwrap();

    assert_eq!(config.server.port, 9090);
    assert!(config.server.health_detail);

    assert_eq!(config.server.host, "127.0.0.1");
    assert_eq!(config.database.path, "./data/ait.db");
    assert_eq!(config.proxy.timeout_secs, 300);
    assert!(config.proxy.stream);
    assert_eq!(config.proxy.max_response_body_bytes, 8 * 1024 * 1024);
}

#[test]
fn wildcard_cors_origin_with_credentials_is_rejected() {
    let mut config = ConfigApp::defaults();
    config.security.cors_allowed_origins = vec!["*".to_string()];
    config.security.cors_allow_credentials = true;
    let err = rejection(config);
    assert!(err.contains("cors_allow_credentials"), "unexpected error: {err}");
}

#[test]
fn wildcard_cors_origin_without_credentials_is_accepted() {
    let mut config = ConfigApp::defaults();
    config.security.cors_allowed_origins = vec!["*".to_string()];
    let config = config.validate().ok().unwrap();
    assert_eq!(config.security.cors_allowed_origins, vec!["*".to_string()]);
    assert!(!config.security.cors_allow_credentials);
}

#[test]
fn sse_max_duration_secs_has_default() {
    let config = ConfigApp::defaults();
    assert_eq!(config.proxy.sse_max_duration_secs, 1800);
}

#[test]
fn test_missing_file() {
    let config = ConfigApp::defaults().validate().ok().unwrap();
    assert_eq!(config.server.port, 8000);
    assert_eq!(config.server.host, "127.0.0.1");
    assert_eq!(config.log.retention_days, 30);
    assert_eq!(config.log.analytics_timeout_secs, 10);
    assert_eq!(config.proxy.max_response_body_bytes, 8 * 1024 * 1024);
    assert!(config.security.ssrf_allowed_cidrs.is_empty());
    assert!(config.security.cors_allowed_origins.is_empty());
    assert!(!config.security.cors_allow_credentials);
}

#[test]
fn cors_allow_credentials_override() {
    let mut config = ConfigApp::defaults();
    config.security.cors_allow_credentials = true;
    config.security.cors_allowed_origins = vec!["https://app.example.com".to_string()];
    let config = config.validate().ok().unwrap();
    assert!(config.security.cors_allow_credentials);
    assert_eq!(config.security.cors_allowed_origins, vec!["https://app.example.com"]);
}

#[test]
fn retention_every_zero_rejected() {
    let mut config = ConfigApp::defaults();
    config.log.retention_every = 0;
    assert!(rejection(config).contains("retention_every"));
}

#[test]
fn retention_days_beyond_bound_rejected() {
    let mut config = ConfigApp::defaults();
    config.log.retention_days = 99999999999999999;
    let err = rejection(config);
    assert!(err.contains("retention_days"), "unexpected error: {err}");
}

#[test]
fn analytics_timeout_zero_rejected() {
    let mut config = ConfigApp::defaults();
    config.log.analytics_timeout_secs = 0;
    let err = rejection(config);
    assert!(err.contains("analytics_timeout_secs"), "unexpected error: {err}");
}

#[test]
fn prompt_token_divisor_out_of_range_rejected() {
    for bad in [0, 6] {
        let mut config = ConfigApp::defaults();
        config.proxy.prompt_token_divisor = bad;
        let err = rejection(config);
        assert!(err.contains("prompt_token_divisor"), "unexpected error: {err}");
    }
}

#[test]
fn zero_durations_and_channel_cap_rejected() {
    let keys = [
        "cache_cleanup_interval_secs",
        "flush_interval_secs",
        "channel_cap",
        "timeout_secs",
        "sse_idle_timeout_secs",
        "connect_timeout_secs",
    ];
    for key in keys {
        let mut config = ConfigApp::defaults();
        match key {
            "cache_cleanup_interval_secs" => config.server.cache_cleanup_interval_secs = 0,
            "flush_interval_secs" => config.log.flush_interval_secs = 0,
            "channel_cap" => config.log.channel_cap = 0,
            "timeout_secs" => config.proxy.timeout_secs = 0,
            "sse_idle_timeout_secs" => config.proxy.sse_idle_timeout_secs = 0,
            _ => config.proxy.connect_timeout_secs = 0,
        }
        let err = rejection(config);
        assert!(err.contains(key), "unexpected error: {err}");
    }
}

#[test]
fn trusted_proxy_hops_override() {
    let mut config = ConfigApp::defaults();
    config.server.trusted_proxy_hops = 3;
    let config = config.validate().ok().unwrap();
    assert_eq!(config.server.trusted_proxy_hops, 3);
}

#[test]
fn pool_and_worker_defaults() {
    let config = ConfigApp::defaults();
    assert_eq!(config.database.reader_pool_size, 4);
    assert_eq!(config.log.analytics_workers, 2);
    assert_eq!(config.log.duckdb_memory_limit_mb, 512);
    assert_eq!(config.log.duckdb_threads, 2);
}

#[test]
fn pool_and_worker_overrides() {
    let mut config = ConfigApp::defaults();
    config.database.reader_pool_size = 8;
    config.log.analytics_workers = 4;
    config.log.duckdb_memory_limit_mb = 1024;
    config.log.duckdb_threads = 4;
    let config = config.validate().ok().unwrap();
    assert_eq!(config.database.reader_pool_size, 8);
    assert_eq!(config.log.analytics_workers, 4);
    assert_eq!(config.log.duckdb_memory_limit_mb, 1024);
    assert_eq!(config.log.duckdb_threads, 4);
}

#[test]
fn pool_and_worker_bounds_rejected() {
    for (key, value) in [
        ("reader_pool_size", 0u64),
        ("reader_pool_size", 33),
        ("analytics_workers", 0),
        ("analytics_workers", 9),
        ("duckdb_memory_limit_mb", 0),
        ("duckdb_threads", 0),
    ] {
        let mut config = ConfigApp::defaults();
        match key {
            "reader_pool_size" => config.database.reader_pool_size = value as usize,
            "analytics_workers" => config.log.analytics_workers = value as usize,
            "duckdb_memory_limit_mb" => config.log.duckdb_memory_limit_mb = value,
            _ => config.log.duckdb_threads = value,
        }
        assert!(config.validate().is_err(), "{key} = {value} must be rejected");
    }
}

#[test]
fn proxy_and_security_toml_override() {
    let mut config = ConfigApp::defaults();
    config.proxy.timeout_secs = 60;
    config.proxy.stream = false;
    config.proxy.max_response_body_bytes = 1048576;
    config.security.ssrf_allowed_cidrs = vec!["10.0.0.0/8".to_string()];
    config.security.cors_allowed_origins = vec!["https://app.example.com".to_string()];
    config.security.cors_allow_credentials = true;
    let config = config.validate().ok().unwrap();
    assert_eq!(config.proxy.timeout_secs, 60);
    assert!(!config.proxy.stream);
    assert_eq!(config.proxy.max_response_body_bytes, 1048576);
    assert_eq!(config.security.ssrf_allowed_cidrs, vec!["10.0.0.0/8"]);
    assert_eq!(config.security.cors_allowed_origins, vec!["https://app.example.com"]);
    assert!(config.security.cors_allow_credentials);
}

#[test]
fn dlp_defaults_disabled() {
    let config = ConfigApp::defaults();
    assert!(!config.security.dlp.enabled);
    assert!(config.security.dlp.sensitive_values.is_empty());
    assert!(!config.security.dlp.scan_numbers);
    assert_eq!(config.proxy.max_request_body_bytes, 8 * 1024 * 1024);
}

#[test]
fn dlp_toml_override() {
    let mut config = ConfigApp::defaults();
    config.proxy.max_request_body_bytes = 1048576;
    config.security.dlp.enabled = true;
    config.security.dlp.sensitive_values =
        vec!["110101199001011234".to_string(), "13800138000".to_string()];
    let config = config.validate().ok().unwrap();
    assert!(config.security.dlp.enabled);
    assert_eq!(
        config.security.dlp.sensitive_values,
        vec!["110101199001011234", "13800138000"]
    );
    assert_eq!(config.proxy.max_request_body_bytes, 1048576);
}

#[test]
fn dlp_scan_numbers_override() {
    let mut config = ConfigApp::defaults();
    config.security.dlp.enabled = true;
    config.security.dlp.scan_numbers = true;
    config.security.dlp.sensitive_values = vec!["13800138000".to_string()];
    let config = config.validate().ok().unwrap();
    assert!(config.security.dlp.enabled);
    assert!(config.security.dlp.scan_numbers);
}

#[test]
fn validate_names_the_first_broken_rule() {
    let mut config = ConfigApp::defaults();
    config.log.retention_every = 0;
    config.proxy.prompt_token_divisor = 0;
    assert_eq!(
        rejection(config),
        "log.retention_every must be >= 1 (0 crashes the log worker)"
    );
    let mut config = ConfigApp::defaults();
    config.proxy.timeout_secs = 0;
    assert_eq!(rejection(config), "proxy.timeout_secs must be >= 1");
    let mut config = ConfigApp::defaults();
    config.log.retention_days = 36500;
    assert!(config.validate().is_ok());
}

// ── Loki ──

#[test]
fn test_loki_config_default_disabled() {
    let config = LokiConfig::default();
    assert!(!config.enabled);
    assert!(config.url.is_empty());
    assert_eq!(config.batch_size, 100);
    assert_eq!(config.interval_secs, 5);
}

#[test]
fn test_is_valid_label_name() {
    assert!(is_valid_label_name("app"));
    assert!(is_valid_label_name("_private"));
    assert!(is_valid_label_name("env_2"));
    assert!(!is_valid_label_name(""));
    assert!(!is_valid_label_name("bad-name"));
    assert!(!is_valid_label_name("1start"));
    assert!(!is_valid_label_name("has space"));
    assert!(!is_valid_label_name("点"));
}

#[test]
fn test_event_to_labels_proxy() {
    let labels = static_labels();
    let event = LabelSource::Proxy {
        model_name: "gpt-4o".to_string(),
        status: "success".to_string(),
        is_streaming: false,
    };
    let result = event_to_labels(&event, &labels);
    assert_eq!(get(&result, "app"), Some(&"ait".to_string()));
    assert_eq!(get(&result, "event_type"), Some(&"proxy".to_string()));
    assert_eq!(get(&result, "model_name"), Some(&"gpt-4o".to_string()));
    assert_eq!(get(&result, "status"), Some(&"success".to_string()));
    assert!(get(&result, "is_streaming").is_some());
    assert!(get(&result, "provider_name").is_none());
    assert!(get(&result, "endpoint").is_none());
}

#[test]
fn test_event_to_labels_access_and_audit() {
    let labels = static_labels();
    let access = LabelSource::Access { method: "GET".to_string() };
    let result = event_to_labels(&access, &labels);
    assert_eq!(get(&result, "event_type"), Some(&"access".to_string()));
    assert_eq!(get(&result, "method"), Some(&"GET".to_string()));
    assert!(get(&result, "path").is_none(), "path is unbounded, line-only");

    let audit = LabelSource::Audit { action: "create".to_string(), resource: "provider".to_string() };
    let result = event_to_labels(&audit, &labels);
    assert_eq!(get(&result, "event_type"), Some(&"audit".to_string()));
    assert_eq!(get(&result, "action"), Some(&"create".to_string()));
    assert_eq!(get(&result, "resource"), Some(&"provider".to_string()));
}

#[test]
fn event_labels_override_a_static_label_of_the_same_name() {
    let labels = vec![
        ("app".to_string(), "ait".to_string()),
        ("event_type".to_string(), "custom".to_string()),
    ];
    let result = event_to_labels(&LabelSource::Access { method: "POST".to_string() }, &labels);
    assert_eq!(result.len(), 3);
    assert_eq!(get(&result, "event_type"), Some(&"access".to_string()));
    let streaming = event_to_labels(
        &LabelSource::Proxy { model_name: "m".to_string(), status: "error".to_string(), is_streaming: true },
        &labels,
    );
    assert_eq!(get(&streaming, "is_streaming"), Some(&"true".to_string()));
}

#[test]
fn test_sanitize_static_labels_drops_invalid_names() {
    let raw = vec![
        ("app".to_string(), "ait".to_string()),
        ("bad-name".to_string(), "x".to_string()),
        ("1start".to_string(), "y".to_string()),
        (String::new(), "z".to_string()),
    ];
    let result = sanitize_static_labels(&raw);
    assert_eq!(result.len(), 1);
    assert_eq!(get(&result, "app"), Some(&"ait".to_string()));
}

#[test]
fn test_loki_sink_invalid_url_fails_fast() {
    let mut config = LokiConfig::default();
    config.enabled = true;

    config.url = "not a url".to_string();
    assert!(matches!(loki_settings(&config), Err(LokiInitError::InvalidUrl(_))));

    config.url = "ftp://example.com".to_string();
    assert!(matches!(loki_settings(&config), Err(LokiInitError::InvalidUrl(_))));
}

#[test]
fn loki_settings_builds_the_push_url_and_checks_basic_auth() {
    let mut config = LokiConfig::default();
    config.enabled = true;
    config.url = "http://loki:3100//".to_string();
    config.batch_size = 0;
    let settings = loki_settings(&config).ok().unwrap();
    assert_eq!(settings.push_url, "http://loki:3100/loki/api/v1/push");
    assert_eq!(settings.batch_size, 1);
    assert_eq!(settings.interval_secs, 5);
    assert_eq!(settings.static_labels, static_labels());

    config.basic_auth_user = Some("u".to_string());
    assert!(matches!(loki_settings(&config), Err(LokiInitError::IncompleteBasicAuth)));
    config.basic_auth_password = Some("p".to_string());
    assert!(loki_settings(&config).is_ok());
}

// ── command line ──

#[test]
fn parse_level_accepts_the_five_names_in_any_case() {
    assert_eq!(parse_level("trace"), LogLevel::Trace);
    assert_eq!(parse_level("DEBUG"), LogLevel::Debug);
    assert_eq!(parse_level("Warn"), LogLevel::Warn);
    assert_eq!(parse_level("error"), LogLevel::Error);
    assert_eq!(parse_level("info"), LogLevel::Info);
    assert_eq!(parse_level("verbose"), LogLevel::Info);
}

#[test]
fn parse_config_path_reads_the_flag() {
    let args = |v: &[&str]| v.iter().map(|s| s.to_string()).collect::<Vec<String>>();
    assert_eq!(parse_config_path(&args(&["ait"])), Ok(None));
    assert_eq!(
        parse_config_path(&args(&["ait", "-c", "a.toml"])),
        Ok(Some("a.toml".to_string()))
    );
    assert_eq!(
        parse_config_path(&args(&["ait", "x", "--config", "b.toml", "-c", "c.toml"])),
        Ok(Some("b.toml".to_string()))
    );
    assert_eq!(parse_config_path(&args(&["ait", "--config"])), Err(()));
    assert_eq!(parse_config_path(&args(&["-c", "ait"])), Ok(None));
}

#[test]
fn log_filter_names_the_crate_and_axum() {
    assert_eq!(log_filter("debug", "warn"), "info,ait=debug,axum=warn");
}

// ── push payloads ──

fn proxy_entry(model: &str, ns: i64, line: &str) -> PushEntry {
    PushEntry {
        source: LabelSource::Proxy {
            model_name: model.to_string(),
            status: "success".to_string(),
            is_streaming: false,
        },
        ns,
        line: line.to_string(),
    }
}

#[test]
fn test_build_push_payload_grouping_and_sorting() {
    let labels = static_labels();
    let ts1: i64 = 1700000000 * 1_000_000_000;
    let ts2: i64 = 1700000001 * 1_000_000_000;
    let entries = vec![
        proxy_entry("gpt-4o", ts2, "first"),
        proxy_entry("gpt-4o", ts1, "second"),
        proxy_entry("llama-3", ts1, "third"),
    ];
    let payload: serde_json::Value =
        serde_json::from_slice(&json_to_vec(&build_push_payload(&entries, &labels))).unwrap();
    let streams = payload["streams"].as_array().unwrap();
    assert_eq!(streams.len(), 2, "two distinct label sets");

    let gpt_stream = streams.iter().find(|s| s["stream"]["model_name"] == "gpt-4o").unwrap();
    let values = gpt_stream["values"].as_array().unwrap();
    assert_eq!(values.len(), 2);
    let t0: i64 = values[0][0].as_str().unwrap().parse().unwrap();
    let t1: i64 = values[1][0].as_str().unwrap().parse().unwrap();
    assert!(t0 <= t1, "values sorted ascending within stream");
    assert_eq!(values[0][1], "second");
}

#[test]
fn push_payload_orders_streams_by_label_set() {
    let entries = vec![
        proxy_entry("m-b", 5, "b1"),
        proxy_entry("m-a", 7, "a1"),
        proxy_entry("m-b", 5, "b2"),
        proxy_entry("m-a", -3, "a0"),
    ];
    let payload = build_push_payload(&entries, &static_labels());
    let text = String::from_utf8(json_to_vec(&payload)).unwrap();
    assert_eq!(
        text,
        [
            r#"{"streams":["#,
            r#"{"stream":{"app":"ait","event_type":"proxy","is_streaming":"false","model_name":"m-a","status":"success"},"values":[["-3","a0"],["7","a1"]]},"#,
            r#"{"stream":{"app":"ait","event_type":"proxy","is_streaming":"false","model_name":"m-b","status":"success"},"values":[["5","b1"],["5","b2"]]}"#,
            r#"]}"#,
        ]
        .concat()
    );
    let empty = build_push_payload(&Vec::new(), &static_labels());
    assert_eq!(String::from_utf8(json_to_vec(&empty)).unwrap(), r#"{"streams":[]}"#);
}
