use ait::admin::{
    new_provider_api_key, validate_base_url, validate_create_api_key, validate_create_model,
    validate_create_provider, validate_update_api_key, validate_update_model,
    validate_update_provider, CreateApiKeyRequest, CreateModelRequest, CreateProviderRequest,
    UpdateApiKeyRequest, UpdateModelRequest, UpdateProviderRequest,
};
use ait::error::{AitError, DbError};
use ait::keys::{generate_api_key, hash_key, judge_lookup, key_display, new_api_key};
use ait::utils::mask_api_key;
use ait::models::{
    check_model_access, ApiKeyInfo, ApiKeyUpdate, ModelUpdate, Permission, ProviderType,
    ProviderUpdate, UserRole,
};
use ait::records::{
    apply_key_update, apply_model_update, apply_provider_update, key_not_found, key_response, listed_key,
    masked_provider_key, model_not_found, provider_not_found, ApiKey, Model, Provider,
};

const PROVIDER_ID: &str = "0b3e6a0c-1d2f-4e5a-9b8c-7d6e5f4a3b2c";

fn refused_with<T: std::fmt::Debug>(r: Result<T, AitError>) -> String {
    let e = r.unwrap_err();
    assert_eq!(e.code, 400);
    assert_eq!(e.error_type, "invalid_request_error");
    e.message
}

fn provider_with_key(key: &str) -> Provider {
    Provider {
        id: "p1".to_string(),
        name: "openai".to_string(),
        provider_type: ProviderType::OpenAICompat,
        base_url: "https://api.example.com".to_string(),
        api_key: Some(key.to_string()),
        enabled: true,
        created_at: 1_700_000_000,
        updated_at: 1_700_000_000,
    }
}

fn make_model(name: &str, provider_id: &str) -> Model {
    Model {
        id: "id-1".to_string(),
        name: name.to_string(),
        provider_id: provider_id.to_string(),
        upstream_model: "gpt-4o-2024".to_string(),
        enabled: true,
        created_at: 10,
        updated_at: 10,
    }
}

fn make_key(name: &str) -> ApiKey {
    ApiKey {
        id: "k-1".to_string(),
        key: hash_key("sk-raw"),
        display: key_display("sk-abcdefghijklmnop"),
        name: name.to_string(),
        created_at: 10,
        updated_at: 10,
        enabled: true,
        expires_at: None,
    }
}

// ── stored records and partial updates ──

#[test]
fn provider_update() {
    let prov = provider_with_key("sk-abc");
    let update = ProviderUpdate {
        id: prov.id.clone(),
        name: Some("p1_renamed".to_string()),
        provider_type: None,
        base_url: None,
        api_key: None,
        enabled: Some(false),
    };
    let got = apply_provider_update(prov, &update, 1_700_000_100);
    assert_eq!(got.name, "p1_renamed");
    assert!(!got.enabled);
    assert_eq!(got.updated_at, 1_700_000_100);
    assert_eq!(got.created_at, 1_700_000_000);
}

#[test]
fn provider_partial_update_keeps_other_fields() {
    let prov = provider_with_key("sk-abc");
    let update = ProviderUpdate {
        id: prov.id.clone(),
        name: None,
        provider_type: None,
        base_url: None,
        api_key: None,
        enabled: Some(false),
    };
    let got = apply_provider_update(provider_with_key("sk-abc"), &update, 5);
    assert!(!got.enabled);
    assert_eq!(got.name, prov.name);
    assert_eq!(got.provider_type, prov.provider_type);
    assert_eq!(got.base_url, prov.base_url);
    assert_eq!(got.api_key, prov.api_key);
}

#[test]
fn provider_update_with_blank_key_clears_it() {
    let update = ProviderUpdate {
        id: "p1".to_string(),
        name: None,
        provider_type: Some(ProviderType::Ollama),
        base_url: None,
        api_key: Some(String::new()),
        enabled: None,
    };
    let got = apply_provider_update(provider_with_key("sk-abc"), &update, 5);
    assert_eq!(got.api_key, None);
    assert_eq!(got.provider_type, ProviderType::Ollama);
    assert!(got.enabled);
}

#[test]
fn model_update() {
    let model = make_model("m1", "p1");
    let update = ModelUpdate {
        name: model.name.clone(),
        provider_id: Some("p2".to_string()),
        upstream_model: None,
        enabled: Some(false),
    };
    let got = apply_model_update(model, &update, 20);
    assert_eq!(got.provider_id, "p2");
    assert!(!got.enabled);
    assert_eq!(got.name, "m1");
}

#[test]
fn model_partial_update_keeps_other_fields() {
    let update = ModelUpdate {
        name: "m1".to_string(),
        provider_id: None,
        upstream_model: None,
        enabled: Some(false),
    };
    let got = apply_model_update(make_model("m1", "p1"), &update, 20);
    assert!(!got.enabled);
    assert_eq!(got.provider_id, "p1");
    assert_eq!(got.upstream_model, "gpt-4o-2024");
}

#[test]
fn api_key_update() {
    let update = ApiKeyUpdate {
        id: "k-1".to_string(),
        name: None,
        enabled: Some(false),
        expires_at: None,
    };
    let got = apply_key_update(make_key("test-key"), &update, 30);
    assert!(!got.enabled);
}

#[test]
fn api_key_partial_update_keeps_other_fields() {
    let update = ApiKeyUpdate {
        id: "k-1".to_string(),
        name: None,
        enabled: Some(false),
        expires_at: None,
    };
    let before = make_key("test-key");
    let got = apply_key_update(make_key("test-key"), &update, 30);
    assert!(!got.enabled);
    assert_eq!(got.name, "test-key");
    assert_eq!(got.key, before.key);
    assert_eq!(got.display, before.display);
}

#[test]
fn api_key_expiry_zero_clears_and_other_values_set() {
    let mut key = make_key("k");
    key.expires_at = Some(99);
    let clear = ApiKeyUpdate { id: "k-1".to_string(), name: None, enabled: None, expires_at: Some(0) };
    let got = apply_key_update(key, &clear, 1);
    assert_eq!(got.expires_at, None);
    let set = ApiKeyUpdate { id: "k-1".to_string(), name: Some("n".to_string()), enabled: None, expires_at: Some(500) };
    let got = apply_key_update(got, &set, 2);
    assert_eq!(got.expires_at, Some(500));
    assert_eq!(got.name, "n");
}

#[test]
fn not_found_errors_name_the_record() {
    match provider_not_found("p9") {
        DbError::NotFound(m) => assert_eq!(m, "Provider 'p9' not found"),
        other => panic!("unexpected {other:?}"),
    }
    match model_not_found("m9") {
        DbError::NotFound(m) => assert_eq!(m, "Model 'm9' not found"),
        other => panic!("unexpected {other:?}"),
    }
    match key_not_found() {
        DbError::NotFound(m) => assert_eq!(m, "API key not found"),
        other => panic!("unexpected {other:?}"),
    }
}

#[test]
fn provider_debug_redacts_api_key() {
    let provider = provider_with_key("sk-super-secret-value");
    let rendered = provider.debug_text();
    assert!(!rendered.contains("super-secret"), "api_key leaked into Debug output: {rendered}");
    assert!(rendered.contains("***"), "missing mask: {rendered}");
}

#[test]
fn provider_debug_keeps_other_fields() {
    let rendered = provider_with_key("sk-abc").debug_text();
    assert!(rendered.contains("openai"));
    assert!(rendered.contains("https://api.example.com"));
    assert!(rendered.contains("OpenAICompat"));
}

#[test]
fn provider_debug_without_key_shows_none() {
    let mut provider = provider_with_key("sk-abc");
    provider.api_key = None;
    assert!(provider.debug_text().contains("api_key: None"));
}

#[test]
fn provider_debug_text_layout() {
    let mut provider = provider_with_key("sk-abc");
    provider.name = "a \"quoted\" name".to_string();
    provider.created_at = -5;
    assert_eq!(
        provider.debug_text(),
        "Provider { id: \"p1\", name: \"a \\\"quoted\\\" name\", provider_type: OpenAICompat, \
         base_url: \"https://api.example.com\", api_key: Some(\"***\"), enabled: true, \
         created_at: -5, updated_at: 1700000000 }"
    );
}

#[test]
fn masked_provider_key_shows_the_ends() {
    assert_eq!(
        masked_provider_key(&Some("sk-1234567890abcdef".to_string())),
        Some("sk-123******def".to_string())
    );
    assert_eq!(masked_provider_key(&None), None);
}

// ── API keys ──

#[test]
fn hash_key_is_hex_sha256() {
    assert_eq!(
        hash_key("abc"),
        "ba7816bf8f01cfea414140de5dae2223b00361a396177a9cb410ff61f20015ad"
    );
    assert_eq!(hash_key("abc").len(), 64);
    assert_ne!(hash_key("abc"), hash_key("abd"));
}

#[test]
fn api_key_create_returns_raw_key() {
    let (stored, raw) = new_api_key("k-1".to_string(), "test-key", None, 1_700_000_000);
    assert!(raw.starts_with("sk-"));
    assert_eq!(raw.len(), 35);
    assert!(raw[3..].chars().all(|c| c.is_ascii_alphanumeric()));
    assert_eq!(stored.name, "test-key");
    assert_eq!(stored.id, "k-1");
    assert_eq!(stored.key, hash_key(&raw));
    assert_ne!(stored.key, raw);
    assert_eq!(stored.display, mask_api_key(&raw));
    assert!(stored.enabled);
    assert_eq!(stored.expires_at, None);
    assert_eq!((stored.created_at, stored.updated_at), (1_700_000_000, 1_700_000_000));
    assert_ne!(generate_api_key(), raw);
}

#[test]
fn api_key_lookup_invalid_key() {
    let (outcome, remember) = judge_lookup(None, 100, 0, 10);
    let e = outcome.unwrap_err();
    assert_eq!(e.0, 401);
    assert_eq!(e.1.message, "Unauthorized: invalid or missing API key");
    assert!(remember);
    let (_, remember) = judge_lookup(None, 100, 10, 10);
    assert!(!remember, "a full invalid-key cache stops remembering");
}

#[test]
fn api_key_lookup_by_raw_key() {
    let info = ApiKeyInfo {
        id: "k-1".to_string(),
        name: "test-key".to_string(),
        enabled: true,
        expires_at: Some(200),
        created_at: 1,
    };
    let (ok, remember) = judge_lookup(Some(&info), 100, 0, 10);
    assert_eq!(ok.unwrap().name, Some("test-key".to_string()));
    assert!(!remember);
    let (expired, _) = judge_lookup(Some(&info), 200, 0, 10);
    assert_eq!(expired.unwrap_err().0, 401);
}

// ── model access ──

#[test]
fn model_access_follows_role_and_permissions() {
    let perms = vec![
        Permission { provider_id: "p1".to_string(), model_names: vec![] },
        Permission { provider_id: "p2".to_string(), model_names: vec!["m2".to_string()] },
    ];
    assert!(check_model_access("p9", "x", UserRole::Admin, &vec![]).is_ok());
    assert!(check_model_access("p1", "any", UserRole::User, &perms).is_ok());
    assert!(check_model_access("p2", "m2", UserRole::User, &perms).is_ok());
    let e = check_model_access("p2", "m3", UserRole::User, &perms).unwrap_err();
    assert_eq!(e.0, 403);
    assert_eq!(e.1.error_type, "forbidden");
    assert_eq!(e.1.message, "You don't have access to model 'm3'");
}

// ── request validation ──

#[test]
fn create_model_trims_and_checks_fields() {
    let req = CreateModelRequest {
        name: "  gpt-4o:latest ".to_string(),
        provider_id: PROVIDER_ID.to_string(),
        upstream_model: "org/gpt-4o(2024)@v1".to_string(),
        enabled: true,
    };
    let m = validate_create_model(&req).unwrap();
    assert_eq!(m.name, "gpt-4o:latest");
    assert_eq!(m.provider_id, PROVIDER_ID);
    assert_eq!(m.upstream_model, "org/gpt-4o(2024)@v1");
    assert!(m.enabled);
}

#[test]
fn create_model_reports_the_first_bad_field() {
    let base = || CreateModelRequest {
        name: "m".to_string(),
        provider_id: PROVIDER_ID.to_string(),
        upstream_model: "u".to_string(),
        enabled: true,
    };
    let mut req = base();
    req.name = "   ".to_string();
    req.provider_id = "zzz".to_string();
    assert_eq!(refused_with(validate_create_model(&req)), "name must not be empty");
    let mut req = base();
    req.name = "a/b".to_string();
    assert_eq!(refused_with(validate_create_model(&req)), "name contains invalid characters");
    let mut req = base();
    req.name = "x".repeat(129);
    assert_eq!(refused_with(validate_create_model(&req)), "name must not exceed 128 characters");
    let mut req = base();
    req.provider_id = "not-hex-zz".to_string();
    assert_eq!(refused_with(validate_create_model(&req)), "provider_id contains invalid characters");
    let mut req = base();
    req.upstream_model = "a b!".to_string();
    assert_eq!(refused_with(validate_create_model(&req)), "upstream_model contains invalid characters");
}

#[test]
fn update_model_checks_given_fields_only() {
    let req = UpdateModelRequest { provider_id: None, upstream_model: Some(" gpt ".to_string()), enabled: Some(false) };
    let up = validate_update_model("m1", &req).unwrap();
    assert_eq!(up.name, "m1");
    assert_eq!(up.provider_id, None);
    assert_eq!(up.upstream_model, Some("gpt".to_string()));
    assert_eq!(up.enabled, Some(false));
    let bad = UpdateModelRequest { provider_id: Some("g!".to_string()), upstream_model: None, enabled: None };
    assert_eq!(refused_with(validate_update_model("m1", &bad)), "provider_id contains invalid characters");
}

#[test]
fn base_url_checks() {
    let ok = validate_base_url("https://api.example.com/v1").unwrap();
    assert_eq!(ok.scheme, "https");
    assert!(ok.host.is_some());
    assert_eq!(ok.href, "https://api.example.com/v1");
    assert_eq!(validate_base_url("http://localhost:8080").unwrap().href, "http://localhost:8080/");
    assert_eq!(refused_with(validate_base_url("http://a b")), "base_url contains invalid characters");
    assert_eq!(refused_with(validate_base_url("api.example.com")), "base_url is not a valid URL");
    assert_eq!(
        refused_with(validate_base_url("ftp://files.example.com")),
        "base_url must use http:// or https:// scheme"
    );
    assert_eq!(refused_with(validate_base_url("http://2130706433")), "base_url host cannot be purely numeric");
    assert_eq!(refused_with(validate_base_url("http://2130706433:80/x")), "base_url host cannot be purely numeric");
    assert!(validate_base_url("http://127.0.0.1:8080").is_ok());
    assert!(validate_base_url("http://例え.jp/v1").is_ok(), "alphanumeric is Unicode-aware");
    assert_eq!(refused_with(validate_base_url("http://a\u{00A0}b")), "base_url contains invalid characters");
}

#[test]
fn create_provider_checks_name_then_url() {
    let req = CreateProviderRequest {
        name: " openai ".to_string(),
        provider_type: ProviderType::OpenAICompat,
        base_url: " https://api.openai.com/v1 ".to_string(),
        api_key: Some("  sk-x  ".to_string()),
        enabled: true,
    };
    let (name, url) = validate_create_provider(&req).unwrap();
    assert_eq!(name, "openai");
    assert_eq!(url.href, "https://api.openai.com/v1");
    assert_eq!(new_provider_api_key(&req.api_key).unwrap(), Some("sk-x".to_string()));
    assert_eq!(new_provider_api_key(&Some("   ".to_string())).unwrap(), None);
    assert_eq!(
        refused_with(new_provider_api_key(&Some("k".repeat(513)))),
        "api_key must not exceed 512 characters"
    );

    let bad = CreateProviderRequest { name: "bad$name".to_string(), base_url: "nope".to_string(), ..req };
    assert_eq!(refused_with(validate_create_provider(&bad)), "name contains invalid characters");
}

#[test]
fn update_provider_blank_key_clears() {
    let req = UpdateProviderRequest {
        name: None,
        provider_type: Some(ProviderType::DeepSeek),
        base_url: Some("http://10.0.0.5:11434".to_string()),
        api_key: Some("   ".to_string()),
        enabled: None,
    };
    let (up, url) = validate_update_provider("p1", &req).unwrap();
    assert_eq!(up.id, "p1");
    assert_eq!(up.api_key, Some(String::new()));
    assert_eq!(up.base_url, Some("http://10.0.0.5:11434/".to_string()));
    assert_eq!(url.unwrap().href, "http://10.0.0.5:11434/");
    assert_eq!(up.provider_type, Some(ProviderType::DeepSeek));
    let none = UpdateProviderRequest { name: None, provider_type: None, base_url: None, api_key: None, enabled: Some(true) };
    let (up, url) = validate_update_provider("p1", &none).unwrap();
    assert!(url.is_none());
    assert_eq!(up.api_key, None);
    assert_eq!(up.enabled, Some(true));
}

#[test]
fn api_key_create_empty_name_errors() {
    let req = CreateApiKeyRequest { name: "  ".to_string(), expires_at: None };
    assert_eq!(refused_with(validate_create_api_key(&req)), "name must not be empty");
    let req = CreateApiKeyRequest { name: "another-key".to_string(), expires_at: Some(0) };
    assert_eq!(validate_create_api_key(&req).unwrap(), ("another-key".to_string(), None));
    let req = CreateApiKeyRequest { name: "k".to_string(), expires_at: Some(i64::MAX) };
    assert_eq!(refused_with(validate_create_api_key(&req)), "Invalid expires_at");
    let req = CreateApiKeyRequest { name: "k".to_string(), expires_at: Some(1_900_000_000) };
    assert_eq!(validate_create_api_key(&req).unwrap().1, Some(1_900_000_000));
}

#[test]
fn api_key_update_request_checks() {
    let req = UpdateApiKeyRequest { name: Some("   ".to_string()), expires_at: Some(0), enabled: Some(false) };
    let up = validate_update_api_key("k-1", &req).unwrap();
    assert_eq!(up.id, "k-1");
    assert_eq!(up.name, None);
    assert_eq!(up.expires_at, Some(0));
    assert_eq!(up.enabled, Some(false));
    let req = UpdateApiKeyRequest { name: Some(" ok name ".to_string()), expires_at: None, enabled: None };
    assert_eq!(validate_update_api_key("k-1", &req).unwrap().name, Some("ok name".to_string()));
    let req = UpdateApiKeyRequest { name: None, expires_at: Some(i64::MIN), enabled: None };
    assert_eq!(refused_with(validate_update_api_key("k-1", &req)), "Invalid expires_at");
}

#[test]
fn key_responses_show_the_raw_key_once() {
    let created = key_response(make_key("k"), "sk-raw-once".to_string());
    assert_eq!(created.key, "sk-raw-once");
    assert_eq!(created.name, "k");
    let listed = listed_key(make_key("k"));
    assert_eq!(listed.key, key_display("sk-abcdefghijklmnop"));
    assert_eq!(listed.key, "sk-abc******nop");
    assert!(listed.enabled);
}
