use ait::error::{db_error, internal_error, not_found, unauthorized, AitError, DbError};
use ait::handlers::{ident_chars, model_name_chars, uuid_chars, validate_string};
use ait::models::ProviderType;
use ait::proxy::count_prompt_tokens;
use ait::utils::{mask_api_key, mask_sensitive_value};

fn ident(c: char) -> bool {
    ident_chars(c)
}

#[test]
fn mask_ascii_key() {
    assert_eq!(mask_api_key("sk-abc1234567890xyz"), "sk-abc******xyz");
}

#[test]
fn mask_multibyte_key_does_not_panic() {
    let key = "密钥密钥密钥密钥密钥密钥";
    let masked = mask_api_key(key);
    assert_eq!(masked, "密钥密钥密钥******钥密钥");
}

#[test]
fn mask_short_key() {
    assert_eq!(mask_api_key("sk-abcd"), "******");
}

#[test]
fn mask_empty_key() {
    assert_eq!(mask_api_key(""), "******");
}

#[test]
fn mask_sensitive_value_prefix_suffix() {
    assert_eq!(mask_sensitive_value("13800138000", 3, 2), "138******00");
}

#[test]
fn mask_sensitive_value_too_short() {
    assert_eq!(mask_sensitive_value("abc", 3, 2), "******");
}

#[test]
fn mask_sensitive_value_zero_parts() {
    assert_eq!(mask_sensitive_value("abcdef", 0, 0), "******");
}

#[test]
fn mask_keeps_exact_parts_when_just_long_enough() {
    assert_eq!(mask_sensitive_value("abcdef", 3, 2), "abc******ef");
    assert_eq!(mask_sensitive_value("abcde", 3, 2), "******");
}

#[test]
fn empty_and_whitespace_rejected() {
    assert!(validate_string("", "name", 128, ident).is_err());
    assert!(validate_string("   ", "name", 128, ident).is_err());
}

#[test]
fn too_long_rejected() {
    let long = "a".repeat(129);
    assert!(validate_string(&long, "name", 128, ident).is_err());
}

#[test]
fn invalid_characters_rejected() {
    assert!(validate_string("bad#name", "name", 128, ident).is_err());
    assert!(validate_string("bad/name", "name", 128, ident).is_err());
}

#[test]
fn valid_value_trimmed_and_accepted() {
    assert_eq!(validate_string("  my-name_1  ", "name", 128, ident).unwrap(), "my-name_1");
    assert_eq!(
        validate_string("model-1:latest", "name", 128, model_name_chars).unwrap(),
        "model-1:latest"
    );
    assert_eq!(validate_string("abc-123", "id", 40, uuid_chars).unwrap(), "abc-123");
    assert!(validate_string("abc@!$", "id", 40, uuid_chars).is_err());
}

#[test]
fn validate_string_messages_name_the_field() {
    let e = validate_string("  ", "name", 128, ident).unwrap_err();
    assert_eq!(e.message, "name must not be empty");
    assert_eq!(e.code, 400);
    let e = validate_string(&"a".repeat(129), "name", 128, ident).unwrap_err();
    assert_eq!(e.message, "name must not exceed 128 characters");
    let e = validate_string("bad#name", "name", 128, ident).unwrap_err();
    assert_eq!(e.message, "name contains invalid characters");
}

#[test]
fn validate_string_counts_bytes_not_characters() {
    // Three two-byte characters are six bytes.
    assert!(validate_string("ééé", "v", 5, |_c| true).is_err());
    assert_eq!(validate_string("ééé", "v", 6, |_c| true).unwrap(), "ééé");
}

#[test]
fn validate_string_is_idempotent_on_accepted_values() {
    let once = validate_string("  a b  ", "name", 128, ident).unwrap();
    let twice = validate_string(&once, "name", 128, ident).unwrap();
    assert_eq!(once, twice);
}

#[test]
fn deepseek_supports_chat_and_responses_endpoints() {
    let t = ProviderType::DeepSeek;
    assert!(t.supports_endpoint("/chat/completions"));
    assert!(t.supports_endpoint("/responses"));
    assert!(!t.supports_endpoint("/completions"));
    assert!(!t.supports_endpoint("/embeddings"));
}

#[test]
fn openai_compat_supports_all_endpoints() {
    let t = ProviderType::OpenAICompat;
    for path in ["/chat/completions", "/completions", "/embeddings", "/responses"] {
        assert!(t.supports_endpoint(path), "{path} should be allowed");
    }
}

#[test]
fn zhipu_supports_chat_and_embeddings() {
    let t = ProviderType::Zhipu;
    assert!(t.supports_endpoint("/chat/completions"));
    assert!(t.supports_endpoint("/embeddings"));
    assert!(!t.supports_endpoint("/responses"));
}

#[test]
fn provider_type_names_round_trip() {
    for t in ProviderType::all() {
        assert_eq!(ProviderType::from_db(t.to_db()), t);
    }
    assert_eq!(ProviderType::from_db("nonsense"), ProviderType::OpenAICompat);
    assert_eq!(ProviderType::Llamacpp.to_db(), "llamacpp");
    assert_eq!(ProviderType::Llamacpp.display_name(), "llama.cpp");
}

#[test]
fn count_prompt_tokens_estimates_from_body_len() {
    assert_eq!(count_prompt_tokens(0, 3), None);
    assert_eq!(count_prompt_tokens(99, 3), Some(33));
    assert_eq!(count_prompt_tokens(100, 3), Some(33));
}

#[test]
fn count_prompt_tokens_divisor_scales_estimate() {
    assert_eq!(count_prompt_tokens(100, 1), Some(100));
    assert_eq!(count_prompt_tokens(100, 5), Some(20));
}

#[test]
fn error_constructors_have_correct_shape() {
    let (s, body) = AitError::bad_request("some message").into_response();
    assert_eq!((s, body.code, body.error_type.as_str(), body.message.as_str()), (400, 400, "invalid_request_error", "some message"));
    assert_eq!(body.status_code(), 400);
    let (s, body) = not_found("some message");
    assert_eq!((s, body.code, body.error_type.as_str(), body.message.as_str()), (404, 404, "not_found_error", "some message"));
    assert_eq!(body.status_code(), 404);
    let (s, body) = unauthorized("some message");
    assert_eq!((s, body.code, body.error_type.as_str(), body.message.as_str()), (401, 401, "auth_error", "some message"));
    assert_eq!(body.status_code(), 401);
}

#[test]
fn internal_error_uses_generic_message() {
    let (s, body) = internal_error();
    assert_eq!(s, 500);
    assert_eq!(body.code, 500);
    assert_eq!(body.message, "Internal server error");
    assert_eq!(body.error_type, "internal_error");
}

#[test]
fn db_error_maps_to_internal_error() {
    let (s, body) = db_error();
    assert_eq!(s, 500);
    assert_eq!(body.code, 500);
}

#[test]
fn from_db_error_maps_all_variants() {
    let cases = vec![
        (DbError::NotFound("gone".into()), 404, "not_found_error"),
        (DbError::LimitExceeded("too many".into()), 409, "invalid_request_error"),
        (DbError::Duplicate("dup".into()), 409, "invalid_request_error"),
        (DbError::Storage("boom".into()), 500, "internal_error"),
    ];
    for (e, code, ty) in cases {
        let err = AitError::from_db_error(e);
        assert_eq!(err.code, code);
        assert_eq!(err.error_type, ty);
        assert_eq!(err.status_code(), code);
    }
}

#[test]
fn out_of_range_code_is_sent_as_500() {
    let e = AitError::upstream_error(42, "odd");
    assert_eq!(e.status_code(), 500);
    let e = AitError::upstream_error(429, "slow down");
    assert_eq!(e.status_code(), 429);
}

#[test]
fn with_detail_keeps_the_rest() {
    let e = AitError::upstream_error(502, "upstream request failed").with_detail("trace");
    assert_eq!(e.code, 502);
    assert_eq!(e.message, "upstream request failed");
    assert_eq!(e.detail.as_deref(), Some("trace"));
}

#[test]
fn error_carries_request_id_once_stamped() {
    let e = AitError::bad_request("name must not be empty");
    assert!(e.request_id.is_none());
    let e = e.with_request_id("0b6f7a52-3c1d-4f8e-9a2b-5d4c3b2a1f00");
    let (status, body) = e.into_response();
    assert_eq!(status, 400);
    assert_eq!(body.request_id.as_deref(), Some("0b6f7a52-3c1d-4f8e-9a2b-5d4c3b2a1f00"));
    assert_eq!(body.message, "name must not be empty");
    assert_eq!(body.error_type, "invalid_request_error");
    assert!(body.detail.is_none());
}
