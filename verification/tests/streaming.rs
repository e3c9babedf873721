use ait::json::{json_to_vec, parse_json, JsonValue};
use ait::models::ProviderType;
use ait::providers::{
    apply_reasoning_effort, auth_header_value, build_upstream_request, finalize_body, inject_default_shadow,
    remove_timings, rename_reasoning_key, transform_response, upstream_url,
};
use ait::sse::{transform_event, SseBuffer, SseStep, SseStream, MAX_SSE_BUFFER_BYTES};
use ait::usage::{apply_usage, is_usage_reported, parse_usage, EventTokens, UsageTokens};

fn json(text: &str) -> JsonValue {
    parse_json(text.as_bytes()).expect("test body is JSON")
}

fn as_serde(v: &JsonValue) -> serde_json::Value {
    serde_json::from_slice(&json_to_vec(v)).unwrap()
}

fn stream_of(max_bytes: usize) -> SseStream {
    SseStream::new(ProviderType::OpenAICompat, "test-model".to_string(), "200".to_string(), max_bytes)
}

// ── providers ──

#[test]
fn inject_default_shadow_sets_model_and_fingerprint() {
    let mut val = json(r#"{"choices": []}"#);
    inject_default_shadow(&mut val, "gpt-4");
    let v = as_serde(&val);
    assert_eq!(v["model"], "gpt-4");
    assert_eq!(v["system_fingerprint"], "ait-proxy");
}

#[test]
fn inject_default_shadow_noop_on_non_object() {
    let mut val = json("[1, 2, 3]");
    inject_default_shadow(&mut val, "gpt-4");
    assert_eq!(as_serde(&val), serde_json::Value::Array(vec![1.into(), 2.into(), 3.into()]));
}

#[test]
fn inject_default_shadow_replaces_existing_model() {
    let mut val = json(r#"{"model": "upstream-name", "id": 1}"#);
    inject_default_shadow(&mut val, "client-name");
    let v = as_serde(&val);
    assert_eq!(v["model"], "client-name");
    assert_eq!(v["id"], 1);
}

#[test]
fn transform_response_injects_shadow_on_valid_json() {
    let input = br#"{"choices":[{"message":"hi"}]}"#;
    let output = transform_response(ProviderType::OpenAICompat, input, "my-model");
    let val: serde_json::Value = serde_json::from_slice(&output).unwrap();
    assert_eq!(val["model"], "my-model");
    assert_eq!(val["system_fingerprint"], "ait-proxy");
}

#[test]
fn transform_response_passes_through_invalid_json() {
    let input = b"not json at all";
    let output = transform_response(ProviderType::OpenAICompat, input, "my-model");
    assert_eq!(output, input);
}

#[test]
fn llamacpp_response_drops_timings() {
    let input = br#"{"choices":[],"timings":{"predicted_ms":12}}"#;
    let output = transform_response(ProviderType::Llamacpp, input, "m");
    let val: serde_json::Value = serde_json::from_slice(&output).unwrap();
    assert!(val.get("timings").is_none());
    assert_eq!(val["model"], "m");
}

#[test]
fn ollama_response_renames_reasoning_at_every_depth() {
    let input = br#"{"message":{"reasoning":"think","content":"hi"},"list":[{"reasoning":1}]}"#;
    let output = transform_response(ProviderType::Ollama, input, "m");
    let val: serde_json::Value = serde_json::from_slice(&output).unwrap();
    assert_eq!(val["message"]["reasoning_content"], "think");
    assert!(val["message"].get("reasoning").is_none());
    assert_eq!(val["list"][0]["reasoning_content"], 1);
}

#[test]
fn rename_reasoning_key_replaces_existing_reasoning_content() {
    let mut v = json(r#"{"reasoning":"new","reasoning_content":"old"}"#);
    rename_reasoning_key(&mut v);
    let s = as_serde(&v);
    assert_eq!(s["reasoning_content"], "new");
    assert!(s.get("reasoning").is_none());
}

#[test]
fn remove_timings_leaves_arrays_alone() {
    let mut v = json(r#"[{"timings":1}]"#);
    remove_timings(&mut v);
    assert_eq!(as_serde(&v)[0]["timings"], 1);
}

#[test]
fn provider_core_upstream_url_strips_trailing_slash() {
    assert_eq!(upstream_url("http://127.0.0.1:8080/", "/chat/completions"), "http://127.0.0.1:8080/chat/completions");
    assert_eq!(upstream_url("http://h//", "/x"), "http://h/x");
    assert_eq!(upstream_url("http://h", "/x"), "http://h/x");
}

#[test]
fn provider_core_finalize_request_sets_stream_options() {
    let mut body = json(r#"{"model": "gpt-4", "messages": []}"#);
    finalize_body(&mut body, true, "gpt-4", "/chat/completions");
    let v = as_serde(&body);
    assert_eq!(v["stream"], true);
    assert_eq!(v["stream_options"]["include_usage"], true);
    assert_eq!(v["model"], "gpt-4");
}

#[test]
fn provider_core_finalize_request_omits_stream_options_for_responses() {
    let mut body = json(r#"{"model": "gpt-4", "input": "hello"}"#);
    finalize_body(&mut body, true, "gpt-4", "/responses");
    let v = as_serde(&body);
    assert_eq!(v["stream"], true);
    assert!(v.get("stream_options").is_none());
}

#[test]
fn provider_core_finalize_request_non_stream_no_stream_field() {
    let mut body = json(r#"{"model": "gpt-4", "messages": []}"#);
    finalize_body(&mut body, false, "gpt-4", "/chat/completions");
    assert!(as_serde(&body).get("stream").is_none());
}

#[test]
fn finalize_body_names_the_upstream_model() {
    let mut body = json(r#"{"model": "alias", "messages": []}"#);
    finalize_body(&mut body, false, "real-model", "/chat/completions");
    assert_eq!(as_serde(&body)["model"], "real-model");
    let mut body = json(r#"{"model": 7}"#);
    finalize_body(&mut body, false, "real-model", "/chat/completions");
    assert_eq!(as_serde(&body)["model"], 7);
}

#[test]
fn provider_core_apply_auth_header_with_api_key() {
    assert_eq!(auth_header_value(Some("sk-secret")).as_deref(), Some("Bearer sk-secret"));
}

#[test]
fn provider_core_apply_auth_header_without_api_key() {
    assert!(auth_header_value(None).is_none());
}

#[test]
fn llamacpp_maps_reasoning_effort() {
    let mut body = json(r#"{"model":"m","reasoning_effort":"none"}"#);
    apply_reasoning_effort(&mut body);
    let v = as_serde(&body);
    assert!(v.get("reasoning_effort").is_none());
    assert_eq!(v["chat_template_kwargs"]["enable_thinking"], false);

    let mut body = json(r#"{"model":"m","reasoning_effort":"high"}"#);
    apply_reasoning_effort(&mut body);
    assert_eq!(as_serde(&body)["chat_template_kwargs"]["enable_thinking"], true);

    let mut body = json(r#"{"model":"m","reasoning_effort":"extreme"}"#);
    apply_reasoning_effort(&mut body);
    assert_eq!(as_serde(&body)["reasoning_effort"], "extreme");
}

#[test]
fn build_upstream_request_assembles_url_auth_and_body() {
    let body = json(r#"{"model":"alias","reasoning_effort":"low"}"#);
    let req = build_upstream_request(ProviderType::Llamacpp, "http://h:1/", Some("k"), body, true, "up", "/chat/completions");
    assert_eq!(req.url, "http://h:1/chat/completions");
    assert_eq!(req.authorization.as_deref(), Some("Bearer k"));
    let v: serde_json::Value = serde_json::from_slice(&req.body).unwrap();
    assert_eq!(v["model"], "up");
    assert_eq!(v["stream"], true);
    assert_eq!(v["chat_template_kwargs"]["enable_thinking"], true);
}

// ── usage ──

#[test]
fn parse_chat_completions_usage() {
    let body = br#"{"usage":{"prompt_tokens":10,"completion_tokens":20,"total_tokens":30,"prompt_tokens_details":{"cached_tokens":5}}}"#;
    let u = parse_usage(body);
    assert_eq!(u.prompt_tokens, Some(10));
    assert_eq!(u.completion_tokens, Some(20));
    assert_eq!(u.total_tokens, Some(30));
    assert_eq!(u.cached_tokens, Some(5));
}

#[test]
fn parse_responses_usage() {
    let body = br#"{"id":"resp-1","object":"response","usage":{"input_tokens":100,"output_tokens":83,"output_tokens_details":{"reasoning_tokens":0},"total_tokens":183}}"#;
    let u = parse_usage(body);
    assert_eq!(u.prompt_tokens, Some(100));
    assert_eq!(u.completion_tokens, Some(83));
    assert_eq!(u.total_tokens, Some(183));
    assert_eq!(u.cached_tokens, None);
}

#[test]
fn parse_responses_usage_with_cached_tokens() {
    let body = br#"{"usage":{"input_tokens":200,"output_tokens":50,"input_tokens_details":{"cached_tokens":150}}}"#;
    let u = parse_usage(body);
    assert_eq!(u.prompt_tokens, Some(200));
    assert_eq!(u.completion_tokens, Some(50));
    assert_eq!(u.total_tokens, Some(250));
    assert_eq!(u.cached_tokens, Some(150));
}

#[test]
fn parse_responses_streaming_terminal_event_usage() {
    let body = br#"{"type":"response.completed","sequence_number":10,"response":{"id":"resp-2","status":"completed","usage":{"input_tokens":7,"output_tokens":3}}}"#;
    let u = parse_usage(body);
    assert_eq!(u.prompt_tokens, Some(7));
    assert_eq!(u.completion_tokens, Some(3));
    assert_eq!(u.total_tokens, Some(10));
}

#[test]
fn parse_usage_ignores_payloads_without_usage() {
    let u = parse_usage(br#"{"type":"response.output_text.delta","delta":"hello"}"#);
    assert_eq!((u.prompt_tokens, u.completion_tokens, u.total_tokens, u.cached_tokens), (None, None, None, None));
}

#[test]
fn parse_usage_invalid_json_returns_default() {
    let u = parse_usage(b"not json");
    assert_eq!((u.prompt_tokens, u.completion_tokens, u.total_tokens, u.cached_tokens), (None, None, None, None));
}

#[test]
fn parse_usage_cached_tokens_from_completion_tokens_details() {
    let u = parse_usage(br#"{"usage":{"prompt_tokens":10,"completion_tokens":20,"completion_tokens_details":{"cached_tokens":7}}}"#);
    assert_eq!(u.cached_tokens, Some(7));
}

#[test]
fn parse_usage_cached_tokens_top_level_fallback() {
    let u = parse_usage(br#"{"usage":{"prompt_tokens":10,"completion_tokens":20,"cached_tokens":42}}"#);
    assert_eq!(u.prompt_tokens, Some(10));
    assert_eq!(u.completion_tokens, Some(20));
    assert_eq!(u.cached_tokens, Some(42));
}

fn seeded(prompt: Option<i64>) -> EventTokens {
    EventTokens { prompt_tokens: prompt, completion_tokens: None, total_tokens: None, cached_tokens: None }
}

#[test]
fn guard_finalize_keeps_seeded_prompt_estimate_without_usage() {
    let mut ev = seeded(Some(42));
    apply_usage(&mut ev, &UsageTokens { prompt_tokens: None, completion_tokens: None, total_tokens: None, cached_tokens: None });
    assert_eq!(ev.prompt_tokens, Some(42));
}

#[test]
fn guard_finalize_prefers_upstream_usage_over_estimate() {
    let mut ev = seeded(Some(42));
    let usage = UsageTokens { prompt_tokens: Some(10), completion_tokens: Some(20), total_tokens: Some(30), cached_tokens: Some(5) };
    apply_usage(&mut ev, &usage);
    assert_eq!(ev.prompt_tokens, Some(10));
    assert_eq!(ev.total_tokens, Some(30));
    assert_eq!(ev.cached_tokens, Some(5));
}

// ── SSE framing ──

#[test]
fn find_event_boundary_double_newline() {
    let mut b = SseBuffer::new();
    b.push(b"data: hello\n\ndata: world\n\n");
    assert_eq!(b.find_event_boundary(), Some(13));
}

#[test]
fn find_event_boundary_crlf() {
    let mut b = SseBuffer::new();
    b.push(b"data: hello\r\n\r\ndata: world");
    assert_eq!(b.find_event_boundary(), Some(15));
}

#[test]
fn find_event_boundary_no_boundary() {
    let mut b = SseBuffer::new();
    b.push(b"data: hello without boundary");
    assert_eq!(b.find_event_boundary(), None);
}

#[test]
fn find_event_boundary_crlf_straddling_chunks() {
    let mut b = SseBuffer::new();
    b.push(b"ab\r\n");
    assert_eq!(b.find_event_boundary(), None);
    b.push(b"\r\nx");
    assert_eq!(b.find_event_boundary(), Some(6));
}

#[test]
fn find_event_boundary_lf_straddling_chunks() {
    let mut b = SseBuffer::new();
    b.push(b"a\n");
    assert_eq!(b.find_event_boundary(), None);
    b.push(b"\nb");
    assert_eq!(b.find_event_boundary(), Some(3));
}

#[test]
fn crlf_boundary_is_preferred_to_an_earlier_lf_one() {
    let mut b = SseBuffer::new();
    b.push(b"a\n\nb\r\n\r\n");
    assert_eq!(b.find_event_boundary(), Some(8));
}

#[test]
fn split_to_keeps_the_rest() {
    let mut b = SseBuffer::new();
    b.push(b"one\n\ntwo");
    let e = b.find_event_boundary().unwrap();
    assert_eq!(b.split_to(e), b"one\n\n".to_vec());
    assert_eq!(b.len(), 3);
    assert_eq!(b.take_all(), b"two".to_vec());
    assert_eq!(b.len(), 0);
}

#[test]
fn transform_event_rewrites_data_lines() {
    let event = b"data: {\"choices\":[]}\n\n".to_vec();
    let (out, _) = transform_event(&event, ProviderType::OpenAICompat, "test-model");
    let text = std::str::from_utf8(&out).unwrap();
    assert!(text.contains("data: "));
    assert!(text.contains("model"));
    assert!(text.contains("ait-proxy"));
}

#[test]
fn transform_event_rewrites_data_lines_without_space() {
    let event = b"data:{\"choices\":[]}\n\n".to_vec();
    let (out, _) = transform_event(&event, ProviderType::OpenAICompat, "test-model");
    let text = std::str::from_utf8(&out).unwrap();
    assert!(text.contains("ait-proxy"), "payload must be transformed: {text}");
}

#[test]
fn transform_event_non_utf8_passthrough() {
    let event = vec![0xFF, 0xFE, 0xFD];
    let (out, usage) = transform_event(&event, ProviderType::OpenAICompat, "test-model");
    assert_eq!(out, event);
    assert!(usage.is_none());
}

#[test]
fn transform_event_keeps_other_lines_and_one_blank_line() {
    let event = b"event: ping\r\ndata: [DONE]\n\n".to_vec();
    let (out, _) = transform_event(&event, ProviderType::OpenAICompat, "m");
    assert_eq!(out, b"event: ping\ndata: [DONE]\n\n".to_vec());
    let event = b": comment\n\n\n".to_vec();
    let (out, _) = transform_event(&event, ProviderType::OpenAICompat, "m");
    assert_eq!(out, b": comment\n\n".to_vec());
}

#[test]
fn try_extract_usage_captures_tokens() {
    let event = b"data: {\"usage\":{\"prompt_tokens\":10,\"completion_tokens\":5,\"total_tokens\":15}}\n\n".to_vec();
    let (_, usage) = transform_event(&event, ProviderType::OpenAICompat, "m");
    let u = usage.unwrap();
    assert_eq!(u.prompt_tokens, Some(10));
    assert_eq!(u.total_tokens, Some(15));
}

#[test]
fn try_extract_usage_ignores_zero_tokens() {
    let event = b"data: {\"usage\":{\"prompt_tokens\":0,\"completion_tokens\":0,\"total_tokens\":0}}\n\n".to_vec();
    let (_, usage) = transform_event(&event, ProviderType::OpenAICompat, "m");
    assert!(usage.is_none());
    assert!(!is_usage_reported(&parse_usage(br#"{"usage":{"prompt_tokens":0}}"#)));
}

#[test]
fn force_split_oversized_under_cap_returns_none() {
    let mut b = SseBuffer::new();
    b.push(b"small buffer");
    assert_eq!(b.force_split_oversized().unwrap(), None);
}

#[test]
fn force_split_oversized_with_newline_splits() {
    let mut b = SseBuffer::new();
    b.push(&vec![b'x'; MAX_SSE_BUFFER_BYTES + 100]);
    b.push(b"\n");
    b.push(b"remaining");
    let result = b.force_split_oversized().unwrap();
    assert!(result.is_some());
    assert!(result.unwrap() > MAX_SSE_BUFFER_BYTES);
    assert_eq!(result.unwrap(), MAX_SSE_BUFFER_BYTES + 101);
}

#[test]
fn force_split_oversized_no_newline_returns_error() {
    let mut b = SseBuffer::new();
    b.push(&vec![b'x'; MAX_SSE_BUFFER_BYTES + 100]);
    assert!(b.force_split_oversized().is_err());
}

#[test]
fn stream_processes_complete_event() {
    let mut s = stream_of(usize::MAX);
    assert!(s.receive(b"data: {\"choices\":[]}\n\n"));
    match s.next_buffered() {
        SseStep::Emit(bytes) => assert!(std::str::from_utf8(&bytes).unwrap().contains("data: ")),
        other => panic!("expected an event, got {other:?}"),
    }
    assert!(matches!(s.next_buffered(), SseStep::Wait));
    assert!(s.response_body_size.unwrap() > 0);
}

#[test]
fn stream_finalizes_on_inner_end() {
    let mut s = stream_of(usize::MAX);
    assert!(s.receive(b"data: {\"choices\":[]}\n\n"));
    let _first = s.next_buffered();
    assert!(matches!(s.finalize_stream(), SseStep::End(None)));
    assert!(s.done);
    assert!(matches!(s.poll_start(false, false), Some(SseStep::Closed)));
}

#[test]
fn finalize_stream_flushes_remaining_buffer() {
    let mut s = stream_of(usize::MAX);
    assert!(s.receive(b"data: {\"choices\":[]}\n\n"));
    assert!(matches!(s.next_buffered(), SseStep::Emit(_)));
    assert!(s.receive(b"{\"choices\":[{\"delta\":{\"content\":\"hi\"}}]}"));
    assert!(matches!(s.next_buffered(), SseStep::Wait));
    match s.finalize_stream() {
        SseStep::End(Some(bytes)) => assert!(std::str::from_utf8(&bytes).unwrap().contains("ait-proxy")),
        other => panic!("expected the rest, got {other:?}"),
    }
    assert!(s.done);
}

#[test]
fn stream_propagates_inner_error() {
    let mut s = stream_of(usize::MAX);
    s.on_error("upstream gone".to_string());
    assert!(s.done);
    assert_eq!(s.error_message.as_deref(), Some("upstream gone"));
}

#[test]
fn drop_without_done_writes_499_log() {
    let mut s = stream_of(usize::MAX);
    assert!(s.abandon());
    assert_eq!(s.status, "499");
    let mut s = stream_of(usize::MAX);
    let _ = s.finalize_stream();
    assert!(!s.abandon());
    assert_eq!(s.status, "200");
}

#[test]
fn stream_fail_on_oversized_buffer_without_newline() {
    let mut s = stream_of(usize::MAX);
    assert!(s.receive(&vec![b'x'; MAX_SSE_BUFFER_BYTES + 100]));
    assert!(matches!(s.next_buffered(), SseStep::End(None)));
    assert!(s.done);
    assert_eq!(s.status, "502");
    assert!(s.error_message.is_some());
}

#[test]
fn stream_idle_timer_ends_silent_upstream() {
    let mut s = stream_of(usize::MAX);
    assert!(s.poll_start(false, false).is_none());
    assert!(!s.done);
    assert!(matches!(s.poll_start(false, true), Some(SseStep::End(None))));
    assert!(s.done);
    assert_eq!(s.status, "504");
    assert_eq!(s.error_message.as_deref(), Some("SSE stream idle timeout"));
}

#[test]
fn stream_exceeding_max_duration_is_cut_off() {
    let mut s = stream_of(usize::MAX);
    assert!(s.receive(b"data: {\"choices\":[]}"));
    match s.poll_start(true, false) {
        Some(SseStep::End(Some(_))) => {}
        other => panic!("expected the buffered rest, got {other:?}"),
    }
    assert!(s.done);
    assert_eq!(s.status, "504");
    assert!(s.error_message.as_deref().is_some_and(|m| m.contains("max duration")));
}

#[test]
fn stream_exceeding_max_bytes_is_cut_off() {
    let mut s = stream_of(1);
    assert!(!s.receive(b"data: {\"choices\":[]}\n\n"));
    assert!(s.done);
    assert_eq!(s.status, "502");
    assert_eq!(s.error_message.as_deref(), Some("SSE stream exceeded max response size"));
}

#[test]
fn usage_from_a_stream_is_the_last_reported() {
    let mut s = stream_of(usize::MAX);
    assert!(s.receive(b"data: {\"usage\":{\"prompt_tokens\":3}}\n\ndata: {\"usage\":{\"prompt_tokens\":9}}\n\n"));
    let _ = s.next_buffered();
    let _ = s.next_buffered();
    assert_eq!(s.user_tokens.as_ref().unwrap().prompt_tokens, Some(9));
}
