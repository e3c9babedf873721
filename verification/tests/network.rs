use ait::config::TrustedProxy;
use ait::ip::{parse_ip, IpAddr};
use ait::middleware::{
    extract_bearer_token, forwarded_client_ip, get_client_ip, remote_user_from_headers, session_response, verify_key,
};
use ait::models::ApiKeyInfo;
use ait::ssrf::{
    check_resolved, config_deny_error, ip_in_cidr, is_allowed, is_blocked_ip, normalize_ip, pin_key, proxy_deny_error,
    strip_brackets, SsrfDeny,
};
use ait::admin::url_target;

fn ip(s: &str) -> IpAddr {
    parse_ip(s).expect("test address parses")
}

fn allowed(s: &str) -> bool {
    is_allowed(&ip(s), &[])
}

#[test]
fn parse_ip_reads_both_families() {
    assert_eq!(parse_ip("10.20.30.40"), Some(IpAddr::V4(0x0a14_1e28)));
    assert_eq!(parse_ip("::1"), Some(IpAddr::V6(1)));
    assert_eq!(parse_ip("::ffff:1.2.3.4"), Some(IpAddr::V6(0xffff_0102_0304)));
    assert_eq!(parse_ip("2001:db8::1"), Some(IpAddr::V6(0x2001_0db8_0000_0000_0000_0000_0000_0001)));
    assert_eq!(parse_ip("256.1.1.1"), None);
    assert_eq!(parse_ip("1.2.3"), None);
    assert_eq!(parse_ip("1::2::3"), None);
    assert_eq!(parse_ip(""), None);
}

#[test]
fn v4_loopback_blocked() {
    assert!(!allowed("127.0.0.1"));
}

#[test]
fn v6_loopback_blocked() {
    assert!(!allowed("::1"));
}

#[test]
fn public_ipv4_allowed() {
    assert!(allowed("8.8.8.8"));
}

#[test]
fn public_ipv6_allowed() {
    assert!(allowed("2001:db8::1"));
}

#[test]
fn ipv4_mapped_loopback_blocked() {
    assert!(!allowed("::ffff:127.0.0.1"));
}

#[test]
fn ipv4_mapped_metadata_blocked() {
    assert!(!allowed("::ffff:a9fe:a9fe"));
}

#[test]
fn ipv4_mapped_public_allowed() {
    assert!(allowed("::ffff:8.8.8.8"));
}

#[test]
fn nat64_metadata_blocked() {
    assert!(!allowed("64:ff9b::a9fe:a9fe"));
}

#[test]
fn nat64_public_allowed() {
    assert!(allowed("64:ff9b::808:808"));
}

#[test]
fn mapped_matches_v4_cidr_whitelist() {
    assert!(is_allowed(&ip("::ffff:192.168.3.130"), &["192.168.3.130".to_string()]));
}

#[test]
fn v4_0_network_blocked() {
    assert!(!allowed("0.0.0.0"));
}

#[test]
fn v4_10_private_blocked() {
    assert!(!allowed("10.0.0.1"));
}

#[test]
fn v4_172_16_private_blocked() {
    assert!(!allowed("172.16.0.1"));
}

#[test]
fn v4_172_31_private_blocked() {
    assert!(!allowed("172.31.255.255"));
}

#[test]
fn v4_192_168_private_blocked() {
    assert!(!allowed("192.168.1.1"));
}

#[test]
fn v4_100_64_carrier_nat_blocked() {
    assert!(!allowed("100.64.0.1"));
}

#[test]
fn v4_198_18_testing_blocked() {
    assert!(!allowed("198.18.0.1"));
}

#[test]
fn v4_169_254_linklocal_blocked() {
    assert!(!allowed("169.254.1.1"));
}

#[test]
fn v6_unique_local_blocked() {
    assert!(!allowed("fc00::1"));
}

#[test]
fn v6_fd00_unique_local_blocked() {
    assert!(!allowed("fd12:3456:789a::1"));
}

#[test]
fn v6_link_local_blocked() {
    assert!(!allowed("fe80::1"));
}

#[test]
fn ipv4_in_prefix_len_0_matches_all() {
    assert!(ip_in_cidr(&ip("8.8.8.8"), "0.0.0.0/0"));
}

#[test]
fn ipv6_in_prefix_matches() {
    assert!(ip_in_cidr(&ip("2001:db8::1"), "2001:db8::/32"));
}

#[test]
fn ipv6_in_prefix_mismatch() {
    assert!(!ip_in_cidr(&ip("2001:dead::1"), "2001:db8::/32"));
}

#[test]
fn ipv6_bare_ip_treated_as_128() {
    assert!(ip_in_cidr(&ip("2001:db8::1"), "2001:db8::1"));
    assert!(!ip_in_cidr(&ip("2001:db8::2"), "2001:db8::1"));
}

#[test]
fn ip_in_cidr_prefix_follows_cidr_family() {
    assert!(!ip_in_cidr(&ip("2001:db8::1"), "2001:db8::/abc"));
    assert!(!ip_in_cidr(&ip("10.0.0.1"), "10.0.0.0/abc"));
    assert!(!ip_in_cidr(&ip("10.0.0.1"), "10.0.0.0/33"));
    assert!(ip_in_cidr(&ip("2001:db8::1"), "2001:db8::1"));
    assert!(!ip_in_cidr(&ip("2001:db8::2"), "2001:db8::1"));
}

#[test]
fn ip_in_cidr_invalid_cidr_returns_false() {
    assert!(!ip_in_cidr(&parse_ip("8.8.28").unwrap_or(IpAddr::V4(0)), "not-an-ip"));
}

#[test]
fn ip_in_cidr_v4_v6_mismatch_returns_false() {
    assert!(!ip_in_cidr(&ip("8.8.8.8"), "2001:db8::/32"));
}

#[test]
fn ipv6_in_prefix_len_0_matches_all() {
    assert!(ip_in_cidr(&ip("2001:db8::1"), "::/0"));
}

#[test]
fn normalize_ip_unwraps_embedded_v4() {
    assert_eq!(normalize_ip(&ip("::ffff:10.0.0.1")), ip("10.0.0.1"));
    assert_eq!(normalize_ip(&ip("64:ff9b::a00:1")), ip("10.0.0.1"));
    assert_eq!(normalize_ip(&ip("2001:db8::1")), ip("2001:db8::1"));
    assert!(is_blocked_ip(&ip("10.0.0.1")));
}

#[test]
fn check_ssrf_config_blocked_returns_bad_request() {
    let r = check_resolved(&vec![ip("10.0.0.1")], &vec![]);
    let d = r.unwrap_err();
    let err = config_deny_error(&d);
    assert_eq!(err.code, 400);
    assert!(err.message.contains("blocked"));
}

#[test]
fn check_ssrf_blocked_returns_502() {
    assert!(check_resolved(&vec![ip("8.8.8.8"), ip("10.0.0.1")], &vec![]).is_err());
    let err = proxy_deny_error();
    assert_eq!(err.status_code(), 502);
}

#[test]
fn check_ssrf_config_allowed_returns_ok() {
    assert!(check_resolved(&vec![ip("127.0.0.1")], &vec!["127.0.0.1/8".to_string()]).is_ok());
}

#[test]
fn check_ssrf_config_no_host_returns_bad_request() {
    let err = config_deny_error(&SsrfDeny::NoHost);
    assert!(err.message.contains("host"));
    let err = config_deny_error(&SsrfDeny::DnsFailed("nx".to_string()));
    assert_eq!(err.message, "base_url host could not be resolved");
}

#[test]
fn pinned_client_strips_ipv6_brackets() {
    assert_eq!(pin_key("[::1]", 80), "::1:80");
    assert_eq!(pin_key("upstream.test", 8080), "upstream.test:8080");
}

// ── trusted proxies and client addresses ──

fn trusted() -> Vec<TrustedProxy> {
    vec![TrustedProxy::Ip(IpAddr::V4(0x7f00_0001)), TrustedProxy::Ip(IpAddr::V6(1))]
}

#[test]
fn xff_takes_rightmost_entry_for_single_hop() {
    let got = get_client_ip(Some(ip("127.0.0.1")), Some("6.6.6.6, 10.20.30.40"), None, &trusted(), 1);
    assert_eq!(got, Some(ip("10.20.30.40")));
}

#[test]
fn xff_picks_nth_entry_from_right_for_multi_hop() {
    let got = get_client_ip(Some(ip("127.0.0.1")), Some("203.0.113.9, 10.0.0.1"), None, &trusted(), 2);
    assert_eq!(got, Some(ip("203.0.113.9")));
}

#[test]
fn xff_chain_shorter_than_hops_falls_back_to_peer() {
    let got = get_client_ip(Some(ip("127.0.0.1")), Some("10.20.30.40"), None, &trusted(), 3);
    assert_eq!(got, Some(ip("127.0.0.1")));
}

#[test]
fn untrusted_peer_ignores_xff() {
    let got = get_client_ip(Some(ip("10.9.9.9")), Some("6.6.6.6"), None, &trusted(), 1);
    assert_eq!(got, Some(ip("10.9.9.9")));
}

#[test]
fn cidr_trusted_proxy_enables_xff() {
    let trusted = vec![TrustedProxy::Cidr(ip("10.0.0.0"), 8)];
    let got = get_client_ip(Some(ip("10.0.0.7")), Some("203.0.113.9"), None, &trusted, 1);
    assert_eq!(got, Some(ip("203.0.113.9")));
    let got = get_client_ip(Some(ip("11.0.0.7")), Some("203.0.113.9"), None, &trusted, 1);
    assert_eq!(got, Some(ip("11.0.0.7")));
}

#[test]
fn x_real_ip_used_when_xff_unusable() {
    let got = get_client_ip(Some(ip("127.0.0.1")), Some("garbage"), Some("10.20.30.40"), &trusted(), 1);
    assert_eq!(got, Some(ip("10.20.30.40")));
    let got = get_client_ip(None, Some("1.2.3.4"), Some("10.20.30.40"), &trusted(), 1);
    assert_eq!(got, None);
}

#[test]
fn forwarded_client_ip_rejects_unusable_entries() {
    assert_eq!(forwarded_client_ip("not-an-ip", 1), None);
    assert_eq!(forwarded_client_ip("10.20.30.40", 0), None);
    assert_eq!(forwarded_client_ip(" 6.6.6.6 , 10.20.30.40 ", 1), Some(ip("10.20.30.40")));
}

#[test]
fn trusted_proxy_entries_accept_ip_and_cidr() {
    let trusted: Vec<TrustedProxy> = ["127.0.0.1", "::1", "10.0.0.0/8", "2001:db8::/32"]
        .iter()
        .map(|e| TrustedProxy::parse(e).unwrap())
        .collect();
    assert_eq!(trusted.len(), 4);
    assert!(trusted[0].contains(ip("127.0.0.1")));
    assert!(!trusted[0].contains(ip("127.0.0.2")));
    assert!(trusted[2].contains(ip("10.9.9.9")));
    assert!(!trusted[2].contains(ip("11.0.0.1")));
    assert!(trusted[3].contains(ip("2001:db8::1")));
    assert!(!trusted[3].contains(ip("2001:db9::1")));
}

#[test]
fn trusted_proxy_matches_ipv4_mapped_peer() {
    let t = TrustedProxy::parse("127.0.0.1").unwrap();
    assert!(t.contains(ip("::ffff:127.0.0.1")));
}

#[test]
fn invalid_trusted_proxy_entry_rejected() {
    for bad in ["not-an-ip", "10.0.0.0/33", "10.0.0.0/abc", "10.0.0.0/"] {
        assert!(TrustedProxy::parse(bad).is_err(), "'{bad}' must be rejected");
    }
    assert_eq!(TrustedProxy::parse("10.0.0.0/33").unwrap_err(), "'10.0.0.0/33' prefix must be <= 32");
    assert_eq!(TrustedProxy::parse("x").unwrap_err(), "'x' is not an IP address or CIDR block");
}

// ── bearer tokens and keys ──

#[test]
fn bearer_token_is_read_after_the_scheme() {
    assert_eq!(extract_bearer_token(Some("Bearer sk-1")).as_deref(), Some("sk-1"));
    assert_eq!(extract_bearer_token(Some("bearer sk-1")), None);
    assert_eq!(extract_bearer_token(Some("Basic abc")), None);
    assert_eq!(extract_bearer_token(None), None);
}

fn key(enabled: bool, expires_at: Option<i64>) -> ApiKeyInfo {
    ApiKeyInfo { id: "id".to_string(), name: "test-key".to_string(), enabled, expires_at, created_at: 0 }
}

#[test]
fn expired_api_key_rejected() {
    let now = 1_700_000_000;
    let (status, err) = verify_key(&key(true, Some(now - 3600)), now).unwrap_err();
    assert_eq!(status, 401);
    assert_eq!(err.message, "Unauthorized: invalid or missing API key");
    assert!(verify_key(&key(true, Some(now)), now).is_err());
    assert!(verify_key(&key(false, None), now).is_err());
    let ctx = verify_key(&key(true, Some(now + 1)), now).unwrap();
    assert_eq!(ctx.name.as_deref(), Some("test-key"));
}

#[test]
fn remote_user_only_from_trusted_proxy() {
    assert_eq!(remote_user_from_headers(Some("alice"), ip("127.0.0.1"), &trusted()).as_deref(), Some("alice"));
    assert_eq!(remote_user_from_headers(Some("alice"), ip("8.8.8.8"), &trusted()), None);
    let s = session_response(Some("bob"));
    assert!(s.authenticated);
    assert_eq!(s.username.as_deref(), Some("bob"));
    assert!(!session_response(None).authenticated);
}

#[test]
fn url_target_strips_brackets_and_defaults_port() {
    assert_eq!(url_target("http://[::1]:8080/v1"), Some(("::1".to_string(), 8080)));
    assert_eq!(url_target("https://api.example.com/v1"), Some(("api.example.com".to_string(), 443)));
    assert_eq!(url_target("http://example.com"), Some(("example.com".to_string(), 80)));
    assert_eq!(url_target("not a url"), None);
    assert_eq!(url_target("unix:/run/sock"), None);
    assert_eq!(strip_brackets("[fe80::1]"), "fe80::1");
    assert_eq!(strip_brackets("example.com"), "example.com");
}
