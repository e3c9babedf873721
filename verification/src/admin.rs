//! Validation of the console's create and update requests.
use vstd::prelude::*;

use crate::analytics::{is_valid_timestamp, timestamp_valid};
use crate::error::AitError;
use crate::handlers::{
    empty_message, ident_chars, invalid_chars_message, is_ascii_alnum, model_name_chars, spec_ident_char,
    spec_model_name_char, spec_upstream_model_char, spec_uuid_char, too_long_message, upstream_model_chars,
    uuid_chars, validate_string,
};
use crate::models::{ApiKeyUpdate, ModelUpdate, ProviderType, ProviderUpdate};
use crate::text::{chars_of, str_eq, trim, trim_string, utf8_len, utf8_len_exceeds};
use crate::ssrf::{bare_host, strip_brackets};

verus! {

/// What `validate_string` decides for `value`: the trimmed value, or the
/// message of the first check it fails.
pub open spec fn field_check(value: Seq<char>, field: Seq<char>, max: nat, ok: spec_fn(char) -> bool) -> Result<
    Seq<char>,
    Seq<char>,
> {
    let t = trim(value);
    if t.len() == 0 {
        Err(empty_message(field))
    } else if utf8_len(t) > max {
        Err(too_long_message(field, max))
    } else if forall|i: int| 0 <= i < t.len() ==> #[trigger] ok(t[i]) {
        Ok(t)
    } else {
        Err(invalid_chars_message(field))
    }
}

/// An `AitError` that carries `check`'s outcome: `Ok` with the checked
/// value, or a 400 with its message.
pub open spec fn matches_check(r: Result<String, AitError>, check: Result<Seq<char>, Seq<char>>) -> bool {
    match check {
        Ok(v) => r matches Ok(s) && s@ == v,
        Err(m) => r matches Err(e) && e.code == 400 && e.message@ == m && e.detail is None,
    }
}

/// A value that passes a field's check passes it again unchanged: checking
/// is idempotent.
pub proof fn lemma_field_check_idempotent(value: Seq<char>, field: Seq<char>, max: nat, ok: spec_fn(char) -> bool)
    requires
        field_check(value, field, max, ok) is Ok,
    ensures
        field_check(field_check(value, field, max, ok)->Ok_0, field, max, ok) == field_check(value, field, max, ok),
{
    crate::text::lemma_trim_idempotent(value);
}

pub open spec fn ident_ok() -> spec_fn(char) -> bool {
    |c: char| spec_ident_char(c)
}

pub open spec fn model_name_ok() -> spec_fn(char) -> bool {
    |c: char| spec_model_name_char(c)
}

pub open spec fn upstream_model_ok() -> spec_fn(char) -> bool {
    |c: char| spec_upstream_model_char(c)
}

pub open spec fn uuid_ok() -> spec_fn(char) -> bool {
    |c: char| spec_uuid_char(c)
}

pub open spec fn any_ok() -> spec_fn(char) -> bool {
    |c: char| true
}

fn check_ident(value: &str, field: &str, max: usize) -> (r: Result<String, AitError>)
    ensures
        matches_check(r, field_check(value@, field@, max as nat, ident_ok())),
{
    let r = validate_string(value, field, max, ident_chars);
    proof {
        let t = trim(value@);
        if t.len() > 0 && utf8_len(t) <= max {
            if r is Err {
                let i = choose|i: int| 0 <= i < t.len() && ident_chars.ensures((#[trigger] t[i],), false);
                assert(!ident_ok()(t[i]));
            }
        }
    }
    r
}

fn check_model_name(value: &str, field: &str, max: usize) -> (r: Result<String, AitError>)
    ensures
        matches_check(r, field_check(value@, field@, max as nat, model_name_ok())),
{
    let r = validate_string(value, field, max, model_name_chars);
    proof {
        let t = trim(value@);
        if t.len() > 0 && utf8_len(t) <= max {
            if r is Err {
                let i = choose|i: int| 0 <= i < t.len() && model_name_chars.ensures((#[trigger] t[i],), false);
                assert(!model_name_ok()(t[i]));
            }
        }
    }
    r
}

fn check_upstream_model(value: &str, field: &str, max: usize) -> (r: Result<String, AitError>)
    ensures
        matches_check(r, field_check(value@, field@, max as nat, upstream_model_ok())),
{
    let r = validate_string(value, field, max, upstream_model_chars);
    proof {
        let t = trim(value@);
        if t.len() > 0 && utf8_len(t) <= max {
            if r is Err {
                let i = choose|i: int| 0 <= i < t.len() && upstream_model_chars.ensures((#[trigger] t[i],), false);
                assert(!upstream_model_ok()(t[i]));
            }
        }
    }
    r
}

fn check_uuid(value: &str, field: &str, max: usize) -> (r: Result<String, AitError>)
    ensures
        matches_check(r, field_check(value@, field@, max as nat, uuid_ok())),
{
    let r = validate_string(value, field, max, uuid_chars);
    proof {
        let t = trim(value@);
        if t.len() > 0 && utf8_len(t) <= max {
            if r is Err {
                let i = choose|i: int| 0 <= i < t.len() && uuid_chars.ensures((#[trigger] t[i],), false);
                assert(!uuid_ok()(t[i]));
            }
        }
    }
    r
}

fn check_any(value: &str, field: &str, max: usize) -> (r: Result<String, AitError>)
    ensures
        matches_check(r, field_check(value@, field@, max as nat, any_ok())),
{
    let accept = |c: char| -> (b: bool)
        ensures
            b,
        { true };
    validate_string(value, field, max, accept)
}

} // verus!

verus! {

pub struct CreateModelRequest {
    pub name: String,
    pub provider_id: String,
    pub upstream_model: String,
    pub enabled: bool,
}

pub struct UpdateModelRequest {
    pub provider_id: Option<String>,
    pub upstream_model: Option<String>,
    pub enabled: Option<bool>,
}

/// A model to store, as checked.
#[derive(Debug)]
pub struct NewModel {
    pub name: String,
    pub provider_id: String,
    pub upstream_model: String,
    pub enabled: bool,
}

pub open spec fn name_check(v: Seq<char>) -> Result<Seq<char>, Seq<char>> {
    field_check(v, "name"@, 128, model_name_ok())
}

pub open spec fn provider_id_check(v: Seq<char>) -> Result<Seq<char>, Seq<char>> {
    field_check(v, "provider_id"@, 40, uuid_ok())
}

pub open spec fn upstream_model_check(v: Seq<char>) -> Result<Seq<char>, Seq<char>> {
    field_check(v, "upstream_model"@, 128, upstream_model_ok())
}

/// The first failing check's message, if any.
pub open spec fn first_err3(
    a: Result<Seq<char>, Seq<char>>,
    b: Result<Seq<char>, Seq<char>>,
    c: Result<Seq<char>, Seq<char>>,
) -> Option<Seq<char>> {
    match a {
        Err(m) => Some(m),
        Ok(_) => match b {
            Err(m) => Some(m),
            Ok(_) => match c {
                Err(m) => Some(m),
                Ok(_) => None,
            },
        },
    }
}

/// A 400 with `message`.
pub open spec fn refused<T>(r: Result<T, AitError>, message: Seq<char>) -> bool {
    r matches Err(e) && e.code == 400 && e.message@ == message && e.detail is None
}

/// Check a new model: its name, provider id and upstream model, in order.
pub fn validate_create_model(req: &CreateModelRequest) -> (r: Result<NewModel, AitError>)
    ensures
        match first_err3(name_check(req.name@), provider_id_check(req.provider_id@), upstream_model_check(req.upstream_model@)) {
            Some(m) => refused(r, m),
            None => r matches Ok(m) && Ok::<Seq<char>, Seq<char>>(m.name@) == name_check(req.name@)
                && Ok::<Seq<char>, Seq<char>>(m.provider_id@) == provider_id_check(req.provider_id@)
                && Ok::<Seq<char>, Seq<char>>(m.upstream_model@) == upstream_model_check(req.upstream_model@)
                && m.enabled == req.enabled,
        },
{
    let name = match check_model_name(req.name.as_str(), "name", 128) {
        Ok(n) => n,
        Err(e) => return Err(e),
    };
    let provider_id = match check_uuid(req.provider_id.as_str(), "provider_id", 40) {
        Ok(p) => p,
        Err(e) => return Err(e),
    };
    let upstream_model = match check_upstream_model(req.upstream_model.as_str(), "upstream_model", 128) {
        Ok(u) => u,
        Err(e) => return Err(e),
    };
    Ok(NewModel { name, provider_id, upstream_model, enabled: req.enabled })
}

/// What an optional field's check decides: nothing to check, or the check.
pub open spec fn opt_check(v: Option<String>, check: spec_fn(Seq<char>) -> Result<Seq<char>, Seq<char>>) -> Result<
    Option<Seq<char>>,
    Seq<char>,
> {
    match v {
        None => Ok(None),
        Some(s) => match check(s@) {
            Ok(t) => Ok(Some(t)),
            Err(m) => Err(m),
        },
    }
}

pub open spec fn opt_view(v: Option<String>) -> Option<Seq<char>> {
    match v {
        Some(s) => Some(s@),
        None => None,
    }
}

/// Check a model update: the model's name from the path, then the fields
/// given.
pub fn validate_update_model(name: &str, req: &UpdateModelRequest) -> (r: Result<ModelUpdate, AitError>)
    ensures
        match name_check(name@) {
            Err(m) => refused(r, m),
            Ok(n) => match opt_check(req.provider_id, |s: Seq<char>| provider_id_check(s)) {
                Err(m) => refused(r, m),
                Ok(p) => match opt_check(req.upstream_model, |s: Seq<char>| upstream_model_check(s)) {
                    Err(m) => refused(r, m),
                    Ok(u) => r matches Ok(up) && up.name@ == n && opt_view(up.provider_id) == p
                        && opt_view(up.upstream_model) == u && up.enabled == req.enabled,
                },
            },
        },
{
    let model_name = match check_model_name(name, "name", 128) {
        Ok(n) => n,
        Err(e) => return Err(e),
    };
    let provider_id = match &req.provider_id {
        Some(v) => match check_uuid(v.as_str(), "provider_id", 40) {
            Ok(p) => Some(p),
            Err(e) => return Err(e),
        },
        None => None,
    };
    let upstream_model = match &req.upstream_model {
        Some(v) => match check_upstream_model(v.as_str(), "upstream_model", 128) {
            Ok(u) => Some(u),
            Err(e) => return Err(e),
        },
        None => None,
    };
    Ok(ModelUpdate { name: model_name, provider_id, upstream_model, enabled: req.enabled })
}

} // verus!

verus! {

/// Whether `char::is_alphanumeric` holds of `c` (Unicode `Alphabetic` or
/// `Numeric`).
pub uninterp spec fn alphanumeric(c: char) -> bool;

/// `char::is_alphanumeric`. Its documentation defines it as `Alphabetic` or
/// `Numeric`, which for ASCII are exactly the letters and digits; beyond
/// ASCII the Unicode tables are not restated.
#[verifier::external_body]
fn is_alphanumeric(c: char) -> (r: bool)
    ensures
        r == alphanumeric(c),
        (c as u32) < 128 ==> (r == is_ascii_alnum(c)),
{
    c.is_alphanumeric()
}

/// What `reqwest::Url::parse` makes of a string: its scheme, its host as
/// written in the serialization (if any), its port or the scheme's known
/// default port (if any), and its serialization; `None` when it is no URL.
pub uninterp spec fn url_parse(s: Seq<char>) -> Option<(Seq<char>, Option<Seq<char>>, Option<u16>, Seq<char>)>;

/// A parsed URL, as the checks read it.
#[derive(Debug)]
pub struct ParsedUrl {
    pub scheme: String,
    /// `host_str()`: an IPv6 host comes in brackets.
    pub host: Option<String>,
    /// `port_or_known_default()`.
    pub port: Option<u16>,
    /// The URL as the parser serializes it.
    pub href: String,
}

/// `reqwest::Url::parse(s)`, its scheme, `host_str()`,
/// `port_or_known_default()` and `to_string()`.
#[verifier::external_body]
pub(crate) fn parse_url(s: &str) -> (r: Option<ParsedUrl>)
    ensures
        match r {
            Some(p) => url_parse(s@) == Some((p.scheme@, opt_view(p.host), p.port, p.href@)),
            None => url_parse(s@) is None,
        },
{
    reqwest::Url::parse(s).ok().map(|u| ParsedUrl {
        scheme: u.scheme().to_string(),
        host: u.host_str().map(|h| h.to_string()),
        port: u.port_or_known_default(),
        href: u.to_string(),
    })
}

/// Where requests to a URL go: its host without IPv6 brackets and its port,
/// the scheme's default when none is written and 80 when the scheme has no
/// default. `None` when it is no URL or has no host.
pub fn url_target(url: &str) -> (r: Option<(String, u16)>)
    ensures
        match url_parse(url@) {
            Some((_, Some(h), port, _)) => r matches Some((host, p)) && host@ == bare_host(h)
                && p == (match port { Some(x) => x, None => 80u16 }),
            _ => r is None,
        },
{
    let parsed = match parse_url(url) {
        Some(p) => p,
        None => return None,
    };
    match parsed.host {
        Some(h) => {
            let port = match parsed.port {
                Some(x) => x,
                None => 80,
            };
            Some((strip_brackets(h.as_str()), port))
        },
        None => None,
    }
}

/// The characters a base URL may hold.
pub open spec fn url_char_ok(c: char) -> bool {
    alphanumeric(c) || c == '.' || c == '-' || c == '_' || c == '~' || c == ':' || c == '/'
}

/// The first index from `i` on at which `p` occurs in `s`.
pub open spec fn find_chars(s: Seq<char>, p: Seq<char>, i: int) -> Option<int>
    decreases s.len() - i,
{
    if i < 0 || p.len() == 0 || i + p.len() > s.len() {
        None
    } else if s.subrange(i, i + p.len()) == p {
        Some(i)
    } else {
        find_chars(s, p, i + 1)
    }
}

/// The first index from `i` on of a `/` or `:`.
pub open spec fn host_stop(s: Seq<char>, i: int) -> int
    decreases s.len() - i,
{
    if i < 0 || i >= s.len() {
        s.len() as int
    } else if s[i] == '/' || s[i] == ':' {
        i
    } else {
        host_stop(s, i + 1)
    }
}

/// The host part of a URL as written: after `://` (or from the start) up
/// to the next `/` or `:`.
pub open spec fn written_host(url: Seq<char>) -> Seq<char> {
    let start: int = match find_chars(url, "://"@, 0) {
        Some(i) => i + 3,
        None => 0,
    };
    url.subrange(start, host_stop(url, start))
}

/// A non-empty host made of ASCII digits only.
pub open spec fn numeric_host(h: Seq<char>) -> bool {
    h.len() > 0 && forall|i: int| 0 <= i < h.len() ==> '0' <= #[trigger] h[i] <= '9'
}

/// What `validate_base_url` decides: the parsed URL's serialization, or the
/// message of the first check it fails.
pub open spec fn base_url_check(url: Seq<char>) -> Result<Seq<char>, Seq<char>> {
    if !(forall|i: int| 0 <= i < url.len() ==> url_char_ok(#[trigger] url[i])) {
        Err("base_url contains invalid characters"@)
    } else {
        match url_parse(url) {
            None => Err("base_url is not a valid URL"@),
            Some((scheme, host, _port, href)) => if scheme != "http"@ && scheme != "https"@ {
                Err("base_url must use http:// or https:// scheme"@)
            } else if host is None {
                Err("base_url must include a host"@)
            } else if numeric_host(written_host(url)) {
                Err("base_url host cannot be purely numeric"@)
            } else {
                Ok(href)
            },
        }
    }
}

fn find_scheme_sep(v: &Vec<char>) -> (r: Option<usize>)
    ensures
        match r {
            Some(i) => find_chars(v@, "://"@, 0) == Some(i as int) && i + 3 <= v@.len(),
            None => find_chars(v@, "://"@, 0) is None,
        },
{
    proof { reveal_strlit("://"); }
    let mut i: usize = 0;
    while i < v.len() && v.len() - i >= 3
        invariant
            "://"@ == seq![':', '/', '/'],
            find_chars(v@, "://"@, 0) == find_chars(v@, "://"@, i as int),
        decreases v.len() - i,
    {
        if v[i] == ':' && v[i + 1] == '/' && v[i + 2] == '/' {
            assert(v@.subrange(i as int, i + 3) =~= "://"@);
            return Some(i);
        }
        assert(v@.subrange(i as int, i + 3) != "://"@) by {
            if v@.subrange(i as int, i + 3) == "://"@ {
                assert(v@.subrange(i as int, i + 3)[0] == v@[i as int]);
                assert(v@.subrange(i as int, i + 3)[1] == v@[i + 1]);
                assert(v@.subrange(i as int, i + 3)[2] == v@[i + 2]);
            }
        }
        i = i + 1;
    }
    None
}

/// Check a provider's base URL and return it parsed.
pub fn validate_base_url(url: &str) -> (r: Result<ParsedUrl, AitError>)
    ensures
        match base_url_check(url@) {
            Ok(h) => r matches Ok(p) && p.href@ == h,
            Err(m) => refused(r, m),
        },
{
    let v = chars_of(url);
    let mut i: usize = 0;
    while i < v.len()
        invariant
            i <= v@.len(),
            v@ == url@,
            forall|k: int| 0 <= k < i ==> url_char_ok(#[trigger] v@[k]),
        decreases v.len() - i,
    {
        let c = v[i];
        if !(is_alphanumeric(c) || c == '.' || c == '-' || c == '_' || c == '~' || c == ':' || c == '/') {
            return Err(AitError::bad_request("base_url contains invalid characters"));
        }
        i = i + 1;
    }
    let parsed = match parse_url(url) {
        Some(p) => p,
        None => return Err(AitError::bad_request("base_url is not a valid URL")),
    };
    if !str_eq(parsed.scheme.as_str(), "http") && !str_eq(parsed.scheme.as_str(), "https") {
        return Err(AitError::bad_request("base_url must use http:// or https:// scheme"));
    }
    if parsed.host.is_none() {
        return Err(AitError::bad_request("base_url must include a host"));
    }
    let start = match find_scheme_sep(&v) {
        Some(k) => k + 3,
        None => 0,
    };
    let mut end = start;
    while end < v.len() && v[end] != '/' && v[end] != ':'
        invariant
            start <= end <= v@.len(),
            host_stop(v@, start as int) == host_stop(v@, end as int),
        decreases v.len() - end,
    {
        end = end + 1;
    }
    let mut numeric = end > start;
    let mut k = start;
    while k < end
        invariant
            start <= k <= end <= v@.len(),
            numeric ==> end > start,
            numeric == (end > start && forall|q: int| start <= q < k ==> '0' <= #[trigger] v@[q] <= '9'),
        decreases end - k,
    {
        if !('0' <= v[k] && v[k] <= '9') {
            numeric = false;
        }
        k = k + 1;
    }
    proof {
        let h = written_host(url@);
        assert(h =~= v@.subrange(start as int, end as int));
        if numeric {
            assert forall|q: int| 0 <= q < h.len() implies '0' <= #[trigger] h[q] <= '9' by {
                assert(h[q] == v@[start + q]);
            }
        } else if h.len() > 0 {
            let q = choose|q: int| start <= q < end && !('0' <= #[trigger] v@[q] <= '9');
            assert(h[q - start] == v@[q]);
        }
    }
    if numeric {
        return Err(AitError::bad_request("base_url host cannot be purely numeric"));
    }
    Ok(parsed)
}

} // verus!

verus! {

pub struct CreateProviderRequest {
    pub name: String,
    pub provider_type: ProviderType,
    pub base_url: String,
    pub api_key: Option<String>,
    pub enabled: bool,
}

pub struct UpdateProviderRequest {
    pub name: Option<String>,
    pub provider_type: Option<ProviderType>,
    pub base_url: Option<String>,
    pub api_key: Option<String>,
    pub enabled: Option<bool>,
}

pub open spec fn provider_name_check(v: Seq<char>) -> Result<Seq<char>, Seq<char>> {
    field_check(v, "name"@, 128, ident_ok())
}

/// The base URL check: the trimmed string checks, then the URL checks.
pub open spec fn provider_url_check(v: Seq<char>) -> Result<Seq<char>, Seq<char>> {
    match field_check(v, "base_url"@, 1024, any_ok()) {
        Err(m) => Err(m),
        Ok(t) => base_url_check(t),
    }
}

/// A provider key as given: trimmed; blank means none; over 512 bytes is
/// refused.
pub open spec fn api_key_check(k: Seq<char>) -> Result<Option<Seq<char>>, Seq<char>> {
    let t = trim(k);
    if t.len() == 0 {
        Ok(None)
    } else if utf8_len(t) > 512 {
        Err("api_key must not exceed 512 characters"@)
    } else {
        Ok(Some(t))
    }
}

fn check_provider_url(value: &str) -> (r: Result<ParsedUrl, AitError>)
    ensures
        match provider_url_check(value@) {
            Ok(h) => r matches Ok(p) && p.href@ == h,
            Err(m) => refused(r, m),
        },
{
    let v = match check_any(value, "base_url", 1024) {
        Ok(v) => v,
        Err(e) => return Err(e),
    };
    validate_base_url(v.as_str())
}

fn check_api_key(k: &str) -> (r: Result<Option<String>, AitError>)
    ensures
        match api_key_check(k@) {
            Ok(None) => r matches Ok(None),
            Ok(Some(t)) => r matches Ok(Some(s)) && s@ == t,
            Err(m) => refused(r, m),
        },
{
    let t = trim_string(k);
    if t.as_str().is_empty() {
        return Ok(None);
    }
    let tv = chars_of(t.as_str());
    if utf8_len_exceeds(&tv, 512) {
        return Err(AitError::bad_request("api_key must not exceed 512 characters"));
    }
    Ok(Some(t))
}

/// The checks of a new provider made before its URL is resolved: its name,
/// then its base URL. Returns the trimmed name and the parsed URL.
pub fn validate_create_provider(req: &CreateProviderRequest) -> (r: Result<(String, ParsedUrl), AitError>)
    ensures
        match provider_name_check(req.name@) {
            Err(m) => refused(r, m),
            Ok(n) => match provider_url_check(req.base_url@) {
                Err(m) => refused(r, m),
                Ok(h) => r matches Ok((name, url)) && name@ == n && url.href@ == h,
            },
        },
{
    let name = match check_ident(req.name.as_str(), "name", 128) {
        Ok(n) => n,
        Err(e) => return Err(e),
    };
    match check_provider_url(req.base_url.as_str()) {
        Ok(u) => Ok((name, u)),
        Err(e) => Err(e),
    }
}

/// The key of a new provider, checked once its URL is cleared: a blank key
/// is no key.
pub fn new_provider_api_key(api_key: &Option<String>) -> (r: Result<Option<String>, AitError>)
    ensures
        match *api_key {
            None => r matches Ok(None),
            Some(k) => match api_key_check(k@) {
                Ok(None) => r matches Ok(None),
                Ok(Some(t)) => r matches Ok(Some(s)) && s@ == t,
                Err(m) => refused(r, m),
            },
        },
{
    match api_key {
        Some(k) => check_api_key(k.as_str()),
        None => Ok(None),
    }
}

/// Check a provider update: name, base URL and key, in that order; a blank
/// key clears the stored one. Returns the update and the parsed URL.
pub fn validate_update_provider(id: &str, req: &UpdateProviderRequest) -> (r: Result<
    (ProviderUpdate, Option<ParsedUrl>),
    AitError,
>)
    ensures
        match opt_check(req.name, |s: Seq<char>| provider_name_check(s)) {
            Err(m) => refused(r, m),
            Ok(n) => match opt_check(req.base_url, |s: Seq<char>| provider_url_check(s)) {
                Err(m) => refused(r, m),
                Ok(h) => match req.api_key {
                    Some(k) if api_key_check(k@) is Err => refused(r, api_key_check(k@)->Err_0),
                    _ => r matches Ok((up, url)) && up.id@ == id@ && opt_view(up.name) == n
                        && opt_view(up.base_url) == h
                        && (url matches Some(p) ==> h == Some(p.href@)) && (url is None <==> h is None)
                        && up.provider_type == req.provider_type && up.enabled == req.enabled
                        && opt_view(up.api_key) == (match req.api_key {
                            None => None::<Seq<char>>,
                            Some(k) => match api_key_check(k@) {
                                Ok(Some(t)) => Some(t),
                                _ => Some(Seq::<char>::empty()),
                            },
                        }),
                },
            },
        },
{
    let name = match &req.name {
        Some(n) => match check_ident(n.as_str(), "name", 128) {
            Ok(v) => Some(v),
            Err(e) => return Err(e),
        },
        None => None,
    };
    let url = match &req.base_url {
        Some(u) => match check_provider_url(u.as_str()) {
            Ok(p) => Some(p),
            Err(e) => return Err(e),
        },
        None => None,
    };
    let api_key = match &req.api_key {
        Some(k) => match check_api_key(k.as_str()) {
            Ok(Some(t)) => Some(t),
            Ok(None) => Some(String::new()),
            Err(e) => return Err(e),
        },
        None => None,
    };
    let base_url = match &url {
        Some(p) => Some(p.href.clone()),
        None => None,
    };
    Ok((
        ProviderUpdate {
            id: id.to_string(),
            name,
            provider_type: req.provider_type,
            base_url,
            api_key,
            enabled: req.enabled,
        },
        url,
    ))
}

pub struct CreateApiKeyRequest {
    pub name: String,
    pub expires_at: Option<i64>,
}

pub struct UpdateApiKeyRequest {
    pub name: Option<String>,
    pub expires_at: Option<i64>,
    pub enabled: Option<bool>,
}

/// A new key's expiry: `0` means none; a time chrono cannot represent is
/// refused.
pub open spec fn new_expiry_check(ts: Option<i64>) -> Result<Option<i64>, Seq<char>> {
    match ts {
        None => Ok(None),
        Some(t) => if t == 0 {
            Ok(None)
        } else if timestamp_valid(t) {
            Ok(Some(t))
        } else {
            Err("Invalid expires_at"@)
        },
    }
}

/// Check a new API key: its expiry, then its name.
pub fn validate_create_api_key(req: &CreateApiKeyRequest) -> (r: Result<(String, Option<i64>), AitError>)
    ensures
        match new_expiry_check(req.expires_at) {
            Err(m) => refused(r, m),
            Ok(x) => match provider_name_check(req.name@) {
                Err(m) => refused(r, m),
                Ok(n) => r matches Ok((name, e)) && name@ == n && e == x,
            },
        },
{
    let expires = match req.expires_at {
        Some(t) => if t == 0 {
            None
        } else if is_valid_timestamp(t) {
            Some(t)
        } else {
            return Err(AitError::bad_request("Invalid expires_at"));
        },
        None => None,
    };
    match check_ident(req.name.as_str(), "name", 128) {
        Ok(n) => Ok((n, expires)),
        Err(e) => Err(e),
    }
}

/// An updated key's name: blank leaves it unchanged.
pub open spec fn key_rename_check(name: Option<String>) -> Result<Option<Seq<char>>, Seq<char>> {
    match name {
        None => Ok(None),
        Some(n) => if trim(n@).len() == 0 {
            Ok(None)
        } else {
            match provider_name_check(trim(n@)) {
                Ok(t) => Ok(Some(t)),
                Err(m) => Err(m),
            }
        },
    }
}

/// An updated key's expiry: `0` clears it; a time chrono cannot represent
/// is refused.
pub open spec fn expiry_update_check(ts: Option<i64>) -> Result<Option<i64>, Seq<char>> {
    match ts {
        None => Ok(None),
        Some(t) => if t == 0 || timestamp_valid(t) {
            Ok(Some(t))
        } else {
            Err("Invalid expires_at"@)
        },
    }
}

/// Check an API key update: its name, then its expiry.
pub fn validate_update_api_key(id: &str, req: &UpdateApiKeyRequest) -> (r: Result<ApiKeyUpdate, AitError>)
    ensures
        match key_rename_check(req.name) {
            Err(m) => refused(r, m),
            Ok(n) => match expiry_update_check(req.expires_at) {
                Err(m) => refused(r, m),
                Ok(x) => r matches Ok(up) && up.id@ == id@ && opt_view(up.name) == n && up.expires_at == x
                    && up.enabled == req.enabled,
            },
        },
{
    let name = match &req.name {
        Some(n) => {
            let t = trim_string(n.as_str());
            if t.as_str().is_empty() {
                None
            } else {
                match check_ident(t.as_str(), "name", 128) {
                    Ok(v) => Some(v),
                    Err(e) => return Err(e),
                }
            }
        },
        None => None,
    };
    let expires_at = match req.expires_at {
        Some(t) => if t == 0 || is_valid_timestamp(t) {
            Some(t)
        } else {
            return Err(AitError::bad_request("Invalid expires_at"));
        },
        None => None,
    };
    Ok(ApiKeyUpdate { id: id.to_string(), name, enabled: req.enabled, expires_at })
}

} // verus!
