//! The labels and settings of log shipping to Loki.
use vstd::prelude::*;

use crate::admin::{parse_url, url_parse};
use crate::config::LokiConfig;
use crate::handlers::is_ascii_alnum;
use crate::providers::{trim_slashes, upstream_url};
use crate::text::{chars_of, str_eq};

verus! {

pub open spec fn is_ascii_alpha(c: char) -> bool {
    ||| 'a' <= c <= 'z'
    ||| 'A' <= c <= 'Z'
}

/// A Loki label name: `[a-zA-Z_][a-zA-Z0-9_]*`.
pub open spec fn label_name_ok(s: Seq<char>) -> bool {
    &&& s.len() > 0
    &&& (is_ascii_alpha(s[0]) || s[0] == '_')
    &&& forall|i: int| 0 <= i < s.len() ==> is_ascii_alnum(#[trigger] s[i]) || s[i] == '_'
}

pub fn is_valid_label_name(name: &str) -> (r: bool)
    ensures
        r == label_name_ok(name@),
{
    let v = chars_of(name);
    if v.len() == 0 {
        return false;
    }
    let c0 = v[0];
    if !(('a' <= c0 && c0 <= 'z') || ('A' <= c0 && c0 <= 'Z') || c0 == '_') {
        return false;
    }
    let mut i: usize = 0;
    while i < v.len()
        invariant
            i <= v@.len(),
            v@ == name@,
            forall|k: int| 0 <= k < i ==> is_ascii_alnum(#[trigger] v@[k]) || v@[k] == '_',
        decreases v.len() - i,
    {
        let c = v[i];
        if !(('a' <= c && c <= 'z') || ('A' <= c && c <= 'Z') || ('0' <= c && c <= '9') || c == '_') {
            return false;
        }
        i = i + 1;
    }
    true
}

/// Label pairs as character sequences.
pub open spec fn label_views(s: Seq<(String, String)>) -> Seq<(Seq<char>, Seq<char>)> {
    s.map_values(|p: (String, String)| (p.0@, p.1@))
}

/// The static labels whose names Loki accepts, in order.
pub open spec fn sane_labels(raw: Seq<(Seq<char>, Seq<char>)>) -> Seq<(Seq<char>, Seq<char>)> {
    raw.filter(|p: (Seq<char>, Seq<char>)| label_name_ok(p.0))
}

/// Keep the static labels with valid names; the others are dropped.
pub fn sanitize_static_labels(raw: &Vec<(String, String)>) -> (r: Vec<(String, String)>)
    ensures
        label_views(r@) == sane_labels(label_views(raw@)),
{
    let mut out: Vec<(String, String)> = Vec::new();
    let mut i: usize = 0;
    while i < raw.len()
        invariant
            i <= raw@.len(),
            label_views(out@) == sane_labels(label_views(raw@.take(i as int))),
        decreases raw.len() - i,
    {
        proof {
            reveal_with_fuel(Seq::<_>::filter, 1);
            assert(label_views(raw@.take(i + 1)).drop_last() =~= label_views(raw@.take(i as int)));
            assert(label_views(raw@.take(i + 1)).last() == (raw@[i as int].0@, raw@[i as int].1@));
        }
        let ghost prev = out@;
        if is_valid_label_name(raw[i].0.as_str()) {
            let k = raw[i].0.clone();
            let v = raw[i].1.clone();
            out.push((k, v));
            assert(label_views(out@) =~= label_views(prev).push((raw@[i as int].0@, raw@[i as int].1@)));
        }
        i = i + 1;
    }
    assert(raw@.take(raw.len() as int) =~= raw@);
    out
}

} // verus!

verus! {

/// Label pairs with distinct names.
pub open spec fn distinct_names(s: Seq<(Seq<char>, Seq<char>)>) -> bool {
    forall|i: int, j: int| 0 <= i < j < s.len() ==> (#[trigger] s[i]).0 != (#[trigger] s[j]).0
}

/// The label set a list of distinct-named pairs stands for.
pub open spec fn label_map(s: Seq<(Seq<char>, Seq<char>)>) -> Map<Seq<char>, Seq<char>>
    decreases s.len(),
{
    if s.len() == 0 {
        Map::empty()
    } else {
        label_map(s.drop_last()).insert(s.last().0, s.last().1)
    }
}

proof fn lemma_label_map_update(s: Seq<(Seq<char>, Seq<char>)>, i: int, v: Seq<char>)
    requires
        distinct_names(s),
        0 <= i < s.len(),
    ensures
        label_map(s.update(i, (s[i].0, v))) == label_map(s).insert(s[i].0, v),
        distinct_names(s.update(i, (s[i].0, v))),
    decreases s.len(),
{
    let t = s.update(i, (s[i].0, v));
    if i == s.len() - 1 {
        assert(t.drop_last() =~= s.drop_last());
        assert(label_map(t) =~= label_map(s).insert(s[i].0, v));
    } else {
        assert(t.drop_last() =~= s.drop_last().update(i, (s[i].0, v)));
        lemma_label_map_update(s.drop_last(), i, v);
        assert(s.last().0 != s[i].0);
        assert(label_map(t) =~= label_map(s).insert(s[i].0, v));
    }
    assert forall|a: int, b: int| 0 <= a < b < t.len() implies (#[trigger] t[a]).0 != (#[trigger] t[b]).0 by {
        assert(s[a].0 != s[b].0);
    }
}

/// Set label `name` to `value`: in place when present, else appended.
fn set_label(labels: &mut Vec<(String, String)>, name: &str, value: String)
    requires
        distinct_names(label_views(old(labels)@)),
    ensures
        distinct_names(label_views(final(labels)@)),
        label_map(label_views(final(labels)@)) == label_map(label_views(old(labels)@)).insert(name@, value@),
{
    let ghost s = label_views(labels@);
    let mut i: usize = 0;
    while i < labels.len()
        invariant
            i <= labels@.len(),
            s == label_views(labels@),
            s == label_views(old(labels)@),
            distinct_names(s),
            forall|k: int| 0 <= k < i ==> (#[trigger] s[k]).0 != name@,
        decreases labels.len() - i,
    {
        if str_eq(labels[i].0.as_str(), name) {
            let k = labels[i].0.clone();
            labels.set(i, (k, value));
            proof {
                lemma_label_map_update(s, i as int, value@);
                assert(label_views(labels@) =~= s.update(i as int, (s[i as int].0, value@)));
            }
            return;
        }
        i = i + 1;
    }
    let n = name.to_string();
    labels.push((n, value));
    proof {
        assert(label_views(labels@) =~= s.push((name@, value@)));
        assert(label_views(labels@).drop_last() =~= s);
        let t = label_views(labels@);
        assert forall|a: int, b: int| 0 <= a < b < t.len() implies (#[trigger] t[a]).0 != (#[trigger] t[b]).0 by {
            if b < s.len() {
                assert(t[a] == s[a] && t[b] == s[b]);
            } else {
                assert(t[a] == s[a]);
            }
        }
    }
}

/// The event fields that become stream labels. Only low-cardinality fields
/// are labels; the rest stays in the log line.
pub enum LabelSource {
    Access { method: String },
    Proxy { model_name: String, status: String, is_streaming: bool },
    Audit { action: String, resource: String },
}

/// `bool::to_string`.
pub open spec fn bool_text(b: bool) -> Seq<char> {
    if b { "true"@ } else { "false"@ }
}

/// The labels of an event's stream: the static labels, then its kind and
/// low-cardinality fields.
pub open spec fn event_labels(event: LabelSource, static_labels: Map<Seq<char>, Seq<char>>) -> Map<Seq<char>, Seq<char>> {
    match event {
        LabelSource::Access { method } => static_labels.insert("event_type"@, "access"@).insert("method"@, method@),
        LabelSource::Proxy { model_name, status, is_streaming } => static_labels.insert("event_type"@, "proxy"@)
            .insert("model_name"@, model_name@).insert("status"@, status@)
            .insert("is_streaming"@, bool_text(is_streaming)),
        LabelSource::Audit { action, resource } => static_labels.insert("event_type"@, "audit"@)
            .insert("action"@, action@).insert("resource"@, resource@),
    }
}

/// The label set of an event's stream, one pair per name.
pub fn event_to_labels(event: &LabelSource, static_labels: &Vec<(String, String)>) -> (r: Vec<(String, String)>)
    requires
        distinct_names(label_views(static_labels@)),
    ensures
        distinct_names(label_views(r@)),
        label_map(label_views(r@)) == event_labels(*event, label_map(label_views(static_labels@))),
{
    let mut labels: Vec<(String, String)> = Vec::new();
    let mut i: usize = 0;
    while i < static_labels.len()
        invariant
            i <= static_labels@.len(),
            distinct_names(label_views(static_labels@)),
            label_views(labels@) == label_views(static_labels@).take(i as int),
        decreases static_labels.len() - i,
    {
        let ghost prev = labels@;
        let k = static_labels[i].0.clone();
        let v = static_labels[i].1.clone();
        labels.push((k, v));
        assert(label_views(labels@) =~= label_views(prev).push((static_labels@[i as int].0@, static_labels@[i as int].1@)));
        assert(label_views(static_labels@).take(i + 1) =~= label_views(static_labels@).take(i as int).push(
            (static_labels@[i as int].0@, static_labels@[i as int].1@),
        ));
        i = i + 1;
    }
    assert(label_views(static_labels@).take(i as int) =~= label_views(static_labels@));
    match event {
        LabelSource::Access { method } => {
            set_label(&mut labels, "event_type", "access".to_string());
            set_label(&mut labels, "method", method.clone());
        },
        LabelSource::Proxy { model_name, status, is_streaming } => {
            set_label(&mut labels, "event_type", "proxy".to_string());
            set_label(&mut labels, "model_name", model_name.clone());
            set_label(&mut labels, "status", status.clone());
            let s = if *is_streaming { "true".to_string() } else { "false".to_string() };
            set_label(&mut labels, "is_streaming", s);
        },
        LabelSource::Audit { action, resource } => {
            set_label(&mut labels, "event_type", "audit".to_string());
            set_label(&mut labels, "action", action.clone());
            set_label(&mut labels, "resource", resource.clone());
        },
    }
    labels
}

} // verus!

verus! {

/// Why Loki shipping could not start.
#[derive(Debug)]
pub enum LokiInitError {
    /// The push URL is not an http(s) URL.
    InvalidUrl(String),
    /// Only one of the basic-auth user and password is set.
    IncompleteBasicAuth,
}

/// How the shipping worker runs.
pub struct LokiSettings {
    pub push_url: String,
    pub static_labels: Vec<(String, String)>,
    pub basic_auth_user: Option<String>,
    pub basic_auth_password: Option<String>,
    pub bearer_token: Option<String>,
    /// At least one event per push.
    pub batch_size: u64,
    /// At least one second between pushes.
    pub interval_secs: u64,
    pub timeout_secs: u64,
}

/// The push endpoint under a Loki base URL.
pub open spec fn push_url_of(url: Seq<char>) -> Seq<char> {
    trim_slashes(url) + "/loki/api/v1/push"@
}

/// Whether a URL parses with an http or https scheme.
pub open spec fn http_url(url: Seq<char>) -> bool {
    url_parse(url) matches Some((scheme, _h, _p, _s)) && (scheme == "http"@ || scheme == "https"@)
}

/// The settings of the shipping worker: the push URL must be http(s), and
/// basic auth needs both its user and its password.
pub fn loki_settings(config: &LokiConfig) -> (r: Result<LokiSettings, LokiInitError>)
    ensures
        !http_url(push_url_of(config.url@)) ==> (r matches Err(LokiInitError::InvalidUrl(u)) && u@ == push_url_of(config.url@)),
        http_url(push_url_of(config.url@)) && (config.basic_auth_user is Some != config.basic_auth_password is Some)
            ==> r matches Err(LokiInitError::IncompleteBasicAuth),
        http_url(push_url_of(config.url@)) && (config.basic_auth_user is Some == config.basic_auth_password is Some)
            ==> (r matches Ok(s) && {
            &&& s.push_url@ == push_url_of(config.url@)
            &&& label_views(s.static_labels@) == sane_labels(label_views(config.labels@))
            &&& s.basic_auth_user == config.basic_auth_user
            &&& s.basic_auth_password == config.basic_auth_password
            &&& s.bearer_token == config.bearer_token
            &&& s.batch_size == (if config.batch_size < 1 { 1 } else { config.batch_size })
            &&& s.interval_secs == (if config.interval_secs < 1 { 1 } else { config.interval_secs })
            &&& s.timeout_secs == config.timeout_secs
        }),
{
    let push_url = upstream_url(config.url.as_str(), "/loki/api/v1/push");
    let ok = match parse_url(push_url.as_str()) {
        Some(u) => str_eq(u.scheme.as_str(), "http") || str_eq(u.scheme.as_str(), "https"),
        None => false,
    };
    if !ok {
        return Err(LokiInitError::InvalidUrl(push_url));
    }
    if config.basic_auth_user.is_some() != config.basic_auth_password.is_some() {
        return Err(LokiInitError::IncompleteBasicAuth);
    }
    Ok(LokiSettings {
        push_url,
        static_labels: sanitize_static_labels(&config.labels),
        basic_auth_user: config.basic_auth_user.clone(),
        basic_auth_password: config.basic_auth_password.clone(),
        bearer_token: config.bearer_token.clone(),
        batch_size: if config.batch_size < 1 { 1 } else { config.batch_size },
        interval_secs: if config.interval_secs < 1 { 1 } else { config.interval_secs },
        timeout_secs: config.timeout_secs,
    })
}

} // verus!
