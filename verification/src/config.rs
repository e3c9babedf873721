//! Settings, and the checks that reject unusable ones at startup.
use vstd::prelude::*;

use crate::ip::{ip_of, parse_ip, IpAddr};
use crate::ssrf::{find_char, first_index, ip_in_prefix, parse_u8, spec_ip_in_prefix, u8_of};
use crate::text::{chars_of, concat, decimal, decimal_string, str_eq, string_of_range};

verus! {

/// A trusted reverse proxy: an exact address or a CIDR block.
#[derive(Clone, Copy, Debug, PartialEq, Eq, Structural)]
pub enum TrustedProxy {
    Ip(IpAddr),
    Cidr(IpAddr, u8),
}

/// `'entry'`, as error messages quote an entry.
pub open spec fn quoted(entry: Seq<char>) -> Seq<char> {
    "'"@ + entry + "'"@
}

pub open spec fn family_width(a: IpAddr) -> nat {
    if a is V4 { 32 } else { 128 }
}

/// What `TrustedProxy::parse` gives for `entry`: an address, or an address and
/// a prefix length no wider than the address's family, or the message naming
/// the fault.
pub open spec fn trusted_proxy_of(entry: Seq<char>) -> Result<TrustedProxy, Seq<char>> {
    match first_index(entry, '/', 0) {
        None => match ip_of(entry) {
            Some(a) => Ok(TrustedProxy::Ip(a)),
            None => Err(quoted(entry) + " is not an IP address or CIDR block"@),
        },
        Some(k) => match ip_of(entry.subrange(0, k)) {
            None => Err(quoted(entry) + " is not an IP address or CIDR block"@),
            Some(a) => match u8_of(entry.subrange(k + 1, entry.len() as int)) {
                None => Err(quoted(entry) + " has a prefix that is not a number"@),
                Some(l) => if l > family_width(a) {
                    Err(quoted(entry) + " prefix must be <= "@ + decimal(family_width(a)))
                } else {
                    Ok(TrustedProxy::Cidr(a, l as u8))
                },
            },
        },
    }
}

/// The prefix and length a trusted-proxy entry matches with.
pub open spec fn proxy_block(t: TrustedProxy) -> (IpAddr, nat) {
    match t {
        TrustedProxy::Ip(a) => (a, family_width(a)),
        TrustedProxy::Cidr(a, l) => (a, l as nat),
    }
}

fn quote(entry: &str) -> (r: String)
    ensures
        r@ == quoted(entry@),
{
    let a = concat("'", entry);
    concat(a.as_str(), "'")
}

impl TrustedProxy {
    /// Parse `addr` or `addr/prefix`.
    pub fn parse(entry: &str) -> (r: Result<Self, String>)
        ensures
            match r {
                Ok(t) => trusted_proxy_of(entry@) == Ok::<TrustedProxy, Seq<char>>(t),
                Err(m) => trusted_proxy_of(entry@) == Err::<TrustedProxy, Seq<char>>(m@),
            },
    {
        let v = chars_of(entry);
        let n = v.len();
        match find_char(&v, '/') {
            None => match parse_ip(entry) {
                Some(a) => Ok(TrustedProxy::Ip(a)),
                None => {
                    let q = quote(entry);
                    Err(concat(q.as_str(), " is not an IP address or CIDR block"))
                },
            },
            Some(k) => {
                let addr_s = string_of_range(&v, 0, k);
                match parse_ip(addr_s.as_str()) {
                    None => {
                        let q = quote(entry);
                        Err(concat(q.as_str(), " is not an IP address or CIDR block"))
                    },
                    Some(a) => {
                        let family_max: u8 = match a {
                            IpAddr::V4(_) => 32,
                            IpAddr::V6(_) => 128,
                        };
                        match parse_u8(&v, k + 1, n) {
                            None => {
                                let q = quote(entry);
                                Err(concat(q.as_str(), " has a prefix that is not a number"))
                            },
                            Some(l) => {
                                if l > family_max {
                                    let q = quote(entry);
                                    let m = concat(q.as_str(), " prefix must be <= ");
                                    Err(concat(m.as_str(), decimal_string(family_max as u64).as_str()))
                                } else {
                                    Ok(TrustedProxy::Cidr(a, l))
                                }
                            },
                        }
                    },
                }
            },
        }
    }

    /// Whether `ip` comes from this proxy.
    pub fn contains(&self, ip: IpAddr) -> (b: bool)
        ensures
            b == spec_ip_in_prefix(ip, proxy_block(*self).0, proxy_block(*self).1),
    {
        match *self {
            TrustedProxy::Ip(addr) => {
                let len: u8 = match addr {
                    IpAddr::V4(_) => 32,
                    IpAddr::V6(_) => 128,
                };
                ip_in_prefix(&ip, &addr, len)
            },
            TrustedProxy::Cidr(addr, len) => ip_in_prefix(&ip, &addr, len),
        }
    }
}

} // verus!

verus! {

pub struct ServerConfig {
    pub host: String,
    pub port: u16,
    pub health_detail: bool,
    pub cache_cleanup_interval_secs: u64,
    pub cache_max_entries: u64,
    pub graceful_timeout_secs: u64,
    /// Reverse proxies allowed to set `X-Forwarded-For` / `Remote-User`.
    pub trusted_proxies: Vec<TrustedProxy>,
    /// Number of trusted reverse proxies in front of the gateway; `0` ignores
    /// `X-Forwarded-For` entirely.
    pub trusted_proxy_hops: usize,
}

pub struct AuthConfig {
    pub enabled: bool,
}

pub struct DatabaseConfig {
    pub path: String,
    /// Read-only connections opened alongside the single writer.
    pub reader_pool_size: usize,
}

pub struct LokiConfig {
    pub enabled: bool,
    pub url: String,
    /// Static stream labels, each name once.
    pub labels: Vec<(String, String)>,
    pub batch_size: u64,
    pub interval_secs: u64,
    pub timeout_secs: u64,
    pub basic_auth_user: Option<String>,
    pub basic_auth_password: Option<String>,
    pub bearer_token: Option<String>,
}

pub struct LogConfig {
    pub path: String,
    pub retention_days: u64,
    pub flush_interval_secs: u64,
    pub flush_batch: u64,
    pub channel_cap: u64,
    pub retention_every: u64,
    pub level: String,
    pub axum: String,
    pub tower_http_trace: String,
    pub analytics_timeout_secs: u64,
    pub analytics_workers: usize,
    pub duckdb_memory_limit_mb: u64,
    pub duckdb_threads: u64,
    pub loki: LokiConfig,
}

pub struct ProxyConfig {
    pub timeout_secs: u64,
    pub stream: bool,
    pub sse_idle_timeout_secs: u64,
    pub sse_max_duration_secs: u64,
    pub connect_timeout_secs: u64,
    pub max_response_body_bytes: u64,
    pub max_request_body_bytes: u64,
    /// Divisor of the prompt-token estimate; must be 1 to 5.
    pub prompt_token_divisor: u64,
}

pub struct DlpConfig {
    pub enabled: bool,
    pub sensitive_values: Vec<String>,
    pub scan_numbers: bool,
}

pub struct SecurityConfig {
    pub ssrf_allowed_cidrs: Vec<String>,
    pub cors_allowed_origins: Vec<String>,
    pub cors_allow_credentials: bool,
    pub dlp: DlpConfig,
}

pub struct ConfigApp {
    pub server: ServerConfig,
    pub auth: AuthConfig,
    pub database: DatabaseConfig,
    pub log: LogConfig,
    pub proxy: ProxyConfig,
    pub security: SecurityConfig,
}

pub fn default_loki_labels() -> (r: Vec<(String, String)>)
    ensures
        r.len() == 1,
        r[0].0@ == "app"@,
        r[0].1@ == "ait"@,
{
    let mut m = Vec::new();
    m.push(("app".to_string(), "ait".to_string()));
    m
}

pub fn default_loki_batch() -> (r: u64)
    ensures
        r == 100,
{
    100
}

pub fn default_loki_interval() -> (r: u64)
    ensures
        r == 5,
{
    5
}

pub fn default_loki_timeout() -> (r: u64)
    ensures
        r == 5,
{
    5
}

impl LokiConfig {
    /// Loki shipping switched off, with the default labels and batching.
    pub fn default() -> (r: Self)
        ensures
            !r.enabled,
            r.url@.len() == 0,
            r.labels.len() == 1,
            r.labels[0].0@ == "app"@,
            r.labels[0].1@ == "ait"@,
            r.batch_size == 100,
            r.interval_secs == 5,
            r.timeout_secs == 5,
            r.basic_auth_user is None,
            r.basic_auth_password is None,
            r.bearer_token is None,
    {
        LokiConfig {
            enabled: false,
            url: String::new(),
            labels: default_loki_labels(),
            batch_size: default_loki_batch(),
            interval_secs: default_loki_interval(),
            timeout_secs: default_loki_timeout(),
            basic_auth_user: None,
            basic_auth_password: None,
            bearer_token: None,
        }
    }
}

/// Upper bound for `log.retention_days`: 100 years.
pub const MAX_RETENTION_DAYS: u64 = 36500;

/// Reject a duration of zero seconds under the name `key`.
pub fn require_positive_secs(secs: u64, key: &str) -> (r: Result<(), String>)
    ensures
        secs == 0 ==> (r matches Err(m) && m@ == key@ + " must be >= 1"@),
        secs != 0 ==> r is Ok,
{
    if secs == 0 {
        return Err(concat(key, " must be >= 1"));
    }
    Ok(())
}

/// Whether `"*"` is among the origins.
pub open spec fn has_wildcard(origins: Seq<String>) -> bool {
    exists|i: int| 0 <= i < origins.len() && (#[trigger] origins[i])@ == "*"@
}

/// The first rule `app` breaks, as the message startup fails with; `None`
/// when the settings are usable.
pub open spec fn config_fault(app: ConfigApp) -> Option<Seq<char>> {
    if app.log.retention_every == 0 {
        Some("log.retention_every must be >= 1 (0 crashes the log worker)"@)
    } else if !(1 <= app.proxy.prompt_token_divisor <= 5) {
        Some("proxy.prompt_token_divisor must be between 1 and 5"@)
    } else if app.server.cache_cleanup_interval_secs == 0 {
        Some("server.cache_cleanup_interval_secs"@ + " must be >= 1"@)
    } else if app.log.flush_interval_secs == 0 {
        Some("log.flush_interval_secs"@ + " must be >= 1"@)
    } else if app.proxy.timeout_secs == 0 {
        Some("proxy.timeout_secs"@ + " must be >= 1"@)
    } else if app.proxy.sse_idle_timeout_secs == 0 {
        Some("proxy.sse_idle_timeout_secs"@ + " must be >= 1"@)
    } else if app.proxy.connect_timeout_secs == 0 {
        Some("proxy.connect_timeout_secs"@ + " must be >= 1"@)
    } else if app.log.channel_cap == 0 {
        Some("log.channel_cap must be >= 1"@)
    } else if !(1 <= app.database.reader_pool_size <= 32) {
        Some("database.reader_pool_size must be between 1 and 32"@)
    } else if !(1 <= app.log.analytics_workers <= 8) {
        Some("log.analytics_workers must be between 1 and 8"@)
    } else if app.log.duckdb_memory_limit_mb == 0 {
        Some("log.duckdb_memory_limit_mb must be >= 1"@)
    } else if app.log.duckdb_threads == 0 {
        Some("log.duckdb_threads"@ + " must be >= 1"@)
    } else if app.log.retention_days > MAX_RETENTION_DAYS {
        Some("log.retention_days must be <= 36500"@)
    } else if app.log.analytics_timeout_secs == 0 {
        Some("log.analytics_timeout_secs must be >= 1"@)
    } else if app.security.cors_allow_credentials && has_wildcard(
        app.security.cors_allowed_origins@,
    ) {
        Some(
            "security.cors_allowed_origins = [\"*\"] cannot be combined with security.cors_allow_credentials = true: it reflects any Origin while allowing credentials. List explicit origins instead."@,
        )
    } else {
        None
    }
}

fn any_wildcard(origins: &Vec<String>) -> (b: bool)
    ensures
        b == has_wildcard(origins@),
{
    let mut i: usize = 0;
    while i < origins.len()
        invariant
            i <= origins.len(),
            forall|k: int| 0 <= k < i ==> (#[trigger] origins@[k])@ != "*"@,
        decreases origins.len() - i,
    {
        if str_eq(origins[i].as_str(), "*") {
            return true;
        }
        i = i + 1;
    }
    false
}

impl ConfigApp {
    /// Accept the loaded settings, or name the first rule they break.
    pub fn validate(self) -> (r: Result<ConfigApp, String>)
        ensures
            match r {
                Ok(app) => app == self && config_fault(self) is None,
                Err(m) => config_fault(self) == Some(m@),
            },
    {
        if self.log.retention_every == 0 {
            return Err("log.retention_every must be >= 1 (0 crashes the log worker)".to_string());
        }
        if !(1 <= self.proxy.prompt_token_divisor && self.proxy.prompt_token_divisor <= 5) {
            return Err("proxy.prompt_token_divisor must be between 1 and 5".to_string());
        }
        if let Err(m) = require_positive_secs(
            self.server.cache_cleanup_interval_secs,
            "server.cache_cleanup_interval_secs",
        ) {
            return Err(m);
        }
        if let Err(m) = require_positive_secs(self.log.flush_interval_secs, "log.flush_interval_secs") {
            return Err(m);
        }
        if let Err(m) = require_positive_secs(self.proxy.timeout_secs, "proxy.timeout_secs") {
            return Err(m);
        }
        if let Err(m) = require_positive_secs(
            self.proxy.sse_idle_timeout_secs,
            "proxy.sse_idle_timeout_secs",
        ) {
            return Err(m);
        }
        if let Err(m) = require_positive_secs(
            self.proxy.connect_timeout_secs,
            "proxy.connect_timeout_secs",
        ) {
            return Err(m);
        }
        if self.log.channel_cap == 0 {
            return Err("log.channel_cap must be >= 1".to_string());
        }
        if !(1 <= self.database.reader_pool_size && self.database.reader_pool_size <= 32) {
            return Err("database.reader_pool_size must be between 1 and 32".to_string());
        }
        if !(1 <= self.log.analytics_workers && self.log.analytics_workers <= 8) {
            return Err("log.analytics_workers must be between 1 and 8".to_string());
        }
        if self.log.duckdb_memory_limit_mb == 0 {
            return Err("log.duckdb_memory_limit_mb must be >= 1".to_string());
        }
        if let Err(m) = require_positive_secs(self.log.duckdb_threads, "log.duckdb_threads") {
            return Err(m);
        }
        if self.log.retention_days > MAX_RETENTION_DAYS {
            return Err("log.retention_days must be <= 36500".to_string());
        }
        if self.log.analytics_timeout_secs == 0 {
            return Err("log.analytics_timeout_secs must be >= 1".to_string());
        }
        if self.security.cors_allow_credentials && any_wildcard(&self.security.cors_allowed_origins) {
            return Err(
                "security.cors_allowed_origins = [\"*\"] cannot be combined with security.cors_allow_credentials = true: it reflects any Origin while allowing credentials. List explicit origins instead.".to_string(),
            );
        }
        Ok(self)
    }
}

} // verus!

verus! {

/// The settings used where neither the file nor the environment sets one.
pub open spec fn is_default_config(c: ConfigApp) -> bool {
    &&& c.server.host@ == "127.0.0.1"@
    &&& c.server.port == 8000
    &&& !c.server.health_detail
    &&& c.server.cache_cleanup_interval_secs == 300
    &&& c.server.cache_max_entries == 1000
    &&& c.server.graceful_timeout_secs == 10
    &&& c.server.trusted_proxies@ == seq![TrustedProxy::Ip(IpAddr::V4(0x7f000001)), TrustedProxy::Ip(IpAddr::V6(1))]
    &&& c.server.trusted_proxy_hops == 1
    &&& c.auth.enabled
    &&& c.database.path@ == "./data/ait.db"@
    &&& c.database.reader_pool_size == 4
    &&& c.log.path@ == "./data/ait-logs.duckdb"@
    &&& c.log.retention_days == 30
    &&& c.log.flush_interval_secs == 10
    &&& c.log.flush_batch == 100
    &&& c.log.channel_cap == 10000
    &&& c.log.retention_every == 100
    &&& c.log.level@ == "info"@
    &&& c.log.axum@ == "info"@
    &&& c.log.tower_http_trace@ == "info"@
    &&& c.log.analytics_timeout_secs == 10
    &&& c.log.analytics_workers == 2
    &&& c.log.duckdb_memory_limit_mb == 512
    &&& c.log.duckdb_threads == 2
    &&& !c.log.loki.enabled
    &&& c.log.loki.url@.len() == 0
    &&& c.log.loki.labels.len() == 1
    &&& c.log.loki.labels[0].0@ == "app"@
    &&& c.log.loki.labels[0].1@ == "ait"@
    &&& c.log.loki.batch_size == 100
    &&& c.log.loki.interval_secs == 5
    &&& c.log.loki.timeout_secs == 5
    &&& c.log.loki.basic_auth_user is None
    &&& c.log.loki.basic_auth_password is None
    &&& c.log.loki.bearer_token is None
    &&& c.proxy.timeout_secs == 300
    &&& c.proxy.stream
    &&& c.proxy.sse_idle_timeout_secs == 60
    &&& c.proxy.sse_max_duration_secs == 1800
    &&& c.proxy.connect_timeout_secs == 30
    &&& c.proxy.max_response_body_bytes == 8 * 1024 * 1024
    &&& c.proxy.max_request_body_bytes == 8 * 1024 * 1024
    &&& c.proxy.prompt_token_divisor == 3
    &&& c.security.ssrf_allowed_cidrs.len() == 0
    &&& c.security.cors_allowed_origins.len() == 0
    &&& !c.security.cors_allow_credentials
    &&& !c.security.dlp.enabled
    &&& c.security.dlp.sensitive_values.len() == 0
    &&& !c.security.dlp.scan_numbers
}

impl ConfigApp {
    /// The default settings.
    pub fn defaults() -> (r: ConfigApp)
        ensures
            is_default_config(r),
    {
        let mut proxies: Vec<TrustedProxy> = Vec::new();
        proxies.push(TrustedProxy::Ip(IpAddr::V4(0x7f000001)));
        proxies.push(TrustedProxy::Ip(IpAddr::V6(1)));
        assert(proxies@ =~= seq![TrustedProxy::Ip(IpAddr::V4(0x7f000001)), TrustedProxy::Ip(IpAddr::V6(1))]);
        ConfigApp {
            server: ServerConfig {
                host: "127.0.0.1".to_string(),
                port: 8000,
                health_detail: false,
                cache_cleanup_interval_secs: 300,
                cache_max_entries: 1000,
                graceful_timeout_secs: 10,
                trusted_proxies: proxies,
                trusted_proxy_hops: 1,
            },
            auth: AuthConfig { enabled: true },
            database: DatabaseConfig { path: "./data/ait.db".to_string(), reader_pool_size: 4 },
            log: LogConfig {
                path: "./data/ait-logs.duckdb".to_string(),
                retention_days: 30,
                flush_interval_secs: 10,
                flush_batch: 100,
                channel_cap: 10000,
                retention_every: 100,
                level: "info".to_string(),
                axum: "info".to_string(),
                tower_http_trace: "info".to_string(),
                analytics_timeout_secs: 10,
                analytics_workers: 2,
                duckdb_memory_limit_mb: 512,
                duckdb_threads: 2,
                loki: LokiConfig::default(),
            },
            proxy: ProxyConfig {
                timeout_secs: 300,
                stream: true,
                sse_idle_timeout_secs: 60,
                sse_max_duration_secs: 1800,
                connect_timeout_secs: 30,
                max_response_body_bytes: 8 * 1024 * 1024,
                max_request_body_bytes: 8 * 1024 * 1024,
                prompt_token_divisor: 3,
            },
            security: SecurityConfig {
                ssrf_allowed_cidrs: Vec::new(),
                cors_allowed_origins: Vec::new(),
                cors_allow_credentials: false,
                dlp: DlpConfig { enabled: false, sensitive_values: Vec::new(), scan_numbers: false },
            },
        }
    }
}

} // verus!
