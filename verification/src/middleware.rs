//! Who is calling: bearer tokens, key validity and the client address.
use vstd::prelude::*;

use crate::config::{proxy_block, TrustedProxy};
use crate::error::{unauthorized, AitError};
use crate::ip::{ip_of, parse_ip, split, split_on, IpAddr};
use crate::models::{ApiKeyContext, ApiKeyInfo};
use crate::ssrf::spec_ip_in_prefix;
use crate::text::{chars_of, starts_with_chars, string_of, string_of_range, trim, trim_bounds};

verus! {

/// The token of an `Authorization: Bearer <token>` header value.
pub fn extract_bearer_token(authorization: Option<&str>) -> (r: Option<String>)
    ensures
        match authorization {
            None => r is None,
            Some(h) => match r {
                Some(t) => h@ == "Bearer "@ + t@,
                None => !(h@.len() >= 7 && h@.take(7) == "Bearer "@),
            },
        },
{
    match authorization {
        None => None,
        Some(h) => {
            let v = chars_of(h);
            let p = chars_of("Bearer ");
            proof {
                reveal_strlit("Bearer ");
            }
            if starts_with_chars(&v, &p) {
                let t = string_of_range(&v, p.len(), v.len());
                assert(v@ == v@.take(7) + v@.subrange(7, v@.len() as int));
                Some(t)
            } else {
                None
            }
        },
    }
}

/// Whether the key is enabled and, when it expires, still before its expiry
/// at `now` (seconds).
pub open spec fn key_usable(info: ApiKeyInfo, now: i64) -> bool {
    info.enabled && match info.expires_at {
        Some(exp) => exp > now,
        None => true,
    }
}

/// Accept a stored key at `now`: the identity to record for the request, or a
/// 401 when the key is disabled or expired.
pub fn verify_key(key_info: &ApiKeyInfo, now: i64) -> (r: Result<ApiKeyContext, (u16, AitError)>)
    ensures
        match r {
            Ok(ctx) => key_usable(*key_info, now) && ctx.name == Some(key_info.name),
            Err(e) => !key_usable(*key_info, now) && e.0 == 401 && e.1.code == 401
                && e.1.message@ == "Unauthorized: invalid or missing API key"@,
        },
{
    if !key_info.enabled {
        return Err(unauthorized("Unauthorized: invalid or missing API key"));
    }
    match key_info.expires_at {
        Some(exp) => {
            if exp <= now {
                return Err(unauthorized("Unauthorized: invalid or missing API key"));
            }
        },
        None => {},
    }
    Ok(ApiKeyContext { name: Some(key_info.name.clone()) })
}

/// Whether `ip` is one of the trusted proxies.
pub open spec fn trusted_by(ip: IpAddr, trusted: Seq<TrustedProxy>) -> bool {
    exists|i: int|
        0 <= i < trusted.len() && spec_ip_in_prefix(
            ip,
            proxy_block(#[trigger] trusted[i]).0,
            proxy_block(trusted[i]).1,
        )
}

pub fn is_trusted_proxy(ip: IpAddr, trusted: &[TrustedProxy]) -> (b: bool)
    ensures
        b == trusted_by(ip, trusted@),
{
    let mut i: usize = 0;
    while i < trusted.len()
        invariant
            i <= trusted.len(),
            forall|k: int|
                0 <= k < i ==> !spec_ip_in_prefix(
                    ip,
                    proxy_block(#[trigger] trusted@[k]).0,
                    proxy_block(trusted@[k]).1,
                ),
        decreases trusted.len() - i,
    {
        if trusted[i].contains(ip) {
            return true;
        }
        i = i + 1;
    }
    false
}

/// A peer is trusted as soon as any entry of the list covers it, whatever
/// the entry's position; then its forwarded address, when the chain yields
/// one, is taken as the client address.
pub proof fn lemma_any_entry_trusts(ip: IpAddr, trusted: Seq<TrustedProxy>, i: int, xff: Seq<char>, hops: nat)
    requires
        0 <= i < trusted.len(),
        spec_ip_in_prefix(ip, proxy_block(trusted[i]).0, proxy_block(trusted[i]).1),
    ensures
        trusted_by(ip, trusted),
        forwarded_ip(xff, hops) is Some ==> client_ip(Some(ip), Some(xff), None, trusted, hops) == forwarded_ip(
            xff,
            hops,
        ),
{
}

/// A peer listed by its exact address, at any position of the list, is
/// trusted; a peer no entry covers is not, and is its own client address.
pub proof fn lemma_listed_peer_trusted(ip: IpAddr, trusted: Seq<TrustedProxy>, i: int, xff: Seq<char>, hops: nat)
    requires
        0 <= i < trusted.len(),
        trusted[i] == TrustedProxy::Ip(ip),
    ensures
        trusted_by(ip, trusted),
        forwarded_ip(xff, hops) is Some ==> client_ip(Some(ip), Some(xff), None, trusted, hops) == forwarded_ip(
            xff,
            hops,
        ),
{
    assert(spec_ip_in_prefix(ip, proxy_block(trusted[i]).0, proxy_block(trusted[i]).1));
    lemma_any_entry_trusts(ip, trusted, i, xff, hops);
}

/// A peer no entry covers is its own client address, whatever headers it
/// sends; a trusted peer without a usable `X-Forwarded-For` is represented
/// by a parseable `X-Real-IP`.
pub proof fn lemma_untrusted_peer_is_client(
    ip: IpAddr,
    trusted: Seq<TrustedProxy>,
    xff: Option<Seq<char>>,
    real_ip: Option<Seq<char>>,
    hops: nat,
)
    ensures
        (forall|i: int| 0 <= i < trusted.len() ==> !spec_ip_in_prefix(
            ip,
            proxy_block(#[trigger] trusted[i]).0,
            proxy_block(trusted[i]).1,
        )) ==> client_ip(Some(ip), xff, real_ip, trusted, hops) == Some(ip),
        trusted_by(ip, trusted) && xff is None && real_ip is Some && ip_of(real_ip->0) is Some
            ==> client_ip(Some(ip), xff, real_ip, trusted, hops) == ip_of(real_ip->0),
{
}

/// Trust does not depend on the order of the list: a peer trusted by the
/// list is trusted by it with any entry appended or prepended, and by the
/// two halves of a list swapped.
pub proof fn lemma_trust_order_free(ip: IpAddr, a: Seq<TrustedProxy>, b: Seq<TrustedProxy>)
    ensures
        trusted_by(ip, a + b) == trusted_by(ip, b + a),
        trusted_by(ip, a) ==> trusted_by(ip, a + b) && trusted_by(ip, b + a),
{
    if trusted_by(ip, a + b) {
        let i = choose|i: int| 0 <= i < (a + b).len() && spec_ip_in_prefix(
            ip,
            proxy_block(#[trigger] (a + b)[i]).0,
            proxy_block((a + b)[i]).1,
        );
        let j = if i < a.len() { i + b.len() } else { i - a.len() };
        assert((b + a)[j] == (a + b)[i]);
    }
    if trusted_by(ip, b + a) {
        let i = choose|i: int| 0 <= i < (b + a).len() && spec_ip_in_prefix(
            ip,
            proxy_block(#[trigger] (b + a)[i]).0,
            proxy_block((b + a)[i]).1,
        );
        let j = if i < b.len() { i + a.len() } else { i - b.len() };
        assert((a + b)[j] == (b + a)[i]);
    }
    if trusted_by(ip, a) {
        let i = choose|i: int| 0 <= i < a.len() && spec_ip_in_prefix(
            ip,
            proxy_block(#[trigger] a[i]).0,
            proxy_block(a[i]).1,
        );
        assert((a + b)[i] == a[i]);
        assert((b + a)[i + b.len()] == a[i]);
    }
}

/// The address `hops` entries from the right of an `X-Forwarded-For` chain,
/// each entry trimmed; `None` when the chain is shorter than `hops`, `hops`
/// is zero, or the entry is not an address.
pub open spec fn forwarded_ip(value: Seq<char>, hops: nat) -> Option<IpAddr> {
    let parts = split(value, ',');
    if 1 <= hops <= parts.len() {
        ip_of(trim(parts[parts.len() - hops]))
    } else {
        None
    }
}

/// Pick the address `hops` trusted proxies back in the X-Forwarded-For
/// chain.
pub fn forwarded_client_ip(value: &str, hops: usize) -> (r: Option<IpAddr>)
    ensures
        r == forwarded_ip(value@, hops as nat),
{
    let v = chars_of(value);
    assert(v@.subrange(0, v@.len() as int) == v@);
    let parts = split_on(&v, 0, v.len(), ',');
    if hops == 0 || hops > parts.len() {
        return None;
    }
    let entry = &parts[parts.len() - hops];
    let (i, j) = trim_bounds(entry);
    let s = string_of_range(entry, i, j);
    parse_ip(s.as_str())
}

/// The client address of a request: for a trusted peer, the forwarded
/// address (`X-Forwarded-For`, then `X-Real-IP`), else the peer itself.
pub open spec fn client_ip(
    direct: Option<IpAddr>,
    xff: Option<Seq<char>>,
    real_ip: Option<Seq<char>>,
    trusted: Seq<TrustedProxy>,
    hops: nat,
) -> Option<IpAddr> {
    match direct {
        Some(d) => if trusted_by(d, trusted) {
            match (xff, real_ip) {
                (Some(x), _) if forwarded_ip(x, hops) is Some => forwarded_ip(x, hops),
                (_, Some(r)) if ip_of(r) is Some => ip_of(r),
                _ => direct,
            }
        } else {
            direct
        },
        None => None,
    }
}

/// The client address of a request whose peer is `direct_ip` and whose
/// `X-Forwarded-For` and `X-Real-IP` headers (when readable) are given.
pub fn get_client_ip(
    direct_ip: Option<IpAddr>,
    x_forwarded_for: Option<&str>,
    x_real_ip: Option<&str>,
    trusted_proxies: &[TrustedProxy],
    hops: usize,
) -> (r: Option<IpAddr>)
    ensures
        r == client_ip(
            direct_ip,
            match x_forwarded_for {
                Some(x) => Some(x@),
                None => None,
            },
            match x_real_ip {
                Some(x) => Some(x@),
                None => None,
            },
            trusted_proxies@,
            hops as nat,
        ),
{
    let trusted = match direct_ip {
        Some(ip) => is_trusted_proxy(ip, trusted_proxies),
        None => false,
    };
    if trusted {
        if let Some(value) = x_forwarded_for {
            if let Some(ip) = forwarded_client_ip(value, hops) {
                return Some(ip);
            }
        }
        if let Some(value) = x_real_ip {
            if let Some(ip) = parse_ip(value) {
                return Some(ip);
            }
        }
    }
    direct_ip
}

} // verus!

verus! {

/// The caller's identity on the console, as the authenticating reverse
/// proxy reports it.
#[derive(Debug)]
pub struct SessionResponse {
    pub authenticated: bool,
    pub username: Option<String>,
}

/// The session answer for a `Remote-User` header value.
pub fn session_response(remote_user: Option<&str>) -> (r: SessionResponse)
    ensures
        r.authenticated == remote_user is Some,
        match remote_user {
            Some(u) => r.username matches Some(n) && n@ == u@,
            None => r.username is None,
        },
{
    match remote_user {
        Some(u) => SessionResponse { authenticated: true, username: Some(u.to_string()) },
        None => SessionResponse { authenticated: false, username: None },
    }
}

/// The `Remote-User` identity, believed only from a trusted reverse proxy:
/// a client that reaches the gateway directly could forge the header.
pub fn remote_user_from_headers(remote_user: Option<&str>, direct_ip: IpAddr, trusted: &[TrustedProxy]) -> (r: Option<String>)
    ensures
        !trusted_by(direct_ip, trusted@) ==> r is None,
        trusted_by(direct_ip, trusted@) ==> match remote_user {
            Some(u) => r matches Some(n) && n@ == u@,
            None => r is None,
        },
{
    if !is_trusted_proxy(direct_ip, trusted) {
        return None;
    }
    match remote_user {
        Some(u) => Some(u.to_string()),
        None => None,
    }
}

} // verus!
