//! Address checks that keep upstream requests away from private networks.
use vstd::prelude::*;
use vstd::arithmetic::power2::pow2;

use crate::ip::{digits_value, is_dec, ip_of, parse_ip, IpAddr};
use crate::error::AitError;
use crate::text::{chars_of, concat, decimal, decimal_string, string_of_range};

verus! {

pub open spec fn v4_octet(a: u32, i: nat) -> nat {
    if i == 0 {
        a as nat / 0x1000000
    } else if i == 1 {
        (a as nat / 0x10000) % 0x100
    } else if i == 2 {
        (a as nat / 0x100) % 0x100
    } else {
        a as nat % 0x100
    }
}

/// The first sixteen-bit group of an IPv6 address.
pub open spec fn v6_first_group(a: u128) -> nat {
    a as nat / 0x1_0000_0000_0000_0000_0000_0000_0000
}

/// IPv6 forms that embed an IPv4 address (IPv4-mapped `::ffff:a.b.c.d` and
/// NAT64 `64:ff9b::/96`) read as that IPv4 address; all else unchanged.
pub open spec fn normalize(ip: IpAddr) -> IpAddr {
    match ip {
        IpAddr::V4(_) => ip,
        IpAddr::V6(a) => if a as nat / 0x1_0000_0000 == 0xffff {
            IpAddr::V4((a as nat % 0x1_0000_0000) as u32)
        } else if a as nat / 0x1_0000_0000_0000_0000 == 0x0064_ff9b_0000_0000 {
            IpAddr::V4((a as nat % 0x1_0000_0000) as u32)
        } else {
            ip
        },
    }
}

/// IPv4 ranges that must never be reached: this-network, private, loopback,
/// link-local, carrier-grade NAT and benchmarking.
pub open spec fn blocked_v4(a: u32) -> bool {
    let o0 = v4_octet(a, 0);
    let o1 = v4_octet(a, 1);
    ||| o0 == 0
    ||| o0 == 10
    ||| o0 == 127
    ||| o0 == 169 && o1 == 254
    ||| o0 == 172 && 16 <= o1 <= 31
    ||| o0 == 192 && o1 == 168
    ||| o0 == 100 && 64 <= o1 <= 127
    ||| o0 == 198 && o1 == 18
}

/// IPv6 loopback, unique-local (`fc00::/7`) and link-local (`fe80::/10`).
pub open spec fn blocked_v6(a: u128) -> bool {
    let g0 = v6_first_group(a);
    ||| a == 1
    ||| 0xfc00 <= g0 <= 0xfdff
    ||| 0xfe80 <= g0 <= 0xfebf
}

pub open spec fn blocked(ip: IpAddr) -> bool {
    match ip {
        IpAddr::V4(a) => blocked_v4(a),
        IpAddr::V6(a) => blocked_v6(a),
    }
}

/// Whether the first `len` bits of two 32-bit addresses agree.
pub open spec fn v4_in_prefix(ip: u32, prefix: u32, len: nat) -> bool {
    len == 0 || ip as nat / pow2((32 - len) as nat) == prefix as nat / pow2((32 - len) as nat)
}

/// Whether the first `len` bits of two 128-bit addresses agree.
pub open spec fn v6_in_prefix(ip: u128, prefix: u128, len: nat) -> bool {
    len == 0 || ip as nat / pow2((128 - len) as nat) == prefix as nat / pow2((128 - len) as nat)
}

/// Whether `a` lies in the IPv4 block starting at `base` of `size` addresses.
pub open spec fn in_v4_block(a: u32, base: nat, size: nat) -> bool {
    base <= a && a < base + size
}

/// The IPv4 ranges refused as upstream targets are exactly these blocks:
/// 0.0.0.0/8, 10.0.0.0/8, 127.0.0.0/8, 169.254.0.0/16, 172.16.0.0/12,
/// 192.168.0.0/16, 100.64.0.0/10 and 198.18.0.0/16. Every address of each
/// block is refused, whatever its remaining octets, and nothing else is.
pub proof fn lemma_blocked_v4_ranges(a: u32)
    ensures
        blocked_v4(a) <==> {
            ||| in_v4_block(a, 0x0000_0000, 0x0100_0000)
            ||| in_v4_block(a, 0x0A00_0000, 0x0100_0000)
            ||| in_v4_block(a, 0x7F00_0000, 0x0100_0000)
            ||| in_v4_block(a, 0xA9FE_0000, 0x0001_0000)
            ||| in_v4_block(a, 0xAC10_0000, 0x0010_0000)
            ||| in_v4_block(a, 0xC0A8_0000, 0x0001_0000)
            ||| in_v4_block(a, 0x6440_0000, 0x0040_0000)
            ||| in_v4_block(a, 0xC612_0000, 0x0001_0000)
        },
{
}

/// Every address the IPv6 loopback, unique-local (fc00::/7) and link-local
/// (fe80::/10) ranges hold is refused, and nothing else.
pub proof fn lemma_blocked_v6_ranges(a: u128)
    ensures
        blocked_v6(a) <==> {
            ||| a == 1
            ||| 0xfc00_0000_0000_0000_0000_0000_0000_0000 <= a <= 0xfdff_ffff_ffff_ffff_ffff_ffff_ffff_ffff
            ||| 0xfe80_0000_0000_0000_0000_0000_0000_0000 <= a <= 0xfebf_ffff_ffff_ffff_ffff_ffff_ffff_ffff
        },
{
}

/// An IPv4 address written as IPv6 (IPv4-mapped `::ffff:a.b.c.d` or NAT64
/// `64:ff9b::a.b.c.d`) is judged exactly as the IPv4 address itself, so a
/// private address cannot slip through in IPv6 form.
pub proof fn lemma_embedded_v4_judged_as_v4(a: u32, cidrs: Seq<Seq<char>>)
    ensures
        allowed(IpAddr::V6((0xffff_0000_0000 + a as int) as u128), cidrs) == allowed(IpAddr::V4(a), cidrs),
        allowed(IpAddr::V6((0x0064_ff9b_0000_0000_0000_0000_0000_0000 + a as int) as u128), cidrs) == allowed(IpAddr::V4(a), cidrs),
{
    assert(normalize(IpAddr::V6((0xffff_0000_0000 + a as int) as u128)) == IpAddr::V4(a));
    assert(normalize(IpAddr::V6((0x0064_ff9b_0000_0000_0000_0000_0000_0000 + a as int) as u128)) == IpAddr::V4(a));
}

/// With no allow-listed block, an IPv4 address is reachable exactly when it
/// lies in none of the refused ranges.
pub proof fn lemma_v4_allowed_without_allow_list(a: u32)
    ensures
        allowed(IpAddr::V4(a), Seq::empty()) <==> !blocked_v4(a),
        (0x0A00_0000 <= a && a < 0x0B00_0000) ==> !allowed(IpAddr::V4(a), Seq::empty()),
{
    lemma_blocked_v4_ranges(a);
}

pub fn normalize_ip(ip: &IpAddr) -> (r: IpAddr)
    ensures
        r == normalize(*ip),
{
    match ip {
        IpAddr::V4(_) => *ip,
        IpAddr::V6(a) => {
            if *a / 0x1_0000_0000 == 0xffff {
                IpAddr::V4((*a % 0x1_0000_0000) as u32)
            } else if *a / 0x1_0000_0000_0000_0000 == 0x0064_ff9b_0000_0000 {
                IpAddr::V4((*a % 0x1_0000_0000) as u32)
            } else {
                *ip
            }
        },
    }
}

pub fn is_blocked_v4(a: u32) -> (b: bool)
    ensures
        b == blocked_v4(a),
{
    let o0 = a / 0x1000000;
    let o1 = (a / 0x10000) % 0x100;
    o0 == 0 || o0 == 10 || o0 == 127 || (o0 == 169 && o1 == 254) || (o0 == 172 && 16 <= o1 && o1
        <= 31) || (o0 == 192 && o1 == 168) || (o0 == 100 && 64 <= o1 && o1 <= 127) || (o0 == 198
        && o1 == 18)
}

pub fn is_blocked_v6(a: u128) -> (b: bool)
    ensures
        b == blocked_v6(a),
{
    let g0 = a / 0x1_0000_0000_0000_0000_0000_0000_0000;
    a == 1 || (0xfc00 <= g0 && g0 <= 0xfdff) || (0xfe80 <= g0 && g0 <= 0xfebf)
}

pub fn is_blocked_ip(ip: &IpAddr) -> (b: bool)
    ensures
        b == blocked(*ip),
{
    match ip {
        IpAddr::V4(a) => is_blocked_v4(*a),
        IpAddr::V6(a) => is_blocked_v6(*a),
    }
}

pub fn ipv4_in_prefix(ip: u32, prefix: u32, len: u8) -> (b: bool)
    requires
        len <= 32,
    ensures
        b == v4_in_prefix(ip, prefix, len as nat),
{
    if len == 0 {
        return true;
    }
    let shift: u32 = 32 - len as u32;
    proof {
        vstd::bits::lemma_u32_shr_is_div(ip, shift);
        vstd::bits::lemma_u32_shr_is_div(prefix, shift);
    }
    (ip >> shift) == (prefix >> shift)
}

pub fn ipv6_in_prefix(ip: u128, prefix: u128, len: u8) -> (b: bool)
    requires
        len <= 128,
    ensures
        b == v6_in_prefix(ip, prefix, len as nat),
{
    if len == 0 {
        return true;
    }
    let shift: u128 = 128 - len as u128;
    proof {
        vstd::bits::lemma_u128_shr_is_div(ip, shift);
        vstd::bits::lemma_u128_shr_is_div(prefix, shift);
    }
    (ip >> shift) == (prefix >> shift)
}

/// Address-family match of `ip` against a prefix of `len` bits; different
/// families never match.
pub open spec fn in_prefix(ip: IpAddr, prefix: IpAddr, len: nat) -> bool {
    match (ip, prefix) {
        (IpAddr::V4(a), IpAddr::V4(p)) => v4_in_prefix(a, p, if len <= 32 { len } else { 32 }),
        (IpAddr::V6(a), IpAddr::V6(p)) => v6_in_prefix(a, p, if len <= 128 { len } else { 128 }),
        _ => false,
    }
}

fn in_prefix_exec(ip: &IpAddr, prefix: &IpAddr, len: u8) -> (b: bool)
    ensures
        b == in_prefix(*ip, *prefix, len as nat),
{
    match (ip, prefix) {
        (IpAddr::V4(a), IpAddr::V4(p)) => ipv4_in_prefix(*a, *p, if len <= 32 { len } else { 32 }),
        (IpAddr::V6(a), IpAddr::V6(p)) => ipv6_in_prefix(*a, *p, if len <= 128 { len } else { 128 }),
        _ => false,
    }
}

/// Prefix match after canonicalizing both sides, so an IPv4-mapped or NAT64
/// address matches the IPv4 entry it embeds. A prefix written as an IPv6 form
/// of an IPv4 address keeps only the bits past the 96-bit IPv6 part.
pub open spec fn spec_ip_in_prefix(ip: IpAddr, prefix: IpAddr, len: nat) -> bool {
    let np = normalize(prefix);
    let plen = if prefix is V6 && np is V4 {
        if len >= 96 { (len - 96) as nat } else { 0 }
    } else {
        len
    };
    in_prefix(normalize(ip), np, plen)
}

pub fn ip_in_prefix(ip: &IpAddr, prefix: &IpAddr, len: u8) -> (b: bool)
    ensures
        b == spec_ip_in_prefix(*ip, *prefix, len as nat),
{
    let ni = normalize_ip(ip);
    let np = normalize_ip(prefix);
    let plen: u8 = match (prefix, np) {
        (IpAddr::V6(_), IpAddr::V4(_)) => if len >= 96 { len - 96 } else { 0 },
        _ => len,
    };
    in_prefix_exec(&ni, &np, plen)
}

/// Position of the first `c` in `s` at or after `k`.
pub open spec fn first_index(s: Seq<char>, c: char, k: int) -> Option<int>
    decreases s.len() - k,
{
    if k < 0 || k >= s.len() {
        None
    } else if s[k] == c {
        Some(k)
    } else {
        first_index(s, c, k + 1)
    }
}

pub fn find_char(v: &Vec<char>, c: char) -> (r: Option<usize>)
    ensures
        match r {
            Some(k) => first_index(v@, c, 0) == Some(k as int) && k < v.len(),
            None => first_index(v@, c, 0) is None,
        },
{
    let mut k: usize = 0;
    while k < v.len()
        invariant
            k <= v.len(),
            first_index(v@, c, 0) == first_index(v@, c, k as int),
        decreases v.len() - k,
    {
        if v[k] == c {
            return Some(k);
        }
        k = k + 1;
    }
    None
}

/// The `u8` that `p` spells as `str::parse::<u8>` reads it: an optional `+`,
/// then one or more decimal digits with a value of at most 255.
pub open spec fn u8_digits(p: Seq<char>) -> Seq<char> {
    if p.len() > 0 && p[0] == '+' { p.drop_first() } else { p }
}

pub open spec fn u8_of(p: Seq<char>) -> Option<nat> {
    let d = u8_digits(p);
    if d.len() >= 1 && (forall|i: int| 0 <= i < d.len() ==> is_dec(#[trigger] d[i])) && digits_value(d, 10) <= 255 {
        Some(digits_value(d, 10))
    } else {
        None
    }
}

proof fn lemma_digits_value_mono(d: Seq<char>, i: int)
    requires
        0 <= i <= d.len(),
        forall|k: int| 0 <= k < d.len() ==> is_dec(#[trigger] d[k]),
    ensures
        digits_value(d.take(i), 10) <= digits_value(d, 10),
    decreases d.len(),
{
    if i < d.len() {
        assert(d.drop_last().take(i) == d.take(i));
        lemma_digits_value_mono(d.drop_last(), i);
    } else {
        assert(d.take(i) == d);
    }
}

proof fn lemma_u8_of_none(p: Seq<char>, d: Seq<char>)
    requires
        d == (if p.len() > 0 && p[0] == '+' { p.drop_first() } else { p }),
        d.len() == 0 || (exists|i: int| 0 <= i < d.len() && !is_dec(#[trigger] d[i])) || digits_value(d, 10) > 255,
    ensures
        u8_of(p) is None,
{
    if exists|i: int| 0 <= i < d.len() && !is_dec(#[trigger] d[i]) {
        let i = choose|i: int| 0 <= i < d.len() && !is_dec(#[trigger] d[i]);
        assert(u8_digits(p)[i] == d[i]);
        assert(!is_dec(u8_digits(p)[i]));
        assert(u8_of(p) is None);
    } else if d.len() == 0 {
        assert(u8_of(p) is None);
    } else {
        assert(u8_of(p) is None);
    }
}

/// The `u8` that `v[from..to]` spells.
pub fn parse_u8(v: &Vec<char>, from: usize, to: usize) -> (r: Option<u8>)
    requires
        from <= to <= v.len(),
    ensures
        match r {
            Some(x) => u8_of(v@.subrange(from as int, to as int)) == Some(x as nat),
            None => u8_of(v@.subrange(from as int, to as int)) is None,
        },
{
    let ghost p = v@.subrange(from as int, to as int);
    let mut start = from;
    if from < to && v[from] == '+' {
        start = from + 1;
    }
    let ghost d = v@.subrange(start as int, to as int);
    assert(d == if p.len() > 0 && p[0] == '+' { p.drop_first() } else { p });
    if start == to {
        return None;
    }
    let mut acc: u32 = 0;
    let mut k = start;
    while k < to
        invariant
            start <= k <= to <= v.len(),
            d == v@.subrange(start as int, to as int),
            p == v@.subrange(from as int, to as int),
            d == if p.len() > 0 && p[0] == '+' { p.drop_first() } else { p },
            acc == digits_value(d.take(k - start), 10),
            acc <= 255,
            forall|q: int| 0 <= q < k - start ==> is_dec(#[trigger] d[q]),
        decreases to - k,
    {
        let c = v[k];
        assert(d[k - start] == c);
        if c < '0' || c > '9' {
            assert(!is_dec(d[k - start]));
            proof { lemma_u8_of_none(p, d); }
            return None;
        }
        proof {
            assert(d.take(k - start + 1).drop_last() == d.take(k - start));
            assert(d.take(k - start + 1).last() == c);
        }
        acc = acc * 10 + (c as u32 - '0' as u32);
        if acc > 255 {
            proof {
                if forall|q: int| 0 <= q < d.len() ==> is_dec(#[trigger] d[q]) {
                    lemma_digits_value_mono(d, k - start + 1);
                }
                lemma_u8_of_none(p, d);
            }
            return None;
        }
        k = k + 1;
    }
    assert(d.take(d.len() as int) == d);
    Some(acc as u8)
}

} // verus!

verus! {

/// The address part of a CIDR entry: before the first `/`, or all of it.
pub open spec fn cidr_addr_part(cidr: Seq<char>) -> Seq<char> {
    match first_index(cidr, '/', 0) {
        Some(k) => cidr.subrange(0, k),
        None => cidr,
    }
}

/// Prefix length of a CIDR entry whose address is `addr`: the number after the
/// first `/`, when it is at most the family's width; the full width when there
/// is no `/`.
pub open spec fn cidr_len(cidr: Seq<char>, addr: IpAddr) -> Option<nat> {
    let family_max: nat = if addr is V4 { 32 } else { 128 };
    match first_index(cidr, '/', 0) {
        Some(k) => match u8_of(cidr.subrange(k + 1, cidr.len() as int)) {
            Some(l) => if l <= family_max { Some(l) } else { None },
            None => None,
        },
        None => Some(family_max),
    }
}

/// Whether `ip` lies in the block `cidr` (`addr` or `addr/len`) describes; an
/// unusable entry matches nothing.
pub open spec fn cidr_contains(ip: IpAddr, cidr: Seq<char>) -> bool {
    match ip_of(cidr_addr_part(cidr)) {
        Some(a) => match cidr_len(cidr, a) {
            Some(l) => in_prefix(ip, a, l),
            None => false,
        },
        None => false,
    }
}

/// Check whether `ip` falls inside the CIDR range described by `cidr_str`.
///
/// A bare IP without a prefix length is treated as a /32 (IPv4) or /128 (IPv6).
pub fn ip_in_cidr(ip: &IpAddr, cidr_str: &str) -> (b: bool)
    ensures
        b == cidr_contains(*ip, cidr_str@),
{
    let v = chars_of(cidr_str);
    let n = v.len();
    let slash = find_char(&v, '/');
    let addr_end = match slash {
        Some(k) => k,
        None => n,
    };
    let addr_s = crate::text::string_of_range(&v, 0, addr_end);
    proof {
        if slash is None {
            assert(v@.subrange(0, n as int) == v@);
        }
    }
    let addr = match parse_ip(addr_s.as_str()) {
        Some(a) => a,
        None => return false,
    };
    let family_max: u8 = match addr {
        IpAddr::V4(_) => 32,
        IpAddr::V6(_) => 128,
    };
    let len = match slash {
        Some(k) => match parse_u8(&v, k + 1, n) {
            Some(l) => {
                if l <= family_max {
                    l
                } else {
                    return false;
                }
            },
            None => return false,
        },
        None => family_max,
    };
    in_prefix_exec(ip, &addr, len)
}

/// Whether an upstream at `ip` may be contacted: inside an allowed block, or
/// outside every blocked range. IPv4 embedded in IPv6 is judged as IPv4.
pub open spec fn allowed(ip: IpAddr, cidrs: Seq<Seq<char>>) -> bool {
    (exists|i: int| 0 <= i < cidrs.len() && cidr_contains(normalize(ip), #[trigger] cidrs[i]))
        || !blocked(normalize(ip))
}

pub open spec fn string_views(v: Seq<String>) -> Seq<Seq<char>> {
    v.map_values(|s: String| s@)
}

pub fn is_allowed(ip: &IpAddr, allowed_cidrs: &[String]) -> (b: bool)
    ensures
        b == allowed(*ip, string_views(allowed_cidrs@)),
{
    let ghost cs = string_views(allowed_cidrs@);
    let n = normalize_ip(ip);
    let mut i: usize = 0;
    while i < allowed_cidrs.len()
        invariant
            i <= allowed_cidrs.len(),
            cs == string_views(allowed_cidrs@),
            n == normalize(*ip),
            forall|k: int| 0 <= k < i ==> !cidr_contains(n, #[trigger] cs[k]),
        decreases allowed_cidrs.len() - i,
    {
        assert(cs[i as int] == allowed_cidrs[i as int]@);
        if ip_in_cidr(&n, allowed_cidrs[i].as_str()) {
            return true;
        }
        i = i + 1;
    }
    !is_blocked_ip(&n)
}

} // verus!

verus! {

/// Why an upstream host was refused.
#[derive(Debug)]
pub enum SsrfDeny {
    /// The URL names no host.
    NoHost,
    /// The host could not be resolved.
    DnsFailed(String),
    /// The host resolves to a blocked address.
    Blocked,
}

/// Whether every address a host resolves to may be reached.
pub open spec fn all_allowed(ips: Seq<IpAddr>, cidrs: Seq<Seq<char>>) -> bool {
    forall|i: int| 0 <= i < ips.len() ==> allowed(#[trigger] ips[i], cidrs)
}

/// Accept the addresses a host resolved to, or refuse it when one of them
/// is blocked.
pub fn check_resolved(ips: &Vec<IpAddr>, allowed_cidrs: &Vec<String>) -> (r: Result<(), SsrfDeny>)
    ensures
        r is Ok <==> all_allowed(ips@, string_views(allowed_cidrs@)),
        r matches Err(d) ==> d is Blocked,
{
    let mut i: usize = 0;
    while i < ips.len()
        invariant
            i <= ips@.len(),
            forall|k: int| 0 <= k < i ==> allowed(#[trigger] ips@[k], string_views(allowed_cidrs@)),
        decreases ips.len() - i,
    {
        if !is_allowed(&ips[i], allowed_cidrs.as_slice()) {
            return Err(SsrfDeny::Blocked);
        }
        i = i + 1;
    }
    Ok(())
}

/// The client-facing error of a refused provider URL at configuration time.
pub open spec fn deny_message(d: SsrfDeny) -> Seq<char> {
    match d {
        SsrfDeny::NoHost => "base_url must include a host"@,
        SsrfDeny::DnsFailed(_) => "base_url host could not be resolved"@,
        SsrfDeny::Blocked => "base_url resolves to a blocked address"@,
    }
}

pub fn config_deny_error(d: &SsrfDeny) -> (r: AitError)
    ensures
        r.code == 400,
        r.message@ == deny_message(*d),
        r.detail is None,
{
    match d {
        SsrfDeny::NoHost => AitError::bad_request("base_url must include a host"),
        SsrfDeny::DnsFailed(_) => AitError::bad_request("base_url host could not be resolved"),
        SsrfDeny::Blocked => AitError::bad_request("base_url resolves to a blocked address"),
    }
}

/// On the proxy path a refused upstream gets the opaque 502.
pub fn proxy_deny_error() -> (r: AitError)
    ensures
        r.code == 502,
        r.message@ == "upstream request failed"@,
        r.error_type@ == "upstream_error"@,
        r.detail is None,
{
    AitError::upstream_error(502, "upstream request failed")
}

/// A host as the resolver override takes it: without the brackets an IPv6
/// host is written in.
pub open spec fn bare_host(h: Seq<char>) -> Seq<char> {
    trim_close(trim_open(h))
}

pub open spec fn trim_open(h: Seq<char>) -> Seq<char>
    decreases h.len(),
{
    if h.len() > 0 && h[0] == '[' { trim_open(h.drop_first()) } else { h }
}

pub open spec fn trim_close(h: Seq<char>) -> Seq<char>
    decreases h.len(),
{
    if h.len() > 0 && h.last() == ']' { trim_close(h.drop_last()) } else { h }
}

/// `host` without the brackets an IPv6 host is written in.
pub fn strip_brackets(host: &str) -> (r: String)
    ensures
        r@ == bare_host(host@),
{
    let v = chars_of(host);
    let mut a: usize = 0;
    assert(v@.subrange(0, v@.len() as int) =~= v@);
    while a < v.len() && v[a] == '['
        invariant
            a <= v@.len(),
            v@ == host@,
            trim_open(v@) == trim_open(v@.subrange(a as int, v@.len() as int)),
        decreases v.len() - a,
    {
        assert(v@.subrange(a + 1, v@.len() as int) =~= v@.subrange(a as int, v@.len() as int).drop_first());
        a = a + 1;
    }
    let mut b = v.len();
    assert(trim_open(v@) == v@.subrange(a as int, b as int));
    while b > a && v[b - 1] == ']'
        invariant
            a <= b <= v@.len(),
            bare_host(host@) == trim_close(v@.subrange(a as int, b as int)),
        decreases b,
    {
        assert(v@.subrange(a as int, b - 1) =~= v@.subrange(a as int, b as int).drop_last());
        b = b - 1;
    }
    string_of_range(&v, a, b)
}

/// The key pinned clients are cached under: `host:port`.
pub fn pin_key(host: &str, port: u16) -> (r: String)
    ensures
        r@ == bare_host(host@) + ":"@ + decimal(port as nat),
{
    let h = strip_brackets(host);
    let hp = concat(h.as_str(), ":");
    concat(hp.as_str(), decimal_string(port as u64).as_str())
}

} // verus!
