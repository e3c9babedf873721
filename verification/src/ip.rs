//! IP addresses and their textual forms.
use vstd::prelude::*;

verus! {

/// An IPv4 or IPv6 address, as a 32- or 128-bit number in network order.
#[derive(Clone, Copy, Debug, PartialEq, Eq, Structural)]
pub enum IpAddr {
    V4(u32),
    V6(u128),
}

// ── Splitting ──

/// `s` cut at every `sep`, as `str::split` does: `n` separators give `n + 1`
/// pieces, some possibly empty.
pub open spec fn split(s: Seq<char>, sep: char) -> Seq<Seq<char>>
    decreases s.len(),
{
    if s.len() == 0 {
        seq![Seq::<char>::empty()]
    } else {
        let r = split(s.drop_last(), sep);
        if s.last() == sep {
            r.push(Seq::<char>::empty())
        } else {
            r.update(r.len() - 1, r.last().push(s.last()))
        }
    }
}

pub proof fn lemma_split_nonempty(s: Seq<char>, sep: char)
    ensures
        split(s, sep).len() >= 1,
    decreases s.len(),
{
    if s.len() > 0 {
        lemma_split_nonempty(s.drop_last(), sep);
    }
}

/// The pieces of `v[from..to]` between occurrences of `sep`.
pub fn split_on(v: &Vec<char>, from: usize, to: usize, sep: char) -> (r: Vec<Vec<char>>)
    requires
        from <= to <= v.len(),
    ensures
        r.len() == split(v@.subrange(from as int, to as int), sep).len(),
        forall|i: int|
            0 <= i < r.len() ==> #[trigger] r[i]@ == split(
                v@.subrange(from as int, to as int),
                sep,
            )[i],
{
    let mut parts: Vec<Vec<char>> = Vec::new();
    let mut cur: Vec<char> = Vec::new();
    let mut k = from;
    assert(v@.subrange(from as int, from as int) == Seq::<char>::empty());
    while k < to
        invariant
            from <= k <= to <= v.len(),
            parts.len() + 1 == split(v@.subrange(from as int, k as int), sep).len(),
            forall|i: int|
                0 <= i < parts.len() ==> #[trigger] parts[i]@ == split(
                    v@.subrange(from as int, k as int),
                    sep,
                )[i],
            cur@ == split(v@.subrange(from as int, k as int), sep).last(),
        decreases to - k,
    {
        let ghost before = v@.subrange(from as int, k as int);
        let ghost after = v@.subrange(from as int, k + 1);
        assert(after.drop_last() == before);
        assert(after.last() == v@[k as int]);
        let c = v[k];
        if c == sep {
            parts.push(cur);
            cur = Vec::new();
        } else {
            cur.push(c);
        }
        k = k + 1;
    }
    parts.push(cur);
    parts
}

// ── Digits ──

pub open spec fn is_dec(c: char) -> bool {
    '0' <= c <= '9'
}

pub open spec fn is_hex(c: char) -> bool {
    ||| '0' <= c <= '9'
    ||| 'a' <= c <= 'f'
    ||| 'A' <= c <= 'F'
}

pub open spec fn hex_val(c: char) -> nat {
    if '0' <= c <= '9' {
        (c as nat - '0' as nat) as nat
    } else if 'a' <= c <= 'f' {
        (c as nat - 'a' as nat + 10) as nat
    } else {
        (c as nat - 'A' as nat + 10) as nat
    }
}

/// Value of the digits of `p` in base `radix`.
pub open spec fn digits_value(p: Seq<char>, radix: nat) -> nat
    decreases p.len(),
{
    if p.len() == 0 {
        0
    } else {
        digits_value(p.drop_last(), radix) * radix + hex_val(p.last())
    }
}

/// A decimal IPv4 octet: one to three digits, no leading zero, at most 255.
pub open spec fn octet_of(p: Seq<char>) -> Option<nat> {
    if 1 <= p.len() <= 3 && (forall|i: int| 0 <= i < p.len() ==> is_dec(#[trigger] p[i])) && (
    p.len() == 1 || p[0] != '0') && digits_value(p, 10) <= 255 {
        Some(digits_value(p, 10))
    } else {
        None
    }
}

/// An IPv6 group: one to four hex digits, either case.
pub open spec fn group_of(p: Seq<char>) -> Option<nat> {
    if 1 <= p.len() <= 4 && forall|i: int| 0 <= i < p.len() ==> is_hex(#[trigger] p[i]) {
        Some(digits_value(p, 16))
    } else {
        None
    }
}

// ── IPv4 ──

/// The IPv4 address `s` spells: four octets joined by dots.
pub open spec fn v4_of(s: Seq<char>) -> Option<u32> {
    let parts = split(s, '.');
    if parts.len() == 4 && (forall|i: int| 0 <= i < 4 ==> (#[trigger] octet_of(parts[i])) is Some) {
        Some(
            (octet_of(parts[0]).unwrap() * 0x1000000 + octet_of(parts[1]).unwrap() * 0x10000
                + octet_of(parts[2]).unwrap() * 0x100 + octet_of(parts[3]).unwrap()) as u32,
        )
    } else {
        None
    }
}

// ── IPv6 ──

/// The groups of colon-separated pieces, when every piece is a group.
pub open spec fn hex_groups(parts: Seq<Seq<char>>) -> Option<Seq<nat>> {
    if forall|i: int| 0 <= i < parts.len() ==> (#[trigger] group_of(parts[i])) is Some {
        Some(parts.map_values(|p: Seq<char>| group_of(p).unwrap()))
    } else {
        None
    }
}

/// Like `hex_groups`, but a last piece with a dot is an embedded IPv4
/// address standing for two groups.
pub open spec fn tail_groups(parts: Seq<Seq<char>>) -> Option<Seq<nat>> {
    if parts.len() >= 1 && parts.last().contains('.') {
        match (hex_groups(parts.drop_last()), v4_of(parts.last())) {
            (Some(h), Some(a)) => Some(h + seq![a as nat / 0x10000, a as nat % 0x10000]),
            _ => None,
        }
    } else {
        hex_groups(parts)
    }
}

/// The number the sixteen-bit groups `g` make, first group most significant.
pub open spec fn groups_value(g: Seq<nat>) -> nat
    decreases g.len(),
{
    if g.len() == 0 {
        0
    } else {
        groups_value(g.drop_last()) * 0x10000 + g.last()
    }
}

/// Position of the first `::` in `s` at or after `k`.
pub open spec fn find_double_colon(s: Seq<char>, k: int) -> Option<int>
    decreases s.len() - k,
{
    if k < 0 || k + 1 >= s.len() {
        None
    } else if s[k] == ':' && s[k + 1] == ':' {
        Some(k)
    } else {
        find_double_colon(s, k + 1)
    }
}

/// The IPv6 address `s` spells: eight groups joined by colons, the last two
/// possibly written as an IPv4 address; or fewer groups with one `::`
/// standing for at least one zero group.
pub open spec fn v6_of(s: Seq<char>) -> Option<u128> {
    match find_double_colon(s, 0) {
        Some(k) => {
            let l = s.subrange(0, k);
            let r = s.subrange(k + 2, s.len() as int);
            let lg = if l.len() == 0 { Some(Seq::<nat>::empty()) } else { hex_groups(split(l, ':')) };
            let rg = if r.len() == 0 { Some(Seq::<nat>::empty()) } else { tail_groups(split(r, ':')) };
            match (lg, rg) {
                (Some(a), Some(b)) => if a.len() + b.len() <= 7 {
                    Some(groups_value(a + Seq::new((8 - a.len() - b.len()) as nat, |i: int| 0nat) + b) as u128)
                } else {
                    None
                },
                _ => None,
            }
        },
        None => match tail_groups(split(s, ':')) {
            Some(g) => if g.len() == 8 { Some(groups_value(g) as u128) } else { None },
            None => None,
        },
    }
}

/// The address `s` spells, IPv4 tried first, as `IpAddr::from_str` reads it.
pub open spec fn ip_of(s: Seq<char>) -> Option<IpAddr> {
    match v4_of(s) {
        Some(a) => Some(IpAddr::V4(a)),
        None => match v6_of(s) {
            Some(a) => Some(IpAddr::V6(a)),
            None => None,
        },
    }
}

} // verus!

verus! {

// ── Parsing ──

pub open spec fn pow16(i: nat) -> nat
    decreases i,
{
    if i == 0 { 1 } else { 16 * pow16((i - 1) as nat) }
}

pub open spec fn pow_group(i: nat) -> nat
    decreases i,
{
    if i == 0 { 1 } else { 0x10000 * pow_group((i - 1) as nat) }
}

/// The values of a vector of groups, as naturals.
pub open spec fn nat_seq(g: Seq<u32>) -> Seq<nat> {
    g.map_values(|x: u32| x as nat)
}

/// The character sequences of a vector of pieces.
pub open spec fn views(parts: Seq<Vec<char>>) -> Seq<Seq<char>> {
    parts.map_values(|p: Vec<char>| p@)
}

proof fn lemma_pow16_small()
    ensures
        pow16(0) == 1,
        pow16(1) == 16,
        pow16(2) == 256,
        pow16(3) == 4096,
        pow16(4) == 65536,
{
    reveal_with_fuel(pow16, 5);
}

/// The value of the digits of `p` in base `radix` (10 or 16), when all are
/// digits of that base.
fn digits(p: &Vec<char>, radix: u32) -> (r: Option<u32>)
    requires
        p.len() <= 4,
        radix == 10 || radix == 16,
    ensures
        match r {
            Some(x) => x == digits_value(p@, radix as nat) && x < 0x10000 && (forall|i: int|
                0 <= i < p.len() ==> if radix == 10 {
                    is_dec(#[trigger] p@[i])
                } else {
                    is_hex(p@[i])
                }),
            None => exists|i: int|
                0 <= i < p.len() && !(if radix == 10 {
                    is_dec(#[trigger] p@[i])
                } else {
                    is_hex(p@[i])
                }),
        },
{
    let mut acc: u32 = 0;
    let mut i: usize = 0;
    while i < p.len()
        invariant
            i <= p.len() <= 4,
            radix == 10 || radix == 16,
            acc == digits_value(p@.take(i as int), radix as nat),
            acc < pow16(i as nat),
            forall|k: int|
                0 <= k < i ==> if radix == 10 {
                    is_dec(#[trigger] p@[k])
                } else {
                    is_hex(p@[k])
                },
        decreases p.len() - i,
    {
        let c = p[i];
        let d: u32;
        if '0' <= c && c <= '9' {
            d = (c as u32) - ('0' as u32);
        } else if radix == 16 && 'a' <= c && c <= 'f' {
            d = (c as u32) - ('a' as u32) + 10;
        } else if radix == 16 && 'A' <= c && c <= 'F' {
            d = (c as u32) - ('A' as u32) + 10;
        } else {
            return None;
        }
        proof {
            assert(p@.take(i + 1).drop_last() == p@.take(i as int));
            assert(p@.take(i + 1).last() == c);
            assert(pow16((i + 1) as nat) == 16 * pow16(i as nat));
            lemma_pow16_small();
        }
        acc = acc * radix + d;
        i = i + 1;
    }
    assert(p@.take(p.len() as int) == p@);
    proof {
        lemma_pow16_small();
    }
    Some(acc)
}

/// The decimal octet `p` spells.
pub fn octet(p: &Vec<char>) -> (r: Option<u32>)
    ensures
        match r {
            Some(x) => octet_of(p@) == Some(x as nat),
            None => octet_of(p@) is None,
        },
{
    if p.len() < 1 || p.len() > 3 {
        return None;
    }
    if p.len() > 1 && p[0] == '0' {
        return None;
    }
    match digits(p, 10) {
        Some(x) => {
            if x <= 255 {
                Some(x)
            } else {
                None
            }
        },
        None => None,
    }
}

/// The IPv6 group `p` spells.
pub fn group(p: &Vec<char>) -> (r: Option<u32>)
    ensures
        match r {
            Some(x) => group_of(p@) == Some(x as nat) && x < 0x10000,
            None => group_of(p@) is None,
        },
{
    if p.len() < 1 || p.len() > 4 {
        return None;
    }
    digits(p, 16)
}

/// The IPv4 address that `v[from..to]` spells.
pub fn parse_v4(v: &Vec<char>, from: usize, to: usize) -> (r: Option<u32>)
    requires
        from <= to <= v.len(),
    ensures
        r == v4_of(v@.subrange(from as int, to as int)),
{
    let ghost s = v@.subrange(from as int, to as int);
    let parts = split_on(v, from, to, '.');
    if parts.len() != 4 {
        return None;
    }
    let o0 = match octet(&parts[0]) { Some(x) => x, None => return None };
    let o1 = match octet(&parts[1]) { Some(x) => x, None => return None };
    let o2 = match octet(&parts[2]) { Some(x) => x, None => return None };
    let o3 = match octet(&parts[3]) { Some(x) => x, None => return None };
    proof {
        let ps = split(s, '.');
        assert(parts[0]@ == ps[0] && parts[1]@ == ps[1] && parts[2]@ == ps[2] && parts[3]@ == ps[3]);
        assert forall|i: int| 0 <= i < 4 implies (#[trigger] octet_of(ps[i])) is Some by {
            if i == 0 {} else if i == 1 {} else if i == 2 {} else {}
        }
    }
    Some(o0 * 0x1000000 + o1 * 0x10000 + o2 * 0x100 + o3)
}

} // verus!

verus! {

proof fn lemma_pow_group_top()
    ensures
        pow_group(8) == 0x1_0000_0000_0000_0000_0000_0000_0000_0000,
{
    reveal_with_fuel(pow_group, 9);
}

fn contains_char(p: &Vec<char>, c: char) -> (b: bool)
    ensures
        b == p@.contains(c),
{
    let mut i: usize = 0;
    while i < p.len()
        invariant
            i <= p.len(),
            forall|k: int| 0 <= k < i ==> p@[k] != c,
        decreases p.len() - i,
    {
        if p[i] == c {
            assert(p@[i as int] == c);
            return true;
        }
        i = i + 1;
    }
    false
}

/// The groups of the first `n` pieces, when each is a group.
fn hex_groups_exec(parts: &Vec<Vec<char>>, n: usize) -> (r: Option<Vec<u32>>)
    requires
        n <= parts.len(),
    ensures
        match r {
            Some(g) => hex_groups(views(parts@).take(n as int)) == Some(nat_seq(g@)) && g.len()
                == n && forall|i: int| 0 <= i < g.len() ==> #[trigger] g[i] < 0x10000,
            None => hex_groups(views(parts@).take(n as int)) is None,
        },
{
    let ghost ps = views(parts@).take(n as int);
    let mut g: Vec<u32> = Vec::new();
    let mut i: usize = 0;
    while i < n
        invariant
            i <= n <= parts.len(),
            ps == views(parts@).take(n as int),
            g.len() == i,
            forall|k: int| 0 <= k < i ==> (#[trigger] group_of(ps[k])) == Some(g[k] as nat),
            forall|k: int| 0 <= k < i ==> #[trigger] g[k] < 0x10000,
        decreases n - i,
    {
        assert(ps[i as int] == parts[i as int]@);
        match group(&parts[i]) {
            Some(x) => {
                g.push(x);
            },
            None => {
                assert(group_of(ps[i as int]) is None);
                return None;
            },
        }
        i = i + 1;
    }
    proof {
        assert forall|k: int| 0 <= k < ps.len() implies (#[trigger] group_of(ps[k])) is Some by {}
        assert(ps.map_values(|p: Seq<char>| group_of(p).unwrap()) =~= nat_seq(g@));
    }
    Some(g)
}

/// Groups of colon-separated pieces whose last piece may be an IPv4 address.
fn tail_groups_exec(parts: &Vec<Vec<char>>) -> (r: Option<Vec<u32>>)
    ensures
        match r {
            Some(g) => tail_groups(views(parts@)) == Some(nat_seq(g@)) && forall|i: int|
                0 <= i < g.len() ==> #[trigger] g[i] < 0x10000,
            None => tail_groups(views(parts@)) is None,
        },
{
    let ghost ps = views(parts@);
    let n = parts.len();
    if n >= 1 && contains_char(&parts[n - 1], '.') {
        assert(ps.last() == parts[n - 1]@);
        assert(ps.drop_last() == views(parts@).take(n - 1));
        let h = match hex_groups_exec(parts, n - 1) {
            Some(h) => h,
            None => return None,
        };
        let last = &parts[n - 1];
        let a = match parse_v4(last, 0, last.len()) {
            Some(a) => a,
            None => {
                assert(last@.subrange(0, last@.len() as int) == last@);
                return None;
            },
        };
        assert(last@.subrange(0, last@.len() as int) == last@);
        let mut g = h;
        g.push(a / 0x10000);
        g.push(a % 0x10000);
        assert(nat_seq(g@) =~= nat_seq(h@) + seq![a as nat / 0x10000, a as nat % 0x10000]);
        Some(g)
    } else {
        assert(views(parts@).take(n as int) == ps);
        hex_groups_exec(parts, n)
    }
}

/// The 128-bit number that eight groups make.
fn groups_u128(g: &Vec<u32>) -> (r: u128)
    requires
        g.len() == 8,
        forall|i: int| 0 <= i < g.len() ==> #[trigger] g[i] < 0x10000,
    ensures
        r == groups_value(nat_seq(g@)),
{
    let mut acc: u128 = 0;
    let mut i: usize = 0;
    proof {
        lemma_pow_group_top();
    }
    while i < 8
        invariant
            i <= 8 == g.len(),
            forall|k: int| 0 <= k < g.len() ==> #[trigger] g[k] < 0x10000,
            acc == groups_value(nat_seq(g@).take(i as int)),
            acc < pow_group(i as nat),
            pow_group(8) == 0x1_0000_0000_0000_0000_0000_0000_0000_0000,
        decreases 8 - i,
    {
        proof {
            assert(nat_seq(g@).take(i + 1).drop_last() == nat_seq(g@).take(i as int));
            assert(nat_seq(g@).take(i + 1).last() == g[i as int] as nat);
            assert(pow_group((i + 1) as nat) == 0x10000 * pow_group(i as nat));
            lemma_pow_group_mono(i as nat + 1, 8);
        }
        acc = acc * 0x10000 + (g[i] as u128);
        i = i + 1;
    }
    assert(nat_seq(g@).take(8) == nat_seq(g@));
    acc
}

proof fn lemma_pow_group_mono(i: nat, j: nat)
    requires
        i <= j,
    ensures
        pow_group(i) <= pow_group(j),
    decreases j - i,
{
    if i < j {
        lemma_pow_group_mono(i, (j - 1) as nat);
        assert(pow_group(j) == 0x10000 * pow_group((j - 1) as nat));
    }
}

/// Position of the first `::` in `v`.
fn find_double_colon_exec(v: &Vec<char>) -> (r: Option<usize>)
    ensures
        match r {
            Some(k) => find_double_colon(v@, 0) == Some(k as int) && k + 2 <= v.len(),
            None => find_double_colon(v@, 0) is None,
        },
{
    if v.len() < 2 {
        return None;
    }
    let mut k: usize = 0;
    while k < v.len() - 1
        invariant
            v.len() >= 2,
            k <= v.len() - 1,
            find_double_colon(v@, 0) == find_double_colon(v@, k as int),
        decreases v.len() - k,
    {
        if v[k] == ':' && v[k + 1] == ':' {
            return Some(k);
        }
        k = k + 1;
    }
    None
}

/// The IPv6 address `v` spells.
pub fn parse_v6(v: &Vec<char>) -> (r: Option<u128>)
    ensures
        r == v6_of(v@),
{
    let ghost s = v@;
    let n = v.len();
    match find_double_colon_exec(v) {
        Some(k) => {
            let ghost l = s.subrange(0, k as int);
            let ghost rr = s.subrange(k + 2, n as int);
            let a: Vec<u32> = if k == 0 {
                Vec::new()
            } else {
                let parts = split_on(v, 0, k, ':');
                assert(views(parts@) =~= split(l, ':'));
                assert(views(parts@).take(parts.len() as int) == views(parts@));
                match hex_groups_exec(&parts, parts.len()) {
                    Some(g) => g,
                    None => return None,
                }
            };
            let b: Vec<u32> = if k + 2 == n {
                Vec::new()
            } else {
                let parts = split_on(v, k + 2, n, ':');
                assert(views(parts@) =~= split(rr, ':'));
                match tail_groups_exec(&parts) {
                    Some(g) => g,
                    None => return None,
                }
            };
            let ghost la = if l.len() == 0 { Some(Seq::<nat>::empty()) } else { hex_groups(split(l, ':')) };
            let ghost lb = if rr.len() == 0 { Some(Seq::<nat>::empty()) } else { tail_groups(split(rr, ':')) };
            assert(la == Some(nat_seq(a@)));
            assert(lb == Some(nat_seq(b@)));
            if a.len() > 7 || b.len() > 7 - a.len() {
                return None;
            }
            let zeros = 8 - a.len() - b.len();
            let mut full: Vec<u32> = Vec::new();
            let mut i: usize = 0;
            while i < a.len()
                invariant
                    i <= a.len(),
                    full@ == a@.take(i as int),
                decreases a.len() - i,
            {
                full.push(a[i]);
                assert(a@.take(i + 1) == a@.take(i as int).push(a[i as int]));
                i = i + 1;
            }
            assert(a@.take(a.len() as int) == a@);
            let mut z: usize = 0;
            while z < zeros
                invariant
                    z <= zeros,
                    full@ == a@ + Seq::new(z as nat, |q: int| 0u32),
                decreases zeros - z,
            {
                full.push(0);
                assert(a@ + Seq::new((z + 1) as nat, |q: int| 0u32) =~= (a@ + Seq::new(
                    z as nat,
                    |q: int| 0u32,
                )).push(0u32));
                z = z + 1;
            }
            let mut j: usize = 0;
            while j < b.len()
                invariant
                    j <= b.len(),
                    full@ == a@ + Seq::new(zeros as nat, |q: int| 0u32) + b@.take(j as int),
                decreases b.len() - j,
            {
                full.push(b[j]);
                assert(b@.take(j + 1) == b@.take(j as int).push(b[j as int]));
                assert(a@ + Seq::new(zeros as nat, |q: int| 0u32) + b@.take(j + 1) =~= (a@
                    + Seq::new(zeros as nat, |q: int| 0u32) + b@.take(j as int)).push(b[j as int]));
                j = j + 1;
            }
            assert(b@.take(b.len() as int) == b@);
            assert(nat_seq(full@) =~= nat_seq(a@) + Seq::new(zeros as nat, |q: int| 0nat)
                + nat_seq(b@));
            assert(full.len() == 8);
            assert forall|q: int| 0 <= q < full.len() implies #[trigger] full[q] < 0x10000 by {
                if q < a.len() {
                    assert(full[q] == a[q]);
                } else if q < a.len() + zeros {
                } else {
                    assert(full[q] == b[q - a.len() - zeros]);
                }
            }
            let val = groups_u128(&full);
            Some(val)
        },
        None => {
            let parts = split_on(v, 0, n, ':');
            assert(v@.subrange(0, n as int) == s);
            assert(views(parts@) =~= split(s, ':'));
            match tail_groups_exec(&parts) {
                Some(g) => {
                    if g.len() == 8 {
                        Some(groups_u128(&g))
                    } else {
                        None
                    }
                },
                None => None,
            }
        },
    }
}

/// The address `s` spells, as `IpAddr::from_str` reads it.
pub fn parse_ip(s: &str) -> (r: Option<IpAddr>)
    ensures
        r == ip_of(s@),
{
    let v = crate::text::chars_of(s);
    assert(v@.subrange(0, v@.len() as int) == v@);
    match parse_v4(&v, 0, v.len()) {
        Some(a) => Some(IpAddr::V4(a)),
        None => match parse_v6(&v) {
            Some(a) => Some(IpAddr::V6(a)),
            None => None,
        },
    }
}

} // verus!
