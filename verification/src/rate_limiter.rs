//! Per-address attempt limiting with temporary bans.
//!
//! Times are milliseconds on a monotonic clock the caller reads; durations
//! are given in seconds.
use vstd::prelude::*;

use crate::ip::IpAddr;

verus! {

/// Recent attempts of one address, and the end of its ban if it has one.
pub struct RateEntry {
    pub attempts: Vec<u64>,
    pub banned_until: Option<u128>,
}

/// The abstract state of one address.
pub struct EntryView {
    pub attempts: Seq<u64>,
    pub banned_until: Option<u128>,
}

impl RateEntry {
    pub open spec fn view(&self) -> EntryView {
        EntryView { attempts: self.attempts@, banned_until: self.banned_until }
    }
}

pub open spec fn fresh_entry() -> EntryView {
    EntryView { attempts: Seq::empty(), banned_until: None }
}

/// Attempts still inside a window of `window_ms` at `now`.
pub open spec fn in_window(attempts: Seq<u64>, now: u64, window_ms: nat) -> Seq<u64> {
    attempts.filter(|t: u64| t + window_ms > now)
}

/// What one attempt at `now` does to an address's state, and the outcome:
/// `Err(ms)` with the time left to wait when refused.
pub open spec fn attempt(
    e: EntryView,
    now: u64,
    max_attempts: u64,
    window_secs: u64,
    ban_secs: u64,
) -> (EntryView, Result<(), u128>) {
    match e.banned_until {
        Some(b) if now < b => (e, Err((b - now) as u128)),
        _ => {
            let prior = if e.banned_until is Some { Seq::<u64>::empty() } else { e.attempts };
            let kept = in_window(prior, now, window_secs as nat * 1000);
            if kept.len() >= max_attempts {
                (
                    EntryView {
                        attempts: kept,
                        banned_until: Some((now + ban_secs as nat * 1000) as u128),
                    },
                    Err((ban_secs as nat * 1000) as u128),
                )
            } else {
                (EntryView { attempts: kept.push(now), banned_until: None }, Ok(()))
            }
        },
    }
}

/// An address's state after a cleanup pass at `now`, or `None` when it is
/// dropped: an expired ban, or no attempt left in the window.
pub open spec fn cleaned(e: EntryView, now: u64, max_window_secs: u64) -> Option<EntryView> {
    match e.banned_until {
        Some(b) => if now >= b { None } else { Some(e) },
        None => {
            let kept = in_window(e.attempts, now, max_window_secs as nat * 1000);
            if kept.len() == 0 {
                None
            } else {
                Some(EntryView { attempts: kept, banned_until: None })
            }
        },
    }
}

pub open spec fn lookup(s: Seq<(IpAddr, RateEntry)>, ip: IpAddr) -> Option<EntryView>
    decreases s.len(),
{
    if s.len() == 0 {
        None
    } else if s.last().0 == ip {
        Some(s.last().1.view())
    } else {
        lookup(s.drop_last(), ip)
    }
}

pub open spec fn distinct_keys(s: Seq<(IpAddr, RateEntry)>) -> bool {
    forall|i: int, j: int| 0 <= i < j < s.len() ==> s[i].0 != s[j].0
}

/// Attempt limiter over at most `max_entries` addresses (one when zero).
///
/// The table is a vector holding each address once, not a concurrent map:
/// the limiter is changed only through `&mut self`, so what each operation
/// does to the table is stated exactly. Callers that share one limiter
/// between tasks hold it behind a lock.
pub struct RateLimiter {
    entries: Vec<(IpAddr, RateEntry)>,
    max_entries: usize,
}

impl RateLimiter {
    /// Each address appears once, and the table stays within its capacity.
    pub closed spec fn wf(&self) -> bool {
        &&& distinct_keys(self.entries@)
        &&& self.entries.len() <= if self.max_entries == 0 { 1 } else { self.max_entries as int }
    }

    /// The state of `ip`, when tracked.
    pub closed spec fn get(&self, ip: IpAddr) -> Option<EntryView> {
        lookup(self.entries@, ip)
    }

    /// Number of tracked addresses.
    pub closed spec fn size(&self) -> nat {
        self.entries.len() as nat
    }

    pub closed spec fn capacity(&self) -> nat {
        self.max_entries as nat
    }

    pub fn new(max_entries: usize) -> (r: Self)
        ensures
            r.wf(),
            r.size() == 0,
            r.capacity() == max_entries,
            forall|ip: IpAddr| r.get(ip) is None,
    {
        RateLimiter { entries: Vec::new(), max_entries }
    }

    /// Number of tracked addresses.
    pub fn len(&self) -> (n: usize)
        ensures
            n == self.size(),
    {
        self.entries.len()
    }
}


proof fn lemma_lookup_at(s: Seq<(IpAddr, RateEntry)>, i: int)
    requires
        distinct_keys(s),
        0 <= i < s.len(),
    ensures
        lookup(s, s[i].0) == Some(s[i].1.view()),
    decreases s.len(),
{
    if i < s.len() - 1 {
        assert(s.last().0 != s[i].0);
        assert(s.drop_last()[i] == s[i]);
        lemma_lookup_at(s.drop_last(), i);
    }
}

proof fn lemma_lookup_absent(s: Seq<(IpAddr, RateEntry)>, ip: IpAddr)
    requires
        forall|i: int| 0 <= i < s.len() ==> (#[trigger] s[i]).0 != ip,
    ensures
        lookup(s, ip) is None,
    decreases s.len(),
{
    if s.len() > 0 {
        assert(s.last() == s[s.len() - 1]);
        assert forall|i: int| 0 <= i < s.drop_last().len() implies (#[trigger] s.drop_last()[i]).0 != ip by {
            assert(s.drop_last()[i] == s[i]);
        }
        lemma_lookup_absent(s.drop_last(), ip);
    }
}

fn find_index(entries: &Vec<(IpAddr, RateEntry)>, ip: IpAddr) -> (r: Option<usize>)
    requires
        distinct_keys(entries@),
    ensures
        match r {
            Some(i) => i < entries.len() && entries@[i as int].0 == ip && lookup(entries@, ip)
                == Some(entries@[i as int].1.view()),
            None => lookup(entries@, ip) is None && forall|k: int|
                0 <= k < entries.len() ==> (#[trigger] entries@[k]).0 != ip,
        },
{
    let mut i: usize = 0;
    while i < entries.len()
        invariant
            i <= entries.len(),
            distinct_keys(entries@),
            forall|k: int| 0 <= k < i ==> (#[trigger] entries@[k]).0 != ip,
        decreases entries.len() - i,
    {
        if entries[i].0 == ip {
            proof {
                lemma_lookup_at(entries@, i as int);
            }
            return Some(i);
        }
        i = i + 1;
    }
    proof {
        lemma_lookup_absent(entries@, ip);
    }
    None
}

/// The attempts that `t + window_ms > now` keeps.
fn keep_in_window(attempts: &Vec<u64>, now: u64, window_secs: u64) -> (r: Vec<u64>)
    ensures
        r@ == in_window(attempts@, now, window_secs as nat * 1000),
{
    let window: u128 = window_secs as u128 * 1000;
    let mut r: Vec<u64> = Vec::new();
    let mut i: usize = 0;
    while i < attempts.len()
        invariant
            i <= attempts.len(),
            window == window_secs as nat * 1000,
            r@ == in_window(attempts@.take(i as int), now, window_secs as nat * 1000),
        decreases attempts.len() - i,
    {
        proof {
            assert(attempts@.take(i + 1).drop_last() == attempts@.take(i as int));
            assert(attempts@.take(i + 1).last() == attempts@[i as int]);
        }
        let t = attempts[i];
        proof {
            let w = window_secs as nat * 1000;
            let f = |x: u64| x + w > now;
            reveal_with_fuel(Seq::<_>::filter, 1);
            assert(in_window(attempts@.take(i + 1), now, w) == attempts@.take(i + 1).filter(f));
            assert(attempts@.take(i + 1).filter(f) == if f(t) {
                attempts@.take(i as int).filter(f).push(t)
            } else {
                attempts@.take(i as int).filter(f)
            });
        }
        if t as u128 + window > now as u128 {
            r.push(t);
        }
        i = i + 1;
    }
    assert(attempts@.take(attempts.len() as int) == attempts@);
    r
}

/// One attempt at `now` on an address's state.
pub fn attempt_exec(e: RateEntry, now: u64, max_attempts: u64, window_secs: u64, ban_secs: u64) -> (r: (RateEntry, Result<(), u128>))
    ensures
        (r.0.view(), r.1) == attempt(e.view(), now, max_attempts, window_secs, ban_secs),
{
    if let Some(b) = e.banned_until {
        if (now as u128) < b {
            let left = b - now as u128;
            return (e, Err(left));
        }
    }
    let prior = if e.banned_until.is_some() { Vec::new() } else { e.attempts };
    let mut kept = keep_in_window(&prior, now, window_secs);
    if kept.len() as u64 >= max_attempts {
        let ban_ms: u128 = ban_secs as u128 * 1000;
        (RateEntry { attempts: kept, banned_until: Some(now as u128 + ban_ms) }, Err(ban_ms))
    } else {
        kept.push(now);
        (RateEntry { attempts: kept, banned_until: None }, Ok(()))
    }
}

proof fn lemma_lookup_remove(s: Seq<(IpAddr, RateEntry)>, i: int, k: IpAddr)
    requires
        distinct_keys(s),
        0 <= i < s.len(),
    ensures
        distinct_keys(s.remove(i)),
        k != s[i].0 ==> lookup(s.remove(i), k) == lookup(s, k),
        lookup(s.remove(i), s[i].0) is None,
{
    let t = s.remove(i);
    assert forall|a: int, b: int| 0 <= a < b < t.len() implies t[a].0 != t[b].0 by {
        let a2 = if a < i { a } else { a + 1 };
        let b2 = if b < i { b } else { b + 1 };
        assert(t[a] == s[a2] && t[b] == s[b2]);
    }
    assert forall|j: int| 0 <= j < t.len() implies (#[trigger] t[j]).0 != s[i].0 by {
        let j2 = if j < i { j } else { j + 1 };
        assert(t[j] == s[j2]);
    }
    lemma_lookup_absent(t, s[i].0);
    if k != s[i].0 {
        if exists|j: int| 0 <= j < s.len() && (#[trigger] s[j]).0 == k {
            let j = choose|j: int| 0 <= j < s.len() && (#[trigger] s[j]).0 == k;
            lemma_lookup_at(s, j);
            let j2 = if j < i { j } else { j - 1 };
            assert(t[j2] == s[j]);
            lemma_lookup_at(t, j2);
        } else {
            lemma_lookup_absent(s, k);
            assert forall|j: int| 0 <= j < t.len() implies (#[trigger] t[j]).0 != k by {
                let j2 = if j < i { j } else { j + 1 };
                assert(t[j] == s[j2]);
            }
            lemma_lookup_absent(t, k);
        }
    }
}

proof fn lemma_push_distinct(s: Seq<(IpAddr, RateEntry)>, ip: IpAddr, e: RateEntry)
    requires
        distinct_keys(s),
        lookup(s, ip) is None,
    ensures
        distinct_keys(s.push((ip, e))),
        forall|k: IpAddr| #[trigger] lookup(s.push((ip, e)), k) == if k == ip {
            Some(e.view())
        } else {
            lookup(s, k)
        },
{
    let t = s.push((ip, e));
    assert forall|j: int| 0 <= j < s.len() implies (#[trigger] s[j]).0 != ip by {
        if s[j].0 == ip {
            lemma_lookup_at(s, j);
        }
    }
    assert forall|a: int, b: int| 0 <= a < b < t.len() implies t[a].0 != t[b].0 by {
        if b == s.len() {
            assert(t[a] == s[a]);
        } else {
            assert(t[a] == s[a] && t[b] == s[b]);
        }
    }
    assert forall|k: IpAddr| #[trigger] lookup(t, k) == if k == ip {
        Some(e.view())
    } else {
        lookup(s, k)
    } by {
        assert(t.drop_last() == s);
    }
}

impl RateLimiter {
    /// Record an attempt from `ip` at `now`, allowing at most `max_attempts`
    /// within `window_secs`; one more bans the address for `ban_secs`.
    /// A new address arriving when the table is full evicts another.
    pub fn check_and_record(
        &mut self,
        ip: IpAddr,
        now: u64,
        max_attempts: u64,
        window_secs: u64,
        ban_secs: u64,
    ) -> (r: Result<(), u128>)
        requires
            old(self).wf(),
        ensures
            final(self).wf(),
            final(self).capacity() == old(self).capacity(),
            ({
                let before = match old(self).get(ip) {
                    Some(e) => e,
                    None => fresh_entry(),
                };
                let (after, outcome) = attempt(before, now, max_attempts, window_secs, ban_secs);
                r == outcome && final(self).get(ip) == Some(after)
            }),
            old(self).get(ip) is Some || old(self).size() < old(self).capacity() || old(self).size() == 0
                ==> forall|k: IpAddr| k != ip ==> final(self).get(k) == old(self).get(k),
            old(self).get(ip) is None && old(self).size() >= old(self).capacity() && old(self).size() > 0
                ==> exists|ev: IpAddr|
                ev != ip && old(self).get(ev) is Some && final(self).get(ev) is None && forall|k: IpAddr|
                    k != ip && k != ev ==> final(self).get(k) == old(self).get(k),
    {
        let ghost s0 = self.entries@;
        match find_index(&self.entries, ip) {
            Some(i) => {
                let (_, e) = self.entries.remove(i);
                let ghost s1 = self.entries@;
                proof {
                    assert(s1 == s0.remove(i as int));
                    assert(e.view() == s0[i as int].1.view());
                    lemma_lookup_remove(s0, i as int, ip);
                    assert forall|k: IpAddr| k != ip implies lookup(s1, k) == lookup(s0, k) by {
                        lemma_lookup_remove(s0, i as int, k);
                    }
                }
                let (e2, outcome) = attempt_exec(e, now, max_attempts, window_secs, ban_secs);
                proof {
                    lemma_push_distinct(s1, ip, e2);
                }
                self.entries.push((ip, e2));
                outcome
            },
            None => {
                let ghost mut ev = ip;
                if self.entries.len() >= self.max_entries && self.entries.len() > 0 {
                    proof {
                        ev = s0[0].0;
                        lemma_lookup_at(s0, 0);
                        lemma_lookup_remove(s0, 0, ip);
                        assert forall|k: IpAddr| k != ev implies lookup(s0.remove(0), k) == lookup(s0, k) by {
                            lemma_lookup_remove(s0, 0, k);
                        }
                    }
                    self.entries.remove(0);
                    assert(self.entries@ == s0.remove(0));
                }
                let ghost s1 = self.entries@;
                let fresh = RateEntry { attempts: Vec::new(), banned_until: None };
                assert(fresh.view() == fresh_entry());
                let (e2, outcome) = attempt_exec(fresh, now, max_attempts, window_secs, ban_secs);
                proof {
                    lemma_push_distinct(s1, ip, e2);
                }
                self.entries.push((ip, e2));
                proof {
                    if s0.len() >= self.max_entries && s0.len() > 0 {
                        assert(ev != ip);
                        assert(lookup(self.entries@, ev) is None);
                        assert(lookup(s0, ev) is Some);
                        assert forall|k: IpAddr| k != ip && k != ev implies lookup(self.entries@, k) == lookup(s0, k) by {
                            assert(lookup(s1, k) == lookup(s0.remove(0), k));
                        }
                        assert(ev != ip && old(self).get(ev) is Some && self.get(ev) is None && forall|k: IpAddr|
                            k != ip && k != ev ==> self.get(k) == old(self).get(k));
                    }
                }
                outcome
            },
        }
    }

    /// Forget `ip`.
    pub fn clear(&mut self, ip: IpAddr)
        requires
            old(self).wf(),
        ensures
            final(self).wf(),
            final(self).capacity() == old(self).capacity(),
            final(self).get(ip) is None,
            forall|k: IpAddr| k != ip ==> final(self).get(k) == old(self).get(k),
    {
        let ghost s0 = self.entries@;
        if let Some(i) = find_index(&self.entries, ip) {
            proof {
                lemma_lookup_remove(s0, i as int, ip);
                assert forall|k: IpAddr| k != ip implies lookup(s0.remove(i as int), k) == lookup(s0, k) by {
                    lemma_lookup_remove(s0, i as int, k);
                }
            }
            self.entries.remove(i);
        }
    }
}

} // verus!

verus! {

/// `e` after a cleanup pass at `now`.
pub fn clean_entry(e: RateEntry, now: u64, max_window_secs: u64) -> (r: Option<RateEntry>)
    ensures
        match r {
            Some(x) => cleaned(e.view(), now, max_window_secs) == Some(x.view()),
            None => cleaned(e.view(), now, max_window_secs) is None,
        },
{
    match e.banned_until {
        Some(b) => {
            if now as u128 >= b {
                None
            } else {
                Some(e)
            }
        },
        None => {
            let kept = keep_in_window(&e.attempts, now, max_window_secs);
            if kept.len() == 0 {
                None
            } else {
                Some(RateEntry { attempts: kept, banned_until: None })
            }
        },
    }
}

/// What a cleanup pass leaves of the address `k` among entries `s`.
pub open spec fn cleaned_lookup(s: Seq<(IpAddr, RateEntry)>, k: IpAddr, now: u64, mw: u64) -> Option<EntryView> {
    match lookup(s, k) {
        Some(e) => cleaned(e, now, mw),
        None => None,
    }
}

impl RateLimiter {
    /// Drop expired bans and addresses with no attempt left within
    /// `max_window_secs` at `now`; trim the rest to that window.
    pub fn cleanup(&mut self, now: u64, max_window_secs: u64)
        requires
            old(self).wf(),
        ensures
            final(self).wf(),
            final(self).capacity() == old(self).capacity(),
            final(self).size() <= old(self).size(),
            forall|k: IpAddr| #[trigger] final(self).get(k) == match old(self).get(k) {
                Some(e) => cleaned(e, now, max_window_secs),
                None => None,
            },
    {
        let mut old_entries: Vec<(IpAddr, RateEntry)> = Vec::new();
        std::mem::swap(&mut old_entries, &mut self.entries);
        let ghost s0 = old_entries@;
        let n = old_entries.len();
        let mut fresh: Vec<(IpAddr, RateEntry)> = Vec::new();
        let mut i: usize = 0;
        while old_entries.len() > 0
            invariant
                i + old_entries.len() == n,
                n == s0.len(),
                distinct_keys(s0),
                old_entries@ == s0.subrange(i as int, n as int),
                distinct_keys(fresh@),
                fresh.len() <= i,
                forall|k: IpAddr| #[trigger] lookup(fresh@, k) == cleaned_lookup(s0.take(i as int), k, now, max_window_secs),
                forall|j: int| 0 <= j < fresh.len() ==> lookup(s0.take(i as int), (#[trigger] fresh@[j]).0) is Some,
            decreases old_entries.len(),
        {
            let (k, e) = old_entries.remove(0);
            let ghost t0 = s0.take(i as int);
            let ghost t1 = s0.take(i + 1);
            proof {
                assert(s0[i as int] == (k, e));
                assert(t1.drop_last() == t0);
                assert(t1.last() == (k, e));
                assert forall|q: int| 0 <= q < t0.len() implies (#[trigger] t0[q]).0 != k by {
                    assert(t0[q] == s0[q]);
                }
                lemma_lookup_absent(t0, k);
                assert(old_entries@ == s0.subrange(i + 1, n as int));
            }
            match clean_entry(e, now, max_window_secs) {
                Some(x) => {
                    proof {
                        lemma_push_distinct(fresh@, k, x);
                        assert forall|j: int| 0 <= j < fresh@.push((k, x)).len() implies lookup(t1, (#[trigger] fresh@.push((k, x))[j]).0) is Some by {
                            if j < fresh.len() {
                                assert(fresh@.push((k, x))[j] == fresh@[j]);
                            }
                        }
                    }
                    fresh.push((k, x));
                },
                None => {},
            }
            i = i + 1;
        }
        assert(s0.take(n as int) == s0);
        self.entries = fresh;
    }
}

} // verus!

verus! {

/// A ban holds: once an attempt is refused with a ban ending at `end`,
/// every later attempt before `end` is refused with the time left, and
/// changes nothing.
pub proof fn lemma_ban_holds(
    e: EntryView,
    now: u64,
    later: u64,
    max_attempts: u64,
    window_secs: u64,
    ban_secs: u64,
    max2: u64,
    window2: u64,
    ban2: u64,
)
    requires
        attempt(e, now, max_attempts, window_secs, ban_secs).0.banned_until matches Some(end) && later < end,
    ensures
        ({
            let banned = attempt(e, now, max_attempts, window_secs, ban_secs).0;
            let end = banned.banned_until->Some_0;
            attempt(banned, later, max2, window2, ban2) == (banned, Err::<(), u128>((end - later) as u128))
        }),
{
}

/// Accepted attempts never exceed the limit: after an accepted attempt the
/// address has at most `max_attempts` attempts, all within the window.
pub proof fn lemma_accepted_within_limit(e: EntryView, now: u64, max_attempts: u64, window_secs: u64, ban_secs: u64)
    requires
        attempt(e, now, max_attempts, window_secs, ban_secs).1 is Ok,
        window_secs > 0,
    ensures
        ({
            let after = attempt(e, now, max_attempts, window_secs, ban_secs).0;
            &&& after.attempts.len() <= max_attempts
            &&& after.banned_until is None
            &&& forall|i: int| 0 <= i < after.attempts.len() ==> #[trigger] after.attempts[i] + window_secs * 1000 > now
        }),
{
    let prior = if e.banned_until is Some { Seq::<u64>::empty() } else { e.attempts };
    let w = window_secs as nat * 1000;
    let kept = in_window(prior, now, w);
    assert forall|i: int| 0 <= i < kept.len() implies #[trigger] kept[i] + w > now by {
        let f = |t: u64| t + w > now;
        assert(kept == prior.filter(f));
        prior.lemma_filter_pred(f, i);
    }
    let after = attempt(e, now, max_attempts, window_secs, ban_secs).0;
    assert forall|i: int| 0 <= i < after.attempts.len() implies #[trigger] after.attempts[i] + window_secs * 1000 > now by {
        if i < kept.len() {
            assert(after.attempts[i] == kept[i]);
        }
    }
}

/// A fresh address (one never seen, or cleared) gets its first attempt
/// accepted whenever at least one attempt is allowed.
pub proof fn lemma_fresh_accepted(now: u64, max_attempts: u64, window_secs: u64, ban_secs: u64)
    requires
        max_attempts >= 1,
    ensures
        attempt(fresh_entry(), now, max_attempts, window_secs, ban_secs).1 is Ok,
        attempt(fresh_entry(), now, max_attempts, window_secs, ban_secs).0.attempts == seq![now],
{
    let f = |t: u64| t + window_secs as nat * 1000 > now;
    assert(Seq::<u64>::empty().filter(f) =~= Seq::<u64>::empty()) by {
        reveal_with_fuel(Seq::<_>::filter, 1);
    }
    assert(Seq::<u64>::empty().push(now) =~= seq![now]);
}

/// Going over the limit bans the address for `ban_secs` and reports that
/// wait.
pub proof fn lemma_over_limit_bans(e: EntryView, now: u64, max_attempts: u64, window_secs: u64, ban_secs: u64)
    requires
        e.banned_until is None,
        in_window(e.attempts, now, window_secs as nat * 1000).len() >= max_attempts,
    ensures
        attempt(e, now, max_attempts, window_secs, ban_secs).1 == Err::<(), u128>((ban_secs as nat * 1000) as u128),
        attempt(e, now, max_attempts, window_secs, ban_secs).0.banned_until == Some((now + ban_secs as nat * 1000) as u128),
{
}

} // verus!
