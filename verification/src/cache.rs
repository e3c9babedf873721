//! Policies of the proxy's in-memory caches: how long entries live and
//! which one goes when a cache is full.
use vstd::prelude::*;

verus! {

/// How long a cached entry stays valid, in seconds.
pub const CACHE_TTL_SECS: u64 = 300;

/// How long an unknown model or key is remembered, in seconds.
pub const NEGATIVE_CACHE_TTL_SECS: u64 = 30;

/// The lifetime of a cache's entries at a cleanup pass: halved once the
/// cache holds more than nine tenths of its cap.
pub open spec fn ttl_for(len: nat, max_entries: nat) -> nat {
    let prod: nat = if max_entries * 9 > usize::MAX { usize::MAX as nat } else { max_entries * 9 };
    if len > prod / 10 { CACHE_TTL_SECS as nat / 2 } else { CACHE_TTL_SECS as nat }
}

pub fn cleanup_ttl_secs(len: usize, max_entries: usize) -> (r: u64)
    ensures
        r == ttl_for(len as nat, max_entries as nat),
{
    let prod = match max_entries.checked_mul(9) {
        Some(p) => p,
        None => usize::MAX,
    };
    let threshold = prod / 10;
    if len > threshold {
        CACHE_TTL_SECS / 2
    } else {
        CACHE_TTL_SECS
    }
}

/// An entry written `age_ms` ago is still valid under a lifetime of
/// `ttl_secs`.
pub open spec fn fresh(age_ms: nat, ttl_secs: nat) -> bool {
    age_ms < ttl_secs * 1000
}

pub fn is_fresh(age_ms: u64, ttl_secs: u64) -> (r: bool)
    ensures
        r == fresh(age_ms as nat, ttl_secs as nat),
{
    (age_ms as u128) < (ttl_secs as u128) * 1000
}

/// What inserting into a capped cache does.
#[derive(Clone, Copy, Debug, PartialEq, Eq, Structural)]
pub enum CapStep {
    /// A cap of zero: nothing is cached.
    Skip,
    /// The key is cached already: its entry is replaced, the size stays.
    Replace,
    /// There is room: the entry is added.
    Insert,
    /// The cache is full: the oldest entry goes, then the entry is added.
    EvictOldest,
}

/// The step `insert_capped` takes. Refreshing a cached key never counts
/// against the cap, and a full cache keeps caching by evicting.
pub open spec fn cap_step(max_entries: nat, contains_key: bool, len: nat) -> CapStep {
    if max_entries == 0 {
        CapStep::Skip
    } else if contains_key {
        CapStep::Replace
    } else if len >= max_entries {
        CapStep::EvictOldest
    } else {
        CapStep::Insert
    }
}

pub fn insert_step(max_entries: usize, contains_key: bool, len: usize) -> (r: CapStep)
    ensures
        r == cap_step(max_entries as nat, contains_key, len as nat),
{
    if max_entries == 0 {
        CapStep::Skip
    } else if contains_key {
        CapStep::Replace
    } else if len >= max_entries {
        CapStep::EvictOldest
    } else {
        CapStep::Insert
    }
}

/// The size of a cache after an insert step.
pub open spec fn size_after(step: CapStep, len: nat) -> nat {
    match step {
        CapStep::Skip => len,
        CapStep::Replace => len,
        CapStep::Insert => len + 1,
        CapStep::EvictOldest => if len == 0 { 1 } else { len },
    }
}

/// A cache within its cap stays within it after any insert.
pub proof fn lemma_insert_keeps_cap(max_entries: nat, contains_key: bool, len: nat)
    requires
        len <= max_entries,
        contains_key ==> len > 0,
    ensures
        size_after(cap_step(max_entries, contains_key, len), len) <= max_entries,
{
}

/// The index of the oldest stamp: the first of the smallest.
pub open spec fn is_oldest(stamps: Seq<u64>, i: int) -> bool {
    &&& 0 <= i < stamps.len()
    &&& forall|j: int| 0 <= j < stamps.len() ==> stamps[i] <= #[trigger] stamps[j]
    &&& forall|j: int| 0 <= j < i ==> stamps[i] < #[trigger] stamps[j]
}

/// The entry an eviction removes, among entries stamped `stamps` in the
/// cache's iteration order: the first of the oldest.
pub fn oldest_index(stamps: &Vec<u64>) -> (r: Option<usize>)
    ensures
        stamps@.len() == 0 <==> r is None,
        r matches Some(i) ==> is_oldest(stamps@, i as int),
{
    if stamps.len() == 0 {
        return None;
    }
    let mut best: usize = 0;
    let mut i: usize = 1;
    while i < stamps.len()
        invariant
            1 <= i <= stamps@.len(),
            best < i,
            forall|j: int| 0 <= j < i ==> stamps@[best as int] <= #[trigger] stamps@[j],
            forall|j: int| 0 <= j < best ==> stamps@[best as int] < #[trigger] stamps@[j],
        decreases stamps.len() - i,
    {
        if stamps[i] < stamps[best] {
            best = i;
        }
        i = i + 1;
    }
    Some(best)
}

} // verus!
