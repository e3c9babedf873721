use ait::batching::{deadline_for, flush_due, next_failures, overdue, poll_interval_ms, report_failure, retention_due, IDLE};
use ait::cache::{cleanup_ttl_secs, insert_step, is_fresh, oldest_index, CapStep};
use ait::ip::IpAddr;
use ait::rate_limiter::RateLimiter;

fn ip(n: u8) -> IpAddr {
    IpAddr::V4(0x0a00_0000 | n as u32)
}

#[test]
fn allows_within_limit_and_records_attempts() {
    let mut limiter = RateLimiter::new(10);
    for _ in 0..5 {
        assert!(limiter.check_and_record(ip(1), 1_000, 5, 60, 60).is_ok());
    }
    assert!(limiter.check_and_record(ip(1), 1_000, 5, 60, 60).is_err());
}

#[test]
fn ban_expires_and_allows_again() {
    let mut limiter = RateLimiter::new(10);
    for _ in 0..5 {
        let _ = limiter.check_and_record(ip(1), 1_000, 5, 60, 1);
    }
    assert_eq!(limiter.check_and_record(ip(1), 1_000, 5, 60, 1), Err(1_000));
    assert_eq!(limiter.check_and_record(ip(1), 1_500, 5, 60, 1), Err(500));
    assert!(limiter.check_and_record(ip(1), 2_100, 5, 60, 1).is_ok());
}

#[test]
fn window_rollover_resets_attempts() {
    let mut limiter = RateLimiter::new(10);
    for _ in 0..5 {
        assert!(limiter.check_and_record(ip(1), 1_000, 5, 1, 60).is_ok());
    }
    for _ in 0..5 {
        assert!(limiter.check_and_record(ip(1), 2_100, 5, 1, 60).is_ok());
    }
    assert!(limiter.check_and_record(ip(1), 2_100, 5, 1, 60).is_err());
}

#[test]
fn clear_resets_entry() {
    let mut limiter = RateLimiter::new(10);
    for _ in 0..5 {
        let _ = limiter.check_and_record(ip(1), 1_000, 5, 60, 60);
    }
    assert!(limiter.check_and_record(ip(1), 1_000, 5, 60, 60).is_err());
    limiter.clear(ip(1));
    assert!(limiter.check_and_record(ip(1), 1_000, 5, 60, 60).is_ok());
}

#[test]
fn cleanup_removes_stale_entries() {
    let mut limiter = RateLimiter::new(10);
    let _ = limiter.check_and_record(ip(1), 1_000, 5, 1, 60);
    limiter.cleanup(1_000, 1);
    assert_eq!(limiter.len(), 1);
    limiter.cleanup(2_100, 1);
    assert_eq!(limiter.len(), 0);
}

#[test]
fn cleanup_keeps_live_bans() {
    let mut limiter = RateLimiter::new(10);
    let _ = limiter.check_and_record(ip(1), 1_000, 0, 1, 60);
    limiter.cleanup(5_000, 1);
    assert_eq!(limiter.len(), 1);
    limiter.cleanup(61_000, 1);
    assert_eq!(limiter.len(), 0);
}

#[test]
fn evicts_entry_when_at_capacity() {
    let mut limiter = RateLimiter::new(1);
    assert!(limiter.check_and_record(ip(1), 1_000, 5, 60, 60).is_ok());
    assert!(limiter.check_and_record(ip(2), 1_000, 5, 60, 60).is_ok());
    assert_eq!(limiter.len(), 1);
}

#[test]
fn zero_attempts_allowed_bans_at_once() {
    let mut limiter = RateLimiter::new(10);
    assert_eq!(limiter.check_and_record(ip(3), 0, 0, 60, 2), Err(2_000));
}

/// What the gateway does with a cache on insert, driven by the library's
/// decisions: entries are (key, stamp) in iteration order.
fn insert_capped(map: &mut Vec<(String, u64)>, key: &str, stamp: u64, max_entries: usize) {
    let present = map.iter().any(|(k, _)| k == key);
    match insert_step(max_entries, present, map.len()) {
        CapStep::Skip => {}
        CapStep::Replace => {
            for e in map.iter_mut() {
                if e.0 == key {
                    e.1 = stamp;
                }
            }
        }
        CapStep::Insert => map.push((key.to_string(), stamp)),
        CapStep::EvictOldest => {
            let stamps: Vec<u64> = map.iter().map(|e| e.1).collect();
            if let Some(i) = oldest_index(&stamps) {
                map.remove(i);
            }
            map.push((key.to_string(), stamp));
        }
    }
}

fn has(map: &[(String, u64)], key: &str) -> bool {
    map.iter().any(|(k, _)| k == key)
}

#[test]
fn mod_insert_capped_respects_cap() {
    let mut map = Vec::new();
    for i in 0..5 {
        insert_capped(&mut map, &format!("m{i}"), 7, 5);
    }
    assert_eq!(map.len(), 5);
    insert_capped(&mut map, "m6", 7, 5);
    assert_eq!(map.len(), 5);
}

#[test]
fn mod_insert_capped_zero_cap_caches_nothing() {
    let mut map = Vec::new();
    insert_capped(&mut map, "m0", 7, 0);
    assert!(map.is_empty());
}

#[test]
fn mod_insert_capped_evicts_oldest_when_full() {
    let mut map = Vec::new();
    for i in 0..3u64 {
        insert_capped(&mut map, &format!("m{i}"), 1000 + i, 3);
    }
    insert_capped(&mut map, "m3", 1003, 3);
    assert_eq!(map.len(), 3);
    assert!(!has(&map, "m0"), "oldest entry is evicted");
    assert!(has(&map, "m3"), "newest entry is kept");
}

#[test]
fn mod_insert_capped_bounds_provider_cache() {
    let mut map = Vec::new();
    for i in 0..5 {
        insert_capped(&mut map, &format!("p{i}"), 7, 5);
    }
    assert_eq!(map.len(), 5);
    insert_capped(&mut map, "p6", 7, 5);
    assert_eq!(map.len(), 5, "provider cache must honour the same cap");
}

#[test]
fn resolve_insert_capped_respects_cap() {
    let mut map = Vec::new();
    for i in 0..5 {
        insert_capped(&mut map, &format!("m{i}"), 7, 5);
    }
    assert_eq!(map.len(), 5);
    insert_capped(&mut map, "m6", 7, 5);
    assert_eq!(map.len(), 5);
}

#[test]
fn resolve_insert_capped_zero_cap_caches_nothing() {
    let mut map = Vec::new();
    insert_capped(&mut map, "m0", 7, 0);
    assert!(map.is_empty());
}

#[test]
fn resolve_insert_capped_evicts_oldest_when_full() {
    let mut map = Vec::new();
    for i in 0..3u64 {
        insert_capped(&mut map, &format!("m{i}"), 1000 + i, 3);
    }
    insert_capped(&mut map, "m3", 1003, 3);
    assert_eq!(map.len(), 3);
    assert!(!has(&map, "m0"), "oldest entry is evicted");
    assert!(has(&map, "m3"), "newest entry is kept");
}

#[test]
fn resolve_insert_capped_bounds_provider_cache() {
    let mut map = Vec::new();
    for i in 0..5 {
        insert_capped(&mut map, &format!("p{i}"), 7, 5);
    }
    assert_eq!(map.len(), 5);
    insert_capped(&mut map, "p6", 7, 5);
    assert_eq!(map.len(), 5, "provider cache must honour the same cap");
}

#[test]
fn insert_step_decisions() {
    assert_eq!(insert_step(0, false, 0), CapStep::Skip);
    assert_eq!(insert_step(0, true, 3), CapStep::Skip);
    assert_eq!(insert_step(5, false, 4), CapStep::Insert);
    assert_eq!(insert_step(5, false, 5), CapStep::EvictOldest);
    assert_eq!(insert_step(5, true, 5), CapStep::Replace);
    assert_eq!(oldest_index(&vec![30, 10, 20, 10]), Some(1));
    assert_eq!(oldest_index(&vec![5]), Some(0));
    assert_eq!(oldest_index(&vec![]), None);
}

#[test]
fn cleanup_caches_uses_aggressive_ttl_over_threshold() {
    assert_eq!(cleanup_ttl_secs(10, 10), 150);
    assert_eq!(cleanup_ttl_secs(9, 10), 300);
    assert_eq!(cleanup_ttl_secs(1, 1000), 300);
    assert!(!is_fresh(200_000, 150));
    assert!(is_fresh(200_000, 300));
    assert!(!is_fresh(300_000, 300));
}

#[test]
fn batching_decisions() {
    assert!(flush_due(100, 100));
    assert!(!flush_due(99, 100));
    assert!(retention_due(200, 100));
    assert!(!retention_due(150, 100));
    assert!(!retention_due(0, 0));
    assert!(report_failure(1));
    assert!(!report_failure(2));
    assert!(report_failure(20));
    assert_eq!(next_failures(4, true), 0);
    assert_eq!(next_failures(4, false), 5);
}

#[test]
fn watchdog_decisions() {
    assert_eq!(poll_interval_ms(10_000), 1_000);
    assert_eq!(poll_interval_ms(100), 25);
    assert_eq!(poll_interval_ms(8), 10);
    assert_eq!(deadline_for(5, 10), 15);
    assert_eq!(deadline_for(u64::MAX - 1, 10), u64::MAX);
    assert!(overdue(15, 15));
    assert!(!overdue(15, 14));
    assert!(!overdue(IDLE, u64::MAX));
}
