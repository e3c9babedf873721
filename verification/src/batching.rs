//! When the log workers write out what they have buffered.
use vstd::prelude::*;

verus! {

/// A buffer of `buffered` events is written once it holds a batch.
pub fn flush_due(buffered: usize, batch: u64) -> (r: bool)
    ensures
        r == (buffered >= batch),
{
    buffered as u64 >= batch
}

/// Expired rows are pruned on every `every`-th successful flush (never
/// when `every` is zero).
pub open spec fn pruning_due(flushes: nat, every: nat) -> bool {
    every > 0 && flushes % every == 0
}

pub fn retention_due(flushes: u64, every: u64) -> (r: bool)
    ensures
        r == pruning_due(flushes as nat, every as nat),
{
    every > 0 && flushes % every == 0
}

/// A run of failed pushes is reported on its first failure and on every
/// tenth.
pub open spec fn failure_reported(consecutive: nat) -> bool {
    consecutive == 1 || consecutive % 10 == 0
}

pub fn report_failure(consecutive: u64) -> (r: bool)
    ensures
        r == failure_reported(consecutive as nat),
{
    consecutive == 1 || consecutive % 10 == 0
}

/// The count of consecutive failed pushes after one more push: reset by a
/// success, one more after a failure.
pub fn next_failures(consecutive: u64, success: bool) -> (r: u64)
    ensures
        success ==> r == 0,
        !success ==> r == (if consecutive == u64::MAX { u64::MAX as int } else { consecutive + 1 }),
{
    if success {
        0
    } else {
        consecutive.saturating_add(1)
    }
}

/// The log worker's periods: at least one second, at least one event per
/// batch.
pub fn at_least_one(x: u64) -> (r: u64)
    ensures
        r == (if x < 1 { 1 } else { x }),
{
    if x < 1 { 1 } else { x }
}

} // verus!

verus! {

/// The deadline value that means no operation is in flight.
pub const IDLE: u64 = 0xffff_ffff_ffff_ffff;

/// How often a watchdog checks its deadline: a quarter of the timeout,
/// kept between ten milliseconds and one second.
pub fn poll_interval_ms(timeout_ms: u64) -> (r: u64)
    ensures
        r == (if timeout_ms / 4 < 10 { 10 } else if timeout_ms / 4 > 1000 { 1000 } else { timeout_ms / 4 }),
{
    let q = timeout_ms / 4;
    if q < 10 {
        10
    } else if q > 1000 {
        1000
    } else {
        q
    }
}

/// The deadline of an operation started at `now`.
pub fn deadline_for(now_ms: u64, timeout_ms: u64) -> (r: u64)
    ensures
        r == (if now_ms + timeout_ms > u64::MAX { u64::MAX as int } else { now_ms + timeout_ms }),
{
    now_ms.saturating_add(timeout_ms)
}

/// Whether the operation under deadline `due` has overrun at `now`.
pub fn overdue(due: u64, now_ms: u64) -> (r: bool)
    ensures
        r == (due != IDLE && now_ms >= due),
{
    due != IDLE && now_ms >= due
}

} // verus!
