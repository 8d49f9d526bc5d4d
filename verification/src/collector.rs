//! The collector's decisions: when master lists are refreshed, how often
//! rankings are polled, and which timestamp a snapshot carries. The
//! collector loop itself, which calls Penlight-Dream-API and MongoDB, runs
//! in the application.
//!
//! - Master lists refresh every `master_interval_secs`.
//! - Active rankings are polled every `poll_interval_secs`, at least 30 s.
//! - After a ranking's `endAt`, we keep polling for `post_end_window_secs`
//!   with the snapshot timestamp clamped to `endAt`.

use vstd::prelude::*;

verus! {

/// The shortest polling period, in seconds.
pub const MIN_POLL_SECS: u64 = 30;

/// The timestamp of a snapshot taken at `now` of a ranking ending at
/// `end_at`; an `end_at` of 0 means no end is known.
pub open spec fn snapshot_ts_spec(now: i64, end_at: i64) -> i64 {
    if end_at > 0 && now > end_at {
        end_at
    } else {
        now
    }
}

/// Clamps a snapshot timestamp to `end_at` when the ranking already ended.
pub fn snapshot_ts(now: i64, end_at: i64) -> (r: i64)
    ensures
        r == snapshot_ts_spec(now, end_at),
{
    if end_at > 0 && now > end_at {
        end_at
    } else {
        now
    }
}

/// Whether the master lists are refreshed now: when forced, when they
/// were never refreshed, or when at least `interval_secs` whole seconds
/// have passed since the last refresh.
pub fn master_refresh_due(force: bool, elapsed_secs: Option<u64>, interval_secs: u64) -> (r: bool)
    ensures
        r == (force || match elapsed_secs {
            None => true,
            Some(e) => e >= interval_secs,
        }),
{
    if force {
        return true;
    }
    match elapsed_secs {
        None => true,
        Some(e) => e >= interval_secs,
    }
}

/// The polling period: the configured one, but never under 30 seconds.
pub fn poll_period_secs(poll_interval_secs: u64) -> (r: u64)
    ensures
        r == (if poll_interval_secs >= MIN_POLL_SECS {
            poll_interval_secs
        } else {
            MIN_POLL_SECS
        }),
{
    if poll_interval_secs >= MIN_POLL_SECS {
        poll_interval_secs
    } else {
        MIN_POLL_SECS
    }
}

/// A snapshot never carries a time after the ranking's end, and before the
/// end it carries the time it was taken.
pub proof fn law_snapshot_within_ranking(now: i64, end_at: i64)
    ensures
        end_at > 0 ==> snapshot_ts_spec(now, end_at) <= end_at,
        now <= end_at || end_at <= 0 ==> snapshot_ts_spec(now, end_at) == now,
{
}

} // verus!
