//! The whole-number thresholds of the ranking policy.

use vstd::prelude::*;

verus! {

/// Candidates untouched for more than this many days count as stale.
pub const STALE_DAYS: i64 = 180;

/// Day number of 1970-01-01, the start of the Unix clock.
pub const UNIX_EPOCH_DAY: i64 = 2440588;

/// How long a cached search or evaluation stays usable, in nanoseconds (60 s).
pub const CACHE_TTL_NANOS: u128 = 60_000_000_000;

} // verus!
