//! The unlock gate: when a puzzle unlocks, whether a fetch must wait, and
//! the probe-then-wait plan a fetch follows.  Instants are seconds since
//! the Unix epoch; puzzles unlock at 05:00 UTC.

use chrono::Datelike;
use vstd::prelude::*;

use crate::key::PuzzleKey;

verus! {

/// A Gregorian leap year.
pub open spec fn spec_is_leap(y: int) -> bool {
    y % 4 == 0 && (y % 100 != 0 || y % 400 == 0)
}

/// Days from the epoch date to the start of year `y`.
pub open spec fn spec_days_before_year(y: int) -> int
    decreases y
        when y >= 1970
{
    if y <= 1970 {
        0
    } else {
        spec_days_before_year(y - 1) + if spec_is_leap(y - 1) {
            366int
        } else {
            365int
        }
    }
}

/// Days from the start of the year to the start of month `m`.
pub open spec fn spec_days_before_month(m: int, leap: bool) -> int {
    let b: int = if leap {
        1
    } else {
        0
    };
    if m <= 1 {
        0
    } else if m == 2 {
        31
    } else if m == 3 {
        59 + b
    } else if m == 4 {
        90 + b
    } else if m == 5 {
        120 + b
    } else if m == 6 {
        151 + b
    } else if m == 7 {
        181 + b
    } else if m == 8 {
        212 + b
    } else if m == 9 {
        243 + b
    } else if m == 10 {
        273 + b
    } else if m == 11 {
        304 + b
    } else {
        334 + b
    }
}

/// Days from the epoch to the civil date `y-m-d`.
pub open spec fn spec_epoch_days(y: int, m: int, d: int) -> int {
    spec_days_before_year(y) + spec_days_before_month(m, spec_is_leap(y)) + d - 1
}

/// The unlock instant of the civil date `y-m-d`: 05:00 UTC that day, in
/// seconds since the epoch.
pub open spec fn spec_unlock_time(y: int, m: int, d: int) -> int {
    86400 * spec_epoch_days(y, m, d) + 18000
}

fn is_leap(y: u32) -> (r: bool)
    ensures
        r == spec_is_leap(y as int),
{
    y % 4 == 0 && (y % 100 != 0 || y % 400 == 0)
}

fn days_before_year(y: u32) -> (r: u64)
    requires
        1970 <= y <= 9999,
    ensures
        r == spec_days_before_year(y as int),
        r <= 366 * (y - 1970),
{
    let mut acc: u64 = 0;
    let mut i: u32 = 1970;
    while i < y
        invariant
            1970 <= i <= y <= 9999,
            acc == spec_days_before_year(i as int),
            acc <= 366 * (i - 1970),
        decreases y - i,
    {
        if is_leap(i) {
            acc = acc + 366;
        } else {
            acc = acc + 365;
        }
        i = i + 1;
    }
    acc
}

fn days_before_month(m: u32, leap: bool) -> (r: u64)
    requires
        1 <= m <= 12,
    ensures
        r == spec_days_before_month(m as int, leap),
        r <= 335,
{
    let b: u64 = if leap {
        1
    } else {
        0
    };
    if m == 1 {
        0
    } else if m == 2 {
        31
    } else if m == 3 {
        59 + b
    } else if m == 4 {
        90 + b
    } else if m == 5 {
        120 + b
    } else if m == 6 {
        151 + b
    } else if m == 7 {
        181 + b
    } else if m == 8 {
        212 + b
    } else if m == 9 {
        243 + b
    } else if m == 10 {
        273 + b
    } else if m == 11 {
        304 + b
    } else {
        334 + b
    }
}

/// The unlock instant of 05:00 UTC on the civil date `y-m-d`.
pub fn unlock_time(y: u32, m: u32, d: u32) -> (r: u64)
    requires
        1970 <= y <= 9999,
        1 <= m <= 12,
        1 <= d <= 31,
    ensures
        r == spec_unlock_time(y as int, m as int, d as int),
{
    let days = days_before_year(y) + days_before_month(m, is_leap(y)) + (d - 1) as u64;
    86400 * days + 18000
}

/// The platform's release instant for a puzzle: 05:00 UTC on day `day`
/// of December of `year`.
pub fn puzzle_unlock_time(key: &PuzzleKey) -> (r: u64)
    requires
        key.wf(),
        key.year <= 9999,
    ensures
        r == spec_unlock_time(key.year as int, 12, key.day as int),
{
    unlock_time(key.year, 12, key.day)
}

/// What a fetch does, given the cache, the mode, and the clock.
#[derive(PartialEq, Eq, Structural, Debug, Clone, Copy)]
pub struct FetchPlan {
    /// Read the input from the cache instead of the network.
    pub use_cache: bool,
    /// Validate the credential with one probe request before waiting.
    pub probe_credential: bool,
    /// How long to block before the puzzle unlocks; zero when it is
    /// already open.
    pub wait_seconds: u64,
    /// The threshold was crossed while waiting: open the puzzle page.
    pub open_page: bool,
    /// Echo the input text once it is in hand.
    pub print_input: bool,
}

/// The unlock instant a fetch waits for: the puzzle's release instant,
/// or, in practice mode, 05:00 UTC of the current date.
pub open spec fn spec_gate_unlock(
    key: PuzzleKey,
    practice: bool,
    today: (int, int, int),
) -> int {
    if practice {
        spec_unlock_time(today.0, today.1, today.2)
    } else {
        spec_unlock_time(key.year as int, 12, key.day as int)
    }
}

/// Plan a fetch.  A cached input is used as it stands; in practice mode
/// the unlock of the current date still gates it.  An uncached fetch
/// waits for the puzzle's unlock, probing the credential first on day 1;
/// the page opens exactly when the fetch had to wait.
pub fn fetch(
    key: &PuzzleKey,
    cached: bool,
    practice: bool,
    never_print: bool,
    now: u64,
    today_y: u32,
    today_m: u32,
    today_d: u32,
) -> (r: FetchPlan)
    requires
        key.wf(),
        key.year <= 9999,
        1970 <= today_y <= 9999,
        1 <= today_m <= 12,
        1 <= today_d <= 31,
    ensures
        ({
            let unlock = spec_gate_unlock(
                *key,
                practice,
                (today_y as int, today_m as int, today_d as int),
            );
            let gated = !cached || practice;
            let waits = gated && now < unlock;
            &&& r.use_cache == cached
            &&& r.probe_credential == (!cached && now < unlock && key.day == 1)
            &&& r.wait_seconds == (if waits {
                unlock - now
            } else {
                0int
            })
            &&& r.open_page == waits
            &&& r.print_input == (if cached {
                waits && practice && !never_print
            } else {
                !never_print
            })
        }),
{
    let unlock: u64 = if practice {
        unlock_time(today_y, today_m, today_d)
    } else {
        puzzle_unlock_time(key)
    };
    let gated = !cached || practice;
    let waits = gated && now < unlock;
    let wait_seconds: u64 = if waits {
        unlock - now
    } else {
        0
    };
    FetchPlan {
        use_cache: cached,
        probe_credential: !cached && now < unlock && key.day == 1,
        wait_seconds,
        open_page: waits,
        print_input: if cached {
            waits && practice && !never_print
        } else {
            !never_print
        },
    }
}

/// The elapsed practice time when a correct answer lands: the clock, in
/// milliseconds, less the practice unlock of the current date.  The
/// caller checks the clock is past the unlock.
pub fn practice_elapsed_ms(now_ms: u64, unlock_s: u64) -> (r: u64)
    requires
        unlock_s * 1000 <= now_ms,
    ensures
        r == now_ms - unlock_s * 1000,
{
    proof {
        assert(unlock_s * 1000 <= u64::MAX ==> unlock_s * 1000 == (unlock_s as u64) as int * 1000)
            by (nonlinear_arith);
    }
    now_ms - unlock_s * 1000
}

/// Relies on `chrono::Utc::now` and `DateTime::timestamp_millis`: the
/// clock, in milliseconds since the Unix epoch.
#[verifier::external_body]
pub fn now_unix_millis() -> i64 {
    chrono::Utc::now().timestamp_millis()
}

/// Relies on `chrono::Utc::now` and chrono's `Datelike`: the current UTC
/// date, as (year, month, day); `month` and `day` are one-based, as the
/// `Datelike` documentation states.
#[verifier::external_body]
pub fn today_utc() -> (r: (i32, u32, u32))
    ensures
        1 <= r.1 <= 12,
        1 <= r.2 <= 31,
{
    let now = chrono::Utc::now();
    (now.year(), now.month(), now.day())
}

} // verus!
