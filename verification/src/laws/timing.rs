//! What the clock and the timeout come to, in numbers.

use vstd::prelude::*;

use crate::clock::{timeout_from_setting, timeout_ms, timestamp_to_ms, toml_integer};
use crate::session::{fresh, CycleSession};

verus! {

/// A setting that is not negative is the timeout, to the millisecond; a negative
/// one gives no time at all, and a missing one two seconds.
pub proof fn law_timeout_of_setting(setting: Option<i64>, timeout: u64)
    requires
        call_ensures(timeout_from_setting, (setting,), timeout),
    ensures
        setting matches Some(n) ==> n >= 0 ==> timeout == n,
        setting matches Some(n) ==> n < 0 ==> timeout == 0,
        setting is None ==> timeout == 2000,
{
}

/// The same holds of the integer that a manifest gives for `cycle_timeout_ms`;
/// without a manifest, or without such an integer in it, the timeout is two
/// seconds.
pub proof fn law_timeout_of_manifest(manifest: Option<&str>, timeout: u64)
    requires
        call_ensures(timeout_ms, (manifest,), timeout),
    ensures
        manifest matches Some(content) ==> match toml_integer(content@, "cycle_timeout_ms"@) {
            Some(n) => (n >= 0 ==> timeout == n) && (n < 0 ==> timeout == 0),
            None => timeout == 2000,
        },
        manifest is None ==> timeout == 2000,
{
}

/// A longer setting never makes for a shorter timeout, and two settings that
/// are not negative are as far apart as their timeouts.
pub proof fn law_timeouts_keep_their_distance(a: i64, b: i64, short: u64, long: u64)
    requires
        a <= b,
        call_ensures(timeout_from_setting, (Some(a),), short),
        call_ensures(timeout_from_setting, (Some(b),), long),
    ensures
        short <= long,
        a >= 0 ==> long - short == b - a,
{
}

/// A time since the epoch keeps its count of milliseconds; times before it wrap
/// round.
pub proof fn law_timestamp_keeps_count(millis: i64, ms: u64)
    requires
        call_ensures(timestamp_to_ms, (millis,), ms),
    ensures
        millis >= 0 ==> ms == millis,
        millis < 0 ==> ms - millis == 0x1_0000_0000_0000_0000,
{
}

/// A session is active up to the timeout after its last press and no longer,
/// whatever its order, its place in it and the panes that it remembers.
pub proof fn law_active_until_timeout(s: CycleSession, now: u64, timeout: u64, active: bool)
    requires
        call_ensures(fresh, (&s, now, timeout), active),
    ensures
        active <==> now <= s.last_press_at + timeout,
{
}

/// Two sessions with the same last press are active at the same times.
pub proof fn law_activity_rests_on_last_press(
    a: CycleSession,
    b: CycleSession,
    now: u64,
    timeout: u64,
    first: bool,
    second: bool,
)
    requires
        a.last_press_at == b.last_press_at,
        call_ensures(fresh, (&a, now, timeout), first),
        call_ensures(fresh, (&b, now, timeout), second),
    ensures
        first == second,
{
}

} // verus!
