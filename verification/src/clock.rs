//! The time of a press, and how long a session stays active after it.

use vstd::prelude::*;

verus! {

/// How long a session stays active where the manifest does not say, in
/// milliseconds.
pub const DEFAULT_TIMEOUT_MS: u64 = 2000;

/// The milliseconds since the Unix epoch, by `chrono::Utc::now` and
/// `DateTime::timestamp_millis`. Claimed: the count is not negative, since
/// `Utc::now` gives no time before the epoch. Which time it is depends on the
/// machine's clock. Where that clock stands before the epoch, or past the years
/// that `chrono` can hold, `Utc::now` panics.
#[verifier::external_body]
fn utc_now_millis() -> (r: i64)
    ensures
        r >= 0,
{
    chrono::Utc::now().timestamp_millis()
}

/// Whether `ms` is what the clock can read: a count that a call of
/// `utc_now_millis` returns.
pub closed spec fn clock_reading(ms: u64) -> bool {
    exists|t: i64| #[trigger] call_ensures(utc_now_millis, (), t) && ms == t
}

/// The current time, in milliseconds since the Unix epoch.
pub fn now_ms() -> (r: u64)
    ensures
        clock_reading(r),
        r <= i64::MAX,
{
    let t: i64 = utc_now_millis();
    assert(call_ensures(utc_now_millis, (), t));
    timestamp_to_ms(t)
}

/// The current time is what the clock reads, to the millisecond.
proof fn law_now_is_clock_reading(ms: u64)
    requires
        call_ensures(now_ms, (), ms),
    ensures
        exists|t: i64| #[trigger] call_ensures(utc_now_millis, (), t) && ms == t,
{
}

/// The unsigned count that stands for a count of milliseconds since the Unix
/// epoch: the same one, or, before the epoch, the one that wraps round from the
/// top.
pub fn timestamp_to_ms(millis: i64) -> (r: u64)
    ensures
        r == if millis >= 0 {
            millis as int
        } else {
            millis + u64::MAX + 1
        },
{
    proof {
        assert(millis < 0 ==> (millis as u64) == millis + 0x1_0000_0000_0000_0000)
            by (bit_vector);
    }
    millis as u64
}

/// The integer that the TOML document `content` gives for the top-level key
/// `key`: none where the document does not parse, has no such key, or gives it
/// another type.
pub uninterp spec fn toml_integer(content: Seq<char>, key: Seq<char>) -> Option<i64>;

/// Looks up a top-level integer of a TOML document, by `toml::Value`'s
/// `FromStr`, then `Value::get` and `Value::as_integer`. Claimed: the answer
/// depends on the document and the key alone.
#[verifier::external_body]
fn lookup_toml_integer(content: &str, key: &str) -> (r: Option<i64>)
    ensures
        r == toml_integer(content@, key@),
{
    match content.parse::<toml::Value>() {
        Ok(document) => match document.get(key) {
            Some(item) => item.as_integer(),
            None => None,
        },
        Err(_) => None,
    }
}

/// The timeout that a manifest setting asks for: a negative one counts as zero,
/// a missing one as the default.
pub open spec fn timeout_for(setting: Option<i64>) -> u64 {
    match setting {
        Some(n) => if n < 0 {
            0
        } else {
            n as u64
        },
        None => DEFAULT_TIMEOUT_MS,
    }
}

/// The timeout that a manifest setting asks for.
pub fn timeout_from_setting(setting: Option<i64>) -> (r: u64)
    ensures
        r == timeout_for(setting),
{
    match setting {
        Some(n) => if n < 0 {
            0
        } else {
            n as u64
        },
        None => DEFAULT_TIMEOUT_MS,
    }
}

/// The timeout that the plugin manifest sets under `cycle_timeout_ms`, falling
/// back to the default where there is no manifest to read.
pub fn timeout_ms(manifest: Option<&str>) -> (r: u64)
    ensures
        r == match manifest {
            Some(content) => timeout_for(toml_integer(content@, "cycle_timeout_ms"@)),
            None => DEFAULT_TIMEOUT_MS,
        },
{
    match manifest {
        Some(content) => timeout_from_setting(lookup_toml_integer(content, "cycle_timeout_ms")),
        None => DEFAULT_TIMEOUT_MS,
    }
}

} // verus!
