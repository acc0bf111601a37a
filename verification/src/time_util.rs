//! Timestamps in UTC.

use vstd::prelude::*;

verus! {

/// A moment that the calendar covers: whole seconds since 1970 and nanoseconds.
pub open spec fn is_moment(seconds: int, nanos: int) -> bool {
    0 <= seconds <= 8_210_266_876_799 && 0 <= nanos < 1_000_000_000
}

/// The text of a moment in UTC under a format pattern.
pub uninterp spec fn utc_text(seconds: int, nanos: int, pattern: Seq<char>) -> Seq<char>;

/// The patterns in use.
pub open spec fn is_pattern(pattern: Seq<char>) -> bool {
    pattern == "%Y-%m-%dT%H:%M:%S+00:00"@ || pattern == "%Y-%m-%dT%H:%M:%S%.6f+00:00"@ || pattern
        == "%Y%m%dT%H%M%S%6fZ"@
}

/// `chrono::Utc::now`, as seconds since 1970 and nanoseconds below one second. Nothing is said of
/// which moment it is. A system clock set before 1970 makes the call panic.
#[verifier::external_body]
fn utc_now() -> (r: (i64, u32))
    ensures
        is_moment(r.0 as int, r.1 as int),
{
    let now = chrono::Utc::now();
    (now.timestamp(), now.timestamp_subsec_nanos())
}

/// `chrono::DateTime::from_timestamp`, then `format`: the text is a function of the moment and the
/// pattern. Moments outside the calendar and other patterns are left out, on which it fails.
#[verifier::external_body]
fn format_utc(seconds: i64, nanos: u32, pattern: &str) -> (r: String)
    requires
        is_moment(seconds as int, nanos as int),
        is_pattern(pattern@),
    ensures
        r@ == utc_text(seconds as int, nanos as int, pattern@),
{
    let moment = chrono::DateTime::from_timestamp(seconds, nanos).expect("within the calendar");
    moment.format(pattern).to_string()
}

/// A moment in ISO 8601 with the offset `+00:00`. The fraction has six digits, and is left out
/// where the moment falls on a whole second as far as microseconds show.
pub open spec fn iso_text(seconds: int, nanos: int) -> Seq<char> {
    utc_text(
        seconds,
        nanos,
        if nanos / 1000 == 0 {
            "%Y-%m-%dT%H:%M:%S+00:00"@
        } else {
            "%Y-%m-%dT%H:%M:%S%.6f+00:00"@
        },
    )
}

/// A moment in ISO 8601.
pub fn iso_of(seconds: i64, nanos: u32) -> (r: String)
    requires
        is_moment(seconds as int, nanos as int),
    ensures
        r@ == iso_text(seconds as int, nanos as int),
{
    if nanos / 1000 == 0 {
        format_utc(seconds, nanos, "%Y-%m-%dT%H:%M:%S+00:00")
    } else {
        format_utc(seconds, nanos, "%Y-%m-%dT%H:%M:%S%.6f+00:00")
    }
}

/// A moment to the microsecond, for file names.
pub open spec fn stamp_text(seconds: int, nanos: int) -> Seq<char> {
    utc_text(seconds, nanos, "%Y%m%dT%H%M%S%6fZ"@)
}

/// A moment to the microsecond, for file names.
pub fn stamp_of(seconds: i64, nanos: u32) -> (r: String)
    requires
        is_moment(seconds as int, nanos as int),
    ensures
        r@ == stamp_text(seconds as int, nanos as int),
{
    format_utc(seconds, nanos, "%Y%m%dT%H%M%S%6fZ")
}

/// The present moment in ISO 8601.
pub fn now_iso() -> (r: String)
    ensures
        exists|seconds: int, nanos: int|
            is_moment(seconds, nanos) && r@ == #[trigger] iso_text(seconds, nanos),
{
    let (seconds, nanos) = utc_now();
    let r = iso_of(seconds, nanos);
    assert(r@ == iso_text(seconds as int, nanos as int));
    r
}

/// The present moment to the microsecond, for file names.
pub fn restore_stamp() -> (r: String)
    ensures
        exists|seconds: int, nanos: int|
            is_moment(seconds, nanos) && r@ == #[trigger] stamp_text(seconds, nanos),
{
    let (seconds, nanos) = utc_now();
    let r = stamp_of(seconds, nanos);
    assert(r@ == stamp_text(seconds as int, nanos as int));
    r
}

} // verus!
