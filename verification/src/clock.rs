use vstd::prelude::*;

verus! {

/// Relies on std::time::SystemTime::now: reads the wall clock and converts it
/// to whole seconds since the Unix epoch. `None` when the clock stands before
/// the epoch. Which instant comes back depends on the machine's clock, so
/// only the range is promised: `duration_since` the epoch is nonnegative,
/// and the conversion saturates rather than wrap.
#[verifier::external_body]
fn clock_unix_seconds() -> (r: Option<i64>)
    ensures
        match r {
            Some(seconds) => seconds >= 0,
            None => true,
        },
{
    std::time::SystemTime::now()
        .duration_since(std::time::UNIX_EPOCH)
        .ok()
        .map(|duration| i64::try_from(duration.as_secs()).unwrap_or(i64::MAX))
}

/// Relies on chrono's Local::timestamp_opt and DateTime::format: renders a
/// Unix timestamp as "%Y-%m-%d %H:%M" in the machine's local time zone, or
/// `None` when the timestamp lies outside chrono's representable range. The
/// result depends on the machine's time zone, so nothing is promised of it.
#[verifier::external_body]
fn local_datetime_display(timestamp: i64) -> Option<String> {
    <chrono::Local as chrono::TimeZone>::timestamp_opt(&chrono::Local, timestamp, 0)
        .single()
        .map(|datetime| datetime.format("%Y-%m-%d %H:%M").to_string())
}

/// The current time in whole seconds since the Unix epoch; 0 when the clock
/// stands before the epoch, so never negative. Operations never read the
/// clock themselves: they take the current time as an argument, and callers
/// pass this value in.
pub fn unix_now() -> (r: i64)
    ensures
        r >= 0,
{
    match clock_unix_seconds() {
        Some(seconds) => seconds,
        None => 0,
    }
}

/// Renders a set timestamp in local time; an unset (zero or negative) or
/// unrepresentable timestamp reads "Unknown".
pub fn format_unix_timestamp(timestamp: i64) -> (r: String)
    ensures
        timestamp <= 0 ==> r@ == "Unknown"@,
{
    if timestamp <= 0 {
        return "Unknown".to_owned();
    }
    match local_datetime_display(timestamp) {
        Some(rendered) => rendered,
        None => "Unknown".to_owned(),
    }
}

} // verus!
