use vstd::prelude::*;

verus! {

/// Timestamps are counted in milliseconds since the Unix epoch. The library
/// keeps them inside the range a four-digit-year RFC 3339 string can carry:
/// `0` up to the last millisecond of year 9999.
pub const MAX_TS: i64 = 253402300799999;

/// Whether a millisecond count is a timestamp the library works with.
pub open spec fn valid_ts(t: int) -> bool {
    0 <= t <= MAX_TS as int
}

/// The RFC 3339 rendering of a millisecond timestamp, as produced by the
/// calendar library: a function of the timestamp alone.
pub uninterp spec fn rfc3339_of(t: i64) -> Seq<char>;

/// The millisecond timestamp an RFC 3339 string denotes, or `None` when the
/// string does not parse: a function of the characters alone.
pub uninterp spec fn ts_of(s: Seq<char>) -> Option<i64>;

/// Relies on `chrono::Utc::now`: the current wall-clock time. Nothing is
/// promised of the value; callers clamp it into range themselves. On a
/// system clock set before 1970, `Utc::now` itself panics; no argument of
/// this wrapper can rule that environment out.
#[verifier::external_body]
fn now_millis() -> i64 {
    chrono::Utc::now().timestamp_millis()
}

/// The current time, clamped into the library's timestamp range.
pub(crate) fn now_clamped() -> (t: i64)
    ensures
        valid_ts(t as int),
{
    let n = now_millis();
    if n < 0 {
        0
    } else if n > MAX_TS {
        MAX_TS
    } else {
        n
    }
}

/// Relies on `chrono::DateTime::from_timestamp_millis` and
/// `chrono::DateTime::to_rfc3339_opts`: every in-range millisecond count has
/// an RFC 3339 rendering, and `chrono::DateTime::parse_from_rfc3339` reads
/// that rendering back to the same instant.
#[verifier::external_body]
pub(crate) fn format_rfc3339(t: i64) -> (r: String)
    requires
        valid_ts(t as int),
    ensures
        r@ == rfc3339_of(t),
        ts_of(r@) == Some(t),
{
    chrono::DateTime::<chrono::Utc>::from_timestamp_millis(t)
        .unwrap()
        .to_rfc3339_opts(chrono::SecondsFormat::Millis, true)
}

/// Relies on `chrono::DateTime::parse_from_rfc3339` and
/// `chrono::DateTime::timestamp_millis`: the millisecond count denoted by an
/// RFC 3339 string, or `None` when it does not parse.
#[verifier::external_body]
pub(crate) fn parse_rfc3339_millis(s: &str) -> (r: Option<i64>)
    ensures
        r == ts_of(s@),
{
    match chrono::DateTime::parse_from_rfc3339(s) {
        Ok(d) => Some(d.timestamp_millis()),
        Err(_) => None,
    }
}

} // verus!
