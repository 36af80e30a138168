//! Calls into `chrono` for parsing and formatting timestamps, and reading the clock.
use vstd::prelude::*;

verus! {

/// The `strftime` pattern `%Y-%m-%dT%H:%M:%S`.
pub open spec fn iso_seconds_format() -> Seq<char> {
    seq!['%', 'Y', '-', '%', 'm', '-', '%', 'd', 'T', '%', 'H', ':', '%', 'M', ':', '%', 'S']
}

/// The `strftime` pattern `%Y-%m-%d`.
pub open spec fn ymd_format() -> Seq<char> {
    seq!['%', 'Y', '-', '%', 'm', '-', '%', 'd']
}

/// The UNIX timestamp that `chrono::DateTime::parse_from_rfc3339` reads from `s`,
/// or `None` when it rejects `s`.
pub uninterp spec fn spec_rfc3339_timestamp(s: Seq<char>) -> Option<i64>;

/// The UNIX timestamp of midnight (UTC) of the date that
/// `chrono::NaiveDate::parse_from_str` reads from `s` with pattern `fmt`,
/// or `None` when it rejects `s`.
pub uninterp spec fn spec_naive_date_timestamp(s: Seq<char>, fmt: Seq<char>) -> Option<i64>;

/// The UNIX timestamp that `chrono::DateTime::parse_from_str` reads from `s`
/// with pattern `fmt`, or `None` when it rejects `s`.
pub uninterp spec fn spec_datetime_timestamp(s: Seq<char>, fmt: Seq<char>) -> Option<i64>;

/// The text that `chrono` writes for the UTC instant `secs` seconds after the
/// epoch (or for the epoch itself when `secs` is out of `chrono`'s range) with
/// pattern `fmt`.
pub uninterp spec fn spec_format_timestamp(secs: i64, fmt: Seq<char>) -> Seq<char>;

/// Calls `chrono::DateTime::parse_from_rfc3339` and keeps the UNIX timestamp of
/// the result. The contract only names the result: nothing is claimed about
/// which texts `chrono` accepts.
#[verifier::external_body]
pub(crate) fn rfc3339_timestamp(s: &str) -> (r: Option<i64>)
    ensures
        r == spec_rfc3339_timestamp(s@),
{
    match chrono::DateTime::parse_from_rfc3339(s) {
        Ok(dt) => Some(dt.timestamp()),
        Err(_) => None,
    }
}

/// Calls `chrono::NaiveDate::parse_from_str` and keeps the UNIX timestamp of
/// midnight UTC on the parsed date. Only the result is named.
#[verifier::external_body]
pub(crate) fn naive_date_timestamp(s: &str, fmt: &str) -> (r: Option<i64>)
    ensures
        r == spec_naive_date_timestamp(s@, fmt@),
{
    match chrono::NaiveDate::parse_from_str(s, fmt) {
        Ok(d) => Some(d.and_time(chrono::NaiveTime::MIN).and_utc().timestamp()),
        Err(_) => None,
    }
}

/// Calls `chrono::DateTime::parse_from_str` and keeps the UNIX timestamp of the
/// result. Only the result is named.
#[verifier::external_body]
pub(crate) fn datetime_timestamp(s: &str, fmt: &str) -> (r: Option<i64>)
    ensures
        r == spec_datetime_timestamp(s@, fmt@),
{
    match chrono::DateTime::parse_from_str(s, fmt) {
        Ok(dt) => Some(dt.timestamp()),
        Err(_) => None,
    }
}

/// Whether `c` is a character that `chrono` writes for the pattern
/// [`iso_seconds_format`]: an ASCII digit, or `-`, `+`, `:` or `T`.
pub open spec fn timestamp_char(c: char) -> bool {
    ('0' <= c && c <= '9') || c == '-' || c == '+' || c == ':' || c == 'T'
}

/// Whether every character of `s` is a [`timestamp_char`].
pub open spec fn timestamp_text(s: Seq<char>) -> bool {
    forall|i: int| 0 <= i < s.len() ==> timestamp_char(#[trigger] s[i])
}

/// Calls `chrono::DateTime::from_timestamp(secs, 0)`, falls back to the
/// `Default` instant (the epoch) when `chrono` rejects `secs`, and formats the
/// instant with `fmt`. The pattern is held to the one valid pattern this
/// library uses, since `chrono` panics in `to_string` on an invalid one. The
/// text is named; of its characters the contract claims what `chrono`'s
/// formatting code shows for this pattern: the year, month, day, hour, minute
/// and second are written as ASCII digits (a year outside 0 to 9999 with a
/// leading `+` or `-`), between the pattern's own `-`, `T` and `:`.
#[verifier::external_body]
pub(crate) fn format_timestamp(secs: i64, fmt: &str) -> (r: String)
    requires
        fmt@ == iso_seconds_format(),
    ensures
        r@ == spec_format_timestamp(secs, fmt@),
        timestamp_text(r@),
{
    chrono::DateTime::from_timestamp(secs, 0).unwrap_or_default().format(fmt).to_string()
}

/// Reads the system clock through `chrono::Utc::now` and returns the UNIX
/// timestamp. Nothing is claimed about the value. `chrono` panics where the
/// system clock stands before 1970, which no precondition can rule out.
#[verifier::external_body]
pub(crate) fn utc_now_timestamp() -> (r: i64) {
    chrono::Utc::now().timestamp()
}

} // verus!
