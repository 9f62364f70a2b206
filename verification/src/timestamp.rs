//! Capture times: an instant on the UTC time line together with the offset of
//! the clock that took it.

use vstd::prelude::*;

verus! {

/// A date-time with offset, held as plain integers.
#[derive(Clone, Copy, Debug, PartialEq, Eq, Structural)]
pub struct Timestamp {
    /// Whole seconds since 1970-01-01T00:00:00Z.
    pub seconds: i64,
    /// Nanoseconds past `seconds`.
    pub nanos: u32,
    /// Local time minus UTC, in seconds.
    pub offset_seconds: i32,
}

impl Timestamp {
    /// Nanoseconds since the epoch.
    pub open spec fn instant(self) -> int {
        self.seconds * 1_000_000_000 + self.nanos
    }
}

/// Whole milliseconds that pass from `begin` to `end`, rounded down.
pub open spec fn elapsed_millis_between(begin: Timestamp, end: Timestamp) -> int {
    (end.instant() - begin.instant()) / 1_000_000
}

/// Computes the whole milliseconds from `begin` to `end`; negative when `end`
/// is the earlier of the two.
pub fn elapsed_millis(begin: Timestamp, end: Timestamp) -> (ms: i128)
    ensures
        ms == elapsed_millis_between(begin, end),
{
    let b: i128 = (begin.seconds as i128) * 1_000_000_000 + (begin.nanos as i128);
    let e: i128 = (end.seconds as i128) * 1_000_000_000 + (end.nanos as i128);
    let d: i128 = e - b;
    if d >= 0 {
        d / 1_000_000
    } else {
        let n: i128 = -d;
        let q: i128 = n / 1_000_000;
        let r: i128 = n % 1_000_000;
        assert(d == -(q * 1_000_000 + r));
        if r == 0 {
            assert(d == (-q) * 1_000_000);
            -q
        } else {
            assert(d == (-q - 1) * 1_000_000 + (1_000_000 - r));
            -q - 1
        }
    }
}

/// What `chrono` reads from a text in RFC 3339 form: `None` where it rejects
/// the text.
pub uninterp spec fn rfc3339_reading(text: Seq<char>) -> Option<Timestamp>;

/// Parses an RFC 3339 date-time with `chrono::DateTime::parse_from_rfc3339`.
///
/// Trusted: the result is a function of the text alone. The instant and the
/// offset are read off the parsed value with `timestamp`,
/// `timestamp_subsec_nanos` and `FixedOffset::local_minus_utc`.
#[verifier::external_body]
pub(crate) fn parse_rfc3339(text: &str) -> (r: Option<Timestamp>)
    ensures
        r == rfc3339_reading(text@),
{
    match chrono::DateTime::parse_from_rfc3339(text) {
        Ok(dt) => Some(Timestamp {
            seconds: dt.timestamp(),
            nanos: dt.timestamp_subsec_nanos(),
            offset_seconds: dt.offset().local_minus_utc(),
        }),
        Err(_) => None,
    }
}

/// Reads a capture time from its stored text.
pub fn timestamp_from_text(text: &str) -> (r: Option<Timestamp>)
    ensures
        r == rfc3339_reading(text@),
{
    parse_rfc3339(text)
}

/// The RFC 3339 text that `chrono` writes for a capture time; `None` where
/// the time is outside what it can hold.
pub uninterp spec fn rfc3339_writing(time: Timestamp) -> Option<Seq<char>>;

/// Writes a capture time with `chrono::DateTime::to_rfc3339`.
///
/// Trusted: the text is a function of the three integers alone. The value
/// that is written is made with `FixedOffset::east_opt`,
/// `DateTime::from_timestamp` and `DateTime::with_timezone`; `None` stands for
/// an offset or an instant that the first two refuse.
#[verifier::external_body]
pub(crate) fn format_rfc3339(time: Timestamp) -> (r: Option<String>)
    ensures
        match r {
            Some(text) => rfc3339_writing(time) == Some(text@),
            None => rfc3339_writing(time) is None,
        },
{
    let offset = chrono::FixedOffset::east_opt(time.offset_seconds)?;
    let utc = chrono::DateTime::from_timestamp(time.seconds, time.nanos)?;
    Some(utc.with_timezone(&offset).to_rfc3339())
}

/// Writes a capture time as the text under which it is stored.
pub fn timestamp_to_text(time: Timestamp) -> (r: Option<String>)
    ensures
        match r {
            Some(text) => rfc3339_writing(time) == Some(text@),
            None => rfc3339_writing(time) is None,
        },
{
    format_rfc3339(time)
}

} // verus!
