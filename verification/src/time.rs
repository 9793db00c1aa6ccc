//! Calendar timestamps, normalized to UTC.
//!
//! A [`Timestamp`] holds the calendar fields of a UTC instant as plain
//! integers, so that the rest of the library can reason about dates
//! directly. Translating between a timestamp and its RFC 3339 text form is
//! delegated to the `chrono` crate behind a small trusted boundary.

use chrono::Datelike;
use chrono::TimeZone;
use chrono::Timelike;
use vstd::prelude::*;

verus! {

/// A UTC instant, broken into calendar fields.
#[derive(Clone, Copy, PartialEq, Eq, Structural, Debug)]
pub struct Timestamp {
    pub year: u32,
    pub month: u8,
    pub day: u8,
    pub hour: u8,
    pub minute: u8,
    pub second: u8,
    pub nanosecond: u32,
}

/// Whether `y` is a leap year in the proleptic Gregorian calendar.
pub open spec fn is_leap_year(y: int) -> bool {
    (y % 4 == 0 && y % 100 != 0) || y % 400 == 0
}

/// The number of days in month `m` of year `y`.
pub open spec fn days_in_month(y: int, m: int) -> int
    recommends
        1 <= m <= 12,
{
    if m == 2 {
        if is_leap_year(y) {
            29
        } else {
            28
        }
    } else if m == 4 || m == 6 || m == 9 || m == 11 {
        30
    } else {
        31
    }
}

impl Timestamp {
    /// A well-formed timestamp: a real calendar date with a four-digit
    /// year, and a time of day without leap seconds.
    pub open spec fn wf(self) -> bool {
        &&& self.year <= 9999
        &&& 1 <= self.month <= 12
        &&& 1 <= self.day <= days_in_month(self.year as int, self.month as int)
        &&& self.hour <= 23
        &&& self.minute <= 59
        &&& self.second <= 59
        &&& self.nanosecond < 1_000_000_000
    }

    /// Builds a timestamp from its fields, rejecting any combination that
    /// is not a real UTC calendar time.
    pub fn new(
        year: u32,
        month: u8,
        day: u8,
        hour: u8,
        minute: u8,
        second: u8,
        nanosecond: u32,
    ) -> (r: Option<Timestamp>)
        ensures
            ({
                let t = Timestamp { year, month, day, hour, minute, second, nanosecond };
                if t.wf() {
                    r == Some(t)
                } else {
                    r is None
                }
            }),
    {
        let t = Timestamp { year, month, day, hour, minute, second, nanosecond };
        if year <= 9999 && 1 <= month && month <= 12 && 1 <= day && day <= days_in_month_exec(
            year,
            month,
        ) && hour <= 23 && minute <= 59 && second <= 59 && nanosecond < 1_000_000_000 {
            Some(t)
        } else {
            None
        }
    }
}

/// The calendar fields an RFC 3339 text denotes once normalized to UTC:
/// year, month, day, hour, minute, second, nanosecond. `None` when the
/// text is not valid RFC 3339.
pub uninterp spec fn rfc3339_parts(s: Seq<char>) -> Option<(i64, u8, u8, u8, u8, u8, u32)>;

/// The RFC 3339 text of a well-formed timestamp.
pub uninterp spec fn rfc3339_of(t: Timestamp) -> Seq<char>;

/// The field tuple of a timestamp, as [`rfc3339_parts`] reports it.
pub open spec fn parts_of(t: Timestamp) -> (i64, u8, u8, u8, u8, u8, u32) {
    (t.year as i64, t.month, t.day, t.hour, t.minute, t.second, t.nanosecond)
}

/// Prints a timestamp as RFC 3339 text with a `Z` offset, sub-second
/// digits appearing only when nonzero.
///
/// Relies on chrono's `Utc.with_ymd_and_hms`, `with_nanosecond` and
/// `DateTime::to_rfc3339_opts(SecondsFormat::AutoSi, true)`: a well-formed
/// timestamp always constructs, and the printed text parses back (through
/// `parse_from_rfc3339` and UTC normalization, the reading this library
/// uses) to exactly the same calendar fields.
#[verifier::external_body]
pub(crate) fn format_rfc3339(t: &Timestamp) -> (r: String)
    requires
        t.wf(),
    ensures
        r@ == rfc3339_of(*t),
        rfc3339_parts(r@) == Some(parts_of(*t)),
{
    let (y, mo, d) = (t.year as i32, t.month as u32, t.day as u32);
    let (h, mi, s) = (t.hour as u32, t.minute as u32, t.second as u32);
    let dt = chrono::Utc.with_ymd_and_hms(y, mo, d, h, mi, s).unwrap();
    let dt = dt.with_nanosecond(t.nanosecond).unwrap();
    dt.to_rfc3339_opts(chrono::SecondsFormat::AutoSi, true)
}

/// Reads RFC 3339 text into UTC calendar fields.
///
/// Relies on chrono's `DateTime::parse_from_rfc3339` and
/// `with_timezone(&Utc)`: the result's fields are a real calendar date
/// and time of day (month 1 to 12, day within the month, hour to 23,
/// minute to 59, second to 59 with nanoseconds below two billion for a
/// leap second); the year may fall outside 0 to 9999 after offset
/// normalization and is reported as it is.
#[verifier::external_body]
pub(crate) fn parse_rfc3339(s: &str) -> (r: Option<(i64, u8, u8, u8, u8, u8, u32)>)
    ensures
        r == rfc3339_parts(s@),
        r matches Some(p) ==> {
            &&& 1 <= p.1 <= 12
            &&& 1 <= p.2 <= days_in_month(p.0 as int, p.1 as int)
            &&& p.3 <= 23
            &&& p.4 <= 59
            &&& p.5 <= 59
            &&& p.6 < 2_000_000_000
        },
{
    match chrono::DateTime::parse_from_rfc3339(s) {
        Ok(dt) => {
            let dt = dt.with_timezone(&chrono::Utc);
            let (y, mo, d) = (dt.year() as i64, dt.month() as u8, dt.day() as u8);
            let (h, mi, sec) = (dt.hour() as u8, dt.minute() as u8, dt.second() as u8);
            Some((y, mo, d, h, mi, sec, dt.nanosecond()))
        },
        Err(_) => None,
    }
}

/// Rebuilds a well-formed timestamp from parsed calendar fields,
/// rejecting fields the store cannot carry (a year outside 0 to 9999, or
/// a leap second).
pub open spec fn timestamp_from_parts(p: (i64, u8, u8, u8, u8, u8, u32)) -> Option<Timestamp> {
    let t = Timestamp {
        year: p.0 as u32,
        month: p.1,
        day: p.2,
        hour: p.3,
        minute: p.4,
        second: p.5,
        nanosecond: p.6,
    };
    if 0 <= p.0 <= 9999 && t.wf() {
        Some(t)
    } else {
        None
    }
}

/// Rebuilds a timestamp from parsed calendar fields, exactly as
/// [`timestamp_from_parts`] describes.
pub fn timestamp_from_parts_exec(p: (i64, u8, u8, u8, u8, u8, u32)) -> (r: Option<Timestamp>)
    ensures
        r == timestamp_from_parts(p),
{
    if 0 <= p.0 && p.0 <= 9999 {
        Timestamp::new(p.0 as u32, p.1, p.2, p.3, p.4, p.5, p.6)
    } else {
        None
    }
}

/// A well-formed timestamp survives the trip through its field tuple.
pub proof fn lemma_parts_roundtrip(t: Timestamp)
    requires
        t.wf(),
    ensures
        timestamp_from_parts(parts_of(t)) == Some(t),
{
}

/// The number of days in month `m` of year `y`.
pub fn days_in_month_exec(y: u32, m: u8) -> (d: u8)
    requires
        1 <= m <= 12,
    ensures
        d == days_in_month(y as int, m as int),
{
    if m == 2 {
        if (y % 4 == 0 && y % 100 != 0) || y % 400 == 0 {
            29
        } else {
            28
        }
    } else if m == 4 || m == 6 || m == 9 || m == 11 {
        30
    } else {
        31
    }
}

} // verus!
