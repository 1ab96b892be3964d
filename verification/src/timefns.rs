//! Trusted time layer: the few jiff calls the core leans on, each behind a
//! wrapper whose contract states only what jiff's source and documentation
//! plainly give. Instants are plain values here: nanoseconds since the Unix
//! epoch. Calendar rounding goes through the system time zone, so nothing is
//! claimed about the keys it yields beyond their range; the retention engine
//! takes them as arguments and is verified for every value of them.

use vstd::prelude::*;

use crate::ts_in_range;

verus! {

/// The instant a byte string denotes, by jiff's timestamp grammar; `None`
/// for bytes that are not UTF-8 or not a parseable timestamp. The value
/// depends on the bytes alone.
pub uninterp spec fn parsed_instant_ns(name: Seq<u8>) -> Option<int>;

/// Relies on `jiff::Timestamp`'s `FromStr` impl (with `str::from_utf8` in
/// front): parsing depends on the bytes alone, and every parsed instant lies
/// in jiff's documented timestamp range, far inside `ts_in_range`.
#[verifier::external_body]
pub fn parse_timestamp_bytes(bytes: &Vec<u8>) -> (r: Option<i128>)
    ensures
        r is Some <==> parsed_instant_ns(bytes@) is Some,
        r matches Some(v) ==> parsed_instant_ns(bytes@) == Some(v as int) && ts_in_range(v as int),
{
    let s = core::str::from_utf8(bytes).ok()?;
    let ts = s.parse::<jiff::Timestamp>().ok()?;
    Some(ts.as_nanosecond())
}

/// Relies on `jiff::fmt::temporal::DateTimePrinter::timestamp_with_offset_to_string`,
/// printing the instant with the system time zone's offset at that instant,
/// and on `jiff::Timestamp::from_nanosecond`, which jiff guarantees to
/// succeed on every instant of its documented range. The text is promised
/// non-empty and free of NUL bytes, and nothing more: the printer rounds
/// the offset to whole minutes, so the text need not denote `ns` exactly —
/// callers re-parse the text and check it.
#[verifier::external_body]
pub fn format_timestamp(ns: i128) -> (r: Vec<u8>)
    requires
        ts_in_range(ns as int),
    ensures
        r@.len() > 0,
        forall|i: int| 0 <= i < r@.len() ==> r@[i] != 0,
{
    let ts = jiff::Timestamp::from_nanosecond(ns).expect("instant within jiff's range");
    let offset = jiff::tz::TimeZone::system().to_offset(ts);
    let text = jiff::fmt::temporal::DateTimePrinter::new()
        .timestamp_with_offset_to_string(&ts, offset);
    text.into_bytes()
}

/// Relies on `jiff::Zoned::with` (zeroing minute, second and subsecond) in
/// the system time zone: the start of the local hour containing the instant.
/// `None` when the rounded instant cannot be represented.
#[verifier::external_body]
pub fn round_to_hour(ns: i128) -> (r: Option<i128>)
    requires
        ts_in_range(ns as int),
    ensures
        r matches Some(v) ==> ts_in_range(v as int),
{
    let ts = jiff::Timestamp::from_nanosecond(ns).ok()?;
    let z = ts.to_zoned(jiff::tz::TimeZone::system());
    let rounded = z.with().minute(0).second(0).subsec_nanosecond(0).build().ok()?;
    Some(rounded.timestamp().as_nanosecond())
}

/// Relies on `jiff::Zoned::start_of_day` in the system time zone: the first
/// instant of the local day containing the instant.
#[verifier::external_body]
pub fn round_to_day(ns: i128) -> (r: Option<i128>)
    requires
        ts_in_range(ns as int),
    ensures
        r matches Some(v) ==> ts_in_range(v as int),
{
    let ts = jiff::Timestamp::from_nanosecond(ns).ok()?;
    let z = ts.to_zoned(jiff::tz::TimeZone::system());
    let rounded = z.start_of_day().ok()?;
    Some(rounded.timestamp().as_nanosecond())
}

/// Relies on `jiff::Zoned::nth_weekday` after `start_of_day`: the next
/// Monday 00:00:00 local (exclusive), the key under which a week starting
/// Monday files the instant.
#[verifier::external_body]
pub fn round_to_week(ns: i128) -> (r: Option<i128>)
    requires
        ts_in_range(ns as int),
    ensures
        r matches Some(v) ==> ts_in_range(v as int),
{
    let ts = jiff::Timestamp::from_nanosecond(ns).ok()?;
    let z = ts.to_zoned(jiff::tz::TimeZone::system());
    let rounded = z.start_of_day().ok()?.nth_weekday(1, jiff::civil::Weekday::Monday).ok()?;
    Some(rounded.timestamp().as_nanosecond())
}

/// Relies on `jiff::Zoned::first_of_month` after `start_of_day`: the first
/// instant of the local calendar month containing the instant.
#[verifier::external_body]
pub fn round_to_month(ns: i128) -> (r: Option<i128>)
    requires
        ts_in_range(ns as int),
    ensures
        r matches Some(v) ==> ts_in_range(v as int),
{
    let ts = jiff::Timestamp::from_nanosecond(ns).ok()?;
    let z = ts.to_zoned(jiff::tz::TimeZone::system());
    let rounded = z.start_of_day().ok()?.first_of_month().ok()?;
    Some(rounded.timestamp().as_nanosecond())
}

/// Relies on `jiff::Zoned::first_of_year` after `start_of_day`: the first
/// instant of the local calendar year containing the instant.
#[verifier::external_body]
pub fn round_to_year(ns: i128) -> (r: Option<i128>)
    requires
        ts_in_range(ns as int),
    ensures
        r matches Some(v) ==> ts_in_range(v as int),
{
    let ts = jiff::Timestamp::from_nanosecond(ns).ok()?;
    let z = ts.to_zoned(jiff::tz::TimeZone::system());
    let rounded = z.start_of_day().ok()?.first_of_year().ok()?;
    Some(rounded.timestamp().as_nanosecond())
}

} // verus!
