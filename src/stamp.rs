//! Instants as the timer stores them, and their RFC 2822 text, through chrono.
use vstd::prelude::*;
use chrono::DateTime;

verus! {

/// An instant with the offset it was written in: whole seconds since the Unix
/// epoch, and the offset in seconds east of UTC.
#[derive(Clone, Copy, PartialEq, Eq, Structural, Debug)]
pub struct Stamp {
    pub secs: i64,
    pub offset: i32,
}

/// What chrono's RFC 2822 parser gives for a text: the seconds since the Unix
/// epoch and the offset east of UTC, or nothing when the text is rejected.
pub uninterp spec fn rfc2822_parse(s: Seq<char>) -> Option<(int, int)>;

/// The RFC 2822 text that chrono writes for a UTC instant.
pub uninterp spec fn utc_rfc2822(secs: int, nanos: int) -> Seq<char>;

/// The first second of year 0 and the last second of year 9999, UTC: the
/// instants whose RFC 2822 text chrono can write.
pub const FIRST_WRITABLE: i64 = -62167219200;
pub const LAST_WRITABLE: i64 = 253402300799;

/// Relies on chrono's `DateTime::parse_from_rfc2822`, read back through
/// `DateTime::timestamp` and `FixedOffset::local_minus_utc`.
#[verifier::external_body]
pub(crate) fn parse_rfc2822(s: &str) -> (r: Option<Stamp>)
    ensures
        r is Some <==> rfc2822_parse(s@) is Some,
        r is Some ==> rfc2822_parse(s@) == Some((r->0.secs as int, r->0.offset as int)),
{
    DateTime::parse_from_rfc2822(s)
        .ok()
        .map(|d| Stamp { secs: d.timestamp(), offset: d.offset().local_minus_utc() })
}

/// Relies on chrono's `DateTime::from_timestamp`, which succeeds for these
/// seconds and nanoseconds, and `DateTime::to_rfc2822`, which panics outside
/// years 0 to 9999.
#[verifier::external_body]
fn write_rfc2822(secs: i64, nanos: u32) -> (r: String)
    requires
        FIRST_WRITABLE <= secs <= LAST_WRITABLE,
        nanos < 1_000_000_000,
    ensures
        r@ == utc_rfc2822(secs as int, nanos as int),
{
    DateTime::from_timestamp(secs, nanos).expect("instant in range").to_rfc2822()
}

/// The RFC 2822 text of the UTC instant `secs` seconds and `nanos`
/// nanoseconds after the Unix epoch; nothing when it has no such text.
pub fn stamp_text(secs: i64, nanos: u32) -> (r: Option<String>)
    ensures
        r is Some <==> (FIRST_WRITABLE <= secs <= LAST_WRITABLE && nanos < 1_000_000_000),
        r is Some ==> r->0@ == utc_rfc2822(secs as int, nanos as int),
{
    if FIRST_WRITABLE <= secs && secs <= LAST_WRITABLE && nanos < 1_000_000_000 {
        Some(write_rfc2822(secs, nanos))
    } else {
        None
    }
}

} // verus!
