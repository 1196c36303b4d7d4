//! Points in time as the library reads them, and their text forms.

use vstd::prelude::*;

verus! {

/// A point in time with the UTC offset it was written in: seconds since the
/// Unix epoch, the nanoseconds past that second, and the offset in seconds.
#[derive(Clone, Copy, Debug, PartialEq, Eq, Structural)]
pub struct Timestamp {
    pub unix_seconds: i64,
    pub nanosecond: u32,
    pub offset_seconds: i32,
}

/// `a` is strictly before `b`; the offset does not matter.
pub open spec fn earlier(a: Timestamp, b: Timestamp) -> bool {
    a.unix_seconds < b.unix_seconds || (a.unix_seconds == b.unix_seconds && a.nanosecond
        < b.nanosecond)
}

impl Timestamp {
    /// Whether `self` is strictly before `other`.
    pub fn is_earlier_than(&self, other: &Timestamp) -> (r: bool)
        ensures
            r == earlier(*self, *other),
    {
        self.unix_seconds < other.unix_seconds || (self.unix_seconds == other.unix_seconds
            && self.nanosecond < other.nanosecond)
    }
}

/// The text of an optional string.
pub open spec fn opt_text(o: Option<String>) -> Option<Seq<char>> {
    match o {
        Some(s) => Some(s@),
        None => None,
    }
}

/// The RFC 2822 form of the instant `unix_seconds` shown at UTC offset
/// `offset_seconds`, if it has one.
pub uninterp spec fn rfc2822_of(unix_seconds: int, offset_seconds: int) -> Option<Seq<char>>;

/// The instant `unix_seconds` at UTC offset `offset_seconds`, written by the
/// format description `description`, if that succeeds.
pub uninterp spec fn formatted_of(unix_seconds: int, offset_seconds: int, description: Seq<char>) -> Option<Seq<char>>;

/// Relies on time's `UtcOffset::from_whole_seconds`,
/// `OffsetDateTime::from_unix_timestamp`, `checked_to_offset` and `format`
/// with `Rfc2822`: the text depends on the instant and offset alone, and is
/// absent where one of them is out of range or the format refuses it (a year
/// before 1900, an offset with a seconds part).
#[verifier::external_body]
fn rfc2822(t: &Timestamp) -> (r: Option<String>)
    ensures
        opt_text(r) == rfc2822_of(t.unix_seconds as int, t.offset_seconds as int),
{
    let offset = time::UtcOffset::from_whole_seconds(t.offset_seconds).ok()?;
    let at = time::OffsetDateTime::from_unix_timestamp(t.unix_seconds).ok()?;
    at.checked_to_offset(offset)?.format(&time::format_description::well_known::Rfc2822).ok()
}

/// Relies on time's `format_description::parse` and `OffsetDateTime::format`
/// (after the same conversions as above): the text depends on the instant,
/// the offset and the description alone, and is absent where a conversion,
/// the description or the formatting fails.
#[verifier::external_body]
fn format_with(t: &Timestamp, description: &str) -> (r: Option<String>)
    ensures
        opt_text(r) == formatted_of(t.unix_seconds as int, t.offset_seconds as int, description@),
{
    let offset = time::UtcOffset::from_whole_seconds(t.offset_seconds).ok()?;
    let at = time::OffsetDateTime::from_unix_timestamp(t.unix_seconds).ok()?;
    let items = time::format_description::parse(description).ok()?;
    at.checked_to_offset(offset)?.format(&items).ok()
}

/// How item pages show a date: weekday, month name, day and year.
pub const LONG_DATE_FORMAT: &'static str = "[weekday], [month repr:long] [day], [year]";

impl Timestamp {
    /// The RFC 2822 form used for feed dates, if the instant has one.
    pub fn to_rfc2822(&self) -> (r: Option<String>)
        ensures
            opt_text(r) == rfc2822_of(self.unix_seconds as int, self.offset_seconds as int),
    {
        rfc2822(self)
    }

    /// The human-readable date shown on item pages, such as
    /// "Tuesday, January 02, 2024", if the instant can be written.
    pub fn to_long_date(&self) -> (r: Option<String>)
        ensures
            opt_text(r) == formatted_of(self.unix_seconds as int, self.offset_seconds as int, LONG_DATE_FORMAT@),
    {
        format_with(self, LONG_DATE_FORMAT)
    }
}

} // verus!
