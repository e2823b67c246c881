//! Timestamps for conditional requests: an instant on the epoch millisecond
//! line together with the UTC offset it was written in. Parsing and
//! formatting of RFC 2822 date text is delegated to the chrono crate.

use vstd::prelude::*;

verus! {

/// An instant in time with its timezone, as read from or written to an
/// RFC 2822 date header. Ordering compares the instants alone.
#[derive(Debug, Clone, Copy, PartialEq, Eq, Structural)]
pub struct Timestamp {
    /// Milliseconds since the Unix epoch, in UTC.
    pub epoch_millis: i64,
    /// The local offset from UTC, in seconds; kept for formatting.
    pub offset_seconds: i32,
}

impl Timestamp {
    /// Whether this value lies in the range a parsed date can occupy: an
    /// offset a fixed-offset zone accepts, and an instant within the
    /// datetime range, whose first and last representable years are
    /// -262143 and 262142.
    pub open spec fn spec_valid(self) -> bool {
        &&& -86_399 <= self.offset_seconds <= 86_399
        &&& -8_334_601_315_200_000 <= self.epoch_millis <= 8_210_266_876_799_999
    }

    /// Whether RFC 2822 text can be written for this value: an offset a
    /// fixed-offset zone accepts, and a local time within the years 0
    /// through 9999, the only years the format defines.
    pub open spec fn spec_rfc2822_representable(self) -> bool {
        &&& -86_399 <= self.offset_seconds <= 86_399
        &&& -62_167_219_200_000 <= self.epoch_millis + self.offset_seconds * 1000
            < 253_402_300_800_000
    }

    /// Whether this instant is strictly after `other`.
    pub open spec fn spec_gt(self, other: Timestamp) -> bool {
        self.epoch_millis > other.epoch_millis
    }

    /// Whether this instant is strictly after `other`; offsets do not enter.
    pub fn gt(&self, other: &Timestamp) -> (r: bool)
        ensures
            r == self.spec_gt(*other),
    {
        self.epoch_millis > other.epoch_millis
    }
}

/// The timestamp that a piece of RFC 2822 date text denotes, if it parses.
pub uninterp spec fn rfc2822_date(s: Seq<char>) -> Option<Timestamp>;

/// The RFC 2822 text of a timestamp.
pub uninterp spec fn rfc2822_text(t: Timestamp) -> Seq<char>;

/// Relies on chrono's `DateTime::parse_from_rfc2822` to read an RFC 2822
/// date, and on its accessors for the instant and the offset. A parsed
/// value always satisfies `spec_valid`: the parser builds the offset with
/// the fixed-offset constructor, which bounds it below a day, and
/// range-checks the instant against the datetime range when it converts
/// the local fields to UTC.
#[verifier::external_body]
pub fn parse_rfc2822(s: &str) -> (r: Option<Timestamp>)
    ensures
        r == rfc2822_date(s@),
        r matches Some(t) ==> t.spec_valid(),
{
    match chrono::DateTime::parse_from_rfc2822(s) {
        Ok(dt) => Some(
            Timestamp {
                epoch_millis: dt.timestamp_millis(),
                offset_seconds: dt.offset().local_minus_utc(),
            },
        ),
        Err(_) => None,
    }
}

/// Relies on chrono's `to_rfc2822` to write a date, after rebuilding the
/// instant and offset with `from_timestamp_millis` and `east_opt`. Both
/// constructors accept every value the precondition admits, and the
/// formatter writes every local time within the years 0 through 9999 and
/// refuses anything outside them, so the precondition asks for exactly
/// that window.
#[verifier::external_body]
pub fn format_rfc2822(t: &Timestamp) -> (r: String)
    requires
        t.spec_rfc2822_representable(),
    ensures
        r@ == rfc2822_text(*t),
{
    let offset = chrono::FixedOffset::east_opt(t.offset_seconds).unwrap();
    let utc = chrono::DateTime::from_timestamp_millis(t.epoch_millis).unwrap();
    utc.with_timezone(&offset).to_rfc2822()
}

/// Relies on chrono's `Utc::now` for the wall clock. Nothing is promised of
/// the reading: callers state what holds of every instant.
#[verifier::external_body]
pub fn now_millis() -> (r: i64)
{
    chrono::Utc::now().timestamp_millis()
}

} // verus!
