//! Proleptic Gregorian calendar and time-of-day codecs.
//!
//! The crate converts between linear integer counters (days since
//! 0001-01-01, sub-day units since midnight, milliseconds since the
//! calendar epoch, signed Unix-epoch timestamps) and their calendar
//! fields (year, month, day, hour, minute, second, fraction), and
//! offers fixed-format textual serialization with strict parsing.

use vstd::prelude::*;

pub mod calendar;
pub mod date;
pub mod time_of_day;
pub mod datetime;
pub mod text;

pub use calendar::{accume_days, leapyear, month_length, month_lookup};
pub use date::{date_from_days, date_from_fields, days_from_date, DateSpec, MAX_DAY_COUNT};
pub use time_of_day::{parts_from_time, time_from_parts, TimeFields};
pub use datetime::{
    Date, DateTime, Time, Timespec, Tm, NANOS_PER_DAY, SECS_FROM_UNIX_EPOCH, SUPPORTED_MILLIS,
    SUPPORTED_SECS,
};
pub use text::{
    format_date, format_datetime, format_time, parse_date, parse_datetime, parse_time,
    timespec_from_str, timespec_to_str, DateTimeFields,
};

verus! {

/// The recoverable failures of the codec entry points.
#[derive(Clone, Copy, PartialEq, Eq, Structural, Debug)]
pub enum CodecError {
    /// A calendar field is outside its valid range.
    DateValidation,
    /// A linear day count is outside the supported range.
    DateRange,
    /// A time-of-day field is outside its valid range.
    TimeValidation,
    /// A linear time-of-day count is outside the supported range.
    TimeRange,
    /// A textual input is structurally malformed.
    Format,
}

} // verus!
