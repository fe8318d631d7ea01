//! DateTime codec: linear day counts, time-of-day counts and combined
//! counters, and their conversions to the broken-down time structure
//! `Tm` and the signed Unix-epoch timestamp `Timespec`.

use vstd::arithmetic::div_mod::{
    lemma_fundamental_div_mod, lemma_mod_division_less_than_divisor, lemma_mod_mod,
};
use vstd::pervasive::unreached;
use vstd::prelude::*;

use crate::date::{
    date_from_days, date_to_days, day_of_year, days_from_date, valid_date, DateSpec, MAX_DAY_COUNT,
};
use crate::time_of_day::{parts_from_time, time_from_parts, time_to_linear, valid_time};
use crate::CodecError;

verus! {

/// Seconds between 0001-01-01 00:00:00 and the Unix epoch
/// 1970-01-01 00:00:00.
pub const SECS_FROM_UNIX_EPOCH: i64 = 62_135_596_800;

/// Seconds in the supported range: days 0 ..= MAX_DAY_COUNT, 86400
/// seconds each.
pub const SUPPORTED_SECS: i64 = 315_537_897_600;

/// Milliseconds in the supported range.
pub const SUPPORTED_MILLIS: i64 = 315_537_897_600_000;

/// Nanoseconds in one day.
pub const NANOS_PER_DAY: i64 = 86_400_000_000_000;

/// A signed Unix-epoch timestamp: whole seconds since
/// 1970-01-01 00:00:00 (negative before it) and a non-negative
/// sub-second offset in nanoseconds.
#[derive(Clone, Copy, PartialEq, Eq, Structural, Debug)]
pub struct Timespec {
    pub sec: i64,
    pub nsec: i32,
}

/// A broken-down time, laid out as the conventional C `tm` structure:
/// 1900-based year, 0-based month and day-of-year, 1-based day of
/// month.
#[derive(Clone, PartialEq, Debug)]
pub struct Tm {
    /// Seconds after the minute, 0..=59.
    pub tm_sec: i32,
    /// Minutes after the hour, 0..=59.
    pub tm_min: i32,
    /// Hours after midnight, 0..=23.
    pub tm_hour: i32,
    /// Day of the month, 1..=31.
    pub tm_mday: i32,
    /// Months since January, 0..=11.
    pub tm_mon: i32,
    /// Years since 1900.
    pub tm_year: i32,
    /// Days since Sunday, 0..=6.
    pub tm_wday: i32,
    /// Days since January 1, 0..=365.
    pub tm_yday: i32,
    /// Daylight Saving Time flag; always 0 here (UTC).
    pub tm_isdst: i32,
    /// Seconds east of UTC; always 0 here.
    pub tm_gmtoff: i32,
    /// Time zone label; always "UTC" here.
    pub tm_zone: String,
    /// Nanoseconds after the second, 0..=999_999_999.
    pub tm_nsec: i32,
}

/// A linear day count: days since 0001-01-01.
#[derive(Clone, Copy, PartialEq, Eq, Structural, Debug)]
pub struct Date {
    pub days: i32,
}

/// A linear time of day at nanosecond resolution: nanoseconds since
/// midnight.
#[derive(Clone, Copy, PartialEq, Eq, Structural, Debug)]
pub struct Time {
    pub nanos: i64,
}

/// A linear combined instant at millisecond resolution: milliseconds
/// since 0001-01-01 00:00:00.
#[derive(Clone, Copy, PartialEq, Eq, Structural, Debug)]
pub struct DateTime {
    pub millis: i64,
}

impl Timespec {
    /// The sub-second offset is a valid nanosecond count.
    pub open spec fn wf(&self) -> bool {
        0 <= self.nsec < 1_000_000_000
    }

    /// The second lies inside the supported calendar range
    /// [0001-01-01 00:00:00, 9999-12-31 23:59:59].
    pub open spec fn in_range(&self) -> bool {
        0 <= self.sec + SECS_FROM_UNIX_EPOCH < SUPPORTED_SECS
    }

    /// The identity view of a timestamp as a timestamp.
    pub fn timespec(&self) -> (r: Timespec)
        ensures
            r == *self,
    {
        *self
    }

    /// The identity construction of a timestamp from a timestamp.
    pub fn from_timespec(ts: Timespec) -> (r: Timespec)
        ensures
            r == ts,
    {
        ts
    }

    /// Break a timestamp down into UTC calendar fields.
    pub fn tm(&self) -> (r: Tm)
        requires
            self.wf(),
            self.in_range(),
        ensures
            valid_date(r.tm_year + 1900, r.tm_mon + 1, r.tm_mday as int),
            date_to_days(r.tm_year + 1900, r.tm_mon + 1, r.tm_mday as int) == (self.sec
                + SECS_FROM_UNIX_EPOCH) / 86400,
            valid_time(r.tm_hour as int, r.tm_min as int, r.tm_sec as int, 0, 1),
            time_to_linear(r.tm_hour as int, r.tm_min as int, r.tm_sec as int, 0, 1) == (self.sec
                + SECS_FROM_UNIX_EPOCH) % 86400,
            r.tm_yday == day_of_year(r.tm_year + 1900, r.tm_mon + 1, r.tm_mday as int) - 1,
            r.tm_wday == ((self.sec + SECS_FROM_UNIX_EPOCH) / 86400 + 1) % 7,
            r.tm_isdst == 0 && r.tm_gmtoff == 0 && r.tm_zone@ == "UTC"@,
            r.tm_nsec == self.nsec,
    {
        let shifted: i64 = self.sec + SECS_FROM_UNIX_EPOCH;
        let d: i64 = shifted / 86400;
        let s: i64 = shifted % 86400;
        proof {
            lemma_fundamental_div_mod(shifted as int, 86400);
            lemma_mod_division_less_than_divisor(shifted as int, 86400);
        }
        let dp = match date_from_days(d as i32) {
            Ok(dp) => dp,
            Err(_) => unreached(),
        };
        let tf = match parts_from_time(s, 1) {
            Ok(tf) => tf,
            Err(_) => unreached(),
        };
        Tm {
            tm_sec: tf.second,
            tm_min: tf.minute,
            tm_hour: tf.hour,
            tm_mday: dp.mday,
            tm_mon: dp.mon - 1,
            tm_year: dp.year - 1900,
            tm_wday: ((d + 1) % 7) as i32,
            tm_yday: dp.yday - 1,
            tm_isdst: 0,
            tm_gmtoff: 0,
            tm_zone: String::from_str("UTC"),
            tm_nsec: self.nsec,
        }
    }

    /// Rebuild a timestamp from broken-down UTC calendar fields; the
    /// exact inverse of `tm` on valid fields.
    pub fn from_tm(tm: &Tm) -> (r: Result<Timespec, CodecError>)
        ensures
            (valid_date(tm.tm_year + 1900, tm.tm_mon + 1, tm.tm_mday as int) && valid_time(
                tm.tm_hour as int,
                tm.tm_min as int,
                tm.tm_sec as int,
                tm.tm_nsec as int,
                1_000_000_000,
            )) <==> r is Ok,
            r matches Ok(ts) ==> {
                &&& ts.sec == date_to_days(tm.tm_year + 1900, tm.tm_mon + 1, tm.tm_mday as int)
                    * 86400 - SECS_FROM_UNIX_EPOCH + (3600 * tm.tm_hour + 60 * tm.tm_min
                    + tm.tm_sec)
                &&& ts.nsec == tm.tm_nsec
                &&& ts.wf()
                &&& ts.in_range()
            },
            r matches Err(e) ==> if !valid_date(tm.tm_year + 1900, tm.tm_mon + 1, tm.tm_mday as int) {
                e == CodecError::DateValidation
            } else {
                e == CodecError::TimeValidation
            },
    {
        let d = match days_from_date_of_tm(tm) {
            Ok(d) => d,
            Err(e) => {
                return Err(e);
            },
        };
        if tm.tm_hour < 0 || tm.tm_hour > 23 || tm.tm_min < 0 || tm.tm_min > 59 || tm.tm_sec < 0
            || tm.tm_sec > 59 || tm.tm_nsec < 0 || tm.tm_nsec > 999_999_999 {
            return Err(CodecError::TimeValidation);
        }
        let s: i64 = 3600 * (tm.tm_hour as i64) + 60 * (tm.tm_min as i64) + (tm.tm_sec as i64);
        Ok(
            Timespec {
                sec: (d as i64) * 86400 - SECS_FROM_UNIX_EPOCH + s,
                nsec: tm.tm_nsec,
            },
        )
    }
}

/// Encode the date fields of a broken-down time (1900-based year,
/// 0-based month) as a linear day count.
fn days_from_date_of_tm(tm: &Tm) -> (r: Result<i32, CodecError>)
    ensures
        valid_date(tm.tm_year + 1900, tm.tm_mon + 1, tm.tm_mday as int) <==> r is Ok,
        r matches Ok(n) ==> {
            &&& n == date_to_days(tm.tm_year + 1900, tm.tm_mon + 1, tm.tm_mday as int)
            &&& 0 <= n <= MAX_DAY_COUNT
        },
        r matches Err(e) ==> e == CodecError::DateValidation,
{
    if tm.tm_year < -1899 || tm.tm_year > 8099 || tm.tm_mon < 0 || tm.tm_mon > 11 {
        return Err(CodecError::DateValidation);
    }
    days_from_date(tm.tm_year + 1900, tm.tm_mon + 1, tm.tm_mday)
}

impl Date {
    /// The day count lies in the supported range.
    pub open spec fn wf(&self) -> bool {
        0 <= self.days <= MAX_DAY_COUNT
    }

    /// The Unix-epoch timestamp of this day's midnight.
    pub fn timespec(&self) -> (r: Timespec)
        requires
            self.wf(),
        ensures
            r.sec == self.days * 86400 - SECS_FROM_UNIX_EPOCH,
            r.nsec == 0,
            r.wf() && r.in_range(),
    {
        Timespec { sec: (self.days as i64) * 86400 - SECS_FROM_UNIX_EPOCH, nsec: 0 }
    }

    /// The day that contains the timestamp's instant, by floor
    /// division of the shifted seconds.
    pub fn from_timespec(ts: Timespec) -> (r: Result<Date, CodecError>)
        ensures
            ts.in_range() <==> r is Ok,
            r matches Ok(d) ==> {
                &&& d.days == (ts.sec + SECS_FROM_UNIX_EPOCH) / 86400
                &&& d.wf()
            },
            r matches Err(e) ==> e == CodecError::DateRange,
    {
        if ts.sec < -SECS_FROM_UNIX_EPOCH || ts.sec >= SUPPORTED_SECS - SECS_FROM_UNIX_EPOCH {
            return Err(CodecError::DateRange);
        }
        let shifted: i64 = ts.sec + SECS_FROM_UNIX_EPOCH;
        proof {
            lemma_fundamental_div_mod(shifted as int, 86400);
            lemma_mod_division_less_than_divisor(shifted as int, 86400);
        }
        Ok(Date { days: (shifted / 86400) as i32 })
    }

    /// Break the day down into calendar fields; the time fields are
    /// midnight.
    pub fn tm(&self) -> (r: Tm)
        requires
            self.wf(),
        ensures
            valid_date(r.tm_year + 1900, r.tm_mon + 1, r.tm_mday as int),
            date_to_days(r.tm_year + 1900, r.tm_mon + 1, r.tm_mday as int) == self.days,
            r.tm_yday == day_of_year(r.tm_year + 1900, r.tm_mon + 1, r.tm_mday as int) - 1,
            r.tm_wday == (self.days + 1) % 7,
            r.tm_sec == 0 && r.tm_min == 0 && r.tm_hour == 0 && r.tm_nsec == 0,
            r.tm_isdst == 0 && r.tm_gmtoff == 0 && r.tm_zone@ == "UTC"@,
    {
        let dp = match date_from_days(self.days) {
            Ok(dp) => dp,
            Err(_) => unreached(),
        };
        Tm {
            tm_sec: 0,
            tm_min: 0,
            tm_hour: 0,
            tm_mday: dp.mday,
            tm_mon: dp.mon - 1,
            tm_year: dp.year - 1900,
            tm_wday: (self.days + 1) % 7,
            tm_yday: dp.yday - 1,
            tm_isdst: 0,
            tm_gmtoff: 0,
            tm_zone: String::from_str("UTC"),
            tm_nsec: 0,
        }
    }

    /// Rebuild the day from broken-down calendar fields; the exact
    /// inverse of `tm` on valid fields.
    pub fn from_tm(tm: &Tm) -> (r: Result<Date, CodecError>)
        ensures
            valid_date(tm.tm_year + 1900, tm.tm_mon + 1, tm.tm_mday as int) <==> r is Ok,
            r matches Ok(d) ==> {
                &&& d.days == date_to_days(tm.tm_year + 1900, tm.tm_mon + 1, tm.tm_mday as int)
                &&& d.wf()
            },
            r matches Err(e) ==> e == CodecError::DateValidation,
    {
        match days_from_date_of_tm(tm) {
            Ok(d) => Ok(Date { days: d }),
            Err(e) => Err(e),
        }
    }
}

impl Time {
    /// The nanosecond count lies within one day.
    pub open spec fn wf(&self) -> bool {
        0 <= self.nanos < NANOS_PER_DAY
    }

    /// The whole seconds and remaining nanoseconds of this time of
    /// day. The result counts from midnight, not from the Unix epoch.
    pub fn timespec(&self) -> (r: Timespec)
        requires
            self.wf(),
        ensures
            r.sec == self.nanos / 1_000_000_000,
            r.nsec == self.nanos % 1_000_000_000,
            r.wf(),
    {
        proof {
            lemma_mod_division_less_than_divisor(self.nanos as int, 1_000_000_000);
        }
        Timespec {
            sec: self.nanos / 1_000_000_000,
            nsec: (self.nanos % 1_000_000_000) as i32,
        }
    }

    /// The time of day at the timestamp's instant, by floor reduction
    /// of the seconds into one day.
    pub fn from_timespec(ts: Timespec) -> (r: Time)
        requires
            ts.wf(),
        ensures
            r.nanos == (ts.sec % 86400) * 1_000_000_000 + ts.nsec,
            r.wf(),
    {
        let m0: i64 = ts.sec % 86400;
        let sd: i64 = if m0 < 0 {
            m0 + 86400
        } else {
            m0
        };
        proof {
            lemma_mod_division_less_than_divisor(ts.sec as int, 86400);
        }
        Time { nanos: sd * 1_000_000_000 + (ts.nsec as i64) }
    }

    /// Break the time of day down into broken-down time fields; the
    /// date fields are the conventional Unix-epoch placeholders.
    pub fn tm(&self) -> (r: Tm)
        requires
            self.wf(),
        ensures
            valid_time(
                r.tm_hour as int,
                r.tm_min as int,
                r.tm_sec as int,
                r.tm_nsec as int,
                1_000_000_000,
            ),
            time_to_linear(
                r.tm_hour as int,
                r.tm_min as int,
                r.tm_sec as int,
                r.tm_nsec as int,
                1_000_000_000,
            ) == self.nanos,
            r.tm_mday == 1 && r.tm_mon == 0 && r.tm_year == 70 && r.tm_wday == 0 && r.tm_yday == 0,
            r.tm_isdst == 0 && r.tm_gmtoff == 0 && r.tm_zone@ == "UTC"@,
    {
        let tf = match parts_from_time(self.nanos, 1_000_000_000) {
            Ok(tf) => tf,
            Err(_) => unreached(),
        };
        Tm {
            tm_sec: tf.second,
            tm_min: tf.minute,
            tm_hour: tf.hour,
            tm_mday: 1,
            tm_mon: 0,
            tm_year: 70,
            tm_wday: 0,
            tm_yday: 0,
            tm_isdst: 0,
            tm_gmtoff: 0,
            tm_zone: String::from_str("UTC"),
            tm_nsec: (tf.fraction) as i32,
        }
    }

    /// Rebuild the time of day from broken-down time fields; the exact
    /// inverse of `tm` on valid fields.
    pub fn from_tm(tm: &Tm) -> (r: Result<Time, CodecError>)
        ensures
            valid_time(
                tm.tm_hour as int,
                tm.tm_min as int,
                tm.tm_sec as int,
                tm.tm_nsec as int,
                1_000_000_000,
            ) <==> r is Ok,
            r matches Ok(t) ==> {
                &&& t.nanos == time_to_linear(
                    tm.tm_hour as int,
                    tm.tm_min as int,
                    tm.tm_sec as int,
                    tm.tm_nsec as int,
                    1_000_000_000,
                )
                &&& t.wf()
            },
            r matches Err(e) ==> e == CodecError::TimeValidation,
    {
        match time_from_parts(tm.tm_hour, tm.tm_min, tm.tm_sec, tm.tm_nsec as i64, 1_000_000_000) {
            Ok(n) => Ok(Time { nanos: n }),
            Err(e) => Err(e),
        }
    }
}

/// The combined millisecond counter of the date {`y`, `m`, `d`} and
/// the time {`h`, `mi`, `s`, nanosecond `ns`}, with the nanoseconds
/// truncated to milliseconds.
pub open spec fn datetime_millis(y: int, m: int, d: int, h: int, mi: int, s: int, ns: int) -> int {
    date_to_days(y, m, d) * 86_400_000 + time_to_linear(h, mi, s, ns / 1_000_000, 1000)
}

impl DateTime {
    /// The millisecond count lies in the supported range.
    pub open spec fn wf(&self) -> bool {
        0 <= self.millis < SUPPORTED_MILLIS
    }

    /// The Unix-epoch timestamp of this instant, millisecond-exact.
    pub fn timespec(&self) -> (r: Timespec)
        requires
            self.wf(),
        ensures
            r.sec == self.millis / 1000 - SECS_FROM_UNIX_EPOCH,
            r.nsec == (self.millis % 1000) * 1_000_000,
            r.wf() && r.in_range(),
    {
        proof {
            lemma_mod_division_less_than_divisor(self.millis as int, 1000);
        }
        Timespec {
            sec: self.millis / 1000 - SECS_FROM_UNIX_EPOCH,
            nsec: ((self.millis % 1000) * 1_000_000) as i32,
        }
    }

    /// The instant of a timestamp, truncating nanoseconds to
    /// milliseconds.
    pub fn from_timespec(ts: Timespec) -> (r: Result<DateTime, CodecError>)
        requires
            ts.wf(),
        ensures
            ts.in_range() <==> r is Ok,
            r matches Ok(dt) ==> {
                &&& dt.millis == (ts.sec + SECS_FROM_UNIX_EPOCH) * 1000 + ts.nsec / 1_000_000
                &&& dt.wf()
            },
            r matches Err(e) ==> e == CodecError::DateRange,
    {
        if ts.sec < -SECS_FROM_UNIX_EPOCH || ts.sec >= SUPPORTED_SECS - SECS_FROM_UNIX_EPOCH {
            return Err(CodecError::DateRange);
        }
        Ok(DateTime { millis: (ts.sec + SECS_FROM_UNIX_EPOCH) * 1000 + (ts.nsec as i64) / 1_000_000 })
    }

    /// Break the instant down into UTC calendar fields; nanoseconds
    /// carry the millisecond remainder.
    pub fn tm(&self) -> (r: Tm)
        requires
            self.wf(),
        ensures
            valid_date(r.tm_year + 1900, r.tm_mon + 1, r.tm_mday as int),
            date_to_days(r.tm_year + 1900, r.tm_mon + 1, r.tm_mday as int) == self.millis
                / 86_400_000,
            valid_time(r.tm_hour as int, r.tm_min as int, r.tm_sec as int, self.millis as int % 1000, 1000),
            time_to_linear(r.tm_hour as int, r.tm_min as int, r.tm_sec as int, self.millis as int % 1000, 1000)
                == self.millis % 86_400_000,
            r.tm_nsec == (self.millis % 1000) * 1_000_000,
            r.tm_yday == day_of_year(r.tm_year + 1900, r.tm_mon + 1, r.tm_mday as int) - 1,
            r.tm_wday == (self.millis / 86_400_000 + 1) % 7,
            r.tm_isdst == 0 && r.tm_gmtoff == 0 && r.tm_zone@ == "UTC"@,
    {
        let d: i64 = self.millis / 86_400_000;
        let rem: i64 = self.millis % 86_400_000;
        proof {
            lemma_fundamental_div_mod(self.millis as int, 86_400_000);
            lemma_mod_division_less_than_divisor(self.millis as int, 86_400_000);
            lemma_mod_mod(self.millis as int, 1000, 86400);
        }
        let dp = match date_from_days(d as i32) {
            Ok(dp) => dp,
            Err(_) => unreached(),
        };
        let tf = match parts_from_time(rem, 1000) {
            Ok(tf) => tf,
            Err(_) => unreached(),
        };
        Tm {
            tm_sec: tf.second,
            tm_min: tf.minute,
            tm_hour: tf.hour,
            tm_mday: dp.mday,
            tm_mon: dp.mon - 1,
            tm_year: dp.year - 1900,
            tm_wday: ((d + 1) % 7) as i32,
            tm_yday: dp.yday - 1,
            tm_isdst: 0,
            tm_gmtoff: 0,
            tm_zone: String::from_str("UTC"),
            tm_nsec: (tf.fraction * 1_000_000) as i32,
        }
    }

    /// Rebuild the instant from broken-down calendar fields,
    /// truncating nanoseconds to milliseconds; the exact inverse of
    /// `tm` on valid millisecond-exact fields.
    pub fn from_tm(tm: &Tm) -> (r: Result<DateTime, CodecError>)
        ensures
            (valid_date(tm.tm_year + 1900, tm.tm_mon + 1, tm.tm_mday as int) && valid_time(
                tm.tm_hour as int,
                tm.tm_min as int,
                tm.tm_sec as int,
                tm.tm_nsec as int,
                1_000_000_000,
            )) <==> r is Ok,
            r matches Ok(dt) ==> {
                &&& dt.millis == datetime_millis(
                    tm.tm_year + 1900,
                    tm.tm_mon + 1,
                    tm.tm_mday as int,
                    tm.tm_hour as int,
                    tm.tm_min as int,
                    tm.tm_sec as int,
                    tm.tm_nsec as int,
                )
                &&& dt.wf()
            },
            r matches Err(e) ==> if !valid_date(tm.tm_year + 1900, tm.tm_mon + 1, tm.tm_mday as int) {
                e == CodecError::DateValidation
            } else {
                e == CodecError::TimeValidation
            },
    {
        let d = match days_from_date_of_tm(tm) {
            Ok(d) => d,
            Err(e) => {
                return Err(e);
            },
        };
        if tm.tm_hour < 0 || tm.tm_hour > 23 || tm.tm_min < 0 || tm.tm_min > 59 || tm.tm_sec < 0
            || tm.tm_sec > 59 || tm.tm_nsec < 0 || tm.tm_nsec > 999_999_999 {
            return Err(CodecError::TimeValidation);
        }
        let s: i64 = 3600 * (tm.tm_hour as i64) + 60 * (tm.tm_min as i64) + (tm.tm_sec as i64);
        proof {
            lemma_mod_division_less_than_divisor(tm.tm_nsec as int, 1_000_000);
        }
        Ok(
            DateTime {
                millis: (d as i64) * 86_400_000 + s * 1000 + (tm.tm_nsec as i64) / 1_000_000,
            },
        )
    }
}

} // verus!
