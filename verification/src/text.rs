//! Textual codec: fixed-width formatting and strict parsing of the
//! canonical date, time and date-time string formats
//! `YYYY-MM-DD`, `HH:MM:SS[.fraction]` and
//! `YYYY-MM-DD HH:MM:SS[.fraction]`.
//!
//! Parsing is strict about structure: the exact length and separator
//! layout is required, and every field position must hold a digit.
//! A fractional part is accepted only at a sub-second resolution; its
//! digits beyond the resolution's width are truncated, and missing
//! trailing digits count as zero.

use vstd::arithmetic::div_mod::{
    lemma_div_denominator, lemma_fundamental_div_mod, lemma_fundamental_div_mod_converse_div,
    lemma_fundamental_div_mod_converse_mod, lemma_mod_division_less_than_divisor,
};
use vstd::pervasive::unreached;
use vstd::prelude::*;
use vstd::string::StrSliceExecFns;
use vstd::string::StringExecFns;

use crate::date::{
    date_from_fields, date_to_days, day_of_year, days_from_date, valid_date, DateSpec,
};
use crate::datetime::{Timespec, SECS_FROM_UNIX_EPOCH};
use crate::time_of_day::{valid_resolution, valid_time, TimeFields};
use crate::CodecError;

verus! {

/// Whether `c` is an ASCII decimal digit.
pub open spec fn is_ascii_digit(c: char) -> bool {
    48 <= c as int <= 57
}

/// The numeric value of a digit character.
pub open spec fn digit_val(c: char) -> int {
    c as int - 48
}

/// The digit character of a value in 0..=9.
pub open spec fn digit_char(v: int) -> char {
    if v == 0 {
        '0'
    } else if v == 1 {
        '1'
    } else if v == 2 {
        '2'
    } else if v == 3 {
        '3'
    } else if v == 4 {
        '4'
    } else if v == 5 {
        '5'
    } else if v == 6 {
        '6'
    } else if v == 7 {
        '7'
    } else if v == 8 {
        '8'
    } else {
        '9'
    }
}

/// Whether `s` has the exact shape `YYYY-MM-DD`: length 10, digits in
/// the field positions, `-` in the separator positions.
pub open spec fn is_date_shape(s: Seq<char>) -> bool {
    &&& s.len() == 10
    &&& is_ascii_digit(s[0]) && is_ascii_digit(s[1]) && is_ascii_digit(s[2]) && is_ascii_digit(
        s[3],
    )
    &&& s[4] == '-'
    &&& is_ascii_digit(s[5]) && is_ascii_digit(s[6])
    &&& s[7] == '-'
    &&& is_ascii_digit(s[8]) && is_ascii_digit(s[9])
}

/// The year field of a date-shaped string.
pub open spec fn shape_year(s: Seq<char>) -> int {
    1000 * digit_val(s[0]) + 100 * digit_val(s[1]) + 10 * digit_val(s[2]) + digit_val(s[3])
}

/// The month field of a date-shaped string.
pub open spec fn shape_month(s: Seq<char>) -> int {
    10 * digit_val(s[5]) + digit_val(s[6])
}

/// The day field of a date-shaped string.
pub open spec fn shape_day(s: Seq<char>) -> int {
    10 * digit_val(s[8]) + digit_val(s[9])
}

/// The canonical `YYYY-MM-DD` character sequence of the date
/// {`y`, `m`, `d`}.
pub open spec fn date_chars(y: int, m: int, d: int) -> Seq<char> {
    seq![
        digit_char(y / 1000),
        digit_char((y / 100) % 10),
        digit_char((y / 10) % 10),
        digit_char(y % 10),
        '-',
        digit_char(m / 10),
        digit_char(m % 10),
        '-',
        digit_char(d / 10),
        digit_char(d % 10),
    ]
}

/// The numeric value of the digit at position `i`, or `None` when the
/// character there is no digit.
fn digit_at(s: &str, i: usize) -> (r: Option<i32>)
    requires
        i < s@.len(),
    ensures
        match r {
            Some(v) => is_ascii_digit(s@[i as int]) && v == digit_val(s@[i as int]),
            None => !is_ascii_digit(s@[i as int]),
        },
{
    let c = s.get_char(i);
    let u = c as u32;
    if 48 <= u && u <= 57 {
        Some((u - 48) as i32)
    } else {
        None
    }
}

/// Whether the character at position `i` is exactly `c`.
fn char_at_is(s: &str, i: usize, c: char) -> (r: bool)
    requires
        i < s@.len(),
    ensures
        r == (s@[i as int] == c),
{
    s.get_char(i) == c
}

/// The one-character string of a digit value.
fn digit_str(v: i32) -> (r: &'static str)
    requires
        0 <= v <= 9,
    ensures
        r@.len() == 1,
        r@[0] == digit_char(v as int),
{
    proof {
        reveal_strlit("0");
        reveal_strlit("1");
        reveal_strlit("2");
        reveal_strlit("3");
        reveal_strlit("4");
        reveal_strlit("5");
        reveal_strlit("6");
        reveal_strlit("7");
        reveal_strlit("8");
        reveal_strlit("9");
    }
    if v == 0 {
        "0"
    } else if v == 1 {
        "1"
    } else if v == 2 {
        "2"
    } else if v == 3 {
        "3"
    } else if v == 4 {
        "4"
    } else if v == 5 {
        "5"
    } else if v == 6 {
        "6"
    } else if v == 7 {
        "7"
    } else if v == 8 {
        "8"
    } else {
        "9"
    }
}

/// Append the two-digit zero-padded decimal form of `v` to `out`.
fn append_two_digits(out: &mut String, v: i32)
    requires
        0 <= v <= 99,
    ensures
        final(out)@ == old(out)@ + seq![digit_char(v as int / 10), digit_char(v as int % 10)],
{
    out.append(digit_str(v / 10));
    out.append(digit_str(v % 10));
    assert(final(out)@ =~= old(out)@ + seq![digit_char(v as int / 10), digit_char(v as int % 10)]);
}

/// Parse a strict `YYYY-MM-DD` date string.
///
/// Returns `Format` exactly when the string does not have the date
/// shape; `DateValidation` exactly when it does but its fields are not
/// a valid date; otherwise the parsed `DateSpec`.
pub fn parse_date(s: &str) -> (r: Result<DateSpec, CodecError>)
    ensures
        !is_date_shape(s@) ==> r == Err::<DateSpec, CodecError>(CodecError::Format),
        is_date_shape(s@) ==> {
            &&& valid_date(shape_year(s@), shape_month(s@), shape_day(s@)) <==> r is Ok
            &&& r matches Ok(dp) ==> {
                &&& dp.year == shape_year(s@)
                &&& dp.mon == shape_month(s@)
                &&& dp.mday == shape_day(s@)
                &&& dp.yday == day_of_year(shape_year(s@), shape_month(s@), shape_day(s@))
            }
            &&& r matches Err(e) ==> e == CodecError::DateValidation
        },
{
    if s.unicode_len() != 10 {
        return Err(CodecError::Format);
    }
    if !char_at_is(s, 4, '-') || !char_at_is(s, 7, '-') {
        return Err(CodecError::Format);
    }
    let d0 = match digit_at(s, 0) {
        Some(v) => v,
        None => {
            return Err(CodecError::Format);
        },
    };
    let d1 = match digit_at(s, 1) {
        Some(v) => v,
        None => {
            return Err(CodecError::Format);
        },
    };
    let d2 = match digit_at(s, 2) {
        Some(v) => v,
        None => {
            return Err(CodecError::Format);
        },
    };
    let d3 = match digit_at(s, 3) {
        Some(v) => v,
        None => {
            return Err(CodecError::Format);
        },
    };
    let m0 = match digit_at(s, 5) {
        Some(v) => v,
        None => {
            return Err(CodecError::Format);
        },
    };
    let m1 = match digit_at(s, 6) {
        Some(v) => v,
        None => {
            return Err(CodecError::Format);
        },
    };
    let a0 = match digit_at(s, 8) {
        Some(v) => v,
        None => {
            return Err(CodecError::Format);
        },
    };
    let a1 = match digit_at(s, 9) {
        Some(v) => v,
        None => {
            return Err(CodecError::Format);
        },
    };
    let y = 1000 * d0 + 100 * d1 + 10 * d2 + d3;
    let m = 10 * m0 + m1;
    let d = 10 * a0 + a1;
    date_from_fields(y, m, d)
}

/// Format a valid date as its canonical `YYYY-MM-DD` string.
pub fn format_date(dp: &DateSpec) -> (r: String)
    requires
        valid_date(dp.year as int, dp.mon as int, dp.mday as int),
    ensures
        r@ == date_chars(dp.year as int, dp.mon as int, dp.mday as int),
{
    proof {
        reveal_strlit("-");
    }
    let mut out = String::new();
    out.append(digit_str(dp.year / 1000));
    out.append(digit_str((dp.year / 100) % 10));
    out.append(digit_str((dp.year / 10) % 10));
    out.append(digit_str(dp.year % 10));
    out.append("-");
    append_two_digits(&mut out, dp.mon);
    out.append("-");
    append_two_digits(&mut out, dp.mday);
    assert(out@ =~= date_chars(dp.year as int, dp.mon as int, dp.mday as int));
    out
}


/// The decimal width of a resolution's fractional part: 0 digits for
/// seconds, 3 for milliseconds, 9 for nanoseconds.
pub open spec fn width_of(res: int) -> int {
    if res == 1 {
        0
    } else if res == 1000 {
        3
    } else {
        9
    }
}

/// Whether `s` starts with the exact shape `HH:MM:SS`.
pub open spec fn is_hms_shape(s: Seq<char>) -> bool {
    &&& s.len() >= 8
    &&& is_ascii_digit(s[0]) && is_ascii_digit(s[1])
    &&& s[2] == ':'
    &&& is_ascii_digit(s[3]) && is_ascii_digit(s[4])
    &&& s[5] == ':'
    &&& is_ascii_digit(s[6]) && is_ascii_digit(s[7])
}

/// Whether `s` has the exact shape `HH:MM:SS[.fraction]` at resolution
/// `res`: either bare `HH:MM:SS`, or, at a sub-second resolution, a
/// `.` followed by at least one digit and digits only.
pub open spec fn is_time_shape(s: Seq<char>, res: int) -> bool {
    &&& is_hms_shape(s)
    &&& (s.len() == 8 || {
        &&& width_of(res) > 0
        &&& s.len() >= 10
        &&& s[8] == '.'
        &&& forall|i: int| 9 <= i < s.len() ==> is_ascii_digit(#[trigger] s[i])
    })
}

/// The hour field of a time-shaped string.
pub open spec fn shape_hour(s: Seq<char>) -> int {
    10 * digit_val(s[0]) + digit_val(s[1])
}

/// The minute field of a time-shaped string.
pub open spec fn shape_minute(s: Seq<char>) -> int {
    10 * digit_val(s[3]) + digit_val(s[4])
}

/// The second field of a time-shaped string.
pub open spec fn shape_second(s: Seq<char>) -> int {
    10 * digit_val(s[6]) + digit_val(s[7])
}

/// The `i`-th fractional digit of a time-shaped string (0-based from
/// the `.`), counting missing trailing digits as zero.
pub open spec fn frac_digit(s: Seq<char>, i: int) -> int {
    if 9 + i < s.len() {
        digit_val(s[9 + i])
    } else {
        0
    }
}

/// The fraction field of a time-shaped string at resolution `res`:
/// the first `width_of(res)` fractional digits, right-padded with
/// zeros; digits beyond the width are truncated.
pub open spec fn shape_fraction(s: Seq<char>, res: int) -> int {
    if s.len() == 8 {
        0
    } else if res == 1000 {
        100 * frac_digit(s, 0) + 10 * frac_digit(s, 1) + frac_digit(s, 2)
    } else if res == 1_000_000_000 {
        100_000_000 * frac_digit(s, 0) + 10_000_000 * frac_digit(s, 1) + 1_000_000 * frac_digit(
            s,
            2,
        ) + 100_000 * frac_digit(s, 3) + 10_000 * frac_digit(s, 4) + 1000 * frac_digit(s, 5) + 100
            * frac_digit(s, 6) + 10 * frac_digit(s, 7) + frac_digit(s, 8)
    } else {
        0
    }
}

/// The canonical `HH:MM:SS[.fraction]` character sequence of the time
/// {`h`, `m`, `s`, fraction `f`} at resolution `res`: the fraction is
/// omitted when zero, and zero-padded to the resolution's width
/// otherwise.
pub open spec fn time_chars(h: int, m: int, s: int, f: int, res: int) -> Seq<char> {
    let base = seq![
        digit_char(h / 10),
        digit_char(h % 10),
        ':',
        digit_char(m / 10),
        digit_char(m % 10),
        ':',
        digit_char(s / 10),
        digit_char(s % 10),
    ];
    if f == 0 {
        base
    } else if res == 1000 {
        base + seq!['.', digit_char(f / 100), digit_char((f / 10) % 10), digit_char(f % 10)]
    } else {
        base + seq![
            '.',
            digit_char(f / 100_000_000),
            digit_char((f / 10_000_000) % 10),
            digit_char((f / 1_000_000) % 10),
            digit_char((f / 100_000) % 10),
            digit_char((f / 10_000) % 10),
            digit_char((f / 1000) % 10),
            digit_char((f / 100) % 10),
            digit_char((f / 10) % 10),
            digit_char(f % 10),
        ]
    }
}

/// The `i`-th fractional digit of a shape-checked time string.
fn frac_digit_at(s: &str, i: usize) -> (r: i64)
    requires
        i <= 8,
        9 + i < s@.len() ==> is_ascii_digit(s@[9 + i]),
    ensures
        r == frac_digit(s@, i as int),
{
    let n = s.unicode_len();
    if 9 + i < n {
        match digit_at(s, 9 + i) {
            Some(v) => v as i64,
            None => unreached(),
        }
    } else {
        0
    }
}

/// Parse a strict `HH:MM:SS[.fraction]` time string at resolution
/// `resolution`.
///
/// Returns `Format` exactly when the string does not have the time
/// shape at this resolution (in particular when it carries a fraction
/// at second resolution); `TimeValidation` exactly when it does but a
/// field is out of range; otherwise the parsed `TimeFields`.
pub fn parse_time(s: &str, resolution: i64) -> (r: Result<TimeFields, CodecError>)
    requires
        valid_resolution(resolution as int),
    ensures
        !is_time_shape(s@, resolution as int) ==> r == Err::<TimeFields, CodecError>(
            CodecError::Format,
        ),
        is_time_shape(s@, resolution as int) ==> {
            &&& (valid_time(
                shape_hour(s@),
                shape_minute(s@),
                shape_second(s@),
                shape_fraction(s@, resolution as int),
                resolution as int,
            ) <==> r is Ok)
            &&& r matches Ok(tf) ==> {
                &&& tf.hour == shape_hour(s@)
                &&& tf.minute == shape_minute(s@)
                &&& tf.second == shape_second(s@)
                &&& tf.fraction == shape_fraction(s@, resolution as int)
            }
            &&& r matches Err(e) ==> e == CodecError::TimeValidation
        },
{
    let n = s.unicode_len();
    if n < 8 {
        return Err(CodecError::Format);
    }
    if !char_at_is(s, 2, ':') || !char_at_is(s, 5, ':') {
        return Err(CodecError::Format);
    }
    let h0 = match digit_at(s, 0) {
        Some(v) => v,
        None => {
            return Err(CodecError::Format);
        },
    };
    let h1 = match digit_at(s, 1) {
        Some(v) => v,
        None => {
            return Err(CodecError::Format);
        },
    };
    let m0 = match digit_at(s, 3) {
        Some(v) => v,
        None => {
            return Err(CodecError::Format);
        },
    };
    let m1 = match digit_at(s, 4) {
        Some(v) => v,
        None => {
            return Err(CodecError::Format);
        },
    };
    let s0 = match digit_at(s, 6) {
        Some(v) => v,
        None => {
            return Err(CodecError::Format);
        },
    };
    let s1 = match digit_at(s, 7) {
        Some(v) => v,
        None => {
            return Err(CodecError::Format);
        },
    };
    if n > 8 {
        if resolution == 1 {
            return Err(CodecError::Format);
        }
        if n < 10 {
            return Err(CodecError::Format);
        }
        if !char_at_is(s, 8, '.') {
            return Err(CodecError::Format);
        }
        let mut i: usize = 9;
        while i < n
            invariant
                9 <= i <= n,
                n == s@.len(),
                forall|j: int| 9 <= j < i ==> is_ascii_digit(#[trigger] s@[j]),
            decreases n - i,
        {
            match digit_at(s, i) {
                Some(_) => {
                    i = i + 1;
                },
                None => {
                    return Err(CodecError::Format);
                },
            }
        }
    }
    let hour = 10 * h0 + h1;
    let minute = 10 * m0 + m1;
    let second = 10 * s0 + s1;
    let fraction: i64 = if n == 8 {
        0
    } else if resolution == 1000 {
        100 * frac_digit_at(s, 0) + 10 * frac_digit_at(s, 1) + frac_digit_at(s, 2)
    } else {
        100_000_000 * frac_digit_at(s, 0) + 10_000_000 * frac_digit_at(s, 1) + 1_000_000
            * frac_digit_at(s, 2) + 100_000 * frac_digit_at(s, 3) + 10_000 * frac_digit_at(s, 4)
            + 1000 * frac_digit_at(s, 5) + 100 * frac_digit_at(s, 6) + 10 * frac_digit_at(s, 7)
            + frac_digit_at(s, 8)
    };
    if hour > 23 || minute > 59 || second > 59 {
        return Err(CodecError::TimeValidation);
    }
    Ok(TimeFields { hour, minute, second, fraction })
}

/// Format a valid time of day as its canonical `HH:MM:SS[.fraction]`
/// string at resolution `resolution`: the fraction is omitted when
/// zero, and zero-padded to the resolution's width otherwise.
pub fn format_time(tf: &TimeFields, resolution: i64) -> (r: String)
    requires
        valid_resolution(resolution as int),
        valid_time(
            tf.hour as int,
            tf.minute as int,
            tf.second as int,
            tf.fraction as int,
            resolution as int,
        ),
    ensures
        r@ == time_chars(
            tf.hour as int,
            tf.minute as int,
            tf.second as int,
            tf.fraction as int,
            resolution as int,
        ),
{
    proof {
        reveal_strlit(":");
        reveal_strlit(".");
    }
    let mut out = String::new();
    append_two_digits(&mut out, tf.hour);
    out.append(":");
    append_two_digits(&mut out, tf.minute);
    out.append(":");
    append_two_digits(&mut out, tf.second);
    if tf.fraction != 0 {
        out.append(".");
        if resolution == 1000 {
            let f = tf.fraction as i32;
            out.append(digit_str(f / 100));
            out.append(digit_str((f / 10) % 10));
            out.append(digit_str(f % 10));
        } else {
            let f = tf.fraction;
            out.append(digit_str((f / 100_000_000) as i32));
            out.append(digit_str(((f / 10_000_000) % 10) as i32));
            out.append(digit_str(((f / 1_000_000) % 10) as i32));
            out.append(digit_str(((f / 100_000) % 10) as i32));
            out.append(digit_str(((f / 10_000) % 10) as i32));
            out.append(digit_str(((f / 1000) % 10) as i32));
            out.append(digit_str(((f / 100) % 10) as i32));
            out.append(digit_str(((f / 10) % 10) as i32));
            out.append(digit_str((f % 10) as i32));
        }
    }
    assert(out@ =~= time_chars(
        tf.hour as int,
        tf.minute as int,
        tf.second as int,
        tf.fraction as int,
        resolution as int,
    ));
    out
}


/// Whether `s` has the exact shape `YYYY-MM-DD HH:MM:SS[.fraction]`
/// at resolution `res`.
pub open spec fn is_datetime_shape(s: Seq<char>, res: int) -> bool {
    &&& s.len() >= 19
    &&& is_date_shape(s.subrange(0, 10))
    &&& s[10] == ' '
    &&& is_time_shape(s.subrange(11, s.len() as int), res)
}

/// The canonical `YYYY-MM-DD HH:MM:SS[.fraction]` character sequence.
pub open spec fn datetime_chars(
    y: int,
    m: int,
    d: int,
    h: int,
    mi: int,
    sec: int,
    f: int,
    res: int,
) -> Seq<char> {
    date_chars(y, m, d) + seq![' '] + time_chars(h, mi, sec, f, res)
}

/// The parsed fields of a date-time string: a date and a time of day.
#[derive(Clone, Copy, PartialEq, Eq, Structural, Debug)]
pub struct DateTimeFields {
    pub date: DateSpec,
    pub time: TimeFields,
}

/// Parse a strict `YYYY-MM-DD HH:MM:SS[.fraction]` date-time string at
/// resolution `resolution`.
///
/// Returns `Format` exactly when the string does not have the
/// date-time shape at this resolution; otherwise the date fields are
/// validated first (`DateValidation`), then the time fields
/// (`TimeValidation`); otherwise both parsed field structures.
pub fn parse_datetime(s: &str, resolution: i64) -> (r: Result<DateTimeFields, CodecError>)
    requires
        valid_resolution(resolution as int),
    ensures
        !is_datetime_shape(s@, resolution as int) ==> r == Err::<DateTimeFields, CodecError>(
            CodecError::Format,
        ),
        is_datetime_shape(s@, resolution as int) ==> ({
            let ds = s@.subrange(0, 10);
            let tq = s@.subrange(11, s@.len() as int);
            &&& ((valid_date(shape_year(ds), shape_month(ds), shape_day(ds)) && valid_time(
                shape_hour(tq),
                shape_minute(tq),
                shape_second(tq),
                shape_fraction(tq, resolution as int),
                resolution as int,
            )) <==> r is Ok)
            &&& (r matches Ok(df) ==> {
                &&& df.date.year == shape_year(ds)
                &&& df.date.mon == shape_month(ds)
                &&& df.date.mday == shape_day(ds)
                &&& df.date.yday == day_of_year(shape_year(ds), shape_month(ds), shape_day(ds))
                &&& df.time.hour == shape_hour(tq)
                &&& df.time.minute == shape_minute(tq)
                &&& df.time.second == shape_second(tq)
                &&& df.time.fraction == shape_fraction(tq, resolution as int)
            })
            &&& (r matches Err(e) ==> (if !valid_date(shape_year(ds), shape_month(ds), shape_day(ds)) {
                e == CodecError::DateValidation
            } else {
                e == CodecError::TimeValidation
            }))
        }),
{
    let n = s.unicode_len();
    if n < 19 {
        return Err(CodecError::Format);
    }
    if !char_at_is(s, 10, ' ') {
        return Err(CodecError::Format);
    }
    let dpart = s.substring_char(0, 10);
    let tpart = s.substring_char(11, n);
    let rd = parse_date(dpart);
    let rt = parse_time(tpart, resolution);
    match (rd, rt) {
        (Err(CodecError::Format), _) => Err(CodecError::Format),
        (_, Err(CodecError::Format)) => Err(CodecError::Format),
        (Err(e), _) => Err(e),
        (_, Err(e)) => Err(e),
        (Ok(dp), Ok(tf)) => Ok(DateTimeFields { date: dp, time: tf }),
    }
}

/// Format a valid date and time of day as the canonical
/// `YYYY-MM-DD HH:MM:SS[.fraction]` string at resolution `resolution`.
pub fn format_datetime(df: &DateTimeFields, resolution: i64) -> (r: String)
    requires
        valid_resolution(resolution as int),
        valid_date(df.date.year as int, df.date.mon as int, df.date.mday as int),
        valid_time(
            df.time.hour as int,
            df.time.minute as int,
            df.time.second as int,
            df.time.fraction as int,
            resolution as int,
        ),
    ensures
        r@ == datetime_chars(
            df.date.year as int,
            df.date.mon as int,
            df.date.mday as int,
            df.time.hour as int,
            df.time.minute as int,
            df.time.second as int,
            df.time.fraction as int,
            resolution as int,
        ),
{
    proof {
        reveal_strlit(" ");
    }
    let mut out = format_date(&df.date);
    out.append(" ");
    let t = format_time(&df.time, resolution);
    out.append(t.as_str());
    assert(out@ =~= datetime_chars(
        df.date.year as int,
        df.date.mon as int,
        df.date.mday as int,
        df.time.hour as int,
        df.time.minute as int,
        df.time.second as int,
        df.time.fraction as int,
        resolution as int,
    ));
    out
}


/// The two-digit decimal decomposition of a value in 0..=99.
proof fn lemma_decimal_2(v: int)
    requires
        0 <= v <= 99,
    ensures
        v == 10 * (v / 10) + v % 10,
        0 <= v / 10 <= 9,
        0 <= v % 10 <= 9,
{
    lemma_fundamental_div_mod(v, 10);
    lemma_mod_division_less_than_divisor(v, 10);
}

/// The four-digit decimal decomposition of a value in 0..=9999.
proof fn lemma_decimal_4(v: int)
    requires
        0 <= v <= 9999,
    ensures
        v == 1000 * (v / 1000) + 100 * ((v / 100) % 10) + 10 * ((v / 10) % 10) + v % 10,
        0 <= v / 1000 <= 9,
        0 <= (v / 100) % 10 <= 9,
        0 <= (v / 10) % 10 <= 9,
        0 <= v % 10 <= 9,
{
    lemma_fundamental_div_mod(v, 10);
    lemma_mod_division_less_than_divisor(v, 10);
    lemma_fundamental_div_mod(v / 10, 10);
    lemma_mod_division_less_than_divisor(v / 10, 10);
    lemma_fundamental_div_mod(v / 100, 10);
    lemma_mod_division_less_than_divisor(v / 100, 10);
    lemma_div_denominator(v, 10, 10);
    lemma_div_denominator(v, 100, 10);
    assert(100 * 10 == 1000);
}

/// The nine-digit decimal decomposition of a value in 0..=999_999_999.
proof fn lemma_decimal_9(v: int)
    requires
        0 <= v <= 999_999_999,
    ensures
        v == 100_000_000 * (v / 100_000_000) + 10_000_000 * ((v / 10_000_000) % 10) + 1_000_000 * (
        (v / 1_000_000) % 10) + 100_000 * ((v / 100_000) % 10) + 10_000 * ((v / 10_000) % 10)
            + 1000 * ((v / 1000) % 10) + 100 * ((v / 100) % 10) + 10 * ((v / 10) % 10) + v % 10,
        0 <= v / 100_000_000 <= 9,
        0 <= (v / 10_000_000) % 10 <= 9,
        0 <= (v / 1_000_000) % 10 <= 9,
        0 <= (v / 100_000) % 10 <= 9,
        0 <= (v / 10_000) % 10 <= 9,
        0 <= (v / 1000) % 10 <= 9,
        0 <= (v / 100) % 10 <= 9,
        0 <= (v / 10) % 10 <= 9,
        0 <= v % 10 <= 9,
{
    lemma_fundamental_div_mod(v, 10);
    lemma_mod_division_less_than_divisor(v, 10);
    lemma_fundamental_div_mod(v / 10, 10);
    lemma_mod_division_less_than_divisor(v / 10, 10);
    lemma_fundamental_div_mod(v / 100, 10);
    lemma_mod_division_less_than_divisor(v / 100, 10);
    lemma_fundamental_div_mod(v / 1000, 10);
    lemma_mod_division_less_than_divisor(v / 1000, 10);
    lemma_fundamental_div_mod(v / 10_000, 10);
    lemma_mod_division_less_than_divisor(v / 10_000, 10);
    lemma_fundamental_div_mod(v / 100_000, 10);
    lemma_mod_division_less_than_divisor(v / 100_000, 10);
    lemma_fundamental_div_mod(v / 1_000_000, 10);
    lemma_mod_division_less_than_divisor(v / 1_000_000, 10);
    lemma_fundamental_div_mod(v / 10_000_000, 10);
    lemma_mod_division_less_than_divisor(v / 10_000_000, 10);
    lemma_div_denominator(v, 10, 10);
    lemma_div_denominator(v, 100, 10);
    lemma_div_denominator(v, 1000, 10);
    lemma_div_denominator(v, 10_000, 10);
    lemma_div_denominator(v, 100_000, 10);
    lemma_div_denominator(v, 1_000_000, 10);
    lemma_div_denominator(v, 10_000_000, 10);
    assert(100 * 10 == 1000);
    assert(1000 * 10 == 10_000);
    assert(10_000 * 10 == 100_000);
    assert(100_000 * 10 == 1_000_000);
    assert(1_000_000 * 10 == 10_000_000);
    assert(10_000_000 * 10 == 100_000_000);
}

/// The canonical date string has the date shape, and parsing its
/// fields back yields the formatted values: the textual date codec
/// round-trips.
pub proof fn lemma_date_chars_shape(y: int, m: int, d: int)
    requires
        0 <= y <= 9999,
        0 <= m <= 99,
        0 <= d <= 99,
    ensures
        is_date_shape(date_chars(y, m, d)),
        shape_year(date_chars(y, m, d)) == y,
        shape_month(date_chars(y, m, d)) == m,
        shape_day(date_chars(y, m, d)) == d,
{
    lemma_decimal_4(y);
    lemma_decimal_2(m);
    lemma_decimal_2(d);
}

/// The canonical time string has the time shape at its resolution,
/// and parsing its fields back yields the formatted values: the
/// textual time codec round-trips.
pub proof fn lemma_time_chars_shape(h: int, mi: int, sec: int, f: int, res: int)
    requires
        valid_resolution(res),
        valid_time(h, mi, sec, f, res),
    ensures
        is_time_shape(time_chars(h, mi, sec, f, res), res),
        shape_hour(time_chars(h, mi, sec, f, res)) == h,
        shape_minute(time_chars(h, mi, sec, f, res)) == mi,
        shape_second(time_chars(h, mi, sec, f, res)) == sec,
        shape_fraction(time_chars(h, mi, sec, f, res), res) == f,
{
    lemma_decimal_2(h);
    lemma_decimal_2(mi);
    lemma_decimal_2(sec);
    let tc = time_chars(h, mi, sec, f, res);
    if f == 0 {
        assert(tc.len() == 8);
    } else if res == 1000 {
        lemma_decimal_2(f / 10);
        lemma_fundamental_div_mod(f, 10);
        lemma_mod_division_less_than_divisor(f, 10);
        lemma_fundamental_div_mod(f / 10, 10);
        lemma_mod_division_less_than_divisor(f / 10, 10);
        lemma_div_denominator(f, 10, 10);
        assert(tc.len() == 12);
        assert(forall|i: int| 9 <= i < 12 ==> is_ascii_digit(#[trigger] tc[i]));
        assert(shape_fraction(tc, res) == f);
    } else {
        lemma_decimal_9(f);
        assert(tc.len() == 18);
        assert(forall|i: int| 9 <= i < 18 ==> is_ascii_digit(#[trigger] tc[i]));
        assert(shape_fraction(tc, res) == f);
    }
}

/// The canonical date-time string has the date-time shape at its
/// resolution, and parsing its fields back yields the formatted
/// values: the textual date-time codec round-trips.
pub proof fn lemma_datetime_chars_shape(
    y: int,
    m: int,
    d: int,
    h: int,
    mi: int,
    sec: int,
    f: int,
    res: int,
)
    requires
        0 <= y <= 9999,
        0 <= m <= 99,
        0 <= d <= 99,
        valid_resolution(res),
        valid_time(h, mi, sec, f, res),
    ensures
        ({
            let dtc = datetime_chars(y, m, d, h, mi, sec, f, res);
            let ds = dtc.subrange(0, 10);
            let tq = dtc.subrange(11, dtc.len() as int);
            &&& is_datetime_shape(dtc, res)
            &&& shape_year(ds) == y && shape_month(ds) == m && shape_day(ds) == d
            &&& shape_hour(tq) == h && shape_minute(tq) == mi && shape_second(tq) == sec
            &&& shape_fraction(tq, res) == f
        }),
{
    let dtc = datetime_chars(y, m, d, h, mi, sec, f, res);
    lemma_date_chars_shape(y, m, d);
    lemma_time_chars_shape(h, mi, sec, f, res);
    assert(dtc.subrange(0, 10) =~= date_chars(y, m, d));
    assert(dtc.subrange(11, dtc.len() as int) =~= time_chars(h, mi, sec, f, res));
    assert(dtc[10] == ' ');
}


/// Parse a `YYYY-MM-DD HH:MM:SS[.fraction]` string at nanosecond
/// resolution into a Unix-epoch timestamp.
pub fn timespec_from_str(s: &str) -> (r: Result<Timespec, CodecError>)
    ensures
        !is_datetime_shape(s@, 1_000_000_000) ==> r == Err::<Timespec, CodecError>(
            CodecError::Format,
        ),
        is_datetime_shape(s@, 1_000_000_000) ==> ({
            let ds = s@.subrange(0, 10);
            let tq = s@.subrange(11, s@.len() as int);
            &&& ((valid_date(shape_year(ds), shape_month(ds), shape_day(ds)) && valid_time(
                shape_hour(tq),
                shape_minute(tq),
                shape_second(tq),
                shape_fraction(tq, 1_000_000_000),
                1_000_000_000,
            )) <==> r is Ok)
            &&& (r matches Ok(ts) ==> {
                &&& ts.sec == date_to_days(shape_year(ds), shape_month(ds), shape_day(ds)) * 86400
                    - SECS_FROM_UNIX_EPOCH + 3600 * shape_hour(tq) + 60 * shape_minute(tq)
                    + shape_second(tq)
                &&& ts.nsec == shape_fraction(tq, 1_000_000_000)
                &&& ts.wf() && ts.in_range()
            })
            &&& (r matches Err(e) ==> (if !valid_date(shape_year(ds), shape_month(ds), shape_day(ds)) {
                e == CodecError::DateValidation
            } else {
                e == CodecError::TimeValidation
            }))
        }),
{
    let df = match parse_datetime(s, 1_000_000_000) {
        Ok(df) => df,
        Err(e) => {
            return Err(e);
        },
    };
    let days = match days_from_date(df.date.year, df.date.mon, df.date.mday) {
        Ok(d) => d,
        Err(_) => unreached(),
    };
    let sod: i64 = 3600 * (df.time.hour as i64) + 60 * (df.time.minute as i64) + (
    df.time.second as i64);
    Ok(
        Timespec {
            sec: (days as i64) * 86400 - SECS_FROM_UNIX_EPOCH + sod,
            nsec: df.time.fraction as i32,
        },
    )
}

/// Format a Unix-epoch timestamp in the supported range as its
/// canonical `YYYY-MM-DD HH:MM:SS[.fraction]` string at nanosecond
/// resolution: the fields are the unique calendar decomposition of
/// the timestamp.
pub fn timespec_to_str(ts: &Timespec) -> (r: String)
    requires
        ts.wf(),
        ts.in_range(),
    ensures
        ({
            let shifted = ts.sec + SECS_FROM_UNIX_EPOCH;
            let sod = shifted % 86400;
            exists|y: int, m: int, d: int|
                {
                    &&& valid_date(y, m, d)
                    &&& #[trigger] date_to_days(y, m, d) == shifted / 86400
                    &&& r@ == datetime_chars(
                        y,
                        m,
                        d,
                        sod / 3600,
                        (sod / 60) % 60,
                        sod % 60,
                        ts.nsec as int,
                        1_000_000_000,
                    )
                }
        }),
{
    let tm = ts.tm();
    let df = DateTimeFields {
        date: DateSpec {
            year: tm.tm_year + 1900,
            mon: tm.tm_mon + 1,
            mday: tm.tm_mday,
            yday: tm.tm_yday + 1,
        },
        time: TimeFields {
            hour: tm.tm_hour,
            minute: tm.tm_min,
            second: tm.tm_sec,
            fraction: tm.tm_nsec as i64,
        },
    };
    proof {
        let shifted = ts.sec + SECS_FROM_UNIX_EPOCH;
        let sod = shifted % 86400;
        lemma_mod_division_less_than_divisor(shifted as int, 86400);
        let h = tm.tm_hour as int;
        let mi = tm.tm_min as int;
        let sec = tm.tm_sec as int;
        assert(sod == h * 3600 + (60 * mi + sec));
        lemma_fundamental_div_mod_converse_div(sod, 3600, h, 60 * mi + sec);
        assert(sod == (60 * h + mi) * 60 + sec);
        lemma_fundamental_div_mod_converse_div(sod, 60, 60 * h + mi, sec);
        lemma_fundamental_div_mod_converse_mod(sod, 60, 60 * h + mi, sec);
        assert((60 * h + mi) % 60 == mi) by {
            assert(60 * h + mi == h * 60 + mi);
            lemma_fundamental_div_mod_converse_mod(60 * h + mi, 60, h, mi);
        }
        assert((sod / 60) % 60 == mi);
        assert(sod / 3600 == h && sod % 60 == sec);
    }
    let out = format_datetime(&df, 1_000_000_000);
    proof {
        let shifted = ts.sec + SECS_FROM_UNIX_EPOCH;
        let sod = shifted % 86400;
        let y = df.date.year as int;
        let m = df.date.mon as int;
        let d = df.date.mday as int;
        assert(valid_date(y, m, d) && date_to_days(y, m, d) == shifted / 86400 && out@
            == datetime_chars(
            y,
            m,
            d,
            sod / 3600,
            (sod / 60) % 60,
            sod % 60,
            ts.nsec as int,
            1_000_000_000,
        ));
    }
    out
}

} // verus!

