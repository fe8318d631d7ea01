//! Calendar tables: the leap-year rule, per-month lengths and
//! cumulative day offsets, and the day-of-year to month lookup.

use vstd::prelude::*;

verus! {

/// The proleptic Gregorian leap-year rule.
pub open spec fn is_leapyear(y: int) -> bool {
    y % 4 == 0 && (y % 100 != 0 || y % 400 == 0)
}

/// Number of days in year `y`: 366 in a leap year, 365 otherwise.
pub open spec fn year_len(y: int) -> int {
    if is_leapyear(y) {
        366
    } else {
        365
    }
}

/// Number of days in the months strictly before month `m` (1-based)
/// of a year whose leap flag is `ly`. For `m == 13` this is the whole
/// year's length.
pub open spec fn days_before_month(m: int, ly: bool) -> int {
    let xtra: int = if ly && m > 2 {
        1
    } else {
        0
    };
    let base: int = if m <= 1 {
        0
    } else if m == 2 {
        31
    } else if m == 3 {
        59
    } else if m == 4 {
        90
    } else if m == 5 {
        120
    } else if m == 6 {
        151
    } else if m == 7 {
        181
    } else if m == 8 {
        212
    } else if m == 9 {
        243
    } else if m == 10 {
        273
    } else if m == 11 {
        304
    } else if m == 12 {
        334
    } else {
        365
    };
    base + xtra
}

/// Length in days of month `m` (1-based) of a year whose leap flag is `ly`.
pub open spec fn month_len(m: int, ly: bool) -> int {
    if m == 2 {
        if ly {
            29
        } else {
            28
        }
    } else if m == 4 || m == 6 || m == 9 || m == 11 {
        30
    } else {
        31
    }
}

/// The cumulative table is consistent with the month lengths: each
/// month ends where the next one begins.
pub proof fn lemma_days_before_month_succ(m: int, ly: bool)
    requires
        1 <= m <= 12,
    ensures
        days_before_month(m + 1, ly) == days_before_month(m, ly) + month_len(m, ly),
{
}

/// The cumulative table is strictly monotonic over the months of one year.
pub proof fn lemma_days_before_month_monotonic(m1: int, m2: int, ly: bool)
    requires
        1 <= m1 <= m2 <= 13,
    ensures
        days_before_month(m1, ly) <= days_before_month(m2, ly),
        m1 < m2 ==> days_before_month(m1, ly) + month_len(m1, ly) <= days_before_month(m2, ly),
{
}

/// Whether `y` is a leap year.
pub fn leapyear(y: i32) -> (b: bool)
    ensures
        b == is_leapyear(y as int),
{
    y % 4 == 0 && (y % 100 != 0 || y % 400 == 0)
}

/// Length in days of month `m` of a year whose leap flag is `ly`.
/// The month must have been validated to 1..=12 by the caller.
pub fn month_length(m: i32, ly: bool) -> (r: i32)
    requires
        1 <= m <= 12,
    ensures
        r == month_len(m as int, ly),
{
    let base: i32 = if m == 2 {
        28
    } else if m == 4 || m == 6 || m == 9 || m == 11 {
        30
    } else {
        31
    };
    let xtra: i32 = if ly && m == 2 {
        1
    } else {
        0
    };
    base + xtra
}

/// Number of days in the months strictly before month `m` of a year
/// whose leap flag is `ly`. The month must have been validated to
/// 1..=12 by the caller.
pub fn accume_days(m: i32, ly: bool) -> (r: i32)
    requires
        1 <= m <= 12,
    ensures
        r == days_before_month(m as int, ly),
{
    let base: i32 = if m == 1 {
        0
    } else if m == 2 {
        31
    } else if m == 3 {
        59
    } else if m == 4 {
        90
    } else if m == 5 {
        120
    } else if m == 6 {
        151
    } else if m == 7 {
        181
    } else if m == 8 {
        212
    } else if m == 9 {
        243
    } else if m == 10 {
        273
    } else if m == 11 {
        304
    } else {
        334
    };
    let xtra: i32 = if ly && m > 2 {
        1
    } else {
        0
    };
    base + xtra
}

/// The month (1-based) that contains the 0-based day-of-year `doy` of
/// a year whose leap flag is `ly`.
pub fn month_lookup(doy: i32, ly: bool) -> (m: i32)
    requires
        0 <= doy < days_before_month(13, ly),
    ensures
        1 <= m <= 12,
        days_before_month(m as int, ly) <= doy < days_before_month(m as int + 1, ly),
{
    let adj: i32 = if ly && doy > 58 {
        doy - 1
    } else {
        doy
    };
    if adj < 31 {
        1
    } else if adj < 59 {
        2
    } else if adj < 90 {
        3
    } else if adj < 120 {
        4
    } else if adj < 151 {
        5
    } else if adj < 181 {
        6
    } else if adj < 212 {
        7
    } else if adj < 243 {
        8
    } else if adj < 273 {
        9
    } else if adj < 304 {
        10
    } else if adj < 334 {
        11
    } else {
        12
    }
}

} // verus!
