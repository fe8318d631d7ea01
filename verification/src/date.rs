//! Day-count codec: the bijection between a linear day count
//! (days since 0001-01-01) and {year, month, day, day-of-year}.

use vstd::arithmetic::div_mod::{
    lemma_fundamental_div_mod, lemma_fundamental_div_mod_converse_div,
    lemma_fundamental_div_mod_converse_mod, lemma_mod_division_less_than_divisor,
};
use vstd::prelude::*;

use crate::calendar::{
    accume_days, days_before_month, is_leapyear, leapyear, lemma_days_before_month_monotonic,
    lemma_days_before_month_succ, month_len, month_length, month_lookup, year_len,
};
use crate::CodecError;

verus! {

/// The largest supported linear day count, the day 9999-12-31.
pub const MAX_DAY_COUNT: i32 = 3652058;

/// A calendar date: year, month, day of month, and the derived
/// day of year (1-based).
#[derive(Clone, Copy, PartialEq, Eq, Structural, Debug)]
pub struct DateSpec {
    pub year: i32,
    pub mon: i32,
    pub mday: i32,
    pub yday: i32,
}

/// Whether {year `y`, month `m`, day `d`} is a calendar-valid date of
/// the supported range.
pub open spec fn valid_date(y: int, m: int, d: int) -> bool {
    &&& 1 <= y <= 9999
    &&& 1 <= m <= 12
    &&& 1 <= d <= month_len(m, is_leapyear(y))
}

/// Number of days in the years strictly before year `y` (1-based), the
/// linear day count of January 1 of year `y`.
pub open spec fn days_before_year(y: int) -> int {
    365 * (y - 1) + (y - 1) / 4 - (y - 1) / 100 + (y - 1) / 400
}

/// The linear day count of the date {`y`, `m`, `d`}: the closed-form
/// proleptic Gregorian day-number formula.
pub open spec fn date_to_days(y: int, m: int, d: int) -> int {
    days_before_year(y) + days_before_month(m, is_leapyear(y)) + d - 1
}

/// The 1-based day of year of the date {`y`, `m`, `d`}.
pub open spec fn day_of_year(y: int, m: int, d: int) -> int {
    days_before_month(m, is_leapyear(y)) + d
}

/// Dividing `y` by a positive `d` steps down by one exactly at the
/// multiples of `d`.
proof fn lemma_div_step(y: int, d: int)
    requires
        y >= 1,
        d >= 1,
    ensures
        y / d - (y - 1) / d == if y % d == 0 {
            1int
        } else {
            0int
        },
{
    let q = y / d;
    let r = y % d;
    lemma_fundamental_div_mod(y, d);
    lemma_mod_division_less_than_divisor(y, d);
    assert((q - 1) * d == q * d - d && q * d == d * q) by (nonlinear_arith);
    if r == 0 {
        assert(y - 1 == (q - 1) * d + (d - 1));
        lemma_fundamental_div_mod_converse_div(y - 1, d, q - 1, d - 1);
    } else {
        assert(y - 1 == q * d + (r - 1));
        lemma_fundamental_div_mod_converse_div(y - 1, d, q, r - 1);
    }
}

/// A year divisible by 400 is divisible by 100, and one divisible by
/// 100 is divisible by 4.
proof fn lemma_divisibility_chain(y: int)
    ensures
        y % 400 == 0 ==> y % 100 == 0,
        y % 100 == 0 ==> y % 4 == 0,
{
    if y % 400 == 0 {
        lemma_fundamental_div_mod(y, 400);
        assert(y == (4 * (y / 400)) * 100 + 0);
        lemma_fundamental_div_mod_converse_mod(y, 100, 4 * (y / 400), 0);
    }
    if y % 100 == 0 {
        lemma_fundamental_div_mod(y, 100);
        assert(y == (25 * (y / 100)) * 4 + 0);
        lemma_fundamental_div_mod_converse_mod(y, 4, 25 * (y / 100), 0);
    }
}

/// Year `y + 1` starts exactly `year_len(y)` days after year `y`.
pub proof fn lemma_days_before_year_succ(y: int)
    requires
        y >= 1,
    ensures
        days_before_year(y + 1) == days_before_year(y) + year_len(y),
{
    lemma_div_step(y, 4);
    lemma_div_step(y, 100);
    lemma_div_step(y, 400);
    lemma_divisibility_chain(y);
}

/// The year-start day counts are monotonic: an earlier year starts no
/// later, and strictly earlier by at least its own length.
pub proof fn lemma_days_before_year_monotonic(y1: int, y2: int)
    requires
        1 <= y1 <= y2,
    ensures
        days_before_year(y1) <= days_before_year(y2),
        y1 < y2 ==> days_before_year(y1) + year_len(y1) <= days_before_year(y2),
    decreases y2 - y1,
{
    if y1 < y2 {
        lemma_days_before_year_succ(y1);
        lemma_days_before_year_monotonic(y1 + 1, y2);
    }
}

/// A valid date's day count lies within its year, and within the
/// supported range [0, MAX_DAY_COUNT].
pub proof fn lemma_date_to_days_bounds(y: int, m: int, d: int)
    requires
        valid_date(y, m, d),
    ensures
        days_before_year(y) <= date_to_days(y, m, d) < days_before_year(y) + year_len(y),
        0 <= date_to_days(y, m, d) <= MAX_DAY_COUNT,
        date_to_days(y, m, d) == days_before_year(y) + day_of_year(y, m, d) - 1,
{
    let ly = is_leapyear(y);
    lemma_days_before_month_monotonic(m, 13, ly);
    lemma_days_before_month_succ(m, ly);
    assert(days_before_month(13, ly) == year_len(y));
    lemma_days_before_year_monotonic(1, y);
    lemma_days_before_year_succ(y);
    if y < 9999 {
        lemma_days_before_year_monotonic(y + 1, 10000);
    }
    assert(days_before_year(10000) == 3652059);
}

/// The day-number formula is injective on valid dates: no two distinct
/// dates share a linear day count. Together with the contract of
/// `date_from_days` this makes decoding the exact inverse of encoding.
pub proof fn lemma_date_to_days_injective(y1: int, m1: int, d1: int, y2: int, m2: int, d2: int)
    requires
        valid_date(y1, m1, d1),
        valid_date(y2, m2, d2),
        date_to_days(y1, m1, d1) == date_to_days(y2, m2, d2),
    ensures
        y1 == y2,
        m1 == m2,
        d1 == d2,
{
    lemma_date_to_days_bounds(y1, m1, d1);
    lemma_date_to_days_bounds(y2, m2, d2);
    if y1 < y2 {
        lemma_days_before_year_monotonic(y1, y2);
        lemma_days_before_year_succ(y1);
    }
    if y2 < y1 {
        lemma_days_before_year_monotonic(y2, y1);
        lemma_days_before_year_succ(y2);
    }
    let ly = is_leapyear(y1);
    if m1 < m2 {
        lemma_days_before_month_monotonic(m1, m2, ly);
        lemma_days_before_month_succ(m1, ly);
    }
    if m2 < m1 {
        lemma_days_before_month_monotonic(m2, m1, ly);
        lemma_days_before_month_succ(m2, ly);
    }
}

/// A normalized 400/100/4/1-year bucket decomposition of `y - 1` gives
/// the year-start day count as a linear combination of cycle lengths.
proof fn lemma_cycle_decomposition(n400: int, n100: int, n4: int, n1: int)
    requires
        0 <= n400,
        0 <= n100 <= 3,
        0 <= n4 <= 24,
        0 <= n1 <= 3,
    ensures
        days_before_year(400 * n400 + 100 * n100 + 4 * n4 + n1 + 1) == 146097 * n400 + 36524
            * n100 + 1461 * n4 + 365 * n1,
{
    let y1 = 400 * n400 + 100 * n100 + 4 * n4 + n1;
    assert(y1 == n400 * 400 + (100 * n100 + 4 * n4 + n1));
    lemma_fundamental_div_mod_converse_div(y1, 400, n400, 100 * n100 + 4 * n4 + n1);
    assert(y1 == (4 * n400 + n100) * 100 + (4 * n4 + n1));
    lemma_fundamental_div_mod_converse_div(y1, 100, 4 * n400 + n100, 4 * n4 + n1);
    assert(y1 == (100 * n400 + 25 * n100 + n4) * 4 + n1);
    lemma_fundamental_div_mod_converse_div(y1, 4, 100 * n400 + 25 * n100 + n4, n1);
}

/// A multiple of `d` divides evenly: remainder zero, quotient the
/// other factor.
proof fn lemma_mod_of_multiple(x: int, d: int)
    requires
        d >= 1,
    ensures
        (d * x) % d == 0,
        (d * x) / d == x,
{
    assert(d * x == x * d + 0);
    lemma_fundamental_div_mod_converse_mod(d * x, d, x, 0);
    lemma_fundamental_div_mod_converse_div(d * x, d, x, 0);
}

/// Decode a linear day count (days since 0001-01-01) into calendar
/// fields using the 400/100/4/1-year bucket decomposition.
///
/// Returns `DateRange` exactly when `days` is outside
/// [0, MAX_DAY_COUNT]; otherwise the unique valid date whose
/// `date_to_days` equals `days`.
pub fn date_from_days(days: i32) -> (r: Result<DateSpec, CodecError>)
    ensures
        (0 <= days <= MAX_DAY_COUNT) <==> r is Ok,
        r matches Ok(dp) ==> {
            &&& valid_date(dp.year as int, dp.mon as int, dp.mday as int)
            &&& date_to_days(dp.year as int, dp.mon as int, dp.mday as int) == days
            &&& dp.yday == day_of_year(dp.year as int, dp.mon as int, dp.mday as int)
        },
        r matches Err(e) ==> e == CodecError::DateRange,
{
    if days < 0 || days > MAX_DAY_COUNT {
        return Err(CodecError::DateRange);
    }
    let n400: i32 = days / 146097;
    let d1: i32 = days % 146097;
    let n100: i32 = d1 / 36524;
    let d2: i32 = d1 % 36524;
    let n4: i32 = d2 / 1461;
    let d3: i32 = d2 % 1461;
    let n1: i32 = d3 / 365;
    let xtra: i32 = if n100 == 4 || n1 == 4 {
        1
    } else {
        0
    };
    let y: i32 = 400 * n400 + 100 * n100 + 4 * n4 + n1 + 1 - xtra;
    let doy: i32 = d3 % 365 + 365 * xtra;
    proof {
        lemma_decode_buckets(days as int);
    }
    let ly = leapyear(y);
    let m = month_lookup(doy, ly);
    let d = doy - accume_days(m, ly) + 1;
    proof {
        lemma_days_before_month_succ(m as int, ly);
    }
    Ok(DateSpec { year: y, mon: m, mday: d, yday: doy + 1 })
}

/// The bucket decomposition of an in-range day count lands on a year
/// in range, with a day-of-year offset inside that year.
proof fn lemma_decode_buckets(days: int)
    requires
        0 <= days <= MAX_DAY_COUNT,
    ensures
        ({
            let n400 = days / 146097;
            let d1 = days % 146097;
            let n100 = d1 / 36524;
            let d2 = d1 % 36524;
            let n4 = d2 / 1461;
            let d3 = d2 % 1461;
            let n1 = d3 / 365;
            let xtra: int = if n100 == 4 || n1 == 4 {
                1
            } else {
                0
            };
            let y = 400 * n400 + 100 * n100 + 4 * n4 + n1 + 1 - xtra;
            let doy = d3 % 365 + 365 * xtra;
            &&& 1 <= y <= 9999
            &&& 0 <= doy < year_len(y)
            &&& days == days_before_year(y) + doy
        }),
{
    let n400 = days / 146097;
    let d1 = days % 146097;
    let n100 = d1 / 36524;
    let d2 = d1 % 36524;
    let n4 = d2 / 1461;
    let d3 = d2 % 1461;
    let n1 = d3 / 365;
    let r0 = d3 % 365;
    lemma_fundamental_div_mod(days, 146097);
    lemma_mod_division_less_than_divisor(days, 146097);
    lemma_fundamental_div_mod(d1, 36524);
    lemma_mod_division_less_than_divisor(d1, 36524);
    lemma_fundamental_div_mod(d2, 1461);
    lemma_mod_division_less_than_divisor(d2, 1461);
    lemma_fundamental_div_mod(d3, 365);
    lemma_mod_division_less_than_divisor(d3, 365);
    assert(0 <= n400 <= 24 && 0 <= n100 <= 4 && 0 <= n4 <= 24 && 0 <= n1 <= 4);
    if n100 == 4 {
        // The last day of a 400-year cycle: December 31 of a year
        // divisible by 400.
        assert(d1 == 146096 && d2 == 0 && d3 == 0 && n4 == 0 && n1 == 0 && r0 == 0);
        let y = 400 * n400 + 400;
        lemma_cycle_decomposition(n400, 3, 24, 3);
        assert(days == days_before_year(y) + 365);
        assert(y % 400 == 0) by {
            assert(y == 400 * (n400 + 1));
            lemma_mod_of_multiple(n400 + 1, 400);
        }
        assert(y % 4 == 0) by {
            assert(y == 4 * (100 * n400 + 100));
            lemma_mod_of_multiple(100 * n400 + 100, 4);
        }
        assert(is_leapyear(y));
    } else if n1 == 4 {
        // The last day of a 4-year sub-cycle: December 31 of a leap
        // year not divisible by 100.
        assert(d3 == 1460 && r0 == 0);
        assert(n4 <= 23);
        let y = 400 * n400 + 100 * n100 + 4 * n4 + 4;
        lemma_cycle_decomposition(n400, n100, n4, 3);
        assert(days == days_before_year(y) + 365);
        assert(y % 4 == 0) by {
            assert(y == 4 * (100 * n400 + 25 * n100 + n4 + 1));
            lemma_mod_of_multiple(100 * n400 + 25 * n100 + n4 + 1, 4);
        }
        assert(y % 100 == 4 * n4 + 4) by {
            assert(y == (4 * n400 + n100) * 100 + (4 * n4 + 4));
            lemma_fundamental_div_mod_converse_mod(y, 100, 4 * n400 + n100, 4 * n4 + 4);
        }
        assert(is_leapyear(y));
    } else {
        let y = 400 * n400 + 100 * n100 + 4 * n4 + n1 + 1;
        lemma_cycle_decomposition(n400, n100, n4, n1);
        assert(days == days_before_year(y) + r0);
    }
    let xtra: int = if n100 == 4 || n1 == 4 {
        1
    } else {
        0
    };
    let y = 400 * n400 + 100 * n100 + 4 * n4 + n1 + 1 - xtra;
    let doy = r0 + 365 * xtra;
    assert(days == days_before_year(y) + doy);
    assert(1 <= y);
    assert(y <= 9999) by {
        if y >= 10000 {
            lemma_days_before_year_monotonic(10000, y);
            assert(days_before_year(10000) == 3652059);
        }
    }
}

/// Validate calendar fields and derive the day of year.
///
/// Returns `DateValidation` exactly when {`y`, `m`, `d`} is not a
/// valid date; otherwise the `DateSpec` with those fields and the
/// derived 1-based day of year.
pub fn date_from_fields(y: i32, m: i32, d: i32) -> (r: Result<DateSpec, CodecError>)
    ensures
        valid_date(y as int, m as int, d as int) <==> r is Ok,
        r matches Ok(dp) ==> {
            &&& dp.year == y && dp.mon == m && dp.mday == d
            &&& dp.yday == day_of_year(y as int, m as int, d as int)
        },
        r matches Err(e) ==> e == CodecError::DateValidation,
{
    if y < 1 || y > 9999 || m < 1 || m > 12 {
        return Err(CodecError::DateValidation);
    }
    let ly = leapyear(y);
    if d < 1 || d > month_length(m, ly) {
        return Err(CodecError::DateValidation);
    }
    Ok(DateSpec { year: y, mon: m, mday: d, yday: accume_days(m, ly) + d })
}

/// Encode a calendar date {year `y`, month `m`, day `d`} as a linear
/// day count (days since 0001-01-01).
///
/// Returns `DateValidation` exactly when the fields are not a valid
/// date; otherwise `date_to_days(y, m, d)`, which lies in
/// [0, MAX_DAY_COUNT].
pub fn days_from_date(y: i32, m: i32, d: i32) -> (r: Result<i32, CodecError>)
    ensures
        valid_date(y as int, m as int, d as int) <==> r is Ok,
        r matches Ok(n) ==> {
            &&& n == date_to_days(y as int, m as int, d as int)
            &&& 0 <= n <= MAX_DAY_COUNT
        },
        r matches Err(e) ==> e == CodecError::DateValidation,
{
    if y < 1 || y > 9999 || m < 1 || m > 12 {
        return Err(CodecError::DateValidation);
    }
    let ly = leapyear(y);
    if d < 1 || d > month_length(m, ly) {
        return Err(CodecError::DateValidation);
    }
    proof {
        lemma_date_to_days_bounds(y as int, m as int, d as int);
    }
    let ym1: i32 = y - 1;
    Ok(365 * ym1 + ym1 / 4 - ym1 / 100 + ym1 / 400 + accume_days(m, ly) + d - 1)
}

} // verus!

