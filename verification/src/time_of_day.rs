//! Time-of-day codec: the bijection between a linear count of sub-day
//! units since midnight and {hour, minute, second, fraction}, at a
//! chosen resolution (units per second).

use vstd::arithmetic::div_mod::{
    lemma_div_denominator, lemma_fundamental_div_mod, lemma_fundamental_div_mod_converse_div,
    lemma_fundamental_div_mod_converse_mod, lemma_mod_division_less_than_divisor,
};
use vstd::arithmetic::mul::{lemma_mul_inequality, lemma_mul_upper_bound};
use vstd::prelude::*;

use crate::CodecError;

verus! {

/// A time of day: hour, minute, second, and the sub-second fraction in
/// units of the chosen resolution.
#[derive(Clone, Copy, PartialEq, Eq, Structural, Debug)]
pub struct TimeFields {
    pub hour: i32,
    pub minute: i32,
    pub second: i32,
    pub fraction: i64,
}

/// The supported resolutions, in units per second: seconds,
/// milliseconds, nanoseconds.
pub open spec fn valid_resolution(res: int) -> bool {
    res == 1 || res == 1000 || res == 1_000_000_000
}

/// Whether the fields are a valid time of day at resolution `res`.
pub open spec fn valid_time(h: int, m: int, s: int, f: int, res: int) -> bool {
    &&& 0 <= h < 24
    &&& 0 <= m < 60
    &&& 0 <= s < 60
    &&& 0 <= f < res
}

/// The linear unit count of the time {`h`, `m`, `s`, `f`} at
/// resolution `res`.
pub open spec fn time_to_linear(h: int, m: int, s: int, f: int, res: int) -> int {
    res * (3600 * h + 60 * m + s) + f
}

/// Encode a time of day as a linear count of sub-day units since
/// midnight at resolution `resolution`.
///
/// Returns `TimeValidation` exactly when a field is out of range;
/// otherwise `time_to_linear(..)`, which lies in
/// [0, resolution * 86400).
pub fn time_from_parts(hour: i32, minute: i32, second: i32, fraction: i64, resolution: i64) -> (r:
    Result<i64, CodecError>)
    requires
        valid_resolution(resolution as int),
    ensures
        valid_time(hour as int, minute as int, second as int, fraction as int, resolution as int)
            <==> r is Ok,
        r matches Ok(t) ==> {
            &&& t == time_to_linear(
                hour as int,
                minute as int,
                second as int,
                fraction as int,
                resolution as int,
            )
            &&& 0 <= t < 86400 * resolution
        },
        r matches Err(e) ==> e == CodecError::TimeValidation,
{
    if hour < 0 || hour > 23 || minute < 0 || minute > 59 || second < 0 || second > 59 || fraction
        < 0 || fraction >= resolution {
        return Err(CodecError::TimeValidation);
    }
    let sec_of_day: i64 = 3600 * (hour as i64) + 60 * (minute as i64) + (second as i64);
    proof {
        lemma_mul_upper_bound(resolution as int, 1_000_000_000, sec_of_day as int, 86399);
        vstd::arithmetic::mul::lemma_mul_nonnegative(resolution as int, sec_of_day as int);
        lemma_mul_inequality(sec_of_day as int, 86399, resolution as int);
    }
    Ok(resolution * sec_of_day + fraction)
}

/// Decode a linear count of sub-day units since midnight at resolution
/// `resolution` into {hour, minute, second, fraction}.
///
/// Returns `TimeRange` exactly when `linear` is outside
/// [0, resolution * 86400); otherwise the unique valid fields whose
/// `time_to_linear` equals `linear`.
pub fn parts_from_time(linear: i64, resolution: i64) -> (r: Result<TimeFields, CodecError>)
    requires
        valid_resolution(resolution as int),
    ensures
        (0 <= linear < 86400 * resolution) <==> r is Ok,
        r matches Ok(tf) ==> {
            &&& valid_time(
                tf.hour as int,
                tf.minute as int,
                tf.second as int,
                tf.fraction as int,
                resolution as int,
            )
            &&& time_to_linear(
                tf.hour as int,
                tf.minute as int,
                tf.second as int,
                tf.fraction as int,
                resolution as int,
            ) == linear
        },
        r matches Err(e) ==> e == CodecError::TimeRange,
{
    if linear < 0 || linear >= 86400 * resolution {
        return Err(CodecError::TimeRange);
    }
    let sec: i64 = linear / resolution;
    let fraction: i64 = linear % resolution;
    proof {
        lemma_fundamental_div_mod(linear as int, resolution as int);
        lemma_mod_division_less_than_divisor(linear as int, resolution as int);
        assert(sec < 86400) by {
            if linear / resolution >= 86400 {
                lemma_mul_inequality(86400, linear as int / resolution as int, resolution as int);
            }
        }
        lemma_div_denominator(sec as int, 60, 60);
        lemma_fundamental_div_mod(sec as int, 60);
        lemma_mod_division_less_than_divisor(sec as int, 60);
        lemma_fundamental_div_mod(sec as int / 60, 60);
        lemma_mod_division_less_than_divisor(sec as int / 60, 60);
    }
    let hour: i32 = (sec / 3600) as i32;
    let minute: i32 = ((sec / 60) % 60) as i32;
    let second: i32 = (sec % 60) as i32;
    Ok(TimeFields { hour, minute, second, fraction })
}

/// The time encoding is injective: two valid field tuples with the
/// same linear count at the same resolution are equal. Together with
/// the contract of `parts_from_time` this makes the time codec a
/// bijection on [0, resolution * 86400).
pub proof fn lemma_time_to_linear_injective(
    h1: int,
    m1: int,
    s1: int,
    f1: int,
    h2: int,
    m2: int,
    s2: int,
    f2: int,
    res: int,
)
    requires
        valid_resolution(res),
        valid_time(h1, m1, s1, f1, res),
        valid_time(h2, m2, s2, f2, res),
        time_to_linear(h1, m1, s1, f1, res) == time_to_linear(h2, m2, s2, f2, res),
    ensures
        h1 == h2,
        m1 == m2,
        s1 == s2,
        f1 == f2,
{
    let t = time_to_linear(h1, m1, s1, f1, res);
    let big1 = 3600 * h1 + 60 * m1 + s1;
    let big2 = 3600 * h2 + 60 * m2 + s2;
    vstd::arithmetic::mul::lemma_mul_is_commutative(res, big1);
    vstd::arithmetic::mul::lemma_mul_is_commutative(res, big2);
    assert(t == big1 * res + f1);
    assert(t == big2 * res + f2);
    lemma_fundamental_div_mod_converse_div(t, res, big1, f1);
    lemma_fundamental_div_mod_converse_div(t, res, big2, f2);
    lemma_fundamental_div_mod_converse_mod(t, res, big1, f1);
    lemma_fundamental_div_mod_converse_mod(t, res, big2, f2);
    assert(big1 == big2);
    assert(big1 == h1 * 3600 + (60 * m1 + s1));
    assert(big2 == h2 * 3600 + (60 * m2 + s2));
    lemma_fundamental_div_mod_converse_div(big1, 3600, h1, 60 * m1 + s1);
    lemma_fundamental_div_mod_converse_div(big2, 3600, h2, 60 * m2 + s2);
}

} // verus!
