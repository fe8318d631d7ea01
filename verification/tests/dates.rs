use datetime::{
    accume_days, date_from_days, days_from_date, leapyear, month_length, month_lookup, CodecError,
    Date, MAX_DAY_COUNT,
};

fn test_date(i: i32) {
    let d = Date { days: i };
    let tm = d.tm();
    let d2 = Date::from_tm(&tm).unwrap();
    if d2 != d {
        panic!("test_date failed for: {:?}, {:?}, {:?}", d, d2, tm)
    }
    let ts = d.timespec();
    let d3 = Date::from_timespec(ts).unwrap();
    if d3 != d {
        panic!("test_date failed for: {:?}, {:?}, {:?}", d, d3, ts)
    }
}

#[test]
fn test_some_dates() {
    test_date(0);
    test_date(1);
    assert_eq!(date_from_days(2147483646), Err(CodecError::DateRange));
    assert_eq!(date_from_days(2147483647), Err(CodecError::DateRange));
}

#[test]
fn test_day_round_trip_sampled() {
    let mut d: i32 = 0;
    while d <= MAX_DAY_COUNT {
        let dp = date_from_days(d).unwrap();
        assert!(1 <= dp.mon && dp.mon <= 12);
        assert!(1 <= dp.mday && dp.mday <= month_length(dp.mon, leapyear(dp.year)));
        assert!(1 <= dp.yday && dp.yday <= 366);
        assert_eq!(days_from_date(dp.year, dp.mon, dp.mday), Ok(d));
        d += 997;
    }
    for d in [
        0,
        1,
        364,
        365,
        366,
        1460,
        1461,
        36523,
        36524,
        146096,
        146097,
        719161,
        719162,
        MAX_DAY_COUNT - 1,
        MAX_DAY_COUNT,
    ] {
        let dp = date_from_days(d).unwrap();
        assert_eq!(days_from_date(dp.year, dp.mon, dp.mday), Ok(d));
    }
}

#[test]
fn test_date_round_trip_fields() {
    for (y, m, d) in [
        (1, 1, 1),
        (1, 12, 31),
        (4, 2, 29),
        (100, 3, 1),
        (400, 12, 31),
        (1900, 2, 28),
        (1970, 1, 1),
        (2000, 2, 29),
        (2012, 5, 7),
        (9999, 12, 31),
    ] {
        let n = days_from_date(y, m, d).unwrap();
        let dp = date_from_days(n).unwrap();
        assert_eq!((dp.year, dp.mon, dp.mday), (y, m, d));
    }
}

#[test]
fn test_day_boundaries() {
    let dp = date_from_days(0).unwrap();
    assert_eq!((dp.year, dp.mon, dp.mday, dp.yday), (1, 1, 1, 1));
    let dp = date_from_days(MAX_DAY_COUNT).unwrap();
    assert_eq!((dp.year, dp.mon, dp.mday, dp.yday), (9999, 12, 31, 365));
    assert_eq!(date_from_days(MAX_DAY_COUNT + 1), Err(CodecError::DateRange));
    assert_eq!(date_from_days(-1), Err(CodecError::DateRange));
}

#[test]
fn test_leap_boundaries() {
    assert_eq!(days_from_date(1900, 2, 28), Ok(693653));
    assert_eq!(days_from_date(1900, 2, 29), Err(CodecError::DateValidation));
    assert_eq!(days_from_date(2000, 2, 29), Ok(730178));
    assert_eq!(days_from_date(2100, 2, 29), Err(CodecError::DateValidation));
}

#[test]
fn test_known_day_numbers() {
    assert_eq!(days_from_date(1, 1, 1), Ok(0));
    assert_eq!(days_from_date(1970, 1, 1), Ok(719162));
    assert_eq!(days_from_date(2012, 5, 7), Ok(734629));
    assert_eq!(days_from_date(9999, 12, 31), Ok(MAX_DAY_COUNT));
}

#[test]
fn test_days_from_date_validation() {
    assert_eq!(days_from_date(0, 1, 1), Err(CodecError::DateValidation));
    assert_eq!(days_from_date(10000, 1, 1), Err(CodecError::DateValidation));
    assert_eq!(days_from_date(2012, 0, 1), Err(CodecError::DateValidation));
    assert_eq!(days_from_date(2012, 13, 1), Err(CodecError::DateValidation));
    assert_eq!(days_from_date(2012, 4, 0), Err(CodecError::DateValidation));
    assert_eq!(days_from_date(2012, 4, 31), Err(CodecError::DateValidation));
}

#[test]
fn test_calendar_tables() {
    assert!(leapyear(2000) && leapyear(2012) && leapyear(4));
    assert!(!leapyear(1900) && !leapyear(2100) && !leapyear(1));
    assert_eq!(month_length(2, true), 29);
    assert_eq!(month_length(2, false), 28);
    assert_eq!(month_length(1, false), 31);
    assert_eq!(month_length(4, true), 30);
    assert_eq!(month_length(12, false), 31);
    assert_eq!(accume_days(1, false), 0);
    assert_eq!(accume_days(2, true), 31);
    assert_eq!(accume_days(3, false), 59);
    assert_eq!(accume_days(3, true), 60);
    assert_eq!(accume_days(12, false), 334);
    assert_eq!(month_lookup(0, false), 1);
    assert_eq!(month_lookup(30, false), 1);
    assert_eq!(month_lookup(31, false), 2);
    assert_eq!(month_lookup(58, true), 2);
    assert_eq!(month_lookup(59, true), 2);
    assert_eq!(month_lookup(59, false), 3);
    assert_eq!(month_lookup(60, true), 3);
    assert_eq!(month_lookup(364, false), 12);
    assert_eq!(month_lookup(365, true), 12);
}

#[test]
fn test_date_tm_fields() {
    let d = Date { days: 734629 };
    let tm = d.tm();
    assert_eq!(tm.tm_year, 112);
    assert_eq!(tm.tm_mon, 4);
    assert_eq!(tm.tm_mday, 7);
    assert_eq!(tm.tm_yday, 127);
    assert_eq!(tm.tm_wday, 1);
    assert_eq!(tm.tm_hour, 0);
    assert_eq!(tm.tm_min, 0);
    assert_eq!(tm.tm_sec, 0);
    assert_eq!(tm.tm_nsec, 0);
    assert_eq!(tm.tm_isdst, 0);
    assert_eq!(tm.tm_gmtoff, 0);
    assert_eq!(tm.tm_zone, "UTC");
}
