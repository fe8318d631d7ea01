use datetime::{CodecError, Date, DateTime, Timespec, SUPPORTED_MILLIS};

#[test]
fn test_datetime_millis_round_trip() {
    // 2012-05-07 09:56:33.123
    let millis = 734629i64 * 86_400_000 + (9 * 3600 + 56 * 60 + 33) * 1000 + 123;
    let dt = DateTime { millis };
    let tm = dt.tm();
    assert_eq!(tm.tm_year, 112);
    assert_eq!(tm.tm_mon, 4);
    assert_eq!(tm.tm_mday, 7);
    assert_eq!(tm.tm_hour, 9);
    assert_eq!(tm.tm_min, 56);
    assert_eq!(tm.tm_sec, 33);
    assert_eq!(tm.tm_nsec, 123_000_000);
    assert_eq!(tm.tm_wday, 1);
    assert_eq!(tm.tm_yday, 127);
    assert_eq!(tm.tm_zone, "UTC");
    let dt2 = DateTime::from_tm(&tm).unwrap();
    assert_eq!(dt2, dt);
    let ts = dt.timespec();
    assert_eq!(ts.sec, 1336384593);
    assert_eq!(ts.nsec, 123_000_000);
    let dt3 = DateTime::from_timespec(ts).unwrap();
    assert_eq!(dt3, dt);
}

#[test]
fn test_datetime_limits() {
    let dt = DateTime { millis: 0 };
    let tm = dt.tm();
    assert_eq!((tm.tm_year, tm.tm_mon, tm.tm_mday), (-1899, 0, 1));
    let dt = DateTime {
        millis: SUPPORTED_MILLIS - 1,
    };
    let tm = dt.tm();
    assert_eq!((tm.tm_year, tm.tm_mon, tm.tm_mday), (8099, 11, 31));
    assert_eq!((tm.tm_hour, tm.tm_min, tm.tm_sec, tm.tm_nsec), (23, 59, 59, 999_000_000));
    assert_eq!(DateTime::from_tm(&tm), Ok(dt));
}

#[test]
fn test_datetime_from_timespec_range() {
    assert_eq!(
        DateTime::from_timespec(Timespec {
            sec: -62_135_596_801,
            nsec: 0
        }),
        Err(CodecError::DateRange)
    );
    assert_eq!(
        DateTime::from_timespec(Timespec {
            sec: -62_135_596_800,
            nsec: 0
        }),
        Ok(DateTime { millis: 0 })
    );
    assert_eq!(
        DateTime::from_timespec(Timespec {
            sec: 253_402_300_800,
            nsec: 0
        }),
        Err(CodecError::DateRange)
    );
    assert_eq!(
        Date::from_timespec(Timespec {
            sec: 253_402_300_800,
            nsec: 0
        }),
        Err(CodecError::DateRange)
    );
    assert_eq!(
        Date::from_timespec(Timespec {
            sec: 253_402_300_799,
            nsec: 0
        }),
        Ok(Date { days: 3_652_058 })
    );
}

#[test]
fn test_timespec_tm_round_trip() {
    let ts = Timespec {
        sec: 1336384593,
        nsec: 123_456_789,
    };
    let tm = ts.tm();
    assert_eq!(tm.tm_nsec, 123_456_789);
    assert_eq!((tm.tm_hour, tm.tm_min, tm.tm_sec), (9, 56, 33));
    let ts2 = Timespec::from_tm(&tm).unwrap();
    assert_eq!(ts2, ts);
    assert_eq!(ts.timespec(), ts);
    assert_eq!(Timespec::from_timespec(ts), ts);
}

#[test]
fn test_timespec_tm_negative_seconds() {
    // one second before the Unix epoch
    let ts = Timespec { sec: -1, nsec: 0 };
    let tm = ts.tm();
    assert_eq!((tm.tm_year, tm.tm_mon, tm.tm_mday), (69, 11, 31));
    assert_eq!((tm.tm_hour, tm.tm_min, tm.tm_sec), (23, 59, 59));
    assert_eq!(Timespec::from_tm(&tm), Ok(ts));
}

#[test]
fn test_tm_validation_errors() {
    let ts = Timespec {
        sec: 1336384593,
        nsec: 0,
    };
    let mut tm = ts.tm();
    tm.tm_mday = 32;
    assert_eq!(Timespec::from_tm(&tm), Err(CodecError::DateValidation));
    assert_eq!(DateTime::from_tm(&tm), Err(CodecError::DateValidation));
    assert_eq!(Date::from_tm(&tm), Err(CodecError::DateValidation));
    let mut tm = ts.tm();
    tm.tm_hour = 24;
    assert_eq!(Timespec::from_tm(&tm), Err(CodecError::TimeValidation));
    assert_eq!(DateTime::from_tm(&tm), Err(CodecError::TimeValidation));
    let mut tm = ts.tm();
    tm.tm_nsec = 1_000_000_000;
    assert_eq!(Timespec::from_tm(&tm), Err(CodecError::TimeValidation));
}
