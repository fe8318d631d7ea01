use datetime::{
    date_from_days, format_date, format_datetime, format_time, parse_date, parse_datetime,
    parse_time, timespec_from_str, timespec_to_str, CodecError, TimeFields, Timespec,
    MAX_DAY_COUNT,
};

fn test_dt_str(s: &str) {
    match timespec_from_str(s) {
        Ok(dt) => {
            let dts = timespec_to_str(&dt);
            if s != dts {
                panic!("test_dt_str: {}, {}", s, dts)
            }
        }
        Err(e) => {
            panic!("test_dt_str: {}, {:?}", s, e)
        }
    }
}

#[test]
fn test_dt_limits() {
    test_dt_str("2012-05-07 09:56:33");
    test_dt_str("1000-01-01 00:00:00");
    test_dt_str("9999-12-31 23:59:59");
    test_dt_str("1900-02-28 23:59:59");
    test_dt_str("1900-03-01 00:00:00");
    test_dt_str("2000-02-29 23:59:59");
    test_dt_str("2000-03-01 00:00:00");
}

#[test]
fn test_bad_leap() {
    assert_eq!(
        timespec_from_str("2100-02-29 23:59:59"),
        Err(CodecError::DateValidation)
    );
}

#[test]
fn test_day_boundary_strings() {
    let dp = date_from_days(0).unwrap();
    assert_eq!(format_date(&dp), "0001-01-01");
    let dp = date_from_days(MAX_DAY_COUNT).unwrap();
    assert_eq!(format_date(&dp), "9999-12-31");
}

#[test]
fn test_datetime_string_round_trip() {
    test_dt_str("2012-05-07 09:56:33");
    let ts = timespec_from_str("9999-12-31 23:59:59.999999999").unwrap();
    assert_eq!(ts.sec, 253_402_300_799);
    assert_eq!(ts.nsec, 999_999_999);
    assert_eq!(timespec_to_str(&ts), "9999-12-31 23:59:59.999999999");
}

#[test]
fn test_unix_epoch_boundaries() {
    let ts = timespec_from_str("0001-01-01 00:00:00").unwrap();
    assert_eq!(
        ts,
        Timespec {
            sec: -62_135_596_800,
            nsec: 0
        }
    );
    assert_eq!(
        timespec_to_str(&Timespec {
            sec: -62_135_596_800,
            nsec: 0
        }),
        "0001-01-01 00:00:00"
    );
    let ts = timespec_from_str("1970-01-01 00:00:00").unwrap();
    assert_eq!(ts, Timespec { sec: 0, nsec: 0 });
    assert_eq!(
        timespec_to_str(&Timespec { sec: 0, nsec: 0 }),
        "1970-01-01 00:00:00"
    );
}

#[test]
fn test_negative_seconds_floor() {
    assert_eq!(
        timespec_to_str(&Timespec { sec: -1, nsec: 0 }),
        "1969-12-31 23:59:59"
    );
}

#[test]
fn test_parse_rejects_malformed() {
    assert_eq!(
        timespec_from_str("9999-12-31T23:59:59"),
        Err(CodecError::Format)
    );
    assert_eq!(parse_date("1111-3-31"), Err(CodecError::Format));
    assert_eq!(parse_date("11x1-12-31"), Err(CodecError::Format));
    assert_eq!(parse_date("2012/05/07"), Err(CodecError::Format));
    assert_eq!(parse_date("2012-05-07 "), Err(CodecError::Format));
    assert_eq!(parse_date(""), Err(CodecError::Format));
    assert_eq!(parse_time("9:56:33", 1), Err(CodecError::Format));
    assert_eq!(parse_time("09:56", 1), Err(CodecError::Format));
    assert_eq!(parse_time("09:56:33.5", 1), Err(CodecError::Format));
    assert_eq!(parse_time("09:56:33.", 1000), Err(CodecError::Format));
    assert_eq!(parse_time("09:56:33.1x", 1000), Err(CodecError::Format));
    assert_eq!(
        parse_datetime("2012-05-07T09:56:33", 1000),
        Err(CodecError::Format)
    );
    assert_eq!(
        parse_datetime("2012-05-07  09:56:33", 1000),
        Err(CodecError::Format)
    );
}

#[test]
fn test_parse_validation_errors() {
    assert_eq!(parse_date("1900-02-29"), Err(CodecError::DateValidation));
    assert_eq!(parse_date("2012-13-01"), Err(CodecError::DateValidation));
    assert_eq!(parse_date("0000-01-01"), Err(CodecError::DateValidation));
    assert_eq!(parse_time("24:00:00", 1), Err(CodecError::TimeValidation));
    assert_eq!(parse_time("23:60:00", 1), Err(CodecError::TimeValidation));
    assert_eq!(parse_time("23:00:60", 1), Err(CodecError::TimeValidation));
    assert_eq!(
        parse_datetime("2012-02-30 00:00:00", 1),
        Err(CodecError::DateValidation)
    );
    assert_eq!(
        parse_datetime("2012-02-28 24:00:00", 1),
        Err(CodecError::TimeValidation)
    );
}

#[test]
fn test_fraction_policy() {
    // digits beyond the resolution's width are truncated, missing
    // trailing digits count as zero
    let tf = parse_time("00:00:00.123456", 1000).unwrap();
    assert_eq!(tf.fraction, 123);
    let tf = parse_time("00:00:00.5", 1000).unwrap();
    assert_eq!(tf.fraction, 500);
    let tf = parse_time("00:00:00.1234567891", 1_000_000_000).unwrap();
    assert_eq!(tf.fraction, 123_456_789);
    // formatting pads to the width and omits a zero fraction
    let tf = TimeFields {
        hour: 1,
        minute: 2,
        second: 3,
        fraction: 45,
    };
    assert_eq!(format_time(&tf, 1000), "01:02:03.045");
    let tf = TimeFields {
        hour: 1,
        minute: 2,
        second: 3,
        fraction: 0,
    };
    assert_eq!(format_time(&tf, 1000), "01:02:03");
    let tf = TimeFields {
        hour: 23,
        minute: 59,
        second: 59,
        fraction: 7,
    };
    assert_eq!(format_time(&tf, 1_000_000_000), "23:59:59.000000007");
}

#[test]
fn test_format_parse_identity() {
    let df = parse_datetime("2012-05-07 09:56:33.123", 1000).unwrap();
    assert_eq!(df.date.year, 2012);
    assert_eq!(df.date.mon, 5);
    assert_eq!(df.date.mday, 7);
    assert_eq!(df.time.hour, 9);
    assert_eq!(df.time.fraction, 123);
    assert_eq!(format_datetime(&df, 1000), "2012-05-07 09:56:33.123");
    let df = parse_datetime("0001-01-01 00:00:00", 1).unwrap();
    assert_eq!(format_datetime(&df, 1), "0001-01-01 00:00:00");
}
