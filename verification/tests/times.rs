use datetime::{
    parts_from_time, time_from_parts, CodecError, Time, TimeFields, Timespec, NANOS_PER_DAY,
};

fn test_time(i: i64) {
    let t = Time { nanos: i };
    let tm = t.tm();
    let t2 = Time::from_tm(&tm).unwrap();
    if t2 != t {
        panic!("test_time failed for: {:?}, {:?}, {:?}", t, t2, tm)
    }
    let ts = t.timespec();
    let t3 = Time::from_timespec(ts);
    if t3 != t {
        panic!("test_time failed for: {:?}, {:?}, {:?}", t, t3, ts)
    }
}

#[test]
fn test_some_times() {
    test_time(0);
    test_time(1);
    test_time(86399999999998);
    test_time(86399999999999);
    assert_eq!(
        parts_from_time(-1, 1_000_000_000),
        Err(CodecError::TimeRange)
    );
    assert_eq!(
        parts_from_time(-86399999999999, 1_000_000_000),
        Err(CodecError::TimeRange)
    );
}

#[test]
fn test_time_from_timespec_floor() {
    // one second before the epoch maps to the last second of the day
    let t = Time::from_timespec(Timespec {
        sec: -1,
        nsec: 999_999_999,
    });
    assert_eq!(t.nanos, NANOS_PER_DAY - 1);
    let t = Time::from_timespec(Timespec { sec: -86400, nsec: 0 });
    assert_eq!(t.nanos, 0);
    let t = Time::from_timespec(Timespec { sec: 86401, nsec: 5 });
    assert_eq!(t.nanos, 1_000_000_005);
}

#[test]
fn test_time_round_trip_each_resolution() {
    for res in [1i64, 1000, 1_000_000_000] {
        let day = 86400 * res;
        let step = if res == 1 {
            7
        } else if res == 1000 {
            6007
        } else {
            6_000_000_007
        };
        let mut t: i64 = 0;
        while t < day {
            let tf = parts_from_time(t, res).unwrap();
            assert_eq!(
                time_from_parts(tf.hour, tf.minute, tf.second, tf.fraction, res),
                Ok(t)
            );
            t += step;
        }
        for t in [0, day - 1] {
            let tf = parts_from_time(t, res).unwrap();
            assert_eq!(
                time_from_parts(tf.hour, tf.minute, tf.second, tf.fraction, res),
                Ok(t)
            );
        }
        assert_eq!(parts_from_time(day, res), Err(CodecError::TimeRange));
        assert_eq!(parts_from_time(-1, res), Err(CodecError::TimeRange));
    }
}

#[test]
fn test_known_time_values() {
    assert_eq!(time_from_parts(9, 56, 33, 0, 1), Ok(35793));
    assert_eq!(time_from_parts(23, 59, 59, 999, 1000), Ok(86_399_999));
    assert_eq!(
        time_from_parts(23, 59, 59, 999_999_999, 1_000_000_000),
        Ok(NANOS_PER_DAY - 1)
    );
    let tf = parts_from_time(35793, 1).unwrap();
    assert_eq!(
        tf,
        TimeFields {
            hour: 9,
            minute: 56,
            second: 33,
            fraction: 0
        }
    );
}

#[test]
fn test_time_validation() {
    assert_eq!(time_from_parts(24, 0, 0, 0, 1), Err(CodecError::TimeValidation));
    assert_eq!(time_from_parts(-1, 0, 0, 0, 1), Err(CodecError::TimeValidation));
    assert_eq!(time_from_parts(0, 60, 0, 0, 1), Err(CodecError::TimeValidation));
    assert_eq!(time_from_parts(0, 0, 60, 0, 1), Err(CodecError::TimeValidation));
    assert_eq!(
        time_from_parts(0, 0, 0, 1, 1),
        Err(CodecError::TimeValidation)
    );
    assert_eq!(
        time_from_parts(0, 0, 0, 1000, 1000),
        Err(CodecError::TimeValidation)
    );
    assert_eq!(
        time_from_parts(0, 0, 0, -1, 1_000_000_000),
        Err(CodecError::TimeValidation)
    );
}
