// Cross-checks against the host time library: the broken-down fields
// must agree with gmtime_r, and rebuilding the timestamp through
// timegm must agree with the library's own encoding.

use datetime::timespec_from_str;

fn test_std_time(s: &str) {
    let ts = match timespec_from_str(s) {
        Ok(t) => t,
        Err(e) => panic!("test_std_time: {}, {:?}", s, e),
    };
    let dtm = ts.tm();
    let stm = time::at_utc(time::Timespec::new(ts.sec, ts.nsec));
    let ours = (
        dtm.tm_sec,
        dtm.tm_min,
        dtm.tm_hour,
        dtm.tm_mday,
        dtm.tm_mon,
        dtm.tm_year,
        dtm.tm_wday,
        dtm.tm_yday,
        dtm.tm_nsec,
    );
    let std = (
        stm.tm_sec,
        stm.tm_min,
        stm.tm_hour,
        stm.tm_mday,
        stm.tm_mon,
        stm.tm_year,
        stm.tm_wday,
        stm.tm_yday,
        stm.tm_nsec,
    );
    if ours != std {
        panic!("test_std_time: {}, {:?}, {:?}", s, ours, std)
    }
    let otm = time::Tm {
        tm_sec: dtm.tm_sec,
        tm_min: dtm.tm_min,
        tm_hour: dtm.tm_hour,
        tm_mday: dtm.tm_mday,
        tm_mon: dtm.tm_mon,
        tm_year: dtm.tm_year,
        tm_wday: dtm.tm_wday,
        tm_yday: dtm.tm_yday,
        tm_isdst: dtm.tm_isdst,
        tm_utcoff: dtm.tm_gmtoff,
        tm_nsec: dtm.tm_nsec,
    };
    let sts = otm.to_timespec();
    if (sts.sec, sts.nsec) != (ts.sec, ts.nsec) {
        panic!("test_std_time: {}, {:?}, {:?}", s, (sts.sec, sts.nsec), ts)
    }
}

#[test]
fn test_std_limits() {
    test_std_time("2012-05-07 09:56:33");
    test_std_time("2012-05-08 09:56:32");
    test_std_time("2012-05-09 09:56:31");
    test_std_time("2012-05-10 09:56:30");
    test_std_time("2012-05-11 09:56:29");
    test_std_time("2012-05-12 09:56:28");
    test_std_time("2012-05-13 09:56:27");
    test_std_time("1901-12-13 20:45:52");
    test_std_time("9999-12-31 23:59:59");
    test_std_time("2100-02-28 23:59:59");
    test_std_time("2100-03-01 00:00:00");
    test_std_time("2000-02-29 23:59:59");
    test_std_time("2000-03-01 00:00:00");
}

#[test]
fn test_std_bad_hi_limit() {
    assert!(timespec_from_str("10000-01-01 00:00:00").is_err());
}
