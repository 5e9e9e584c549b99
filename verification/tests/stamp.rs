use backuper::db;
use backuper::stamp::{stamp_at, time_stamp, UtcParts};
use chrono::{NaiveDate, NaiveTime};

fn parts(year: i32, month: u32, day: u32, hour: u32, minute: u32, second: u32, nanosecond: u32) -> UtcParts {
    UtcParts { year, month, day, hour, minute, second, nanosecond }
}

fn chrono_stamp(p: &UtcParts) -> String {
    let date = NaiveDate::from_ymd_opt(p.year, p.month, p.day).unwrap();
    let time = NaiveTime::from_hms_nano_opt(p.hour, p.minute, p.second, p.nanosecond).unwrap();
    date.and_time(time).and_utc().format("%Y-%m-%d_%H:%M:%S").to_string()
}

#[test]
fn test_time_stamp_exact() {
    assert_eq!(time_stamp(&parts(2024, 3, 5, 7, 8, 9, 0)), "2024-03-05_07:08:09");
    assert_eq!(time_stamp(&parts(1999, 12, 31, 23, 59, 59, 999_999_999)), "1999-12-31_23:59:59");
}

#[test]
fn test_time_stamp_leap_second_is_sixty() {
    assert_eq!(time_stamp(&parts(2016, 12, 31, 23, 59, 59, 1_000_000_000)), "2016-12-31_23:59:60");
}

#[test]
fn test_time_stamp_years_outside_four_digits() {
    assert_eq!(time_stamp(&parts(33, 1, 2, 3, 4, 5, 0)), "0033-01-02_03:04:05");
    assert_eq!(time_stamp(&parts(12345, 1, 1, 0, 0, 0, 0)), "+12345-01-01_00:00:00");
    assert_eq!(time_stamp(&parts(-5, 6, 7, 8, 9, 10, 0)), "-0005-06-07_08:09:10");
}

#[test]
fn test_time_stamp_agrees_with_chrono_format() {
    let samples = [
        parts(2024, 3, 5, 7, 8, 9, 0),
        parts(2016, 12, 31, 23, 59, 59, 1_500_000_000),
        parts(0, 1, 1, 0, 0, 0, 0),
        parts(9999, 12, 31, 23, 59, 59, 0),
        parts(10000, 1, 1, 0, 0, 0, 0),
        parts(-1, 2, 28, 12, 30, 45, 7),
        parts(-12345, 11, 30, 1, 2, 3, 0),
        parts(7, 7, 7, 7, 7, 7, 7),
    ];
    for p in samples {
        assert_eq!(time_stamp(&p), chrono_stamp(&p), "{p:?}");
    }
}

#[test]
fn test_create_filename_stamp_shape() {
    let f = db::create_filename("tdb", &None).unwrap();
    let stamp = f.strip_prefix("backup_tdb_").unwrap().strip_suffix(".dump").unwrap();
    assert_eq!(stamp.len(), 19);
    let shape: String = stamp.chars().map(|c| if c.is_ascii_digit() { 'd' } else { c }).collect();
    assert_eq!(shape, "dddd-dd-dd_dd:dd:dd");
}

#[test]
fn test_stamp_at() {
    assert_eq!(stamp_at(0, 0).unwrap(), "1970-01-01_00:00:00");
    assert_eq!(stamp_at(1_431_648_000, 5).unwrap(), "2015-05-15_00:00:00");
    assert_eq!(stamp_at(1_483_228_799, 1_000_000_000).unwrap(), "2016-12-31_23:59:60");
    assert!(stamp_at(u64::MAX, 0).is_none());
    assert!(stamp_at(i64::MAX as u64, 0).is_none());
    assert!(stamp_at(0, 2_000_000_000).is_none());
}
