use systemhog::log::{civil_from_days, log_line, needs_rotation, rotated_path, ts_utc};

#[test]
fn epoch_is_1970_01_01() {
    assert_eq!(civil_from_days(0), (1970, 1, 1));
}

#[test]
fn known_dates() {
    assert_eq!(civil_from_days(1), (1970, 1, 2));
    assert_eq!(civil_from_days(11017), (2000, 3, 1)); // leap year
    assert_eq!(civil_from_days(20668), (2026, 8, 3));
    assert_eq!(civil_from_days(-1), (1969, 12, 31));
}

#[test]
fn leap_days_and_century_rules() {
    assert_eq!(civil_from_days(11016), (2000, 2, 29));
    assert_eq!(civil_from_days(-25508), (1900, 3, 1)); // 1900 is not a leap year
    assert_eq!(civil_from_days(-25509), (1900, 2, 28));
    assert_eq!(civil_from_days(-719468), (0, 3, 1));
    assert_eq!(civil_from_days(-719469), (0, 2, 29));
    assert_eq!(civil_from_days(2932896), (9999, 12, 31));
}

#[test]
fn timestamps() {
    assert_eq!(ts_utc(0), "1970-01-01 00:00:00");
    assert_eq!(ts_utc(86399), "1970-01-01 23:59:59");
    assert_eq!(ts_utc(951782400), "2000-02-29 00:00:00");
    assert_eq!(ts_utc(1785774305), "2026-08-03 16:25:05");
}

#[test]
fn log_lines_and_rotation() {
    assert_eq!(log_line("2026-08-03 16:25:05", "INFO", "hello"), "2026-08-03 16:25:05 INFO hello\n");
    assert!(!needs_rotation(1048575));
    assert!(needs_rotation(1048576));
    assert_eq!(rotated_path("/var/log/systemhog.log"), "/var/log/systemhog.log.1");
}

#[test]
fn extreme_day_numbers() {
    assert_eq!(civil_from_days(i64::MAX - 719468), (25252734927766554, 9, 25));
    assert_eq!(civil_from_days(i64::MIN), (-25252734927764585, 6, 7));
    assert_eq!(ts_utc(u64::MAX), "584554051223-11-09 07:00:15");
}
